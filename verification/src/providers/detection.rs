//! AI tools that are installed but leave no usage data.

use crate::text::texts;
use vstd::prelude::*;

verus! {

/// Which tools were found on this machine.
#[derive(Debug, Clone, Copy, PartialEq, Eq, Structural)]
pub struct FoundTools {
    pub codeium: bool,
    pub tabnine: bool,
    pub amazon_q: bool,
    pub supermaven: bool,
    pub roo_code: bool,
    pub windsurf: bool,
}

/// A name, if it is to be listed.
pub open spec fn if_found(found: bool, name: Seq<char>) -> Seq<Seq<char>> {
    if found {
        seq![name]
    } else {
        Seq::empty()
    }
}

/// The names of the tools that were found.
pub open spec fn found_names(found: FoundTools) -> Seq<Seq<char>> {
    if_found(found.codeium, "Codeium"@) + if_found(found.tabnine, "Tabnine"@) + if_found(
        found.amazon_q,
        "Amazon Q"@,
    ) + if_found(found.supermaven, "Supermaven"@) + if_found(found.roo_code, "Roo Code"@)
        + if_found(found.windsurf, "Windsurf"@)
}

/// Every tool that was found is named, in a fixed order, and no other is.
pub proof fn law_found_tools_are_named(found: FoundTools)
    ensures
        ({
            let names = found_names(found);
            let one = |yes: bool|
                if yes {
                    1int
                } else {
                    0
                };
            let a = one(found.codeium);
            let b = a + one(found.tabnine);
            let c = b + one(found.amazon_q);
            let d = c + one(found.supermaven);
            let e = d + one(found.roo_code);
            &&& names.len() == e + one(found.windsurf)
            &&& found.codeium ==> names[0] == "Codeium"@
            &&& found.tabnine ==> names[a] == "Tabnine"@
            &&& found.amazon_q ==> names[b] == "Amazon Q"@
            &&& found.supermaven ==> names[c] == "Supermaven"@
            &&& found.roo_code ==> names[d] == "Roo Code"@
            &&& found.windsurf ==> names[e] == "Windsurf"@
        }),
{
}

fn push_if(list: &mut Vec<String>, found: bool, name: &str)
    ensures
        texts(final(list)@) == texts(old(list)@) + if_found(found, name@),
{
    let ghost before = texts(list@);
    if found {
        list.push(name.to_string());
    }
    assert(texts(list@) =~= before + if_found(found, name@));
}

/// The names of the tools that are installed but leave no usage data.
pub fn detect_tools(found: FoundTools) -> (r: Vec<String>)
    ensures
        texts(r@) == found_names(found),
{
    let mut list: Vec<String> = Vec::new();
    push_if(&mut list, found.codeium, "Codeium");
    push_if(&mut list, found.tabnine, "Tabnine");
    push_if(&mut list, found.amazon_q, "Amazon Q");
    push_if(&mut list, found.supermaven, "Supermaven");
    push_if(&mut list, found.roo_code, "Roo Code");
    push_if(&mut list, found.windsurf, "Windsurf");
    assert(texts(list@) =~= found_names(found));
    list
}

} // verus!
