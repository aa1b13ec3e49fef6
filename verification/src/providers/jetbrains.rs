//! JetBrains AI Assistant: IDEs whose options name it.

use crate::collections::StrMap;
use crate::tally::{law_sorted_texts, sort_texts, sorted_texts, text_list, to_list};
use crate::text::{contains, has_part, text_opt, texts};
use crate::types::{MetaValue, ProviderReport, ProviderResult, ScanError};
use vstd::prelude::*;

verus! {

pub struct JetBrainsProvider;

/// The options of an IDE.
pub struct IdeOptions {
    /// The name of the directory of the IDE.
    pub ide: Option<String>,
    /// What the file holds, where it can be read.
    pub content: Option<String>,
}

/// What the options of an IDE say.
#[verifier::ext_equal]
pub ghost struct OptionsView {
    pub ide: Option<Seq<char>>,
    pub content: Option<Seq<char>>,
}

impl View for IdeOptions {
    type V = OptionsView;

    open spec fn view(&self) -> OptionsView {
        OptionsView { ide: text_opt(self.ide), content: text_opt(self.content) }
    }
}

/// What the options of some IDEs say.
pub open spec fn options_views(files: Seq<IdeOptions>) -> Seq<OptionsView> {
    files.map_values(|f: IdeOptions| f@)
}

/// Every file of options is read, in order and as it is.
pub proof fn law_every_ide_is_read(files: Seq<IdeOptions>, i: int)
    requires
        0 <= i < files.len(),
    ensures
        options_views(files).len() == files.len(),
        options_views(files)[i].ide is Some == files[i].ide is Some,
        files[i].ide matches Some(name) ==> options_views(files)[i].ide == Some(name@),
        options_views(files)[i].content is Some == files[i].content is Some,
        files[i].content matches Some(text) ==> options_views(files)[i].content == Some(text@),
{
}

/// The IDE, where its options name the assistant.
pub open spec fn ide_with_ai(file: OptionsView) -> Option<Seq<char>> {
    match file.content {
        Some(text) if has_part(text, "AIAssistant"@) || has_part(text, "ai.assistant"@) => file.ide,
        _ => None,
    }
}

/// The IDEs whose options name the assistant.
pub open spec fn ides_with_ai(files: Seq<OptionsView>) -> Seq<Seq<char>>
    decreases files.len(),
{
    if files.len() == 0 {
        Seq::empty()
    } else {
        match ide_with_ai(files.last()) {
            Some(ide) => ides_with_ai(files.drop_last()).push(ide),
            None => ides_with_ai(files.drop_last()),
        }
    }
}

/// What JetBrains AI Assistant reports.
pub open spec fn jetbrains_report(files: Seq<OptionsView>) -> ProviderReport {
    let blank = ProviderReport::blank("JetBrains AI Assistant"@);
    let ides = ides_with_ai(files);
    if files.len() == 0 {
        ProviderReport { invocations: Some(0), ..blank }
    } else {
        ProviderReport {
            invocations: Some(ides.len() as u64),
            metadata: Some(Map::empty().insert("ides_with_ai"@, text_list(sorted_texts(ides)))),
            ..blank
        }
    }
}

/// One more IDE counts exactly if its options can be read and name the assistant in one of its two
/// forms, and the IDE has a name.
pub proof fn law_ide_counts_if_it_names_the_assistant(files: Seq<OptionsView>, file: OptionsView)
    ensures
        ({
            let names = file.content is Some && (has_part(file.content->0, "AIAssistant"@)
                || has_part(file.content->0, "ai.assistant"@));
            &&& names && file.ide is Some ==> ides_with_ai(files.push(file)) == ides_with_ai(
                files,
            ).push(file.ide->0)
            &&& !names || file.ide is None ==> ides_with_ai(files.push(file)) == ides_with_ai(files)
        }),
        ides_with_ai(Seq::empty()).len() == 0,
{
    assert(files.push(file).drop_last() =~= files);
}

/// The IDEs that name the assistant are reported, sorted, with their number as calls.
pub proof fn law_ides_are_reported(files: Seq<OptionsView>)
    requires
        0 < files.len() <= u64::MAX,
    ensures
        ({
            let report = jetbrains_report(files);
            let ides = ides_with_ai(files);
            &&& report.provider == "JetBrains AI Assistant"@
            &&& ides.len() <= u64::MAX ==> report.invocations == Some(ides.len() as u64)
            &&& report.metadata is Some && report.metadata->0.contains_key("ides_with_ai"@)
            &&& report.metadata->0["ides_with_ai"@] is List
            &&& report.metadata->0["ides_with_ai"@]->List_0 == sorted_texts(ides).map_values(
                |s: Seq<char>| crate::types::MetaTree::Text(s),
            )
            &&& report.tokens is None && report.hours is None && report.sessions is None
        }),
{
    let ides = ides_with_ai(files);
    assert(text_list(sorted_texts(ides))->List_0 =~= sorted_texts(ides).map_values(
        |s: Seq<char>| crate::types::MetaTree::Text(s),
    ));
}

impl JetBrainsProvider {
    /// Usage from the options of all IDEs. `found` tells whether the directory of JetBrains is
    /// there at all.
    pub fn scan(&self, found: bool, files: &Vec<IdeOptions>) -> (r: Result<
        ProviderResult,
        ScanError,
    >)
        ensures
            match r {
                Ok(result) => found && result.wf() && result@ == jetbrains_report(
                    options_views(files@),
                ),
                Err(error) => !found && error.is_not_found("JetBrains directory not found"@),
            },
    {
        if !found {
            return Err(ScanError::NotFound("JetBrains directory not found".to_string()));
        }
        let mut result = ProviderResult::new("JetBrains AI Assistant");
        if files.len() == 0 {
            result.invocations = Some(0);
            return Ok(result);
        }
        let ghost all = options_views(files@);
        let mut ides: Vec<String> = Vec::new();
        let mut i: usize = 0;
        assert(texts(ides@) =~= ides_with_ai(all.take(0)));
        while i < files.len()
            invariant
                i <= files@.len(),
                all == options_views(files@),
                texts(ides@) == ides_with_ai(all.take(i as int)),
            decreases files@.len() - i,
        {
            let file = &files[i];
            let ghost before = ides@;
            proof {
                assert(all.take(i + 1).drop_last() =~= all.take(i as int));
                assert(all.take(i + 1).last() == file@);
            }
            if let Some(text) = &file.content {
                if contains(text.as_str(), "AIAssistant") || contains(
                    text.as_str(),
                    "ai.assistant",
                ) {
                    if let Some(ide) = &file.ide {
                        ides.push(ide.clone());
                        assert(texts(ides@) =~= texts(before).push(ide@));
                    }
                }
            }
            i += 1;
        }
        assert(all.take(i as int) =~= all);
        sort_texts(&mut ides);
        proof {
            law_sorted_texts(ides_with_ai(all));
        }
        let mut metadata: StrMap<MetaValue> = StrMap::new();
        metadata.insert("ides_with_ai".to_string(), to_list(&ides));
        result.invocations = Some(ides.len() as u64);
        result.metadata = Some(metadata);
        assert(result@.metadata->0 =~= jetbrains_report(all).metadata->0);
        Ok(result)
    }
}

} // verus!
