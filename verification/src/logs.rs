//! Log files as they come from disk, and the JSON documents in their lines.

use crate::json::{json_document, parse_json, trees, Json, JsonTree};
use crate::text::{blank, is_blank, text_opt, texts};
use vstd::prelude::*;

verus! {

/// A log file of one JSON document a line.
pub struct LogFile {
    /// The whole path.
    pub path: String,
    /// The name of the file without its extension.
    pub stem: Option<String>,
    /// The name of the directory that the log belongs to: the one that holds it, or its project's.
    pub parent: Option<String>,
    /// When the file was last written, in Unix time.
    pub modified: Option<i64>,
    /// The lines; none where the file cannot be read.
    pub lines: Vec<String>,
}

/// A file that holds one JSON document.
pub struct DocumentFile {
    /// The name of the file without its extension.
    pub stem: Option<String>,
    /// The name of the directory that holds the file.
    pub parent: Option<String>,
    /// When the file was last written, in Unix time.
    pub modified: Option<i64>,
    /// What the file holds.
    pub content: String,
}

/// What a log file says.
#[verifier::ext_equal]
pub ghost struct LogView {
    pub path: Seq<char>,
    pub stem: Option<Seq<char>>,
    pub parent: Option<Seq<char>>,
    pub modified: Option<i64>,
    pub lines: Seq<Seq<char>>,
}

/// What a file of one document says.
#[verifier::ext_equal]
pub ghost struct DocumentView {
    pub stem: Option<Seq<char>>,
    pub parent: Option<Seq<char>>,
    pub modified: Option<i64>,
    pub content: Seq<char>,
}

impl View for LogFile {
    type V = LogView;

    open spec fn view(&self) -> LogView {
        LogView {
            path: self.path@,
            stem: text_opt(self.stem),
            parent: text_opt(self.parent),
            modified: self.modified,
            lines: texts(self.lines@),
        }
    }
}

impl View for DocumentFile {
    type V = DocumentView;

    open spec fn view(&self) -> DocumentView {
        DocumentView {
            stem: text_opt(self.stem),
            parent: text_opt(self.parent),
            modified: self.modified,
            content: self.content@,
        }
    }
}

/// What some log files say.
pub open spec fn log_views(files: Seq<LogFile>) -> Seq<LogView> {
    files.map_values(|f: LogFile| f@)
}

/// What some files of one document say.
pub open spec fn document_views(files: Seq<DocumentFile>) -> Seq<DocumentView> {
    files.map_values(|f: DocumentFile| f@)
}

/// Every file is read, in order and as it is: its path, its names, its time and all its lines.
pub proof fn law_every_file_is_read(files: Seq<LogFile>, documents: Seq<DocumentFile>, i: int)
    ensures
        log_views(files).len() == files.len(),
        0 <= i < files.len() ==> {
            let seen = log_views(files)[i];
            let file = files[i];
            &&& seen.path == file.path@
            &&& seen.stem is Some == file.stem is Some
            &&& file.stem is Some ==> seen.stem->0 == file.stem->0@
            &&& seen.parent is Some == file.parent is Some
            &&& file.parent is Some ==> seen.parent->0 == file.parent->0@
            &&& seen.modified == file.modified
            &&& seen.lines.len() == file.lines@.len()
            &&& forall|k: int|
                0 <= k < file.lines@.len() ==> #[trigger] seen.lines[k] == file.lines@[k]@
        },
        document_views(documents).len() == documents.len(),
        0 <= i < documents.len() ==> {
            let seen = document_views(documents)[i];
            let file = documents[i];
            &&& seen.stem is Some == file.stem is Some
            &&& file.stem is Some ==> seen.stem->0 == file.stem->0@
            &&& seen.parent is Some == file.parent is Some
            &&& file.parent is Some ==> seen.parent->0 == file.parent->0@
            &&& seen.modified == file.modified
            &&& seen.content == file.content@
        },
{
}

/// A name that may be missing, or another in its place.
pub open spec fn name_or(name: Option<Seq<char>>, other: Seq<char>) -> Seq<char> {
    match name {
        Some(n) => n,
        None => other,
    }
}

/// A name that may be missing, or another in its place.
pub fn name_or_else<'a>(name: &'a Option<String>, other: &'a str) -> (r: &'a str)
    ensures
        r@ == name_or(text_opt(*name), other@),
{
    match name {
        Some(n) => n.as_str(),
        None => other,
    }
}

/// The documents in some lines. A line that is empty or no JSON is passed over.
pub open spec fn documents(lines: Seq<Seq<char>>) -> Seq<JsonTree>
    decreases lines.len(),
{
    if lines.len() == 0 {
        Seq::empty()
    } else {
        let before = documents(lines.drop_last());
        match json_document(lines.last()) {
            Some(tree) if !is_blank(lines.last()) => before.push(tree),
            _ => before,
        }
    }
}

/// Every line that is JSON and not blank gives its document, in order, whatever lines stand before
/// it; no other line gives any.
pub proof fn law_line_gives_its_document(lines: Seq<Seq<char>>, line: Seq<char>)
    ensures
        json_document(line) is Some && !is_blank(line) ==> documents(lines.push(line))
            == documents(lines).push(json_document(line)->0),
        json_document(line) is None || is_blank(line) ==> documents(lines.push(line))
            == documents(lines),
        documents(Seq::empty()) == Seq::<JsonTree>::empty(),
{
    assert(lines.push(line).drop_last() =~= lines);
}

/// Whether a file is another with one more line, which holds a document.
pub open spec fn has_one_more(longer: LogView, file: LogView, v: JsonTree) -> bool {
    &&& longer.path == file.path
    &&& longer.stem == file.stem
    &&& longer.parent == file.parent
    &&& longer.modified == file.modified
    &&& longer.lines.len() > 0
    &&& longer.lines.drop_last() == file.lines
    &&& json_document(longer.lines.last()) == Some(v)
    &&& !is_blank(longer.lines.last())
}

/// One more line gives one more document.
pub proof fn lemma_one_more(longer: LogView, file: LogView, v: JsonTree)
    requires
        has_one_more(longer, file, v),
    ensures
        documents(longer.lines) == documents(file.lines).push(v),
        documents(longer.lines).drop_last() == documents(file.lines),
{
    assert(documents(file.lines).push(v).drop_last() =~= documents(file.lines));
}

/// A name that is there is taken, else the other.
pub proof fn law_name_or_other(name: Seq<char>, other: Seq<char>)
    ensures
        name_or(Some(name), other) == name,
        name_or(None, other) == other,
{
}

/// The documents in some lines. A line that is empty or no JSON is passed over.
pub fn read_documents(lines: &Vec<String>) -> (r: Vec<Json>)
    ensures
        trees(r@) == documents(texts(lines@)),
{
    let mut r: Vec<Json> = Vec::new();
    let mut i: usize = 0;
    proof {
        assert(trees(r@) =~= documents(texts(lines@).take(0)));
    }
    while i < lines.len()
        invariant
            i <= lines@.len(),
            trees(r@) == documents(texts(lines@).take(i as int)),
        decreases lines@.len() - i,
    {
        let line = lines[i].as_str();
        let ghost before = r@;
        proof {
            assert(texts(lines@).take(i + 1).drop_last() =~= texts(lines@).take(i as int));
        }
        if !blank(line) {
            if let Some(value) = parse_json(line) {
                r.push(value);
                proof {
                    assert(trees(r@) =~= trees(before).push(value@));
                }
            }
        }
        i += 1;
    }
    assert(texts(lines@).take(i as int) =~= texts(lines@));
    r
}

} // verus!
