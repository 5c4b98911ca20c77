//! The content sections and the whole document.

use vstd::prelude::*;
use vstd::string::StringExecFns;

use crate::path::{get_extension, path_extension};
use crate::walk::base_name;

verus! {

/// A file of the snapshot and its text; none where it could not be read as
/// text.
pub struct FileText {
    pub path: String,
    pub content: Option<String>,
}

/// The text of a file in the document: empty where it could not be read.
pub open spec fn content_view(c: Option<String>) -> Seq<char> {
    match c {
        Some(s) => s@,
        None => Seq::empty(),
    }
}

/// The language tag of a fenced block: the path's extension, or nothing.
pub open spec fn fence_tag(path: Seq<char>) -> Seq<char> {
    match path_extension(path) {
        Some(e) => e,
        None => Seq::empty(),
    }
}

/// A header with the file's base name, then its text in a fenced block
/// tagged with its extension.
pub open spec fn section_text(path: Seq<char>, content: Seq<char>) -> Seq<char> {
    "### "@ + base_name(path) + "\n\n```"@ + fence_tag(path) + "\n"@ + content + "\n```\n\n"@
}

/// The sections of the files, in order.
pub open spec fn contents_text(fs: Seq<FileText>) -> Seq<char>
    decreases fs.len(),
{
    if fs.len() == 0 {
        Seq::empty()
    } else {
        contents_text(fs.drop_last()) + section_text(
            fs.last().path@,
            content_view(fs.last().content),
        )
    }
}

/// The whole document: the tree section, then the content section.
pub open spec fn document_text(tree: Seq<char>, contents: Seq<char>) -> Seq<char> {
    "## Directory Tree\n\n"@ + tree + "\n## File Contents\n\n"@ + contents
}

/// The section of one file.
pub fn file_section(path: &str, content: Option<&str>) -> (r: String)
    ensures
        r@ == section_text(
            path@,
            match content {
                Some(c) => c@,
                None => Seq::empty(),
            },
        ),
{
    let mut out = String::from_str("### ");
    match crate::path::file_name(path) {
        Some(n) => out.append(n.as_str()),
        None => out.append(path),
    }
    out.append("\n\n```");
    match get_extension(path) {
        Some(e) => out.append(e.as_str()),
        None => {},
    }
    out.append("\n");
    match content {
        Some(c) => out.append(c),
        None => {},
    }
    out.append("\n```\n\n");
    assert(out@ =~= section_text(
        path@,
        match content {
            Some(c) => c@,
            None => Seq::empty(),
        },
    ));
    out
}

/// The content section: the section of each file, in order.
pub fn render_contents(files: &[FileText]) -> (r: String)
    ensures
        r@ == contents_text(files@),
{
    let mut out = String::new();
    let mut i: usize = 0;
    while i < files.len()
        invariant
            i <= files@.len(),
            out@ == contents_text(files@.take(i as int)),
        decreases files@.len() - i,
    {
        let f = &files[i];
        assert(files@.take(i + 1).drop_last() =~= files@.take(i as int));
        let section = match &f.content {
            Some(c) => file_section(f.path.as_str(), Some(c.as_str())),
            None => file_section(f.path.as_str(), None),
        };
        out.append(section.as_str());
        i = i + 1;
    }
    assert(files@.take(files@.len() as int) =~= files@);
    out
}

/// The whole document from its two sections.
pub fn render_document(tree: &str, contents: &str) -> (r: String)
    ensures
        r@ == document_text(tree@, contents@),
{
    let mut out = String::from_str("## Directory Tree\n\n");
    out.append(tree);
    out.append("\n## File Contents\n\n");
    out.append(contents);
    assert(out@ =~= document_text(tree@, contents@));
    out
}

} // verus!
