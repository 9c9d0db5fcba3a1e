//! The entries of the action dictionary of a link annotation (PDF 32000-1:2008, 12.6.4),
//! and of the file specification dictionaries it refers to (7.11).
use vstd::prelude::*;
use crate::destination::DestinationKind;
use crate::links::{ActionModel, DestModel, FileModel, FileSpec, PdfAction, PdfDestination};
use crate::text::{chars_of, push_char};

verus! {

/// The `D` entry of a go-to action.
#[derive(Clone, Debug, PartialEq)]
pub enum DestEntry {
    /// An explicit destination in this document: a reference to the page object of the
    /// zero-based page `page`, then the view.
    LocalPage { page: u32, kind: DestinationKind },
    /// An explicit destination in another document: the page number as an integer, then
    /// the view.
    RemotePage { page: i32, kind: DestinationKind },
    /// A named destination, as a string.
    Named(String),
}

/// A file specification dictionary (`Type` `Filespec`).
#[derive(Clone, Debug, PartialEq)]
pub enum FileSpecDict {
    /// A path: `F` holds its ASCII form, `UF` the path itself.
    Path { ascii: String, unicode: String },
    /// A URL: `FS` is `URL` and `F` holds the URL.
    Url(String),
}

/// An action dictionary: the action type `S`, and its `D`, `URI` and `F` entries where it
/// has them.
#[derive(Clone, Debug, PartialEq)]
pub struct ActionDict {
    pub kind: &'static str,
    pub dest: Option<DestEntry>,
    pub uri: Option<String>,
    pub file: Option<FileSpecDict>,
}

/// The printable ASCII character that stands for `c` in the ASCII form of a file name:
/// `c` itself from space to `~`, `_` otherwise.
pub open spec fn ascii_char(c: char) -> char {
    if ' ' <= c && c <= '~' {
        c
    } else {
        '_'
    }
}

/// The ASCII form of a file name.
pub open spec fn ascii_name(s: Seq<char>) -> Seq<char> {
    s.map_values(|c: char| ascii_char(c))
}

/// The ASCII form of a file name: characters from space to `~` kept, any other replaced
/// by `_`.
pub fn ascii_file_name(file: &str) -> (r: String)
    ensures
        r@ == ascii_name(file@),
{
    let v = chars_of(file);
    let mut r = String::new();
    let mut i: usize = 0;
    while i < v.len()
        invariant
            i <= v@.len(),
            r@ == ascii_name(v@.take(i as int)),
        decreases v@.len() - i,
    {
        let c = v[i];
        if ' ' <= c && c <= '~' {
            push_char(&mut r, c);
        } else {
            push_char(&mut r, '_');
        }
        i = i + 1;
        assert(r@ =~= ascii_name(v@.take(i as int)));
    }
    assert(v@.take(v@.len() as int) =~= v@);
    r
}

/// The file specification dictionary of a file.
pub open spec fn filespec_matches(d: FileSpecDict, f: FileModel) -> bool {
    match f {
        FileModel::Path(p) => d matches FileSpecDict::Path { ascii, unicode } && ascii@ == ascii_name(p)
            && unicode@ == p,
        FileModel::Url(u) => d matches FileSpecDict::Url(x) && x@ == u,
    }
}

/// The `D` entry of a destination: local (a page reference) or in another document (a
/// page number; a page above `i32::MAX` wraps as the cast to `i32` does).
pub open spec fn dest_matches(e: DestEntry, d: DestModel, local: bool) -> bool {
    match d {
        DestModel::Page { page, kind } => if local {
            e == (DestEntry::LocalPage { page, kind })
        } else {
            e == (DestEntry::RemotePage { page: page as i32, kind })
        },
        DestModel::Named(n) => e matches DestEntry::Named(x) && x@ == n,
    }
}

/// The action dictionary of an action: `GoTo` with its destination; `URI` with the URI;
/// `GoToR` with the destination (a page number) and the file; `Launch` with the file.
pub open spec fn action_dict_matches(d: ActionDict, a: ActionModel) -> bool {
    match a {
        ActionModel::GoTo(dest) => {
            &&& d.kind@ == "GoTo"@
            &&& d.uri is None
            &&& d.file is None
            &&& d.dest matches Some(e) && dest_matches(e, dest, true)
        },
        ActionModel::Uri(u) => {
            &&& d.kind@ == "URI"@
            &&& d.dest is None
            &&& d.file is None
            &&& d.uri matches Some(x) && x@ == u
        },
        ActionModel::GoToR { file, dest } => {
            &&& d.kind@ == "GoToR"@
            &&& d.uri is None
            &&& d.dest matches Some(e) && dest_matches(e, dest, false)
            &&& d.file matches Some(f) && filespec_matches(f, file)
        },
        ActionModel::Launch(file) => {
            &&& d.kind@ == "Launch"@
            &&& d.dest is None
            &&& d.uri is None
            &&& d.file matches Some(f) && filespec_matches(f, file)
        },
    }
}

/// The file specification dictionary of a file: for a path, its ASCII form and the path;
/// for a URL, the URL.
pub fn filespec_dict(file: &FileSpec) -> (r: FileSpecDict)
    ensures
        filespec_matches(r, file@),
{
    match file {
        FileSpec::Path(p) => FileSpecDict::Path { ascii: ascii_file_name(p.as_str()), unicode: p.clone() },
        FileSpec::Url(u) => FileSpecDict::Url(u.clone()),
    }
}

/// The `D` entry of a destination, in this document (`local`) or in another one.
fn dest_entry(dest: &PdfDestination, local: bool) -> (r: DestEntry)
    ensures
        dest_matches(r, dest@, local),
{
    match dest {
        PdfDestination::Page { page, kind } => {
            if local {
                DestEntry::LocalPage { page: *page, kind: *kind }
            } else {
                DestEntry::RemotePage { page: *page as i32, kind: *kind }
            }
        },
        PdfDestination::Named(name) => DestEntry::Named(name.clone()),
    }
}

/// The action dictionary of an action, as a link annotation holds it (`S`, then `D`,
/// `URI` or `F` as the action type has them).
pub fn action_dict(action: &PdfAction) -> (r: ActionDict)
    ensures
        action_dict_matches(r, action@),
{
    match action {
        PdfAction::GoTo(dest) => ActionDict {
            kind: "GoTo",
            dest: Some(dest_entry(dest, true)),
            uri: None,
            file: None,
        },
        PdfAction::Uri(uri) => ActionDict { kind: "URI", dest: None, uri: Some(uri.clone()), file: None },
        PdfAction::GoToR { file, dest } => ActionDict {
            kind: "GoToR",
            dest: Some(dest_entry(dest, false)),
            uri: None,
            file: Some(filespec_dict(file)),
        },
        PdfAction::Launch(file) => ActionDict {
            kind: "Launch",
            dest: None,
            uri: None,
            file: Some(filespec_dict(file)),
        },
    }
}

/// The ASCII form of a file name has the name's length; it keeps every printable ASCII
/// character (space through `~`) where it stands and puts `_` for every other one; so a
/// name made of printable ASCII is its own ASCII form.
pub proof fn law_ascii_name_keeps_printable(s: Seq<char>)
    ensures
        ascii_name(s).len() == s.len(),
        forall|i: int| 0 <= i < s.len() && ' ' <= s[i] && s[i] <= '~' ==> #[trigger] ascii_name(s)[i] == s[i],
        forall|i: int| 0 <= i < s.len() && !(' ' <= s[i] && s[i] <= '~') ==> #[trigger] ascii_name(s)[i] == '_',
        (forall|i: int| 0 <= i < s.len() ==> ' ' <= #[trigger] s[i] && s[i] <= '~') ==> ascii_name(s) == s,
{
    if forall|i: int| 0 <= i < s.len() ==> ' ' <= #[trigger] s[i] && s[i] <= '~' {
        assert(ascii_name(s) =~= s);
    }
}

} // verus!
