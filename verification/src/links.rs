//! Link actions of PDF link annotations and their MuPDF link-URI form.
use vstd::prelude::*;
use crate::binary32::{add_by, is_adder, is_shower, show_by, Binary32};
use crate::destination::{default_kind, kind_fragment, DestinationKind};
use crate::number::{decimal, push_decimal};
use crate::percent::{encode_uri, push_encoded};
use crate::text::chars_of;

verus! {

/// A file specification (PDF 32000-1:2008, 7.11): a file-system path, or a URL.
#[derive(Clone, Debug, PartialEq)]
pub enum FileSpec {
    /// A path in the local file system, absolute or relative.
    Path(String),
    /// A URL (file specification with `FS` = `URL`).
    Url(String),
}

/// A destination in a PDF document (PDF 32000-1:2008, 12.3.2).
#[derive(Clone, Debug, PartialEq)]
pub enum PdfDestination {
    /// A zero-based page number and how to show the page.
    Page { page: u32, kind: DestinationKind },
    /// A named destination, looked up in the document's name tree.
    Named(String),
}

/// The action of a link annotation (PDF 32000-1:2008, 12.6.4).
#[derive(Clone, Debug, PartialEq)]
pub enum PdfAction {
    /// Go to a destination in the same document.
    GoTo(PdfDestination),
    /// Go to a destination in another PDF file.
    GoToR { file: FileSpec, dest: PdfDestination },
    /// Launch a file.
    Launch(FileSpec),
    /// Resolve a URI.
    Uri(String),
}

/// The mathematical value of a [`FileSpec`].
pub enum FileModel {
    Path(Seq<char>),
    Url(Seq<char>),
}

/// The mathematical value of a [`PdfDestination`].
pub enum DestModel {
    Page { page: u32, kind: DestinationKind },
    Named(Seq<char>),
}

/// The mathematical value of a [`PdfAction`].
pub enum ActionModel {
    GoTo(DestModel),
    GoToR { file: FileModel, dest: DestModel },
    Launch(FileModel),
    Uri(Seq<char>),
}

impl View for FileSpec {
    type V = FileModel;

    open spec fn view(&self) -> FileModel {
        match self {
            FileSpec::Path(p) => FileModel::Path(p@),
            FileSpec::Url(u) => FileModel::Url(u@),
        }
    }
}

impl View for PdfDestination {
    type V = DestModel;

    open spec fn view(&self) -> DestModel {
        match self {
            PdfDestination::Page { page, kind } => DestModel::Page { page: *page, kind: *kind },
            PdfDestination::Named(n) => DestModel::Named(n@),
        }
    }
}

impl View for PdfAction {
    type V = ActionModel;

    open spec fn view(&self) -> ActionModel {
        match self {
            PdfAction::GoTo(d) => ActionModel::GoTo(d@),
            PdfAction::GoToR { file, dest } => ActionModel::GoToR { file: file@, dest: dest@ },
            PdfAction::Launch(f) => ActionModel::Launch(f@),
            PdfAction::Uri(u) => ActionModel::Uri(u@),
        }
    }
}

/// The default destination: the first page, default view.
pub open spec fn default_dest() -> DestModel {
    DestModel::Page { page: 0, kind: default_kind() }
}

impl Default for PdfDestination {
    fn default() -> (r: PdfDestination)
        ensures
            r@ == default_dest(),
    {
        PdfDestination::Page { page: 0, kind: DestinationKind::default() }
    }
}

/// `page + 1`, saturating at `u32::MAX`.
pub open spec fn one_based(page: u32) -> nat {
    if page == u32::MAX {
        page as nat
    } else {
        (page + 1) as nat
    }
}

/// The fragment parameters of a destination: `page=<N><view>` with the one-based page
/// number, or `nameddest=<percent-encoded name>`.
pub open spec fn dest_fragment(
    d: DestModel,
    show: spec_fn(Binary32) -> Seq<char>,
    sum: spec_fn(Binary32, Binary32) -> Binary32,
) -> Seq<char> {
    match d {
        DestModel::Page { page, kind } => "page="@ + decimal(one_based(page)) + kind_fragment(
            kind,
            show,
            sum,
        ),
        DestModel::Named(n) => "nameddest="@ + encode_uri(n, false),
    }
}

/// The URI prefix of a file: `file://` and the percent-encoded path for an absolute path,
/// `file:` and the percent-encoded path for a relative one, the URL itself for a URL.
pub open spec fn file_uri(f: FileModel) -> Seq<char> {
    match f {
        FileModel::Path(p) => if p.len() > 0 && p[0] == '/' {
            "file://"@ + encode_uri(p, true)
        } else {
            "file:"@ + encode_uri(p, true)
        },
        FileModel::Url(u) => u,
    }
}

/// The separator before the fragment of a file URI: `&` where a URL already has a
/// fragment, `#` otherwise.
pub open spec fn fragment_sep(f: FileModel) -> Seq<char> {
    match f {
        FileModel::Url(u) => if u.contains('#') {
            "&"@
        } else {
            "#"@
        },
        FileModel::Path(_) => "#"@,
    }
}

/// The MuPDF link URI of an action.
pub open spec fn action_uri(
    a: ActionModel,
    show: spec_fn(Binary32) -> Seq<char>,
    sum: spec_fn(Binary32, Binary32) -> Binary32,
) -> Seq<char> {
    match a {
        ActionModel::GoTo(d) => "#"@ + dest_fragment(d, show, sum),
        ActionModel::Uri(u) => u,
        ActionModel::Launch(f) => file_uri(f) + fragment_sep(f) + "page=1"@,
        ActionModel::GoToR { file, dest } => file_uri(file) + fragment_sep(file) + dest_fragment(
            dest,
            show,
            sum,
        ),
    }
}

/// Tests whether `s` holds the character `c`.
fn contains_char(s: &str, c: char) -> (r: bool)
    ensures
        r == s@.contains(c),
{
    let v = chars_of(s);
    let mut i: usize = 0;
    while i < v.len()
        invariant
            i <= v@.len(),
            v@ == s@,
            forall|j: int| 0 <= j < i ==> v@[j] != c,
        decreases v@.len() - i,
    {
        if v[i] == c {
            return true;
        }
        i = i + 1;
    }
    false
}

impl FileSpec {
    /// Appends the URI prefix of this file.
    fn push_uri(&self, out: &mut String)
        ensures
            final(out)@ == old(out)@ + file_uri(self@),
    {
        match self {
            FileSpec::Path(p) => {
                let absolute = first_char_is(p.as_str(), '/');
                if absolute {
                    out.append("file://");
                } else {
                    out.append("file:");
                }
                push_encoded(out, p.as_str(), true);
            },
            FileSpec::Url(u) => out.append(u.as_str()),
        }
    }

    /// Appends the separator before a fragment of this file's URI.
    fn push_sep(&self, out: &mut String)
        ensures
            final(out)@ == old(out)@ + fragment_sep(self@),
    {
        match self {
            FileSpec::Url(u) => {
                if contains_char(u.as_str(), '#') {
                    out.append("&");
                } else {
                    out.append("#");
                }
            },
            FileSpec::Path(_) => out.append("#"),
        }
    }
}

/// Tests whether the first character of `s` is `c`.
fn first_char_is(s: &str, c: char) -> (r: bool)
    ensures
        r == (s@.len() > 0 && s@[0] == c),
{
    let v = chars_of(s);
    v.len() > 0 && v[0] == c
}

impl PdfDestination {
    /// Appends the fragment parameters of this destination.
    fn push_fragment<S, A>(&self, out: &mut String, sh: &S, ad: &A)
        where
            S: Fn(Binary32) -> String,
            A: Fn(Binary32, Binary32) -> Binary32,
        requires
            is_shower(*sh),
            is_adder(*ad),
        ensures
            final(out)@ == old(out)@ + dest_fragment(self@, show_by(*sh), add_by(*ad)),
    {
        let ghost start = out@;
        match self {
            PdfDestination::Page { page, kind } => {
                out.append("page=");
                let n = if *page == u32::MAX {
                    *page
                } else {
                    *page + 1
                };
                push_decimal(out, n as u64);
                kind.push_fragment(out, sh, ad);
            },
            PdfDestination::Named(name) => {
                out.append("nameddest=");
                push_encoded(out, name.as_str(), false);
            },
        }
        assert(out@ =~= start + dest_fragment(self@, show_by(*sh), add_by(*ad)));
    }
}

impl PdfAction {
    /// The MuPDF link URI of this action: `#page=<N><view>` or `#nameddest=<name>` for
    /// `GoTo`, the URI itself for `Uri`, `<file>#page=1` for `Launch`, and
    /// `<file>#<destination>` for `GoToR`, where `<file>` is `file://<path>` or
    /// `file:<path>` with the path percent-encoded, or the URL; a URL that already has a
    /// fragment is followed by `&` in place of `#`. Numbers are written by `sh`; a
    /// rectangle's width and height are computed with `ad`.
    pub fn to_uri<S, A>(&self, sh: &S, ad: &A) -> (r: String)
        where
            S: Fn(Binary32) -> String,
            A: Fn(Binary32, Binary32) -> Binary32,
        requires
            is_shower(*sh),
            is_adder(*ad),
        ensures
            r@ == action_uri(self@, show_by(*sh), add_by(*ad)),
    {
        let mut out = String::new();
        match self {
            PdfAction::GoTo(d) => {
                out.append("#");
                d.push_fragment(&mut out, sh, ad);
            },
            PdfAction::Uri(u) => {
                out.append(u.as_str());
            },
            PdfAction::Launch(f) => {
                f.push_uri(&mut out);
                f.push_sep(&mut out);
                out.append("page=1");
            },
            PdfAction::GoToR { file, dest } => {
                file.push_uri(&mut out);
                file.push_sep(&mut out);
                dest.push_fragment(&mut out, sh, ad);
            },
        }
        assert(out@ =~= action_uri(self@, show_by(*sh), add_by(*ad)));
        out
    }
}

} // verus!
