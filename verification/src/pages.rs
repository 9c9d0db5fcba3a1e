//! Page ranges and page selections of a document, checked against its page count.
use vstd::prelude::*;
use std::ops::{Range, RangeInclusive};
use crate::error::{fails_with, Error};
use crate::number::{decimal, int_text, push_decimal, push_int};

verus! {

/// A half-open range `start..end` of zero-based page indices.
#[derive(Clone, Copy, Debug, PartialEq, Eq, Structural)]
pub struct PageRange {
    pub start: usize,
    pub end: usize,
}

impl PageRange {
    /// The range `start..end`.
    pub fn new(start: usize, end: usize) -> (r: PageRange)
        ensures
            r == (PageRange { start, end }),
    {
        PageRange { start, end }
    }

    /// The number of pages in the range (none where `end` is not above `start`).
    pub fn len(self) -> (r: usize)
        ensures
            r == (if self.start <= self.end {
                (self.end - self.start) as usize
            } else {
                0usize
            }),
    {
        if self.start <= self.end {
            self.end - self.start
        } else {
            0
        }
    }

    /// The range holds no page.
    pub fn is_empty(self) -> (r: bool)
        ensures
            r == (self.start >= self.end),
    {
        self.start >= self.end
    }
}

impl From<Range<usize>> for PageRange {
    fn from(range: Range<usize>) -> (r: PageRange) {
        PageRange::new(range.start, range.end)
    }
}

impl vstd::std_specs::convert::FromSpecImpl<Range<usize>> for PageRange {
    open spec fn obeys_from_spec() -> bool {
        true
    }

    open spec fn from_spec(v: Range<usize>) -> PageRange {
        PageRange { start: v.start, end: v.end }
    }
}

/// The pages an operation applies to.
#[derive(Clone, Debug, PartialEq, Eq)]
pub enum PageSelection {
    /// Every page of the document.
    All,
    /// The pages of a range.
    Range(PageRange),
    /// The listed pages, in the order given.
    Pages(Vec<usize>),
}

impl Default for PageSelection {
    fn default() -> (r: PageSelection)
        ensures
            r == PageSelection::All,
    {
        PageSelection::All
    }
}

impl From<PageRange> for PageSelection {
    fn from(range: PageRange) -> (r: PageSelection) {
        PageSelection::Range(range)
    }
}

impl vstd::std_specs::convert::FromSpecImpl<PageRange> for PageSelection {
    open spec fn obeys_from_spec() -> bool {
        true
    }

    open spec fn from_spec(v: PageRange) -> PageSelection {
        PageSelection::Range(v)
    }
}

impl From<Range<usize>> for PageSelection {
    fn from(range: Range<usize>) -> (r: PageSelection) {
        PageSelection::Range(PageRange::new(range.start, range.end))
    }
}

impl vstd::std_specs::convert::FromSpecImpl<Range<usize>> for PageSelection {
    open spec fn obeys_from_spec() -> bool {
        true
    }

    open spec fn from_spec(v: Range<usize>) -> PageSelection {
        PageSelection::Range(PageRange { start: v.start, end: v.end })
    }
}

impl From<Vec<usize>> for PageSelection {
    fn from(pages: Vec<usize>) -> (r: PageSelection) {
        PageSelection::Pages(pages)
    }
}

impl vstd::std_specs::convert::FromSpecImpl<Vec<usize>> for PageSelection {
    open spec fn obeys_from_spec() -> bool {
        true
    }

    open spec fn from_spec(v: Vec<usize>) -> PageSelection {
        PageSelection::Pages(v)
    }
}

/// The pages `start, start + 1, ..., end - 1`.
pub open spec fn page_run(start: int, end: int) -> Seq<usize> {
    Seq::new((end - start) as nat, |i: int| (start + i) as usize)
}

/// The index of the first page of `p` that is `n` or more; the length of `p` where there is
/// none.
pub open spec fn first_at_least(p: Seq<usize>, n: usize) -> int
    decreases p.len(),
{
    if p.len() == 0 {
        0
    } else if p[0] >= n {
        0
    } else {
        1 + first_at_least(p.drop_first(), n)
    }
}

/// The bounds of an inclusive range (`RangeInclusive::into_inner`); as its documentation
/// says, they are unspecified once the range has been iterated to exhaustion, so nothing
/// is claimed of such a range.
#[verifier::external_body]
fn inclusive_bounds(range: RangeInclusive<usize>) -> (r: (usize, usize))
    ensures
        !range@.exhausted ==> r == (range@.start, range@.end),
{
    range.into_inner()
}

/// The range `start..end + 1` of `start..=end` (`end + 1` saturating at `usize::MAX`).
pub open spec fn inclusive_range(start: usize, end: usize) -> PageRange {
    PageRange { start, end: if end == usize::MAX { end } else { (end + 1) as usize } }
}

/// The half-open range of an inclusive range.
fn from_inclusive(range: RangeInclusive<usize>) -> (r: PageRange)
    ensures
        !range@.exhausted ==> r == inclusive_range(range@.start, range@.end),
{
    let (start, end) = inclusive_bounds(range);
    PageRange::new(start, end.saturating_add(1))
}

impl From<RangeInclusive<usize>> for PageRange {
    fn from(range: RangeInclusive<usize>) -> (r: PageRange)
        ensures
            !range@.exhausted ==> r == inclusive_range(range@.start, range@.end),
    {
        from_inclusive(range)
    }
}

impl vstd::std_specs::convert::FromSpecImpl<RangeInclusive<usize>> for PageRange {
    open spec fn obeys_from_spec() -> bool {
        false
    }

    open spec fn from_spec(v: RangeInclusive<usize>) -> PageRange {
        inclusive_range(v@.start, v@.end)
    }
}

impl From<RangeInclusive<usize>> for PageSelection {
    fn from(range: RangeInclusive<usize>) -> (r: PageSelection)
        ensures
            !range@.exhausted ==> r == PageSelection::Range(inclusive_range(range@.start, range@.end)),
    {
        PageSelection::Range(from_inclusive(range))
    }
}

impl vstd::std_specs::convert::FromSpecImpl<RangeInclusive<usize>> for PageSelection {
    open spec fn obeys_from_spec() -> bool {
        false
    }

    open spec fn from_spec(v: RangeInclusive<usize>) -> PageSelection {
        PageSelection::Range(inclusive_range(v@.start, v@.end))
    }
}

/// The pages a selection stands for in a document of `page_count` pages, in the order
/// given, or the message of the error that rejects it: an empty selection or range, a range
/// that runs past the last page, or a listed page past the last page (the first such).
pub open spec fn selection_pages(sel: PageSelection, page_count: usize) -> Result<Seq<usize>, Seq<char>> {
    match sel {
        PageSelection::All => if page_count == 0 {
            Err("page selection must not be empty"@)
        } else {
            Ok(page_run(0, page_count as int))
        },
        PageSelection::Range(r) => if r.start >= r.end {
            Err("page selection range must not be empty"@)
        } else if r.end > page_count {
            Err(
                "page selection range "@ + decimal(r.start as nat) + ".."@ + decimal(r.end as nat)
                    + " exceeds page count "@ + decimal(page_count as nat),
            )
        } else {
            Ok(page_run(r.start as int, r.end as int))
        },
        PageSelection::Pages(p) => if p@.len() == 0 {
            Err("page selection must not be empty"@)
        } else if first_at_least(p@, page_count) < p@.len() {
            Err(
                "page index "@ + decimal(p@[first_at_least(p@, page_count)] as nat)
                    + " exceeds page count "@ + decimal(page_count as nat),
            )
        } else {
            Ok(p@)
        },
    }
}

/// A result of the library that agrees with a result of the model: the same pages, or an
/// `InvalidArgument` error with the same message.
pub open spec fn pages_agree(r: Result<Vec<usize>, Error>, m: Result<Seq<usize>, Seq<char>>) -> bool {
    match r {
        Ok(v) => m == Ok::<Seq<usize>, Seq<char>>(v@),
        Err(Error::InvalidArgument(e)) => m == Err::<Seq<usize>, Seq<char>>(e@),
    }
}

/// `first_at_least` is a position within `p`, before which every page is below `n`, and
/// at which (if it is within `p`) the page is `n` or more.
proof fn lemma_first_at_least(p: Seq<usize>, n: usize)
    ensures
        0 <= first_at_least(p, n) <= p.len(),
        forall|k: int| 0 <= k < first_at_least(p, n) ==> #[trigger] p[k] < n,
        first_at_least(p, n) < p.len() ==> p[first_at_least(p, n)] >= n,
    decreases p.len(),
{
    if p.len() > 0 && p[0] < n {
        lemma_first_at_least(p.drop_first(), n);
        assert forall|k: int| 0 <= k < first_at_least(p, n) implies #[trigger] p[k] < n by {
            if k > 0 {
                assert(p[k] == p.drop_first()[k - 1]);
            }
        }
    }
}

/// A position before which every page is below `n`, and at which the page is `n` or more,
/// is `first_at_least`.
proof fn lemma_first_at_least_at(p: Seq<usize>, n: usize, i: int)
    requires
        0 <= i < p.len(),
        p[i] >= n,
        forall|k: int| 0 <= k < i ==> #[trigger] p[k] < n,
    ensures
        first_at_least(p, n) == i,
    decreases p.len(),
{
    if i > 0 {
        assert(p[0] < n);
        assert forall|k: int| 0 <= k < i - 1 implies #[trigger] p.drop_first()[k] < n by {
            assert(p.drop_first()[k] == p[k + 1]);
        }
        lemma_first_at_least_at(p.drop_first(), n, i - 1);
    }
}

/// The pages `start..end`, in order.
fn run_vec(start: usize, end: usize) -> (r: Vec<usize>)
    requires
        start <= end,
    ensures
        r@ == page_run(start as int, end as int),
{
    let mut v: Vec<usize> = Vec::new();
    let mut i = start;
    while i < end
        invariant
            start <= i <= end,
            v@ == page_run(start as int, i as int),
        decreases end - i,
    {
        v.push(i);
        i = i + 1;
        assert(v@ =~= page_run(start as int, i as int));
    }
    v
}

impl PageSelection {
    /// The pages of the selection in a document of `page_count` pages, in the order given;
    /// an `InvalidArgument` error where the selection is empty or names a page past the
    /// last one (see [`selection_pages`]).
    pub fn validated_indices(&self, page_count: usize) -> (r: Result<Vec<usize>, Error>)
        ensures
            pages_agree(r, selection_pages(*self, page_count)),
    {
        match self {
            PageSelection::All => {
                if page_count == 0 {
                    return Err(Error::InvalidArgument(String::from_str("page selection must not be empty")));
                }
                Ok(run_vec(0, page_count))
            },
            PageSelection::Range(range) => {
                if range.is_empty() {
                    return Err(
                        Error::InvalidArgument(String::from_str("page selection range must not be empty")),
                    );
                }
                if range.end > page_count {
                    let mut m = String::new();
                    m.append("page selection range ");
                    push_decimal(&mut m, range.start as u64);
                    m.append("..");
                    push_decimal(&mut m, range.end as u64);
                    m.append(" exceeds page count ");
                    push_decimal(&mut m, page_count as u64);
                    return Err(Error::InvalidArgument(m));
                }
                Ok(run_vec(range.start, range.end))
            },
            PageSelection::Pages(pages) => {
                if pages.len() == 0 {
                    return Err(Error::InvalidArgument(String::from_str("page selection must not be empty")));
                }
                let mut i: usize = 0;
                while i < pages.len()
                    invariant
                        *self == PageSelection::Pages(*pages),
                        0 < pages@.len(),
                        i <= pages@.len(),
                        forall|k: int| 0 <= k < i ==> #[trigger] pages@[k] < page_count,
                    decreases pages@.len() - i,
                {
                    if pages[i] >= page_count {
                        proof {
                            lemma_first_at_least_at(pages@, page_count, i as int);
                        }
                        let mut m = String::new();
                        m.append("page index ");
                        push_decimal(&mut m, pages[i] as u64);
                        m.append(" exceeds page count ");
                        push_decimal(&mut m, page_count as u64);
                        assert(m@ =~= "page index "@ + decimal(pages@[i as int] as nat)
                            + " exceeds page count "@ + decimal(page_count as nat));
                        return Err(Error::InvalidArgument(m));
                    }
                    i = i + 1;
                }
                proof {
                    lemma_first_at_least(pages@, page_count);
                    if first_at_least(pages@, page_count) < pages@.len() {
                        let f = first_at_least(pages@, page_count);
                        assert(pages@[f] < page_count);
                    }
                }
                Ok(pages.clone())
            },
        }
    }
}

/// The pages are in strictly increasing order (so none occurs twice).
pub open spec fn strictly_increasing(s: Seq<usize>) -> bool {
    forall|i: int, j: int| 0 <= i < j < s.len() ==> s[i] < s[j]
}

/// Some page occurs twice.
pub open spec fn has_duplicates(s: Seq<usize>) -> bool {
    exists|i: int, j: int| 0 <= i < j < s.len() && s[i] == s[j]
}

/// `w` holds the pages of `v`, each once, in increasing order.
pub open spec fn sorted_pages_of(w: Seq<usize>, v: Seq<usize>) -> bool {
    &&& strictly_increasing(w)
    &&& forall|x: usize| w.contains(x) <==> v.contains(x)
}

/// The pages of `v` in increasing order, where none occurs twice.
fn sorted_unique(v: &Vec<usize>) -> (r: Option<Vec<usize>>)
    ensures
        match r {
            None => has_duplicates(v@),
            Some(w) => !has_duplicates(v@) && sorted_pages_of(w@, v@),
        },
{
    let mut out: Vec<usize> = Vec::new();
    let mut i: usize = 0;
    assert(v@.take(0) =~= Seq::<usize>::empty());
    while i < v.len()
        invariant
            i <= v@.len(),
            strictly_increasing(out@),
            forall|x: usize| out@.contains(x) <==> v@.take(i as int).contains(x),
            !has_duplicates(v@.take(i as int)),
        decreases v@.len() - i,
    {
        let x = v[i];
        let mut pos: usize = 0;
        while pos < out.len() && out[pos] < x
            invariant
                pos <= out@.len(),
                forall|k: int| 0 <= k < pos ==> #[trigger] out@[k] < x,
            decreases out@.len() - pos,
        {
            pos = pos + 1;
        }
        let ghost before = out@;
        let ghost seen = v@.take(i as int);
        if pos < out.len() && out[pos] == x {
            proof {
                assert(before.contains(x));
                assert(seen.contains(x));
                let j = choose|j: int| 0 <= j < seen.len() && seen[j] == x;
                assert(v@[j] == v@[i as int]);
            }
            return None;
        }
        proof {
            assert(!before.contains(x)) by {
                if before.contains(x) {
                    let k = choose|k: int| 0 <= k < before.len() && before[k] == x;
                    if k < pos {
                    } else if k > pos {
                        assert(before[pos as int] < before[k]);
                    }
                }
            }
        }
        out.insert(pos, x);
        proof {
            before.insert_ensures(pos as int, x);
            let after = out@;
            let next = v@.take(i + 1);
            assert(next =~= seen.push(x));
            assert forall|a: int, b: int| 0 <= a < b < after.len() implies after[a] < after[b] by {
                if b < pos {
                } else if b == pos {
                } else if a < pos {
                    assert(after[b] == before[b - 1]);
                    assert(before[b - 1] >= x);
                } else if a == pos {
                    assert(after[b] == before[b - 1]);
                    assert(before[pos as int] >= x);
                    if b - 1 > pos {
                        assert(before[pos as int] < before[b - 1]);
                    }
                } else {
                    assert(after[a] == before[a - 1]);
                    assert(after[b] == before[b - 1]);
                }
            }
            assert forall|y: usize| after.contains(y) <==> next.contains(y) by {
                if after.contains(y) {
                    let k = choose|k: int| 0 <= k < after.len() && after[k] == y;
                    if k < pos {
                        assert(before[k] == y);
                    } else if k > pos {
                        assert(before[k - 1] == y);
                    }
                    if y != x {
                        assert(before.contains(y));
                        assert(seen.contains(y));
                        let q = choose|q: int| 0 <= q < seen.len() && seen[q] == y;
                        assert(next[q] == y);
                    } else {
                        assert(next[i as int] == y);
                    }
                }
                if next.contains(y) {
                    let q = choose|q: int| 0 <= q < next.len() && next[q] == y;
                    if q < i {
                        assert(seen[q] == y);
                        assert(seen.contains(y));
                        assert(before.contains(y));
                        let k = choose|k: int| 0 <= k < before.len() && before[k] == y;
                        if k < pos {
                            assert(after[k] == y);
                        } else {
                            assert(after[k + 1] == y);
                        }
                    } else {
                        assert(after[pos as int] == y);
                    }
                }
            }
            assert(!has_duplicates(next)) by {
                if has_duplicates(next) {
                    let (a, b) = choose|a: int, b: int| 0 <= a < b < next.len() && next[a] == next[b];
                    if b < i {
                        assert(seen[a] == seen[b]);
                    } else {
                        assert(seen[a] == x);
                        assert(seen.contains(x));
                        assert(before.contains(x));
                    }
                }
            }
        }
        i = i + 1;
    }
    assert(v@.take(v@.len() as int) =~= v@);
    Some(out)
}

impl PageSelection {
    /// The pages of the selection in increasing order, each once: an `InvalidArgument`
    /// error where [`validated_indices`](Self::validated_indices) gives one, or where a page
    /// is listed twice.
    pub fn validated_unique_sorted_indices(&self, page_count: usize) -> (r: Result<Vec<usize>, Error>)
        ensures
            match selection_pages(*self, page_count) {
                Err(m) => r matches Err(Error::InvalidArgument(e)) && e@ == m,
                Ok(v) => if has_duplicates(v) {
                    r matches Err(Error::InvalidArgument(e)) && e@
                        == "page selection must not contain duplicates"@
                } else {
                    r matches Ok(w) && sorted_pages_of(w@, v)
                },
            },
    {
        let indices = self.validated_indices(page_count)?;
        match sorted_unique(&indices) {
            Some(w) => Ok(w),
            None => Err(
                Error::InvalidArgument(String::from_str("page selection must not contain duplicates")),
            ),
        }
    }
}

/// The page count of a document as a `usize`; an error where the count is negative.
pub fn page_count_usize(count: i32) -> (r: Result<usize, Error>)
    ensures
        count >= 0 ==> r == Ok::<usize, Error>(count as usize),
        count < 0 ==> fails_with(r, "document page count cannot be represented as usize"@),
{
    if count < 0 {
        return Err(
            Error::InvalidArgument(String::from_str("document page count cannot be represented as usize")),
        );
    }
    Ok(count as usize)
}

/// A page index of a document of `page_count` pages, as the `i32` that MuPDF takes; an
/// error where it is past the last page or out of the range of `i32`.
pub fn checked_page_index(page: usize, page_count: usize) -> (r: Result<i32, Error>)
    ensures
        page >= page_count ==> fails_with(
            r,
            "page index "@ + decimal(page as nat) + " exceeds page count "@ + decimal(page_count as nat),
        ),
        page < page_count && page > i32::MAX ==> fails_with(
            r,
            "page index "@ + decimal(page as nat) + " cannot be represented as i32"@,
        ),
        page < page_count && page <= i32::MAX ==> r == Ok::<i32, Error>(page as i32),
{
    if page >= page_count {
        let mut m = String::new();
        m.append("page index ");
        push_decimal(&mut m, page as u64);
        m.append(" exceeds page count ");
        push_decimal(&mut m, page_count as u64);
        return Err(Error::InvalidArgument(m));
    }
    if page > 2147483647usize {
        let mut m = String::new();
        m.append("page index ");
        push_decimal(&mut m, page as u64);
        m.append(" cannot be represented as i32");
        return Err(Error::InvalidArgument(m));
    }
    Ok(page as i32)
}

/// Checks an object number against the number of objects of a document: it must be
/// positive and below that number.
pub fn checked_xref(xref: i32, object_count: u32) -> (r: Result<(), Error>)
    ensures
        xref <= 0 ==> fails_with(r, "xref "@ + int_text(xref as int) + " must be positive"@),
        xref > 0 && object_count > i32::MAX ==> fails_with(
            r,
            "xref length cannot be represented as i32"@,
        ),
        xref > 0 && object_count <= i32::MAX && xref >= object_count ==> fails_with(
            r,
            "xref "@ + int_text(xref as int) + " exceeds xref length "@ + int_text(object_count as int),
        ),
        xref > 0 && xref < object_count && object_count <= i32::MAX ==> r == Ok::<(), Error>(()),
{
    if xref <= 0 {
        let mut m = String::new();
        m.append("xref ");
        push_int(&mut m, xref as i64);
        m.append(" must be positive");
        return Err(Error::InvalidArgument(m));
    }
    if object_count > 2147483647u32 {
        return Err(Error::InvalidArgument(String::from_str("xref length cannot be represented as i32")));
    }
    let xref_len = object_count as i32;
    if xref >= xref_len {
        let mut m = String::new();
        m.append("xref ");
        push_int(&mut m, xref as i64);
        m.append(" exceeds xref length ");
        push_int(&mut m, xref_len as i64);
        return Err(Error::InvalidArgument(m));
    }
    Ok(())
}

/// Where pages are inserted into a document.
#[derive(Clone, Copy, Debug, PartialEq, Eq, Structural)]
pub enum InsertPosition {
    /// After the last page.
    Append,
    /// Before the page with this index (or after the last page, for the page count).
    Before(usize),
    /// After the page with this index.
    After(usize),
}

impl Default for InsertPosition {
    fn default() -> (r: InsertPosition)
        ensures
            r == InsertPosition::Append,
    {
        InsertPosition::Append
    }
}

/// The index that the first page inserted at `pos` gets in a document of `page_count`
/// pages, or the message of the error where `pos` names a page past the last one.
pub open spec fn position_index(pos: InsertPosition, page_count: usize) -> Result<usize, Seq<char>> {
    match pos {
        InsertPosition::Append => Ok(page_count),
        InsertPosition::Before(i) => if i <= page_count {
            Ok(i)
        } else {
            Err(
                "insert position Before("@ + decimal(i as nat) + ") exceeds page count "@ + decimal(
                    page_count as nat,
                ),
            )
        },
        InsertPosition::After(i) => if i < page_count {
            Ok((i + 1) as usize)
        } else {
            Err(
                "insert position After("@ + decimal(i as nat) + ") exceeds page count "@ + decimal(
                    page_count as nat,
                ),
            )
        },
    }
}

/// A result of the library that agrees with a result of the model: the same index, or an
/// `InvalidArgument` error with the same message.
pub open spec fn index_agrees(r: Result<usize, Error>, m: Result<usize, Seq<char>>) -> bool {
    match m {
        Ok(i) => r == Ok::<usize, Error>(i),
        Err(e) => fails_with(r, e),
    }
}

impl InsertPosition {
    /// The index that the first inserted page gets in a document of `page_count` pages;
    /// an error where the position names a page past the last one (see
    /// [`position_index`]).
    pub fn resolve(self, page_count: usize) -> (r: Result<usize, Error>)
        ensures
            index_agrees(r, position_index(self, page_count)),
    {
        match self {
            InsertPosition::Append => Ok(page_count),
            InsertPosition::Before(index) => {
                if index <= page_count {
                    Ok(index)
                } else {
                    let mut m = String::new();
                    m.append("insert position Before(");
                    push_decimal(&mut m, index as u64);
                    m.append(") exceeds page count ");
                    push_decimal(&mut m, page_count as u64);
                    Err(Error::InvalidArgument(m))
                }
            },
            InsertPosition::After(index) => {
                if index < page_count {
                    Ok(index + 1)
                } else {
                    let mut m = String::new();
                    m.append("insert position After(");
                    push_decimal(&mut m, index as u64);
                    m.append(") exceeds page count ");
                    push_decimal(&mut m, page_count as u64);
                    Err(Error::InvalidArgument(m))
                }
            },
        }
    }
}

/// How pages of another document are inserted.
#[derive(Clone, Debug, PartialEq, Eq)]
pub struct InsertPdfOptions {
    /// The pages of the source document to insert, in order.
    pub source_pages: PageSelection,
    /// Where they go in the target document.
    pub target: InsertPosition,
    /// A rotation to give each inserted page.
    pub rotate: Option<i32>,
    /// Copy the pages' links.
    pub copy_links: bool,
    /// Copy the pages' annotations.
    pub copy_annotations: bool,
    /// Copy the pages' form widgets.
    pub copy_widgets: bool,
}

impl Default for InsertPdfOptions {
    fn default() -> (r: InsertPdfOptions)
        ensures
            r.source_pages == PageSelection::All,
            r.target == InsertPosition::Append,
            r.rotate is None,
            r.copy_links && r.copy_annotations && r.copy_widgets,
    {
        InsertPdfOptions {
            source_pages: PageSelection::All,
            target: InsertPosition::Append,
            rotate: None,
            copy_links: true,
            copy_annotations: true,
            copy_widgets: true,
        }
    }
}

/// The pages that an insertion added to the target document.
#[derive(Clone, Copy, Debug, PartialEq, Eq, Structural)]
pub struct InsertPdfResult {
    /// Their indices in the target document.
    pub inserted_pages: PageRange,
    /// How many there are.
    pub page_count: usize,
}

/// The result of inserting `count` pages from index `start` on.
pub open spec fn inserted(start: int, count: int) -> InsertPdfResult {
    InsertPdfResult {
        inserted_pages: PageRange { start: start as usize, end: (start + count) as usize },
        page_count: count as usize,
    }
}

/// The message of the error for options that are not supported: some kind of page content
/// left out of the copy, or a rotation that is not a multiple of 90 degrees.
pub open spec fn unsupported_message(o: InsertPdfOptions) -> Option<Seq<char>> {
    if !(o.copy_links && o.copy_annotations && o.copy_widgets) {
        Some("selective link, annotation, and widget copying is not supported yet"@)
    } else {
        match o.rotate {
            Some(rot) => if rot % 90 == 0 {
                None
            } else {
                Some("inserted page rotation must be a multiple of 90 degrees"@)
            },
            None => None,
        }
    }
}

impl InsertPdfOptions {
    /// Checks the options that are supported: every kind of page content is copied, and a
    /// rotation is a multiple of 90 degrees (see [`unsupported_message`]).
    pub fn validate_supported(&self) -> (r: Result<(), Error>)
        ensures
            match unsupported_message(*self) {
                Some(m) => fails_with(r, m),
                None => r == Ok::<(), Error>(()),
            },
    {
        if !self.copy_links || !self.copy_annotations || !self.copy_widgets {
            return Err(
                Error::InvalidArgument(
                    String::from_str("selective link, annotation, and widget copying is not supported yet"),
                ),
            );
        }
        if let Some(rotate) = self.rotate {
            if rotate % 90 != 0 {
                return Err(
                    Error::InvalidArgument(
                        String::from_str("inserted page rotation must be a multiple of 90 degrees"),
                    ),
                );
            }
        }
        Ok(())
    }

    /// The plan of an insertion from a document of `source_page_count` pages into one of
    /// `target_page_count` pages: the source pages to graft, in order, the `k`-th of them at
    /// index `r.1.inserted_pages.start + k` of the target; and the result to report. Errors
    /// come from [`validate_supported`](Self::validate_supported), then from
    /// [`PageSelection::validated_indices`], then from [`InsertPosition::resolve`].
    pub fn plan(&self, source_page_count: usize, target_page_count: usize) -> (r: Result<
        (Vec<usize>, InsertPdfResult),
        Error,
    >)
        requires
            source_page_count + target_page_count <= usize::MAX,
            self.source_pages matches PageSelection::Pages(p) ==> p@.len() + target_page_count
                <= usize::MAX,
        ensures
            match unsupported_message(*self) {
                Some(m) => fails_with(r, m),
                None => match selection_pages(self.source_pages, source_page_count) {
                    Err(m) => fails_with(r, m),
                    Ok(v) => match position_index(self.target, target_page_count) {
                        Err(m) => fails_with(r, m),
                        Ok(t) => r matches Ok(p) && p.0@ == v && p.1 == inserted(t as int, v.len() as int),
                    },
                },
            },
    {
        self.validate_supported()?;
        let source = self.source_pages.validated_indices(source_page_count)?;
        let start = self.target.resolve(target_page_count)?;
        let count = source.len();
        assert(start <= target_page_count);
        assert(count <= source_page_count || self.source_pages is Pages);
        Ok((source, InsertPdfResult { inserted_pages: PageRange::new(start, start + count), page_count: count }))
    }
}

/// The result of copying page `source` of a document of `page_count` pages to `target`:
/// one page, at the index that `target` gives. Errors come from [`checked_page_index`] for
/// the source, then from [`InsertPosition::resolve`].
pub fn copy_page_plan(source: usize, target: InsertPosition, page_count: usize) -> (r: Result<
    InsertPdfResult,
    Error,
>)
    requires
        page_count < usize::MAX,
    ensures
        source >= page_count ==> fails_with(
            r,
            "page index "@ + decimal(source as nat) + " exceeds page count "@ + decimal(page_count as nat),
        ),
        source < page_count && source > i32::MAX ==> fails_with(
            r,
            "page index "@ + decimal(source as nat) + " cannot be represented as i32"@,
        ),
        source < page_count && source <= i32::MAX ==> match position_index(target, page_count) {
            Err(m) => fails_with(r, m),
            Ok(t) => r == Ok::<InsertPdfResult, Error>(inserted(t as int, 1)),
        },
{
    checked_page_index(source, page_count)?;
    let t = target.resolve(page_count)?;
    Ok(InsertPdfResult { inserted_pages: PageRange::new(t, t + 1), page_count: 1 })
}

/// The plan of moving page `source` of a document of `page_count` pages to index `target`:
/// `None` where the two are the same page (nothing to do), else the two indices as the
/// `i32`s that MuPDF takes (delete the page at the first, insert it at the second). Errors
/// come from [`checked_page_index`] for the source, then for a target past the last page or
/// out of the range of `i32`.
pub fn move_page_plan(source: usize, target: usize, page_count: usize) -> (r: Result<
    Option<(i32, i32)>,
    Error,
>)
    ensures
        source >= page_count ==> fails_with(
            r,
            "page index "@ + decimal(source as nat) + " exceeds page count "@ + decimal(page_count as nat),
        ),
        source < page_count && source > i32::MAX ==> fails_with(
            r,
            "page index "@ + decimal(source as nat) + " cannot be represented as i32"@,
        ),
        source < page_count && source <= i32::MAX && target >= page_count ==> fails_with(
            r,
            "target page index "@ + decimal(target as nat) + " exceeds page count "@ + decimal(
                page_count as nat,
            ),
        ),
        source < page_count && source <= i32::MAX && target < page_count && source == target ==> r
            == Ok::<Option<(i32, i32)>, Error>(None),
        source < page_count && source <= i32::MAX && target < page_count && source != target
            && target > i32::MAX ==> fails_with(
            r,
            "target page index "@ + decimal(target as nat) + " cannot be represented as i32"@,
        ),
        source < page_count && source <= i32::MAX && target < page_count && source != target
            && target <= i32::MAX ==> r == Ok::<Option<(i32, i32)>, Error>(
            Some((source as i32, target as i32)),
        ),
{
    let s = checked_page_index(source, page_count)?;
    if target >= page_count {
        let mut m = String::new();
        m.append("target page index ");
        push_decimal(&mut m, target as u64);
        m.append(" exceeds page count ");
        push_decimal(&mut m, page_count as u64);
        return Err(Error::InvalidArgument(m));
    }
    if source == target {
        return Ok(None);
    }
    if target > 2147483647usize {
        let mut m = String::new();
        m.append("target page index ");
        push_decimal(&mut m, target as u64);
        m.append(" cannot be represented as i32");
        return Err(Error::InvalidArgument(m));
    }
    Ok(Some((s, target as i32)))
}

/// The index where the run of consecutive pages that ends at `p[j]` starts.
pub open spec fn run_start(p: Seq<usize>, j: int) -> int
    decreases j,
{
    if j > 0 && p[j - 1] + 1 == p[j] {
        run_start(p, j - 1)
    } else {
        j
    }
}

/// The ranges of consecutive pages among the first `n` of `p`, the last run first.
pub open spec fn runs_before(p: Seq<usize>, n: int) -> Seq<PageRange>
    decreases n,
{
    if n <= 0 {
        Seq::empty()
    } else {
        let k = run_start(p, n - 1);
        proof {
            lemma_run_start(p, n - 1);
        }
        seq![PageRange { start: p[k], end: (p[n - 1] + 1) as usize }] + runs_before(p, k)
    }
}

/// `run_start` is an index at or before `j`, where no run continues from the page
/// before.
pub proof fn lemma_run_start(p: Seq<usize>, j: int)
    ensures
        j >= 0 ==> 0 <= run_start(p, j) <= j,
        j >= 0 && run_start(p, j) > 0 ==> p[run_start(p, j) - 1] + 1 != p[run_start(p, j)],
    decreases j,
{
    if j > 0 && p[j - 1] + 1 == p[j] {
        lemma_run_start(p, j - 1);
    }
}

/// The ranges that deleting the increasing pages `pages` removes, the last range first (so
/// that each deletion leaves the indices of the ranges still to go unchanged): each
/// range is a maximal run of consecutive pages.
pub fn deletion_ranges(pages: &Vec<usize>) -> (r: Vec<PageRange>)
    requires
        strictly_increasing(pages@),
        pages@.len() == 0 || pages@.last() < usize::MAX,
    ensures
        r@ == runs_before(pages@, pages@.len() as int),
{
    let mut out: Vec<PageRange> = Vec::new();
    let mut n = pages.len();
    while n > 0
        invariant
            n <= pages@.len(),
            strictly_increasing(pages@),
            pages@.len() == 0 || pages@.last() < usize::MAX,
            runs_before(pages@, pages@.len() as int) == out@ + runs_before(pages@, n as int),
        decreases n,
    {
        let end_page = pages[n - 1];
        let mut m = n - 1;
        proof {
            lemma_run_start(pages@, n - 1);
        }
        while m > 0 && pages[m - 1] + 1 == pages[m]
            invariant
                m < n <= pages@.len(),
                strictly_increasing(pages@),
                run_start(pages@, m as int) == run_start(pages@, n - 1),
            decreases m,
        {
            assert(pages@[m - 1] < pages@[m as int]);
            m = m - 1;
        }
        assert(pages@[n - 1] <= pages@.last()) by {
            if n - 1 < pages@.len() - 1 {
                assert(pages@[n - 1] < pages@[pages@.len() - 1]);
            }
        }
        let ghost before = out@;
        out.push(PageRange::new(pages[m], end_page + 1));
        assert(out@ + runs_before(pages@, m as int) =~= before + runs_before(pages@, n as int));
        n = m;
    }
    assert(out@ + runs_before(pages@, 0) =~= out@);
    out
}

/// The pages of a document of `page_count` pages that are not in the increasing list
/// `selected`, in increasing order.
pub fn pages_outside(selected: &Vec<usize>, page_count: usize) -> (r: Vec<usize>)
    requires
        strictly_increasing(selected@),
    ensures
        strictly_increasing(r@),
        forall|x: usize| r@.contains(x) <==> (x < page_count && !selected@.contains(x)),
{
    let mut out: Vec<usize> = Vec::new();
    let mut j: usize = 0;
    let mut p: usize = 0;
    while p < page_count
        invariant
            p <= page_count,
            j <= selected@.len(),
            strictly_increasing(selected@),
            strictly_increasing(out@),
            forall|k: int| 0 <= k < j ==> #[trigger] selected@[k] < p,
            forall|k: int| 0 <= k < out@.len() ==> #[trigger] out@[k] < p,
            forall|x: usize| out@.contains(x) <==> (x < p && !selected@.contains(x)),
        decreases page_count - p,
    {
        while j < selected.len() && selected[j] < p
            invariant
                j <= selected@.len(),
                forall|k: int| 0 <= k < j ==> #[trigger] selected@[k] < p,
            decreases selected@.len() - j,
        {
            j = j + 1;
        }
        let chosen = j < selected.len() && selected[j] == p;
        proof {
            if !chosen {
                assert(!selected@.contains(p)) by {
                    if selected@.contains(p) {
                        let k = choose|k: int| 0 <= k < selected@.len() && selected@[k] == p;
                        if k < j {
                        } else if k > j {
                            assert(selected@[j as int] < selected@[k]);
                        }
                    }
                }
            } else {
                assert(selected@[j as int] == p);
            }
        }
        let ghost before = out@;
        if !chosen {
            out.push(p);
        }
        proof {
            assert forall|x: usize| out@.contains(x) <==> (x < p + 1 && !selected@.contains(x)) by {
                if x == p {
                    if !chosen {
                        assert(out@[before.len() as int] == p);
                    }
                }
                if out@.contains(x) && x != p {
                    let k = choose|k: int| 0 <= k < out@.len() && out@[k] == x;
                    assert(before[k] == x);
                }
                if x < p && !selected@.contains(x) {
                    assert(before.contains(x));
                    let k = choose|k: int| 0 <= k < before.len() && before[k] == x;
                    assert(out@[k] == x);
                }
            }
        }
        p = p + 1;
    }
    out
}

/// The numbering style of page labels.
#[derive(Clone, Copy, Debug, PartialEq, Eq, Structural)]
pub enum PageLabelStyle {
    /// No number, only the prefix.
    NoNumber,
    /// Decimal Arabic numerals.
    Decimal,
    /// Upper-case Roman numerals.
    UpperRoman,
    /// Lower-case Roman numerals.
    LowerRoman,
    /// Upper-case letters.
    UpperAlpha,
    /// Lower-case letters.
    LowerAlpha,
}

/// A page labelling rule: from page `index` on, labels in `style` after `prefix`, numbered
/// from `start`.
#[derive(Clone, Debug, PartialEq, Eq)]
pub struct PageLabelRule {
    pub index: usize,
    pub style: PageLabelStyle,
    pub prefix: String,
    pub start: i32,
}

impl PageLabelRule {
    /// A rule without prefix, numbered from 1.
    pub fn new(index: usize, style: PageLabelStyle) -> (r: PageLabelRule)
        ensures
            r.index == index,
            r.style == style,
            r.prefix@ == Seq::<char>::empty(),
            r.start == 1,
    {
        PageLabelRule { index, style, prefix: String::new(), start: 1 }
    }

    /// The page index of the rule, as the `i32` that MuPDF takes, in a document of
    /// `page_count` pages; an error where the index is past the last page, the numbering
    /// starts below 1, or the index is out of the range of `i32`.
    pub fn checked_index(&self, page_count: usize) -> (r: Result<i32, Error>)
        ensures
            self.index >= page_count ==> fails_with(
                r,
                "page label index "@ + decimal(self.index as nat) + " exceeds page count "@ + decimal(
                    page_count as nat,
                ),
            ),
            self.index < page_count && self.start < 1 ==> fails_with(
                r,
                "page label start must be at least 1"@,
            ),
            self.index < page_count && self.start >= 1 && self.index > i32::MAX ==> fails_with(
                r,
                "page label index "@ + decimal(self.index as nat) + " cannot be represented as i32"@,
            ),
            self.index < page_count && self.start >= 1 && self.index <= i32::MAX ==> r == Ok::<
                i32,
                Error,
            >(self.index as i32),
    {
        if self.index >= page_count {
            let mut m = String::new();
            m.append("page label index ");
            push_decimal(&mut m, self.index as u64);
            m.append(" exceeds page count ");
            push_decimal(&mut m, page_count as u64);
            return Err(Error::InvalidArgument(m));
        }
        if self.start < 1 {
            return Err(Error::InvalidArgument(String::from_str("page label start must be at least 1")));
        }
        if self.index > 2147483647usize {
            let mut m = String::new();
            m.append("page label index ");
            push_decimal(&mut m, self.index as u64);
            m.append(" cannot be represented as i32");
            return Err(Error::InvalidArgument(m));
        }
        Ok(self.index as i32)
    }
}

/// A reference to an optional content group: its object number, which is positive.
#[derive(Clone, Copy, Debug, PartialEq, Eq, Hash)]
pub struct OptionalContentRef {
    xref: i32,
}

impl OptionalContentRef {
    /// The object number is positive.
    #[verifier::type_invariant]
    spec fn positive(self) -> bool {
        self.xref > 0
    }

    /// The object number of the group.
    pub closed spec fn spec_xref(self) -> i32 {
        self.xref
    }

    /// The reference to the group with object number `xref`; an error where it is not
    /// positive.
    pub fn new(xref: i32) -> (r: Result<OptionalContentRef, Error>)
        ensures
            xref > 0 ==> (r matches Ok(o) && o.spec_xref() == xref),
            xref <= 0 ==> fails_with(r, "optional content xref must be positive"@),
    {
        if xref <= 0 {
            return Err(Error::InvalidArgument(String::from_str("optional content xref must be positive")));
        }
        Ok(OptionalContentRef { xref })
    }

    /// The object number of the group (positive).
    pub fn xref(self) -> (r: i32)
        ensures
            r == self.spec_xref(),
            r > 0,
    {
        proof {
            use_type_invariant(&self);
        }
        self.xref
    }
}

/// An optional content group of a document.
#[derive(Clone, Debug, PartialEq, Eq)]
pub struct OptionalContentGroup {
    pub reference: OptionalContentRef,
    pub name: Option<String>,
    pub enabled: bool,
}

/// How a file is embedded in a document.
#[derive(Clone, Copy, Debug, PartialEq, Eq)]
pub struct EmbeddedFileOptions<'a> {
    pub filename: &'a str,
    pub mime_type: Option<&'a str>,
    pub created: Option<i64>,
    pub modified: Option<i64>,
    pub add_checksum: bool,
}

impl<'a> EmbeddedFileOptions<'a> {
    /// Options for a file named `filename`: no MIME type, no dates, with a checksum.
    pub fn new(filename: &'a str) -> (r: EmbeddedFileOptions<'a>)
        ensures
            r.filename == filename,
            r.mime_type is None,
            r.created is None,
            r.modified is None,
            r.add_checksum,
    {
        EmbeddedFileOptions { filename, mime_type: None, created: None, modified: None, add_checksum: true }
    }
}

/// A file embedded in a document.
#[derive(Clone, Debug, PartialEq, Eq)]
pub struct EmbeddedFileInfo {
    pub name: String,
    pub xref: i32,
    pub filename: Option<String>,
    pub mime_type: Option<String>,
    pub size: usize,
    pub created: Option<i64>,
    pub modified: Option<i64>,
}

/// Some range of `rs` holds page `x`.
pub open spec fn covered(rs: Seq<PageRange>, x: usize) -> bool {
    exists|k: int| 0 <= k < rs.len() && #[trigger] rs[k].start <= x && x < rs[k].end
}

/// The pages of a run are consecutive.
proof fn lemma_run_consecutive(p: Seq<usize>, j: int)
    requires
        0 <= j < p.len(),
    ensures
        forall|i: int| run_start(p, j) <= i <= j ==> #[trigger] p[i] == p[run_start(p, j)] + (i - run_start(p, j)),
    decreases j,
{
    lemma_run_start(p, j);
    if j > 0 && p[j - 1] + 1 == p[j] {
        lemma_run_consecutive(p, j - 1);
    }
}

/// The runs of the first `n` pages: each is non-empty, the next one ends before the start
/// of the one before it, they hold exactly those pages, and the first ends just after
/// page `n - 1`.
proof fn lemma_runs(p: Seq<usize>, n: int)
    requires
        strictly_increasing(p),
        p.len() == 0 || p.last() < usize::MAX,
        0 <= n <= p.len(),
    ensures
        ({
            let rs = runs_before(p, n);
            &&& forall|k: int| 0 <= k < rs.len() ==> #[trigger] rs[k].start < rs[k].end
            &&& forall|k: int| 0 <= k < rs.len() - 1 ==> #[trigger] rs[k + 1].end < rs[k].start
            &&& forall|x: usize| covered(rs, x) <==> p.take(n).contains(x)
            &&& n > 0 ==> rs.len() > 0 && rs[0].end == p[n - 1] + 1
        }),
    decreases n,
{
    let rs = runs_before(p, n);
    if n == 0 {
        assert(rs =~= Seq::<PageRange>::empty());
        assert forall|x: usize| covered(rs, x) <==> p.take(n).contains(x) by {
            assert(p.take(n) =~= Seq::<usize>::empty());
        }
    } else {
        let k0 = run_start(p, n - 1);
        lemma_run_start(p, n - 1);
        lemma_run_consecutive(p, n - 1);
        lemma_runs(p, k0);
        let tail = runs_before(p, k0);
        assert(p[n - 1] <= p.last()) by {
            if n - 1 < p.len() - 1 {
                assert(p[n - 1] < p[p.len() - 1]);
            }
        }
        let head = PageRange { start: p[k0], end: (p[n - 1] + 1) as usize };
        assert(rs == seq![head] + tail);
        assert(rs[0] == head);
        assert forall|k: int| 0 <= k < rs.len() implies #[trigger] rs[k].start < rs[k].end by {
            if k > 0 {
                assert(rs[k] == tail[k - 1]);
            } else {
                if k0 < n - 1 {
                    assert(p[k0] < p[n - 1]);
                }
            }
        }
        assert forall|k: int| 0 <= k < rs.len() - 1 implies #[trigger] rs[k + 1].end < rs[k].start by {
            assert(rs[k + 1] == tail[k]);
            if k > 0 {
                assert(rs[k] == tail[k - 1]);
                let k1 = k - 1;
                assert(tail[k1 + 1].end < tail[k1].start);
            } else {
                assert(k0 > 0);
                assert(p[k0 - 1] < p[k0]);
                assert(p[k0 - 1] + 1 != p[k0]);
                assert(tail[0].end == p[k0 - 1] + 1);
            }
        }
        assert forall|x: usize| covered(rs, x) <==> p.take(n).contains(x) by {
            if covered(rs, x) {
                let k = choose|k: int| 0 <= k < rs.len() && #[trigger] rs[k].start <= x && x < rs[k].end;
                if k == 0 {
                    let i = k0 + (x - p[k0]);
                    assert(p[i] == x);
                    assert(p.take(n)[i] == x);
                } else {
                    assert(rs[k] == tail[k - 1]);
                    assert(covered(tail, x));
                    assert(p.take(k0).contains(x));
                    let i = choose|i: int| 0 <= i < k0 && p.take(k0)[i] == x;
                    assert(p.take(n)[i] == x);
                }
            }
            if p.take(n).contains(x) {
                let i = choose|i: int| 0 <= i < n && p.take(n)[i] == x;
                if i >= k0 {
                    assert(p[i] == p[k0] + (i - k0));
                    assert(rs[0].start <= x && x < rs[0].end);
                } else {
                    assert(p.take(k0)[i] == x);
                    assert(covered(tail, x));
                    let k = choose|k: int| 0 <= k < tail.len() && #[trigger] tail[k].start <= x && x < tail[k].end;
                    assert(rs[k + 1] == tail[k]);
                    assert(rs[k + 1].start <= x && x < rs[k + 1].end);
                }
            }
        }
    }
}

/// Deleting pages range by range deletes exactly the selected pages: for increasing pages,
/// the ranges of [`deletion_ranges`] are non-empty, hold exactly those pages, and each range
/// lies wholly after the next one, so deleting them in order never moves a range still to
/// be deleted.
pub proof fn law_deletion_ranges_cover(pages: Seq<usize>)
    requires
        strictly_increasing(pages),
        pages.len() == 0 || pages.last() < usize::MAX,
    ensures
        ({
            let rs = runs_before(pages, pages.len() as int);
            &&& forall|k: int| 0 <= k < rs.len() ==> #[trigger] rs[k].start < rs[k].end
            &&& forall|k: int| 0 <= k < rs.len() - 1 ==> #[trigger] rs[k + 1].end < rs[k].start
            &&& forall|x: usize| covered(rs, x) <==> pages.contains(x)
        }),
{
    lemma_runs(pages, pages.len() as int);
    assert(pages.take(pages.len() as int) =~= pages);
}

/// Insertion options are supported exactly when every kind of page content is copied and
/// the rotation, if any, is a multiple of 90 degrees (of either sign): the check depends on
/// the rotation only through its remainder by 90.
pub proof fn law_supported_rotations(o: InsertPdfOptions)
    ensures
        unsupported_message(o) is None <==> (o.copy_links && o.copy_annotations && o.copy_widgets
            && match o.rotate {
            Some(rot) => rot % 90 == 0,
            None => true,
        }),
        forall|rot: i32|
            #![trigger unsupported_message(InsertPdfOptions { rotate: Some(rot), ..o })]
            rot % 90 == 0 && o.copy_links && o.copy_annotations && o.copy_widgets
                ==> unsupported_message(InsertPdfOptions { rotate: Some(rot), ..o }) is None,
{
}

} // verus!
