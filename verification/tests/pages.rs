use mupdf::error::Error;
use mupdf::pages::{
    checked_page_index, checked_xref, copy_page_plan, deletion_ranges, move_page_plan,
    page_count_usize, pages_outside, EmbeddedFileOptions, InsertPdfOptions, InsertPdfResult,
    InsertPosition, OptionalContentRef, PageLabelRule, PageLabelStyle, PageRange, PageSelection,
};

fn message<T: std::fmt::Debug>(r: Result<T, Error>) -> String {
    match r {
        Err(Error::InvalidArgument(m)) => m,
        Ok(v) => panic!("expected an error, got {v:?}"),
    }
}

#[test]
fn page_range_basics() {
    let r = PageRange::new(2, 5);
    assert_eq!(r, PageRange { start: 2, end: 5 });
    assert_eq!(r.len(), 3);
    assert!(!r.is_empty());
    assert_eq!(PageRange::new(4, 1).len(), 0);
    assert!(PageRange::new(4, 1).is_empty());
    assert!(PageRange::new(3, 3).is_empty());
    assert_eq!(PageRange::from(1..4), PageRange::new(1, 4));
    assert_eq!(PageSelection::from(1..4), PageSelection::Range(PageRange::new(1, 4)));
    assert_eq!(PageSelection::from(PageRange::new(0, 2)), PageSelection::Range(PageRange::new(0, 2)));
    assert_eq!(PageSelection::from(vec![3, 1]), PageSelection::Pages(vec![3, 1]));
    assert_eq!(PageSelection::default(), PageSelection::All);
    assert_eq!(PageRange::from(1..=3), PageRange::new(1, 4));
    assert_eq!(PageRange::from(0..=usize::MAX), PageRange::new(0, usize::MAX));
    assert_eq!(PageSelection::from(2..=2), PageSelection::Range(PageRange::new(2, 3)));
}

#[test]
fn validated_indices_accepts_and_rejects() {
    assert_eq!(PageSelection::All.validated_indices(3).unwrap(), vec![0, 1, 2]);
    assert_eq!(message(PageSelection::All.validated_indices(0)), "page selection must not be empty");
    let range = |a, b| PageSelection::Range(PageRange::new(a, b));
    assert_eq!(range(1, 3).validated_indices(5).unwrap(), vec![1, 2]);
    assert_eq!(message(range(3, 3).validated_indices(5)), "page selection range must not be empty");
    assert_eq!(
        message(range(2, 6).validated_indices(5)),
        "page selection range 2..6 exceeds page count 5"
    );
    assert_eq!(range(0, 5).validated_indices(5).unwrap(), vec![0, 1, 2, 3, 4]);
    let pages = |v: Vec<usize>| PageSelection::Pages(v);
    assert_eq!(pages(vec![4, 0, 4]).validated_indices(5).unwrap(), vec![4, 0, 4]);
    assert_eq!(message(pages(vec![]).validated_indices(5)), "page selection must not be empty");
    assert_eq!(
        message(pages(vec![1, 7, 9]).validated_indices(5)),
        "page index 7 exceeds page count 5"
    );
}

#[test]
fn validated_unique_sorted_indices_sorts_and_rejects_duplicates() {
    let pages = |v: Vec<usize>| PageSelection::Pages(v);
    assert_eq!(pages(vec![4, 0, 2]).validated_unique_sorted_indices(5).unwrap(), vec![0, 2, 4]);
    assert_eq!(
        message(pages(vec![4, 0, 4]).validated_unique_sorted_indices(5)),
        "page selection must not contain duplicates"
    );
    assert_eq!(
        message(pages(vec![5]).validated_unique_sorted_indices(5)),
        "page index 5 exceeds page count 5"
    );
    assert_eq!(
        PageSelection::Range(PageRange::new(1, 4)).validated_unique_sorted_indices(9).unwrap(),
        vec![1, 2, 3]
    );
    assert_eq!(PageSelection::All.validated_unique_sorted_indices(2).unwrap(), vec![0, 1]);
}

#[test]
fn insert_positions_resolve() {
    assert_eq!(InsertPosition::default(), InsertPosition::Append);
    assert_eq!(InsertPosition::Append.resolve(3).unwrap(), 3);
    assert_eq!(InsertPosition::Before(2).resolve(3).unwrap(), 2);
    assert_eq!(InsertPosition::Before(3).resolve(3).unwrap(), 3);
    assert_eq!(
        message(InsertPosition::Before(4).resolve(3)),
        "insert position Before(4) exceeds page count 3"
    );
    assert_eq!(InsertPosition::After(0).resolve(3).unwrap(), 1);
    assert_eq!(InsertPosition::After(2).resolve(3).unwrap(), 3);
    assert_eq!(
        message(InsertPosition::After(3).resolve(3)),
        "insert position After(3) exceeds page count 3"
    );
}

#[test]
fn insert_options_are_checked_and_planned() {
    let options = InsertPdfOptions::default();
    assert_eq!(options.source_pages, PageSelection::All);
    assert_eq!(options.target, InsertPosition::Append);
    assert_eq!(options.rotate, None);
    assert!(options.copy_links && options.copy_annotations && options.copy_widgets);
    assert!(options.validate_supported().is_ok());

    let mut no_links = InsertPdfOptions::default();
    no_links.copy_links = false;
    assert_eq!(
        message(no_links.validate_supported()),
        "selective link, annotation, and widget copying is not supported yet"
    );
    for (rotate, ok) in [(45, false), (-90, true), (270, true), (0, true), (-45, false)] {
        let mut o = InsertPdfOptions::default();
        o.rotate = Some(rotate);
        if ok {
            assert!(o.validate_supported().is_ok(), "{rotate}");
        } else {
            assert_eq!(
                message(o.validate_supported()),
                "inserted page rotation must be a multiple of 90 degrees"
            );
        }
    }

    let (pages, result) = options.plan(3, 2).unwrap();
    assert_eq!(pages, vec![0, 1, 2]);
    assert_eq!(
        result,
        InsertPdfResult {
            inserted_pages: PageRange::new(2, 5),
            page_count: 3
        }
    );
    let mut before = InsertPdfOptions::default();
    before.target = InsertPosition::Before(1);
    before.source_pages = PageSelection::Pages(vec![2, 0]);
    let (pages, result) = before.plan(3, 4).unwrap();
    assert_eq!(pages, vec![2, 0]);
    assert_eq!(result.inserted_pages, PageRange::new(1, 3));
    assert_eq!(result.page_count, 2);
    before.target = InsertPosition::After(9);
    assert_eq!(message(before.plan(3, 4)), "insert position After(9) exceeds page count 4");
    before.source_pages = PageSelection::Pages(vec![3]);
    assert_eq!(message(before.plan(3, 4)), "page index 3 exceeds page count 3");
    no_links.target = InsertPosition::After(9);
    assert_eq!(
        message(no_links.plan(3, 4)),
        "selective link, annotation, and widget copying is not supported yet"
    );
}

#[test]
fn copy_and_move_plans() {
    let duplicated = copy_page_plan(1, InsertPosition::After(1), 3).unwrap();
    assert_eq!(duplicated.inserted_pages, PageRange::new(2, 3));
    assert_eq!(duplicated.page_count, 1);
    assert_eq!(copy_page_plan(0, InsertPosition::Append, 3).unwrap().inserted_pages, PageRange::new(3, 4));
    assert_eq!(
        message(copy_page_plan(3, InsertPosition::Append, 3)),
        "page index 3 exceeds page count 3"
    );
    assert_eq!(
        message(copy_page_plan(0, InsertPosition::Before(7), 3)),
        "insert position Before(7) exceeds page count 3"
    );

    assert_eq!(move_page_plan(0, 2, 3).unwrap(), Some((0, 2)));
    assert_eq!(move_page_plan(1, 1, 3).unwrap(), None);
    assert_eq!(message(move_page_plan(0, 3, 3)), "target page index 3 exceeds page count 3");
    assert_eq!(message(move_page_plan(5, 0, 3)), "page index 5 exceeds page count 3");
}

#[test]
fn deletion_ranges_cover_the_pages_last_first() {
    let pages = vec![1, 2, 3, 5, 7, 8];
    let ranges = deletion_ranges(&pages);
    assert_eq!(ranges, vec![PageRange::new(7, 9), PageRange::new(5, 6), PageRange::new(1, 4)]);
    for p in 0..10 {
        let covered = ranges.iter().any(|r| r.start <= p && p < r.end);
        assert_eq!(covered, pages.contains(&p), "{p}");
    }
    for pair in ranges.windows(2) {
        assert!(pair[1].end < pair[0].start);
    }
    assert_eq!(deletion_ranges(&vec![]), vec![]);
    assert_eq!(deletion_ranges(&vec![0]), vec![PageRange::new(0, 1)]);
    assert_eq!(deletion_ranges(&vec![0, 2, 4]), vec![
        PageRange::new(4, 5),
        PageRange::new(2, 3),
        PageRange::new(0, 1)
    ]);
}

#[test]
fn pages_outside_a_selection() {
    assert_eq!(pages_outside(&vec![1, 3], 5), vec![0, 2, 4]);
    assert_eq!(pages_outside(&vec![], 2), vec![0, 1]);
    assert_eq!(pages_outside(&vec![0, 1, 2], 3), Vec::<usize>::new());
    assert_eq!(pages_outside(&vec![0, 9], 3), vec![1, 2]);
}

#[test]
fn page_indices_and_xrefs_are_checked() {
    assert_eq!(checked_page_index(2, 3).unwrap(), 2);
    assert_eq!(message(checked_page_index(3, 3)), "page index 3 exceeds page count 3");
    assert_eq!(page_count_usize(7).unwrap(), 7);
    assert_eq!(
        message(page_count_usize(-1)),
        "document page count cannot be represented as usize"
    );
    assert!(checked_xref(5, 10).is_ok());
    assert_eq!(message(checked_xref(0, 10)), "xref 0 must be positive");
    assert_eq!(message(checked_xref(-3, 10)), "xref -3 must be positive");
    assert_eq!(message(checked_xref(10, 10)), "xref 10 exceeds xref length 10");
    assert_eq!(
        message(checked_xref(5, 3_000_000_000)),
        "xref length cannot be represented as i32"
    );
}

#[test]
fn page_label_rules() {
    let rule = PageLabelRule::new(2, PageLabelStyle::Decimal);
    assert_eq!(rule.index, 2);
    assert_eq!(rule.style, PageLabelStyle::Decimal);
    assert_eq!(rule.prefix, "");
    assert_eq!(rule.start, 1);
    assert_eq!(rule.checked_index(3).unwrap(), 2);
    assert_eq!(message(rule.checked_index(2)), "page label index 2 exceeds page count 2");
    let mut zero = PageLabelRule::new(0, PageLabelStyle::UpperRoman);
    zero.start = 0;
    assert_eq!(message(zero.checked_index(3)), "page label start must be at least 1");
}

#[test]
fn optional_content_refs_and_file_options() {
    assert_eq!(
        message(OptionalContentRef::new(0)),
        "optional content xref must be positive"
    );
    assert_eq!(
        message(OptionalContentRef::new(-4)),
        "optional content xref must be positive"
    );
    assert_eq!(OptionalContentRef::new(12).unwrap().xref(), 12);

    let options = EmbeddedFileOptions::new("a.txt");
    assert_eq!(options.filename, "a.txt");
    assert_eq!(options.mime_type, None);
    assert_eq!(options.created, None);
    assert_eq!(options.modified, None);
    assert!(options.add_checksum);
}
