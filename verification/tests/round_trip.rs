use mupdf::binary32::Binary32;
use mupdf::destination::DestinationKind;
use mupdf::links::{FileSpec, PdfAction, PdfDestination};
use mupdf::parse::parse_external_link;

fn c(x: f32) -> Binary32 {
    Binary32::from_bits(x.to_bits())
}

fn read(s: &str) -> Option<Binary32> {
    s.parse::<f32>().ok().map(c)
}

fn show(x: Binary32) -> String {
    f32::from_bits(x.to_bits()).to_string()
}

fn add(a: Binary32, b: Binary32) -> Binary32 {
    c(f32::from_bits(a.to_bits()) + f32::from_bits(b.to_bits()))
}

fn uri(action: &PdfAction) -> String {
    action.to_uri(&show, &add)
}

fn parse(uri: &str) -> Option<PdfAction> {
    parse_external_link(uri, &read, &add)
}

fn goto(page: u32, kind: DestinationKind) -> PdfAction {
    PdfAction::GoTo(PdfDestination::Page { page, kind })
}

fn xyz(left: Option<f32>, top: Option<f32>, zoom: Option<f32>) -> DestinationKind {
    DestinationKind::XYZ {
        left: left.map(c),
        top: top.map(c),
        zoom: zoom.map(c),
    }
}

#[test]
fn round_trip_of_page_destinations() {
    let actions = vec![
        goto(0, DestinationKind::default()),
        goto(4, DestinationKind::Fit),
        goto(1, DestinationKind::FitB),
        goto(2, DestinationKind::FitH { top: Some(c(500.0)) }),
        goto(2, DestinationKind::FitBH { top: None }),
        goto(7, DestinationKind::FitV { left: Some(c(-20.5)) }),
        goto(7, DestinationKind::FitBV { left: Some(c(0.0)) }),
        goto(0, xyz(Some(100.0), Some(600.0), Some(150.0))),
        goto(3, xyz(None, Some(250.25), Some(50.0))),
        goto(
            9,
            DestinationKind::FitR {
                left: c(10.0),
                bottom: c(20.0),
                right: c(110.0),
                top: c(220.0),
            },
        ),
        goto(2_147_483_646, DestinationKind::Fit),
    ];
    for action in actions {
        assert_eq!(parse(&uri(&action)), Some(action.clone()), "{}", uri(&action));
    }
}

#[test]
fn round_trip_of_named_destinations_and_files() {
    let actions = vec![
        PdfAction::GoTo(PdfDestination::Named("Chapter 1/é".into())),
        PdfAction::GoTo(PdfDestination::Named("a&b#c=d".into())),
        PdfAction::GoToR {
            file: FileSpec::Path("/Docs/résumé v2.pdf".into()),
            dest: PdfDestination::Page {
                page: 3,
                kind: DestinationKind::FitH { top: Some(c(10.0)) },
            },
        },
        PdfAction::GoToR {
            file: FileSpec::Path("rel dir/Report.PDF".into()),
            dest: PdfDestination::Named("intro".into()),
        },
        PdfAction::GoToR {
            file: FileSpec::Url("https://example.com/doc.pdf".into()),
            dest: PdfDestination::Page {
                page: 0,
                kind: DestinationKind::Fit,
            },
        },
        PdfAction::Launch(FileSpec::Path("/tmp/notes.txt".into())),
        PdfAction::Launch(FileSpec::Path("docs/a b%.txt".into())),
        PdfAction::Uri("https://example.com/x?y=1&z=2".into()),
        PdfAction::Uri("mailto:someone@example.com".into()),
    ];
    for action in actions {
        assert_eq!(parse(&uri(&action)), Some(action.clone()), "{}", uri(&action));
    }
}

#[test]
fn round_trip_outside_the_law() {
    // A launch of a URL reads back as a URI action: the two share one URI form.
    let launch_url = PdfAction::Launch(FileSpec::Url("https://example.com/a.txt".into()));
    assert_eq!(uri(&launch_url), "https://example.com/a.txt#page=1");
    assert_eq!(
        parse(&uri(&launch_url)),
        Some(PdfAction::Uri("https://example.com/a.txt#page=1".into()))
    );

    // A launch of a `.pdf` file reads back as a go-to of its first page.
    let launch_pdf = PdfAction::Launch(FileSpec::Path("book.pdf".into()));
    assert_eq!(uri(&launch_pdf), "file:book.pdf#page=1");
    assert_eq!(
        parse(&uri(&launch_pdf)),
        Some(PdfAction::GoToR {
            file: FileSpec::Path("book.pdf".into()),
            dest: PdfDestination::Page {
                page: 0,
                kind: DestinationKind::default(),
            },
        })
    );

    // An empty name is no destination.
    let empty_name = PdfAction::GoTo(PdfDestination::Named(String::new()));
    assert_eq!(uri(&empty_name), "#nameddest=");
    assert_eq!(parse(&uri(&empty_name)), None);

    // A zoom of zero is not written, and reads back as no zoom.
    let zero_zoom = goto(0, xyz(None, None, Some(0.0)));
    assert_eq!(uri(&zero_zoom), "#page=1");
    assert_eq!(parse(&uri(&zero_zoom)), Some(goto(0, xyz(None, None, None))));

    // A negative zoom reads back as 100 percent.
    let negative_zoom = goto(0, xyz(None, None, Some(-50.0)));
    assert_eq!(uri(&negative_zoom), "#page=1&zoom=-50,nan,nan");
    assert_eq!(parse(&uri(&negative_zoom)), Some(goto(0, xyz(None, None, Some(100.0)))));
}

#[test]
fn parse_ignores_outer_whitespace() {
    let cases = [
        "#page=3&view=Fit",
        "file:///Docs/a.pdf#page=2",
        "https://example.com",
        "notes/readme.txt",
        "#Chapter%201",
    ];
    for case in cases {
        let padded = format!(" \t {case}\n ");
        assert_eq!(parse(&padded), parse(case), "{case}");
        assert!(parse(case).is_some());
    }
    assert_eq!(parse("  \t "), None);
}

#[test]
fn named_destinations_are_percent_encoded_and_decoded() {
    let named = PdfAction::GoTo(PdfDestination::Named("a b%c/é".into()));
    assert_eq!(uri(&named), "#nameddest=a%20b%25c%2F%C3%A9");
    assert_eq!(
        parse("#nameddest=a%20b%25c%2F%C3%A9"),
        Some(PdfAction::GoTo(PdfDestination::Named("a b%c/é".into())))
    );
    let path = PdfAction::Launch(FileSpec::Path("/a b/ü.txt".into()));
    assert_eq!(uri(&path), "file:///a%20b/%C3%BC.txt#page=1");
}

#[test]
fn launches_read_back_after_a_first_reading() {
    for input in ["file:a/./b%20c.txt", "notes/../readme", "file:///tmp//x/", "  docs/a.TXT "] {
        let first = parse(input).unwrap();
        assert!(matches!(first, PdfAction::Launch(FileSpec::Path(_))), "{input}");
        assert_eq!(parse(&uri(&first)), Some(first.clone()), "{input}");
    }
    assert_eq!(
        parse("file:a/./b%20c.txt"),
        Some(PdfAction::Launch(FileSpec::Path("a/b c.txt".into())))
    );
}
