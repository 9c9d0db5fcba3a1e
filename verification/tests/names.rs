use mupdf::binary32::Binary32;
use mupdf::destination::DestinationKind;
use mupdf::fonts::{
    canonical_base14_name, cjk_font_name, cjk_ordering_from_font_name, encoding_from_differences,
    encoding_from_name, normalized_base_font_name, CjkFontOrdering, SimpleFontEncoding,
};
use mupdf::link_dict::{action_dict, ascii_file_name, filespec_dict, DestEntry, FileSpecDict};
use mupdf::links::{FileSpec, PdfAction, PdfDestination};
use mupdf::path::cleanname;
use mupdf::resources::next_resource_slot;

#[test]
fn base14_names_and_abbreviations() {
    assert_eq!(canonical_base14_name("Helv"), Some("Helvetica"));
    assert_eq!(canonical_base14_name("/helvetica"), Some("Helvetica"));
    assert_eq!(canonical_base14_name("TIMES-ROMAN"), Some("Times-Roman"));
    assert_eq!(canonical_base14_name("//zadb"), Some("ZapfDingbats"));
    assert_eq!(canonical_base14_name("HeBoIt"), Some("Helvetica-BoldOblique"));
    assert_eq!(canonical_base14_name("courier-boldoblique"), Some("Courier-BoldOblique"));
    assert_eq!(canonical_base14_name("symb"), Some("Symbol"));
    assert_eq!(canonical_base14_name("tibi"), Some("Times-BoldItalic"));
    assert_eq!(canonical_base14_name("Arial"), None);
    assert_eq!(canonical_base14_name("helv "), None);
    assert_eq!(canonical_base14_name(""), None);
}

#[test]
fn cjk_font_names() {
    assert_eq!(cjk_ordering_from_font_name("/China-S"), Some(CjkFontOrdering::AdobeGb));
    assert_eq!(cjk_ordering_from_font_name("china-t"), Some(CjkFontOrdering::AdobeCns));
    assert_eq!(cjk_ordering_from_font_name("JAPAN"), Some(CjkFontOrdering::AdobeJapan));
    assert_eq!(cjk_ordering_from_font_name("korea"), Some(CjkFontOrdering::AdobeKorea));
    assert_eq!(cjk_ordering_from_font_name("china"), None);
    for ordering in [
        CjkFontOrdering::AdobeCns,
        CjkFontOrdering::AdobeGb,
        CjkFontOrdering::AdobeJapan,
        CjkFontOrdering::AdobeKorea,
    ] {
        assert_eq!(cjk_ordering_from_font_name(cjk_font_name(ordering)), Some(ordering));
    }
    assert_eq!(cjk_font_name(CjkFontOrdering::AdobeJapan), "japan");
}

#[test]
fn base_font_names_lose_their_subset_tag() {
    assert_eq!(normalized_base_font_name("ABCDEF+Helvetica"), "Helvetica");
    assert_eq!(normalized_base_font_name("ABCDE+Helvetica"), "ABCDE+Helvetica");
    assert_eq!(normalized_base_font_name("AbCDEF+Helvetica"), "AbCDEF+Helvetica");
    assert_eq!(normalized_base_font_name("Helvetica"), "Helvetica");
    assert_eq!(normalized_base_font_name("ABCDEF+"), "");
    assert_eq!(normalized_base_font_name("ABCDEF+A+B"), "A+B");
}

#[test]
fn resource_slots_take_the_smallest_free_number() {
    let keys = |v: &[&str]| v.iter().map(|s| s.to_string()).collect::<Vec<String>>();
    assert_eq!(next_resource_slot("Im", &keys(&["Im0", "Im1", "F0", "Im3"])), "Im2");
    assert_eq!(next_resource_slot("Im", &keys(&["Im+0"])), "Im1");
    assert_eq!(next_resource_slot("Im", &keys(&["Im", "Imx", "Im-1"])), "Im0");
    assert_eq!(next_resource_slot("Im", &keys(&[])), "Im0");
    assert_eq!(next_resource_slot("F", &keys(&["F00", "F1"])), "F2");
    assert_eq!(next_resource_slot("P", &keys(&["P0", "P99999999999999999999999"])), "P1");
    assert_eq!(next_resource_slot("A", &keys(&["A1", "A2"])), "A0");
}

#[test]
fn cleanname_normalises_paths() {
    let cases = [
        ("a/./b/../c//d/", "a/c/d"),
        ("/../x", "/x"),
        ("../../a", "../../a"),
        ("a/../../b", "../b"),
        ("", "."),
        ("/", "/"),
        ("a/..", "."),
        ("//a//b", "/a/b"),
        ("./a", "a"),
    ];
    for (input, expected) in cases {
        let once = cleanname(input);
        assert_eq!(once, expected, "{input}");
        assert_eq!(cleanname(&once), once, "{input}");
    }
}

#[test]
fn file_specifications_and_action_dictionaries() {
    assert_eq!(ascii_file_name("résumé.pdf"), "r_sum_.pdf");
    assert_eq!(ascii_file_name("a ~b\t"), "a ~b_");
    assert_eq!(
        filespec_dict(&FileSpec::Path("é.txt".into())),
        FileSpecDict::Path {
            ascii: "_.txt".into(),
            unicode: "é.txt".into()
        }
    );
    assert_eq!(
        filespec_dict(&FileSpec::Url("http://x/y.pdf".into())),
        FileSpecDict::Url("http://x/y.pdf".into())
    );

    let goto = action_dict(&PdfAction::GoTo(PdfDestination::Page {
        page: 4,
        kind: DestinationKind::Fit,
    }));
    assert_eq!(goto.kind, "GoTo");
    assert_eq!(goto.dest, Some(DestEntry::LocalPage { page: 4, kind: DestinationKind::Fit }));
    assert_eq!(goto.uri, None);
    assert_eq!(goto.file, None);

    let remote = action_dict(&PdfAction::GoToR {
        file: FileSpec::Path("a.pdf".into()),
        dest: PdfDestination::Page {
            page: 3_000_000_000,
            kind: DestinationKind::FitH { top: Some(Binary32::from_bits(0)) },
        },
    });
    assert_eq!(remote.kind, "GoToR");
    assert_eq!(
        remote.dest,
        Some(DestEntry::RemotePage {
            page: 3_000_000_000u32 as i32,
            kind: DestinationKind::FitH { top: Some(Binary32::from_bits(0)) },
        })
    );
    assert_eq!(
        remote.file,
        Some(FileSpecDict::Path {
            ascii: "a.pdf".into(),
            unicode: "a.pdf".into()
        })
    );

    let named = action_dict(&PdfAction::GoTo(PdfDestination::Named("intro".into())));
    assert_eq!(named.dest, Some(DestEntry::Named("intro".into())));

    let uri = action_dict(&PdfAction::Uri("https://example.com".into()));
    assert_eq!(uri.kind, "URI");
    assert_eq!(uri.uri, Some("https://example.com".into()));
    assert_eq!(uri.dest, None);

    let launch = action_dict(&PdfAction::Launch(FileSpec::Url("http://x".into())));
    assert_eq!(launch.kind, "Launch");
    assert_eq!(launch.dest, None);
    assert_eq!(launch.file, Some(FileSpecDict::Url("http://x".into())));
}

#[test]
fn simple_font_encodings_from_glyph_names() {
    let names = |v: &[&str]| v.iter().map(|s| s.to_string()).collect::<Vec<String>>();
    assert_eq!(encoding_from_name("WinAnsiEncoding"), Some(SimpleFontEncoding::Latin));
    assert_eq!(encoding_from_name("MacRomanEncoding"), None);
    assert_eq!(encoding_from_name("winansiencoding"), None);
    assert_eq!(
        encoding_from_differences(&names(&["space", "afii10017", "Alpha"])),
        Some(SimpleFontEncoding::Cyrillic)
    );
    assert_eq!(
        encoding_from_differences(&names(&["space", "Alpha", "afii10017"])),
        Some(SimpleFontEncoding::Greek)
    );
    assert_eq!(
        encoding_from_differences(&names(&["Acyrillic"])),
        Some(SimpleFontEncoding::Cyrillic)
    );
    assert_eq!(encoding_from_differences(&names(&["tonos"])), Some(SimpleFontEncoding::Greek));
    assert_eq!(encoding_from_differences(&names(&["Omega", "afii1", "A"])), None);
    assert_eq!(encoding_from_differences(&names(&[])), None);
}
