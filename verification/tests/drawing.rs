use mupdf::error::Error;
use mupdf::redact::{
    PdfRedactImageMethod, PdfRedactLineArtMethod, PdfRedactOptions, PdfRedactTextMethod,
};
use mupdf::shape::{color_code_text, normalize_rotate, strip_trailing_fraction_zeros, ColorRole, TextAlign};

#[test]
fn rotations_must_be_right_angles() {
    for rotate in [0, 90, 180, 270] {
        assert_eq!(normalize_rotate(rotate).unwrap(), rotate);
    }
    let message = |r| match normalize_rotate(r) {
        Err(Error::InvalidArgument(m)) => m,
        Ok(v) => panic!("expected an error, got {v}"),
    };
    assert_eq!(message(45), "bad rotate value: 45; expected one of 0, 90, 180, 270");
    assert_eq!(message(-90), "bad rotate value: -90; expected one of 0, 90, 180, 270");
    assert_eq!(message(360), "bad rotate value: 360; expected one of 0, 90, 180, 270");
    assert_eq!(
        message(i32::MIN),
        "bad rotate value: -2147483648; expected one of 0, 90, 180, 270"
    );
}

#[test]
fn fraction_zeros_are_stripped() {
    let cases = [
        ("1.500", "1.5"),
        ("2.000", "2"),
        ("100", "100"),
        ("0.0", "0"),
        ("10", "10"),
        ("1.05", "1.05"),
        ("-3.10", "-3.1"),
        ("", ""),
    ];
    for (input, expected) in cases {
        let mut s = input.to_string();
        strip_trailing_fraction_zeros(&mut s);
        assert_eq!(s, expected, "{input}");
    }
}

#[test]
fn defaults() {
    assert_eq!(TextAlign::default(), TextAlign::Left);
    let mupdf = PdfRedactOptions::mupdf_default();
    assert!(!mupdf.black_boxes);
    assert_eq!(mupdf.image_method, PdfRedactImageMethod::Pixels);
    assert_eq!(mupdf.line_art, PdfRedactLineArtMethod::Ignore);
    assert_eq!(mupdf.text, PdfRedactTextMethod::Remove);
    assert_eq!(PdfRedactOptions::default(), mupdf);
    let pymupdf = PdfRedactOptions::pymupdf_default();
    assert_eq!(pymupdf.line_art, PdfRedactLineArtMethod::RemoveIfCovered);
    assert_eq!(pymupdf.image_method, PdfRedactImageMethod::Pixels);
    assert_eq!(PdfRedactImageMethod::default(), PdfRedactImageMethod::Pixels);
    assert_eq!(PdfRedactLineArtMethod::default(), PdfRedactLineArtMethod::Ignore);
    assert_eq!(PdfRedactTextMethod::default(), PdfRedactTextMethod::Remove);
}

#[test]
fn colour_lines_by_component_count_and_role() {
    let texts = |v: &[&str]| v.iter().map(|s| s.to_string()).collect::<Vec<String>>();
    assert_eq!(color_code_text(&texts(&["0.5"]), ColorRole::Fill), "0.5 g\n");
    assert_eq!(color_code_text(&texts(&["0.5"]), ColorRole::Stroke), "0.5 G\n");
    assert_eq!(color_code_text(&texts(&["1", "0", "0"]), ColorRole::Stroke), "1 0 0 RG\n");
    assert_eq!(color_code_text(&texts(&["1", "0", "0"]), ColorRole::Fill), "1 0 0 rg\n");
    assert_eq!(color_code_text(&texts(&["0", "0.1", "0.2", "1"]), ColorRole::Stroke), "0 0.1 0.2 1 K\n");
    assert_eq!(color_code_text(&texts(&["0", "0.1", "0.2", "1"]), ColorRole::Fill), "0 0.1 0.2 1 k\n");
    assert_eq!(color_code_text(&texts(&["0", "0"]), ColorRole::Fill), "");
    assert_eq!(color_code_text(&texts(&[]), ColorRole::Stroke), "");
}
