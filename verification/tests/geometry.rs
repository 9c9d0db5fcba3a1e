use mupdf::error::Error;
use mupdf::irect::IRect;
use mupdf::pixel::{pixel_offset, validate_pixel_components, Pixel, PixmapDigest};

fn message<T: std::fmt::Debug>(r: Result<T, Error>) -> String {
    match r {
        Err(Error::InvalidArgument(m)) => m,
        Ok(v) => panic!("expected an error, got {v:?}"),
    }
}

#[test]
fn irect_predicates_and_sizes() {
    let r = IRect::new(0, -5, 10, 20);
    assert_eq!(r, IRect { x0: 0, y0: -5, x1: 10, y1: 20 });
    assert!(!r.is_empty());
    assert!(r.is_valid());
    assert!(r.contains(0, -5));
    assert!(r.contains(9, 19));
    assert!(!r.contains(10, 0));
    assert!(!r.contains(0, 20));
    assert_eq!(r.width(), 10);
    assert_eq!(r.height(), 25);

    let flat = IRect::new(3, 3, 3, 8);
    assert!(flat.is_empty());
    assert!(flat.is_valid());
    assert!(!flat.contains(3, 4));
    assert_eq!(flat.width(), 0);
    assert_eq!(flat.height(), 0);

    let inverted = IRect::new(5, 5, 1, 1);
    assert!(inverted.is_empty());
    assert!(!inverted.is_valid());

    assert_eq!(IRect::default(), IRect::new(0, 0, 0, 0));
    let inf = IRect::inf();
    assert_eq!(inf, IRect::new(i32::MIN, i32::MIN, 0x7fffff80, 0x7fffff80));
    assert!(inf.contains(0, 0));
}

#[test]
fn irect_union_and_text() {
    let a = IRect::new(0, 0, 10, 10);
    let b = IRect::new(-5, 2, 4, 30);
    assert_eq!(a.union(b), IRect::new(-5, 0, 10, 30));
    let invalid = IRect::new(5, 5, 1, 1);
    assert_eq!(invalid.union(b), b);
    assert_eq!(a.union(invalid), a);
    assert_eq!(IRect::new(0, -5, 10, 20).to_string(), "[0 -5 10 20]");
    assert_eq!(IRect::inf().to_string(), "[-2147483648 -2147483648 2147483520 2147483520]");
}

#[test]
fn pixels_hold_their_components() {
    assert_eq!(Pixel::gray(7).components(), &[7]);
    assert_eq!(Pixel::rgb(1, 2, 3).components(), &[1, 2, 3]);
    assert_eq!(Pixel::rgba(1, 2, 3, 4).components(), &[1, 2, 3, 4]);
    assert_eq!(Pixel::new(vec![9, 8]).components(), &[9, 8]);
    assert_eq!(Pixel::from(vec![5]), Pixel::gray(5));
    let digest = PixmapDigest([3; 16]);
    assert_eq!(digest.as_bytes(), &[3; 16]);
}

#[test]
fn pixel_components_are_checked() {
    assert!(validate_pixel_components(3, &Pixel::rgb(0, 0, 0)).is_ok());
    assert_eq!(
        message(validate_pixel_components(4, &Pixel::rgb(0, 0, 0))),
        "pixel has 3 components but pixmap requires 4"
    );
}

#[test]
fn pixel_offsets_within_the_samples() {
    let rect = IRect::new(0, 0, 4, 3);
    assert_eq!(pixel_offset(rect, 3, 12, 36, 1, 2).unwrap(), 27);
    assert_eq!(pixel_offset(rect, 3, 12, 36, 0, 0).unwrap(), 0);
    assert_eq!(pixel_offset(rect, 3, 12, 36, 3, 2).unwrap(), 33);
    assert_eq!(
        message(pixel_offset(rect, 3, 12, 36, 4, 0)),
        "pixel coordinate (4, 0) is outside pixmap bounds [0 0 4 3]"
    );
    assert_eq!(
        message(pixel_offset(rect, 3, 12, 36, -1, 0)),
        "pixel coordinate (-1, 0) is outside pixmap bounds [0 0 4 3]"
    );
    assert_eq!(
        message(pixel_offset(rect, 3, -12, 36, 1, 1)),
        "pixmap stride cannot be represented as usize"
    );
    assert_eq!(
        message(pixel_offset(rect, 3, 12, 28, 1, 2)),
        "pixel offset exceeds pixmap samples"
    );
    let shifted = IRect::new(10, 20, 14, 23);
    assert_eq!(pixel_offset(shifted, 4, 16, 48, 11, 21).unwrap(), 20);
}
