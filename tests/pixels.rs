use bwdraw::{DuoPixel, EMPTY_C, FULL_C, LOWER_C, UPPER_C};

#[test]
fn glyph_mapping() {
    assert_eq!(DuoPixel::new(true, true).to_char(), '\u{2588}');
    assert_eq!(DuoPixel::new(true, false).to_char(), '\u{2580}');
    assert_eq!(DuoPixel::new(false, true).to_char(), '\u{2584}');
    assert_eq!(DuoPixel::new(false, false).to_char(), ' ');
    let c: char = DuoPixel::new(true, false).into();
    assert_eq!(c, UPPER_C);
}

#[test]
fn glyph_decoding() {
    assert_eq!(DuoPixel::from_char(FULL_C), Some(DuoPixel::new(true, true)));
    assert_eq!(DuoPixel::from_char(UPPER_C), Some(DuoPixel::new(true, false)));
    assert_eq!(DuoPixel::from_char(LOWER_C), Some(DuoPixel::new(false, true)));
    assert_eq!(DuoPixel::from_char(EMPTY_C), Some(DuoPixel::new(false, false)));
    assert_eq!(DuoPixel::from_char('#'), None);
}

#[test]
fn tuple_conversions() {
    let p = DuoPixel::from((false, true));
    assert_eq!(p, DuoPixel { upper: false, lower: true });
    let t: (bool, bool) = p.into();
    assert_eq!(t, (false, true));
    assert_eq!(p.flip(), DuoPixel::new(true, false));
}
