use glyph_mesh::font::{glyph_or_fallback, height_of};

#[test]
fn height_is_ascender_less_descender() {
    assert_eq!(height_of(800, -200), 1000);
    assert_eq!(height_of(0, 0), 0);
    assert_eq!(height_of(-5, 5), -10);
    assert_eq!(height_of(i16::MAX, i16::MIN), 65535);
    assert_eq!(height_of(i16::MIN, i16::MAX), -65535);
}

#[test]
fn a_missing_glyph_falls_back_to_glyph_zero() {
    assert_eq!(glyph_or_fallback(Some(17)), 17);
    assert_eq!(glyph_or_fallback(Some(0)), 0);
    assert_eq!(glyph_or_fallback(Some(u16::MAX)), u16::MAX);
    assert_eq!(glyph_or_fallback(None), 0);
}
