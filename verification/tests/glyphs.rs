use nyan::glyph::{Glyph, GlyphError, CARRIAGE_RETURN, FULL_BLOCK, LINE_FEED};

#[test]
fn full_block_is_a_glyph() {
    let glyph = Glyph::new(FULL_BLOCK).unwrap();
    assert_eq!(glyph.code(), 0x2588);
}

#[test]
fn glyph_keeps_its_code() {
    for code in [1u32, 0x41, 0xD7FF, 0xE000, 0xFFFF] {
        assert_eq!(Glyph::new(code).unwrap().code() as u32, code);
    }
}

#[test]
fn nul_is_no_glyph() {
    assert_eq!(Glyph::new(0).unwrap_err(), GlyphError::InvalidGlyph);
}

#[test]
fn surrogates_are_no_glyphs() {
    for code in [0xD800u32, 0xD801, 0xDBFF, 0xDC00, 0xDFFF] {
        assert_eq!(Glyph::new(code).unwrap_err(), GlyphError::InvalidGlyph);
    }
}

#[test]
fn code_points_beyond_sixteen_bits_are_no_glyphs() {
    for code in [0x1_0000u32, 0x1_2588, 0x10_FFFF, u32::MAX] {
        assert_eq!(Glyph::new(code).unwrap_err(), GlyphError::InvalidGlyph);
    }
}

#[test]
fn text_of_a_run_repeats_the_glyph() {
    let glyph = Glyph::new(FULL_BLOCK).unwrap();
    let text = glyph.repeated(4, false);
    assert_eq!(text.num_chars(), 4);
    assert_eq!(text.to_u16_slice(), &[0x2588, 0x2588, 0x2588, 0x2588]);
}

#[test]
fn text_of_an_empty_run_is_empty() {
    let glyph = Glyph::new(0x41).unwrap();
    let text = glyph.repeated(0, false);
    assert!(text.is_empty());
    assert_eq!(text.to_u16_slice_with_nul(), &[0]);
}

#[test]
fn line_break_follows_the_glyphs() {
    let glyph = Glyph::new(0x23).unwrap();
    let text = glyph.repeated(3, true);
    assert_eq!(text.to_u16_slice(), &[0x23, 0x23, 0x23, 0x0D, 0x0A]);
    assert_eq!(CARRIAGE_RETURN, 0x0D);
    assert_eq!(LINE_FEED, 0x0A);
    assert_eq!(glyph.repeated(0, true).to_u16_slice(), &[0x0D, 0x0A]);
}

#[test]
fn text_is_a_terminated_string() {
    let glyph = Glyph::new(0x2591).unwrap();
    let text = glyph.repeated(2, false);
    assert_eq!(text.to_u16_slice_with_nul(), &[0x2591, 0x2591, 0]);
    assert_eq!(text.to_string(), "\u{2591}\u{2591}");
}
