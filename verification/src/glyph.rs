//! Glyph units and console text, kept in the firmware interface's own
//! UCS-2 character and string types.

use uefi::data_types::chars::CharConversionError;
use uefi::{CString16, Char16};
use vstd::prelude::*;

verus! {

/// Trusted: `uefi::Char16`, one UCS-2 character. Nothing is known of a
/// value but what the functions below say of it.
#[verifier::external_type_specification]
#[verifier::external_body]
pub struct ExChar16(Char16);

/// Trusted: `uefi::data_types::chars::CharConversionError`, the error of
/// `Char16::try_from`. It carries nothing.
#[verifier::external_type_specification]
#[verifier::external_body]
pub struct ExCharConversionError(CharConversionError);

/// Trusted: `uefi::CString16`, an owned UCS-2 string that ends in a nul
/// character. Nothing is known of a value but what the functions below say
/// of it.
#[verifier::external_type_specification]
#[verifier::external_body]
pub struct ExCString16(CString16);

/// The 16-bit code unit that a `Char16` holds: what `u16::from` returns
/// for it.
pub uninterp spec fn char16_unit(c: Char16) -> u16;

/// The code units that a `CString16` holds, in order and without its
/// terminating nul.
pub uninterp spec fn text_units(text: CString16) -> Seq<u16>;

/// Carriage return, the first unit of a line break.
pub const CARRIAGE_RETURN: u16 = 0x000D;

/// Line feed, the second unit of a line break.
pub const LINE_FEED: u16 = 0x000A;

/// The code point of the full block element, the usual glyph for pixel art.
pub const FULL_BLOCK: u32 = 0x2588;

/// Whether a 16-bit unit lies in the UTF-16 surrogate range, which UCS-2 has
/// no characters for.
pub open spec fn is_surrogate(unit: u16) -> bool {
    0xD800 <= unit <= 0xDFFF
}

/// Whether a code point can be a glyph unit: a single UCS-2 character other
/// than nul.
pub open spec fn is_glyph_code(code: u32) -> bool {
    0 < code <= 0xFFFF && !(0xD800 <= code <= 0xDFFF)
}

/// The text of one run: the glyph once for each cell, and after the glyphs
/// a carriage return and a line feed if the run ends in a line break.
pub open spec fn run_text(glyph: u16, count: nat, line_break: bool) -> Seq<u16> {
    Seq::new(count, |j: int| glyph) + if line_break {
        seq![CARRIAGE_RETURN, LINE_FEED]
    } else {
        Seq::empty()
    }
}

/// Trusted: `Char16::try_from(u16)` of the `uefi` crate. It accepts exactly
/// the units outside the surrogate range and keeps the unit it was given.
#[verifier::external_body]
fn char16_from_unit(unit: u16) -> (r: Result<Char16, CharConversionError>)
    ensures
        r is Ok <==> !is_surrogate(unit),
        r matches Ok(c) ==> char16_unit(c) == unit,
{
    Char16::try_from(unit)
}

/// Trusted: `u16::from(Char16)` of the `uefi` crate, which hands out the
/// unit that the character holds.
#[verifier::external_body]
fn unit_from_char16(c: Char16) -> (unit: u16)
    ensures
        unit == char16_unit(c),
{
    u16::from(c)
}

/// Trusted: `CString16::new` of the `uefi` crate, the string with no
/// character before its terminating nul.
#[verifier::external_body]
fn text_new() -> (text: CString16)
    ensures
        text_units(text) == Seq::<u16>::empty(),
{
    CString16::new()
}

/// Trusted: `CString16::push` of the `uefi` crate. It puts the character
/// at the end of the string, before the terminating nul, and panics on the
/// nul character, which the precondition leaves out.
#[verifier::external_body]
fn text_push(text: &mut CString16, c: Char16)
    requires
        char16_unit(c) != 0,
    ensures
        text_units(*final(text)) == text_units(*old(text)).push(char16_unit(c)),
{
    text.push(c)
}

/// Why a glyph unit could not be made.
#[derive(Clone, Copy, Debug, PartialEq, Eq, Structural)]
pub enum GlyphError {
    /// The code point is nul, a surrogate, or beyond the 16-bit range.
    InvalidGlyph,
}

/// One renderable symbol that occupies one cell.
#[derive(Clone, Copy, Debug)]
pub struct Glyph {
    unit: Char16,
}

impl View for Glyph {
    type V = u16;

    /// The code unit of the glyph.
    closed spec fn view(&self) -> u16 {
        char16_unit(self.unit)
    }
}

impl Glyph {
    #[verifier::type_invariant]
    spec fn inv(self) -> bool {
        is_glyph_code(char16_unit(self.unit) as u32)
    }

    /// Makes the glyph unit for a code point, or rejects the code point.
    pub fn new(code: u32) -> (r: Result<Glyph, GlyphError>)
        ensures
            r is Ok <==> is_glyph_code(code),
            r matches Ok(g) ==> g@ == code,
            r matches Err(e) ==> e == GlyphError::InvalidGlyph,
    {
        if code == 0 || code > 0xFFFF {
            return Err(GlyphError::InvalidGlyph);
        }
        match char16_from_unit(code as u16) {
            Ok(unit) => Ok(Glyph { unit }),
            Err(_) => Err(GlyphError::InvalidGlyph),
        }
    }

    /// The code unit of the glyph.
    pub fn code(&self) -> (unit: u16)
        ensures
            unit == self@,
            is_glyph_code(unit as u32),
    {
        proof {
            use_type_invariant(self);
        }
        unit_from_char16(self.unit)
    }

    /// The text of a run of `count` cells of this glyph, with a line break
    /// after the glyphs if asked for.
    pub fn repeated(&self, count: usize, line_break: bool) -> (text: CString16)
        ensures
            text_units(text) == run_text(self@, count as nat, line_break),
    {
        proof {
            use_type_invariant(self);
        }
        let mut text = text_new();
        let mut written: usize = 0;
        while written < count
            invariant
                written <= count,
                char16_unit(self.unit) != 0,
                text_units(text) == Seq::new(written as nat, |j: int| self@),
            decreases count - written,
        {
            text_push(&mut text, self.unit);
            written += 1;
            assert(text_units(text) =~= Seq::new(written as nat, |j: int| self@));
        }
        if line_break {
            if let Ok(cr) = char16_from_unit(CARRIAGE_RETURN) {
                text_push(&mut text, cr);
            }
            if let Ok(lf) = char16_from_unit(LINE_FEED) {
                text_push(&mut text, lf);
            }
        }
        assert(text_units(text) =~= run_text(self@, count as nat, line_break));
        text
    }
}

} // verus!
