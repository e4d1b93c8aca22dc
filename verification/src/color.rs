//! The fixed palette of the text console.

use vstd::prelude::*;

verus! {

/// One of the sixteen colors a console cell can take. Colors are compared by
/// identity only.
#[derive(Clone, Copy, Debug, PartialEq, Eq, Structural, Hash)]
pub enum Color {
    Black,
    Blue,
    Green,
    Cyan,
    Red,
    Magenta,
    Brown,
    LightGray,
    DarkGray,
    LightBlue,
    LightGreen,
    LightCyan,
    LightRed,
    LightMagenta,
    Yellow,
    White,
}

/// The number of colors in the palette.
pub const PALETTE_SIZE: usize = 16;

/// The palette in its fixed order.
pub open spec fn palette_spec() -> Seq<Color> {
    seq![
        Color::Black,
        Color::Blue,
        Color::Green,
        Color::Cyan,
        Color::Red,
        Color::Magenta,
        Color::Brown,
        Color::LightGray,
        Color::DarkGray,
        Color::LightBlue,
        Color::LightGreen,
        Color::LightCyan,
        Color::LightRed,
        Color::LightMagenta,
        Color::Yellow,
        Color::White,
    ]
}

/// The palette holds every color, and none twice.
pub proof fn lemma_palette_exact()
    ensures
        palette_spec().len() == PALETTE_SIZE,
        forall|color: Color| palette_spec().contains(color),
        forall|i: int, j: int|
            0 <= i < j < palette_spec().len() ==> palette_spec()[i] != palette_spec()[j],
{
    let colors = palette_spec();
    assert forall|color: Color| colors.contains(color) by {
        let i: int = match color {
            Color::Black => 0,
            Color::Blue => 1,
            Color::Green => 2,
            Color::Cyan => 3,
            Color::Red => 4,
            Color::Magenta => 5,
            Color::Brown => 6,
            Color::LightGray => 7,
            Color::DarkGray => 8,
            Color::LightBlue => 9,
            Color::LightGreen => 10,
            Color::LightCyan => 11,
            Color::LightRed => 12,
            Color::LightMagenta => 13,
            Color::Yellow => 14,
            Color::White => 15,
        };
        assert(colors[i] == color);
    }
}

/// All sixteen colors, each once, in palette order.
pub fn palette() -> (colors: Vec<Color>)
    ensures
        colors@ == palette_spec(),
        colors@.len() == PALETTE_SIZE,
{
    let colors = vec![
        Color::Black,
        Color::Blue,
        Color::Green,
        Color::Cyan,
        Color::Red,
        Color::Magenta,
        Color::Brown,
        Color::LightGray,
        Color::DarkGray,
        Color::LightBlue,
        Color::LightGreen,
        Color::LightCyan,
        Color::LightRed,
        Color::LightMagenta,
        Color::Yellow,
        Color::White,
    ];
    assert(colors@ =~= palette_spec());
    colors
}

} // verus!
