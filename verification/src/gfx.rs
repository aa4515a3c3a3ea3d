//! Sprite-sheet glyphs and the palette, as plain data for the renderer.

use vstd::prelude::*;

verus! {

/// Glyphs of the code-page-437 tile sheet used by the renderer.
#[derive(Clone, Copy, PartialEq, Eq, Structural, Debug)]
pub enum CP437 {
    Pillar,
    ChDot,
    LessThan,
    GreaterThan,
    ChAt,
    ChA,
    Trap,
    Cha,
    Filled1,
    Filled2,
    Filled3,
    Filled4,
}

impl CP437 {
    /// The index of the glyph in a 16 x 16 code-page-437 tile sheet.
    pub open spec fn sheet_index_spec(self) -> u8 {
        match self {
            CP437::Pillar => 35,
            CP437::ChDot => 46,
            CP437::LessThan => 60,
            CP437::GreaterThan => 62,
            CP437::ChAt => 64,
            CP437::ChA => 65,
            CP437::Trap => 94,
            CP437::Cha => 97,
            CP437::Filled1 => 176,
            CP437::Filled2 => 177,
            CP437::Filled3 => 178,
            CP437::Filled4 => 219,
        }
    }

    /// The index of the glyph in a 16 x 16 code-page-437 tile sheet.
    pub fn sheet_index(self) -> (v: u8)
        ensures
            v == self.sheet_index_spec(),
    {
        match self {
            CP437::Pillar => 35,
            CP437::ChDot => 46,
            CP437::LessThan => 60,
            CP437::GreaterThan => 62,
            CP437::ChAt => 64,
            CP437::ChA => 65,
            CP437::Trap => 94,
            CP437::Cha => 97,
            CP437::Filled1 => 176,
            CP437::Filled2 => 177,
            CP437::Filled3 => 178,
            CP437::Filled4 => 219,
        }
    }
}

/// The palette: the sixteen terminal colors and the window background.
#[derive(Clone, Copy, PartialEq, Eq, Structural, Debug)]
pub enum Color {
    Black,
    Blue,
    Cyan,
    Green,
    Magenta,
    Red,
    White,
    Yellow,
    BlackBright,
    BlueBright,
    CyanBright,
    GreenBright,
    MagentaBright,
    RedBright,
    WhiteBright,
    YellowBright,
    Background,
}

/// What an entity looks like on screen: a glyph and a palette color.
#[derive(Clone, Copy, PartialEq, Eq, Structural, Debug)]
pub struct Renderable {
    pub spr: CP437,
    pub color: Color,
}

} // verus!
