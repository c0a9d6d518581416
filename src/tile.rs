//! Tiles: a shape and a colour, tied one to one.
use crate::random::random_below;
use vstd::prelude::*;

verus! {

/// The shape of a tile. `Block` is a display placeholder and never paired
/// with a colour.
#[derive(Debug, Clone, Copy, PartialEq, Eq, Structural)]
pub enum InputShape {
    Heart,
    Triangle,
    Diamond,
    Ball,
    Club,
    Spade,
    Block,
}

/// The colour of a tile.
#[derive(Debug, Clone, Copy, PartialEq, Eq, Structural)]
pub enum InputColor {
    Red,
    Green,
    Blue,
    Yellow,
    Cyan,
    Magenta,
}

/// One cell of the grid.
#[derive(Debug, Clone, Copy, PartialEq, Eq, Structural)]
pub struct Tile {
    pub shape: InputShape,
    pub color: InputColor,
}

/// The shape that goes with each colour.
pub open spec fn shape_of_color(c: InputColor) -> InputShape {
    match c {
        InputColor::Red => InputShape::Heart,
        InputColor::Green => InputShape::Triangle,
        InputColor::Blue => InputShape::Diamond,
        InputColor::Yellow => InputShape::Ball,
        InputColor::Cyan => InputShape::Club,
        InputColor::Magenta => InputShape::Spade,
    }
}

/// The colour that goes with each shape; `Block` falls back to the last pair.
pub open spec fn color_of_shape(s: InputShape) -> InputColor {
    match s {
        InputShape::Heart => InputColor::Red,
        InputShape::Triangle => InputColor::Green,
        InputShape::Diamond => InputColor::Blue,
        InputShape::Ball => InputColor::Yellow,
        InputShape::Club => InputColor::Cyan,
        _ => InputColor::Magenta,
    }
}

/// The tile whose colour is `c`.
pub open spec fn color_tile(c: InputColor) -> Tile {
    Tile { shape: shape_of_color(c), color: c }
}

/// The tile whose shape is `s` (`Block` gives the spade tile).
pub open spec fn shape_tile(s: InputShape) -> Tile {
    color_tile(color_of_shape(s))
}

/// The tile numbered `i` in the order heart, triangle, diamond, ball, club,
/// spade; numbers past the last give the spade tile.
pub open spec fn indexed_tile(i: int) -> Tile {
    color_tile(
        if i == 0 {
            InputColor::Red
        } else if i == 1 {
            InputColor::Green
        } else if i == 2 {
            InputColor::Blue
        } else if i == 3 {
            InputColor::Yellow
        } else if i == 4 {
            InputColor::Cyan
        } else {
            InputColor::Magenta
        },
    )
}

impl Tile {
    /// A tile may stand on the grid: its shape is the one its colour goes with.
    pub open spec fn paired(self) -> bool {
        self.shape == shape_of_color(self.color)
    }

    /// A tile drawn uniformly from the six pairs.
    pub fn new() -> (r: Tile)
        ensures
            r.paired(),
            exists|i: int| 0 <= i < 6 && r == indexed_tile(i),
    {
        let i = random_below(6);
        Tile::from_index(i)
    }

    /// The tile numbered `i` (see `indexed_tile`).
    pub fn from_index(i: u16) -> (r: Tile)
        ensures
            r == indexed_tile(i as int),
            r.paired(),
    {
        let c = match i {
            0 => InputColor::Red,
            1 => InputColor::Green,
            2 => InputColor::Blue,
            3 => InputColor::Yellow,
            4 => InputColor::Cyan,
            _ => InputColor::Magenta,
        };
        Tile::color(c)
    }

    /// The tile whose colour is `color`.
    pub fn color(color: InputColor) -> (r: Tile)
        ensures
            r == color_tile(color),
            r.paired(),
    {
        match color {
            InputColor::Red => Tile { shape: InputShape::Heart, color: InputColor::Red },
            InputColor::Green => Tile { shape: InputShape::Triangle, color: InputColor::Green },
            InputColor::Blue => Tile { shape: InputShape::Diamond, color: InputColor::Blue },
            InputColor::Yellow => Tile { shape: InputShape::Ball, color: InputColor::Yellow },
            InputColor::Cyan => Tile { shape: InputShape::Club, color: InputColor::Cyan },
            InputColor::Magenta => Tile { shape: InputShape::Spade, color: InputColor::Magenta },
        }
    }

    /// The tile whose shape is `shape`; `Block` gives the spade tile.
    pub fn shape(shape: InputShape) -> (r: Tile)
        ensures
            r == shape_tile(shape),
            r.paired(),
            shape != InputShape::Block ==> r.shape == shape,
    {
        match shape {
            InputShape::Heart => Tile { shape: InputShape::Heart, color: InputColor::Red },
            InputShape::Triangle => Tile { shape: InputShape::Triangle, color: InputColor::Green },
            InputShape::Diamond => Tile { shape: InputShape::Diamond, color: InputColor::Blue },
            InputShape::Ball => Tile { shape: InputShape::Ball, color: InputColor::Yellow },
            InputShape::Club => Tile { shape: InputShape::Club, color: InputColor::Cyan },
            _ => Tile { shape: InputShape::Spade, color: InputColor::Magenta },
        }
    }

    /// Whether this tile's shape goes with its colour.
    pub fn is_paired(&self) -> (r: bool)
        ensures
            r == self.paired(),
    {
        self.shape == Tile::color(self.color).shape
    }
}

/// The glyph that draws a shape.
pub open spec fn glyph(s: InputShape) -> Seq<char> {
    match s {
        InputShape::Heart => seq!['\u{2665}'],
        InputShape::Triangle => seq!['\u{25b2}'],
        InputShape::Diamond => seq!['\u{2666}'],
        InputShape::Ball => seq!['\u{25cf}'],
        InputShape::Club => seq!['\u{2663}'],
        InputShape::Spade => seq!['\u{2660}'],
        InputShape::Block => seq!['\u{2588}'],
    }
}

impl InputShape {
    /// The glyph that draws this shape.
    pub fn symbol(&self) -> (r: &'static str)
        ensures
            r@ == glyph(*self),
    {
        match self {
            InputShape::Heart => {
                proof { reveal_strlit("\u{2665}"); }
                "\u{2665}"
            },
            InputShape::Triangle => {
                proof { reveal_strlit("\u{25b2}"); }
                "\u{25b2}"
            },
            InputShape::Diamond => {
                proof { reveal_strlit("\u{2666}"); }
                "\u{2666}"
            },
            InputShape::Ball => {
                proof { reveal_strlit("\u{25cf}"); }
                "\u{25cf}"
            },
            InputShape::Club => {
                proof { reveal_strlit("\u{2663}"); }
                "\u{2663}"
            },
            InputShape::Spade => {
                proof { reveal_strlit("\u{2660}"); }
                "\u{2660}"
            },
            InputShape::Block => {
                proof { reveal_strlit("\u{2588}"); }
                "\u{2588}"
            },
        }
    }
}

} // verus!
