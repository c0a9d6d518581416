//! Display modes and the player's choices, with the letters that select them.
use crate::tile::{InputColor, InputShape};
use vstd::prelude::*;
use vstd::string::*;

verus! {

/// What the player sees and picks: colours, shapes, or both (picked by shape).
#[derive(Debug, Clone, Copy, PartialEq, Eq, Structural)]
pub enum Mode {
    Color,
    Shape,
    Both,
}

/// One selection of the player.
#[derive(Debug, Clone, Copy, PartialEq, Eq, Structural)]
pub enum InputOptions {
    Red,
    Green,
    Blue,
    Yellow,
    Cyan,
    Magenta,
    Heart,
    Triangle,
    Diamond,
    Ball,
    Club,
    Spade,
    Quit,
}

/// The colour a choice names, if it names one.
pub open spec fn color_choice(o: InputOptions) -> Option<InputColor> {
    match o {
        InputOptions::Red => Some(InputColor::Red),
        InputOptions::Green => Some(InputColor::Green),
        InputOptions::Blue => Some(InputColor::Blue),
        InputOptions::Yellow => Some(InputColor::Yellow),
        InputOptions::Cyan => Some(InputColor::Cyan),
        InputOptions::Magenta => Some(InputColor::Magenta),
        _ => None,
    }
}

/// The shape a choice names, if it names one.
pub open spec fn shape_choice(o: InputOptions) -> Option<InputShape> {
    match o {
        InputOptions::Heart => Some(InputShape::Heart),
        InputOptions::Triangle => Some(InputShape::Triangle),
        InputOptions::Diamond => Some(InputShape::Diamond),
        InputOptions::Ball => Some(InputShape::Ball),
        InputOptions::Club => Some(InputShape::Club),
        InputOptions::Spade => Some(InputShape::Spade),
        _ => None,
    }
}

/// A choice that a game in `mode` takes: quitting, a colour in colour mode,
/// a shape otherwise.
pub open spec fn accepts(mode: Mode, o: InputOptions) -> bool {
    ||| o == InputOptions::Quit
    ||| (mode == Mode::Color && color_choice(o).is_some())
    ||| (mode != Mode::Color && shape_choice(o).is_some())
}

/// The choice that a letter selects in `mode`, in either case.
pub open spec fn letter_choice(mode: Mode, c: char) -> Option<InputOptions> {
    if c == 'q' || c == 'Q' {
        Some(InputOptions::Quit)
    } else if mode == Mode::Color {
        if c == 'r' || c == 'R' {
            Some(InputOptions::Red)
        } else if c == 'g' || c == 'G' {
            Some(InputOptions::Green)
        } else if c == 'b' || c == 'B' {
            Some(InputOptions::Blue)
        } else if c == 'y' || c == 'Y' {
            Some(InputOptions::Yellow)
        } else if c == 'c' || c == 'C' {
            Some(InputOptions::Cyan)
        } else if c == 'm' || c == 'M' {
            Some(InputOptions::Magenta)
        } else {
            None
        }
    } else {
        if c == 'h' || c == 'H' {
            Some(InputOptions::Heart)
        } else if c == 't' || c == 'T' {
            Some(InputOptions::Triangle)
        } else if c == 'd' || c == 'D' {
            Some(InputOptions::Diamond)
        } else if c == 'b' || c == 'B' {
            Some(InputOptions::Ball)
        } else if c == 'c' || c == 'C' {
            Some(InputOptions::Club)
        } else if c == 's' || c == 'S' {
            Some(InputOptions::Spade)
        } else {
            None
        }
    }
}

/// The mode that a letter selects, in either case.
pub open spec fn letter_mode(c: char) -> Option<Mode> {
    if c == 's' || c == 'S' {
        Some(Mode::Shape)
    } else if c == 'c' || c == 'C' {
        Some(Mode::Color)
    } else if c == 'b' || c == 'B' {
        Some(Mode::Both)
    } else {
        None
    }
}

impl Mode {
    /// The mode that the letter `c` selects, in either case.
    pub fn from_letter(c: char) -> (r: Option<Mode>)
        ensures
            r == letter_mode(c),
    {
        if c == 's' || c == 'S' {
            Some(Mode::Shape)
        } else if c == 'c' || c == 'C' {
            Some(Mode::Color)
        } else if c == 'b' || c == 'B' {
            Some(Mode::Both)
        } else {
            None
        }
    }

    /// The mode that a (trimmed) line selects: one letter, in either case.
    pub fn parse(line: &str) -> (r: Option<Mode>)
        ensures
            r == if line@.len() == 1 {
                letter_mode(line@[0])
            } else {
                None
            },
    {
        if line.unicode_len() != 1 {
            return None;
        }
        Mode::from_letter(line.get_char(0))
    }

    /// Whether a game in this mode takes `choice`.
    pub fn accepts(&self, choice: InputOptions) -> (r: bool)
        ensures
            r == accepts(*self, choice),
    {
        match choice {
            InputOptions::Quit => true,
            _ => match self {
                Mode::Color => choice.get_color().is_some(),
                _ => choice.get_shape().is_some(),
            },
        }
    }
}

impl InputOptions {
    /// The colour this choice names, if any.
    pub fn get_color(&self) -> (r: Option<InputColor>)
        ensures
            r == color_choice(*self),
    {
        match self {
            InputOptions::Red => Some(InputColor::Red),
            InputOptions::Green => Some(InputColor::Green),
            InputOptions::Blue => Some(InputColor::Blue),
            InputOptions::Yellow => Some(InputColor::Yellow),
            InputOptions::Cyan => Some(InputColor::Cyan),
            InputOptions::Magenta => Some(InputColor::Magenta),
            _ => None,
        }
    }

    /// The shape this choice names, if any.
    pub fn get_shape(&self) -> (r: Option<InputShape>)
        ensures
            r == shape_choice(*self),
    {
        match self {
            InputOptions::Heart => Some(InputShape::Heart),
            InputOptions::Triangle => Some(InputShape::Triangle),
            InputOptions::Diamond => Some(InputShape::Diamond),
            InputOptions::Ball => Some(InputShape::Ball),
            InputOptions::Club => Some(InputShape::Club),
            InputOptions::Spade => Some(InputShape::Spade),
            _ => None,
        }
    }

    /// The choice that the letter `c` selects in `mode`, in either case.
    pub fn from_letter(mode: Mode, c: char) -> (r: Option<InputOptions>)
        ensures
            r == letter_choice(mode, c),
            r.is_some() ==> accepts(mode, r.unwrap()),
    {
        if c == 'q' || c == 'Q' {
            Some(InputOptions::Quit)
        } else if mode == Mode::Color {
            if c == 'r' || c == 'R' {
                Some(InputOptions::Red)
            } else if c == 'g' || c == 'G' {
                Some(InputOptions::Green)
            } else if c == 'b' || c == 'B' {
                Some(InputOptions::Blue)
            } else if c == 'y' || c == 'Y' {
                Some(InputOptions::Yellow)
            } else if c == 'c' || c == 'C' {
                Some(InputOptions::Cyan)
            } else if c == 'm' || c == 'M' {
                Some(InputOptions::Magenta)
            } else {
                None
            }
        } else {
            if c == 'h' || c == 'H' {
                Some(InputOptions::Heart)
            } else if c == 't' || c == 'T' {
                Some(InputOptions::Triangle)
            } else if c == 'd' || c == 'D' {
                Some(InputOptions::Diamond)
            } else if c == 'b' || c == 'B' {
                Some(InputOptions::Ball)
            } else if c == 'c' || c == 'C' {
                Some(InputOptions::Club)
            } else if c == 's' || c == 'S' {
                Some(InputOptions::Spade)
            } else {
                None
            }
        }
    }

    /// The choice that a (trimmed) line selects in `mode`: one letter, in
    /// either case.
    pub fn parse(mode: Mode, line: &str) -> (r: Option<InputOptions>)
        ensures
            r == if line@.len() == 1 {
                letter_choice(mode, line@[0])
            } else {
                None
            },
            r.is_some() ==> accepts(mode, r.unwrap()),
    {
        if line.unicode_len() != 1 {
            return None;
        }
        InputOptions::from_letter(mode, line.get_char(0))
    }
}

} // verus!
