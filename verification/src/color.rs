//! The colours in which the pieces are drawn.

use crate::tetris::piece::Mino;
use crate::text::{decimal_text, hex_byte, push_decimal_text, push_hex_byte};
use vstd::prelude::*;
use vstd::string::StringExecFns;

verus! {

/// A colour: red, green and blue, and how opaque it is, in percent, where
/// that is given.
#[derive(Debug, Copy, Clone, PartialEq, Eq, Structural)]
pub struct Color {
    pub r: u8,
    pub b: u8,
    pub g: u8,
    pub alpha: Option<u8>,
}

impl Default for Color {
    fn default() -> (r: Self)
        ensures
            r == (Color { r: 0, g: 0, b: 0, alpha: None }),
    {
        Color { r: 0, g: 0, b: 0, alpha: None }
    }
}

/// The colour of a cell of the given kind.
pub open spec fn base_color(kind: Mino) -> Color {
    match kind {
        Mino::Empty => Color { r: 0, g: 0, b: 0, alpha: None },
        Mino::Garbage => Color { r: 100, g: 100, b: 100, alpha: None },
        Mino::I => Color { r: 0, g: 200, b: 255, alpha: None },
        Mino::O => Color { r: 255, g: 255, b: 0, alpha: None },
        Mino::T => Color { r: 127, g: 0, b: 127, alpha: None },
        Mino::S => Color { r: 0, g: 255, b: 0, alpha: None },
        Mino::Z => Color { r: 255, g: 0, b: 0, alpha: None },
        Mino::J => Color { r: 0, g: 0, b: 255, alpha: None },
        Mino::L => Color { r: 255, g: 150, b: 0, alpha: None },
    }
}

/// The colour of a cell of the given kind.
pub fn get_base_color(kind: Mino) -> (color: Color)
    ensures
        color == base_color(kind),
{
    match kind {
        Mino::Empty => Color::no_alpha(0, 0, 0),
        Mino::Garbage => Color::no_alpha(100, 100, 100),
        Mino::I => Color::no_alpha(0, 200, 255),
        Mino::O => Color::no_alpha(255, 255, 0),
        Mino::T => Color::no_alpha(127, 0, 127),
        Mino::S => Color::no_alpha(0, 255, 0),
        Mino::Z => Color::no_alpha(255, 0, 0),
        Mino::J => Color::no_alpha(0, 0, 255),
        Mino::L => Color::no_alpha(255, 150, 0),
    }
}

impl Color {
    /// The colour as a style sheet writes it: `#` and six hexadecimal digits
    /// where it is fully opaque, and the function `rgb` with decimal numbers
    /// where it is not.
    pub open spec fn css(self) -> Seq<char> {
        match self.alpha {
            None => "#"@ + hex_byte(self.r) + hex_byte(self.g) + hex_byte(self.b),
            Some(alpha) => "rgb("@ + decimal_text(self.r as nat) + " "@ + decimal_text(
                self.g as nat,
            ) + " "@ + decimal_text(self.b as nat) + " / "@ + decimal_text(alpha as nat) + "%)"@,
        }
    }

    /// A fully opaque colour.
    pub fn no_alpha(r: u8, g: u8, b: u8) -> (color: Self)
        ensures
            color == (Color { r, g, b, alpha: None }),
    {
        Self { r, g, b, alpha: None }
    }

    /// The colour as a style sheet writes it.
    pub fn to_css(self) -> (text: String)
        ensures
            text@ == self.css(),
    {
        let mut text = String::new();
        match self.alpha {
            None => {
                text.append("#");
                push_hex_byte(&mut text, self.r);
                push_hex_byte(&mut text, self.g);
                push_hex_byte(&mut text, self.b);
                assert(text@ =~= self.css());
            },
            Some(alpha) => {
                text.append("rgb(");
                push_decimal_text(&mut text, self.r as u32);
                text.append(" ");
                push_decimal_text(&mut text, self.g as u32);
                text.append(" ");
                push_decimal_text(&mut text, self.b as u32);
                text.append(" / ");
                push_decimal_text(&mut text, alpha as u32);
                text.append("%)");
                assert(text@ =~= self.css());
            },
        }
        text
    }

    /// The colour, this many percent opaque.
    pub fn alpha(self, value: u8) -> (color: Self)
        ensures
            color == (Color { alpha: Some(value), ..self }),
    {
        Self { alpha: Some(value), ..self }
    }
}

} // verus!
