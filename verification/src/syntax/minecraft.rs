//! Minecraft's legacy formatting codes.
//!
//! A format code is written as `'§'` followed by one character. This module holds the semantic
//! tags that those characters stand for, and the table that maps a character to its tag.

use vstd::prelude::*;

verus! {

/// The sixteen legacy text colors.
#[derive(Clone, Copy, PartialEq, Eq, Structural, Debug)]
pub enum Color {
    Black,
    DarkBlue,
    DarkGreen,
    DarkAqua,
    DarkRed,
    DarkPurple,
    Gold,
    Gray,
    DarkGray,
    Blue,
    Green,
    Aqua,
    Red,
    LightPurple,
    Yellow,
    White,
}

/// A semantic formatting instruction.
#[derive(Clone, Copy, PartialEq, Eq, Structural, Debug)]
pub enum Format {
    /// Switch the text color.
    Color(Color),
    Obfuscated,
    Bold,
    Strikethrough,
    Underline,
    Italic,
    /// Drop every format that is active.
    Reset,
}

/// The color that a code character names, if it names one.
pub open spec fn color_of(code: char) -> Option<Color> {
    if code == '0' {
        Some(Color::Black)
    } else if code == '1' {
        Some(Color::DarkBlue)
    } else if code == '2' {
        Some(Color::DarkGreen)
    } else if code == '3' {
        Some(Color::DarkAqua)
    } else if code == '4' {
        Some(Color::DarkRed)
    } else if code == '5' {
        Some(Color::DarkPurple)
    } else if code == '6' {
        Some(Color::Gold)
    } else if code == '7' {
        Some(Color::Gray)
    } else if code == '8' {
        Some(Color::DarkGray)
    } else if code == '9' {
        Some(Color::Blue)
    } else if code == 'a' {
        Some(Color::Green)
    } else if code == 'b' {
        Some(Color::Aqua)
    } else if code == 'c' {
        Some(Color::Red)
    } else if code == 'd' {
        Some(Color::LightPurple)
    } else if code == 'e' {
        Some(Color::Yellow)
    } else if code == 'f' {
        Some(Color::White)
    } else {
        None
    }
}

/// The format that a code character names, if it names one: the format-code table.
pub open spec fn format_of(code: char) -> Option<Format> {
    match color_of(code) {
        Some(color) => Some(Format::Color(color)),
        None => if code == 'k' {
            Some(Format::Obfuscated)
        } else if code == 'l' {
            Some(Format::Bold)
        } else if code == 'm' {
            Some(Format::Strikethrough)
        } else if code == 'n' {
            Some(Format::Underline)
        } else if code == 'o' {
            Some(Format::Italic)
        } else if code == 'r' {
            Some(Format::Reset)
        } else {
            None
        },
    }
}

impl Color {
    /// Look up the color named by `code`.
    pub fn from_code(code: char) -> (color: Option<Color>)
        ensures
            color == color_of(code),
    {
        match code {
            '0' => Some(Color::Black),
            '1' => Some(Color::DarkBlue),
            '2' => Some(Color::DarkGreen),
            '3' => Some(Color::DarkAqua),
            '4' => Some(Color::DarkRed),
            '5' => Some(Color::DarkPurple),
            '6' => Some(Color::Gold),
            '7' => Some(Color::Gray),
            '8' => Some(Color::DarkGray),
            '9' => Some(Color::Blue),
            'a' => Some(Color::Green),
            'b' => Some(Color::Aqua),
            'c' => Some(Color::Red),
            'd' => Some(Color::LightPurple),
            'e' => Some(Color::Yellow),
            'f' => Some(Color::White),
            _ => None,
        }
    }
}

impl Format {
    /// Look up the format named by `code`, the character that follows `'§'`.
    ///
    /// Codes are case sensitive; a character outside the table has no format.
    pub fn from_code(code: char) -> (format: Option<Format>)
        ensures
            format == format_of(code),
    {
        match Color::from_code(code) {
            Some(color) => Some(Format::Color(color)),
            None => match code {
                'k' => Some(Format::Obfuscated),
                'l' => Some(Format::Bold),
                'm' => Some(Format::Strikethrough),
                'n' => Some(Format::Underline),
                'o' => Some(Format::Italic),
                'r' => Some(Format::Reset),
                _ => None,
            },
        }
    }
}

} // verus!
