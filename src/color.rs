use vstd::prelude::*;

verus! {

/// Why the color words of a face could not be read.
#[derive(Debug, Clone, PartialEq, Eq, Hash)]
pub enum ColorError {
    /// A channel was a number outside 0.0..=1.0.
    FromF32(String),
    /// A channel was missing or was no number of the expected kind.
    FailedToParse(String),
}

impl ColorError {
    /// A line of text that describes the error.
    pub fn describe(&self) -> (r: String)
        ensures
            r@ == match self {
                ColorError::FromF32(msg) => msg@,
                ColorError::FailedToParse(msg) => msg@,
            },
    {
        match self {
            ColorError::FromF32(msg) => msg.clone(),
            ColorError::FailedToParse(msg) => msg.clone(),
        }
    }
}

/// A color of four 8-bit channels.
#[derive(Debug, Clone, Copy, PartialEq, Eq, Structural, Hash)]
pub struct Color {
    pub r: u8,
    pub g: u8,
    pub b: u8,
    pub a: u8,
}

impl Color {
    pub fn new(red: u8, green: u8, blue: u8, alpha: u8) -> (c: Color)
        ensures
            c == (Color { r: red, g: green, b: blue, a: alpha }),
    {
        Color { r: red, g: green, b: blue, a: alpha }
    }
}

} // verus!
