use vstd::prelude::*;

use crate::color::{Color, ColorError};
use crate::number::{
    bounded_unsigned, float_text, is_float_text, parse_unit_channel, parse_unsigned, unit_channel,
};
use crate::text::views;

verus! {

/// A way to read the color words that follow the vertex indices of a face
/// line. One is chosen for a whole parse.
pub trait ColorFormat {
    /// What the color words `words` (at least one) decode to: the color, or
    /// none, and how many of the words it takes; `None` where they are
    /// malformed.
    spec fn decode(words: Seq<Seq<char>>) -> Option<(Option<Color>, nat)>;

    /// Whether malformed color words `words` are refused because a value
    /// lies outside its range (`FromF32`), rather than because a word is
    /// missing or no number (`FailedToParse`).
    spec fn range_error(words: Seq<Seq<char>>) -> bool;

    fn try_parse(words: &Vec<Vec<char>>) -> (r: Result<(Option<Color>, usize), ColorError>)
        ensures
            r matches Ok((c, n)) ==> Self::decode(views(words@)) == Some((c, n as nat)) && n
                <= words.len(),
            r is Err ==> Self::decode(views(words@)) is None,
            r matches Err(e) ==> (e is FromF32 <==> Self::range_error(views(words@))),
    ;
}

/// A channel written as a byte, 0 to 255.
pub open spec fn byte_channel(w: Seq<char>) -> Option<int> {
    match bounded_unsigned(w, 255) {
        Some(v) => Some(v as int),
        None => None,
    }
}

/// A channel written either as a byte or as a fraction of the unit interval.
pub open spec fn any_channel(w: Seq<char>) -> Option<int> {
    match byte_channel(w) {
        Some(v) => Some(v),
        None => unit_channel(w),
    }
}

/// The color of three or four channels read by `channel`, alpha 255 where
/// only three are used.
pub open spec fn channels_color(
    words: Seq<Seq<char>>,
    channel: spec_fn(Seq<char>) -> Option<int>,
    n: nat,
) -> Option<(Option<Color>, nat)> {
    if words.len() < n {
        None
    } else {
        match (channel(words[0]), channel(words[1]), channel(words[2])) {
            (Some(r), Some(g), Some(b)) => if n == 3 {
                Some((Some(Color { r: r as u8, g: g as u8, b: b as u8, a: 255 }), 3))
            } else {
                match channel(words[3]) {
                    Some(a) => Some(
                        (Some(Color { r: r as u8, g: g as u8, b: b as u8, a: a as u8 }), 4),
                    ),
                    None => None,
                }
            },
            _ => None,
        }
    }
}

/// Whether the first `n` words are all floating-point numbers, and one of
/// them lies outside 0.0..=1.0.
pub open spec fn unit_range_error(words: Seq<Seq<char>>, n: nat) -> bool {
    &&& words.len() >= n
    &&& forall|i: int| 0 <= i < n ==> is_float_text(#[trigger] words[i])
    &&& exists|i: int| 0 <= i < n && (#[trigger] unit_channel(words[i])) is None
}

fn float_words(words: &Vec<Vec<char>>, n: usize) -> (r: Result<(), ColorError>)
    requires
        n <= words.len(),
    ensures
        r is Ok <==> forall|i: int| 0 <= i < n ==> is_float_text(#[trigger] views(words@)[i]),
        r matches Err(e) ==> e is FailedToParse,
{
    let mut i: usize = 0;
    while i < n
        invariant
            i <= n <= words.len(),
            forall|j: int| 0 <= j < i ==> is_float_text(#[trigger] views(words@)[j]),
        decreases n - i,
    {
        assert(views(words@)[i as int] == words@[i as int]@);
        if !float_text(&words[i]) {
            return Err(ColorError::FailedToParse("color element could not be parsed".to_owned()));
        }
        i = i + 1;
    }
    Ok(())
}

fn missing(name: &str) -> (r: ColorError)
    ensures
        r is FailedToParse,
{
    ColorError::FailedToParse(name.to_owned())
}

fn read_byte(w: &Vec<char>) -> (r: Result<u8, ColorError>)
    ensures
        r matches Ok(v) ==> byte_channel(w@) == Some(v as int),
        r is Err ==> byte_channel(w@) is None,
        r matches Err(e) ==> e is FailedToParse,
{
    match parse_unsigned(w, 255) {
        Some(v) => Ok(v as u8),
        None => Err(ColorError::FailedToParse("color element could not be parsed".to_owned())),
    }
}

fn read_unit(w: &Vec<char>) -> (r: Result<u8, ColorError>)
    ensures
        r matches Ok(v) ==> unit_channel(w@) == Some(v as int),
        r is Err ==> unit_channel(w@) is None,
        r matches Err(e) ==> e is FromF32,
{
    match parse_unit_channel(w) {
        Some(v) => Ok(v),
        None => Err(
            ColorError::FromF32("color element is no number in 0.0..=1.0".to_owned()),
        ),
    }
}

fn read_any(w: &Vec<char>) -> (r: Result<u8, ColorError>)
    ensures
        r matches Ok(v) ==> any_channel(w@) == Some(v as int),
        r is Err ==> any_channel(w@) is None,
        r matches Err(e) ==> e is FailedToParse,
{
    match parse_unsigned(w, 255) {
        Some(v) => Ok(v as u8),
        None => match parse_unit_channel(w) {
            Some(v) => Ok(v),
            None => Err(ColorError::FailedToParse("color element could not be parsed".to_owned())),
        },
    }
}

/// Three or four channels, each a byte or a fraction of the unit interval;
/// alpha is 255 where the fourth is absent.
#[derive(Debug, Clone, Copy, Hash)]
pub struct Any;

impl ColorFormat for Any {
    open spec fn range_error(words: Seq<Seq<char>>) -> bool {
        false
    }

    open spec fn decode(words: Seq<Seq<char>>) -> Option<(Option<Color>, nat)> {
        channels_color(words, |w: Seq<char>| any_channel(w), if words.len() >= 4 { 4 } else { 3 })
    }

    fn try_parse(words: &Vec<Vec<char>>) -> (r: Result<(Option<Color>, usize), ColorError>) {
        if words.len() < 3 {
            return Err(missing("color element missing"));
        }
        let r = read_any(&words[0])?;
        let g = read_any(&words[1])?;
        let b = read_any(&words[2])?;
        if words.len() < 4 {
            return Ok((Some(Color::new(r, g, b, 255)), 3));
        }
        let a = read_any(&words[3])?;
        Ok((Some(Color::new(r, g, b, a)), 4))
    }
}

/// Exactly three byte channels; alpha is 255.
#[derive(Debug, Clone, Copy, Hash)]
pub struct RgbU8;

impl ColorFormat for RgbU8 {
    open spec fn range_error(words: Seq<Seq<char>>) -> bool {
        false
    }

    open spec fn decode(words: Seq<Seq<char>>) -> Option<(Option<Color>, nat)> {
        channels_color(words, |w: Seq<char>| byte_channel(w), 3)
    }

    fn try_parse(words: &Vec<Vec<char>>) -> (r: Result<(Option<Color>, usize), ColorError>) {
        if words.len() < 3 {
            return Err(missing("color element missing"));
        }
        let r = read_byte(&words[0])?;
        let g = read_byte(&words[1])?;
        let b = read_byte(&words[2])?;
        Ok((Some(Color::new(r, g, b, 255)), 3))
    }
}

/// Exactly four byte channels.
#[derive(Debug, Clone, Copy, Hash)]
pub struct RgbaU8;

impl ColorFormat for RgbaU8 {
    open spec fn range_error(words: Seq<Seq<char>>) -> bool {
        false
    }

    open spec fn decode(words: Seq<Seq<char>>) -> Option<(Option<Color>, nat)> {
        channels_color(words, |w: Seq<char>| byte_channel(w), 4)
    }

    fn try_parse(words: &Vec<Vec<char>>) -> (r: Result<(Option<Color>, usize), ColorError>) {
        if words.len() < 4 {
            return Err(missing("color element missing"));
        }
        let r = read_byte(&words[0])?;
        let g = read_byte(&words[1])?;
        let b = read_byte(&words[2])?;
        let a = read_byte(&words[3])?;
        Ok((Some(Color::new(r, g, b, a)), 4))
    }
}

/// Exactly three channels, each a fraction of the unit interval; alpha is
/// 255.
#[derive(Debug, Clone, Copy, Hash)]
pub struct RgbF32;

impl ColorFormat for RgbF32 {
    open spec fn range_error(words: Seq<Seq<char>>) -> bool {
        unit_range_error(words, 3)
    }

    open spec fn decode(words: Seq<Seq<char>>) -> Option<(Option<Color>, nat)> {
        channels_color(words, |w: Seq<char>| unit_channel(w), 3)
    }

    fn try_parse(words: &Vec<Vec<char>>) -> (r: Result<(Option<Color>, usize), ColorError>) {
        if words.len() < 3 {
            return Err(missing("color element missing"));
        }
        float_words(words, 3)?;
        let r = read_unit(&words[0])?;
        let g = read_unit(&words[1])?;
        let b = read_unit(&words[2])?;
        Ok((Some(Color::new(r, g, b, 255)), 3))
    }
}

/// Exactly four channels, each a fraction of the unit interval.
#[derive(Debug, Clone, Copy, Hash)]
pub struct RgbaF32;

impl ColorFormat for RgbaF32 {
    open spec fn range_error(words: Seq<Seq<char>>) -> bool {
        unit_range_error(words, 4)
    }

    open spec fn decode(words: Seq<Seq<char>>) -> Option<(Option<Color>, nat)> {
        channels_color(words, |w: Seq<char>| unit_channel(w), 4)
    }

    fn try_parse(words: &Vec<Vec<char>>) -> (r: Result<(Option<Color>, usize), ColorError>) {
        if words.len() < 4 {
            return Err(missing("color element missing"));
        }
        float_words(words, 4)?;
        let r = read_unit(&words[0])?;
        let g = read_unit(&words[1])?;
        let b = read_unit(&words[2])?;
        let a = read_unit(&words[3])?;
        Ok((Some(Color::new(r, g, b, a)), 4))
    }
}

/// Color words are never read: every face has no color, and the words are
/// passed over.
#[derive(Debug, Clone, Copy, Hash)]
pub struct NoColor;

impl ColorFormat for NoColor {
    open spec fn range_error(words: Seq<Seq<char>>) -> bool {
        false
    }

    open spec fn decode(words: Seq<Seq<char>>) -> Option<(Option<Color>, nat)> {
        Some((None, words.len()))
    }

    fn try_parse(words: &Vec<Vec<char>>) -> (r: Result<(Option<Color>, usize), ColorError>) {
        Ok((None, words.len()))
    }
}

} // verus!
