//! The text form of coordinates: the two components and a label that tells
//! the family and the direction, separated by commas, as in `3,-7,EdgeEast`.
//!
//! This is the form in which coordinates are the keys of a grid that is
//! written out and read back.

use vstd::prelude::*;
use vstd::string::{StrSliceExecFns, StringExecFns};
use crate::hex_coordinates::HexCoord;
use crate::text::{
    append_int, chars_of, comma_from, find_comma, format_int, parse_i32, parse_number,
};

verus! {

/// Why a text is not the text form of a coordinate.
#[derive(Debug, Copy, Clone, Eq, PartialEq, Hash, Structural)]
pub enum ParseError {
    /// The text does not have three fields separated by commas.
    FieldCount,
    /// The first field is not the text of an `i32`.
    InvalidX,
    /// The second field is not the text of an `i32`.
    InvalidY,
    /// The third field is not a label of the coordinate family.
    InvalidLabel,
}

impl ParseError {
    /// What is wrong with the text `input`, in words.
    pub open spec fn message(self, input: Seq<char>) -> Seq<char> {
        match self {
            ParseError::FieldCount => "'"@ + input
                + "' does not have three fields separated by commas"@,
            ParseError::InvalidX => "'"@ + input + "': the first field is not a valid integer"@,
            ParseError::InvalidY => "'"@ + input + "': the second field is not a valid integer"@,
            ParseError::InvalidLabel => "'"@ + input
                + "': the third field is not a label of this kind of coordinate"@,
        }
    }

    /// What is wrong with the text `input`, in words.
    pub fn describe(&self, input: &str) -> (message: String)
        ensures
            message@ == self.message(input@),
    {
        match self {
            ParseError::FieldCount => {
                let mut message = String::from_str("'");
                message.append(input);
                message.append("' does not have three fields separated by commas");
                message
            },
            ParseError::InvalidX => {
                let mut message = String::from_str("'");
                message.append(input);
                message.append("': the first field is not a valid integer");
                message
            },
            ParseError::InvalidY => {
                let mut message = String::from_str("'");
                message.append(input);
                message.append("': the second field is not a valid integer");
                message
            },
            ParseError::InvalidLabel => {
                let mut message = String::from_str("'");
                message.append(input);
                message.append("': the third field is not a label of this kind of coordinate");
                message
            },
        }
    }
}

/// The text form of a coordinate: `x`, `y` and the label, separated by commas.
pub open spec fn coord_text(x: i32, y: i32, label: Seq<char>) -> Seq<char> {
    format_int(x as int) + seq![','] + format_int(y as int) + seq![','] + label
}

/// The three fields of the text form of a coordinate: two integers and a
/// label. A text with fewer or more than three fields has none.
pub open spec fn parse_fields(text: Seq<char>) -> Result<(i32, i32, Seq<char>), ParseError> {
    match comma_from(text, 0) {
        None => Err(ParseError::FieldCount),
        Some(first) => match comma_from(text, first + 1) {
            None => Err(ParseError::FieldCount),
            Some(second) => if comma_from(text, second + 1) is Some {
                Err(ParseError::FieldCount)
            } else {
                match parse_i32(text.subrange(0, first)) {
                    None => Err(ParseError::InvalidX),
                    Some(x) => match parse_i32(text.subrange(first + 1, second)) {
                        None => Err(ParseError::InvalidY),
                        Some(y) => Ok((x, y, text.subrange(second + 1, text.len() as int))),
                    },
                }
            },
        },
    }
}

/// The coordinate that `text` is the text form of.
pub open spec fn parse_text<C: HexCoord>(text: Seq<char>) -> Result<C, ParseError> {
    match parse_fields(text) {
        Err(error) => Err(error),
        Ok((x, y, label)) => match C::from_label(x, y, label) {
            Some(coord) => Ok(coord),
            None => Err(ParseError::InvalidLabel),
        },
    }
}

/// Whether two texts are the same.
pub fn same_text(a: &str, b: &str) -> (same: bool)
    ensures
        same == (a@ == b@),
{
    let left = chars_of(a);
    let right = chars_of(b);
    if left.len() != right.len() {
        return false;
    }
    let mut i: usize = 0;
    while i < left.len()
        invariant
            0 <= i <= left.len(),
            left.len() == right.len(),
            left@ == a@,
            right@ == b@,
            forall|k: int| 0 <= k < i ==> left@[k] == right@[k],
        decreases left.len() - i,
    {
        if left[i] != right[i] {
            return false;
        }
        i += 1;
    }
    assert(left@ =~= right@);
    true
}

/// The text form of the coordinate with the components `x` and `y` and the
/// label `label`.
pub fn format_coord(x: i32, y: i32, label: &str) -> (text: String)
    ensures
        text@ == coord_text(x, y, label@),
{
    proof {
        reveal_strlit(",");
    }
    let mut text = String::new();
    append_int(&mut text, x);
    text.append(",");
    append_int(&mut text, y);
    text.append(",");
    text.append(label);
    assert(text@ =~= coord_text(x, y, label@));
    text
}

/// Reads the text form of a coordinate of the family `C`.
pub fn parse_coord<C: HexCoord>(s: &str) -> (result: Result<C, ParseError>)
    ensures
        result == parse_text::<C>(s@),
{
    let chars = chars_of(s);
    let first = match find_comma(&chars, 0) {
        Some(first) => first,
        None => {
            return Err(ParseError::FieldCount);
        },
    };
    let second = match find_comma(&chars, first + 1) {
        Some(second) => second,
        None => {
            return Err(ParseError::FieldCount);
        },
    };
    if find_comma(&chars, second + 1).is_some() {
        return Err(ParseError::FieldCount);
    }
    let x = match parse_number(&chars, 0, first) {
        Some(x) => x,
        None => {
            return Err(ParseError::InvalidX);
        },
    };
    let y = match parse_number(&chars, first + 1, second) {
        Some(y) => y,
        None => {
            return Err(ParseError::InvalidY);
        },
    };
    let label = s.substring_char(second + 1, chars.len());
    C::new(x, y, label)
}

} // verus!
