//! Reading a square from the two characters that name it.

use crate::piece::CoordinateSet;
use vstd::prelude::*;
use vstd::string::StrSliceExecFns;

verus! {

/// The text `text` without the white space at its start and at its end.
pub uninterp spec fn trimmed(text: Seq<char>) -> Seq<char>;

/// Calls `str::trim` of the standard library: the result is the text
/// without its leading and trailing white space, which is what `trimmed`
/// stands for. Nothing else is claimed of it.
#[verifier::external_body]
fn trim_text(text: &str) -> (inner: &str)
    ensures
        inner@ == trimmed(text@),
{
    text.trim()
}

/// The file that the letter `letter` names: `a` is file 0, `h` is file 7.
pub open spec fn file_of(letter: char) -> Option<int> {
    if 'a' <= letter && letter <= 'h' {
        Some(letter as int - 'a' as int)
    } else {
        None
    }
}

/// The number that the decimal digit `digit` stands for.
pub open spec fn digit_of(digit: char) -> Option<int> {
    if '0' <= digit && digit <= '9' {
        Some(digit as int - '0' as int)
    } else {
        None
    }
}

/// What the text `text` names: the square of the file that its first
/// character names and of the rank that its second character gives, or the
/// reason why it names none. What follows the second character is not read.
pub open spec fn named_square(text: Seq<char>) -> Result<CoordinateSet, Seq<char>> {
    if text.len() == 0 {
        Err("No Input"@)
    } else if file_of(text[0]) is None {
        Err("Invalid X Position"@)
    } else if text.len() < 2 || digit_of(text[1]) is None {
        Err("Invalid Y Position"@)
    } else {
        Ok(
            CoordinateSet {
                x: file_of(text[0]).unwrap() as i32,
                y: digit_of(text[1]).unwrap() as i32,
            },
        )
    }
}

/// Whether `outcome` says what `named` says.
pub open spec fn tells(outcome: Result<CoordinateSet, String>, named: Result<CoordinateSet, Seq<char>>) -> bool {
    match outcome {
        Ok(square) => named == Ok::<CoordinateSet, Seq<char>>(square),
        Err(reason) => named == Err::<CoordinateSet, Seq<char>>(reason@),
    }
}

/// The square that `text` names, where `text` has no white space around it.
pub fn read_square(text: &str) -> (outcome: Result<CoordinateSet, String>)
    ensures
        tells(outcome, named_square(text@)),
{
    let length: usize = text.unicode_len();
    if length == 0 {
        return Err("No Input".to_owned());
    }
    let letter: char = text.get_char(0);
    if !(letter >= 'a' && letter <= 'h') {
        return Err("Invalid X Position".to_owned());
    }
    let x: i32 = (letter as u32 - 'a' as u32) as i32;
    if length < 2 {
        return Err("Invalid Y Position".to_owned());
    }
    let digit: char = text.get_char(1);
    if !(digit >= '0' && digit <= '9') {
        return Err("Invalid Y Position".to_owned());
    }
    let y: i32 = (digit as u32 - '0' as u32) as i32;
    Ok(CoordinateSet::new(x, y))
}

/// The square that `notation` names, white space around the name left out.
pub fn convert_notation_to_coords(notation: String) -> (outcome: Result<CoordinateSet, String>)
    ensures
        tells(outcome, named_square(trimmed(notation@))),
{
    read_square(trim_text(notation.as_str()))
}

} // verus!
