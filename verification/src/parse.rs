//! Reading one feedback row, written as the guessed letters, a space, and one
//! colour digit per letter (`crate 01020`).

use vstd::prelude::*;
use vstd::string::StringSliceAdditionalSpecFns;

verus! {

/// The colour that the game gave one letter of a guess.
#[derive(Clone, Copy, Debug, PartialEq, Eq)]
pub enum Color {
    /// The letter is not in the word.
    Black,
    /// The letter is in the word, at this position.
    Green,
    /// The letter is in the word, at another position.
    Yellow,
}

/// Why a feedback row could not be read.
#[derive(Clone, Copy, Debug, PartialEq, Eq)]
pub enum ParseError {
    /// A colour is not one of `0`, `1` and `2`.
    InvalidDigit,
    /// A guessed letter is not an ASCII letter.
    NotAlpha,
    /// The row has no space between letters and colours.
    NoSpace,
}

/// The colour that a digit byte stands for: `0` is black, `1` yellow, `2`
/// green. Any other byte stands for none.
pub open spec fn color_of_digit(digit: u8) -> Option<Color> {
    if digit == 0x30 {
        Some(Color::Black)
    } else if digit == 0x31 {
        Some(Color::Yellow)
    } else if digit == 0x32 {
        Some(Color::Green)
    } else {
        None
    }
}

impl TryFrom<u8> for Color {
    type Error = ParseError;

    fn try_from(value: u8) -> (r: Result<Self, Self::Error>) {
        if value == 0x30 {
            Ok(Color::Black)
        } else if value == 0x31 {
            Ok(Color::Yellow)
        } else if value == 0x32 {
            Ok(Color::Green)
        } else {
            Err(ParseError::InvalidDigit)
        }
    }
}

impl vstd::std_specs::convert::TryFromSpecImpl<u8> for Color {
    open spec fn obeys_try_from_spec() -> bool {
        true
    }

    open spec fn try_from_spec(value: u8) -> Result<Self, Self::Error> {
        match color_of_digit(value) {
            Some(color) => Ok(color),
            None => Err(ParseError::InvalidDigit),
        }
    }
}

/// Whether a byte is an ASCII letter.
pub open spec fn is_letter(byte: u8) -> bool {
    (0x41 <= byte && byte <= 0x5A) || (0x61 <= byte && byte <= 0x7A)
}

/// The lower-case letter of a byte that is an ASCII letter.
pub open spec fn lowered(byte: u8) -> char {
    if 0x41 <= byte && byte <= 0x5A {
        (byte + 0x20) as char
    } else {
        byte as char
    }
}

/// One cell of feedback, from a letter and its colour digit. A digit that is
/// no colour is reported before a byte that is no letter.
pub open spec fn cell_of(letter: u8, digit: u8) -> Result<(Color, char), ParseError> {
    match color_of_digit(digit) {
        None => Err(ParseError::InvalidDigit),
        Some(color) => if is_letter(letter) {
            Ok((color, lowered(letter)))
        } else {
            Err(ParseError::NotAlpha)
        },
    }
}

/// The cells of the letters paired with the digits, as far as the shorter
/// of the two reaches, or the fault of the first pair that has one.
pub open spec fn row_of(letters: Seq<u8>, digits: Seq<u8>) -> Result<Seq<(Color, char)>, ParseError>
    decreases letters.len(),
{
    if letters.len() == 0 || digits.len() == 0 {
        Ok(Seq::empty())
    } else {
        match cell_of(letters[0], digits[0]) {
            Err(e) => Err(e),
            Ok(cell) => match row_of(letters.drop_first(), digits.drop_first()) {
                Err(e) => Err(e),
                Ok(rest) => Ok(seq![cell] + rest),
            },
        }
    }
}

/// The position of the first space, or the length where there is none.
pub open spec fn first_space(bytes: Seq<u8>) -> int
    decreases bytes.len(),
{
    if bytes.len() == 0 || bytes[0] == 0x20 {
        0
    } else {
        1 + first_space(bytes.drop_first())
    }
}

/// What a line reads as: the bytes before its first space are the letters,
/// those after it the digits.
pub open spec fn parsed(bytes: Seq<u8>) -> Result<Seq<(Color, char)>, ParseError> {
    let at = first_space(bytes);
    if at >= bytes.len() {
        Err(ParseError::NoSpace)
    } else {
        row_of(bytes.subrange(0, at), bytes.subrange(at + 1, bytes.len() as int))
    }
}

/// Reads the colour of a digit.
pub fn color_from(digit: u8) -> (color: Option<Color>)
    ensures
        color == color_of_digit(digit),
{
    match Color::try_from(digit) {
        Ok(color) => Some(color),
        Err(_) => None,
    }
}

/// The position of the first space in `bytes`, or their length.
pub fn find_space(bytes: &[u8]) -> (at: usize)
    ensures
        at == first_space(bytes@),
        at <= bytes@.len(),
{
    let mut at: usize = 0;
    assert(bytes@.skip(0) == bytes@);
    while at < bytes.len() && bytes[at] != 0x20
        invariant
            at <= bytes@.len(),
            first_space(bytes@) == at + first_space(bytes@.skip(at as int)),
        decreases bytes@.len() - at,
    {
        assert(bytes@.skip(at as int).drop_first() == bytes@.skip(at + 1));
        at += 1;
    }
    at
}

/// Reads a row of feedback: the guessed letters, a space, and for each
/// letter the digit of its colour. Letters come out in lower case. Where
/// letters and digits differ in number, the longer of the two is cut.
pub fn parse_line(input: &str) -> (r: Result<Vec<(Color, char)>, ParseError>)
    ensures
        match r {
            Ok(cells) => parsed(input.spec_bytes()) == Ok::<Seq<(Color, char)>, ParseError>(
                cells@,
            ),
            Err(e) => parsed(input.spec_bytes()) == Err::<Seq<(Color, char)>, ParseError>(e),
        },
{
    let bytes = input.as_bytes();
    let at = find_space(bytes);
    if at >= bytes.len() {
        return Err(ParseError::NoSpace);
    }
    let ghost letters = bytes@.subrange(0, at as int);
    let ghost digits = bytes@.subrange(at + 1, bytes@.len() as int);
    let digit_count = bytes.len() - at - 1;
    let mut cells: Vec<(Color, char)> = Vec::new();
    let mut i: usize = 0;
    assert(letters.skip(0) == letters && digits.skip(0) == digits);
    while i < at && i < digit_count
        invariant
            bytes@ == input.spec_bytes(),
            at == first_space(bytes@),
            at < bytes@.len(),
            digit_count == bytes@.len() - at - 1,
            letters == bytes@.subrange(0, at as int),
            digits == bytes@.subrange(at + 1, bytes@.len() as int),
            i <= at,
            i <= digit_count,
            row_of(letters, digits) == (match row_of(letters.skip(i as int), digits.skip(i as int)) {
                Ok(rest) => Ok::<Seq<(Color, char)>, ParseError>(cells@ + rest),
                Err(e) => Err(e),
            }),
        decreases at - i,
    {
        let letter = bytes[i];
        let digit = bytes[at + 1 + i];
        proof {
            assert(letters.skip(i as int)[0] == letter);
            assert(digits.skip(i as int)[0] == digit);
            assert(letters.skip(i as int).drop_first() == letters.skip(i + 1));
            assert(digits.skip(i as int).drop_first() == digits.skip(i + 1));
        }
        let ghost before = cells@;
        match color_from(digit) {
            None => {
                assert(row_of(letters.skip(i as int), digits.skip(i as int)) == Err::<
                    Seq<(Color, char)>,
                    ParseError,
                >(ParseError::InvalidDigit));
                return Err(ParseError::InvalidDigit);
            },
            Some(color) => {
                if letter >= 0x41 && letter <= 0x5A {
                    cells.push((color, (letter + 0x20) as char));
                } else if letter >= 0x61 && letter <= 0x7A {
                    cells.push((color, letter as char));
                } else {
                    assert(row_of(letters.skip(i as int), digits.skip(i as int)) == Err::<
                        Seq<(Color, char)>,
                        ParseError,
                    >(ParseError::NotAlpha));
                    return Err(ParseError::NotAlpha);
                }
            },
        }
        i += 1;
        proof {
            match row_of(letters.skip(i as int), digits.skip(i as int)) {
                Ok(rest) => {
                    assert(before + (seq![cells@.last()] + rest) == cells@ + rest);
                },
                Err(_) => {},
            }
        }
    }
    proof {
        assert(row_of(letters.skip(i as int), digits.skip(i as int)) == Ok::<
            Seq<(Color, char)>,
            ParseError,
        >(Seq::empty()));
        assert(cells@ + Seq::<(Color, char)>::empty() == cells@);
    }
    Ok(cells)
}

} // verus!
