//! The alphabet of the machine: the 26 capital letters and their places.
use vstd::prelude::*;
use crate::error::EnigmaError;

verus! {

/// Number of symbols in the alphabet.
pub const NUMBER_LETTERS_IN_ALPHABET: usize = 26;

/// Code point of the first symbol of the alphabet.
pub const ASCII_LETTER_A: usize = 65;

/// The symbols of the alphabet, in order.
pub const ALPHABET: [char; 26] = [
    'A', 'B', 'C', 'D', 'E', 'F', 'G', 'H', 'I', 'J', 'K', 'L', 'M', 'N', 'O', 'P', 'Q', 'R', 'S',
    'T', 'U', 'V', 'W', 'X', 'Y', 'Z',
];

/// A symbol of the alphabet: one of the capital letters `A` to `Z`.
pub open spec fn is_capital(c: char) -> bool {
    'A' <= c && c <= 'Z'
}

/// One of the small letters `a` to `z`.
pub open spec fn is_small(c: char) -> bool {
    'a' <= c && c <= 'z'
}

/// The zero-based place of a capital letter in the alphabet.
pub open spec fn letter_index(c: char) -> int {
    c as int - 65
}

/// The capital letter at a zero-based place below 26.
pub open spec fn letter_at(i: int) -> char {
    (i + 65) as char
}

/// The capital letter that a small letter stands for; any other character
/// is left as it is.
pub open spec fn to_capital(c: char) -> char {
    if is_small(c) {
        (c as int - 32) as char
    } else {
        c
    }
}

/// Every symbol of the text is a capital letter.
pub open spec fn all_capital(s: Seq<char>) -> bool {
    forall|i: int| 0 <= i < s.len() ==> is_capital(#[trigger] s[i])
}

/// Symbols and places correspond one to one.
pub proof fn lemma_letter_index_bijection()
    ensures
        forall|c: char| #[trigger]
            is_capital(c) ==> 0 <= letter_index(c) < 26 && letter_at(letter_index(c)) == c,
        forall|i: int|
            0 <= i < 26 ==> is_capital(#[trigger] letter_at(i)) && letter_index(letter_at(i)) == i,
{
}

/// The table `ALPHABET` holds the capital letters in order.
pub proof fn lemma_alphabet_table()
    ensures
        ALPHABET@.len() == 26,
        forall|i: int| 0 <= i < 26 ==> #[trigger] ALPHABET@[i] == letter_at(i),
{
}

/// Counting round the alphabet: what the remainder modulo 26 is of a number
/// that is less than one round away from the places of the alphabet.
pub proof fn lemma_wrap(x: int)
    requires
        -26 <= x < 52,
    ensures
        x % 26 == (if x < 0 {
            x + 26
        } else if x < 26 {
            x
        } else {
            x - 26
        }),
{
}

/// The place of a capital letter in the alphabet.
///
/// Fails with `InvalidSymbol` on anything that is not a capital letter.
pub fn get_position_in_alphabet(input: char) -> (result: Result<usize, EnigmaError>)
    ensures
        is_capital(input) ==> result == Ok::<usize, EnigmaError>(letter_index(input) as usize),
        !is_capital(input) ==> result == Err::<usize, EnigmaError>(EnigmaError::InvalidSymbol),
        result matches Ok(position) ==> position < NUMBER_LETTERS_IN_ALPHABET && position
            == letter_index(input),
{
    if !is_capital_letter(input) {
        return Err(EnigmaError::InvalidSymbol);
    }
    let position_in_alphabet = input as usize - ASCII_LETTER_A;
    Ok(position_in_alphabet)
}

/// Whether the character is one of `a` to `z`.
pub fn is_small_letter(input: char) -> (result: bool)
    ensures
        result == is_small(input),
{
    'a' <= input && input <= 'z'
}

/// Whether the character is one of `A` to `Z`.
pub fn is_capital_letter(input: char) -> (result: bool)
    ensures
        result == is_capital(input),
{
    'A' <= input && input <= 'Z'
}

} // verus!
