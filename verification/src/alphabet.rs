//! The two 29-letter alphabets and the cyclic shift that the cipher applies.
//!
//! Each case has an alphabet of its own: `a` to `z` followed by `æ`, `ø` and
//! `å`, and the same in capitals. Encryption moves a letter three positions
//! forward in the alphabet of its case and decryption three positions back,
//! both counted cyclically. Every other character stands for itself.

use vstd::prelude::*;

verus! {

/// Number of letters in the alphabet of one case.
pub const ALPHABET_LEN: u8 = 29;

/// Number of positions by which encryption moves a letter forward.
pub const SHIFT: u8 = 3;

/// The case of a letter.
#[derive(Clone, Copy, PartialEq, Eq, Structural, Debug)]
pub enum Case {
    Lower,
    Upper,
}

/// The letter at `position` of the alphabet of the given case.
pub open spec fn letter(case: Case, position: int) -> char
    recommends
        0 <= position < ALPHABET_LEN,
{
    match case {
        Case::Lower => if position < 26 {
            ('a' as int + position) as char
        } else if position == 26 {
            'æ'
        } else if position == 27 {
            'ø'
        } else {
            'å'
        },
        Case::Upper => if position < 26 {
            ('A' as int + position) as char
        } else if position == 26 {
            'Æ'
        } else if position == 27 {
            'Ø'
        } else {
            'Å'
        },
    }
}

/// The case of `c` and its position in the alphabet of that case, or `None`
/// where `c` is no letter of either alphabet.
pub open spec fn place(c: char) -> Option<(Case, int)> {
    if 'a' <= c <= 'z' {
        Some((Case::Lower, c as int - 'a' as int))
    } else if c == 'æ' {
        Some((Case::Lower, 26int))
    } else if c == 'ø' {
        Some((Case::Lower, 27int))
    } else if c == 'å' {
        Some((Case::Lower, 28int))
    } else if 'A' <= c <= 'Z' {
        Some((Case::Upper, c as int - 'A' as int))
    } else if c == 'Æ' {
        Some((Case::Upper, 26int))
    } else if c == 'Ø' {
        Some((Case::Upper, 27int))
    } else if c == 'Å' {
        Some((Case::Upper, 28int))
    } else {
        None
    }
}

/// Whether `c` is one of the 58 letters that the cipher changes.
pub open spec fn is_letter(c: char) -> bool {
    place(c) is Some
}

/// The case of `c`, or `None` where `c` is no letter of either alphabet.
pub open spec fn case_of(c: char) -> Option<Case> {
    match place(c) {
        Some((case, _)) => Some(case),
        None => None,
    }
}

/// What encryption makes of `c`: a letter becomes the letter `SHIFT`
/// positions later in its alphabet, counted cyclically; any other character
/// stays as it is.
pub open spec fn encrypted(c: char) -> char {
    match place(c) {
        Some((case, position)) => letter(case, (position + SHIFT) % (ALPHABET_LEN as int)),
        None => c,
    }
}

/// What decryption makes of `c`: a letter becomes the letter `SHIFT`
/// positions earlier in its alphabet, counted cyclically; any other character
/// stays as it is.
pub open spec fn decrypted(c: char) -> char {
    match place(c) {
        Some((case, position)) => letter(case, (position - SHIFT) % (ALPHABET_LEN as int)),
        None => c,
    }
}

/// The letter at `position` of the alphabet of the given case.
pub(crate) fn letter_at(case: Case, position: u8) -> (c: char)
    requires
        position < ALPHABET_LEN,
    ensures
        c == letter(case, position as int),
{
    match case {
        Case::Lower => if position < 26 {
            ('a' as u8 + position) as char
        } else if position == 26 {
            'æ'
        } else if position == 27 {
            'ø'
        } else {
            'å'
        },
        Case::Upper => if position < 26 {
            ('A' as u8 + position) as char
        } else if position == 26 {
            'Æ'
        } else if position == 27 {
            'Ø'
        } else {
            'Å'
        },
    }
}

/// Each of the 29 positions of a case holds a letter of its own, and a letter
/// is found at its place only.
pub proof fn lemma_letter_and_place_agree(case: Case, position: int, c: char)
    requires
        0 <= position < ALPHABET_LEN,
    ensures
        place(letter(case, position)) == Some((case, position)),
        place(c) == Some((case, position)) <==> c == letter(case, position),
{
}

/// Decryption undoes encryption and encryption undoes decryption, for every
/// character: the cipher is a bijection on the characters.
pub proof fn lemma_round_trip(c: char)
    ensures
        decrypted(encrypted(c)) == c,
        encrypted(decrypted(c)) == c,
{
}

/// A character that is no letter of either alphabet passes through both
/// directions unchanged.
pub proof fn lemma_pass_through(c: char)
    requires
        !is_letter(c),
    ensures
        encrypted(c) == c,
        decrypted(c) == c,
{
}

/// Neither direction changes the case of a letter, and neither makes a letter
/// of another character or another character of a letter.
pub proof fn lemma_case_preserved(c: char)
    ensures
        case_of(encrypted(c)) == case_of(c),
        case_of(decrypted(c)) == case_of(c),
{
}

/// Encrypting a letter moves it `SHIFT` positions forward within its case,
/// counted cyclically, and decrypting it moves it as far back.
pub proof fn lemma_shift(c: char, case: Case, position: int)
    requires
        place(c) == Some((case, position)),
    ensures
        place(encrypted(c)) == Some((case, (position + SHIFT) % (ALPHABET_LEN as int))),
        place(decrypted(c)) == Some((case, (position - SHIFT) % (ALPHABET_LEN as int))),
{
}

} // verus!
