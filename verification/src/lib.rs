//! A fixed, reversible substitution cipher over the Latin letters extended
//! with `æ`, `ø` and `å`.
//!
//! Every letter is replaced by the letter three positions later in the
//! 29-letter alphabet of its case, counted cyclically; every other character
//! stands for itself. The pairs are held in a [`SubstitutionTable`], which
//! can be searched from either side, so that the same table encrypts and
//! decrypts.

pub mod alphabet;
pub mod store;
pub mod table;
pub mod text;

pub use crate::table::SubstitutionTable;

use crate::alphabet::{case_of, decrypted, encrypted, is_letter};
use crate::text::{ciphered, processed};
use vstd::prelude::*;

verus! {

/// Encrypts `input` line by line, or decrypts it where `decryption` is set,
/// and returns the resulting lines joined without their terminators. An input
/// of one line keeps its length: each character is replaced in place.
pub fn process_input(input: &str, decryption: bool) -> (output: String)
    ensures
        output@ == processed(input@, decryption),
        !input@.contains('\n') ==> output@ == input@.map_values(
            |c: char| ciphered(c, decryption),
        ),
{
    let table = SubstitutionTable::new();
    table.process(input, decryption)
}

/// The cipher letter of a plain letter; any other character unchanged. The
/// case of a letter stays as it is.
///
/// The table is built for this one call: to encrypt many characters, build
/// a [`SubstitutionTable`] once.
pub fn encrypt(input: &char) -> (output: char)
    ensures
        output == encrypted(*input),
        !is_letter(*input) ==> output == *input,
        case_of(output) == case_of(*input),
{
    let table = SubstitutionTable::new();
    table.encrypt(*input)
}

/// The plain letter of a cipher letter; any other character unchanged. The
/// case of a letter stays as it is.
///
/// The table is built for this one call: to decrypt many characters, build
/// a [`SubstitutionTable`] once.
pub fn decrypt(input: &char) -> (output: char)
    ensures
        output == decrypted(*input),
        !is_letter(*input) ==> output == *input,
        case_of(output) == case_of(*input),
{
    let table = SubstitutionTable::new();
    table.decrypt(*input)
}

} // verus!

