//! The substitution table: every letter of both alphabets paired with the
//! letter three positions later.

use crate::alphabet::{
    case_of, decrypted, encrypted, is_letter, letter_at, place, Case, ALPHABET_LEN, SHIFT,
};
use crate::store::{empty_bimap, held_pairs, insert_pair, left_of, right_of};
use bimap::BiHashMap;
use vstd::prelude::*;

verus! {

/// The pairs of the letters of `case` that stand before position `count`:
/// each such letter with what encryption makes of it.
spec fn case_pairs(case: Case, count: int) -> Set<(char, char)> {
    Set::new(
        |p: (char, char)|
            match place(p.0) {
                Some((found, position)) => found == case && position < count && p.1 == encrypted(
                    p.0,
                ),
                None => false,
            },
    )
}

/// The pairs of the whole table: each letter of either alphabet as the plain
/// side, with what encryption makes of it as the cipher side.
pub open spec fn cipher_pairs() -> Set<(char, char)> {
    Set::new(|p: (char, char)| is_letter(p.0) && p.1 == encrypted(p.0))
}

/// A bijection between plain and cipher letters that can be searched from
/// either side. A value of this type always holds exactly [`cipher_pairs`].
pub struct SubstitutionTable {
    pairs: BiHashMap<char, char>,
}

/// Adds the pairs of all letters of `case`, in the order of the alphabet, to
/// a map that holds no letter of that case yet.
fn fill_case(pairs: &mut BiHashMap<char, char>, case: Case)
    requires
        forall|p: (char, char)| #[trigger]
            held_pairs(*old(pairs)).contains(p) ==> case_of(p.0) != Some(case) && case_of(p.1)
                != Some(case),
    ensures
        held_pairs(*final(pairs)) == held_pairs(*old(pairs)).union(
            case_pairs(case, ALPHABET_LEN as int),
        ),
{
    let ghost before = held_pairs(*pairs);
    let mut position: u8 = 0;
    while position < ALPHABET_LEN
        invariant
            position <= ALPHABET_LEN,
            forall|p: (char, char)| #[trigger]
                before.contains(p) ==> case_of(p.0) != Some(case) && case_of(p.1) != Some(case),
            held_pairs(*pairs) == before.union(case_pairs(case, position as int)),
        decreases ALPHABET_LEN - position,
    {
        let plain = letter_at(case, position);
        let cipher = letter_at(case, (position + SHIFT) % ALPHABET_LEN);
        insert_pair(pairs, plain, cipher);
        position = position + 1;
    }
}

impl SubstitutionTable {
    /// Every table holds all pairs of the cipher and no other pair.
    #[verifier::type_invariant]
    spec fn complete(self) -> bool {
        held_pairs(self.pairs) == cipher_pairs()
    }

    /// The pairs that the table holds, plain side first.
    pub closed spec fn view(&self) -> Set<(char, char)> {
        held_pairs(self.pairs)
    }

    /// Builds the table: for each case, each of the 29 letters with the letter
    /// three positions later, counted cyclically.
    pub fn new() -> (table: Self)
        ensures
            table@ == cipher_pairs(),
    {
        let mut pairs = empty_bimap();
        fill_case(&mut pairs, Case::Lower);
        fill_case(&mut pairs, Case::Upper);
        assert(held_pairs(pairs) =~= cipher_pairs());
        SubstitutionTable { pairs }
    }

    /// Looks `c` up as a plain letter and returns its cipher letter; a
    /// character that the table does not hold is returned unchanged.
    pub fn encrypt(&self, c: char) -> (output: char)
        ensures
            output == encrypted(c),
            self@.contains((c, output)) || (output == c && !is_letter(c)),
            case_of(output) == case_of(c),
    {
        proof {
            use_type_invariant(self);
        }
        match right_of(&self.pairs, c) {
            Some(cipher) => cipher,
            None => {
                assert(!held_pairs(self.pairs).contains((c, encrypted(c))));
                c
            },
        }
    }

    /// Looks `c` up as a cipher letter and returns its plain letter; a
    /// character that the table does not hold is returned unchanged.
    pub fn decrypt(&self, c: char) -> (output: char)
        ensures
            output == decrypted(c),
            self@.contains((output, c)) || (output == c && !is_letter(c)),
            case_of(output) == case_of(c),
    {
        proof {
            use_type_invariant(self);
        }
        match left_of(&self.pairs, c) {
            Some(plain) => plain,
            None => {
                assert(!held_pairs(self.pairs).contains((decrypted(c), c)));
                c
            },
        }
    }
}

impl Default for SubstitutionTable {
    /// The table, as [`SubstitutionTable::new`] builds it.
    fn default() -> (table: Self)
        ensures
            table@ == cipher_pairs(),
    {
        SubstitutionTable::new()
    }
}

/// The table is a bijection: two of its pairs agree on the plain side exactly
/// when they agree on the cipher side.
pub proof fn lemma_table_is_bijective(p: (char, char), q: (char, char))
    requires
        cipher_pairs().contains(p),
        cipher_pairs().contains(q),
    ensures
        p.0 == q.0 <==> p.1 == q.1,
{
}

/// Plain and cipher alphabet coincide: a character is the plain side of a
/// pair exactly when it is a letter, and the cipher side of a pair exactly
/// when it is a letter.
pub proof fn lemma_table_sides(c: char)
    ensures
        is_letter(c) <==> cipher_pairs().contains((c, encrypted(c))),
        is_letter(c) <==> cipher_pairs().contains((decrypted(c), c)),
        forall|other: char| cipher_pairs().contains((c, other)) ==> is_letter(c) && is_letter(other),
{
}

/// The table written out pair by pair.
pub open spec fn listed_pairs() -> Set<(char, char)> {
    set![
        ('a', 'd'), ('b', 'e'), ('c', 'f'), ('d', 'g'), ('e', 'h'), ('f', 'i'), ('g', 'j'),
        ('h', 'k'), ('i', 'l'), ('j', 'm'), ('k', 'n'), ('l', 'o'), ('m', 'p'), ('n', 'q'),
        ('o', 'r'), ('p', 's'), ('q', 't'), ('r', 'u'), ('s', 'v'), ('t', 'w'), ('u', 'x'),
        ('v', 'y'), ('w', 'z'), ('x', 'æ'), ('y', 'ø'), ('z', 'å'), ('æ', 'a'), ('ø', 'b'),
        ('å', 'c'), ('A', 'D'), ('B', 'E'), ('C', 'F'), ('D', 'G'), ('E', 'H'), ('F', 'I'),
        ('G', 'J'), ('H', 'K'), ('I', 'L'), ('J', 'M'), ('K', 'N'), ('L', 'O'), ('M', 'P'),
        ('N', 'Q'), ('O', 'R'), ('P', 'S'), ('Q', 'T'), ('R', 'U'), ('S', 'V'), ('T', 'W'),
        ('U', 'X'), ('V', 'Y'), ('W', 'Z'), ('X', 'Æ'), ('Y', 'Ø'), ('Z', 'Å'), ('Æ', 'A'),
        ('Ø', 'B'), ('Å', 'C')
    ]
}

/// The shift by three yields exactly the 58 pairs of the written-out table.
pub proof fn lemma_table_as_listed()
    ensures
        cipher_pairs() == listed_pairs(),
{
}

/// The table holds 58 pairs.
pub proof fn lemma_table_len()
    ensures
        cipher_pairs().finite(),
        cipher_pairs().len() == 58,
{
    lemma_table_as_listed();
}

} // verus!
