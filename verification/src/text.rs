//! Processing a text: line by line, character by character, with the
//! lines joined directly.

use crate::alphabet::{decrypted, encrypted, lemma_round_trip};
use crate::table::SubstitutionTable;
use vstd::prelude::*;

verus! {

/// What the cipher makes of `c` in the chosen direction.
pub open spec fn ciphered(c: char, decryption: bool) -> char {
    if decryption {
        decrypted(c)
    } else {
        encrypted(c)
    }
}

/// Index of the first line feed of `text`, or its length where it holds none.
pub open spec fn first_line_feed(text: Seq<char>) -> nat
    decreases text.len(),
{
    if text.len() == 0 || text[0] == '\n' {
        0
    } else {
        1 + first_line_feed(text.drop_first())
    }
}

/// `line` without the carriage return that it may end in.
pub open spec fn without_carriage_return(line: Seq<char>) -> Seq<char> {
    if line.len() > 0 && line.last() == '\r' {
        line.drop_last()
    } else {
        line
    }
}

/// The lines of `text`. A line ends at a line feed or at the end of the
/// text; neither the line feed nor a carriage return directly before it
/// belongs to the line. Nothing follows a final line feed, and the empty text
/// has no line.
pub open spec fn lines_of(text: Seq<char>) -> Seq<Seq<char>>
    decreases text.len(),
{
    if text.len() == 0 {
        Seq::empty()
    } else {
        let end = first_line_feed(text) as int;
        if end >= text.len() {
            seq![text]
        } else {
            seq![without_carriage_return(text.take(end))] + lines_of(text.skip(end + 1))
        }
    }
}

/// What processing makes of `text`: the characters of its lines, in order and
/// with nothing between the lines, each one put through the cipher.
pub open spec fn processed(text: Seq<char>, decryption: bool) -> Seq<char> {
    lines_of(text).flatten().map_values(|c: char| ciphered(c, decryption))
}

/// `str::lines` of the standard library, gathered into a vector: the lines of
/// the text in order, split at each line feed, without the line feed and
/// without a carriage return directly before it. A carriage return elsewhere
/// stays, and the text after the last line feed is a line only if it is not
/// empty.
#[verifier::external_body]
fn split_lines<'a>(text: &'a str) -> (lines: Vec<&'a str>)
    ensures
        lines@.map_values(|line: &str| line@) == lines_of(text@),
{
    text.lines().collect()
}

/// `String::push` of the standard library: the character is appended to the
/// end of the string.
#[verifier::external_body]
fn push_char(text: &mut String, c: char)
    ensures
        final(text)@ == old(text)@.push(c),
{
    text.push(c)
}

impl SubstitutionTable {
    /// Encrypts `c`, or decrypts it where `decryption` is set.
    pub fn apply(&self, c: char, decryption: bool) -> (output: char)
        ensures
            output == ciphered(c, decryption),
    {
        if decryption {
            self.decrypt(c)
        } else {
            self.encrypt(c)
        }
    }

    /// Puts every character of every line of `input` through the cipher and
    /// joins the results. The line terminators are dropped and nothing is put
    /// in their place; an input of one line keeps its length.
    pub fn process(&self, input: &str, decryption: bool) -> (output: String)
        ensures
            output@ == processed(input@, decryption),
            !input@.contains('\n') ==> output@ == input@.map_values(
                |c: char| ciphered(c, decryption),
            ),
    {
        proof {
            if !input@.contains('\n') {
                lemma_processed_single_line(input@, decryption);
            }
        }
        let lines = split_lines(input);
        let ghost all = lines_of(input@);
        let ghost f = |c: char| ciphered(c, decryption);
        let mut output = String::new();
        for i in 0..lines.len()
            invariant
                lines@.map_values(|line: &str| line@) == all,
                f == |c: char| ciphered(c, decryption),
                output@ == all.take(i as int).flatten().map_values(f),
        {
            let line = lines[i];
            let ghost done = output@;
            for c in it: line.chars()
                invariant
                    f == |c: char| ciphered(c, decryption),
                    it.seq() == line@,
                    output@ == done + line@.take(it.index() as int).map_values(f),
            {
                push_char(&mut output, self.apply(c, decryption));
            }
            proof {
                assert(all.take(i + 1) =~= all.take(i as int).push(all[i as int]));
                all.take(i as int).lemma_flatten_push(all[i as int]);
            }
        }
        assert(all.take(lines.len() as int) =~= all);
        output
    }
}

/// `first_line_feed` is the least index that holds a line feed, and the
/// length of a text that holds none.
pub proof fn lemma_first_line_feed(text: Seq<char>)
    ensures
        first_line_feed(text) <= text.len(),
        first_line_feed(text) < text.len() ==> text[first_line_feed(text) as int] == '\n',
        forall|i: int| 0 <= i < first_line_feed(text) ==> text[i] != '\n',
    decreases text.len(),
{
    if text.len() > 0 && text[0] != '\n' {
        let rest = text.drop_first();
        lemma_first_line_feed(rest);
        assert forall|i: int| 0 <= i < first_line_feed(text) implies text[i] != '\n' by {
            if i > 0 {
                assert(text[i] == rest[i - 1]);
            }
        }
    }
}

/// No line holds a line feed.
pub proof fn lemma_lines_hold_no_line_feed(text: Seq<char>)
    ensures
        forall|i: int, j: int|
            0 <= i < lines_of(text).len() && 0 <= j < lines_of(text)[i].len() ==> lines_of(
                text,
            )[i][j] != '\n',
        !lines_of(text).flatten().contains('\n'),
    decreases text.len(),
{
    lemma_first_line_feed(text);
    if text.len() > 0 {
        let end = first_line_feed(text) as int;
        if end >= text.len() {
            seq![text].lemma_flatten_one_element();
        } else {
            let head = without_carriage_return(text.take(end));
            let rest = lines_of(text.skip(end + 1));
            lemma_lines_hold_no_line_feed(text.skip(end + 1));
            assert((seq![head] + rest).drop_first() =~= rest);
        }
    }
}

/// The result of processing holds no line feed, whatever the text.
pub proof fn lemma_processed_drops_line_feeds(text: Seq<char>, decryption: bool)
    ensures
        !processed(text, decryption).contains('\n'),
{
    lemma_lines_hold_no_line_feed(text);
}

/// A text without a line feed is processed as one line: each character is
/// put through the cipher and nothing is dropped.
pub proof fn lemma_processed_single_line(text: Seq<char>, decryption: bool)
    requires
        !text.contains('\n'),
    ensures
        processed(text, decryption) == text.map_values(|c: char| ciphered(c, decryption)),
{
    lemma_first_line_feed(text);
    if text.len() > 0 {
        seq![text].lemma_flatten_one_element();
    }
}

/// Decrypting what was encrypted gives back a text of one line, and so does
/// encrypting what was decrypted.
pub proof fn lemma_process_round_trip(text: Seq<char>)
    requires
        !text.contains('\n'),
    ensures
        processed(processed(text, false), true) == text,
        processed(processed(text, true), false) == text,
{
    lemma_processed_single_line(text, false);
    lemma_processed_single_line(text, true);
    lemma_processed_single_line(processed(text, false), true);
    lemma_processed_single_line(processed(text, true), false);
    assert forall|i: int| 0 <= i < text.len() implies decrypted(encrypted(text[i])) == text[i]
        && encrypted(decrypted(text[i])) == text[i] by {
        lemma_round_trip(text[i]);
    }
}

/// Decrypting what was encrypted gives back any text without its line
/// terminators, and so does encrypting what was decrypted.
pub proof fn lemma_process_round_trip_of_lines(text: Seq<char>)
    ensures
        processed(processed(text, false), true) == lines_of(text).flatten(),
        processed(processed(text, true), false) == lines_of(text).flatten(),
{
    let joined = lines_of(text).flatten();
    lemma_lines_hold_no_line_feed(text);
    lemma_processed_single_line(processed(text, false), true);
    lemma_processed_single_line(processed(text, true), false);
    assert forall|i: int| 0 <= i < joined.len() implies decrypted(encrypted(joined[i]))
        == joined[i] && encrypted(decrypted(joined[i])) == joined[i] by {
        lemma_round_trip(joined[i]);
    }
}

/// Lines are joined directly: the result for a first line, a line feed and
/// the rest of a text is the result for the first line, without the carriage
/// return that may end it, followed by the result for the rest.
pub proof fn lemma_processed_joins_lines(head: Seq<char>, rest: Seq<char>, decryption: bool)
    requires
        !head.contains('\n'),
    ensures
        processed(head + seq!['\n'] + rest, decryption) == processed(
            without_carriage_return(head),
            decryption,
        ) + processed(rest, decryption),
{
    let text = head + seq!['\n'] + rest;
    let line = without_carriage_return(head);
    let f = |c: char| ciphered(c, decryption);
    lemma_first_line_feed(text);
    let end = first_line_feed(text) as int;
    assert(text[head.len() as int] == '\n');
    assert(text.take(end) =~= head);
    assert(text.skip(end + 1) =~= rest);
    let lines = seq![line] + lines_of(rest);
    assert(lines.drop_first() =~= lines_of(rest));
    lemma_processed_single_line(line, decryption);
    assert(processed(text, decryption) =~= line.map_values(f) + lines_of(rest).flatten().map_values(
        f,
    ));
}

} // verus!
