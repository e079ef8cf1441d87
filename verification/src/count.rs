//! The four counters, each a function of the content alone.

use vstd::prelude::*;
use vstd::utf8::*;
use crate::error::{malformed_at, EncodingError};
use crate::mode::CountCommandLine;
use crate::scalar::{first_scalar, head, lemma_walk_step, lemma_walk_stuck, tail};
use crate::whitespace::{is_whitespace, is_whitespace_scalar};

verus! {

/// The newline byte.
pub const NEWLINE: u8 = 0x0a;

/// How many newline bytes `bytes` holds.
pub open spec fn newline_count(bytes: Seq<u8>) -> nat
    decreases bytes.len(),
{
    if bytes.len() == 0 {
        0
    } else {
        newline_count(bytes.drop_last()) + if bytes.last() == NEWLINE {
            1nat
        } else {
            0nat
        }
    }
}

/// Whether `bytes` ends in a line that no newline closes.
pub open spec fn has_open_line(bytes: Seq<u8>) -> bool {
    bytes.len() > 0 && bytes.last() != NEWLINE
}

/// The number of lines in `bytes`: one for each newline, and one more for
/// what follows the last newline, if anything does.
pub open spec fn line_count(bytes: Seq<u8>) -> nat {
    newline_count(bytes) + if has_open_line(bytes) {
        1nat
    } else {
        0nat
    }
}

/// Whether the last character of `chars` begins a word: it is no whitespace,
/// and it is the first character or follows whitespace.
pub open spec fn last_begins_word(chars: Seq<char>) -> bool {
    &&& chars.len() > 0
    &&& !is_whitespace(chars.last())
    &&& (chars.len() == 1 || is_whitespace(chars[chars.len() - 2]))
}

/// The number of words in `chars`: the maximal runs of characters that are
/// no whitespace, counted by the places where one begins.
pub open spec fn word_count(chars: Seq<char>) -> nat
    decreases chars.len(),
{
    if chars.len() == 0 {
        0
    } else {
        word_count(chars.drop_last()) + if last_begins_word(chars) {
            1nat
        } else {
            0nat
        }
    }
}

/// What counting `mode` in `bytes` gives. Bytes and lines can be counted in
/// any content; words and characters only in well-formed UTF-8.
pub open spec fn count_of(mode: CountCommandLine, bytes: Seq<u8>) -> Option<nat> {
    match mode {
        CountCommandLine::Bytes => Some(bytes.len()),
        CountCommandLine::Lines => Some(line_count(bytes)),
        CountCommandLine::Words => if valid_utf8(bytes) {
            Some(word_count(decode_utf8(bytes)))
        } else {
            None
        },
        CountCommandLine::Chars => if valid_utf8(bytes) {
            Some(decode_utf8(bytes).len())
        } else {
            None
        },
    }
}

/// What a text measures in characters and in words.
#[derive(Clone, Copy, Debug, PartialEq, Eq, Structural)]
pub struct TextMeasure {
    pub chars: usize,
    pub words: usize,
}

/// There are no more newlines than bytes.
pub proof fn lemma_newline_count_bound(bytes: Seq<u8>)
    ensures
        newline_count(bytes) <= bytes.len(),
        has_open_line(bytes) ==> newline_count(bytes) < bytes.len(),
    decreases bytes.len(),
{
    if bytes.len() > 0 {
        lemma_newline_count_bound(bytes.drop_last());
    }
}

/// There are no more words than characters.
pub proof fn lemma_word_count_bound(chars: Seq<char>)
    ensures
        word_count(chars) <= chars.len(),
    decreases chars.len(),
{
    if chars.len() > 0 {
        lemma_word_count_bound(chars.drop_last());
    }
}

/// Counts the bytes of the content.
pub fn count_bytes(bytes: &[u8]) -> (count: usize)
    ensures
        count == bytes@.len(),
{
    bytes.len()
}

/// Counts the lines of the content, whatever its encoding.
pub fn count_lines(bytes: &[u8]) -> (count: usize)
    ensures
        count == line_count(bytes@),
{
    let len = bytes.len();
    let mut newlines: usize = 0;
    let mut at: usize = 0;
    while at < len
        invariant
            len == bytes@.len(),
            at <= len,
            newlines == newline_count(head(bytes@, at as int)),
            newlines <= at,
        decreases len - at,
    {
        proof {
            assert(head(bytes@, at + 1).drop_last() =~= head(bytes@, at as int));
        }
        if bytes[at] == NEWLINE {
            newlines = newlines + 1;
        }
        at = at + 1;
    }
    proof {
        assert(head(bytes@, len as int) =~= bytes@);
        lemma_newline_count_bound(bytes@);
    }
    if len > 0 && bytes[len - 1] != NEWLINE {
        newlines + 1
    } else {
        newlines
    }
}

/// Decodes the content and counts its characters and its words in one pass.
pub fn measure_text(bytes: &[u8]) -> (outcome: Result<TextMeasure, EncodingError>)
    ensures
        outcome is Ok <==> valid_utf8(bytes@),
        outcome matches Ok(measure) ==> {
            &&& measure.chars == decode_utf8(bytes@).len()
            &&& measure.words == word_count(decode_utf8(bytes@))
        },
        outcome matches Err(error) ==> malformed_at(bytes@, error.valid_up_to as int),
{
    let len = bytes.len();
    let mut chars: usize = 0;
    let mut words: usize = 0;
    let mut in_word = false;
    let mut at: usize = 0;
    let ghost mut seen: Seq<char> = Seq::empty();
    assert(head(bytes@, 0) =~= Seq::<u8>::empty());
    while at < len
        invariant
            len == bytes@.len(),
            at <= len,
            valid_utf8(head(bytes@, at as int)),
            seen == decode_utf8(head(bytes@, at as int)),
            chars == seen.len(),
            chars <= at,
            words == word_count(seen),
            in_word == (seen.len() > 0 && !is_whitespace(seen.last())),
        decreases len - at,
    {
        match first_scalar(bytes, at) {
            None => {
                proof {
                    lemma_walk_stuck(bytes@, at as int);
                }
                return Err(EncodingError { valid_up_to: at });
            },
            Some(scalar) => {
                let white = is_whitespace_scalar(scalar.value);
                proof {
                    lemma_walk_step(bytes@, at as int);
                    let c = scalar.value as char;
                    let longer = seen.push(c);
                    assert(longer.drop_last() =~= seen);
                    lemma_word_count_bound(seen);
                    seen = longer;
                }
                if !white && !in_word {
                    words = words + 1;
                }
                in_word = !white;
                chars = chars + 1;
                at = at + scalar.width;
            },
        }
    }
    proof {
        assert(head(bytes@, len as int) =~= bytes@);
    }
    Ok(TextMeasure { chars, words })
}

/// Counts the words of the content, which must be well-formed UTF-8.
pub fn count_words(bytes: &[u8]) -> (outcome: Result<usize, EncodingError>)
    ensures
        outcome is Ok <==> valid_utf8(bytes@),
        outcome matches Ok(count) ==> count == word_count(decode_utf8(bytes@)),
        outcome matches Err(error) ==> malformed_at(bytes@, error.valid_up_to as int),
{
    match measure_text(bytes) {
        Ok(measure) => Ok(measure.words),
        Err(error) => Err(error),
    }
}

/// Counts the characters of the content, which must be well-formed UTF-8.
pub fn count_chars(bytes: &[u8]) -> (outcome: Result<usize, EncodingError>)
    ensures
        outcome is Ok <==> valid_utf8(bytes@),
        outcome matches Ok(count) ==> count == decode_utf8(bytes@).len(),
        outcome matches Err(error) ==> malformed_at(bytes@, error.valid_up_to as int),
{
    match measure_text(bytes) {
        Ok(measure) => Ok(measure.chars),
        Err(error) => Err(error),
    }
}

} // verus!
