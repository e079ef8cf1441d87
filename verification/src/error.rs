//! What can go wrong in a run.

use vstd::prelude::*;
use vstd::string::StringExecFns;
use vstd::utf8::*;
use crate::decimal::{decimal, to_decimal};
use crate::scalar::{head, lemma_valid_head_continues, lemma_walk_step, lemma_walk_stuck, tail};

verus! {

/// The content is not well-formed UTF-8.
#[derive(Clone, Copy, Debug, PartialEq, Eq, Structural)]
pub struct EncodingError {
    /// The position of the first byte at which no well-formed scalar starts.
    pub valid_up_to: usize,
}

/// Whether `at` is the place where `bytes` stops being well-formed UTF-8:
/// the bytes before it decode, and no scalar starts at it.
pub open spec fn malformed_at(bytes: Seq<u8>, at: int) -> bool {
    &&& 0 <= at < bytes.len()
    &&& valid_utf8(head(bytes, at))
    &&& !valid_first_scalar(tail(bytes, at))
}

/// A text that is well-formed UTF-8 is malformed nowhere.
pub proof fn lemma_malformed_at_invalid(bytes: Seq<u8>, at: int)
    requires
        malformed_at(bytes, at),
    ensures
        !valid_utf8(bytes),
{
    lemma_walk_stuck(bytes, at);
}

/// A text that decodes up to `from` and is not well-formed is malformed at
/// some place from there on.
pub proof fn lemma_invalid_is_malformed(bytes: Seq<u8>, from: int)
    requires
        0 <= from <= bytes.len(),
        valid_utf8(head(bytes, from)),
        !valid_utf8(bytes),
    ensures
        exists|at: int| from <= at && malformed_at(bytes, at),
    decreases bytes.len() - from,
{
    if from == bytes.len() {
        assert(head(bytes, from) =~= bytes);
    } else if valid_first_scalar(tail(bytes, from)) {
        lemma_walk_step(bytes, from);
        lemma_invalid_is_malformed(bytes, from + length_of_first_scalar(tail(bytes, from)));
    } else {
        assert(malformed_at(bytes, from));
    }
}

/// The place where a text stops being well-formed is unique.
pub proof fn lemma_malformed_at_unique(bytes: Seq<u8>, first: int, second: int)
    requires
        malformed_at(bytes, first),
        malformed_at(bytes, second),
    ensures
        first == second,
{
    if first < second {
        lemma_valid_head_continues(bytes, first, second);
    } else if second < first {
        lemma_valid_head_continues(bytes, second, first);
    }
}

/// Why a run ended without a report.
#[derive(Clone, Debug, PartialEq, Eq)]
pub enum WcError {
    /// The content could not be read; the text is the system's own.
    Io(String),
    /// Words or characters were asked of content that is no text.
    InvalidUtf8(EncodingError),
    /// More arguments were given than a flag and a path.
    CommandLine,
}

impl WcError {
    /// The text shown to the user for this error.
    pub open spec fn message_text(&self) -> Seq<char> {
        match self {
            WcError::Io(text) => text@,
            WcError::InvalidUtf8(error) => "invalid utf-8 sequence from index "@ + decimal(
                error.valid_up_to as nat,
            ),
            WcError::CommandLine => "Usage: ccwc -<c,l,w,m> <filename>"@,
        }
    }

    /// Writes the text shown to the user for this error.
    pub fn message(&self) -> (text: String)
        ensures
            text@ == self.message_text(),
    {
        match self {
            WcError::Io(text) => text.clone(),
            WcError::InvalidUtf8(error) => {
                let mut text = String::from_str("invalid utf-8 sequence from index ");
                let index = to_decimal(error.valid_up_to);
                text.append(index.as_str());
                text
            },
            WcError::CommandLine => String::from_str("Usage: ccwc -<c,l,w,m> <filename>"),
        }
    }
}

} // verus!
