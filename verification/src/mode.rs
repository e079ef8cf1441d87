//! The four quantities that can be counted, and the flags that select them.

use vstd::prelude::*;
use vstd::string::StrSliceExecFns;

verus! {

/// One of the four countable quantities.
#[derive(Clone, Copy, Debug, PartialEq, Eq, Structural)]
pub enum CountCommandLine {
    Bytes,
    Lines,
    Words,
    Chars,
}

/// The quantity that the flag `text` selects: `-c` bytes, `-l` lines, `-w`
/// words, `-m` characters. Any other text is no flag.
pub open spec fn flag_mode(text: Seq<char>) -> Option<CountCommandLine> {
    if text == seq!['-', 'c'] {
        Some(CountCommandLine::Bytes)
    } else if text == seq!['-', 'l'] {
        Some(CountCommandLine::Lines)
    } else if text == seq!['-', 'w'] {
        Some(CountCommandLine::Words)
    } else if text == seq!['-', 'm'] {
        Some(CountCommandLine::Chars)
    } else {
        None
    }
}

/// Whether `text` is one of the four flags.
pub open spec fn is_flag(text: Seq<char>) -> bool {
    flag_mode(text) is Some
}

/// The quantities reported when no flag is given, in the order of the report.
pub open spec fn default_modes() -> Seq<CountCommandLine> {
    seq![CountCommandLine::Lines, CountCommandLine::Words, CountCommandLine::Bytes]
}

/// The quantities to report for a flag, or for none.
pub open spec fn modes_for(flag: Option<CountCommandLine>) -> Seq<CountCommandLine> {
    match flag {
        Some(mode) => seq![mode],
        None => default_modes(),
    }
}

/// Reads an argument as a flag.
pub fn parse_flag(arg: &str) -> (mode: Option<CountCommandLine>)
    ensures
        mode == flag_mode(arg@),
{
    if arg.unicode_len() != 2 {
        return None;
    }
    let dash = arg.get_char(0);
    let letter = arg.get_char(1);
    assert(arg@ =~= seq![dash, letter]);
    if dash != '-' {
        None
    } else if letter == 'c' {
        Some(CountCommandLine::Bytes)
    } else if letter == 'l' {
        Some(CountCommandLine::Lines)
    } else if letter == 'w' {
        Some(CountCommandLine::Words)
    } else if letter == 'm' {
        Some(CountCommandLine::Chars)
    } else {
        None
    }
}

/// Tells whether an argument is a flag. Only the text of the argument
/// decides: nothing is looked up anywhere.
pub fn is_command(arg: &str) -> (yes: bool)
    ensures
        yes == is_flag(arg@),
{
    parse_flag(arg).is_some()
}

/// Lists the quantities to report for a flag, or for none.
pub fn requested_modes(flag: Option<CountCommandLine>) -> (modes: Vec<CountCommandLine>)
    ensures
        modes@ == modes_for(flag),
{
    let mut modes: Vec<CountCommandLine> = Vec::new();
    match flag {
        Some(mode) => {
            modes.push(mode);
        },
        None => {
            modes.push(CountCommandLine::Lines);
            modes.push(CountCommandLine::Words);
            modes.push(CountCommandLine::Bytes);
        },
    }
    assert(modes@ =~= modes_for(flag));
    modes
}

} // verus!
