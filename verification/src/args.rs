//! From the arguments of a run to its counters.

use vstd::prelude::*;
use vstd::string::StringExecFns;
use crate::command::{CommandLine, CountCommand};
use crate::error::WcError;
use crate::mode::{flag_mode, is_flag, modes_for, parse_flag, requested_modes, CountCommandLine};

verus! {

/// The most arguments that a run takes: a flag and a path.
pub const MAX_ARGS: usize = 2;

/// What the arguments ask for: the quantities to report, in the order of the
/// report, and the path to read, if the content is to come from a file.
#[derive(Clone, Debug, PartialEq, Eq)]
pub struct ParseArgsResult {
    pub parsed_commands: Vec<CountCommandLine>,
    pub file_path: Option<String>,
}

impl ParseArgsResult {
    /// A run reports at least one quantity.
    pub open spec fn well_formed(&self) -> bool {
        self.parsed_commands@.len() > 0
    }

    /// The path to read, as text.
    pub open spec fn path_text(&self) -> Option<Seq<char>> {
        match self.file_path {
            Some(path) => Some(path@),
            None => None,
        }
    }

    /// The notice that says where the content is read from.
    pub open spec fn notice_text(&self) -> Seq<char> {
        match self.path_text() {
            Some(path) => "Opening file "@ + path + "..."@,
            None => "Reading from stdin..."@,
        }
    }

    /// Writes the notice that says where the content is read from. It is
    /// meant for the eyes of the user and is no part of the report.
    pub fn notice(&self) -> (text: String)
        ensures
            text@ == self.notice_text(),
    {
        match &self.file_path {
            Some(path) => {
                let mut text = String::from_str("Opening file ");
                text.append(path.as_str());
                text.append("...");
                text
            },
            None => String::from_str("Reading from stdin..."),
        }
    }
}

/// The texts of the arguments.
pub open spec fn arg_texts(args: Seq<String>) -> Seq<Seq<char>> {
    args.map_values(|arg: String| arg@)
}

/// The quantity that the arguments select: that of the first flag among
/// them, if there is a flag.
pub open spec fn selected_flag(args: Seq<Seq<char>>) -> Option<CountCommandLine>
    decreases args.len(),
{
    if args.len() == 0 {
        None
    } else if is_flag(args[0]) {
        flag_mode(args[0])
    } else {
        selected_flag(args.drop_first())
    }
}

/// The path that the arguments name: the last of them that is no flag, if
/// there is one.
pub open spec fn selected_path(args: Seq<Seq<char>>) -> Option<Seq<char>>
    decreases args.len(),
{
    if args.len() == 0 {
        None
    } else if !is_flag(args.last()) {
        Some(args.last())
    } else {
        selected_path(args.drop_last())
    }
}

/// Finds the first flag among the arguments.
fn find_flag(args: &[String]) -> (flag: Option<CountCommandLine>)
    ensures
        flag == selected_flag(arg_texts(args@)),
{
    let ghost texts = arg_texts(args@);
    let mut at: usize = 0;
    assert(texts.skip(0) =~= texts);
    while at < args.len()
        invariant
            at <= args@.len(),
            texts == arg_texts(args@),
            selected_flag(texts) == selected_flag(texts.skip(at as int)),
        decreases args@.len() - at,
    {
        let flag = parse_flag(args[at].as_str());
        assert(texts.skip(at as int)[0] == args@[at as int]@);
        if flag.is_some() {
            return flag;
        }
        assert(texts.skip(at as int).drop_first() =~= texts.skip(at + 1));
        at = at + 1;
    }
    None
}

/// Finds the last of the arguments that is no flag.
fn find_path(args: &[String]) -> (path: Option<String>)
    ensures
        path is Some <==> selected_path(arg_texts(args@)) is Some,
        path matches Some(found) ==> Some(found@) == selected_path(arg_texts(args@)),
{
    let ghost texts = arg_texts(args@);
    let mut left: usize = args.len();
    assert(texts.take(left as int) =~= texts);
    while left > 0
        invariant
            left <= args@.len(),
            texts == arg_texts(args@),
            selected_path(texts) == selected_path(texts.take(left as int)),
        decreases left,
    {
        let flag = parse_flag(args[left - 1].as_str());
        assert(texts.take(left as int).last() == args@[left - 1]@);
        if flag.is_none() {
            return Some(args[left - 1].clone());
        }
        assert(texts.take(left as int).drop_last() =~= texts.take(left - 1));
        left = left - 1;
    }
    None
}

/// Resolves the arguments of a run, the program's name not among them.
///
/// More than two arguments are a usage error. Otherwise each argument is a
/// flag or a path by its text alone: the flag selects the one quantity to
/// report, and without a flag lines, words and bytes are reported; the path
/// names the file to read, and without a path the content comes from
/// standard input. Of two flags the first counts, of two paths the last.
pub fn parse_args(args: &[String]) -> (outcome: Result<ParseArgsResult, WcError>)
    ensures
        outcome is Err <==> args@.len() > MAX_ARGS,
        outcome matches Err(error) ==> error == WcError::CommandLine,
        outcome matches Ok(parsed) ==> {
            &&& parsed.well_formed()
            &&& parsed.parsed_commands@ == modes_for(selected_flag(arg_texts(args@)))
            &&& parsed.path_text() == selected_path(arg_texts(args@))
        },
{
    if args.len() > MAX_ARGS {
        return Err(WcError::CommandLine);
    }
    let parsed_commands = requested_modes(find_flag(args));
    let file_path = find_path(args);
    Ok(ParseArgsResult { parsed_commands, file_path })
}

/// Binds each requested quantity to the content that was read, in the order
/// of the request, and keeps the path for the report.
pub fn prepare_commands(parsed_command_line: ParseArgsResult, contents: Vec<u8>) -> (run:
    CommandLine)
    ensures
        run.actions@.len() == parsed_command_line.parsed_commands@.len(),
        forall|i: int|
            0 <= i < run.actions@.len() ==> {
                &&& (#[trigger] run.actions@[i]).mode() == parsed_command_line.parsed_commands@[i]
                &&& run.actions@[i].content() == contents@
            },
        run.path_text() == parsed_command_line.path_text(),
        parsed_command_line.well_formed() ==> run.well_formed(),
{
    let mut actions: Vec<CountCommand> = Vec::new();
    let mut at: usize = 0;
    while at < parsed_command_line.parsed_commands.len()
        invariant
            at <= parsed_command_line.parsed_commands@.len(),
            actions@.len() == at,
            forall|i: int|
                0 <= i < at ==> {
                    &&& (#[trigger] actions@[i]).mode() == parsed_command_line.parsed_commands@[i]
                    &&& actions@[i].content() == contents@
                },
        decreases parsed_command_line.parsed_commands@.len() - at,
    {
        let copy = contents.clone();
        assert(copy@ =~= contents@);
        actions.push(CountCommand::prepare(parsed_command_line.parsed_commands[at], copy));
        at = at + 1;
    }
    CommandLine { actions, file_path: parsed_command_line.file_path }
}

} // verus!
