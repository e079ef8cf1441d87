//! A counter bound to the content it counts, and the report of a run.

use vstd::prelude::*;
use vstd::string::StringExecFns;
use crate::count::{count_bytes, count_chars, count_lines, count_of, count_words};
use crate::decimal::{decimal, to_decimal};
use crate::error::{lemma_malformed_at_unique, malformed_at, EncodingError};
use crate::mode::CountCommandLine;

verus! {

/// One quantity to count, with the content to count it in.
#[derive(Clone, Debug)]
pub enum CountCommand {
    Bytes(Vec<u8>),
    Lines(Vec<u8>),
    Words(Vec<u8>),
    Chars(Vec<u8>),
}

impl CountCommand {
    /// The quantity that this command counts.
    pub open spec fn mode(&self) -> CountCommandLine {
        match self {
            CountCommand::Bytes(_) => CountCommandLine::Bytes,
            CountCommand::Lines(_) => CountCommandLine::Lines,
            CountCommand::Words(_) => CountCommandLine::Words,
            CountCommand::Chars(_) => CountCommandLine::Chars,
        }
    }

    /// The content that this command counts in.
    pub open spec fn content(&self) -> Seq<u8> {
        match self {
            CountCommand::Bytes(bytes) => bytes@,
            CountCommand::Lines(bytes) => bytes@,
            CountCommand::Words(bytes) => bytes@,
            CountCommand::Chars(bytes) => bytes@,
        }
    }

    /// The count that this command gives, if its content can be counted so.
    pub open spec fn count(&self) -> Option<nat> {
        count_of(self.mode(), self.content())
    }

    /// Whether `outcome` is what processing this command gives: the count in
    /// decimal notation, or the place where the content stops being text.
    pub open spec fn gives(&self, outcome: Result<String, EncodingError>) -> bool {
        match outcome {
            Ok(text) => self.count() matches Some(count) && text@ == decimal(count),
            Err(error) => self.count() is None && malformed_at(
                self.content(),
                error.valid_up_to as int,
            ),
        }
    }

    /// Binds a quantity to the content to count it in.
    pub fn prepare(command_string: CountCommandLine, file_contents: Vec<u8>) -> (command:
        CountCommand)
        ensures
            command.mode() == command_string,
            command.content() == file_contents@,
    {
        match command_string {
            CountCommandLine::Bytes => CountCommand::Bytes(file_contents),
            CountCommandLine::Lines => CountCommand::Lines(file_contents),
            CountCommandLine::Words => CountCommand::Words(file_contents),
            CountCommandLine::Chars => CountCommand::Chars(file_contents),
        }
    }

    /// Counts, and writes the count in decimal notation. The content is left
    /// as it was, so the command can be processed again.
    pub fn process(&self) -> (outcome: Result<String, EncodingError>)
        ensures
            self.gives(outcome),
    {
        let count = match self {
            CountCommand::Bytes(bytes) => count_bytes(bytes.as_slice()),
            CountCommand::Lines(bytes) => count_lines(bytes.as_slice()),
            CountCommand::Words(bytes) => match count_words(bytes.as_slice()) {
                Ok(count) => count,
                Err(error) => {
                    return Err(error);
                },
            },
            CountCommand::Chars(bytes) => match count_chars(bytes.as_slice()) {
                Ok(count) => count,
                Err(error) => {
                    return Err(error);
                },
            },
        };
        Ok(to_decimal(count))
    }
}

/// Processing a command twice gives the same outcome both times: the same
/// text, or the same error.
pub proof fn lemma_process_repeatable(
    command: CountCommand,
    first: Result<String, EncodingError>,
    second: Result<String, EncodingError>,
)
    requires
        command.gives(first),
        command.gives(second),
    ensures
        first is Ok <==> second is Ok,
        first is Ok ==> first->Ok_0@ == second->Ok_0@,
        first is Err ==> first->Err_0 == second->Err_0,
{
    if first is Err {
        lemma_malformed_at_unique(
            command.content(),
            first->Err_0.valid_up_to as int,
            second->Err_0.valid_up_to as int,
        );
    }
}

/// The texts of `parts` in their order, with one space between neighbours.
pub open spec fn joined(parts: Seq<Seq<char>>) -> Seq<char>
    decreases parts.len(),
{
    if parts.len() == 0 {
        Seq::empty()
    } else if parts.len() == 1 {
        parts[0]
    } else {
        joined(parts.drop_last()) + seq![' '] + parts.last()
    }
}

/// The counts of `actions` in decimal notation, in their order.
pub open spec fn count_texts(actions: Seq<CountCommand>) -> Seq<Seq<char>> {
    Seq::new(
        actions.len(),
        |i: int|
            match actions[i].count() {
                Some(count) => decimal(count),
                None => Seq::empty(),
            },
    )
}

/// Whether every one of `actions` can be counted.
pub open spec fn all_countable(actions: Seq<CountCommand>) -> bool {
    forall|i: int| 0 <= i < actions.len() ==> (#[trigger] actions[i]).count() is Some
}

/// Whether `index` is the first of `actions` that cannot be counted.
pub open spec fn first_uncountable(actions: Seq<CountCommand>, index: int) -> bool {
    &&& 0 <= index < actions.len()
    &&& actions[index].count() is None
    &&& forall|i: int| 0 <= i < index ==> (#[trigger] actions[i]).count() is Some
}

/// The counters of a run, in the order of the report, and the path that the
/// content came from, if it came from a file.
#[derive(Clone, Debug)]
pub struct CommandLine {
    pub actions: Vec<CountCommand>,
    pub file_path: Option<String>,
}

impl CommandLine {
    /// A run counts at least one quantity.
    pub open spec fn well_formed(&self) -> bool {
        self.actions@.len() > 0
    }

    /// The path of the run, as text.
    pub open spec fn path_text(&self) -> Option<Seq<char>> {
        match self.file_path {
            Some(path) => Some(path@),
            None => None,
        }
    }

    /// The line that reports the run: the counts with one space between
    /// them, then a space and the path where the content came from a file.
    pub open spec fn report(&self) -> Seq<char> {
        match self.path_text() {
            Some(path) => joined(count_texts(self.actions@)) + seq![' '] + path,
            None => joined(count_texts(self.actions@)),
        }
    }

    /// Whether `outcome` is what processing the run gives: the report, or
    /// the error of the first counter that fails, and then nothing of the
    /// others.
    pub open spec fn gives(&self, outcome: Result<String, EncodingError>) -> bool {
        match outcome {
            Ok(line) => all_countable(self.actions@) && line@ == self.report(),
            Err(error) => exists|index: int|
                first_uncountable(self.actions@, index) && malformed_at(
                    #[trigger] self.actions@[index].content(),
                    error.valid_up_to as int,
                ),
        }
    }

    /// Runs every counter and writes the line that reports them. The line
    /// has no newline at its end.
    pub fn process(&self) -> (outcome: Result<String, EncodingError>)
        ensures
            self.gives(outcome),
    {
        let mut line = String::new();
        let mut done: usize = 0;
        proof {
            reveal_strlit(" ");
            assert(count_texts(self.actions@.take(0)) =~= Seq::<Seq<char>>::empty());
        }
        while done < self.actions.len()
            invariant
                done <= self.actions@.len(),
                all_countable(self.actions@.take(done as int)),
                line@ == joined(count_texts(self.actions@.take(done as int))),
                " "@ == seq![' '],
            decreases self.actions@.len() - done,
        {
            let ghost before = self.actions@.take(done as int);
            let ghost after = self.actions@.take(done + 1);
            let text = match self.actions[done].process() {
                Ok(text) => text,
                Err(error) => {
                    proof {
                        assert forall|i: int| 0 <= i < done implies (#[trigger] self.actions@[i]).count() is Some by {
                            assert(before[i] == self.actions@[i]);
                        }
                        assert(first_uncountable(self.actions@, done as int));
                    }
                    return Err(error);
                },
            };
            if done > 0 {
                line.append(" ");
            }
            line.append(text.as_str());
            proof {
                assert(after.drop_last() =~= before);
                assert(count_texts(after).drop_last() =~= count_texts(before));
                assert(count_texts(after).last() == text@);
                assert forall|i: int| 0 <= i < after.len() implies (#[trigger] after[i]).count() is Some by {
                    if i < done {
                        assert(before[i] == after[i]);
                    }
                }
                assert(line@ =~= joined(count_texts(after)));
            }
            done = done + 1;
        }
        proof {
            assert(self.actions@.take(done as int) =~= self.actions@);
        }
        match &self.file_path {
            Some(path) => {
                line.append(" ");
                line.append(path.as_str());
            },
            None => {},
        }
        Ok(line)
    }
}

/// Processing a run twice gives the same outcome both times: the same line,
/// or the same error.
pub proof fn lemma_run_repeatable(
    run: CommandLine,
    first: Result<String, EncodingError>,
    second: Result<String, EncodingError>,
)
    requires
        run.gives(first),
        run.gives(second),
    ensures
        first is Ok <==> second is Ok,
        first is Ok ==> first->Ok_0@ == second->Ok_0@,
        first is Err ==> first->Err_0 == second->Err_0,
{
    if first is Err {
        let i = choose|index: int|
            first_uncountable(run.actions@, index) && malformed_at(
                #[trigger] run.actions@[index].content(),
                first->Err_0.valid_up_to as int,
            );
        if second is Err {
            let j = choose|index: int|
                first_uncountable(run.actions@, index) && malformed_at(
                    #[trigger] run.actions@[index].content(),
                    second->Err_0.valid_up_to as int,
                );
            assert(i == j);
            lemma_malformed_at_unique(
                run.actions@[i].content(),
                first->Err_0.valid_up_to as int,
                second->Err_0.valid_up_to as int,
            );
        }
    }
}

} // verus!
