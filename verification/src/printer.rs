//! What the two sinks put out: the lines for the console or for the output
//! file, and the message that tells how writing the file ended.

use vstd::prelude::*;
use vstd::string::StringExecFns;
use crate::occurrence::{views, Occurrence, OccurrenceView};
use crate::searcher::strings;

verus! {

/// The lines that display `found`: for each occurrence its text, ended by a
/// line feed.
pub open spec fn displayed_lines(found: Seq<OccurrenceView>) -> Seq<Seq<char>> {
    found.map_values(|o: OccurrenceView| o.text().push('\n'))
}

/// A sink for the final sequence of occurrences.
pub trait Printer {
    /// The lines that this sink puts out for `found`, in order.
    spec fn printed(&self, found: Seq<OccurrenceView>) -> Seq<Seq<char>>;

    /// The lines to put out for `occurrences`, in order. Each is complete: it
    /// ends with its line feed.
    fn print(&self, occurrences: &Vec<Occurrence>) -> (lines: Vec<String>)
        ensures
            strings(lines@) == self.printed(views(occurrences@)),
    ;
}

/// The sink that writes to standard output.
pub struct ConsolePrinter;

/// The sink that writes to a file, which it creates or truncates.
pub struct FilePrinter {
    pub output_file: String,
}

/// How writing the output file ended.
#[derive(Debug, Clone, Copy, PartialEq, Eq)]
pub enum FileOutcome {
    /// Every line was written.
    Written,
    /// The file could not be created or truncated; nothing was written.
    OpenFailed,
    /// A line could not be written; the lines after it were not tried.
    WriteFailed,
}

/// How far writing the output file has come.
#[derive(Debug, Clone, Copy, PartialEq, Eq)]
pub enum FileProgress {
    /// The file is not open yet.
    NotOpened,
    /// The file is open, and the first `written` lines are in it.
    Opened { written: usize },
}

/// What is to be done next for the output file.
#[derive(Debug, Clone, Copy, PartialEq, Eq)]
pub enum FileStep {
    /// Create the file, or truncate it.
    Open,
    /// Write the line of this index.
    Write(usize),
    /// Tell the user how writing ended, and stop.
    Report(FileOutcome),
}

/// The step that follows, for `lines` lines to write. `failed` says that the
/// step before could not be done. Nothing is tried after a failure: a file
/// that cannot be opened gets no line, and a line that cannot be written is
/// the last one tried. The lines are written in their order, and when all
/// are written, that is reported.
pub open spec fn step_after(lines: nat, progress: FileProgress, failed: bool) -> FileStep {
    match progress {
        FileProgress::NotOpened => if failed {
            FileStep::Report(FileOutcome::OpenFailed)
        } else {
            FileStep::Open
        },
        FileProgress::Opened { written } => if failed {
            FileStep::Report(FileOutcome::WriteFailed)
        } else if written < lines {
            FileStep::Write(written)
        } else {
            FileStep::Report(FileOutcome::Written)
        },
    }
}

/// The lines that display `occurrences`.
fn display_lines(occurrences: &Vec<Occurrence>) -> (lines: Vec<String>)
    ensures
        strings(lines@) == displayed_lines(views(occurrences@)),
{
    let mut lines: Vec<String> = Vec::new();
    let mut i: usize = 0;
    while i < occurrences.len()
        invariant
            i <= occurrences.len(),
            strings(lines@) == displayed_lines(views(occurrences@.take(i as int))),
        decreases occurrences.len() - i,
    {
        let mut line = String::from_str(occurrences[i].file_name());
        line.push('\n');
        let ghost before = lines@;
        lines.push(line);
        proof {
            assert(strings(lines@) == strings(before).push(line@));
            assert(occurrences@.take(i + 1) == occurrences@.take(i as int).push(
                occurrences@[i as int],
            ));
        }
        i += 1;
    }
    assert(occurrences@.take(occurrences.len() as int) == occurrences@);
    lines
}

impl Printer for ConsolePrinter {
    open spec fn printed(&self, found: Seq<OccurrenceView>) -> Seq<Seq<char>> {
        displayed_lines(found)
    }

    fn print(&self, occurrences: &Vec<Occurrence>) -> (lines: Vec<String>) {
        display_lines(occurrences)
    }
}

impl Printer for FilePrinter {
    open spec fn printed(&self, found: Seq<OccurrenceView>) -> Seq<Seq<char>> {
        displayed_lines(found)
    }

    fn print(&self, occurrences: &Vec<Occurrence>) -> (lines: Vec<String>) {
        display_lines(occurrences)
    }
}

/// The message that tells how writing to `output_file` ended.
pub open spec fn report_text(output_file: Seq<char>, outcome: FileOutcome) -> Seq<char> {
    match outcome {
        FileOutcome::Written => "Output written to '"@ + output_file + "'"@,
        FileOutcome::OpenFailed => "Failed to open '"@ + output_file + "'"@,
        FileOutcome::WriteFailed => "Failed to write into '"@ + output_file + "'"@,
    }
}

impl FilePrinter {
    /// What is to be done next for the output file, where `lines` lines are
    /// to be written, `progress` says how far writing has come, and `failed`
    /// says that the step last asked for could not be done.
    pub fn next_step(&self, lines: usize, progress: FileProgress, failed: bool) -> (step: FileStep)
        ensures
            step == step_after(lines as nat, progress, failed),
    {
        match progress {
            FileProgress::NotOpened => {
                if failed {
                    FileStep::Report(FileOutcome::OpenFailed)
                } else {
                    FileStep::Open
                }
            },
            FileProgress::Opened { written } => {
                if failed {
                    FileStep::Report(FileOutcome::WriteFailed)
                } else if written < lines {
                    FileStep::Write(written)
                } else {
                    FileStep::Report(FileOutcome::Written)
                }
            },
        }
    }

    /// The message for the user once writing has ended: the confirmation that
    /// names the output file, or the error.
    pub fn report(&self, outcome: FileOutcome) -> (message: String)
        ensures
            message@ == report_text(self.output_file@, outcome),
    {
        let mut message = match outcome {
            FileOutcome::Written => String::from_str("Output written to '"),
            FileOutcome::OpenFailed => String::from_str("Failed to open '"),
            FileOutcome::WriteFailed => String::from_str("Failed to write into '"),
        };
        message.append(self.output_file.as_str());
        message.append("'");
        message
    }
}

/// The file sink writes, line for line, what the console sink prints for the
/// same occurrences: the lines are the same, one for each occurrence, and
/// while nothing fails the file sink asks for each of them in turn, and then
/// for the confirmation.
pub proof fn lemma_sink_fidelity(
    console: ConsolePrinter,
    file: FilePrinter,
    found: Seq<OccurrenceView>,
)
    ensures
        file.printed(found) == console.printed(found),
        file.printed(found).len() == found.len(),
        forall|i: int|
            0 <= i < found.len() ==> #[trigger] file.printed(found)[i] == found[i].text().push(
                '\n',
            ),
        step_after(found.len(), FileProgress::NotOpened, false) == FileStep::Open,
        forall|i: usize|
            0 <= i < found.len() ==> #[trigger] step_after(
                found.len(),
                FileProgress::Opened { written: i },
                false,
            ) == FileStep::Write(i),
        forall|i: usize|
            i >= found.len() ==> #[trigger] step_after(
                found.len(),
                FileProgress::Opened { written: i },
                false,
            ) == FileStep::Report(FileOutcome::Written),
{
}

} // verus!
