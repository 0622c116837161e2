//! The wording of progress, results and fatal errors.

use crate::text::{decimal, to_decimal};
use crate::transfer::{TaskView, TransferOutcome, TransferPlan, TransferTask};
use vstd::prelude::*;

verus! {

/// A run of `n` blanks.
pub open spec fn blanks(n: nat) -> Seq<char> {
    Seq::new(n, |i: int| ' ')
}

/// `text`, followed by blanks where it is shorter than `width`.
pub open spec fn padded_right(text: Seq<char>, width: nat) -> Seq<char> {
    if text.len() >= width {
        text
    } else {
        text + blanks((width - text.len()) as nat)
    }
}

/// `text`, preceded by blanks where it is shorter than `width`.
pub open spec fn padded_left(text: Seq<char>, width: nat) -> Seq<char> {
    if text.len() >= width {
        text
    } else {
        blanks((width - text.len()) as nat) + text
    }
}

fn blank_run(n: usize) -> (run: String)
    ensures
        run@ == blanks(n as nat),
{
    let mut run = String::new();
    let mut i: usize = 0;
    proof {
        reveal_strlit(" ");
    }
    assert(run@ =~= blanks(0));
    while i < n
        invariant
            i <= n,
            run@ == blanks(i as nat),
            " "@ == seq![' '],
        decreases n - i,
    {
        run.append(" ");
        assert(run@ =~= blanks((i + 1) as nat));
        i = i + 1;
    }
    run
}

/// Fills `text` up with blanks on the right to `width` characters.
pub fn pad_right(text: &str, width: usize) -> (padded: String)
    ensures
        padded@ == padded_right(text@, width as nat),
{
    let len = text.unicode_len();
    if len >= width {
        String::from_str(text)
    } else {
        String::from_str(text).concat(blank_run(width - len).as_str())
    }
}

/// Fills `text` up with blanks on the left to `width` characters.
pub fn pad_left(text: &str, width: usize) -> (padded: String)
    ensures
        padded@ == padded_left(text@, width as nat),
{
    let len = text.unicode_len();
    if len >= width {
        String::from_str(text)
    } else {
        blank_run(width - len).concat(text)
    }
}

/// The place of a file in its batch, as in `7/120: Name`.
pub open spec fn place_text(task: TaskView) -> Seq<char> {
    decimal(task.index) + "/"@ + decimal(task.total) + ": "@ + task.display_name
}

fn place(task: &TransferTask) -> (text: String)
    ensures
        text@ == place_text(task@),
{
    let text = to_decimal(task.index as u64).concat("/").concat(
        to_decimal(task.total as u64).as_str(),
    ).concat(": ").concat(task.display_name.as_str());
    assert(text@ =~= place_text(task@));
    text
}

/// The title shown while a file is on its way: what is being done, in a column
/// of eleven characters, and the place of the file in its batch, the number
/// set right in a column as wide as the size of the batch.
pub open spec fn title_text(task: TaskView, plan: TransferPlan) -> Seq<char> {
    let verb = if plan is Resume {
        "Resuming"@
    } else {
        "Downloading"@
    };
    padded_right(verb, 11) + " "@ + padded_left(decimal(task.index), decimal(task.total).len())
        + "/"@ + decimal(task.total) + ": "@ + task.display_name
}

/// Words the title shown while a file is on its way.
pub fn progress_title(task: &TransferTask, plan: TransferPlan) -> (title: String)
    ensures
        title@ == title_text(task@, plan),
{
    let verb = match plan {
        TransferPlan::Resume { .. } => "Resuming",
        _ => "Downloading",
    };
    let total = to_decimal(task.total as u64);
    let width = total.as_str().unicode_len();
    let index = pad_left(to_decimal(task.index as u64).as_str(), width);
    let title = pad_right(verb, 11).concat(" ").concat(index.as_str()).concat("/").concat(
        total.as_str(),
    ).concat(": ").concat(task.display_name.as_str());
    assert(title@ =~= title_text(task@, plan));
    title
}

/// The line that reports how a file ended.
pub open spec fn outcome_text(task: TaskView, outcome: TransferOutcome) -> Seq<char> {
    match outcome {
        TransferOutcome::Completed => "Downloaded  "@ + place_text(task),
        TransferOutcome::AlreadyPresent => "Already DLd "@ + place_text(task),
        TransferOutcome::Failed(_) => "Error with  "@ + task.display_name,
    }
}

/// Words the line that reports how a file ended.
pub fn outcome_line(task: &TransferTask, outcome: &TransferOutcome) -> (line: String)
    ensures
        line@ == outcome_text(task@, *outcome),
{
    match outcome {
        TransferOutcome::Completed => String::from_str("Downloaded  ").concat(place(task).as_str()),
        TransferOutcome::AlreadyPresent => String::from_str("Already DLd ").concat(
            place(task).as_str(),
        ),
        TransferOutcome::Failed(_) => String::from_str("Error with  ").concat(
            task.display_name.as_str(),
        ),
    }
}

/// What ends a run before any file is asked for.
#[derive(Debug, Clone, Copy, PartialEq, Eq, Structural)]
pub enum FatalError {
    /// The manifest's path names no file.
    InputPathInvalid,
    /// The output path names no directory.
    OutputPathInvalid,
    /// The manifest could not be read.
    ManifestUnreadable,
    /// The manifest is not well-formed.
    ManifestInvalid,
}

impl FatalError {
    /// The error in words.
    pub open spec fn text(self) -> Seq<char> {
        match self {
            FatalError::InputPathInvalid => "Invalid input DAT-file!"@,
            FatalError::OutputPathInvalid => "Invalid output ROM path!"@,
            FatalError::ManifestUnreadable => "Error opening DAT-file!"@,
            FatalError::ManifestInvalid => "Error parsing DAT-file!"@,
        }
    }

    /// Words the error.
    pub fn message(&self) -> (words: &'static str)
        ensures
            words@ == self.text(),
    {
        match self {
            FatalError::InputPathInvalid => "Invalid input DAT-file!",
            FatalError::OutputPathInvalid => "Invalid output ROM path!",
            FatalError::ManifestUnreadable => "Error opening DAT-file!",
            FatalError::ManifestInvalid => "Error parsing DAT-file!",
        }
    }

    /// The status with which the process ends on this error.
    pub fn exit_code(&self) -> (code: i32)
        ensures
            code == 1,
    {
        1
    }
}

/// Judges the two paths of the command line, given what the file system says
/// of them. The manifest is judged first.
pub fn validate_args(input_is_file: bool, output_is_dir: bool) -> (verdict: Result<(), FatalError>)
    ensures
        (verdict == if !input_is_file {
            Err::<(), FatalError>(FatalError::InputPathInvalid)
        } else if !output_is_dir {
            Err::<(), FatalError>(FatalError::OutputPathInvalid)
        } else {
            Ok::<(), FatalError>(())
        }),
{
    if !input_is_file {
        Err(FatalError::InputPathInvalid)
    } else if !output_is_dir {
        Err(FatalError::OutputPathInvalid)
    } else {
        Ok(())
    }
}

} // verus!
