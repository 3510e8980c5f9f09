//! The file driver, as a function from the step just taken and what came of
//! it to the next step. The caller touches the file system; the driver
//! decides what is to be done: read, then shift, then move the old file to
//! its backup path, and only then write.

use vstd::prelude::*;
use crate::backup::{backup_file_name, backup_name_spec, timestamp_now};
use crate::config::Config;
use crate::contents::{skew_contents_spec, skew_file_contents};
use crate::error::SkewError;

verus! {

/// One step of a run: what the caller is to do next, or how the run ended.
#[derive(Debug, PartialEq, Eq)]
pub enum Step {
    /// Read the whole file at `path` as text. Its timestamps are then
    /// shifted by `skew_millis`.
    Read { path: String, skew_millis: i64 },
    /// Move the file at `from` to `to`. `contents` is what is written next.
    Backup { from: String, to: String, contents: String },
    /// Create the file at `path` and write `contents` to it. The old file is
    /// at `backup_path`.
    Write { path: String, contents: String, backup_path: String },
    /// The run is over and went well. The old file is at `backup_path`.
    Done { backup_path: String },
    /// The run is over and failed. `moved_to` is where the old file is, if
    /// it had been moved.
    Failed { error: SkewError, moved_to: Option<String> },
}

/// What came of a step.
#[derive(Debug, PartialEq, Eq)]
pub enum Outcome {
    /// The file was read, and this is its text.
    Text(String),
    /// The file was moved, or written.
    Success,
    /// The step could not be carried out.
    Failure,
}

/// A `Step` as contracts see it.
pub ghost enum StepView {
    Read { path: Seq<char>, skew_millis: int },
    Backup { from: Seq<char>, to: Seq<char>, contents: Seq<char> },
    Write { path: Seq<char>, contents: Seq<char>, backup_path: Seq<char> },
    Done { backup_path: Seq<char> },
    Failed { error: SkewError, moved_to: Option<Seq<char>> },
}

/// An `Outcome` as contracts see it.
pub ghost enum OutcomeView {
    Text(Seq<char>),
    Success,
    Failure,
}

impl View for Step {
    type V = StepView;

    open spec fn view(&self) -> StepView {
        match *self {
            Step::Read { path, skew_millis } => StepView::Read {
                path: path@,
                skew_millis: skew_millis as int,
            },
            Step::Backup { from, to, contents } => StepView::Backup {
                from: from@,
                to: to@,
                contents: contents@,
            },
            Step::Write { path, contents, backup_path } => StepView::Write {
                path: path@,
                contents: contents@,
                backup_path: backup_path@,
            },
            Step::Done { backup_path } => StepView::Done { backup_path: backup_path@ },
            Step::Failed { error, moved_to } => StepView::Failed {
                error,
                moved_to: match moved_to {
                    Some(p) => Some(p@),
                    None => None,
                },
            },
        }
    }
}

impl View for Outcome {
    type V = OutcomeView;

    open spec fn view(&self) -> OutcomeView {
        match *self {
            Outcome::Text(text) => OutcomeView::Text(text@),
            Outcome::Success => OutcomeView::Success,
            Outcome::Failure => OutcomeView::Failure,
        }
    }
}

/// The step that follows `step` once `outcome` has come of it, where `now`
/// is what the clock shows: the seconds since the Unix epoch, or nothing if
/// it stands before the epoch.
///
/// After a read, the text is shifted; an error there ends the run with
/// nothing touched, and so does a clock that shows no time. Else the
/// old file is moved to its backup path. After the move comes the write, to
/// the path where the old file was. A step that did not succeed ends the
/// run with the error of that step; after a failed write the backup path is
/// reported. A run that is over stays as it is.
pub open spec fn next_step_spec(step: StepView, outcome: OutcomeView, now: Option<u64>) -> StepView {
    match step {
        StepView::Read { path, skew_millis } => match outcome {
            OutcomeView::Text(text) => match skew_contents_spec(text, skew_millis) {
                Err(error) => StepView::Failed { error, moved_to: None },
                Ok(contents) => match now {
                    None => StepView::Failed { error: SkewError::IoRename, moved_to: None },
                    Some(unix_seconds) => StepView::Backup {
                        from: path,
                        to: backup_name_spec(unix_seconds as nat, path),
                        contents,
                    },
                },
            },
            _ => StepView::Failed { error: SkewError::IoRead, moved_to: None },
        },
        StepView::Backup { from, to, contents } => match outcome {
            OutcomeView::Success => StepView::Write { path: from, contents, backup_path: to },
            _ => StepView::Failed { error: SkewError::IoRename, moved_to: None },
        },
        StepView::Write { path, contents, backup_path } => match outcome {
            OutcomeView::Success => StepView::Done { backup_path },
            _ => StepView::Failed { error: SkewError::IoWrite, moved_to: Some(backup_path) },
        },
        StepView::Done { backup_path } => step,
        StepView::Failed { error, moved_to } => step,
    }
}

/// The old file is moved before anything is written: a write is only asked
/// for after a move that succeeded, to the path that the file was moved
/// from, and with the backup path that it was moved to.
pub proof fn lemma_write_follows_backup(step: StepView, outcome: OutcomeView, now: Option<u64>)
    requires
        next_step_spec(step, outcome, now) is Write,
    ensures
        outcome is Success,
        step matches StepView::Backup { from, to, contents } && next_step_spec(step, outcome, now)
            == (StepView::Write { path: from, contents, backup_path: to }),
{
}

/// Nothing is touched before the new contents are known: a move is only
/// asked for after a read whose text could be shifted, and it carries the
/// shifted text and the backup name for the time that the clock showed.
pub proof fn lemma_backup_follows_read(step: StepView, outcome: OutcomeView, now: Option<u64>)
    requires
        next_step_spec(step, outcome, now) is Backup,
    ensures
        step matches StepView::Read { path, skew_millis } && outcome matches OutcomeView::Text(text)
            && now matches Some(unix_seconds) && skew_contents_spec(text, skew_millis) is Ok
            && next_step_spec(step, outcome, now) == (StepView::Backup {
            from: path,
            to: backup_name_spec(unix_seconds as nat, path),
            contents: skew_contents_spec(text, skew_millis)->Ok_0,
        }),
{
}

/// A run that fails reports a backup path exactly when the old file had
/// been moved: after a write that did not succeed.
pub proof fn lemma_failure_reports_backup(step: StepView, outcome: OutcomeView, now: Option<u64>)
    requires
        !(step is Failed),
        next_step_spec(step, outcome, now) is Failed,
    ensures
        match step {
            StepView::Write { path, contents, backup_path } => next_step_spec(step, outcome, now)
                == (StepView::Failed { error: SkewError::IoWrite, moved_to: Some(backup_path) }),
            _ => next_step_spec(step, outcome, now) matches StepView::Failed { error, moved_to }
                && moved_to is None,
        },
{
}

/// The first step of a run: to read the file that `config` names.
pub fn first_step(config: &Config) -> (step: Step)
    ensures
        step@ == (StepView::Read {
            path: config@.file_path,
            skew_millis: config@.skew_millis,
        }),
{
    Step::Read { path: config.file_path().to_string(), skew_millis: config.skew_millis() }
}

/// The step that follows `step` once `outcome` has come of it, at the time
/// `now`.
pub fn next_step_at(step: Step, outcome: Outcome, now: Option<u64>) -> (next: Step)
    ensures
        next@ == next_step_spec(step@, outcome@, now),
{
    match step {
        Step::Read { path, skew_millis } => match outcome {
            Outcome::Text(text) => match skew_file_contents(text, skew_millis) {
                Err(error) => Step::Failed { error, moved_to: None },
                Ok(contents) => match now {
                    None => Step::Failed { error: SkewError::IoRename, moved_to: None },
                    Some(unix_seconds) => {
                        let to = backup_file_name(unix_seconds, path.as_str());
                        Step::Backup { from: path, to, contents }
                    },
                },
            },
            _ => Step::Failed { error: SkewError::IoRead, moved_to: None },
        },
        Step::Backup { from, to, contents } => match outcome {
            Outcome::Success => Step::Write { path: from, contents, backup_path: to },
            _ => Step::Failed { error: SkewError::IoRename, moved_to: None },
        },
        Step::Write { path, contents, backup_path } => match outcome {
            Outcome::Success => Step::Done { backup_path },
            _ => Step::Failed { error: SkewError::IoWrite, moved_to: Some(backup_path) },
        },
        Step::Done { backup_path } => Step::Done { backup_path },
        Step::Failed { error, moved_to } => Step::Failed { error, moved_to },
    }
}

/// The clock decides the next step only after a read that gave a text.
pub open spec fn asks_the_clock(step: StepView, outcome: OutcomeView) -> bool {
    step is Read && outcome is Text
}

/// The step that follows `step` once `outcome` has come of it. The backup
/// path is named after the system clock at the moment of this call.
pub fn next_step(step: Step, outcome: Outcome) -> (next: Step)
    ensures
        exists|now: Option<u64>| next@ == next_step_spec(step@, outcome@, now),
        !asks_the_clock(step@, outcome@) ==> next@ == next_step_spec(step@, outcome@, None),
{
    let consult = match (&step, &outcome) {
        (Step::Read { .. }, Outcome::Text(_)) => true,
        _ => false,
    };
    let now = if consult {
        timestamp_now()
    } else {
        None
    };
    next_step_at(step, outcome, now)
}

} // verus!
