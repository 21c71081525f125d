//! The decision core of the background task that tails one file.
//!
//! The task waits on a shutdown signal and on the next filesystem event, and
//! reacts to whichever arrives first. Every decision it takes is a function
//! of its phase and of the input at hand; the waiting itself, the file
//! handles and the delivery channel live with the caller.

use crate::error::Error;
use crate::watcher::{is_event_relevant_to_file, relevant_spec, WatchEvent};
use vstd::prelude::*;

verus! {

/// The lifecycle of the background task: it watches until a shutdown
/// request, a watcher failure, a read failure or the end of the event source
/// closes it, and a closed task never reopens.
#[derive(Debug, Clone, Copy, PartialEq, Eq, Structural)]
pub enum Phase {
    Watching,
    Closed,
}

/// What the background task learns while waiting.
pub enum TaskInput {
    /// The consumer asked the task to stop.
    Shutdown,
    /// The notification subsystem reported a filesystem change.
    FileEvent(WatchEvent),
    /// The notification subsystem failed; the text describes how.
    WatcherFailure(String),
    /// The event source closed: no event will ever arrive again.
    WatcherClosed,
}

/// What the caller has to do in reaction to an input.
#[derive(Debug, PartialEq, Eq)]
pub enum Directive {
    /// Nothing: wait for the next input.
    Ignore,
    /// Run one read cycle on the tailed file.
    ReadFile,
    /// Forward this error to the consumer; the task is closed.
    Deliver(Error),
}

/// How the task reacts to one input: the phase it moves to and the work the
/// caller must do. Only a relevant event in the watching phase triggers a
/// read; a watcher failure is forwarded and fatal; a shutdown request or a
/// closed event source ends the task silently; a closed task reacts to
/// nothing.
pub open spec fn step_spec(phase: Phase, input: TaskInput, file_name: Seq<char>) -> (
    Phase,
    Directive,
) {
    match phase {
        Phase::Closed => (Phase::Closed, Directive::Ignore),
        Phase::Watching => match input {
            TaskInput::Shutdown => (Phase::Closed, Directive::Ignore),
            TaskInput::FileEvent(event) => if relevant_spec(event.paths.deep_view(), file_name) {
                (Phase::Watching, Directive::ReadFile)
            } else {
                (Phase::Watching, Directive::Ignore)
            },
            TaskInput::WatcherFailure(message) => (
                Phase::Closed,
                Directive::Deliver(Error::Watcher { message }),
            ),
            TaskInput::WatcherClosed => (Phase::Closed, Directive::Ignore),
        },
    }
}

/// How the task reacts to the outcome of a read cycle: a batch is forwarded
/// and watching goes on, an empty cycle is silent, a read error is forwarded
/// and fatal. A closed task forwards nothing.
pub open spec fn read_outcome_spec(
    phase: Phase,
    outcome: Result<Option<Vec<String>>, Error>,
) -> (Phase, Option<Result<Vec<String>, Error>>) {
    match phase {
        Phase::Closed => (Phase::Closed, None),
        Phase::Watching => match outcome {
            Ok(None) => (Phase::Watching, None),
            Ok(Some(batch)) => (Phase::Watching, Some(Ok(batch))),
            Err(error) => (Phase::Closed, Some(Err(error))),
        },
    }
}

/// The state machine of one background task.
pub struct Orchestrator {
    /// Where the task stands in its lifecycle.
    pub phase: Phase,
    /// The file name events are filtered on.
    pub file_name: String,
}

impl Orchestrator {
    /// A task that starts out watching for events about `file_name`.
    pub fn new(file_name: String) -> (task: Self)
        ensures
            task.phase == Phase::Watching,
            task.file_name == file_name,
    {
        Orchestrator { phase: Phase::Watching, file_name }
    }

    /// Reacts to one input, as `step_spec` lays down.
    pub fn on_input(&mut self, input: TaskInput) -> (directive: Directive)
        ensures
            final(self).file_name == old(self).file_name,
            (final(self).phase, directive) == step_spec(
                old(self).phase,
                input,
                old(self).file_name@,
            ),
    {
        match self.phase {
            Phase::Closed => Directive::Ignore,
            Phase::Watching => match input {
                TaskInput::Shutdown => {
                    self.phase = Phase::Closed;
                    Directive::Ignore
                },
                TaskInput::FileEvent(event) => {
                    if is_event_relevant_to_file(&event, self.file_name.as_str()) {
                        Directive::ReadFile
                    } else {
                        Directive::Ignore
                    }
                },
                TaskInput::WatcherFailure(message) => {
                    self.phase = Phase::Closed;
                    Directive::Deliver(Error::Watcher { message })
                },
                TaskInput::WatcherClosed => {
                    self.phase = Phase::Closed;
                    Directive::Ignore
                },
            },
        }
    }

    /// Reacts to the outcome of a read cycle, as `read_outcome_spec` lays
    /// down: the returned value, if any, is what the consumer receives next.
    pub fn on_read_outcome(&mut self, outcome: Result<Option<Vec<String>>, Error>) -> (forward:
        Option<Result<Vec<String>, Error>>)
        ensures
            final(self).file_name == old(self).file_name,
            (final(self).phase, forward) == read_outcome_spec(old(self).phase, outcome),
    {
        match self.phase {
            Phase::Closed => None,
            Phase::Watching => match outcome {
                Ok(None) => None,
                Ok(Some(batch)) => Some(Ok(batch)),
                Err(error) => {
                    self.phase = Phase::Closed;
                    Some(Err(error))
                },
            },
        }
    }
}

/// A closed task is terminal: no input changes its phase or produces any
/// work, so disposal is idempotent and nothing follows termination.
pub proof fn law_closed_is_terminal(input: TaskInput, file_name: Seq<char>)
    ensures
        step_spec(Phase::Closed, input, file_name) == (Phase::Closed, Directive::Ignore),
{
}

/// A shutdown request closes a watching task at once and produces no further
/// output.
pub proof fn law_shutdown_closes(file_name: Seq<char>)
    ensures
        step_spec(Phase::Watching, TaskInput::Shutdown, file_name) == (
            Phase::Closed,
            Directive::Ignore,
        ),
{
}

/// An event that does not concern the tailed file triggers nothing: the task
/// keeps watching and no read happens.
pub proof fn law_irrelevant_event_ignored(event: WatchEvent, file_name: Seq<char>)
    requires
        !relevant_spec(event.paths.deep_view(), file_name),
    ensures
        step_spec(Phase::Watching, TaskInput::FileEvent(event), file_name) == (
            Phase::Watching,
            Directive::Ignore,
        ),
{
}

} // verus!
