//! What to do with a whole record: its options, its PID directories, its inodes.

use crate::error;
use crate::error::{io_err, ProbeError};
use vstd::prelude::*;

verus! {

/// The file of a log with the options the record was made with.
pub const OPTIONS_FILE: &'static str = "options.json";

/// What the last action was, and so what the next event is about.
#[derive(Debug, Clone, Copy, PartialEq, Eq, Structural)]
pub enum TopPhase {
    ReadingContext,
    WritingOptions,
    CreatingPids,
    OpeningPids,
    TranscribingPids,
    CreatingInodes,
    OpeningInodes,
    LinkingInodes,
    Finished,
}

/// The outcome of an action.
pub enum TopEvent {
    /// Of `TopAction::ReadContext`.
    ContextRead(Result<Vec<u8>, String>),
    /// Of every action that does something and returns nothing.
    Performed(Result<(), String>),
    /// Of `TopAction::TranscribePids`, the number of ops, or of `TopAction::LinkInodes`, the
    /// number of inodes.
    Counted(Result<usize, ProbeError>),
}

/// What to do next.
pub enum TopAction {
    /// Read the process tree context of the record.
    ReadContext,
    /// Write this process tree context as JSON to the options file of the log.
    WriteOptions(Vec<u8>),
    /// Create the directory for the PIDs in the log.
    CreatePids,
    /// Open the directory with the PIDs of the record.
    OpenPids,
    /// Transcribe every PID directory.
    TranscribePids,
    /// Create the directory for the inodes in the log.
    CreateInodes,
    /// Open the directory with the inodes of the record.
    OpenInodes,
    /// Link every inode into the log.
    LinkInodes,
    /// Return.
    Done(Result<usize, ProbeError>),
}

/// The transcription of a record.
#[derive(Debug, Clone, Copy, PartialEq, Eq, Structural)]
pub struct ParseTopLevel {
    pub phase: TopPhase,
    /// The number of ops in all PID directories, once they are transcribed.
    pub ops_count: usize,
}

impl ParseTopLevel {
    /// The transcription waits for this kind of event.
    pub open spec fn expects(self, event: TopEvent) -> bool {
        match event {
            TopEvent::ContextRead(_) => self.phase == TopPhase::ReadingContext,
            TopEvent::Performed(_) => self.phase == TopPhase::WritingOptions || self.phase
                == TopPhase::CreatingPids || self.phase == TopPhase::OpeningPids || self.phase
                == TopPhase::CreatingInodes || self.phase == TopPhase::OpeningInodes,
            TopEvent::Counted(_) => self.phase == TopPhase::TranscribingPids || self.phase
                == TopPhase::LinkingInodes,
        }
    }

    /// The transcription in phase `phase`, and what is to be done in it.
    pub open spec fn proceed(self, phase: TopPhase, action: TopAction) -> (
        ParseTopLevel,
        TopAction,
    ) {
        (ParseTopLevel { phase, ..self }, action)
    }

    /// The end of the transcription with the error `e`.
    pub open spec fn failed(self, e: ProbeError) -> (ParseTopLevel, TopAction) {
        self.proceed(TopPhase::Finished, TopAction::Done(Err(e)))
    }

    /// The failure of the action of the current phase.
    pub open spec fn failure(self, reason: String) -> ProbeError {
        match self.phase {
            TopPhase::CreatingPids => error::io_failure("Failed to create pids directory", reason),
            TopPhase::OpeningPids => error::io_failure("Error opening record directory", reason),
            TopPhase::CreatingInodes => error::io_failure(
                "Failed to create inodes directory",
                reason,
            ),
            TopPhase::OpeningInodes => error::io_failure("Error opening inodes directory", reason),
            _ => ProbeError::UnreachableCode,
        }
    }

    /// Where the transcription goes when the action of the current phase was performed.
    pub open spec fn performed(self) -> (ParseTopLevel, TopAction) {
        match self.phase {
            TopPhase::WritingOptions => self.proceed(TopPhase::CreatingPids, TopAction::CreatePids),
            TopPhase::CreatingPids => self.proceed(TopPhase::OpeningPids, TopAction::OpenPids),
            TopPhase::OpeningPids => self.proceed(
                TopPhase::TranscribingPids,
                TopAction::TranscribePids,
            ),
            TopPhase::CreatingInodes => self.proceed(
                TopPhase::OpeningInodes,
                TopAction::OpenInodes,
            ),
            _ => self.proceed(TopPhase::LinkingInodes, TopAction::LinkInodes),
        }
    }

    /// Where the transcription goes on an event, and what to do there.
    pub open spec fn after(self, event: TopEvent) -> (ParseTopLevel, TopAction) {
        match event {
            TopEvent::ContextRead(Err(_)) => self.failed(ProbeError::UnreachableCode),
            TopEvent::ContextRead(Ok(bytes)) => self.proceed(
                TopPhase::WritingOptions,
                TopAction::WriteOptions(bytes),
            ),
            TopEvent::Performed(Err(reason)) => self.failed(self.failure(reason)),
            TopEvent::Performed(Ok(_)) => self.performed(),
            TopEvent::Counted(Err(e)) => self.failed(e),
            TopEvent::Counted(Ok(count)) => if self.phase == TopPhase::TranscribingPids {
                (ParseTopLevel { ops_count: count, ..self }).proceed(
                    TopPhase::CreatingInodes,
                    TopAction::CreateInodes,
                )
            } else {
                self.proceed(TopPhase::Finished, TopAction::Done(Ok(self.ops_count)))
            },
        }
    }

    /// Begins the transcription of a record.
    pub fn start() -> (res: (Self, TopAction))
        ensures
            res == (
                ParseTopLevel { phase: TopPhase::ReadingContext, ops_count: 0 },
                TopAction::ReadContext,
            ),
    {
        (
            ParseTopLevel { phase: TopPhase::ReadingContext, ops_count: 0 },
            TopAction::ReadContext,
        )
    }

    /// Goes on after the outcome of the last action.
    pub fn step(&mut self, event: TopEvent) -> (res: TopAction)
        requires
            old(self).expects(event),
        ensures
            (*final(self), res) == old(self).after(event),
    {
        match event {
            TopEvent::ContextRead(Err(_)) => self.fail(ProbeError::UnreachableCode),
            TopEvent::ContextRead(Ok(bytes)) => {
                self.phase = TopPhase::WritingOptions;
                TopAction::WriteOptions(bytes)
            },
            TopEvent::Performed(Err(reason)) => {
                let e = match self.phase {
                    TopPhase::CreatingPids => io_err("Failed to create pids directory", reason),
                    TopPhase::OpeningPids => io_err("Error opening record directory", reason),
                    TopPhase::CreatingInodes => io_err("Failed to create inodes directory", reason),
                    TopPhase::OpeningInodes => io_err("Error opening inodes directory", reason),
                    _ => ProbeError::UnreachableCode,
                };
                self.fail(e)
            },
            TopEvent::Performed(Ok(_)) => {
                let (phase, action) = match self.phase {
                    TopPhase::WritingOptions => (TopPhase::CreatingPids, TopAction::CreatePids),
                    TopPhase::CreatingPids => (TopPhase::OpeningPids, TopAction::OpenPids),
                    TopPhase::OpeningPids => (
                        TopPhase::TranscribingPids,
                        TopAction::TranscribePids,
                    ),
                    TopPhase::CreatingInodes => (TopPhase::OpeningInodes, TopAction::OpenInodes),
                    _ => (TopPhase::LinkingInodes, TopAction::LinkInodes),
                };
                self.phase = phase;
                action
            },
            TopEvent::Counted(Err(e)) => self.fail(e),
            TopEvent::Counted(Ok(count)) => {
                if self.phase == TopPhase::TranscribingPids {
                    self.ops_count = count;
                    self.phase = TopPhase::CreatingInodes;
                    TopAction::CreateInodes
                } else {
                    self.phase = TopPhase::Finished;
                    TopAction::Done(Ok(self.ops_count))
                }
            },
        }
    }

    /// Ends the transcription with the error `e`.
    fn fail(&mut self, e: ProbeError) -> (res: TopAction)
        ensures
            (*final(self), res) == old(self).failed(e),
    {
        self.phase = TopPhase::Finished;
        TopAction::Done(Err(e))
    }
}

/// The path of an entry of the directory with the PIDs.
pub fn pid_entry(entry: Result<Vec<u8>, String>) -> (res: Result<Vec<u8>, ProbeError>)
    ensures
        match entry {
            Ok(path) => res == Ok::<Vec<u8>, ProbeError>(path),
            Err(reason) => res == Err::<Vec<u8>, ProbeError>(
                error::io_failure("Error reading DirEntry from record directory", reason),
            ),
        },
{
    match entry {
        Ok(path) => Ok(path),
        Err(reason) => Err(io_err("Error reading DirEntry from record directory", reason)),
    }
}

/// The name of an entry of the directory with the inodes.
pub fn inode_entry(entry: Result<Vec<u8>, String>) -> (res: Result<Vec<u8>, ProbeError>)
    ensures
        match entry {
            Ok(name) => res == Ok::<Vec<u8>, ProbeError>(name),
            Err(reason) => res == Err::<Vec<u8>, ProbeError>(
                error::io_failure("Error reading from inodes directory", reason),
            ),
        },
{
    match entry {
        Ok(name) => Ok(name),
        Err(reason) => Err(io_err("Error reading from inodes directory", reason)),
    }
}

/// One inode, if it could be linked.
pub fn inode_linked(linked: Result<(), String>) -> (res: Result<usize, ProbeError>)
    ensures
        match linked {
            Ok(_) => res == Ok::<usize, ProbeError>(1),
            Err(reason) => res == Err::<usize, ProbeError>(
                error::io_failure("Error hardlinking inode", reason),
            ),
        },
{
    match linked {
        Ok(_) => Ok(1),
        Err(reason) => Err(io_err("Error hardlinking inode", reason)),
    }
}

/// Where a series of events leads.
pub open spec fn run(state: ParseTopLevel, action: TopAction, events: Seq<TopEvent>) -> TopAction
    decreases events.len(),
{
    if events.len() == 0 || action is Done {
        action
    } else {
        let (state, action) = state.after(events[0]);
        run(state, action, events.drop_first())
    }
}

/// If everything succeeds, the transcription of a record returns the number of ops in its PID
/// directories, however many inodes there are.
pub proof fn law_record_total(context: Vec<u8>, ops: usize, inodes: usize)
    ensures
        run(
            ParseTopLevel { phase: TopPhase::ReadingContext, ops_count: 0 },
            TopAction::ReadContext,
            seq![
                TopEvent::ContextRead(Ok(context)),
                TopEvent::Performed(Ok(())),
                TopEvent::Performed(Ok(())),
                TopEvent::Performed(Ok(())),
                TopEvent::Counted(Ok(ops)),
                TopEvent::Performed(Ok(())),
                TopEvent::Performed(Ok(())),
                TopEvent::Counted(Ok(inodes)),
            ],
        ) == TopAction::Done(Ok(ops)),
{
    reveal_with_fuel(run, 9);
}

/// The event reports a failure.
pub open spec fn is_failure(event: TopEvent) -> bool {
    match event {
        TopEvent::ContextRead(res) => res is Err,
        TopEvent::Performed(res) => res is Err,
        TopEvent::Counted(res) => res is Err,
    }
}

/// The first failure ends the transcription of a record, whatever else might have happened.
pub proof fn law_failure_ends(
    state: ParseTopLevel,
    action: TopAction,
    event: TopEvent,
    rest: Seq<TopEvent>,
)
    requires
        is_failure(event),
        !(action is Done),
    ensures
        run(state, action, seq![event] + rest) matches TopAction::Done(Err(_)),
        run(state, action, seq![event] + rest) == state.after(event).1,
{
    reveal_with_fuel(run, 2);
    assert((seq![event] + rest)[0] == event);
}

/// The actions that follow one upon another as long as each event is one that is waited for.
pub open spec fn trace(state: ParseTopLevel, events: Seq<TopEvent>) -> Seq<TopAction>
    decreases events.len(),
{
    if events.len() == 0 || !state.expects(events[0]) {
        seq![]
    } else {
        seq![state.after(events[0]).1] + trace(state.after(events[0]).0, events.drop_first())
    }
}

/// What happens while a record is transcribed and nothing fails.
pub open spec fn successes(context: Vec<u8>, ops: usize, inodes: usize) -> Seq<TopEvent> {
    seq![
        TopEvent::ContextRead(Ok(context)),
        TopEvent::Performed(Ok(())),
        TopEvent::Performed(Ok(())),
        TopEvent::Performed(Ok(())),
        TopEvent::Counted(Ok(ops)),
        TopEvent::Performed(Ok(())),
        TopEvent::Performed(Ok(())),
        TopEvent::Counted(Ok(inodes)),
    ]
}

/// What is done with a record, behind reading its context, if nothing fails: the context that was
/// read becomes the options of the log, all PID directories are transcribed, all inodes are linked,
/// and the number of ops is returned.
#[verifier::spinoff_prover]
#[verifier::rlimit(30)]
pub proof fn law_record_actions(context: Vec<u8>, ops: usize, inodes: usize)
    ensures
        trace(
            ParseTopLevel { phase: TopPhase::ReadingContext, ops_count: 0 },
            successes(context, ops, inodes),
        ) == seq![
            TopAction::WriteOptions(context),
            TopAction::CreatePids,
            TopAction::OpenPids,
            TopAction::TranscribePids,
            TopAction::CreateInodes,
            TopAction::OpenInodes,
            TopAction::LinkInodes,
            TopAction::Done(Ok(ops)),
        ],
{
    reveal_with_fuel(trace, 9);
    let first = ParseTopLevel { phase: TopPhase::ReadingContext, ops_count: 0 };
    assert(trace(first, successes(context, ops, inodes)) =~= seq![
        TopAction::WriteOptions(context),
        TopAction::CreatePids,
        TopAction::OpenPids,
        TopAction::TranscribePids,
        TopAction::CreateInodes,
        TopAction::OpenInodes,
        TopAction::LinkInodes,
        TopAction::Done(Ok(ops)),
    ]);
}

/// A phase and the action whose outcome it waits for belong together, whatever happened before;
/// the options are those that were read, and the number of ops is the one that was counted.
pub proof fn law_record_answers(state: ParseTopLevel, event: TopEvent)
    requires
        state.expects(event),
    ensures
        ({
            let (next, action) = state.after(event);
            &&& match next.phase {
                TopPhase::ReadingContext => false,
                TopPhase::WritingOptions => action is WriteOptions,
                TopPhase::CreatingPids => action is CreatePids,
                TopPhase::OpeningPids => action is OpenPids,
                TopPhase::TranscribingPids => action is TranscribePids,
                TopPhase::CreatingInodes => action is CreateInodes,
                TopPhase::OpeningInodes => action is OpenInodes,
                TopPhase::LinkingInodes => action is LinkInodes,
                TopPhase::Finished => action is Done,
            }
            &&& event matches TopEvent::ContextRead(Ok(context)) ==> action
                == TopAction::WriteOptions(context)
            &&& action is Done <==> is_failure(event) || state.phase == TopPhase::LinkingInodes
            &&& action matches TopAction::Done(Ok(count)) ==> count == state.ops_count
            &&& next.ops_count == (if state.phase == TopPhase::TranscribingPids
                && !is_failure(event) {
                event->Counted_0->Ok_0
            } else {
                state.ops_count
            })
        }),
{
}

/// Each phase leads to the next if nothing fails, and none is left out.
pub proof fn law_record_phases(state: ParseTopLevel, event: TopEvent)
    requires
        state.expects(event),
        !is_failure(event),
    ensures
        state.after(event).0.phase == (match state.phase {
            TopPhase::ReadingContext => TopPhase::WritingOptions,
            TopPhase::WritingOptions => TopPhase::CreatingPids,
            TopPhase::CreatingPids => TopPhase::OpeningPids,
            TopPhase::OpeningPids => TopPhase::TranscribingPids,
            TopPhase::TranscribingPids => TopPhase::CreatingInodes,
            TopPhase::CreatingInodes => TopPhase::OpeningInodes,
            TopPhase::OpeningInodes => TopPhase::LinkingInodes,
            TopPhase::LinkingInodes => TopPhase::Finished,
            TopPhase::Finished => TopPhase::Finished,
        }),
{
}

/// Every phase but the last waits for one kind of outcome, good or bad.
pub proof fn law_record_waits(
    state: ParseTopLevel,
    context: Result<Vec<u8>, String>,
    done: Result<(), String>,
    count: Result<usize, ProbeError>,
)
    ensures
        state.expects(TopEvent::ContextRead(context)) <==> state.phase == TopPhase::ReadingContext,
        state.expects(TopEvent::Counted(count)) <==> (state.phase == TopPhase::TranscribingPids
            || state.phase == TopPhase::LinkingInodes),
        state.expects(TopEvent::Performed(done)) <==> !(state.phase == TopPhase::ReadingContext
            || state.phase == TopPhase::TranscribingPids || state.phase == TopPhase::LinkingInodes
            || state.phase == TopPhase::Finished),
{
}

/// A failure is returned with its reason under a heading that says what failed; a failure to read
/// the context or to write the options is not expected to happen, and an error of a part of the
/// record is returned as it is.
pub proof fn law_record_fails(state: ParseTopLevel, reason: String, e: ProbeError)
    ensures
        ({
            let refused = |context: &'static str|
                TopAction::Done(
                    Err(
                        ProbeError::Context {
                            context,
                            inner: Box::new(ProbeError::IoError(reason)),
                        },
                    ),
                );
            let failed = state.after(TopEvent::Performed(Err(reason))).1;
            &&& state.after(TopEvent::ContextRead(Err(reason))).1 == TopAction::Done(
                Err(ProbeError::UnreachableCode),
            )
            &&& state.after(TopEvent::Counted(Err(e))).1 == TopAction::Done(Err(e))
            &&& state.phase == TopPhase::WritingOptions ==> failed == TopAction::Done(
                Err(ProbeError::UnreachableCode),
            )
            &&& state.phase == TopPhase::CreatingPids ==> failed == refused(
                "Failed to create pids directory",
            )
            &&& state.phase == TopPhase::OpeningPids ==> failed == refused(
                "Error opening record directory",
            )
            &&& state.phase == TopPhase::CreatingInodes ==> failed == refused(
                "Failed to create inodes directory",
            )
            &&& state.phase == TopPhase::OpeningInodes ==> failed == refused(
                "Error opening inodes directory",
            )
        }),
{
}

} // verus!
