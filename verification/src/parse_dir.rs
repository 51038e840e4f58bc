//! What to do with a directory of a record that is named by a number: a PID directory or an exec
//! epoch directory.

use crate::counts;
use crate::counts::add_count;
use crate::error;
use crate::error::{io_err, wrap_err, ProbeError};
use crate::filename;
use crate::filename::filename_numeric;
use crate::text;
use crate::text::decimal_string;
use vstd::prelude::*;

verus! {

/// The kind of a directory.
#[derive(Debug, Clone, Copy, PartialEq, Eq, Structural)]
pub enum Level {
    /// A PID directory, which holds exec epoch directories.
    Pid,
    /// An exec epoch directory, which holds TID directories.
    ExecEpoch,
}

impl Level {
    /// The heading of an error in the directory's name.
    pub fn name_context(self) -> (res: &'static str)
        returns
            self.spec_name_context(),
    {
        match self {
            Level::Pid => "Error parsing numeric pid",
            Level::ExecEpoch => "Error parsing numeric epoch",
        }
    }

    /// The heading of an error in the directory's name.
    pub open spec fn spec_name_context(self) -> &'static str {
        match self {
            Level::Pid => "Error parsing numeric pid",
            Level::ExecEpoch => "Error parsing numeric epoch",
        }
    }

    /// The heading of a failure to create the output directory.
    pub open spec fn spec_create_context(self) -> &'static str {
        match self {
            Level::Pid => "Failed to create PID directory",
            Level::ExecEpoch => "Failed to create ExecEpoch output directory",
        }
    }

    /// The heading of a failure to create the output directory.
    pub fn create_context(self) -> (res: &'static str)
        returns
            self.spec_create_context(),
    {
        match self {
            Level::Pid => "Failed to create PID directory",
            Level::ExecEpoch => "Failed to create ExecEpoch output directory",
        }
    }

    /// The heading of a failure to open the directory.
    pub open spec fn spec_open_context(self) -> &'static str {
        match self {
            Level::Pid => "Error opening PID directory",
            Level::ExecEpoch => "Error opening ExecEpoch directory",
        }
    }

    /// The heading of a failure to open the directory.
    pub fn open_context(self) -> (res: &'static str)
        returns
            self.spec_open_context(),
    {
        match self {
            Level::Pid => "Error opening PID directory",
            Level::ExecEpoch => "Error opening ExecEpoch directory",
        }
    }

    /// The heading of a failure to read the next entry of the directory.
    pub open spec fn spec_entry_context(self) -> &'static str {
        match self {
            Level::Pid => "Error reading DirEntry from PID directory",
            Level::ExecEpoch => "Error reading DirEntry from ExecEpoch directory",
        }
    }

    /// The heading of a failure to read the next entry of the directory.
    pub fn entry_context(self) -> (res: &'static str)
        returns
            self.spec_entry_context(),
    {
        match self {
            Level::Pid => "Error reading DirEntry from PID directory",
            Level::ExecEpoch => "Error reading DirEntry from ExecEpoch directory",
        }
    }
}

/// What the last action was, and so what the next event is about.
#[derive(Debug, Clone, Copy, PartialEq, Eq, Structural)]
pub enum DirPhase {
    Creating,
    Opening,
    Reading,
    Descending,
    Finished,
}

/// The outcome of an action.
pub enum DirEvent {
    /// Of `DirAction::CreateOutput`.
    Created(Result<(), String>),
    /// Of `DirAction::Open`.
    Opened(Result<(), String>),
    /// Of `DirAction::NextEntry`: the path of the next entry, or the end.
    Entry(Option<Result<Vec<u8>, String>>),
    /// Of `DirAction::Descend`: the number of ops in the subdirectory.
    Transcribed(Result<usize, ProbeError>),
}

/// What to do next.
pub enum DirAction {
    /// Create a directory of this name in the output directory.
    CreateOutput(String),
    /// Open the directory.
    Open,
    /// Read the next entry of the directory.
    NextEntry,
    /// Transcribe the subdirectory at this path into the new output directory.
    Descend(Vec<u8>),
    /// Return.
    Done(Result<usize, ProbeError>),
}

/// The transcription of a directory.
#[derive(Debug, Clone, Copy, PartialEq, Eq, Structural)]
pub struct ParseDir {
    pub level: Level,
    pub phase: DirPhase,
    /// The number of ops in the subdirectories transcribed so far.
    pub total: usize,
}

impl ParseDir {
    /// The transcription waits for this kind of event.
    pub open spec fn expects(self, event: DirEvent) -> bool {
        match event {
            DirEvent::Created(_) => self.phase == DirPhase::Creating,
            DirEvent::Opened(_) => self.phase == DirPhase::Opening,
            DirEvent::Entry(_) => self.phase == DirPhase::Reading,
            DirEvent::Transcribed(_) => self.phase == DirPhase::Descending,
        }
    }

    /// The transcription in phase `phase`.
    pub open spec fn in_phase(self, phase: DirPhase) -> ParseDir {
        ParseDir { phase, ..self }
    }

    /// The end of the transcription with the error `e`.
    pub open spec fn failed(self, e: ProbeError) -> (ParseDir, DirAction) {
        (self.in_phase(DirPhase::Finished), DirAction::Done(Err(e)))
    }

    /// Where the transcription goes on an event, and what to do there.
    pub open spec fn after(self, event: DirEvent) -> (ParseDir, DirAction) {
        match event {
            DirEvent::Created(Err(reason)) => self.failed(
                error::io_failure(self.level.spec_create_context(), reason),
            ),
            DirEvent::Created(Ok(_)) => (self.in_phase(DirPhase::Opening), DirAction::Open),
            DirEvent::Opened(Err(reason)) => self.failed(
                error::io_failure(self.level.spec_open_context(), reason),
            ),
            DirEvent::Opened(Ok(_)) => (self.in_phase(DirPhase::Reading), DirAction::NextEntry),
            DirEvent::Entry(None) => (
                self.in_phase(DirPhase::Finished),
                DirAction::Done(Ok(self.total)),
            ),
            DirEvent::Entry(Some(Err(reason))) => self.failed(
                error::io_failure(self.level.spec_entry_context(), reason),
            ),
            DirEvent::Entry(Some(Ok(path))) => (
                self.in_phase(DirPhase::Descending),
                DirAction::Descend(path),
            ),
            DirEvent::Transcribed(Err(e)) => self.failed(e),
            DirEvent::Transcribed(Ok(n)) => (
                ParseDir {
                    phase: DirPhase::Reading,
                    total: (self.total + n) as usize,
                    ..self
                },
                DirAction::NextEntry,
            ),
        }
    }

    /// Begins the transcription of the directory at `path`.
    pub fn start(level: Level, path: &[u8]) -> (res: (Self, DirAction))
        ensures
            res.0.level == level,
            res.0.total == 0,
            match filename::numeric_name(path@) {
                Ok(number) => {
                    &&& res.0.phase == DirPhase::Creating
                    &&& res.1 matches DirAction::CreateOutput(name) && name@ == text::decimal(
                        number as nat,
                    )
                },
                Err(e) => {
                    &&& res.0.phase == DirPhase::Finished
                    &&& res.1 == DirAction::Done(
                        Err(error::in_context(level.spec_name_context(), e)),
                    )
                },
            },
    {
        match wrap_err(filename_numeric(path), level.name_context()) {
            Ok(number) => (
                ParseDir { level, phase: DirPhase::Creating, total: 0 },
                DirAction::CreateOutput(decimal_string(number)),
            ),
            Err(e) => (
                ParseDir { level, phase: DirPhase::Finished, total: 0 },
                DirAction::Done(Err(e)),
            ),
        }
    }

    /// Goes on after the outcome of the last action.
    pub fn step(&mut self, event: DirEvent) -> (res: DirAction)
        requires
            old(self).expects(event),
            event matches DirEvent::Transcribed(Ok(n)) ==> old(self).total + n <= usize::MAX,
        ensures
            (*final(self), res) == old(self).after(event),
    {
        match event {
            DirEvent::Created(Err(reason)) => self.fail(
                io_err(self.level.create_context(), reason),
            ),
            DirEvent::Created(Ok(_)) => {
                self.phase = DirPhase::Opening;
                DirAction::Open
            },
            DirEvent::Opened(Err(reason)) => self.fail(io_err(self.level.open_context(), reason)),
            DirEvent::Opened(Ok(_)) => {
                self.phase = DirPhase::Reading;
                DirAction::NextEntry
            },
            DirEvent::Entry(None) => {
                self.phase = DirPhase::Finished;
                DirAction::Done(Ok(self.total))
            },
            DirEvent::Entry(Some(Err(reason))) => self.fail(
                io_err(self.level.entry_context(), reason),
            ),
            DirEvent::Entry(Some(Ok(path))) => {
                self.phase = DirPhase::Descending;
                DirAction::Descend(path)
            },
            DirEvent::Transcribed(count) => match add_count(self.total, count) {
                Ok(total) => {
                    self.total = total;
                    self.phase = DirPhase::Reading;
                    DirAction::NextEntry
                },
                Err(e) => self.fail(e),
            },
        }
    }

    /// Ends the transcription with the error `e`.
    fn fail(&mut self, e: ProbeError) -> (res: DirAction)
        ensures
            (*final(self), res) == old(self).failed(e),
    {
        self.phase = DirPhase::Finished;
        DirAction::Done(Err(e))
    }
}

/// The path of a subdirectory, and what its transcription returns.
pub type Child = (Vec<u8>, Result<usize, ProbeError>);

/// What is done last with the subdirectories `children`, one after the other, from `state` on.
pub open spec fn visit(state: ParseDir, children: Seq<Child>) -> DirAction
    decreases children.len(),
{
    if children.len() == 0 {
        state.after(DirEvent::Entry(None)).1
    } else {
        let (descending, _) = state.after(DirEvent::Entry(Some(Ok(children[0].0))));
        let (next, action) = descending.after(DirEvent::Transcribed(children[0].1));
        if action is Done {
            action
        } else {
            visit(next, children.drop_first())
        }
    }
}

/// The counts of the subdirectories.
pub open spec fn child_counts(children: Seq<Child>) -> Seq<Result<usize, ProbeError>> {
    children.map_values(|child: Child| child.1)
}

/// The transcription of a directory returns the number of ops in all its subdirectories, or the
/// first error among them; after an error no further subdirectory is visited.
pub proof fn law_directory_total(state: ParseDir, children: Seq<Child>)
    requires
        state.phase == DirPhase::Reading,
        counts::total(child_counts(children)) matches Ok(n) ==> state.total + n <= usize::MAX,
    ensures
        visit(state, children) == DirAction::Done(
            match counts::total(child_counts(children)) {
                Ok(n) => Ok((state.total + n) as usize),
                Err(e) => Err(e),
            },
        ),
    decreases children.len(),
{
    if children.len() > 0 {
        let rest = children.drop_first();
        assert(child_counts(children).drop_first() =~= child_counts(rest));
        if let Ok(n) = children[0].1 {
            let next = ParseDir { total: (state.total + n) as usize, ..state };
            law_directory_total(next, rest);
        }
    }
}

/// The states and actions that follow one upon another as long as each event is one that is waited
/// for.
pub open spec fn trace(state: ParseDir, events: Seq<DirEvent>) -> Seq<(ParseDir, DirAction)>
    decreases events.len(),
{
    if events.len() == 0 || !state.expects(events[0]) {
        seq![]
    } else {
        seq![state.after(events[0])] + trace(state.after(events[0]).0, events.drop_first())
    }
}

/// What happens while a directory with these subdirectories is read: each is listed and then
/// transcribed, and the listing ends.
pub open spec fn reading_events(children: Seq<Child>) -> Seq<DirEvent> {
    Seq::new(
        2 * children.len() + 1,
        |i: int|
            if i == 2 * children.len() {
                DirEvent::Entry(None)
            } else if i % 2 == 0 {
                DirEvent::Entry(Some(Ok(children[i / 2].0)))
            } else {
                DirEvent::Transcribed(children[i / 2].1)
            },
    )
}

/// Every subdirectory is visited, once and in the order of the listing, up to and with the first
/// that fails; `ok` is the number of those before it. What is returned is the number of ops in all
/// of them, or the error of the one that failed.
#[verifier::spinoff_prover]
#[verifier::rlimit(30)]
pub proof fn law_subdirectories_visited(state: ParseDir, children: Seq<Child>, ok: int)
    requires
        state.phase == DirPhase::Reading,
        0 <= ok <= children.len(),
        forall|i: int| 0 <= i < ok ==> (#[trigger] children[i]).1 is Ok,
        ok < children.len() ==> children[ok].1 is Err,
        counts::total(child_counts(children)) matches Ok(n) ==> state.total + n <= usize::MAX,
    ensures
        ({
            let steps = trace(state, reading_events(children));
            &&& steps.len() == (if ok < children.len() {
                2 * ok + 2
            } else {
                2 * ok + 1
            })
            &&& forall|i: int|
                #![trigger children[i]]
                0 <= i < children.len() && i <= ok ==> steps[2 * i].1 == DirAction::Descend(
                    children[i].0,
                )
            &&& forall|i: int|
                #![trigger children[i]]
                0 <= i < children.len() && i <= ok ==> steps[2 * i + 1].1 == (match children[i].1 {
                    Ok(_) => DirAction::NextEntry,
                    Err(e) => DirAction::Done(Err(e)),
                })
            &&& ok == children.len() ==> steps.last().1 == DirAction::Done(
                Ok((state.total + counts::total(child_counts(children))->Ok_0) as usize),
            )
        }),
    decreases children.len(),
{
    let events = reading_events(children);
    let steps = trace(state, events);
    if children.len() == 0 {
        assert(events.drop_first() =~= seq![]);
        reveal_with_fuel(trace, 2);
    } else {
        let rest = children.drop_first();
        let descending = state.after(events[0]).0;
        assert(events[0] == DirEvent::Entry(Some(Ok(children[0].0))));
        assert(events.drop_first()[0] == DirEvent::Transcribed(children[0].1));
        assert(events.drop_first().drop_first() =~= reading_events(rest));
        assert(child_counts(children).drop_first() =~= child_counts(rest));
        reveal_with_fuel(trace, 3);
        if let Ok(n) = children[0].1 {
            assert(ok > 0) by {
                assert(children[0].1 is Ok);
            }
            counts::law_first_error_counts(child_counts(children));
            let next = descending.after(DirEvent::Transcribed(children[0].1)).0;
            assert(rest.len() == children.len() - 1);
            assert forall|i: int| 0 <= i < ok - 1 implies (#[trigger] rest[i]).1 is Ok by {
                assert(children[i + 1].1 is Ok);
            }
            if ok == children.len() {
                assert forall|i: int| 0 <= i < children.len() implies (#[trigger] child_counts(
                    children,
                )[i]) is Ok by {
                    assert(children[i].1 is Ok);
                }
            }
            law_subdirectories_visited(next, rest, ok - 1);
            let later = trace(next, reading_events(rest));
            assert(steps =~= seq![
                state.after(events[0]),
                descending.after(DirEvent::Transcribed(children[0].1)),
            ] + later);
            assert forall|i: int|
                #![trigger children[i]]
                0 <= i < children.len() && i <= ok implies steps[2 * i].1 == DirAction::Descend(
                children[i].0,
            ) by {
                if i > 0 {
                    assert(rest[i - 1] == children[i]);
                    assert(steps[2 * i] == later[2 * (i - 1)]);
                }
            }
            assert forall|i: int|
                #![trigger children[i]]
                0 <= i < children.len() && i <= ok implies steps[2 * i + 1].1 == (
            match children[i].1 {
                Ok(_) => DirAction::NextEntry,
                Err(e) => DirAction::Done(Err(e)),
            }) by {
                if i > 0 {
                    assert(rest[i - 1] == children[i]);
                    assert(steps[2 * i + 1] == later[2 * (i - 1) + 1]);
                }
            }
            assert(steps.last() == later.last());
        } else {
            assert(ok == 0) by {
                if ok > 0 {
                    assert(children[0].1 is Ok);
                }
            }
            let ended = descending.after(DirEvent::Transcribed(children[0].1)).0;
            assert(trace(ended, reading_events(rest)) =~= seq![]);
            assert(steps =~= seq![
                state.after(events[0]),
                descending.after(DirEvent::Transcribed(children[0].1)),
            ]);
        }
    }
}

/// At every level an entry of the listing is descended into, and only the transcription of it is
/// waited for then; nothing else is ever descended into.
pub proof fn law_entry_descended(state: ParseDir, event: DirEvent)
    requires
        state.expects(event),
    ensures
        ({
            let (next, action) = state.after(event);
            &&& event matches DirEvent::Entry(Some(Ok(path))) ==> action == DirAction::Descend(path)
            &&& action matches DirAction::Descend(path) ==> event == DirEvent::Entry(Some(Ok(path)))
            &&& action is Descend <==> next.phase == DirPhase::Descending
            &&& action is Open <==> next.phase == DirPhase::Opening
            &&& action is NextEntry <==> next.phase == DirPhase::Reading
            &&& action is Done <==> next.phase == DirPhase::Finished
            &&& !(action is CreateOutput)
            &&& next.level == state.level
        }),
{
}

/// An output directory is created before the directory is opened, it is opened before it is read,
/// and it is read to its end, with one more count for each subdirectory that was transcribed.
pub proof fn law_directory_proceeds(state: ParseDir, path: Vec<u8>, count: usize)
    ensures
        state.expects(DirEvent::Created(Ok(()))) <==> state.phase == DirPhase::Creating,
        state.expects(DirEvent::Opened(Ok(()))) <==> state.phase == DirPhase::Opening,
        state.expects(DirEvent::Entry(None)) <==> state.phase == DirPhase::Reading,
        state.expects(DirEvent::Entry(Some(Ok(path)))) <==> state.phase == DirPhase::Reading,
        state.expects(DirEvent::Transcribed(Ok(count))) <==> state.phase == DirPhase::Descending,
        state.after(DirEvent::Created(Ok(()))).1 == DirAction::Open,
        state.after(DirEvent::Opened(Ok(()))).1 == DirAction::NextEntry,
        state.after(DirEvent::Transcribed(Ok(count))).1 == DirAction::NextEntry,
        state.after(DirEvent::Entry(None)).1 == DirAction::Done(Ok(state.total)),
        state.after(DirEvent::Created(Ok(()))).0.total == state.total,
        state.after(DirEvent::Opened(Ok(()))).0.total == state.total,
        state.after(DirEvent::Entry(Some(Ok(path)))).0.total == state.total,
        state.total + count <= usize::MAX ==> state.after(
            DirEvent::Transcribed(Ok(count)),
        ).0.total == state.total + count,
{
}

/// Every failure ends the transcription of a directory at once; it is returned with its reason,
/// under a heading that says what failed and at which level, and the error of a subdirectory is
/// returned as it is.
pub proof fn law_directory_fails(state: ParseDir, reason: String, e: ProbeError)
    ensures
        ({
            let pid = state.level == Level::Pid;
            let refused = |context: &'static str|
                DirAction::Done(
                    Err(
                        ProbeError::Context {
                            context,
                            inner: Box::new(ProbeError::IoError(reason)),
                        },
                    ),
                );
            &&& state.expects(DirEvent::Created(Err(reason))) <==> state.phase == DirPhase::Creating
            &&& state.expects(DirEvent::Opened(Err(reason))) <==> state.phase == DirPhase::Opening
            &&& state.expects(DirEvent::Entry(Some(Err(reason)))) <==> state.phase
                == DirPhase::Reading
            &&& state.expects(DirEvent::Transcribed(Err(e))) <==> state.phase
                == DirPhase::Descending
            &&& state.after(DirEvent::Created(Err(reason))).1 == refused(
                if pid {
                    "Failed to create PID directory"
                } else {
                    "Failed to create ExecEpoch output directory"
                },
            )
            &&& state.after(DirEvent::Opened(Err(reason))).1 == refused(
                if pid {
                    "Error opening PID directory"
                } else {
                    "Error opening ExecEpoch directory"
                },
            )
            &&& state.after(DirEvent::Entry(Some(Err(reason)))).1 == refused(
                if pid {
                    "Error reading DirEntry from PID directory"
                } else {
                    "Error reading DirEntry from ExecEpoch directory"
                },
            )
            &&& state.after(DirEvent::Transcribed(Err(e))).1 == DirAction::Done(Err(e))
            &&& state.level.spec_name_context() == (if pid {
                "Error parsing numeric pid"
            } else {
                "Error parsing numeric epoch"
            })
        }),
{
}

} // verus!
