//! The order of a run, from the start of its machine on.
use vstd::prelude::*;

verus! {

/// A step of a run.
#[derive(Debug, Clone, Copy, PartialEq, Eq, Structural)]
pub enum RunStep {
    /// Start the machine.
    Boot,
    /// Note a machine that goes with its command, so that it is found if it is left
    /// behind.
    Register,
    /// Connect to the machine's agent.
    Connect,
    /// Pull the image.
    Pull,
    /// Read the secrets.
    Secrets,
    /// Run the first steps.
    Init,
    /// Run the command, or start it in the background.
    Workload,
    /// Keep a record of the machine.
    Persist,
    /// Tell how to reach the machine, and leave it.
    Announce,
    /// Remove the machine, and end with the command's status.
    TearDown,
    /// Forget the machine and kill it, then report the failure.
    Discard,
    /// Stop the machine, then report the failure.
    StopAndFail,
    /// Report the failure.
    Fail,
}

/// A run while it goes on.
#[derive(Debug, Clone, Copy, PartialEq, Eq, Structural)]
pub struct RunProgress {
    pub step: RunStep,
    /// The machine stays behind the command.
    pub detach: bool,
    /// The machine runs an image.
    pub has_image: bool,
    /// The image has to be pulled.
    pub pulls: bool,
    /// There are first steps.
    pub has_init: bool,
    /// The machine was not running before.
    pub fresh: bool,
}

impl RunProgress {
    /// The step after one that did or did not work.
    pub open spec fn next_step(self, ok: bool) -> Option<RunStep> {
        match self.step {
            RunStep::Boot => Some(if !ok {
                RunStep::Fail
            } else if self.detach {
                RunStep::Connect
            } else {
                RunStep::Register
            }),
            RunStep::Register => Some(RunStep::Connect),
            RunStep::Connect => Some(if !ok {
                RunStep::Fail
            } else if self.pulls {
                RunStep::Pull
            } else {
                RunStep::Secrets
            }),
            RunStep::Pull => Some(if !ok {
                RunStep::Fail
            } else {
                RunStep::Secrets
            }),
            RunStep::Secrets => Some(if !ok {
                RunStep::Fail
            } else if self.fresh && self.has_init {
                RunStep::Init
            } else {
                RunStep::Workload
            }),
            RunStep::Init => Some(if !ok {
                RunStep::Discard
            } else {
                RunStep::Workload
            }),
            RunStep::Workload => Some(if !ok {
                RunStep::Fail
            } else if self.detach {
                RunStep::Persist
            } else {
                RunStep::TearDown
            }),
            RunStep::Persist => Some(if ok {
                RunStep::Announce
            } else if self.has_image {
                RunStep::StopAndFail
            } else {
                RunStep::Fail
            }),
            RunStep::Announce | RunStep::TearDown | RunStep::Discard | RunStep::StopAndFail
            | RunStep::Fail => None,
        }
    }

    /// The run after a step that did or did not work; none after the last.
    pub open spec fn after(self, ok: bool) -> Option<RunProgress> {
        match self.next_step(ok) {
            Some(step) => Some(RunProgress { step, ..self }),
            None => None,
        }
    }

    /// A run begins with its machine. Whether the machine was running before is known
    /// only then.
    pub fn start(detach: bool, has_image: bool, packed_layers: bool, has_init: bool) -> (r: Self)
        ensures
            r == (RunProgress {
                step: RunStep::Boot,
                detach,
                has_image,
                pulls: has_image && !packed_layers,
                has_init,
                fresh: true,
            }),
    {
        RunProgress {
            step: RunStep::Boot,
            detach,
            has_image,
            pulls: has_image && !packed_layers,
            has_init,
            fresh: true,
        }
    }

    /// Notes whether the machine was started by this run.
    pub fn booted(self, fresh: bool) -> (r: Self)
        ensures
            r == (RunProgress { fresh, ..self }),
    {
        RunProgress {
            step: self.step,
            detach: self.detach,
            has_image: self.has_image,
            pulls: self.pulls,
            has_init: self.has_init,
            fresh,
        }
    }

    /// The run after a step that did or did not work; none after the last.
    pub fn advance(self, ok: bool) -> (r: Option<RunProgress>)
        ensures
            r == self.after(ok),
    {
        let step = match self.step {
            RunStep::Boot => if !ok {
                RunStep::Fail
            } else if self.detach {
                RunStep::Connect
            } else {
                RunStep::Register
            },
            RunStep::Register => RunStep::Connect,
            RunStep::Connect => if !ok {
                RunStep::Fail
            } else if self.pulls {
                RunStep::Pull
            } else {
                RunStep::Secrets
            },
            RunStep::Pull => if !ok {
                RunStep::Fail
            } else {
                RunStep::Secrets
            },
            RunStep::Secrets => if !ok {
                RunStep::Fail
            } else if self.fresh && self.has_init {
                RunStep::Init
            } else {
                RunStep::Workload
            },
            RunStep::Init => if !ok {
                RunStep::Discard
            } else {
                RunStep::Workload
            },
            RunStep::Workload => if !ok {
                RunStep::Fail
            } else if self.detach {
                RunStep::Persist
            } else {
                RunStep::TearDown
            },
            RunStep::Persist => if ok {
                RunStep::Announce
            } else if self.has_image {
                RunStep::StopAndFail
            } else {
                RunStep::Fail
            },
            RunStep::Announce | RunStep::TearDown | RunStep::Discard | RunStep::StopAndFail
            | RunStep::Fail => {
                return None;
            },
        };
        Some(
            RunProgress {
                step,
                detach: self.detach,
                has_image: self.has_image,
                pulls: self.pulls,
                has_init: self.has_init,
                fresh: self.fresh,
            },
        )
    }
}

/// Where a run stands after outcomes of its steps.
pub open spec fn run_after(start: RunProgress, outcomes: Seq<bool>) -> Option<RunProgress>
    decreases outcomes.len(),
{
    if outcomes.len() == 0 {
        Some(start)
    } else {
        match run_after(start, outcomes.drop_last()) {
            Some(s) => s.after(outcomes.last()),
            None => None,
        }
    }
}

/// A step before the command, or the command.
pub open spec fn up_to_workload(step: RunStep) -> bool {
    step == RunStep::Boot || step == RunStep::Connect || step == RunStep::Pull || step
        == RunStep::Secrets || step == RunStep::Init || step == RunStep::Workload
}

proof fn lemma_run_after(start: RunProgress, outcomes: Seq<bool>)
    requires
        start.step == RunStep::Boot,
    ensures
        run_after(start, outcomes) matches Some(s) ==> {
            &&& s == (RunProgress { step: s.step, ..start })
            &&& s.detach && (up_to_workload(s.step) || s.step == RunStep::Persist) ==> forall|i:
                int| 0 <= i < outcomes.len() ==> #[trigger] outcomes[i]
            &&& !s.detach ==> s.step != RunStep::Persist && s.step != RunStep::Announce && s.step
                != RunStep::StopAndFail
            &&& s.detach ==> s.step != RunStep::Register && s.step != RunStep::TearDown
        },
    decreases outcomes.len(),
{
    if outcomes.len() > 0 {
        let front = outcomes.drop_last();
        lemma_run_after(start, front);
        match run_after(start, front) {
            Some(s) => {
                match s.after(outcomes.last()) {
                    Some(t) => {
                        if t.detach && (up_to_workload(t.step) || t.step == RunStep::Persist) {
                            assert forall|i: int| 0 <= i < outcomes.len() implies #[trigger] outcomes[i] by {
                                if i < front.len() {
                                    assert(front[i] == outcomes[i]);
                                }
                            }
                        }
                    },
                    None => {},
                }
            },
            None => {},
        }
    }
}

/// A record of a machine is written only when everything before it worked, its
/// command included, so that a run that failed can be tried again under the same
/// name; and a machine that goes with its command leaves none.
pub proof fn law_record_is_written_last(start: RunProgress, outcomes: Seq<bool>)
    requires
        start.step == RunStep::Boot,
        run_after(start, outcomes) is Some,
        run_after(start, outcomes)->Some_0.step == RunStep::Persist,
    ensures
        start.detach,
        forall|i: int| 0 <= i < outcomes.len() ==> #[trigger] outcomes[i],
        outcomes.len() > 0,
        run_after(start, outcomes.drop_last()) is Some,
        run_after(start, outcomes.drop_last())->Some_0.step == RunStep::Workload,
{
    lemma_run_after(start, outcomes);
}

/// Every run ends: it has at most nine steps.
pub proof fn law_run_ends(start: RunProgress, outcomes: Seq<bool>)
    requires
        start.step == RunStep::Boot,
        outcomes.len() > 8,
    ensures
        run_after(start, outcomes) is None,
{
    lemma_run_depth(start, outcomes);
}

spec fn depth(step: RunStep) -> int {
    match step {
        RunStep::Boot => 0,
        RunStep::Register => 1,
        RunStep::Connect => 2,
        RunStep::Pull => 3,
        RunStep::Secrets => 4,
        RunStep::Init => 5,
        RunStep::Workload => 6,
        RunStep::Persist => 7,
        _ => 8,
    }
}

proof fn lemma_run_depth(start: RunProgress, outcomes: Seq<bool>)
    requires
        start.step == RunStep::Boot,
    ensures
        run_after(start, outcomes) matches Some(s) ==> depth(s.step) >= outcomes.len(),
    decreases outcomes.len(),
{
    if outcomes.len() > 0 {
        lemma_run_depth(start, outcomes.drop_last());
    }
}

} // verus!
