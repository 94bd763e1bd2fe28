//! The order in which a worker starts.
use vstd::prelude::*;

verus! {

/// A step of a worker's start.
#[derive(Debug, Clone, Copy, PartialEq, Eq, Structural)]
pub enum StartStep {
    /// Reserve the golden's addresses, as far as they are free.
    Reserve,
    /// Create the context, which takes addresses of its own.
    Context,
    /// Rebuild the golden's memory.
    Memory,
    /// Rebuild the golden's modules, graphs and library handles.
    Modules,
    /// Listen for further channels.
    Listen,
    /// Tell the machine that the worker is ready.
    Ready,
    /// Serve the first channel, then wait for the others.
    Serve,
    /// Tell the machine that the worker failed.
    Failed,
}

/// A worker's start while it goes on.
#[derive(Debug, Clone, Copy, PartialEq, Eq, Structural)]
pub struct WorkerStart {
    pub step: StartStep,
    /// There is memory to rebuild.
    pub has_layout: bool,
    /// There are modules to rebuild.
    pub has_modules: bool,
    /// There is a control channel.
    pub has_control: bool,
}

impl WorkerStart {
    /// The step after one that did or did not work. Without all of the addresses the
    /// memory is rebuilt as far as it can be; a machine that cannot be told learns of
    /// the worker when it is used.
    pub open spec fn next_step(self, ok: bool) -> Option<StartStep> {
        let listen = if self.has_control {
            StartStep::Listen
        } else {
            StartStep::Ready
        };
        let modules = if self.has_modules {
            StartStep::Modules
        } else {
            listen
        };
        match self.step {
            StartStep::Reserve => Some(StartStep::Context),
            StartStep::Context => Some(if self.has_layout {
                StartStep::Memory
            } else {
                modules
            }),
            StartStep::Memory => Some(if ok {
                modules
            } else {
                StartStep::Failed
            }),
            StartStep::Modules => Some(if ok {
                listen
            } else {
                StartStep::Failed
            }),
            StartStep::Listen => Some(if ok {
                StartStep::Ready
            } else {
                StartStep::Failed
            }),
            StartStep::Ready => Some(StartStep::Serve),
            StartStep::Serve | StartStep::Failed => None,
        }
    }

    /// The start after a step that did or did not work; none after the last.
    pub open spec fn after(self, ok: bool) -> Option<WorkerStart> {
        match self.next_step(ok) {
            Some(step) => Some(WorkerStart { step, ..self }),
            None => None,
        }
    }

    /// The first step: addresses are reserved only if there is memory to rebuild.
    pub fn start(has_layout: bool, has_modules: bool, has_control: bool) -> (r: Self)
        ensures
            r == (WorkerStart {
                step: if has_layout {
                    StartStep::Reserve
                } else {
                    StartStep::Context
                },
                has_layout,
                has_modules,
                has_control,
            }),
    {
        WorkerStart {
            step: if has_layout {
                StartStep::Reserve
            } else {
                StartStep::Context
            },
            has_layout,
            has_modules,
            has_control,
        }
    }

    /// The start after a step that did or did not work; none after the last.
    pub fn advance(self, ok: bool) -> (r: Option<WorkerStart>)
        ensures
            r == self.after(ok),
    {
        let listen = if self.has_control {
            StartStep::Listen
        } else {
            StartStep::Ready
        };
        let modules = if self.has_modules {
            StartStep::Modules
        } else {
            listen
        };
        let step = match self.step {
            StartStep::Reserve => StartStep::Context,
            StartStep::Context => if self.has_layout {
                StartStep::Memory
            } else {
                modules
            },
            StartStep::Memory => if ok {
                modules
            } else {
                StartStep::Failed
            },
            StartStep::Modules => if ok {
                listen
            } else {
                StartStep::Failed
            },
            StartStep::Listen => if ok {
                StartStep::Ready
            } else {
                StartStep::Failed
            },
            StartStep::Ready => StartStep::Serve,
            StartStep::Serve | StartStep::Failed => {
                return None;
            },
        };
        Some(
            WorkerStart {
                step,
                has_layout: self.has_layout,
                has_modules: self.has_modules,
                has_control: self.has_control,
            },
        )
    }
}

/// The steps that a start took, with their outcomes: the step at `i` is the one whose
/// outcome is `outcomes[i]`.
pub open spec fn start_at(first: WorkerStart, outcomes: Seq<bool>, i: int) -> Option<WorkerStart>
    decreases i,
{
    if i <= 0 {
        Some(first)
    } else {
        match start_at(first, outcomes, i - 1) {
            Some(s) => s.after(outcomes[i - 1]),
            None => None,
        }
    }
}

/// A step took place and worked before `n`.
pub open spec fn worked_before(
    first: WorkerStart,
    outcomes: Seq<bool>,
    n: int,
    step: StartStep,
) -> bool {
    exists|i: int|
        0 <= i < n && #[trigger] outcomes[i] && start_at(first, outcomes, i) is Some && start_at(
            first,
            outcomes,
            i,
        )->Some_0.step == step
}

/// What has worked by the time a step is reached.
spec fn reached(first: WorkerStart, outcomes: Seq<bool>, n: int, s: WorkerStart) -> bool {
    let memory = first.has_layout ==> worked_before(first, outcomes, n, StartStep::Memory);
    let modules = first.has_modules ==> worked_before(first, outcomes, n, StartStep::Modules);
    &&& s == (WorkerStart { step: s.step, ..first })
    &&& match s.step {
        StartStep::Reserve | StartStep::Context => true,
        StartStep::Memory => first.has_layout,
        StartStep::Modules => memory && first.has_modules,
        StartStep::Listen => memory && modules && first.has_control,
        StartStep::Ready | StartStep::Serve => memory && modules,
        StartStep::Failed => true,
    }
}

proof fn lemma_worked_longer(
    first: WorkerStart,
    outcomes: Seq<bool>,
    m: int,
    n: int,
    step: StartStep,
)
    requires
        m <= n,
        worked_before(first, outcomes, m, step),
    ensures
        worked_before(first, outcomes, n, step),
{
    let i = choose|i: int|
        0 <= i < m && #[trigger] outcomes[i] && start_at(first, outcomes, i) is Some && start_at(
            first,
            outcomes,
            i,
        )->Some_0.step == step;
    assert(outcomes[i]);
}

proof fn lemma_reached(first: WorkerStart, outcomes: Seq<bool>, n: int)
    requires
        first.step == StartStep::Reserve || first.step == StartStep::Context,
        0 <= n <= outcomes.len(),
    ensures
        start_at(first, outcomes, n) matches Some(s) ==> reached(first, outcomes, n, s),
    decreases n,
{
    if n > 0 {
        lemma_reached(first, outcomes, n - 1);
        match start_at(first, outcomes, n - 1) {
            Some(s) => {
                if worked_before(first, outcomes, n - 1, StartStep::Memory) {
                    lemma_worked_longer(first, outcomes, n - 1, n, StartStep::Memory);
                }
                if worked_before(first, outcomes, n - 1, StartStep::Modules) {
                    lemma_worked_longer(first, outcomes, n - 1, n, StartStep::Modules);
                }
                if outcomes[n - 1] {
                    assert(worked_before(first, outcomes, n, s.step));
                }
            },
            None => {},
        }
    }
}

/// A machine is told that its worker is ready only when all of the golden's memory and
/// modules that there are were rebuilt.
pub proof fn law_ready_means_rebuilt(first: WorkerStart, outcomes: Seq<bool>)
    requires
        first.step == StartStep::Reserve || first.step == StartStep::Context,
        start_at(first, outcomes, outcomes.len() as int) is Some,
        start_at(first, outcomes, outcomes.len() as int)->Some_0.step == StartStep::Ready,
    ensures
        first.has_layout ==> worked_before(
            first,
            outcomes,
            outcomes.len() as int,
            StartStep::Memory,
        ),
        first.has_modules ==> worked_before(
            first,
            outcomes,
            outcomes.len() as int,
            StartStep::Modules,
        ),
{
    lemma_reached(first, outcomes, outcomes.len() as int);
}

/// The context is created after the golden's addresses were reserved, so that it
/// cannot take them, and before anything is rebuilt in it.
pub proof fn law_addresses_before_context(s: WorkerStart, ok: bool)
    requires
        s.after(ok) is Some,
    ensures
        s.step == StartStep::Reserve ==> s.after(ok)->Some_0.step == StartStep::Context,
        s.after(ok)->Some_0.step == StartStep::Context ==> s.step == StartStep::Reserve,
        s.after(ok)->Some_0.step == StartStep::Memory ==> s.step == StartStep::Context,
{
}

} // verus!
