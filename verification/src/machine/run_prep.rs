//! The order of a run, up to the start of its machine.
use vstd::prelude::*;

verus! {

/// A step before a machine is started.
#[derive(Debug, Clone, Copy, PartialEq, Eq, Structural)]
pub enum PrepStep {
    /// Make sure that no machine has the name yet.
    Name,
    /// Look up the hosts that may be reached.
    Hosts,
    /// Build the parameters, with the configuration file behind the flags.
    Params,
    /// Read the secrets' flags.
    Secrets,
    /// See whether the image is a packed machine.
    Probe,
    /// See whether a cached layer is used, and make it.
    Layer,
    /// Read the volumes.
    Volumes,
    /// Make sure that no host port is mapped twice.
    Ports,
    /// Refuse what cannot be meant.
    Check,
    /// Make sure that the network can be had as it is asked for.
    Network,
    /// Find the SSH agent, if it is wanted.
    Agent,
    /// Resolve the image.
    Image,
    /// Start the machine.
    Boot,
    /// Run the packed machine instead.
    RunPacked,
    /// Report why not.
    Refused,
}

/// How a step came out.
#[derive(Debug, Clone, Copy, PartialEq, Eq, Structural)]
pub enum PrepOutcome {
    Done,
    /// There is a packed machine to run.
    Packed,
    Refused,
}

/// A run before its machine is started.
#[derive(Debug, Clone, Copy, PartialEq, Eq, Structural)]
pub struct RunPrep {
    pub step: PrepStep,
    /// There is an image.
    pub has_image: bool,
}

impl RunPrep {
    /// The step that follows where nothing is refused or packed.
    pub open spec fn onward(self) -> PrepStep {
        match self.step {
            PrepStep::Name => PrepStep::Hosts,
            PrepStep::Hosts => PrepStep::Params,
            PrepStep::Params => PrepStep::Secrets,
            PrepStep::Secrets => if self.has_image {
                PrepStep::Probe
            } else {
                PrepStep::Layer
            },
            PrepStep::Probe => PrepStep::Layer,
            PrepStep::Layer => PrepStep::Volumes,
            PrepStep::Volumes => PrepStep::Ports,
            PrepStep::Ports => PrepStep::Check,
            PrepStep::Check => PrepStep::Network,
            PrepStep::Network => PrepStep::Agent,
            PrepStep::Agent => PrepStep::Image,
            PrepStep::Image => PrepStep::Boot,
            PrepStep::Boot | PrepStep::RunPacked | PrepStep::Refused => self.step,
        }
    }

    /// The last step: nothing follows it.
    pub open spec fn settled(self) -> bool {
        self.step == PrepStep::Boot || self.step == PrepStep::RunPacked || self.step
            == PrepStep::Refused
    }

    /// The run after a step. A packed machine turns up only where one is looked for.
    pub open spec fn after(self, outcome: PrepOutcome) -> RunPrep {
        if self.settled() {
            self
        } else {
            RunPrep {
                step: match outcome {
                    PrepOutcome::Refused => PrepStep::Refused,
                    PrepOutcome::Packed => if self.step == PrepStep::Probe || self.step
                        == PrepStep::Layer {
                        PrepStep::RunPacked
                    } else {
                        self.onward()
                    },
                    PrepOutcome::Done => self.onward(),
                },
                ..self
            }
        }
    }

    /// The first step. `fresh` tells whether the name must be new.
    pub fn start(fresh: bool) -> (r: Self)
        ensures
            r == (RunPrep {
                step: if fresh {
                    PrepStep::Name
                } else {
                    PrepStep::Hosts
                },
                has_image: false,
            }),
    {
        RunPrep {
            step: if fresh {
                PrepStep::Name
            } else {
                PrepStep::Hosts
            },
            has_image: false,
        }
    }

    /// Notes whether there is an image, once the parameters are known.
    pub fn with_image(self, has_image: bool) -> (r: Self)
        ensures
            r == (RunPrep { has_image, ..self }),
    {
        RunPrep { step: self.step, has_image }
    }

    fn forth(self) -> (r: PrepStep)
        ensures
            r == self.onward(),
    {
        match self.step {
            PrepStep::Name => PrepStep::Hosts,
            PrepStep::Hosts => PrepStep::Params,
            PrepStep::Params => PrepStep::Secrets,
            PrepStep::Secrets => if self.has_image {
                PrepStep::Probe
            } else {
                PrepStep::Layer
            },
            PrepStep::Probe => PrepStep::Layer,
            PrepStep::Layer => PrepStep::Volumes,
            PrepStep::Volumes => PrepStep::Ports,
            PrepStep::Ports => PrepStep::Check,
            PrepStep::Check => PrepStep::Network,
            PrepStep::Network => PrepStep::Agent,
            PrepStep::Agent => PrepStep::Image,
            PrepStep::Image => PrepStep::Boot,
            PrepStep::Boot | PrepStep::RunPacked | PrepStep::Refused => self.step,
        }
    }

    /// The run after a step.
    pub fn advance(self, outcome: PrepOutcome) -> (r: RunPrep)
        ensures
            r == self.after(outcome),
    {
        match self.step {
            PrepStep::Boot | PrepStep::RunPacked | PrepStep::Refused => {
                return self;
            },
            _ => {},
        }
        let step = match outcome {
            PrepOutcome::Refused => PrepStep::Refused,
            PrepOutcome::Packed => match self.step {
                PrepStep::Probe | PrepStep::Layer => PrepStep::RunPacked,
                _ => self.forth(),
            },
            PrepOutcome::Done => self.forth(),
        };
        RunPrep { step, has_image: self.has_image }
    }
}

/// The run before step `i`; whether there is an image is known from the start.
pub open spec fn prep_at(first: RunPrep, outcomes: Seq<PrepOutcome>, i: int) -> RunPrep
    decreases i,
{
    if i <= 0 {
        first
    } else {
        prep_at(first, outcomes, i - 1).after(outcomes[i - 1])
    }
}

/// A step was taken before `n` and nothing was wrong.
#[verifier::opaque]
pub open spec fn passed_before(
    first: RunPrep,
    outcomes: Seq<PrepOutcome>,
    n: int,
    step: PrepStep,
) -> bool {
    exists|i: int|
        0 <= i < n && #[trigger] outcomes[i] != PrepOutcome::Refused && prep_at(
            first,
            outcomes,
            i,
        ).step == step
}

/// How far a step is.
spec fn place(step: PrepStep) -> int {
    match step {
        PrepStep::Name => 0,
        PrepStep::Hosts => 1,
        PrepStep::Params => 2,
        PrepStep::Secrets => 3,
        PrepStep::Probe => 4,
        PrepStep::Layer => 5,
        PrepStep::Volumes => 6,
        PrepStep::Ports => 7,
        PrepStep::Check => 8,
        PrepStep::Network => 9,
        PrepStep::Agent => 10,
        PrepStep::Image => 11,
        PrepStep::Boot => 12,
        PrepStep::RunPacked | PrepStep::Refused => -1,
    }
}

/// A step that no run to a start of a machine leaves out.
pub open spec fn always_taken(step: PrepStep) -> bool {
    step == PrepStep::Hosts || step == PrepStep::Params || step == PrepStep::Secrets || step
        == PrepStep::Layer || step == PrepStep::Volumes || step == PrepStep::Ports || step
        == PrepStep::Check || step == PrepStep::Network || step == PrepStep::Agent || step
        == PrepStep::Image
}

proof fn lemma_prep(first: RunPrep, outcomes: Seq<PrepOutcome>, n: int, step: PrepStep)
    requires
        first.step == PrepStep::Name || first.step == PrepStep::Hosts,
        0 <= n <= outcomes.len(),
        always_taken(step),
    ensures
        place(step) < place(prep_at(first, outcomes, n).step) ==> passed_before(
            first,
            outcomes,
            n,
            step,
        ),
    decreases n,
{
    reveal(passed_before);
    if n > 0 {
        lemma_prep(first, outcomes, n - 1, step);
        let before = prep_at(first, outcomes, n - 1);
        let now = prep_at(first, outcomes, n);
        if place(step) < place(now.step) {
            if place(step) < place(before.step) {
                let i = choose|i: int|
                    0 <= i < n - 1 && #[trigger] outcomes[i] != PrepOutcome::Refused && prep_at(
                        first,
                        outcomes,
                        i,
                    ).step == step;
                assert(outcomes[i] != PrepOutcome::Refused);
            } else {
                assert(before.step == step);
                assert(outcomes[n - 1] != PrepOutcome::Refused);
            }
        }
    }
}

/// No machine is started before every check has passed: its volumes were read, its
/// ports are distinct, what is asked for can be meant, and the network can be had.
pub proof fn law_machine_is_started_after_every_check(
    first: RunPrep,
    outcomes: Seq<PrepOutcome>,
    step: PrepStep,
)
    requires
        first.step == PrepStep::Name || first.step == PrepStep::Hosts,
        always_taken(step),
        prep_at(first, outcomes, outcomes.len() as int).step == PrepStep::Boot,
    ensures
        passed_before(first, outcomes, outcomes.len() as int, step),
{
    lemma_prep(first, outcomes, outcomes.len() as int, step);
}

/// What was refused stays refused.
pub proof fn law_refused_run_stays_refused(s: RunPrep, outcome: PrepOutcome)
    requires
        s.step == PrepStep::Refused || outcome == PrepOutcome::Refused && !s.settled(),
    ensures
        s.after(outcome).step == PrepStep::Refused,
{
}

} // verus!
