//! The order in which the daemon starts.
use vstd::prelude::*;

verus! {

/// A step of the daemon's start.
#[derive(Debug, Clone, Copy, PartialEq, Eq, Structural)]
pub enum DaemonStep {
    /// See whether a daemon answers on the socket.
    Probe,
    /// End the workers that an earlier daemon left behind.
    Reap,
    /// Remove the socket that an earlier daemon left behind.
    Unlink,
    /// Take care that a request to end removes the socket and takes the workers along.
    Arm,
    /// Bind the socket.
    Bind,
    /// Publish what the daemon can do.
    Publish,
    /// Remove the socket of a daemon that could not publish.
    Withdraw,
    /// Serve published tensors, if that can be.
    Tensors,
    /// Share the device between processes, if that can be.
    Mps,
    /// Listen to the network, if that can be.
    Network,
    /// Watch for idleness.
    Watch,
    /// Look after what ended.
    Sweep,
    /// Take connections in.
    Accept,
    /// Another daemon runs; this one is not needed.
    Occupied,
    /// The daemon cannot run.
    Failed,
}

/// The daemon's start while it goes on.
#[derive(Debug, Clone, Copy, PartialEq, Eq, Structural)]
pub struct DaemonStart {
    pub step: DaemonStep,
    /// The daemon is to listen to the network.
    pub network: bool,
    /// The daemon ends once it has been idle for long enough.
    pub idles: bool,
}

impl DaemonStart {
    /// The step after one that did or did not work; a probe works if a daemon answers.
    /// A daemon for the network waits for its clients, however long they take.
    pub open spec fn next_step(self, ok: bool) -> DaemonStep {
        match self.step {
            DaemonStep::Probe => if ok {
                DaemonStep::Occupied
            } else {
                DaemonStep::Reap
            },
            DaemonStep::Reap => DaemonStep::Unlink,
            DaemonStep::Unlink => DaemonStep::Arm,
            DaemonStep::Arm => DaemonStep::Bind,
            DaemonStep::Bind => if ok {
                DaemonStep::Publish
            } else {
                DaemonStep::Failed
            },
            DaemonStep::Publish => if ok {
                DaemonStep::Tensors
            } else {
                DaemonStep::Withdraw
            },
            DaemonStep::Withdraw => DaemonStep::Failed,
            DaemonStep::Tensors => DaemonStep::Mps,
            DaemonStep::Mps => if self.network {
                DaemonStep::Network
            } else if self.idles {
                DaemonStep::Watch
            } else {
                DaemonStep::Sweep
            },
            DaemonStep::Network => DaemonStep::Sweep,
            DaemonStep::Watch => DaemonStep::Sweep,
            DaemonStep::Sweep => DaemonStep::Accept,
            DaemonStep::Accept => DaemonStep::Accept,
            DaemonStep::Occupied => DaemonStep::Occupied,
            DaemonStep::Failed => DaemonStep::Failed,
        }
    }

    /// The start after a step that did or did not work.
    pub open spec fn after(self, ok: bool) -> DaemonStart {
        DaemonStart { step: self.next_step(ok), ..self }
    }

    /// Nothing of the start is left to do.
    pub open spec fn ended(self) -> bool {
        self.step is Accept || self.step is Occupied || self.step is Failed
    }

    /// The first step.
    pub fn start(network: bool, idles: bool) -> (r: Self)
        ensures
            r == (DaemonStart { step: DaemonStep::Probe, network, idles }),
    {
        DaemonStart { step: DaemonStep::Probe, network, idles }
    }

    /// The start after a step that did or did not work.
    pub fn advance(self, ok: bool) -> (r: Self)
        ensures
            r == self.after(ok),
    {
        let step = match self.step {
            DaemonStep::Probe => if ok {
                DaemonStep::Occupied
            } else {
                DaemonStep::Reap
            },
            DaemonStep::Reap => DaemonStep::Unlink,
            DaemonStep::Unlink => DaemonStep::Arm,
            DaemonStep::Arm => DaemonStep::Bind,
            DaemonStep::Bind => if ok {
                DaemonStep::Publish
            } else {
                DaemonStep::Failed
            },
            DaemonStep::Publish => if ok {
                DaemonStep::Tensors
            } else {
                DaemonStep::Withdraw
            },
            DaemonStep::Withdraw => DaemonStep::Failed,
            DaemonStep::Tensors => DaemonStep::Mps,
            DaemonStep::Mps => if self.network {
                DaemonStep::Network
            } else if self.idles {
                DaemonStep::Watch
            } else {
                DaemonStep::Sweep
            },
            DaemonStep::Network => DaemonStep::Sweep,
            DaemonStep::Watch => DaemonStep::Sweep,
            DaemonStep::Sweep => DaemonStep::Accept,
            DaemonStep::Accept => DaemonStep::Accept,
            DaemonStep::Occupied => DaemonStep::Occupied,
            DaemonStep::Failed => DaemonStep::Failed,
        };
        DaemonStart { step, network: self.network, idles: self.idles }
    }
}

/// What is reached after steps that did or did not work.
pub open spec fn daemon_run(network: bool, idles: bool, outcomes: Seq<bool>) -> DaemonStart
    decreases outcomes.len(),
{
    if outcomes.len() == 0 {
        DaemonStart { step: DaemonStep::Probe, network, idles }
    } else {
        daemon_run(network, idles, outcomes.drop_last()).after(outcomes.last())
    }
}

/// A daemon that answers ends the start before anything is touched.
pub proof fn law_live_daemon_is_left_alone(network: bool, idles: bool, outcomes: Seq<bool>)
    requires
        outcomes.len() > 0,
        outcomes[0],
    ensures
        daemon_run(network, idles, outcomes).step is Occupied,
    decreases outcomes.len(),
{
    let front = outcomes.drop_last();
    if front.len() > 0 {
        law_live_daemon_is_left_alone(network, idles, front);
    } else {
        assert(outcomes.last() == outcomes[0]);
        assert(daemon_run(network, idles, front).step is Probe);
    }
}

/// How many steps led to a step, where that is fixed.
spec fn position(step: DaemonStep) -> Option<int> {
    match step {
        DaemonStep::Probe => Some(0),
        DaemonStep::Reap => Some(1),
        DaemonStep::Unlink => Some(2),
        DaemonStep::Arm => Some(3),
        DaemonStep::Bind => Some(4),
        DaemonStep::Publish => Some(5),
        DaemonStep::Withdraw => Some(6),
        DaemonStep::Tensors => Some(6),
        DaemonStep::Mps => Some(7),
        DaemonStep::Network => Some(8),
        DaemonStep::Watch => Some(8),
        _ => None,
    }
}

/// The step belongs to a daemon that serves, or is about to.
pub open spec fn serves(step: DaemonStep) -> bool {
    step is Tensors || step is Mps || step is Network || step is Watch || step is Sweep
        || step is Accept
}

/// A daemon serves only once nobody answered on its socket, the socket is its own, and
/// what it can do is published: the first step found no daemon, and the fifth and the
/// sixth, binding and publishing, worked.
pub proof fn law_daemon_serves_on_a_socket_of_its_own(
    network: bool,
    idles: bool,
    outcomes: Seq<bool>,
)
    requires
        serves(daemon_run(network, idles, outcomes).step),
    ensures
        outcomes.len() >= 6,
        !outcomes[0],
        outcomes[4],
        outcomes[5],
        daemon_run(network, idles, outcomes.take(4)).step is Bind,
        daemon_run(network, idles, outcomes.take(5)).step is Publish,
{
    lemma_daemon_run(network, idles, outcomes);
}

/// A daemon for the network is never watched for idleness, and one without never listens
/// to it.
pub proof fn law_network_daemon_waits(network: bool, idles: bool, outcomes: Seq<bool>)
    ensures
        daemon_run(network, idles, outcomes).step is Watch ==> !network && idles,
        daemon_run(network, idles, outcomes).step is Network ==> network,
{
    lemma_daemon_run(network, idles, outcomes);
}

/// The start ends: a daemon takes connections in, is not needed, or has failed.
pub proof fn law_daemon_start_ends(network: bool, idles: bool, outcomes: Seq<bool>)
    requires
        outcomes.len() >= 10,
    ensures
        daemon_run(network, idles, outcomes).ended(),
{
    lemma_daemon_run(network, idles, outcomes);
}

proof fn lemma_daemon_run(network: bool, idles: bool, outcomes: Seq<bool>)
    ensures
        ({
            let s = daemon_run(network, idles, outcomes);
            let n = outcomes.len() as int;
            &&& s.network == network
            &&& s.idles == idles
            &&& position(s.step) matches Some(k) ==> n == k
            &&& s.step is Sweep ==> n == 8 || n == 9
            &&& s.step is Watch ==> !network && idles
            &&& s.step is Network ==> network
            &&& !(s.step is Probe || s.step is Occupied) ==> n >= 1 && !outcomes[0]
            &&& s.step is Bind ==> daemon_run(network, idles, outcomes.take(4)).step is Bind
            &&& s.step is Publish || s.step is Withdraw || serves(s.step) ==> n >= 5 && outcomes[4]
                && daemon_run(network, idles, outcomes.take(4)).step is Bind && daemon_run(
                network,
                idles,
                outcomes.take(5),
            ).step is Publish
            &&& serves(s.step) ==> n >= 6 && outcomes[5]
        }),
    decreases outcomes.len(),
{
    if outcomes.len() > 0 {
        let front = outcomes.drop_last();
        lemma_daemon_run(network, idles, front);
        if outcomes.len() == 4 {
            assert(outcomes.take(4) =~= outcomes);
        } else if outcomes.len() > 4 {
            assert(front.take(4) =~= outcomes.take(4));
            if outcomes.len() == 5 {
                assert(outcomes.take(5) =~= outcomes);
            } else {
                assert(front.take(5) =~= outcomes.take(5));
            }
        }
    }
}

} // verus!
