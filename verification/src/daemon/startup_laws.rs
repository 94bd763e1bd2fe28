//! What the daemon, its workers and its launcher have done by the time they get where they
//! are.
use crate::daemon::lifecycle::{LaunchStep, StageCall, Staging, launch_after};
use crate::daemon::startup::{DaemonStart, DaemonStep, daemon_run};
use vstd::prelude::*;

verus! {

// ---------------------------------------------------------------------------
// The daemon
// ---------------------------------------------------------------------------

/// A start took this step at some point.
pub open spec fn daemon_took(
    network: bool,
    idles: bool,
    outcomes: Seq<bool>,
    step: DaemonStep,
) -> bool {
    exists|i: int|
        0 <= i < outcomes.len() && (#[trigger] daemon_run(network, idles, outcomes.take(i))).step
            == step
}

/// The old sockets are cleared away, and the signals are armed.
pub open spec fn daemon_cleared(network: bool, idles: bool, outcomes: Seq<bool>) -> bool {
    &&& daemon_took(network, idles, outcomes, DaemonStep::Probe)
    &&& daemon_took(network, idles, outcomes, DaemonStep::Reap)
    &&& daemon_took(network, idles, outcomes, DaemonStep::Unlink)
    &&& daemon_took(network, idles, outcomes, DaemonStep::Arm)
}

/// The daemon has its socket and has said so.
pub open spec fn daemon_bound(network: bool, idles: bool, outcomes: Seq<bool>) -> bool {
    &&& daemon_cleared(network, idles, outcomes)
    &&& daemon_took(network, idles, outcomes, DaemonStep::Bind)
    &&& daemon_took(network, idles, outcomes, DaemonStep::Publish)
}

/// The services beside the socket run: the network one if there is to be one, else the
/// watch for idleness if there is to be one.
pub open spec fn daemon_attended(network: bool, idles: bool, outcomes: Seq<bool>) -> bool {
    &&& daemon_bound(network, idles, outcomes)
    &&& daemon_took(network, idles, outcomes, DaemonStep::Tensors)
    &&& daemon_took(network, idles, outcomes, DaemonStep::Mps)
    &&& network ==> daemon_took(network, idles, outcomes, DaemonStep::Network)
    &&& !network && idles ==> daemon_took(network, idles, outcomes, DaemonStep::Watch)
}

spec fn daemon_holds(
    network: bool,
    idles: bool,
    o: Seq<bool>,
    s: DaemonStart,
) -> bool {
    &&& s.network == network && s.idles == idles
    &&& match s.step {
        DaemonStep::Probe => true,
        DaemonStep::Reap => daemon_took(network, idles, o, DaemonStep::Probe),
        DaemonStep::Unlink => daemon_took(network, idles, o, DaemonStep::Probe) && daemon_took(
            network,
            idles,
            o,
            DaemonStep::Reap,
        ),
        DaemonStep::Arm => daemon_took(network, idles, o, DaemonStep::Probe) && daemon_took(
            network,
            idles,
            o,
            DaemonStep::Reap,
        ) && daemon_took(network, idles, o, DaemonStep::Unlink),
        DaemonStep::Bind => daemon_cleared(network, idles, o),
        DaemonStep::Publish => daemon_cleared(network, idles, o) && daemon_took(
            network,
            idles,
            o,
            DaemonStep::Bind,
        ),
        DaemonStep::Withdraw => daemon_bound(network, idles, o),
        DaemonStep::Tensors => daemon_bound(network, idles, o),
        DaemonStep::Mps => daemon_bound(network, idles, o) && daemon_took(
            network,
            idles,
            o,
            DaemonStep::Tensors,
        ),
        DaemonStep::Network => network && daemon_bound(network, idles, o) && daemon_took(
            network,
            idles,
            o,
            DaemonStep::Tensors,
        ) && daemon_took(network, idles, o, DaemonStep::Mps),
        DaemonStep::Watch => !network && idles && daemon_bound(network, idles, o) && daemon_took(
            network,
            idles,
            o,
            DaemonStep::Tensors,
        ) && daemon_took(network, idles, o, DaemonStep::Mps),
        DaemonStep::Sweep => daemon_attended(network, idles, o),
        DaemonStep::Accept => daemon_attended(network, idles, o) && daemon_took(
            network,
            idles,
            o,
            DaemonStep::Sweep,
        ),
        _ => true,
    }
}

proof fn lemma_daemon(network: bool, idles: bool, outcomes: Seq<bool>)
    ensures
        daemon_holds(network, idles, outcomes, daemon_run(network, idles, outcomes)),
    decreases outcomes.len(),
{
    if outcomes.len() > 0 {
        let front = outcomes.drop_last();
        let n = outcomes.len() - 1;
        lemma_daemon(network, idles, front);
        assert(outcomes.take(n) =~= front);
        assert forall|step: DaemonStep|
            daemon_took(network, idles, front, step) implies #[trigger] daemon_took(
            network,
            idles,
            outcomes,
            step,
        ) by {
            let i = choose|i: int|
                0 <= i < front.len() && (#[trigger] daemon_run(
                    network,
                    idles,
                    front.take(i),
                )).step == step;
            assert(front.take(i) =~= outcomes.take(i));
        }
        let s = daemon_run(network, idles, front);
        assert(daemon_run(network, idles, outcomes.take(n)).step == s.step);
        assert(daemon_took(network, idles, outcomes, s.step));
    }
}

/// A daemon that accepts connections has looked for another one, reaped the workers that
/// one left, removed its socket, armed its signals, bound its own and said so; it serves
/// tensors, has seen to MPS, runs the network service or the watch that it is to run, and
/// has swept what was left behind.
pub proof fn law_daemon_accepts_when_all_is_done(
    network: bool,
    idles: bool,
    outcomes: Seq<bool>,
)
    requires
        daemon_run(network, idles, outcomes).step is Accept,
    ensures
        daemon_attended(network, idles, outcomes),
        daemon_took(network, idles, outcomes, DaemonStep::Sweep),
{
    lemma_daemon(network, idles, outcomes);
}

/// A daemon fails only where it cannot bind its socket, or cannot say so and has withdrawn;
/// nothing else stops it.
pub proof fn law_what_stops_a_daemon(s: DaemonStart, ok: bool)
    requires
        s.after(ok).step is Failed,
        !(s.step is Failed),
    ensures
        (s.step is Bind && !ok) || s.step is Withdraw,
{
}

/// A daemon that could not say that it is there withdraws before it fails.
pub proof fn law_unannounced_daemon_withdraws(s: DaemonStart)
    requires
        s.step is Publish,
    ensures
        s.after(false).step is Withdraw,
        s.after(false).after(true).step is Failed && s.after(false).after(false).step is Failed,
{
}

// ---------------------------------------------------------------------------
// The launcher
// ---------------------------------------------------------------------------

/// A launch took this step at some point.
pub open spec fn launch_took(outcomes: Seq<bool>, step: LaunchStep) -> bool {
    exists|i: int|
        0 <= i < outcomes.len() && #[trigger] launch_after(outcomes.take(i)) == step
}

spec fn launch_holds(o: Seq<bool>, s: LaunchStep) -> bool {
    match s {
        LaunchStep::Look => true,
        LaunchStep::Lock => launch_took(o, LaunchStep::Look),
        LaunchStep::LookAgain => launch_took(o, LaunchStep::Look) && launch_took(
            o,
            LaunchStep::Lock,
        ),
        LaunchStep::Spawn => launch_took(o, LaunchStep::Look) && launch_took(o, LaunchStep::Lock)
            && launch_took(o, LaunchStep::LookAgain),
        LaunchStep::Poll { left } => launch_took(o, LaunchStep::Look) && launch_took(
            o,
            LaunchStep::Lock,
        ) && launch_took(o, LaunchStep::LookAgain) && launch_took(o, LaunchStep::Spawn),
        _ => true,
    }
}

proof fn lemma_launch(outcomes: Seq<bool>)
    ensures
        launch_holds(outcomes, launch_after(outcomes)),
    decreases outcomes.len(),
{
    if outcomes.len() > 0 {
        let front = outcomes.drop_last();
        let n = outcomes.len() - 1;
        lemma_launch(front);
        assert(outcomes.take(n) =~= front);
        assert forall|step: LaunchStep| launch_took(front, step) implies #[trigger] launch_took(
            outcomes,
            step,
        ) by {
            let i = choose|i: int|
                0 <= i < front.len() && #[trigger] launch_after(front.take(i)) == step;
            assert(front.take(i) =~= outcomes.take(i));
        }
        assert(launch_after(outcomes.take(n)) == launch_after(front));
        assert(launch_took(outcomes, launch_after(front)));
    }
}

/// A daemon is spawned only under the lock, and after looking again under it; it is waited
/// for only after it was spawned.
pub proof fn law_daemon_is_spawned_under_the_lock(outcomes: Seq<bool>)
    ensures
        launch_after(outcomes) is Spawn || launch_after(outcomes) is Poll ==> launch_took(
            outcomes,
            LaunchStep::Look,
        ) && launch_took(outcomes, LaunchStep::Lock) && launch_took(
            outcomes,
            LaunchStep::LookAgain,
        ),
        launch_after(outcomes) is Poll ==> launch_took(outcomes, LaunchStep::Spawn),
{
    lemma_launch(outcomes);
}

/// A daemon that answers is used, whenever it is looked for; a launch fails only without
/// the lock or where nothing can be spawned, and gives up after the last look.
pub proof fn law_ends_of_a_launch(step: LaunchStep, left: u32)
    ensures
        LaunchStep::Look.after(true) == LaunchStep::Running,
        LaunchStep::LookAgain.after(true) == LaunchStep::Running,
        (LaunchStep::Poll { left }).after(true) == LaunchStep::Running,
        step.after(false) == LaunchStep::Failed && step != LaunchStep::Failed ==> step
            == LaunchStep::Lock || step == LaunchStep::Spawn,
        left > 1 ==> (LaunchStep::Poll { left }).after(false) == (LaunchStep::Poll {
            left: (left - 1) as u32,
        }),
        left <= 1 ==> (LaunchStep::Poll { left }).after(false) == LaunchStep::TimedOut,
        LaunchStep::Spawn.after(true) == (LaunchStep::Poll { left: 200 }),
{
}

// ---------------------------------------------------------------------------
// Staging
// ---------------------------------------------------------------------------

/// Where staging stands after outcomes of its calls.
pub open spec fn staging_run(allocs: usize, outcomes: Seq<bool>) -> Option<Staging>
    decreases outcomes.len(),
{
    if outcomes.len() == 0 {
        Some(Staging { call: StageCall::Create, allocs, failed: false })
    } else {
        match staging_run(allocs, outcomes.drop_last()) {
            Some(s) => s.after(outcomes.last()),
            None => None,
        }
    }
}

/// A call of a staging worked.
pub open spec fn staging_did(allocs: usize, outcomes: Seq<bool>, call: StageCall) -> bool {
    exists|i: int| #[trigger] staging_at(allocs, outcomes, i, call) && outcomes[i]
}

/// The `i`th call of a staging was this one.
pub open spec fn staging_at(allocs: usize, outcomes: Seq<bool>, i: int, call: StageCall) -> bool {
    0 <= i < outcomes.len() && match staging_run(allocs, outcomes.take(i)) {
        Some(s) => s.call == call,
        None => false,
    }
}

/// A call of a staging was made, whether or not it worked.
pub open spec fn staging_made(allocs: usize, outcomes: Seq<bool>, call: StageCall) -> bool {
    exists|i: int| staging_at(allocs, outcomes, i, call)
}

/// The first `n` allocations were copied.
pub open spec fn staging_copied(allocs: usize, outcomes: Seq<bool>, n: int) -> bool {
    forall|k: usize| k < n ==> #[trigger] staging_did(allocs, outcomes, StageCall::Copy(k))
}

/// The area was created, addressed, mapped and opened.
pub open spec fn staging_open(allocs: usize, outcomes: Seq<bool>) -> bool {
    &&& staging_did(allocs, outcomes, StageCall::Create)
    &&& staging_did(allocs, outcomes, StageCall::Reserve)
    &&& staging_did(allocs, outcomes, StageCall::MapAt)
    &&& staging_did(allocs, outcomes, StageCall::Access)
}

spec fn staging_holds(allocs: usize, o: Seq<bool>, s: Staging) -> bool {
    &&& s.allocs == allocs
    &&& !s.failed ==> match s.call {
        StageCall::Create => true,
        StageCall::Reserve => staging_did(allocs, o, StageCall::Create),
        StageCall::MapAt => staging_did(allocs, o, StageCall::Create) && staging_did(
            allocs,
            o,
            StageCall::Reserve,
        ),
        StageCall::Access => staging_did(allocs, o, StageCall::Create) && staging_did(
            allocs,
            o,
            StageCall::Reserve,
        ) && staging_did(allocs, o, StageCall::MapAt),
        StageCall::Copy(i) => i < allocs && staging_open(allocs, o) && staging_copied(
            allocs,
            o,
            i as int,
        ),
        StageCall::Synchronize => staging_open(allocs, o) && staging_copied(
            allocs,
            o,
            allocs as int,
        ),
        StageCall::Unmap => staging_open(allocs, o) && staging_copied(allocs, o, allocs as int)
            && staging_made(allocs, o, StageCall::Synchronize),
        StageCall::FreeRange => staging_open(allocs, o) && staging_copied(
            allocs,
            o,
            allocs as int,
        ) && staging_made(allocs, o, StageCall::Synchronize) && staging_made(
            allocs,
            o,
            StageCall::Unmap,
        ),
        StageCall::Export => staged_whole(allocs, o),
        StageCall::Release => staged_whole(allocs, o) && staging_did(allocs, o, StageCall::Export),
    }
}

/// Every allocation was copied to the area and waited for, and the area was unmapped.
pub open spec fn staged_whole(allocs: usize, outcomes: Seq<bool>) -> bool {
    &&& staging_open(allocs, outcomes)
    &&& staging_copied(allocs, outcomes, allocs as int)
    &&& staging_made(allocs, outcomes, StageCall::Synchronize)
    &&& staging_made(allocs, outcomes, StageCall::Unmap)
    &&& staging_made(allocs, outcomes, StageCall::FreeRange)
}

proof fn lemma_staging(allocs: usize, outcomes: Seq<bool>)
    ensures
        staging_run(allocs, outcomes) matches Some(s) ==> staging_holds(allocs, outcomes, s),
    decreases outcomes.len(),
{
    if outcomes.len() > 0 {
        let front = outcomes.drop_last();
        let n = outcomes.len() - 1;
        lemma_staging(allocs, front);
        assert(outcomes.take(n) =~= front);
        assert forall|i: int, call: StageCall|
            staging_at(allocs, front, i, call) implies #[trigger] staging_at(
            allocs,
            outcomes,
            i,
            call,
        ) && front[i] == outcomes[i] by {
            assert(front.take(i) =~= outcomes.take(i));
        }
        assert forall|call: StageCall|
            staging_did(allocs, front, call) implies #[trigger] staging_did(
            allocs,
            outcomes,
            call,
        ) by {
            let i = choose|i: int| #[trigger] staging_at(allocs, front, i, call) && front[i];
            assert(staging_at(allocs, outcomes, i, call));
        }
        assert forall|call: StageCall|
            staging_made(allocs, front, call) implies #[trigger] staging_made(
            allocs,
            outcomes,
            call,
        ) by {
            let i = choose|i: int| staging_at(allocs, front, i, call);
            assert(staging_at(allocs, outcomes, i, call));
        }
        if let Some(s) = staging_run(allocs, front) {
            assert(staging_at(allocs, outcomes, n, s.call));
            assert(staging_made(allocs, outcomes, s.call));
            if outcomes[n] {
                assert(staging_did(allocs, outcomes, s.call));
            }
        }
    }
}

/// A staging area is exported only when every allocation was copied to it, the copies were
/// waited for, and it was unmapped; a staging that ends well was exported.
pub proof fn law_only_whole_areas_are_exported(allocs: usize, outcomes: Seq<bool>)
    requires
        staging_run(allocs, outcomes) is Some,
    ensures
        ({
            let s = staging_run(allocs, outcomes)->Some_0;
            &&& s.call == StageCall::Export ==> s.failed || staged_whole(allocs, outcomes)
            &&& s.call == StageCall::Release && !s.failed ==> staged_whole(allocs, outcomes)
                && staging_did(allocs, outcomes, StageCall::Export)
        }),
{
    lemma_staging(allocs, outcomes);
}

/// A staging in which a call failed ends as failed, but for calls that only clear up.
pub proof fn law_failed_calls_fail_a_staging(s: Staging)
    requires
        s.call == StageCall::Reserve || s.call == StageCall::MapAt || s.call == StageCall::Access
            || s.call is Copy || s.call == StageCall::Export,
    ensures
        s.after(false) is Some && s.after(false)->Some_0.failed,
{
}

} // verus!
