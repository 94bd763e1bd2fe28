//! What watching a machine does in each case, and how a session with one ends.
use crate::daemon::worker::signed_decimal;
use crate::machine::commands::{StartCmd, copy_of, fork_launch};
use crate::machine::exec::{ExecCmd, ExecEvent, ExecMode, exec_mode_of, stream_status, target_name};
use crate::machine::monitor::{
    CheckOutcome, MonitorAction, MonitorState, after_alive, after_check, after_death, after_wait,
    check_report, death_report, failures_after, health_command, or_flag, policy_name, policy_of,
};
use crate::numerals::decimal;
use crate::records::{RestartConfig, RestartPolicy};
use crate::split::law_split_first;
use vstd::prelude::*;

verus! {

/// A restart policy is read from its name and from nothing else.
pub proof fn law_policies_have_their_names(s: Seq<char>)
    ensures
        policy_of(s) == Some(RestartPolicy::Never) <==> s == "never"@,
        policy_of(s) == Some(RestartPolicy::Always) <==> s == "always"@,
        policy_of(s) == Some(RestartPolicy::OnFailure) <==> s == "on-failure"@,
        policy_of(s) == Some(RestartPolicy::UnlessStopped) <==> s == "unless-stopped"@,
        policy_of(s) matches Some(p) ==> policy_name(p) == s,
{
    reveal_strlit("never");
    reveal_strlit("always");
    reveal_strlit("on-failure");
    reveal_strlit("unless-stopped");
    assert("never"@.len() == 5 && "always"@.len() == 6 && "on-failure"@.len() == 10
        && "unless-stopped"@.len() == 14);
}

/// Waiting ends the watch only where it is to stop. Otherwise the time is noted; after a
/// longer pause than three intervals the failures are forgotten and nothing is probed.
/// When the machine was started and how often it was restarted does not change.
pub proof fn law_after_a_wait(s: MonitorState, interval_secs: u64, now: u64, stop: bool)
    ensures
        ({
            let (after, action) = after_wait(s, interval_secs, now, stop);
            let paused = now >= s.last_check && now - s.last_check > 3000 * interval_secs;
            &&& action == MonitorAction::Quit <==> stop
            &&& stop ==> after == s
            &&& after.last_start == s.last_start && after.restart == s.restart
            &&& !stop ==> after.last_check == now
            &&& !stop && paused ==> after.failures == 0 && action == MonitorAction::Wait
            &&& !stop && !paused ==> after.failures == s.failures && action == MonitorAction::Probe
        }),
{
}

/// A machine that is up is checked where there is a check, but not while it may still be
/// starting; nothing is noted.
pub proof fn law_after_a_sign_of_life(s: MonitorState, checks: bool, grace_secs: u64, now: u64)
    ensures
        ({
            let (after, action) = after_alive(s, checks, grace_secs, now);
            let starting = now < s.last_start + 1000 * grace_secs && grace_secs > 0;
            &&& after == s
            &&& action == MonitorAction::Check <==> checks && !starting
            &&& action == MonitorAction::Check || action == MonitorAction::Wait
        }),
{
}

/// A check that passes clears the failures and one that does not adds one; the machine is
/// stopped once they reach the retries, but not for an agent that cannot be reached.
pub proof fn law_after_a_check(s: MonitorState, retries: u32, outcome: CheckOutcome)
    ensures
        ({
            let (after, action) = after_check(s, retries, outcome);
            let passed = outcome matches CheckOutcome::Exit(code, _) && code == 0;
            &&& after.last_check == s.last_check && after.last_start == s.last_start
                && after.restart == s.restart
            &&& passed ==> after.failures == 0
            &&& !passed && s.failures < u32::MAX ==> after.failures == s.failures + 1
            &&& !passed && s.failures == u32::MAX ==> after.failures == u32::MAX
            &&& action == MonitorAction::StopMachine <==> outcome != CheckOutcome::Unreachable
                && after.failures >= retries
            &&& action == MonitorAction::StopMachine || action == MonitorAction::Wait
        }),
{
}

/// A machine that ended is started again where it should be, after the pause that was
/// given, and counted; otherwise the watch ends and nothing is counted. Failures of checks
/// are forgotten either way.
pub proof fn law_after_a_death(s: MonitorState, should_restart: bool, backoff_secs: u64)
    ensures
        ({
            let (after, action) = after_death(s, should_restart, backoff_secs);
            &&& after.failures == 0
            &&& after.last_check == s.last_check && after.last_start == s.last_start
            &&& after.restart.policy == s.restart.policy && after.restart.max_retries
                == s.restart.max_retries && after.restart.user_stopped == s.restart.user_stopped
                && after.restart.max_backoff_secs == s.restart.max_backoff_secs
            &&& should_restart ==> action == (MonitorAction::Restart { backoff_secs })
            &&& !should_restart ==> action == MonitorAction::Quit && after.restart == s.restart
            &&& should_restart && s.restart.restart_count < u32::MAX
                ==> after.restart.restart_count == s.restart.restart_count + 1
        }),
{
}

/// A check is told of unless it passes after none failed; a stop is told of last.
pub proof fn law_checks_are_told_of(before: u32, retries: u32, outcome: CheckOutcome)
    ensures
        ({
            let told = check_report(before, retries, outcome);
            let now = failures_after(before, outcome);
            let passed = outcome matches CheckOutcome::Exit(code, _) && code == 0;
            let stops = outcome != CheckOutcome::Unreachable && now >= retries;
            &&& passed && before == 0 && retries > 0 ==> told.len() == 0
            &&& passed && before > 0 ==> told.len() > 0 && told[0]
                == "  health check passed (recovered)"@
            &&& outcome is Unreachable ==> told == seq![
                "  cannot connect to agent ("@ + (decimal(now as nat) + "/"@ + decimal(
                    retries as nat,
                )) + ")"@,
            ]
            &&& outcome matches CheckOutcome::Error(e) ==> told.len() > 0 && told[0]
                == "  health check error ("@ + (decimal(now as nat) + "/"@ + decimal(
                retries as nat,
            )) + "): "@ + e@
            &&& outcome is Exit && !passed ==> told.len() > 0
            &&& stops ==> told.len() > 0 && told.last()
                == "  unhealthy — stopping machine for restart"@
            &&& !stops ==> told.len() <= 1
        }),
{
}

/// A death is told of with how it ended, then with what is done about it.
pub proof fn law_deaths_are_told_of(
    restart: RestartConfig,
    exit_code: Option<i32>,
    should_restart: bool,
    backoff_secs: u64,
)
    ensures
        ({
            let told = death_report(restart, exit_code, should_restart, backoff_secs);
            &&& told.len() == 2
            &&& exit_code matches Some(c) ==> told[0] == "  machine exited (exit code: "@
                + signed_decimal(c as int) + ")"@
            &&& exit_code is None ==> told[0] == "  machine exited (exit code: "@ + "unknown"@
                + ")"@
            &&& should_restart && restart.restart_count < u32::MAX ==> told[1]
                == "  restarting (attempt "@ + decimal((restart.restart_count + 1) as nat)
                + ", backoff "@ + decimal(backoff_secs as nat) + "s)..."@
            &&& !should_restart && restart.max_retries > 0 ==> told[1]
                == "  not restarting (policy: "@ + policy_name(restart.policy) + ", count: "@
                + decimal(restart.restart_count as nat) + "/"@ + decimal(
                restart.max_retries as nat,
            ) + ")"@
            &&& !should_restart && restart.max_retries == 0 ==> told[1]
                == "  not restarting (policy: "@ + policy_name(restart.policy) + ", count: "@
                + decimal(restart.restart_count as nat) + "/"@ + "unlimited"@ + ")"@
        }),
{
}

/// A check that a flag names is run by a shell; without the flag the machine's own is. A
/// number that the machine has of its own goes before the flag's.
pub proof fn law_settings_of_a_watch(
    flag: Seq<char>,
    own: Option<Seq<Seq<char>>>,
    number: u64,
    other: u64,
)
    ensures
        health_command(Some(flag), own) == Some(seq!["sh"@, "-c"@, flag]),
        health_command(None, own) == own,
        or_flag(Some(number), other) == number,
        or_flag(None, other) == other,
{
}

// ---------------------------------------------------------------------------
// Sessions
// ---------------------------------------------------------------------------

/// The last event that ends a session decides what it came to: the exit code, or one for
/// an error. Output after it does not.
pub proof fn law_last_end_decides(events: Seq<ExecEvent>, i: int)
    requires
        0 <= i < events.len(),
        events[i] is Exit || events[i] is Error,
        forall|j: int|
            i < j < events.len() ==> !((#[trigger] events[j]) is Exit) && !(events[j] is Error),
    ensures
        events[i] matches ExecEvent::Exit(code) ==> stream_status(events) == code,
        events[i] is Error ==> stream_status(events) == 1,
    decreases events.len(),
{
    let last = events.len() - 1;
    assert(events.last() == events[last]);
    if i < last {
        let front = events.drop_last();
        assert(front[i] == events[i]);
        assert forall|j: int| i < j < front.len() implies !((#[trigger] front[j]) is Exit) && !(
        front[j] is Error) by {
            assert(front[j] == events[j]);
        }
        law_last_end_decides(front, i);
    }
}

/// Output alone ends nothing.
pub proof fn law_output_ends_nothing(events: Seq<ExecEvent>)
    requires
        forall|j: int|
            0 <= j < events.len() ==> !((#[trigger] events[j]) is Exit) && !(events[j] is Error),
    ensures
        stream_status(events) == 0,
    decreases events.len(),
{
    if events.len() > 0 {
        let front = events.drop_last();
        assert(events.last() == events[events.len() - 1]);
        assert forall|j: int| 0 <= j < front.len() implies !((#[trigger] front[j]) is Exit) && !(
        front[j] is Error) by {
            assert(front[j] == events[j]);
        }
        law_output_ends_nothing(front);
    }
}

/// A command is run in the background where it is detached; else with the terminal where
/// either flag asks for it; else as a stream; else its output is captured.
pub proof fn law_mode_of_a_session(cmd: ExecCmd)
    ensures
        cmd.detach ==> exec_mode_of(cmd) == ExecMode::Background,
        !cmd.detach && (cmd.interactive || cmd.tty) ==> exec_mode_of(cmd)
            == (ExecMode::Interactive { tty: cmd.tty }),
        !cmd.detach && !cmd.interactive && !cmd.tty && cmd.stream ==> exec_mode_of(cmd)
            == ExecMode::Stream,
        !cmd.detach && !cmd.interactive && !cmd.tty && !cmd.stream ==> exec_mode_of(cmd)
            == ExecMode::Captured,
        cmd.name is Some ==> target_name(cmd.name) == cmd.name->Some_0@,
        cmd.name is None ==> target_name(cmd.name) == "default"@,
{
}

/// A machine is started forkable where that is asked for or a pool is; then with the pool
/// and the limit that were given, and otherwise with neither.
pub proof fn law_forkable_starts(cmd: StartCmd)
    ensures
        fork_launch(cmd).forkable <==> cmd.forkable || cmd.fork_pool_size is Some,
        fork_launch(cmd).forkable ==> fork_launch(cmd).pool_size == cmd.fork_pool_size
            && fork_launch(cmd).vram_limit_mib == cmd.cuda_vram_limit_mib,
        !fork_launch(cmd).forkable ==> fork_launch(cmd).pool_size is None && fork_launch(
            cmd,
        ).vram_limit_mib is None,
{
}

/// A copy names its machine on one side: `MACHINE:PATH` as the source copies from it, as
/// the destination to it. One that names none on either side is refused.
pub proof fn law_copies_name_their_machine(
    machine: Seq<char>,
    path: Seq<char>,
    local: Seq<char>,
)
    requires
        !machine.contains(':'),
    ensures
        copy_of(machine + ":"@ + path, local) == Some((machine, path, local, false)),
        !local.contains(':') ==> copy_of(local, machine + ":"@ + path) == Some(
            (machine, path, local, true),
        ),
        !local.contains(':') ==> copy_of(local, machine) is None,
{
    reveal_strlit(":");
    assert(":"@ =~= seq![':']);
    law_split_first(machine + ":"@ + path, ':', machine, path);
}

} // verus!
