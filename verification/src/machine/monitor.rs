//! Watching a machine, and starting it again.
use crate::copying::{copy_opt_texts, opt_text, opt_texts, texts};
use crate::daemon::worker::{signed_decimal, signed_text};
use crate::machine::errors::{ConfigError, config_error};
use crate::numerals::{decimal, decimal_chars, sat_sub};
use crate::phrase::lemma_texts_push;
use crate::records::{RecordState, RestartConfig, RestartPolicy, VmModel, VmRecord};
use crate::split::{trim, trim_chars};
use crate::text::{chars_of, lossy_text, say2, say3, say4, say5, string_of, text_eq, text_lossy};
use vstd::prelude::*;

verus! {

/// What `monitor` is asked for.
#[derive(Debug)]
pub struct MonitorCmd {
    pub name: Option<String>,
    pub restart: Option<String>,
    pub health_cmd: Option<String>,
    /// Seconds.
    pub health_timeout: u64,
    /// Seconds.
    pub interval: u64,
    pub health_retries: u32,
}

// ---------------------------------------------------------------------------
// Settings
// ---------------------------------------------------------------------------

/// The name of a restart policy.
pub open spec fn policy_name(p: RestartPolicy) -> Seq<char> {
    match p {
        RestartPolicy::Never => "never"@,
        RestartPolicy::Always => "always"@,
        RestartPolicy::OnFailure => "on-failure"@,
        RestartPolicy::UnlessStopped => "unless-stopped"@,
    }
}

/// The name of a restart policy.
pub fn policy_text(p: RestartPolicy) -> (r: String)
    ensures
        r@ == policy_name(p),
{
    match p {
        RestartPolicy::Never => "never".to_owned(),
        RestartPolicy::Always => "always".to_owned(),
        RestartPolicy::OnFailure => "on-failure".to_owned(),
        RestartPolicy::UnlessStopped => "unless-stopped".to_owned(),
    }
}

/// The restart policy of this name.
pub open spec fn policy_of(s: Seq<char>) -> Option<RestartPolicy> {
    if s == policy_name(RestartPolicy::Never) {
        Some(RestartPolicy::Never)
    } else if s == policy_name(RestartPolicy::Always) {
        Some(RestartPolicy::Always)
    } else if s == policy_name(RestartPolicy::OnFailure) {
        Some(RestartPolicy::OnFailure)
    } else if s == policy_name(RestartPolicy::UnlessStopped) {
        Some(RestartPolicy::UnlessStopped)
    } else {
        None
    }
}

/// Reads the name of a restart policy.
pub fn parse_policy(s: &str) -> (r: Result<RestartPolicy, ConfigError>)
    ensures
        match r {
            Ok(p) => policy_of(s@) == Some(p),
            Err(e) => policy_of(s@) is None && e@ == (
                "--restart"@,
                "invalid restart policy: "@ + s@,
            ),
        },
{
    if text_eq(s, "never") {
        Ok(RestartPolicy::Never)
    } else if text_eq(s, "always") {
        Ok(RestartPolicy::Always)
    } else if text_eq(s, "on-failure") {
        Ok(RestartPolicy::OnFailure)
    } else if text_eq(s, "unless-stopped") {
        Ok(RestartPolicy::UnlessStopped)
    } else {
        Err(config_error("--restart", say2("invalid restart policy: ", s)))
    }
}

/// How a machine is watched.
#[derive(Debug)]
pub struct MonitorSettings {
    pub restart: RestartConfig,
    /// The command that checks its health, if there is one.
    pub health_cmd: Option<Vec<String>>,
    /// Seconds.
    pub health_timeout: u64,
    pub health_retries: u32,
    /// Seconds.
    pub interval: u64,
    /// Seconds after a start without checks.
    pub startup_grace: u64,
}

/// The health check: the flag's, run by a shell, else the machine's own.
pub open spec fn health_command(flag: Option<Seq<char>>, own: Option<Seq<Seq<char>>>) -> Option<
    Seq<Seq<char>>,
> {
    match flag {
        Some(c) => Some(seq!["sh"@, "-c"@, c]),
        None => own,
    }
}

/// A number of the machine, else that of the flags.
pub open spec fn or_flag<T>(own: Option<T>, flag: T) -> T {
    match own {
        Some(n) => n,
        None => flag,
    }
}

fn or_secs(own: Option<u64>, flag: u64) -> (r: u64)
    ensures
        r == or_flag(own, flag),
{
    match own {
        Some(n) => n,
        None => flag,
    }
}

impl MonitorCmd {
    /// How a machine is watched: restart policy and health check of the flags go before
    /// the machine's own; its other settings before those of the flags.
    pub fn run(&self, record: &VmRecord) -> (r: Result<
        MonitorSettings,
        ConfigError,
    >)
        ensures
            match (self.restart, r) {
                (Some(s), Err(e)) => policy_of(s@) is None && e@ == (
                    "--restart"@,
                    "invalid restart policy: "@ + s@,
                ),
                (policy, Ok(m)) => {
                    &&& policy matches Some(s) ==> policy_of(s@) is Some
                    &&& m.restart == (RestartConfig {
                        policy: match policy {
                            Some(s) => policy_of(s@)->Some_0,
                            None => record@.restart.policy,
                        },
                        ..record@.restart
                    })
                    &&& opt_texts(m.health_cmd) == health_command(
                        opt_text(self.health_cmd),
                        record@.health_cmd,
                    )
                    &&& m.health_timeout == or_flag(record@.health_timeout_secs, self.health_timeout)
                    &&& m.health_retries == or_flag(record@.health_retries, self.health_retries)
                    &&& m.interval == or_flag(record@.health_interval_secs, self.interval)
                    &&& m.startup_grace == or_flag(record@.health_startup_grace_secs, 0)
                },
                (None, Err(_)) => false,
            },
    {
        let mut restart = record.restart;
        match &self.restart {
            Some(s) => {
                match parse_policy(s.as_str()) {
                    Ok(p) => {
                        restart.policy = p;
                    },
                    Err(e) => {
                        return Err(e);
                    },
                }
            },
            None => {},
        }
        let health_cmd = match &self.health_cmd {
            Some(c) => {
                let mut v: Vec<String> = Vec::new();
                v.push("sh".to_owned());
                v.push("-c".to_owned());
                v.push(c.clone());
                proof { assert(texts(v@) =~= seq!["sh"@, "-c"@, c@]); }
                Some(v)
            },
            None => copy_opt_texts(&record.health_cmd),
        };
        Ok(
            MonitorSettings {
                restart,
                health_cmd,
                health_timeout: or_secs(record.health_timeout_secs, self.health_timeout),
                health_retries: match record.health_retries {
                    Some(n) => n,
                    None => self.health_retries,
                },
                interval: or_secs(record.health_interval_secs, self.interval),
                startup_grace: or_secs(record.health_startup_grace_secs, 0),
            },
        )
    }
}

/// What is told when watching starts.
pub fn monitor_notice(name: &str, m: &MonitorSettings) -> (r: Vec<String>)
    ensures
        texts(r@) == seq![
            "Monitoring machine '"@ + name@ + "' (policy: "@ + policy_name(m.restart.policy)
                + ", interval: "@ + decimal(m.interval as nat) + "s)"@,
        ] + if m.health_cmd is Some {
            seq![
                "  Health check: retries="@ + decimal(m.health_retries as nat) + ", timeout="@
                    + decimal(m.health_timeout as nat) + "s"@,
            ]
        } else {
            Seq::empty()
        },
{
    let mut head = say5(
        "Monitoring machine '",
        name,
        "' (policy: ",
        policy_text(m.restart.policy).as_str(),
        ", interval: ",
    );
    head.append(string_of(&decimal_chars(m.interval as u128)).as_str());
    head.append("s)");
    let ghost first = head@;
    let mut out: Vec<String> = Vec::new();
    out.push(head);
    if m.health_cmd.is_some() {
        let retries = string_of(&decimal_chars(m.health_retries as u128));
        let timeout = string_of(&decimal_chars(m.health_timeout as u128));
        let line = say5(
            "  Health check: retries=",
            retries.as_str(),
            ", timeout=",
            timeout.as_str(),
            "s",
        );
        let ghost second = line@;
        out.push(line);
        proof { assert(texts(out@) =~= seq![first] + seq![second]); }
    } else {
        proof { assert(texts(out@) =~= seq![first] + Seq::<Seq<char>>::empty()); }
    }
    out
}

// ---------------------------------------------------------------------------
// Watching
// ---------------------------------------------------------------------------

/// Where watching stands.
#[derive(Debug, Clone, Copy, PartialEq, Eq, Structural)]
pub struct MonitorState {
    /// Health checks that failed in a row.
    pub failures: u32,
    /// When the machine was last looked at, in milliseconds.
    pub last_check: u64,
    /// When it was last started, in milliseconds.
    pub last_start: u64,
    /// Restart policy and count.
    pub restart: RestartConfig,
}

/// What to do next.
#[derive(Debug, Clone, Copy, PartialEq, Eq, Structural)]
pub enum MonitorAction {
    /// Wait for one interval, then look again.
    Wait,
    /// See whether the machine is alive.
    Probe,
    /// Run the health check.
    Check,
    /// Stop the machine, then wait.
    StopMachine,
    /// Note how the machine ended, then wait this many seconds and start it.
    Restart { backoff_secs: u64 },
    /// Start the machine.
    Start,
    /// Stop watching.
    Quit,
}

/// Elapsed milliseconds that count as a suspend.
pub open spec fn suspended(elapsed: int, interval_secs: u64) -> bool {
    elapsed > 3000 * interval_secs
}

/// After a wait: the user may have asked to stop; a much longer time than was waited
/// means that the host was suspended, and the machine gets one more interval to
/// recover.
pub open spec fn after_wait(s: MonitorState, interval_secs: u64, now: u64, stop: bool) -> (
    MonitorState,
    MonitorAction,
) {
    let elapsed = sat_sub(now as int, s.last_check as int);
    if stop {
        (s, MonitorAction::Quit)
    } else if suspended(elapsed, interval_secs) {
        (MonitorState { last_check: now, failures: 0, ..s }, MonitorAction::Wait)
    } else {
        (MonitorState { last_check: now, ..s }, MonitorAction::Probe)
    }
}

/// After the machine was found alive: its health is checked, but not within the grace
/// after a start.
pub open spec fn after_alive(s: MonitorState, checks: bool, grace_secs: u64, now: u64) -> (
    MonitorState,
    MonitorAction,
) {
    if grace_secs > 0 && sat_sub(now as int, s.last_start as int) < 1000 * grace_secs {
        (s, MonitorAction::Wait)
    } else if checks {
        (s, MonitorAction::Check)
    } else {
        (s, MonitorAction::Wait)
    }
}

/// How a health check came out.
#[derive(Debug, PartialEq, Eq)]
pub enum CheckOutcome {
    /// The machine's agent could not be reached.
    Unreachable,
    /// The command could not be run.
    Error(String),
    /// The command ended with this status and these error bytes.
    Exit(i32, Vec<u8>),
}

/// One failure more.
pub open spec fn one_more(n: u32) -> u32 {
    if n < u32::MAX {
        (n + 1) as u32
    } else {
        n
    }
}

/// Failures in a row after a health check.
pub open spec fn failures_after(n: u32, outcome: CheckOutcome) -> u32 {
    match outcome {
        CheckOutcome::Exit(code, _) => if code == 0 {
            0
        } else {
            one_more(n)
        },
        _ => one_more(n),
    }
}

/// After a health check: too many failures in a row stop the machine, unless its
/// agent could not be reached at all.
pub open spec fn after_check(s: MonitorState, retries: u32, outcome: CheckOutcome) -> (
    MonitorState,
    MonitorAction,
) {
    let failures = failures_after(s.failures, outcome);
    (
        MonitorState { failures, ..s },
        if outcome != CheckOutcome::Unreachable && failures >= retries {
            MonitorAction::StopMachine
        } else {
            MonitorAction::Wait
        },
    )
}

/// After the machine was found dead: it is started again after a pause if its policy
/// says so.
pub open spec fn after_death(s: MonitorState, should_restart: bool, backoff_secs: u64) -> (
    MonitorState,
    MonitorAction,
) {
    let cleared = MonitorState { failures: 0, ..s };
    if should_restart {
        (
            MonitorState {
                restart: RestartConfig {
                    restart_count: one_more(s.restart.restart_count),
                    ..s.restart
                },
                ..cleared
            },
            MonitorAction::Restart { backoff_secs },
        )
    } else {
        (cleared, MonitorAction::Quit)
    }
}

impl MonitorState {
    /// Watching begins.
    pub fn start(restart: RestartConfig, now: u64) -> (r: Self)
        ensures
            r == (MonitorState { failures: 0, last_check: now, last_start: now, restart }),
    {
        MonitorState { failures: 0, last_check: now, last_start: now, restart }
    }

    /// After a wait. The text tells of a suspend.
    pub fn waited(&mut self, interval_secs: u64, now: u64, stop: bool) -> (r: (
        MonitorAction,
        Option<String>,
    ))
        ensures
            (*final(self), r.0) == after_wait(*old(self), interval_secs, now, stop),
            opt_text(r.1) == if !stop && suspended(
                sat_sub(now as int, old(self).last_check as int),
                interval_secs,
            ) {
                Some(
                    "  detected suspend (~"@ + decimal(
                        (sat_sub(now as int, old(self).last_check as int) / 1000
                            - interval_secs) as nat,
                    ) + "s) — skipping health check for recovery"@,
                )
            } else {
                None
            },
    {
        if stop {
            return (MonitorAction::Quit, None);
        }
        let elapsed = now.saturating_sub(self.last_check);
        self.last_check = now;
        if elapsed as u128 > 3000 * (interval_secs as u128) {
            self.failures = 0;
            let away = elapsed / 1000 - interval_secs;
            let text = say3(
                "  detected suspend (~",
                string_of(&decimal_chars(away as u128)).as_str(),
                "s) — skipping health check for recovery",
            );
            return (MonitorAction::Wait, Some(text));
        }
        (MonitorAction::Probe, None)
    }

    /// After the machine was found alive.
    pub fn found_alive(&self, checks: bool, grace_secs: u64, now: u64) -> (r: MonitorAction)
        ensures
            (*self, r) == after_alive(*self, checks, grace_secs, now),
    {
        if grace_secs > 0 && (now.saturating_sub(self.last_start) as u128) < 1000 * (
        grace_secs as u128) {
            return MonitorAction::Wait;
        }
        if checks {
            MonitorAction::Check
        } else {
            MonitorAction::Wait
        }
    }

    /// After a health check. The text tells how it came out.
    pub fn checked(&mut self, retries: u32, outcome: CheckOutcome) -> (r: (
        MonitorAction,
        Vec<String>,
    ))
        ensures
            (*final(self), r.0) == after_check(*old(self), retries, outcome),
            texts(r.1@) == check_report(old(self).failures, retries, outcome),
    {
        let mut told: Vec<String> = Vec::new();
        proof { assert(texts(told@) =~= Seq::empty()); }
        let before = self.failures;
        let more = if before < u32::MAX {
            before + 1
        } else {
            before
        };
        let tally = say3(
            string_of(&decimal_chars(more as u128)).as_str(),
            "/",
            string_of(&decimal_chars(retries as u128)).as_str(),
        );
        let reached = match &outcome {
            CheckOutcome::Unreachable => {
                self.failures = more;
                push_text_line(
                    &mut told,
                    say3("  cannot connect to agent (", tally.as_str(), ")"),
                );
                false
            },
            CheckOutcome::Error(e) => {
                self.failures = more;
                push_text_line(
                    &mut told,
                    say4("  health check error (", tally.as_str(), "): ", e.as_str()),
                );
                true
            },
            CheckOutcome::Exit(code, stderr) => {
                if *code == 0 {
                    self.failures = 0;
                    if before > 0 {
                        push_text_line(&mut told, "  health check passed (recovered)".to_owned());
                    }
                } else {
                    self.failures = more;
                    let said = text_lossy(stderr);
                    push_text_line(
                        &mut told,
                        failed_check_line(*code, more, retries, said.as_str()),
                    );
                }
                true
            },
        };
        if reached && self.failures >= retries {
            push_text_line(&mut told, "  unhealthy — stopping machine for restart".to_owned());
            proof {
                assert(texts(told@) =~= check_report(before, retries, outcome));
            }
            return (MonitorAction::StopMachine, told);
        }
        proof {
            assert(texts(told@) =~= check_report(before, retries, outcome));
        }
        (MonitorAction::Wait, told)
    }

    /// After the machine was found dead. `should_restart` and `backoff_secs` are what
    /// the restart policy says. The texts tell of the end and of what follows.
    pub fn found_dead(&mut self, exit_code: Option<i32>, should_restart: bool, backoff_secs: u64) -> (r:
        (MonitorAction, Vec<String>))
        ensures
            (*final(self), r.0) == after_death(*old(self), should_restart, backoff_secs),
            texts(r.1@) == death_report(
                old(self).restart,
                exit_code,
                should_restart,
                backoff_secs,
            ),
    {
        self.failures = 0;
        let mut told: Vec<String> = Vec::new();
        proof { assert(texts(told@) =~= Seq::empty()); }
        let code = match exit_code {
            Some(c) => signed_text(c),
            None => "unknown".to_owned(),
        };
        push_text_line(&mut told, say3("  machine exited (exit code: ", code.as_str(), ")"));
        if should_restart {
            if self.restart.restart_count < u32::MAX {
                self.restart.restart_count = self.restart.restart_count + 1;
            }
            let attempt = string_of(&decimal_chars(self.restart.restart_count as u128));
            let pause = string_of(&decimal_chars(backoff_secs as u128));
            push_text_line(
                &mut told,
                say5(
                    "  restarting (attempt ",
                    attempt.as_str(),
                    ", backoff ",
                    pause.as_str(),
                    "s)...",
                ),
            );
            proof {
                assert(texts(told@) =~= death_report(
                    old(self).restart,
                    exit_code,
                    should_restart,
                    backoff_secs,
                ));
            }
            return (MonitorAction::Restart { backoff_secs }, told);
        }
        let count = string_of(&decimal_chars(self.restart.restart_count as u128));
        let limit = if self.restart.max_retries > 0 {
            string_of(&decimal_chars(self.restart.max_retries as u128))
        } else {
            "unlimited".to_owned()
        };
        let mut line = say5(
            "  not restarting (policy: ",
            policy_text(self.restart.policy).as_str(),
            ", count: ",
            count.as_str(),
            "/",
        );
        line.append(limit.as_str());
        line.append(")");
        push_text_line(&mut told, line);
        proof {
            assert(texts(told@) =~= death_report(
                old(self).restart,
                exit_code,
                should_restart,
                backoff_secs,
            ));
        }
        (MonitorAction::Quit, told)
    }

    /// After the pause before a restart: the user may have asked to stop.
    pub fn paused(&self, stop: bool) -> (r: MonitorAction)
        ensures
            r == if stop {
                MonitorAction::Quit
            } else {
                MonitorAction::Start
            },
    {
        if stop {
            MonitorAction::Quit
        } else {
            MonitorAction::Start
        }
    }

    /// After an attempt to start the machine; grace begins with one that worked.
    pub fn started(&mut self, ok: bool, now: u64) -> (r: MonitorAction)
        ensures
            *final(self) == (MonitorState {
                last_start: if ok {
                    now
                } else {
                    old(self).last_start
                },
                ..*old(self)
            }),
            r == MonitorAction::Wait,
    {
        if ok {
            self.last_start = now;
        }
        MonitorAction::Wait
    }
}

/// What is told of a health check that ended with a status and said something.
pub open spec fn failed_check(code: i32, failures: u32, retries: u32, said: Seq<char>) -> Seq<char> {
    "  health check failed (exit "@ + signed_decimal(code as int) + ", "@ + tally(failures, retries)
        + "): "@ + trim(said)
}

/// What is told of a health check that ended with a status and said something.
pub fn failed_check_line(code: i32, failures: u32, retries: u32, said: &str) -> (r: String)
    ensures
        r@ == failed_check(code, failures, retries, said@),
{
    let count = say3(
        string_of(&decimal_chars(failures as u128)).as_str(),
        "/",
        string_of(&decimal_chars(retries as u128)).as_str(),
    );
    let shown = string_of(&trim_chars(&chars_of(said)));
    let mut line = say5(
        "  health check failed (exit ",
        signed_text(code).as_str(),
        ", ",
        count.as_str(),
        "): ",
    );
    line.append(shown.as_str());
    line
}

fn push_text_line(out: &mut Vec<String>, line: String)
    ensures
        texts(final(out)@) == texts(old(out)@).push(line@),
{
    proof { lemma_texts_push(out@, line); }
    out.push(line);
}

/// Failures in a row out of how many are allowed.
pub open spec fn tally(failures: u32, retries: u32) -> Seq<char> {
    decimal(failures as nat) + "/"@ + decimal(retries as nat)
}

/// What is told of a health check.
pub open spec fn check_report(before: u32, retries: u32, outcome: CheckOutcome) -> Seq<Seq<char>> {
    let now = failures_after(before, outcome);
    let told = match outcome {
        CheckOutcome::Unreachable => seq![
            "  cannot connect to agent ("@ + tally(now, retries) + ")"@,
        ],
        CheckOutcome::Error(e) => seq![
            "  health check error ("@ + tally(now, retries) + "): "@ + e@,
        ],
        CheckOutcome::Exit(code, stderr) => if code != 0 {
            seq![failed_check(code, now, retries, lossy_text(stderr@))]
        } else if before > 0 {
            seq!["  health check passed (recovered)"@]
        } else {
            Seq::empty()
        },
    };
    if outcome != CheckOutcome::Unreachable && now >= retries {
        told.push("  unhealthy — stopping machine for restart"@)
    } else {
        told
    }
}

/// What is told of a machine's end.
pub open spec fn death_report(
    restart: RestartConfig,
    exit_code: Option<i32>,
    should_restart: bool,
    backoff_secs: u64,
) -> Seq<Seq<char>> {
    let end = "  machine exited (exit code: "@ + match exit_code {
        Some(c) => signed_decimal(c as int),
        None => "unknown"@,
    } + ")"@;
    if should_restart {
        seq![
            end,
            "  restarting (attempt "@ + decimal(one_more(restart.restart_count) as nat)
                + ", backoff "@ + decimal(backoff_secs as nat) + "s)..."@,
        ]
    } else {
        seq![
            end,
            "  not restarting (policy: "@ + policy_name(restart.policy) + ", count: "@ + decimal(
                restart.restart_count as nat,
            ) + "/"@ + (if restart.max_retries > 0 {
                decimal(restart.max_retries as nat)
            } else {
                "unlimited"@
            }) + ")"@,
        ]
    }
}

/// The record of a machine that was found dead.
pub fn note_death(record: &mut VmRecord, exit_code: Option<i32>)
    ensures
        final(record)@ == (VmModel {
            state: RecordState::Stopped,
            pid: None,
            last_exit_code: exit_code,
            ..old(record)@
        }),
{
    record.state = RecordState::Stopped;
    record.pid = None;
    record.last_exit_code = exit_code;
}

/// The record of a machine that is started again.
pub fn note_restart(record: &mut VmRecord, count: u32)
    ensures
        final(record)@ == (VmModel {
            restart: RestartConfig { restart_count: count, ..old(record)@.restart },
            ..old(record)@
        }),
{
    record.restart.restart_count = count;
}

/// The record of a machine that is no longer watched.
pub fn note_unwatched(record: &mut VmRecord)
    ensures
        final(record)@ == (VmModel {
            restart: RestartConfig { user_stopped: true, ..old(record)@.restart },
            ..old(record)@
        }),
{
    record.restart.user_stopped = true;
}

// ---------------------------------------------------------------------------
// Laws
// ---------------------------------------------------------------------------

/// Failures in a row after health checks that reach the machine.
pub open spec fn failures_run(start: u32, outcomes: Seq<CheckOutcome>) -> u32
    decreases outcomes.len(),
{
    if outcomes.len() == 0 {
        start
    } else {
        failures_after(failures_run(start, outcomes.drop_last()), outcomes.last())
    }
}

/// A check that fails.
pub open spec fn fails(o: CheckOutcome) -> bool {
    o matches CheckOutcome::Exit(code, _) ==> code != 0
}

/// A machine is stopped when as many checks in a row failed as are allowed, and not
/// before.
pub proof fn law_machine_is_stopped_after_its_retries(
    s: MonitorState,
    retries: u32,
    outcomes: Seq<CheckOutcome>,
    last: CheckOutcome,
)
    requires
        s.failures == 0,
        outcomes.len() < u32::MAX,
        forall|i: int| 0 <= i < outcomes.len() ==> fails(#[trigger] outcomes[i]),
        fails(last),
        last != CheckOutcome::Unreachable,
    ensures
        ({
            let before = MonitorState { failures: failures_run(0, outcomes), ..s };
            (after_check(before, retries, last).1 == MonitorAction::StopMachine) == (outcomes.len()
                + 1 >= retries)
        }),
{
    lemma_failures_run(outcomes);
}

proof fn lemma_failures_run(outcomes: Seq<CheckOutcome>)
    requires
        outcomes.len() < u32::MAX,
        forall|i: int| 0 <= i < outcomes.len() ==> fails(#[trigger] outcomes[i]),
    ensures
        failures_run(0, outcomes) == outcomes.len(),
    decreases outcomes.len(),
{
    if outcomes.len() > 0 {
        let front = outcomes.drop_last();
        assert forall|i: int| 0 <= i < front.len() implies fails(#[trigger] front[i]) by {
            assert(front[i] == outcomes[i]);
        }
        lemma_failures_run(front);
        assert(fails(outcomes[outcomes.len() - 1]));
    }
}

/// One check that passes forgets every failure before it.
pub proof fn law_recovery_forgets_failures(start: u32, outcomes: Seq<CheckOutcome>, i: int)
    requires
        0 <= i < outcomes.len(),
        !fails(outcomes[i]),
        outcomes.len() < u32::MAX,
        forall|j: int| i < j < outcomes.len() ==> fails(#[trigger] outcomes[j]),
    ensures
        failures_run(start, outcomes) == outcomes.len() - 1 - i,
    decreases outcomes.len(),
{
    let front = outcomes.drop_last();
    if i < front.len() {
        assert(front[i] == outcomes[i]);
        assert forall|j: int| i < j < front.len() implies fails(#[trigger] front[j]) by {
            assert(front[j] == outcomes[j]);
        }
        law_recovery_forgets_failures(start, front, i);
        assert(fails(outcomes[outcomes.len() - 1]));
    }
}

/// After a suspend the machine is left alone for one interval, and earlier failures
/// do not count.
pub proof fn law_suspend_is_forgiven(s: MonitorState, interval_secs: u64, now: u64)
    requires
        now - s.last_check > 3000 * interval_secs,
    ensures
        after_wait(s, interval_secs, now, false).0.failures == 0,
        after_wait(s, interval_secs, now, false).1 == MonitorAction::Wait,
{
}

} // verus!
