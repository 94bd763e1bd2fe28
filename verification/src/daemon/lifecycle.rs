//! Starting the daemon and its helpers, and when a worker ends.
use crate::copying::{opt_str, opt_text, texts};
use crate::daemon::policy::{DEAD_CLONE_GRACE_SECS, clone_worker_idle_expired, mps_enabled, switch};
use crate::numerals::{
    decimal, decimal_chars, lemma_numeral_value, parse_i32, parse_signed, sat_sub,
};
use crate::paths::{join, joined, parent_of, path_parent, plain_parent, plainly_written};
use crate::text::{chars_of, say4, string_of};
use crate::wire::{byte_stretch, bytes_eq};
use vstd::prelude::*;

verus! {

// ---------------------------------------------------------------------------
// The daemon
// ---------------------------------------------------------------------------

/// How often a daemon that was started is looked for, 25 milliseconds apart.
pub const LAUNCH_POLLS: u32 = 200;

/// A step of making sure that the daemon runs.
#[derive(Debug, Clone, Copy, PartialEq, Eq, Structural)]
pub enum LaunchStep {
    /// See whether it answers, without the lock.
    Look,
    /// Take the lock.
    Lock,
    /// See whether it answers now.
    LookAgain,
    /// Remove the stale socket and start it.
    Spawn,
    /// See whether it answers, this many times at most.
    Poll { left: u32 },
    /// It runs.
    Running,
    /// The lock or the process failed.
    Failed,
    /// It did not come up.
    TimedOut,
}

impl LaunchStep {
    /// The step after one that found it or worked, or did not. With a daemon that
    /// answers, the lock is not needed.
    pub open spec fn after(self, ok: bool) -> LaunchStep {
        match self {
            LaunchStep::Look => if ok {
                LaunchStep::Running
            } else {
                LaunchStep::Lock
            },
            LaunchStep::Lock => if ok {
                LaunchStep::LookAgain
            } else {
                LaunchStep::Failed
            },
            LaunchStep::LookAgain => if ok {
                LaunchStep::Running
            } else {
                LaunchStep::Spawn
            },
            LaunchStep::Spawn => if ok {
                LaunchStep::Poll { left: LAUNCH_POLLS }
            } else {
                LaunchStep::Failed
            },
            LaunchStep::Poll { left } => if ok {
                LaunchStep::Running
            } else if left > 1 {
                LaunchStep::Poll { left: (left - 1) as u32 }
            } else {
                LaunchStep::TimedOut
            },
            _ => self,
        }
    }

    /// The step after one that found it or worked, or did not.
    pub fn advance(self, ok: bool) -> (r: LaunchStep)
        ensures
            r == self.after(ok),
    {
        match self {
            LaunchStep::Look => if ok {
                LaunchStep::Running
            } else {
                LaunchStep::Lock
            },
            LaunchStep::Lock => if ok {
                LaunchStep::LookAgain
            } else {
                LaunchStep::Failed
            },
            LaunchStep::LookAgain => if ok {
                LaunchStep::Running
            } else {
                LaunchStep::Spawn
            },
            LaunchStep::Spawn => if ok {
                LaunchStep::Poll { left: LAUNCH_POLLS }
            } else {
                LaunchStep::Failed
            },
            LaunchStep::Poll { left } => if ok {
                LaunchStep::Running
            } else if left > 1 {
                LaunchStep::Poll { left: left - 1 }
            } else {
                LaunchStep::TimedOut
            },
            LaunchStep::Running => LaunchStep::Running,
            LaunchStep::Failed => LaunchStep::Failed,
            LaunchStep::TimedOut => LaunchStep::TimedOut,
        }
    }

    /// Nothing is left to do.
    pub open spec fn ended(self) -> bool {
        self == LaunchStep::Running || self == LaunchStep::Failed || self == LaunchStep::TimedOut
    }
}

/// Where a launch stands after outcomes of its steps.
pub open spec fn launch_after(outcomes: Seq<bool>) -> LaunchStep
    decreases outcomes.len(),
{
    if outcomes.len() == 0 {
        LaunchStep::Look
    } else {
        launch_after(outcomes.drop_last()).after(outcomes.last())
    }
}

/// What is left of a launch at most.
spec fn launch_rank(step: LaunchStep) -> int {
    match step {
        LaunchStep::Look => LAUNCH_POLLS + 4,
        LaunchStep::Lock => LAUNCH_POLLS + 3,
        LaunchStep::LookAgain => LAUNCH_POLLS + 2,
        LaunchStep::Spawn => LAUNCH_POLLS + 1,
        LaunchStep::Poll { left } => if left > 0 {
            left as int
        } else {
            1
        },
        _ => 0,
    }
}

proof fn lemma_launch(outcomes: Seq<bool>)
    ensures
        launch_rank(launch_after(outcomes)) <= LAUNCH_POLLS + 4 - outcomes.len() || launch_after(
            outcomes,
        ).ended(),
    decreases outcomes.len(),
{
    if outcomes.len() > 0 {
        lemma_launch(outcomes.drop_last());
    }
}

/// Making sure that the daemon runs comes to an end.
pub proof fn law_launch_ends(outcomes: Seq<bool>)
    requires
        outcomes.len() >= LAUNCH_POLLS + 4,
    ensures
        launch_after(outcomes).ended(),
{
    lemma_launch(outcomes);
}

/// The variables that a daemon with automatic workers is given, where the user set
/// none.
pub fn launch_flags(automatic: bool, workers_set: bool, isolate_set: bool) -> (r: Vec<String>)
    ensures
        texts(r@) == (if automatic && !workers_set {
            seq!["SMOLVM_CUDA_FORK_WORKERS"@]
        } else {
            Seq::empty()
        }) + if automatic && !isolate_set {
            seq!["SMOLVM_CUDA_FORK_ISOLATE"@]
        } else {
            Seq::empty()
        },
{
    let mut out: Vec<String> = Vec::new();
    if automatic && !workers_set {
        out.push("SMOLVM_CUDA_FORK_WORKERS".to_owned());
    }
    if automatic && !isolate_set {
        out.push("SMOLVM_CUDA_FORK_ISOLATE".to_owned());
    }
    proof {
        assert(texts(out@) =~= (if automatic && !workers_set {
            seq!["SMOLVM_CUDA_FORK_WORKERS"@]
        } else {
            Seq::empty()
        }) + if automatic && !isolate_set {
            seq!["SMOLVM_CUDA_FORK_ISOLATE"@]
        } else {
            Seq::empty()
        });
    }
    out
}

// ---------------------------------------------------------------------------
// Workers that were left behind
// ---------------------------------------------------------------------------

/// The command line holds an argument from `i` on.
pub open spec fn argument_at(cmdline: Seq<u8>, arg: Seq<u8>, i: int) -> bool {
    &&& 0 <= i
    &&& i + arg.len() <= cmdline.len()
    &&& i == 0 || cmdline[i - 1] == 0
    &&& i + arg.len() == cmdline.len() || cmdline[i + arg.len() as int] == 0
    &&& cmdline.subrange(i, i + arg.len()) == arg
}

/// The command line, whose arguments end in zero bytes, holds an argument.
pub open spec fn holds_argument(cmdline: Seq<u8>, arg: Seq<u8>) -> bool {
    exists|i: int| argument_at(cmdline, arg, i)
}

fn argument_here(cmdline: &[u8], arg: &[u8], i: usize) -> (r: bool)
    requires
        i <= cmdline@.len(),
    ensures
        r == argument_at(cmdline@, arg@, i as int),
{
    let size: usize = cmdline.len();
    let width: usize = arg.len();
    if width > size - i {
        return false;
    }
    if i > 0 && cmdline[i - 1] != 0 {
        return false;
    }
    let end = i + width;
    if end < size && cmdline[end] != 0 {
        return false;
    }
    let part = byte_stretch(cmdline, i, end);
    bytes_eq(&part, arg)
}

/// Whether a command line holds an argument.
pub fn has_argument(cmdline: &[u8], arg: &[u8]) -> (r: bool)
    ensures
        r == holds_argument(cmdline@, arg@),
{
    let size: usize = cmdline.len();
    let mut i: usize = 0;
    while i < size
        invariant
            i <= size,
            size == cmdline@.len(),
            forall|j: int| 0 <= j < i ==> !argument_at(cmdline@, arg@, j),
        decreases size - i,
    {
        if argument_here(cmdline, arg, i) {
            proof { assert(argument_at(cmdline@, arg@, i as int)); }
            return true;
        }
        i = i + 1;
    }
    argument_here(cmdline, arg, size)
}

/// The process that an entry of the process list names, if it is a worker that was
/// left behind: not this process, and started as one. Workers of a running daemon
/// are not there yet when this is asked.
pub fn orphan_worker(entry: &str, me: u32, cmdline: &[u8]) -> (r: Option<i32>)
    ensures
        match parse_signed(entry@) {
            Some(pid) => r == if (if pid < 0 {
                pid + 0x1_0000_0000
            } else {
                pid
            }) != me && holds_argument(
                cmdline@,
                vstd::utf8::encode_utf8("_cuda-clone-worker"@),
            ) {
                Some(pid as i32)
            } else {
                None
            },
            None => r is None,
        },
{
    match parse_i32(&chars_of(entry)) {
        Some(pid) => {
            let unsigned: i64 = if pid < 0 {
                pid as i64 + 0x1_0000_0000
            } else {
                pid as i64
            };
            if unsigned == me as i64 {
                return None;
            }
            if has_argument(cmdline, "_cuda-clone-worker".as_bytes()) {
                Some(pid)
            } else {
                None
            }
        },
        None => None,
    }
}

// ---------------------------------------------------------------------------
// The service that shares a device among processes
// ---------------------------------------------------------------------------

/// How a device is shared among processes.
#[derive(Debug, PartialEq, Eq)]
pub enum MpsPlan {
    /// Not by a service.
    Off,
    /// By one that someone else runs.
    External,
    /// By one of the daemon's own.
    Private { pipe: String, log_root: String, logs: String },
}

/// Where the logs of the daemon's own service lie: beside its socket, whose directory is
/// this.
pub open spec fn mps_log_root(dir: Option<Seq<char>>) -> Seq<char> {
    joined(
        match dir {
            Some(dir) => dir,
            None => "/tmp"@,
        },
        "cuda-mps-logs"@,
    )
}

/// How a device is shared: only if it is wanted; a service that someone else runs is
/// used and never touched; one of the daemon's own lies in directories that no other
/// daemon has.
pub fn mps_plan(
    mode: Option<&str>,
    fork_workers: bool,
    external: bool,
    sock: &str,
    temp: &str,
    uid: u32,
    pid: u32,
) -> (r: MpsPlan)
    ensures
        mps_planned(
            opt_str(mode),
            fork_workers,
            external,
            path_parent(sock@),
            temp@,
            uid,
            pid,
            r,
        ),
        plainly_written(sock@) ==> mps_planned(
            opt_str(mode),
            fork_workers,
            external,
            Some(plain_parent(sock@)),
            temp@,
            uid,
            pid,
            r,
        ),
{
    mps_plan_beside(mode, fork_workers, external, parent_of(sock), temp, uid, pid)
}

/// What a plan is, with the daemon's socket in `dir`.
pub open spec fn mps_planned(
    mode: Option<Seq<char>>,
    fork_workers: bool,
    external: bool,
    dir: Option<Seq<char>>,
    temp: Seq<char>,
    uid: u32,
    pid: u32,
    r: MpsPlan,
) -> bool {
    let wanted = match switch(mode) {
        Some(on) => on,
        None => fork_workers,
    };
    if !wanted {
        r is Off
    } else if external {
        r is External
    } else {
        r matches MpsPlan::Private { pipe, log_root, logs } && pipe@ == joined(
            temp,
            "smolvm-mps-"@ + decimal(uid as nat) + "-"@ + decimal(pid as nat),
        ) && log_root@ == mps_log_root(dir) && logs@ == joined(
            mps_log_root(dir),
            decimal(pid as nat),
        )
    }
}

/// How a device is shared, with the daemon's socket in `dir`.
pub fn mps_plan_beside(
    mode: Option<&str>,
    fork_workers: bool,
    external: bool,
    dir: Option<String>,
    temp: &str,
    uid: u32,
    pid: u32,
) -> (r: MpsPlan)
    ensures
        mps_planned(opt_str(mode), fork_workers, external, opt_text(dir), temp@, uid, pid, r),
{
    if !mps_enabled(mode, fork_workers) {
        return MpsPlan::Off;
    }
    if external {
        return MpsPlan::External;
    }
    let user = string_of(&decimal_chars(uid as u128));
    let own = string_of(&decimal_chars(pid as u128));
    let name = say4("smolvm-mps-", user.as_str(), "-", own.as_str());
    let dir = match dir {
        Some(d) => d,
        None => "/tmp".to_owned(),
    };
    let log_root = join(dir.as_str(), "cuda-mps-logs");
    let logs = join(log_root.as_str(), own.as_str());
    MpsPlan::Private { pipe: join(temp, name.as_str()), log_root, logs }
}

/// Two daemons that run at once never share a service's directory.
pub proof fn law_private_services_are_apart(uid: u32, a: u32, b: u32)
    requires
        a != b,
    ensures
        "smolvm-mps-"@ + decimal(uid as nat) + "-"@ + decimal(a as nat) != "smolvm-mps-"@ + decimal(
            uid as nat,
        ) + "-"@ + decimal(b as nat),
{
    let head = "smolvm-mps-"@ + decimal(uid as nat) + "-"@;
    let x = head + decimal(a as nat);
    let y = head + decimal(b as nat);
    if x == y {
        assert(x.skip(head.len() as int) =~= decimal(a as nat));
        assert(y.skip(head.len() as int) =~= decimal(b as nat));
        lemma_numeral_value(a as nat, 10);
        lemma_numeral_value(b as nat, 10);
    }
}

/// Something to remove: a file, or a directory if nothing is left in it.
#[derive(Debug)]
pub struct Removal {
    pub directory: bool,
    pub path: String,
}

/// Whether it is a directory, and its path.
pub open spec fn removal_views(v: Seq<Removal>) -> Seq<(bool, Seq<char>)> {
    v.map_values(|r: Removal| (r.directory, r.path@))
}

/// Files that the service may leave in its directory, then the directory.
pub open spec fn pipe_removals(pipe: Option<Seq<char>>) -> Seq<(bool, Seq<char>)> {
    match pipe {
        Some(dir) => seq![
            (false, joined(dir, "control"@)),
            (false, joined(dir, "control_privileged"@)),
            (false, joined(dir, "control_lock"@)),
            (false, joined(dir, "log"@)),
            (false, joined(dir, "nvidia-cuda-mps-control.pid"@)),
            (true, dir),
        ],
        None => Seq::empty(),
    }
}

/// Logs that the service may leave, then their directory.
pub open spec fn log_removals(logs: Option<Seq<char>>) -> Seq<(bool, Seq<char>)> {
    match logs {
        Some(dir) => seq![
            (false, joined(dir, "control.log"@)),
            (false, joined(dir, "server.log"@)),
            (true, dir),
        ],
        None => Seq::empty(),
    }
}

fn file_below(dir: &str, name: &str) -> (r: Removal)
    ensures
        !r.directory,
        r.path@ == joined(dir@, name@),
{
    Removal { directory: false, path: join(dir, name) }
}

/// What is removed of a service that ended, in this order: only what the service is
/// known to leave behind. A directory that holds anything else stays.
pub fn cleanup_private_mps_paths(pipe: Option<&str>, logs: Option<&str>) -> (r: Vec<Removal>)
    ensures
        removal_views(r@) == pipe_removals(opt_str(pipe)) + log_removals(opt_str(logs)),
{
    let mut r: Vec<Removal> = Vec::new();
    match pipe {
        Some(dir) => {
            r.push(file_below(dir, "control"));
            r.push(file_below(dir, "control_privileged"));
            r.push(file_below(dir, "control_lock"));
            r.push(file_below(dir, "log"));
            r.push(file_below(dir, "nvidia-cuda-mps-control.pid"));
            r.push(Removal { directory: true, path: dir.to_owned() });
        },
        None => {},
    }
    proof { assert(removal_views(r@) =~= pipe_removals(opt_str(pipe))); }
    let ghost first = r@;
    match logs {
        Some(dir) => {
            r.push(file_below(dir, "control.log"));
            r.push(file_below(dir, "server.log"));
            r.push(Removal { directory: true, path: dir.to_owned() });
        },
        None => {},
    }
    proof {
        assert(removal_views(r@) =~= removal_views(first) + log_removals(opt_str(logs)));
    }
    r
}

// ---------------------------------------------------------------------------
// A worker that waits for channels
// ---------------------------------------------------------------------------

/// What a worker does next.
#[derive(Debug, Clone, Copy, PartialEq, Eq, Structural)]
pub enum AttachStep {
    /// Wait up to a second for a channel.
    Poll,
    /// Look again.
    Again,
    /// Take the channel.
    Receive,
    /// End.
    End,
}

/// A worker that waits for channels.
#[derive(Debug, Clone, Copy, PartialEq, Eq, Structural)]
pub struct AttachListener {
    /// Since when nothing used it, in milliseconds.
    pub idle_since: u64,
}

impl AttachListener {
    /// Looks at who uses the worker: it ends once nobody has for long enough, and its
    /// clone does not live.
    pub fn look(
        &mut self,
        active: usize,
        clone_vm_alive: Option<bool>,
        now: u64,
        timeout_millis: u64,
    ) -> (r: AttachStep)
        ensures
            ({
                let idle = sat_sub(now as int, old(self).idle_since as int);
                if active > 0 || clone_vm_alive == Some(true) {
                    r == AttachStep::Poll && final(self).idle_since == now
                } else {
                    &&& final(self).idle_since == old(self).idle_since
                    &&& r == if idle >= match clone_vm_alive {
                        Some(_) => DEAD_CLONE_GRACE_SECS * 1000,
                        None => timeout_millis as int,
                    } {
                        AttachStep::End
                    } else {
                        AttachStep::Poll
                    }
                }
            }),
    {
        let alive = match clone_vm_alive {
            Some(b) => b,
            None => false,
        };
        if active > 0 || alive {
            self.idle_since = now;
            return AttachStep::Poll;
        }
        if clone_worker_idle_expired(
            active,
            clone_vm_alive,
            now.saturating_sub(self.idle_since),
            timeout_millis,
        ) {
            return AttachStep::End;
        }
        AttachStep::Poll
    }

    /// After a wait: nothing came, an interruption, a failure, or a channel.
    pub fn polled(ready: i32, interrupted: bool) -> (r: AttachStep)
        ensures
            r == if ready == 0 || (ready < 0 && interrupted) {
                AttachStep::Again
            } else if ready < 0 {
                AttachStep::End
            } else {
                AttachStep::Receive
            },
    {
        if ready == 0 || (ready < 0 && interrupted) {
            AttachStep::Again
        } else if ready < 0 {
            AttachStep::End
        } else {
            AttachStep::Receive
        }
    }
}

// ---------------------------------------------------------------------------
// Snapshots on the host
// ---------------------------------------------------------------------------

/// Where the next piece of a transfer lies in its file.
pub fn transfer_at(offset: u64, done: usize) -> (r: i64)
    ensures
        r == if offset + done <= i64::MAX {
            offset + done
        } else {
            i64::MAX as int
        },
{
    let at = offset.saturating_add(done as u64);
    if at <= 0x7fff_ffff_ffff_ffff {
        at as i64
    } else {
        0x7fff_ffff_ffff_ffff
    }
}

/// How a transfer goes on.
#[derive(Debug, Clone, Copy, PartialEq, Eq, Structural)]
pub enum Transfer {
    /// So many bytes are done; go on unless those are all.
    Done(usize),
    /// Try again.
    Again,
    /// It came to an end too early.
    Short,
    /// It failed.
    Failed,
}

/// How a transfer goes on after a call that moved `moved` bytes, or failed if that is
/// negative.
pub fn transfer_step(done: usize, size: usize, moved: i64, interrupted: bool) -> (r: Transfer)
    requires
        done < size,
        moved <= size - done,
    ensures
        r == if moved < 0 {
            if interrupted {
                Transfer::Again
            } else {
                Transfer::Failed
            }
        } else if moved == 0 {
            Transfer::Short
        } else {
            Transfer::Done((done + moved) as usize)
        },
        r matches Transfer::Done(n) ==> done < n <= size,
{
    if moved < 0 {
        if interrupted {
            Transfer::Again
        } else {
            Transfer::Failed
        }
    } else if moved == 0 {
        Transfer::Short
    } else {
        Transfer::Done(done + moved as usize)
    }
}

/// Whether what was uploaded to a range is still there: of each piece the sum is
/// known, lies within the bytes, and is that of the bytes. `sums` are those of the
/// bytes of each piece.
pub fn chunk_verified(pieces: &[(u64, u64, u64)], size: usize, sums: &[u64]) -> (r: bool)
    requires
        pieces@.len() == sums@.len(),
    ensures
        r == forall|i: int|
            0 <= i < pieces@.len() ==> (#[trigger] pieces@[i]).2 != 0 && pieces@[i].1 <= size
                && sums@[i] == pieces@[i].2,
{
    let mut i: usize = 0;
    while i < pieces.len()
        invariant
            i <= pieces@.len(),
            pieces@.len() == sums@.len(),
            forall|j: int|
                0 <= j < i ==> (#[trigger] pieces@[j]).2 != 0 && pieces@[j].1 <= size && sums@[j]
                    == pieces@[j].2,
        decreases pieces@.len() - i,
    {
        let (_, end, sum) = pieces[i];
        if sum == 0 || end > size as u64 || sums[i] != sum {
            proof {
                assert(!(pieces@[i as int].2 != 0 && pieces@[i as int].1 <= size && sums@[i as int]
                    == pieces@[i as int].2));
            }
            return false;
        }
        i = i + 1;
    }
    true
}

// ---------------------------------------------------------------------------
// Staging ordinary allocations
// ---------------------------------------------------------------------------

/// A driver call that stages copies of ordinary allocations.
#[derive(Debug, Clone, Copy, PartialEq, Eq, Structural)]
pub enum StageCall {
    Create,
    Reserve,
    MapAt,
    Access,
    /// Copy the allocation with this number.
    Copy(usize),
    Synchronize,
    Unmap,
    FreeRange,
    Export,
    Release,
}

/// Staging while it goes on.
#[derive(Debug, Clone, Copy, PartialEq, Eq, Structural)]
pub struct Staging {
    pub call: StageCall,
    /// Allocations to copy.
    pub allocs: usize,
    /// A call failed, so nothing is handed over.
    pub failed: bool,
}

impl Staging {
    /// The first call.
    pub fn start(allocs: usize) -> (r: Self)
        ensures
            r == (Staging { call: StageCall::Create, allocs, failed: false }),
    {
        Staging { call: StageCall::Create, allocs, failed: false }
    }

    /// The call after one that did or did not work; none after the last. Unmapping and
    /// freeing follow even a copy that failed, and the memory is always released: what
    /// was exported keeps it alive by itself.
    pub open spec fn after(self, ok: bool) -> Option<Staging> {
        let go = |call: StageCall| Some(Staging { call, ..self });
        let fail = |call: StageCall| Some(Staging { call, failed: true, ..self });
        match self.call {
            StageCall::Create => if ok {
                go(StageCall::Reserve)
            } else {
                None
            },
            StageCall::Reserve => if ok {
                go(StageCall::MapAt)
            } else {
                fail(StageCall::Release)
            },
            StageCall::MapAt => if ok {
                go(StageCall::Access)
            } else {
                fail(StageCall::Unmap)
            },
            StageCall::Access => if !ok {
                fail(StageCall::Unmap)
            } else if self.allocs > 0 {
                go(StageCall::Copy(0))
            } else {
                go(StageCall::Synchronize)
            },
            StageCall::Copy(i) => if !ok {
                fail(StageCall::Unmap)
            } else if i + 1 < self.allocs {
                go(StageCall::Copy((i + 1) as usize))
            } else {
                go(StageCall::Synchronize)
            },
            StageCall::Synchronize => go(StageCall::Unmap),
            StageCall::Unmap => go(StageCall::FreeRange),
            StageCall::FreeRange => if self.failed {
                go(StageCall::Release)
            } else {
                go(StageCall::Export)
            },
            StageCall::Export => if ok {
                go(StageCall::Release)
            } else {
                fail(StageCall::Release)
            },
            StageCall::Release => None,
        }
    }

    /// The call after one that did or did not work; none after the last.
    pub fn advance(self, ok: bool) -> (r: Option<Staging>)
        ensures
            r == self.after(ok),
    {
        let call = match self.call {
            StageCall::Create => if ok {
                StageCall::Reserve
            } else {
                return None;
            },
            StageCall::Reserve => if ok {
                StageCall::MapAt
            } else {
                return self.failing(StageCall::Release);
            },
            StageCall::MapAt => if ok {
                StageCall::Access
            } else {
                return self.failing(StageCall::Unmap);
            },
            StageCall::Access => if !ok {
                return self.failing(StageCall::Unmap);
            } else if self.allocs > 0 {
                StageCall::Copy(0)
            } else {
                StageCall::Synchronize
            },
            StageCall::Copy(i) => if !ok {
                return self.failing(StageCall::Unmap);
            } else if i < self.allocs && i + 1 < self.allocs {
                StageCall::Copy(i + 1)
            } else {
                StageCall::Synchronize
            },
            StageCall::Synchronize => StageCall::Unmap,
            StageCall::Unmap => StageCall::FreeRange,
            StageCall::FreeRange => if self.failed {
                StageCall::Release
            } else {
                StageCall::Export
            },
            StageCall::Export => if ok {
                StageCall::Release
            } else {
                return self.failing(StageCall::Release);
            },
            StageCall::Release => {
                return None;
            },
        };
        Some(Staging { call, allocs: self.allocs, failed: self.failed })
    }

    fn failing(self, call: StageCall) -> (r: Option<Staging>)
        ensures
            r == Some(Staging { call, failed: true, ..self }),
    {
        Some(Staging { call, allocs: self.allocs, failed: true })
    }
}

/// Memory that was created for staging is always released: nothing ends staging but
/// that, or memory that could not be created.
pub proof fn law_staging_memory_is_released(s: Staging, ok: bool)
    requires
        s.after(ok) is None,
    ensures
        s.call == StageCall::Release || (s.call == StageCall::Create && !ok),
{
}

/// Staging whose copies failed is never handed over.
pub proof fn law_failed_staging_is_not_exported(s: Staging, ok: bool)
    requires
        s.failed,
        s.call != StageCall::Export,
        s.after(ok) is Some,
    ensures
        s.after(ok)->Some_0.failed,
        s.after(ok)->Some_0.call != StageCall::Export,
{
}

} // verus!
