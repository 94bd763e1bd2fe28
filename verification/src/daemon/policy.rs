//! Settings of the daemon and the decisions that follow from them.
use crate::copying::opt_str;
use crate::numerals::{parse_number, parse_u64};
use crate::split::{lines, pieces, split_lines, split_words, trim, trim_chars, words};
use crate::text::{ascii_lower, chars_are, chars_of, lower_chars, text_eq};
use vstd::prelude::*;

verus! {

/// Largest lifetime of a pending tensor bundle, in seconds.
pub const MAX_TENSOR_BUNDLE_TTL_SECS: u64 = 3600;

/// Lifetime of a pending tensor bundle unless configured, in seconds.
pub const DEFAULT_TENSOR_BUNDLE_TTL_SECS: u64 = 300;

/// Idle time of the daemon and of a clone worker unless configured, in seconds.
pub const DEFAULT_IDLE_SECS: u64 = 300;

/// Host memory that a snapshot always leaves free, in bytes.
pub const SNAPSHOT_RESERVE_BYTES: u64 = 0x4000_0000;

/// What a switch is explicitly set to: off for `0`, `off`, `false` and `no`, on
/// for `1`, `on`, `true`, `yes` and `force`, in any case and with white space
/// round it; anything else leaves it open.
pub open spec fn switch(mode: Option<Seq<char>>) -> Option<bool> {
    match mode {
        None => None,
        Some(text) => {
            let word = ascii_lower(trim(text));
            if word == "0"@ || word == "off"@ || word == "false"@ || word == "no"@ {
                Some(false)
            } else if word == "1"@ || word == "on"@ || word == "true"@ || word == "yes"@ || word
                == "force"@ {
                Some(true)
            } else {
                None
            }
        },
    }
}

/// What a switch is explicitly set to.
fn read_switch(mode: Option<&str>) -> (r: Option<bool>)
    ensures
        r == switch(opt_str(mode)),
{
    match mode {
        None => None,
        Some(text) => {
            let chars = chars_of(text);
            let word = lower_chars(&trim_chars(&chars));
            if chars_are(&word, "0") || chars_are(&word, "off") || chars_are(&word, "false")
                || chars_are(&word, "no") {
                Some(false)
            } else if chars_are(&word, "1") || chars_are(&word, "on") || chars_are(&word, "true")
                || chars_are(&word, "yes") || chars_are(&word, "force") {
                Some(true)
            } else {
                None
            }
        },
    }
}

/// Whether the daemon runs its own MPS controller: as configured, and otherwise
/// exactly for fork-worker pools.
pub fn mps_enabled(mode: Option<&str>, fork_workers: bool) -> (r: bool)
    ensures
        r == match switch(opt_str(mode)) {
            Some(on) => on,
            None => fork_workers,
        },
{
    match read_switch(mode) {
        Some(on) => on,
        None => fork_workers,
    }
}

/// Whether a frozen golden gives up its CUDA context once its pool is resident:
/// always for a pool, unless switched off.
pub fn golden_eviction_enabled(mode: Option<&str>, fork_pool_size: Option<u32>) -> (r: bool)
    ensures
        r == (switch(opt_str(mode)) != Some(false) && (fork_pool_size matches Some(n) && n > 0)),
{
    let pool = match fork_pool_size {
        Some(n) => n > 0,
        None => false,
    };
    match read_switch(mode) {
        Some(false) => false,
        _ => pool,
    }
}

/// Whether a fork keeps a reusable snapshot of its golden.
pub fn fork_snapshot_enabled(golden_eviction: bool, share_weights: bool) -> (r: bool)
    ensures
        r == (golden_eviction || share_weights),
{
    golden_eviction || share_weights
}

/// The memory that a line of the host's memory report says is available.
pub open spec fn available_kib_of_line(line: Seq<char>) -> Option<nat> {
    let fields = words(line);
    if fields.len() >= 2 && fields[0] == "MemAvailable:"@ {
        parse_number(fields[1], 10, u64::MAX as nat)
    } else {
        None
    }
}

/// The memory that the first telling line of the report says is available.
pub open spec fn available_kib(lines: Seq<Seq<char>>) -> Option<nat>
    decreases lines.len(),
{
    if lines.len() == 0 {
        None
    } else {
        match available_kib_of_line(lines[0]) {
            Some(kib) => Some(kib),
            None => available_kib(lines.skip(1)),
        }
    }
}

/// The host memory that a snapshot of `required` bytes leaves free.
pub open spec fn snapshot_reserve(required: u64) -> int {
    if required / 4 >= SNAPSHOT_RESERVE_BYTES {
        required as int / 4
    } else {
        SNAPSHOT_RESERVE_BYTES as int
    }
}

/// Whether a host that reports `meminfo` can hold a snapshot of `required` bytes
/// beside its reserve.
pub open spec fn snapshot_fits(required: u64, meminfo: Seq<char>) -> bool {
    match available_kib(lines(meminfo)) {
        Some(kib) => {
            &&& kib * 1024 <= u64::MAX
            &&& required + snapshot_reserve(required) <= kib * 1024
        },
        None => false,
    }
}

/// Whether a host that reports `meminfo` can hold a snapshot of `required` bytes
/// beside its reserve.
pub fn host_snapshot_fits(required: u64, meminfo: &str) -> (r: bool)
    ensures
        r == snapshot_fits(required, meminfo@),
{
    let chars = chars_of(meminfo);
    let all = split_lines(&chars);
    let ghost view = pieces(all@);
    let mut found: Option<u64> = None;
    let mut i: usize = 0;
    proof { assert(view.skip(0) =~= view); }
    while i < all.len() && found.is_none()
        invariant
            i <= all@.len(),
            view == pieces(all@),
            view == lines(meminfo@),
            match found {
                Some(kib) => available_kib(view) == Some(kib as nat),
                None => available_kib(view) == available_kib(view.skip(i as int)),
            },
        decreases all@.len() - i,
    {
        let fields = split_words(&all[i]);
        let ghost line = view[i as int];
        proof {
            assert(line == all@[i as int]@);
            assert(view.skip(i as int)[0] == line);
            assert(view.skip(i as int).skip(1) =~= view.skip(i + 1));
            assert(pieces(fields@) == words(line));
            assert(pieces(fields@).len() == fields@.len());
        }
        if fields.len() >= 2 && chars_are(&fields[0], "MemAvailable:") {
            proof {
                assert(pieces(fields@)[0] == fields@[0]@);
                assert(pieces(fields@)[1] == fields@[1]@);
            }
            found = parse_u64(&fields[1]);
        } else {
            proof {
                if fields@.len() >= 2 {
                    assert(pieces(fields@)[0] == fields@[0]@);
                }
            }
        }
        i = i + 1;
    }
    proof {
        if found is None {
            assert(view.skip(i as int).len() == 0);
        }
    }
    let available = match found {
        Some(kib) => match kib.checked_mul(1024) {
            Some(bytes) => bytes,
            None => {
                return false;
            },
        },
        None => {
            return false;
        },
    };
    let quarter = required / 4;
    let reserve = if quarter >= SNAPSHOT_RESERVE_BYTES {
        quarter
    } else {
        SNAPSHOT_RESERVE_BYTES
    };
    match required.checked_add(reserve) {
        Some(needed) => needed <= available,
        None => false,
    }
}

/// Whether a snapshot can own the frozen state: there is device memory that is
/// restored at its own addresses.
pub fn host_snapshot_reconstructable(vmm_maps: usize, ordinary_allocs: usize) -> (r: bool)
    ensures
        r == (vmm_maps > 0 || ordinary_allocs > 0),
{
    vmm_maps > 0 || ordinary_allocs > 0
}

/// The number that a setting writes, with white space round it.
pub open spec fn setting_number(value: Option<Seq<char>>) -> Option<nat> {
    match value {
        Some(text) => parse_number(trim(text), 10, u64::MAX as nat),
        None => None,
    }
}

/// The number that a setting writes.
pub fn read_setting(value: Option<&str>) -> (r: Option<u64>)
    ensures
        match r {
            Some(n) => setting_number(opt_str(value)) == Some(n as nat),
            None => setting_number(opt_str(value)) is None,
        },
{
    match value {
        Some(text) => {
            let chars = chars_of(text);
            parse_u64(&trim_chars(&chars))
        },
        None => None,
    }
}

/// Seconds a pending tensor bundle lives: as configured between one second and
/// an hour, and otherwise five minutes.
pub fn tensor_bundle_ttl_from(value: Option<&str>) -> (secs: u64)
    ensures
        secs == match setting_number(opt_str(value)) {
            Some(n) if 1 <= n <= MAX_TENSOR_BUNDLE_TTL_SECS => n as int,
            _ => DEFAULT_TENSOR_BUNDLE_TTL_SECS as int,
        },
        1 <= secs <= MAX_TENSOR_BUNDLE_TTL_SECS,
{
    match read_setting(value) {
        Some(n) => {
            if 1 <= n && n <= MAX_TENSOR_BUNDLE_TTL_SECS {
                n
            } else {
                DEFAULT_TENSOR_BUNDLE_TTL_SECS
            }
        },
        None => DEFAULT_TENSOR_BUNDLE_TTL_SECS,
    }
}

/// Seconds the daemon waits without clients before it exits; zero means for ever.
pub fn idle_timeout_from(value: Option<&str>) -> (r: Option<u64>)
    ensures
        r == match setting_number(opt_str(value)) {
            Some(n) => if n > 0 {
                Some(n as u64)
            } else {
                None
            },
            None => Some(DEFAULT_IDLE_SECS),
        },
{
    match read_setting(value) {
        Some(n) => if n > 0 {
            Some(n)
        } else {
            None
        },
        None => Some(DEFAULT_IDLE_SECS),
    }
}

/// Seconds a clone worker waits for a channel before it exits.
pub fn clone_worker_idle_timeout_from(value: Option<&str>) -> (secs: u64)
    ensures
        secs == match setting_number(opt_str(value)) {
            Some(n) => n as int,
            None => DEFAULT_IDLE_SECS as int,
        },
{
    match read_setting(value) {
        Some(n) => n,
        None => DEFAULT_IDLE_SECS,
    }
}

/// Seconds a clone worker outlives a machine that is known to be dead.
pub const DEAD_CLONE_GRACE_SECS: u64 = 5;

/// Whether a clone worker that has been idle for `idle_millis` is to exit: never
/// while a channel is open or its machine lives; soon after its machine died; and
/// otherwise after the fallback.
pub fn clone_worker_idle_expired(
    active_channels: usize,
    clone_vm_alive: Option<bool>,
    idle_millis: u64,
    fallback_millis: u64,
) -> (r: bool)
    ensures
        r == (active_channels == 0 && match clone_vm_alive {
            Some(true) => false,
            Some(false) => idle_millis >= DEAD_CLONE_GRACE_SECS * 1000,
            None => idle_millis >= fallback_millis,
        }),
{
    if active_channels > 0 {
        return false;
    }
    match clone_vm_alive {
        Some(true) => false,
        Some(false) => idle_millis >= DEAD_CLONE_GRACE_SECS * 1000,
        None => idle_millis >= fallback_millis,
    }
}

/// Whether anything still needs the daemon's CUDA state.
pub fn daemon_has_live_cuda_clients(connections: usize, workers: usize, snapshots: usize) -> (r:
    bool)
    ensures
        r == (connections > 0 || workers > 0 || snapshots > 0),
{
    connections > 0 || workers > 0 || snapshots > 0
}

/// What the idle watchdog does at one of its rounds.
#[derive(Debug, Clone, Copy, PartialEq, Eq, Structural)]
pub enum WatchdogStep {
    /// The daemon is in use: restart the idle clock.
    Reset,
    /// Go on waiting.
    Wait,
    /// Exit and release the GPU.
    Exit,
}

/// The watchdog's step after `idle_secs` without clients.
pub fn watchdog_step(
    connections: usize,
    workers: usize,
    snapshots: usize,
    idle_secs: u64,
    timeout_secs: u64,
) -> (r: WatchdogStep)
    ensures
        r == if connections > 0 || workers > 0 || snapshots > 0 {
            WatchdogStep::Reset
        } else if idle_secs >= timeout_secs {
            WatchdogStep::Exit
        } else {
            WatchdogStep::Wait
        },
{
    if daemon_has_live_cuda_clients(connections, workers, snapshots) {
        WatchdogStep::Reset
    } else if idle_secs >= timeout_secs {
        WatchdogStep::Exit
    } else {
        WatchdogStep::Wait
    }
}

/// What a clone worker is told about sharing weights: the kill switch wins over
/// the request of the fork.
pub fn clone_worker_share_env(requested: bool, configured: Option<&str>) -> (r: Option<&'static str>)
    ensures
        opt_str(r) == if sharing_disabled(opt_str(configured)) {
            Some("0"@)
        } else if requested {
            Some("1"@)
        } else {
            None
        },
{
    if share_kill_switch(configured) {
        Some("0")
    } else if requested {
        Some("1")
    } else {
        None
    }
}

/// Whether the sharing kill switch is set.
pub open spec fn sharing_disabled(configured: Option<Seq<char>>) -> bool {
    configured == Some("0"@) || configured == Some("false"@) || configured == Some("off"@)
}

/// Whether the sharing kill switch is set.
pub fn share_kill_switch(configured: Option<&str>) -> (r: bool)
    ensures
        r == sharing_disabled(opt_str(configured)),
{
    match configured {
        Some(v) => text_eq(v, "0") || text_eq(v, "false") || text_eq(v, "off"),
        None => false,
    }
}

/// Milliseconds between the starts of two clone workers: paced for pools of more
/// than four, on a Linux host.
pub fn clone_worker_spawn_pace(pool_size: Option<u32>, linux: bool) -> (millis: u64)
    ensures
        millis == match pool_size {
            Some(n) if linux && n > 4 => 20int,
            _ => 0int,
        },
{
    match pool_size {
        Some(n) => {
            if linux && n > 4 {
                20
            } else {
                0
            }
        },
        None => 0,
    }
}

/// Whether worker routing is bypassed for a clone's connection, and if so whether
/// the connection is consumed: a warm dial carries no request and is, a real
/// channel is served in the daemon.
pub fn disabled_worker_route(flags: u8, workers: bool, isolate: bool) -> (r: Option<bool>)
    ensures
        r == if workers && isolate {
            None
        } else {
            Some(flags & 2 != 0)
        },
{
    if !workers || !isolate {
        Some(flags & 2 != 0)
    } else {
        None
    }
}

/// Access to the daemon's socket, or nothing where it cannot be limited: private
/// to an ordinary user; for root, open to the group of the machine monitors only.
pub fn daemon_socket_access(effective_uid: u32, kvm_gid: Option<u32>) -> (r: Option<
    (u32, Option<u32>),
>)
    ensures
        r == if effective_uid != 0 {
            Some((0o600u32, None::<u32>))
        } else {
            match kvm_gid {
                Some(gid) => Some((0o660u32, Some(gid))),
                None => None,
            }
        },
{
    if effective_uid != 0 {
        return Some((0o600, None));
    }
    match kvm_gid {
        Some(gid) => Some((0o660, Some(gid))),
        None => None,
    }
}

/// The umask under which a socket node is created with at most `mode`.
pub fn socket_umask(mode: u32) -> (mask: u32)
    ensures
        mask == 0o777u32 & !mode,
        (0o777u32 & !mask) == (mode & 0o777u32),
{
    assert((0o777u32 & !(0o777u32 & !mode)) == (mode & 0o777u32)) by (bit_vector);
    0o777u32 & !mode
}

} // verus!
