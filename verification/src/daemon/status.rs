//! Readiness files of clone workers, next to the daemon's socket.
use crate::copying::{opt_str, opt_text};
use crate::numerals::{
    decimal, decimal_chars, hex16, hex16_chars, is_digit_char, lemma_numeral_chars,
    lemma_numeral_value, lemma_parse_hex16, lemma_parse_numeral, numeral, parse_hex, parse_i32,
    parse_number, parse_signed, parse_u32, parse_u64,
};
use crate::paths::{
    absolute, file_name_of, join, joined, parent_of, path_file_name, path_is_absolute, path_parent,
    plain_file_name, plain_parent, plainly_written,
};
use crate::split::{is_space, lemma_words_append, lemma_words_plain, pieces, split_words, words};
use crate::text::{chars_are, chars_of, say2, string_of};
use vstd::prelude::*;

verus! {

/// Version of the capability file.
pub const CLONE_WORKER_READINESS_CAPABILITY_VERSION: u32 = 1;

/// Seconds after which a stranded temporary file is removed.
pub const STALE_TEMPORARY_SECS: u64 = 60;

/// How the reconstruction of a clone's CUDA state went.
#[derive(Debug, Clone, Copy, PartialEq, Eq, Structural)]
pub enum CloneWorkerStatus {
    Ready,
    Failed,
}

/// The word for a status.
pub open spec fn status_word(status: CloneWorkerStatus) -> Seq<char> {
    match status {
        CloneWorkerStatus::Ready => "ready"@,
        CloneWorkerStatus::Failed => "failed"@,
    }
}

/// The status record of a worker whose machine started at `start_time`.
pub open spec fn status_record(start_time: u64, status: CloneWorkerStatus) -> Seq<char> {
    decimal(start_time as nat).push(' ') + status_word(status).push('\n')
}

/// What a status record says: exactly a start time and a status word.
pub open spec fn parse_status(value: Seq<char>) -> Option<(u64, CloneWorkerStatus)> {
    let fields = words(value);
    if fields.len() != 2 {
        None
    } else {
        match parse_number(fields[0], 10, u64::MAX as nat) {
            None => None,
            Some(start) => if fields[1] == "ready"@ {
                Some((start as u64, CloneWorkerStatus::Ready))
            } else if fields[1] == "failed"@ {
                Some((start as u64, CloneWorkerStatus::Failed))
            } else {
                None
            },
        }
    }
}

/// Writes a status record.
pub fn encode_clone_worker_status(start_time: u64, status: CloneWorkerStatus) -> (r: String)
    ensures
        r@ == status_record(start_time, status),
{
    let mut out = decimal_chars(start_time as u128);
    out.push(' ');
    let word = match status {
        CloneWorkerStatus::Ready => "ready",
        CloneWorkerStatus::Failed => "failed",
    };
    out.append(&mut chars_of(word));
    out.push('\n');
    proof { assert(out@ =~= status_record(start_time, status)); }
    string_of(&out)
}

/// Reads a status record; anything but exactly two well-formed fields is refused.
pub fn decode_clone_worker_status(value: &str) -> (r: Option<(u64, CloneWorkerStatus)>)
    ensures
        r == parse_status(value@),
{
    let chars = chars_of(value);
    let fields = split_words(&chars);
    proof {
        assert(pieces(fields@).len() == fields@.len());
        if fields@.len() == 2 {
            assert(pieces(fields@)[0] == fields@[0]@);
            assert(pieces(fields@)[1] == fields@[1]@);
        }
    }
    if fields.len() != 2 {
        return None;
    }
    match parse_u64(&fields[0]) {
        None => None,
        Some(start) => {
            if chars_are(&fields[1], "ready") {
                Some((start, CloneWorkerStatus::Ready))
            } else if chars_are(&fields[1], "failed") {
                Some((start, CloneWorkerStatus::Failed))
            } else {
                None
            }
        },
    }
}

/// The capability record of a daemon that speaks `protocol`.
pub open spec fn capability_record(pid: u32, start_time: u64, protocol: u64) -> Seq<char> {
    decimal(CLONE_WORKER_READINESS_CAPABILITY_VERSION as nat).push(' ') + decimal(pid as nat).push(
        ' ',
    ) + decimal(start_time as nat).push(' ') + hex16(protocol).push('\n')
}

/// What a capability record says: exactly the known version, a process, its start
/// time, and the protocol that this side speaks.
pub open spec fn parse_capability(value: Seq<char>, protocol: u64) -> Option<(u32, u64)> {
    let fields = words(value);
    if fields.len() != 4 {
        None
    } else if parse_number(fields[0], 10, u32::MAX as nat) != Some(
        CLONE_WORKER_READINESS_CAPABILITY_VERSION as nat,
    ) || parse_number(fields[3], 16, u64::MAX as nat) != Some(protocol as nat) {
        None
    } else {
        match (
            parse_number(fields[1], 10, u32::MAX as nat),
            parse_number(fields[2], 10, u64::MAX as nat),
        ) {
            (Some(pid), Some(start)) => Some((pid as u32, start as u64)),
            _ => None,
        }
    }
}

/// Writes a capability record.
pub fn encode_clone_worker_capability(pid: u32, start_time: u64, protocol: u64) -> (r: String)
    ensures
        r@ == capability_record(pid, start_time, protocol),
{
    let mut out = decimal_chars(CLONE_WORKER_READINESS_CAPABILITY_VERSION as u128);
    out.push(' ');
    out.append(&mut decimal_chars(pid as u128));
    out.push(' ');
    out.append(&mut decimal_chars(start_time as u128));
    out.push(' ');
    out.append(&mut hex16_chars(protocol));
    out.push('\n');
    proof { assert(out@ =~= capability_record(pid, start_time, protocol)); }
    string_of(&out)
}

/// Reads a capability record against the protocol that this side speaks.
pub fn decode_clone_worker_capability(value: &str, protocol: u64) -> (r: Option<(u32, u64)>)
    ensures
        r == parse_capability(value@, protocol),
{
    let chars = chars_of(value);
    let fields = split_words(&chars);
    proof {
        assert(pieces(fields@).len() == fields@.len());
        if fields@.len() == 4 {
            assert(pieces(fields@)[0] == fields@[0]@);
            assert(pieces(fields@)[1] == fields@[1]@);
            assert(pieces(fields@)[2] == fields@[2]@);
            assert(pieces(fields@)[3] == fields@[3]@);
        }
    }
    if fields.len() != 4 {
        return None;
    }
    let version = match parse_u32(&fields[0]) {
        Some(v) => v,
        None => {
            return None;
        },
    };
    let spoken = match parse_hex(&fields[3]) {
        Some(v) => v,
        None => {
            return None;
        },
    };
    if version != CLONE_WORKER_READINESS_CAPABILITY_VERSION || spoken != protocol {
        return None;
    }
    match (parse_u32(&fields[1]), parse_u64(&fields[2])) {
        (Some(pid), Some(start)) => Some((pid, start)),
        _ => None,
    }
}

/// The process that a capability file names, if it can be probed at all.
pub fn capability_process(value: Option<&str>, protocol: u64) -> (r: Option<(i32, u64)>)
    ensures
        r == match value {
            Some(text) => match parse_capability(text@, protocol) {
                Some((pid, start)) => if pid <= i32::MAX {
                    Some((pid as i32, start))
                } else {
                    None
                },
                None => None,
            },
            None => None,
        },
{
    match value {
        Some(text) => match decode_clone_worker_capability(text, protocol) {
            Some((pid, start)) => {
                if pid <= 0x7fff_ffff {
                    Some((pid as i32, start))
                } else {
                    None
                }
            },
            None => None,
        },
        None => None,
    }
}

// ---------------------------------------------------------------------------
// Where the files lie
// ---------------------------------------------------------------------------

/// The socket of the daemon that everybody agrees on: in the data directory, or in a
/// directory for temporary files where none is set.
pub fn socket_path(data_dir: Option<&str>, temp: &str) -> (r: String)
    ensures
        r@ == joined(
            match data_dir {
                Some(dir) => dir@,
                None => joined(temp@, "smolvm"@),
            },
            "cuda-daemon.sock"@,
        ),
{
    match data_dir {
        Some(dir) => join(dir, "cuda-daemon.sock"),
        None => {
            let root = join(temp, "smolvm");
            join(root.as_str(), "cuda-daemon.sock")
        },
    }
}

/// The local socket of the configured daemon: an explicit one counts only as an
/// absolute path, since anything else names a remote daemon.
pub fn local_cuda_daemon_socket(explicit: Option<&str>, default: &str) -> (r: Option<String>)
    ensures
        opt_text(r) == match explicit {
            Some(path) => if path_is_absolute(path@) {
                Some(path@)
            } else {
                None
            },
            None => Some(default@),
        },
{
    match explicit {
        Some(path) => {
            if absolute(path) {
                Some(path.to_owned())
            } else {
                None
            }
        },
        None => Some(default.to_owned()),
    }
}

/// The socket next to which workers publish: the one handed down by the daemon,
/// else the configured one, each if it is local, else the default.
pub fn clone_worker_status_socket(
    inherited: Option<&str>,
    configured: Option<&str>,
    default: &str,
) -> (r: String)
    ensures
        r@ == status_socket(opt_str(inherited), opt_str(configured), default@),
{
    match inherited {
        Some(path) => {
            if absolute(path) {
                return path.to_owned();
            }
        },
        None => {},
    }
    match configured {
        Some(path) => {
            if absolute(path) {
                return path.to_owned();
            }
        },
        None => {},
    }
    default.to_owned()
}

/// The first local socket of the two, else the default.
pub open spec fn status_socket(
    inherited: Option<Seq<char>>,
    configured: Option<Seq<char>>,
    default: Seq<char>,
) -> Seq<char> {
    match (inherited, configured) {
        (Some(path), _) if path_is_absolute(path) => path,
        (_, Some(path)) if path_is_absolute(path) => path,
        _ => default,
    }
}

/// The directory of readiness files next to a socket with this file name in this
/// directory.
pub open spec fn status_dir_of(parent: Option<Seq<char>>, name: Option<Seq<char>>) -> Seq<char> {
    let name = match name {
        Some(name) => name,
        None => "cuda-daemon.sock"@,
    };
    let parent = match parent {
        Some(parent) => parent,
        None => "."@,
    };
    joined(parent, name + ".workers"@)
}

/// The directory of readiness files next to a socket with this file name in this
/// directory.
pub fn status_dir_beside(parent: Option<String>, name: Option<String>) -> (r: String)
    ensures
        r@ == status_dir_of(opt_text(parent), opt_text(name)),
{
    let name = match name {
        Some(name) => name,
        None => "cuda-daemon.sock".to_owned(),
    };
    let parent = match parent {
        Some(parent) => parent,
        None => ".".to_owned(),
    };
    let full = say2(name.as_str(), ".workers");
    join(parent.as_str(), full.as_str())
}

/// The directory of readiness files next to a socket.
pub open spec fn status_dir(socket: Seq<char>) -> Seq<char> {
    status_dir_of(path_parent(socket), path_file_name(socket))
}

/// The directory of readiness files next to a socket.
pub fn clone_worker_status_dir_for(cuda_socket: &str) -> (r: String)
    ensures
        r@ == status_dir(cuda_socket@),
        plainly_written(cuda_socket@) ==> r@ == status_dir_of(
            Some(plain_parent(cuda_socket@)),
            plain_file_name(cuda_socket@),
        ),
{
    status_dir_beside(parent_of(cuda_socket), file_name_of(cuda_socket))
}

/// The status file of the clone whose machine runs as `vm_pid`.
pub fn clone_worker_status_path(cuda_socket: &str, vm_pid: u32) -> (r: String)
    ensures
        r@ == joined(status_dir(cuda_socket@), decimal(vm_pid as nat)),
{
    let dir = clone_worker_status_dir_for(cuda_socket);
    let name = string_of(&decimal_chars(vm_pid as u128));
    join(dir.as_str(), name.as_str())
}

/// The capability file of the daemon.
pub fn clone_worker_capability_path(cuda_socket: &str) -> (r: String)
    ensures
        r@ == joined(status_dir(cuda_socket@), "daemon.capability"@),
{
    let dir = clone_worker_status_dir_for(cuda_socket);
    join(dir.as_str(), "daemon.capability")
}

// ---------------------------------------------------------------------------
// Cleaning up and waiting
// ---------------------------------------------------------------------------

/// A file of the status directory as it was read.
pub struct StatusEntry {
    /// File name.
    pub name: String,
    /// Seconds since its last change, where known.
    pub age_secs: Option<u64>,
    /// What it holds, where it could be read.
    pub content: Option<String>,
}

/// What becomes of a file of the status directory.
#[derive(Debug, Clone, Copy, PartialEq, Eq, Structural)]
pub enum StatusAction {
    /// It stays.
    Keep,
    /// It goes.
    Remove,
    /// It stays exactly if this process runs and started then.
    KeepIfAlive(i32, u64),
}

/// What becomes of a file: the capability file stays; a temporary file goes once
/// it is stale; a status file stays while its machine lives; anything else goes.
pub open spec fn status_action(
    name: Seq<char>,
    age_secs: Option<u64>,
    content: Option<Seq<char>>,
) -> StatusAction {
    if name == "daemon.capability"@ {
        StatusAction::Keep
    } else if name.len() > 0 && name[0] == '.' {
        if age_secs matches Some(age) && age >= STALE_TEMPORARY_SECS {
            StatusAction::Remove
        } else {
            StatusAction::Keep
        }
    } else {
        match (parse_signed(name), content) {
            (Some(pid), Some(text)) => match parse_status(text) {
                Some((start, status)) => StatusAction::KeepIfAlive(pid as i32, start),
                None => StatusAction::Remove,
            },
            _ => StatusAction::Remove,
        }
    }
}

/// Decides what becomes of each file of the status directory.
pub fn prune_dead_clone_worker_statuses(entries: &[StatusEntry]) -> (r: Vec<StatusAction>)
    ensures
        r@.len() == entries@.len(),
        forall|i: int|
            0 <= i < r@.len() ==> #[trigger] r@[i] == status_action(
                entries@[i].name@,
                entries@[i].age_secs,
                opt_text(entries@[i].content),
            ),
{
    let mut r: Vec<StatusAction> = Vec::new();
    let mut i: usize = 0;
    while i < entries.len()
        invariant
            i <= entries@.len(),
            r@.len() == i,
            forall|j: int|
                0 <= j < i ==> #[trigger] r@[j] == status_action(
                    entries@[j].name@,
                    entries@[j].age_secs,
                    opt_text(entries@[j].content),
                ),
        decreases entries@.len() - i,
    {
        let entry = &entries[i];
        let name = chars_of(entry.name.as_str());
        let action = if chars_are(&name, "daemon.capability") {
            StatusAction::Keep
        } else if name.len() > 0 && name[0] == '.' {
            match entry.age_secs {
                Some(age) => {
                    if age >= STALE_TEMPORARY_SECS {
                        StatusAction::Remove
                    } else {
                        StatusAction::Keep
                    }
                },
                None => StatusAction::Keep,
            }
        } else {
            match (parse_i32(&name), &entry.content) {
                (Some(pid), Some(text)) => match decode_clone_worker_status(text.as_str()) {
                    Some((start, _)) => StatusAction::KeepIfAlive(pid, start),
                    None => StatusAction::Remove,
                },
                _ => StatusAction::Remove,
            }
        };
        r.push(action);
        i = i + 1;
    }
    r
}

/// What a reader of a status file that waits for its worker does.
#[derive(Debug, Clone, Copy, PartialEq, Eq, Structural)]
pub enum WaitStep {
    /// The worker is ready; remove the file.
    Ready,
    /// Reconstruction failed; remove the file.
    Failed,
    /// The file is of an earlier process; remove it, then go on as with none.
    Stale,
    /// Nothing was published yet.
    Pending,
}

/// What to do about the content of a status file, if there is one.
pub fn status_wait_step(content: Option<&str>, vm_start_time: u64) -> (r: WaitStep)
    ensures
        r == match content {
            None => WaitStep::Pending,
            Some(text) => match parse_status(text@) {
                None => WaitStep::Pending,
                Some((start, status)) => if start != vm_start_time {
                    WaitStep::Stale
                } else if status == CloneWorkerStatus::Ready {
                    WaitStep::Ready
                } else {
                    WaitStep::Failed
                },
            },
        },
{
    match content {
        None => WaitStep::Pending,
        Some(text) => match decode_clone_worker_status(text) {
            None => WaitStep::Pending,
            Some((start, status)) => {
                if start != vm_start_time {
                    WaitStep::Stale
                } else {
                    match status {
                        CloneWorkerStatus::Ready => WaitStep::Ready,
                        CloneWorkerStatus::Failed => WaitStep::Failed,
                    }
                }
            },
        },
    }
}

/// Whether to keep waiting for a status file.
#[derive(Debug, Clone, Copy, PartialEq, Eq, Structural)]
pub enum WaitEnd {
    /// Look again after a pause.
    Again,
    /// The machine is gone.
    VmExited,
    /// The time is up.
    TimedOut,
}

/// Whether to keep waiting for a status file that says nothing yet.
pub fn status_wait_end(vm_alive: bool, waited_millis: u64, timeout_millis: u64) -> (r: WaitEnd)
    ensures
        r == if !vm_alive {
            WaitEnd::VmExited
        } else if waited_millis >= timeout_millis {
            WaitEnd::TimedOut
        } else {
            WaitEnd::Again
        },
{
    if !vm_alive {
        WaitEnd::VmExited
    } else if waited_millis >= timeout_millis {
        WaitEnd::TimedOut
    } else {
        WaitEnd::Again
    }
}

/// What a worker has told about itself.
#[derive(Debug)]
pub struct CloneWorkerReadiness {
    /// Machine of the clone, where one was advertised.
    pub vm_pid: Option<u32>,
    /// The machine was told that the worker is ready.
    pub published: bool,
}

/// What a worker that goes away does with its status file.
#[derive(Debug, Clone, Copy, PartialEq, Eq, Structural)]
pub enum ClosingAction {
    /// Nothing is left to tell.
    Nothing,
    /// Nobody will read the file any more: remove it.
    Remove,
    /// Tell the machine that the worker failed.
    PublishFailed,
}

impl CloneWorkerReadiness {
    /// A worker that has published nothing.
    pub fn new(vm_pid: Option<u32>) -> (r: Self)
        ensures
            r == (CloneWorkerReadiness { vm_pid, published: false }),
    {
        CloneWorkerReadiness { vm_pid, published: false }
    }

    /// Notes that the ready record of the machine, if there is one, was published;
    /// `written` tells whether that worked.
    pub fn publish_ready(&mut self, written: bool)
        ensures
            final(self).vm_pid == old(self).vm_pid,
            final(self).published == (old(self).published || (old(self).vm_pid is Some && written)),
    {
        if self.vm_pid.is_some() && written {
            self.published = true;
        }
    }

    /// What to do with the status file when the worker goes away. A record that
    /// was published and taken is done with; one whose machine is gone is removed;
    /// in every other case the machine learns of the failure.
    pub fn closing_action(&self, file_exists: bool, vm_running: bool) -> (r: ClosingAction)
        ensures
            r == if self.vm_pid is None || (self.published && !file_exists) {
                ClosingAction::Nothing
            } else if self.published && !vm_running {
                ClosingAction::Remove
            } else {
                ClosingAction::PublishFailed
            },
    {
        if self.vm_pid.is_none() || (self.published && !file_exists) {
            ClosingAction::Nothing
        } else if self.published && !vm_running {
            ClosingAction::Remove
        } else {
            ClosingAction::PublishFailed
        }
    }
}

// ---------------------------------------------------------------------------
// What the records guarantee
// ---------------------------------------------------------------------------

proof fn lemma_numeral_is_word(n: nat, radix: nat)
    requires
        2 <= radix <= 16,
    ensures
        words(numeral(n, radix)) == seq![numeral(n, radix)],
{
    lemma_numeral_chars(n, radix);
    lemma_numeral_value(n, radix);
    let s = numeral(n, radix);
    assert forall|i: int| 0 <= i < s.len() implies !is_space(#[trigger] s[i]) by {
        assert(is_digit_char(s[i]));
    }
    lemma_words_plain(s);
}

/// Every status record reads back as it was written.
pub proof fn law_status_round_trips(start_time: u64, status: CloneWorkerStatus)
    ensures
        parse_status(status_record(start_time, status)) == Some((start_time, status)),
{
    let number = decimal(start_time as nat);
    let word = status_word(status);
    reveal_strlit("ready");
    reveal_strlit("failed");
    lemma_numeral_is_word(start_time as nat, 10);
    lemma_parse_numeral(start_time as nat, 10, u64::MAX as nat);
    lemma_words_plain(word);
    lemma_words_plain(Seq::<char>::empty());
    lemma_words_append(word, '\n', Seq::<char>::empty());
    assert(word.push('\n') + Seq::<char>::empty() =~= word.push('\n'));
    lemma_words_append(number, ' ', word.push('\n'));
    let fields = words(status_record(start_time, status));
    assert(fields =~= seq![number, word]);
    assert("ready"@.len() != "failed"@.len());
}

/// Every capability record reads back as it was written, and only for a reader of
/// the same protocol.
pub proof fn law_capability_is_protocol_bound(pid: u32, start_time: u64, protocol: u64, other: u64)
    ensures
        parse_capability(capability_record(pid, start_time, protocol), other) == if other
            == protocol {
            Some((pid, start_time))
        } else {
            None
        },
{
    let version = decimal(CLONE_WORKER_READINESS_CAPABILITY_VERSION as nat);
    let a = decimal(pid as nat);
    let b = decimal(start_time as nat);
    let c = hex16(protocol);
    lemma_numeral_is_word(CLONE_WORKER_READINESS_CAPABILITY_VERSION as nat, 10);
    lemma_numeral_is_word(pid as nat, 10);
    lemma_numeral_is_word(start_time as nat, 10);
    lemma_parse_numeral(CLONE_WORKER_READINESS_CAPABILITY_VERSION as nat, 10, u32::MAX as nat);
    lemma_parse_numeral(pid as nat, 10, u32::MAX as nat);
    lemma_parse_numeral(start_time as nat, 10, u64::MAX as nat);
    lemma_parse_hex16(protocol);
    assert forall|i: int| 0 <= i < c.len() implies !is_space(#[trigger] c[i]) by {
        assert(is_digit_char(c[i]));
    }
    lemma_words_plain(c);
    lemma_words_plain(Seq::<char>::empty());
    lemma_words_append(c, '\n', Seq::<char>::empty());
    assert(c.push('\n') + Seq::<char>::empty() =~= c.push('\n'));
    lemma_words_append(b, ' ', c.push('\n'));
    lemma_words_append(a, ' ', b.push(' ') + c.push('\n'));
    lemma_words_append(version, ' ', a.push(' ') + (b.push(' ') + c.push('\n')));
    assert(capability_record(pid, start_time, protocol) =~= version.push(' ') + (a.push(' ') + (
    b.push(' ') + c.push('\n'))));
    let fields = words(capability_record(pid, start_time, protocol));
    assert(fields =~= seq![version, a, b, c]);
}

} // verus!
