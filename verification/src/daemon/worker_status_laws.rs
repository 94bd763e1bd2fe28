//! What a worker has done before it is ready, and how it says so.
use crate::daemon::preamble::{attach_bytes, parse_attach, procmem_text, triple_bytes};
use crate::daemon::status::{CloneWorkerStatus, capability_record, status_record};
use crate::daemon::tensor::{TensorMetadataError, check_metadata};
use crate::daemon::worker_start::{StartStep, WorkerStart, start_at, worked_before};
use crate::numerals::{decimal, hex16, lemma_parse_hex16};
use crate::wire::{le_at, le_bytes};
use vstd::prelude::*;

verus! {

/// A worker took this step at some point.
pub open spec fn start_took(first: WorkerStart, outcomes: Seq<bool>, n: int, step: StartStep) -> bool {
    exists|i: int| 0 <= i < n && #[trigger] start_stands(first, outcomes, i, step)
}

/// A worker stands at this step after `i` others.
pub open spec fn start_stands(
    first: WorkerStart,
    outcomes: Seq<bool>,
    i: int,
    step: StartStep,
) -> bool {
    match start_at(first, outcomes, i) {
        Some(s) => s.step == step,
        None => false,
    }
}

spec fn start_holds(first: WorkerStart, o: Seq<bool>, n: int, s: WorkerStart) -> bool {
    &&& s == (WorkerStart { step: s.step, ..first })
    &&& match s.step {
        StartStep::Reserve => true,
        StartStep::Context => first.step == StartStep::Reserve ==> start_took(
            first,
            o,
            n,
            StartStep::Reserve,
        ),
        StartStep::Memory => context_made(first, o, n) && first.has_layout,
        StartStep::Modules => context_made(first, o, n) && first.has_modules,
        StartStep::Listen => context_made(first, o, n) && first.has_control,
        StartStep::Ready => context_made(first, o, n) && (first.has_control ==> worked_before(
            first,
            o,
            n,
            StartStep::Listen,
        )),
        StartStep::Serve => context_made(first, o, n) && (first.has_control ==> worked_before(
            first,
            o,
            n,
            StartStep::Listen,
        )) && start_took(first, o, n, StartStep::Ready),
        StartStep::Failed => exists|i: int| 0 <= i < n && !#[trigger] o[i],
    }
}

/// The addresses were reserved, if they had to be, and the context was made.
pub open spec fn context_made(first: WorkerStart, outcomes: Seq<bool>, n: int) -> bool {
    &&& start_took(first, outcomes, n, StartStep::Context)
    &&& first.step == StartStep::Reserve ==> start_took(first, outcomes, n, StartStep::Reserve)
}

proof fn lemma_start_holds(first: WorkerStart, outcomes: Seq<bool>, n: int)
    requires
        first.step == StartStep::Reserve || first.step == StartStep::Context,
        0 <= n <= outcomes.len(),
    ensures
        start_at(first, outcomes, n) matches Some(s) ==> start_holds(first, outcomes, n, s),
    decreases n,
{
    if n > 0 {
        lemma_start_holds(first, outcomes, n - 1);
        if let Some(s) = start_at(first, outcomes, n - 1) {
            assert(start_stands(first, outcomes, n - 1, s.step));
            assert(start_took(first, outcomes, n, s.step));
            assert forall|step: StartStep|
                start_took(first, outcomes, n - 1, step) implies #[trigger] start_took(
                first,
                outcomes,
                n,
                step,
            ) by {
                let i = choose|i: int|
                    0 <= i < n - 1 && #[trigger] start_stands(first, outcomes, i, step);
                assert(start_stands(first, outcomes, i, step));
            }
            assert forall|step: StartStep|
                worked_before(first, outcomes, n - 1, step) implies #[trigger] worked_before(
                first,
                outcomes,
                n,
                step,
            ) by {
                let i = choose|i: int|
                    0 <= i < n - 1 && #[trigger] outcomes[i] && start_at(first, outcomes, i)
                        is Some && start_at(first, outcomes, i)->Some_0.step == step;
                assert(outcomes[i]);
            }
            if outcomes[n - 1] {
                assert(worked_before(first, outcomes, n, s.step));
            }
        }
    }
}

/// A worker that serves has reserved its addresses, if it has a layout, and then made its
/// context; it listens, if it has a control channel, and has said that it is ready.
pub proof fn law_what_a_serving_worker_has_done(first: WorkerStart, outcomes: Seq<bool>)
    requires
        first.step == StartStep::Reserve || first.step == StartStep::Context,
        start_at(first, outcomes, outcomes.len() as int) is Some,
        start_at(first, outcomes, outcomes.len() as int)->Some_0.step == StartStep::Serve,
    ensures
        ({
            let n = outcomes.len() as int;
            &&& context_made(first, outcomes, n)
            &&& first.has_control ==> worked_before(first, outcomes, n, StartStep::Listen)
            &&& start_took(first, outcomes, n, StartStep::Ready)
        }),
{
    lemma_start_holds(first, outcomes, outcomes.len() as int);
}

/// A worker does not fail where all its steps worked.
pub proof fn law_workers_fail_for_a_reason(first: WorkerStart, outcomes: Seq<bool>)
    requires
        first.step == StartStep::Reserve || first.step == StartStep::Context,
        start_at(first, outcomes, outcomes.len() as int) is Some,
        start_at(first, outcomes, outcomes.len() as int)->Some_0.step == StartStep::Failed,
    ensures
        exists|i: int| 0 <= i < outcomes.len() && !#[trigger] outcomes[i],
{
    lemma_start_holds(first, outcomes, outcomes.len() as int);
}

// ---------------------------------------------------------------------------
// Records
// ---------------------------------------------------------------------------

/// The record of a worker is when its machine started and how it went.
pub proof fn law_text_of_a_status(start_time: u64)
    ensures
        status_record(start_time, CloneWorkerStatus::Ready) == decimal(start_time as nat)
            + " ready\n"@,
        status_record(start_time, CloneWorkerStatus::Failed) == decimal(start_time as nat)
            + " failed\n"@,
{
    reveal_strlit(" ready\n");
    reveal_strlit("ready");
    reveal_strlit(" failed\n");
    reveal_strlit("failed");
    assert(status_record(start_time, CloneWorkerStatus::Ready) =~= decimal(start_time as nat)
        + " ready\n"@);
    assert(status_record(start_time, CloneWorkerStatus::Failed) =~= decimal(start_time as nat)
        + " failed\n"@);
}

/// The record of a daemon is its version, its process, when it started, and its protocol in
/// sixteen hexadecimal digits.
pub proof fn law_text_of_a_capability(pid: u32, start_time: u64, protocol: u64)
    ensures
        capability_record(pid, start_time, protocol) == "1 "@ + decimal(pid as nat) + " "@
            + decimal(start_time as nat) + " "@ + hex16(protocol) + "\n"@,
        hex16(protocol).len() == 16,
{
    reveal_strlit("1 ");
    reveal_strlit(" ");
    reveal_strlit("\n");
    lemma_parse_hex16(protocol);
    assert(decimal(1) =~= seq!['1']);
    assert(capability_record(pid, start_time, protocol) =~= "1 "@ + decimal(pid as nat) + " "@
        + decimal(start_time as nat) + " "@ + hex16(protocol) + "\n"@);
}

/// A clone's memory is handed to its worker as four letters, the process, the number of
/// regions and the regions; without one, with zeros.
pub proof fn law_bytes_of_an_attachment(pid: u32, regions: Seq<(u64, u64, u64)>)
    ensures
        attach_bytes(Some((pid, regions))) == seq![0x50u8, 0x4du8, 0x56u8, 0x31u8] + le_bytes(
            pid as nat,
            4,
        ) + le_bytes(regions.len(), 4) + triple_bytes(regions),
        attach_bytes(None) == seq![0x50u8, 0x4du8, 0x56u8, 0x31u8] + le_bytes(0, 4) + le_bytes(
            0,
            4,
        ),
{
}

/// Attachments that are too short, open with other letters, have a length that does not fit
/// their regions, or name a process without regions or regions without a process, are
/// refused.
pub proof fn law_refused_attachments(data: Seq<u8>)
    ensures
        data.len() < 12 ==> parse_attach(data) is Err,
        data.len() >= 12 && data.take(4) != seq![0x50u8, 0x4du8, 0x56u8, 0x31u8] ==> parse_attach(
            data,
        ) is Err,
        data.len() >= 12 && data.len() != 12 + 24 * le_at(data, 8, 4) ==> parse_attach(data) is Err,
        data.len() >= 12 && (le_at(data, 4, 4) == 0) != (le_at(data, 8, 4) == 0) ==> parse_attach(
            data,
        ) is Err,
{
    if data.len() >= 12 {
        assert(data.subrange(0, 4) =~= data.take(4));
    }
}

/// A process and its regions are written as numbers: the process, and behind a semicolon
/// each region as its three numbers with commas between them.
pub proof fn law_text_of_regions(
    pid: u32,
    regions: Seq<(u64, u64, u64)>,
    r: (u64, u64, u64),
)
    ensures
        procmem_text(pid, Seq::empty()) == decimal(pid as nat),
        procmem_text(pid, regions.push(r)) == procmem_text(pid, regions) + ";"@ + decimal(
            r.0 as nat,
        ) + ","@ + decimal(r.1 as nat) + ","@ + decimal(r.2 as nat),
{
    reveal_strlit(";");
    reveal_strlit(",");
    assert(regions.push(r).drop_last() =~= regions);
    assert(procmem_text(pid, regions.push(r)) =~= procmem_text(pid, regions) + ";"@ + decimal(
        r.0 as nat,
    ) + ","@ + decimal(r.1 as nat) + ","@ + decimal(r.2 as nat));
}

/// Metadata that is too short or too long is refused for its length; one whose parts do not
/// add up, or that describes nothing, as inconsistent.
pub proof fn law_refused_metadata(metadata: Seq<u8>, allocation_size: u64)
    ensures
        metadata.len() < 8 || metadata.len() > 2_097_216 ==> check_metadata(
            metadata,
            allocation_size,
        ) == Err::<(), TensorMetadataError>(TensorMetadataError::Length),
        8 <= metadata.len() <= 2_097_216 && (metadata.len() != 8 + le_at(metadata, 0, 4) + 16
            * le_at(metadata, 4, 4) || le_at(metadata, 4, 4) == 0) ==> check_metadata(
            metadata,
            allocation_size,
        ) == Err::<(), TensorMetadataError>(TensorMetadataError::Inconsistent),
{
}

} // verus!
