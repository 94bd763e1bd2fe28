//! What is said where a golden's memory cannot be rebuilt.
use crate::daemon::layout::{CloneLayout, LayoutModel, MapEntry};
use crate::daemon::lifecycle::StageCall;
use crate::daemon::memory::MapStep;
use crate::daemon::ordinary::{OrdinaryStep, step_of};
use crate::daemon::worker::{signed_decimal, signed_text};
use crate::numerals::{numeral, numeral_chars};
use crate::text::{say2, say3, say4, say5, string_of};
use vstd::prelude::*;

verus! {

/// An address as it is written: in hexadecimal digits behind `0x`.
pub open spec fn address_text(va: u64) -> Seq<char> {
    "0x"@ + numeral(va as nat, 16)
}

/// An address as it is written.
pub fn address(va: u64) -> (r: String)
    ensures
        r@ == address_text(va),
{
    let digits = numeral_chars(va as u128, 16);
    let digits = string_of(&digits);
    say2("0x", &digits)
}

/// What failed at a step of rebuilding a private range; nothing for a step whose failure
/// is made up for.
pub open spec fn map_fault(step: MapStep) -> Option<Seq<char>> {
    match step {
        MapStep::Create => Some("private CUDA snapshot allocation"@),
        MapStep::MapPrivate { own } => Some("private CUDA snapshot map"@),
        MapStep::Abandon { own } => Some("private CUDA snapshot map"@),
        MapStep::AccessPrivate { own } => Some("private CUDA snapshot access"@),
        MapStep::FillFromHost { own } => Some("CUDA host snapshot restore"@),
        MapStep::ImportSource { own } => Some("private CUDA snapshot import"@),
        MapStep::ReserveSource { own, source } => Some(
            "private CUDA snapshot temporary reservation"@,
        ),
        MapStep::MapSource { own, source, at } => Some("private CUDA snapshot temporary map"@),
        MapStep::AccessSource { own, source, at } => Some(
            "private CUDA snapshot temporary access"@,
        ),
        MapStep::CopySource { own, source, at } => Some("private CUDA snapshot copy"@),
        MapStep::WaitForCopy { own, source, at } => Some(
            "private CUDA snapshot synchronization"@,
        ),
        MapStep::UnmapSource { own, source, at } => Some(
            "private CUDA snapshot temporary unmap"@,
        ),
        MapStep::FreeSource { own, source, at } => Some(
            "private CUDA snapshot temporary release"@,
        ),
        MapStep::ReleaseSource { own, source } => Some("private CUDA snapshot handle release"@),
        _ => None,
    }
}

/// What is said where rebuilding a range failed at a step.
pub open spec fn map_failure_text(
    entry: MapEntry,
    step: MapStep,
    cause: Seq<char>,
) -> Option<Seq<char>> {
    match map_fault(step) {
        Some(what) => Some(
            if step is ImportSource {
                what + " failed for range "@ + signed_decimal(entry.index as int) + ": "@ + cause
            } else {
                what + " failed at "@ + address_text(entry.va) + ": "@ + cause
            },
        ),
        None => None,
    }
}

/// What is said where rebuilding a range failed at a step for `cause`. A range that
/// could not be mapped is given back first, which is not what failed.
pub fn map_failure(entry: &MapEntry, step: MapStep, cause: &str) -> (r: Option<String>)
    ensures
        match (r, map_failure_text(*entry, step, cause@)) {
            (Some(s), Some(t)) => s@ == t,
            (None, None) => true,
            _ => false,
        },
{
    let what: &str = match step {
        MapStep::Create => "private CUDA snapshot allocation",
        MapStep::MapPrivate { own: _ } => "private CUDA snapshot map",
        MapStep::Abandon { own: _ } => "private CUDA snapshot map",
        MapStep::AccessPrivate { own: _ } => "private CUDA snapshot access",
        MapStep::FillFromHost { own: _ } => "CUDA host snapshot restore",
        MapStep::ImportSource { own: _ } => {
            let index = signed_text(entry.index);
            return Some(
                say5("private CUDA snapshot import", " failed for range ", &index, ": ", cause),
            );
        },
        MapStep::ReserveSource { own: _, source: _ } => {
            "private CUDA snapshot temporary reservation"
        },
        MapStep::MapSource { own: _, source: _, at: _ } => "private CUDA snapshot temporary map",
        MapStep::AccessSource { own: _, source: _, at: _ } => {
            "private CUDA snapshot temporary access"
        },
        MapStep::CopySource { own: _, source: _, at: _ } => "private CUDA snapshot copy",
        MapStep::WaitForCopy { own: _, source: _, at: _ } => {
            "private CUDA snapshot synchronization"
        },
        MapStep::UnmapSource { own: _, source: _, at: _ } => {
            "private CUDA snapshot temporary unmap"
        },
        MapStep::FreeSource { own: _, source: _, at: _ } => {
            "private CUDA snapshot temporary release"
        },
        MapStep::ReleaseSource { own: _, source: _ } => "private CUDA snapshot handle release",
        _ => {
            return None;
        },
    };
    let at = address(entry.va);
    Some(say5(what, " failed at ", &at, ": ", cause))
}

/// What failed at a step of rebuilding ordinary allocations, up to the cause; nothing
/// for a step whose failure is made up for.
pub open spec fn ordinary_fault(l: LayoutModel, step: OrdinaryStep) -> Option<Seq<char>> {
    match step {
        OrdinaryStep::CreateRegion { i } => Some(
            "address-preserving CUDA allocation failed for "@ + address_text(
                l.regions[i as int].0,
            ),
        ),
        OrdinaryStep::MapRegion { i, own } => Some(
            "address-preserving CUDA map failed for "@ + address_text(l.regions[i as int].0),
        ),
        OrdinaryStep::AccessRegion { i, own } => Some(
            "address-preserving CUDA access failed for "@ + address_text(l.regions[i as int].0),
        ),
        OrdinaryStep::ReleaseRegion { i, own } => Some(
            "address-preserving CUDA handle release failed for "@ + address_text(
                l.regions[i as int].0,
            ),
        ),
        OrdinaryStep::RestoreAlloc { i } => Some(
            "address-preserving CUDA restore failed for "@ + address_text(l.allocs[i as int].0),
        ),
        OrdinaryStep::ImportStage => Some("CUDA staging import failed"@),
        OrdinaryStep::ReserveStage { source } => Some("CUDA staging reservation failed"@),
        OrdinaryStep::MapStage { source, at } => Some("CUDA staging map failed"@),
        OrdinaryStep::AccessStage { source, at } => Some("CUDA staging access failed"@),
        OrdinaryStep::CopyRegion { source, at, i } => Some(
            "address-preserving CUDA copy failed for "@ + address_text(l.regions[i as int].0),
        ),
        OrdinaryStep::WaitForRegions { source, at } => Some(
            "address-preserving CUDA synchronization failed"@,
        ),
        OrdinaryStep::UnmapStage { source, at } => Some("CUDA staging unmap failed"@),
        OrdinaryStep::FreeStage { source, at } => Some("CUDA staging release failed"@),
        OrdinaryStep::ReleaseStage { source } => Some("CUDA staging handle release failed"@),
        OrdinaryStep::WaitForAll => Some(
            "address-preserving CUDA restore synchronization failed"@,
        ),
        _ => None,
    }
}

/// What is said where rebuilding ordinary allocations failed at a step for `cause`, or
/// ended without restoring them.
pub open spec fn ordinary_failure_text(
    l: LayoutModel,
    step: OrdinaryStep,
    cause: Seq<char>,
) -> Option<Seq<char>> {
    match (step, ordinary_fault(l, step)) {
        (OrdinaryStep::Refused, _) => Some(
            "ordinary CUDA host snapshot could not reserve every golden address"@,
        ),
        (OrdinaryStep::Unplaced { i }, _) => Some(
            "missing host snapshot offset for CUDA allocation "@ + address_text(
                l.allocs[i as int].0,
            ),
        ),
        (_, Some(what)) => Some(what + ": "@ + cause),
        (_, None) => None,
    }
}

/// What is said where rebuilding ordinary allocations failed.
pub fn ordinary_failure(l: &CloneLayout, step: OrdinaryStep, cause: &str) -> (r: Option<String>)
    requires
        step_of(l@, step),
    ensures
        match (r, ordinary_failure_text(l@, step, cause@)) {
            (Some(s), Some(t)) => s@ == t,
            (None, None) => true,
            _ => false,
        },
{
    match step {
        OrdinaryStep::CreateRegion { i } => {
            let at = address(l.regions[i].0);
            Some(say4("address-preserving CUDA allocation failed for ", &at, ": ", cause))
        },
        OrdinaryStep::MapRegion { i, own: _ } => {
            let at = address(l.regions[i].0);
            Some(say4("address-preserving CUDA map failed for ", &at, ": ", cause))
        },
        OrdinaryStep::AccessRegion { i, own: _ } => {
            let at = address(l.regions[i].0);
            Some(say4("address-preserving CUDA access failed for ", &at, ": ", cause))
        },
        OrdinaryStep::ReleaseRegion { i, own: _ } => {
            let at = address(l.regions[i].0);
            Some(say4("address-preserving CUDA handle release failed for ", &at, ": ", cause))
        },
        OrdinaryStep::RestoreAlloc { i } => {
            let at = address(l.allocs[i].0);
            Some(say4("address-preserving CUDA restore failed for ", &at, ": ", cause))
        },
        OrdinaryStep::ImportStage => Some(say3("CUDA staging import failed", ": ", cause)),
        OrdinaryStep::ReserveStage { source: _ } => Some(
            say3("CUDA staging reservation failed", ": ", cause),
        ),
        OrdinaryStep::MapStage { source: _, at: _ } => Some(
            say3("CUDA staging map failed", ": ", cause),
        ),
        OrdinaryStep::AccessStage { source: _, at: _ } => Some(
            say3("CUDA staging access failed", ": ", cause),
        ),
        OrdinaryStep::CopyRegion { source: _, at: _, i } => {
            let to = address(l.regions[i].0);
            Some(say4("address-preserving CUDA copy failed for ", &to, ": ", cause))
        },
        OrdinaryStep::WaitForRegions { source: _, at: _ } => Some(
            say3("address-preserving CUDA synchronization failed", ": ", cause),
        ),
        OrdinaryStep::UnmapStage { source: _, at: _ } => Some(
            say3("CUDA staging unmap failed", ": ", cause),
        ),
        OrdinaryStep::FreeStage { source: _, at: _ } => Some(
            say3("CUDA staging release failed", ": ", cause),
        ),
        OrdinaryStep::ReleaseStage { source: _ } => Some(
            say3("CUDA staging handle release failed", ": ", cause),
        ),
        OrdinaryStep::WaitForAll => Some(
            say3("address-preserving CUDA restore synchronization failed", ": ", cause),
        ),
        OrdinaryStep::Refused => Some(
            "ordinary CUDA host snapshot could not reserve every golden address".to_owned(),
        ),
        OrdinaryStep::Unplaced { i } => {
            let at = address(l.allocs[i].0);
            Some(say2("missing host snapshot offset for CUDA allocation ", &at))
        },
        _ => None,
    }
}

/// What is said where staging copies of ordinary allocations failed at a call; nothing
/// for a call whose failure is made up for.
pub open spec fn stage_failure_text(
    call: StageCall,
    allocs: Seq<(u64, u64)>,
    cause: Seq<char>,
) -> Option<Seq<char>> {
    match call {
        StageCall::Create => Some("stage create: "@ + cause),
        StageCall::Reserve => Some("stage reserve: "@ + cause),
        StageCall::MapAt => Some("stage map: "@ + cause),
        StageCall::Access => Some("stage access: "@ + cause),
        StageCall::Copy(i) => Some(
            "stage dtod "@ + address_text(allocs[i as int].0) + ": "@ + cause,
        ),
        StageCall::Export => Some("stage export: "@ + cause),
        _ => None,
    }
}

/// What is said where staging copies of ordinary allocations failed at a call.
pub fn stage_failure(call: StageCall, allocs: &[(u64, u64)], cause: &str) -> (r: Option<String>)
    requires
        call matches StageCall::Copy(i) ==> i < allocs@.len(),
    ensures
        match (r, stage_failure_text(call, allocs@, cause@)) {
            (Some(s), Some(t)) => s@ == t,
            (None, None) => true,
            _ => false,
        },
{
    match call {
        StageCall::Create => Some(say2("stage create: ", cause)),
        StageCall::Reserve => Some(say2("stage reserve: ", cause)),
        StageCall::MapAt => Some(say2("stage map: ", cause)),
        StageCall::Access => Some(say2("stage access: ", cause)),
        StageCall::Copy(i) => {
            let d = address(allocs[i].0);
            Some(say4("stage dtod ", &d, ": ", cause))
        },
        StageCall::Export => Some(say2("stage export: ", cause)),
        _ => None,
    }
}

} // verus!
