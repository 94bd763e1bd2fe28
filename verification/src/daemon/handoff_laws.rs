//! What is handed from a golden to its clones.
use crate::daemon::freeze::{FreezeModel, JobModel, frozen_layout};
use crate::daemon::layout::LayoutModel;
use crate::daemon::lifecycle::{MpsPlan, argument_at, holds_argument, mps_planned};
use crate::daemon::modules::{
    FuncModel, GraphModel, HandoffError, ImageRef, LibModel, NodeModel, OplogModel, bits_of, put,
    put_attr, put_blob, put_bytes, put_each, put_edge, put_flagged, put_func, put_graph, put_lib,
    put_list, put_module, put_node, put_oplog, put_stored, range_of, signed_of,
};
use crate::daemon::modules_read::{images_in, recreated_of};
use crate::daemon::ordinary::OrdinaryStep;
use crate::daemon::policy::switch;
use crate::daemon::restore_text::{ordinary_failure_text, ordinary_fault};
use crate::daemon::status::status_dir_of;
use crate::daemon::tensor::{consume_magic, publish_magic, response_magic};
use crate::daemon::worker::{alloc_spans, laid_out, region_granularity_of, sizes_total, with_allocs};
use crate::daemon::worker_env_laws::{
    law_allocations_follow_the_ranges, lemma_sum_empty, lemma_sum_push, sum_of,
};
use crate::filtering::lemma_push_members;
use crate::numerals::{decimal, numeral};
use crate::paths::joined;
use crate::wire::{le_bytes, lemma_le_len};
use vstd::prelude::*;

verus! {

// ---------------------------------------------------------------------------
// Modules
// ---------------------------------------------------------------------------

/// There is room for `n` bytes more.
pub open spec fn has_room(s: Seq<u8>, n: nat) -> bool {
    s.len() + n <= 0x8_0000_0000
}

/// Bytes are written behind what is there, as long as there is room; an earlier error stays.
pub proof fn law_bytes_are_appended(s: Seq<u8>, b: Seq<u8>, e: HandoffError)
    ensures
        has_room(s, b.len()) ==> put(Ok(s), b) == Ok::<Seq<u8>, HandoffError>(s + b),
        !has_room(s, b.len()) ==> put(Ok(s), b) == Err::<Seq<u8>, HandoffError>(
            HandoffError::TooLarge,
        ),
        put(Err(e), b) == Err::<Seq<u8>, HandoffError>(e),
        b.len() > u32::MAX ==> put_blob(Ok(s), b) == Err::<Seq<u8>, HandoffError>(
            HandoffError::LengthOverflow,
        ),
        b.len() <= u32::MAX && has_room(s, 4 + b.len()) ==> put_blob(Ok(s), b) == Ok::<
            Seq<u8>,
            HandoffError,
        >(s + le_bytes(b.len(), 4) + b),
{
    lemma_le_len(b.len(), 4);
}

/// Modules, attributes, streams, edges and library handles are written as their parts in
/// turn, lengths before bytes.
pub proof fn law_parts_of_a_handoff(
    s: Seq<u8>,
    m: (u64, Seq<u8>),
    a: (i32, i32),
    x: (u64, u32),
    e: (u32, u32),
    l: LibModel,
)
    requires
        has_room(s, 64 + m.1.len() + l.args.len()),
        m.1.len() <= u32::MAX,
        l.args.len() <= u32::MAX,
    ensures
        put_module()(Ok(s), m) == Ok::<Seq<u8>, HandoffError>(
            s + le_bytes(m.0 as nat, 8) + le_bytes(m.1.len(), 4) + m.1,
        ),
        put_attr()(Ok(s), a) == Ok::<Seq<u8>, HandoffError>(
            s + le_bytes(bits_of(a.0) as nat, 4) + le_bytes(bits_of(a.1) as nat, 4),
        ),
        put_flagged()(Ok(s), x) == Ok::<Seq<u8>, HandoffError>(
            s + le_bytes(x.0 as nat, 8) + le_bytes(x.1 as nat, 4),
        ),
        put_edge()(Ok(s), e) == Ok::<Seq<u8>, HandoffError>(
            s + le_bytes(e.0 as nat, 4) + le_bytes(e.1 as nat, 4),
        ),
        put_lib()(Ok(s), l) == Ok::<Seq<u8>, HandoffError>(
            s + seq![l.library] + le_bytes(l.function as nat, 2) + le_bytes(l.handle as nat, 8)
                + le_bytes(l.args.len(), 4) + l.args,
        ),
{
    lemma_le_len(m.0 as nat, 8);
    lemma_le_len(m.1.len(), 4);
    lemma_le_len(bits_of(a.0) as nat, 4);
    lemma_le_len(bits_of(a.1) as nat, 4);
    lemma_le_len(x.0 as nat, 8);
    lemma_le_len(x.1 as nat, 4);
    lemma_le_len(e.0 as nat, 4);
    lemma_le_len(e.1 as nat, 4);
    lemma_le_len(l.function as nat, 2);
    lemma_le_len(l.handle as nat, 8);
    lemma_le_len(l.args.len(), 4);
}

/// A function is its handle, its module, its name and its attributes; a graph its handle
/// and instance, its nodes and its edges; a node its function, dimensions and shared memory
/// and then its parameters; a log its graph and instance and then its operations.
pub proof fn law_larger_parts_of_a_handoff(
    s: Seq<u8>,
    f: FuncModel,
    g: GraphModel,
    n: NodeModel,
    o: OplogModel,
)
    requires
        has_room(s, 64 + vstd::utf8::encode_utf8(f.name).len()),
        vstd::utf8::encode_utf8(f.name).len() <= u32::MAX,
    ensures
        put_func()(Ok(s), f) == put_list(
            put_attr(),
            Ok(
                s + le_bytes(f.handle as nat, 8) + le_bytes(f.module as nat, 8) + le_bytes(
                    vstd::utf8::encode_utf8(f.name).len(),
                    4,
                ) + vstd::utf8::encode_utf8(f.name),
            ),
            f.attrs,
        ),
        put_graph()(Ok(s), g) == put_list(
            put_edge(),
            put_list(
                put_node(),
                Ok(s + le_bytes(g.graph as nat, 8) + le_bytes(g.instance as nat, 8)),
                g.nodes,
            ),
            g.edges,
        ),
        put_node()(Ok(s), n) == put_list(
            put_bytes(),
            Ok(
                s + (le_bytes(n.func as nat, 8) + le_bytes(n.grid.0 as nat, 4) + le_bytes(
                    n.grid.1 as nat,
                    4,
                ) + le_bytes(n.grid.2 as nat, 4) + le_bytes(n.block.0 as nat, 4) + le_bytes(
                    n.block.1 as nat,
                    4,
                ) + le_bytes(n.block.2 as nat, 4) + le_bytes(n.shared_mem as nat, 4)),
            ),
            n.params,
        ),
        put_oplog()(Ok(s), o) == put_list(
            put_bytes(),
            Ok(s + le_bytes(o.graph as nat, 8) + le_bytes(o.instance as nat, 8)),
            o.ops,
        ),
{
    let name = vstd::utf8::encode_utf8(f.name);
    lemma_le_len(f.handle as nat, 8);
    lemma_le_len(f.module as nat, 8);
    lemma_le_len(name.len(), 4);
    lemma_le_len(g.graph as nat, 8);
    lemma_le_len(g.instance as nat, 8);
    lemma_le_len(n.func as nat, 8);
    lemma_le_len(n.grid.0 as nat, 4);
    lemma_le_len(n.grid.1 as nat, 4);
    lemma_le_len(n.grid.2 as nat, 4);
    lemma_le_len(n.block.0 as nat, 4);
    lemma_le_len(n.block.1 as nat, 4);
    lemma_le_len(n.block.2 as nat, 4);
    lemma_le_len(n.shared_mem as nat, 4);
    lemma_le_len(o.graph as nat, 8);
    lemma_le_len(o.instance as nat, 8);
}

/// A list is its length and then its items, in their order.
pub proof fn law_lists_of_a_handoff<T>(
    w: spec_fn(Result<Seq<u8>, HandoffError>, T) -> Result<Seq<u8>, HandoffError>,
    s: Seq<u8>,
    v: Seq<T>,
    x: T,
)
    requires
        has_room(s, 4),
        v.len() < u32::MAX,
    ensures
        put_list(w, Ok(s), Seq::empty()) == Ok::<Seq<u8>, HandoffError>(s + le_bytes(0, 4)),
        put_list(w, Ok(s), v) == put_each(
            w,
            Ok::<Seq<u8>, HandoffError>(s + le_bytes(v.len(), 4)),
            v,
        ),
        put_each(w, Ok(s), v.push(x)) == w(put_each(w, Ok(s), v), x),
{
    lemma_le_len(0, 4);
    lemma_le_len(v.len(), 4);
    assert(v.push(x).drop_last() =~= v);
}

/// What of the golden's streams or events could be made anew stands for what it was made
/// for; what could not is left out.
pub proof fn law_recreated_handles(
    golden: Seq<(u64, u32)>,
    made: Seq<Option<u64>>,
    p: (u64, u64),
)
    requires
        golden.len() <= made.len(),
    ensures
        recreated_of(golden, made).contains(p) <==> exists|i: int|
            0 <= i < golden.len() && (#[trigger] golden[i]).0 == p.0 && made[i] == Some(p.1),
        (forall|i: int| 0 <= i < golden.len() ==> (#[trigger] made[i]) is Some) ==> recreated_of(
            golden,
            made,
        ).len() == golden.len(),
    decreases golden.len(),
{
    if golden.len() > 0 {
        let front = golden.drop_last();
        let last = golden.len() - 1;
        law_recreated_handles(front, made, p);
        let before = recreated_of(front, made);
        assert(golden.last() == golden[last]);
        if made[last] is Some {
            lemma_push_members(before, (golden.last().0, made[last]->Some_0), p);
        }
        if before.contains(p) {
            let i = choose|i: int|
                0 <= i < front.len() && (#[trigger] front[i]).0 == p.0 && made[i] == Some(p.1);
            assert(golden[i] == front[i]);
        }
        if exists|i: int|
            0 <= i < golden.len() && (#[trigger] golden[i]).0 == p.0 && made[i] == Some(p.1) {
            let i = choose|i: int|
                0 <= i < golden.len() && (#[trigger] golden[i]).0 == p.0 && made[i] == Some(p.1);
            if i < last {
                assert(golden[i] == front[i]);
            }
        }
    }
}

// ---------------------------------------------------------------------------
// Layouts
// ---------------------------------------------------------------------------

/// The layout that clones get has the reservations and the ranges as they were taken.
/// Ordinary allocations are in it with their addresses and sizes: staged ones with the next
/// descriptor and no place of their own, others in the snapshot, from where the ranges end.
pub proof fn law_layout_that_clones_get(
    j: JobModel,
    f: FreezeModel,
    reservations: Seq<(u64, u64)>,
    granularity: u64,
    i: int,
)
    requires
        j.allocs.len() == 0 || f.staged || f.layout.offset + sizes_total(j.allocs) <= u64::MAX,
        0 <= i,
    ensures
        ({
            let l = frozen_layout(j, f, reservations, granularity);
            &&& l.reservations == reservations && l.maps == f.layout.maps
            &&& l.allocs.len() == j.allocs.len()
            &&& i < j.allocs.len() ==> l.allocs[i].0 == j.allocs[i].0 && l.allocs[i].1
                == j.allocs[i].1
            &&& j.allocs.len() == 0 ==> l.stage is None && l.host is None && l.regions.len() == 0
            &&& j.allocs.len() > 0 ==> l.regions == laid_out(alloc_spans(j.allocs, granularity))
            &&& j.allocs.len() > 0 && f.staged ==> l.stage == Some(f.layout.descriptors)
                && l.host is None
            &&& i < j.allocs.len() && f.staged ==> l.allocs[i].2 is None
            &&& j.allocs.len() > 0 && !f.staged ==> l.host == f.layout.snapshot && l.stage is None
            &&& i < j.allocs.len() && !f.staged ==> l.allocs[i].2 is Some && (i == 0
                ==> l.allocs[i].2 == Some(f.layout.offset)) && (i > 0 ==> l.allocs[i - 1].2 is Some
                && l.allocs[i].2->Some_0 == l.allocs[i - 1].2->Some_0 + j.allocs[i - 1].1)
        }),
{
    if i < j.allocs.len() && !f.staged {
        law_allocations_follow_the_ranges(j.allocs, f.layout.offset, i);
    } else if j.allocs.len() > 0 && !f.staged {
        law_allocations_follow_the_ranges(j.allocs, f.layout.offset, 0);
    }
}

/// What a snapshot needs is what the ranges need and all ordinary allocations together.
pub proof fn law_snapshot_needs_all_allocations(start: u64, allocs: Seq<(u64, u64)>)
    ensures
        with_allocs(start, allocs) as int == if start + sum_of(
            allocs.map_values(|a: (u64, u64)| a.1 as int),
        ) <= u64::MAX {
            start + sum_of(allocs.map_values(|a: (u64, u64)| a.1 as int))
        } else {
            u64::MAX as int
        },
        sum_of(allocs.map_values(|a: (u64, u64)| a.1 as int)) >= 0,
    decreases allocs.len(),
{
    let all = allocs.map_values(|a: (u64, u64)| a.1 as int);
    if allocs.len() == 0 {
        assert(all =~= Seq::empty());
        lemma_sum_empty();
    } else {
        let front = allocs.drop_last();
        law_snapshot_needs_all_allocations(start, front);
        let before = front.map_values(|a: (u64, u64)| a.1 as int);
        assert(all =~= before.push(allocs.last().1 as int));
        lemma_sum_push(before, allocs.last().1 as int);
    }
}

/// The granule of regions is the reported one, and at least sixty-four kibibytes.
pub proof fn law_granule_of_regions(reported: Option<u64>)
    ensures
        region_granularity_of(reported) >= 0x1_0000,
        reported is Some && reported->Some_0 >= 0x1_0000 ==> region_granularity_of(reported)
            == reported->Some_0,
        reported is Some && reported->Some_0 < 0x1_0000 ==> region_granularity_of(reported)
            == 0x1_0000,
        reported is None ==> region_granularity_of(reported) == 0x20_0000,
{
}

// ---------------------------------------------------------------------------
// Processes
// ---------------------------------------------------------------------------

/// A command line holds an argument if it is one of the stretches between its zero bytes.
pub proof fn law_arguments_lie_between_zeros(a: Seq<u8>, arg: Seq<u8>, b: Seq<u8>)
    ensures
        holds_argument(arg, arg),
        holds_argument(a.push(0) + arg, arg),
        holds_argument(arg.push(0) + b, arg),
        holds_argument(a.push(0) + arg.push(0) + b, arg),
{
    let n = arg.len() as int;
    let m = a.len() as int + 1;
    assert(arg.subrange(0, n) =~= arg);
    assert(argument_at(arg, arg, 0));
    let s = a.push(0) + arg;
    assert(s.subrange(m, m + n) =~= arg);
    assert(argument_at(s, arg, m));
    let t = arg.push(0) + b;
    assert(t.subrange(0, n) =~= arg);
    assert(argument_at(t, arg, 0));
    let u = a.push(0) + arg.push(0) + b;
    assert(u.subrange(m, m + n) =~= arg);
    assert(argument_at(u, arg, m));
}

/// A command line that holds an argument has it bounded by zero bytes or its ends.
pub proof fn law_no_part_of_an_argument_counts(cmdline: Seq<u8>, arg: Seq<u8>)
    requires
        holds_argument(cmdline, arg),
    ensures
        exists|i: int|
            #![trigger cmdline.subrange(i, i + arg.len())]
            0 <= i && i + arg.len() <= cmdline.len() && cmdline.subrange(i, i + arg.len()) == arg
                && (i == 0 || cmdline[i - 1] == 0) && (i + arg.len() == cmdline.len() || cmdline[i
                + arg.len()] == 0),
{
    let i = choose|i: int| argument_at(cmdline, arg, i);
    assert(cmdline.subrange(i, i + arg.len()) == arg);
}

/// A service of its own has its pipe named by user and process below the place for
/// temporary files, and its logs by process below those of the daemon; one that is not
/// wanted or is run by others has neither.
pub proof fn law_service_of_its_own(
    mode: Option<Seq<char>>,
    fork_workers: bool,
    external: bool,
    dir: Option<Seq<char>>,
    temp: Seq<char>,
    uid: u32,
    pid: u32,
    r: MpsPlan,
)
    requires
        mps_planned(mode, fork_workers, external, dir, temp, uid, pid, r),
    ensures
        ({
            let wanted = if switch(mode) is Some {
                switch(mode)->Some_0
            } else {
                fork_workers
            };
            let root = joined(
                if dir is Some {
                    dir->Some_0
                } else {
                    "/tmp"@
                },
                "cuda-mps-logs"@,
            );
            &&& r is Off <==> !wanted
            &&& r is External <==> wanted && external
            &&& r matches MpsPlan::Private { pipe, log_root, logs } ==> pipe@ == joined(
                temp,
                "smolvm-mps-"@ + decimal(uid as nat) + "-"@ + decimal(pid as nat),
            ) && log_root@ == root && logs@ == joined(root, decimal(pid as nat))
        }),
{
}

/// The status directory lies beside the socket, under the socket's name with an ending.
pub proof fn law_status_directory(parent: Seq<char>, name: Seq<char>)
    ensures
        status_dir_of(Some(parent), Some(name)) == joined(parent, name + ".workers"@),
        status_dir_of(None, Some(name)) == joined("."@, name + ".workers"@),
        status_dir_of(Some(parent), None) == joined(parent, "cuda-daemon.sock"@ + ".workers"@),
{
}

/// The messages of tensor bundles open with their own letters.
pub proof fn law_openings_of_tensor_messages()
    ensures
        publish_magic() == seq![0x54u8, 0x42u8, 0x50u8, 0x31u8],
        response_magic() == seq![0x54u8, 0x42u8, 0x52u8, 0x31u8],
        consume_magic() == seq![0x54u8, 0x42u8, 0x43u8, 0x31u8],
        publish_magic() != response_magic() && publish_magic() != consume_magic()
            && response_magic() != consume_magic(),
{
    assert(publish_magic()[2] != response_magic()[2]);
    assert(publish_magic()[2] != consume_magic()[2]);
    assert(response_magic()[2] != consume_magic()[2]);
}

/// A failed restoration of ordinary allocations tells its cause last, behind the address it
/// was about where there is one.
pub proof fn law_ordinary_failures_tell_their_cause(
    l: LayoutModel,
    step: OrdinaryStep,
    cause: Seq<char>,
)
    ensures
        ({
            let text = ordinary_failure_text(l, step, cause);
            &&& ordinary_fault(l, step) is Some ==> text == Some(
                ordinary_fault(l, step)->Some_0 + ": "@ + cause,
            )
            &&& step matches OrdinaryStep::CreateRegion { i } ==> ordinary_fault(l, step) == Some(
                "address-preserving CUDA allocation failed for "@ + ("0x"@ + numeral(
                    l.regions[i as int].0 as nat,
                    16,
                )),
            )
            &&& step matches OrdinaryStep::CopyRegion { source, at, i } ==> ordinary_fault(l, step)
                == Some(
                "address-preserving CUDA copy failed for "@ + ("0x"@ + numeral(
                    l.regions[i as int].0 as nat,
                    16,
                )),
            )
            &&& step matches OrdinaryStep::RestoreAlloc { i } ==> ordinary_fault(l, step) == Some(
                "address-preserving CUDA restore failed for "@ + ("0x"@ + numeral(
                    l.allocs[i as int].0 as nat,
                    16,
                )),
            )
            &&& step is Refused ==> text is Some
            &&& step is Unplaced ==> text is Some
        }),
{
}

// ---------------------------------------------------------------------------
// Images
// ---------------------------------------------------------------------------

/// Images of a message are the bytes where they are said to lie, under their own handles.
pub proof fn law_images_lie_where_they_are_said_to(b: Seq<u8>, refs: Seq<ImageRef>, i: int)
    requires
        0 <= i < refs.len(),
    ensures
        images_in(b, refs).len() == refs.len(),
        images_in(b, refs)[i].0 == refs[i].handle,
        images_in(b, refs)[i].1 == b.subrange(
            refs[i].offset as int,
            refs[i].offset as int + refs[i].len as int,
        ),
{
}

proof fn lemma_range_of(ranges: Seq<(u64, u64, u64)>, handle: u64, from: int, i: int)
    requires
        0 <= from <= i < ranges.len(),
        ranges[i].0 == handle,
        forall|j: int| from <= j < i ==> (#[trigger] ranges[j]).0 != handle,
    ensures
        range_of(ranges, handle, from) == Some((ranges[i].1, ranges[i].2)),
    decreases i - from,
{
    if from < i {
        assert(ranges[from].0 != handle);
        lemma_range_of(ranges, handle, from + 1, i);
    }
}

proof fn lemma_no_range(ranges: Seq<(u64, u64, u64)>, handle: u64, from: int)
    requires
        0 <= from,
        forall|j: int| from <= j < ranges.len() ==> (#[trigger] ranges[j]).0 != handle,
    ensures
        range_of(ranges, handle, from) is None,
    decreases ranges.len() - from,
{
    if from < ranges.len() {
        assert(ranges[from].0 != handle);
        lemma_no_range(ranges, handle, from + 1);
    }
}

/// A module whose image is in a store is written as its handle, the image's offset in the
/// store, and its length. The image must be there, with that length, and within the store.
pub proof fn law_stored_modules(
    s: Seq<u8>,
    m: (u64, Seq<u8>),
    ranges: Seq<(u64, u64, u64)>,
    bytes: u64,
    i: int,
)
    requires
        has_room(s, 20),
        0 <= i <= ranges.len(),
        forall|j: int| 0 <= j < i ==> (#[trigger] ranges[j]).0 != m.0,
        i < ranges.len() ==> ranges[i].0 == m.0,
    ensures
        ({
            let w = put_stored(ranges, bytes)(Ok(s), m);
            &&& i == ranges.len() ==> w == Err::<Seq<u8>, HandoffError>(HandoffError::MissingImage)
            &&& i < ranges.len() && (ranges[i].2 != m.1.len() || ranges[i].1 + ranges[i].2 > bytes)
                ==> w == Err::<Seq<u8>, HandoffError>(HandoffError::ImageMismatch)
            &&& i < ranges.len() && ranges[i].2 == m.1.len() && ranges[i].1 + ranges[i].2 <= bytes
                && m.1.len() <= u32::MAX ==> w == Ok::<Seq<u8>, HandoffError>(
                s + le_bytes(m.0 as nat, 8) + le_bytes(ranges[i].1 as nat, 8) + le_bytes(
                    m.1.len(),
                    4,
                ),
            )
        }),
{
    lemma_le_len(m.0 as nat, 8);
    lemma_le_len(m.1.len(), 4);
    if i < ranges.len() {
        lemma_le_len(ranges[i].1 as nat, 8);
        lemma_range_of(ranges, m.0, 0, i);
    } else {
        lemma_no_range(ranges, m.0, 0);
    }
}

/// A signed number is carried as its bits and is the same number again.
pub proof fn law_signed_numbers_are_carried(a: i32)
    ensures
        signed_of(bits_of(a)) == a,
        a >= 0 ==> bits_of(a) == a,
        a < 0 ==> bits_of(a) == a + 0x1_0000_0000,
{
}

} // verus!
