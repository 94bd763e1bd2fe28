//! What a clone worker is handed.
use crate::copying::{opt_str, or_empty};
use crate::daemon::policy::sharing_disabled;
use crate::daemon::preamble::procmem_text;
use crate::daemon::worker::{
    BuilderModel, GoldenChunk, WorkerTask, host_placed, optional_var, private_bytes, signed_decimal,
    sizes_total, slot_text, slots_for, worker_env_of,
};
use crate::numerals::{
    decimal, is_digit_char, lemma_numeral_chars, lemma_numeral_value, lemma_parse_numeral,
    parse_signed,
};
use vstd::prelude::*;

verus! {

proof fn lemma_sum_holds(
    a: Seq<(Seq<char>, Seq<char>)>,
    b: Seq<(Seq<char>, Seq<char>)>,
)
    ensures
        forall|p: (Seq<char>, Seq<char>)|
            a.contains(p) || b.contains(p) ==> #[trigger] (a + b).contains(p),
{
    let s = a + b;
    assert forall|p: (Seq<char>, Seq<char>)|
        a.contains(p) || b.contains(p) implies #[trigger] s.contains(p) by {
        if a.contains(p) {
            let i = choose|i: int| 0 <= i < a.len() && a[i] == p;
            assert(s[i] == p);
        } else {
            let i = choose|i: int| 0 <= i < b.len() && b[i] == p;
            assert(s[a.len() + i] == p);
        }
    }
}

proof fn lemma_optional(name: Seq<char>, value: Seq<char>)
    ensures
        optional_var(name, Some(value)).contains((name, value)),
        optional_var(name, Some(value)).len() == 1,
        optional_var(name, None).len() == 0,
{
    assert(optional_var(name, Some(value))[0] == (name, value));
}

/// One for a variable that is there.
pub open spec fn counted(there: bool) -> int {
    if there {
        1
    } else {
        0
    }
}

/// A worker is handed its layout, device and control descriptor, and each other thing that
/// its task has, under its own name; and nothing else.
pub proof fn law_worker_is_handed_its_task(t: WorkerTask)
    ensures
        ({
            let env = worker_env_of(t);
            let off = t.configured_sharing is Some && (t.configured_sharing->Some_0@ == "0"@
                || t.configured_sharing->Some_0@ == "false"@ || t.configured_sharing->Some_0@
                == "off"@);
            &&& env.contains(("SMOLVM_CUDA_CLONE_LAYOUT"@, t.layout@))
            &&& env.contains(("SMOLVM_CUDA_CLONE_DEVICE"@, signed_decimal(t.device as int)))
            &&& env.contains(("SMOLVM_CUDA_CLONE_CTRL"@, signed_decimal(t.slots.control as int)))
            &&& t.preload_modules ==> env.contains(("SMOLVM_CUDA_PRELOAD_MODULES"@, "1"@))
            &&& t.slots.publish is Some ==> env.contains(
                (
                    "SMOLVM_CUDA_CLONE_PUBLISH_CTRL"@,
                    signed_decimal(t.slots.publish->Some_0 as int),
                ),
            )
            &&& t.options.vram_limit_bytes is Some ==> env.contains(
                (
                    "SMOLVM_CUDA_VRAM_LIMIT_BYTES"@,
                    decimal(t.options.vram_limit_bytes->Some_0 as nat),
                ),
            )
            &&& t.options.fork_pool_size is Some ==> env.contains(
                (
                    "SMOLVM_CUDA_FORK_POOL_SIZE"@,
                    decimal(t.options.fork_pool_size->Some_0 as nat),
                ),
            )
            &&& t.procmem is Some ==> env.contains(
                (
                    "SMOLVM_CUDA_CLONE_PROCMEM"@,
                    procmem_text(t.procmem->Some_0.0, t.procmem->Some_0.1@),
                ),
            )
            &&& t.ring_dir is Some ==> env.contains(
                ("SMOLVM_CUDA_CLONE_RING_DIR"@, t.ring_dir->Some_0@),
            )
            &&& off ==> env.contains(("SMOLVM_CUDA_FORK_SHARE_WEIGHTS"@, "0"@))
            &&& !off && t.share_weights ==> env.contains(
                ("SMOLVM_CUDA_FORK_SHARE_WEIGHTS"@, "1"@),
            )
            &&& t.slots.module is Some ==> env.contains(
                (
                    "SMOLVM_CUDA_CLONE_MODULES_FD"@,
                    signed_decimal(t.slots.module->Some_0 as int),
                ),
            )
            &&& t.slots.images is Some ==> env.contains(
                (
                    "SMOLVM_CUDA_CLONE_MODULE_IMAGES_FD"@,
                    signed_decimal(t.slots.images->Some_0 as int),
                ),
            )
            &&& env.len() == 3 + counted(t.preload_modules) + counted(t.slots.publish is Some)
                + counted(t.options.vram_limit_bytes is Some) + counted(
                t.options.fork_pool_size is Some,
            ) + counted(t.procmem is Some) + counted(t.ring_dir is Some) + counted(
                off || t.share_weights,
            ) + counted(t.slots.module is Some) + counted(t.slots.images is Some)
        }),
{
    let off = sharing_disabled(opt_str(t.configured_sharing));
    let head = seq![
        ("SMOLVM_CUDA_CLONE_LAYOUT"@, t.layout@),
        ("SMOLVM_CUDA_CLONE_DEVICE"@, signed_decimal(t.device as int)),
        ("SMOLVM_CUDA_CLONE_CTRL"@, signed_decimal(t.slots.control as int)),
    ];
    assert(head[0] == ("SMOLVM_CUDA_CLONE_LAYOUT"@, t.layout@));
    assert(head[1] == ("SMOLVM_CUDA_CLONE_DEVICE"@, signed_decimal(t.device as int)));
    assert(head[2] == ("SMOLVM_CUDA_CLONE_CTRL"@, signed_decimal(t.slots.control as int)));
    let v1 = if t.preload_modules {
        Some("1"@)
    } else {
        None
    };
    let v2 = slot_text(t.slots.publish);
    let v3 = match t.options.vram_limit_bytes {
        Some(n) => Some(decimal(n as nat)),
        None => None,
    };
    let v4 = match t.options.fork_pool_size {
        Some(n) => Some(decimal(n as nat)),
        None => None,
    };
    let v5 = match t.procmem {
        Some((pid, regions)) => Some(procmem_text(pid, regions@)),
        None => None,
    };
    let v6 = opt_str(t.ring_dir);
    let v7 = if off {
        Some("0"@)
    } else if t.share_weights {
        Some("1"@)
    } else {
        None
    };
    let v8 = slot_text(t.slots.module);
    let v9 = slot_text(t.slots.images);
    let o1 = optional_var("SMOLVM_CUDA_PRELOAD_MODULES"@, v1);
    let o2 = optional_var("SMOLVM_CUDA_CLONE_PUBLISH_CTRL"@, v2);
    let o3 = optional_var("SMOLVM_CUDA_VRAM_LIMIT_BYTES"@, v3);
    let o4 = optional_var("SMOLVM_CUDA_FORK_POOL_SIZE"@, v4);
    let o5 = optional_var("SMOLVM_CUDA_CLONE_PROCMEM"@, v5);
    let o6 = optional_var("SMOLVM_CUDA_CLONE_RING_DIR"@, v6);
    let o7 = optional_var("SMOLVM_CUDA_FORK_SHARE_WEIGHTS"@, v7);
    let o8 = optional_var("SMOLVM_CUDA_CLONE_MODULES_FD"@, v8);
    let o9 = optional_var("SMOLVM_CUDA_CLONE_MODULE_IMAGES_FD"@, v9);
    let s1 = head + o1;
    let s2 = s1 + o2;
    let s3 = s2 + o3;
    let s4 = s3 + o4;
    let s5 = s4 + o5;
    let s6 = s5 + o6;
    let s7 = s6 + o7;
    let s8 = s7 + o8;
    let s9 = s8 + o9;
    assert(worker_env_of(t) == s9);
    lemma_sum_holds(head, o1);
    lemma_sum_holds(s1, o2);
    lemma_sum_holds(s2, o3);
    lemma_sum_holds(s3, o4);
    lemma_sum_holds(s4, o5);
    lemma_sum_holds(s5, o6);
    lemma_sum_holds(s6, o7);
    lemma_sum_holds(s7, o8);
    lemma_sum_holds(s8, o9);
    lemma_optional("SMOLVM_CUDA_PRELOAD_MODULES"@, "1"@);
    lemma_optional("SMOLVM_CUDA_CLONE_PUBLISH_CTRL"@, or_empty(v2));
    lemma_optional("SMOLVM_CUDA_VRAM_LIMIT_BYTES"@, or_empty(v3));
    lemma_optional("SMOLVM_CUDA_FORK_POOL_SIZE"@, or_empty(v4));
    lemma_optional("SMOLVM_CUDA_CLONE_PROCMEM"@, or_empty(v5));
    lemma_optional("SMOLVM_CUDA_CLONE_RING_DIR"@, or_empty(v6));
    lemma_optional("SMOLVM_CUDA_FORK_SHARE_WEIGHTS"@, or_empty(v7));
    lemma_optional("SMOLVM_CUDA_CLONE_MODULES_FD"@, or_empty(v8));
    lemma_optional("SMOLVM_CUDA_CLONE_MODULE_IMAGES_FD"@, or_empty(v9));
}

/// A number with its sign is read back as it was written.
pub proof fn law_signed_number_is_read_back(n: i32)
    ensures
        parse_signed(signed_decimal(n as int)) == Some(n as int),
{
    if n < 0 {
        let d = decimal((-n) as nat);
        let s = seq!['-'] + d;
        lemma_numeral_value((-n) as nat, 10);
        assert(s.skip(1) =~= d);
        assert(s[0] == '-');
    } else {
        let d = decimal(n as nat);
        lemma_parse_numeral(n as nat, 10, i32::MAX as nat);
        lemma_numeral_value(n as nat, 10);
        lemma_numeral_chars(n as nat, 10);
        assert(is_digit_char(d[0]));
    }
}

/// The descriptors of a worker: memory from the fourth on, then control, and each of the
/// others that there is, one behind the other.
pub proof fn law_descriptors_follow_each_other(
    exports: int,
    publish: bool,
    module: bool,
    images: bool,
)
    requires
        0 <= exports <= 0x7fff_fff0,
    ensures
        ({
            let s = slots_for(exports, publish, module, images);
            &&& s.control == 4 + exports
            &&& s.publish is Some == publish && s.module is Some == module && s.images is Some
                == images
            &&& publish ==> s.publish->Some_0 == s.control + 1
            &&& module ==> s.module->Some_0 == s.control + 1 + counted(publish)
            &&& images ==> s.images->Some_0 == s.control + 1 + counted(publish) + counted(module)
            &&& s.source_minimum == s.control + 1 + counted(publish) + counted(module) + counted(
                images,
            )
        }),
{
}

// ---------------------------------------------------------------------------
// Snapshots
// ---------------------------------------------------------------------------

/// The sizes of the ranges that are copied: all, or those that may not be shared.
pub open spec fn copied_sizes(chunks: Seq<GoldenChunk>, safe: Seq<bool>, sharing: bool) -> Seq<
    int,
> {
    Seq::new(
        chunks.len(),
        |i: int|
            if sharing && safe[i] {
                0
            } else {
                chunks[i].size as int
            },
    )
}

/// The sum of numbers.
pub open spec fn sum_of(v: Seq<int>) -> int {
    v.fold_left(0, |a: int, b: int| a + b)
}

/// One number more adds itself.
pub proof fn lemma_sum_push(v: Seq<int>, x: int)
    ensures
        sum_of(v.push(x)) == sum_of(v) + x,
{
    assert(v.push(x).drop_last() =~= v);
    reveal_with_fuel(Seq::fold_left, 2);
}

/// Nothing adds up to nothing.
pub proof fn lemma_sum_empty()
    ensures
        sum_of(Seq::empty()) == 0,
{
    reveal_with_fuel(Seq::fold_left, 1);
}

/// A snapshot has to hold every range that is not shared; where nothing is shared, all of
/// them.
pub proof fn law_snapshot_holds_what_is_not_shared(
    chunks: Seq<GoldenChunk>,
    safe: Seq<bool>,
    sharing: bool,
)
    requires
        chunks.len() <= safe.len(),
    ensures
        private_bytes(chunks, safe, sharing) as int == if sum_of(
            copied_sizes(chunks, safe, sharing),
        ) <= u64::MAX {
            sum_of(copied_sizes(chunks, safe, sharing))
        } else {
            u64::MAX as int
        },
        sum_of(copied_sizes(chunks, safe, sharing)) >= 0,
    decreases chunks.len(),
{
    let all = copied_sizes(chunks, safe, sharing);
    if chunks.len() == 0 {
        assert(all =~= Seq::empty());
        reveal_with_fuel(Seq::fold_left, 1);
    } else {
        let front = chunks.drop_last();
        law_snapshot_holds_what_is_not_shared(front, safe, sharing);
        let before = copied_sizes(front, safe, sharing);
        let x = all.last();
        assert(all =~= before.push(x));
        lemma_sum_push(before, x);
    }
}

/// Ordinary allocations are placed in a snapshot one behind the other, from where the
/// ranges end.
pub proof fn law_allocations_follow_the_ranges(allocs: Seq<(u64, u64)>, offset: u64, i: int)
    requires
        offset + sizes_total(allocs) <= u64::MAX,
        0 <= i < allocs.len(),
    ensures
        ({
            let placed = host_placed(allocs, offset);
            &&& placed.len() == allocs.len()
            &&& placed[i].0 == allocs[i].0 && placed[i].1 == allocs[i].1 && placed[i].2 is Some
            &&& i == 0 ==> placed[i].2 == Some(offset)
            &&& i > 0 ==> placed[i - 1].2 is Some && placed[i].2->Some_0 == placed[i - 1].2->Some_0
                + allocs[i - 1].1
            &&& placed[i].2->Some_0 + allocs[i].1 <= offset + sizes_total(allocs)
        }),
    decreases allocs.len(),
{
    let front = allocs.drop_last();
    let placed = host_placed(allocs, offset);
    if i < front.len() {
        law_allocations_follow_the_ranges(front, offset, i);
        let before = host_placed(front, offset);
        assert(placed[i] == before[i]);
        if i > 0 {
            assert(placed[i - 1] == before[i - 1]);
        }
    } else {
        if i > 0 {
            law_allocations_follow_the_ranges(front, offset, i - 1);
            let before = host_placed(front, offset);
            assert(placed[i - 1] == before[i - 1]);
            let g = front.drop_last();
            assert(sizes_total(front) == sizes_total(g) + front.last().1);
            lemma_placed_last(front, offset);
        } else {
            assert(front =~= Seq::empty());
            assert(host_placed(front, offset).len() == 0);
        }
    }
}

proof fn lemma_placed_last(allocs: Seq<(u64, u64)>, offset: u64)
    requires
        allocs.len() > 0,
        offset + sizes_total(allocs) <= u64::MAX,
    ensures
        host_placed(allocs, offset).len() == allocs.len(),
        host_placed(allocs, offset).last().2 == Some(
            (offset + sizes_total(allocs.drop_last())) as u64,
        ),
    decreases allocs.len(),
{
    if allocs.len() > 1 {
        lemma_placed_last(allocs.drop_last(), offset);
    } else {
        assert(allocs.drop_last() =~= Seq::empty());
        assert(host_placed(allocs.drop_last(), offset).len() == 0);
    }
}

/// A range that is copied to the snapshot is described by where it lies there: behind what
/// was copied before it. One that is exported is described by its descriptor, the next one.
/// Nothing that was described before changes.
pub proof fn law_ranges_are_described_in_turn(b: BuilderModel, chunk: GoldenChunk, safe: bool)
    requires
        b.snapshot is Some,
        b.offset + chunk.size <= u64::MAX,
        b.descriptors < i32::MAX,
    ensures
        ({
            let c = b.with_copied(chunk);
            let e = b.with_exported(chunk, safe);
            &&& c.maps.drop_last() == b.maps && e.maps.drop_last() == b.maps
            &&& c.maps.len() == b.maps.len() + 1 && e.maps.len() == b.maps.len() + 1
            &&& c.maps.last().va == chunk.va && c.maps.last().size == chunk.size
                && c.maps.last().handle == Some(chunk.handle)
            &&& e.maps.last().va == chunk.va && e.maps.last().size == chunk.size
                && e.maps.last().handle == Some(chunk.handle)
            &&& Some(c.maps.last().index) == b.snapshot && c.maps.last().host_offset == Some(
                b.offset,
            ) && !c.maps.last().loaded
            &&& e.maps.last().index == b.descriptors && e.maps.last().host_offset is None
                && e.maps.last().loaded == safe
            &&& c.offset == b.offset + chunk.size && c.descriptors == b.descriptors
            &&& e.offset == b.offset && e.descriptors == b.descriptors + 1
            &&& c.snapshot == b.snapshot && c.complete == b.complete && c.host_snapshot
                == b.host_snapshot
            &&& e.snapshot == b.snapshot && e.complete == b.complete && e.host_snapshot
                == b.host_snapshot
        }),
{
    assert(b.with_copied(chunk).maps.drop_last() =~= b.maps);
    assert(b.with_exported(chunk, safe).maps.drop_last() =~= b.maps);
}

} // verus!
