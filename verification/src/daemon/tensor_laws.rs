//! What the store of tensor bundles holds, and what its messages mean.
use crate::daemon::tensor::{
    BundleModel, TensorRange, admitted, has_token, is_fresh, is_stale, metadata_bytes, other_token,
    parse_ack, pick_token, range_at, ranges_bytes, total_bytes,
};
use crate::daemon::worker_env_laws::{lemma_sum_empty, lemma_sum_push, sum_of};
use crate::filtering::lemma_filter_members;
use crate::wire::{le_at, le_bytes, lemma_byte_range, lemma_le_at, lemma_le_len};
use vstd::prelude::*;

verus! {

/// A bundle is not over its time.
pub open spec fn in_time(b: BundleModel, now: u64, ttl: u64) -> bool {
    ttl > 0 && now < b.created + ttl
}

/// Pruning takes just the bundles that are over their time; each is kept or handed back.
pub proof fn law_bundles_that_stay(v: Seq<BundleModel>, now: u64, ttl: u64, b: BundleModel)
    ensures
        v.filter(is_fresh(now, ttl)).contains(b) <==> v.contains(b) && in_time(b, now, ttl),
        v.filter(is_stale(now, ttl)).contains(b) <==> v.contains(b) && !in_time(b, now, ttl),
{
    lemma_filter_members(v, is_fresh(now, ttl), b);
    lemma_filter_members(v, is_stale(now, ttl), b);
}

/// Taking or forgetting a bundle takes those of its token and no other.
pub proof fn law_other_bundles_stay(v: Seq<BundleModel>, token: Seq<u8>, b: BundleModel)
    ensures
        v.filter(other_token(token)).contains(b) <==> v.contains(b) && b.token != token,
{
    lemma_filter_members(v, other_token(token), b);
}

/// The bytes that wait are those of all the allocations.
pub proof fn law_bytes_that_wait(v: Seq<BundleModel>)
    ensures
        total_bytes(v) == sum_of(v.map_values(|b: BundleModel| b.allocation_size as int)),
    decreases v.len(),
{
    let all = v.map_values(|b: BundleModel| b.allocation_size as int);
    if v.len() == 0 {
        assert(all =~= Seq::empty());
        lemma_sum_empty();
    } else {
        let front = v.drop_last();
        law_bytes_that_wait(front);
        let before = front.map_values(|b: BundleModel| b.allocation_size as int);
        assert(all =~= before.push(v.last().allocation_size as int));
        lemma_sum_push(before, v.last().allocation_size as int);
    }
}

proof fn lemma_pick(v: Seq<BundleModel>, candidates: Seq<Seq<u8>>, from: int)
    requires
        0 <= from,
    ensures
        match pick_token(v, candidates, from) {
            Some(t) => exists|i: int|
                from <= i < 4 && i < candidates.len() && #[trigger] candidates[i] == t
                    && !has_token(v, t),
            None => forall|i: int|
                from <= i < 4 && i < candidates.len() ==> has_token(v, #[trigger] candidates[i]),
        },
    decreases candidates.len() - from,
{
    if from < candidates.len() && from < 4 {
        if has_token(v, candidates[from]) {
            lemma_pick(v, candidates, from + 1);
        } else {
            assert(pick_token(v, candidates, from) == Some(candidates[from]));
        }
    }
}

/// A bundle is taken in unless sixty-four wait already, or thirty-two gibibytes would. It
/// gets one of the first four tokens offered, that no other has; what it brought is kept
/// as it came, behind the others that are in time, which stay as they were.
pub proof fn law_bundle_that_is_taken_in(
    v: Seq<BundleModel>,
    allocation: i32,
    allocation_size: u64,
    metadata: Seq<u8>,
    candidates: Seq<Seq<u8>>,
    now: u64,
    ttl: u64,
)
    ensures
        ({
            let (status, token, after) = admitted(
                v,
                allocation,
                allocation_size,
                metadata,
                candidates,
                now,
                ttl,
            );
            let live = v.filter(is_fresh(now, ttl));
            let full = live.len() >= 64 || total_bytes(live) + allocation_size
                > 32 * 1024 * 1024 * 1024;
            &&& status == 2 <==> full
            &&& status != 0 ==> after == live && token.len() == 0
            &&& status == 0 ==> {
                &&& token.len() > 0
                &&& after.len() == live.len() + 1 && after.drop_last() == live
                &&& after.last().token == token && after.last().allocation == allocation
                    && after.last().allocation_size == allocation_size && after.last().metadata
                    == metadata && after.last().created == now
                &&& exists|i: int| 0 <= i < 4 && i < candidates.len() && #[trigger] candidates[i]
                    == token
                &&& forall|i: int| 0 <= i < live.len() ==> (#[trigger] live[i]).token != token
            }
            &&& !full && candidates.len() > 0 && candidates[0].len() > 0 && (forall|i: int|
                0 <= i < live.len() ==> (#[trigger] live[i]).token != candidates[0]) ==> status == 0
                && token == candidates[0]
        }),
{
    let (status, token, after) = admitted(
        v,
        allocation,
        allocation_size,
        metadata,
        candidates,
        now,
        ttl,
    );
    let live = v.filter(is_fresh(now, ttl));
    lemma_pick(live, candidates, 0);
    if status == 0 {
        assert(after.drop_last() =~= live);
        assert(!has_token(live, token));
    }
}

/// An answer to a publication is read as it was written: a status other than zero is an
/// error, else it tells the length of the token, which is from one to two hundred and
/// fifty-six bytes.
pub proof fn law_answer_is_read_back(status: u32, length: u32)
    ensures
        ({
            let read = parse_ack(le_bytes(status as nat, 4) + le_bytes(length as nat, 4));
            &&& status != 0 ==> read == Err::<usize, u32>(status)
            &&& status == 0 && 1 <= length <= 256 ==> read == Ok::<usize, u32>(length as usize)
            &&& status == 0 && (length == 0 || length > 256) ==> read is Err
        }),
{
    let a = le_bytes(status as nat, 4);
    let b = le_bytes(length as nat, 4);
    let s = a + b;
    let none = Seq::<u8>::empty();
    lemma_byte_range();
    lemma_le_len(status as nat, 4);
    lemma_le_len(length as nat, 4);
    lemma_le_at(none, status as nat, 4, b);
    assert(none + a + b =~= s);
    lemma_le_at(a, length as nat, 4, none);
    assert(a + b + none =~= s);
}

/// Metadata is the length of its manifest, the number of its tensors, the manifest, and for
/// each tensor its offset and its size.
pub proof fn law_metadata_as_written(manifest: Seq<u8>, tensors: Seq<TensorRange>)
    requires
        manifest.len() <= u32::MAX,
        tensors.len() <= u32::MAX,
    ensures
        ({
            let m = metadata_bytes(manifest, tensors);
            &&& m.len() == 8 + manifest.len() + 16 * tensors.len()
            &&& le_at(m, 0, 4) == manifest.len()
            &&& le_at(m, 4, 4) == tensors.len()
            &&& m.subrange(8, 8 + manifest.len() as int) == manifest
            &&& forall|i: int|
                0 <= i < tensors.len() ==> range_at(m, 8 + manifest.len() as int, i)
                    == #[trigger] tensors[i]
        }),
{
    let a = le_bytes(manifest.len(), 4);
    let b = le_bytes(tensors.len(), 4);
    let c = ranges_bytes(tensors);
    let m = metadata_bytes(manifest, tensors);
    let none = Seq::<u8>::empty();
    lemma_byte_range();
    lemma_le_len(manifest.len(), 4);
    lemma_le_len(tensors.len(), 4);
    lemma_ranges_len(tensors);
    lemma_le_at(none, manifest.len(), 4, b + manifest + c);
    assert(m =~= none + a + (b + manifest + c));
    lemma_le_at(a, tensors.len(), 4, manifest + c);
    assert(m =~= a + b + (manifest + c));
    assert(m.subrange(8, 8 + manifest.len() as int) =~= manifest);
    let head = a + b + manifest;
    assert forall|i: int| 0 <= i < tensors.len() implies range_at(m, 8 + manifest.len() as int, i)
        == #[trigger] tensors[i] by {
        lemma_range_read(head, tensors, i);
    }
}

proof fn lemma_ranges_len(v: Seq<TensorRange>)
    ensures
        ranges_bytes(v).len() == 16 * v.len(),
    decreases v.len(),
{
    if v.len() > 0 {
        lemma_ranges_len(v.drop_last());
        lemma_le_len(v.last().offset as nat, 8);
        lemma_le_len(v.last().size as nat, 8);
    }
}

proof fn lemma_range_read(head: Seq<u8>, tensors: Seq<TensorRange>, i: int)
    requires
        0 <= i < tensors.len(),
    ensures
        range_at(head + ranges_bytes(tensors), head.len() as int, i) == tensors[i],
    decreases tensors.len(),
{
    let front = tensors.drop_last();
    let r = tensors.last();
    let before = ranges_bytes(front);
    lemma_ranges_len(front);
    lemma_byte_range();
    let x = le_bytes(r.offset as nat, 8);
    let y = le_bytes(r.size as nat, 8);
    lemma_le_len(r.offset as nat, 8);
    lemma_le_len(r.size as nat, 8);
    let s = head + ranges_bytes(tensors);
    let a = head + before;
    if i == front.len() {
        lemma_le_at(a, r.offset as nat, 8, y);
        assert(s =~= a + x + y);
        lemma_le_at(a + x, r.size as nat, 8, Seq::empty());
        assert(s =~= (a + x) + y + Seq::<u8>::empty());
    } else {
        lemma_range_read(head, front, i);
        let o = head.len() + 16 * i;
        assert(s.subrange(o, o + 8) =~= a.subrange(o, o + 8));
        assert(s.subrange(o + 8, o + 8 + 8) =~= a.subrange(o + 8, o + 8 + 8));
        assert(front[i] == tensors[i]);
    }
}

} // verus!
