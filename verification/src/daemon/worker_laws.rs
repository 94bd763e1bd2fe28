//! What holds of what a worker is given.
use crate::daemon::layout::lemma_spans_proper;
use crate::daemon::memory::{first_region, holds_address};
use crate::daemon::ranges::{apart, proper};
use crate::daemon::worker::{
    addressable, alloc_spans, host_placed, laid_out, law_allocations_lie_in_regions, lemma_laid_out,
    lemma_laid_out_len, lemma_span_total, signed_decimal, sizes_total, span_total,
};
use crate::numerals::{
    decimal, is_digit_char, lemma_numeral_chars, lemma_numeral_value, lemma_parse_numeral,
    parse_signed,
};
use vstd::prelude::*;

verus! {

/// A worker reads every descriptor and device back as it was written for it.
pub proof fn law_worker_reads_its_numbers(n: i32)
    ensures
        parse_signed(signed_decimal(n as int)) == Some(n as int),
{
    if n < 0 {
        let m = (-n) as nat;
        lemma_numeral_value(m, 10);
        assert(signed_decimal(n as int).skip(1) =~= decimal(m));
    } else {
        lemma_numeral_value(n as nat, 10);
        lemma_numeral_chars(n as nat, 10);
        lemma_parse_numeral(n as nat, 10, i32::MAX as nat);
        let s = decimal(n as nat);
        assert(is_digit_char(s[0]));
    }
}

// ---------------------------------------------------------------------------
// Snapshots on the host
// ---------------------------------------------------------------------------

/// Ordinary allocations lie in the snapshot one behind the other, from where its
/// ranges end: no two share a byte.
pub proof fn law_host_places_do_not_overlap(allocs: Seq<(u64, u64)>, offset: u64, i: int, j: int)
    requires
        offset + sizes_total(allocs) <= u64::MAX,
        0 <= i < j < allocs.len(),
    ensures
        host_placed(allocs, offset).len() == allocs.len(),
        host_placed(allocs, offset)[i].2 is Some,
        host_placed(allocs, offset)[j].2 is Some,
        offset <= host_placed(allocs, offset)[i].2->Some_0,
        host_placed(allocs, offset)[i].2->Some_0 + allocs[i].1 <= host_placed(
            allocs,
            offset,
        )[j].2->Some_0,
{
    lemma_host_placed(allocs, offset, i);
    lemma_host_placed(allocs, offset, j);
    lemma_sizes_take(allocs, i + 1, j);
    assert(allocs.take(i + 1).drop_last() =~= allocs.take(i));
    assert(allocs.take(i + 1).last() == allocs[i]);
    lemma_sizes_take(allocs, j, allocs.len() as int);
    assert(allocs.take(allocs.len() as int) =~= allocs);
}

proof fn lemma_sizes_take(allocs: Seq<(u64, u64)>, m: int, n: int)
    requires
        0 <= m <= n <= allocs.len(),
    ensures
        sizes_total(allocs.take(m)) <= sizes_total(allocs.take(n)),
    decreases n - m,
{
    if m < n {
        lemma_sizes_take(allocs, m, n - 1);
        assert(allocs.take(n).drop_last() =~= allocs.take(n - 1));
    }
}

proof fn lemma_host_placed(allocs: Seq<(u64, u64)>, offset: u64, i: int)
    requires
        0 <= i < allocs.len(),
    ensures
        host_placed(allocs, offset).len() == allocs.len(),
        host_placed(allocs, offset)[i] == (
            allocs[i].0,
            allocs[i].1,
            Some((offset + sizes_total(allocs.take(i))) as u64),
        ),
    decreases allocs.len(),
{
    let front = allocs.drop_last();
    reveal_with_fuel(host_placed, 2);
    if front.len() > 0 {
        lemma_host_placed(front, offset, 0);
    }
    if i < front.len() {
        lemma_host_placed(front, offset, i);
        assert(front.take(i) =~= allocs.take(i));
        assert(front[i] == allocs[i]);
    } else {
        assert(front =~= allocs.take(i));
    }
}

// ---------------------------------------------------------------------------
// Staging
// ---------------------------------------------------------------------------

/// Where an allocation lies in the staging area.
pub open spec fn staged_at(regions: Seq<(u64, u64, u64)>, d: u64) -> Option<int> {
    match first_region(regions, d, 0) {
        Some(r) => Some(r.2 + (d - r.0)),
        None => None,
    }
}

proof fn lemma_first_region(regions: Seq<(u64, u64, u64)>, d: u64, from: int, i: int)
    requires
        0 <= from <= i < regions.len(),
        holds_address(regions[i], d),
        forall|k: int| from <= k < i ==> !holds_address(#[trigger] regions[k], d),
    ensures
        first_region(regions, d, from) == Some(regions[i]),
    decreases i - from,
{
    if from < i {
        assert(!holds_address(regions[from], d));
        lemma_first_region(regions, d, from + 1, i);
    }
}

proof fn lemma_span_take(spans: Seq<(u64, u64)>, m: int, n: int)
    requires
        proper(spans),
        0 <= m <= n <= spans.len(),
    ensures
        span_total(spans.take(m)) <= span_total(spans.take(n)),
    decreases n - m,
{
    if m < n {
        lemma_span_take(spans, m, n - 1);
        assert(spans.take(n).drop_last() =~= spans.take(n - 1));
        assert(spans[n - 1].0 <= spans[n - 1].1);
    }
}

/// The region of an allocation, and its place.
proof fn lemma_staged(allocs: Seq<(u64, u64)>, granularity: u64, k: int) -> (i: int)
    requires
        granularity > 0,
        addressable(allocs, granularity),
        0 <= k < allocs.len(),
        allocs[k].1 > 0,
    ensures
        ({
            let spans = alloc_spans(allocs, granularity);
            &&& 0 <= i < spans.len()
            &&& proper(spans)
            &&& apart(spans)
            &&& spans[i].0 <= allocs[k].0
            &&& allocs[k].0 + allocs[k].1 <= spans[i].1
            &&& staged_at(laid_out(spans), allocs[k].0) == Some(
                span_total(spans.take(i)) + (allocs[k].0 - spans[i].0),
            )
        }),
{
    let spans = alloc_spans(allocs, granularity);
    let regions = laid_out(spans);
    let d = allocs[k].0;
    lemma_spans_proper(allocs, (granularity - 1) as u64);
    law_allocations_lie_in_regions(allocs, granularity, k);
    let i = choose|i: int|
        0 <= i < regions.len() && {
            let r = #[trigger] regions[i];
            r.0 <= allocs[k].0 && allocs[k].0 + allocs[k].1 <= r.0 + r.1
        };
    lemma_laid_out_len(spans);
    lemma_laid_out(spans, i);
    assert(spans[i].0 <= spans[i].1);
    assert(holds_address(regions[i], d));
    assert forall|n: int| 0 <= n < i implies !holds_address(#[trigger] regions[n], d) by {
        lemma_laid_out(spans, n);
        assert(spans[n].0 <= spans[n].1);
        assert(spans[n].1 < spans[i].0);
    }
    lemma_first_region(regions, d, 0, i);
    let head = spans.take(i);
    assert forall|n: int| 0 <= n < head.len() implies (#[trigger] head[n]).0 <= head[n].1 by {
        assert(head[n] == spans[n]);
    }
    assert forall|a: int, b: int|
        #![trigger head[a], head[b]]
        0 <= a < b < head.len() implies head[a].1 < head[b].0 by {
        assert(head[a] == spans[a]);
        assert(head[b] == spans[b]);
    }
    lemma_span_total(head);
    i
}

/// Allocations that are apart are staged apart: no copy writes over another.
pub proof fn law_staged_copies_do_not_overlap(
    allocs: Seq<(u64, u64)>,
    granularity: u64,
    a: int,
    b: int,
)
    requires
        granularity > 0,
        addressable(allocs, granularity),
        0 <= a < allocs.len(),
        0 <= b < allocs.len(),
        allocs[a].1 > 0,
        allocs[b].1 > 0,
        allocs[a].0 + allocs[a].1 <= allocs[b].0,
    ensures
        ({
            let regions = laid_out(alloc_spans(allocs, granularity));
            &&& staged_at(regions, allocs[a].0) is Some
            &&& staged_at(regions, allocs[b].0) is Some
            &&& staged_at(regions, allocs[a].0)->Some_0 + allocs[a].1 <= staged_at(
                regions,
                allocs[b].0,
            )->Some_0
        }),
{
    let spans = alloc_spans(allocs, granularity);
    let i = lemma_staged(allocs, granularity, a);
    let j = lemma_staged(allocs, granularity, b);
    if i < j {
        lemma_span_take(spans, i + 1, j);
        assert(spans.take(i + 1).drop_last() =~= spans.take(i));
        assert(spans.take(i + 1).last() == spans[i]);
    } else if j < i {
        assert(spans[j].1 < spans[i].0);
    }
}

/// Every allocation is staged within the staging area.
pub proof fn law_staged_copies_stay_within(allocs: Seq<(u64, u64)>, granularity: u64, k: int)
    requires
        granularity > 0,
        addressable(allocs, granularity),
        0 <= k < allocs.len(),
        allocs[k].1 > 0,
    ensures
        ({
            let spans = alloc_spans(allocs, granularity);
            &&& staged_at(laid_out(spans), allocs[k].0) is Some
            &&& staged_at(laid_out(spans), allocs[k].0)->Some_0 + allocs[k].1 <= span_total(spans)
        }),
{
    let spans = alloc_spans(allocs, granularity);
    let i = lemma_staged(allocs, granularity, k);
    lemma_span_take(spans, i + 1, spans.len() as int);
    assert(spans.take(i + 1).drop_last() =~= spans.take(i));
    assert(spans.take(i + 1).last() == spans[i]);
    assert(spans.take(spans.len() as int) =~= spans);
}

} // verus!
