//! What a creation from a packed machine has done, and how layers and labels are ordered
//! and cut.
use crate::daemon::ranges::{pair_leq, sorted_pairs};
use crate::machine::create::{PackCreate, PackCreateStep, pack_create_run};
use crate::machine::layers::{LayerModel, ages, by_age};
use crate::machine::run::image_suggestion;
use crate::machine::run_laws::law_suggestion_keeps_words;
use crate::phrase::join_with;
use vstd::prelude::*;

verus! {

/// The `i`th step of a creation was this one.
pub open spec fn pack_step_at(
    seeds: bool,
    outcomes: Seq<bool>,
    i: int,
    step: PackCreateStep,
) -> bool {
    0 <= i < outcomes.len() && match pack_create_run(seeds, outcomes.take(i)) {
        Some(s) => s.step == step,
        None => false,
    }
}

/// A creation took this step.
pub open spec fn pack_took(seeds: bool, outcomes: Seq<bool>, step: PackCreateStep) -> bool {
    exists|i: int| pack_step_at(seeds, outcomes, i, step)
}

/// A creation took this step, and it worked.
pub open spec fn pack_did(seeds: bool, outcomes: Seq<bool>, step: PackCreateStep) -> bool {
    exists|i: int| #[trigger] pack_step_at(seeds, outcomes, i, step) && outcomes[i]
}

/// The name was reserved, the directory opened, and what an earlier machine left cleared.
pub open spec fn pack_prepared(seeds: bool, outcomes: Seq<bool>) -> bool {
    &&& pack_did(seeds, outcomes, PackCreateStep::Reserve)
    &&& pack_did(seeds, outcomes, PackCreateStep::Open)
    &&& pack_did(seeds, outcomes, PackCreateStep::Clear)
}

spec fn pack_holds(seeds: bool, o: Seq<bool>, s: PackCreate) -> bool {
    &&& s.seeds == seeds
    &&& match s.step {
        PackCreateStep::Reserve => !s.failed,
        PackCreateStep::Open => !s.failed && pack_did(seeds, o, PackCreateStep::Reserve),
        PackCreateStep::Clear => !s.failed && pack_did(seeds, o, PackCreateStep::Reserve)
            && pack_did(seeds, o, PackCreateStep::Open),
        PackCreateStep::Extract => !s.failed && pack_prepared(seeds, o),
        PackCreateStep::Detach => pack_prepared(seeds, o) && pack_took(
            seeds,
            o,
            PackCreateStep::Extract,
        ) && (!s.failed ==> pack_did(seeds, o, PackCreateStep::Extract)),
        PackCreateStep::Seed => !s.failed && seeds && pack_prepared(seeds, o) && pack_did(
            seeds,
            o,
            PackCreateStep::Extract,
        ) && pack_took(seeds, o, PackCreateStep::Detach),
        PackCreateStep::Commit => !s.failed && pack_prepared(seeds, o) && pack_did(
            seeds,
            o,
            PackCreateStep::Extract,
        ) && pack_took(seeds, o, PackCreateStep::Detach) && (seeds ==> pack_did(
            seeds,
            o,
            PackCreateStep::Seed,
        )),
        PackCreateStep::CleanUp => pack_did(seeds, o, PackCreateStep::Reserve) && (pack_took(
            seeds,
            o,
            PackCreateStep::Extract,
        ) ==> pack_took(seeds, o, PackCreateStep::Detach)),
    }
}

proof fn lemma_pack_longer(seeds: bool, outcomes: Seq<bool>)
    requires
        outcomes.len() > 0,
    ensures
        forall|step: PackCreateStep|
            pack_took(seeds, outcomes.drop_last(), step) ==> #[trigger] pack_took(
                seeds,
                outcomes,
                step,
            ),
        forall|step: PackCreateStep|
            pack_did(seeds, outcomes.drop_last(), step) ==> #[trigger] pack_did(
                seeds,
                outcomes,
                step,
            ),
{
    let front = outcomes.drop_last();
    assert forall|i: int, step: PackCreateStep|
        pack_step_at(seeds, front, i, step) implies #[trigger] pack_step_at(
        seeds,
        outcomes,
        i,
        step,
    ) && front[i] == outcomes[i] by {
        assert(front.take(i) =~= outcomes.take(i));
    }
    assert forall|step: PackCreateStep| pack_took(seeds, front, step) implies #[trigger] pack_took(
        seeds,
        outcomes,
        step,
    ) by {
        let i = choose|i: int| pack_step_at(seeds, front, i, step);
        assert(pack_step_at(seeds, outcomes, i, step));
    }
    assert forall|step: PackCreateStep| pack_did(seeds, front, step) implies #[trigger] pack_did(
        seeds,
        outcomes,
        step,
    ) by {
        let i = choose|i: int| #[trigger] pack_step_at(seeds, front, i, step) && front[i];
        assert(pack_step_at(seeds, outcomes, i, step));
    }
}

/// No step but the last is new in a longer run.
proof fn lemma_pack_new(seeds: bool, outcomes: Seq<bool>, step: PackCreateStep)
    requires
        outcomes.len() > 0,
        pack_took(seeds, outcomes, step),
        pack_create_run(seeds, outcomes.drop_last()) matches Some(s) ==> s.step != step,
    ensures
        pack_took(seeds, outcomes.drop_last(), step),
{
    let front = outcomes.drop_last();
    let i = choose|i: int| pack_step_at(seeds, outcomes, i, step);
    if i == front.len() {
        assert(outcomes.take(i) =~= front);
    } else {
        assert(outcomes.take(i) =~= front.take(i));
        assert(pack_step_at(seeds, front, i, step));
    }
}

proof fn lemma_not_yet(seeds: bool, outcomes: Seq<bool>)
    ensures
        pack_create_run(seeds, outcomes) matches Some(s) ==> (s.step == PackCreateStep::Reserve
            || s.step == PackCreateStep::Open || s.step == PackCreateStep::Clear || s.step
            == PackCreateStep::Extract ==> !pack_took(seeds, outcomes, PackCreateStep::Extract)),
    decreases outcomes.len(),
{
    if outcomes.len() > 0 {
        let front = outcomes.drop_last();
        lemma_not_yet(seeds, front);
        if let Some(s) = pack_create_run(seeds, outcomes) {
            if s.step == PackCreateStep::Reserve || s.step == PackCreateStep::Open || s.step
                == PackCreateStep::Clear || s.step == PackCreateStep::Extract {
                if pack_took(seeds, outcomes, PackCreateStep::Extract) {
                    lemma_pack_new(seeds, outcomes, PackCreateStep::Extract);
                }
            }
        }
    }
}

proof fn lemma_pack_holds(seeds: bool, outcomes: Seq<bool>)
    ensures
        pack_create_run(seeds, outcomes) matches Some(s) ==> pack_holds(seeds, outcomes, s),
    decreases outcomes.len(),
{
    if outcomes.len() > 0 {
        let front = outcomes.drop_last();
        let n = outcomes.len() - 1;
        lemma_pack_holds(seeds, front);
        lemma_pack_longer(seeds, outcomes);
        lemma_not_yet(seeds, front);
        assert(outcomes.take(n) =~= front);
        if let Some(s) = pack_create_run(seeds, front) {
            assert(pack_step_at(seeds, outcomes, n, s.step));
            assert(pack_took(seeds, outcomes, s.step));
            if outcomes[n] {
                assert(pack_did(seeds, outcomes, s.step));
            }
            if s.step != PackCreateStep::Extract && pack_took(
                seeds,
                outcomes,
                PackCreateStep::Extract,
            ) {
                lemma_pack_new(seeds, outcomes, PackCreateStep::Extract);
            }
        }
    }
}

/// A machine is published only once its name was reserved, its directory opened, what was
/// left there cleared, the artifact extracted and its volume detached, and its disks filled
/// if it brings any.
pub proof fn law_what_a_published_machine_has_had(seeds: bool, outcomes: Seq<bool>)
    requires
        pack_create_run(seeds, outcomes) is Some,
        pack_create_run(seeds, outcomes)->Some_0.step == PackCreateStep::Commit,
    ensures
        pack_prepared(seeds, outcomes),
        pack_did(seeds, outcomes, PackCreateStep::Extract),
        pack_took(seeds, outcomes, PackCreateStep::Detach),
        seeds ==> pack_did(seeds, outcomes, PackCreateStep::Seed),
{
    lemma_pack_holds(seeds, outcomes);
}

/// What extraction mounts is detached before anything else is done, whether extraction
/// worked or not; and only a machine whose name was reserved is cleaned up.
pub proof fn law_volume_is_always_detached(seeds: bool, outcomes: Seq<bool>)
    requires
        pack_create_run(seeds, outcomes) is Some,
    ensures
        ({
            let step = pack_create_run(seeds, outcomes)->Some_0.step;
            &&& step == PackCreateStep::CleanUp ==> pack_did(
                seeds,
                outcomes,
                PackCreateStep::Reserve,
            )
            &&& pack_took(seeds, outcomes, PackCreateStep::Extract) && step
                != PackCreateStep::Detach ==> pack_took(seeds, outcomes, PackCreateStep::Detach)
        }),
{
    lemma_pack_holds(seeds, outcomes);
    lemma_not_yet(seeds, outcomes);
}

// ---------------------------------------------------------------------------
// Layers
// ---------------------------------------------------------------------------

/// Layers are looked at from the oldest on, each once.
pub proof fn law_layers_by_age(v: Seq<LayerModel>, i: int, j: int)
    requires
        v.len() <= usize::MAX,
    ensures
        by_age(v).len() == v.len(),
        0 <= i < j < v.len() ==> by_age(v)[i].modified <= by_age(v)[j].modified,
        0 <= i < v.len() ==> v.contains(by_age(v)[i]) && by_age(v).contains(v[i]),
{
    let a = ages(v);
    let s = sorted_pairs(a);
    lemma_sorted(a);
    let order = by_age(v);
    assert(s.to_multiset() =~= a.to_multiset());
    a.to_multiset_ensures();
    s.to_multiset_ensures();
    assert forall|k: int| 0 <= k < s.len() implies (#[trigger] s[k]).1 < v.len() && v[s[k].1 as int].modified
        == s[k].0 by {
        assert(s.contains(s[k]));
        lemma_same_members(s, a, s[k]);
        let m = choose|m: int| 0 <= m < a.len() && a[m] == s[k];
        assert(a[m] == (v[m].modified, m as u64));
    }
    if 0 <= i < v.len() {
        assert(order[i] == v[s[i].1 as int]);
        assert(a.contains(a[i]));
        lemma_same_members(a, s, a[i]);
        let k = choose|k: int| 0 <= k < s.len() && s[k] == a[i];
        assert(order[k] == v[i]);
    }
    if 0 <= i < j < v.len() {
        assert(order[i] == v[s[i].1 as int]);
        assert(order[j] == v[s[j].1 as int]);
    }
}

proof fn lemma_same_members(a: Seq<(u64, u64)>, b: Seq<(u64, u64)>, x: (u64, u64))
    requires
        a.to_multiset() == b.to_multiset(),
        a.contains(x),
    ensures
        b.contains(x),
{
    a.to_multiset_ensures();
    b.to_multiset_ensures();
    assert(a.to_multiset().count(x) > 0);
    assert(b.to_multiset().count(x) > 0);
}

proof fn lemma_sorted(a: Seq<(u64, u64)>)
    ensures
        sorted_pairs(a).to_multiset() == a.to_multiset(),
        sorted_pairs(a).len() == a.len(),
        forall|i: int, j: int|
            #![trigger sorted_pairs(a)[i], sorted_pairs(a)[j]]
            0 <= i < j < a.len() ==> sorted_pairs(a)[i].0 <= sorted_pairs(a)[j].0,
{
    let leq = pair_leq();
    assert(vstd::relations::total_ordering(leq));
    a.lemma_sort_by_ensures(leq);
    let s = sorted_pairs(a);
    a.to_multiset_ensures();
    s.to_multiset_ensures();
    assert forall|i: int, j: int|
        #![trigger s[i], s[j]]
        0 <= i < j < a.len() implies s[i].0 <= s[j].0 by {
        assert(leq(s[i], s[j]));
    }
}

// ---------------------------------------------------------------------------
// Words
// ---------------------------------------------------------------------------

/// A command that looks like an image is suggested as one, with the words behind it as its
/// command.
pub proof fn law_suggestion_for_an_image(command: Seq<Seq<char>>)
    requires
        command.len() > 0,
    ensures
        ({
            let rest = command.skip(1).filter(|w: Seq<char>| w != "--"@);
            &&& rest.len() == 0 ==> image_suggestion(command) == "smolvm machine run --image "@
                + command[0]
            &&& rest.len() > 0 ==> image_suggestion(command) == "smolvm machine run --image "@
                + command[0] + " -- "@ + join_with(rest, " "@)
        }),
{
    law_suggestion_keeps_words(command.skip(1));
}

} // verus!
