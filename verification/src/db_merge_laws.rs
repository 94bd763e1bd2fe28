//! What merging variables, saving settings and resolving mount targets come to.
use crate::db::saved_config;
use crate::db_model::{merge_env, normalized, other_than, set_env};
use crate::filtering::{
    lemma_filter_members, lemma_filter_push, lemma_filter_same, lemma_filter_twice,
    lemma_push_members,
};
use vstd::prelude::*;

verus! {

/// Some pair is for this key.
pub open spec fn has_key(pairs: Seq<(Seq<char>, Seq<char>)>, key: Seq<char>) -> bool {
    exists|i: int| 0 <= i < pairs.len() && (#[trigger] pairs[i]).0 == key
}

/// The `i`th pair is `p`, and no later one is for its key.
pub open spec fn is_last_of(
    pairs: Seq<(Seq<char>, Seq<char>)>,
    i: int,
    p: (Seq<char>, Seq<char>),
) -> bool {
    &&& 0 <= i < pairs.len() && pairs[i] == p
    &&& forall|j: int| i < j < pairs.len() ==> (#[trigger] pairs[j]).0 != p.0
}

/// Variables that an assignment is not for stay, in their order.
pub proof fn law_merging_keeps_other_variables(
    base: Seq<(Seq<char>, Seq<char>)>,
    over: Seq<(Seq<char>, Seq<char>)>,
)
    ensures
        ({
            let other = |p: (Seq<char>, Seq<char>)| !has_key(over, p.0);
            merge_env(base, over).filter(other) == base.filter(other)
        }),
{
    let other = |p: (Seq<char>, Seq<char>)| !has_key(over, p.0);
    lemma_merge_frame(base, over, other);
}

proof fn lemma_set_env(
    env: Seq<(Seq<char>, Seq<char>)>,
    key: Seq<char>,
    value: Seq<char>,
    other: spec_fn((Seq<char>, Seq<char>)) -> bool,
)
    requires
        forall|p: (Seq<char>, Seq<char>)| #[trigger] other(p) == (p.0 != key),
    ensures
        set_env(env, key, value) == env.filter(other).push((key, value)),
{
    lemma_filter_same(env, other, other_than(key));
}

proof fn lemma_merge_frame(
    base: Seq<(Seq<char>, Seq<char>)>,
    over: Seq<(Seq<char>, Seq<char>)>,
    q: spec_fn((Seq<char>, Seq<char>)) -> bool,
)
    requires
        forall|p: (Seq<char>, Seq<char>)| #[trigger] q(p) ==> !has_key(over, p.0),
    ensures
        merge_env(base, over).filter(q) == base.filter(q),
    decreases over.len(),
{
    if over.len() > 0 {
        let front = over.drop_last();
        let (k, v) = over.last();
        assert forall|p: (Seq<char>, Seq<char>)| #[trigger] q(p) implies !has_key(front, p.0) by {
            if has_key(front, p.0) {
                let i = choose|i: int| 0 <= i < front.len() && (#[trigger] front[i]).0 == p.0;
                assert(over[i].0 == p.0);
            }
        }
        lemma_merge_frame(base, front, q);
        let e = merge_env(base, front);
        let not_k = |p: (Seq<char>, Seq<char>)| p.0 != k;
        assert forall|p: (Seq<char>, Seq<char>)| #[trigger] q(p) implies not_k(p) by {
            assert(over[over.len() - 1] == over.last());
        }
        lemma_set_env(e, k, v, not_k);
        lemma_filter_twice(e, not_k, q);
        lemma_filter_push(e.filter(not_k), (k, v), q);
        assert(!not_k((k, v)));
    }
}

/// A variable that an assignment is for has the last value it gives, and no other; one
/// that it is not for is there as before.
pub proof fn law_merging_sets_each_variable(
    base: Seq<(Seq<char>, Seq<char>)>,
    over: Seq<(Seq<char>, Seq<char>)>,
    p: (Seq<char>, Seq<char>),
)
    ensures
        !has_key(over, p.0) ==> (merge_env(base, over).contains(p) <==> base.contains(p)),
        has_key(over, p.0) ==> (merge_env(base, over).contains(p) <==> exists|i: int| #[trigger]
            is_last_of(over, i, p)),
    decreases over.len(),
{
    if over.len() > 0 {
        let front = over.drop_last();
        let last = over.len() - 1;
        let (k, v) = over.last();
        let e = merge_env(base, front);
        let not_k = |x: (Seq<char>, Seq<char>)| x.0 != k;
        law_merging_sets_each_variable(base, front, p);
        lemma_set_env(e, k, v, not_k);
        lemma_filter_members(e, not_k, p);
        lemma_push_members(e.filter(not_k), (k, v), p);
        assert(over[last] == (k, v));
        if p.0 == k {
            if p.1 == v {
                assert(is_last_of(over, last, p));
            } else if exists|i: int| #[trigger] is_last_of(over, i, p) {
                let i = choose|i: int| #[trigger] is_last_of(over, i, p);
                assert(over[last].0 != p.0);
            }
        } else {
            assert(has_key(over, p.0) == has_key(front, p.0)) by {
                if has_key(over, p.0) {
                    let i = choose|i: int| 0 <= i < over.len() && (#[trigger] over[i]).0 == p.0;
                    assert(front[i].0 == p.0);
                }
                if has_key(front, p.0) {
                    let i = choose|i: int| 0 <= i < front.len() && (#[trigger] front[i]).0 == p.0;
                    assert(over[i].0 == p.0);
                }
            }
            if exists|i: int| #[trigger] is_last_of(over, i, p) {
                let i = choose|i: int| #[trigger] is_last_of(over, i, p);
                assert forall|j: int| i < j < front.len() implies (#[trigger] front[j]).0
                    != p.0 by {
                    assert(over[j] == front[j]);
                }
                assert(is_last_of(front, i, p));
            }
            if exists|i: int| #[trigger] is_last_of(front, i, p) {
                let i = choose|i: int| #[trigger] is_last_of(front, i, p);
                assert forall|j: int| i < j < over.len() implies (#[trigger] over[j]).0 != p.0 by {
                    if j < last {
                        assert(over[j] == front[j]);
                    }
                }
                assert(over[i] == front[i]);
                assert(is_last_of(over, i, p));
            }
        }
    }
}

// ---------------------------------------------------------------------------
// Settings
// ---------------------------------------------------------------------------

/// Saving settings sets each to its last value, and leaves every other setting alone.
pub proof fn law_saving_settings(
    config: Map<Seq<char>, Seq<char>>,
    settings: Seq<(&str, &str)>,
    key: Seq<char>,
)
    ensures
        ({
            let after = saved_config(config, settings);
            &&& (forall|i: int| 0 <= i < settings.len() ==> (#[trigger] settings[i]).0@ != key) ==> (
            after.contains_key(key) == config.contains_key(key) && after[key] == config[key])
            &&& forall|i: int|
                0 <= i < settings.len() && (#[trigger] settings[i]).0@ == key && (forall|j: int|
                    i < j < settings.len() ==> (#[trigger] settings[j]).0@ != key)
                    ==> after.contains_key(key) && after[key] == settings[i].1@
        }),
    decreases settings.len(),
{
    if settings.len() > 0 {
        let front = settings.drop_last();
        let last = settings.len() - 1;
        law_saving_settings(config, front, key);
        let after = saved_config(config, settings);
        if forall|i: int| 0 <= i < settings.len() ==> (#[trigger] settings[i]).0@ != key {
            assert forall|i: int| 0 <= i < front.len() implies (#[trigger] front[i]).0@ != key by {
                assert(front[i] == settings[i]);
            }
            assert(settings[last].0@ != key);
        }
        assert forall|i: int|
            0 <= i < settings.len() && (#[trigger] settings[i]).0@ == key && (forall|j: int|
                i < j < settings.len() ==> (#[trigger] settings[j]).0@ != key) implies after.contains_key(
        key) && after[key] == settings[i].1@ by {
            if i < last {
                assert(settings[last].0@ != key);
                assert(front[i] == settings[i]);
                assert forall|j: int| i < j < front.len() implies (#[trigger] front[j]).0@
                    != key by {
                    assert(front[j] == settings[j]);
                }
            }
        }
    }
}

// ---------------------------------------------------------------------------
// Mount targets
// ---------------------------------------------------------------------------

/// A component that stands for itself.
pub open spec fn plain_part(part: Seq<char>) -> bool {
    part.len() > 0 && part != "."@ && part != ".."@
}

proof fn lemma_dots()
    ensures
        "."@ == seq!['.'],
        ".."@ == seq!['.', '.'],
{
    reveal_strlit(".");
    reveal_strlit("..");
    assert("."@ =~= seq!['.']);
    assert(".."@ =~= seq!['.', '.']);
}

/// A resolved path has only components that stand for themselves, each out of the path.
pub proof fn law_resolved_path_is_plain(parts: Seq<Seq<char>>)
    ensures
        forall|i: int|
            0 <= i < normalized(parts).len() ==> plain_part(#[trigger] normalized(parts)[i])
                && parts.contains(normalized(parts)[i]),
    decreases parts.len(),
{
    lemma_dots();
    if parts.len() > 0 {
        let front = parts.drop_last();
        law_resolved_path_is_plain(front);
        let before = normalized(front);
        let after = normalized(parts);
        assert forall|i: int| 0 <= i < after.len() implies plain_part(#[trigger] after[i])
            && parts.contains(after[i]) by {
            assert(front.push(parts.last()) =~= parts);
            lemma_push_members(front, parts.last(), after[i]);
            if i < before.len() {
                assert(after[i] == before[i]);
            }
        }
    }
}

/// A path of components that stand for themselves is resolved already.
pub proof fn law_plain_path_stays(parts: Seq<Seq<char>>)
    requires
        forall|i: int| 0 <= i < parts.len() ==> plain_part(#[trigger] parts[i]),
    ensures
        normalized(parts) == parts,
    decreases parts.len(),
{
    lemma_dots();
    if parts.len() == 0 {
        assert(parts =~= Seq::empty());
    } else {
        let front = parts.drop_last();
        assert forall|i: int| 0 <= i < front.len() implies plain_part(#[trigger] front[i]) by {
            assert(front[i] == parts[i]);
        }
        assert(plain_part(parts[parts.len() - 1]));
        law_plain_path_stays(front);
        assert(front.push(parts.last()) =~= parts);
    }
}

/// A path can be resolved from the left: what was resolved first makes no difference.
pub proof fn law_resolving_in_parts(a: Seq<Seq<char>>, b: Seq<Seq<char>>)
    ensures
        normalized(a + b) == normalized(normalized(a) + b),
    decreases b.len(),
{
    if b.len() == 0 {
        law_resolved_path_is_plain(a);
        law_plain_path_stays(normalized(a));
        assert(a + b =~= a);
        assert(normalized(a) + b =~= normalized(a));
    } else {
        law_resolving_in_parts(a, b.drop_last());
        assert((a + b).drop_last() =~= a + b.drop_last());
        assert((normalized(a) + b).drop_last() =~= normalized(a) + b.drop_last());
    }
}

/// Nothing and `.` are passed over; `..` takes a component that stands for itself back, and
/// at the root does nothing.
pub proof fn law_dots_are_resolved(a: Seq<Seq<char>>, part: Seq<char>, b: Seq<Seq<char>>)
    requires
        plain_part(part),
    ensures
        normalized(a + seq![""@] + b) == normalized(a + b),
        normalized(a + seq!["."@] + b) == normalized(a + b),
        normalized(a + seq![part, ".."@] + b) == normalized(a + b),
        normalized(seq![".."@] + b) == normalized(b),
{
    reveal_strlit("");
    lemma_dots();
    let empty = Seq::<Seq<char>>::empty();
    assert((a + seq![""@]).drop_last() =~= a);
    assert((a + seq!["."@]).drop_last() =~= a);
    let both = a + seq![part, ".."@];
    assert(both.drop_last() =~= a.push(part));
    assert(a.push(part).drop_last() =~= a);
    assert(normalized(a.push(part)) == normalized(a).push(part));
    assert(normalized(a).push(part).drop_last() =~= normalized(a));
    assert(both.last() == ".."@);
    assert(normalized(both) == normalized(a));
    assert(normalized(a + seq![""@]) == normalized(a));
    assert(normalized(a + seq!["."@]) == normalized(a));
    assert(seq![".."@].drop_last() =~= empty);
    assert(normalized(seq![".."@]) == normalized(empty));
    law_resolving_in_parts(a, b);
    law_resolving_in_parts(a + seq![""@], b);
    law_resolving_in_parts(a + seq!["."@], b);
    law_resolving_in_parts(both, b);
    law_resolving_in_parts(seq![".."@], b);
    law_resolving_in_parts(empty, b);
    assert(empty + b =~= b);
}

} // verus!
