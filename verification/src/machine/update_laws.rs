//! What an update changes of a machine, and what it leaves.
use crate::copying::{opt_text, or_empty, texts};
use crate::filtering::{
    lemma_filter_both, lemma_filter_members, lemma_filter_push, lemma_filter_twice,
    lemma_filter_whole, lemma_push_members,
};
use crate::machine::params::env_pair;
use crate::machine::update::{
    UpdateCmd, VolumeRemoval, cpus_text, env_removed, env_set, env_without, first_bad_env,
    has_volume, mem_text, mount_spec, noted, ports_added, ports_removed, ports_without,
    removal_spec, update_changes, updated, volumes_added, volumes_removed, volumes_without,
};
use crate::numerals::decimal;
use crate::records::VmModel;
use crate::split::{law_split_first, split_first};
use vstd::prelude::*;

verus! {

/// `spec` is `KEY=VALUE` for this key.
pub open spec fn sets_key(spec: Seq<char>, key: Seq<char>) -> bool {
    !key.contains('=') && spec.len() > key.len() && spec.take(key.len() as int) == key
        && spec[key.len() as int] == '='
}

/// An update neither removes nor sets this variable.
pub open spec fn untouched(removed: Seq<String>, set: Seq<String>, key: Seq<char>) -> bool {
    &&& forall|i: int| 0 <= i < removed.len() ==> (#[trigger] removed[i])@ != key
    &&& forall|i: int| 0 <= i < set.len() ==> !sets_key((#[trigger] set[i])@, key)
}

/// An update of ports or variables removes none of these names.
pub open spec fn names_none(given: Seq<String>, key: Seq<char>) -> bool {
    forall|i: int| 0 <= i < given.len() ==> (#[trigger] given[i])@ != key
}

proof fn lemma_sets_key(spec: Seq<char>, key: Seq<char>)
    ensures
        sets_key(spec, key) <==> (split_first(spec, '=') is Some && split_first(
            spec,
            '=',
        )->Some_0.0 == key),
        split_first(spec, '=') matches Some((k, v)) ==> spec == k + "="@ + v && !k.contains('='),
{
    reveal_strlit("=");
    assert("="@ =~= seq!['=']);
    if sets_key(spec, key) {
        let v = spec.skip(key.len() as int + 1);
        assert(spec =~= key + seq!['='] + v);
        law_split_first(spec, '=', key, v);
    }
    if let Some((k, v)) = split_first(spec, '=') {
        law_split_first(spec, '=', k, v);
        assert(spec.take(k.len() as int) =~= k);
        assert(spec[k.len() as int] == '=');
    }
}

/// Removing a variable keeps all the others, in their order.
pub proof fn law_removing_a_variable_keeps_the_others(
    env: Seq<(Seq<char>, Seq<char>)>,
    key: Seq<char>,
)
    ensures
        env_without(env, key) == env.filter(|p: (Seq<char>, Seq<char>)| p.0 != key),
    decreases env.len(),
{
    reveal(Seq::filter);
    if env.len() > 0 {
        law_removing_a_variable_keeps_the_others(env.drop_last(), key);
    }
}

proof fn lemma_env_removed(
    env: Seq<(Seq<char>, Seq<char>)>,
    changes: Seq<Seq<char>>,
    keys: Seq<Seq<char>>,
)
    ensures
        env_removed(env, changes, keys).0 == env.filter(
            |p: (Seq<char>, Seq<char>)| !keys.contains(p.0),
        ),
    decreases keys.len(),
{
    let gone = |p: (Seq<char>, Seq<char>)| !keys.contains(p.0);
    if keys.len() == 0 {
        lemma_filter_whole(env, gone);
    } else {
        let before = keys.drop_last();
        let key = keys.last();
        let front = |p: (Seq<char>, Seq<char>)| !before.contains(p.0);
        let last = |p: (Seq<char>, Seq<char>)| p.0 != key;
        lemma_env_removed(env, changes, before);
        law_removing_a_variable_keeps_the_others(env.filter(front), key);
        assert forall|p: (Seq<char>, Seq<char>)| #[trigger] gone(p) == (front(p) && last(p)) by {
            assert(before.push(key) =~= keys);
            lemma_push_members(before, key, p.0);
        }
        lemma_filter_both(env, front, last, gone);
    }
}

/// No `KEY=VALUE` of these is for this key.
pub open spec fn set_by_none(specs: Seq<Seq<char>>, key: Seq<char>) -> bool {
    forall|i: int| 0 <= i < specs.len() ==> !sets_key(#[trigger] specs[i], key)
}

proof fn lemma_env_set_frame(
    env: Seq<(Seq<char>, Seq<char>)>,
    changes: Seq<Seq<char>>,
    specs: Seq<Seq<char>>,
    q: spec_fn((Seq<char>, Seq<char>)) -> bool,
)
    requires
        forall|p: (Seq<char>, Seq<char>)| #[trigger] q(p) ==> set_by_none(specs, p.0),
    ensures
        env_set(env, changes, specs).0.filter(q) == env.filter(q),
    decreases specs.len(),
{
    if specs.len() > 0 {
        let before = specs.drop_last();
        let e = env_set(env, changes, before).0;
        assert forall|p: (Seq<char>, Seq<char>)| #[trigger] q(p) implies set_by_none(
            before,
            p.0,
        ) by {
            assert forall|i: int| 0 <= i < before.len() implies !sets_key(
                #[trigger] before[i],
                p.0,
            ) by {
                assert(before[i] == specs[i]);
            }
        }
        lemma_env_set_frame(env, changes, before, q);
        if let Some((k, v)) = split_first(specs.last(), '=') {
            let other = |p: (Seq<char>, Seq<char>)| p.0 != k;
            lemma_sets_key(specs.last(), k);
            assert forall|p: (Seq<char>, Seq<char>)| #[trigger] q(p) implies other(p) by {
                assert(!sets_key(specs[specs.len() - 1], p.0));
            }
            law_removing_a_variable_keeps_the_others(e, k);
            lemma_filter_twice(e, other, q);
            lemma_filter_push(e.filter(other), (k, v), q);
            assert(!other((k, v)));
        }
    }
}

/// A variable that an update neither removes nor sets stays: of those, the machine has
/// the same as before, in the same order.
pub proof fn law_untouched_variables_stay(
    cmd: UpdateCmd,
    removals: Seq<VolumeRemoval>,
    new_mounts: Seq<(Seq<char>, Seq<char>, bool)>,
    m: VmModel,
)
    ensures
        ({
            let same = |p: (Seq<char>, Seq<char>)| untouched(cmd.remove_env@, cmd.env@, p.0);
            let after = updated(cmd, removals, new_mounts, m).env;
            &&& after.filter(same) == m.env.filter(same)
            &&& forall|p: (Seq<char>, Seq<char>)|
                untouched(cmd.remove_env@, cmd.env@, p.0) ==> (#[trigger] m.env.contains(p)
                    <==> after.contains(p))
        }),
{
    let keys = texts(cmd.remove_env@);
    let specs = texts(cmd.env@);
    let same = |p: (Seq<char>, Seq<char>)| untouched(cmd.remove_env@, cmd.env@, p.0);
    let kept = |p: (Seq<char>, Seq<char>)| !keys.contains(p.0);
    let after = updated(cmd, removals, new_mounts, m).env;
    let none = Seq::<Seq<char>>::empty();
    lemma_env_removed(m.env, none, keys);
    assert forall|p: (Seq<char>, Seq<char>)| #[trigger] same(p) implies kept(p) && set_by_none(
        specs,
        p.0,
    ) by {
        if keys.contains(p.0) {
            let i = choose|i: int| 0 <= i < keys.len() && keys[i] == p.0;
            assert(cmd.remove_env@[i]@ == p.0);
        }
        assert forall|i: int| 0 <= i < specs.len() implies !sets_key(#[trigger] specs[i], p.0) by {
            assert(specs[i] == cmd.env@[i]@);
        }
    }
    lemma_filter_twice(m.env, kept, same);
    let e = env_removed(m.env, none, keys);
    lemma_env_set_frame(e.0, e.1, specs, same);
    assert forall|p: (Seq<char>, Seq<char>)|
        untouched(cmd.remove_env@, cmd.env@, p.0) implies (#[trigger] m.env.contains(p)
        <==> after.contains(p)) by {
        lemma_filter_members(m.env, same, p);
        lemma_filter_members(after, same, p);
        assert(same(p));
    }
}

proof fn lemma_env_set_members(
    env: Seq<(Seq<char>, Seq<char>)>,
    changes: Seq<Seq<char>>,
    specs: Seq<Seq<char>>,
    p: (Seq<char>, Seq<char>),
)
    ensures
        env_set(env, changes, specs).0.contains(p) <==> if set_by_none(specs, p.0) {
            env.contains(p)
        } else {
            exists|i: int| #[trigger] sets_last(specs, i, p)
        },
    decreases specs.len(),
{
    let after = env_set(env, changes, specs).0;
    if specs.len() > 0 {
        let before = specs.drop_last();
        let e = env_set(env, changes, before).0;
        let last = specs.len() - 1;
        lemma_env_set_members(env, changes, before, p);
        lemma_sets_key(specs.last(), p.0);
        if let Some((k, v)) = split_first(specs.last(), '=') {
            let other = |x: (Seq<char>, Seq<char>)| x.0 != k;
            law_removing_a_variable_keeps_the_others(e, k);
            lemma_filter_members(e, other, p);
            lemma_push_members(e.filter(other), (k, v), p);
            if p.0 == k {
                assert(sets_key(specs[last], p.0));
                assert(!set_by_none(specs, p.0));
                if p.1 == v {
                    assert(sets_last(specs, last, p));
                }
                if exists|i: int| #[trigger] sets_last(specs, i, p) {
                    let i = choose|i: int| #[trigger] sets_last(specs, i, p);
                    assert(i == last) by {
                        if i < last {
                            assert(!sets_key(specs[last], p.0));
                        }
                    }
                    reveal_strlit("=");
                    assert("="@ =~= seq!['=']);
                    law_split_first(specs[last], '=', p.0, p.1);
                    assert(p.1 == v);
                }
            }
        }
        if !sets_key(specs.last(), p.0) {
            assert(set_by_none(specs, p.0) == set_by_none(before, p.0)) by {
                if set_by_none(before, p.0) {
                    assert forall|i: int| 0 <= i < specs.len() implies !sets_key(
                        #[trigger] specs[i],
                        p.0,
                    ) by {
                        if i < last {
                            assert(specs[i] == before[i]);
                        }
                    }
                }
                if set_by_none(specs, p.0) {
                    assert forall|i: int| 0 <= i < before.len() implies !sets_key(
                        #[trigger] before[i],
                        p.0,
                    ) by {
                        assert(specs[i] == before[i]);
                    }
                }
            }
            assert((exists|i: int| #[trigger] sets_last(specs, i, p)) == (exists|i: int| #[trigger]
                sets_last(before, i, p))) by {
                if exists|i: int| #[trigger] sets_last(specs, i, p) {
                    let i = choose|i: int| #[trigger] sets_last(specs, i, p);
                    assert(i < last) by {
                        if i == last {
                            lemma_spec_sets(specs[i], p);
                        }
                    }
                    assert forall|j: int| i < j < before.len() implies !sets_key(
                        #[trigger] before[j],
                        p.0,
                    ) by {
                        assert(before[j] == specs[j]);
                    }
                    assert(before[i] == specs[i]);
                    assert(sets_last(before, i, p));
                }
                if exists|i: int| #[trigger] sets_last(before, i, p) {
                    let i = choose|i: int| #[trigger] sets_last(before, i, p);
                    assert forall|j: int| i < j < specs.len() implies !sets_key(
                        #[trigger] specs[j],
                        p.0,
                    ) by {
                        if j < last {
                            assert(before[j] == specs[j]);
                        }
                    }
                    assert(before[i] == specs[i]);
                    assert(sets_last(specs, i, p));
                }
            }
        }
    }
}

proof fn lemma_spec_sets(spec: Seq<char>, p: (Seq<char>, Seq<char>))
    requires
        spec == p.0 + "="@ + p.1,
        !p.0.contains('='),
    ensures
        sets_key(spec, p.0),
{
    reveal_strlit("=");
    assert(spec.take(p.0.len() as int) =~= p.0);
}

/// The `i`th of these is `KEY=VALUE` for this variable, and no later one is for its key.
pub open spec fn sets_last(specs: Seq<Seq<char>>, i: int, p: (Seq<char>, Seq<char>)) -> bool {
    &&& 0 <= i < specs.len()
    &&& specs[i] == p.0 + "="@ + p.1
    &&& !p.0.contains('=')
    &&& forall|j: int| i < j < specs.len() ==> !sets_key(#[trigger] specs[j], p.0)
}

/// After an update a variable that some `KEY=VALUE` is for has the value of the last of
/// them and no other; one that none is for is there as before, unless it is removed.
pub proof fn law_set_variables_have_their_last_value(
    cmd: UpdateCmd,
    removals: Seq<VolumeRemoval>,
    new_mounts: Seq<(Seq<char>, Seq<char>, bool)>,
    m: VmModel,
    p: (Seq<char>, Seq<char>),
)
    ensures
        updated(cmd, removals, new_mounts, m).env.contains(p) <==> if set_by_none(
            texts(cmd.env@),
            p.0,
        ) {
            m.env.contains(p) && names_none(cmd.remove_env@, p.0)
        } else {
            exists|i: int| #[trigger] sets_last(texts(cmd.env@), i, p)
        },
{
    let keys = texts(cmd.remove_env@);
    let none = Seq::<Seq<char>>::empty();
    let kept = |x: (Seq<char>, Seq<char>)| !keys.contains(x.0);
    let e = env_removed(m.env, none, keys);
    lemma_env_removed(m.env, none, keys);
    lemma_filter_members(m.env, kept, p);
    assert(kept(p) == names_none(cmd.remove_env@, p.0)) by {
        if keys.contains(p.0) {
            let i = choose|i: int| 0 <= i < keys.len() && keys[i] == p.0;
            assert(cmd.remove_env@[i]@ == p.0);
        } else {
            assert forall|i: int| 0 <= i < cmd.remove_env@.len() implies (
            #[trigger] cmd.remove_env@[i])@ != p.0 by {
                assert(keys[i] == cmd.remove_env@[i]@);
            }
        }
    }
    lemma_env_set_members(e.0, e.1, texts(cmd.env@), p);
}

// ---------------------------------------------------------------------------
// Ports
// ---------------------------------------------------------------------------

/// One of `all` is the same as `x`.
pub open spec fn is_there<A>(all: Seq<A>, x: A, same: spec_fn(A, A) -> bool) -> bool {
    exists|j: int| 0 <= j < all.len() && same(#[trigger] all[j], x)
}

/// `x` stands before `y` in `new`.
pub open spec fn stands_before<A>(new: Seq<A>, x: A, y: A) -> bool {
    exists|i: int, j: int|
        0 <= i < j < new.len() && #[trigger] new[i] == x && #[trigger] new[j] == y
}

/// `all` is `kept`, then those of `new` that were not there, each once, in their order.
pub open spec fn appended<A>(
    kept: Seq<A>,
    new: Seq<A>,
    all: Seq<A>,
    same: spec_fn(A, A) -> bool,
) -> bool {
    &&& kept.len() <= all.len() && all.take(kept.len() as int) == kept
    &&& forall|i: int| 0 <= i < new.len() ==> is_there(all, #[trigger] new[i], same)
    &&& forall|j: int| kept.len() <= j < all.len() ==> new.contains(#[trigger] all[j])
    &&& forall|i: int, j: int|
        0 <= i < j < all.len() && kept.len() <= j ==> !same(#[trigger] all[i], #[trigger] all[j])
    &&& forall|i: int, j: int|
        kept.len() <= i < j < all.len() ==> stands_before(
            new,
            #[trigger] all[i],
            #[trigger] all[j],
        )
}

proof fn lemma_stands_before_longer<A>(new: Seq<A>, n: A, x: A, y: A)
    requires
        stands_before(new, x, y),
    ensures
        stands_before(new.push(n), x, y),
{
    let (i, j) = choose|i: int, j: int|
        0 <= i < j < new.len() && #[trigger] new[i] == x && #[trigger] new[j] == y;
    assert(new.push(n)[i] == x);
    assert(new.push(n)[j] == y);
}

proof fn lemma_appended_same<A>(
    kept: Seq<A>,
    new: Seq<A>,
    n: A,
    all: Seq<A>,
    same: spec_fn(A, A) -> bool,
    j: int,
)
    requires
        appended(kept, new, all, same),
        0 <= j < all.len(),
        same(all[j], n),
    ensures
        appended(kept, new.push(n), all, same),
{
    let more = new.push(n);
    assert forall|i: int| 0 <= i < more.len() implies is_there(all, #[trigger] more[i], same) by {
        if i == new.len() {
            assert(same(all[j], more[i]));
        } else {
            assert(more[i] == new[i]);
        }
    }
    assert forall|i: int, j: int| kept.len() <= i < j < all.len() implies stands_before(
        more,
        #[trigger] all[i],
        #[trigger] all[j],
    ) by {
        lemma_stands_before_longer(new, n, all[i], all[j]);
    }
    assert forall|j: int| kept.len() <= j < all.len() implies more.contains(
        #[trigger] all[j],
    ) by {
        lemma_push_members(new, n, all[j]);
    }
}

proof fn lemma_appended_new<A>(
    kept: Seq<A>,
    new: Seq<A>,
    n: A,
    all: Seq<A>,
    same: spec_fn(A, A) -> bool,
)
    requires
        appended(kept, new, all, same),
        forall|j: int| 0 <= j < all.len() ==> !same(#[trigger] all[j], n),
        same(n, n),
    ensures
        appended(kept, new.push(n), all.push(n), same),
{
    let more = new.push(n);
    let longer = all.push(n);
    assert(longer.take(kept.len() as int) =~= all.take(kept.len() as int));
    assert forall|i: int| 0 <= i < more.len() implies is_there(
        longer,
        #[trigger] more[i],
        same,
    ) by {
        if i == new.len() {
            assert(longer[all.len() as int] == n);
            assert(same(longer[all.len() as int], more[i]));
        } else {
            assert(is_there(all, new[i], same));
            assert(more[i] == new[i]);
            let j = choose|j: int| 0 <= j < all.len() && same(#[trigger] all[j], new[i]);
            assert(longer[j] == all[j]);
        }
    }
    assert forall|i: int, j: int| kept.len() <= i < j < longer.len() implies stands_before(
        more,
        #[trigger] longer[i],
        #[trigger] longer[j],
    ) by {
        assert(longer[i] == all[i]);
        if j < all.len() {
            assert(longer[j] == all[j]);
            lemma_stands_before_longer(new, n, all[i], all[j]);
        } else {
            assert(new.contains(all[i]));
            let k = choose|k: int| 0 <= k < new.len() && new[k] == all[i];
            assert(more[k] == longer[i]);
            assert(more[new.len() as int] == longer[j]);
        }
    }
    assert forall|j: int| kept.len() <= j < longer.len() implies more.contains(
        #[trigger] longer[j],
    ) by {
        lemma_push_members(new, n, longer[j]);
        if j < all.len() {
            assert(longer[j] == all[j]);
        }
    }
    assert forall|i: int, j: int|
        0 <= i < j < longer.len() && kept.len() <= j implies !same(
        #[trigger] longer[i],
        #[trigger] longer[j],
    ) by {
        assert(longer[i] == all[i]);
        if j < all.len() {
            assert(longer[j] == all[j]);
        }
    }
}

proof fn lemma_ports_without(ports: Seq<(u16, u16)>, p: (u16, u16))
    ensures
        ports_without(ports, p) == ports.filter(|x: (u16, u16)| x != p),
    decreases ports.len(),
{
    reveal(Seq::filter);
    if ports.len() > 0 {
        lemma_ports_without(ports.drop_last(), p);
    }
}

proof fn lemma_ports_removed(
    ports: Seq<(u16, u16)>,
    changes: Seq<Seq<char>>,
    removals: Seq<(u16, u16)>,
)
    ensures
        ports_removed(ports, changes, removals).0 == ports.filter(
            |p: (u16, u16)| !removals.contains(p),
        ),
    decreases removals.len(),
{
    let gone = |p: (u16, u16)| !removals.contains(p);
    if removals.len() == 0 {
        lemma_filter_whole(ports, gone);
    } else {
        let before = removals.drop_last();
        let one = removals.last();
        let front = |p: (u16, u16)| !before.contains(p);
        let last = |p: (u16, u16)| p != one;
        lemma_ports_removed(ports, changes, before);
        lemma_ports_without(ports.filter(front), one);
        assert forall|p: (u16, u16)| #[trigger] gone(p) == (front(p) && last(p)) by {
            assert(before.push(one) =~= removals);
            lemma_push_members(before, one, p);
        }
        lemma_filter_both(ports, front, last, gone);
    }
}

proof fn lemma_ports_added(
    ports: Seq<(u16, u16)>,
    changes: Seq<Seq<char>>,
    new: Seq<(u16, u16)>,
)
    ensures
        appended(
            ports,
            new,
            ports_added(ports, changes, new).0,
            |a: (u16, u16), b: (u16, u16)| a == b,
        ),
    decreases new.len(),
{
    let same = |a: (u16, u16), b: (u16, u16)| a == b;
    if new.len() == 0 {
        assert(ports.take(ports.len() as int) =~= ports);
    } else {
        let before = new.drop_last();
        let n = new.last();
        let p = ports_added(ports, changes, before).0;
        lemma_ports_added(ports, changes, before);
        assert(before.push(n) =~= new);
        if p.contains(n) {
            let j = choose|j: int| 0 <= j < p.len() && p[j] == n;
            lemma_appended_same(ports, before, n, p, same, j);
        } else {
            assert forall|j: int| 0 <= j < p.len() implies !same(#[trigger] p[j], n) by {
                assert(p.contains(p[j]));
            }
            lemma_appended_new(ports, before, n, p, same);
        }
    }
}

/// After an update a machine has the ports it had, in their order and without those to
/// remove, and behind them each port to add that was not there.
pub proof fn law_ports_after_an_update(
    cmd: UpdateCmd,
    removals: Seq<VolumeRemoval>,
    new_mounts: Seq<(Seq<char>, Seq<char>, bool)>,
    m: VmModel,
)
    ensures
        appended(
            m.ports.filter(|p: (u16, u16)| !cmd.remove_port@.contains(p)),
            cmd.port@,
            updated(cmd, removals, new_mounts, m).ports,
            |a: (u16, u16), b: (u16, u16)| a == b,
        ),
{
    let none = Seq::<Seq<char>>::empty();
    lemma_ports_removed(m.ports, none, cmd.remove_port@);
    let (p, c) = ports_removed(m.ports, none, cmd.remove_port@);
    lemma_ports_added(p, c, cmd.port@);
}

// ---------------------------------------------------------------------------
// Volumes
// ---------------------------------------------------------------------------

/// A removal names this volume: as `SOURCE:TARGET`, with the source as it was given or as
/// it was resolved.
pub open spec fn names_volume(r: VolumeRemoval, m: (Seq<char>, Seq<char>, bool)) -> bool {
    let text = m.0 + ":"@ + m.1;
    r.given@ == text || exists|source: Seq<char>, target: Seq<char>|
        !source.contains(':') && r.given@ == #[trigger] (source + ":"@ + target) && r.source@ + ":"@
            + target == text
}

proof fn lemma_names_volume(r: VolumeRemoval, m: (Seq<char>, Seq<char>, bool))
    ensures
        names_volume(r, m) <==> (mount_spec(m) == r.given@ || mount_spec(m) == removal_spec(
            r.given@,
            r.source@,
        )),
{
    reveal_strlit(":");
    assert(":"@ =~= seq![':']);
    let text = m.0 + ":"@ + m.1;
    match split_first(r.given@, ':') {
        Some((source, target)) => {
            law_split_first(r.given@, ':', source, target);
            assert(r.given@ == source + ":"@ + target);
            if exists|source: Seq<char>, target: Seq<char>|
                !source.contains(':') && r.given@ == #[trigger] (source + ":"@ + target)
                    && r.source@ + ":"@ + target == text {
                let (a, b) = choose|source: Seq<char>, target: Seq<char>|
                    !source.contains(':') && r.given@ == #[trigger] (source + ":"@ + target)
                        && r.source@ + ":"@ + target == text;
                law_split_first(r.given@, ':', a, b);
                assert(b == target);
            }
        },
        None => {
            if exists|source: Seq<char>, target: Seq<char>|
                !source.contains(':') && r.given@ == #[trigger] (source + ":"@ + target)
                    && r.source@ + ":"@ + target == text {
                let (a, b) = choose|source: Seq<char>, target: Seq<char>|
                    !source.contains(':') && r.given@ == #[trigger] (source + ":"@ + target)
                        && r.source@ + ":"@ + target == text;
                law_split_first(r.given@, ':', a, b);
            }
        },
    }
}

/// No removal names this volume.
pub open spec fn volume_kept(
    removals: Seq<VolumeRemoval>,
    m: (Seq<char>, Seq<char>, bool),
) -> bool {
    forall|i: int| 0 <= i < removals.len() ==> !names_volume(#[trigger] removals[i], m)
}

proof fn lemma_volumes_without(
    mounts: Seq<(Seq<char>, Seq<char>, bool)>,
    a: Seq<char>,
    b: Seq<char>,
)
    ensures
        volumes_without(mounts, a, b) == mounts.filter(
            |m: (Seq<char>, Seq<char>, bool)| !(mount_spec(m) == a || mount_spec(m) == b),
        ),
    decreases mounts.len(),
{
    reveal(Seq::filter);
    if mounts.len() > 0 {
        lemma_volumes_without(mounts.drop_last(), a, b);
    }
}

proof fn lemma_volumes_removed(
    mounts: Seq<(Seq<char>, Seq<char>, bool)>,
    changes: Seq<Seq<char>>,
    removals: Seq<VolumeRemoval>,
)
    ensures
        volumes_removed(mounts, changes, removals).0 == mounts.filter(
            |m: (Seq<char>, Seq<char>, bool)| volume_kept(removals, m),
        ),
    decreases removals.len(),
{
    let kept = |m: (Seq<char>, Seq<char>, bool)| volume_kept(removals, m);
    if removals.len() == 0 {
        lemma_filter_whole(mounts, kept);
    } else {
        let before = removals.drop_last();
        let r = removals.last();
        let a = r.given@;
        let b = removal_spec(r.given@, r.source@);
        let front = |m: (Seq<char>, Seq<char>, bool)| volume_kept(before, m);
        let last = |m: (Seq<char>, Seq<char>, bool)| !(mount_spec(m) == a || mount_spec(m) == b);
        lemma_volumes_removed(mounts, changes, before);
        lemma_volumes_without(mounts.filter(front), a, b);
        assert forall|m: (Seq<char>, Seq<char>, bool)| #[trigger]
            kept(m) == (front(m) && last(m)) by {
            lemma_names_volume(r, m);
            if kept(m) {
                assert(!names_volume(removals[removals.len() - 1], m));
                assert forall|i: int| 0 <= i < before.len() implies !names_volume(
                    #[trigger] before[i],
                    m,
                ) by {
                    assert(before[i] == removals[i]);
                }
            }
            if front(m) && last(m) {
                assert forall|i: int| 0 <= i < removals.len() implies !names_volume(
                    #[trigger] removals[i],
                    m,
                ) by {
                    if i < before.len() {
                        assert(before[i] == removals[i]);
                    }
                }
            }
        }
        lemma_filter_both(mounts, front, last, kept);
    }
}

/// Two volumes with the same source and target.
pub open spec fn same_volume(
    a: (Seq<char>, Seq<char>, bool),
    b: (Seq<char>, Seq<char>, bool),
) -> bool {
    a.0 == b.0 && a.1 == b.1
}

proof fn lemma_volumes_added(
    mounts: Seq<(Seq<char>, Seq<char>, bool)>,
    changes: Seq<Seq<char>>,
    new: Seq<(Seq<char>, Seq<char>, bool)>,
)
    ensures
        appended(
            mounts,
            new,
            volumes_added(mounts, changes, new).0,
            |a: (Seq<char>, Seq<char>, bool), b: (Seq<char>, Seq<char>, bool)| same_volume(a, b),
        ),
    decreases new.len(),
{
    let same = |a: (Seq<char>, Seq<char>, bool), b: (Seq<char>, Seq<char>, bool)|
        same_volume(a, b);
    if new.len() == 0 {
        assert(mounts.take(mounts.len() as int) =~= mounts);
    } else {
        let before = new.drop_last();
        let n = new.last();
        let p = volumes_added(mounts, changes, before).0;
        lemma_volumes_added(mounts, changes, before);
        assert(before.push(n) =~= new);
        if has_volume(p, n) {
            let j = choose|j: int|
                0 <= j < p.len() && (#[trigger] p[j]).0 == n.0 && p[j].1 == n.1;
            assert(same(p[j], n));
            lemma_appended_same(mounts, before, n, p, same, j);
        } else {
            assert forall|j: int| 0 <= j < p.len() implies !same(#[trigger] p[j], n) by {
                assert(!(p[j].0 == n.0 && p[j].1 == n.1));
            }
            assert(same(n, n));
            lemma_appended_new(mounts, before, n, p, same);
        }
    }
}

/// After an update a machine has the volumes it had, in their order and without those
/// that a removal names, and behind them each volume to add whose source and target were
/// not there.
pub proof fn law_volumes_after_an_update(
    cmd: UpdateCmd,
    removals: Seq<VolumeRemoval>,
    new_mounts: Seq<(Seq<char>, Seq<char>, bool)>,
    m: VmModel,
)
    ensures
        appended(
            m.mounts.filter(|v: (Seq<char>, Seq<char>, bool)| volume_kept(removals, v)),
            new_mounts,
            updated(cmd, removals, new_mounts, m).mounts,
            |a: (Seq<char>, Seq<char>, bool), b: (Seq<char>, Seq<char>, bool)| same_volume(a, b),
        ),
{
    let none = Seq::<Seq<char>>::empty();
    lemma_volumes_removed(m.mounts, none, removals);
    let (p, c) = volumes_removed(m.mounts, none, removals);
    lemma_volumes_added(p, c, new_mounts);
}

// ---------------------------------------------------------------------------
// Other settings
// ---------------------------------------------------------------------------

/// A setting that an update names has the value it names; every other setting of the
/// machine is as it was.
pub proof fn law_update_sets_what_it_names(
    cmd: UpdateCmd,
    removals: Seq<VolumeRemoval>,
    new_mounts: Seq<(Seq<char>, Seq<char>, bool)>,
    m: VmModel,
)
    ensures
        ({
            let u = updated(cmd, removals, new_mounts, m);
            &&& cmd.cpus is Some ==> Some(u.cpus) == cmd.cpus
            &&& cmd.cpus is None ==> u.cpus == m.cpus
            &&& cmd.mem is Some ==> Some(u.mem) == cmd.mem
            &&& cmd.mem is None ==> u.mem == m.mem
            &&& cmd.storage is Some ==> u.storage_gb == cmd.storage
            &&& cmd.storage is None ==> u.storage_gb == m.storage_gb
            &&& cmd.overlay is Some ==> u.overlay_gb == cmd.overlay
            &&& cmd.overlay is None ==> u.overlay_gb == m.overlay_gb
            &&& cmd.workdir is Some ==> u.workdir == Some(cmd.workdir->Some_0@)
            &&& cmd.workdir is None ==> u.workdir == m.workdir
            &&& cmd.no_net ==> !u.network
            &&& cmd.net && !cmd.no_net ==> u.network
            &&& !cmd.net && !cmd.no_net ==> u.network == m.network
            &&& !cmd.no_net ==> u.allowed_cidrs == m.allowed_cidrs && u.dns_filter_hosts
                == m.dns_filter_hosts
            &&& cmd.no_gpu ==> u.gpu == Some(false)
            &&& cmd.gpu && !cmd.no_gpu ==> u.gpu == Some(true)
            &&& !cmd.gpu && !cmd.no_gpu ==> u.gpu == m.gpu
            &&& cmd.no_rosetta ==> u.rosetta == Some(false)
            &&& cmd.rosetta && !cmd.no_rosetta ==> u.rosetta == Some(true)
            &&& !cmd.rosetta && !cmd.no_rosetta ==> u.rosetta == m.rosetta
            &&& u.name == m.name && u.created_at == m.created_at
            &&& u.state == m.state && u.pid == m.pid
            &&& u.network_backend == m.network_backend && u.dns == m.dns
            &&& u.init == m.init && u.user == m.user && u.image == m.image
            &&& u.entrypoint == m.entrypoint && u.cmd == m.cmd
            &&& u.ssh_agent == m.ssh_agent && u.cuda == m.cuda
            &&& u.docker_socket == m.docker_socket && u.gpu_vram_mib == m.gpu_vram_mib
            &&& u.restart == m.restart && u.last_exit_code == m.last_exit_code
            &&& u.health_cmd == m.health_cmd
            &&& u.health_interval_secs == m.health_interval_secs
            &&& u.health_timeout_secs == m.health_timeout_secs
            &&& u.health_retries == m.health_retries
            &&& u.health_startup_grace_secs == m.health_startup_grace_secs
            &&& u.golden == m.golden && u.forkpoint_held == m.forkpoint_held
            &&& u.fork_env == m.fork_env
        }),
{
}

// ---------------------------------------------------------------------------
// What is told
// ---------------------------------------------------------------------------

/// `b` is `a` with more behind it.
pub open spec fn extends(a: Seq<Seq<char>>, b: Seq<Seq<char>>) -> bool {
    a.len() <= b.len() && b.take(a.len() as int) == a
}

proof fn lemma_extends(a: Seq<Seq<char>>, b: Seq<Seq<char>>, c: Seq<Seq<char>>)
    requires
        extends(a, b),
        extends(b, c),
    ensures
        extends(a, c),
{
    assert(c.take(a.len() as int) =~= b.take(a.len() as int));
}

proof fn lemma_extends_holds(a: Seq<Seq<char>>, b: Seq<Seq<char>>, x: Seq<char>)
    requires
        extends(a, b),
        a.contains(x),
    ensures
        b.contains(x),
{
    let i = choose|i: int| 0 <= i < a.len() && a[i] == x;
    assert(b.take(a.len() as int)[i] == b[i]);
}

proof fn lemma_extends_push(a: Seq<Seq<char>>, x: Seq<char>)
    ensures
        extends(a, a),
        extends(a, a.push(x)),
        a.push(x).contains(x),
{
    assert(a.take(a.len() as int) =~= a);
    assert(a.push(x).take(a.len() as int) =~= a);
    assert(a.push(x)[a.len() as int] == x);
}

proof fn lemma_noted(c: Seq<Seq<char>>, applies: bool, text: Seq<char>)
    ensures
        extends(c, noted(c, applies, text)),
        applies ==> noted(c, applies, text).contains(text),
{
    lemma_extends_push(c, text);
}

proof fn lemma_volumes_told(
    mounts: Seq<(Seq<char>, Seq<char>, bool)>,
    c: Seq<Seq<char>>,
    removals: Seq<VolumeRemoval>,
)
    ensures
        extends(c, volumes_removed(mounts, c, removals).1),
    decreases removals.len(),
{
    lemma_extends_push(c, Seq::empty());
    if removals.len() > 0 {
        lemma_volumes_told(mounts, c, removals.drop_last());
        let d = volumes_removed(mounts, c, removals.drop_last()).1;
        lemma_extends_push(d, "  removed volume: "@ + removals.last().given@);
        lemma_extends(c, d, volumes_removed(mounts, c, removals).1);
    }
}

proof fn lemma_volumes_added_told(
    mounts: Seq<(Seq<char>, Seq<char>, bool)>,
    c: Seq<Seq<char>>,
    new: Seq<(Seq<char>, Seq<char>, bool)>,
)
    ensures
        extends(c, volumes_added(mounts, c, new).1),
        volumes_added(mounts, c, new).1.len() - c.len() == volumes_added(mounts, c, new).0.len()
            - mounts.len(),
    decreases new.len(),
{
    lemma_extends_push(c, Seq::empty());
    if new.len() > 0 {
        lemma_volumes_added_told(mounts, c, new.drop_last());
        let n = new.last();
        let d = volumes_added(mounts, c, new.drop_last()).1;
        lemma_extends_push(
            d,
            "  added volume: "@ + n.0 + ":"@ + n.1 + if n.2 {
                ":ro"@
            } else {
                ""@
            },
        );
        lemma_extends(c, d, volumes_added(mounts, c, new).1);
    }
}

proof fn lemma_ports_told(ports: Seq<(u16, u16)>, c: Seq<Seq<char>>, removals: Seq<(u16, u16)>)
    ensures
        extends(c, ports_removed(ports, c, removals).1),
        forall|p: (u16, u16)| #[trigger]
            removals.contains(p) && ports.contains(p) ==> ports_removed(
                ports,
                c,
                removals,
            ).1.contains("  removed port: "@ + decimal(p.0 as nat) + ":"@ + decimal(p.1 as nat)),
    decreases removals.len(),
{
    lemma_extends_push(c, Seq::empty());
    if removals.len() > 0 {
        let before = removals.drop_last();
        let last = removals.last();
        lemma_ports_told(ports, c, before);
        let (e, d) = ports_removed(ports, c, before);
        let line = "  removed port: "@ + (decimal(last.0 as nat) + ":"@ + decimal(last.1 as nat));
        lemma_extends_push(d, line);
        let after = ports_removed(ports, c, removals).1;
        lemma_extends(c, d, after);
        lemma_ports_removed(ports, c, before);
        lemma_ports_without(e, last);
        let kept = |x: (u16, u16)| !before.contains(x);
        let other = |x: (u16, u16)| x != last;
        assert forall|p: (u16, u16)| #[trigger]
            removals.contains(p) && ports.contains(p) implies after.contains(
            "  removed port: "@ + decimal(p.0 as nat) + ":"@ + decimal(p.1 as nat),
        ) by {
            assert("  removed port: "@ + decimal(p.0 as nat) + ":"@ + decimal(p.1 as nat)
                =~= "  removed port: "@ + (decimal(p.0 as nat) + ":"@ + decimal(p.1 as nat)));
            assert(before.push(last) =~= removals);
            lemma_push_members(before, last, p);
            if before.contains(p) {
                lemma_extends_holds(
                    d,
                    after,
                    "  removed port: "@ + decimal(p.0 as nat) + ":"@ + decimal(p.1 as nat),
                );
            } else {
                lemma_filter_members(ports, kept, p);
                assert(e.contains(p));
                lemma_filter_shorter(e, other, p);
            }
        }
    }
}

proof fn lemma_filter_shorter<A>(s: Seq<A>, p: spec_fn(A) -> bool, x: A)
    requires
        s.contains(x),
        !p(x),
    ensures
        s.filter(p).len() < s.len(),
    decreases s.len(),
{
    reveal(Seq::filter);
    let front = s.drop_last();
    front.lemma_filter_len(p);
    lemma_push_members(front, s.last(), x);
    assert(front.push(s.last()) =~= s);
    if p(s.last()) {
        lemma_filter_shorter(front, p, x);
    }
}

proof fn lemma_ports_added_told(ports: Seq<(u16, u16)>, c: Seq<Seq<char>>, new: Seq<(u16, u16)>)
    ensures
        extends(c, ports_added(ports, c, new).1),
        forall|p: (u16, u16)| #[trigger]
            new.contains(p) && !ports.contains(p) ==> ports_added(ports, c, new).1.contains(
                "  added port: "@ + decimal(p.0 as nat) + ":"@ + decimal(p.1 as nat),
            ),
        forall|p: (u16, u16)| #[trigger]
            ports_added(ports, c, new).0.contains(p) <==> ports.contains(p) || new.contains(p),
    decreases new.len(),
{
    lemma_extends_push(c, Seq::empty());
    if new.len() > 0 {
        let before = new.drop_last();
        let last = new.last();
        lemma_ports_added_told(ports, c, before);
        let (e, d) = ports_added(ports, c, before);
        let line = "  added port: "@ + (decimal(last.0 as nat) + ":"@ + decimal(last.1 as nat));
        lemma_extends_push(d, line);
        let (f, after) = ports_added(ports, c, new);
        lemma_extends(c, d, after);
        assert forall|p: (u16, u16)| #[trigger] f.contains(p) <==> ports.contains(p)
            || new.contains(p) by {
            assert(before.push(last) =~= new);
            lemma_push_members(before, last, p);
            lemma_push_members(e, last, p);
        }
        assert forall|p: (u16, u16)| #[trigger]
            new.contains(p) && !ports.contains(p) implies after.contains(
            "  added port: "@ + decimal(p.0 as nat) + ":"@ + decimal(p.1 as nat),
        ) by {
            assert("  added port: "@ + decimal(p.0 as nat) + ":"@ + decimal(p.1 as nat)
                =~= "  added port: "@ + (decimal(p.0 as nat) + ":"@ + decimal(p.1 as nat)));
            assert(before.push(last) =~= new);
            lemma_push_members(before, last, p);
            if before.contains(p) {
                lemma_extends_holds(
                    d,
                    after,
                    "  added port: "@ + decimal(p.0 as nat) + ":"@ + decimal(p.1 as nat),
                );
            } else {
                assert(!e.contains(p));
            }
        }
    }
}

proof fn lemma_env_told(
    env: Seq<(Seq<char>, Seq<char>)>,
    c: Seq<Seq<char>>,
    keys: Seq<Seq<char>>,
)
    ensures
        extends(c, env_removed(env, c, keys).1),
        forall|p: (Seq<char>, Seq<char>)| #[trigger]
            env.contains(p) && keys.contains(p.0) ==> env_removed(env, c, keys).1.contains(
                "  removed env: "@ + p.0,
            ),
    decreases keys.len(),
{
    lemma_extends_push(c, Seq::empty());
    if keys.len() > 0 {
        let before = keys.drop_last();
        let last = keys.last();
        lemma_env_told(env, c, before);
        let (e, d) = env_removed(env, c, before);
        lemma_extends_push(d, "  removed env: "@ + last);
        let after = env_removed(env, c, keys).1;
        lemma_extends(c, d, after);
        lemma_env_removed(env, c, before);
        law_removing_a_variable_keeps_the_others(e, last);
        let kept = |x: (Seq<char>, Seq<char>)| !before.contains(x.0);
        let other = |x: (Seq<char>, Seq<char>)| x.0 != last;
        assert forall|p: (Seq<char>, Seq<char>)| #[trigger]
            env.contains(p) && keys.contains(p.0) implies after.contains(
            "  removed env: "@ + p.0,
        ) by {
            assert(before.push(last) =~= keys);
            lemma_push_members(before, last, p.0);
            if before.contains(p.0) {
                lemma_extends_holds(d, after, "  removed env: "@ + p.0);
            } else {
                lemma_filter_members(env, kept, p);
                lemma_filter_shorter(e, other, p);
            }
        }
    }
}

proof fn lemma_env_set_told(
    env: Seq<(Seq<char>, Seq<char>)>,
    c: Seq<Seq<char>>,
    specs: Seq<Seq<char>>,
)
    ensures
        extends(c, env_set(env, c, specs).1),
        forall|s: Seq<char>| #[trigger]
            specs.contains(s) && s.contains('=') ==> env_set(env, c, specs).1.contains(
                "  env: "@ + s,
            ),
    decreases specs.len(),
{
    lemma_extends_push(c, Seq::empty());
    if specs.len() > 0 {
        let before = specs.drop_last();
        let last = specs.last();
        lemma_env_set_told(env, c, before);
        let d = env_set(env, c, before).1;
        let after = env_set(env, c, specs).1;
        lemma_extends_push(d, "  env: "@ + last);
        law_split_first(last, '=', Seq::empty(), Seq::empty());
        lemma_sets_key(last, Seq::empty());
        if let Some((k, v)) = split_first(last, '=') {
            assert("  env: "@ + k + "="@ + v =~= "  env: "@ + last);
        }
        lemma_extends(c, d, after);
        assert forall|s: Seq<char>| #[trigger]
            specs.contains(s) && s.contains('=') implies after.contains("  env: "@ + s) by {
            assert(before.push(last) =~= specs);
            lemma_push_members(before, last, s);
            if before.contains(s) {
                lemma_extends_holds(d, after, "  env: "@ + s);
            }
        }
    }
}

/// What an update tells stands behind what was told before, and each setting, port and
/// variable that it changes is told of.
pub proof fn law_update_tells_of_each_change(
    cmd: UpdateCmd,
    removals: Seq<VolumeRemoval>,
    new_mounts: Seq<(Seq<char>, Seq<char>, bool)>,
    m: VmModel,
    before: Seq<Seq<char>>,
)
    ensures
        ({
            let told = update_changes(cmd, removals, new_mounts, m, before);
            &&& extends(before, told)
            &&& cmd.cpus matches Some(n) ==> told.contains(
                "  cpus: "@ + decimal(m.cpus as nat) + " → "@ + decimal(n as nat),
            )
            &&& cmd.mem matches Some(n) ==> told.contains(
                "  memory: "@ + decimal(m.mem as nat) + " MiB → "@ + decimal(n as nat) + " MiB"@,
            )
            &&& cmd.net ==> told.contains("  network: enabled"@)
            &&& cmd.no_net ==> told.contains("  network: disabled"@)
            &&& cmd.no_net && m.allowed_cidrs is Some ==> told.contains("  cleared allow_cidrs"@)
            &&& cmd.no_net && m.dns_filter_hosts is Some ==> told.contains(
                "  cleared dns_filter_hosts"@,
            )
            &&& cmd.workdir matches Some(d) ==> told.contains("  workdir: "@ + d@)
            &&& cmd.gpu ==> told.contains("  gpu: enabled"@)
            &&& cmd.no_gpu ==> told.contains("  gpu: disabled"@)
            &&& cmd.rosetta ==> told.contains("  rosetta: enabled"@)
            &&& cmd.no_rosetta ==> told.contains("  rosetta: disabled"@)
            &&& forall|p: (u16, u16)| #[trigger]
                cmd.remove_port@.contains(p) && m.ports.contains(p) ==> told.contains(
                    "  removed port: "@ + decimal(p.0 as nat) + ":"@ + decimal(p.1 as nat),
                )
            &&& forall|p: (u16, u16)| #[trigger]
                cmd.port@.contains(p) && !m.ports.contains(p) ==> told.contains(
                    "  added port: "@ + decimal(p.0 as nat) + ":"@ + decimal(p.1 as nat),
                )
            &&& forall|p: (Seq<char>, Seq<char>)| #[trigger]
                m.env.contains(p) && texts(cmd.remove_env@).contains(p.0) ==> told.contains(
                    "  removed env: "@ + p.0,
                )
            &&& forall|s: Seq<char>| #[trigger]
                texts(cmd.env@).contains(s) && s.contains('=') ==> told.contains("  env: "@ + s)
        }),
{
    let c1 = volumes_removed(m.mounts, before, removals);
    let c2 = volumes_added(c1.0, c1.1, new_mounts);
    let c3 = ports_removed(m.ports, c2.1, cmd.remove_port@);
    let c4 = ports_added(c3.0, c3.1, cmd.port@);
    let d1 = noted(c4.1, cmd.cpus is Some, cpus_text(m.cpus, cmd.cpus));
    let d2 = noted(d1, cmd.mem is Some, mem_text(m.mem, cmd.mem));
    let d3 = noted(d2, cmd.net, "  network: enabled"@);
    let d4 = noted(d3, cmd.no_net, "  network: disabled"@);
    let d5 = noted(d4, cmd.no_net && m.allowed_cidrs is Some, "  cleared allow_cidrs"@);
    let d6 = noted(d5, cmd.no_net && m.dns_filter_hosts is Some, "  cleared dns_filter_hosts"@);
    let e1 = env_removed(m.env, d6, texts(cmd.remove_env@));
    let e2 = env_set(e1.0, e1.1, texts(cmd.env@));
    let f1 = noted(e2.1, cmd.workdir is Some, "  workdir: "@ + or_empty(opt_text(cmd.workdir)));
    let f2 = noted(f1, cmd.gpu, "  gpu: enabled"@);
    let f3 = noted(f2, cmd.no_gpu, "  gpu: disabled"@);
    let f4 = noted(f3, cmd.rosetta, "  rosetta: enabled"@);
    let told = noted(f4, cmd.no_rosetta, "  rosetta: disabled"@);
    lemma_noted(f4, cmd.no_rosetta, "  rosetta: disabled"@);
    lemma_noted(f3, cmd.rosetta, "  rosetta: enabled"@);
    lemma_noted(f2, cmd.no_gpu, "  gpu: disabled"@);
    lemma_noted(f1, cmd.gpu, "  gpu: enabled"@);
    lemma_noted(e2.1, cmd.workdir is Some, "  workdir: "@ + or_empty(opt_text(cmd.workdir)));
    lemma_env_set_told(e1.0, e1.1, texts(cmd.env@));
    lemma_env_told(m.env, d6, texts(cmd.remove_env@));
    lemma_noted(d5, cmd.no_net && m.dns_filter_hosts is Some, "  cleared dns_filter_hosts"@);
    lemma_noted(d4, cmd.no_net && m.allowed_cidrs is Some, "  cleared allow_cidrs"@);
    lemma_noted(d3, cmd.no_net, "  network: disabled"@);
    lemma_noted(d2, cmd.net, "  network: enabled"@);
    lemma_noted(d1, cmd.mem is Some, mem_text(m.mem, cmd.mem));
    lemma_noted(c4.1, cmd.cpus is Some, cpus_text(m.cpus, cmd.cpus));
    lemma_ports_added_told(c3.0, c3.1, cmd.port@);
    lemma_ports_told(m.ports, c2.1, cmd.remove_port@);
    lemma_volumes_added_told(c1.0, c1.1, new_mounts);
    lemma_volumes_told(m.mounts, before, removals);
    lemma_extends(f3, f4, told);
    lemma_extends(f2, f3, told);
    lemma_extends(f1, f2, told);
    lemma_extends(e2.1, f1, told);
    lemma_extends(e1.1, e2.1, told);
    lemma_extends(d6, e1.1, told);
    lemma_extends(d5, d6, told);
    lemma_extends(d4, d5, told);
    lemma_extends(d3, d4, told);
    lemma_extends(d2, d3, told);
    lemma_extends(d1, d2, told);
    lemma_extends(c4.1, d1, told);
    lemma_extends(c3.1, c4.1, told);
    lemma_extends(c2.1, c3.1, told);
    lemma_extends(c1.1, c2.1, told);
    lemma_extends(before, c1.1, told);
    assert forall|a: Seq<Seq<char>>, x: Seq<char>|
        #[trigger] extends(a, told) && #[trigger] a.contains(x) implies told.contains(x) by {
        lemma_extends_holds(a, told, x);
    }
    lemma_ports_removed(m.ports, c2.1, cmd.remove_port@);
    assert forall|p: (u16, u16)| #[trigger]
        cmd.port@.contains(p) && !m.ports.contains(p) implies told.contains(
        "  added port: "@ + decimal(p.0 as nat) + ":"@ + decimal(p.1 as nat),
    ) by {
        let kept = |x: (u16, u16)| !cmd.remove_port@.contains(x);
        lemma_filter_members(m.ports, kept, p);
    }
}

/// `KEY=VALUE` with a key.
pub open spec fn sets_some_key(spec: Seq<char>) -> bool {
    exists|k: Seq<char>| k.len() > 0 && #[trigger] sets_key(spec, k)
}

/// An update is refused for the first of its variables that is not `KEY=VALUE` with a
/// key, and for no other.
pub proof fn law_first_bad_variable(specs: Seq<Seq<char>>)
    ensures
        match first_bad_env(specs) {
            Some(s) => exists|i: int|
                0 <= i < specs.len() && #[trigger] specs[i] == s && !sets_some_key(s) && forall|
                    j: int,
                |
                    0 <= j < i ==> sets_some_key(#[trigger] specs[j]),
            None => forall|i: int| 0 <= i < specs.len() ==> sets_some_key(#[trigger] specs[i]),
        },
    decreases specs.len(),
{
    if specs.len() > 0 {
        let before = specs.drop_last();
        let n = specs.len() - 1;
        law_first_bad_variable(before);
        let last = specs.last();
        assert(sets_some_key(last) == (env_pair(last) is Some)) by {
            if sets_some_key(last) {
                let k = choose|k: Seq<char>| k.len() > 0 && #[trigger] sets_key(last, k);
                lemma_sets_key(last, k);
            }
            if let Some((k, v)) = split_first(last, '=') {
                lemma_sets_key(last, k);
            }
        }
        match first_bad_env(before) {
            Some(s) => {
                let i = choose|i: int|
                    0 <= i < before.len() && #[trigger] before[i] == s && !sets_some_key(s)
                        && forall|j: int| 0 <= j < i ==> sets_some_key(#[trigger] before[j]);
                assert forall|j: int| 0 <= j < i implies sets_some_key(#[trigger] specs[j]) by {
                    assert(before[j] == specs[j]);
                }
                assert(specs[i] == s);
            },
            None => {
                assert forall|j: int| 0 <= j < n implies sets_some_key(#[trigger] specs[j]) by {
                    assert(before[j] == specs[j]);
                }
                assert(specs[n] == last);
            },
        }
    }
}

} // verus!
