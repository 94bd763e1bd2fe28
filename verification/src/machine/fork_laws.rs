//! What the flags of a fork make of its clones.
use crate::copying::texts;
use crate::filtering::{lemma_filter_none, lemma_filter_whole};
use crate::machine::flags::secret_refs;
use crate::machine::fork::{
    ForkBatchIdentity, ForkCmd, fork_clones, fork_env_of, fork_refusal, identity_env, rendered_all,
    replaced, without_identity,
};
use crate::machine::params::{env_pair, env_pairs};
use crate::numerals::decimal;
use crate::split::law_split_first;
use vstd::prelude::*;

verus! {

// ---------------------------------------------------------------------------
// Variables
// ---------------------------------------------------------------------------

/// What a list of `KEY=VALUE` sets is what its items set, in their order.
pub proof fn law_variables_are_read_one_by_one(a: Seq<Seq<char>>, b: Seq<Seq<char>>)
    ensures
        env_pairs(a + b) == env_pairs(a) + env_pairs(b),
    decreases b.len(),
{
    if b.len() == 0 {
        assert(a + b =~= a);
        assert(env_pairs(a) + env_pairs(b) =~= env_pairs(a));
    } else {
        law_variables_are_read_one_by_one(a, b.drop_last());
        assert((a + b).drop_last() =~= a + b.drop_last());
        if let Some(p) = env_pair(b.last()) {
            assert(env_pairs(a) + env_pairs(b.drop_last()).push(p) =~= (env_pairs(a) + env_pairs(
                b.drop_last(),
            )).push(p));
        }
    }
}

/// `KEY=VALUE` sets the key to all that stands behind the first `=`; what has no key or no
/// `=` sets nothing.
pub proof fn law_variable_is_key_and_value(spec: Seq<char>, key: Seq<char>, value: Seq<char>)
    ensures
        key.len() > 0 && !key.contains('=') && spec == key + "="@ + value ==> env_pairs(seq![spec])
            == seq![(key, value)],
        !spec.contains('=') || spec[0] == '=' ==> env_pairs(seq![spec]) == Seq::<
            (Seq<char>, Seq<char>),
        >::empty(),
{
    reveal_strlit("=");
    assert("="@ =~= seq!['=']);
    let one = seq![spec];
    assert(one.drop_last() =~= Seq::empty());
    assert(env_pairs(one.drop_last()) =~= Seq::empty());
    law_split_first(spec, '=', key, value);
    if key.len() > 0 && !key.contains('=') && spec == key + "="@ + value {
        assert(env_pairs(one) =~= seq![(key, value)]);
    }
    if spec.contains('=') && spec[0] == '=' {
        let none = Seq::<char>::empty();
        assert(spec =~= none + seq!['='] + spec.skip(1));
        law_split_first(spec, '=', none, spec.skip(1));
    }
}

// ---------------------------------------------------------------------------
// Marks
// ---------------------------------------------------------------------------

/// `part` stands in `s` at `i`.
pub open spec fn stands_at(s: Seq<char>, part: Seq<char>, i: int) -> bool {
    0 <= i && i + part.len() <= s.len() && s.subrange(i, i + part.len()) == part
}

/// Putting a text in place of a mark leaves a text without the mark as it is.
pub proof fn law_text_without_marks_stays(s: Seq<char>, part: Seq<char>, with: Seq<char>)
    requires
        forall|i: int| !stands_at(s, part, i),
    ensures
        replaced(s, part, with) == s,
    decreases s.len(),
{
    if part.len() > 0 && s.len() >= part.len() {
        assert(!stands_at(s, part, 0));
        assert(s.subrange(0, part.len() as int) =~= s.take(part.len() as int));
        let rest = s.skip(1);
        assert forall|i: int| !stands_at(rest, part, i) by {
            if stands_at(rest, part, i) {
                assert(s.subrange(i + 1, i + 1 + part.len()) =~= rest.subrange(
                    i,
                    i + part.len(),
                ));
                assert(stands_at(s, part, i + 1));
            }
        }
        law_text_without_marks_stays(rest, part, with);
        assert(seq![s[0]] + rest =~= s);
    }
}

/// A mark is replaced where it first stands; what is before it stays, and what is behind
/// it is treated as a text of its own.
pub proof fn law_first_mark_is_replaced(
    a: Seq<char>,
    part: Seq<char>,
    b: Seq<char>,
    with: Seq<char>,
)
    requires
        part.len() > 0,
        forall|i: int| 0 <= i < a.len() ==> !stands_at(a + part + b, part, i),
    ensures
        replaced(a + part + b, part, with) == a + with + replaced(b, part, with),
    decreases a.len(),
{
    let s = a + part + b;
    assert(s.subrange(0, part.len() as int) =~= s.take(part.len() as int));
    if a.len() == 0 {
        assert(s.take(part.len() as int) =~= part);
        assert(s.skip(part.len() as int) =~= b);
        assert(a + with + replaced(b, part, with) =~= with + replaced(b, part, with));
    } else {
        assert(!stands_at(s, part, 0));
        let rest = a.skip(1);
        assert(s.skip(1) =~= rest + part + b);
        assert forall|i: int| 0 <= i < rest.len() implies !stands_at(rest + part + b, part, i) by {
            if stands_at(rest + part + b, part, i) {
                assert(s.subrange(i + 1, i + 1 + part.len()) =~= (rest + part + b).subrange(
                    i,
                    i + part.len(),
                ));
                assert(stands_at(s, part, i + 1));
            }
        }
        law_first_mark_is_replaced(rest, part, b, with);
        assert(seq![s[0]] + (rest + with + replaced(b, part, with)) =~= a + with + replaced(
            b,
            part,
            with,
        ));
    }
}

// ---------------------------------------------------------------------------
// Clones
// ---------------------------------------------------------------------------

/// A variable by which a clone knows itself.
pub open spec fn about_identity(p: (Seq<char>, Seq<char>)) -> bool {
    p.0 == "SMOLVM_FORK_INDEX"@ || p.0 == "SMOLVM_FORK_NAME"@ || p.0 == "SMOLVM_FORK_BATCH_ID"@
        || p.0 == "SMOLVM_FORK_BATCH_SIZE"@
}

/// `got` is `given` with the index and the name in place of their marks in each value.
pub open spec fn filled_in(
    given: Seq<(Seq<char>, Seq<char>)>,
    got: Seq<(Seq<char>, Seq<char>)>,
    index: u32,
    name: Seq<char>,
) -> bool {
    &&& got.len() == given.len()
    &&& forall|i: int|
        0 <= i < given.len() ==> (#[trigger] got[i]).0 == given[i].0 && got[i].1 == replaced(
            replaced(given[i].1, "{index}"@, decimal(index as nat)),
            "{name}"@,
            name,
        )
}

proof fn lemma_kept_variables(
    given: Seq<(Seq<char>, Seq<char>)>,
    index: u32,
    name: Seq<char>,
)
    ensures
        filled_in(
            given.filter(|p: (Seq<char>, Seq<char>)| !about_identity(p)),
            without_identity(rendered_all(given, index, name)),
            index,
            name,
        ),
        forall|i: int|
            0 <= i < without_identity(rendered_all(given, index, name)).len() ==> !about_identity(
                #[trigger] without_identity(rendered_all(given, index, name))[i],
            ),
    decreases given.len(),
{
    reveal(Seq::filter);
    let keep = |p: (Seq<char>, Seq<char>)| !about_identity(p);
    let all = rendered_all(given, index, name);
    if given.len() > 0 {
        let front = given.drop_last();
        lemma_kept_variables(front, index, name);
        assert(all.drop_last() =~= rendered_all(front, index, name));
        let a = front.filter(keep);
        let b = without_identity(all.drop_last());
        let after = without_identity(all);
        if keep(given.last()) {
            assert forall|i: int| 0 <= i < a.len() + 1 implies (#[trigger] after[i]).0 == a.push(
                given.last(),
            )[i].0 && after[i].1 == replaced(
                replaced(a.push(given.last())[i].1, "{index}"@, decimal(index as nat)),
                "{name}"@,
                name,
            ) && !about_identity(after[i]) by {
                if i < a.len() {
                    assert(after[i] == b[i]);
                }
            }
        }
    }
}

/// Each variable of the flags reaches the clone, under its key and in its order, with the
/// clone's index and name put in. A clone of a batch has, of those, all but what is about
/// its identity; any other clone has all of them and nothing else.
pub proof fn law_flags_reach_the_clone(
    specs: Seq<Seq<char>>,
    index: u32,
    name: Seq<char>,
    include_identity: bool,
    batch: Option<ForkBatchIdentity>,
)
    ensures
        ({
            let given = env_pairs(specs);
            let env = fork_env_of(specs, index, name, include_identity, batch);
            let other = |p: (Seq<char>, Seq<char>)| !about_identity(p);
            &&& !include_identity ==> filled_in(given, env, index, name)
            &&& filled_in(given.filter(other), env.filter(other), index, name)
        }),
{
    let given = env_pairs(specs);
    let env = fork_env_of(specs, index, name, include_identity, batch);
    let other = |p: (Seq<char>, Seq<char>)| !about_identity(p);
    lemma_kept_variables(given, index, name);
    let kept = without_identity(rendered_all(given, index, name));
    if include_identity {
        let own = identity_env(index, name, batch);
        Seq::filter_distributes_over_add(kept, own, other);
        lemma_filter_none(own, other);
        lemma_filter_whole(kept, other);
        assert(env.filter(other) =~= kept);
    } else {
        lemma_filtered_filled(given, env, index, name);
    }
}

proof fn lemma_filtered_filled(
    given: Seq<(Seq<char>, Seq<char>)>,
    env: Seq<(Seq<char>, Seq<char>)>,
    index: u32,
    name: Seq<char>,
)
    requires
        filled_in(given, env, index, name),
    ensures
        filled_in(
            given.filter(|p: (Seq<char>, Seq<char>)| !about_identity(p)),
            env.filter(|p: (Seq<char>, Seq<char>)| !about_identity(p)),
            index,
            name,
        ),
    decreases given.len(),
{
    reveal(Seq::filter);
    let other = |p: (Seq<char>, Seq<char>)| !about_identity(p);
    if given.len() > 0 {
        let a = given.drop_last();
        let b = env.drop_last();
        assert forall|i: int| 0 <= i < a.len() implies (#[trigger] b[i]).0 == a[i].0 && b[i].1
            == replaced(
            replaced(a[i].1, "{index}"@, decimal(index as nat)),
            "{name}"@,
            name,
        ) by {
            assert(b[i] == env[i]);
        }
        lemma_filtered_filled(a, b, index, name);
        assert(env[env.len() - 1].0 == given[given.len() - 1].0);
        let got = env.filter(other);
        let want = given.filter(other);
        assert forall|i: int| 0 <= i < want.len() implies (#[trigger] got[i]).0 == want[i].0
            && got[i].1 == replaced(
            replaced(want[i].1, "{index}"@, decimal(index as nat)),
            "{name}"@,
            name,
        ) by {
            if i < a.filter(other).len() {
                assert(got[i] == b.filter(other)[i]);
                assert(want[i] == a.filter(other)[i]);
            }
        }
    }
}

/// A clone of a batch is told its index, its name and, where the batch has an identity,
/// the batch's name and size: each of these variables has that one value.
pub proof fn law_clone_knows_itself(
    specs: Seq<Seq<char>>,
    index: u32,
    name: Seq<char>,
    batch: Option<ForkBatchIdentity>,
    p: (Seq<char>, Seq<char>),
)
    ensures
        ({
            let env = fork_env_of(specs, index, name, true, batch);
            &&& env.contains(("SMOLVM_FORK_INDEX"@, decimal(index as nat)))
            &&& env.contains(("SMOLVM_FORK_NAME"@, name))
            &&& batch matches Some(b) ==> env.contains(("SMOLVM_FORK_BATCH_ID"@, b.id@))
                && env.contains(("SMOLVM_FORK_BATCH_SIZE"@, decimal(b.size as nat)))
            &&& env.contains(p) && p.0 == "SMOLVM_FORK_INDEX"@ ==> p.1 == decimal(index as nat)
            &&& env.contains(p) && p.0 == "SMOLVM_FORK_NAME"@ ==> p.1 == name
            &&& env.contains(p) && p.0 == "SMOLVM_FORK_BATCH_ID"@ ==> batch is Some && p.1
                == batch->Some_0.id@
            &&& env.contains(p) && p.0 == "SMOLVM_FORK_BATCH_SIZE"@ ==> batch is Some && p.1
                == decimal(batch->Some_0.size as nat)
        }),
{
    reveal_strlit("SMOLVM_FORK_INDEX");
    reveal_strlit("SMOLVM_FORK_NAME");
    reveal_strlit("SMOLVM_FORK_BATCH_ID");
    reveal_strlit("SMOLVM_FORK_BATCH_SIZE");
    assert("SMOLVM_FORK_INDEX"@.len() == 17);
    assert("SMOLVM_FORK_NAME"@.len() == 16);
    assert("SMOLVM_FORK_BATCH_ID"@.len() == 20);
    assert("SMOLVM_FORK_BATCH_SIZE"@.len() == 22);
    let given = env_pairs(specs);
    let env = fork_env_of(specs, index, name, true, batch);
    lemma_kept_variables(given, index, name);
    let kept = without_identity(rendered_all(given, index, name));
    let own = identity_env(index, name, batch);
    let n = kept.len() as int;
    assert(env[n] == own[0]);
    assert(env[n + 1] == own[1]);
    if batch is Some {
        assert(env[n + 2] == own[2]);
        assert(env[n + 3] == own[3]);
    }
    if env.contains(p) && about_identity(p) {
        let i = choose|i: int| 0 <= i < env.len() && env[i] == p;
        if i < n {
            assert(env[i] == kept[i]);
        } else {
            assert(env[i] == own[i - n]);
        }
    }
}

/// A fork makes as many clones as it was asked for. A single one has the name that was
/// given, or the prefix and the first index; those of a batch have the prefix and their
/// index. Each has the variables of the flags, and only those of a batch are told which
/// they are.
pub proof fn law_clones_are_as_asked(cmd: ForkCmd, batch: Option<ForkBatchIdentity>, i: int)
    requires
        fork_refusal(cmd) is None,
        cmd.count > 0,
        0 <= i < cmd.count,
    ensures
        ({
            let clones = fork_clones(cmd, batch);
            &&& clones.len() == cmd.count
            &&& cmd.count == 1 && cmd.clone is Some ==> clones[i].0 == cmd.clone->Some_0@
            &&& cmd.count == 1 && cmd.clone is None ==> clones[i].0 == cmd.name_prefix->Some_0@
                + "-0"@
            &&& cmd.count > 1 ==> clones[i].0 == cmd.name_prefix->Some_0@ + "-"@ + decimal(i as nat)
            &&& cmd.count == 1 ==> filled_in(
                env_pairs(texts(cmd.env@)),
                clones[i].1,
                0,
                clones[i].0,
            )
            &&& cmd.count > 1 ==> {
                let other = |p: (Seq<char>, Seq<char>)| !about_identity(p);
                &&& filled_in(
                    env_pairs(texts(cmd.env@)).filter(other),
                    clones[i].1.filter(other),
                    i as u32,
                    clones[i].0,
                )
                &&& clones[i].1.contains(("SMOLVM_FORK_INDEX"@, decimal(i as nat)))
                &&& clones[i].1.contains(("SMOLVM_FORK_NAME"@, clones[i].0))
            }
        }),
{
    let specs = texts(cmd.env@);
    let name = fork_clones(cmd, batch)[i].0;
    law_flags_reach_the_clone(specs, 0, name, false, None);
    if cmd.count > 1 {
        law_flags_reach_the_clone(specs, i as u32, name, true, batch);
        law_clone_knows_itself(specs, i as u32, name, batch, (Seq::empty(), Seq::empty()));
    }
}

/// A fork is refused for just these reasons: a secret that cannot be read, too many
/// clones, a hold of something to fork again, and names, ports or forkability that do not
/// go with the number of clones.
pub proof fn law_refused_forks(cmd: ForkCmd)
    requires
        cmd.count > 0,
    ensures
        fork_refusal(cmd) is None <==> {
            &&& secret_refs(texts(cmd.secret_env@), texts(cmd.secret_file@)) is Ok
            &&& cmd.count <= 1024
            &&& !(cmd.hold && cmd.forkable)
            &&& cmd.count == 1 ==> cmd.clone is Some != cmd.name_prefix is Some
            &&& cmd.count > 1 ==> cmd.clone is None && cmd.name_prefix is Some && !cmd.forkable
                && cmd.port@.len() == 0
        },
        fork_refusal(cmd) is Some && secret_refs(
            texts(cmd.secret_env@),
            texts(cmd.secret_file@),
        ) is Ok ==> fork_refusal(cmd)->Some_0.0 == "fork"@,
{
}

} // verus!
