//! Changing the settings of a machine that does not run.
use crate::copying::{copy_mounts, copy_ports, mounts_view, opt_text, or_empty, pairs, texts};
use crate::machine::errors::{ConfigError, config_error};
use crate::machine::params::{
    distinct_ports, duplicate_port, env_pair, port_error, port_taken_before,
};
use crate::machine::run::refusal;
use crate::numerals::{decimal, decimal_chars};
use crate::phrase::{extend_texts, lemma_texts_push};
use crate::records::{RecordState, VmModel, VmRecord};
use crate::split::{split_first, split_once_chars};
use crate::text::{chars_of, say2, say3, say4, say5, string_of, text_eq};
use vstd::prelude::*;

verus! {

/// What `update` is asked for.
#[derive(Debug)]
pub struct UpdateCmd {
    pub name: String,
    pub volume: Vec<String>,
    pub remove_volume: Vec<String>,
    pub port: Vec<(u16, u16)>,
    pub remove_port: Vec<(u16, u16)>,
    pub cpus: Option<u8>,
    pub mem: Option<u32>,
    pub net: bool,
    pub no_net: bool,
    pub env: Vec<String>,
    pub remove_env: Vec<String>,
    pub workdir: Option<String>,
    pub gpu: bool,
    pub no_gpu: bool,
    pub rosetta: bool,
    pub no_rosetta: bool,
    pub storage: Option<u64>,
    pub overlay: Option<u64>,
}

/// A volume to remove, as it was given, and with the path of its source resolved.
#[derive(Debug)]
pub struct VolumeRemoval {
    pub given: String,
    /// The source's resolved path; the path itself where it cannot be resolved.
    pub source: String,
}

// ---------------------------------------------------------------------------
// Volumes
// ---------------------------------------------------------------------------

/// A volume as text.
pub open spec fn mount_spec(m: (Seq<char>, Seq<char>, bool)) -> Seq<char> {
    m.0 + ":"@ + m.1
}

/// What a removal names once its source is resolved.
pub open spec fn removal_spec(given: Seq<char>, source: Seq<char>) -> Seq<char> {
    match split_first(given, ':') {
        Some((_, target)) => source + ":"@ + target,
        None => given,
    }
}

/// Volumes without those that go by one of two names.
pub open spec fn volumes_without(
    mounts: Seq<(Seq<char>, Seq<char>, bool)>,
    a: Seq<char>,
    b: Seq<char>,
) -> Seq<(Seq<char>, Seq<char>, bool)>
    decreases mounts.len(),
{
    if mounts.len() == 0 {
        Seq::empty()
    } else if mount_spec(mounts.last()) == a || mount_spec(mounts.last()) == b {
        volumes_without(mounts.drop_last(), a, b)
    } else {
        volumes_without(mounts.drop_last(), a, b).push(mounts.last())
    }
}

/// Whether a volume with this source and target is there.
pub open spec fn has_volume(
    mounts: Seq<(Seq<char>, Seq<char>, bool)>,
    m: (Seq<char>, Seq<char>, bool),
) -> bool {
    exists|i: int|
        0 <= i < mounts.len() && (#[trigger] mounts[i]).0 == m.0 && mounts[i].1 == m.1
}

/// Volumes and what was changed, after removals: each takes what it names, as given
/// or resolved, and tells of it if it took any.
pub open spec fn volumes_removed(
    mounts: Seq<(Seq<char>, Seq<char>, bool)>,
    changes: Seq<Seq<char>>,
    removals: Seq<VolumeRemoval>,
) -> (Seq<(Seq<char>, Seq<char>, bool)>, Seq<Seq<char>>)
    decreases removals.len(),
{
    if removals.len() == 0 {
        (mounts, changes)
    } else {
        let (m, c) = volumes_removed(mounts, changes, removals.drop_last());
        let r = removals.last();
        let kept = volumes_without(m, r.given@, removal_spec(r.given@, r.source@));
        (kept, if kept.len() < m.len() {
            c.push("  removed volume: "@ + r.given@)
        } else {
            c
        })
    }
}

/// Volumes and what was changed, after additions: a volume that is there already is
/// not added again.
pub open spec fn volumes_added(
    mounts: Seq<(Seq<char>, Seq<char>, bool)>,
    changes: Seq<Seq<char>>,
    new: Seq<(Seq<char>, Seq<char>, bool)>,
) -> (Seq<(Seq<char>, Seq<char>, bool)>, Seq<Seq<char>>)
    decreases new.len(),
{
    if new.len() == 0 {
        (mounts, changes)
    } else {
        let (m, c) = volumes_added(mounts, changes, new.drop_last());
        let n = new.last();
        if has_volume(m, n) {
            (m, c)
        } else {
            (
                m.push(n),
                c.push(
                    "  added volume: "@ + n.0 + ":"@ + n.1 + if n.2 {
                        ":ro"@
                    } else {
                        ""@
                    },
                ),
            )
        }
    }
}

/// The source that a removal names, as it was given, if it names one.
pub fn removal_source(given: &str) -> (r: Option<String>)
    ensures
        opt_text(r) == match split_first(given@, ':') {
            Some((source, _)) => Some(source),
            None => None,
        },
{
    let chars = chars_of(given);
    match split_once_chars(&chars, ':') {
        Some((source, _)) => Some(string_of(&source)),
        None => None,
    }
}

fn removal_name(r: &VolumeRemoval) -> (s: String)
    ensures
        s@ == removal_spec(r.given@, r.source@),
{
    let chars = chars_of(r.given.as_str());
    match split_once_chars(&chars, ':') {
        Some((_, target)) => say3(r.source.as_str(), ":", string_of(&target).as_str()),
        None => r.given.clone(),
    }
}

fn remove_volume(mounts: &mut Vec<(String, String, bool)>, a: &str, b: &str)
    ensures
        mounts_view(final(mounts)@) == volumes_without(mounts_view(old(mounts)@), a@, b@),
{
    let mut out: Vec<(String, String, bool)> = Vec::new();
    let ghost all = mounts_view(mounts@);
    let mut i: usize = 0;
    proof {
        assert(all.take(0) =~= Seq::empty());
        assert(mounts_view(out@) =~= Seq::empty());
    }
    while i < mounts.len()
        invariant
            i <= mounts@.len(),
            all == mounts_view(mounts@),
            mounts_view(out@) == volumes_without(all.take(i as int), a@, b@),
        decreases mounts@.len() - i,
    {
        proof {
            assert(all.take(i + 1).drop_last() =~= all.take(i as int));
            assert(all.take(i + 1).last() == all[i as int]);
        }
        let spec = say3(mounts[i].0.as_str(), ":", mounts[i].1.as_str());
        if !text_eq(spec.as_str(), a) && !text_eq(spec.as_str(), b) {
            let ghost before = out@;
            let m = (mounts[i].0.clone(), mounts[i].1.clone(), mounts[i].2);
            out.push(m);
            proof { assert(mounts_view(out@) =~= mounts_view(before).push((m.0@, m.1@, m.2))); }
        }
        i = i + 1;
    }
    proof { assert(all.take(mounts@.len() as int) =~= all); }
    *mounts = out;
}

fn holds_volume(mounts: &[(String, String, bool)], source: &str, target: &str) -> (r: bool)
    ensures
        forall|ro: bool| r == #[trigger] has_volume(mounts_view(mounts@), (source@, target@, ro)),
{
    let mut i: usize = 0;
    while i < mounts.len()
        invariant
            i <= mounts@.len(),
            forall|j: int|
                0 <= j < i ==> !((#[trigger] mounts_view(mounts@)[j]).0 == source@ && mounts_view(
                    mounts@,
                )[j].1 == target@),
        decreases mounts@.len() - i,
    {
        if text_eq(mounts[i].0.as_str(), source) && text_eq(mounts[i].1.as_str(), target) {
            proof {
                let m = mounts_view(mounts@)[i as int];
                assert(m.0 == source@ && m.1 == target@);
            }
            return true;
        }
        i = i + 1;
    }
    false
}

fn push_change(changes: &mut Vec<String>, text: String)
    ensures
        texts(final(changes)@) == texts(old(changes)@).push(text@),
{
    proof { lemma_texts_push(changes@, text); }
    changes.push(text);
}

fn change_volumes(
    mounts: &mut Vec<(String, String, bool)>,
    changes: &mut Vec<String>,
    removals: &[VolumeRemoval],
    new: &[(String, String, bool)],
)
    ensures
        (mounts_view(final(mounts)@), texts(final(changes)@)) == volumes_changed(
            mounts_view(old(mounts)@),
            texts(old(changes)@),
            removals@,
            mounts_view(new@),
        ),
{
    let ghost m0 = mounts_view(mounts@);
    let ghost c0 = texts(changes@);
    let mut i: usize = 0;
    proof { assert(removals@.take(0) =~= Seq::empty()); }
    while i < removals.len()
        invariant
            i <= removals@.len(),
            m0 == mounts_view(old(mounts)@),
            c0 == texts(old(changes)@),
            (mounts_view(mounts@), texts(changes@)) == volumes_removed(
                m0,
                c0,
                removals@.take(i as int),
            ),
        decreases removals@.len() - i,
    {
        proof {
            assert(removals@.take(i + 1).drop_last() =~= removals@.take(i as int));
            assert(removals@.take(i + 1).last() == removals@[i as int]);
        }
        let resolved = removal_name(&removals[i]);
        let before = mounts.len();
        remove_volume(mounts, removals[i].given.as_str(), resolved.as_str());
        proof {
            assert(mounts_view(mounts@).len() == mounts@.len());
        }
        if mounts.len() < before {
            push_change(changes, say2("  removed volume: ", removals[i].given.as_str()));
        }
        i = i + 1;
    }
    proof { assert(removals@.take(removals@.len() as int) =~= removals@); }
    let ghost m1 = mounts_view(mounts@);
    let ghost c1 = texts(changes@);
    let ghost all = mounts_view(new@);
    let mut j: usize = 0;
    proof { assert(all.take(0) =~= Seq::empty()); }
    while j < new.len()
        invariant
            j <= new@.len(),
            all == mounts_view(new@),
            (m1, c1) == volumes_removed(
                mounts_view(old(mounts)@),
                texts(old(changes)@),
                removals@,
            ),
            (mounts_view(mounts@), texts(changes@)) == volumes_added(m1, c1, all.take(j as int)),
        decreases new@.len() - j,
    {
        proof {
            assert(all.take(j + 1).drop_last() =~= all.take(j as int));
            assert(all.take(j + 1).last() == all[j as int]);
        }
        let ghost n = all[j as int];
        assert(n == (new@[j as int].0@, new@[j as int].1@, new@[j as int].2));
        let there = holds_volume(mounts, new[j].0.as_str(), new[j].1.as_str());
        assert(there == has_volume(mounts_view(mounts@), (n.0, n.1, n.2)));
        if !there {
            let suffix = if new[j].2 {
                ":ro"
            } else {
                ""
            };
            push_change(
                changes,
                say5("  added volume: ", new[j].0.as_str(), ":", new[j].1.as_str(), suffix),
            );
            let ghost before = mounts@;
            let m = (new[j].0.clone(), new[j].1.clone(), new[j].2);
            mounts.push(m);
            proof { assert(mounts_view(mounts@) =~= mounts_view(before).push((m.0@, m.1@, m.2))); }
        }
        j = j + 1;
    }
    proof { assert(all.take(new@.len() as int) =~= all); }
}

/// Volumes and what was changed, after removals and additions.
pub open spec fn volumes_changed(
    mounts: Seq<(Seq<char>, Seq<char>, bool)>,
    changes: Seq<Seq<char>>,
    removals: Seq<VolumeRemoval>,
    new: Seq<(Seq<char>, Seq<char>, bool)>,
) -> (Seq<(Seq<char>, Seq<char>, bool)>, Seq<Seq<char>>) {
    let (m, c) = volumes_removed(mounts, changes, removals);
    volumes_added(m, c, new)
}

// ---------------------------------------------------------------------------
// Ports
// ---------------------------------------------------------------------------

/// Ports without one mapping.
pub open spec fn ports_without(ports: Seq<(u16, u16)>, p: (u16, u16)) -> Seq<(u16, u16)>
    decreases ports.len(),
{
    if ports.len() == 0 {
        Seq::empty()
    } else if ports.last() == p {
        ports_without(ports.drop_last(), p)
    } else {
        ports_without(ports.drop_last(), p).push(ports.last())
    }
}

/// A mapping as text.
pub open spec fn port_spec(p: (u16, u16)) -> Seq<char> {
    decimal(p.0 as nat) + ":"@ + decimal(p.1 as nat)
}

/// Ports and what was changed, after removals.
pub open spec fn ports_removed(
    ports: Seq<(u16, u16)>,
    changes: Seq<Seq<char>>,
    removals: Seq<(u16, u16)>,
) -> (Seq<(u16, u16)>, Seq<Seq<char>>)
    decreases removals.len(),
{
    if removals.len() == 0 {
        (ports, changes)
    } else {
        let (p, c) = ports_removed(ports, changes, removals.drop_last());
        let kept = ports_without(p, removals.last());
        (kept, if kept.len() < p.len() {
            c.push("  removed port: "@ + port_spec(removals.last()))
        } else {
            c
        })
    }
}

/// Ports and what was changed, after additions: a mapping that is there already is
/// not added again.
pub open spec fn ports_added(
    ports: Seq<(u16, u16)>,
    changes: Seq<Seq<char>>,
    new: Seq<(u16, u16)>,
) -> (Seq<(u16, u16)>, Seq<Seq<char>>)
    decreases new.len(),
{
    if new.len() == 0 {
        (ports, changes)
    } else {
        let (p, c) = ports_added(ports, changes, new.drop_last());
        if p.contains(new.last()) {
            (p, c)
        } else {
            (p.push(new.last()), c.push("  added port: "@ + port_spec(new.last())))
        }
    }
}

/// Ports and what was changed, after removals and additions.
pub open spec fn ports_changed(
    ports: Seq<(u16, u16)>,
    changes: Seq<Seq<char>>,
    removals: Seq<(u16, u16)>,
    new: Seq<(u16, u16)>,
) -> (Seq<(u16, u16)>, Seq<Seq<char>>) {
    let (p, c) = ports_removed(ports, changes, removals);
    ports_added(p, c, new)
}

fn same_port(a: (u16, u16), b: (u16, u16)) -> (r: bool)
    ensures
        r == (a == b),
{
    a.0 == b.0 && a.1 == b.1
}

fn port_text(p: (u16, u16)) -> (r: String)
    ensures
        r@ == port_spec(p),
{
    let a = string_of(&decimal_chars(p.0 as u128));
    let b = string_of(&decimal_chars(p.1 as u128));
    say3(a.as_str(), ":", b.as_str())
}

fn remove_port(ports: &mut Vec<(u16, u16)>, p: (u16, u16))
    ensures
        final(ports)@ == ports_without(old(ports)@, p),
{
    let mut out: Vec<(u16, u16)> = Vec::new();
    let mut i: usize = 0;
    proof { assert(ports@.take(0) =~= Seq::empty()); }
    while i < ports.len()
        invariant
            i <= ports@.len(),
            ports@ == old(ports)@,
            out@ == ports_without(ports@.take(i as int), p),
        decreases ports@.len() - i,
    {
        proof {
            assert(ports@.take(i + 1).drop_last() =~= ports@.take(i as int));
            assert(ports@.take(i + 1).last() == ports@[i as int]);
        }
        if !same_port(ports[i], p) {
            out.push(ports[i]);
        }
        i = i + 1;
    }
    proof { assert(ports@.take(ports@.len() as int) =~= ports@); }
    *ports = out;
}

fn holds_port(ports: &[(u16, u16)], p: (u16, u16)) -> (r: bool)
    ensures
        r == ports@.contains(p),
{
    let mut i: usize = 0;
    while i < ports.len()
        invariant
            i <= ports@.len(),
            forall|j: int| 0 <= j < i ==> ports@[j] != p,
        decreases ports@.len() - i,
    {
        if same_port(ports[i], p) {
            return true;
        }
        i = i + 1;
    }
    false
}

fn change_ports(
    ports: &mut Vec<(u16, u16)>,
    changes: &mut Vec<String>,
    removals: &[(u16, u16)],
    new: &[(u16, u16)],
)
    ensures
        (final(ports)@, texts(final(changes)@)) == ports_changed(
            old(ports)@,
            texts(old(changes)@),
            removals@,
            new@,
        ),
{
    let mut i: usize = 0;
    proof { assert(removals@.take(0) =~= Seq::empty()); }
    while i < removals.len()
        invariant
            i <= removals@.len(),
            (ports@, texts(changes@)) == ports_removed(
                old(ports)@,
                texts(old(changes)@),
                removals@.take(i as int),
            ),
        decreases removals@.len() - i,
    {
        proof {
            assert(removals@.take(i + 1).drop_last() =~= removals@.take(i as int));
            assert(removals@.take(i + 1).last() == removals@[i as int]);
        }
        let before = ports.len();
        remove_port(ports, removals[i]);
        if ports.len() < before {
            push_change(changes, say2("  removed port: ", port_text(removals[i]).as_str()));
        }
        i = i + 1;
    }
    proof { assert(removals@.take(removals@.len() as int) =~= removals@); }
    let ghost p1 = ports@;
    let ghost c1 = texts(changes@);
    let mut j: usize = 0;
    proof { assert(new@.take(0) =~= Seq::empty()); }
    while j < new.len()
        invariant
            j <= new@.len(),
            (p1, c1) == ports_removed(old(ports)@, texts(old(changes)@), removals@),
            (ports@, texts(changes@)) == ports_added(p1, c1, new@.take(j as int)),
        decreases new@.len() - j,
    {
        proof {
            assert(new@.take(j + 1).drop_last() =~= new@.take(j as int));
            assert(new@.take(j + 1).last() == new@[j as int]);
        }
        if !holds_port(ports, new[j]) {
            push_change(changes, say2("  added port: ", port_text(new[j]).as_str()));
            ports.push(new[j]);
        }
        j = j + 1;
    }
    proof { assert(new@.take(new@.len() as int) =~= new@); }
}

// ---------------------------------------------------------------------------
// Variables
// ---------------------------------------------------------------------------

/// Variables without one.
pub open spec fn env_without(env: Seq<(Seq<char>, Seq<char>)>, key: Seq<char>) -> Seq<
    (Seq<char>, Seq<char>),
>
    decreases env.len(),
{
    if env.len() == 0 {
        Seq::empty()
    } else if env.last().0 == key {
        env_without(env.drop_last(), key)
    } else {
        env_without(env.drop_last(), key).push(env.last())
    }
}

/// Variables and what was changed, after removals.
pub open spec fn env_removed(
    env: Seq<(Seq<char>, Seq<char>)>,
    changes: Seq<Seq<char>>,
    keys: Seq<Seq<char>>,
) -> (Seq<(Seq<char>, Seq<char>)>, Seq<Seq<char>>)
    decreases keys.len(),
{
    if keys.len() == 0 {
        (env, changes)
    } else {
        let (e, c) = env_removed(env, changes, keys.drop_last());
        let kept = env_without(e, keys.last());
        (kept, if kept.len() < e.len() {
            c.push("  removed env: "@ + keys.last())
        } else {
            c
        })
    }
}

/// Variables and what was changed, after each `KEY=VALUE` is set, last.
pub open spec fn env_set(
    env: Seq<(Seq<char>, Seq<char>)>,
    changes: Seq<Seq<char>>,
    specs: Seq<Seq<char>>,
) -> (Seq<(Seq<char>, Seq<char>)>, Seq<Seq<char>>)
    decreases specs.len(),
{
    if specs.len() == 0 {
        (env, changes)
    } else {
        let (e, c) = env_set(env, changes, specs.drop_last());
        match split_first(specs.last(), '=') {
            Some((k, v)) => (
                env_without(e, k).push((k, v)),
                c.push("  env: "@ + k + "="@ + v),
            ),
            None => (e, c),
        }
    }
}

/// Variables and what was changed, after removals and settings.
pub open spec fn env_changed(
    env: Seq<(Seq<char>, Seq<char>)>,
    changes: Seq<Seq<char>>,
    keys: Seq<Seq<char>>,
    specs: Seq<Seq<char>>,
) -> (Seq<(Seq<char>, Seq<char>)>, Seq<Seq<char>>) {
    let (e, c) = env_removed(env, changes, keys);
    env_set(e, c, specs)
}

fn remove_key(env: &mut Vec<(String, String)>, key: &str)
    ensures
        pairs(final(env)@) == env_without(pairs(old(env)@), key@),
{
    let mut out: Vec<(String, String)> = Vec::new();
    let ghost all = pairs(env@);
    let mut i: usize = 0;
    proof {
        assert(all.take(0) =~= Seq::empty());
        assert(pairs(out@) =~= Seq::empty());
    }
    while i < env.len()
        invariant
            i <= env@.len(),
            all == pairs(env@),
            pairs(out@) == env_without(all.take(i as int), key@),
        decreases env@.len() - i,
    {
        proof {
            assert(all.take(i + 1).drop_last() =~= all.take(i as int));
            assert(all.take(i + 1).last() == all[i as int]);
        }
        if !text_eq(env[i].0.as_str(), key) {
            let ghost before = out@;
            let p = (env[i].0.clone(), env[i].1.clone());
            out.push(p);
            proof { assert(pairs(out@) =~= pairs(before).push((p.0@, p.1@))); }
        }
        i = i + 1;
    }
    proof { assert(all.take(env@.len() as int) =~= all); }
    *env = out;
}

fn change_env(
    env: &mut Vec<(String, String)>,
    changes: &mut Vec<String>,
    keys: &[String],
    specs: &[String],
)
    ensures
        (pairs(final(env)@), texts(final(changes)@)) == env_changed(
            pairs(old(env)@),
            texts(old(changes)@),
            texts(keys@),
            texts(specs@),
        ),
{
    let ghost all_keys = texts(keys@);
    let mut i: usize = 0;
    proof { assert(all_keys.take(0) =~= Seq::empty()); }
    while i < keys.len()
        invariant
            i <= keys@.len(),
            all_keys == texts(keys@),
            (pairs(env@), texts(changes@)) == env_removed(
                pairs(old(env)@),
                texts(old(changes)@),
                all_keys.take(i as int),
            ),
        decreases keys@.len() - i,
    {
        proof {
            assert(all_keys.take(i + 1).drop_last() =~= all_keys.take(i as int));
            assert(all_keys.take(i + 1).last() == keys@[i as int]@);
            assert(pairs(env@).len() == env@.len());
        }
        let before = env.len();
        remove_key(env, keys[i].as_str());
        proof { assert(pairs(env@).len() == env@.len()); }
        if env.len() < before {
            push_change(changes, say2("  removed env: ", keys[i].as_str()));
        }
        i = i + 1;
    }
    proof { assert(all_keys.take(keys@.len() as int) =~= all_keys); }
    let ghost e1 = pairs(env@);
    let ghost c1 = texts(changes@);
    let ghost all = texts(specs@);
    let mut j: usize = 0;
    proof { assert(all.take(0) =~= Seq::empty()); }
    while j < specs.len()
        invariant
            j <= specs@.len(),
            all == texts(specs@),
            (e1, c1) == env_removed(pairs(old(env)@), texts(old(changes)@), texts(keys@)),
            (pairs(env@), texts(changes@)) == env_set(e1, c1, all.take(j as int)),
        decreases specs@.len() - j,
    {
        proof {
            assert(all.take(j + 1).drop_last() =~= all.take(j as int));
            assert(all.take(j + 1).last() == specs@[j as int]@);
        }
        let chars = chars_of(specs[j].as_str());
        match split_once_chars(&chars, '=') {
            Some((k, v)) => {
                let key = string_of(&k);
                let value = string_of(&v);
                remove_key(env, key.as_str());
                push_change(changes, say4("  env: ", key.as_str(), "=", value.as_str()));
                let ghost before = env@;
                let ghost added = (k@, v@);
                env.push((key, value));
                proof { assert(pairs(env@) =~= pairs(before).push(added)); }
            },
            None => {},
        }
        j = j + 1;
    }
    proof { assert(all.take(specs@.len() as int) =~= all); }
}

// ---------------------------------------------------------------------------
// Checks
// ---------------------------------------------------------------------------

/// Why an update of a machine that is not there fails.
fn update_not_found(name: &str) -> (r: ConfigError)
    ensures
        r@ == ("update"@, "machine '"@ + name@ + "' not found"@),
{
    config_error("update", say3("machine '", name, "' not found"))
}

/// Whether a machine in this state can be updated: it does not run.
fn updatable(state: RecordState) -> (r: bool)
    ensures
        r == (state == RecordState::Stopped || state == RecordState::Created),
{
    match state {
        RecordState::Stopped | RecordState::Created => true,
        _ => false,
    }
}

/// The processors and memory that an update proposes.
pub fn proposed_size(cmd: &UpdateCmd, record: &VmRecord) -> (r: (u8, u32))
    ensures
        r.0 == match cmd.cpus {
            Some(n) => n,
            None => record.cpus,
        },
        r.1 == match cmd.mem {
            Some(n) => n,
            None => record.mem,
        },
{
    (
        match cmd.cpus {
            Some(n) => n,
            None => record.cpus,
        },
        match cmd.mem {
            Some(n) => n,
            None => record.mem,
        },
    )
}

/// The first of some specs that sets no variable.
pub open spec fn first_bad_env(specs: Seq<Seq<char>>) -> Option<Seq<char>>
    decreases specs.len(),
{
    if specs.len() == 0 {
        None
    } else {
        match first_bad_env(specs.drop_last()) {
            Some(s) => Some(s),
            None => if env_pair(specs.last()) is None {
                Some(specs.last())
            } else {
                None
            },
        }
    }
}

/// Refuses what sets no variable.
fn check_update_env(specs: &[String]) -> (r: Result<(), ConfigError>)
    ensures
        refusal(r) == match first_bad_env(texts(specs@)) {
            Some(s) => Some(
                ("update"@, "invalid env format '"@ + s + "': expected KEY=VALUE"@),
            ),
            None => None,
        },
{
    let ghost all = texts(specs@);
    let mut found: Option<usize> = None;
    let mut i: usize = 0;
    proof { assert(all.take(0) =~= Seq::empty()); }
    while i < specs.len()
        invariant
            i <= specs@.len(),
            all == texts(specs@),
            match found {
                Some(k) => k < specs@.len() && first_bad_env(all.take(i as int)) == Some(
                    specs@[k as int]@,
                ),
                None => first_bad_env(all.take(i as int)) is None,
            },
        decreases specs@.len() - i,
    {
        proof {
            assert(all.take(i + 1).drop_last() =~= all.take(i as int));
            assert(all.take(i + 1).last() == specs@[i as int]@);
        }
        let chars = chars_of(specs[i].as_str());
        let good = match split_once_chars(&chars, '=') {
            Some((k, _)) => k.len() > 0,
            None => false,
        };
        if found.is_none() && !good {
            found = Some(i);
        }
        i = i + 1;
    }
    proof { assert(all.take(specs@.len() as int) =~= all); }
    match found {
        Some(k) => Err(
            config_error(
                "update",
                say3("invalid env format '", specs[k].as_str(), "': expected KEY=VALUE"),
            ),
        ),
        None => Ok(()),
    }
}

/// No target is mounted twice.
pub open spec fn distinct_targets(mounts: Seq<(Seq<char>, Seq<char>, bool)>) -> bool {
    forall|i: int, j: int|
        #![trigger mounts[i], mounts[j]]
        0 <= i < j < mounts.len() ==> mounts[i].1 != mounts[j].1
}

/// `j` is the first volume whose target an earlier one has.
pub open spec fn first_double_target(mounts: Seq<(Seq<char>, Seq<char>, bool)>, j: int) -> bool {
    &&& 0 <= j < mounts.len()
    &&& distinct_targets(mounts.take(j))
    &&& exists|i: int| 0 <= i < j && (#[trigger] mounts[i]).1 == mounts[j].1
}

fn double_target(mounts: &[(String, String, bool)]) -> (r: Option<usize>)
    ensures
        match r {
            None => distinct_targets(mounts_view(mounts@)),
            Some(j) => first_double_target(mounts_view(mounts@), j as int),
        },
{
    let ghost all = mounts_view(mounts@);
    let mut j: usize = 0;
    while j < mounts.len()
        invariant
            j <= mounts@.len(),
            all == mounts_view(mounts@),
            distinct_targets(all.take(j as int)),
        decreases mounts@.len() - j,
    {
        let mut i: usize = 0;
        while i < j
            invariant
                i <= j,
                j < mounts@.len(),
                all == mounts_view(mounts@),
                distinct_targets(all.take(j as int)),
                forall|k: int| 0 <= k < i ==> (#[trigger] all[k]).1 != all[j as int].1,
            decreases j - i,
        {
            if text_eq(mounts[i].1.as_str(), mounts[j].1.as_str()) {
                proof { assert(all[i as int].1 == all[j as int].1); }
                return Some(j);
            }
            i = i + 1;
        }
        proof {
            let now = all.take(j + 1);
            assert forall|a: int, b: int|
                #![trigger now[a], now[b]]
                0 <= a < b < now.len() implies now[a].1 != now[b].1 by {
                if b < j {
                    assert(now[a] == all.take(j as int)[a]);
                    assert(now[b] == all.take(j as int)[b]);
                } else {
                    assert(now[a] == all[a]);
                }
            }
        }
        j = j + 1;
    }
    proof { assert(all.take(mounts@.len() as int) =~= all); }
    None
}

/// The ports of a machine after an update.
pub open spec fn updated_ports(cmd: UpdateCmd, m: VmModel) -> Seq<(u16, u16)> {
    ports_changed(m.ports, Seq::empty(), cmd.remove_port@, cmd.port@).0
}

/// The volumes of a machine after an update.
pub open spec fn updated_mounts(
    removals: Seq<VolumeRemoval>,
    new: Seq<(Seq<char>, Seq<char>, bool)>,
    m: VmModel,
) -> Seq<(Seq<char>, Seq<char>, bool)> {
    volumes_changed(m.mounts, Seq::empty(), removals, new).0
}

/// The error for ports or volumes that clash, ports first.
pub open spec fn clash(
    ports: Seq<(u16, u16)>,
    mounts: Seq<(Seq<char>, Seq<char>, bool)>,
    e: (Seq<char>, Seq<char>),
) -> bool {
    if !distinct_ports(ports) {
        exists|j: int| #[trigger]
            port_taken_before(ports, j) && e == (
                "update"@,
                "duplicate host port: "@ + decimal(ports[j].0 as nat)
                    + " is specified more than once"@,
            )
    } else {
        exists|j: int| #[trigger]
            first_double_target(mounts, j) && e == (
                "update"@,
                "duplicate mount target: "@ + mounts[j].1 + " is specified more than once"@,
            )
    }
}

/// Refuses an update that would map a host port twice or mount a target twice.
fn check_update(
    cmd: &UpdateCmd,
    record: &VmRecord,
    removals: &[VolumeRemoval],
    new_mounts: &[(String, String, bool)],
) -> (r: Result<(), ConfigError>)
    ensures
        ({
            let ports = updated_ports(*cmd, record@);
            let mounts = updated_mounts(removals@, mounts_view(new_mounts@), record@);
            match r {
                Ok(_) => distinct_ports(ports) && distinct_targets(mounts),
                Err(e) => clash(ports, mounts, e@),
            }
        }),
{
    let mut changes: Vec<String> = Vec::new();
    let mut ports = copy_ports(&record.ports);
    proof { assert(texts(changes@) =~= Seq::empty()); }
    change_ports(&mut ports, &mut changes, &cmd.remove_port, &cmd.port);
    match duplicate_port(&ports) {
        Some(j) => {
            proof { lemma_not_distinct(ports@, j as int); }
            return Err(port_error("update", ports[j].0));
        },
        None => {},
    }
    let mut scratch: Vec<String> = Vec::new();
    let mut mounts = copy_mounts(&record.mounts);
    proof { assert(texts(scratch@) =~= Seq::empty()); }
    change_volumes(&mut mounts, &mut scratch, removals, new_mounts);
    match double_target(&mounts) {
        Some(j) => {
            proof {
                let all = mounts_view(mounts@);
                assert(all == updated_mounts(removals@, mounts_view(new_mounts@), record@));
                assert(all[j as int].1 == mounts@[j as int].1@);
                assert(first_double_target(all, j as int));
                assert(distinct_ports(updated_ports(*cmd, record@)));
            }
            Err(
                config_error(
                    "update",
                    say3(
                        "duplicate mount target: ",
                        mounts[j].1.as_str(),
                        " is specified more than once",
                    ),
                ),
            )
        },
        None => Ok(()),
    }
}

proof fn lemma_not_distinct(ports: Seq<(u16, u16)>, j: int)
    requires
        port_taken_before(ports, j),
    ensures
        !distinct_ports(ports),
{
    let i = choose|i: int| 0 <= i < j && (#[trigger] ports[i]).0 == ports[j].0;
    assert(ports[i].0 == ports[j].0);
}

// ---------------------------------------------------------------------------
// The update
// ---------------------------------------------------------------------------

/// Changes with one more, if it applies.
pub open spec fn noted(changes: Seq<Seq<char>>, applies: bool, text: Seq<char>) -> Seq<Seq<char>> {
    if applies {
        changes.push(text)
    } else {
        changes
    }
}

/// What is told of a new number of processors.
pub open spec fn cpus_text(old: u8, new: Option<u8>) -> Seq<char> {
    "  cpus: "@ + decimal(old as nat) + " → "@ + decimal(new->Some_0 as nat)
}

/// What is told of a new size of memory.
pub open spec fn mem_text(old: u32, new: Option<u32>) -> Seq<char> {
    "  memory: "@ + decimal(old as nat) + " MiB → "@ + decimal(new->Some_0 as nat) + " MiB"@
}

/// What is told of an update, behind what was told before.
pub open spec fn update_changes(
    cmd: UpdateCmd,
    removals: Seq<VolumeRemoval>,
    new_mounts: Seq<(Seq<char>, Seq<char>, bool)>,
    m: VmModel,
    changes: Seq<Seq<char>>,
) -> Seq<Seq<char>> {
    let c = volumes_changed(m.mounts, changes, removals, new_mounts).1;
    let c = ports_changed(m.ports, c, cmd.remove_port@, cmd.port@).1;
    let c = noted(c, cmd.cpus is Some, cpus_text(m.cpus, cmd.cpus));
    let c = noted(c, cmd.mem is Some, mem_text(m.mem, cmd.mem));
    let c = noted(c, cmd.net, "  network: enabled"@);
    let c = noted(c, cmd.no_net, "  network: disabled"@);
    let c = noted(c, cmd.no_net && m.allowed_cidrs is Some, "  cleared allow_cidrs"@);
    let c = noted(c, cmd.no_net && m.dns_filter_hosts is Some, "  cleared dns_filter_hosts"@);
    let c = env_changed(m.env, c, texts(cmd.remove_env@), texts(cmd.env@)).1;
    let c = noted(c, cmd.workdir is Some, "  workdir: "@ + or_empty(opt_text(cmd.workdir)));
    let c = noted(c, cmd.gpu, "  gpu: enabled"@);
    let c = noted(c, cmd.no_gpu, "  gpu: disabled"@);
    let c = noted(c, cmd.rosetta, "  rosetta: enabled"@);
    noted(c, cmd.no_rosetta, "  rosetta: disabled"@)
}

/// A setting that can be switched on and off; off wins.
pub open spec fn switched(old: Option<bool>, on: bool, off: bool) -> Option<bool> {
    if off {
        Some(false)
    } else if on {
        Some(true)
    } else {
        old
    }
}

/// A machine after an update. Without a network no egress policy stays, as it would
/// bring the network back.
pub open spec fn updated(
    cmd: UpdateCmd,
    removals: Seq<VolumeRemoval>,
    new_mounts: Seq<(Seq<char>, Seq<char>, bool)>,
    m: VmModel,
) -> VmModel {
    VmModel {
        storage_gb: match cmd.storage {
            Some(n) => Some(n),
            None => m.storage_gb,
        },
        overlay_gb: match cmd.overlay {
            Some(n) => Some(n),
            None => m.overlay_gb,
        },
        mounts: updated_mounts(removals, new_mounts, m),
        ports: updated_ports(cmd, m),
        cpus: match cmd.cpus {
            Some(n) => n,
            None => m.cpus,
        },
        mem: match cmd.mem {
            Some(n) => n,
            None => m.mem,
        },
        network: if cmd.no_net {
            false
        } else {
            m.network || cmd.net
        },
        allowed_cidrs: if cmd.no_net {
            None
        } else {
            m.allowed_cidrs
        },
        dns_filter_hosts: if cmd.no_net {
            None
        } else {
            m.dns_filter_hosts
        },
        env: env_changed(m.env, Seq::empty(), texts(cmd.remove_env@), texts(cmd.env@)).0,
        workdir: match cmd.workdir {
            Some(d) => Some(d@),
            None => m.workdir,
        },
        gpu: switched(m.gpu, cmd.gpu, cmd.no_gpu),
        rosetta: switched(m.rosetta, cmd.rosetta, cmd.no_rosetta),
        ..m
    }
}

proof fn lemma_volumes_any_changes(
    mounts: Seq<(Seq<char>, Seq<char>, bool)>,
    a: Seq<Seq<char>>,
    b: Seq<Seq<char>>,
    removals: Seq<VolumeRemoval>,
    new: Seq<(Seq<char>, Seq<char>, bool)>,
)
    ensures
        volumes_removed(mounts, a, removals).0 == volumes_removed(mounts, b, removals).0,
        forall|m: Seq<(Seq<char>, Seq<char>, bool)>, c: Seq<Seq<char>>, d: Seq<Seq<char>>| #![auto]
            volumes_added(m, c, new).0 == volumes_added(m, d, new).0,
        volumes_changed(mounts, a, removals, new).0 == volumes_changed(mounts, b, removals, new).0,
    decreases removals.len() + new.len(),
{
    if removals.len() > 0 {
        lemma_volumes_any_changes(mounts, a, b, removals.drop_last(), new);
    }
    assert forall|m: Seq<(Seq<char>, Seq<char>, bool)>, c: Seq<Seq<char>>, d: Seq<Seq<char>>| #![auto]
        volumes_added(m, c, new).0 == volumes_added(m, d, new).0 by {
        lemma_added_any_changes(m, c, d, new);
    }
}

proof fn lemma_added_any_changes(
    m: Seq<(Seq<char>, Seq<char>, bool)>,
    c: Seq<Seq<char>>,
    d: Seq<Seq<char>>,
    new: Seq<(Seq<char>, Seq<char>, bool)>,
)
    ensures
        volumes_added(m, c, new).0 == volumes_added(m, d, new).0,
    decreases new.len(),
{
    if new.len() > 0 {
        lemma_added_any_changes(m, c, d, new.drop_last());
    }
}

proof fn lemma_ports_removed_any(
    ports: Seq<(u16, u16)>,
    a: Seq<Seq<char>>,
    b: Seq<Seq<char>>,
    removals: Seq<(u16, u16)>,
)
    ensures
        ports_removed(ports, a, removals).0 == ports_removed(ports, b, removals).0,
    decreases removals.len(),
{
    if removals.len() > 0 {
        lemma_ports_removed_any(ports, a, b, removals.drop_last());
    }
}

proof fn lemma_ports_added_any(
    ports: Seq<(u16, u16)>,
    a: Seq<Seq<char>>,
    b: Seq<Seq<char>>,
    new: Seq<(u16, u16)>,
)
    ensures
        ports_added(ports, a, new).0 == ports_added(ports, b, new).0,
    decreases new.len(),
{
    if new.len() > 0 {
        lemma_ports_added_any(ports, a, b, new.drop_last());
    }
}

proof fn lemma_env_removed_any(
    env: Seq<(Seq<char>, Seq<char>)>,
    a: Seq<Seq<char>>,
    b: Seq<Seq<char>>,
    keys: Seq<Seq<char>>,
)
    ensures
        env_removed(env, a, keys).0 == env_removed(env, b, keys).0,
    decreases keys.len(),
{
    if keys.len() > 0 {
        lemma_env_removed_any(env, a, b, keys.drop_last());
    }
}

proof fn lemma_env_set_any(
    env: Seq<(Seq<char>, Seq<char>)>,
    a: Seq<Seq<char>>,
    b: Seq<Seq<char>>,
    specs: Seq<Seq<char>>,
)
    ensures
        env_set(env, a, specs).0 == env_set(env, b, specs).0,
    decreases specs.len(),
{
    if specs.len() > 0 {
        lemma_env_set_any(env, a, b, specs.drop_last());
    }
}

fn note(changes: &mut Vec<String>, applies: bool, text: &str)
    ensures
        texts(final(changes)@) == noted(texts(old(changes)@), applies, text@),
{
    if applies {
        push_change(changes, text.to_owned());
    }
}

fn note_size(changes: &mut Vec<String>, cmd: &UpdateCmd, record: &VmRecord)
    ensures
        texts(final(changes)@) == noted(
            noted(texts(old(changes)@), cmd.cpus is Some, cpus_text(record.cpus, cmd.cpus)),
            cmd.mem is Some,
            mem_text(record.mem, cmd.mem),
        ),
{
    match cmd.cpus {
        Some(n) => {
            let a = string_of(&decimal_chars(record.cpus as u128));
            let b = string_of(&decimal_chars(n as u128));
            push_change(changes, say4("  cpus: ", a.as_str(), " → ", b.as_str()));
        },
        None => {},
    }
    match cmd.mem {
        Some(n) => {
            let a = string_of(&decimal_chars(record.mem as u128));
            let b = string_of(&decimal_chars(n as u128));
            push_change(
                changes,
                say5("  memory: ", a.as_str(), " MiB → ", b.as_str(), " MiB"),
            );
        },
        None => {},
    }
}

fn update_layout(
    cmd: &UpdateCmd,
    removals: &[VolumeRemoval],
    new_mounts: &[(String, String, bool)],
    record: &mut VmRecord,
    changes: &mut Vec<String>,
)
    ensures
        final(record)@ == (VmModel {
            storage_gb: match cmd.storage {
                Some(n) => Some(n),
                None => old(record)@.storage_gb,
            },
            overlay_gb: match cmd.overlay {
                Some(n) => Some(n),
                None => old(record)@.overlay_gb,
            },
            mounts: updated_mounts(removals@, mounts_view(new_mounts@), old(record)@),
            ports: updated_ports(*cmd, old(record)@),
            ..old(record)@
        }),
        texts(final(changes)@) == ports_changed(
            old(record)@.ports,
            volumes_changed(
                old(record)@.mounts,
                texts(old(changes)@),
                removals@,
                mounts_view(new_mounts@),
            ).1,
            cmd.remove_port@,
            cmd.port@,
        ).1,
{
    let ghost m = record@;
    let ghost none = Seq::<Seq<char>>::empty();
    if cmd.storage.is_some() {
        record.storage_gb = cmd.storage;
    }
    if cmd.overlay.is_some() {
        record.overlay_gb = cmd.overlay;
    }
    proof {
        lemma_volumes_any_changes(
            m.mounts,
            texts(changes@),
            none,
            removals@,
            mounts_view(new_mounts@),
        );
    }
    change_volumes(&mut record.mounts, changes, removals, new_mounts);
    let ghost c = texts(changes@);
    proof {
        lemma_ports_removed_any(m.ports, c, none, cmd.remove_port@);
        let (p, c1) = ports_removed(m.ports, c, cmd.remove_port@);
        let (_, c2) = ports_removed(m.ports, none, cmd.remove_port@);
        lemma_ports_added_any(p, c1, c2, cmd.port@);
    }
    change_ports(&mut record.ports, changes, &cmd.remove_port, &cmd.port);
}

fn update_size(cmd: &UpdateCmd, record: &mut VmRecord, changes: &mut Vec<String>)
    ensures
        final(record)@ == (VmModel {
            cpus: match cmd.cpus {
                Some(n) => n,
                None => old(record)@.cpus,
            },
            mem: match cmd.mem {
                Some(n) => n,
                None => old(record)@.mem,
            },
            ..old(record)@
        }),
        texts(final(changes)@) == noted(
            noted(
                texts(old(changes)@),
                cmd.cpus is Some,
                cpus_text(old(record)@.cpus, cmd.cpus),
            ),
            cmd.mem is Some,
            mem_text(old(record)@.mem, cmd.mem),
        ),
{
    note_size(changes, cmd, record);
    match cmd.cpus {
        Some(n) => {
            record.cpus = n;
        },
        None => {},
    }
    match cmd.mem {
        Some(n) => {
            record.mem = n;
        },
        None => {},
    }
}

fn update_network(cmd: &UpdateCmd, record: &mut VmRecord, changes: &mut Vec<String>)
    ensures
        final(record)@ == (VmModel {
            network: if cmd.no_net {
                false
            } else {
                old(record)@.network || cmd.net
            },
            allowed_cidrs: if cmd.no_net {
                None
            } else {
                old(record)@.allowed_cidrs
            },
            dns_filter_hosts: if cmd.no_net {
                None
            } else {
                old(record)@.dns_filter_hosts
            },
            ..old(record)@
        }),
        texts(final(changes)@) == noted(
            noted(
                noted(
                    noted(texts(old(changes)@), cmd.net, "  network: enabled"@),
                    cmd.no_net,
                    "  network: disabled"@,
                ),
                cmd.no_net && old(record)@.allowed_cidrs is Some,
                "  cleared allow_cidrs"@,
            ),
            cmd.no_net && old(record)@.dns_filter_hosts is Some,
            "  cleared dns_filter_hosts"@,
        ),
{
    note(changes, cmd.net, "  network: enabled");
    if cmd.net {
        record.network = true;
    }
    note(changes, cmd.no_net, "  network: disabled");
    note(changes, cmd.no_net && record.allowed_cidrs.is_some(), "  cleared allow_cidrs");
    note(changes, cmd.no_net && record.dns_filter_hosts.is_some(), "  cleared dns_filter_hosts");
    if cmd.no_net {
        record.network = false;
        record.allowed_cidrs = None;
        record.dns_filter_hosts = None;
    }
}

fn update_session(cmd: &UpdateCmd, record: &mut VmRecord, changes: &mut Vec<String>)
    ensures
        final(record)@ == (VmModel {
            env: env_changed(
                old(record)@.env,
                Seq::empty(),
                texts(cmd.remove_env@),
                texts(cmd.env@),
            ).0,
            workdir: match cmd.workdir {
                Some(d) => Some(d@),
                None => old(record)@.workdir,
            },
            ..old(record)@
        }),
        texts(final(changes)@) == noted(
            env_changed(
                old(record)@.env,
                texts(old(changes)@),
                texts(cmd.remove_env@),
                texts(cmd.env@),
            ).1,
            cmd.workdir is Some,
            "  workdir: "@ + or_empty(opt_text(cmd.workdir)),
        ),
{
    let ghost m = record@;
    let ghost none = Seq::<Seq<char>>::empty();
    let ghost d = texts(changes@);
    proof {
        lemma_env_removed_any(m.env, d, none, texts(cmd.remove_env@));
        let (e, d1) = env_removed(m.env, d, texts(cmd.remove_env@));
        let (_, d2) = env_removed(m.env, none, texts(cmd.remove_env@));
        lemma_env_set_any(e, d1, d2, texts(cmd.env@));
    }
    change_env(&mut record.env, changes, &cmd.remove_env, &cmd.env);
    match &cmd.workdir {
        Some(dir) => {
            push_change(changes, say2("  workdir: ", dir.as_str()));
            record.workdir = Some(dir.clone());
        },
        None => {},
    }
}

fn update_switches(cmd: &UpdateCmd, record: &mut VmRecord, changes: &mut Vec<String>)
    ensures
        final(record)@ == (VmModel {
            gpu: switched(old(record)@.gpu, cmd.gpu, cmd.no_gpu),
            rosetta: switched(old(record)@.rosetta, cmd.rosetta, cmd.no_rosetta),
            ..old(record)@
        }),
        texts(final(changes)@) == noted(
            noted(
                noted(
                    noted(texts(old(changes)@), cmd.gpu, "  gpu: enabled"@),
                    cmd.no_gpu,
                    "  gpu: disabled"@,
                ),
                cmd.rosetta,
                "  rosetta: enabled"@,
            ),
            cmd.no_rosetta,
            "  rosetta: disabled"@,
        ),
{
    note(changes, cmd.gpu, "  gpu: enabled");
    if cmd.gpu {
        record.gpu = Some(true);
    }
    note(changes, cmd.no_gpu, "  gpu: disabled");
    if cmd.no_gpu {
        record.gpu = Some(false);
    }
    note(changes, cmd.rosetta, "  rosetta: enabled");
    if cmd.rosetta {
        record.rosetta = Some(true);
    }
    note(changes, cmd.no_rosetta, "  rosetta: disabled");
    if cmd.no_rosetta {
        record.rosetta = Some(false);
    }
}

/// Why an update is refused.
#[derive(Debug, PartialEq, Eq)]
pub enum UpdateError {
    /// The machine is in a state that does not allow it.
    State(RecordState),
    Config(ConfigError),
}

/// What settles whether an update is refused before its ports and volumes are looked
/// at: the machine is there, does not run, the proposed size is allowed, every
/// variable is one, and the new volumes could be read.
pub open spec fn update_precheck(
    cmd: UpdateCmd,
    record: Option<VmRecord>,
    state: RecordState,
    size: Result<(), ConfigError>,
    new_mounts: Result<Vec<(String, String, bool)>, ConfigError>,
    e: UpdateError,
) -> bool {
    if record is None {
        e matches UpdateError::Config(x) && x@ == (
            "update"@,
            "machine '"@ + cmd.name@ + "' not found"@,
        )
    } else if state != RecordState::Stopped && state != RecordState::Created {
        e == UpdateError::State(state)
    } else if size is Err {
        e matches UpdateError::Config(x) && x@ == size->Err_0@
    } else if first_bad_env(texts(cmd.env@)) is Some {
        e matches UpdateError::Config(x) && x@ == (
            "update"@,
            "invalid env format '"@ + first_bad_env(texts(cmd.env@))->Some_0
                + "': expected KEY=VALUE"@,
        )
    } else {
        &&& new_mounts is Err
        &&& e matches UpdateError::Config(x) && x@ == new_mounts->Err_0@
    }
}

/// An update can be looked at as a whole.
pub open spec fn update_readable(
    cmd: UpdateCmd,
    record: Option<VmRecord>,
    state: RecordState,
    size: Result<(), ConfigError>,
    new_mounts: Result<Vec<(String, String, bool)>, ConfigError>,
) -> bool {
    record is Some && (state == RecordState::Stopped || state == RecordState::Created) && size is Ok
        && first_bad_env(texts(cmd.env@)) is None && new_mounts is Ok
}

fn copy_error(e: &ConfigError) -> (r: ConfigError)
    ensures
        r@ == e@,
{
    ConfigError { what: e.what.clone(), reason: e.reason.clone() }
}

impl UpdateCmd {
    /// Refuses an update that cannot be made, the first reason first. `size` tells
    /// whether the proposed processors and memory are allowed, `new_mounts` are the
    /// volumes to add as they were read.
    pub fn check(
        &self,
        record: &Option<VmRecord>,
        state: RecordState,
        size: &Result<(), ConfigError>,
        new_mounts: &Result<Vec<(String, String, bool)>, ConfigError>,
        removals: &[VolumeRemoval],
    ) -> (r: Result<(), UpdateError>)
        ensures
            if !update_readable(*self, *record, state, *size, *new_mounts) {
                r is Err && update_precheck(
                    *self,
                    *record,
                    state,
                    *size,
                    *new_mounts,
                    r->Err_0,
                )
            } else {
                let ports = updated_ports(*self, record->Some_0@);
                let mounts = updated_mounts(
                    removals@,
                    mounts_view(new_mounts->Ok_0@),
                    record->Some_0@,
                );
                match r {
                    Ok(_) => distinct_ports(ports) && distinct_targets(mounts),
                    Err(e) => e is Config && clash(ports, mounts, e->Config_0@),
                }
            },
    {
        let record = match record {
            Some(r) => r,
            None => {
                return Err(UpdateError::Config(update_not_found(self.name.as_str())));
            },
        };
        if !updatable(state) {
            return Err(UpdateError::State(state));
        }
        match size {
            Ok(_) => {},
            Err(e) => {
                return Err(UpdateError::Config(copy_error(e)));
            },
        }
        match check_update_env(&self.env) {
            Ok(_) => {},
            Err(e) => {
                return Err(UpdateError::Config(e));
            },
        }
        match new_mounts {
            Ok(v) => match check_update(self, record, removals, v) {
                Ok(_) => Ok(()),
                Err(e) => Err(UpdateError::Config(e)),
            },
            Err(e) => Err(UpdateError::Config(copy_error(e))),
        }
    }

    /// Applies an update to a machine and tells of each change.
    pub fn run(
        &self,
        removals: &[VolumeRemoval],
        new_mounts: &[(String, String, bool)],
        record: &mut VmRecord,
        changes: &mut Vec<String>,
    )
        ensures
            final(record)@ == updated(*self, removals@, mounts_view(new_mounts@), old(record)@),
            texts(final(changes)@) == update_changes(
                *self,
                removals@,
                mounts_view(new_mounts@),
                old(record)@,
                texts(old(changes)@),
            ),
    {
        update_layout(self, removals, new_mounts, record, changes);
        update_size(self, record, changes);
        update_network(self, record, changes);
        update_session(self, record, changes);
        update_switches(self, record, changes);
    }
}

/// What a user is told of an update.
pub open spec fn update_notice_of(name: Seq<char>, changes: Seq<Seq<char>>) -> Seq<Seq<char>> {
    if changes.len() == 0 {
        seq!["No changes specified."@]
    } else {
        seq!["Updated machine '"@ + name + "':"@] + changes + seq![
            "\nStart with: smolvm machine start --name "@ + name,
        ]
    }
}

/// What a user is told of an update.
pub fn update_notice(name: &str, changes: &[String]) -> (r: Vec<String>)
    ensures
        texts(r@) == update_notice_of(name@, texts(changes@)),
{
    let mut out: Vec<String> = Vec::new();
    proof { assert(texts(out@) =~= Seq::empty()); }
    if changes.len() == 0 {
        push_change(&mut out, "No changes specified.".to_owned());
        proof { assert(texts(out@) =~= seq!["No changes specified."@]); }
        return out;
    }
    push_change(&mut out, say3("Updated machine '", name, "':"));
    proof { assert(texts(out@) =~= seq!["Updated machine '"@ + name@ + "':"@]); }
    extend_texts(&mut out, changes);
    let ghost before = texts(out@);
    push_change(&mut out, say2("\nStart with: smolvm machine start --name ", name));
    proof {
        assert(texts(out@) =~= before + seq!["\nStart with: smolvm machine start --name "@ + name@]);
    }
    out
}

/// What the checks promise holds of the machine afterwards: no host port is mapped
/// twice and no target is mounted twice.
pub proof fn law_update_keeps_ports_and_targets_distinct(
    cmd: UpdateCmd,
    removals: Seq<VolumeRemoval>,
    new_mounts: Seq<(Seq<char>, Seq<char>, bool)>,
    m: VmModel,
)
    requires
        distinct_ports(updated_ports(cmd, m)),
        distinct_targets(updated_mounts(removals, new_mounts, m)),
    ensures
        distinct_ports(updated(cmd, removals, new_mounts, m).ports),
        distinct_targets(updated(cmd, removals, new_mounts, m).mounts),
{
}

/// Ports or volumes that clash are always refused: there is a first one that does.
pub proof fn law_clashes_are_told(
    ports: Seq<(u16, u16)>,
    mounts: Seq<(Seq<char>, Seq<char>, bool)>,
    e: (Seq<char>, Seq<char>),
)
    requires
        clash(ports, mounts, e),
    ensures
        !(distinct_ports(ports) && distinct_targets(mounts)),
{
    if distinct_ports(ports) {
        let j = choose|j: int| #[trigger]
            first_double_target(mounts, j) && e == (
                "update"@,
                "duplicate mount target: "@ + mounts[j].1 + " is specified more than once"@,
            );
        let i = choose|i: int| 0 <= i < j && (#[trigger] mounts[i]).1 == mounts[j].1;
        assert(mounts[i].1 == mounts[j].1);
    }
}

/// A machine whose network is switched off has no way out left that would switch it
/// on again.
pub proof fn law_no_network_leaves_no_egress(
    cmd: UpdateCmd,
    removals: Seq<VolumeRemoval>,
    new_mounts: Seq<(Seq<char>, Seq<char>, bool)>,
    m: VmModel,
)
    requires
        cmd.no_net,
    ensures
        ({
            let u = updated(cmd, removals, new_mounts, m);
            !u.network && u.allowed_cidrs is None && u.dns_filter_hosts is None
        }),
{
}

/// Setting a variable removes every earlier value of it.
pub proof fn law_variable_is_set_once(
    env: Seq<(Seq<char>, Seq<char>)>,
    changes: Seq<Seq<char>>,
    specs: Seq<Seq<char>>,
)
    requires
        specs.len() > 0,
        split_first(specs.last(), '=') is Some,
    ensures
        ({
            let (k, v) = split_first(specs.last(), '=')->Some_0;
            let e = env_set(env, changes, specs).0;
            &&& e.len() > 0
            &&& e.last() == (k, v)
            &&& forall|i: int| 0 <= i < e.len() - 1 ==> (#[trigger] e[i]).0 != k
        }),
{
    let (k, v) = split_first(specs.last(), '=')->Some_0;
    let front = env_set(env, changes, specs.drop_last()).0;
    lemma_env_without(front, k);
}

proof fn lemma_env_without(env: Seq<(Seq<char>, Seq<char>)>, key: Seq<char>)
    ensures
        forall|i: int|
            0 <= i < env_without(env, key).len() ==> (#[trigger] env_without(env, key)[i]).0 != key,
    decreases env.len(),
{
    if env.len() > 0 {
        let front = env_without(env.drop_last(), key);
        lemma_env_without(env.drop_last(), key);
        let all = env_without(env, key);
        assert forall|i: int| 0 <= i < all.len() implies (#[trigger] all[i]).0 != key by {
            if i < front.len() {
                assert(all[i] == front[i]);
            }
        }
    }
}

} // verus!
