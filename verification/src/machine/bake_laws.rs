//! What baking and evicting layers comes to.
use crate::machine::bake::{
    Bake, BakeStep, bake_command_of, bake_create_of, dotted, failure_tail, flag_each, flag_with,
    or_none, told_lines,
};
use crate::machine::flags::starts;
use crate::machine::layers::{LayerModel, evicted, layer_file, layers_total, size_at, stale_bakes};
use crate::machine::params::ParamsModel;
use crate::numerals::{decimal, sat_sub};
use crate::split::{lines, trim};
use vstd::prelude::*;

verus! {

// ---------------------------------------------------------------------------
// Arguments
// ---------------------------------------------------------------------------

/// The arguments hold this flag with this value behind it.
pub open spec fn has_flag(args: Seq<Seq<char>>, flag: Seq<char>, value: Seq<char>) -> bool {
    exists|i: int| 0 <= i < args.len() - 1 && #[trigger] args[i] == flag && args[i + 1] == value
}

/// The flag stands at `i`, and the value behind it.
pub open spec fn flag_at(
    args: Seq<Seq<char>>,
    i: int,
    flag: Seq<char>,
    value: Seq<char>,
) -> bool {
    args[i] == flag && args[i + 1] == value
}

/// A flag for each value: the flag and the value in turn, in the order of the values.
pub proof fn law_flag_for_each(flag: Seq<char>, values: Seq<Seq<char>>)
    ensures
        flag_each(flag, values).len() == 2 * values.len(),
        forall|i: int|
            0 <= i < values.len() ==> flag_at(
                flag_each(flag, values),
                2 * i,
                flag,
                #[trigger] values[i],
            ),
    decreases values.len(),
{
    if values.len() > 0 {
        let front = values.drop_last();
        law_flag_for_each(flag, front);
        let all = flag_each(flag, values);
        let before = flag_each(flag, front);
        assert(all == before.push(flag).push(values.last()));
        assert forall|i: int| 0 <= i < values.len() implies flag_at(
            all,
            2 * i,
            flag,
            #[trigger] values[i],
        ) by {
            if i < front.len() {
                assert(front[i] == values[i]);
                assert(flag_at(before, 2 * i, flag, front[i]));
            }
        }
    }
}

/// Flags stay when more arguments follow, or come before.
proof fn lemma_flags_stay(a: Seq<Seq<char>>, b: Seq<Seq<char>>)
    ensures
        forall|f: Seq<char>, v: Seq<char>|
            has_flag(a, f, v) || has_flag(b, f, v) ==> #[trigger] has_flag(a + b, f, v),
        forall|x: Seq<char>|
            a.contains(x) || b.contains(x) ==> #[trigger] (a + b).contains(x),
{
    let s = a + b;
    assert forall|f: Seq<char>, v: Seq<char>|
        has_flag(a, f, v) || has_flag(b, f, v) implies #[trigger] has_flag(s, f, v) by {
        if has_flag(a, f, v) {
            let i = choose|i: int| 0 <= i < a.len() - 1 && #[trigger] a[i] == f && a[i + 1] == v;
            assert(s[i] == f && s[i + 1] == v);
        } else {
            let i = choose|i: int| 0 <= i < b.len() - 1 && #[trigger] b[i] == f && b[i + 1] == v;
            let j = a.len() + i;
            assert(s[j] == f && s[j + 1] == v);
        }
    }
    assert forall|x: Seq<char>| a.contains(x) || b.contains(x) implies #[trigger] s.contains(
        x,
    ) by {
        if a.contains(x) {
            let i = choose|i: int| 0 <= i < a.len() && a[i] == x;
            assert(s[i] == x);
        } else {
            let i = choose|i: int| 0 <= i < b.len() && b[i] == x;
            assert(s[a.len() + i] == x);
        }
    }
}

proof fn lemma_flag_with(flag: Seq<char>, value: Seq<char>)
    ensures
        has_flag(flag_with(flag, Some(value)), flag, value),
{
    let v = flag_with(flag, Some(value));
    assert(v[0] == flag && v[1] == value);
}

proof fn lemma_flag_each(flag: Seq<char>, values: Seq<Seq<char>>, value: Seq<char>)
    requires
        values.contains(value),
    ensures
        has_flag(flag_each(flag, values), flag, value),
{
    law_flag_for_each(flag, values);
    let i = choose|i: int| 0 <= i < values.len() && values[i] == value;
    let v = flag_each(flag, values);
    assert(flag_at(v, 2 * i, flag, values[i]));
}

/// What bakes a layer is told all that the layer depends on: the machine, the file, the
/// image, each variable, the network, the resolver, each range and each host.
pub proof fn law_bake_is_told_its_inputs(
    machine: Seq<char>,
    smolfile: Option<Seq<char>>,
    p: ParamsModel,
    x: Seq<char>,
)
    ensures
        ({
            let args = bake_create_of(machine, smolfile, p);
            &&& args.len() >= 6
            &&& args[0] == "machine"@ && args[1] == "create"@ && args[2] == "--name"@ && args[3]
                == machine
            &&& args[args.len() - 2] == "--"@ && args[args.len() - 1] == "/bin/true"@
            &&& smolfile is Some ==> has_flag(args, "--smolfile"@, smolfile->Some_0)
            &&& p.image is Some ==> has_flag(args, "--image"@, p.image->Some_0)
            &&& p.env.contains(x) ==> has_flag(args, "-e"@, x)
            &&& p.net ==> args.contains("--net"@)
            &&& p.dns is Some ==> has_flag(args, "--dns"@, dotted(p.dns->Some_0))
            &&& p.allowed_cidrs is Some && p.allowed_cidrs->Some_0.contains(x) ==> has_flag(
                args,
                "--allow-cidr"@,
                x,
            )
            &&& p.dns_filter_hosts is Some && p.dns_filter_hosts->Some_0.contains(x) ==> has_flag(
                args,
                "--allow-host"@,
                x,
            )
        }),
{
    let a0 = seq!["machine"@, "create"@, "--name"@, machine];
    let a1 = flag_with("--smolfile"@, smolfile);
    let a2 = flag_with("--image"@, p.image);
    let a3 = flag_each("-e"@, p.env);
    let a4 = if p.net {
        seq!["--net"@]
    } else {
        Seq::empty()
    };
    let ip = match p.dns {
        Some(ip) => Some(dotted(ip)),
        None => None,
    };
    let a5 = flag_with("--dns"@, ip);
    let a6 = flag_each("--allow-cidr"@, or_none(p.allowed_cidrs));
    let a7 = flag_each("--allow-host"@, or_none(p.dns_filter_hosts));
    let a8 = seq!["--"@, "/bin/true"@];
    let args = bake_create_of(machine, smolfile, p);
    assert(args == a0 + a1 + a2 + a3 + a4 + a5 + a6 + a7 + a8);
    let s1 = a0 + a1;
    let s2 = s1 + a2;
    let s3 = s2 + a3;
    let s4 = s3 + a4;
    let s5 = s4 + a5;
    let s6 = s5 + a6;
    let s7 = s6 + a7;
    lemma_flags_stay(a0, a1);
    lemma_flags_stay(s1, a2);
    lemma_flags_stay(s2, a3);
    lemma_flags_stay(s3, a4);
    lemma_flags_stay(s4, a5);
    lemma_flags_stay(s5, a6);
    lemma_flags_stay(s6, a7);
    lemma_flags_stay(s7, a8);
    lemma_ends(a0, a1, a2, a3, a4, a5, a6, a7, a8);
    if smolfile is Some {
        lemma_flag_with("--smolfile"@, smolfile->Some_0);
    }
    if p.image is Some {
        lemma_flag_with("--image"@, p.image->Some_0);
    }
    if p.env.contains(x) {
        lemma_flag_each("-e"@, p.env, x);
    }
    if p.net {
        assert(a4[0] == "--net"@);
    }
    if p.dns is Some {
        lemma_flag_with("--dns"@, dotted(p.dns->Some_0));
    }
    if p.allowed_cidrs is Some && p.allowed_cidrs->Some_0.contains(x) {
        lemma_flag_each("--allow-cidr"@, p.allowed_cidrs->Some_0, x);
    }
    if p.dns_filter_hosts is Some && p.dns_filter_hosts->Some_0.contains(x) {
        lemma_flag_each("--allow-host"@, p.dns_filter_hosts->Some_0, x);
    }
}

proof fn lemma_ends(
    a0: Seq<Seq<char>>,
    a1: Seq<Seq<char>>,
    a2: Seq<Seq<char>>,
    a3: Seq<Seq<char>>,
    a4: Seq<Seq<char>>,
    a5: Seq<Seq<char>>,
    a6: Seq<Seq<char>>,
    a7: Seq<Seq<char>>,
    a8: Seq<Seq<char>>,
)
    requires
        a0.len() == 4,
        a8.len() == 2,
    ensures
        ({
            let s = a0 + a1 + a2 + a3 + a4 + a5 + a6 + a7 + a8;
            &&& s.len() >= 6
            &&& s[0] == a0[0] && s[1] == a0[1] && s[2] == a0[2] && s[3] == a0[3]
            &&& s[s.len() - 2] == a8[0] && s[s.len() - 1] == a8[1]
        }),
{
}

/// An address is written as its four bytes, the highest first.
pub proof fn law_dotted_address(a: u8, b: u8, c: u8, d: u8)
    ensures
        dotted((a as u32 * 0x100_0000 + b as u32 * 0x1_0000 + c as u32 * 0x100 + d as u32) as u32)
            == decimal(a as nat) + "."@ + decimal(b as nat) + "."@ + decimal(c as nat) + "."@
            + decimal(d as nat),
{
    let ip = (a as u32 * 0x100_0000 + b as u32 * 0x1_0000 + c as u32 * 0x100 + d as u32) as u32;
    assert(ip == a * 0x100_0000 + b * 0x1_0000 + c * 0x100 + d);
    assert(ip / 0x100_0000 == a);
    assert(ip / 0x1_0000 == a * 256 + b);
    assert(ip / 0x100 == a * 0x1_0000 + b * 256 + c);
    assert(ip / 0x1_0000 % 256 == b);
    assert(ip / 0x100 % 256 == c);
    assert(ip % 256 == d);
}

/// Each step of a bake that is a command names the machine that bakes.
pub proof fn law_bake_commands_name_their_machine(
    step: BakeStep,
    create: Seq<Seq<char>>,
    machine: Seq<char>,
    out: Seq<char>,
)
    ensures
        ({
            let args = bake_command_of(step, create, machine, out);
            &&& step == BakeStep::Create ==> args == create
            &&& step == BakeStep::Start || step == BakeStep::Stop || step == BakeStep::Delete
                ==> args.len() >= 4 && args[0] == "machine"@ && has_flag(
                args,
                "--name"@,
                machine,
            )
            &&& step == BakeStep::Start ==> args.len() == 4 && args[1] == "start"@
            &&& step == BakeStep::Stop ==> args.len() == 4 && args[1] == "stop"@
            &&& step == BakeStep::Delete ==> args.len() == 5 && args[1] == "delete"@ && args[4]
                == "-f"@
            &&& step == BakeStep::Pack ==> args.len() == 6 && args[0] == "pack"@ && args[1]
                == "create"@ && has_flag(args, "--from-vm"@, machine) && has_flag(args, "-o"@, out)
            &&& step == BakeStep::Check || step == BakeStep::Publish || step == BakeStep::Abandon
                ==> args.len() == 0
        }),
{
    let args = bake_command_of(step, create, machine, out);
    match step {
        BakeStep::Start | BakeStep::Stop | BakeStep::Delete => {
            assert(args[2] == "--name"@ && args[3] == machine);
        },
        BakeStep::Pack => {
            assert(args[2] == "--from-vm"@ && args[3] == machine);
            assert(args[4] == "-o"@ && args[5] == out);
        },
        _ => {},
    }
}

/// A bake whose steps all work creates, starts, stops, packs and checks its machine,
/// deletes it and publishes the layer; where one does not, the machine is deleted next and
/// the layer abandoned.
pub proof fn law_steps_of_a_bake(step: BakeStep, failed: bool)
    ensures
        ({
            let next = |s: BakeStep, f: bool, ok: bool| (Bake { step: s, failed: f }).after(ok);
            &&& next(BakeStep::Create, false, true) == Some(
                Bake { step: BakeStep::Start, failed: false },
            )
            &&& next(BakeStep::Start, false, true) == Some(
                Bake { step: BakeStep::Stop, failed: false },
            )
            &&& next(BakeStep::Stop, false, true) == Some(
                Bake { step: BakeStep::Pack, failed: false },
            )
            &&& next(BakeStep::Pack, false, true) == Some(
                Bake { step: BakeStep::Check, failed: false },
            )
            &&& next(BakeStep::Check, false, true) == Some(
                Bake { step: BakeStep::Delete, failed: false },
            )
            &&& step != BakeStep::Delete && step != BakeStep::Publish && step != BakeStep::Abandon
                ==> next(step, failed, false) == Some(
                Bake { step: BakeStep::Delete, failed: true },
            )
            &&& forall|ok: bool| #[trigger]
                next(BakeStep::Delete, failed, ok) == Some(
                    Bake {
                        step: if failed {
                            BakeStep::Abandon
                        } else {
                            BakeStep::Publish
                        },
                        failed,
                    },
                )
            &&& forall|ok: bool|
                (#[trigger] next(BakeStep::Publish, failed, ok)) is None && next(
                    BakeStep::Abandon,
                    failed,
                    ok,
                ) is None
        }),
{
}

// ---------------------------------------------------------------------------
// Failures
// ---------------------------------------------------------------------------

proof fn lemma_told_lines(all: Seq<Seq<char>>)
    ensures
        told_lines(all) == all.filter(|l: Seq<char>| trim(l).len() > 0),
    decreases all.len(),
{
    reveal(Seq::filter);
    if all.len() > 0 {
        lemma_told_lines(all.drop_last());
    }
}

/// A failed step is reported with the last twelve lines of what it said, blank ones left
/// out.
pub proof fn law_failure_tells_the_last_lines(stderr: Seq<char>)
    ensures
        ({
            let told = lines(stderr).filter(|l: Seq<char>| trim(l).len() > 0);
            let tail = failure_tail(stderr);
            &&& told.len() <= 12 ==> tail == told
            &&& told.len() > 12 ==> tail.len() == 12 && forall|i: int|
                0 <= i < 12 ==> #[trigger] tail[i] == told[told.len() - 12 + i]
        }),
{
    lemma_told_lines(lines(stderr));
}

// ---------------------------------------------------------------------------
// Layers
// ---------------------------------------------------------------------------

/// Just the machines that bake and are old enough are removed, in their order.
pub proof fn law_every_stale_bake_is_removed(vms: Seq<(String, u64)>, now: u64, stale_after: u64)
    ensures
        stale_bakes(vms, now, stale_after) == vms.filter(
            |v: (String, u64)|
                bakes(v.0@) && (now >= v.1 && now - v.1 >= stale_after || stale_after == 0),
        ).map_values(|v: (String, u64)| v.0@),
    decreases vms.len(),
{
    reveal(Seq::filter);
    let stale = |v: (String, u64)|
        bakes(v.0@) && (now >= v.1 && now - v.1 >= stale_after || stale_after == 0);
    let name = |v: (String, u64)| v.0@;
    let after = stale_bakes(vms, now, stale_after);
    if vms.len() > 0 {
        let front = vms.drop_last();
        law_every_stale_bake_is_removed(front, now, stale_after);
        lemma_bakes(vms.last().0@);
        let kept = front.filter(stale);
        if stale(vms.last()) {
            assert(kept.push(vms.last()).map_values(name) =~= kept.map_values(name).push(
                vms.last().0@,
            ));
        }
    } else {
        assert(after =~= vms.filter(stale).map_values(name));
    }
}

/// The name of a machine that bakes a layer.
pub open spec fn bakes(name: Seq<char>) -> bool {
    exists|rest: Seq<char>| name == #[trigger] ("init-bake-"@ + rest)
}

proof fn lemma_bakes(name: Seq<char>)
    ensures
        bakes(name) == starts(name, "init-bake-"@),
{
    let prefix = "init-bake-"@;
    if starts(name, prefix) {
        let rest = name.skip(prefix.len() as int);
        assert(name =~= prefix + rest);
    }
    if bakes(name) {
        let rest = choose|rest: Seq<char>| name == #[trigger] (prefix + rest);
        assert(name.take(prefix.len() as int) =~= prefix);
    }
}

/// A file is a layer if a key stands before its ending.
pub proof fn law_layer_files(name: Seq<char>, key: Seq<char>)
    ensures
        key.len() > 0 ==> layer_file(key + ".smolmachine"@),
        layer_file(name) ==> exists|k: Seq<char>|
            k.len() > 0 && name == #[trigger] (k + ".smolmachine"@),
        !layer_file(".smolmachine"@),
{
    let end = ".smolmachine"@;
    let file = key + end;
    assert(file.skip(file.len() - end.len()) =~= end);
    if layer_file(name) {
        let k = name.take(name.len() - end.len());
        assert(name =~= k + end);
    }
}

/// The sizes of layers add up, whatever their order.
pub proof fn law_sizes_add_up(a: Seq<LayerModel>, b: Seq<LayerModel>, x: LayerModel)
    ensures
        layers_total(a + b) == layers_total(a) + layers_total(b),
        layers_total(seq![x]) == x.size,
        layers_total(Seq::empty()) == 0,
    decreases b.len(),
{
    assert(seq![x].drop_last() =~= Seq::empty());
    assert(layers_total(seq![x].drop_last()) == 0);
    if b.len() == 0 {
        assert(a + b =~= a);
    } else {
        law_sizes_add_up(a, b.drop_last(), x);
        assert((a + b).drop_last() =~= a + b.drop_last());
    }
}

/// No more layers are evicted than needed: without the last of them the cache would still
/// be over its size. Nothing is evicted from one that is not.
pub proof fn law_eviction_stops_when_it_fits(
    order: Seq<LayerModel>,
    keep: Seq<char>,
    at: int,
    over: nat,
)
    requires
        0 <= at,
    ensures
        over == 0 ==> evicted(order, keep, at, over).len() == 0,
        evicted(order, keep, at, over).len() > 0 ==> size_at(
            order,
            evicted(order, keep, at, over).drop_last(),
        ) < over,
    decreases order.len() - at,
{
    let gone = evicted(order, keep, at, over);
    if gone.len() > 0 {
        if order[at].path == keep {
            law_eviction_stops_when_it_fits(order, keep, at + 1, over);
        } else {
            let left = sat_sub(over as int, order[at].size as int) as nat;
            let rest = evicted(order, keep, at + 1, left);
            law_eviction_stops_when_it_fits(order, keep, at + 1, left);
            if rest.len() > 0 {
                assert(gone.drop_last() =~= seq![at] + rest.drop_last());
                assert((seq![at] + rest.drop_last()).skip(1) =~= rest.drop_last());
            } else {
                assert(gone.drop_last() =~= Seq::empty());
            }
        }
    }
}

} // verus!
