//! Making a cached layer with a machine of its own.
use crate::copying::{copy_texts, opt_str, opt_text, texts};
use crate::machine::errors::{ConfigError, config_error};
use crate::machine::params::{CreateVmParams, ParamsModel};
use crate::numerals::{decimal, decimal_chars};
use crate::phrase::{join_texts, join_with, lemma_texts_push};
use crate::split::{lines, pieces, split_lines, trim, trim_chars};
use crate::text::{chars_of, say2, say3, say5, string_of};
use vstd::prelude::*;

verus! {

/// What to do for a layer.
#[derive(Debug, Clone, Copy, PartialEq, Eq, Structural)]
pub enum LayerStep {
    /// Use the one in the cache, and mark it as used.
    UseCached,
    /// Make it.
    Bake,
}

/// What to do for a layer: one in the cache is used unless it is to be made anew; the
/// steps of a new one come from a configuration file.
pub fn layer_step(cached: bool, rebuild: bool, init_steps: usize, has_smolfile: bool) -> (r: Result<
    LayerStep,
    ConfigError,
>)
    ensures
        match r {
            Ok(LayerStep::UseCached) => cached && !rebuild,
            Ok(LayerStep::Bake) => !(cached && !rebuild) && (init_steps == 0 || has_smolfile),
            Err(e) => !(cached && !rebuild) && init_steps > 0 && !has_smolfile && e@ == (
                "init-layer cache"@,
                "init caching requires a --smolfile (the init source); pass --no-init-cache otherwise"@,
            ),
        },
{
    if cached && !rebuild {
        return Ok(LayerStep::UseCached);
    }
    if init_steps > 0 && !has_smolfile {
        return Err(
            config_error(
                "init-layer cache",
                "init caching requires a --smolfile (the init source); pass --no-init-cache otherwise".to_owned(),
            ),
        );
    }
    Ok(LayerStep::Bake)
}

/// What a user is told of a layer.
pub open spec fn layer_notice_of(step: LayerStep, key: Seq<char>, init_steps: nat) -> Seq<char> {
    match step {
        LayerStep::UseCached => if init_steps == 0 {
            "Using cached image "@ + key + " (host cache hit; no pull)"@
        } else {
            "Using cached init layer "@ + key
        },
        LayerStep::Bake => if init_steps == 0 {
            "Caching image "@ + key + " (one-time; reused on later runs)"@
        } else {
            "Baking init layer (one-time; reused on later runs) ["@ + key + ", "@ + decimal(
                init_steps,
            ) + " init step(s)]"@
        },
    }
}

/// What a user is told of a layer.
pub fn layer_notice(step: LayerStep, key: &str, init_steps: usize) -> (r: String)
    ensures
        r@ == layer_notice_of(step, key@, init_steps as nat),
{
    match step {
        LayerStep::UseCached => if init_steps == 0 {
            say3("Using cached image ", key, " (host cache hit; no pull)")
        } else {
            say2("Using cached init layer ", key)
        },
        LayerStep::Bake => if init_steps == 0 {
            say3("Caching image ", key, " (one-time; reused on later runs)")
        } else {
            let count = string_of(&decimal_chars(init_steps as u128));
            say5(
                "Baking init layer (one-time; reused on later runs) [",
                key,
                ", ",
                count.as_str(),
                " init step(s)]",
            )
        },
    }
}

/// A flag and its value, if there is one.
pub open spec fn flag_with(flag: Seq<char>, value: Option<Seq<char>>) -> Seq<Seq<char>> {
    match value {
        Some(v) => seq![flag, v],
        None => Seq::empty(),
    }
}

/// A flag before each value.
pub open spec fn flag_each(flag: Seq<char>, values: Seq<Seq<char>>) -> Seq<Seq<char>>
    decreases values.len(),
{
    if values.len() == 0 {
        Seq::empty()
    } else {
        flag_each(flag, values.drop_last()).push(flag).push(values.last())
    }
}

/// The values of an optional list.
pub open spec fn or_none(o: Option<Seq<Seq<char>>>) -> Seq<Seq<char>> {
    match o {
        Some(v) => v,
        None => Seq::empty(),
    }
}

/// An address as text.
pub open spec fn dotted(ip: u32) -> Seq<char> {
    decimal((ip / 0x100_0000) as nat) + "."@ + decimal((ip / 0x1_0000 % 256) as nat) + "."@
        + decimal((ip / 0x100 % 256) as nat) + "."@ + decimal((ip % 256) as nat)
}

/// An address as text.
pub fn dotted_text(ip: u32) -> (r: String)
    ensures
        r@ == dotted(ip),
{
    let a = string_of(&decimal_chars((ip / 0x100_0000) as u128));
    let b = string_of(&decimal_chars((ip / 0x1_0000 % 256) as u128));
    let c = string_of(&decimal_chars((ip / 0x100 % 256) as u128));
    let d = string_of(&decimal_chars((ip % 256) as u128));
    let mut r = say5(a.as_str(), ".", b.as_str(), ".", c.as_str());
    r.append(".");
    r.append(d.as_str());
    r
}

/// The command that creates the machine for a layer: with the steps of the
/// configuration file and the resolved image, variables and network, and a workload
/// that does nothing.
pub open spec fn bake_create_of(
    machine: Seq<char>,
    smolfile: Option<Seq<char>>,
    p: ParamsModel,
) -> Seq<Seq<char>> {
    seq!["machine"@, "create"@, "--name"@, machine] + flag_with("--smolfile"@, smolfile)
        + flag_with("--image"@, p.image) + flag_each("-e"@, p.env) + (if p.net {
        seq!["--net"@]
    } else {
        Seq::empty()
    }) + flag_with(
        "--dns"@,
        match p.dns {
            Some(ip) => Some(dotted(ip)),
            None => None,
        },
    ) + flag_each("--allow-cidr"@, or_none(p.allowed_cidrs)) + flag_each(
        "--allow-host"@,
        or_none(p.dns_filter_hosts),
    ) + seq!["--"@, "/bin/true"@]
}

fn push_word(out: &mut Vec<String>, s: &str)
    ensures
        texts(final(out)@) == texts(old(out)@).push(s@),
{
    let ghost before = out@;
    let word = s.to_owned();
    out.push(word);
    proof { lemma_texts_push(before, word); }
}

fn push_flag(out: &mut Vec<String>, flag: &str, value: Option<&str>)
    ensures
        texts(final(out)@) == texts(old(out)@) + flag_with(flag@, opt_str(value)),
{
    let ghost before = texts(out@);
    match value {
        Some(v) => {
            push_word(out, flag);
            push_word(out, v);
            proof { assert(before.push(flag@).push(v@) =~= before + seq![flag@, v@]); }
        },
        None => {
            proof { assert(before =~= before + Seq::<Seq<char>>::empty()); }
        },
    }
}

fn push_each(out: &mut Vec<String>, flag: &str, values: &[String])
    ensures
        texts(final(out)@) == texts(old(out)@) + flag_each(flag@, texts(values@)),
{
    let ghost before = texts(out@);
    let ghost all = texts(values@);
    let mut i: usize = 0;
    proof {
        assert(all.take(0) =~= Seq::empty());
        assert(before =~= before + Seq::<Seq<char>>::empty());
    }
    while i < values.len()
        invariant
            i <= values@.len(),
            all == texts(values@),
            before == texts(old(out)@),
            texts(out@) == before + flag_each(flag@, all.take(i as int)),
        decreases values@.len() - i,
    {
        proof {
            assert(all.take(i + 1).drop_last() =~= all.take(i as int));
            assert(all.take(i + 1).last() == values@[i as int]@);
        }
        push_word(out, flag);
        push_word(out, values[i].as_str());
        proof {
            assert(texts(out@) =~= before + flag_each(flag@, all.take(i + 1)));
        }
        i = i + 1;
    }
    proof { assert(all.take(values@.len() as int) =~= all); }
}

fn opt_ref(o: &Option<String>) -> (r: Option<&str>)
    ensures
        opt_str(r) == opt_text(*o),
{
    match o {
        Some(s) => Some(s.as_str()),
        None => None,
    }
}

/// The command that creates the machine for a layer.
pub fn bake_create_args(machine: &str, smolfile: Option<&str>, p: &CreateVmParams) -> (r: Vec<String>)
    ensures
        texts(r@) == bake_create_of(machine@, opt_str(smolfile), p@),
{
    let mut out: Vec<String> = Vec::new();
    proof { assert(texts(out@) =~= Seq::empty()); }
    push_word(&mut out, "machine");
    push_word(&mut out, "create");
    push_word(&mut out, "--name");
    push_word(&mut out, machine);
    proof { assert(texts(out@) =~= seq!["machine"@, "create"@, "--name"@, machine@]); }
    push_flag(&mut out, "--smolfile", smolfile);
    push_flag(&mut out, "--image", opt_ref(&p.image));
    push_each(&mut out, "-e", &p.env);
    let ghost before = texts(out@);
    if p.net {
        push_word(&mut out, "--net");
        proof { assert(texts(out@) =~= before + seq!["--net"@]); }
    } else {
        proof { assert(before =~= before + Seq::<Seq<char>>::empty()); }
    }
    let dns = match p.dns {
        Some(ip) => Some(dotted_text(ip)),
        None => None,
    };
    push_flag(&mut out, "--dns", opt_ref(&dns));
    let ghost mid = texts(out@);
    match &p.allowed_cidrs {
        Some(v) => push_each(&mut out, "--allow-cidr", v),
        None => {
            proof { assert(mid =~= mid + Seq::<Seq<char>>::empty()); }
        },
    }
    let ghost late = texts(out@);
    match &p.dns_filter_hosts {
        Some(v) => push_each(&mut out, "--allow-host", v),
        None => {
            proof { assert(late =~= late + Seq::<Seq<char>>::empty()); }
        },
    }
    let ghost last = texts(out@);
    push_word(&mut out, "--");
    push_word(&mut out, "/bin/true");
    proof { assert(texts(out@) =~= last + seq!["--"@, "/bin/true"@]); }
    out
}

/// The steps that make a layer of a machine, after its creation.
#[derive(Debug, Clone, Copy, PartialEq, Eq, Structural)]
pub enum BakeStep {
    Create,
    Start,
    Stop,
    Pack,
    /// Check that the layer is there.
    Check,
    /// Remove the machine, whatever came before.
    Delete,
    /// Move the layer to its place, then clear the staging area.
    Publish,
    /// Clear the staging area and report the failure.
    Abandon,
}

/// Which step follows. The machine is removed after the last step that worked or the
/// first that failed, and only a layer of which every step worked is published.
pub open spec fn bake_next(step: BakeStep, ok: bool, failed_before: bool) -> Option<BakeStep> {
    match step {
        BakeStep::Create => Some(if ok {
            BakeStep::Start
        } else {
            BakeStep::Delete
        }),
        BakeStep::Start => Some(if ok {
            BakeStep::Stop
        } else {
            BakeStep::Delete
        }),
        BakeStep::Stop => Some(if ok {
            BakeStep::Pack
        } else {
            BakeStep::Delete
        }),
        BakeStep::Pack => Some(if ok {
            BakeStep::Check
        } else {
            BakeStep::Delete
        }),
        BakeStep::Check => Some(BakeStep::Delete),
        BakeStep::Delete => Some(if failed_before {
            BakeStep::Abandon
        } else {
            BakeStep::Publish
        }),
        BakeStep::Publish | BakeStep::Abandon => None,
    }
}

/// Making a layer while it goes on.
#[derive(Debug, Clone, Copy, PartialEq, Eq, Structural)]
pub struct Bake {
    pub step: BakeStep,
    /// A step before the removal of the machine failed.
    pub failed: bool,
}

impl Bake {
    /// The first step.
    pub fn start() -> (r: Self)
        ensures
            r == (Bake { step: BakeStep::Create, failed: false }),
    {
        Bake { step: BakeStep::Create, failed: false }
    }

    /// Whether a step that failed spoils the layer: all but the removal of the machine.
    pub open spec fn after(self, ok: bool) -> Option<Bake> {
        let failed = self.failed || (!ok && self.step != BakeStep::Delete);
        match bake_next(self.step, ok, failed) {
            Some(step) => Some(Bake { step, failed }),
            None => None,
        }
    }

    /// The step after one that did or did not work; none after the last.
    pub fn advance(self, ok: bool) -> (r: Option<Bake>)
        ensures
            r == self.after(ok),
    {
        let failed = self.failed || (!ok && self.step != BakeStep::Delete);
        let step = match self.step {
            BakeStep::Create => if ok {
                BakeStep::Start
            } else {
                BakeStep::Delete
            },
            BakeStep::Start => if ok {
                BakeStep::Stop
            } else {
                BakeStep::Delete
            },
            BakeStep::Stop => if ok {
                BakeStep::Pack
            } else {
                BakeStep::Delete
            },
            BakeStep::Pack => if ok {
                BakeStep::Check
            } else {
                BakeStep::Delete
            },
            BakeStep::Check => BakeStep::Delete,
            BakeStep::Delete => if failed {
                BakeStep::Abandon
            } else {
                BakeStep::Publish
            },
            BakeStep::Publish | BakeStep::Abandon => {
                return None;
            },
        };
        Some(Bake { step, failed })
    }
}

/// Where a bake stands after outcomes of its steps.
pub open spec fn bake_run(outcomes: Seq<bool>) -> Option<Bake>
    decreases outcomes.len(),
{
    if outcomes.len() == 0 {
        Some(Bake { step: BakeStep::Create, failed: false })
    } else {
        match bake_run(outcomes.drop_last()) {
            Some(b) => b.after(outcomes.last()),
            None => None,
        }
    }
}

/// A layer is published only if every step that makes it worked; and the machine that
/// made it is always removed before, as it is before a failure is reported.
pub proof fn law_only_whole_layers_are_published(outcomes: Seq<bool>)
    ensures
        match bake_run(outcomes) {
            Some(b) => {
                &&& b.step == BakeStep::Publish ==> outcomes.len() == 6 && forall|i: int|
                    0 <= i < 5 ==> #[trigger] outcomes[i]
                &&& b.step == BakeStep::Publish || b.step == BakeStep::Abandon ==> bake_run(
                    outcomes.drop_last(),
                )->Some_0.step == BakeStep::Delete
                &&& b.step == BakeStep::Abandon ==> exists|i: int|
                    0 <= i < outcomes.len() - 1 && !#[trigger] outcomes[i]
            },
            None => true,
        },
{
    lemma_bake_run(outcomes);
}

spec fn bake_shape(outcomes: Seq<bool>, b: Bake) -> bool {
    let n = outcomes.len();
    &&& !b.failed ==> match b.step {
        BakeStep::Create => n == 0,
        BakeStep::Start => n == 1 && outcomes[0],
        BakeStep::Stop => n == 2 && outcomes[0] && outcomes[1],
        BakeStep::Pack => n == 3 && outcomes[0] && outcomes[1] && outcomes[2],
        BakeStep::Check => n == 4 && outcomes[0] && outcomes[1] && outcomes[2] && outcomes[3],
        BakeStep::Delete => n == 5 && outcomes[0] && outcomes[1] && outcomes[2] && outcomes[3]
            && outcomes[4],
        BakeStep::Publish => n == 6 && outcomes[0] && outcomes[1] && outcomes[2] && outcomes[3]
            && outcomes[4],
        BakeStep::Abandon => false,
    }
    &&& b.failed ==> match b.step {
        BakeStep::Delete => n >= 1 && !outcomes[n - 1],
        BakeStep::Abandon => n >= 2 && !outcomes[n - 2],
        _ => false,
    }
}

proof fn lemma_bake_run(outcomes: Seq<bool>)
    ensures
        bake_run(outcomes) matches Some(b) ==> bake_shape(outcomes, b),
    decreases outcomes.len(),
{
    if outcomes.len() > 0 {
        let front = outcomes.drop_last();
        lemma_bake_run(front);
        match bake_run(front) {
            Some(b) => {
                assert forall|i: int| 0 <= i < front.len() implies front[i] == outcomes[i] by {}
            },
            None => {},
        }
    }
}

/// The command of a step that is a command.
pub open spec fn bake_command_of(
    step: BakeStep,
    create: Seq<Seq<char>>,
    machine: Seq<char>,
    out: Seq<char>,
) -> Seq<Seq<char>> {
    match step {
        BakeStep::Create => create,
        BakeStep::Start => seq!["machine"@, "start"@, "--name"@, machine],
        BakeStep::Stop => seq!["machine"@, "stop"@, "--name"@, machine],
        BakeStep::Pack => seq!["pack"@, "create"@, "--from-vm"@, machine, "-o"@, out],
        BakeStep::Delete => seq!["machine"@, "delete"@, "--name"@, machine, "-f"@],
        BakeStep::Check | BakeStep::Publish | BakeStep::Abandon => Seq::empty(),
    }
}

fn word_list(v: &[&str]) -> (r: Vec<String>)
    ensures
        r@.len() == v@.len(),
        forall|i: int| 0 <= i < v@.len() ==> (#[trigger] r@[i])@ == v@[i]@,
{
    let mut out: Vec<String> = Vec::new();
    let mut i: usize = 0;
    while i < v.len()
        invariant
            i <= v@.len(),
            out@.len() == i,
            forall|j: int| 0 <= j < i ==> (#[trigger] out@[j])@ == v@[j]@,
        decreases v@.len() - i,
    {
        out.push(v[i].to_owned());
        i = i + 1;
    }
    out
}

/// The command of a step; empty for one that is none.
pub fn bake_command(step: BakeStep, create: &[String], machine: &str, out: &str) -> (r: Vec<String>)
    ensures
        texts(r@) == bake_command_of(step, texts(create@), machine@, out@),
{
    match step {
        BakeStep::Create => copy_texts(create),
        BakeStep::Start => {
            let v = word_list(&["machine", "start", "--name", machine]);
            proof { assert(texts(v@) =~= seq!["machine"@, "start"@, "--name"@, machine@]); }
            v
        },
        BakeStep::Stop => {
            let v = word_list(&["machine", "stop", "--name", machine]);
            proof { assert(texts(v@) =~= seq!["machine"@, "stop"@, "--name"@, machine@]); }
            v
        },
        BakeStep::Pack => {
            let v = word_list(&["pack", "create", "--from-vm", machine, "-o", out]);
            proof {
                assert(texts(v@) =~= seq!["pack"@, "create"@, "--from-vm"@, machine@, "-o"@, out@]);
            }
            v
        },
        BakeStep::Delete => {
            let v = word_list(&["machine", "delete", "--name", machine, "-f"]);
            proof {
                assert(texts(v@) =~= seq!["machine"@, "delete"@, "--name"@, machine@, "-f"@]);
            }
            v
        },
        BakeStep::Check | BakeStep::Publish | BakeStep::Abandon => {
            let v: Vec<String> = Vec::new();
            proof { assert(texts(v@) =~= Seq::empty()); }
            v
        },
    }
}

// ---------------------------------------------------------------------------
// Failures
// ---------------------------------------------------------------------------

/// Lines of output that a failure is reported with.
pub const FAILURE_LINES: usize = 12;

/// Lines that hold more than white space.
pub open spec fn told_lines(lines: Seq<Seq<char>>) -> Seq<Seq<char>>
    decreases lines.len(),
{
    if lines.len() == 0 {
        Seq::empty()
    } else if trim(lines.last()).len() == 0 {
        told_lines(lines.drop_last())
    } else {
        told_lines(lines.drop_last()).push(lines.last())
    }
}

/// The last few lines of output that hold more than white space.
pub open spec fn failure_tail(stderr: Seq<char>) -> Seq<Seq<char>> {
    let told = told_lines(lines(stderr));
    if told.len() > FAILURE_LINES {
        told.skip(told.len() - FAILURE_LINES)
    } else {
        told
    }
}

/// What a command that failed is reported as.
pub fn bake_failure(args: &[String], status: &str, stderr: &str) -> (r: ConfigError)
    ensures
        r@ == (
            "init-layer bake"@,
            "`smolvm "@ + join_with(texts(args@), " "@) + "` failed ("@ + status@ + "):\n"@
                + join_with(failure_tail(stderr@), "\n"@),
        ),
{
    let pieces_of = split_lines(&chars_of(stderr));
    let ghost all = pieces(pieces_of@);
    let mut told: Vec<String> = Vec::new();
    let mut i: usize = 0;
    proof {
        assert(all.take(0) =~= Seq::empty());
        assert(texts(told@) =~= Seq::empty());
    }
    while i < pieces_of.len()
        invariant
            i <= pieces_of@.len(),
            all == pieces(pieces_of@),
            texts(told@) == told_lines(all.take(i as int)),
        decreases pieces_of@.len() - i,
    {
        proof {
            assert(all.take(i + 1).drop_last() =~= all.take(i as int));
            assert(all.take(i + 1).last() == pieces_of@[i as int]@);
        }
        if trim_chars(&pieces_of[i]).len() > 0 {
            let ghost before = told@;
            let line = string_of(&pieces_of[i]);
            told.push(line);
            proof { lemma_texts_push(before, line); }
        }
        i = i + 1;
    }
    proof { assert(all.take(pieces_of@.len() as int) =~= all); }
    let tail = if told.len() > FAILURE_LINES {
        let from = told.len() - FAILURE_LINES;
        let mut v: Vec<String> = Vec::new();
        let mut j: usize = from;
        proof { assert(texts(v@) =~= texts(told@).subrange(from as int, from as int)); }
        while j < told.len()
            invariant
                from <= j <= told@.len(),
                texts(v@) == texts(told@).subrange(from as int, j as int),
            decreases told@.len() - j,
        {
            let ghost before = v@;
            let line = told[j].clone();
            v.push(line);
            proof {
                lemma_texts_push(before, line);
                assert(texts(told@).subrange(from as int, j + 1) =~= texts(told@).subrange(
                    from as int,
                    j as int,
                ).push(told@[j as int]@));
            }
            j = j + 1;
        }
        proof { assert(texts(v@) =~= texts(told@).skip(from as int)); }
        v
    } else {
        told
    };
    let command = join_texts(args, " ");
    let shown = join_texts(&tail, "\n");
    let mut text = say5("`smolvm ", command.as_str(), "` failed (", status, "):\n");
    text.append(shown.as_str());
    config_error("init-layer bake", text)
}

} // verus!
