//! Making clones of a running machine.
use crate::copying::{opt_text, or_empty, pairs, texts};
use crate::digest::{digest_text, short_digest};
use crate::machine::errors::{ConfigError, config_error};
use crate::machine::flags::{SecretModel, SecretRef, parse_cli_secret_refs, secret_refs};
use crate::machine::fork_laws::{about_identity, filled_in, law_flags_reach_the_clone};
use crate::machine::params::{env_pairs, parse_env_list};
use crate::numerals::{decimal, decimal_chars, lemma_numeral_value};
use crate::split::{same_chars, stretch};
use crate::table::Table;
use crate::text::{chars_of, say2, say3, string_of, text_eq};
use crate::wire::{le_bytes, push_bytes, push_u32, push_u64};
use vstd::prelude::*;
use vstd::utf8::encode_utf8;

verus! {

/// What `fork` is asked for.
#[derive(Debug)]
pub struct ForkCmd {
    /// The machine to clone.
    pub golden: String,
    /// Name of a single clone.
    pub clone: Option<String>,
    /// How many clones, at least one.
    pub count: u32,
    /// Clones of a batch are named by this and their index.
    pub name_prefix: Option<String>,
    /// How many clones boot at once.
    pub parallel: u32,
    pub wait_ready: bool,
    /// Keep each clone where it was forked.
    pub hold: bool,
    /// Milliseconds.
    pub ready_timeout: u64,
    pub forkable: bool,
    pub port: Vec<(u16, u16)>,
    pub share_weights: bool,
    pub env: Vec<String>,
    pub secret_env: Vec<String>,
    pub secret_file: Vec<String>,
}

/// The most clones of a batch.
pub const MAX_BATCH: u32 = 1024;

/// What the clones of one batch have in common.
#[derive(Debug, PartialEq, Eq)]
pub struct ForkBatchIdentity {
    pub id: String,
    pub size: u32,
}

/// How long to wait for the golden to be ready to fork; not at all for a single clone
/// that neither asks for it nor is held.
pub fn forkpoint_timeout(count: u32, explicitly_requested: bool, hold: bool, timeout: u64) -> (r:
    Option<u64>)
    ensures
        r == if count > 1 || explicitly_requested || hold {
            Some(timeout)
        } else {
            None
        },
{
    if count > 1 || explicitly_requested || hold {
        Some(timeout)
    } else {
        None
    }
}

/// What a batch is known by: its golden, its names, and the process and time that
/// made it.
pub open spec fn batch_bytes(golden: Seq<char>, prefix: Seq<char>, pid: u32, created: u128) -> Seq<
    u8,
> {
    encode_utf8(golden).push(0) + encode_utf8(prefix).push(0) + le_bytes(pid as nat, 4) + le_bytes(
        (created % 0x1_0000_0000_0000_0000) as nat,
        8,
    ) + le_bytes((created / 0x1_0000_0000_0000_0000) as nat, 8)
}

/// The name of a batch. `created` is the time in nanoseconds.
pub fn fork_batch_id(golden: &str, prefix: &str, pid: u32, created: u128) -> (r: String)
    ensures
        r@ == digest_text(batch_bytes(golden@, prefix@, pid, created), 32),
        r@.len() == 32,
{
    let mut out: Vec<u8> = Vec::new();
    push_bytes(&mut out, golden.as_bytes());
    out.push(0);
    push_bytes(&mut out, prefix.as_bytes());
    out.push(0);
    let ghost head = out@;
    proof { assert(head =~= encode_utf8(golden@).push(0) + encode_utf8(prefix@).push(0)); }
    push_u32(&mut out, pid);
    push_u64(&mut out, (created % 0x1_0000_0000_0000_0000) as u64);
    push_u64(&mut out, (created / 0x1_0000_0000_0000_0000) as u64);
    proof {
        assert(out@ =~= batch_bytes(golden@, prefix@, pid, created));
    }
    short_digest(&out, 32)
}

// ---------------------------------------------------------------------------
// Variables of a clone
// ---------------------------------------------------------------------------

/// `s` with `with` in place of each `part`, from the left.
pub open spec fn replaced(s: Seq<char>, part: Seq<char>, with: Seq<char>) -> Seq<char>
    decreases s.len(),
{
    if part.len() == 0 || s.len() < part.len() {
        s
    } else if s.take(part.len() as int) == part {
        with + replaced(s.skip(part.len() as int), part, with)
    } else {
        seq![s[0]] + replaced(s.skip(1), part, with)
    }
}

/// `s` with `with` in place of each `part`.
fn replace_text(s: &str, part: &str, with: &str) -> (r: String)
    requires
        part@.len() > 0,
    ensures
        r@ == replaced(s@, part@, with@),
{
    let chars = chars_of(s);
    let want = chars_of(part);
    let size: usize = chars.len();
    let width: usize = want.len();
    let mut out = String::from_str("");
    let mut i: usize = 0;
    proof {
        reveal_strlit("");
        assert(s@.skip(0) =~= s@);
        assert(out@ + replaced(s@.skip(0), part@, with@) =~= replaced(s@, part@, with@));
    }
    while i < size
        invariant
            i <= size,
            size == chars@.len(),
            width == want@.len(),
            chars@ == s@,
            want@ == part@,
            part@.len() > 0,
            out@ + replaced(s@.skip(i as int), part@, with@) == replaced(s@, part@, with@),
        decreases size - i,
    {
        let ghost rest = s@.skip(i as int);
        let ghost before = out@;
        if size - i >= width {
            let head = stretch(&chars, i, i + width);
            proof { assert(head@ =~= rest.take(width as int)); }
            if same_chars(&head, &want) {
                out.append(with);
                proof {
                    assert(rest.skip(width as int) =~= s@.skip(i + width));
                    assert(before + (with@ + replaced(s@.skip(i + width), part@, with@)) =~= out@
                        + replaced(s@.skip(i + width), part@, with@));
                }
                i = i + width;
                continue;
            }
            proof { assert(rest.skip(1) =~= s@.skip(i + 1)); }
            out.push(chars[i]);
            proof {
                assert(before + (seq![rest[0]] + replaced(s@.skip(i + 1), part@, with@)) =~= out@
                    + replaced(s@.skip(i + 1), part@, with@));
            }
            i = i + 1;
        } else {
            out.push(chars[i]);
            proof {
                assert(rest.skip(1) =~= s@.skip(i + 1));
                assert(replaced(rest, part@, with@) == rest);
                assert(replaced(s@.skip(i + 1), part@, with@) == s@.skip(i + 1));
                assert(before + rest =~= out@ + s@.skip(i + 1));
            }
            i = i + 1;
        }
    }
    proof {
        assert(s@.skip(size as int) =~= Seq::empty());
        assert(out@ + Seq::<char>::empty() =~= out@);
    }
    out
}

/// A value with the clone's index and name in place of their marks.
pub open spec fn rendered(value: Seq<char>, index: u32, name: Seq<char>) -> Seq<char> {
    replaced(replaced(value, "{index}"@, decimal(index as nat)), "{name}"@, name)
}

/// Variables with each value rendered.
pub open spec fn rendered_all(env: Seq<(Seq<char>, Seq<char>)>, index: u32, name: Seq<char>) -> Seq<
    (Seq<char>, Seq<char>),
> {
    Seq::new(env.len(), |i: int| (env[i].0, rendered(env[i].1, index, name)))
}

/// The variables that tell a clone which it is.
pub open spec fn identity_key(key: Seq<char>) -> bool {
    key == "SMOLVM_FORK_INDEX"@ || key == "SMOLVM_FORK_NAME"@ || key == "SMOLVM_FORK_BATCH_ID"@
        || key == "SMOLVM_FORK_BATCH_SIZE"@
}

/// Variables without those that tell a clone which it is.
pub open spec fn without_identity(env: Seq<(Seq<char>, Seq<char>)>) -> Seq<(Seq<char>, Seq<char>)>
    decreases env.len(),
{
    if env.len() == 0 {
        Seq::empty()
    } else if identity_key(env.last().0) {
        without_identity(env.drop_last())
    } else {
        without_identity(env.drop_last()).push(env.last())
    }
}

/// What tells a clone which it is.
pub open spec fn identity_env(index: u32, name: Seq<char>, batch: Option<ForkBatchIdentity>) -> Seq<
    (Seq<char>, Seq<char>),
> {
    let own = seq![
        ("SMOLVM_FORK_INDEX"@, decimal(index as nat)),
        ("SMOLVM_FORK_NAME"@, name),
    ];
    match batch {
        Some(b) => own + seq![
            ("SMOLVM_FORK_BATCH_ID"@, b.id@),
            ("SMOLVM_FORK_BATCH_SIZE"@, decimal(b.size as nat)),
        ],
        None => own,
    }
}

/// The variables of a clone.
pub open spec fn fork_env_of(
    specs: Seq<Seq<char>>,
    index: u32,
    name: Seq<char>,
    include_identity: bool,
    batch: Option<ForkBatchIdentity>,
) -> Seq<(Seq<char>, Seq<char>)> {
    let env = rendered_all(env_pairs(specs), index, name);
    if include_identity {
        without_identity(env) + identity_env(index, name, batch)
    } else {
        env
    }
}

fn is_identity_key(key: &str) -> (r: bool)
    ensures
        r == identity_key(key@),
{
    text_eq(key, "SMOLVM_FORK_INDEX") || text_eq(key, "SMOLVM_FORK_NAME") || text_eq(
        key,
        "SMOLVM_FORK_BATCH_ID",
    ) || text_eq(key, "SMOLVM_FORK_BATCH_SIZE")
}

fn push_pair(env: &mut Vec<(String, String)>, key: &str, value: String)
    ensures
        pairs(final(env)@) == pairs(old(env)@).push((key@, value@)),
{
    let ghost before = env@;
    let k = key.to_owned();
    env.push((k, value));
    proof { assert(pairs(env@) =~= pairs(before).push((key@, value@))); }
}

/// The variables of a clone: index and name are put in place of their marks; in a
/// batch a clone is also told which it is, whatever the flags say of that.
pub fn render_indexed_fork_env(
    specs: &[String],
    index: u32,
    name: &str,
    include_identity: bool,
    batch: &Option<ForkBatchIdentity>,
) -> (r: Vec<(String, String)>)
    ensures
        pairs(r@) == fork_env_of(texts(specs@), index, name@, include_identity, *batch),
        !include_identity ==> filled_in(env_pairs(texts(specs@)), pairs(r@), index, name@),
        filled_in(
            env_pairs(texts(specs@)).filter(|p: (Seq<char>, Seq<char>)| !about_identity(p)),
            pairs(r@).filter(|p: (Seq<char>, Seq<char>)| !about_identity(p)),
            index,
            name@,
        ),
{
    proof {
        law_flags_reach_the_clone(texts(specs@), index, name@, include_identity, *batch);
    }
    let given = parse_env_list(specs);
    let number = string_of(&decimal_chars(index as u128));
    let ghost all = rendered_all(pairs(given@), index, name@);
    let mut env: Vec<(String, String)> = Vec::new();
    let mut i: usize = 0;
    proof {
        reveal_strlit("{index}");
        reveal_strlit("{name}");
        assert(all.take(0) =~= Seq::empty());
        assert(pairs(env@) =~= Seq::empty());
    }
    while i < given.len()
        invariant
            i <= given@.len(),
            all == rendered_all(pairs(given@), index, name@),
            number@ == decimal(index as nat),
            "{index}"@.len() > 0,
            "{name}"@.len() > 0,
            pairs(env@) == if include_identity {
                without_identity(all.take(i as int))
            } else {
                all.take(i as int)
            },
        decreases given@.len() - i,
    {
        let value = replace_text(
            replace_text(given[i].1.as_str(), "{index}", number.as_str()).as_str(),
            "{name}",
            name,
        );
        proof {
            let next = all.take(i + 1);
            assert(next.drop_last() =~= all.take(i as int));
            assert(next.last() == all[i as int]);
            assert(next =~= all.take(i as int).push(all[i as int]));
            assert(all[i as int] == (given@[i as int].0@, value@));
        }
        if !include_identity || !is_identity_key(given[i].0.as_str()) {
            push_pair(&mut env, given[i].0.as_str(), value);
        }
        i = i + 1;
    }
    proof { assert(all.take(given@.len() as int) =~= all); }
    if include_identity {
        let ghost before = pairs(env@);
        push_pair(&mut env, "SMOLVM_FORK_INDEX", number);
        push_pair(&mut env, "SMOLVM_FORK_NAME", name.to_owned());
        match batch {
            Some(b) => {
                push_pair(&mut env, "SMOLVM_FORK_BATCH_ID", b.id.clone());
                push_pair(
                    &mut env,
                    "SMOLVM_FORK_BATCH_SIZE",
                    string_of(&decimal_chars(b.size as u128)),
                );
            },
            None => {},
        }
        proof { assert(pairs(env@) =~= before + identity_env(index, name@, *batch)); }
    }
    env
}

// ---------------------------------------------------------------------------
// The plan
// ---------------------------------------------------------------------------

/// The clones to make.
#[derive(Debug)]
pub struct ForkPlan {
    /// Name and variables of each clone.
    pub clones: Vec<(String, Vec<(String, String)>)>,
    /// They are made as a batch.
    pub batch: bool,
    /// Secrets of each clone.
    pub secrets: Table<SecretRef>,
    /// How long to wait for the golden.
    pub wait_ready: Option<u64>,
}

/// Clones by name and variables.
pub open spec fn clones_view(v: Seq<(String, Vec<(String, String)>)>) -> Seq<
    (Seq<char>, Seq<(Seq<char>, Seq<char>)>),
> {
    v.map_values(|c: (String, Vec<(String, String)>)| (c.0@, pairs(c.1@)))
}

/// The name of a clone of a batch.
pub open spec fn batch_name(prefix: Seq<char>, index: int) -> Seq<char> {
    prefix + "-"@ + decimal(index as nat)
}

/// What the clones of a batch have in common; held clones have nothing.
pub open spec fn batch_identity(cmd: ForkCmd, id: Seq<char>, batch: Option<ForkBatchIdentity>) -> bool {
    match batch {
        Some(b) => !cmd.hold && b.id@ == id && b.size == cmd.count,
        None => cmd.hold,
    }
}

/// Why a fork is refused, first reason first.
pub open spec fn fork_refusal(cmd: ForkCmd) -> Option<(Seq<char>, Seq<char>)> {
    match secret_refs(texts(cmd.secret_env@), texts(cmd.secret_file@)) {
        Err(e) => Some(e),
        Ok(_) => if cmd.count > MAX_BATCH {
            Some(("fork"@, "--count cannot exceed 1024 clones per batch"@))
        } else if cmd.hold && cmd.forkable {
            Some(
                (
                    "fork"@,
                    "--hold cannot be combined with --forkable; pool slots are disposable leaves"@,
                ),
            )
        } else if cmd.count == 1 {
            if cmd.clone is Some && cmd.name_prefix is Some {
                Some(("fork"@, "use either --name or --name-prefix, not both"@))
            } else if cmd.clone is None && cmd.name_prefix is None {
                Some(
                    (
                        "fork"@,
                        "--name is required for one clone; use --name-prefix with --count for a batch"@,
                    ),
                )
            } else {
                None
            }
        } else if cmd.clone is Some {
            Some(
                (
                    "fork"@,
                    "--name cannot be used with --count greater than 1; use --name-prefix"@,
                ),
            )
        } else if cmd.name_prefix is None {
            Some(("fork"@, "--name-prefix is required with --count greater than 1"@))
        } else if cmd.forkable {
            Some(("fork"@, "--forkable is not supported for batch clones"@))
        } else if cmd.port@.len() > 0 {
            Some(
                (
                    "fork"@,
                    "pinned --port mappings are not supported for a batch; inherited ports are remapped automatically"@,
                ),
            )
        } else {
            None
        },
    }
}

/// The clones that a fork makes. A single clone has the name that was given, or the
/// first of a batch; it is not told which it is.
pub open spec fn fork_clones(cmd: ForkCmd, batch: Option<ForkBatchIdentity>) -> Seq<
    (Seq<char>, Seq<(Seq<char>, Seq<char>)>),
> {
    let specs = texts(cmd.env@);
    if cmd.count == 1 {
        let name = match cmd.clone {
            Some(n) => n@,
            None => cmd.name_prefix->Some_0@ + "-0"@,
        };
        seq![(name, fork_env_of(specs, 0, name, false, None))]
    } else {
        let prefix = cmd.name_prefix->Some_0@;
        Seq::new(
            cmd.count as nat,
            |i: int|
                (
                    batch_name(prefix, i),
                    fork_env_of(specs, i as u32, batch_name(prefix, i), true, batch),
                ),
        )
    }
}

fn check_fork(cmd: &ForkCmd) -> (r: Result<Table<SecretRef>, ConfigError>)
    requires
        cmd.count > 0,
    ensures
        match r {
            Ok(t) => fork_refusal(*cmd) is None && t.wf() && secret_refs(
                texts(cmd.secret_env@),
                texts(cmd.secret_file@),
            ) == Ok::<Map<Seq<char>, SecretModel>, (Seq<char>, Seq<char>)>(t@),
            Err(e) => fork_refusal(*cmd) == Some(e@),
        },
{
    let secrets = match parse_cli_secret_refs(&cmd.secret_env, &cmd.secret_file) {
        Ok(t) => t,
        Err(e) => {
            return Err(e);
        },
    };
    let reason = if cmd.count > MAX_BATCH {
        "--count cannot exceed 1024 clones per batch"
    } else if cmd.hold && cmd.forkable {
        "--hold cannot be combined with --forkable; pool slots are disposable leaves"
    } else if cmd.count == 1 {
        if cmd.clone.is_some() && cmd.name_prefix.is_some() {
            "use either --name or --name-prefix, not both"
        } else if cmd.clone.is_none() && cmd.name_prefix.is_none() {
            "--name is required for one clone; use --name-prefix with --count for a batch"
        } else {
            return Ok(secrets);
        }
    } else if cmd.clone.is_some() {
        "--name cannot be used with --count greater than 1; use --name-prefix"
    } else if cmd.name_prefix.is_none() {
        "--name-prefix is required with --count greater than 1"
    } else if cmd.forkable {
        "--forkable is not supported for batch clones"
    } else if cmd.port.len() > 0 {
        "pinned --port mappings are not supported for a batch; inherited ports are remapped automatically"
    } else {
        return Ok(secrets);
    };
    Err(config_error("fork", reason.to_owned()))
}

impl ForkCmd {
    /// The clones that a fork makes, or why it is refused. `pid` and `created` are the
    /// process and time that make them.
    pub fn run(&self, pid: u32, created: u128) -> (r: Result<ForkPlan, ConfigError>)
        requires
            self.count > 0,
        ensures
            match r {
                Err(e) => fork_refusal(*self) == Some(e@),
                Ok(p) => {
                    &&& fork_refusal(*self) is None
                    &&& p.batch == (self.count > 1)
                    &&& p.secrets.wf()
                    &&& secret_refs(texts(self.secret_env@), texts(self.secret_file@)) == Ok::<
                        Map<Seq<char>, SecretModel>,
                        (Seq<char>, Seq<char>),
                    >(p.secrets@)
                    &&& p.wait_ready == if self.count > 1 || self.wait_ready || self.hold {
                        Some(self.ready_timeout)
                    } else {
                        None
                    }
                    &&& exists|batch: Option<ForkBatchIdentity>| #[trigger]
                        batch_identity(
                            *self,
                            digest_text(
                                batch_bytes(
                                    self.golden@,
                                    or_empty(opt_text(self.name_prefix)),
                                    pid,
                                    created,
                                ),
                                32,
                            ),
                            batch,
                        ) && clones_view(p.clones@) == fork_clones(*self, batch)
                },
            },
    {
        let secrets = match check_fork(self) {
            Ok(t) => t,
            Err(e) => {
                return Err(e);
            },
        };
        let wait_ready = forkpoint_timeout(self.count, self.wait_ready, self.hold, self.ready_timeout);
        let prefix = match &self.name_prefix {
            Some(p) => p.clone(),
            None => String::from_str(""),
        };
        proof {
            reveal_strlit("");
            assert(""@ =~= Seq::empty());
        }
        let id = fork_batch_id(self.golden.as_str(), prefix.as_str(), pid, created);
        let batch = if self.hold {
            None
        } else {
            Some(ForkBatchIdentity { id, size: self.count })
        };
        proof {
            assert(prefix@ == or_empty(opt_text(self.name_prefix)));
            assert(batch_identity(
                *self,
                digest_text(
                    batch_bytes(self.golden@, or_empty(opt_text(self.name_prefix)), pid, created),
                    32,
                ),
                batch,
            ));
        }
        let mut clones: Vec<(String, Vec<(String, String)>)> = Vec::new();
        if self.count == 1 {
            let name = match &self.clone {
                Some(n) => n.clone(),
                None => say2(prefix.as_str(), "-0"),
            };
            let env = render_indexed_fork_env(&self.env, 0, name.as_str(), false, &None);
            clones.push((name, env));
            proof { assert(clones_view(clones@) =~= fork_clones(*self, batch)); }
            return Ok(ForkPlan { clones, batch: false, secrets, wait_ready });
        }
        let ghost want = fork_clones(*self, batch);
        let mut i: u32 = 0;
        proof { assert(clones_view(clones@) =~= want.take(0)); }
        while i < self.count
            invariant
                i <= self.count,
                self.count > 1,
                self.name_prefix is Some,
                prefix@ == self.name_prefix->Some_0@,
                want == fork_clones(*self, batch),
                clones_view(clones@) == want.take(i as int),
            decreases self.count - i,
        {
            let number = string_of(&decimal_chars(i as u128));
            let name = say3(prefix.as_str(), "-", number.as_str());
            let env = render_indexed_fork_env(&self.env, i, name.as_str(), true, &batch);
            let ghost before = clones@;
            let ghost one = (name@, pairs(env@));
            clones.push((name, env));
            proof {
                assert(clones_view(clones@) =~= clones_view(before).push(one));
                assert(want[i as int] == one);
                assert(want.take(i + 1) =~= want.take(i as int).push(want[i as int]));
            }
            i = i + 1;
        }
        proof { assert(want.take(self.count as int) =~= want); }
        Ok(ForkPlan { clones, batch: true, secrets, wait_ready })
    }
}

// ---------------------------------------------------------------------------
// Laws
// ---------------------------------------------------------------------------

/// No two clones of a batch have the same name.
pub proof fn law_clone_names_are_distinct(
    cmd: ForkCmd,
    batch: Option<ForkBatchIdentity>,
    i: int,
    j: int,
)
    requires
        cmd.count > 1,
        0 <= i < j < cmd.count,
    ensures
        fork_clones(cmd, batch)[i].0 != fork_clones(cmd, batch)[j].0,
{
    let prefix = cmd.name_prefix->Some_0@;
    let a = batch_name(prefix, i);
    let b = batch_name(prefix, j);
    if a == b {
        let n = (prefix + "-"@).len() as int;
        assert(a.skip(n) =~= decimal(i as nat));
        assert(b.skip(n) =~= decimal(j as nat));
        lemma_numeral_value(i as nat, 10);
        lemma_numeral_value(j as nat, 10);
    }
}

proof fn lemma_without_identity(env: Seq<(Seq<char>, Seq<char>)>)
    ensures
        forall|i: int|
            0 <= i < without_identity(env).len() ==> !identity_key(
                (#[trigger] without_identity(env)[i]).0,
            ),
    decreases env.len(),
{
    if env.len() > 0 {
        let front = without_identity(env.drop_last());
        lemma_without_identity(env.drop_last());
        let all = without_identity(env);
        assert forall|i: int| 0 <= i < all.len() implies !identity_key((#[trigger] all[i]).0) by {
            if i < front.len() {
                assert(all[i] == front[i]);
            }
        }
    }
}

/// What a clone of a batch is told of itself is true, whatever the flags say: each
/// variable about its identity is one that the fork itself sets.
pub proof fn law_clone_identity_is_its_own(
    specs: Seq<Seq<char>>,
    index: u32,
    name: Seq<char>,
    batch: Option<ForkBatchIdentity>,
    i: int,
)
    requires
        0 <= i < fork_env_of(specs, index, name, true, batch).len(),
        identity_key(fork_env_of(specs, index, name, true, batch)[i].0),
    ensures
        identity_env(index, name, batch).contains(fork_env_of(specs, index, name, true, batch)[i]),
{
    let env = rendered_all(env_pairs(specs), index, name);
    let front = without_identity(env);
    lemma_without_identity(env);
    let all = fork_env_of(specs, index, name, true, batch);
    if i < front.len() {
        assert(all[i] == front[i]);
    } else {
        assert(all[i] == identity_env(index, name, batch)[i - front.len()]);
    }
}

} // verus!
