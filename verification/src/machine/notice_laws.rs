//! What users are told, and what they are refused.
use crate::copying::texts;
use crate::machine::bake::{Bake, LayerStep, layer_notice_of};
use crate::machine::errors::ConfigError;
use crate::machine::fork::batch_bytes;
use crate::machine::layers::cache_dir_of;
use crate::machine::listing::{PrunePlan, prune_report_of};
use crate::machine::params::ParamsModel;
use crate::machine::run::{RunCmd, cached_without_command, name_flag, not_found};
use crate::machine::update::{
    UpdateCmd, UpdateError, first_bad_env, update_notice_of, update_precheck, update_readable,
};
use crate::machine::update_laws::{law_first_bad_variable, sets_some_key};
use crate::numerals::decimal;
use crate::paths::joined;
use crate::phrase::holds;
use crate::records::{RecordState, VmRecord};
use crate::text_laws::law_holding;
use crate::wire::{le_bytes, lemma_byte_range, lemma_le_len, lemma_le_round_trip};
use vstd::prelude::*;

verus! {

/// What is told of an update is each change in its order, between what was updated and how
/// to start it; without a change, that there was none.
pub proof fn law_notice_of_an_update(name: Seq<char>, changes: Seq<Seq<char>>, i: int)
    ensures
        ({
            let told = update_notice_of(name, changes);
            &&& changes.len() == 0 ==> told == seq!["No changes specified."@]
            &&& changes.len() > 0 ==> told.len() == changes.len() + 2 && told[0]
                == "Updated machine '"@ + name + "':"@ && told.last()
                == "\nStart with: smolvm machine start --name "@ + name
            &&& 0 <= i < changes.len() ==> told[i + 1] == changes[i]
        }),
{
}

/// An update is looked at as a whole only for a machine that there is and that does not
/// run, with an allowed size, variables that are `KEY=VALUE` with a key, and volumes that
/// could be read.
pub proof fn law_updates_that_are_looked_at(
    cmd: UpdateCmd,
    record: Option<VmRecord>,
    state: RecordState,
    size: Result<(), ConfigError>,
    new_mounts: Result<Vec<(String, String, bool)>, ConfigError>,
)
    ensures
        update_readable(cmd, record, state, size, new_mounts) <==> record is Some && (state
            == RecordState::Stopped || state == RecordState::Created) && size is Ok
            && new_mounts is Ok && forall|i: int|
            0 <= i < cmd.env@.len() ==> sets_some_key((#[trigger] cmd.env@[i])@),
{
    let specs = texts(cmd.env@);
    law_first_bad_variable(specs);
    if first_bad_env(specs) is Some {
        let s = first_bad_env(specs)->Some_0;
        let i = choose|i: int|
            0 <= i < specs.len() && #[trigger] specs[i] == s && !sets_some_key(s) && forall|j: int|
                0 <= j < i ==> sets_some_key(#[trigger] specs[j]);
        assert(cmd.env@[i]@ == s);
    } else {
        assert forall|i: int| 0 <= i < cmd.env@.len() implies sets_some_key(
            (#[trigger] cmd.env@[i])@,
        ) by {
            assert(specs[i] == cmd.env@[i]@);
        }
    }
}

/// Why an update is refused before it is looked at as a whole: the first of these that
/// applies, a machine that is not there, one that runs, its size, a variable, a volume.
pub proof fn law_first_reason_is_told(
    cmd: UpdateCmd,
    record: Option<VmRecord>,
    state: RecordState,
    size: Result<(), ConfigError>,
    new_mounts: Result<Vec<(String, String, bool)>, ConfigError>,
    e: UpdateError,
)
    requires
        update_precheck(cmd, record, state, size, new_mounts, e),
    ensures
        ({
            let down = state == RecordState::Stopped || state == RecordState::Created;
            &&& record is None ==> (e matches UpdateError::Config(x) && x@ == (
                "update"@,
                "machine '"@ + cmd.name@ + "' not found"@,
            ))
            &&& record is Some && !down ==> e == UpdateError::State(state)
            &&& record is Some && down && size is Err ==> (e matches UpdateError::Config(x) && x@
                == size->Err_0@)
            &&& record is Some && down && size is Ok && new_mounts is Ok ==> (
            e matches UpdateError::Config(x) && x@.0 == "update"@)
            &&& e is State ==> record is Some && !down
        }),
{
}

/// The flag that names a machine is left out for the default one.
pub proof fn law_default_machine_needs_no_name(name: Seq<char>)
    ensures
        name == "default"@ ==> name_flag(name) == ""@,
        name != "default"@ ==> name_flag(name) == " --name "@ + name,
{
}

/// A file that was not found is known by either of two messages.
pub proof fn law_files_not_found(a: Seq<char>, b: Seq<char>)
    ensures
        not_found(a + "No such file or directory"@ + b),
        not_found(a + "os error 2"@ + b),
        not_found(a) ==> holds(a, "No such file or directory"@) || holds(a, "os error 2"@),
{
    law_holding(a, "No such file or directory"@, b, a);
    law_holding(a, "os error 2"@, b, a);
}

/// What is told of a layer names its key, says whether it is cached or made now, and calls
/// it an image where there are no first steps.
pub proof fn law_notice_of_a_layer(step: LayerStep, key: Seq<char>, init_steps: nat)
    ensures
        ({
            let told = layer_notice_of(step, key, init_steps);
            &&& step is UseCached && init_steps == 0 ==> told == "Using cached image "@ + key
                + " (host cache hit; no pull)"@
            &&& step is UseCached && init_steps > 0 ==> told == "Using cached init layer "@ + key
            &&& step is Bake && init_steps == 0 ==> told == "Caching image "@ + key
                + " (one-time; reused on later runs)"@
            &&& step is Bake && init_steps > 0 ==> told
                == "Baking init layer (one-time; reused on later runs) ["@ + key + ", "@ + decimal(
                init_steps,
            ) + " init step(s)]"@
        }),
{
}

/// What is told of a prune: what was removed where something was, what would be where it
/// was only asked.
pub proof fn law_notice_of_a_prune(
    dry_run: bool,
    name: Seq<char>,
    images: int,
    total: Seq<char>,
    freed: u64,
    freed_text: Seq<char>,
)
    ensures
        ({
            let told = |plan: PrunePlan|
                prune_report_of(plan, dry_run, name, images, total, freed, freed_text);
            &&& told(PrunePlan::NoImages) == "No cached images to remove."@
            &&& told(PrunePlan::ListImages) == "Would remove "@ + decimal(images as nat)
                + " images ("@ + total + ")"@
            &&& told(PrunePlan::RemoveImages) == "Removed "@ + decimal(images as nat)
                + " images, freed "@ + freed_text
            &&& freed == 0 ==> told(PrunePlan::Layers) == "No unreferenced layers to remove."@
            &&& freed > 0 && dry_run ==> told(PrunePlan::Layers) == "Would free "@ + freed_text
                + " of unreferenced layers"@
            &&& freed > 0 && !dry_run ==> told(PrunePlan::Layers) == "Freed "@ + freed_text
            &&& dry_run ==> told(PrunePlan::KeepImages) == "Machine '"@ + name
                + "' is image-backed: would keep "@ + decimal(images as nat) + " cached image(s) ("@
                + total + ") it needs to restart, and free "@ + freed_text
                + " of unreferenced layers."@
            &&& !dry_run ==> told(PrunePlan::KeepImages) == "Kept "@ + decimal(images as nat)
                + " cached image(s) in use by machine '"@ + name + "'; freed "@ + freed_text
                + " of unreferenced layers."@
        }),
{
}

/// A cached run has nothing to do where only its image is cached and neither the flags, a
/// session, a file nor the parameters name a command.
pub proof fn law_cached_runs_with_nothing_to_do(cmd: RunCmd, p: ParamsModel)
    ensures
        cached_without_command(cmd, p) <==> cmd.oci_cache && cmd.command@.len() == 0
            && !cmd.interactive && cmd.smolfile is None && p.entrypoint.len() == 0 && p.cmd.len()
            == 0,
{
}

/// Layers are cached below the root of the machines; without one, among temporary files.
pub proof fn law_where_layers_are_cached(root: Seq<char>)
    ensures
        cache_dir_of(Some(root)) == joined(root, "init-layers"@),
        cache_dir_of(None) == "/tmp/smolvm-init-layers"@,
{
}

/// A batch is known by its golden, its names, its process and its time: what its name is
/// made of begins with the golden and the prefix, each with a zero byte behind it, and two
/// batches of the same golden and prefix differ in it if their process or time does.
pub proof fn law_what_a_batch_is_known_by(
    golden: Seq<char>,
    prefix: Seq<char>,
    pid: u32,
    created: u128,
    pid2: u32,
    created2: u128,
)
    ensures
        ({
            let g = vstd::utf8::encode_utf8(golden);
            let p = vstd::utf8::encode_utf8(prefix);
            let b = batch_bytes(golden, prefix, pid, created);
            &&& b.len() == g.len() + p.len() + 22
            &&& b.take(g.len() as int) == g && b[g.len() as int] == 0
            &&& b.subrange(g.len() as int + 1, g.len() as int + 1 + p.len() as int) == p
            &&& b == batch_bytes(golden, prefix, pid2, created2) ==> pid == pid2 && created
                == created2
        }),
{
    let g = vstd::utf8::encode_utf8(golden);
    let p = vstd::utf8::encode_utf8(prefix);
    let b = batch_bytes(golden, prefix, pid, created);
    let c = batch_bytes(golden, prefix, pid2, created2);
    let low = (created % 0x1_0000_0000_0000_0000) as nat;
    let high = (created / 0x1_0000_0000_0000_0000) as nat;
    let low2 = (created2 % 0x1_0000_0000_0000_0000) as nat;
    let high2 = (created2 / 0x1_0000_0000_0000_0000) as nat;
    lemma_byte_range();
    lemma_le_len(pid as nat, 4);
    lemma_le_len(low, 8);
    lemma_le_len(high, 8);
    lemma_le_len(pid2 as nat, 4);
    lemma_le_len(low2, 8);
    lemma_le_len(high2, 8);
    let head = g.push(0) + p.push(0);
    assert(b == head + le_bytes(pid as nat, 4) + le_bytes(low, 8) + le_bytes(high, 8));
    assert(b.take(g.len() as int) =~= g);
    assert(b.subrange(g.len() as int + 1, g.len() as int + 1 + p.len() as int) =~= p);
    if b == c {
        let n = head.len() as int;
        assert(b.subrange(n, n + 4) =~= le_bytes(pid as nat, 4));
        assert(c.subrange(n, n + 4) =~= le_bytes(pid2 as nat, 4));
        assert(b.subrange(n + 4, n + 12) =~= le_bytes(low, 8));
        assert(c.subrange(n + 4, n + 12) =~= le_bytes(low2, 8));
        assert(b.subrange(n + 12, n + 20) =~= le_bytes(high, 8));
        assert(c.subrange(n + 12, n + 20) =~= le_bytes(high2, 8));
        lemma_le_round_trip(pid as nat, 4);
        lemma_le_round_trip(pid2 as nat, 4);
        lemma_le_round_trip(low, 8);
        lemma_le_round_trip(low2, 8);
        lemma_le_round_trip(high, 8);
        lemma_le_round_trip(high2, 8);
        vstd::arithmetic::div_mod::lemma_fundamental_div_mod(
            created as int,
            0x1_0000_0000_0000_0000,
        );
        vstd::arithmetic::div_mod::lemma_fundamental_div_mod(
            created2 as int,
            0x1_0000_0000_0000_0000,
        );
    }
}

} // verus!
