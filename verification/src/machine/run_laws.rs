//! What the flags of a run make of it.
use crate::copying::{opt_text, texts};
use crate::machine::flags::{SecretModel, image_like};
use crate::machine::layers::ImageSource;
use crate::machine::params::{ParamsModel, Site, resources_of};
use crate::machine::run::{
    ImageCommand, RunCmd, extra_disk, extra_disks_of, kept_of, pack_of_flags, pack_of_params,
    platform_of, run_cached, run_command_of, run_name, run_needs_new_name, run_refusal,
    run_resources_of, without_dashes, without_secrets,
};
use vstd::prelude::*;

verus! {

// ---------------------------------------------------------------------------
// Packed machines
// ---------------------------------------------------------------------------

/// Each flag of a run of a packed machine is in the run as it was given; processors and
/// memory only where they differ from the usual; graphing adds its variables behind those
/// of the flags; a resolver brings the network.
pub proof fn law_flags_of_a_packed_run(cmd: RunCmd, sidecar: Seq<char>, site: Site)
    ensures
        ({
            let r = pack_of_flags(cmd, sidecar, site);
            &&& r.sidecar == sidecar
            &&& r.command == texts(cmd.command@)
            &&& r.volume == texts(cmd.volume@)
            &&& r.port == cmd.port@
            &&& r.interactive == cmd.interactive && r.tty == cmd.tty && r.timeout == cmd.timeout
            &&& r.workdir == opt_text(cmd.workdir)
            &&& r.net_backend == opt_text(cmd.net_backend) && r.dns == cmd.dns
            &&& r.storage == cmd.storage && r.overlay == cmd.overlay
            &&& r.cuda == cmd.cuda && r.auto_graph == cmd.auto_graph
            &&& cmd.net || cmd.dns is Some <==> r.net
            &&& r.env.take(cmd.env@.len() as int) == texts(cmd.env@)
            &&& !cmd.auto_graph ==> r.env.len() == cmd.env@.len()
            &&& cmd.auto_graph ==> r.env.skip(cmd.env@.len() as int) == texts(site.graph_env@)
            &&& cmd.cpus != site.default_cpus ==> r.cpus == Some(cmd.cpus)
            &&& cmd.cpus == site.default_cpus ==> r.cpus is None
            &&& cmd.mem != site.default_mem ==> r.mem == Some(cmd.mem)
            &&& cmd.mem == site.default_mem ==> r.mem is None
            &&& r.allowed_cidrs is None && r.dns_filter_hosts is None
        }),
{
    let r = pack_of_flags(cmd, sidecar, site);
    assert(r.env.take(cmd.env@.len() as int) =~= texts(cmd.env@));
    if cmd.auto_graph {
        assert(r.env.skip(cmd.env@.len() as int) =~= texts(site.graph_env@));
    }
}

/// A run of a packed machine has what the merged parameters say; its command is that of
/// the flags where they name one, else entry point and command of the parameters.
pub proof fn law_parameters_of_a_packed_run(
    cmd: RunCmd,
    p: ParamsModel,
    sidecar: Seq<char>,
    site: Site,
)
    ensures
        ({
            let r = pack_of_params(cmd, p, sidecar, site);
            &&& r.sidecar == sidecar
            &&& cmd.command@.len() > 0 ==> r.command == texts(cmd.command@)
            &&& cmd.command@.len() == 0 ==> r.command == p.entrypoint + p.cmd
            &&& r.interactive == cmd.interactive && r.tty == cmd.tty && r.timeout == cmd.timeout
            &&& r.workdir == p.workdir && r.env == p.env
            &&& r.volume == p.volume && r.port == p.port
            &&& r.net == p.net && r.net_backend == p.network_backend && r.dns == p.dns
            &&& r.allowed_cidrs == p.allowed_cidrs && r.dns_filter_hosts == p.dns_filter_hosts
            &&& p.cpus != site.default_cpus ==> r.cpus == Some(p.cpus)
            &&& p.cpus == site.default_cpus ==> r.cpus is None
            &&& p.mem != site.default_mem ==> r.mem == Some(p.mem)
            &&& p.mem == site.default_mem ==> r.mem is None
            &&& r.storage == p.storage_gb && r.overlay == p.overlay_gb
            &&& r.cuda <==> cmd.cuda || p.cuda
            &&& r.auto_graph == cmd.auto_graph
        }),
{
}

// ---------------------------------------------------------------------------
// Machines
// ---------------------------------------------------------------------------

/// A machine that is not detached has the name made for it; a detached one the name that
/// was asked for, or the default one. Only a name that was asked for, and is not the
/// default, must be new.
pub proof fn law_name_of_a_run(cmd: RunCmd, generated: Seq<char>)
    ensures
        !cmd.detach ==> run_name(cmd, generated) == generated,
        cmd.detach && cmd.name is Some ==> run_name(cmd, generated) == cmd.name->Some_0@,
        cmd.detach && cmd.name is None ==> run_name(cmd, generated) == "default"@,
        run_needs_new_name(cmd, generated) <==> cmd.detach && cmd.name is Some
            && cmd.name->Some_0@ != "default"@,
{
}

/// A run asks the host for all that its parameters ask for, and for what its flags add.
pub proof fn law_resources_of_a_run(cmd: RunCmd, p: ParamsModel)
    ensures
        ({
            let r = run_resources_of(cmd, p);
            &&& r.cpus == p.cpus && r.memory_mib == p.mem
            &&& r.network == p.net && r.network_backend == p.network_backend && r.dns == p.dns
            &&& r.storage_gib == p.storage_gb && r.overlay_gib == p.overlay_gb
            &&& r.allowed_cidrs == p.allowed_cidrs
            &&& r.gpu <==> cmd.gpu || p.gpu
            &&& r.cuda <==> cmd.cuda || p.cuda
            &&& r.rosetta <==> cmd.rosetta || p.rosetta
            &&& cmd.gpu_vram_mib is Some ==> r.gpu_vram_mib == cmd.gpu_vram_mib
            &&& cmd.gpu_vram_mib is None ==> r.gpu_vram_mib == p.gpu_vram_mib
        }),
        ({
            let r = resources_of(p);
            &&& r.cpus == p.cpus && r.memory_mib == p.mem
            &&& r.network == p.net && r.network_backend == p.network_backend && r.dns == p.dns
            &&& r.storage_gib == p.storage_gb && r.overlay_gib == p.overlay_gb
            &&& r.allowed_cidrs == p.allowed_cidrs
            &&& r.gpu == p.gpu && r.gpu_vram_mib == p.gpu_vram_mib
            &&& r.cuda == p.cuda && r.rosetta == p.rosetta
        }),
{
}

/// What is kept of a machine has its secrets by reference, its resources, volumes, ports,
/// first steps, sockets and hosts.
pub proof fn law_record_keeps_the_machine(
    cmd: RunCmd,
    p: ParamsModel,
    mounts: Seq<(Seq<char>, Seq<char>, bool)>,
)
    ensures
        ({
            let r = kept_of(cmd, p, mounts);
            &&& r.secret_refs == p.secret_refs
            &&& r.resources == run_resources_of(cmd, p)
            &&& r.mounts == mounts && r.ports == p.port && r.init == p.init
            &&& r.ssh_agent <==> cmd.ssh_agent || p.ssh_agent
            &&& r.docker_socket <==> cmd.docker_socket || p.docker_socket
            &&& r.dns_filter_hosts == p.dns_filter_hosts
        }),
{
}

/// Of a machine's variables just those are dropped that have the name of a secret; the
/// others are kept in their order.
pub proof fn law_record_keeps_other_variables(
    env: Seq<(Seq<char>, Seq<char>)>,
    secrets: Map<Seq<char>, SecretModel>,
)
    ensures
        without_secrets(env, secrets) == env.filter(
            |p: (Seq<char>, Seq<char>)| !secrets.contains_key(p.0),
        ),
    decreases env.len(),
{
    reveal(Seq::filter);
    if env.len() > 0 {
        law_record_keeps_other_variables(env.drop_last(), secrets);
    }
}

/// The platform that is pulled is the one asked for; else the translated one where either
/// the flags or the parameters translate; else none is named.
pub proof fn law_platform_of_a_run(cmd: RunCmd, p: ParamsModel)
    ensures
        cmd.oci_platform is Some ==> platform_of(cmd, p) == opt_text(cmd.oci_platform),
        cmd.oci_platform is None && (cmd.rosetta || p.rosetta) ==> platform_of(cmd, p) == Some(
            "linux/amd64"@,
        ),
        cmd.oci_platform is None && !cmd.rosetta && !p.rosetta ==> platform_of(cmd, p) is None,
{
}

// ---------------------------------------------------------------------------
// Commands
// ---------------------------------------------------------------------------

/// The first that names a command decides: the flags, the parameters, the image; else a
/// detached machine waits and any other runs a shell.
pub proof fn law_first_command_is_run(
    cmd: RunCmd,
    p: ParamsModel,
    image: Option<ImageCommand>,
    site: Site,
)
    ensures
        ({
            let r = run_command_of(cmd, p, image, site);
            let given = p.entrypoint.len() > 0 || p.cmd.len() > 0;
            let known = image is Some && (image->Some_0.entrypoint@.len() > 0
                || image->Some_0.cmd@.len() > 0);
            &&& cmd.command@.len() > 0 ==> r == texts(cmd.command@)
            &&& cmd.command@.len() == 0 && given ==> r == p.entrypoint + p.cmd
            &&& cmd.command@.len() == 0 && !given && known ==> r == texts(
                image->Some_0.entrypoint@,
            ) + texts(image->Some_0.cmd@)
            &&& cmd.command@.len() == 0 && !given && !known && cmd.detach ==> r == texts(
                site.idle_cmd@,
            )
            &&& cmd.command@.len() == 0 && !given && !known && !cmd.detach ==> r == seq![
                site.shell_cmd@,
            ]
        }),
{
}

/// A run is refused for just three reasons: it has nothing to do; the image and the
/// session both read standard input; or an image stands in the place of the command.
pub proof fn law_refused_runs(cmd: RunCmd, p: ParamsModel)
    ensures
        ({
            let bare = cmd.image is None && p.image is None;
            let idle = bare && cmd.command@.len() == 0 && p.entrypoint.len() == 0 && p.cmd.len()
                == 0 && !cmd.interactive && !cmd.tty && !cmd.detach;
            let stdin = cmd.image is Some && cmd.image->Some_0@ == "-"@ && (cmd.interactive
                || cmd.tty);
            let misplaced = bare && cmd.command@.len() > 0 && image_like(cmd.command@[0]@);
            &&& run_refusal(cmd, p) is Some <==> idle || stdin || misplaced
            &&& run_refusal(cmd, p) is Some ==> run_refusal(cmd, p)->Some_0.0 == "machine run"@
        }),
{
    if cmd.command@.len() > 0 {
        assert(texts(cmd.command@)[0] == cmd.command@[0]@);
    }
}

/// A run goes through a cached layer only if it may, its image is of a registry, and there
/// are first steps or the image is to be cached.
pub proof fn law_cached_runs(cmd: RunCmd, p: ParamsModel, source: Option<ImageSource>)
    ensures
        run_cached(cmd, p, source) <==> source == Some(ImageSource::Registry) && !cmd.detach
            && !cmd.no_init_cache && (cmd.oci_cache || p.init.len() > 0),
{
}

/// How to run a command in an image: every word but the separators, in their order.
pub proof fn law_suggestion_keeps_words(words: Seq<Seq<char>>)
    ensures
        without_dashes(words) == words.filter(|w: Seq<char>| w != "--"@),
    decreases words.len(),
{
    reveal(Seq::filter);
    if words.len() > 0 {
        law_suggestion_keeps_words(words.drop_last());
    }
}

// ---------------------------------------------------------------------------
// Disks
// ---------------------------------------------------------------------------

/// Disks are read entry by entry, in their order.
pub proof fn law_disks_are_read_one_by_one(a: Seq<Seq<char>>, b: Seq<Seq<char>>)
    ensures
        extra_disks_of(a + b) == extra_disks_of(a) + extra_disks_of(b),
    decreases b.len(),
{
    if b.len() == 0 {
        assert(a + b =~= a);
        assert(extra_disks_of(a) + extra_disks_of(b) =~= extra_disks_of(a));
    } else {
        law_disks_are_read_one_by_one(a, b.drop_last());
        assert((a + b).drop_last() =~= a + b.drop_last());
        if b.last().len() > 0 {
            let d = extra_disk(b.last());
            assert(extra_disks_of(a) + extra_disks_of(b.drop_last()).push(d) =~= (extra_disks_of(a)
                + extra_disks_of(b.drop_last())).push(d));
        }
    }
}

/// An entry is a path, and with `:ro` behind it the disk is read only; an empty one names
/// no disk.
pub proof fn law_disk_entry(path: Seq<char>, entry: Seq<char>)
    ensures
        extra_disks_of(seq![path + ":ro"@]) == seq![(path, true)],
        entry.len() > 0 && (forall|p: Seq<char>| entry != #[trigger] (p + ":ro"@))
            ==> extra_disks_of(seq![entry]) == seq![(entry, false)],
        extra_disks_of(seq![Seq::<char>::empty()]) == Seq::<(Seq<char>, bool)>::empty(),
{
    reveal_strlit(":ro");
    let e = path + ":ro"@;
    assert(e.skip(e.len() - 3) =~= ":ro"@);
    assert(e.take(e.len() - 3) =~= path);
    assert(seq![e].drop_last() =~= Seq::empty());
    assert(seq![e].last() == e);
    assert(extra_disk(e) == (path, true));
    assert(extra_disks_of(seq![e].drop_last()) =~= Seq::empty());
    assert(extra_disks_of(seq![e]) =~= seq![(path, true)]);
    assert(seq![Seq::<char>::empty()].drop_last() =~= Seq::empty());
    assert(extra_disks_of(seq![Seq::<char>::empty()]) =~= Seq::empty());
    if entry.len() > 0 && (forall|p: Seq<char>| entry != #[trigger] (p + ":ro"@)) {
        assert(seq![entry].drop_last() =~= Seq::empty());
        if entry.len() >= 3 && entry.skip(entry.len() - 3) == ":ro"@ {
            let p = entry.take(entry.len() - 3);
            assert(entry =~= p + ":ro"@);
        }
        assert(extra_disks_of(seq![entry]) =~= seq![(entry, false)]);
    }
}

} // verus!
