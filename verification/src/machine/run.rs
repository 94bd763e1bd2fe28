//! Running a command in a machine of its own.
use crate::copying::{
    copy_mounts, copy_opt_text, copy_opt_texts, copy_ports, copy_texts, mounts_view, opt_str,
    opt_text, opt_texts, pairs, texts,
};
use crate::daemon::worker::{signed_decimal, signed_text};
use crate::machine::errors::{ConfigError, config_error};
use crate::machine::flags::{SecretModel, SecretRef, image_like, is_likely_image_ref, starts};
use crate::machine::layers::{ImageSource, image_bakeable};
use crate::machine::params::{
    CreateVmParams, ParamsModel, ResourcesModel, Site, VmResources, copy_secrets, env_pairs,
    parse_env_list, resources, resources_of,
};
use crate::numerals::{decimal, decimal_chars};
use crate::phrase::{
    chain_texts, extend_pairs, extend_texts, holds, holds_text, join_texts, join_with,
    lemma_texts_push,
};
use crate::split::{pieces, split_chars, split_on, stretch, strip_prefix_chars};
use crate::table::Table;
use crate::text::{chars_are, chars_of, say2, say3, say4, say5, string_of, text_eq};
use vstd::prelude::*;

verus! {

/// What `run` is asked for.
#[derive(Debug)]
pub struct RunCmd {
    pub image: Option<String>,
    pub max_image_size: Option<u64>,
    pub from: Option<String>,
    pub name: Option<String>,
    pub command: Vec<String>,
    pub detach: bool,
    pub interactive: bool,
    pub tty: bool,
    /// Milliseconds.
    pub timeout: Option<u64>,
    pub workdir: Option<String>,
    pub env: Vec<String>,
    pub oci_platform: Option<String>,
    pub volume: Vec<String>,
    pub port: Vec<(u16, u16)>,
    pub net: bool,
    pub net_backend: Option<String>,
    pub dns: Option<u32>,
    pub allow_cidr: Vec<String>,
    pub allow_host: Vec<String>,
    pub outbound_localhost_only: bool,
    pub gpu: bool,
    pub gpu_vram_mib: Option<u32>,
    pub rosetta: bool,
    pub cpus: u8,
    pub mem: u32,
    pub storage: Option<u64>,
    pub overlay: Option<u64>,
    pub smolfile: Option<String>,
    pub ssh_agent: bool,
    pub cuda: bool,
    pub auto_graph: bool,
    pub docker_socket: bool,
    pub docker_config: bool,
    pub secret_env: Vec<String>,
    pub secret_file: Vec<String>,
    pub no_init_cache: bool,
    pub rebuild_init_cache: bool,
    pub oci_cache: bool,
    pub unprivileged: bool,
    /// The proxy through which the image is pulled.
    pub proxy: Option<String>,
    /// Hosts that are reached without it.
    pub no_proxy: Option<String>,
}

/// A run of a packed machine.
#[derive(Debug)]
pub struct PackRun {
    pub sidecar: String,
    pub command: Vec<String>,
    pub interactive: bool,
    pub tty: bool,
    pub timeout: Option<u64>,
    pub workdir: Option<String>,
    pub env: Vec<String>,
    pub volume: Vec<String>,
    pub port: Vec<(u16, u16)>,
    pub net: bool,
    pub net_backend: Option<String>,
    pub dns: Option<u32>,
    pub allowed_cidrs: Option<Vec<String>>,
    pub dns_filter_hosts: Option<Vec<String>>,
    /// Processors, if not those of the artifact.
    pub cpus: Option<u8>,
    /// Memory, if not that of the artifact.
    pub mem: Option<u32>,
    pub storage: Option<u64>,
    pub overlay: Option<u64>,
    pub cuda: bool,
    pub auto_graph: bool,
}

/// A run of a packed machine.
pub struct PackModel {
    pub sidecar: Seq<char>,
    pub command: Seq<Seq<char>>,
    pub interactive: bool,
    pub tty: bool,
    pub timeout: Option<u64>,
    pub workdir: Option<Seq<char>>,
    pub env: Seq<Seq<char>>,
    pub volume: Seq<Seq<char>>,
    pub port: Seq<(u16, u16)>,
    pub net: bool,
    pub net_backend: Option<Seq<char>>,
    pub dns: Option<u32>,
    pub allowed_cidrs: Option<Seq<Seq<char>>>,
    pub dns_filter_hosts: Option<Seq<Seq<char>>>,
    pub cpus: Option<u8>,
    pub mem: Option<u32>,
    pub storage: Option<u64>,
    pub overlay: Option<u64>,
    pub cuda: bool,
    pub auto_graph: bool,
}

impl View for PackRun {
    type V = PackModel;

    open spec fn view(&self) -> PackModel {
        PackModel {
            sidecar: self.sidecar@,
            command: texts(self.command@),
            interactive: self.interactive,
            tty: self.tty,
            timeout: self.timeout,
            workdir: opt_text(self.workdir),
            env: texts(self.env@),
            volume: texts(self.volume@),
            port: self.port@,
            net: self.net,
            net_backend: opt_text(self.net_backend),
            dns: self.dns,
            allowed_cidrs: opt_texts(self.allowed_cidrs),
            dns_filter_hosts: opt_texts(self.dns_filter_hosts),
            cpus: self.cpus,
            mem: self.mem,
            storage: self.storage,
            overlay: self.overlay,
            cuda: self.cuda,
            auto_graph: self.auto_graph,
        }
    }
}

/// Whether a result refuses, and how.
pub open spec fn refusal(r: Result<(), ConfigError>) -> Option<(Seq<char>, Seq<char>)> {
    match r {
        Ok(_) => None,
        Err(e) => Some(e@),
    }
}

/// A number that is not the usual one.
pub open spec fn unusual<T>(n: T, usual: T) -> Option<T> {
    if n == usual {
        None
    } else {
        Some(n)
    }
}

// ---------------------------------------------------------------------------
// What is run
// ---------------------------------------------------------------------------

/// The run of a packed machine that the flags name. Processors and memory are the
/// artifact's where the flags say nothing else; a resolver brings the network. Flags that
/// limit egress cannot be given beside such a machine.
pub open spec fn pack_of_flags(cmd: RunCmd, sidecar: Seq<char>, site: Site) -> PackModel {
    PackModel {
        sidecar,
        command: texts(cmd.command@),
        interactive: cmd.interactive,
        tty: cmd.tty,
        timeout: cmd.timeout,
        workdir: opt_text(cmd.workdir),
        env: if cmd.auto_graph {
            texts(cmd.env@) + texts(site.graph_env@)
        } else {
            texts(cmd.env@)
        },
        volume: texts(cmd.volume@),
        port: cmd.port@,
        net: cmd.net || cmd.dns is Some,
        net_backend: opt_text(cmd.net_backend),
        dns: cmd.dns,
        allowed_cidrs: None,
        dns_filter_hosts: None,
        cpus: unusual(cmd.cpus, site.default_cpus),
        mem: unusual(cmd.mem, site.default_mem),
        storage: cmd.storage,
        overlay: cmd.overlay,
        cuda: cmd.cuda,
        auto_graph: cmd.auto_graph,
    }
}

/// The command to run: that of the flags, else that of the parameters.
pub open spec fn workload(cmd: RunCmd, p: ParamsModel) -> Seq<Seq<char>> {
    if cmd.command@.len() > 0 {
        texts(cmd.command@)
    } else {
        p.entrypoint + p.cmd
    }
}

/// The run of a packed machine with parameters that are already merged.
pub open spec fn pack_of_params(
    cmd: RunCmd,
    p: ParamsModel,
    sidecar: Seq<char>,
    site: Site,
) -> PackModel {
    PackModel {
        sidecar,
        command: workload(cmd, p),
        interactive: cmd.interactive,
        tty: cmd.tty,
        timeout: cmd.timeout,
        workdir: p.workdir,
        env: p.env,
        volume: p.volume,
        port: p.port,
        net: p.net,
        net_backend: p.network_backend,
        dns: p.dns,
        allowed_cidrs: p.allowed_cidrs,
        dns_filter_hosts: p.dns_filter_hosts,
        cpus: unusual(p.cpus, site.default_cpus),
        mem: unusual(p.mem, site.default_mem),
        storage: p.storage_gb,
        overlay: p.overlay_gb,
        cuda: cmd.cuda || p.cuda,
        auto_graph: cmd.auto_graph,
    }
}

/// What is run.
#[derive(Debug)]
pub enum RunTarget {
    /// A packed machine.
    Pack(PackRun),
    /// A machine of this name. If `fresh`, no machine may have that name yet.
    Machine { name: String, fresh: bool },
}

/// The name of the machine where none is given.
pub open spec fn default_name() -> Seq<char> {
    "default"@
}

/// The name of the machine: a detached one has the name that was asked for, or the
/// default one; any other has a name of its own.
pub open spec fn run_name(cmd: RunCmd, generated: Seq<char>) -> Seq<char> {
    if !cmd.detach {
        generated
    } else {
        match cmd.name {
            Some(n) => n@,
            None => default_name(),
        }
    }
}

/// Whether the machine's name must be new: it was asked for, and is not the default.
pub open spec fn run_needs_new_name(cmd: RunCmd, generated: Seq<char>) -> bool {
    cmd.detach && cmd.name is Some && run_name(cmd, generated) != default_name()
}

fn unusual_cpus(n: u8, usual: u8) -> (r: Option<u8>)
    ensures
        r == unusual(n, usual),
{
    if n == usual {
        None
    } else {
        Some(n)
    }
}

fn unusual_mem(n: u32, usual: u32) -> (r: Option<u32>)
    ensures
        r == unusual(n, usual),
{
    if n == usual {
        None
    } else {
        Some(n)
    }
}

impl RunCmd {
    /// The target of a run: the packed machine that `--from` names, or a machine. What is
    /// refused of it, `check_run` says; what is kept of it, `image_record` and
    /// `bare_record`.
    pub fn run(&self, generated: &str, site: &Site) -> (r: RunTarget)
        ensures
            match (self.from, r) {
                (Some(path), RunTarget::Pack(p)) => p@ == pack_of_flags(*self, path@, *site),
                (None, RunTarget::Machine { name, fresh }) => name@ == run_name(*self, generated@)
                    && fresh == run_needs_new_name(*self, generated@),
                _ => false,
            },
    {
        match &self.from {
            Some(path) => {
                let mut env = copy_texts(&self.env);
                if self.auto_graph {
                    extend_texts(&mut env, &site.graph_env);
                }
                RunTarget::Pack(
                    PackRun {
                        sidecar: path.clone(),
                        command: copy_texts(&self.command),
                        interactive: self.interactive,
                        tty: self.tty,
                        timeout: self.timeout,
                        workdir: copy_opt_text(&self.workdir),
                        env,
                        volume: copy_texts(&self.volume),
                        port: copy_ports(&self.port),
                        net: self.net || self.dns.is_some(),
                        net_backend: copy_opt_text(&self.net_backend),
                        dns: self.dns,
                        allowed_cidrs: None,
                        dns_filter_hosts: None,
                        cpus: unusual_cpus(self.cpus, site.default_cpus),
                        mem: unusual_mem(self.mem, site.default_mem),
                        storage: self.storage,
                        overlay: self.overlay,
                        cuda: self.cuda,
                        auto_graph: self.auto_graph,
                    },
                )
            },
            None => {
                let name = if self.detach {
                    match &self.name {
                        Some(n) => n.clone(),
                        None => "default".to_owned(),
                    }
                } else {
                    generated.to_owned()
                };
                let fresh = self.detach && self.name.is_some() && !text_eq(name.as_str(), "default");
                RunTarget::Machine { name, fresh }
            },
        }
    }
}

/// What is said of a name that is not used: only a detached machine has the name that was
/// asked for.
pub fn name_warning(cmd: &RunCmd) -> (r: Option<String>)
    ensures
        opt_text(r) == if cmd.name is Some && !cmd.detach {
            Some("warning: --name is ignored without -d"@)
        } else {
            None
        },
{
    if cmd.name.is_some() && !cmd.detach {
        Some("warning: --name is ignored without -d".to_owned())
    } else {
        None
    }
}

/// Why a name that is taken cannot be used.
pub fn name_taken(name: &str) -> (r: ConfigError)
    ensures
        r@ == (
            "machine run -d --name"@,
            "a machine named '"@ + name@
                + "' already exists. Use 'machine start --name "@ + name@
                + "' to start it, or 'machine delete --name "@ + name@ + " -f' to remove it."@,
        ),
{
    let mut text = say5(
        "a machine named '",
        name,
        "' already exists. Use 'machine start --name ",
        name,
        "' to start it, or 'machine delete --name ",
    );
    text.append(name);
    text.append(" -f' to remove it.");
    config_error("machine run -d --name", text)
}

fn workload_of(cmd: &RunCmd, p: &CreateVmParams) -> (r: Vec<String>)
    ensures
        texts(r@) == workload(*cmd, p@),
{
    if cmd.command.len() > 0 {
        copy_texts(&cmd.command)
    } else {
        chain_texts(&p.entrypoint, &p.cmd)
    }
}

/// The run of a packed machine with parameters that are already merged.
pub fn pack_run(cmd: &RunCmd, p: &CreateVmParams, sidecar: &str, site: &Site) -> (r: PackRun)
    ensures
        r@ == pack_of_params(*cmd, p@, sidecar@, *site),
{
    PackRun {
        sidecar: sidecar.to_owned(),
        command: workload_of(cmd, p),
        interactive: cmd.interactive,
        tty: cmd.tty,
        timeout: cmd.timeout,
        workdir: copy_opt_text(&p.workdir),
        env: copy_texts(&p.env),
        volume: copy_texts(&p.volume),
        port: copy_ports(&p.port),
        net: p.net,
        net_backend: copy_opt_text(&p.network_backend),
        dns: p.dns,
        allowed_cidrs: copy_opt_texts(&p.allowed_cidrs),
        dns_filter_hosts: copy_opt_texts(&p.dns_filter_hosts),
        cpus: unusual_cpus(p.cpus, site.default_cpus),
        mem: unusual_mem(p.mem, site.default_mem),
        storage: p.storage_gb,
        overlay: p.overlay_gb,
        cuda: cmd.cuda || p.cuda,
        auto_graph: cmd.auto_graph,
    }
}

/// The run of an image that turned out to be a packed machine; such a run ends with
/// its command, so it cannot be detached.
pub fn pack_image_run(
    cmd: &RunCmd,
    p: &CreateVmParams,
    image: &str,
    sidecar: &str,
    site: &Site,
) -> (r: Result<PackRun, ConfigError>)
    ensures
        match r {
            Ok(run) => !cmd.detach && run@ == pack_of_params(*cmd, p@, sidecar@, *site),
            Err(e) => cmd.detach && e@ == (
                "machine run"@,
                "'"@ + image@
                    + "' is a smolmachine pack artifact and cannot run detached via --image. Create a persistent machine instead:\n  smolvm machine create --image "@
                    + image@ + " && smolvm machine start"@,
            ),
        },
{
    if cmd.detach {
        return Err(
            config_error(
                "machine run",
                say5(
                    "'",
                    image,
                    "' is a smolmachine pack artifact and cannot run detached via --image. Create a persistent machine instead:\n  smolvm machine create --image ",
                    image,
                    " && smolvm machine start",
                ),
            ),
        );
    }
    Ok(pack_run(cmd, p, sidecar, site))
}

// ---------------------------------------------------------------------------
// Cached layers
// ---------------------------------------------------------------------------

/// Whether a run goes through a cached layer: an image of a registry, not detached,
/// with steps to run first or with its image to be cached.
pub open spec fn run_cached(cmd: RunCmd, p: ParamsModel, source: Option<ImageSource>) -> bool {
    !cmd.no_init_cache && !cmd.detach && source == Some(ImageSource::Registry) && (p.init.len() > 0
        || cmd.oci_cache)
}

/// Whether a run through a cached image has nothing to do.
pub open spec fn cached_without_command(cmd: RunCmd, p: ParamsModel) -> bool {
    cmd.oci_cache && cmd.command@.len() == 0 && !cmd.interactive && cmd.smolfile is None
        && p.entrypoint.len() == 0 && p.cmd.len() == 0
}

/// Whether a run goes through a cached layer, or why it cannot.
pub fn uses_cached_layer(cmd: &RunCmd, p: &CreateVmParams, source: Option<ImageSource>) -> (r: Result<
    bool,
    ConfigError,
>)
    ensures
        match r {
            Ok(b) => b == run_cached(*cmd, p@, source) && !(b && cached_without_command(*cmd, p@)),
            Err(e) => run_cached(*cmd, p@, source) && cached_without_command(*cmd, p@) && e@ == (
                "machine run"@,
                "--oci-cache needs a command to run: pass one after `--`, use -it for a shell, or supply a Smolfile with an entrypoint/cmd"@,
            ),
        },
{
    if cmd.no_init_cache || cmd.detach || !image_bakeable(source) || (p.init.len() == 0
        && !cmd.oci_cache) {
        return Ok(false);
    }
    if cmd.oci_cache && cmd.command.len() == 0 && !cmd.interactive && cmd.smolfile.is_none()
        && p.entrypoint.len() == 0 && p.cmd.len() == 0 {
        return Err(
            config_error(
                "machine run",
                "--oci-cache needs a command to run: pass one after `--`, use -it for a shell, or supply a Smolfile with an entrypoint/cmd".to_owned(),
            ),
        );
    }
    Ok(true)
}

// ---------------------------------------------------------------------------
// Refusals
// ---------------------------------------------------------------------------

/// Words without the separator.
pub open spec fn without_dashes(words: Seq<Seq<char>>) -> Seq<Seq<char>>
    decreases words.len(),
{
    if words.len() == 0 {
        Seq::empty()
    } else if words.last() == "--"@ {
        without_dashes(words.drop_last())
    } else {
        without_dashes(words.drop_last()).push(words.last())
    }
}

/// How to run a command in an image.
pub open spec fn image_suggestion(command: Seq<Seq<char>>) -> Seq<char> {
    let rest = without_dashes(command.skip(1));
    if rest.len() == 0 {
        "smolvm machine run --image "@ + command[0]
    } else {
        "smolvm machine run --image "@ + command[0] + " -- "@ + join_with(rest, " "@)
    }
}

/// Why a run is refused before a machine is started: it has nothing to do, neither a
/// command nor an image that brings one; two things read from standard input; an image stands where a command should.
pub open spec fn run_refusal(cmd: RunCmd, p: ParamsModel) -> Option<(Seq<char>, Seq<char>)> {
    let command = texts(cmd.command@);
    if cmd.image is None && p.image is None && !cmd.interactive && !cmd.tty && !cmd.detach
        && command.len() == 0 && p.entrypoint.len() == 0 && p.cmd.len() == 0 {
        Some(
            (
                "machine run"@,
                "no command specified.\nUse: smolvm machine run -- <command>\nOr:  smolvm machine run -it"@,
            ),
        )
    } else if opt_text(cmd.image) == Some("-"@) && (cmd.interactive || cmd.tty) {
        Some(
            (
                "machine run"@,
                "`--image -` reads the image archive from stdin and cannot be combined with -i/-t, which also use stdin.\nPipe the archive from a file instead: --image ./image.tar"@,
            ),
        )
    } else if cmd.image is None && p.image is None && command.len() > 0 && image_like(command[0]) {
        Some(
            (
                "machine run"@,
                "'"@ + command[0]
                    + "' looks like a container image reference, not a command.\nTo run a container, use --image:\n  "@
                    + image_suggestion(command),
            ),
        )
    } else {
        None
    }
}

fn suggest_image(command: &[String]) -> (r: String)
    requires
        command@.len() > 0,
    ensures
        r@ == image_suggestion(texts(command@)),
{
    let ghost all = texts(command@).skip(1);
    let mut rest: Vec<String> = Vec::new();
    let mut i: usize = 1;
    proof {
        assert(all.take(0) =~= Seq::empty());
        assert(texts(rest@) =~= Seq::empty());
    }
    while i < command.len()
        invariant
            1 <= i <= command@.len(),
            all == texts(command@).skip(1),
            texts(rest@) == without_dashes(all.take(i - 1)),
        decreases command@.len() - i,
    {
        proof {
            assert(all.take(i as int).drop_last() =~= all.take(i - 1));
            assert(all.take(i as int).last() == command@[i as int]@);
        }
        if !text_eq(command[i].as_str(), "--") {
            let ghost before = rest@;
            let s = command[i].clone();
            rest.push(s);
            proof { lemma_texts_push(before, s); }
        }
        i = i + 1;
    }
    proof { assert(all.take(command@.len() - 1) =~= all); }
    if rest.len() == 0 {
        say2("smolvm machine run --image ", command[0].as_str())
    } else {
        let tail = join_texts(&rest, " ");
        say4("smolvm machine run --image ", command[0].as_str(), " -- ", tail.as_str())
    }
}

/// Refuses a run that cannot do what was meant.
pub fn check_run(cmd: &RunCmd, p: &CreateVmParams) -> (r: Result<(), ConfigError>)
    ensures
        refusal(r) == run_refusal(*cmd, p@),
{
    let bare = cmd.image.is_none() && p.image.is_none();
    if bare && !cmd.interactive && !cmd.tty && !cmd.detach && cmd.command.len() == 0
        && p.entrypoint.len() == 0 && p.cmd.len() == 0 {
        return Err(
            config_error(
                "machine run",
                "no command specified.\nUse: smolvm machine run -- <command>\nOr:  smolvm machine run -it".to_owned(),
            ),
        );
    }
    let from_stdin = match &cmd.image {
        Some(s) => text_eq(s.as_str(), "-"),
        None => false,
    };
    if from_stdin && (cmd.interactive || cmd.tty) {
        return Err(
            config_error(
                "machine run",
                "`--image -` reads the image archive from stdin and cannot be combined with -i/-t, which also use stdin.\nPipe the archive from a file instead: --image ./image.tar".to_owned(),
            ),
        );
    }
    if bare && cmd.command.len() > 0 {
        if is_likely_image_ref(cmd.command[0].as_str()) {
            let suggestion = suggest_image(&cmd.command);
            return Err(
                config_error(
                    "machine run",
                    say4(
                        "'",
                        cmd.command[0].as_str(),
                        "' looks like a container image reference, not a command.\nTo run a container, use --image:\n  ",
                        suggestion.as_str(),
                    ),
                ),
            );
        }
    }
    Ok(())
}

// ---------------------------------------------------------------------------
// The machine
// ---------------------------------------------------------------------------

/// The resources of a run: what either the flags or the parameters ask for.
pub open spec fn run_resources_of(cmd: RunCmd, p: ParamsModel) -> ResourcesModel {
    ResourcesModel {
        gpu: cmd.gpu || p.gpu,
        gpu_vram_mib: match cmd.gpu_vram_mib {
            Some(n) => Some(n),
            None => p.gpu_vram_mib,
        },
        cuda: cmd.cuda || p.cuda,
        rosetta: cmd.rosetta || p.rosetta,
        ..resources_of(p)
    }
}

/// The resources of a run.
pub fn run_resources(cmd: &RunCmd, p: &CreateVmParams) -> (r: VmResources)
    ensures
        r@ == run_resources_of(*cmd, p@),
{
    let mut r = resources(p);
    r.gpu = cmd.gpu || p.gpu;
    r.gpu_vram_mib =
    match cmd.gpu_vram_mib {
        Some(n) => Some(n),
        None => p.gpu_vram_mib,
    };
    r.cuda = cmd.cuda || p.cuda;
    r.rosetta = cmd.rosetta || p.rosetta;
    r
}

/// The socket of the host's SSH agent, if it is wanted; an error if there is none.
pub fn ssh_agent_socket(wanted: bool, socket: Option<&str>) -> (r: Result<
    Option<String>,
    ConfigError,
>)
    ensures
        match r {
            Ok(s) => opt_text(s) == if wanted {
                opt_str(socket)
            } else {
                None
            } && (wanted ==> socket is Some),
            Err(e) => wanted && socket is None && e@ == (
                "--ssh-agent"@,
                "SSH_AUTH_SOCK is not set. Start an SSH agent with: eval $(ssh-agent) && ssh-add"@,
            ),
        },
{
    if !wanted {
        return Ok(None);
    }
    match socket {
        Some(s) => Ok(Some(s.to_owned())),
        None => Err(
            config_error(
                "--ssh-agent",
                "SSH_AUTH_SOCK is not set. Start an SSH agent with: eval $(ssh-agent) && ssh-add".to_owned(),
            ),
        ),
    }
}

/// A disk that an entry names, and whether it is read only.
pub open spec fn extra_disk(entry: Seq<char>) -> (Seq<char>, bool) {
    if entry.len() >= 3 && entry.skip(entry.len() - 3) == ":ro"@ {
        (entry.take(entry.len() - 3), true)
    } else {
        (entry, false)
    }
}

/// The disks that entries name; empty ones name none.
pub open spec fn extra_disks_of(entries: Seq<Seq<char>>) -> Seq<(Seq<char>, bool)>
    decreases entries.len(),
{
    if entries.len() == 0 {
        Seq::empty()
    } else if entries.last().len() == 0 {
        extra_disks_of(entries.drop_last())
    } else {
        extra_disks_of(entries.drop_last()).push(extra_disk(entries.last()))
    }
}

/// Disks by what they are.
pub open spec fn disks_view(v: Seq<(String, bool)>) -> Seq<(Seq<char>, bool)> {
    v.map_values(|d: (String, bool)| (d.0@, d.1))
}

/// The disks that a setting adds, `PATH[:ro]` with commas between.
pub fn extra_disks(setting: Option<&str>) -> (r: Vec<(String, bool)>)
    ensures
        disks_view(r@) == match opt_str(setting) {
            Some(s) => extra_disks_of(split_on(s, ',')),
            None => Seq::empty(),
        },
{
    let mut out: Vec<(String, bool)> = Vec::new();
    proof { assert(disks_view(out@) =~= Seq::empty()); }
    let text = match setting {
        Some(s) => s,
        None => {
            return out;
        },
    };
    let entries = split_chars(&chars_of(text), ',');
    let ghost all = pieces(entries@);
    let mut i: usize = 0;
    proof { assert(all.take(0) =~= Seq::empty()); }
    while i < entries.len()
        invariant
            i <= entries@.len(),
            all == pieces(entries@),
            disks_view(out@) == extra_disks_of(all.take(i as int)),
        decreases entries@.len() - i,
    {
        proof {
            assert(all.take(i + 1).drop_last() =~= all.take(i as int));
            assert(all.take(i + 1).last() == entries@[i as int]@);
            reveal_strlit(":ro");
        }
        let entry = &entries[i];
        let n = entry.len();
        if n > 0 {
            let ghost before = out@;
            let ro = n >= 3 && chars_are(&stretch(entry, n - 3, n), ":ro");
            proof {
                if n >= 3 {
                    assert(entry@.subrange(n - 3, n as int) =~= entry@.skip(n - 3));
                    assert(entry@.subrange(0, n - 3) =~= entry@.take(n - 3));
                }
            }
            let path = if ro {
                string_of(&stretch(entry, 0, n - 3))
            } else {
                string_of(entry)
            };
            out.push((path, ro));
            proof {
                assert(disks_view(out@) =~= disks_view(before).push((path@, ro)));
            }
        }
        i = i + 1;
    }
    proof { assert(all.take(entries@.len() as int) =~= all); }
    out
}

/// The platform to pull: the one asked for; with translation the one that is
/// translated.
pub open spec fn platform_of(cmd: RunCmd, p: ParamsModel) -> Option<Seq<char>> {
    match opt_text(cmd.oci_platform) {
        Some(s) => Some(s),
        None => if cmd.rosetta || p.rosetta {
            Some("linux/amd64"@)
        } else {
            None
        },
    }
}

/// The platform to pull.
pub fn run_platform(cmd: &RunCmd, p: &CreateVmParams) -> (r: Option<String>)
    ensures
        opt_text(r) == platform_of(*cmd, p@),
{
    match &cmd.oci_platform {
        Some(s) => Some(s.clone()),
        None => if cmd.rosetta || p.rosetta {
            Some("linux/amd64".to_owned())
        } else {
            None
        },
    }
}

/// How an image is pulled.
#[derive(Debug)]
pub struct PullPlan {
    pub image: String,
    pub platform: Option<String>,
    pub proxy: Option<String>,
    pub no_proxy: Option<String>,
}

/// How the image of a run is pulled, if it is: one whose layers are on the host is not.
pub fn run_pull(cmd: &RunCmd, p: &CreateVmParams, image: Option<&str>, packed: bool) -> (r: Option<
    PullPlan,
>)
    ensures
        match (image, r) {
            (Some(i), Some(plan)) => !packed && plan.image@ == i@ && opt_text(plan.platform)
                == platform_of(*cmd, p@) && opt_text(plan.proxy) == opt_text(cmd.proxy)
                && opt_text(plan.no_proxy) == opt_text(cmd.no_proxy),
            (_, None) => packed || image is None,
            _ => false,
        },
{
    match image {
        Some(i) => if packed {
            None
        } else {
            Some(
                PullPlan {
                    image: i.to_owned(),
                    platform: run_platform(cmd, p),
                    proxy: copy_opt_text(&cmd.proxy),
                    no_proxy: copy_opt_text(&cmd.no_proxy),
                },
            )
        },
        None => None,
    }
}

/// What a pull that failed is reported as: without a network, with a hint.
pub fn pull_failure(net: bool, error: &str, image: &str) -> (r: String)
    ensures
        r@ == if net {
            error@
        } else {
            error@
                + "\n\nHint: networking is disabled. Add --net to enable image pulls:\n  smolvm machine run --net --image "@
                + image@ + " ..."@
        },
{
    if net {
        error.to_owned()
    } else {
        say4(
            error,
            "\n\nHint: networking is disabled. Add --net to enable image pulls:\n  smolvm machine run --net --image ",
            image,
            " ...",
        )
    }
}

// ---------------------------------------------------------------------------
// The command
// ---------------------------------------------------------------------------

/// What an image says it runs.
#[derive(Debug)]
pub struct ImageCommand {
    pub entrypoint: Vec<String>,
    pub cmd: Vec<String>,
}

/// The command where nothing names one: waiting if detached, a shell if not.
pub open spec fn fallback_command(detach: bool, site: Site) -> Seq<Seq<char>> {
    if detach {
        texts(site.idle_cmd@)
    } else {
        seq![site.shell_cmd@]
    }
}

/// The command to run: the flags' before the parameters' before the image's before
/// the fallback.
pub open spec fn run_command_of(
    cmd: RunCmd,
    p: ParamsModel,
    image: Option<ImageCommand>,
    site: Site,
) -> Seq<Seq<char>> {
    let of_image = match image {
        Some(i) => texts(i.entrypoint@) + texts(i.cmd@),
        None => Seq::empty(),
    };
    if workload(cmd, p).len() > 0 {
        workload(cmd, p)
    } else if of_image.len() > 0 {
        of_image
    } else {
        fallback_command(cmd.detach, site)
    }
}

fn fallback(detach: bool, site: &Site) -> (r: Vec<String>)
    ensures
        texts(r@) == fallback_command(detach, *site),
{
    if detach {
        copy_texts(&site.idle_cmd)
    } else {
        let mut r: Vec<String> = Vec::new();
        r.push(site.shell_cmd.clone());
        proof { assert(texts(r@) =~= seq![site.shell_cmd@]); }
        r
    }
}

/// The command to run.
pub fn run_command(
    cmd: &RunCmd,
    p: &CreateVmParams,
    image: &Option<ImageCommand>,
    site: &Site,
) -> (r: Vec<String>)
    ensures
        texts(r@) == run_command_of(*cmd, p@, *image, *site),
{
    let first = workload_of(cmd, p);
    if first.len() > 0 {
        return first;
    }
    match image {
        Some(i) => {
            let c = chain_texts(&i.entrypoint, &i.cmd);
            if c.len() > 0 {
                return c;
            }
        },
        None => {},
    }
    fallback(cmd.detach, site)
}

/// The variables of a run: those of the parameters, then the secrets.
pub fn run_env(p: &CreateVmParams, secrets: &[(String, String)]) -> (r: Vec<(String, String)>)
    ensures
        pairs(r@) == env_pairs(p@.env) + pairs(secrets@),
{
    let mut env = parse_env_list(&p.env);
    extend_pairs(&mut env, secrets);
    env
}

/// Whether a command only waits.
pub fn is_idle(command: &[String], site: &Site) -> (r: bool)
    ensures
        r == (command@.len() == 0 || texts(command@) == texts(site.idle_cmd@)),
{
    if command.len() == 0 {
        return true;
    }
    if command.len() != site.idle_cmd.len() {
        proof { assert(texts(command@).len() != texts(site.idle_cmd@).len()); }
        return false;
    }
    let mut i: usize = 0;
    while i < command.len()
        invariant
            i <= command@.len(),
            command@.len() == site.idle_cmd@.len(),
            forall|j: int| 0 <= j < i ==> (#[trigger] command@[j])@ == site.idle_cmd@[j]@,
        decreases command@.len() - i,
    {
        if !text_eq(command[i].as_str(), site.idle_cmd[i].as_str()) {
            proof {
                assert(texts(command@)[i as int] == command@[i as int]@);
                assert(texts(site.idle_cmd@)[i as int] == site.idle_cmd@[i as int]@);
            }
            return false;
        }
        i = i + 1;
    }
    proof { assert(texts(command@) =~= texts(site.idle_cmd@)); }
    true
}

/// How the command is run.
#[derive(Debug, Clone, Copy, PartialEq, Eq, Structural)]
pub enum RunMode {
    /// In the background; the machine stays.
    Detached,
    /// With the terminal; the machine goes with it.
    Interactive { tty: bool },
    /// With its output captured; the machine goes with it.
    Captured,
}

/// How the command is run.
pub fn run_mode(cmd: &RunCmd) -> (r: RunMode)
    ensures
        r == if cmd.detach {
            RunMode::Detached
        } else if cmd.interactive || cmd.tty {
            RunMode::Interactive { tty: cmd.tty }
        } else {
            RunMode::Captured
        },
{
    if cmd.detach {
        RunMode::Detached
    } else if cmd.interactive || cmd.tty {
        RunMode::Interactive { tty: cmd.tty }
    } else {
        RunMode::Captured
    }
}

/// Whether an error says that a file was not found.
pub open spec fn not_found(message: Seq<char>) -> bool {
    holds(message, "No such file or directory"@) || holds(message, "os error 2"@)
}

/// What a command that failed in a machine without an image is reported as: where it
/// was not found and is no path, with a hint.
pub fn exec_failure(message: &str, command: &[String]) -> (r: String)
    ensures
        ({
            let first = if command@.len() > 0 {
                command@[0]@
            } else {
                ""@
            };
            r@ == if not_found(message@) && !starts(first, "/"@) && !starts(first, "."@) {
                message@ + "\n\nNote: '"@ + first
                    + "' was not found in the VM. If you meant to run a container image, use --image:\n  smolvm machine run --image "@
                    + first + " -- <command>"@
            } else {
                message@
            }
        }),
{
    let first = if command.len() > 0 {
        command[0].as_str()
    } else {
        ""
    };
    let chars = chars_of(first);
    if (holds_text(message, "No such file or directory") || holds_text(message, "os error 2"))
        && strip_prefix_chars(&chars, "/").is_none() && strip_prefix_chars(&chars, ".").is_none() {
        let mut text = say5(
            message,
            "\n\nNote: '",
            first,
            "' was not found in the VM. If you meant to run a container image, use --image:\n  smolvm machine run --image ",
            first,
        );
        text.append(" -- <command>");
        text
    } else {
        message.to_owned()
    }
}

// ---------------------------------------------------------------------------
// The record of a detached machine
// ---------------------------------------------------------------------------

/// What is kept of a machine that was started in the background.
#[derive(Debug)]
pub struct RunRecord {
    pub secret_refs: Table<SecretRef>,
    pub resources: VmResources,
    pub mounts: Vec<(String, String, bool)>,
    pub ports: Vec<(u16, u16)>,
    pub init: Vec<String>,
    pub env: Vec<(String, String)>,
    pub workdir: Option<String>,
    pub user: Option<String>,
    pub image: Option<String>,
    pub entrypoint: Vec<String>,
    pub cmd: Vec<String>,
    pub ssh_agent: bool,
    pub docker_socket: bool,
    pub dns_filter_hosts: Option<Vec<String>>,
}

/// What is kept of a machine that was started in the background.
pub struct RunRecordModel {
    pub secret_refs: Map<Seq<char>, SecretModel>,
    pub resources: ResourcesModel,
    pub mounts: Seq<(Seq<char>, Seq<char>, bool)>,
    pub ports: Seq<(u16, u16)>,
    pub init: Seq<Seq<char>>,
    pub env: Seq<(Seq<char>, Seq<char>)>,
    pub workdir: Option<Seq<char>>,
    pub user: Option<Seq<char>>,
    pub image: Option<Seq<char>>,
    pub entrypoint: Seq<Seq<char>>,
    pub cmd: Seq<Seq<char>>,
    pub ssh_agent: bool,
    pub docker_socket: bool,
    pub dns_filter_hosts: Option<Seq<Seq<char>>>,
}

impl View for RunRecord {
    type V = RunRecordModel;

    open spec fn view(&self) -> RunRecordModel {
        RunRecordModel {
            secret_refs: self.secret_refs@,
            resources: self.resources@,
            mounts: mounts_view(self.mounts@),
            ports: self.ports@,
            init: texts(self.init@),
            env: pairs(self.env@),
            workdir: opt_text(self.workdir),
            user: opt_text(self.user),
            image: opt_text(self.image),
            entrypoint: texts(self.entrypoint@),
            cmd: texts(self.cmd@),
            ssh_agent: self.ssh_agent,
            docker_socket: self.docker_socket,
            dns_filter_hosts: opt_texts(self.dns_filter_hosts),
        }
    }
}

/// Variables without those that are secrets.
pub open spec fn without_secrets(
    env: Seq<(Seq<char>, Seq<char>)>,
    secrets: Map<Seq<char>, SecretModel>,
) -> Seq<(Seq<char>, Seq<char>)>
    decreases env.len(),
{
    if env.len() == 0 {
        Seq::empty()
    } else if secrets.contains_key(env.last().0) {
        without_secrets(env.drop_last(), secrets)
    } else {
        without_secrets(env.drop_last(), secrets).push(env.last())
    }
}

/// The value of a secret never gets into what is kept of a machine: no variable that
/// is kept has the name of a secret.
pub proof fn law_record_holds_no_secret(
    env: Seq<(Seq<char>, Seq<char>)>,
    secrets: Map<Seq<char>, SecretModel>,
)
    ensures
        forall|i: int|
            0 <= i < without_secrets(env, secrets).len() ==> !secrets.contains_key(
                (#[trigger] without_secrets(env, secrets)[i]).0,
            ) && env.contains(without_secrets(env, secrets)[i]),
    decreases env.len(),
{
    if env.len() > 0 {
        let front = env.drop_last();
        law_record_holds_no_secret(front, secrets);
        let all = without_secrets(env, secrets);
        let part = without_secrets(front, secrets);
        assert forall|i: int| 0 <= i < all.len() implies !secrets.contains_key(
            (#[trigger] all[i]).0,
        ) && env.contains(all[i]) by {
            if i < part.len() {
                assert(all[i] == part[i]);
                let j = choose|j: int| 0 <= j < front.len() && front[j] == part[i];
                assert(env[j] == all[i]);
            } else {
                assert(all[i] == env[env.len() - 1]);
            }
        }
    }
}

fn drop_secrets(env: &[(String, String)], secrets: &Table<SecretRef>) -> (r: Vec<(String, String)>)
    requires
        secrets.wf(),
    ensures
        pairs(r@) == without_secrets(pairs(env@), secrets@),
{
    let mut out: Vec<(String, String)> = Vec::new();
    let ghost all = pairs(env@);
    let mut i: usize = 0;
    proof {
        assert(all.take(0) =~= Seq::empty());
        assert(pairs(out@) =~= Seq::empty());
    }
    while i < env.len()
        invariant
            i <= env@.len(),
            secrets.wf(),
            all == pairs(env@),
            pairs(out@) == without_secrets(all.take(i as int), secrets@),
        decreases env@.len() - i,
    {
        proof {
            assert(all.take(i + 1).drop_last() =~= all.take(i as int));
            assert(all.take(i + 1).last() == (env@[i as int].0@, env@[i as int].1@));
        }
        if !secrets.contains(env[i].0.as_str()) {
            let ghost before = out@;
            let p = (env[i].0.clone(), env[i].1.clone());
            out.push(p);
            proof { assert(pairs(out@) =~= pairs(before).push((p.0@, p.1@))); }
        }
        i = i + 1;
    }
    proof { assert(all.take(env@.len() as int) =~= all); }
    out
}

/// What is kept of a machine whatever it runs.
pub open spec fn kept_of(cmd: RunCmd, p: ParamsModel, mounts: Seq<(Seq<char>, Seq<char>, bool)>) -> RunRecordModel {
    RunRecordModel {
        secret_refs: p.secret_refs,
        resources: run_resources_of(cmd, p),
        mounts,
        ports: p.port,
        init: p.init,
        env: Seq::empty(),
        workdir: None,
        user: None,
        image: None,
        entrypoint: Seq::empty(),
        cmd: Seq::empty(),
        ssh_agent: cmd.ssh_agent || p.ssh_agent,
        docker_socket: cmd.docker_socket || p.docker_socket,
        dns_filter_hosts: p.dns_filter_hosts,
    }
}

fn keep(cmd: &RunCmd, p: &CreateVmParams, mounts: &[(String, String, bool)]) -> (r: RunRecord)
    requires
        p.wf(),
    ensures
        r@ == kept_of(*cmd, p@, mounts_view(mounts@)),
        r.secret_refs.wf(),
{
    let r = RunRecord {
        secret_refs: copy_secrets(&p.secret_refs),
        resources: run_resources(cmd, p),
        mounts: copy_mounts(mounts),
        ports: copy_ports(&p.port),
        init: copy_texts(&p.init),
        env: Vec::new(),
        workdir: None,
        user: None,
        image: None,
        entrypoint: Vec::new(),
        cmd: Vec::new(),
        ssh_agent: cmd.ssh_agent || p.ssh_agent,
        docker_socket: cmd.docker_socket || p.docker_socket,
        dns_filter_hosts: copy_opt_texts(&p.dns_filter_hosts),
    };
    proof {
        assert(pairs(r.env@) =~= Seq::empty());
        assert(texts(r.entrypoint@) =~= Seq::empty());
        assert(texts(r.cmd@) =~= Seq::empty());
    }
    r
}

/// What a container of an image is started with.
#[derive(Debug)]
pub struct ContainerDefaults {
    pub env: Vec<(String, String)>,
    pub workdir: Option<String>,
    pub user: Option<String>,
}

/// What is kept of a machine that runs an image: the whole command, and no variable
/// that is a secret.
pub fn image_record(
    cmd: &RunCmd,
    p: &CreateVmParams,
    mounts: &[(String, String, bool)],
    image: &str,
    defaults: &ContainerDefaults,
    command: &[String],
) -> (r: RunRecord)
    requires
        p.wf(),
    ensures
        r.secret_refs.wf(),
        r@ == (RunRecordModel {
            env: without_secrets(pairs(defaults.env@), p@.secret_refs),
            workdir: opt_text(defaults.workdir),
            user: opt_text(defaults.user),
            image: Some(image@),
            cmd: texts(command@),
            ..kept_of(*cmd, p@, mounts_view(mounts@))
        }),
{
    let mut r = keep(cmd, p, mounts);
    r.env = drop_secrets(&defaults.env, &p.secret_refs);
    r.workdir = copy_opt_text(&defaults.workdir);
    r.user = copy_opt_text(&defaults.user);
    r.image = Some(image.to_owned());
    r.cmd = copy_texts(command);
    r
}

/// What is kept of a machine without an image: its own command, the variables of the
/// parameters, and no translation.
pub fn bare_record(cmd: &RunCmd, p: &CreateVmParams, mounts: &[(String, String, bool)]) -> (r:
    RunRecord)
    requires
        p.wf(),
    ensures
        r.secret_refs.wf(),
        r@ == (RunRecordModel {
            resources: ResourcesModel { rosetta: false, ..run_resources_of(*cmd, p@) },
            env: env_pairs(p@.env),
            workdir: p@.workdir,
            entrypoint: p@.entrypoint,
            cmd: p@.cmd,
            ..kept_of(*cmd, p@, mounts_view(mounts@))
        }),
{
    let mut r = keep(cmd, p, mounts);
    r.resources.rosetta = false;
    r.env = parse_env_list(&p.env);
    r.workdir = copy_opt_text(&p.workdir);
    r.entrypoint = copy_texts(&p.entrypoint);
    r.cmd = copy_texts(&p.cmd);
    r
}

// ---------------------------------------------------------------------------
// Afterwards
// ---------------------------------------------------------------------------

/// The arguments of the process that cleans up behind a machine: only for one that
/// is known for certain by when it started.
pub fn cleanup_args(name: &str, pid: i32, start_time: Option<u64>) -> (r: Option<Vec<String>>)
    ensures
        match (start_time, r) {
            (Some(t), Some(v)) => pid > 0 && texts(v@) == seq![
                "_cleanup-ephemeral"@,
                name@,
                decimal(pid as nat),
                decimal(t as nat),
            ],
            (Some(_), None) => pid <= 0,
            (None, r) => r is None,
        },
{
    match start_time {
        Some(t) => {
            if pid <= 0 {
                return None;
            }
            let mut v: Vec<String> = Vec::new();
            v.push("_cleanup-ephemeral".to_owned());
            v.push(name.to_owned());
            v.push(string_of(&decimal_chars(pid as u128)));
            v.push(string_of(&decimal_chars(t as u128)));
            proof {
                assert(texts(v@) =~= seq![
                    "_cleanup-ephemeral"@,
                    name@,
                    decimal(pid as nat),
                    decimal(t as nat),
                ]);
            }
            Some(v)
        },
        None => None,
    }
}

/// The flag that names a machine, if it is not the default one.
pub open spec fn name_flag(name: Seq<char>) -> Seq<char> {
    if name == default_name() {
        ""@
    } else {
        " --name "@ + name
    }
}

/// What a user is told of a machine that runs in the background. `process` is that of
/// a machine without an image.
pub fn detached_notice(name: &str, process: Option<i32>) -> (r: Vec<String>)
    ensures
        texts(r@) == seq![
            "Machine"@ + (if name@ == default_name() {
                ""@
            } else {
                " '"@ + name@ + "'"@
            }) + match process {
                None => " running in background"@,
                Some(pid) => " running (PID: "@ + signed_decimal(pid as int) + ")"@,
            },
            "\nTo interact:"@,
            "  smolvm machine exec"@ + name_flag(name@) + " -- <command>"@,
            "\nTo stop:"@,
            "  smolvm machine stop"@ + name_flag(name@),
        ],
{
    let is_default = text_eq(name, "default");
    let named = if is_default {
        "".to_owned()
    } else {
        say3(" '", name, "'")
    };
    let flag = if is_default {
        "".to_owned()
    } else {
        say2(" --name ", name)
    };
    let state = match process {
        None => " running in background".to_owned(),
        Some(pid) => say3(" running (PID: ", signed_text(pid).as_str(), ")"),
    };
    let mut v: Vec<String> = Vec::new();
    v.push(say3("Machine", named.as_str(), state.as_str()));
    v.push("\nTo interact:".to_owned());
    v.push(say3("  smolvm machine exec", flag.as_str(), " -- <command>"));
    v.push("\nTo stop:".to_owned());
    v.push(say2("  smolvm machine stop", flag.as_str()));
    proof {
        let want = seq![
            "Machine"@ + (if name@ == default_name() {
                ""@
            } else {
                " '"@ + name@ + "'"@
            }) + match process {
                None => " running in background"@,
                Some(pid) => " running (PID: "@ + signed_decimal(pid as int) + ")"@,
            },
            "\nTo interact:"@,
            "  smolvm machine exec"@ + name_flag(name@) + " -- <command>"@,
            "\nTo stop:"@,
            "  smolvm machine stop"@ + name_flag(name@),
        ];
        assert(texts(v@) =~= want);
    }
    v
}

} // verus!
