//! Creating a machine that is started later.
use crate::copying::{copy_opt_text, copy_ports, copy_texts, opt_str, opt_text, opt_texts, texts};
use crate::machine::errors::{ConfigError, config_error};
use crate::machine::flags::{
    PublishedSocketConfig, SecretModel, SecretRef, SocketModel, egress_ranges,
    parse_cli_secret_refs, parse_published_sockets, published_sockets, resolve_egress_flags,
    secret_refs, sockets_view,
};
use crate::machine::params::{
    CreateVmParams, ParamsModel, Site, distinct_ports, duplicate_port, flags_merged, merge_flags,
    port_error, port_taken_before,
};
use crate::numerals::decimal;
use crate::phrase::{chain_texts, extend_texts};
use crate::table::Table;
use crate::text::{say2, say3, text_lt};
use vstd::prelude::*;

verus! {

/// What `create` is asked for.
#[derive(Debug)]
pub struct CreateCmd {
    pub name: Option<String>,
    pub image: Option<String>,
    pub max_image_size: Option<u64>,
    pub cpus: u8,
    pub mem: u32,
    pub storage: Option<u64>,
    pub overlay: Option<u64>,
    pub volume: Vec<String>,
    pub port: Vec<(u16, u16)>,
    pub net: bool,
    pub net_backend: Option<String>,
    pub dns: Option<u32>,
    pub allow_cidr: Vec<String>,
    pub allow_host: Vec<String>,
    pub outbound_localhost_only: bool,
    pub gpu: bool,
    pub gpu_vram_mib: Option<u32>,
    pub rosetta: bool,
    pub expose_socket: Vec<String>,
    pub mount_socket: Vec<String>,
    pub init: Vec<String>,
    pub env: Vec<String>,
    pub workdir: Option<String>,
    pub ssh_agent: bool,
    pub cuda: bool,
    pub auto_graph: bool,
    pub docker_socket: bool,
    pub secret_env: Vec<String>,
    pub secret_file: Vec<String>,
    pub smolfile: Option<String>,
    pub from: Option<String>,
    pub command: Vec<String>,
}

impl CreateCmd {
    /// The packed machine to create from, if any: the one that is named, or the one that
    /// the image turned out to be.
    pub fn artifact(&self, packed_image: Option<&str>) -> (r: Option<String>)
        ensures
            opt_text(r) == match opt_text(self.from) {
                Some(p) => Some(p),
                None => if self.image is Some {
                    opt_str(packed_image)
                } else {
                    None
                },
            },
    {
        match &self.from {
            Some(p) => Some(p.clone()),
            None => if self.image.is_some() {
                match packed_image {
                    Some(p) => Some(p.to_owned()),
                    None => None,
                }
            } else {
                None
            },
        }
    }
}

// ---------------------------------------------------------------------------
// From an image
// ---------------------------------------------------------------------------

/// The parameters before the switches: with the flags merged, and the sockets.
pub open spec fn create_merged(
    cmd: CreateCmd,
    p: ParamsModel,
    hosts: Option<Seq<Seq<char>>>,
    site: Site,
    sockets: Seq<SocketModel>,
    secrets: Map<Seq<char>, SecretModel>,
) -> ParamsModel {
    ParamsModel {
        published_sockets: sockets,
        ..flags_merged(
            p,
            cmd.auto_graph,
            cmd.dns is Some,
            texts(site.graph_env@),
            hosts,
            secrets,
        )
    }
}

impl CreateCmd {
    /// Merges the flags into the parameters: sockets that cannot be read are reported
    /// before secrets that cannot.
    pub fn run(
        &self,
        params: CreateVmParams,
        hosts: Option<Vec<String>>,
        site: &Site,
        max_sockets: usize,
    ) -> (r: Result<CreateVmParams, ConfigError>)
        requires
            params.wf(),
        ensures
            match (
                published_sockets(
                    texts(self.expose_socket@),
                    texts(self.mount_socket@),
                    max_sockets as int,
                ),
                secret_refs(texts(self.secret_env@), texts(self.secret_file@)),
                r,
            ) {
                (Err(e), _, Err(x)) => x@ == e,
                (Ok(_), Err(e), Err(x)) => x@ == e,
                (Ok(sockets), Ok(secrets), Ok(p)) => p.wf() && p@ == create_merged(
                    *self,
                    params@,
                    opt_texts(hosts),
                    *site,
                    sockets,
                    secrets,
                ),
                _ => false,
            },
            r matches Ok(p) ==> {
                &&& p@ == (ParamsModel {
                    env: p@.env,
                    cuda: p@.cuda,
                    net: p@.net,
                    dns_filter_hosts: p@.dns_filter_hosts,
                    published_sockets: p@.published_sockets,
                    secret_refs: p@.secret_refs,
                    ..params@
                })
                &&& !self.auto_graph ==> p@.env == params@.env && p.cuda == params.cuda
                &&& self.auto_graph ==> p@.env == params@.env + texts(site.graph_env@) && p.cuda
                &&& self.dns is Some ==> p.net
                &&& self.dns is None ==> p.net == params.net
                &&& hosts is None ==> p@.dns_filter_hosts == params@.dns_filter_hosts
                &&& hosts is Some && params.dns_filter_hosts is None ==> p@.dns_filter_hosts
                    == opt_texts(hosts)
                &&& hosts is Some && params.dns_filter_hosts is Some ==> p@.dns_filter_hosts
                    == Some(opt_texts(params.dns_filter_hosts)->Some_0 + opt_texts(hosts)->Some_0)
                &&& secret_refs(texts(self.secret_env@), texts(self.secret_file@)) matches Ok(own)
                    && p@.secret_refs == params@.secret_refs.union_prefer_right(own)
            },
    {
        let sockets = match parse_published_sockets(&self.expose_socket, &self.mount_socket, max_sockets) {
            Ok(s) => s,
            Err(e) => {
                return Err(e);
            },
        };
        let secrets = match parse_cli_secret_refs(&self.secret_env, &self.secret_file) {
            Ok(s) => s,
            Err(e) => {
                return Err(e);
            },
        };
        let mut p = merge_flags(params, self.auto_graph, self.dns.is_some(), site, hosts, &secrets);
        p.published_sockets = sockets;
        Ok(p)
    }
}

/// The parameters with the switches of the flags on.
pub open spec fn switches_set(cmd: CreateCmd, p: ParamsModel) -> ParamsModel {
    ParamsModel {
        ssh_agent: p.ssh_agent || cmd.ssh_agent,
        cuda: p.cuda || cmd.cuda,
        docker_socket: p.docker_socket || cmd.docker_socket,
        gpu: p.gpu || cmd.gpu,
        rosetta: p.rosetta || cmd.rosetta,
        gpu_vram_mib: match cmd.gpu_vram_mib {
            Some(n) => Some(n),
            None => p.gpu_vram_mib,
        },
        ..p
    }
}

/// Sets the switches of the flags, and refuses to map a host port twice.
pub fn finish_create(cmd: &CreateCmd, params: CreateVmParams) -> (r: Result<
    CreateVmParams,
    ConfigError,
>)
    requires
        params.wf(),
    ensures
        match r {
            Ok(p) => p.wf() && p@ == switches_set(*cmd, params@) && distinct_ports(p@.port),
            Err(e) => !distinct_ports(params@.port) && exists|j: int| #[trigger]
                port_taken_before(params@.port, j) && e@ == (
                    "validate ports"@,
                    "duplicate host port: "@ + decimal(params@.port[j].0 as nat)
                        + " is specified more than once"@,
                ),
        },
        r matches Ok(p) ==> {
            &&& p@ == (ParamsModel {
                ssh_agent: p@.ssh_agent,
                cuda: p@.cuda,
                docker_socket: p@.docker_socket,
                gpu: p@.gpu,
                rosetta: p@.rosetta,
                gpu_vram_mib: p@.gpu_vram_mib,
                ..params@
            })
            &&& p.ssh_agent <==> params.ssh_agent || cmd.ssh_agent
            &&& p.cuda <==> params.cuda || cmd.cuda
            &&& p.docker_socket <==> params.docker_socket || cmd.docker_socket
            &&& p.gpu <==> params.gpu || cmd.gpu
            &&& p.rosetta <==> params.rosetta || cmd.rosetta
            &&& cmd.gpu_vram_mib is Some ==> p.gpu_vram_mib == cmd.gpu_vram_mib
            &&& cmd.gpu_vram_mib is None ==> p.gpu_vram_mib == params.gpu_vram_mib
        },
{
    let mut p = params;
    p.ssh_agent = p.ssh_agent || cmd.ssh_agent;
    p.cuda = p.cuda || cmd.cuda;
    p.docker_socket = p.docker_socket || cmd.docker_socket;
    p.gpu = p.gpu || cmd.gpu;
    p.rosetta = p.rosetta || cmd.rosetta;
    if cmd.gpu_vram_mib.is_some() {
        p.gpu_vram_mib = cmd.gpu_vram_mib;
    }
    match duplicate_port(&p.port) {
        Some(j) => {
            proof {
                let ports = p.port@;
                let i = choose|i: int| 0 <= i < j && (#[trigger] ports[i]).0 == ports[j as int].0;
                assert(ports[i].0 == ports[j as int].0);
            }
            Err(port_error("validate ports", p.port[j].0))
        },
        None => Ok(p),
    }
}

// ---------------------------------------------------------------------------
// From a packed machine
// ---------------------------------------------------------------------------

/// What a packed machine says of itself.
#[derive(Debug)]
pub struct PackManifest {
    /// It is a machine with disks, not layers of an image.
    pub vm_mode: bool,
    pub image: String,
    pub entrypoint: Vec<String>,
    pub cmd: Vec<String>,
    pub cpus: u8,
    pub mem: u32,
    pub network: bool,
    pub env: Vec<String>,
    pub workdir: Option<String>,
    pub gpu: bool,
    pub secret_refs: Table<SecretRef>,
    pub overlay_template: Option<String>,
    pub storage_template: Option<String>,
    pub overlay_logical_size: Option<u64>,
}

/// The disks that a packed machine brings.
#[derive(Debug)]
pub struct DiskSeed {
    pub overlay_template: Option<String>,
    pub storage_template: Option<String>,
    pub overlay_logical_size: Option<u64>,
}

/// The disks that a packed machine brings: only one with disks does.
pub fn disk_seed(m: &PackManifest) -> (r: Option<DiskSeed>)
    ensures
        match r {
            Some(s) => m.vm_mode && opt_text(s.overlay_template) == opt_text(m.overlay_template)
                && opt_text(s.storage_template) == opt_text(m.storage_template)
                && s.overlay_logical_size == m.overlay_logical_size,
            None => !m.vm_mode,
        },
{
    if m.vm_mode {
        Some(
            DiskSeed {
                overlay_template: copy_opt_text(&m.overlay_template),
                storage_template: copy_opt_text(&m.storage_template),
                overlay_logical_size: m.overlay_logical_size,
            },
        )
    } else {
        None
    }
}

/// Why a packed machine that is not there cannot be created from.
pub fn artifact_missing(path: &str) -> (r: ConfigError)
    ensures
        r@ == ("create from .smolmachine"@, "file not found: "@ + path@),
{
    config_error("create from .smolmachine", say2("file not found: ", path))
}

/// `key` is the first of the keys.
pub open spec fn first_key<V>(m: Map<Seq<char>, V>, key: Seq<char>) -> bool {
    m.contains_key(key) && forall|k: Seq<char>| #[trigger]
        m.contains_key(k) ==> k == key || text_lt(key, k)
}

/// The error for a packed machine that names a secret of the host. Its words between the
/// name and the brackets are chosen here.
pub open spec fn carried_secret(key: Seq<char>) -> (Seq<char>, Seq<char>) {
    (
        "create from .smolmachine"@,
        "secret '"@ + key
            + "': secret references are not allowed from an untrusted source (packs may not carry secret refs)"@,
    )
}

/// A flag is given that limits egress or names a resolver; each brings the network.
pub open spec fn network_implied(cmd: CreateCmd) -> bool {
    cmd.allow_cidr@.len() > 0 || cmd.allow_host@.len() > 0 || cmd.outbound_localhost_only
        || cmd.dns is Some
}

/// Texts, if there are any.
pub open spec fn if_any(v: Seq<Seq<char>>) -> Option<Seq<Seq<char>>> {
    if v.len() == 0 {
        None
    } else {
        Some(v)
    }
}

/// The parameters of a machine created from a packed one. Flags go over what it
/// says; what has disks of its own is no image; a command of the flags takes the
/// place of its own. `cidrs` are the ranges that the egress flags come to.
pub open spec fn packed_params(
    cmd: CreateCmd,
    m: PackManifest,
    name: Seq<char>,
    path: Seq<char>,
    site: Site,
    cidrs: Seq<Seq<char>>,
    sockets: Seq<SocketModel>,
    secrets: Map<Seq<char>, SecretModel>,
) -> ParamsModel {
    ParamsModel {
        name,
        image: if m.vm_mode {
            None
        } else {
            Some(m.image@)
        },
        entrypoint: if cmd.command@.len() == 0 {
            texts(m.entrypoint@)
        } else {
            Seq::empty()
        },
        cmd: if cmd.command@.len() == 0 {
            texts(m.cmd@)
        } else {
            texts(cmd.command@)
        },
        cpus: if cmd.cpus != site.default_cpus {
            cmd.cpus
        } else {
            m.cpus
        },
        mem: if cmd.mem != site.default_mem {
            cmd.mem
        } else {
            m.mem
        },
        volume: texts(cmd.volume@),
        port: cmd.port@,
        net: cmd.net || m.network || network_implied(cmd),
        network_backend: opt_text(cmd.net_backend),
        dns: cmd.dns,
        init: texts(cmd.init@),
        env: texts(m.env@) + texts(cmd.env@) + if cmd.auto_graph {
            texts(site.graph_env@)
        } else {
            Seq::empty()
        },
        workdir: match opt_text(cmd.workdir) {
            Some(dir) => Some(dir),
            None => opt_text(m.workdir),
        },
        storage_gb: cmd.storage,
        overlay_gb: cmd.overlay,
        allowed_cidrs: if_any(cidrs),
        restart_policy: None,
        restart_max_retries: None,
        restart_max_backoff_secs: None,
        health_cmd: None,
        health_interval_secs: None,
        health_timeout_secs: None,
        health_retries: None,
        health_startup_grace_secs: None,
        ssh_agent: cmd.ssh_agent,
        cuda: cmd.cuda || cmd.auto_graph,
        docker_socket: cmd.docker_socket,
        dns_filter_hosts: if_any(texts(cmd.allow_host@)),
        published_sockets: sockets,
        gpu: m.gpu || cmd.gpu,
        gpu_vram_mib: cmd.gpu_vram_mib,
        rosetta: cmd.rosetta,
        secret_refs: secrets,
        source_smolmachine: Some(path),
    }
}

/// Refuses a packed machine that names secrets: they would read this host's
/// variables and files.
fn check_carried(m: &PackManifest) -> (r: Result<(), ConfigError>)
    requires
        m.secret_refs.wf(),
    ensures
        match r {
            Ok(_) => m.secret_refs@.dom().is_empty(),
            Err(e) => exists|key: Seq<char>| #[trigger]
                first_key(m.secret_refs@, key) && e@ == carried_secret(key),
        },
{
    let order = m.secret_refs.sorted();
    proof {
        m.secret_refs.lemma_keys();
    }
    if order.len() == 0 {
        proof {
            let keys = m.secret_refs.keys();
            if keys.len() > 0 {
                let z = 0int;
                assert(order@.contains(z as usize));
            }
            assert(m.secret_refs@.dom() =~= Set::empty());
        }
        return Ok(());
    }
    let key = m.secret_refs.key_at(order[0]);
    proof {
        let keys = m.secret_refs.keys();
        assert(keys.contains(key@));
        assert(keys.to_set().contains(key@));
        assert forall|k: Seq<char>| #[trigger] m.secret_refs@.contains_key(k) implies k == key@
            || text_lt(key@, k) by {
            assert(keys.to_set().contains(k));
            let n = choose|n: int| 0 <= n < keys.len() && keys[n] == k;
            assert(order@.contains(n as usize));
            let j = choose|j: int| 0 <= j < order@.len() && order@[j] == n as usize;
            if j > 0 {
                assert(text_lt(keys[order@[0] as int], keys[order@[j] as int]));
            }
        }
        assert(first_key(m.secret_refs@, key@));
    }
    Err(
        config_error(
            "create from .smolmachine",
            say3(
                "secret '",
                key.as_str(),
                "': secret references are not allowed from an untrusted source (packs may not carry secret refs)",
            ),
        ),
    )
}

fn some_if_any(v: Vec<String>) -> (r: Option<Vec<String>>)
    ensures
        opt_texts(r) == if_any(texts(v@)),
{
    if v.len() == 0 {
        None
    } else {
        Some(v)
    }
}

fn packed(
    cmd: &CreateCmd,
    m: &PackManifest,
    name: &str,
    path: &str,
    site: &Site,
    cidrs: Vec<String>,
    hosts: Option<Vec<String>>,
    sockets: Vec<PublishedSocketConfig>,
    secrets: Table<SecretRef>,
) -> (r: CreateVmParams)
    requires
        secrets.wf(),
        opt_texts(hosts) == if_any(texts(cmd.allow_host@)),
    ensures
        r.wf(),
        r@ == packed_params(
            *cmd,
            *m,
            name@,
            path@,
            *site,
            texts(cidrs@),
            sockets_view(sockets@),
            secrets@,
        ),
{
    let mut env = chain_texts(&m.env, &cmd.env);
    let ghost plain = texts(env@);
    if cmd.auto_graph {
        extend_texts(&mut env, &site.graph_env);
    } else {
        proof { assert(plain =~= plain + Seq::<Seq<char>>::empty()); }
    }
    let own = cmd.command.len() == 0;
    let entrypoint = if own {
        copy_texts(&m.entrypoint)
    } else {
        let v: Vec<String> = Vec::new();
        proof { assert(texts(v@) =~= Seq::empty()); }
        v
    };
    CreateVmParams {
        name: name.to_owned(),
        image: if m.vm_mode {
            None
        } else {
            Some(m.image.clone())
        },
        entrypoint,
        cmd: if own {
            copy_texts(&m.cmd)
        } else {
            copy_texts(&cmd.command)
        },
        cpus: if cmd.cpus != site.default_cpus {
            cmd.cpus
        } else {
            m.cpus
        },
        mem: if cmd.mem != site.default_mem {
            cmd.mem
        } else {
            m.mem
        },
        volume: copy_texts(&cmd.volume),
        port: copy_ports(&cmd.port),
        net: cmd.net || m.network || cmd.allow_cidr.len() > 0 || cmd.allow_host.len()
            > 0 || cmd.outbound_localhost_only || cmd.dns.is_some(),
        network_backend: copy_opt_text(&cmd.net_backend),
        dns: cmd.dns,
        init: copy_texts(&cmd.init),
        env,
        workdir: if cmd.workdir.is_some() {
            copy_opt_text(&cmd.workdir)
        } else {
            copy_opt_text(&m.workdir)
        },
        storage_gb: cmd.storage,
        overlay_gb: cmd.overlay,
        allowed_cidrs: some_if_any(cidrs),
        restart_policy: None,
        restart_max_retries: None,
        restart_max_backoff_secs: None,
        health_cmd: None,
        health_interval_secs: None,
        health_timeout_secs: None,
        health_retries: None,
        health_startup_grace_secs: None,
        ssh_agent: cmd.ssh_agent,
        cuda: cmd.cuda || cmd.auto_graph,
        docker_socket: cmd.docker_socket,
        dns_filter_hosts: hosts,
        published_sockets: sockets,
        gpu: m.gpu || cmd.gpu,
        gpu_vram_mib: cmd.gpu_vram_mib,
        rosetta: cmd.rosetta,
        secret_refs: secrets,
        source_smolmachine: Some(path.to_owned()),
    }
}

impl CreateCmd {
    /// The parameters of a machine created from a packed one. One that names secrets is
    /// refused; then hosts that cannot be looked up are reported, then sockets and
    /// secrets that cannot be read. `answers` are those for `allow_host`, in order, up to
    /// the first failure.
    pub fn run_from_smolmachine(
        &self,
        m: &PackManifest,
        name: &str,
        path: &str,
        answers: &[Result<Vec<String>, String>],
        site: &Site,
        max_sockets: usize,
    ) -> (r: Result<CreateVmParams, ConfigError>)
        requires
            m.secret_refs.wf(),
        ensures
            match (
                egress_ranges(texts(self.allow_cidr@), answers@, self.outbound_localhost_only),
                published_sockets(
                    texts(self.expose_socket@),
                    texts(self.mount_socket@),
                    max_sockets as int,
                ),
                secret_refs(texts(self.secret_env@), texts(self.secret_file@)),
                r,
            ) {
                (_, _, _, Err(x)) if !m.secret_refs@.dom().is_empty() => exists|key: Seq<char>|
                    #[trigger] first_key(m.secret_refs@, key) && x@ == carried_secret(key),
                (Err(e), _, _, Err(x)) => x@ == e,
                (Ok(_), Err(e), _, Err(x)) => x@ == e,
                (Ok(_), Ok(_), Err(e), Err(x)) => x@ == e,
                (Ok(cidrs), Ok(sockets), Ok(secrets), Ok(p)) => m.secret_refs@.dom().is_empty()
                    && p.wf() && p@ == packed_params(
                    *self,
                    *m,
                    name@,
                    path@,
                    *site,
                    cidrs,
                    sockets,
                    secrets,
                ),
                _ => false,
            },
            r matches Ok(p) ==> {
                &&& p.name@ == name@
                &&& opt_text(p.source_smolmachine) == Some(path@)
                &&& texts(p.volume@) == texts(self.volume@)
                &&& p.port@ == self.port@
                &&& texts(p.init@) == texts(self.init@)
                &&& p.storage_gb == self.storage
                &&& p.overlay_gb == self.overlay
                &&& opt_text(p.network_backend) == opt_text(self.net_backend)
                &&& p.dns == self.dns
                &&& p.gpu_vram_mib == self.gpu_vram_mib
            },
            r matches Ok(p) ==> {
                &&& self.cpus != site.default_cpus ==> p.cpus == self.cpus
                &&& self.cpus == site.default_cpus ==> p.cpus == m.cpus
                &&& self.mem != site.default_mem ==> p.mem == self.mem
                &&& self.mem == site.default_mem ==> p.mem == m.mem
                &&& self.workdir is Some ==> opt_text(p.workdir) == opt_text(self.workdir)
                &&& self.workdir is None ==> opt_text(p.workdir) == opt_text(m.workdir)
                &&& m.vm_mode ==> p.image is None
                &&& !m.vm_mode ==> opt_text(p.image) == Some(m.image@)
                &&& self.command@.len() > 0 ==> p.entrypoint@.len() == 0 && texts(p.cmd@)
                    == texts(self.command@)
                &&& self.command@.len() == 0 ==> texts(p.entrypoint@) == texts(m.entrypoint@)
                    && texts(p.cmd@) == texts(m.cmd@)
            },
            r matches Ok(p) ==> {
                &&& !self.auto_graph ==> texts(p.env@) == texts(m.env@) + texts(self.env@)
                &&& self.auto_graph ==> texts(p.env@) == texts(m.env@) + texts(self.env@) + texts(
                    site.graph_env@,
                )
            },
            r matches Ok(p) ==> {
                &&& egress_ranges(
                    texts(self.allow_cidr@),
                    answers@,
                    self.outbound_localhost_only,
                ) matches Ok(ranges) && (ranges.len() == 0 ==> p.allowed_cidrs is None) && (
                ranges.len() > 0 ==> opt_texts(p.allowed_cidrs) == Some(ranges))
                &&& published_sockets(
                    texts(self.expose_socket@),
                    texts(self.mount_socket@),
                    max_sockets as int,
                ) == Ok::<Seq<SocketModel>, (Seq<char>, Seq<char>)>(
                    sockets_view(p.published_sockets@),
                )
                &&& secret_refs(texts(self.secret_env@), texts(self.secret_file@)) == Ok::<
                    Map<Seq<char>, SecretModel>,
                    (Seq<char>, Seq<char>),
                >(p.secret_refs@)
            },
            r matches Ok(p) ==> {
                &&& p.ssh_agent == self.ssh_agent
                &&& p.docker_socket == self.docker_socket
                &&& p.rosetta == self.rosetta
                &&& p.cuda == (self.cuda || self.auto_graph)
                &&& p.gpu == (self.gpu || m.gpu)
                &&& self.net || m.network || self.allow_cidr@.len() > 0 || self.allow_host@.len()
                    > 0 || self.outbound_localhost_only || self.dns is Some ==> p.net
                &&& p.net ==> self.net || m.network || self.allow_cidr@.len() > 0
                    || self.allow_host@.len() > 0 || self.outbound_localhost_only || self.dns is Some
                &&& self.allow_host@.len() == 0 ==> p.dns_filter_hosts is None
                &&& self.allow_host@.len() > 0 ==> opt_texts(p.dns_filter_hosts) == Some(
                    texts(self.allow_host@),
                )
                &&& p.restart_policy is None && p.restart_max_retries is None
                    && p.restart_max_backoff_secs is None
                &&& p.health_cmd is None && p.health_interval_secs is None
                    && p.health_timeout_secs is None && p.health_retries is None
                    && p.health_startup_grace_secs is None
            },
    {
        match check_carried(m) {
            Ok(_) => {},
            Err(e) => {
                proof {
                    let key = choose|key: Seq<char>| #[trigger]
                        first_key(m.secret_refs@, key) && e@ == carried_secret(key);
                    assert(m.secret_refs@.dom().contains(key));
                }
                return Err(e);
            },
        }
        let egress = match resolve_egress_flags(
            copy_texts(&self.allow_cidr),
            copy_texts(&self.allow_host),
            answers,
            self.outbound_localhost_only,
            self.net,
        ) {
            Ok(x) => x,
            Err(e) => {
                return Err(e);
            },
        };
        let sockets = match parse_published_sockets(&self.expose_socket, &self.mount_socket, max_sockets) {
            Ok(s) => s,
            Err(e) => {
                return Err(e);
            },
        };
        let secrets = match parse_cli_secret_refs(&self.secret_env, &self.secret_file) {
            Ok(s) => s,
            Err(e) => {
                return Err(e);
            },
        };
        proof {
            let plain = texts(m.env@) + texts(self.env@);
            assert(plain + Seq::<Seq<char>>::empty() =~= plain);
        }
        Ok(packed(self, m, name, path, site, egress.cidrs, egress.hosts, sockets, secrets))
    }
}

// ---------------------------------------------------------------------------
// The steps of a creation from a packed machine
// ---------------------------------------------------------------------------

/// A step of a creation from a packed machine.
#[derive(Debug, Clone, Copy, PartialEq, Eq, Structural)]
pub enum PackCreateStep {
    /// Reserve the name.
    Reserve,
    /// Open the machine's directory.
    Open,
    /// Clear what an earlier machine left of its layers.
    Clear,
    /// Extract the artifact.
    Extract,
    /// Detach the volume that extraction mounts, whether it worked or not.
    Detach,
    /// Fill the disks from the templates.
    Seed,
    /// Publish the record.
    Commit,
    /// Detach the volume, remove the directory, give the name back, and report the
    /// failure.
    CleanUp,
}

/// A creation from a packed machine while it goes on.
#[derive(Debug, Clone, Copy, PartialEq, Eq, Structural)]
pub struct PackCreate {
    pub step: PackCreateStep,
    /// The packed machine brings disks.
    pub seeds: bool,
    /// Extraction failed.
    pub failed: bool,
}

impl PackCreate {
    /// The step after one that did or did not work; none after the last. Without the
    /// name nothing was done, so there is nothing to clean up.
    pub open spec fn after(self, ok: bool) -> Option<PackCreate> {
        let go = |step: PackCreateStep| Some(PackCreate { step, ..self });
        match self.step {
            PackCreateStep::Reserve => if ok {
                go(PackCreateStep::Open)
            } else {
                None
            },
            PackCreateStep::Open => if ok {
                go(PackCreateStep::Clear)
            } else {
                go(PackCreateStep::CleanUp)
            },
            PackCreateStep::Clear => if ok {
                go(PackCreateStep::Extract)
            } else {
                go(PackCreateStep::CleanUp)
            },
            PackCreateStep::Extract => Some(
                PackCreate { step: PackCreateStep::Detach, failed: !ok, ..self },
            ),
            PackCreateStep::Detach => if self.failed {
                go(PackCreateStep::CleanUp)
            } else if self.seeds {
                go(PackCreateStep::Seed)
            } else {
                go(PackCreateStep::Commit)
            },
            PackCreateStep::Seed => if ok {
                go(PackCreateStep::Commit)
            } else {
                go(PackCreateStep::CleanUp)
            },
            PackCreateStep::Commit => if ok {
                None
            } else {
                go(PackCreateStep::CleanUp)
            },
            PackCreateStep::CleanUp => None,
        }
    }

    /// The first step.
    pub fn start(seeds: bool) -> (r: Self)
        ensures
            r == (PackCreate { step: PackCreateStep::Reserve, seeds, failed: false }),
    {
        PackCreate { step: PackCreateStep::Reserve, seeds, failed: false }
    }

    /// The step after one that did or did not work; none after the last.
    pub fn advance(self, ok: bool) -> (r: Option<PackCreate>)
        ensures
            r == self.after(ok),
    {
        let step = match self.step {
            PackCreateStep::Reserve => if ok {
                PackCreateStep::Open
            } else {
                return None;
            },
            PackCreateStep::Open => if ok {
                PackCreateStep::Clear
            } else {
                PackCreateStep::CleanUp
            },
            PackCreateStep::Clear => if ok {
                PackCreateStep::Extract
            } else {
                PackCreateStep::CleanUp
            },
            PackCreateStep::Extract => {
                return Some(
                    PackCreate {
                        step: PackCreateStep::Detach,
                        seeds: self.seeds,
                        failed: !ok,
                    },
                );
            },
            PackCreateStep::Detach => if self.failed {
                PackCreateStep::CleanUp
            } else if self.seeds {
                PackCreateStep::Seed
            } else {
                PackCreateStep::Commit
            },
            PackCreateStep::Seed => if ok {
                PackCreateStep::Commit
            } else {
                PackCreateStep::CleanUp
            },
            PackCreateStep::Commit => if ok {
                return None;
            } else {
                PackCreateStep::CleanUp
            },
            PackCreateStep::CleanUp => {
                return None;
            },
        };
        Some(PackCreate { step, seeds: self.seeds, failed: self.failed })
    }
}

/// Where a creation stands after outcomes of its steps.
pub open spec fn pack_create_run(seeds: bool, outcomes: Seq<bool>) -> Option<PackCreate>
    decreases outcomes.len(),
{
    if outcomes.len() == 0 {
        Some(PackCreate { step: PackCreateStep::Reserve, seeds, failed: false })
    } else {
        match pack_create_run(seeds, outcomes.drop_last()) {
            Some(s) => s.after(outcomes.last()),
            None => None,
        }
    }
}

spec fn pack_create_shape(seeds: bool, o: Seq<bool>, s: PackCreate) -> bool {
    let n = o.len();
    &&& s.seeds == seeds
    &&& match s.step {
        PackCreateStep::Reserve => n == 0 && !s.failed,
        PackCreateStep::Open => n == 1 && o[0] && !s.failed,
        PackCreateStep::Clear => n == 2 && o[0] && o[1] && !s.failed,
        PackCreateStep::Extract => n == 3 && o[0] && o[1] && o[2] && !s.failed,
        PackCreateStep::Detach => n == 4 && o[0] && o[1] && o[2] && s.failed == !o[3],
        PackCreateStep::Seed => n == 5 && o[0] && o[1] && o[2] && o[3] && seeds && !s.failed,
        PackCreateStep::Commit => !s.failed && o.len() == (if seeds {
            6int
        } else {
            5
        }) && o[0] && o[1] && o[2] && o[3] && (seeds ==> o[5]),
        PackCreateStep::CleanUp => n >= 2 && o[0],
    }
}

proof fn lemma_pack_create(seeds: bool, outcomes: Seq<bool>)
    ensures
        pack_create_run(seeds, outcomes) matches Some(s) ==> pack_create_shape(seeds, outcomes, s),
    decreases outcomes.len(),
{
    if outcomes.len() > 0 {
        let front = outcomes.drop_last();
        lemma_pack_create(seeds, front);
        assert forall|i: int| 0 <= i < front.len() implies front[i] == outcomes[i] by {}
    }
}

/// A machine is published only when its name was reserved, its layers extracted and
/// its disks, if it brings any, filled; and whatever fails once its name is
/// reserved, what was made of it is removed.
pub proof fn law_half_made_machine_is_never_published(seeds: bool, outcomes: Seq<bool>)
    ensures
        pack_create_run(seeds, outcomes) matches Some(s) ==> {
            &&& s.step == PackCreateStep::Commit ==> outcomes[0] && outcomes[1] && outcomes[2]
                && outcomes[3] && (seeds ==> outcomes[5])
            &&& s.step == PackCreateStep::Open || s.step == PackCreateStep::Clear || s.step
                == PackCreateStep::Seed || s.step == PackCreateStep::Commit ==> s.after(false) == Some(
                PackCreate { step: PackCreateStep::CleanUp, ..s },
            )
            &&& s.step == PackCreateStep::Extract ==> s.after(false)->Some_0.after(true)->Some_0.step
                == PackCreateStep::CleanUp
        },
{
    lemma_pack_create(seeds, outcomes);
}

} // verus!
