//! What a machine is created or run with.
use crate::copying::{copy_opt_text, copy_opt_texts, opt_text, opt_texts, pairs, texts};
use crate::machine::errors::{ConfigError, config_error};
use crate::machine::flags::{
    PublishedSocketConfig, SecretModel, SecretRef, SocketModel, sockets_view,
};
use crate::numerals::{decimal, decimal_chars};
use crate::phrase::extend_texts;
use crate::records::RestartPolicy;
use crate::split::{split_first, split_once_chars};
use crate::table::Table;
use crate::text::{chars_of, say3, string_of};
use vstd::prelude::*;

verus! {

/// What is fixed for an installation.
#[derive(Debug)]
pub struct Site {
    /// Processors where nothing else is said.
    pub default_cpus: u8,
    /// Memory where nothing else is said.
    pub default_mem: u32,
    /// The command of a machine that only waits.
    pub idle_cmd: Vec<String>,
    /// The command of a machine without one.
    pub shell_cmd: String,
    /// Variables that ask frameworks to graph compiled regions.
    pub graph_env: Vec<String>,
}

/// What a machine is created with.
#[derive(Debug)]
pub struct CreateVmParams {
    pub name: String,
    pub image: Option<String>,
    pub entrypoint: Vec<String>,
    pub cmd: Vec<String>,
    pub cpus: u8,
    pub mem: u32,
    pub volume: Vec<String>,
    pub port: Vec<(u16, u16)>,
    pub net: bool,
    pub network_backend: Option<String>,
    pub dns: Option<u32>,
    pub init: Vec<String>,
    pub env: Vec<String>,
    pub workdir: Option<String>,
    pub storage_gb: Option<u64>,
    pub overlay_gb: Option<u64>,
    pub allowed_cidrs: Option<Vec<String>>,
    pub restart_policy: Option<RestartPolicy>,
    pub restart_max_retries: Option<u32>,
    pub restart_max_backoff_secs: Option<u64>,
    pub health_cmd: Option<Vec<String>>,
    pub health_interval_secs: Option<u64>,
    pub health_timeout_secs: Option<u64>,
    pub health_retries: Option<u32>,
    pub health_startup_grace_secs: Option<u64>,
    pub ssh_agent: bool,
    pub cuda: bool,
    pub docker_socket: bool,
    pub dns_filter_hosts: Option<Vec<String>>,
    pub published_sockets: Vec<PublishedSocketConfig>,
    pub gpu: bool,
    pub gpu_vram_mib: Option<u32>,
    pub rosetta: bool,
    pub secret_refs: Table<SecretRef>,
    pub source_smolmachine: Option<String>,
}

/// What a machine is created with.
pub struct ParamsModel {
    pub name: Seq<char>,
    pub image: Option<Seq<char>>,
    pub entrypoint: Seq<Seq<char>>,
    pub cmd: Seq<Seq<char>>,
    pub cpus: u8,
    pub mem: u32,
    pub volume: Seq<Seq<char>>,
    pub port: Seq<(u16, u16)>,
    pub net: bool,
    pub network_backend: Option<Seq<char>>,
    pub dns: Option<u32>,
    pub init: Seq<Seq<char>>,
    pub env: Seq<Seq<char>>,
    pub workdir: Option<Seq<char>>,
    pub storage_gb: Option<u64>,
    pub overlay_gb: Option<u64>,
    pub allowed_cidrs: Option<Seq<Seq<char>>>,
    pub restart_policy: Option<RestartPolicy>,
    pub restart_max_retries: Option<u32>,
    pub restart_max_backoff_secs: Option<u64>,
    pub health_cmd: Option<Seq<Seq<char>>>,
    pub health_interval_secs: Option<u64>,
    pub health_timeout_secs: Option<u64>,
    pub health_retries: Option<u32>,
    pub health_startup_grace_secs: Option<u64>,
    pub ssh_agent: bool,
    pub cuda: bool,
    pub docker_socket: bool,
    pub dns_filter_hosts: Option<Seq<Seq<char>>>,
    pub published_sockets: Seq<SocketModel>,
    pub gpu: bool,
    pub gpu_vram_mib: Option<u32>,
    pub rosetta: bool,
    pub secret_refs: Map<Seq<char>, SecretModel>,
    pub source_smolmachine: Option<Seq<char>>,
}

impl View for CreateVmParams {
    type V = ParamsModel;

    open spec fn view(&self) -> ParamsModel {
        ParamsModel {
            name: self.name@,
            image: opt_text(self.image),
            entrypoint: texts(self.entrypoint@),
            cmd: texts(self.cmd@),
            cpus: self.cpus,
            mem: self.mem,
            volume: texts(self.volume@),
            port: self.port@,
            net: self.net,
            network_backend: opt_text(self.network_backend),
            dns: self.dns,
            init: texts(self.init@),
            env: texts(self.env@),
            workdir: opt_text(self.workdir),
            storage_gb: self.storage_gb,
            overlay_gb: self.overlay_gb,
            allowed_cidrs: opt_texts(self.allowed_cidrs),
            restart_policy: self.restart_policy,
            restart_max_retries: self.restart_max_retries,
            restart_max_backoff_secs: self.restart_max_backoff_secs,
            health_cmd: opt_texts(self.health_cmd),
            health_interval_secs: self.health_interval_secs,
            health_timeout_secs: self.health_timeout_secs,
            health_retries: self.health_retries,
            health_startup_grace_secs: self.health_startup_grace_secs,
            ssh_agent: self.ssh_agent,
            cuda: self.cuda,
            docker_socket: self.docker_socket,
            dns_filter_hosts: opt_texts(self.dns_filter_hosts),
            published_sockets: sockets_view(self.published_sockets@),
            gpu: self.gpu,
            gpu_vram_mib: self.gpu_vram_mib,
            rosetta: self.rosetta,
            secret_refs: self.secret_refs@,
            source_smolmachine: opt_text(self.source_smolmachine),
        }
    }
}

impl CreateVmParams {
    /// The secrets are a table.
    pub open spec fn wf(&self) -> bool {
        self.secret_refs.wf()
    }
}

// ---------------------------------------------------------------------------
// Flags over a configuration file
// ---------------------------------------------------------------------------

/// Host names of the file and of the flags, those of the file first.
pub open spec fn merged_hosts(file: Option<Seq<Seq<char>>>, flags: Option<Seq<Seq<char>>>) -> Option<
    Seq<Seq<char>>,
> {
    match (file, flags) {
        (Some(a), Some(b)) => Some(a + b),
        (Some(a), None) => Some(a),
        (None, b) => b,
    }
}

/// Parameters with the flags over what the configuration file said: graphing brings
/// its variables, by a choice made here behind the others, and CUDA; a resolver brings the network; host names
/// add up; secrets of a flag win.
pub open spec fn flags_merged(
    p: ParamsModel,
    auto_graph: bool,
    resolver: bool,
    graph_env: Seq<Seq<char>>,
    hosts: Option<Seq<Seq<char>>>,
    secrets: Map<Seq<char>, SecretModel>,
) -> ParamsModel {
    ParamsModel {
        env: if auto_graph {
            p.env + graph_env
        } else {
            p.env
        },
        cuda: p.cuda || auto_graph,
        net: p.net || resolver,
        dns_filter_hosts: merged_hosts(p.dns_filter_hosts, hosts),
        secret_refs: p.secret_refs.union_prefer_right(secrets),
        ..p
    }
}

fn copy_secret(s: &SecretRef) -> (r: SecretRef)
    ensures
        r@ == s@,
{
    SecretRef { from_env: copy_opt_text(&s.from_env), from_file: copy_opt_text(&s.from_file) }
}

spec fn absorbed(
    base: Map<Seq<char>, SecretModel>,
    more: Map<Seq<char>, SecretModel>,
    keys: Seq<Seq<char>>,
) -> Map<Seq<char>, SecretModel>
    decreases keys.len(),
{
    if keys.len() == 0 {
        base
    } else {
        absorbed(base, more, keys.drop_last()).insert(keys.last(), more[keys.last()])
    }
}

proof fn lemma_absorbed(
    base: Map<Seq<char>, SecretModel>,
    more: Map<Seq<char>, SecretModel>,
    keys: Seq<Seq<char>>,
    k: Seq<char>,
)
    ensures
        absorbed(base, more, keys).contains_key(k) == (base.contains_key(k) || keys.contains(k)),
        absorbed(base, more, keys)[k] == if keys.contains(k) {
            more[k]
        } else {
            base[k]
        },
    decreases keys.len(),
{
    if keys.len() > 0 {
        let front = keys.drop_last();
        lemma_absorbed(base, more, front, k);
        if front.contains(k) {
            let j = choose|j: int| 0 <= j < front.len() && front[j] == k;
            assert(keys[j] == k);
        }
        if keys.contains(k) && k != keys.last() {
            let j = choose|j: int| 0 <= j < keys.len() && keys[j] == k;
            assert(front[j] == k);
        }
        assert(keys[keys.len() - 1] == keys.last());
    }
}

fn absorb_secrets(out: &mut Table<SecretRef>, more: &Table<SecretRef>)
    requires
        old(out).wf(),
        more.wf(),
    ensures
        final(out).wf(),
        final(out)@ == old(out)@.union_prefer_right(more@),
{
    let ghost base = out@;
    let ghost keys = more.keys();
    let mut i: usize = 0;
    proof { assert(keys.take(0) =~= Seq::empty()); }
    while i < more.len()
        invariant
            more.wf(),
            out.wf(),
            base == old(out)@,
            keys == more.keys(),
            i <= keys.len(),
            out@ == absorbed(base, more@, keys.take(i as int)),
        decreases keys.len() - i,
    {
        let key = more.key_at(i);
        let value = copy_secret(more.value_at(i));
        out.insert(key.as_str(), value);
        proof {
            assert(keys.take(i + 1).drop_last() =~= keys.take(i as int));
            assert(keys.take(i + 1).last() == keys[i as int]);
        }
        i = i + 1;
    }
    proof {
        more.lemma_keys();
        assert(keys.take(keys.len() as int) =~= keys);
        assert forall|k: Seq<char>| #[trigger]
            out@.contains_key(k) == base.union_prefer_right(more@).contains_key(k) && (
            out@.contains_key(k) ==> out@[k] == base.union_prefer_right(more@)[k]) by {
            lemma_absorbed(base, more@, keys, k);
            assert(keys.to_set().contains(k) == keys.contains(k));
        }
        assert(out@ =~= base.union_prefer_right(more@));
    }
}

/// The same secrets.
pub fn copy_secrets(t: &Table<SecretRef>) -> (r: Table<SecretRef>)
    requires
        t.wf(),
    ensures
        r.wf(),
        r@ == t@,
{
    let mut r: Table<SecretRef> = Table::new();
    absorb_secrets(&mut r, t);
    proof { assert(r@ =~= t@); }
    r
}

/// Puts the flags over what the configuration file said.
pub fn merge_flags(
    params: CreateVmParams,
    auto_graph: bool,
    resolver: bool,
    site: &Site,
    hosts: Option<Vec<String>>,
    secrets: &Table<SecretRef>,
) -> (r: CreateVmParams)
    requires
        params.wf(),
        secrets.wf(),
    ensures
        r.wf(),
        r@ == flags_merged(
            params@,
            auto_graph,
            resolver,
            texts(site.graph_env@),
            opt_texts(hosts),
            secrets@,
        ),
        r@ == (ParamsModel {
            env: r@.env,
            cuda: r@.cuda,
            net: r@.net,
            dns_filter_hosts: r@.dns_filter_hosts,
            secret_refs: r@.secret_refs,
            ..params@
        }),
        !auto_graph ==> r@.env == params@.env && r.cuda == params.cuda,
        auto_graph ==> r@.env == params@.env + texts(site.graph_env@) && r.cuda,
        r.net == (params.net || resolver),
        forall|k: Seq<char>| #[trigger]
            r@.secret_refs.contains_key(k) <==> params@.secret_refs.contains_key(k)
                || secrets@.contains_key(k),
        forall|k: Seq<char>| #[trigger]
            r@.secret_refs.contains_key(k) ==> r@.secret_refs[k] == if secrets@.contains_key(k) {
                secrets@[k]
            } else {
                params@.secret_refs[k]
            },
{
    let mut p = params;
    if auto_graph {
        extend_texts(&mut p.env, &site.graph_env);
        p.cuda = true;
    }
    p.net = p.net || resolver;
    let file = p.dns_filter_hosts;
    p.dns_filter_hosts =
    match (file, hosts) {
        (Some(mut a), Some(b)) => {
            extend_texts(&mut a, &b);
            Some(a)
        },
        (Some(a), None) => Some(a),
        (None, b) => b,
    };
    absorb_secrets(&mut p.secret_refs, secrets);
    p
}

// ---------------------------------------------------------------------------
// Resources
// ---------------------------------------------------------------------------

/// What a machine takes of the host.
#[derive(Debug)]
pub struct VmResources {
    pub cpus: u8,
    pub memory_mib: u32,
    pub network: bool,
    pub network_backend: Option<String>,
    pub dns: Option<u32>,
    pub gpu: bool,
    pub gpu_vram_mib: Option<u32>,
    pub cuda: bool,
    pub rosetta: bool,
    pub storage_gib: Option<u64>,
    pub overlay_gib: Option<u64>,
    pub allowed_cidrs: Option<Vec<String>>,
}

/// What a machine takes of the host.
pub struct ResourcesModel {
    pub cpus: u8,
    pub memory_mib: u32,
    pub network: bool,
    pub network_backend: Option<Seq<char>>,
    pub dns: Option<u32>,
    pub gpu: bool,
    pub gpu_vram_mib: Option<u32>,
    pub cuda: bool,
    pub rosetta: bool,
    pub storage_gib: Option<u64>,
    pub overlay_gib: Option<u64>,
    pub allowed_cidrs: Option<Seq<Seq<char>>>,
}

impl View for VmResources {
    type V = ResourcesModel;

    open spec fn view(&self) -> ResourcesModel {
        ResourcesModel {
            cpus: self.cpus,
            memory_mib: self.memory_mib,
            network: self.network,
            network_backend: opt_text(self.network_backend),
            dns: self.dns,
            gpu: self.gpu,
            gpu_vram_mib: self.gpu_vram_mib,
            cuda: self.cuda,
            rosetta: self.rosetta,
            storage_gib: self.storage_gib,
            overlay_gib: self.overlay_gib,
            allowed_cidrs: opt_texts(self.allowed_cidrs),
        }
    }
}

/// The resources that parameters ask for.
pub open spec fn resources_of(p: ParamsModel) -> ResourcesModel {
    ResourcesModel {
        cpus: p.cpus,
        memory_mib: p.mem,
        network: p.net,
        network_backend: p.network_backend,
        dns: p.dns,
        gpu: p.gpu,
        gpu_vram_mib: p.gpu_vram_mib,
        cuda: p.cuda,
        rosetta: p.rosetta,
        storage_gib: p.storage_gb,
        overlay_gib: p.overlay_gb,
        allowed_cidrs: p.allowed_cidrs,
    }
}

/// The resources that parameters ask for.
pub fn resources(p: &CreateVmParams) -> (r: VmResources)
    ensures
        r@ == resources_of(p@),
{
    VmResources {
        cpus: p.cpus,
        memory_mib: p.mem,
        network: p.net,
        network_backend: copy_opt_text(&p.network_backend),
        dns: p.dns,
        gpu: p.gpu,
        gpu_vram_mib: p.gpu_vram_mib,
        cuda: p.cuda,
        rosetta: p.rosetta,
        storage_gib: p.storage_gb,
        overlay_gib: p.overlay_gb,
        allowed_cidrs: copy_opt_texts(&p.allowed_cidrs),
    }
}

// ---------------------------------------------------------------------------
// Variables
// ---------------------------------------------------------------------------

/// The variable that `KEY=VALUE` sets, if there is a key: that one without a key sets
/// nothing is a choice made here.
pub open spec fn env_pair(spec: Seq<char>) -> Option<(Seq<char>, Seq<char>)> {
    match split_first(spec, '=') {
        Some((k, v)) => if k.len() > 0 {
            Some((k, v))
        } else {
            None
        },
        None => None,
    }
}

/// The variables that a list of `KEY=VALUE` sets; what sets none is passed over.
pub open spec fn env_pairs(specs: Seq<Seq<char>>) -> Seq<(Seq<char>, Seq<char>)>
    decreases specs.len(),
{
    if specs.len() == 0 {
        Seq::empty()
    } else {
        match env_pair(specs.last()) {
            Some(p) => env_pairs(specs.drop_last()).push(p),
            None => env_pairs(specs.drop_last()),
        }
    }
}

/// The variables that a list of `KEY=VALUE` sets.
pub fn parse_env_list(specs: &[String]) -> (r: Vec<(String, String)>)
    ensures
        pairs(r@) == env_pairs(texts(specs@)),
{
    let mut out: Vec<(String, String)> = Vec::new();
    let ghost all = texts(specs@);
    let mut i: usize = 0;
    proof {
        assert(all.take(0) =~= Seq::empty());
        assert(pairs(out@) =~= Seq::empty());
    }
    while i < specs.len()
        invariant
            i <= specs@.len(),
            all == texts(specs@),
            pairs(out@) == env_pairs(all.take(i as int)),
        decreases specs@.len() - i,
    {
        proof {
            assert(all.take(i + 1).drop_last() =~= all.take(i as int));
            assert(all.take(i + 1).last() == specs@[i as int]@);
        }
        let chars = chars_of(specs[i].as_str());
        match split_once_chars(&chars, '=') {
            Some((k, v)) => {
                if k.len() > 0 {
                    let ghost before = out@;
                    out.push((string_of(&k), string_of(&v)));
                    proof { assert(pairs(out@) =~= pairs(before).push((k@, v@))); }
                }
            },
            None => {},
        }
        i = i + 1;
    }
    proof { assert(all.take(specs@.len() as int) =~= all); }
    out
}

// ---------------------------------------------------------------------------
// Ports
// ---------------------------------------------------------------------------

/// No host port is mapped twice.
pub open spec fn distinct_ports(ports: Seq<(u16, u16)>) -> bool {
    forall|i: int, j: int|
        #![trigger ports[i], ports[j]]
        0 <= i < j < ports.len() ==> ports[i].0 != ports[j].0
}

/// `j` is the first mapping whose host port an earlier one has.
pub open spec fn port_taken_before(ports: Seq<(u16, u16)>, j: int) -> bool {
    &&& 0 <= j < ports.len()
    &&& distinct_ports(ports.take(j))
    &&& exists|i: int| 0 <= i < j && (#[trigger] ports[i]).0 == ports[j].0
}

/// Why a host port cannot be mapped twice.
pub fn port_error(what: &str, port: u16) -> (r: ConfigError)
    ensures
        r@ == (
            what@,
            "duplicate host port: "@ + decimal(port as nat) + " is specified more than once"@,
        ),
{
    let n = string_of(&decimal_chars(port as u128));
    config_error(what, say3("duplicate host port: ", n.as_str(), " is specified more than once"))
}

/// The first mapping whose host port an earlier one has, if there is one.
pub fn duplicate_port(ports: &[(u16, u16)]) -> (r: Option<usize>)
    ensures
        match r {
            None => distinct_ports(ports@),
            Some(j) => port_taken_before(ports@, j as int),
        },
{
    let mut j: usize = 0;
    while j < ports.len()
        invariant
            j <= ports@.len(),
            distinct_ports(ports@.take(j as int)),
        decreases ports@.len() - j,
    {
        let mut i: usize = 0;
        while i < j
            invariant
                i <= j,
                j < ports@.len(),
                distinct_ports(ports@.take(j as int)),
                forall|k: int| 0 <= k < i ==> (#[trigger] ports@[k]).0 != ports@[j as int].0,
            decreases j - i,
        {
            if ports[i].0 == ports[j].0 {
                return Some(j);
            }
            i = i + 1;
        }
        proof {
            let now = ports@.take(j + 1);
            assert forall|a: int, b: int|
                #![trigger now[a], now[b]]
                0 <= a < b < now.len() implies now[a].0 != now[b].0 by {
                if b < j {
                    assert(now[a] == ports@.take(j as int)[a]);
                    assert(now[b] == ports@.take(j as int)[b]);
                } else {
                    assert(now[a] == ports@[a]);
                }
            }
        }
        j = j + 1;
    }
    proof { assert(ports@.take(ports@.len() as int) =~= ports@); }
    None
}

} // verus!
