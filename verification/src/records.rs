//! Persistent records of machines and fork pools.
use crate::copying::{
    copy_mounts, copy_opt_text, copy_opt_texts, copy_pairs, copy_ports, copy_texts, mounts_view,
    opt_text, opt_texts, pairs, texts,
};
use vstd::prelude::*;

verus! {

/// Lifecycle state of a machine.
#[derive(Debug, Clone, Copy, PartialEq, Eq, Structural)]
pub enum RecordState {
    Created,
    Running,
    Stopped,
    Failed,
    Unreachable,
}

/// When a monitored machine is started again.
#[derive(Debug, Clone, Copy, PartialEq, Eq, Structural)]
pub enum RestartPolicy {
    Never,
    Always,
    OnFailure,
    UnlessStopped,
}

/// Restart policy of a machine and what has happened under it.
#[derive(Debug, Clone, Copy, PartialEq, Eq, Structural)]
pub struct RestartConfig {
    /// When to restart.
    pub policy: RestartPolicy,
    /// Restarts before giving up; zero for no limit.
    pub max_retries: u32,
    /// Longest pause between restarts.
    pub max_backoff_secs: u64,
    /// Restarts so far.
    pub restart_count: u32,
    /// The user asked for the machine to stay down.
    pub user_stopped: bool,
}

/// Where a fork-pool worker stands.
#[derive(Debug, Clone, Copy, PartialEq, Eq, Structural)]
pub enum ForkPoolSlotState {
    Provisioning,
    Ready,
    Activating,
    Leased,
    Retiring,
}

/// Where a lease stands.
#[derive(Debug, Clone, Copy, PartialEq, Eq, Structural)]
pub enum ForkLeaseState {
    Activating,
    Active,
    Completed,
    Failed,
    Expired,
    Cancelled,
}

/// Active-lease ceilings measured at run time.
#[derive(Debug, Clone, Copy, PartialEq, Eq, Structural)]
pub struct ForkPoolAdmissionLimit {
    /// Ceiling of the pool.
    pub pool: u32,
    /// Ceiling of all pools on the device.
    pub device: u32,
}

/// Configuration and state of one machine.
#[derive(Debug, PartialEq, Eq)]
pub struct VmRecord {
    /// Machine name.
    pub name: String,
    /// Creation time in seconds since the epoch.
    pub created_at: u64,
    /// Last recorded lifecycle state.
    pub state: RecordState,
    /// Process of the running machine.
    pub pid: Option<i32>,
    /// Virtual CPUs.
    pub cpus: u8,
    /// Memory in MiB.
    pub mem: u32,
    /// Host source, guest target and read-only flag of each mount.
    pub mounts: Vec<(String, String, bool)>,
    /// Host and guest port of each forward.
    pub ports: Vec<(u16, u16)>,
    /// Outbound network access.
    pub network: bool,
    /// Selected networking backend.
    pub network_backend: Option<String>,
    /// Guest DNS resolver, as the IPv4 address in host order.
    pub dns: Option<u32>,
    /// Storage disk size in GiB.
    pub storage_gb: Option<u64>,
    /// Overlay disk size in GiB.
    pub overlay_gb: Option<u64>,
    /// Egress ranges.
    pub allowed_cidrs: Option<Vec<String>>,
    /// Hostnames the DNS filter lets through.
    pub dns_filter_hosts: Option<Vec<String>>,
    /// Commands run on every start.
    pub init: Vec<String>,
    /// Environment of the workload.
    pub env: Vec<(String, String)>,
    /// Working directory.
    pub workdir: Option<String>,
    /// User the workload runs as.
    pub user: Option<String>,
    /// Container image, absent for a bare machine.
    pub image: Option<String>,
    /// Workload entrypoint.
    pub entrypoint: Vec<String>,
    /// Workload command.
    pub cmd: Vec<String>,
    /// Forward the host SSH agent.
    pub ssh_agent: bool,
    /// Remote CUDA calls to the host.
    pub cuda: bool,
    /// Expose the guest Docker socket.
    pub docker_socket: bool,
    /// GPU acceleration.
    pub gpu: Option<bool>,
    /// GPU shared memory in MiB.
    pub gpu_vram_mib: Option<u32>,
    /// x86_64 translation.
    pub rosetta: Option<bool>,
    /// Restart policy and counters.
    pub restart: RestartConfig,
    /// Exit code of the last run.
    pub last_exit_code: Option<i32>,
    /// Health check command.
    pub health_cmd: Option<Vec<String>>,
    /// Seconds between health checks.
    pub health_interval_secs: Option<u64>,
    /// Seconds a health check may take.
    pub health_timeout_secs: Option<u64>,
    /// Failures before a restart.
    pub health_retries: Option<u32>,
    /// Seconds after a start without health checks.
    pub health_startup_grace_secs: Option<u64>,
    /// Machine this one was forked from.
    pub golden: Option<String>,
    /// Still parked at the inherited forkpoint.
    pub forkpoint_held: bool,
    /// Parameters handed to the fork.
    pub fork_env: Vec<(String, String)>,
}

/// The mathematical value of a [`VmRecord`].
#[verifier::ext_equal]
pub struct VmModel {
    pub name: Seq<char>,
    pub created_at: u64,
    pub state: RecordState,
    pub pid: Option<i32>,
    pub cpus: u8,
    pub mem: u32,
    pub mounts: Seq<(Seq<char>, Seq<char>, bool)>,
    pub ports: Seq<(u16, u16)>,
    pub network: bool,
    pub network_backend: Option<Seq<char>>,
    pub dns: Option<u32>,
    pub storage_gb: Option<u64>,
    pub overlay_gb: Option<u64>,
    pub allowed_cidrs: Option<Seq<Seq<char>>>,
    pub dns_filter_hosts: Option<Seq<Seq<char>>>,
    pub init: Seq<Seq<char>>,
    pub env: Seq<(Seq<char>, Seq<char>)>,
    pub workdir: Option<Seq<char>>,
    pub user: Option<Seq<char>>,
    pub image: Option<Seq<char>>,
    pub entrypoint: Seq<Seq<char>>,
    pub cmd: Seq<Seq<char>>,
    pub ssh_agent: bool,
    pub cuda: bool,
    pub docker_socket: bool,
    pub gpu: Option<bool>,
    pub gpu_vram_mib: Option<u32>,
    pub rosetta: Option<bool>,
    pub restart: RestartConfig,
    pub last_exit_code: Option<i32>,
    pub health_cmd: Option<Seq<Seq<char>>>,
    pub health_interval_secs: Option<u64>,
    pub health_timeout_secs: Option<u64>,
    pub health_retries: Option<u32>,
    pub health_startup_grace_secs: Option<u64>,
    pub golden: Option<Seq<char>>,
    pub forkpoint_held: bool,
    pub fork_env: Seq<(Seq<char>, Seq<char>)>,
}

impl View for VmRecord {
    type V = VmModel;

    open spec fn view(&self) -> VmModel {
        VmModel {
            name: self.name@,
            created_at: self.created_at,
            state: self.state,
            pid: self.pid,
            cpus: self.cpus,
            mem: self.mem,
            mounts: mounts_view(self.mounts@),
            ports: self.ports@,
            network: self.network,
            network_backend: opt_text(self.network_backend),
            dns: self.dns,
            storage_gb: self.storage_gb,
            overlay_gb: self.overlay_gb,
            allowed_cidrs: opt_texts(self.allowed_cidrs),
            dns_filter_hosts: opt_texts(self.dns_filter_hosts),
            init: texts(self.init@),
            env: pairs(self.env@),
            workdir: opt_text(self.workdir),
            user: opt_text(self.user),
            image: opt_text(self.image),
            entrypoint: texts(self.entrypoint@),
            cmd: texts(self.cmd@),
            ssh_agent: self.ssh_agent,
            cuda: self.cuda,
            docker_socket: self.docker_socket,
            gpu: self.gpu,
            gpu_vram_mib: self.gpu_vram_mib,
            rosetta: self.rosetta,
            restart: self.restart,
            last_exit_code: self.last_exit_code,
            health_cmd: opt_texts(self.health_cmd),
            health_interval_secs: self.health_interval_secs,
            health_timeout_secs: self.health_timeout_secs,
            health_retries: self.health_retries,
            health_startup_grace_secs: self.health_startup_grace_secs,
            golden: opt_text(self.golden),
            forkpoint_held: self.forkpoint_held,
            fork_env: pairs(self.fork_env@),
        }
    }
}

impl Clone for VmRecord {
    fn clone(&self) -> (r: Self)
        ensures
            r@ == self@,
    {
        let r = VmRecord {
            name: self.name.clone(),
            created_at: self.created_at,
            state: self.state,
            pid: self.pid,
            cpus: self.cpus,
            mem: self.mem,
            mounts: copy_mounts(&self.mounts),
            ports: copy_ports(&self.ports),
            network: self.network,
            network_backend: copy_opt_text(&self.network_backend),
            dns: self.dns,
            storage_gb: self.storage_gb,
            overlay_gb: self.overlay_gb,
            allowed_cidrs: copy_opt_texts(&self.allowed_cidrs),
            dns_filter_hosts: copy_opt_texts(&self.dns_filter_hosts),
            init: copy_texts(&self.init),
            env: copy_pairs(&self.env),
            workdir: copy_opt_text(&self.workdir),
            user: copy_opt_text(&self.user),
            image: copy_opt_text(&self.image),
            entrypoint: copy_texts(&self.entrypoint),
            cmd: copy_texts(&self.cmd),
            ssh_agent: self.ssh_agent,
            cuda: self.cuda,
            docker_socket: self.docker_socket,
            gpu: self.gpu,
            gpu_vram_mib: self.gpu_vram_mib,
            rosetta: self.rosetta,
            restart: self.restart,
            last_exit_code: self.last_exit_code,
            health_cmd: copy_opt_texts(&self.health_cmd),
            health_interval_secs: self.health_interval_secs,
            health_timeout_secs: self.health_timeout_secs,
            health_retries: self.health_retries,
            health_startup_grace_secs: self.health_startup_grace_secs,
            golden: copy_opt_text(&self.golden),
            forkpoint_held: self.forkpoint_held,
            fork_env: copy_pairs(&self.fork_env),
        };
        r
    }
}

/// Configuration of one fork pool.
#[derive(Debug, PartialEq, Eq)]
pub struct ForkPoolRecord {
    /// Pool name.
    pub name: String,
    /// Machine the workers are forked from.
    pub golden: String,
    /// Workers to keep ready.
    pub desired_ready: u32,
    /// Configured ceiling of active leases.
    pub max_active: Option<u32>,
    /// Admission follows the measured device capacity.
    pub auto_admission: bool,
    /// CUDA device of the pool.
    pub cuda_device_ordinal: Option<u32>,
    /// Workers share the golden's weights.
    pub share_weights: bool,
    /// Seconds a worker may take to become ready.
    pub ready_timeout_secs: u64,
    /// Seconds a lease lives between heartbeats.
    pub lease_ttl_secs: u64,
    /// Creation time.
    pub created_at: u64,
    /// Deletion has begun.
    pub deleting: bool,
}

/// The mathematical value of a [`ForkPoolRecord`].
#[verifier::ext_equal]
pub struct PoolModel {
    pub name: Seq<char>,
    pub golden: Seq<char>,
    pub desired_ready: u32,
    pub max_active: Option<u32>,
    pub auto_admission: bool,
    pub cuda_device_ordinal: Option<u32>,
    pub share_weights: bool,
    pub ready_timeout_secs: u64,
    pub lease_ttl_secs: u64,
    pub created_at: u64,
    pub deleting: bool,
}

impl View for ForkPoolRecord {
    type V = PoolModel;

    open spec fn view(&self) -> PoolModel {
        PoolModel {
            name: self.name@,
            golden: self.golden@,
            desired_ready: self.desired_ready,
            max_active: self.max_active,
            auto_admission: self.auto_admission,
            cuda_device_ordinal: self.cuda_device_ordinal,
            share_weights: self.share_weights,
            ready_timeout_secs: self.ready_timeout_secs,
            lease_ttl_secs: self.lease_ttl_secs,
            created_at: self.created_at,
            deleting: self.deleting,
        }
    }
}

impl Clone for ForkPoolRecord {
    fn clone(&self) -> (r: Self)
        ensures
            r@ == self@,
    {
        let r = ForkPoolRecord {
            name: self.name.clone(),
            golden: self.golden.clone(),
            desired_ready: self.desired_ready,
            max_active: self.max_active,
            auto_admission: self.auto_admission,
            cuda_device_ordinal: self.cuda_device_ordinal,
            share_weights: self.share_weights,
            ready_timeout_secs: self.ready_timeout_secs,
            lease_ttl_secs: self.lease_ttl_secs,
            created_at: self.created_at,
            deleting: self.deleting,
        };
        r
    }
}

/// One worker of a fork pool.
#[derive(Debug, PartialEq, Eq)]
pub struct ForkPoolSlotRecord {
    /// Pool that owns the worker.
    pub pool_name: String,
    /// Machine of the worker.
    pub machine_name: String,
    /// Where the worker stands.
    pub state: ForkPoolSlotState,
    /// Lease that consumed the worker.
    pub lease_id: Option<String>,
    /// Creation time.
    pub created_at: u64,
    /// Time of the last change.
    pub updated_at: u64,
    /// Why the worker was retired.
    pub last_error: Option<String>,
}

/// The mathematical value of a [`ForkPoolSlotRecord`].
#[verifier::ext_equal]
pub struct SlotModel {
    pub pool_name: Seq<char>,
    pub machine_name: Seq<char>,
    pub state: ForkPoolSlotState,
    pub lease_id: Option<Seq<char>>,
    pub created_at: u64,
    pub updated_at: u64,
    pub last_error: Option<Seq<char>>,
}

impl View for ForkPoolSlotRecord {
    type V = SlotModel;

    open spec fn view(&self) -> SlotModel {
        SlotModel {
            pool_name: self.pool_name@,
            machine_name: self.machine_name@,
            state: self.state,
            lease_id: opt_text(self.lease_id),
            created_at: self.created_at,
            updated_at: self.updated_at,
            last_error: opt_text(self.last_error),
        }
    }
}

impl Clone for ForkPoolSlotRecord {
    fn clone(&self) -> (r: Self)
        ensures
            r@ == self@,
    {
        let r = ForkPoolSlotRecord {
            pool_name: self.pool_name.clone(),
            machine_name: self.machine_name.clone(),
            state: self.state,
            lease_id: copy_opt_text(&self.lease_id),
            created_at: self.created_at,
            updated_at: self.updated_at,
            last_error: copy_opt_text(&self.last_error),
        };
        r
    }
}

/// One caller's hold on a worker.
#[derive(Debug, PartialEq, Eq)]
pub struct ForkLeaseRecord {
    /// Opaque identifier.
    pub id: String,
    /// Pool of the worker.
    pub pool_name: String,
    /// Leased machine.
    pub machine_name: String,
    /// Retry key, unique within the pool.
    pub idempotency_key: String,
    /// Where the lease stands.
    pub state: ForkLeaseState,
    /// Environment handed to the worker.
    pub assignment: Vec<(String, String)>,
    /// Digest of the staged files.
    pub payload_sha256: Option<String>,
    /// Creation time.
    pub created_at: u64,
    /// Time of the last change.
    pub updated_at: u64,
    /// Time at which the lease ends.
    pub expires_at: u64,
    /// Seconds each heartbeat adds.
    pub ttl_secs: u64,
    /// Why the lease failed.
    pub last_error: Option<String>,
}

/// The mathematical value of a [`ForkLeaseRecord`].
#[verifier::ext_equal]
pub struct LeaseModel {
    pub id: Seq<char>,
    pub pool_name: Seq<char>,
    pub machine_name: Seq<char>,
    pub idempotency_key: Seq<char>,
    pub state: ForkLeaseState,
    pub assignment: Seq<(Seq<char>, Seq<char>)>,
    pub payload_sha256: Option<Seq<char>>,
    pub created_at: u64,
    pub updated_at: u64,
    pub expires_at: u64,
    pub ttl_secs: u64,
    pub last_error: Option<Seq<char>>,
}

impl View for ForkLeaseRecord {
    type V = LeaseModel;

    open spec fn view(&self) -> LeaseModel {
        LeaseModel {
            id: self.id@,
            pool_name: self.pool_name@,
            machine_name: self.machine_name@,
            idempotency_key: self.idempotency_key@,
            state: self.state,
            assignment: pairs(self.assignment@),
            payload_sha256: opt_text(self.payload_sha256),
            created_at: self.created_at,
            updated_at: self.updated_at,
            expires_at: self.expires_at,
            ttl_secs: self.ttl_secs,
            last_error: opt_text(self.last_error),
        }
    }
}

impl Clone for ForkLeaseRecord {
    fn clone(&self) -> (r: Self)
        ensures
            r@ == self@,
    {
        let r = ForkLeaseRecord {
            id: self.id.clone(),
            pool_name: self.pool_name.clone(),
            machine_name: self.machine_name.clone(),
            idempotency_key: self.idempotency_key.clone(),
            state: self.state,
            assignment: copy_pairs(&self.assignment),
            payload_sha256: copy_opt_text(&self.payload_sha256),
            created_at: self.created_at,
            updated_at: self.updated_at,
            expires_at: self.expires_at,
            ttl_secs: self.ttl_secs,
            last_error: copy_opt_text(&self.last_error),
        };
        r
    }
}

/// A reusable snapshot of a golden machine.
#[derive(Debug, PartialEq, Eq)]
pub struct RetainedForkSnapshot {
    /// Where the snapshot lies.
    pub path: String,
    /// Process the snapshot was taken from.
    pub golden_pid: i32,
    /// Start time of that process.
    pub golden_pid_start_time: u64,
}

/// The mathematical value of a [`RetainedForkSnapshot`].
#[verifier::ext_equal]
pub struct SnapshotModel {
    pub path: Seq<char>,
    pub golden_pid: i32,
    pub golden_pid_start_time: u64,
}

impl View for RetainedForkSnapshot {
    type V = SnapshotModel;

    open spec fn view(&self) -> SnapshotModel {
        SnapshotModel {
            path: self.path@,
            golden_pid: self.golden_pid,
            golden_pid_start_time: self.golden_pid_start_time,
        }
    }
}

impl Clone for RetainedForkSnapshot {
    fn clone(&self) -> (r: Self)
        ensures
            r@ == self@,
    {
        let r = RetainedForkSnapshot {
            path: self.path.clone(),
            golden_pid: self.golden_pid,
            golden_pid_start_time: self.golden_pid_start_time,
        };
        r
    }
}

/// A name held while its machine is being created.
#[derive(Debug, PartialEq, Eq)]
pub struct CreateReservation {
    /// Token of the creating process.
    pub owner_token: String,
    /// Process that creates the machine.
    pub owner_pid: i64,
    /// Time of the reservation.
    pub created_at: u64,
}

/// The mathematical value of a [`CreateReservation`].
#[verifier::ext_equal]
pub struct ReservationModel {
    pub owner_token: Seq<char>,
    pub owner_pid: i64,
    pub created_at: u64,
}

impl View for CreateReservation {
    type V = ReservationModel;

    open spec fn view(&self) -> ReservationModel {
        ReservationModel {
            owner_token: self.owner_token@,
            owner_pid: self.owner_pid,
            created_at: self.created_at,
        }
    }
}

impl Clone for CreateReservation {
    fn clone(&self) -> (r: Self)
        ensures
            r@ == self@,
    {
        let r = CreateReservation {
            owner_token: self.owner_token.clone(),
            owner_pid: self.owner_pid,
            created_at: self.created_at,
        };
        r
    }
}

impl VmRecord {
    /// A freshly created machine with default settings.
    pub fn new(
        name: String,
        cpus: u8,
        mem: u32,
        mounts: Vec<(String, String, bool)>,
        ports: Vec<(u16, u16)>,
        network: bool,
    ) -> (r: Self)
        ensures
            r@ == fresh_vm(name@, cpus, mem, mounts_view(mounts@), ports@, network),
    {
        let r = VmRecord {
            name,
            cpus,
            mem,
            mounts,
            ports,
            network,
            created_at: 0,
            state: RecordState::Created,
            pid: None,
            network_backend: None,
            dns: None,
            storage_gb: None,
            overlay_gb: None,
            allowed_cidrs: None,
            dns_filter_hosts: None,
            init: Vec::new(),
            env: Vec::new(),
            workdir: None,
            user: None,
            image: None,
            entrypoint: Vec::new(),
            cmd: Vec::new(),
            ssh_agent: false,
            cuda: false,
            docker_socket: false,
            gpu: None,
            gpu_vram_mib: None,
            rosetta: None,
            restart: RestartConfig {
                policy: RestartPolicy::Never,
                max_retries: 0,
                max_backoff_secs: 300,
                restart_count: 0,
                user_stopped: false,
            },
            last_exit_code: None,
            health_cmd: None,
            health_interval_secs: None,
            health_timeout_secs: None,
            health_retries: None,
            health_startup_grace_secs: None,
            golden: None,
            forkpoint_held: false,
            fork_env: Vec::new(),
        };
        proof { assert(r@ =~= fresh_vm(name@, cpus, mem, mounts_view(mounts@), ports@, network)); }
        r
    }
}

/// A machine that was created and never started.
pub open spec fn fresh_vm(
    name: Seq<char>,
    cpus: u8,
    mem: u32,
    mounts: Seq<(Seq<char>, Seq<char>, bool)>,
    ports: Seq<(u16, u16)>,
    network: bool,
) -> VmModel {
    VmModel {
        name,
        cpus,
        mem,
        mounts,
        ports,
        network,
        created_at: 0,
        state: RecordState::Created,
        pid: None,
        network_backend: None,
        dns: None,
        storage_gb: None,
        overlay_gb: None,
        allowed_cidrs: None,
        dns_filter_hosts: None,
        init: Seq::empty(),
        env: Seq::empty(),
        workdir: None,
        user: None,
        image: None,
        entrypoint: Seq::empty(),
        cmd: Seq::empty(),
        ssh_agent: false,
        cuda: false,
        docker_socket: false,
        gpu: None,
        gpu_vram_mib: None,
        rosetta: None,
        restart: RestartConfig {
            policy: RestartPolicy::Never,
            max_retries: 0,
            max_backoff_secs: 300,
            restart_count: 0,
            user_stopped: false,
        },
        last_exit_code: None,
        health_cmd: None,
        health_interval_secs: None,
        health_timeout_secs: None,
        health_retries: None,
        health_startup_grace_secs: None,
        golden: None,
        forkpoint_held: false,
        fork_env: Seq::empty(),
    }
}

impl PoolModel {
    /// The device whose capacity admits leases of the pool, if admission is automatic.
    pub open spec fn admission_device(self) -> Option<u32> {
        if self.auto_admission {
            self.cuda_device_ordinal
        } else {
            None
        }
    }
}

impl ForkPoolRecord {
    /// The device whose capacity admits leases of the pool, if admission is automatic.
    pub fn admission_device_ordinal(&self) -> (r: Option<u32>)
        ensures
            r == self@.admission_device(),
    {
        if self.auto_admission {
            self.cuda_device_ordinal
        } else {
            None
        }
    }
}

} // verus!
