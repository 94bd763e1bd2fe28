//! The small commands.
use crate::copying::{copy_opt_text, opt_text, pairs, texts};
use crate::machine::create::CreateCmd;
use crate::machine::errors::{ConfigError, config_error};
use crate::machine::exec::{ExecCmd, ShellCmd, target, target_name};
use crate::machine::fork::ForkCmd;
use crate::machine::listing::{ImagesCmd, PruneCmd};
use crate::machine::monitor::MonitorCmd;
use crate::machine::params::{env_pairs, parse_env_list};
use crate::machine::run::RunCmd;
use crate::machine::update::UpdateCmd;
use crate::records::VmRecord;
use crate::split::{split_first, split_once_chars};
use crate::text::{chars_of, say2, say4, string_of};
use vstd::prelude::*;

verus! {

// ---------------------------------------------------------------------------
// Starting and stopping
// ---------------------------------------------------------------------------

/// What `start` is asked for.
#[derive(Debug)]
pub struct StartCmd {
    pub name: Option<String>,
    pub forkable: bool,
    /// Clones to plan for, at least one.
    pub fork_pool_size: Option<u32>,
    /// Memory of each session in MiB, at least one.
    pub cuda_vram_limit_mib: Option<u64>,
    /// The proxy through which images are pulled.
    pub proxy: Option<String>,
    /// Hosts that are reached without it.
    pub no_proxy: Option<String>,
}

/// How a machine is prepared to be forked.
#[derive(Debug, Clone, Copy, PartialEq, Eq, Structural)]
pub struct ForkLaunch {
    pub forkable: bool,
    pub pool_size: Option<u32>,
    pub vram_limit_mib: Option<u64>,
}

/// How a machine is started.
#[derive(Debug)]
pub struct StartPlan {
    /// The machine.
    pub name: String,
    pub proxy: Option<String>,
    pub no_proxy: Option<String>,
    pub fork: ForkLaunch,
}

/// How a machine is prepared to be forked: planning clones implies it.
pub open spec fn fork_launch(cmd: StartCmd) -> ForkLaunch {
    if cmd.forkable || cmd.fork_pool_size is Some {
        ForkLaunch {
            forkable: true,
            pool_size: cmd.fork_pool_size,
            vram_limit_mib: cmd.cuda_vram_limit_mib,
        }
    } else {
        ForkLaunch { forkable: false, pool_size: None, vram_limit_mib: None }
    }
}

impl StartCmd {
    /// How the machine is started.
    pub fn run(&self) -> (r: StartPlan)
        ensures
            r.name@ == target_name(self.name),
            opt_text(r.proxy) == opt_text(self.proxy),
            opt_text(r.no_proxy) == opt_text(self.no_proxy),
            r.fork == fork_launch(*self),
    {
        let fork = if self.forkable || self.fork_pool_size.is_some() {
            ForkLaunch {
                forkable: true,
                pool_size: self.fork_pool_size,
                vram_limit_mib: self.cuda_vram_limit_mib,
            }
        } else {
            ForkLaunch { forkable: false, pool_size: None, vram_limit_mib: None }
        };
        StartPlan {
            name: target(&self.name),
            proxy: copy_opt_text(&self.proxy),
            no_proxy: copy_opt_text(&self.no_proxy),
            fork,
        }
    }

    /// Whether a machine that is not there is created as the default one: only if no
    /// name was given.
    pub fn falls_back(&self, not_found: bool) -> (r: bool)
        ensures
            r == (not_found && self.name is None),
    {
        not_found && self.name.is_none()
    }
}

/// What `stop` is asked for.
#[derive(Debug)]
pub struct StopCmd {
    pub name: Option<String>,
}

/// The machine to stop.
#[derive(Debug, PartialEq, Eq)]
pub enum StopTarget {
    Named(String),
    Default,
}

impl StopCmd {
    /// The machine to stop: the one that the name resolves to, or the default one.
    pub fn run(&self, resolved: Option<String>) -> (r: StopTarget)
        ensures
            match resolved {
                Some(n) => r == StopTarget::Named(n),
                None => r is Default,
            },
    {
        match resolved {
            Some(n) => StopTarget::Named(n),
            None => StopTarget::Default,
        }
    }
}

/// What `delete` is asked for.
#[derive(Debug)]
pub struct DeleteCmd {
    pub name: String,
    pub force: bool,
    pub cascade: bool,
}

/// How a machine is deleted.
#[derive(Debug, Clone, Copy, PartialEq, Eq, Structural)]
pub struct DeleteVmOptions {
    pub stop_if_running: bool,
    pub cascade: bool,
}

impl DeleteCmd {
    /// How the machine is deleted: one that runs is stopped first, so that its process
    /// does not outlive its disks.
    pub fn run(&self) -> (r: DeleteVmOptions)
        ensures
            r == (DeleteVmOptions { stop_if_running: true, cascade: self.cascade }),
    {
        DeleteVmOptions { stop_if_running: true, cascade: self.cascade }
    }
}

/// What `status` is asked for.
#[derive(Debug)]
pub struct StatusCmd {
    pub name: Option<String>,
    pub json: bool,
}

/// How a status is told.
#[derive(Debug, Clone, Copy, PartialEq, Eq, Structural)]
pub enum StatusForm {
    Json,
    Text,
}

impl StatusCmd {
    /// How the status is told.
    pub fn run(&self) -> (r: StatusForm)
        ensures
            r == if self.json {
                StatusForm::Json
            } else {
                StatusForm::Text
            },
    {
        if self.json {
            StatusForm::Json
        } else {
            StatusForm::Text
        }
    }
}

/// What `ls` is asked for.
#[derive(Debug)]
pub struct LsCmd {
    pub verbose: bool,
    pub json: bool,
}

/// What `resize` is asked for.
#[derive(Debug)]
pub struct ResizeCmd {
    pub name: Option<String>,
    pub storage: Option<u64>,
    pub overlay: Option<u64>,
}

impl ResizeCmd {
    /// What a resize that failed is reported as: of a machine that runs, how to stop it;
    /// else the error itself. `resolved` is the machine that the command means.
    pub fn run(&self, resolved: &Option<String>, error: ConfigError, invalid_state: bool) -> (r:
        ConfigError)
        ensures
            r@ == if invalid_state {
                (
                    "resize"@,
                    "VM '"@ + target_name(*resolved)
                        + "' is running. Stop it first with: smolvm machine stop --name "@
                        + target_name(*resolved),
                )
            } else {
                error@
            },
    {
        if !invalid_state {
            return error;
        }
        let name = target(resolved);
        config_error(
            "resize",
            say4(
                "VM '",
                name.as_str(),
                "' is running. Stop it first with: smolvm machine stop --name ",
                name.as_str(),
            ),
        )
    }
}

/// What `data-dir` is asked for.
#[derive(Debug)]
pub struct DataDirCmd {
    pub name: String,
}

impl DataDirCmd {
    /// The directory to print: none for a machine that was never created.
    pub fn run(&self, record: &Option<VmRecord>, dir: &str) -> (r: Option<String>)
        ensures
            opt_text(r) == if record is Some {
                Some(dir@)
            } else {
                None
            },
    {
        if record.is_some() {
            Some(dir.to_owned())
        } else {
            None
        }
    }
}

/// What `network-test` is asked for.
#[derive(Debug)]
pub struct NetworkTestCmd {
    pub name: Option<String>,
    pub url: String,
}

/// How a machine is tested.
#[derive(Debug, Clone, Copy, PartialEq, Eq, Structural)]
pub struct NetworkTestPlan {
    /// Start it first.
    pub start_first: bool,
    /// Leave it running.
    pub leave_running: bool,
}

impl NetworkTestCmd {
    /// How the machine is tested: one that was running stays so.
    pub fn run(&self, already_running: bool) -> (r: NetworkTestPlan)
        ensures
            r.start_first == !already_running,
            r.leave_running == already_running,
    {
        NetworkTestPlan { start_first: !already_running, leave_running: already_running }
    }
}

/// What `fork-release` is asked for.
#[derive(Debug)]
pub struct ForkReleaseCmd {
    pub name: String,
    pub env: Vec<String>,
}

impl ForkReleaseCmd {
    /// The parameters that the clone is given.
    pub fn run(&self) -> (r: Vec<(String, String)>)
        ensures
            pairs(r@) == env_pairs(texts(self.env@)),
    {
        parse_env_list(&self.env)
    }
}

// ---------------------------------------------------------------------------
// Copying
// ---------------------------------------------------------------------------

/// What `cp` is asked for.
#[derive(Debug)]
pub struct CpCmd {
    pub src: String,
    pub dst: String,
}

/// A copy between the host and a machine.
#[derive(Debug, PartialEq, Eq)]
pub struct CopyPlan {
    pub machine: String,
    pub guest_path: String,
    pub local_path: String,
    /// Towards the machine.
    pub upload: bool,
}

/// The copy that two paths mean: the first one with a machine's name before it is the
/// machine's side, the source before the target.
pub open spec fn copy_of(src: Seq<char>, dst: Seq<char>) -> Option<
    (Seq<char>, Seq<char>, Seq<char>, bool),
> {
    match split_first(src, ':') {
        Some((name, path)) => Some((name, path, dst, false)),
        None => match split_first(dst, ':') {
            Some((name, path)) => Some((name, path, src, true)),
            None => None,
        },
    }
}

impl CpCmd {
    /// The copy that is meant.
    pub fn run(&self) -> (r: Result<CopyPlan, ConfigError>)
        ensures
            match (copy_of(self.src@, self.dst@), r) {
                (Some((machine, guest, local, upload)), Ok(p)) => p.machine@ == machine
                    && p.guest_path@ == guest && p.local_path@ == local && p.upload == upload,
                (None, Err(e)) => e@ == (
                    "cp"@,
                    "one of SRC or DST must use machine:path syntax (e.g., myvm:/workspace/file)"@,
                ),
                _ => false,
            },
    {
        match split_once_chars(&chars_of(self.src.as_str()), ':') {
            Some((name, path)) => {
                return Ok(
                    CopyPlan {
                        machine: string_of(&name),
                        guest_path: string_of(&path),
                        local_path: self.dst.clone(),
                        upload: false,
                    },
                );
            },
            None => {},
        }
        match split_once_chars(&chars_of(self.dst.as_str()), ':') {
            Some((name, path)) => Ok(
                CopyPlan {
                    machine: string_of(&name),
                    guest_path: string_of(&path),
                    local_path: self.src.clone(),
                    upload: true,
                },
            ),
            None => Err(
                config_error(
                    "cp",
                    "one of SRC or DST must use machine:path syntax (e.g., myvm:/workspace/file)".to_owned(),
                ),
            ),
        }
    }
}

/// The overlay that a machine with an image keeps its files in.
pub fn overlay_id(machine: &str) -> (r: String)
    ensures
        r@ == "persistent-"@ + machine@,
{
    say2("persistent-", machine)
}

// ---------------------------------------------------------------------------
// Sweeping
// ---------------------------------------------------------------------------

/// Machines left behind that a run removes on its way.
pub const EPHEMERAL_RUN_SWEEP_CAP: usize = 8;

/// A command on machines.
#[derive(Debug)]
pub enum MachineCmd {
    Run(RunCmd),
    Exec(ExecCmd),
    Create(CreateCmd),
    Start(StartCmd),
    Fork(ForkCmd),
    ForkRelease(ForkReleaseCmd),
    Stop(StopCmd),
    Delete(DeleteCmd),
    Status(StatusCmd),
    Ls(LsCmd),
    Resize(ResizeCmd),
    Update(UpdateCmd),
    Images(ImagesCmd),
    Prune(PruneCmd),
    Shell(ShellCmd),
    Cp(CpCmd),
    Monitor(MonitorCmd),
    NetworkTest(NetworkTestCmd),
    DataDir(DataDirCmd),
}

impl MachineCmd {
    /// How many machines left behind are removed before the command: a few on the way
    /// to a run, so that it does not wait long, and all before any other.
    pub fn run(&self) -> (r: Option<usize>)
        ensures
            r == if *self is Run {
                Some(EPHEMERAL_RUN_SWEEP_CAP)
            } else {
                None
            },
    {
        match self {
            MachineCmd::Run(_) => Some(EPHEMERAL_RUN_SWEEP_CAP),
            _ => None,
        }
    }
}

} // verus!
