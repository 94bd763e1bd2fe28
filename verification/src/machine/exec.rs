//! Running a command in a machine that runs.
use crate::copying::{copy_opt_text, copy_pairs, opt_text, pairs, texts};
use crate::db::merge_env_pairs;
use crate::db_model::merge_env;
use crate::machine::params::{env_pairs, parse_env_list};
use crate::machine::run::default_name;
use crate::phrase::extend_pairs;
use crate::records::VmRecord;
use crate::text::say2;
use vstd::prelude::*;

verus! {

/// What `exec` is asked for.
#[derive(Debug)]
pub struct ExecCmd {
    pub command: Vec<String>,
    pub name: Option<String>,
    pub workdir: Option<String>,
    pub env: Vec<String>,
    pub secret_env: Vec<String>,
    pub secret_file: Vec<String>,
    /// Milliseconds.
    pub timeout: Option<u64>,
    pub interactive: bool,
    pub tty: bool,
    pub stream: bool,
    pub detach: bool,
}

/// What `shell` is asked for.
#[derive(Debug)]
pub struct ShellCmd {
    pub name: Option<String>,
}

impl ShellCmd {
    /// A shell is the command `/bin/sh` with a terminal.
    pub fn run(self) -> (r: ExecCmd)
        ensures
            texts(r.command@) == seq!["/bin/sh"@],
            opt_text(r.name) == opt_text(self.name),
            r.workdir is None,
            r.env@.len() == 0,
            r.secret_env@.len() == 0,
            r.secret_file@.len() == 0,
            r.timeout is None,
            r.interactive,
            r.tty,
            !r.stream,
            !r.detach,
    {
        let mut command: Vec<String> = Vec::new();
        command.push("/bin/sh".to_owned());
        proof { assert(texts(command@) =~= seq!["/bin/sh"@]); }
        ExecCmd {
            command,
            name: self.name,
            workdir: None,
            env: Vec::new(),
            secret_env: Vec::new(),
            secret_file: Vec::new(),
            timeout: None,
            interactive: true,
            tty: true,
            stream: false,
            detach: false,
        }
    }
}

/// How a command is run.
#[derive(Debug, Clone, Copy, PartialEq, Eq, Structural)]
pub enum ExecMode {
    /// In the background; its process is told.
    Background,
    /// With the terminal.
    Interactive { tty: bool },
    /// With its output passed on as it comes.
    Stream,
    /// With its output captured.
    Captured,
}

/// How a command is run: in the background before anything else, then with the
/// terminal, then as a stream.
pub open spec fn exec_mode_of(cmd: ExecCmd) -> ExecMode {
    if cmd.detach {
        ExecMode::Background
    } else if cmd.interactive || cmd.tty {
        ExecMode::Interactive { tty: cmd.tty }
    } else if cmd.stream {
        ExecMode::Stream
    } else {
        ExecMode::Captured
    }
}

/// A command to run in a machine.
#[derive(Debug)]
pub struct ExecPlan {
    /// The machine.
    pub machine: String,
    /// The image whose files it sees, if the machine has one.
    pub image: Option<String>,
    pub workdir: Option<String>,
    /// Its variables.
    pub env: Vec<(String, String)>,
    pub mode: ExecMode,
}

/// The machine that a command names.
pub open spec fn target_name(name: Option<String>) -> Seq<char> {
    match name {
        Some(n) => n@,
        None => default_name(),
    }
}

/// The machine that a command names.
pub fn target(name: &Option<String>) -> (r: String)
    ensures
        r@ == target_name(*name),
{
    match name {
        Some(n) => n.clone(),
        None => "default".to_owned(),
    }
}

impl ExecCmd {
    /// Plans a command. Its directory is that of the flags before that of the record; its
    /// variables are those of the record with its secrets, then the secrets of the
    /// flags, and those of the flags set over both.
    pub fn run(
        &self,
        record: &Option<VmRecord>,
        record_env: &[(String, String)],
        secrets: &[(String, String)],
    ) -> (r: ExecPlan)
        ensures
            r.machine@ == target_name(self.name),
            opt_text(r.image) == match record {
                Some(m) => m@.image,
                None => None,
            },
            opt_text(r.workdir) == match self.workdir {
                Some(d) => Some(d@),
                None => match record {
                    Some(m) => m@.workdir,
                    None => None,
                },
            },
            pairs(r.env@) == merge_env(
                pairs(record_env@) + pairs(secrets@),
                env_pairs(texts(self.env@)),
            ),
            r.mode == exec_mode_of(*self),
    {
        let mut base = copy_pairs(record_env);
        extend_pairs(&mut base, secrets);
        let flags = parse_env_list(&self.env);
        let env = merge_env_pairs(&base, &flags);
        let mode = if self.detach {
            ExecMode::Background
        } else if self.interactive || self.tty {
            ExecMode::Interactive { tty: self.tty }
        } else if self.stream {
            ExecMode::Stream
        } else {
            ExecMode::Captured
        };
        ExecPlan {
            machine: target(&self.name),
            image: match record {
                Some(m) => copy_opt_text(&m.image),
                None => None,
            },
            workdir: match &self.workdir {
                Some(d) => Some(d.clone()),
                None => match record {
                    Some(m) => copy_opt_text(&m.workdir),
                    None => None,
                },
            },
            env,
            mode,
        }
    }
}

/// What a command that runs sends.
#[derive(Debug, PartialEq, Eq)]
pub enum ExecEvent {
    Stdout(Vec<u8>),
    Stderr(Vec<u8>),
    /// It ended with this status.
    Exit(i32),
    /// It could not be run.
    Error(String),
}

/// Where bytes of a command go.
#[derive(Debug, PartialEq, Eq)]
pub enum ExecOutput {
    Nothing,
    Stdout(Vec<u8>),
    Stderr(Vec<u8>),
    /// A line of its own among the errors.
    Message(String),
}

/// The status that a stream of events ends with.
pub open spec fn stream_status(events: Seq<ExecEvent>) -> int
    decreases events.len(),
{
    if events.len() == 0 {
        0
    } else {
        match events.last() {
            ExecEvent::Exit(code) => code as int,
            ExecEvent::Error(_) => 1,
            _ => stream_status(events.drop_last()),
        }
    }
}

/// Passes on what a command sends and keeps its status.
#[derive(Debug)]
pub struct ExecEventPrinter {
    pub exit_code: i32,
}

impl ExecEventPrinter {
    /// Before any event.
    pub fn new() -> (r: Self)
        ensures
            r.exit_code == stream_status(Seq::empty()),
    {
        ExecEventPrinter { exit_code: 0 }
    }

    /// Takes an event: output is passed on, an end or an error sets the status.
    pub fn handle(&mut self, event: ExecEvent) -> (r: ExecOutput)
        ensures
            match event {
                ExecEvent::Stdout(data) => r == ExecOutput::Stdout(data) && final(self).exit_code
                    == old(self).exit_code,
                ExecEvent::Stderr(data) => r == ExecOutput::Stderr(data) && final(self).exit_code
                    == old(self).exit_code,
                ExecEvent::Exit(code) => r == ExecOutput::Nothing && final(self).exit_code == code,
                ExecEvent::Error(msg) => (r matches ExecOutput::Message(m) && m@ == "error: "@
                    + msg@) && final(self).exit_code == 1,
            },
            forall|before: Seq<ExecEvent>| #[trigger]
                stream_status(before) == old(self).exit_code ==> final(self).exit_code
                    == stream_status(before.push(event)),
    {
        proof {
            assert forall|before: Seq<ExecEvent>| #[trigger]
                stream_status(before) == self.exit_code implies stream_status(before.push(event))
                == match event {
                ExecEvent::Exit(code) => code as int,
                ExecEvent::Error(_) => 1,
                _ => self.exit_code as int,
            } by {
                assert(before.push(event).drop_last() =~= before);
                assert(before.push(event).last() == event);
            }
        }
        match event {
            ExecEvent::Stdout(data) => ExecOutput::Stdout(data),
            ExecEvent::Stderr(data) => ExecOutput::Stderr(data),
            ExecEvent::Exit(code) => {
                self.exit_code = code;
                ExecOutput::Nothing
            },
            ExecEvent::Error(msg) => {
                self.exit_code = 1;
                ExecOutput::Message(say2("error: ", msg.as_str()))
            },
        }
    }
}

} // verus!
