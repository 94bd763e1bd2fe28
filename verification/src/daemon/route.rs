//! Where a connection of a fork clone is served.
//!
//! A clone's connection is marked as such ahead of its first request. Where clones
//! are isolated, each is served by a worker process of its own; the golden's own
//! connections carry no mark and are served in the daemon.
use crate::daemon::policy::disabled_worker_route;
use crate::daemon::preamble::ServeOptions;
use crate::daemon::registry::{
    WorkerEntry, WorkerRegistry, holds_u32, kindred, other_worker, same_process,
};
use vstd::prelude::*;

verus! {

/// Flag of a mark: share the golden's weights.
pub const FLAG_SHARE: u8 = 1;

/// Flag of a mark: a dial ahead of the first request.
pub const FLAG_WARM: u8 = 2;

/// Flag of a mark: load modules ahead of their use.
pub const FLAG_PRELOAD: u8 = 4;

/// What becomes of a connection.
#[derive(Debug, Clone, Copy, PartialEq, Eq, Structural)]
pub enum Route {
    /// Serve it in the daemon.
    Serve,
    /// Drop it: nothing is to be served.
    Drop,
    /// Hand it to the worker behind this control channel; drop it if that fails.
    Attach { control: i32 },
    /// Hand it to the worker behind this control channel, and start a worker for
    /// the golden process if that fails.
    AttachOrSpawn { control: i32, token: u64 },
    /// Start a worker for the golden process.
    Spawn { token: u64 },
    /// Ahead of the first request and without a worker: look at the layouts.
    Warm,
}

/// What the mark of a connection asks for.
#[derive(Debug, Clone, Copy, PartialEq, Eq, Structural)]
pub struct CloneMark {
    pub clone_id: u64,
    pub flags: u8,
}

impl CloneMark {
    /// Whether the clone shares the golden's weights.
    pub fn shares_weights(&self) -> (r: bool)
        ensures
            r == (self.flags & FLAG_SHARE != 0),
    {
        self.flags & FLAG_SHARE != 0
    }

    /// Whether modules are loaded ahead of their use.
    pub fn preloads_modules(&self) -> (r: bool)
        ensures
            r == (self.flags & FLAG_PRELOAD != 0),
    {
        self.flags & FLAG_PRELOAD != 0
    }
}

/// The first running worker of a clone from `i` on.
pub open spec fn running_worker(
    v: Seq<WorkerEntry>,
    clone_id: u64,
    live: Seq<u32>,
    i: int,
) -> Option<WorkerEntry>
    decreases v.len() - i,
{
    if i >= v.len() {
        None
    } else if v[i].clone_id == clone_id && live.contains(v[i].pid) {
        Some(v[i])
    } else {
        running_worker(v, clone_id, live, i + 1)
    }
}

/// The first running worker of a clone from `i` on that serves the same golden
/// process under another token.
pub open spec fn kin_worker(
    v: Seq<WorkerEntry>,
    token: u64,
    clone_id: u64,
    live: Seq<u32>,
    kin: Seq<(u64, u64)>,
    i: int,
) -> Option<WorkerEntry>
    decreases v.len() - i,
{
    if i >= v.len() {
        None
    } else if v[i].clone_id == clone_id && v[i].token != token && kindred(kin, v[i].token, token)
        && live.contains(v[i].pid) {
        Some(v[i])
    } else {
        kin_worker(v, token, clone_id, live, kin, i + 1)
    }
}

/// The worker of a golden process and clone.
pub open spec fn worker_of(v: Seq<WorkerEntry>, token: u64, clone_id: u64, i: int) -> Option<
    WorkerEntry,
>
    decreases v.len() - i,
{
    if i >= v.len() {
        None
    } else if v[i].token == token && v[i].clone_id == clone_id {
        Some(v[i])
    } else {
        worker_of(v, token, clone_id, i + 1)
    }
}

/// What becomes of a connection up to where its golden process matters: an unmarked
/// one, and one where clones are not isolated, is served in the daemon, but for a
/// dial without a request, which is dropped; a dial ahead of the first request goes
/// to any running worker of the clone.
pub open spec fn first_route(
    mark: Option<CloneMark>,
    workers: bool,
    isolate: bool,
    v: Seq<WorkerEntry>,
    live: Seq<u32>,
) -> Option<Route> {
    match mark {
        None => Some(Route::Serve),
        Some(m) => if !(workers && isolate) {
            if m.flags & FLAG_WARM != 0 {
                Some(Route::Drop)
            } else {
                Some(Route::Serve)
            }
        } else if m.flags & FLAG_WARM != 0 {
            match running_worker(v, m.clone_id, live, 0) {
                Some(e) => Some(Route::Attach { control: e.control }),
                None => Some(Route::Warm),
            }
        } else {
            None
        },
    }
}

/// What becomes of a clone's connection whose first request names no golden
/// process: it goes to the clone's only running worker; with several there is no
/// telling which, and it is dropped.
pub open spec fn tokenless_route(unique: Result<Option<(u32, i32)>, usize>) -> Route {
    match unique {
        Err(_) => Route::Drop,
        Ok(None) => Route::Serve,
        Ok(Some((_, control))) => Route::Attach { control },
    }
}

/// Whether the registered worker still serves: it runs, and did not just turn out
/// to have exited.
pub open spec fn still_serves(e: WorkerEntry, exited: bool, live: Seq<u32>) -> bool {
    !exited && live.contains(e.pid)
}

/// What becomes of a clone's connection to a golden process.
pub open spec fn token_route(
    v: Seq<WorkerEntry>,
    token: u64,
    clone_id: u64,
    exited: bool,
    live: Seq<u32>,
    kin: Seq<(u64, u64)>,
) -> Route {
    match worker_of(v, token, clone_id, 0) {
        Some(e) if still_serves(e, exited, live) => Route::Attach { control: e.control },
        _ => match kin_worker(v, token, clone_id, live, kin, 0) {
            Some(e) => Route::AttachOrSpawn { control: e.control, token },
            None => Route::Spawn { token },
        },
    }
}

fn find_running(reg: &WorkerRegistry, clone_id: u64, live: &[u32]) -> (r: Option<WorkerEntry>)
    ensures
        r == running_worker(reg.entries@, clone_id, live@, 0),
{
    let mut i: usize = 0;
    while i < reg.entries.len()
        invariant
            i <= reg.entries@.len(),
            running_worker(reg.entries@, clone_id, live@, 0) == running_worker(
                reg.entries@,
                clone_id,
                live@,
                i as int,
            ),
        decreases reg.entries@.len() - i,
    {
        let e = reg.entries[i];
        if e.clone_id == clone_id && holds_u32(live, e.pid) {
            return Some(e);
        }
        i = i + 1;
    }
    None
}

fn find_kin(
    reg: &WorkerRegistry,
    token: u64,
    clone_id: u64,
    live: &[u32],
    kin: &[(u64, u64)],
) -> (r: Option<WorkerEntry>)
    ensures
        r == kin_worker(reg.entries@, token, clone_id, live@, kin@, 0),
{
    let mut i: usize = 0;
    while i < reg.entries.len()
        invariant
            i <= reg.entries@.len(),
            kin_worker(reg.entries@, token, clone_id, live@, kin@, 0) == kin_worker(
                reg.entries@,
                token,
                clone_id,
                live@,
                kin@,
                i as int,
            ),
        decreases reg.entries@.len() - i,
    {
        let e = reg.entries[i];
        if e.clone_id == clone_id && e.token != token && same_process(kin, e.token, token)
            && holds_u32(live, e.pid) {
            return Some(e);
        }
        i = i + 1;
    }
    None
}

fn find_worker(reg: &WorkerRegistry, token: u64, clone_id: u64) -> (r: Option<WorkerEntry>)
    ensures
        r == worker_of(reg.entries@, token, clone_id, 0),
{
    let mut i: usize = 0;
    while i < reg.entries.len()
        invariant
            i <= reg.entries@.len(),
            worker_of(reg.entries@, token, clone_id, 0) == worker_of(
                reg.entries@,
                token,
                clone_id,
                i as int,
            ),
        decreases reg.entries@.len() - i,
    {
        let e = reg.entries[i];
        if e.token == token && e.clone_id == clone_id {
            return Some(e);
        }
        i = i + 1;
    }
    None
}

/// Routes a connection as far as its mark decides; nothing where the golden process
/// that its first request names has to be looked at. A marked connection is served
/// with the budget of a clone.
pub fn route_clone_connection(
    mark: Option<CloneMark>,
    workers: bool,
    isolate: bool,
    reg: &WorkerRegistry,
    live: &[u32],
    options: &mut ServeOptions,
) -> (r: Option<Route>)
    ensures
        r == first_route(mark, workers, isolate, reg.entries@, live@),
        *final(options) == (ServeOptions {
            fork_clone: mark is Some || old(options).fork_clone,
            ..*old(options)
        }),
{
    let m = match mark {
        None => {
            return Some(Route::Serve);
        },
        Some(m) => m,
    };
    options.fork_clone = true;
    match disabled_worker_route(m.flags, workers, isolate) {
        Some(true) => {
            return Some(Route::Drop);
        },
        Some(false) => {
            return Some(Route::Serve);
        },
        None => {},
    }
    if m.flags & FLAG_WARM != 0 {
        return match find_running(reg, m.clone_id, live) {
            Some(e) => Some(Route::Attach { control: e.control }),
            None => Some(Route::Warm),
        };
    }
    None
}

/// Routes a clone's connection whose first request names no golden process.
pub fn route_tokenless(unique: Result<Option<(u32, i32)>, usize>) -> (r: Route)
    ensures
        r == tokenless_route(unique),
{
    match unique {
        Err(_) => Route::Drop,
        Ok(None) => Route::Serve,
        Ok(Some((_, control))) => Route::Attach { control },
    }
}

/// Routes a clone's connection to a golden process. `exited` tells whether the
/// registered worker has just turned out to have exited. A worker that no longer
/// serves is forgotten; its control channel is returned to be closed.
pub fn route_token(
    reg: &mut WorkerRegistry,
    token: u64,
    clone_id: u64,
    exited: bool,
    live: &[u32],
    kin: &[(u64, u64)],
) -> (r: (Route, Option<i32>))
    requires
        old(reg).wf(),
    ensures
        final(reg).wf(),
        r.0 == token_route(old(reg).entries@, token, clone_id, exited, live@, kin@),
        match worker_of(old(reg).entries@, token, clone_id, 0) {
            Some(e) if !still_serves(e, exited, live@) => r.1 == Some(e.control)
                && final(reg).entries@ == old(reg).entries@.filter(other_worker(token, clone_id)),
            _ => r.1 is None && final(reg).entries@ == old(reg).entries@,
        },
{
    let found = find_worker(reg, token, clone_id);
    let mut closed: Option<i32> = None;
    match found {
        Some(e) => {
            if !exited && holds_u32(live, e.pid) {
                return (Route::Attach { control: e.control }, None);
            }
            closed = Some(e.control);
        },
        None => {},
    }
    let route = match find_kin(reg, token, clone_id, live, kin) {
        Some(e) => Route::AttachOrSpawn { control: e.control, token },
        None => Route::Spawn { token },
    };
    if found.is_some() {
        reg.forget(token, clone_id);
    }
    (route, closed)
}

/// What a dial ahead of the first request comes to.
#[derive(Debug, Clone, Copy, PartialEq, Eq, Structural)]
pub enum WarmRoute {
    /// There is nothing to rebuild: tell the machine that its worker is ready.
    Ready,
    /// Which memory to rebuild is not clear yet.
    Wait,
    /// Start a worker for the golden process.
    Spawn { token: u64 },
}

/// The golden processes whose layouts hold memory.
pub open spec fn memory_tokens(tokens: Seq<u64>, metadata_only: Seq<bool>) -> Seq<u64>
    decreases tokens.len(),
{
    if tokens.len() == 0 {
        Seq::empty()
    } else {
        let front = memory_tokens(tokens.drop_last(), metadata_only);
        if metadata_only[tokens.len() - 1] {
            front
        } else {
            front.push(tokens.last())
        }
    }
}

/// What a dial ahead of the first request comes to: a worker is started only where
/// exactly one layout holds memory.
pub open spec fn warm_route_of(tokens: Seq<u64>, metadata_only: Seq<bool>) -> WarmRoute {
    let memory = memory_tokens(tokens, metadata_only);
    if memory.len() == 0 {
        WarmRoute::Ready
    } else if memory.len() == 1 {
        WarmRoute::Spawn { token: memory[0] }
    } else {
        WarmRoute::Wait
    }
}

/// Decides on a dial ahead of the first request; `metadata_only` tells of each
/// layout whether it was kept as one without memory.
pub fn warm_route(tokens: &[u64], metadata_only: &[bool]) -> (r: WarmRoute)
    requires
        tokens@.len() == metadata_only@.len(),
    ensures
        r == warm_route_of(tokens@, metadata_only@),
{
    let mut memory: Vec<u64> = Vec::new();
    let mut i: usize = 0;
    proof { assert(memory_tokens(tokens@.take(0), metadata_only@) =~= memory@); }
    while i < tokens.len()
        invariant
            i <= tokens@.len(),
            tokens@.len() == metadata_only@.len(),
            memory@ == memory_tokens(tokens@.take(i as int), metadata_only@),
        decreases tokens@.len() - i,
    {
        proof {
            assert(tokens@.take(i + 1).drop_last() =~= tokens@.take(i as int));
            assert(tokens@.take(i + 1).last() == tokens@[i as int]);
        }
        if !metadata_only[i] {
            memory.push(tokens[i]);
        }
        i = i + 1;
    }
    proof { assert(tokens@.take(tokens@.len() as int) =~= tokens@); }
    let n: usize = memory.len();
    if n == 0 {
        WarmRoute::Ready
    } else if n == 1 {
        WarmRoute::Spawn { token: memory[0] }
    } else {
        WarmRoute::Wait
    }
}

// ---------------------------------------------------------------------------
// What routing guarantees
// ---------------------------------------------------------------------------

proof fn lemma_worker_of(v: Seq<WorkerEntry>, token: u64, clone_id: u64, i: int)
    requires
        0 <= i <= v.len(),
    ensures
        worker_of(v, token, clone_id, i) matches Some(e) ==> v.contains(e) && e.token == token
            && e.clone_id == clone_id,
    decreases v.len() - i,
{
    if i < v.len() {
        lemma_worker_of(v, token, clone_id, i + 1);
        assert(v.contains(v[i]));
    }
}

proof fn lemma_kin_worker(
    v: Seq<WorkerEntry>,
    token: u64,
    clone_id: u64,
    live: Seq<u32>,
    kin: Seq<(u64, u64)>,
    i: int,
)
    requires
        0 <= i <= v.len(),
    ensures
        kin_worker(v, token, clone_id, live, kin, i) matches Some(e) ==> v.contains(e) && e.clone_id
            == clone_id && kindred(kin, e.token, token) && live.contains(e.pid),
    decreases v.len() - i,
{
    if i < v.len() {
        lemma_kin_worker(v, token, clone_id, live, kin, i + 1);
        assert(v.contains(v[i]));
    }
}

/// A connection is handed only to a running worker of its own clone that serves the
/// golden process it names.
pub proof fn law_connection_stays_with_its_clone(
    v: Seq<WorkerEntry>,
    token: u64,
    clone_id: u64,
    exited: bool,
    live: Seq<u32>,
    kin: Seq<(u64, u64)>,
)
    ensures
        match token_route(v, token, clone_id, exited, live, kin) {
            Route::Attach { control } => exists|e: WorkerEntry| #[trigger]
                v.contains(e) && e.control == control && e.clone_id == clone_id && kindred(
                    kin,
                    e.token,
                    token,
                ) && live.contains(e.pid),
            Route::AttachOrSpawn { control, token: t } => t == token && exists|e: WorkerEntry|
                #[trigger] v.contains(e) && e.control == control && e.clone_id == clone_id
                    && kindred(kin, e.token, token) && live.contains(e.pid),
            Route::Spawn { token: t } => t == token,
            _ => false,
        },
{
    lemma_worker_of(v, token, clone_id, 0);
    lemma_kin_worker(v, token, clone_id, live, kin, 0);
}

/// A connection without a mark is always served in the daemon, and so is every real
/// channel while clones are not isolated; only dials without a request are dropped.
pub proof fn law_goldens_are_served_in_the_daemon(
    mark: Option<CloneMark>,
    workers: bool,
    isolate: bool,
    v: Seq<WorkerEntry>,
    live: Seq<u32>,
)
    requires
        mark is None || !workers || !isolate,
    ensures
        first_route(mark, workers, isolate, v, live) == Some(
            if mark matches Some(m) && m.flags & FLAG_WARM != 0 {
                Route::Drop
            } else {
                Route::Serve
            },
        ),
{
}

} // verus!
