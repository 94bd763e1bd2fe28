//! Where connections of clones go.
use crate::daemon::registry::WorkerEntry;
use crate::daemon::route::{
    CloneMark, Route, WarmRoute, first_route, kin_worker, memory_tokens, running_worker,
    token_route, tokenless_route, warm_route_of, worker_of,
};
use crate::filtering::lemma_push_members;
use vstd::prelude::*;

verus! {

/// A worker of this clone that lives.
pub open spec fn runs_clone(e: WorkerEntry, clone_id: u64, live: Seq<u32>) -> bool {
    e.clone_id == clone_id && live.contains(e.pid)
}

proof fn lemma_running_from(
    v: Seq<WorkerEntry>,
    clone_id: u64,
    live: Seq<u32>,
    from: int,
    i: int,
)
    requires
        0 <= from <= i < v.len(),
        runs_clone(v[i], clone_id, live),
        forall|j: int| from <= j < i ==> !runs_clone(#[trigger] v[j], clone_id, live),
    ensures
        running_worker(v, clone_id, live, from) == Some(v[i]),
    decreases i - from,
{
    if from < i {
        assert(!runs_clone(v[from], clone_id, live));
        lemma_running_from(v, clone_id, live, from + 1, i);
    }
}

proof fn lemma_none_running(v: Seq<WorkerEntry>, clone_id: u64, live: Seq<u32>, from: int)
    requires
        0 <= from,
        forall|j: int| from <= j < v.len() ==> !runs_clone(#[trigger] v[j], clone_id, live),
    ensures
        running_worker(v, clone_id, live, from) is None,
    decreases v.len() - from,
{
    if from < v.len() {
        assert(!runs_clone(v[from], clone_id, live));
        lemma_none_running(v, clone_id, live, from + 1);
    }
}

/// A connection that warms a clone up goes to the clone's first worker that lives; where
/// there is none, the clone is warmed up anew.
pub proof fn law_warming_connections(
    m: CloneMark,
    v: Seq<WorkerEntry>,
    live: Seq<u32>,
    i: int,
)
    requires
        m.flags & 2 != 0,
        0 <= i <= v.len(),
        forall|j: int| 0 <= j < i ==> !runs_clone(#[trigger] v[j], m.clone_id, live),
        i < v.len() ==> runs_clone(v[i], m.clone_id, live),
    ensures
        i < v.len() ==> first_route(Some(m), true, true, v, live) == Some(
            Route::Attach { control: v[i].control },
        ),
        i == v.len() ==> first_route(Some(m), true, true, v, live) == Some(Route::Warm),
{
    if i < v.len() {
        lemma_running_from(v, m.clone_id, live, 0, i);
    } else {
        lemma_none_running(v, m.clone_id, live, 0);
    }
}

/// Any other connection of a clone is routed by its token.
pub proof fn law_other_connections_go_by_token(
    m: CloneMark,
    v: Seq<WorkerEntry>,
    live: Seq<u32>,
)
    requires
        m.flags & 2 == 0,
    ensures
        first_route(Some(m), true, true, v, live) is None,
{
}

proof fn lemma_worker_from(v: Seq<WorkerEntry>, token: u64, clone_id: u64, from: int, i: int)
    requires
        0 <= from <= i < v.len(),
        v[i].token == token && v[i].clone_id == clone_id,
        forall|j: int|
            from <= j < i ==> !((#[trigger] v[j]).token == token && v[j].clone_id == clone_id),
    ensures
        worker_of(v, token, clone_id, from) == Some(v[i]),
    decreases i - from,
{
    if from < i {
        assert(!(v[from].token == token && v[from].clone_id == clone_id));
        lemma_worker_from(v, token, clone_id, from + 1, i);
    }
}

proof fn lemma_no_worker(v: Seq<WorkerEntry>, token: u64, clone_id: u64, from: int)
    requires
        0 <= from,
        forall|j: int|
            from <= j < v.len() ==> !((#[trigger] v[j]).token == token && v[j].clone_id
                == clone_id),
    ensures
        worker_of(v, token, clone_id, from) is None,
    decreases v.len() - from,
{
    if from < v.len() {
        assert(!(v[from].token == token && v[from].clone_id == clone_id));
        lemma_no_worker(v, token, clone_id, from + 1);
    }
}

/// A worker for this clone and another process of the same golden, which lives.
pub open spec fn serves_kin(
    e: WorkerEntry,
    token: u64,
    clone_id: u64,
    live: Seq<u32>,
    kin: Seq<(u64, u64)>,
) -> bool {
    e.clone_id == clone_id && e.token != token && kin.contains((e.token, token)) && live.contains(
        e.pid,
    )
}

proof fn lemma_kin(
    v: Seq<WorkerEntry>,
    token: u64,
    clone_id: u64,
    live: Seq<u32>,
    kin: Seq<(u64, u64)>,
    from: int,
)
    requires
        0 <= from,
    ensures
        match kin_worker(v, token, clone_id, live, kin, from) {
            Some(e) => exists|i: int|
                from <= i < v.len() && #[trigger] v[i] == e && serves_kin(
                    e,
                    token,
                    clone_id,
                    live,
                    kin,
                ),
            None => forall|i: int|
                from <= i < v.len() ==> !serves_kin(
                    #[trigger] v[i],
                    token,
                    clone_id,
                    live,
                    kin,
                ),
        },
    decreases v.len() - from,
{
    if from < v.len() {
        if !serves_kin(v[from], token, clone_id, live, kin) {
            lemma_kin(v, token, clone_id, live, kin, from + 1);
        } else {
            assert(kin_worker(v, token, clone_id, live, kin, from) == Some(v[from]));
        }
    }
}

/// A connection goes to the worker of its clone and token as long as that one serves. Else
/// it goes to a worker of the clone for a kindred token, if one lives; else a worker is
/// spawned for its token.
pub proof fn law_connections_go_by_token(
    v: Seq<WorkerEntry>,
    token: u64,
    clone_id: u64,
    exited: bool,
    live: Seq<u32>,
    kin: Seq<(u64, u64)>,
    i: int,
)
    requires
        0 <= i <= v.len(),
        i < v.len() ==> v[i].token == token && v[i].clone_id == clone_id,
        forall|j: int|
            0 <= j < i ==> !((#[trigger] v[j]).token == token && v[j].clone_id == clone_id),
    ensures
        ({
            let route = token_route(v, token, clone_id, exited, live, kin);
            let serves = i < v.len() && !exited && live.contains(v[i].pid);
            let kindred = exists|j: int|
                0 <= j < v.len() && serves_kin(#[trigger] v[j], token, clone_id, live, kin);
            &&& serves ==> route == (Route::Attach { control: v[i].control })
            &&& !serves && kindred ==> route is AttachOrSpawn
            &&& !serves && !kindred ==> route == (Route::Spawn { token })
        }),
{
    if i < v.len() {
        lemma_worker_from(v, token, clone_id, 0, i);
    } else {
        lemma_no_worker(v, token, clone_id, 0);
    }
    lemma_kin(v, token, clone_id, live, kin, 0);
}

/// A connection without a token goes to the one worker there is; to the daemon where there
/// is none, and nowhere where there are several.
pub proof fn law_connections_without_a_token(pid: u32, control: i32, several: usize)
    ensures
        tokenless_route(Ok(Some((pid, control)))) == (Route::Attach { control }),
        tokenless_route(Ok(None)) == Route::Serve,
        tokenless_route(Err(several)) == Route::Drop,
{
}

proof fn lemma_memory_tokens(tokens: Seq<u64>, metadata_only: Seq<bool>, t: u64)
    requires
        tokens.len() == metadata_only.len(),
    ensures
        memory_tokens(tokens, metadata_only).contains(t) <==> exists|i: int|
            0 <= i < tokens.len() && #[trigger] tokens[i] == t && !metadata_only[i],
        memory_tokens(tokens, metadata_only).len() <= tokens.len(),
    decreases tokens.len(),
{
    if tokens.len() > 0 {
        let front = tokens.drop_last();
        let marks = metadata_only.drop_last();
        let last = tokens.len() - 1;
        lemma_memory_tokens(front, marks, t);
        lemma_memory_frame(front, metadata_only, marks);
        let before = memory_tokens(front, metadata_only);
        lemma_push_members(before, tokens.last(), t);
        if before.contains(t) {
            let i = choose|i: int|
                0 <= i < front.len() && #[trigger] front[i] == t && !marks[i];
            assert(tokens[i] == t && !metadata_only[i]);
        }
        if exists|i: int| 0 <= i < tokens.len() && #[trigger] tokens[i] == t && !metadata_only[i] {
            let i = choose|i: int|
                0 <= i < tokens.len() && #[trigger] tokens[i] == t && !metadata_only[i];
            if i < last {
                assert(front[i] == t && !marks[i]);
            }
        }
        if !metadata_only[last] {
            assert(tokens[last] == tokens.last());
        }
    }
}

proof fn lemma_memory_frame(tokens: Seq<u64>, a: Seq<bool>, b: Seq<bool>)
    requires
        tokens.len() <= a.len(),
        tokens.len() <= b.len(),
        forall|i: int| 0 <= i < tokens.len() ==> a[i] == #[trigger] b[i],
    ensures
        memory_tokens(tokens, a) == memory_tokens(tokens, b),
    decreases tokens.len(),
{
    if tokens.len() > 0 {
        lemma_memory_frame(tokens.drop_last(), a, b);
        assert(a[tokens.len() - 1] == b[tokens.len() - 1]);
    }
}

/// A clone is warm where no golden process has memory; the only one that has is warmed up
/// for; with several it has to wait.
pub proof fn law_warming_up(tokens: Seq<u64>, metadata_only: Seq<bool>)
    requires
        tokens.len() == metadata_only.len(),
    ensures
        warm_route_of(tokens, metadata_only) == WarmRoute::Ready <==> forall|i: int|
            0 <= i < tokens.len() ==> #[trigger] metadata_only[i],
        warm_route_of(tokens, metadata_only) matches WarmRoute::Spawn { token } ==> exists|i: int|
            0 <= i < tokens.len() && #[trigger] tokens[i] == token && !metadata_only[i],
{
    let memory = memory_tokens(tokens, metadata_only);
    if memory.len() > 0 {
        lemma_memory_tokens(tokens, metadata_only, memory[0]);
        assert(memory.contains(memory[0]));
        let i = choose|i: int|
            0 <= i < tokens.len() && #[trigger] tokens[i] == memory[0] && !metadata_only[i];
        assert(!metadata_only[i]);
    } else {
        assert forall|i: int| 0 <= i < tokens.len() implies #[trigger] metadata_only[i] by {
            lemma_memory_tokens(tokens, metadata_only, tokens[i]);
        }
    }
}

} // verus!
