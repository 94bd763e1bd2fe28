//! Which descriptors are moved where for a clone worker.
use crate::daemon::memory::FIRST_MEMORY_SLOT;
use crate::daemon::worker::{WorkerSlots, slots_for, worker_slots};
use vstd::prelude::*;

verus! {

/// The descriptors that a worker is given, as the daemon holds them.
#[derive(Debug)]
pub struct WorkerSources {
    /// The clone's connection.
    pub connection: i32,
    /// Memory, in the order of its indices.
    pub exports: Vec<i32>,
    /// Control channel.
    pub control: i32,
    /// Publication channel.
    pub publish: Option<i32>,
    /// Module handoff.
    pub module: Option<i32>,
    /// Image store of the handoff.
    pub images: Option<i32>,
}

/// The mathematical value of a [`WorkerSources`].
#[verifier::ext_equal]
pub struct SourcesModel {
    pub connection: i32,
    pub exports: Seq<i32>,
    pub control: i32,
    pub publish: Option<i32>,
    pub module: Option<i32>,
    pub images: Option<i32>,
}

impl View for WorkerSources {
    type V = SourcesModel;

    open spec fn view(&self) -> SourcesModel {
        SourcesModel {
            connection: self.connection,
            exports: self.exports@,
            control: self.control,
            publish: self.publish,
            module: self.module,
            images: self.images,
        }
    }
}

impl SourcesModel {
    /// Where the worker expects them.
    pub open spec fn slots(self) -> WorkerSlots {
        slots_for(
            self.exports.len() as int,
            self.publish is Some,
            self.module is Some,
            self.images is Some,
        )
    }

    /// The descriptors behind the memory, with their places.
    pub open spec fn channel_moves(self) -> Seq<(i32, i32)> {
        let s = self.slots();
        seq![(self.control, s.control)] + optional_move(self.publish, s.publish) + optional_move(
            self.module,
            s.module,
        ) + optional_move(self.images, s.images)
    }

    /// All moves in order: the connection, the memory in a row, then what there is of
    /// the rest.
    pub open spec fn moves(self) -> Seq<(i32, i32)> {
        seq![(self.connection, (FIRST_MEMORY_SLOT - 1) as i32)] + Seq::new(
            self.exports.len(),
            |i: int| (self.exports[i], (FIRST_MEMORY_SLOT + i) as i32),
        ) + self.channel_moves()
    }

    /// Every descriptor but the connection lies above all places.
    pub open spec fn lifted(self) -> bool {
        let least = self.slots().source_minimum;
        &&& forall|i: int| 0 <= i < self.exports.len() ==> #[trigger] self.exports[i] >= least
        &&& self.control >= least
        &&& self.publish matches Some(n) ==> n >= least
        &&& self.module matches Some(n) ==> n >= least
        &&& self.images matches Some(n) ==> n >= least
    }
}

/// A move, if there is something to move.
pub open spec fn optional_move(from: Option<i32>, to: Option<i32>) -> Seq<(i32, i32)> {
    match (from, to) {
        (Some(from), Some(to)) => seq![(from, to)],
        _ => Seq::empty(),
    }
}

fn push_move(out: &mut Vec<(i32, i32)>, from: Option<i32>, to: Option<i32>)
    ensures
        final(out)@ == old(out)@ + optional_move(from, to),
{
    let ghost before = out@;
    match (from, to) {
        (Some(from), Some(to)) => {
            out.push((from, to));
        },
        _ => {},
    }
    proof { assert(out@ =~= before + optional_move(from, to)); }
}

/// The moves that put a worker's descriptors where it expects them, in order: from, to.
pub fn worker_moves(s: &WorkerSources) -> (r: Vec<(i32, i32)>)
    requires
        s.exports@.len() <= 0x7fff_fff0,
    ensures
        r@ == s@.moves(),
{
    let slots = worker_slots(
        s.exports.len(),
        s.publish.is_some(),
        s.module.is_some(),
        s.images.is_some(),
    );
    let mut out: Vec<(i32, i32)> = Vec::new();
    out.push((s.connection, FIRST_MEMORY_SLOT - 1));
    let mut i: usize = 0;
    while i < s.exports.len()
        invariant
            i <= s.exports@.len() <= 0x7fff_fff0,
            out@.len() == i + 1,
            out@[0] == (s.connection, (FIRST_MEMORY_SLOT - 1) as i32),
            forall|k: int|
                0 <= k < i ==> #[trigger] out@[k + 1] == (
                    s.exports@[k],
                    (FIRST_MEMORY_SLOT + k) as i32,
                ),
        decreases s.exports@.len() - i,
    {
        out.push((s.exports[i], FIRST_MEMORY_SLOT + i as i32));
        i = i + 1;
    }
    let ghost memory = seq![(s.connection, (FIRST_MEMORY_SLOT - 1) as i32)] + Seq::new(
        s.exports@.len(),
        |k: int| (s.exports@[k], (FIRST_MEMORY_SLOT + k) as i32),
    );
    proof {
        assert forall|k: int| 0 <= k < out@.len() implies out@[k] == memory[k] by {
            if k > 0 {
                assert(out@[(k - 1) + 1] == memory[k]);
            }
        }
        assert(out@ =~= memory);
    }
    out.push((s.control, slots.control));
    push_move(&mut out, s.publish, slots.publish);
    push_move(&mut out, s.module, slots.module);
    push_move(&mut out, s.images, slots.images);
    proof { assert(out@ =~= s@.moves()); }
    out
}

/// With all descriptors but the connection lifted above the places, no move overwrites
/// what a later one moves, and no two go to one place.
pub proof fn law_no_move_overwrites_a_source(s: SourcesModel, i: int, j: int)
    requires
        s.exports.len() <= 0x7fff_fff0,
        s.lifted(),
        0 <= i < j < s.moves().len(),
    ensures
        s.moves()[j].0 >= s.slots().source_minimum,
        s.moves()[i].1 != s.moves()[j].0,
        s.moves()[i].1 < s.moves()[j].1 < s.slots().source_minimum,
{
    lemma_place(s, i);
    lemma_place(s, j);
}

/// The `k`th move goes to the `k`th place.
proof fn lemma_place(s: SourcesModel, k: int)
    requires
        s.exports.len() <= 0x7fff_fff0,
        s.lifted(),
        0 <= k < s.moves().len(),
    ensures
        s.moves()[k].1 == FIRST_MEMORY_SLOT - 1 + k,
        s.moves().len() == s.slots().source_minimum - (FIRST_MEMORY_SLOT - 1),
        k > 0 ==> s.moves()[k].0 >= s.slots().source_minimum,
{
    let n = s.exports.len() as int;
    let tail = s.channel_moves();
    let memory = seq![(s.connection, (FIRST_MEMORY_SLOT - 1) as i32)] + Seq::new(
        s.exports.len(),
        |i: int| (s.exports[i], (FIRST_MEMORY_SLOT + i) as i32),
    );
    assert(s.moves() == memory + tail);
    if k > n {
        assert(s.moves()[k] == tail[k - n - 1]);
    } else if k > 0 {
        assert(s.moves()[k] == (s.exports[k - 1], (FIRST_MEMORY_SLOT + k - 1) as i32));
        assert(s.exports[k - 1] >= s.slots().source_minimum);
    }
}

} // verus!
