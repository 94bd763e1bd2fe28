//! What a run has done by the time it gets where it is.
use crate::machine::listing::{
    CachedImage, PrunePlan, blanks, collection_of, label_of, prune_plan_of, row_of,
    storage_report_of,
};
use crate::machine::run_steps::{RunProgress, RunStep, run_after};
use crate::numerals::decimal;
use vstd::prelude::*;

verus! {

/// The `i`th step of a run was this one.
pub open spec fn step_at(start: RunProgress, outcomes: Seq<bool>, i: int, step: RunStep) -> bool {
    0 <= i < outcomes.len() && match run_after(start, outcomes.take(i)) {
        Some(s) => s.step == step,
        None => false,
    }
}

/// A run took this step.
pub open spec fn taken(start: RunProgress, outcomes: Seq<bool>, step: RunStep) -> bool {
    exists|i: int| step_at(start, outcomes, i, step)
}

/// A run took this step, and it worked.
pub open spec fn worked(start: RunProgress, outcomes: Seq<bool>, step: RunStep) -> bool {
    exists|i: int| #[trigger] step_at(start, outcomes, i, step) && outcomes[i]
}

/// A run took this step, and it did not work.
pub open spec fn did_not_work(start: RunProgress, outcomes: Seq<bool>, step: RunStep) -> bool {
    exists|i: int| #[trigger] step_at(start, outcomes, i, step) && !outcomes[i]
}

/// The machine is up and its agent connected.
pub open spec fn machine_up(start: RunProgress, outcomes: Seq<bool>) -> bool {
    &&& worked(start, outcomes, RunStep::Boot)
    &&& !start.detach ==> taken(start, outcomes, RunStep::Register)
    &&& worked(start, outcomes, RunStep::Connect)
}

/// All is ready for the command.
pub open spec fn command_ready(start: RunProgress, outcomes: Seq<bool>) -> bool {
    &&& machine_up(start, outcomes)
    &&& start.pulls ==> worked(start, outcomes, RunStep::Pull)
    &&& worked(start, outcomes, RunStep::Secrets)
    &&& start.fresh && start.has_init ==> worked(start, outcomes, RunStep::Init)
}

spec fn run_holds(start: RunProgress, o: Seq<bool>, s: RunProgress) -> bool {
    &&& s == (RunProgress { step: s.step, ..start })
    &&& match s.step {
        RunStep::Boot => true,
        RunStep::Register => !start.detach && worked(start, o, RunStep::Boot),
        RunStep::Connect => worked(start, o, RunStep::Boot) && (!start.detach ==> taken(
            start,
            o,
            RunStep::Register,
        )),
        RunStep::Pull => machine_up(start, o) && start.pulls,
        RunStep::Secrets => machine_up(start, o) && (start.pulls ==> worked(
            start,
            o,
            RunStep::Pull,
        )),
        RunStep::Init => machine_up(start, o) && (start.pulls ==> worked(start, o, RunStep::Pull))
            && worked(start, o, RunStep::Secrets) && start.fresh && start.has_init,
        RunStep::Workload => command_ready(start, o),
        RunStep::Persist => command_ready(start, o) && worked(start, o, RunStep::Workload)
            && start.detach,
        RunStep::Announce => command_ready(start, o) && worked(start, o, RunStep::Workload)
            && start.detach && worked(start, o, RunStep::Persist),
        RunStep::TearDown => command_ready(start, o) && worked(start, o, RunStep::Workload)
            && !start.detach,
        RunStep::Discard => did_not_work(start, o, RunStep::Init),
        RunStep::StopAndFail => did_not_work(start, o, RunStep::Persist) && start.has_image,
        RunStep::Fail => exists|i: int| 0 <= i < o.len() && !#[trigger] o[i],
    }
}

proof fn lemma_steps_longer(start: RunProgress, outcomes: Seq<bool>)
    requires
        outcomes.len() > 0,
    ensures
        forall|step: RunStep|
            taken(start, outcomes.drop_last(), step) ==> #[trigger] taken(start, outcomes, step),
        forall|step: RunStep|
            worked(start, outcomes.drop_last(), step) ==> #[trigger] worked(start, outcomes, step),
        forall|step: RunStep|
            did_not_work(start, outcomes.drop_last(), step) ==> #[trigger] did_not_work(
                start,
                outcomes,
                step,
            ),
{
    let front = outcomes.drop_last();
    assert forall|i: int, step: RunStep| step_at(start, front, i, step) implies #[trigger] step_at(
        start,
        outcomes,
        i,
        step,
    ) && front[i] == outcomes[i] by {
        assert(front.take(i) =~= outcomes.take(i));
    }
    assert forall|step: RunStep| taken(start, front, step) implies #[trigger] taken(
        start,
        outcomes,
        step,
    ) by {
        let i = choose|i: int| step_at(start, front, i, step);
        assert(step_at(start, outcomes, i, step));
    }
    assert forall|step: RunStep| worked(start, front, step) implies #[trigger] worked(
        start,
        outcomes,
        step,
    ) by {
        let i = choose|i: int| #[trigger] step_at(start, front, i, step) && front[i];
        assert(step_at(start, outcomes, i, step));
    }
    assert forall|step: RunStep| did_not_work(start, front, step) implies #[trigger] did_not_work(
        start,
        outcomes,
        step,
    ) by {
        let i = choose|i: int| #[trigger] step_at(start, front, i, step) && !front[i];
        assert(step_at(start, outcomes, i, step));
    }
}

proof fn lemma_run_holds(start: RunProgress, outcomes: Seq<bool>)
    requires
        start.step == RunStep::Boot,
    ensures
        run_after(start, outcomes) matches Some(s) ==> run_holds(start, outcomes, s),
    decreases outcomes.len(),
{
    if outcomes.len() > 0 {
        let front = outcomes.drop_last();
        let n = outcomes.len() - 1;
        lemma_run_holds(start, front);
        lemma_steps_longer(start, outcomes);
        assert(outcomes.take(n) =~= front);
        if let Some(s) = run_after(start, front) {
            assert(step_at(start, outcomes, n, s.step));
            assert(taken(start, outcomes, s.step));
            if outcomes[n] {
                assert(worked(start, outcomes, s.step));
            } else {
                assert(did_not_work(start, outcomes, s.step));
                assert(!outcomes[n]);
            }
        }
    }
}

/// A command is run only once the machine is up, noted if it goes with its command, and
/// connected, its image pulled if it has to be, the secrets read, and the first steps done
/// if the machine is new and has any.
pub proof fn law_command_runs_when_all_is_ready(start: RunProgress, outcomes: Seq<bool>)
    requires
        start.step == RunStep::Boot,
        run_after(start, outcomes) is Some,
        run_after(start, outcomes)->Some_0.step == RunStep::Workload,
    ensures
        command_ready(start, outcomes),
{
    lemma_run_holds(start, outcomes);
}

/// A run ends well in one of two ways: a detached machine is announced after its record was
/// kept, any other is removed; either way its command ran and all before it worked.
pub proof fn law_good_ends_of_a_run(start: RunProgress, outcomes: Seq<bool>)
    requires
        start.step == RunStep::Boot,
        run_after(start, outcomes) is Some,
    ensures
        ({
            let step = run_after(start, outcomes)->Some_0.step;
            &&& step == RunStep::Announce ==> start.detach && command_ready(start, outcomes)
                && worked(start, outcomes, RunStep::Workload) && worked(
                start,
                outcomes,
                RunStep::Persist,
            )
            &&& step == RunStep::TearDown ==> !start.detach && command_ready(start, outcomes)
                && worked(start, outcomes, RunStep::Workload)
        }),
{
    lemma_run_holds(start, outcomes);
}

/// A machine is discarded only after its first steps failed, and stopped only after its
/// record could not be kept; a run is not reported as failed where all worked.
pub proof fn law_bad_ends_of_a_run(start: RunProgress, outcomes: Seq<bool>)
    requires
        start.step == RunStep::Boot,
        run_after(start, outcomes) is Some,
    ensures
        ({
            let step = run_after(start, outcomes)->Some_0.step;
            &&& step == RunStep::Discard ==> did_not_work(start, outcomes, RunStep::Init)
            &&& step == RunStep::StopAndFail ==> did_not_work(start, outcomes, RunStep::Persist)
                && start.has_image
            &&& step == RunStep::Fail ==> exists|i: int|
                0 <= i < outcomes.len() && !#[trigger] outcomes[i]
        }),
{
    lemma_run_holds(start, outcomes);
}

/// What fails is seen to: after a step of a run that did not work, no later step of the way
/// to its command is taken, but for noting the machine.
pub proof fn law_failures_stop_a_run(s: RunProgress)
    requires
        s.step != RunStep::Register,
    ensures
        s.after(false) matches Some(t) ==> t.step == RunStep::Fail || t.step == RunStep::Discard
            || t.step == RunStep::StopAndFail,
        s.step == RunStep::Init ==> s.after(false)->Some_0.step == RunStep::Discard,
        s.step == RunStep::Persist && s.has_image ==> s.after(false)->Some_0.step
            == RunStep::StopAndFail,
{
}

// ---------------------------------------------------------------------------
// Listings
// ---------------------------------------------------------------------------

/// What a prune does: without `--all` only layers that nothing needs go. With it, images go
/// unless there are none, the machine runs from one, or it is only asked what would.
pub proof fn law_what_a_prune_does(all: bool, dry_run: bool, images: int, has_image: bool)
    ensures
        ({
            let plan = prune_plan_of(all, dry_run, images, has_image);
            &&& plan == PrunePlan::Layers <==> !all
            &&& plan == PrunePlan::NoImages <==> all && images == 0
            &&& plan == PrunePlan::KeepImages <==> all && images != 0 && has_image
            &&& plan == PrunePlan::ListImages <==> all && images != 0 && !has_image && dry_run
            &&& plan == PrunePlan::RemoveImages <==> all && images != 0 && !has_image && !dry_run
            &&& collection_of(plan, dry_run) is None <==> plan == PrunePlan::NoImages || plan
                == PrunePlan::ListImages
            &&& plan == PrunePlan::RemoveImages ==> collection_of(plan, dry_run) == Some(
                (false, true),
            )
            &&& plan == PrunePlan::Layers || plan == PrunePlan::KeepImages ==> collection_of(
                plan,
                dry_run,
            ) == Some((dry_run, false))
        }),
{
}

/// A storage report has a line for each image, in their order, with its reference, size and
/// layers, and tells how many there are; where there is none it says so.
pub proof fn law_report_has_a_line_for_each_image(
    total: Seq<char>,
    used: Seq<char>,
    layers: u64,
    images: Seq<CachedImage>,
    i: int,
)
    ensures
        ({
            let r = storage_report_of(total, used, layers, images);
            &&& r.len() >= 6
            &&& r[1] == "  Total:  "@ + total && r[2] == "  Used:   "@ + used && r[3]
                == "  Layers: "@ + decimal(layers as nat)
            &&& images.len() == 0 ==> r.len() == 6 && r[5] == "No cached images."@
            &&& images.len() > 0 ==> r.len() == 10 + images.len() && r.last() == "Total: "@
                + decimal(images.len()) + " images"@
            &&& 0 <= i < images.len() ==> r[8 + i] == row_of(
                label_of(images[i].reference@),
                images[i].size@,
                decimal(images[i].layers as nat),
            )
        }),
{
}

/// A row begins with its label and ends with its number of layers, with the size between
/// them; a label that is short enough is the reference itself.
pub proof fn law_row_shows_its_parts(reference: Seq<char>, size: Seq<char>, layers: Seq<char>)
    ensures
        ({
            let label = label_of(reference);
            let row = row_of(label, size, layers);
            &&& row.len() >= label.len() && row.take(label.len() as int) == label
            &&& row.len() >= layers.len() && row.skip(row.len() - layers.len()) == layers
            &&& vstd::utf8::encode_utf8(reference).len() <= 38 ==> label == reference
        }),
        exists|a: Seq<char>, b: Seq<char>|
            row_of(label_of(reference), size, layers) == #[trigger] (a + size + b),
{
    let label = label_of(reference);
    let row = row_of(label, size, layers);
    assert(row.take(label.len() as int) =~= label);
    assert(row.skip(row.len() - layers.len()) =~= layers);
    let a = label + blanks(40 - label.len()) + " "@ + blanks(10 - size.len());
    let b = " "@ + (blanks(8 - layers.len()) + layers);
    assert(row =~= a + size + b);
}

} // verus!
