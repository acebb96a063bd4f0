//! What holds of the steps of a tick taken one after the other, each with what is
//! known by then, whatever the memory does meanwhile.

use vstd::prelude::*;

use crate::mem::{Answers, Module};
use crate::model;
use crate::model::{Action, Model, Stage, Step};
use crate::steps;
use crate::steps::consistent;
use crate::still;
use crate::still::{calls, finish, whole, Times};

verus! {

/// What is known of the memory and of the time when a step is taken.
pub struct Look {
    pub answers: Answers,
    pub clock: Option<u64>,
}

/// How far some steps came, and what was done on the way, in order. Waiting is
/// nothing done, and neither is anything after the end.
pub struct Run {
    pub model: Model,
    pub stage: Stage,
    pub actions: Seq<Action<Seq<u8>>>,
}

/// An action that waits, for a read or for the time.
pub open spec fn waits(action: Action<Seq<u8>>) -> bool {
    action is Read || action is Clock
}

/// One step of a tick, with what a look knows.
#[verifier::opaque]
pub open spec fn next(look: Look, module: Module, model: Model, stage: Stage) -> Step {
    model::step(look.answers, look.clock, module, model, stage)
}

/// The steps of a tick from some stage on, one for each look.
pub open spec fn run(looks: Seq<Look>, module: Module, model: Model, stage: Stage) -> Run
    decreases looks.len(),
{
    if looks.len() == 0 || stage is Done {
        Run { model, stage, actions: Seq::empty() }
    } else {
        let step = next(looks[0], module, model, stage);
        let rest = run(looks.drop_first(), module, step.model, step.stage);
        Run {
            actions: if waits(step.action) {
                rest.actions
            } else {
                seq![step.action] + rest.actions
            },
            ..rest
        }
    }
}

/// What a look knows at a stage is so in a memory that does not change, and at
/// these times.
pub open spec fn seen(look: Look, mem: Answers, now: Times, stage: Stage) -> bool {
    &&& look.answers.submap_of(mem)
    &&& look.clock is Some ==> look.clock == now.at(stage)
}

/// What the looks of a run know is so in a memory that does not change, and at
/// these times.
pub open spec fn all_seen(
    looks: Seq<Look>,
    mem: Answers,
    now: Times,
    module: Module,
    model: Model,
    stage: Stage,
) -> bool
    decreases looks.len(),
{
    looks.len() == 0 || stage is Done || {
        let step = next(looks[0], module, model, stage);
        &&& seen(looks[0], mem, now, stage)
        &&& all_seen(looks.drop_first(), mem, now, module, step.model, step.stage)
    }
}

/// In a memory that does not change, a step that knows only a part of it either
/// waits and changes nothing, or is the next step of the tick as a whole: what is
/// left to do from there on is what was left, without this step.
pub proof fn law_step_of_finish(
    answers: Answers,
    clock: Option<u64>,
    mem: Answers,
    now: Times,
    module: Module,
    model: Model,
    stage: Stage,
)
    requires
        whole(mem),
        consistent(model, stage),
        answers.submap_of(mem),
        clock is Some ==> clock == now.at(stage),
        !(stage is Done),
    ensures
        ({
            let s = model::step(answers, clock, module, model, stage);
            let out = finish(mem, now, module, model, stage);
            let rest = finish(mem, now, module, s.model, s.stage);
            &&& consistent(s.model, s.stage)
            &&& if s.action is Read || s.action is Clock {
                s.model == model && s.stage == stage
            } else {
                &&& out.model == rest.model
                &&& out.actions == seq![s.action] + rest.actions
            }
        }),
{
    steps::law_more_answers_same_step(answers, clock, mem, now.at(stage), module, model, stage);
    steps::law_waiting_changes_nothing(answers, clock, module, model, stage);
    steps::law_step_keeps_consistent(answers, clock, module, model, stage);
    still::lemma_finish_step(mem, now, module, model, stage);
}

/// As `law_step_of_finish`, for the step of a look.
proof fn lemma_next_of_finish(
    look: Look,
    mem: Answers,
    now: Times,
    module: Module,
    model: Model,
    stage: Stage,
)
    requires
        whole(mem),
        consistent(model, stage),
        seen(look, mem, now, stage),
        !(stage is Done),
    ensures
        ({
            let s = next(look, module, model, stage);
            let out = finish(mem, now, module, model, stage);
            let rest = finish(mem, now, module, s.model, s.stage);
            &&& consistent(s.model, s.stage)
            &&& if waits(s.action) {
                s.model == model && s.stage == stage
            } else {
                &&& out.model == rest.model
                &&& out.actions == seq![s.action] + rest.actions
            }
        }),
{
    reveal(next);
    law_step_of_finish(look.answers, look.clock, mem, now, module, model, stage);
}

/// In a memory that does not change, steps that come to know it piece by piece come
/// to what the tick as a whole comes to: what they did, and then what is left from
/// where they stand.
pub proof fn law_run_of_finish(
    looks: Seq<Look>,
    mem: Answers,
    now: Times,
    module: Module,
    model: Model,
    stage: Stage,
)
    requires
        whole(mem),
        consistent(model, stage),
        all_seen(looks, mem, now, module, model, stage),
    ensures
        ({
            let done = run(looks, module, model, stage);
            let out = finish(mem, now, module, model, stage);
            let rest = finish(mem, now, module, done.model, done.stage);
            &&& consistent(done.model, done.stage)
            &&& out.model == rest.model
            &&& out.actions == done.actions + rest.actions
            &&& done.stage is Done ==> out.model == done.model && out.actions == done.actions
        }),
    decreases looks.len(),
{
    let out = finish(mem, now, module, model, stage);
    let done = run(looks, module, model, stage);
    let rest = finish(mem, now, module, done.model, done.stage);
    if looks.len() == 0 || stage is Done {
        assert(Seq::empty() + out.actions =~= out.actions);
    } else {
        let s = next(looks[0], module, model, stage);
        let later = run(looks.drop_first(), module, s.model, s.stage);
        lemma_next_of_finish(looks[0], mem, now, module, model, stage);
        law_run_of_finish(looks.drop_first(), mem, now, module, s.model, s.stage);
        if !waits(s.action) {
            assert(seq![s.action] + (later.actions + rest.actions) =~= (seq![s.action]
                + later.actions) + rest.actions);
        }
    }
    if done.stage is Done {
        still::lemma_finish_done(mem, now, module, done.model);
        assert(done.actions + rest.actions =~= done.actions);
    }
}

proof fn lemma_next_consistent(look: Look, module: Module, model: Model, stage: Stage)
    requires
        consistent(model, stage),
    ensures
        ({
            let step = next(look, module, model, stage);
            consistent(step.model, step.stage)
        }),
{
    reveal(next);
    steps::law_step_keeps_consistent(look.answers, look.clock, module, model, stage);
}

proof fn lemma_next_counted(look: Look, module: Module, model: Model, stage: Stage)
    requires
        consistent(model, stage),
    ensures
        ({
            let step = next(look, module, model, stage);
            step.model.cam_calls == if step.action is Invoke {
                model.cam_calls.wrapping_add(1)
            } else {
                model.cam_calls
            }
        }),
{
    reveal(next);
    steps::law_call_counted(look.answers, look.clock, module, model, stage);
}

/// Whatever the memory does, a run keeps the state fit, and counts its calls and
/// nothing else: the count grows by their number, and wraps around where it ends.
pub proof fn law_run_counts_calls(looks: Seq<Look>, module: Module, model: Model, stage: Stage)
    requires
        consistent(model, stage),
    ensures
        ({
            let done = run(looks, module, model, stage);
            &&& consistent(done.model, done.stage)
            &&& done.model.cam_calls == (model.cam_calls + calls(done.actions).len()) as int
                % 0x1_0000_0000_0000_0000
        }),
    decreases looks.len(),
{
    if looks.len() == 0 || stage is Done {
        reveal(Seq::filter);
    } else {
        let step = next(looks[0], module, model, stage);
        let rest = run(looks.drop_first(), module, step.model, step.stage);
        lemma_next_consistent(looks[0], module, model, stage);
        lemma_next_counted(looks[0], module, model, stage);
        law_run_counts_calls(looks.drop_first(), module, step.model, step.stage);
        still::lemma_calls_add(seq![step.action], rest.actions);
        still::lemma_calls_one(step.action);
    }
}

/// Whenever a tick looks, the function is gone, the known cameras are there, and
/// the array is, with the same number of objects. Once a scan has begun, nothing is
/// asked of what it sees.
pub open spec fn lost(look: Look, module: Module, model: Model, stage: Stage, total: u32) -> bool {
    match stage {
        Stage::Count => model::count_at(look.answers, module) matches Ok(n) ==> n == total,
        Stage::Function { .. } => model.func != 0 ==> (model::judged(
            look.answers,
            module,
            model,
            model.func,
        ) matches Ok((is_it, _)) ==> !is_it),
        Stage::Prune { k, .. } => k < model.known.len() ==> (model::described(
            look.answers,
            module,
            model.classes,
            model.known[k as int],
        ) matches Ok(d) ==> d is Some && d->0.class_tag == model::TAG_CAM),
        Stage::ScanOpen { .. } => {
            &&& model::chunks_at(look.answers, module) matches Ok(chunks) ==> chunks != 0
            &&& model::count_at(look.answers, module) matches Ok(n) ==> n == total
        },
        _ => true,
    }
}

/// Every look of a run finds the function gone and nothing else changed.
pub open spec fn all_lost(
    looks: Seq<Look>,
    module: Module,
    model: Model,
    stage: Stage,
    total: u32,
) -> bool
    decreases looks.len(),
{
    looks.len() == 0 || stage is Done || {
        let step = next(looks[0], module, model, stage);
        &&& lost(looks[0], module, model, stage, total)
        &&& all_lost(looks.drop_first(), module, step.model, step.stage, total)
    }
}

/// A tick that is run to its end and finds the function gone and nothing else
/// changed.
pub open spec fn tick_without(looks: Seq<Look>, module: Module, model: Model, total: u32) -> bool {
    &&& run(looks, module, model, Stage::Count).stage is Done
    &&& all_lost(looks, module, model, Stage::Count, total)
}

/// What is compared with the last scan is what it was.
spec fn unchanged(start: Model, model: Model) -> bool {
    &&& model.known == start.known
    &&& model.cams_last == start.cams_last
    &&& model.last_total == start.last_total
    &&& model.scans == start.scans
}

/// Before a tick: since the last scan nothing has changed, and the function was
/// missing for three ticks at most.
spec fn due(start: Model, total: u32) -> bool {
    &&& consistent(start, Stage::Count)
    &&& start.known.len() == start.cams_last
    &&& start.last_total == total
    &&& start.func_stale <= 3
    &&& total != 0
}

/// A tick without the function that began with `start` and stands at a stage: it
/// scans if the function was missing for three ticks before it, and else not.
spec fn on_the_way(start: Model, model: Model, stage: Stage, total: u32) -> bool {
    let missed = model.func == 0 && model.func_stale == start.func_stale + 1;
    match stage {
        Stage::Count => unchanged(start, model) && model.func_stale == start.func_stale,
        Stage::Function { total: n } => {
            &&& unchanged(start, model)
            &&& model.func_stale == start.func_stale
            &&& n == total <= model::MAX_ELEMENTS
        },
        Stage::Prune { total: n, k, w } => {
            &&& unchanged(start, model)
            &&& missed
            &&& n == total <= model::MAX_ELEMENTS
            &&& w == k <= model.known.len()
        },
        Stage::Disable { total: n, died, .. } => {
            &&& unchanged(start, model)
            &&& missed
            &&& n == total <= model::MAX_ELEMENTS
            &&& !died
        },
        Stage::Done => if start.func_stale < 3 {
            unchanged(start, model) && missed
        } else {
            model.scans == start.scans.wrapping_add(1)
        },
        Stage::ScanEnd { .. } => {
            &&& start.func_stale == 3
            &&& model.scans == start.scans.wrapping_add(1)
        },
        _ => start.func_stale == 3 && model.scans == start.scans,
    }
}

proof fn lemma_before_scan(
    look: Look,
    module: Module,
    start: Model,
    model: Model,
    stage: Stage,
    total: u32,
)
    requires
        due(start, total),
        consistent(model, stage),
        on_the_way(start, model, stage, total),
        lost(look, module, model, stage, total),
        stage is Count || stage is Function || stage is Disable || stage is ScanStart
            || stage is ScanOpen,
    ensures
        ({
            let step = next(look, module, model, stage);
            on_the_way(start, step.model, step.stage, total)
        }),
{
    reveal(next);
}

proof fn lemma_prune_on(
    look: Look,
    module: Module,
    start: Model,
    model: Model,
    total: u32,
    k: usize,
    w: usize,
)
    requires
        due(start, total),
        consistent(model, Stage::Prune { total, k, w }),
        on_the_way(start, model, Stage::Prune { total, k, w }, total),
        lost(look, module, model, Stage::Prune { total, k, w }, total),
    ensures
        ({
            let step = next(look, module, model, Stage::Prune { total, k, w });
            on_the_way(start, step.model, step.stage, total)
        }),
{
    reveal(next);
    let known = model.known;
    if k < known.len() {
        assert(known.update(k as int, known[k as int]) =~= known);
        assert(start.known[k as int] != 0) by {
            assert(start.known.contains(start.known[k as int]));
        }
    } else {
        assert(known.take(k as int) =~= known);
    }
}

proof fn lemma_within_scan(
    look: Look,
    module: Module,
    start: Model,
    model: Model,
    stage: Stage,
    total: u32,
)
    requires
        on_the_way(start, model, stage, total),
        stage is Scan || stage is LogCamera || stage is DisableFound || stage is Revisit
            || stage is ScanEnd,
    ensures
        ({
            let step = next(look, module, model, stage);
            on_the_way(start, step.model, step.stage, total)
        }),
{
    reveal(next);
}

/// A tick without the function stays on its way.
proof fn lemma_run_without(
    looks: Seq<Look>,
    module: Module,
    start: Model,
    model: Model,
    stage: Stage,
    total: u32,
)
    requires
        due(start, total),
        consistent(model, stage),
        on_the_way(start, model, stage, total),
        all_lost(looks, module, model, stage, total),
    ensures
        ({
            let done = run(looks, module, model, stage);
            &&& consistent(done.model, done.stage)
            &&& on_the_way(start, done.model, done.stage, total)
        }),
    decreases looks.len(),
{
    if looks.len() > 0 && !(stage is Done) {
        let look = looks[0];
        let step = next(look, module, model, stage);
        lemma_next_consistent(look, module, model, stage);
        match stage {
            Stage::Prune { k, w, .. } => lemma_prune_on(look, module, start, model, total, k, w),
            Stage::Count
            | Stage::Function { .. }
            | Stage::Disable { .. }
            | Stage::ScanStart
            | Stage::ScanOpen { .. } => lemma_before_scan(look, module, start, model, stage, total),
            _ => lemma_within_scan(look, module, start, model, stage, total),
        }
        lemma_run_without(looks.drop_first(), module, start, step.model, step.stage, total);
    }
}

/// One tick without the function.
proof fn lemma_tick_without(looks: Seq<Look>, module: Module, start: Model, total: u32)
    requires
        due(start, total),
        tick_without(looks, module, start, total),
    ensures
        ({
            let after = run(looks, module, start, Stage::Count).model;
            if start.func_stale < 3 {
                &&& due(after, total)
                &&& after.func_stale == start.func_stale + 1
                &&& after.scans == start.scans
            } else {
                after.scans == start.scans.wrapping_add(1)
            }
        }),
{
    lemma_run_without(looks, module, start, start, Stage::Count, total);
    steps::law_ticks_begin_consistent(run(looks, module, start, Stage::Count).model);
}

/// A function that is lost is searched for on the fourth tick without it, and not
/// before, in whatever way the memory changes: as long as, whenever the ticks look,
/// the function is gone, the known cameras are there and the number of objects is
/// the same, the first three ticks do not scan and the fourth does.
pub proof fn law_lost_function(
    first: Seq<Look>,
    second: Seq<Look>,
    third: Seq<Look>,
    fourth: Seq<Look>,
    module: Module,
    model: Model,
    total: u32,
)
    requires
        consistent(model, Stage::Count),
        model.func_stale == 0,
        model.known.len() == model.cams_last,
        model.last_total == total,
        total != 0,
        ({
            let a = run(first, module, model, Stage::Count).model;
            let b = run(second, module, a, Stage::Count).model;
            let c = run(third, module, b, Stage::Count).model;
            &&& tick_without(first, module, model, total)
            &&& tick_without(second, module, a, total)
            &&& tick_without(third, module, b, total)
            &&& tick_without(fourth, module, c, total)
        }),
    ensures
        ({
            let a = run(first, module, model, Stage::Count).model;
            let b = run(second, module, a, Stage::Count).model;
            let c = run(third, module, b, Stage::Count).model;
            let d = run(fourth, module, c, Stage::Count).model;
            &&& a.scans == model.scans
            &&& b.scans == model.scans
            &&& c.scans == model.scans
            &&& d.scans == model.scans.wrapping_add(1)
        }),
{
    let a = run(first, module, model, Stage::Count).model;
    let b = run(second, module, a, Stage::Count).model;
    let c = run(third, module, b, Stage::Count).model;
    lemma_tick_without(first, module, model, total);
    lemma_tick_without(second, module, a, total);
    lemma_tick_without(third, module, b, total);
    lemma_tick_without(fourth, module, c, total);
}

} // verus!
