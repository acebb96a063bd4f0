//! What a tick comes to from its beginning to its end, while the memory does not
//! change, and what a tick leaves for the next.

use vstd::prelude::*;

pub mod outcome;

use crate::mem::{Answers, Module};
use crate::model;
use crate::model::{Action, Model, Stage};
use crate::steps;
use crate::steps::consistent;
use crate::still;
use crate::still::{
    array_calls, array_cameras, call_on, calls, classes_even, coherent, finish, first_scan, goes_on,
    is_camera, is_disabler, lemma_goes_on_twice, scan_result, slot_in, whole, Outcome, Times,
};

verus! {

/// The known cameras that are still there.
pub open spec fn alive(mem: Answers, module: Module, known: Seq<usize>) -> Seq<usize> {
    known.filter(|cam: usize| is_camera(mem, module, cam))
}

/// The state after what is known was checked: the function is forgotten if it is
/// no longer there, the ticks without it are counted, and dead cameras are dropped.
pub open spec fn checked(mem: Answers, module: Module, model: Model) -> Model {
    let func = if is_disabler(mem, module, model.func) {
        model.func
    } else {
        0
    };
    Model {
        func,
        func_stale: if func == 0 {
            model.func_stale.wrapping_add(1)
        } else {
            0
        },
        known: alive(mem, module, model.known),
        ..model
    }
}

/// The states are the same but for what is cached and how often the function was
/// called.
pub open spec fn alike(a: Model, b: Model) -> bool {
    a == Model { classes: a.classes, names: a.names, cam_calls: a.cam_calls, ..b }
}

/// What is asked of a tick, from where it stands.
spec fn begins(mem: Answers, module: Module, model: Model, stage: Stage) -> bool {
    &&& whole(mem)
    &&& classes_even(mem, module)
    &&& coherent(mem, module, model)
    &&& consistent(model, stage)
}

proof fn lemma_count(mem: Answers, now: Times, module: Module, model: Model)
    requires
        begins(mem, module, model, Stage::Count),
    ensures
        goes_on(
            mem,
            now,
            module,
            model,
            Stage::Count,
            model,
            (Stage::Function { total: model::count_at(mem, module)->Ok_0 }),
            seq![Action::Proceed],
        ),
{
    still::lemma_whole(mem, module);
    assert(model::count_at(mem, module) is Ok);
    still::lemma_finish_step(mem, now, module, model, Stage::Count);
}

proof fn lemma_judged(mem: Answers, module: Module, model: Model, func: usize)
    requires
        whole(mem),
        classes_even(mem, module),
        coherent(mem, module, model),
        func != 0,
    ensures
        model::judged(mem, module, model, func) is Ok,
        ({
            let (is_it, after) = model::judged(mem, module, model, func)->Ok_0;
            &&& is_it == is_disabler(mem, module, func)
            &&& coherent(mem, module, after)
            &&& after == Model { classes: after.classes, names: after.names, ..model }
        }),
{
    still::law_cached_class(mem, module, model, func);
    let d = still::object_in(mem, module, func);
    if d is Some && d->0.class_tag == model::TAG_FUNC {
        let after = Model { classes: model::learned(model.classes, d), ..model };
        still::law_cached_name(mem, module, after, d->0.name_id);
    }
}

proof fn lemma_function(mem: Answers, now: Times, module: Module, model: Model, total: u32) -> (after:
    Model)
    requires
        begins(mem, module, model, Stage::Function { total }),
    ensures
        goes_on(
            mem,
            now,
            module,
            model,
            (Stage::Function { total }),
            after,
            (Stage::Prune { total, k: 0, w: 0 }),
            seq![Action::Proceed],
        ),
        alike(after, Model { known: model.known, ..checked(mem, module, model) }),
{
    let stage = Stage::Function { total };
    let step = model::step(mem, now.at(stage), module, model, stage);
    still::lemma_finish_step(mem, now, module, model, stage);
    if model.func != 0 {
        lemma_judged(mem, module, model, model.func);
    }
    step.model
}

proof fn lemma_alive_front(mem: Answers, module: Module, first: usize, rest: Seq<usize>)
    ensures
        alive(mem, module, seq![first] + rest) == if is_camera(mem, module, first) {
            seq![first] + alive(mem, module, rest)
        } else {
            alive(mem, module, rest)
        },
{
    let keep = |cam: usize| is_camera(mem, module, cam);
    Seq::filter_distributes_over_add(seq![first], rest, keep);
    reveal(Seq::filter);
    assert(seq![first].drop_last() =~= Seq::<usize>::empty());
    assert(Seq::<usize>::empty().filter(keep) =~= Seq::<usize>::empty());
    if is_camera(mem, module, first) {
        assert(seq![first].filter(keep) =~= seq![first]);
    } else {
        assert(seq![first].filter(keep) =~= Seq::<usize>::empty());
        assert(Seq::<usize>::empty() + alive(mem, module, rest) =~= alive(mem, module, rest));
    }
}

/// One step of the check of the known cameras.
proof fn lemma_prune_one(
    mem: Answers,
    now: Times,
    module: Module,
    model: Model,
    total: u32,
    k: usize,
    w: usize,
) -> (r: (Model, usize))
    requires
        begins(mem, module, model, Stage::Prune { total, k, w }),
        k < model.known.len(),
    ensures
        goes_on(
            mem,
            now,
            module,
            model,
            (Stage::Prune { total, k, w }),
            r.0,
            (Stage::Prune { total, k: (k + 1) as usize, w: r.1 }),
            seq![Action::Proceed],
        ),
        alike(r.0, Model { known: r.0.known, ..model }),
        r.0.known.len() == model.known.len(),
        r.1 <= model.known.len(),
        r.0.known.skip(k + 1) == model.known.skip(k + 1),
        r.0.known.take(r.1 as int) == if is_camera(mem, module, model.known[k as int]) {
            model.known.take(w as int).push(model.known[k as int])
        } else {
            model.known.take(w as int)
        },
{
    let stage = Stage::Prune { total, k, w };
    let cam = model.known[k as int];
    let step = model::step(mem, now.at(stage), module, model, stage);
    still::lemma_finish_step(mem, now, module, model, stage);
    if cam != 0 {
        still::law_cached_class(mem, module, model, cam);
    }
    let after = step.model;
    let next: usize = if is_camera(mem, module, cam) {
        (w + 1) as usize
    } else {
        w
    };
    assert(step.stage == (Stage::Prune { total, k: (k + 1) as usize, w: next }));
    assert(after.known.skip(k + 1) =~= model.known.skip(k + 1));
    if is_camera(mem, module, cam) {
        assert(after.known.take(next as int) =~= model.known.take(w as int).push(cam));
    }
    (after, next)
}

proof fn lemma_alive_none(mem: Answers, module: Module)
    ensures
        alive(mem, module, Seq::empty()) == Seq::<usize>::empty(),
{
    reveal(Seq::filter);
}

/// The end of the check of the known cameras.
proof fn lemma_prune_end(
    mem: Answers,
    now: Times,
    module: Module,
    model: Model,
    total: u32,
    k: usize,
    w: usize,
) -> (after: Model)
    requires
        begins(mem, module, model, Stage::Prune { total, k, w }),
        k == model.known.len(),
    ensures
        goes_on(
            mem,
            now,
            module,
            model,
            (Stage::Prune { total, k, w }),
            after,
            (Stage::Disable { total, k: 0, died: w < k }),
            seq![Action::Proceed],
        ),
        alike(after, Model { known: model.known.take(w as int), ..model }),
{
    let stage = Stage::Prune { total, k, w };
    still::lemma_finish_step(mem, now, module, model, stage);
    model::step(mem, now.at(stage), module, model, stage).model
}

#[verifier::spinoff_prover]
#[verifier::rlimit(60)]
proof fn lemma_prune(
    mem: Answers,
    now: Times,
    module: Module,
    model: Model,
    total: u32,
    k: usize,
    w: usize,
) -> (r: (Model, Seq<Action<Seq<u8>>>))
    requires
        begins(mem, module, model, Stage::Prune { total, k, w }),
        k <= model.known.len(),
    ensures
        goes_on(
            mem,
            now,
            module,
            model,
            (Stage::Prune { total, k, w }),
            r.0,
            (Stage::Disable {
                total,
                k: 0,
                died: w + alive(mem, module, model.known.skip(k as int)).len()
                    < model.known.len(),
            }),
            r.1,
        ),
        calls(r.1) == Seq::<Action<Seq<u8>>>::empty(),
        alike(
            r.0,
            Model {
                known: model.known.take(w as int) + alive(
                    mem,
                    module,
                    model.known.skip(k as int),
                ),
                ..model
            },
        ),
    decreases model.known.len() - k,
{
    let stage = Stage::Prune { total, k, w };
    let front = model.known.take(w as int);
    let behind = model.known.skip(k as int);
    if k == model.known.len() {
        lemma_alive_none(mem, module);
        assert(behind =~= Seq::<usize>::empty());
        assert(front + alive(mem, module, behind) =~= front);
        still::lemma_calls_one(Action::Proceed);
        (lemma_prune_end(mem, now, module, model, total, k, w), seq![Action::Proceed])
    } else {
        let cam = model.known[k as int];
        let (mid, next) = lemma_prune_one(mem, now, module, model, total, k, w);
        let k1 = (k + 1) as usize;
        let (after, done) = lemma_prune(mem, now, module, mid, total, k1, next);
        let later = alive(mem, module, model.known.skip(k + 1));
        assert(behind =~= seq![cam] + model.known.skip(k + 1));
        lemma_alive_front(mem, module, cam, model.known.skip(k + 1));
        if is_camera(mem, module, cam) {
            assert(front + (seq![cam] + later) =~= front.push(cam) + later);
        }
        lemma_goes_on_twice(
            mem,
            now,
            module,
            model,
            stage,
            mid,
            Stage::Prune { total, k: k1, w: next },
            after,
            Stage::Disable { total, k: 0, died: next + later.len() < model.known.len() },
            seq![Action::Proceed],
            done,
        );
        still::lemma_calls_one(Action::Proceed);
        (after, seq![Action::Proceed] + done)
    }
}

/// Where a tick goes after the known cameras were called.
pub open spec fn decided(model: Model, total: u32, died: bool) -> Stage {
    if model::scan_needed(model, total, died) {
        Stage::ScanStart
    } else {
        Stage::Done
    }
}

/// The calls of a function on known cameras, in their order.
pub open spec fn known_calls(
    mem: Answers,
    module: Module,
    func: usize,
    known: Seq<usize>,
) -> Seq<Action<Seq<u8>>>
    decreases known.len(),
{
    if known.len() == 0 {
        Seq::empty()
    } else {
        call_on(mem, module, func, known[0]) + known_calls(mem, module, func, known.drop_first())
    }
}

proof fn lemma_known_calls_none(mem: Answers, module: Module, known: Seq<usize>)
    ensures
        known_calls(mem, module, 0, known) == Seq::<Action<Seq<u8>>>::empty(),
    decreases known.len(),
{
    if known.len() > 0 {
        lemma_known_calls_none(mem, module, known.drop_first());
    }
}

/// One call on a known camera.
proof fn lemma_disable_one(
    mem: Answers,
    now: Times,
    module: Module,
    model: Model,
    total: u32,
    k: usize,
    died: bool,
) -> (r: (Model, Action<Seq<u8>>))
    requires
        begins(mem, module, model, Stage::Disable { total, k, died }),
        k < model.known.len(),
        model.func != 0,
    ensures
        goes_on(
            mem,
            now,
            module,
            model,
            (Stage::Disable { total, k, died }),
            r.0,
            (Stage::Disable { total, k: (k + 1) as usize, died }),
            seq![r.1],
        ),
        r.0 == (Model { cam_calls: r.0.cam_calls, ..model }),
        calls(seq![r.1]) == call_on(mem, module, model.func, model.known[k as int]),
{
    let stage = Stage::Disable { total, k, died };
    let cam = model.known[k as int];
    let step = model::step(mem, now.at(stage), module, model, stage);
    still::lemma_whole(mem, module);
    still::lemma_finish_step(mem, now, module, model, stage);
    assert(model::target_at(mem, module, cam) is Ok);
    assert(model.known.contains(cam));
    assert(cam != 0);
    assert(step.model == Model { cam_calls: step.model.cam_calls, ..model });
    assert(coherent(mem, module, step.model));
    still::lemma_calls_one(step.action);
    (step.model, step.action)
}

/// The end of the calls on known cameras.
proof fn lemma_disable_end(
    mem: Answers,
    now: Times,
    module: Module,
    model: Model,
    total: u32,
    k: usize,
    died: bool,
) -> (action: Action<Seq<u8>>)
    requires
        begins(mem, module, model, Stage::Disable { total, k, died }),
        k >= model.known.len() || model.func == 0,
    ensures
        goes_on(
            mem,
            now,
            module,
            model,
            (Stage::Disable { total, k, died }),
            model,
            decided(model, total, died),
            seq![action],
        ),
        calls(seq![action]) == Seq::<Action<Seq<u8>>>::empty(),
{
    let stage = Stage::Disable { total, k, died };
    let step = model::step(mem, now.at(stage), module, model, stage);
    still::lemma_finish_step(mem, now, module, model, stage);
    still::lemma_calls_one(step.action);
    step.action
}

proof fn lemma_disable(
    mem: Answers,
    now: Times,
    module: Module,
    model: Model,
    total: u32,
    k: usize,
    died: bool,
) -> (r: (Model, Seq<Action<Seq<u8>>>))
    requires
        begins(mem, module, model, Stage::Disable { total, k, died }),
        k <= model.known.len(),
    ensures
        goes_on(
            mem,
            now,
            module,
            model,
            (Stage::Disable { total, k, died }),
            r.0,
            decided(model, total, died),
            r.1,
        ),
        r.0 == (Model { cam_calls: r.0.cam_calls, ..model }),
        calls(r.1) == known_calls(mem, module, model.func, model.known.skip(k as int)),
    decreases model.known.len() - k,
{
    let stage = Stage::Disable { total, k, died };
    let behind = model.known.skip(k as int);
    if model.func == 0 || k == model.known.len() {
        lemma_known_calls_none(mem, module, behind);
        let action = lemma_disable_end(mem, now, module, model, total, k, died);
        (model, seq![action])
    } else {
        let k1 = (k + 1) as usize;
        let (mid, action) = lemma_disable_one(mem, now, module, model, total, k, died);
        let (after, done) = lemma_disable(mem, now, module, mid, total, k1, died);
        lemma_goes_on_twice(
            mem,
            now,
            module,
            model,
            stage,
            mid,
            Stage::Disable { total, k: k1, died },
            after,
            decided(model, total, died),
            seq![action],
            done,
        );
        assert(behind.drop_first() =~= model.known.skip(k + 1));
        (after, seq![action] + done)
    }
}

/// A known camera died.
pub open spec fn death(mem: Answers, module: Module, model: Model) -> bool {
    exists|j: int|
        0 <= j < model.known.len() && !is_camera(mem, module, #[trigger] model.known[j])
}

/// There are fewer cameras alive than known if and only if one died.
pub proof fn lemma_death(mem: Answers, module: Module, known: Seq<usize>)
    ensures
        alive(mem, module, known).len() <= known.len(),
        alive(mem, module, known).len() < known.len() <==> exists|j: int|
            0 <= j < known.len() && !is_camera(mem, module, #[trigger] known[j]),
    decreases known.len(),
{
    reveal(Seq::filter);
    if known.len() > 0 {
        let front = known.drop_last();
        lemma_death(mem, module, front);
        if exists|j: int| 0 <= j < known.len() && !is_camera(mem, module, #[trigger] known[j]) {
            let j = choose|j: int|
                0 <= j < known.len() && !is_camera(mem, module, #[trigger] known[j]);
            if j < front.len() {
                assert(front[j] == known[j]);
            }
        }
        if alive(mem, module, known).len() < known.len() {
            if !is_camera(mem, module, known.last()) {
                assert(known[known.len() - 1] == known.last());
            } else {
                let j = choose|j: int|
                    0 <= j < front.len() && !is_camera(mem, module, #[trigger] front[j]);
                assert(known[j] == front[j]);
            }
        }
    }
}

/// A tick up to where it decides on a scan.
proof fn lemma_check(mem: Answers, now: Times, module: Module, model: Model) -> (r: (
    Model,
    Seq<Action<Seq<u8>>>,
))
    requires
        begins(mem, module, model, Stage::Count),
    ensures
        goes_on(
            mem,
            now,
            module,
            model,
            Stage::Count,
            r.0,
            decided(
                checked(mem, module, model),
                model::count_at(mem, module)->Ok_0,
                death(mem, module, model),
            ),
            r.1,
        ),
        alike(r.0, checked(mem, module, model)),
        calls(r.1) == known_calls(
            mem,
            module,
            checked(mem, module, model).func,
            alive(mem, module, model.known),
        ),
{
    let total = model::count_at(mem, module)->Ok_0;
    let function = Stage::Function { total };
    let prune = Stage::Prune { total, k: 0, w: 0 };
    let died = death(mem, module, model);
    let disable = Stage::Disable { total, k: 0, died };
    let want = checked(mem, module, model);
    let one = seq![Action::<Seq<u8>>::Proceed];
    lemma_count(mem, now, module, model);
    let a = lemma_function(mem, now, module, model, total);
    let (b, pruned) = lemma_prune(mem, now, module, a, total, 0, 0);
    assert(a.known.skip(0) =~= model.known);
    lemma_death(mem, module, model.known);
    assert(a.known.take(0) + alive(mem, module, model.known) =~= want.known);
    assert(alike(b, want));
    let (c, called) = lemma_disable(mem, now, module, b, total, 0, died);
    let end = decided(want, total, died);
    assert(decided(b, total, died) == end);
    lemma_goes_on_twice(mem, now, module, model, Stage::Count, model, function, a, prune, one, one);
    lemma_goes_on_twice(
        mem,
        now,
        module,
        model,
        Stage::Count,
        a,
        prune,
        b,
        disable,
        one + one,
        pruned,
    );
    let done = one + one + pruned;
    lemma_goes_on_twice(mem, now, module, model, Stage::Count, b, disable, c, end, done, called);
    still::lemma_calls_one(Action::Proceed);
    assert(calls(done) =~= Seq::empty());
    assert(b.known.skip(0) =~= want.known);
    assert(calls(done + called) =~= calls(called));
    (c, done + called)
}

/// What a scan leaves behind does not depend on what is cached or on how often the
/// function was called.
proof fn lemma_scan_result_alike(
    mem: Answers,
    now: Times,
    module: Module,
    a: Model,
    b: Model,
    scan: model::Scan,
    out: Outcome,
)
    requires
        alike(a, b),
        scan_result(mem, now, module, a, scan, out),
    ensures
        scan_result(mem, now, module, b, scan, out),
{
    still::lemma_all_remembered_same(
        mem,
        module,
        scan.chunks,
        a,
        b,
        scan.i as int,
        scan.total as int,
    );
}

/// A tick scans: something may have changed, and there is an array to scan.
pub open spec fn tick_scans(mem: Answers, module: Module, model: Model) -> bool {
    let total = model::count_at(mem, module)->Ok_0;
    &&& model::scan_needed(checked(mem, module, model), total, death(mem, module, model))
    &&& model::chunks_at(mem, module)->Ok_0 != 0
    &&& total != 0
}

/// What a tick comes to.
pub open spec fn tick_result(
    mem: Answers,
    now: Times,
    module: Module,
    model: Model,
    out: Outcome,
) -> bool {
    let total = model::count_at(mem, module)->Ok_0;
    let chunks = model::chunks_at(mem, module)->Ok_0;
    let kept = checked(mem, module, model);
    let first = known_calls(mem, module, kept.func, kept.known);
    &&& if tick_scans(mem, module, model) {
        &&& scan_result(mem, now, module, kept, first_scan(now.start, chunks, total), out)
        &&& calls(out.actions) == first + array_calls(
            mem,
            module,
            chunks,
            out.model.func,
            0,
            total as int,
        )
    } else {
        &&& alike(out.model, kept)
        &&& calls(out.actions) == first
    }
    &&& out.model.cam_calls == (model.cam_calls + calls(out.actions).len()) as int
        % 0x1_0000_0000_0000_0000
    &&& coherent(mem, module, out.model)
    &&& consistent(out.model, Stage::Count)
}

proof fn lemma_decided(
    mem: Answers,
    now: Times,
    module: Module,
    model: Model,
    total: u32,
    died: bool,
)
    requires
        begins(mem, module, model, decided(model, total, died)),
        total == model::count_at(mem, module)->Ok_0,
    ensures
        ({
            let chunks = model::chunks_at(mem, module)->Ok_0;
            let out = finish(mem, now, module, model, decided(model, total, died));
            &&& if model::scan_needed(model, total, died) && chunks != 0 && total != 0 {
                &&& scan_result(
                    mem,
                    now,
                    module,
                    model,
                    first_scan(now.start, chunks, total),
                    out,
                )
                &&& calls(out.actions) == array_calls(
                    mem,
                    module,
                    chunks,
                    out.model.func,
                    0,
                    total as int,
                )
            } else {
                &&& out.model == model
                &&& calls(out.actions) == Seq::<Action<Seq<u8>>>::empty()
            }
            &&& coherent(mem, module, out.model)
            &&& consistent(out.model, Stage::Count)
        }),
{
    still::lemma_calls_one(Action::Done);
    if model::scan_needed(model, total, died) {
        let open = Stage::ScanOpen { t0: now.start };
        let start = Stage::ScanStart;
        still::lemma_finish_step(mem, now, module, model, start);
        let step = model::step(mem, now.at(start), module, model, start);
        assert(step == model::proceeding(model, open));
        still::law_scan(mem, now, module, model, now.start);
        let out = finish(mem, now, module, model, start);
        let rest = finish(mem, now, module, model, open);
        still::lemma_calls_add(seq![step.action], rest.actions);
        still::lemma_calls_one(step.action);
        assert(calls(out.actions) =~= calls(rest.actions));
    } else {
        still::lemma_finish_done(mem, now, module, model);
    }
}

/// A tick drops the cameras that are gone and forgets the function if it is gone,
/// calls the function on every camera that stays, and scans if and only if something
/// may have changed. It calls nothing else, and counts its calls. What it leaves is
/// fit for the next tick.
pub proof fn law_tick(mem: Answers, now: Times, module: Module, model: Model)
    requires
        whole(mem),
        classes_even(mem, module),
        coherent(mem, module, model),
        consistent(model, Stage::Count),
    ensures
        tick_result(
            mem,
            now,
            module,
            model,
            finish(mem, now, module, model, Stage::Count),
        ),
{
    let total = model::count_at(mem, module)->Ok_0;
    let chunks = model::chunks_at(mem, module)->Ok_0;
    let kept = checked(mem, module, model);
    let died = death(mem, module, model);
    let out = finish(mem, now, module, model, Stage::Count);
    let (after, done) = lemma_check(mem, now, module, model);
    assert(decided(after, total, died) == decided(kept, total, died));
    let rest = finish(mem, now, module, after, decided(kept, total, died));
    lemma_decided(mem, now, module, after, total, died);
    if tick_scans(mem, module, model) {
        lemma_scan_result_alike(
            mem,
            now,
            module,
            after,
            kept,
            first_scan(now.start, chunks, total),
            rest,
        );
    }
    still::lemma_calls_add(done, rest.actions);
    assert(calls(done) + Seq::empty() =~= calls(done));
    still::law_calls_counted(mem, now, module, model, Stage::Count);
}

proof fn lemma_alive_all(mem: Answers, module: Module, known: Seq<usize>)
    requires
        forall|j: int| 0 <= j < known.len() ==> is_camera(mem, module, #[trigger] known[j]),
    ensures
        alive(mem, module, known) == known,
    decreases known.len(),
{
    reveal(Seq::filter);
    if known.len() > 0 {
        lemma_alive_all(mem, module, known.drop_last());
        assert(is_camera(mem, module, known[known.len() - 1]));
        assert(known.drop_last().push(known.last()) =~= known);
    }
}

/// While nothing changes a tick is cheap: it does not scan, and calls the function
/// on every known camera that can be called, once and in order, and does not call
/// anything else. Nothing has changed if the function and the known cameras are
/// there, there are as many of them as the last scan found, and the number of objects
/// is the same.
pub proof fn law_idle_tick(mem: Answers, now: Times, module: Module, model: Model)
    requires
        whole(mem),
        classes_even(mem, module),
        coherent(mem, module, model),
        consistent(model, Stage::Count),
        is_disabler(mem, module, model.func),
        !death(mem, module, model),
        model.known.len() == model.cams_last,
        model.last_total == model::count_at(mem, module)->Ok_0,
    ensures
        ({
            let out = finish(mem, now, module, model, Stage::Count);
            &&& alike(out.model, Model { func_stale: 0, ..model })
            &&& calls(out.actions) == known_calls(mem, module, model.func, model.known)
            &&& out.model.cam_calls == (model.cam_calls + calls(out.actions).len()) as int
                % 0x1_0000_0000_0000_0000
        }),
{
    law_tick(mem, now, module, model);
    lemma_alive_all(mem, module, model.known);
    still::lemma_whole(mem, module);
    assert(model::count_at(mem, module) is Ok);
}

/// The function that a scan keeps or finds is the one that disables dithering.
pub proof fn law_found_function(
    mem: Answers,
    module: Module,
    chunks: usize,
    func: usize,
    i: int,
    total: int,
)
    requires
        func == 0 || is_disabler(mem, module, func),
    ensures
        still::function_found(mem, module, chunks, func, i, total) == 0 || is_disabler(
            mem,
            module,
            still::function_found(mem, module, chunks, func, i, total),
        ),
    decreases total - i,
{
    if i < total && func == 0 {
        law_found_function(mem, module, chunks, func, i + 1, total);
    }
}

proof fn lemma_array_calls_contain(
    mem: Answers,
    module: Module,
    chunks: usize,
    func: usize,
    i: int,
    total: int,
    j: int,
)
    requires
        i <= j < total,
        is_camera(mem, module, slot_in(mem, chunks, j)),
        func != 0,
    ensures
        model::target_at(mem, module, slot_in(mem, chunks, j)) matches Ok(Some(target))
            ==> array_calls(mem, module, chunks, func, i, total).contains(
            Action::Invoke { target, cam: slot_in(mem, chunks, j), func },
        ),
    decreases total - i,
{
    let cam = slot_in(mem, chunks, j);
    let all = array_calls(mem, module, chunks, func, i, total);
    match model::target_at(mem, module, cam) {
        Ok(Some(target)) => {
            let call = Action::<Seq<u8>>::Invoke { target, cam, func };
            if i == j {
                assert(all[0] == call);
            } else {
                let rest = array_calls(mem, module, chunks, func, i + 1, total);
                lemma_array_calls_contain(mem, module, chunks, func, i + 1, total, j);
                let n = choose|n: int| 0 <= n < rest.len() && rest[n] == call;
                assert(all[all.len() - rest.len() + n] == call);
            }
        },
        _ => {},
    }
}

/// A tick that scans and ends with the function at hand, whether it was at hand all
/// along or found at any place of the array, has called it on every camera of the
/// array that can be called.
pub proof fn law_scanning_tick_calls_all(
    mem: Answers,
    now: Times,
    module: Module,
    model: Model,
    j: int,
)
    requires
        whole(mem),
        classes_even(mem, module),
        coherent(mem, module, model),
        consistent(model, Stage::Count),
        tick_scans(mem, module, model),
        0 <= j < model::count_at(mem, module)->Ok_0,
        is_camera(mem, module, slot_in(mem, model::chunks_at(mem, module)->Ok_0, j)),
    ensures
        ({
            let cam = slot_in(mem, model::chunks_at(mem, module)->Ok_0, j);
            let out = finish(mem, now, module, model, Stage::Count);
            out.model.func != 0 ==> (model::target_at(mem, module, cam) matches Ok(Some(target))
                ==> out.actions.contains(Action::Invoke { target, cam, func: out.model.func }))
        }),
{
    let total = model::count_at(mem, module)->Ok_0 as int;
    let chunks = model::chunks_at(mem, module)->Ok_0;
    let cam = slot_in(mem, chunks, j);
    let kept = checked(mem, module, model);
    let out = finish(mem, now, module, model, Stage::Count);
    let first = known_calls(mem, module, kept.func, kept.known);
    let func = out.model.func;
    law_tick(mem, now, module, model);
    if func != 0 {
        let all = array_calls(mem, module, chunks, func, 0, total);
        lemma_array_calls_contain(mem, module, chunks, func, 0, total, j);
        match model::target_at(mem, module, cam) {
            Ok(Some(target)) => {
                let call = Action::<Seq<u8>>::Invoke { target, cam, func };
                let n = choose|n: int| 0 <= n < all.len() && all[n] == call;
                assert(calls(out.actions)[first.len() + n] == call);
                lemma_filtered(out.actions, call);
            },
            _ => {},
        }
    }
}

proof fn lemma_filtered(actions: Seq<Action<Seq<u8>>>, action: Action<Seq<u8>>)
    requires
        calls(actions).contains(action),
    ensures
        actions.contains(action),
    decreases actions.len(),
{
    reveal(Seq::filter);
    if actions.len() > 0 {
        let front = actions.drop_last();
        if calls(front).contains(action) {
            lemma_filtered(front, action);
            let n = choose|n: int| 0 <= n < front.len() && front[n] == action;
            assert(actions[n] == action);
        } else {
            let n = choose|n: int| 0 <= n < calls(actions).len() && calls(actions)[n] == action;
            if n < calls(front).len() {
                assert(calls(front)[n] == action);
            }
            assert(actions[actions.len() - 1] == action);
        }
    }
}

/// If the function is still missing after a scan, the next tick scans for it again.
pub proof fn law_missing_function_searched_again(
    mem: Answers,
    now: Times,
    module: Module,
    model: Model,
    scan: model::Scan,
    out: Outcome,
    total: u32,
    died: bool,
)
    requires
        scan_result(mem, now, module, model, scan, out),
        out.model.func == 0,
    ensures
        model::scan_needed(checked(mem, module, out.model), total, died),
{
}

/// The function is gone and nothing else has changed.
pub open spec fn function_lost(mem: Answers, module: Module, model: Model) -> bool {
    &&& !is_disabler(mem, module, model.func)
    &&& !death(mem, module, model)
    &&& model.known.len() == model.cams_last
    &&& model.last_total == model::count_at(mem, module)->Ok_0
}

/// One tick without the function, too early to search for it.
proof fn lemma_tick_without(mem: Answers, now: Times, module: Module, model: Model)
    requires
        whole(mem),
        classes_even(mem, module),
        coherent(mem, module, model),
        consistent(model, Stage::Count),
        function_lost(mem, module, model),
        model.func_stale < 3,
    ensures
        ({
            let out = finish(mem, now, module, model, Stage::Count);
            &&& coherent(mem, module, out.model)
            &&& consistent(out.model, Stage::Count)
            &&& function_lost(mem, module, out.model)
            &&& alike(
                out.model,
                Model { func: 0, func_stale: (model.func_stale + 1) as u64, ..model },
            )
        }),
{
    law_tick(mem, now, module, model);
    lemma_alive_all(mem, module, model.known);
    still::lemma_whole(mem, module);
    assert(model::count_at(mem, module) is Ok);
}

/// In a memory that does not change, a function that is lost, with nothing else
/// changed, is searched for on the fourth tick without it, and not before.
pub proof fn law_lost_function_still(
    mem: Answers,
    times: Seq<Times>,
    module: Module,
    model: Model,
)
    requires
        whole(mem),
        classes_even(mem, module),
        coherent(mem, module, model),
        consistent(model, Stage::Count),
        function_lost(mem, module, model),
        model.func_stale == 0,
        model::chunks_at(mem, module)->Ok_0 != 0,
        model::count_at(mem, module)->Ok_0 != 0,
    ensures
        ({
            let a = finish(mem, times[0], module, model, Stage::Count).model;
            let b = finish(mem, times[1], module, a, Stage::Count).model;
            let c = finish(mem, times[2], module, b, Stage::Count).model;
            let d = finish(mem, times[3], module, c, Stage::Count).model;
            &&& a.scans == model.scans
            &&& b.scans == model.scans
            &&& c.scans == model.scans
            &&& d.scans == model.scans.wrapping_add(1)
        }),
{
    let a = finish(mem, times[0], module, model, Stage::Count).model;
    let b = finish(mem, times[1], module, a, Stage::Count).model;
    let c = finish(mem, times[2], module, b, Stage::Count).model;
    lemma_tick_without(mem, times[0], module, model);
    lemma_tick_without(mem, times[1], module, a);
    lemma_tick_without(mem, times[2], module, b);
    law_tick(mem, times[3], module, c);
}

proof fn lemma_known_calls_contain(
    mem: Answers,
    module: Module,
    func: usize,
    known: Seq<usize>,
    j: int,
)
    requires
        0 <= j < known.len(),
        func != 0,
    ensures
        model::target_at(mem, module, known[j]) matches Ok(Some(target)) ==> known_calls(
            mem,
            module,
            func,
            known,
        ).contains(Action::Invoke { target, cam: known[j], func }),
    decreases known.len(),
{
    let all = known_calls(mem, module, func, known);
    let rest = known_calls(mem, module, func, known.drop_first());
    match model::target_at(mem, module, known[j]) {
        Ok(Some(target)) => {
            let call = Action::<Seq<u8>>::Invoke { target, cam: known[j], func };
            if j == 0 {
                assert(all[0] == call);
            } else {
                lemma_known_calls_contain(mem, module, func, known.drop_first(), j - 1);
                let n = choose|n: int| 0 <= n < rest.len() && rest[n] == call;
                assert(all[all.len() - rest.len() + n] == call);
            }
        },
        _ => {},
    }
}

/// After a tick that scans and ends with the function at hand, the next one calls it
/// on every camera of the array that can be called, as long as there is room to
/// remember them all.
pub proof fn law_next_tick_calls_all(
    mem: Answers,
    now: Times,
    later: Times,
    module: Module,
    model: Model,
    j: int,
)
    requires
        whole(mem),
        classes_even(mem, module),
        coherent(mem, module, model),
        consistent(model, Stage::Count),
        tick_scans(mem, module, model),
        ({
            let chunks = model::chunks_at(mem, module)->Ok_0;
            let total = model::count_at(mem, module)->Ok_0 as int;
            let kept = checked(mem, module, model);
            &&& (kept.known.to_set() + array_cameras(mem, module, chunks, 0, total)).len()
                <= model::MAX_KNOWN
            &&& 0 <= j < total
            &&& is_camera(mem, module, slot_in(mem, chunks, j))
        }),
    ensures
        ({
            let cam = slot_in(mem, model::chunks_at(mem, module)->Ok_0, j);
            let first = finish(mem, now, module, model, Stage::Count);
            let second = finish(mem, later, module, first.model, Stage::Count);
            let func = first.model.func;
            &&& first.model.known.contains(cam)
            &&& func != 0 ==> is_disabler(mem, module, func) && (model::target_at(
                mem,
                module,
                cam,
            ) matches Ok(Some(target)) ==> second.actions.contains(
                Action::Invoke { target, cam, func },
            ))
        }),
{
    let chunks = model::chunks_at(mem, module)->Ok_0;
    let total = model::count_at(mem, module)->Ok_0 as int;
    let kept = checked(mem, module, model);
    let cam = slot_in(mem, chunks, j);
    let first = finish(mem, now, module, model, Stage::Count);
    let second = finish(mem, later, module, first.model, Stage::Count);
    let func = first.model.func;
    let (after, _) = lemma_check(mem, now, module, model);
    assert(after.known == kept.known);
    law_tick(mem, now, module, model);
    law_tick(mem, later, module, first.model);
    law_found_function(mem, module, chunks, kept.func, 0, total);
    still::law_all_remembered(mem, module, chunks, kept, 0, total);
    still::law_array_cameras(mem, module, chunks, 0, total, j);
    assert(first.model.known.to_set().contains(cam));
    assert(first.model.known.contains(cam));
    if func != 0 {
        let n = choose|n: int| 0 <= n < first.model.known.len() && first.model.known[n] == cam;
        let keep = |cam: usize| is_camera(mem, module, cam);
        first.model.known.lemma_filter_contains(keep, n);
        let next = checked(mem, module, first.model);
        assert(next.known.contains(cam));
        let m = choose|m: int| 0 <= m < next.known.len() && next.known[m] == cam;
        lemma_known_calls_contain(mem, module, func, next.known, m);
        let all = known_calls(mem, module, func, next.known);
        match model::target_at(mem, module, cam) {
            Ok(Some(target)) => {
                let call = Action::<Seq<u8>>::Invoke { target, cam, func };
                let k = choose|k: int| 0 <= k < all.len() && all[k] == call;
                assert(calls(second.actions)[k] == call);
                lemma_filtered(second.actions, call);
            },
            _ => {},
        }
    }
}

/// Before the first tick nothing is cached and nothing is known, which fits any
/// memory, and the first tick scans.
pub proof fn law_first_tick(mem: Answers, module: Module)
    ensures
        coherent(mem, module, model::fresh()),
        consistent(model::fresh(), Stage::Count),
        forall|total: u32, died: bool| #[trigger]
            model::scan_needed(checked(mem, module, model::fresh()), total, died),
{
    steps::law_ticks_begin_consistent(model::fresh());
}

/// A tick that scans looks at the clock when it begins to and when it ends, and the
/// difference is the time that the scan took. A tick that does not scan leaves it.
pub proof fn law_scan_time(mem: Answers, now: Times, module: Module, model: Model)
    requires
        whole(mem),
        classes_even(mem, module),
        coherent(mem, module, model),
        consistent(model, Stage::Count),
    ensures
        finish(mem, now, module, model, Stage::Count).model.scan_ms == if tick_scans(
            mem,
            module,
            model,
        ) {
            now.end.wrapping_sub(now.start)
        } else {
            model.scan_ms
        },
{
    law_tick(mem, now, module, model);
}

} // verus!
