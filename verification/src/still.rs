//! What a whole tick comes to while the memory does not change.

use vstd::prelude::*;

use crate::cache;
use crate::mem;
use crate::mem::{Answers, Miss, Module};
use crate::model;
use crate::model::{
    Action, Described, Model, Scan, Stage, ELEMENTS_PER_CHUNK, TAG_CAM, TAG_DISABLE, TAG_FUNC,
};
use crate::names;
use crate::steps;
use crate::steps::{cameras, consistent, steps_left};

verus! {

/// Every read has an answer.
pub open spec fn whole(mem: Answers) -> bool {
    forall|addr: usize, len: usize| #[trigger] mem.dom().contains((addr, len))
}

/// The times at which a tick is told when its scan begins and when it ends.
pub struct Times {
    pub start: u64,
    pub end: u64,
}

impl Times {
    /// The time that is told at a stage.
    pub open spec fn at(self, stage: Stage) -> Option<u64> {
        Some(
            if stage is ScanEnd {
                self.end
            } else {
                self.start
            },
        )
    }
}

/// How a tick ends, and what it had done on the way, in order.
pub struct Outcome {
    pub model: Model,
    pub actions: Seq<Action<Seq<u8>>>,
}

/// How a tick ends from some stage on, in a memory that does not change.
#[verifier::opaque]
pub open spec fn finish(
    mem: Answers,
    now: Times,
    module: Module,
    model: Model,
    stage: Stage,
) -> Outcome
    decreases steps_left(model, stage),
    when whole(mem) && consistent(model, stage)
    via finish_ends
{
    if stage is Done {
        Outcome { model, actions: Seq::empty() }
    } else {
        let step = model::step(mem, now.at(stage), module, model, stage);
        let rest = finish(mem, now, module, step.model, step.stage);
        Outcome { model: rest.model, actions: seq![step.action] + rest.actions }
    }
}

#[via_fn]
proof fn finish_ends(mem: Answers, now: Times, module: Module, model: Model, stage: Stage) {
    steps::law_waiting_changes_nothing(mem, now.at(stage), module, model, stage);
    steps::law_tick_ends(mem, now.at(stage), module, model, stage);
}

/// A tick takes a step, and ends as it ends from there on.
pub proof fn lemma_finish_step(mem: Answers, now: Times, module: Module, model: Model, stage: Stage)
    requires
        whole(mem),
        consistent(model, stage),
        !(stage is Done),
    ensures
        ({
            let step = model::step(mem, now.at(stage), module, model, stage);
            let rest = finish(mem, now, module, step.model, step.stage);
            &&& consistent(step.model, step.stage)
            &&& finish(mem, now, module, model, stage).model == rest.model
            &&& finish(mem, now, module, model, stage).actions == seq![step.action] + rest.actions
            &&& !(step.action is Read)
            &&& !(step.action is Clock)
            &&& steps_left(step.model, step.stage) < steps_left(model, stage)
        }),
{
    reveal(finish);
    steps::law_waiting_changes_nothing(mem, now.at(stage), module, model, stage);
    steps::law_tick_ends(mem, now.at(stage), module, model, stage);
    steps::law_step_keeps_consistent(mem, now.at(stage), module, model, stage);
}

/// A tick that is over has nothing left to do.
pub proof fn lemma_finish_done(mem: Answers, now: Times, module: Module, model: Model)
    requires
        whole(mem),
        consistent(model, Stage::Done),
    ensures
        finish(mem, now, module, model, Stage::Done) == (Outcome {
            model,
            actions: Seq::empty(),
        }),
{
    reveal(finish);
}

/// The tag of a class in a memory: none where it is no class.
pub open spec fn tag_in(mem: Answers, module: Module, class: usize) -> Option<u32> {
    model::class_tag_at(mem, module, class)->Ok_0
}

/// The tag of a function's name in a memory.
pub open spec fn name_tag_in(mem: Answers, module: Module, id: u32) -> u32 {
    model::name_tag_of(
        names::name_at(mem, model::pool_of(module), id, names::MAX_NAME as nat)->Ok_0,
    )
}

/// What an object is in a memory, whatever is cached.
pub open spec fn object_in(mem: Answers, module: Module, obj: usize) -> Option<Described> {
    model::described(mem, module, Map::empty(), obj)->Ok_0
}

/// The object is a live camera.
pub open spec fn is_camera(mem: Answers, module: Module, obj: usize) -> bool {
    &&& obj != 0
    &&& object_in(mem, module, obj) is Some
    &&& object_in(mem, module, obj)->0.class_tag == TAG_CAM
}

/// The object is the function that disables dithering.
pub open spec fn is_disabler(mem: Answers, module: Module, obj: usize) -> bool {
    &&& obj != 0
    &&& object_in(mem, module, obj) is Some
    &&& object_in(mem, module, obj)->0.class_tag == TAG_FUNC
    &&& name_tag_in(mem, module, object_in(mem, module, obj)->0.name_id) == TAG_DISABLE
}

/// The header of what may be a live object.
pub open spec fn header_in(mem: Answers, module: Module, obj: usize) -> Option<model::Header> {
    let block = mem[(obj, model::OBJ_BLOCK)];
    if block.len() == model::OBJ_BLOCK && model::plausible(model::header_of(block), module) {
        Some(model::header_of(block))
    } else {
        None
    }
}

/// Classes lie at even addresses, so that no two of them have the same key.
pub open spec fn classes_even(mem: Answers, module: Module) -> bool {
    forall|obj: usize|
        (#[trigger] header_in(mem, module, obj)) is Some ==> header_in(mem, module, obj)->0.class
            % 2 == 0
}

/// What is cached is what the memory holds.
pub open spec fn coherent(mem: Answers, module: Module, model: Model) -> bool {
    &&& forall|class: usize|
        class % 2 == 0 && (#[trigger] cache::class_lookup(model.classes, class)) is Some ==> tag_in(
            mem,
            module,
            class,
        ) == cache::class_lookup(model.classes, class)
    &&& forall|id: u32|
        (#[trigger] cache::name_lookup(model.names, id)) is Some ==> cache::name_lookup(
            model.names,
            id,
        ) == Some(name_tag_in(mem, module, id))
}

/// In a memory where every read has an answer, nothing is missing.
pub proof fn lemma_whole(mem: Answers, module: Module)
    requires
        whole(mem),
    ensures
        forall|addr: usize, len: usize| (#[trigger] mem::raw_at(mem, addr, len)) is Ok,
        forall|addr: usize| (#[trigger] mem::u16_at(mem, addr)) is Ok,
        forall|addr: usize| (#[trigger] mem::u32_at(mem, addr)) is Ok,
        forall|addr: usize| (#[trigger] mem::u64_at(mem, addr)) is Ok,
        forall|addr: usize| (#[trigger] mem::pointer_at(mem, addr)) is Ok,
        forall|pool: usize, id: u32, room: nat|
            (#[trigger] names::name_at(mem, pool, id, room)) is Ok,
        forall|class: usize| (#[trigger] model::class_tag_at(mem, module, class)) is Ok,
        forall|cam: usize| (#[trigger] model::target_at(mem, module, cam)) is Ok,
{
    assert forall|addr: usize, len: usize| (#[trigger] mem::raw_at(mem, addr, len)) is Ok by {
        assert(mem.dom().contains((addr, len)));
    }
}

/// With a coherent cache an object is what it is in the memory.
pub proof fn law_cached_class(mem: Answers, module: Module, model: Model, obj: usize)
    requires
        whole(mem),
        classes_even(mem, module),
        coherent(mem, module, model),
    ensures
        model::described(mem, module, model.classes, obj) == Ok::<Option<Described>, Miss>(
            object_in(mem, module, obj),
        ),
        coherent(
            mem,
            module,
            Model {
                classes: model::learned(model.classes, object_in(mem, module, obj)),
                ..model
            },
        ),
{
    lemma_whole(mem, module);
    assert(mem::raw_at(mem, obj, model::OBJ_BLOCK) is Ok);
    match header_in(mem, module, obj) {
        Some(header) => {
            let class = header.class;
            assert(tag_in(mem, module, class) == model::class_tag_at(mem, module, class)->Ok_0);
            match object_in(mem, module, obj) {
                Some(d) => {
                    let after = Model {
                        classes: model::learned(model.classes, object_in(mem, module, obj)),
                        ..model
                    };
                    assert forall|other: usize|
                        other % 2 == 0 && (#[trigger] cache::class_lookup(after.classes, other)) is
                            Some implies tag_in(mem, module, other) == cache::class_lookup(
                        after.classes,
                        other,
                    ) by {
                        if other != class {
                            crate::laws::law_class_store_others(
                                model.classes,
                                class,
                                d.class_tag,
                                other,
                            );
                        }
                    }
                },
                None => {},
            }
        },
        None => {},
    }
}

/// With a coherent cache a name is what it is in the memory.
pub proof fn law_cached_name(mem: Answers, module: Module, model: Model, id: u32)
    requires
        whole(mem),
        coherent(mem, module, model),
    ensures
        model::name_tag_at(mem, model::pool_of(module), model.names, id) == Ok::<u32, Miss>(
            name_tag_in(mem, module, id),
        ),
        coherent(
            mem,
            module,
            Model {
                names: cache::name_store(model.names, id, name_tag_in(mem, module, id)),
                ..model
            },
        ),
{
    lemma_whole(mem, module);
    let after = Model {
        names: cache::name_store(model.names, id, name_tag_in(mem, module, id)),
        ..model
    };
    assert forall|other: u32|
        (#[trigger] cache::name_lookup(after.names, other)) is Some implies cache::name_lookup(
        after.names,
        other,
    ) == Some(name_tag_in(mem, module, other)) by {
        crate::laws::law_name_store(model.names, id, name_tag_in(mem, module, id), other);
    }
}

/// The chunk number `idx` of a table of chunks.
pub open spec fn chunk_in(mem: Answers, chunks: usize, idx: u32) -> usize {
    model::chunk_of(mem, chunks, idx)->Ok_0
}

/// The object number `i` of the array, or null.
pub open spec fn slot_in(mem: Answers, chunks: usize, i: int) -> usize {
    let chunk = chunk_in(mem, chunks, (i / 0x1_0000) as u32);
    if chunk == 0 {
        0
    } else {
        model::item_of(mem, chunk, i as u32)->Ok_0
    }
}

/// The number of cameras among the objects from number `i` on.
pub open spec fn camera_count(
    mem: Answers,
    module: Module,
    chunks: usize,
    i: int,
    total: int,
) -> nat
    decreases total - i,
{
    if i >= total {
        0
    } else {
        camera_count(mem, module, chunks, i + 1, total) + if is_camera(
            mem,
            module,
            slot_in(mem, chunks, i),
        ) {
            1nat
        } else {
            0nat
        }
    }
}

/// The function at hand after the objects from number `i` on: the one that was at
/// hand before, or else the first one among them.
pub open spec fn function_found(
    mem: Answers,
    module: Module,
    chunks: usize,
    func: usize,
    i: int,
    total: int,
) -> usize
    decreases total - i,
{
    if i >= total || func != 0 {
        func
    } else if is_disabler(mem, module, slot_in(mem, chunks, i)) {
        slot_in(mem, chunks, i)
    } else {
        function_found(mem, module, chunks, func, i + 1, total)
    }
}

/// The state with the cameras among the objects from number `i` on remembered, one
/// after the other.
pub open spec fn all_remembered(
    mem: Answers,
    module: Module,
    chunks: usize,
    model: Model,
    i: int,
    total: int,
) -> Model
    decreases total - i,
{
    if i >= total {
        model
    } else {
        let obj = slot_in(mem, chunks, i);
        let after = if is_camera(mem, module, obj) {
            model::remembered(model, obj)
        } else {
            model
        };
        all_remembered(mem, module, chunks, after, i + 1, total)
    }
}

/// There is a camera among the objects from number `i` on that is not known.
pub open spec fn new_camera(
    mem: Answers,
    module: Module,
    chunks: usize,
    known: Seq<usize>,
    i: int,
    total: int,
) -> bool {
    exists|j: int|
        i <= j < total && is_camera(mem, module, #[trigger] slot_in(mem, chunks, j))
            && !known.contains(slot_in(mem, chunks, j))
}

/// A scan that begins.
pub open spec fn first_scan(t0: u64, chunks: usize, total: u32) -> Scan {
    Scan { t0, chunks, total, chunk_idx: u32::MAX, chunk: 0, cams: 0, i: 0 }
}

/// What a scan leaves behind, from object `scan.i` on: the cameras counted and
/// remembered, the function kept or found, and the new baseline.
pub open spec fn scan_result(
    mem: Answers,
    now: Times,
    module: Module,
    model: Model,
    scan: Scan,
    out: Outcome,
) -> bool {
    let i = scan.i as int;
    let total = scan.total as int;
    let all = all_remembered(mem, module, scan.chunks, model, i, total);
    &&& out.model.cams_last == scan.cams + camera_count(mem, module, scan.chunks, i, total)
    &&& out.model.func == function_found(mem, module, scan.chunks, model.func, i, total)
    &&& out.model.known == all.known
    &&& out.model.cursor == all.cursor
    &&& out.model.last_total == scan.total
    &&& out.model.scans == model.scans.wrapping_add(1)
    &&& out.model.func_stale == if out.model.func == 0 {
        u32::MAX as u64
    } else {
        0
    }
    &&& out.model.scan_ms == now.end.wrapping_sub(scan.t0)
    &&& out.model.logged == (model.logged || new_camera(
        mem,
        module,
        scan.chunks,
        model.known,
        i,
        total,
    ))
    &&& coherent(mem, module, out.model)
    &&& consistent(out.model, Stage::Done)
}

/// The calls among what was done, in order.
pub open spec fn calls(actions: Seq<Action<Seq<u8>>>) -> Seq<Action<Seq<u8>>> {
    actions.filter(|action: Action<Seq<u8>>| action is Invoke)
}

/// The call of a function on a camera: none where there is no function or the
/// camera cannot be called.
pub open spec fn call_on(mem: Answers, module: Module, func: usize, cam: usize) -> Seq<
    Action<Seq<u8>>,
> {
    match model::target_at(mem, module, cam) {
        Ok(Some(target)) => if func == 0 {
            Seq::empty()
        } else {
            seq![Action::Invoke { target, cam, func }]
        },
        _ => Seq::empty(),
    }
}

/// The calls of a function on all the cameras among the objects from number `i` on,
/// one for each object and in their order.
pub open spec fn array_calls(
    mem: Answers,
    module: Module,
    chunks: usize,
    func: usize,
    i: int,
    total: int,
) -> Seq<Action<Seq<u8>>>
    decreases total - i,
{
    if i >= total {
        Seq::empty()
    } else {
        let cam = slot_in(mem, chunks, i);
        (if is_camera(mem, module, cam) {
            call_on(mem, module, func, cam)
        } else {
            Seq::empty()
        }) + array_calls(mem, module, chunks, func, i + 1, total)
    }
}

/// The calls of two stretches of actions are the calls of the one and then of the
/// other.
pub proof fn lemma_calls_add(a: Seq<Action<Seq<u8>>>, b: Seq<Action<Seq<u8>>>)
    ensures
        calls(a + b) == calls(a) + calls(b),
{
    Seq::filter_distributes_over_add(a, b, |action: Action<Seq<u8>>| action is Invoke);
}

/// The calls of a single action.
pub proof fn lemma_calls_one(action: Action<Seq<u8>>)
    ensures
        calls(seq![action]) == if action is Invoke {
            seq![action]
        } else {
            Seq::empty()
        },
        calls(Seq::empty()) == Seq::<Action<Seq<u8>>>::empty(),
{
    reveal(Seq::filter);
    assert(seq![action].drop_last() =~= Seq::<Action<Seq<u8>>>::empty());
    assert(calls(Seq::empty()) =~= Seq::<Action<Seq<u8>>>::empty());
    assert(Seq::<Action<Seq<u8>>>::empty().push(action) =~= seq![action]);
}

/// The objects can be gone over in two parts.
proof fn lemma_array_calls_split(
    mem: Answers,
    module: Module,
    chunks: usize,
    func: usize,
    i: int,
    j: int,
    total: int,
)
    requires
        i <= j <= total,
    ensures
        array_calls(mem, module, chunks, func, i, total) == array_calls(
            mem,
            module,
            chunks,
            func,
            i,
            j,
        ) + array_calls(mem, module, chunks, func, j, total),
    decreases j - i,
{
    let right = array_calls(mem, module, chunks, func, j, total);
    if i < j {
        let cam = slot_in(mem, chunks, i);
        let one = if is_camera(mem, module, cam) {
            call_on(mem, module, func, cam)
        } else {
            Seq::empty()
        };
        lemma_array_calls_split(mem, module, chunks, func, i + 1, j, total);
        assert(one + (array_calls(mem, module, chunks, func, i + 1, j) + right) =~= (one
            + array_calls(mem, module, chunks, func, i + 1, j)) + right);
    } else {
        assert(Seq::empty() + right =~= right);
    }
}

/// Without a function nothing is called.
proof fn lemma_array_calls_none(
    mem: Answers,
    module: Module,
    chunks: usize,
    i: int,
    total: int,
)
    ensures
        array_calls(mem, module, chunks, 0, i, total) == Seq::<Action<Seq<u8>>>::empty(),
    decreases total - i,
{
    if i < total {
        lemma_array_calls_none(mem, module, chunks, i + 1, total);
    }
}

/// `all_remembered` reads nothing of the state but the known cameras and the
/// place that is taken next.
pub proof fn lemma_all_remembered_same(
    mem: Answers,
    module: Module,
    chunks: usize,
    a: Model,
    b: Model,
    i: int,
    total: int,
)
    requires
        a.known == b.known,
        a.cursor == b.cursor,
    ensures
        all_remembered(mem, module, chunks, a, i, total).known == all_remembered(
            mem,
            module,
            chunks,
            b,
            i,
            total,
        ).known,
        all_remembered(mem, module, chunks, a, i, total).cursor == all_remembered(
            mem,
            module,
            chunks,
            b,
            i,
            total,
        ).cursor,
    decreases total - i,
{
    if i < total {
        let obj = slot_in(mem, chunks, i);
        let (a1, b1) = if is_camera(mem, module, obj) {
            (model::remembered(a, obj), model::remembered(b, obj))
        } else {
            (a, b)
        };
        lemma_all_remembered_same(mem, module, chunks, a1, b1, i + 1, total);
    }
}

/// A stretch of missing objects adds nothing.
proof fn lemma_gap(
    mem: Answers,
    module: Module,
    chunks: usize,
    model: Model,
    func: usize,
    i: int,
    j: int,
    total: int,
)
    requires
        i <= j,
        forall|n: int| i <= n < j && n < total ==> (#[trigger] slot_in(mem, chunks, n)) == 0,
    ensures
        camera_count(mem, module, chunks, i, total) == camera_count(
            mem,
            module,
            chunks,
            j,
            total,
        ),
        function_found(mem, module, chunks, func, i, total) == function_found(
            mem,
            module,
            chunks,
            func,
            j,
            total,
        ),
        all_remembered(mem, module, chunks, model, i, total) == all_remembered(
            mem,
            module,
            chunks,
            model,
            j,
            total,
        ),
    decreases j - i,
{
    if i < j && i < total {
        assert(slot_in(mem, chunks, i) == 0);
        lemma_gap(mem, module, chunks, model, func, i + 1, j, total);
    }
}

proof fn lemma_gap_calls(
    mem: Answers,
    module: Module,
    chunks: usize,
    func: usize,
    i: int,
    j: int,
    total: int,
)
    requires
        i <= j,
        forall|n: int| i <= n < j && n < total ==> (#[trigger] slot_in(mem, chunks, n)) == 0,
    ensures
        array_calls(mem, module, chunks, func, i, total) == array_calls(
            mem,
            module,
            chunks,
            func,
            j,
            total,
        ),
    decreases j - i,
{
    if i < j && i < total {
        assert(slot_in(mem, chunks, i) == 0);
        lemma_gap_calls(mem, module, chunks, func, i + 1, j, total);
        assert(Seq::empty() + array_calls(mem, module, chunks, func, i + 1, total)
            =~= array_calls(mem, module, chunks, func, i + 1, total));
    }
}

/// A tick goes on from one stage to another, having done `done` in between.
pub open spec fn goes_on(
    mem: Answers,
    now: Times,
    module: Module,
    model: Model,
    stage: Stage,
    after: Model,
    next: Stage,
    done: Seq<Action<Seq<u8>>>,
) -> bool {
    let out = finish(mem, now, module, model, stage);
    let rest = finish(mem, now, module, after, next);
    &&& consistent(after, next)
    &&& coherent(mem, module, after)
    &&& out.model == rest.model
    &&& out.actions == done + rest.actions
}

/// A tick that goes on, and then on again, goes on.
pub proof fn lemma_goes_on_twice(
    mem: Answers,
    now: Times,
    module: Module,
    a: Model,
    sa: Stage,
    b: Model,
    sb: Stage,
    c: Model,
    sc: Stage,
    first: Seq<Action<Seq<u8>>>,
    second: Seq<Action<Seq<u8>>>,
)
    requires
        goes_on(mem, now, module, a, sa, b, sb, first),
        goes_on(mem, now, module, b, sb, c, sc, second),
    ensures
        goes_on(mem, now, module, a, sa, c, sc, first + second),
        calls(first + second) == calls(first) + calls(second),
{
    let rest = finish(mem, now, module, c, sc);
    assert(first + (second + rest.actions) =~= (first + second) + rest.actions);
    lemma_calls_add(first, second);
}

/// The chunk at hand is the one that the memory holds.
spec fn chunk_right(mem: Answers, scan: Scan) -> bool {
    scan.chunk_idx == scan.i / ELEMENTS_PER_CHUNK ==> scan.chunk == chunk_in(
        mem,
        scan.chunks,
        scan.chunk_idx,
    )
}

/// A camera that was found is called, and the scan goes on.
proof fn lemma_found(
    mem: Answers,
    now: Times,
    module: Module,
    model: Model,
    scan: Scan,
    cam: usize,
) -> (r: (Model, Action<Seq<u8>>))
    requires
        whole(mem),
        consistent(model, Stage::DisableFound { scan, cam }),
        coherent(mem, module, model),
    ensures
        r.0 == (Model { cam_calls: r.0.cam_calls, ..model }),
        consistent(r.0, Stage::Scan { scan }),
        coherent(mem, module, r.0),
        ({
            let out = finish(mem, now, module, model, Stage::DisableFound { scan, cam });
            let rest = finish(mem, now, module, r.0, Stage::Scan { scan });
            &&& out.model == rest.model
            &&& out.actions == seq![r.1] + rest.actions
            &&& calls(seq![r.1]) == call_on(mem, module, model.func, cam)
        }),
{
    let stage = Stage::DisableFound { scan, cam };
    lemma_whole(mem, module);
    lemma_finish_step(mem, now, module, model, stage);
    let step = model::step(mem, now.at(stage), module, model, stage);
    assert(model::target_at(mem, module, cam) is Ok);
    lemma_calls_one(step.action);
    (step.model, step.action)
}

/// What is asked of a scan, from where it stands.
spec fn scan_begins(mem: Answers, module: Module, model: Model, scan: Scan) -> bool {
    &&& whole(mem)
    &&& classes_even(mem, module)
    &&& coherent(mem, module, model)
    &&& consistent(model, Stage::Scan { scan })
    &&& chunk_right(mem, scan)
}

/// What is shown of a scan, from where it stands.
spec fn scan_shown(mem: Answers, now: Times, module: Module, model: Model, scan: Scan) -> bool {
    let out = finish(mem, now, module, model, Stage::Scan { scan });
    &&& scan_result(mem, now, module, model, scan, out)
    &&& calls(out.actions) == scan_calls(mem, module, model.func, scan)
}

/// What a scan calls, from where it stands: the cameras ahead; or, if a function is
/// found ahead, all of them.
spec fn scan_calls(mem: Answers, module: Module, func: usize, scan: Scan) -> Seq<Action<Seq<u8>>> {
    let i = scan.i as int;
    let total = scan.total as int;
    array_calls(
        mem,
        module,
        scan.chunks,
        function_found(mem, module, scan.chunks, func, i, total),
        if func == 0 {
            0
        } else {
            i
        },
        total,
    )
}

proof fn lemma_scan_over(mem: Answers, now: Times, module: Module, model: Model, scan: Scan)
    requires
        scan_begins(mem, module, model, scan),
        scan.i >= scan.total,
    ensures
        scan_shown(mem, now, module, model, scan),
{
    let stage = Stage::Scan { scan };
    let end = Stage::ScanEnd { t0: scan.t0 };
    let after = model::scanned(model, scan);
    lemma_finish_step(mem, now, module, model, stage);
    assert(model::step(mem, now.at(stage), module, model, stage) == model::proceeding(after, end));
    lemma_finish_step(mem, now, module, after, end);
    let last = Model { scan_ms: now.end.wrapping_sub(scan.t0), ..after };
    lemma_finish_done(mem, now, module, last);
    let out = finish(mem, now, module, model, stage);
    lemma_calls_add(seq![Action::Proceed], seq![Action::Done]);
    lemma_calls_one(Action::Proceed);
    lemma_calls_one(Action::Done);
    assert(out.actions =~= seq![Action::<Seq<u8>>::Proceed] + seq![Action::Done]);
    assert(calls(out.actions) =~= Seq::empty());
    if model.func == 0 {
        lemma_array_calls_none(mem, module, scan.chunks, 0, scan.total as int);
    }
}

/// A chunk that is missing is passed over.
proof fn lemma_gap_step(mem: Answers, now: Times, module: Module, model: Model, scan: Scan) -> (next:
    Scan)
    requires
        scan_begins(mem, module, model, scan),
        scan.i < scan.total,
        chunk_in(mem, scan.chunks, scan.i / ELEMENTS_PER_CHUNK) == 0,
    ensures
        next == (Scan {
            chunk_idx: scan.i / ELEMENTS_PER_CHUNK,
            chunk: 0,
            i: ((scan.i / ELEMENTS_PER_CHUNK + 1) * ELEMENTS_PER_CHUNK) as u32,
            ..scan
        }),
        scan.i < next.i,
        scan_begins(mem, module, model, next),
        finish(mem, now, module, model, Stage::Scan { scan }) == (Outcome {
            model: finish(mem, now, module, model, Stage::Scan { scan: next }).model,
            actions: seq![Action::Proceed] + finish(
                mem,
                now,
                module,
                model,
                Stage::Scan { scan: next },
            ).actions,
        }),
{
    let stage = Stage::Scan { scan };
    let idx = scan.i / ELEMENTS_PER_CHUNK;
    let next = Scan {
        chunk_idx: idx,
        chunk: 0,
        i: ((idx + 1) * ELEMENTS_PER_CHUNK) as u32,
        ..scan
    };
    lemma_whole(mem, module);
    assert(model::chunk_of(mem, scan.chunks, idx) is Ok);
    assert(model::current_chunk(mem, scan) == Ok::<usize, Miss>(0));
    lemma_finish_step(mem, now, module, model, stage);
    assert(model::step(mem, now.at(stage), module, model, stage) == model::proceeding(
        model,
        Stage::Scan { scan: next },
    ));
    next
}

proof fn lemma_scan_gap(mem: Answers, now: Times, module: Module, model: Model, scan: Scan, next: Scan)
    requires
        scan_begins(mem, module, model, scan),
        scan.i < scan.total,
        chunk_in(mem, scan.chunks, scan.i / ELEMENTS_PER_CHUNK) == 0,
        next == (Scan {
            chunk_idx: scan.i / ELEMENTS_PER_CHUNK,
            chunk: 0,
            i: ((scan.i / ELEMENTS_PER_CHUNK + 1) * ELEMENTS_PER_CHUNK) as u32,
            ..scan
        }),
        scan_shown(mem, now, module, model, next),
        finish(mem, now, module, model, Stage::Scan { scan }) == (Outcome {
            model: finish(mem, now, module, model, Stage::Scan { scan: next }).model,
            actions: seq![Action::Proceed] + finish(
                mem,
                now,
                module,
                model,
                Stage::Scan { scan: next },
            ).actions,
        }),
    ensures
        scan_shown(mem, now, module, model, scan),
{
    let i = scan.i as int;
    let total = scan.total as int;
    let rest = finish(mem, now, module, model, Stage::Scan { scan: next });
    assert forall|n: int| i <= n < next.i && n < total implies (#[trigger] slot_in(
        mem,
        scan.chunks,
        n,
    )) == 0 by {
        assert(n / 0x1_0000 == scan.i / ELEMENTS_PER_CHUNK);
    }
    lemma_gap(mem, module, scan.chunks, model, model.func, i, next.i as int, total);
    let func = function_found(mem, module, scan.chunks, model.func, i, total);
    lemma_gap_calls(mem, module, scan.chunks, func, i, next.i as int, total);
    lemma_calls_add(seq![Action::Proceed], rest.actions);
    lemma_calls_one(Action::Proceed);
    assert(Seq::empty() + calls(rest.actions) =~= calls(rest.actions));
}

/// The scan after an object that is there.
spec fn past(mem: Answers, scan: Scan) -> Scan {
    Scan {
        chunk_idx: scan.i / ELEMENTS_PER_CHUNK,
        chunk: chunk_in(mem, scan.chunks, scan.i / ELEMENTS_PER_CHUNK),
        i: (scan.i + 1) as u32,
        ..scan
    }
}

/// An object was taken in: the scan goes on from `after` and `next`, having done
/// `done`.
spec fn taken_in(
    mem: Answers,
    now: Times,
    module: Module,
    model: Model,
    scan: Scan,
    after: Model,
    next: Scan,
    done: Seq<Action<Seq<u8>>>,
) -> bool {
    let obj = slot_in(mem, scan.chunks, scan.i as int);
    let out = finish(mem, now, module, model, Stage::Scan { scan });
    let rest = finish(mem, now, module, after, Stage::Scan { scan: next });
    &&& scan_begins(mem, module, after, next)
    &&& out.model == rest.model
    &&& out.actions == done + rest.actions
    &&& after.scans == model.scans
    &&& after.logged == (model.logged || is_camera(mem, module, obj) && !model.known.contains(obj))
    &&& if is_camera(mem, module, obj) {
        &&& next == Scan { cams: (scan.cams + 1) as u64, ..past(mem, scan) }
        &&& after.known == model::remembered(model, obj).known
        &&& after.cursor == model::remembered(model, obj).cursor
        &&& after.func == model.func
        &&& calls(done) == call_on(mem, module, model.func, obj)
    } else {
        &&& next == past(mem, scan)
        &&& after.known == model.known
        &&& after.cursor == model.cursor
        &&& after.func == if model.func == 0 && is_disabler(mem, module, obj) {
            obj
        } else {
            model.func
        }
        &&& calls(done) == if model.func == 0 && is_disabler(mem, module, obj) {
            array_calls(mem, module, scan.chunks, obj, 0, scan.i as int)
        } else {
            Seq::empty()
        }
    }
}

/// The first step on an object that is there.
proof fn lemma_object_entry(mem: Answers, now: Times, module: Module, model: Model, scan: Scan)
    requires
        scan_begins(mem, module, model, scan),
        scan.i < scan.total,
        chunk_in(mem, scan.chunks, scan.i / ELEMENTS_PER_CHUNK) != 0,
    ensures
        ({
            let obj = slot_in(mem, scan.chunks, scan.i as int);
            let stage = Stage::Scan { scan };
            model::step(mem, now.at(stage), module, model, stage) == if obj == 0 {
                model::proceeding(model, Stage::Scan { scan: past(mem, scan) })
            } else {
                model::object_step(mem, module, model, stage, past(mem, scan), obj)
            }
        }),
{
    let idx = scan.i / ELEMENTS_PER_CHUNK;
    let chunk = chunk_in(mem, scan.chunks, idx);
    let obj = slot_in(mem, scan.chunks, scan.i as int);
    lemma_whole(mem, module);
    assert(model::chunk_of(mem, scan.chunks, idx) is Ok);
    assert(model::current_chunk(mem, scan) == Ok::<usize, Miss>(chunk));
    assert(model::item_of(mem, chunk, scan.i) == Ok::<usize, Miss>(obj));
}

/// What is asked of the way back.
spec fn back_begins(
    mem: Answers,
    module: Module,
    model: Model,
    scan: Scan,
    back: Scan,
) -> bool {
    &&& whole(mem)
    &&& classes_even(mem, module)
    &&& coherent(mem, module, model)
    &&& consistent(model, Stage::Revisit { scan, back })
    &&& chunk_right(mem, back)
}

/// One step of the way back, over an object or over a chunk that is missing.
proof fn lemma_back_one(
    mem: Answers,
    now: Times,
    module: Module,
    model: Model,
    scan: Scan,
    back: Scan,
) -> (r: (Model, Scan, Action<Seq<u8>>))
    requires
        back_begins(mem, module, model, scan, back),
        back.i < back.total,
    ensures
        goes_on(
            mem,
            now,
            module,
            model,
            (Stage::Revisit { scan, back }),
            r.0,
            (Stage::Revisit { scan, back: r.1 }),
            seq![r.2],
        ),
        back_begins(mem, module, r.0, scan, r.1),
        r.0 == (Model { classes: r.0.classes, cam_calls: r.0.cam_calls, ..model }),
        r.1.chunks == back.chunks,
        r.1.total == back.total,
        back.i < r.1.i,
        array_calls(
            mem,
            module,
            back.chunks,
            model.func,
            back.i as int,
            back.total as int,
        ) == calls(seq![r.2]) + array_calls(
            mem,
            module,
            back.chunks,
            model.func,
            r.1.i as int,
            back.total as int,
        ),
{
    let stage = Stage::Revisit { scan, back };
    let i = back.i as int;
    let total = back.total as int;
    let idx = back.i / ELEMENTS_PER_CHUNK;
    let chunk = chunk_in(mem, back.chunks, idx);
    let obj = slot_in(mem, back.chunks, i);
    let step = model::step(mem, now.at(stage), module, model, stage);
    lemma_whole(mem, module);
    assert(model::chunk_of(mem, back.chunks, idx) is Ok);
    assert(model::current_chunk(mem, back) == Ok::<usize, Miss>(chunk));
    lemma_finish_step(mem, now, module, model, stage);
    lemma_calls_one(step.action);
    if chunk == 0 {
        let next = Scan {
            chunk_idx: idx,
            chunk: 0,
            i: ((idx + 1) * ELEMENTS_PER_CHUNK) as u32,
            ..back
        };
        assert(step == model::proceeding(model, Stage::Revisit { scan, back: next }));
        assert forall|n: int| i <= n < next.i && n < total implies (#[trigger] slot_in(
            mem,
            back.chunks,
            n,
        )) == 0 by {
            assert(n / 0x1_0000 == idx);
        }
        lemma_gap_calls(mem, module, back.chunks, model.func, i, next.i as int, total);
        let later = array_calls(mem, module, back.chunks, model.func, next.i as int, total);
        assert(Seq::empty() + later =~= later);
        (model, next, step.action)
    } else {
        let next = past(mem, back);
        assert(model::item_of(mem, chunk, back.i) == Ok::<usize, Miss>(obj));
        if obj != 0 {
            law_cached_class(mem, module, model, obj);
            assert(model::target_at(mem, module, obj) is Ok);
        }
        assert(step.stage == (Stage::Revisit { scan, back: next }));
        assert(coherent(mem, module, step.model));
        (step.model, next, step.action)
    }
}

/// The way back calls the function on every camera in front of it.
proof fn lemma_back(
    mem: Answers,
    now: Times,
    module: Module,
    model: Model,
    scan: Scan,
    back: Scan,
) -> (r: (Model, Seq<Action<Seq<u8>>>))
    requires
        back_begins(mem, module, model, scan, back),
    ensures
        goes_on(
            mem,
            now,
            module,
            model,
            (Stage::Revisit { scan, back }),
            r.0,
            (Stage::Scan { scan }),
            r.1,
        ),
        r.0 == (Model { classes: r.0.classes, cam_calls: r.0.cam_calls, ..model }),
        calls(r.1) == array_calls(
            mem,
            module,
            back.chunks,
            model.func,
            back.i as int,
            back.total as int,
        ),
    decreases back.total + ELEMENTS_PER_CHUNK - back.i,
{
    let stage = Stage::Revisit { scan, back };
    if back.i >= back.total {
        lemma_finish_step(mem, now, module, model, stage);
        lemma_calls_one(Action::Proceed);
        (model, seq![Action::Proceed])
    } else {
        let (mid, next, action) = lemma_back_one(mem, now, module, model, scan, back);
        let (after, done) = lemma_back(mem, now, module, mid, scan, next);
        lemma_goes_on_twice(
            mem,
            now,
            module,
            model,
            stage,
            mid,
            Stage::Revisit { scan, back: next },
            after,
            Stage::Scan { scan },
            seq![action],
            done,
        );
        (after, seq![action] + done)
    }
}

/// An object that is neither a camera nor the function that was missing.
proof fn lemma_take_other(mem: Answers, now: Times, module: Module, model: Model, scan: Scan) -> (r:
    (Model, Seq<Action<Seq<u8>>>))
    requires
        scan_begins(mem, module, model, scan),
        scan.i < scan.total,
        chunk_in(mem, scan.chunks, scan.i / ELEMENTS_PER_CHUNK) != 0,
        !is_camera(mem, module, slot_in(mem, scan.chunks, scan.i as int)),
        model.func != 0 || !is_disabler(mem, module, slot_in(mem, scan.chunks, scan.i as int)),
    ensures
        taken_in(mem, now, module, model, scan, r.0, past(mem, scan), r.1),
{
    let obj = slot_in(mem, scan.chunks, scan.i as int);
    let stage = Stage::Scan { scan };
    let step = model::step(mem, now.at(stage), module, model, stage);
    lemma_object_entry(mem, now, module, model, scan);
    lemma_finish_step(mem, now, module, model, stage);
    if obj != 0 {
        law_cached_class(mem, module, model, obj);
        let d = object_in(mem, module, obj);
        if d is Some && d->0.class_tag == TAG_FUNC {
            let after = Model { classes: model::learned(model.classes, d), ..model };
            law_cached_name(mem, module, after, d->0.name_id);
        }
    }
    lemma_calls_one(step.action);
    (step.model, seq![step.action])
}

/// The step that acquires the function.
proof fn lemma_acquire(mem: Answers, now: Times, module: Module, model: Model, scan: Scan) -> (r: (
    Model,
    Action<Seq<u8>>,
))
    requires
        scan_begins(mem, module, model, scan),
        scan.i < scan.total,
        chunk_in(mem, scan.chunks, scan.i / ELEMENTS_PER_CHUNK) != 0,
        is_disabler(mem, module, slot_in(mem, scan.chunks, scan.i as int)),
        model.func == 0,
    ensures
        ({
            let obj = slot_in(mem, scan.chunks, scan.i as int);
            let next = past(mem, scan);
            let back = model::way_back(next, scan.i);
            &&& goes_on(
                mem,
                now,
                module,
                model,
                (Stage::Scan { scan }),
                r.0,
                (Stage::Revisit { scan: next, back }),
                seq![r.1],
            )
            &&& back_begins(mem, module, r.0, next, back)
            &&& r.0 == Model {
                classes: r.0.classes,
                names: r.0.names,
                func: obj,
                ..model
            }
            &&& calls(seq![r.1]) == Seq::<Action<Seq<u8>>>::empty()
        }),
{
    let obj = slot_in(mem, scan.chunks, scan.i as int);
    let stage = Stage::Scan { scan };
    let step = model::step(mem, now.at(stage), module, model, stage);
    lemma_object_entry(mem, now, module, model, scan);
    lemma_finish_step(mem, now, module, model, stage);
    law_cached_class(mem, module, model, obj);
    let d = object_in(mem, module, obj);
    let after = Model { classes: model::learned(model.classes, d), ..model };
    law_cached_name(mem, module, after, d->0.name_id);
    lemma_calls_one(step.action);
    assert(step.stage == (Stage::Revisit {
        scan: past(mem, scan),
        back: model::way_back(past(mem, scan), scan.i),
    }));
    (step.model, step.action)
}

/// The function that was missing.
proof fn lemma_take_function(
    mem: Answers,
    now: Times,
    module: Module,
    model: Model,
    scan: Scan,
) -> (r: (Model, Seq<Action<Seq<u8>>>))
    requires
        scan_begins(mem, module, model, scan),
        scan.i < scan.total,
        chunk_in(mem, scan.chunks, scan.i / ELEMENTS_PER_CHUNK) != 0,
        is_disabler(mem, module, slot_in(mem, scan.chunks, scan.i as int)),
        model.func == 0,
    ensures
        taken_in(mem, now, module, model, scan, r.0, past(mem, scan), r.1),
{
    let next = past(mem, scan);
    let back = model::way_back(next, scan.i);
    let (mid, line) = lemma_acquire(mem, now, module, model, scan);
    let (after, done) = lemma_back(mem, now, module, mid, next, back);
    lemma_goes_on_twice(
        mem,
        now,
        module,
        model,
        Stage::Scan { scan },
        mid,
        Stage::Revisit { scan: next, back },
        after,
        Stage::Scan { scan: next },
        seq![line],
        done,
    );
    assert(Seq::empty() + calls(done) =~= calls(done));
    (after, seq![line] + done)
}

/// The first step on a camera.
proof fn lemma_camera_entry(mem: Answers, now: Times, module: Module, model: Model, scan: Scan) -> (r:
    (Model, Stage))
    requires
        scan_begins(mem, module, model, scan),
        scan.i < scan.total,
        chunk_in(mem, scan.chunks, scan.i / ELEMENTS_PER_CHUNK) != 0,
        is_camera(mem, module, slot_in(mem, scan.chunks, scan.i as int)),
    ensures
        ({
            let obj = slot_in(mem, scan.chunks, scan.i as int);
            let next = Scan { cams: (scan.cams + 1) as u64, ..past(mem, scan) };
            &&& r.0 == Model { classes: r.0.classes, ..model::remembered(model, obj) }
            &&& r.1 == if model.known.contains(obj) {
                Stage::DisableFound { scan: next, cam: obj }
            } else {
                Stage::LogCamera { scan: next, cam: obj }
            }
            &&& consistent(r.0, r.1)
            &&& coherent(mem, module, r.0)
        }),
        finish(mem, now, module, model, Stage::Scan { scan }).model == finish(
            mem,
            now,
            module,
            r.0,
            r.1,
        ).model,
        finish(mem, now, module, model, Stage::Scan { scan }).actions == seq![
            Action::<Seq<u8>>::Proceed,
        ] + finish(mem, now, module, r.0, r.1).actions,
{
    let obj = slot_in(mem, scan.chunks, scan.i as int);
    let stage = Stage::Scan { scan };
    let step = model::step(mem, now.at(stage), module, model, stage);
    lemma_object_entry(mem, now, module, model, scan);
    lemma_finish_step(mem, now, module, model, stage);
    law_cached_class(mem, module, model, obj);
    (step.model, step.stage)
}

/// A camera is logged or not, and the scan goes on.
proof fn lemma_logged(
    mem: Answers,
    now: Times,
    module: Module,
    model: Model,
    scan: Scan,
    cam: usize,
) -> (r: (Model, Action<Seq<u8>>))
    requires
        whole(mem),
        consistent(model, Stage::LogCamera { scan, cam }),
        coherent(mem, module, model),
    ensures
        r.0 == (Model { logged: true, ..model }),
        consistent(r.0, Stage::DisableFound { scan, cam }),
        coherent(mem, module, r.0),
        finish(mem, now, module, model, Stage::LogCamera { scan, cam }).model == finish(
            mem,
            now,
            module,
            r.0,
            Stage::DisableFound { scan, cam },
        ).model,
        !(r.1 is Invoke),
        finish(mem, now, module, model, Stage::LogCamera { scan, cam }).actions == seq![r.1]
            + finish(mem, now, module, r.0, Stage::DisableFound { scan, cam }).actions,
{
    let stage = Stage::LogCamera { scan, cam };
    let step = model::step(mem, now.at(stage), module, model, stage);
    lemma_finish_step(mem, now, module, model, stage);
    (step.model, step.action)
}

/// A camera.
proof fn lemma_take_camera(mem: Answers, now: Times, module: Module, model: Model, scan: Scan) -> (r:
    (Model, Scan, Seq<Action<Seq<u8>>>))
    requires
        scan_begins(mem, module, model, scan),
        scan.i < scan.total,
        chunk_in(mem, scan.chunks, scan.i / ELEMENTS_PER_CHUNK) != 0,
        is_camera(mem, module, slot_in(mem, scan.chunks, scan.i as int)),
    ensures
        taken_in(mem, now, module, model, scan, r.0, r.1, r.2),
{
    let obj = slot_in(mem, scan.chunks, scan.i as int);
    let next = Scan { cams: (scan.cams + 1) as u64, ..past(mem, scan) };
    let out = finish(mem, now, module, model, Stage::Scan { scan });
    let (first, stage) = lemma_camera_entry(mem, now, module, model, scan);
    if stage is DisableFound {
        let (after, call) = lemma_found(mem, now, module, first, next, obj);
        let rest = finish(mem, now, module, after, Stage::Scan { scan: next });
        let done = seq![Action::Proceed] + seq![call];
        lemma_calls_add(seq![Action::Proceed], seq![call]);
        lemma_calls_one(Action::Proceed);
        assert(calls(done) =~= calls(seq![call]));
        assert(out.actions =~= done + rest.actions);
        (after, next, done)
    } else {
        let (second, line) = lemma_logged(mem, now, module, first, next, obj);
        let (after, call) = lemma_found(mem, now, module, second, next, obj);
        let rest = finish(mem, now, module, after, Stage::Scan { scan: next });
        let done = seq![Action::Proceed] + (seq![line] + seq![call]);
        lemma_calls_add(seq![Action::Proceed], seq![line] + seq![call]);
        lemma_calls_add(seq![line], seq![call]);
        lemma_calls_one(Action::Proceed);
        lemma_calls_one(line);
        assert(calls(done) =~= calls(seq![call]));
        assert(out.actions =~= done + rest.actions);
        (after, next, done)
    }
}

/// A camera that is not known is ahead if the object at hand is one, or if one is
/// ahead of it; until then nothing new is remembered.
proof fn lemma_new_camera(
    mem: Answers,
    module: Module,
    chunks: usize,
    known: Seq<usize>,
    after: Seq<usize>,
    i: int,
    total: int,
)
    requires
        i < total,
        ({
            let obj = slot_in(mem, chunks, i);
            is_camera(mem, module, obj) && !known.contains(obj) || after == known
        }),
    ensures
        new_camera(mem, module, chunks, known, i, total) == ({
            let obj = slot_in(mem, chunks, i);
            is_camera(mem, module, obj) && !known.contains(obj) || new_camera(
                mem,
                module,
                chunks,
                after,
                i + 1,
                total,
            )
        }),
{
}

/// What is shown of a scan after an object was taken in holds of it before.
proof fn lemma_taken_in(
    mem: Answers,
    now: Times,
    module: Module,
    model: Model,
    scan: Scan,
    after: Model,
    next: Scan,
    done: Seq<Action<Seq<u8>>>,
)
    requires
        scan_begins(mem, module, model, scan),
        scan.i < scan.total,
        taken_in(mem, now, module, model, scan, after, next, done),
        scan_shown(mem, now, module, after, next),
    ensures
        scan_shown(mem, now, module, model, scan),
{
    let i = scan.i as int;
    let total = scan.total as int;
    let obj = slot_in(mem, scan.chunks, i);
    let out = finish(mem, now, module, model, Stage::Scan { scan });
    let rest = finish(mem, now, module, after, Stage::Scan { scan: next });
    let known = if is_camera(mem, module, obj) {
        model::remembered(model, obj)
    } else {
        model
    };
    lemma_all_remembered_same(mem, module, scan.chunks, after, known, i + 1, total);
    lemma_new_camera(mem, module, scan.chunks, model.known, after.known, i, total);
    let func = function_found(mem, module, scan.chunks, model.func, i, total);
    let ahead = array_calls(mem, module, scan.chunks, func, i + 1, total);
    assert(func == function_found(mem, module, scan.chunks, after.func, i + 1, total));
    lemma_calls_add(done, rest.actions);
    if model.func != 0 {
        assert(calls(out.actions) =~= array_calls(mem, module, scan.chunks, func, i, total));
    } else if is_disabler(mem, module, obj) {
        lemma_array_calls_split(mem, module, scan.chunks, func, 0, i, total);
        assert(array_calls(mem, module, scan.chunks, func, i, total) =~= ahead);
    } else {
        assert(calls(done) =~= Seq::empty());
        assert(calls(out.actions) =~= calls(rest.actions));
    }
}

/// What a scan comes to.
proof fn lemma_scan(mem: Answers, now: Times, module: Module, model: Model, scan: Scan)
    requires
        scan_begins(mem, module, model, scan),
    ensures
        scan_shown(mem, now, module, model, scan),
    decreases scan.total + ELEMENTS_PER_CHUNK - scan.i,
{
    if scan.i >= scan.total {
        lemma_scan_over(mem, now, module, model, scan);
    } else if chunk_in(mem, scan.chunks, scan.i / ELEMENTS_PER_CHUNK) == 0 {
        let next = lemma_gap_step(mem, now, module, model, scan);
        lemma_scan(mem, now, module, model, next);
        lemma_scan_gap(mem, now, module, model, scan, next);
    } else if is_camera(mem, module, slot_in(mem, scan.chunks, scan.i as int)) {
        let (after, next, done) = lemma_take_camera(mem, now, module, model, scan);
        lemma_scan(mem, now, module, after, next);
        lemma_taken_in(mem, now, module, model, scan, after, next, done);
    } else {
        let obj = slot_in(mem, scan.chunks, scan.i as int);
        let (after, done) = if model.func == 0 && is_disabler(mem, module, obj) {
            lemma_take_function(mem, now, module, model, scan)
        } else {
            lemma_take_other(mem, now, module, model, scan)
        };
        let next = past(mem, scan);
        lemma_scan(mem, now, module, after, next);
        lemma_taken_in(mem, now, module, model, scan, after, next, done);
    }
}

/// A scan counts and remembers every camera of the array, keeps the function or
/// finds one, and notes down the new baseline. If it ends with a function at hand,
/// it has called that function on every camera of the array that can be called, once
/// for each entry and in order, and nothing else; if not, it has called nothing.
/// Without an array it does nothing.
pub proof fn law_scan(mem: Answers, now: Times, module: Module, model: Model, t0: u64)
    requires
        whole(mem),
        classes_even(mem, module),
        coherent(mem, module, model),
        consistent(model, Stage::ScanOpen { t0 }),
    ensures
        ({
            let chunks = model::chunks_at(mem, module)->Ok_0;
            let total = model::count_at(mem, module)->Ok_0;
            let out = finish(mem, now, module, model, Stage::ScanOpen { t0 });
            if chunks == 0 || total == 0 {
                out == Outcome { model, actions: seq![Action::Done] }
            } else {
                &&& scan_result(mem, now, module, model, first_scan(t0, chunks, total), out)
                &&& calls(out.actions) == array_calls(
                    mem,
                    module,
                    chunks,
                    out.model.func,
                    0,
                    total as int,
                )
            }
        }),
{
    let stage = Stage::ScanOpen { t0 };
    lemma_whole(mem, module);
    let chunks = model::chunks_at(mem, module)->Ok_0;
    let total = model::count_at(mem, module)->Ok_0;
    assert(model::chunks_at(mem, module) is Ok);
    assert(model::count_at(mem, module) is Ok);
    lemma_finish_step(mem, now, module, model, stage);
    if chunks == 0 || total == 0 {
        lemma_finish_done(mem, now, module, model);
    } else {
        let scan = first_scan(t0, chunks, total);
        let out = finish(mem, now, module, model, stage);
        let rest = finish(mem, now, module, model, Stage::Scan { scan });
        lemma_scan(mem, now, module, model, scan);
        lemma_calls_add(seq![Action::Proceed], rest.actions);
        lemma_calls_one(Action::Proceed);
        assert(calls(out.actions) =~= calls(rest.actions));
    }
}

/// The cameras among the objects from number `i` on.
pub open spec fn array_cameras(
    mem: Answers,
    module: Module,
    chunks: usize,
    i: int,
    total: int,
) -> Set<usize>
    decreases total - i,
{
    if i >= total {
        Set::empty()
    } else {
        let rest = array_cameras(mem, module, chunks, i + 1, total);
        if is_camera(mem, module, slot_in(mem, chunks, i)) {
            rest.insert(slot_in(mem, chunks, i))
        } else {
            rest
        }
    }
}

/// The cameras of the array are the objects of it that are cameras.
pub proof fn law_array_cameras(
    mem: Answers,
    module: Module,
    chunks: usize,
    i: int,
    total: int,
    j: int,
)
    requires
        i <= j < total,
        is_camera(mem, module, slot_in(mem, chunks, j)),
    ensures
        array_cameras(mem, module, chunks, i, total).contains(slot_in(mem, chunks, j)),
    decreases total - i,
{
    if i < j {
        law_array_cameras(mem, module, chunks, i + 1, total, j);
    }
}

proof fn lemma_array_cameras_finite(
    mem: Answers,
    module: Module,
    chunks: usize,
    i: int,
    total: int,
)
    ensures
        array_cameras(mem, module, chunks, i, total).finite(),
    decreases total - i,
{
    if i < total {
        lemma_array_cameras_finite(mem, module, chunks, i + 1, total);
    }
}

/// As long as there is room for the known cameras and those of the array together,
/// a scan forgets none and misses none.
pub proof fn law_all_remembered(
    mem: Answers,
    module: Module,
    chunks: usize,
    model: Model,
    i: int,
    total: int,
)
    requires
        model.known.no_duplicates(),
        (model.known.to_set() + array_cameras(mem, module, chunks, i, total)).len()
            <= model::MAX_KNOWN,
    ensures
        all_remembered(mem, module, chunks, model, i, total).known.to_set() == model.known.to_set()
            + array_cameras(mem, module, chunks, i, total),
        all_remembered(mem, module, chunks, model, i, total).known.no_duplicates(),
        all_remembered(mem, module, chunks, model, i, total).cursor == model.cursor,
    decreases total - i,
{
    let here = array_cameras(mem, module, chunks, i, total);
    let all = model.known.to_set() + here;
    lemma_array_cameras_finite(mem, module, chunks, i, total);
    vstd::seq_lib::seq_to_set_is_finite(model.known);
    if i >= total {
        assert(all =~= model.known.to_set());
    } else {
        let obj = slot_in(mem, chunks, i);
        let rest = array_cameras(mem, module, chunks, i + 1, total);
        if is_camera(mem, module, obj) {
            let after = model::remembered(model, obj);
            if model.known.contains(obj) {
                assert(model.known.to_set().contains(obj));
                assert(all =~= after.known.to_set() + rest);
            } else {
                model.known.unique_seq_to_set();
                assert(!model.known.to_set().contains(obj));
                assert(model.known.to_set().insert(obj).subset_of(all));
                vstd::set_lib::lemma_len_subset(model.known.to_set().insert(obj), all);
                assert(model.known.len() < model::MAX_KNOWN);
                assert(after.known == model.known.push(obj));
                assert(after.known.to_set() =~= model.known.to_set().insert(obj)) by {
                    assert forall|c: usize| after.known.to_set().contains(c) == #[trigger]
                        model.known.to_set().insert(obj).contains(c) by {
                        if c == obj {
                            assert(after.known[model.known.len() as int] == obj);
                        } else if model.known.contains(c) {
                            let n = choose|n: int|
                                0 <= n < model.known.len() && model.known[n] == c;
                            assert(after.known[n] == c);
                        }
                    }
                }
                assert(all =~= after.known.to_set() + rest);
            }
            law_all_remembered(mem, module, chunks, after, i + 1, total);
        } else {
            assert(all =~= model.known.to_set() + rest);
            law_all_remembered(mem, module, chunks, model, i + 1, total);
        }
    }
}

/// One step of a tick adds one to the count if it is a call, and else nothing.
#[verifier::rlimit(40)]
proof fn lemma_step_counted(
    mem: Answers,
    now: Times,
    module: Module,
    model: Model,
    stage: Stage,
) -> (r: (Model, Stage, int))
    requires
        whole(mem),
        consistent(model, stage),
        !(stage is Done),
    ensures
        ({
            let out = finish(mem, now, module, model, stage);
            let rest = finish(mem, now, module, r.0, r.1);
            &&& consistent(r.0, r.1)
            &&& out.model == rest.model
            &&& calls(out.actions).len() == r.2 + calls(rest.actions).len()
            &&& r.2 == 0 || r.2 == 1
            &&& r.0.cam_calls == (model.cam_calls + r.2) % 0x1_0000_0000_0000_0000
            &&& 0 <= steps_left(r.0, r.1) < steps_left(model, stage)
        }),
{
    let step = model::step(mem, now.at(stage), module, model, stage);
    let rest = finish(mem, now, module, step.model, step.stage);
    lemma_finish_step(mem, now, module, model, stage);
    steps::law_tick_ends(mem, now.at(stage), module, model, stage);
    steps::law_call_counted(mem, now.at(stage), module, model, stage);
    lemma_calls_add(seq![step.action], rest.actions);
    lemma_calls_one(step.action);
    let n: int = if step.action is Invoke {
        1
    } else {
        0
    };
    (step.model, step.stage, n)
}

/// Every call is counted, and nothing else is: the count grows by the number of
/// calls made, and wraps around where it ends.
pub proof fn law_calls_counted(
    mem: Answers,
    now: Times,
    module: Module,
    model: Model,
    stage: Stage,
)
    requires
        whole(mem),
        consistent(model, stage),
    ensures
        ({
            let out = finish(mem, now, module, model, stage);
            out.model.cam_calls == (model.cam_calls + calls(out.actions).len()) as int
                % 0x1_0000_0000_0000_0000
        }),
    decreases steps_left(model, stage),
{
    if stage is Done {
        lemma_finish_done(mem, now, module, model);
        lemma_calls_one(Action::Done);
    } else {
        let (after, next, n) = lemma_step_counted(mem, now, module, model, stage);
        law_calls_counted(mem, now, module, after, next);
    }
}

} // verus!
