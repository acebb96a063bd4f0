//! What holds of every step of a tick.

use vstd::prelude::*;

pub mod moves;

use crate::buf;
use crate::cache::{ClassSlots, NameSlots};
use crate::mem;
use crate::mem::{Answers, Miss, Module};
use crate::model;
use crate::model::{Action, Model, Scan, Stage, Step, MAX_KNOWN};
use crate::names;
use crate::worker;
use crate::worker::{Command, Notice, Phase};

verus! {

/// A question that was answered is answered the same when more is known, and one
/// that misses a read misses one that is not known.
spec fn settled<T>(answers: Answers, now: Result<T, Miss>, later: Result<T, Miss>) -> bool {
    match now {
        Ok(_) => later == now,
        Err(miss) => !answers.dom().contains((miss.addr, miss.len)),
    }
}

proof fn lemma_numbers(answers: Answers, more: Answers, addr: usize)
    requires
        answers.submap_of(more),
    ensures
        settled(answers, mem::u16_at(answers, addr), mem::u16_at(more, addr)),
        settled(answers, mem::u32_at(answers, addr), mem::u32_at(more, addr)),
        settled(answers, mem::u64_at(answers, addr), mem::u64_at(more, addr)),
        settled(answers, mem::pointer_at(answers, addr), mem::pointer_at(more, addr)),
{
}

proof fn lemma_name(answers: Answers, more: Answers, pool: usize, id: u32, room: nat)
    requires
        answers.submap_of(more),
    ensures
        settled(
            answers,
            names::name_at(answers, pool, id, room),
            names::name_at(more, pool, id, room),
        ),
{
    lemma_numbers(answers, more, names::block_slot(pool, id));
    match mem::u64_at(answers, names::block_slot(pool, id)) {
        Ok(Some(block)) => {
            lemma_numbers(answers, more, names::entry_address(block as usize, id));
        },
        _ => {},
    }
}

proof fn lemma_class_name(
    answers: Answers,
    more: Answers,
    module: Module,
    pool: usize,
    obj: usize,
    room: nat,
)
    requires
        answers.submap_of(more),
    ensures
        settled(
            answers,
            names::class_name_at(answers, module, pool, obj, room),
            names::class_name_at(more, module, pool, obj, room),
        ),
{
    lemma_numbers(answers, more, obj.wrapping_add(names::OFF_CLASS));
    match names::class_at(answers, obj) {
        Ok(class) => {
            lemma_numbers(answers, more, class);
            lemma_numbers(answers, more, class.wrapping_add(names::OFF_NAME));
            match mem::u32_at(answers, class.wrapping_add(names::OFF_NAME)) {
                Ok(Some(id)) => {
                    lemma_name(answers, more, pool, id, room);
                },
                _ => {},
            }
        },
        _ => {},
    }
}

proof fn lemma_class_tag(answers: Answers, more: Answers, module: Module, class: usize)
    requires
        answers.submap_of(more),
    ensures
        settled(
            answers,
            model::class_tag_at(answers, module, class),
            model::class_tag_at(more, module, class),
        ),
{
    lemma_numbers(answers, more, class);
    lemma_numbers(answers, more, class.wrapping_add(names::OFF_NAME));
    match mem::u32_at(answers, class.wrapping_add(names::OFF_NAME)) {
        Ok(Some(id)) => {
            lemma_name(answers, more, model::pool_of(module), id, names::MAX_NAME as nat);
        },
        _ => {},
    }
}

proof fn lemma_described(
    answers: Answers,
    more: Answers,
    module: Module,
    classes: ClassSlots,
    obj: usize,
)
    requires
        answers.submap_of(more),
    ensures
        settled(
            answers,
            model::described(answers, module, classes, obj),
            model::described(more, module, classes, obj),
        ),
{
    match mem::raw_at(answers, obj, model::OBJ_BLOCK) {
        Ok(block) => {
            lemma_class_tag(answers, more, module, model::header_of(block).class);
        },
        _ => {},
    }
}

proof fn lemma_name_tag(answers: Answers, more: Answers, pool: usize, names: NameSlots, id: u32)
    requires
        answers.submap_of(more),
    ensures
        settled(
            answers,
            model::name_tag_at(answers, pool, names, id),
            model::name_tag_at(more, pool, names, id),
        ),
{
    lemma_name(answers, more, pool, id, names::MAX_NAME as nat);
}

proof fn lemma_judged(answers: Answers, more: Answers, module: Module, model: Model, func: usize)
    requires
        answers.submap_of(more),
    ensures
        settled(
            answers,
            model::judged(answers, module, model, func),
            model::judged(more, module, model, func),
        ),
{
    lemma_described(answers, more, module, model.classes, func);
    match model::described(answers, module, model.classes, func) {
        Ok(Some(d)) => {
            lemma_name_tag(answers, more, model::pool_of(module), model.names, d.name_id);
        },
        _ => {},
    }
}

proof fn lemma_target(answers: Answers, more: Answers, module: Module, cam: usize)
    requires
        answers.submap_of(more),
    ensures
        settled(
            answers,
            model::target_at(answers, module, cam),
            model::target_at(more, module, cam),
        ),
{
    lemma_numbers(answers, more, cam);
    match mem::u64_at(answers, cam) {
        Ok(Some(vtable)) => {
            lemma_numbers(
                answers,
                more,
                (vtable as usize).wrapping_add((model::PROCESSEVENT_IDX * 8) as usize),
            );
        },
        _ => {},
    }
}

/// A step that waits changes nothing and waits for what is not known; any other
/// step stays the same when more is known.
spec fn steady(
    answers: Answers,
    clock: Option<u64>,
    model: Model,
    stage: Stage,
    now: Step,
    later: Step,
) -> bool {
    match now.action {
        Action::Read { addr, len } => {
            &&& now.model == model
            &&& now.stage == stage
            &&& !answers.dom().contains((addr, len))
        },
        Action::Clock => now.model == model && now.stage == stage && clock is None,
        _ => later == now,
    }
}

proof fn lemma_count_step(answers: Answers, more: Answers, module: Module, model: Model)
    requires
        answers.submap_of(more),
    ensures
        steady(
            answers,
            None,
            model,
            Stage::Count,
            model::count_step(answers, module, model),
            model::count_step(more, module, model),
        ),
{
    lemma_numbers(
        answers,
        more,
        model::array_of(module).wrapping_add(model::OFF_NUM_ELEMENTS),
    );
}

proof fn lemma_function_step(
    answers: Answers,
    more: Answers,
    module: Module,
    model: Model,
    total: u32,
)
    requires
        answers.submap_of(more),
    ensures
        steady(
            answers,
            None,
            model,
            (Stage::Function { total }),
            model::function_step(answers, module, model, total),
            model::function_step(more, module, model, total),
        ),
{
    lemma_judged(answers, more, module, model, model.func);
}

proof fn lemma_prune_step(
    answers: Answers,
    more: Answers,
    module: Module,
    model: Model,
    total: u32,
    k: usize,
    w: usize,
)
    requires
        answers.submap_of(more),
    ensures
        steady(
            answers,
            None,
            model,
            (Stage::Prune { total, k, w }),
            model::prune_step(answers, module, model, total, k, w),
            model::prune_step(more, module, model, total, k, w),
        ),
{
    lemma_described(answers, more, module, model.classes, model.known[k as int]);
}

proof fn lemma_call_step(
    answers: Answers,
    more: Answers,
    module: Module,
    model: Model,
    cam: usize,
    here: Stage,
    next: Stage,
)
    requires
        answers.submap_of(more),
    ensures
        steady(
            answers,
            None,
            model,
            here,
            model::call_step(answers, module, model, cam, here, next),
            model::call_step(more, module, model, cam, here, next),
        ),
{
    lemma_target(answers, more, module, cam);
}

proof fn lemma_disable_step(
    answers: Answers,
    more: Answers,
    module: Module,
    model: Model,
    total: u32,
    k: usize,
    died: bool,
)
    requires
        answers.submap_of(more),
    ensures
        steady(
            answers,
            None,
            model,
            (Stage::Disable { total, k, died }),
            model::disable_step(answers, module, model, total, k, died),
            model::disable_step(more, module, model, total, k, died),
        ),
{
    lemma_call_step(
        answers,
        more,
        module,
        model,
        model.known[k as int],
        Stage::Disable { total, k, died },
        Stage::Disable { total, k: (k + 1) as usize, died },
    );
}

proof fn lemma_open_step(answers: Answers, more: Answers, module: Module, model: Model, t0: u64)
    requires
        answers.submap_of(more),
    ensures
        steady(
            answers,
            None,
            model,
            (Stage::ScanOpen { t0 }),
            model::open_step(answers, module, model, t0),
            model::open_step(more, module, model, t0),
        ),
{
    let array = model::array_of(module);
    lemma_numbers(answers, more, array.wrapping_add(model::OFF_NUM_CHUNKS));
    lemma_numbers(answers, more, array.wrapping_add(model::OFF_OBJECTS));
    lemma_numbers(answers, more, array.wrapping_add(model::OFF_NUM_ELEMENTS));
}

proof fn lemma_object_step(
    answers: Answers,
    more: Answers,
    module: Module,
    model: Model,
    here: Stage,
    next: Scan,
    obj: usize,
)
    requires
        answers.submap_of(more),
    ensures
        steady(
            answers,
            None,
            model,
            here,
            model::object_step(answers, module, model, here, next, obj),
            model::object_step(more, module, model, here, next, obj),
        ),
{
    lemma_described(answers, more, module, model.classes, obj);
    match model::described(answers, module, model.classes, obj) {
        Ok(Some(d)) => {
            lemma_name_tag(answers, more, model::pool_of(module), model.names, d.name_id);
        },
        _ => {},
    }
}

proof fn lemma_scan_step(answers: Answers, more: Answers, module: Module, model: Model, scan: Scan)
    requires
        answers.submap_of(more),
    ensures
        steady(
            answers,
            None,
            model,
            (Stage::Scan { scan }),
            model::scan_step(answers, module, model, scan),
            model::scan_step(more, module, model, scan),
        ),
{
    let idx = scan.i / model::ELEMENTS_PER_CHUNK;
    lemma_numbers(
        answers,
        more,
        scan.chunks.wrapping_add((idx as usize).wrapping_mul(8)),
    );
    match model::current_chunk(answers, scan) {
        Ok(chunk) => {
            lemma_numbers(
                answers,
                more,
                chunk.wrapping_add(
                    ((scan.i % model::ELEMENTS_PER_CHUNK) * model::FUOBJECT_ITEM) as usize,
                ),
            );
            match model::item_of(answers, chunk, scan.i) {
                Ok(obj) => {
                    let next = Scan { chunk_idx: idx, chunk, i: (scan.i + 1) as u32, ..scan };
                    lemma_object_step(
                        answers,
                        more,
                        module,
                        model,
                        Stage::Scan { scan },
                        next,
                        obj,
                    );
                },
                _ => {},
            }
        },
        _ => {},
    }
}

proof fn lemma_revisit_step(
    answers: Answers,
    more: Answers,
    module: Module,
    model: Model,
    scan: Scan,
    back: Scan,
)
    requires
        answers.submap_of(more),
    ensures
        steady(
            answers,
            None,
            model,
            (Stage::Revisit { scan, back }),
            model::revisit_step(answers, module, model, scan, back),
            model::revisit_step(more, module, model, scan, back),
        ),
{
    let idx = back.i / model::ELEMENTS_PER_CHUNK;
    lemma_numbers(
        answers,
        more,
        back.chunks.wrapping_add((idx as usize).wrapping_mul(8)),
    );
    match model::current_chunk(answers, back) {
        Ok(chunk) => {
            lemma_numbers(
                answers,
                more,
                chunk.wrapping_add(
                    ((back.i % model::ELEMENTS_PER_CHUNK) * model::FUOBJECT_ITEM) as usize,
                ),
            );
            match model::item_of(answers, chunk, back.i) {
                Ok(obj) => {
                    lemma_described(answers, more, module, model.classes, obj);
                    lemma_target(answers, more, module, obj);
                },
                _ => {},
            }
        },
        _ => {},
    }
}

proof fn lemma_log_step(
    answers: Answers,
    more: Answers,
    module: Module,
    model: Model,
    scan: Scan,
    cam: usize,
)
    requires
        answers.submap_of(more),
    ensures
        steady(
            answers,
            None,
            model,
            (Stage::LogCamera { scan, cam }),
            model::log_step(answers, module, model, scan, cam),
            model::log_step(more, module, model, scan, cam),
        ),
{
    lemma_class_name(
        answers,
        more,
        module,
        model::pool_of(module),
        cam,
        names::MAX_NAME as nat,
    );
}

proof fn lemma_steady(
    answers: Answers,
    clock: Option<u64>,
    more: Answers,
    later: Option<u64>,
    module: Module,
    model: Model,
    stage: Stage,
)
    requires
        answers.submap_of(more),
        clock is Some ==> later == clock,
    ensures
        steady(
            answers,
            clock,
            model,
            stage,
            model::step(answers, clock, module, model, stage),
            model::step(more, later, module, model, stage),
        ),
{
    match stage {
        Stage::Count => lemma_count_step(answers, more, module, model),
        Stage::Function { total } => lemma_function_step(answers, more, module, model, total),
        Stage::Prune { total, k, w } => lemma_prune_step(
            answers,
            more,
            module,
            model,
            total,
            k,
            w,
        ),
        Stage::Disable { total, k, died } => lemma_disable_step(
            answers,
            more,
            module,
            model,
            total,
            k,
            died,
        ),
        Stage::ScanOpen { t0 } => lemma_open_step(answers, more, module, model, t0),
        Stage::Scan { scan } => lemma_scan_step(answers, more, module, model, scan),
        Stage::LogCamera { scan, cam } => lemma_log_step(answers, more, module, model, scan, cam),
        Stage::Revisit { scan, back } => lemma_revisit_step(
            answers,
            more,
            module,
            model,
            scan,
            back,
        ),
        Stage::DisableFound { scan, cam } => lemma_call_step(
            answers,
            more,
            module,
            model,
            cam,
            stage,
            Stage::Scan { scan },
        ),
        _ => {},
    }
}

/// A step that waits, for a read or for the time, changes nothing, and what it
/// waits for is not known yet.
pub proof fn law_waiting_changes_nothing(
    answers: Answers,
    clock: Option<u64>,
    module: Module,
    model: Model,
    stage: Stage,
)
    ensures
        ({
            let step = model::step(answers, clock, module, model, stage);
            &&& step.action is Read || step.action is Clock ==> step.model == model && step.stage
                == stage
            &&& step.action matches Action::Read { addr, len } ==> !answers.dom().contains(
                (addr, len),
            )
            &&& step.action is Clock ==> clock is None
        }),
{
    lemma_steady(answers, clock, answers, clock, module, model, stage);
}

/// A step that does not wait does not change when more becomes known.
pub proof fn law_more_answers_same_step(
    answers: Answers,
    clock: Option<u64>,
    more: Answers,
    later: Option<u64>,
    module: Module,
    model: Model,
    stage: Stage,
)
    requires
        answers.submap_of(more),
        clock is Some ==> later == clock,
    ensures
        ({
            let step = model::step(answers, clock, module, model, stage);
            step.action is Read || step.action is Clock || step == model::step(
                more,
                later,
                module,
                model,
                stage,
            )
        }),
{
    lemma_steady(answers, clock, more, later, module, model, stage);
}

proof fn lemma_text_ascii(s: &str)
    requires
        s.is_ascii(),
    ensures
        buf::ascii(buf::text(s)),
{
    vstd::string::is_ascii_spec_bytes(s);
    let bytes = buf::text(s);
    assert forall|i: int| 0 <= i < bytes.len() implies #[trigger] bytes[i] < 0x80 by {
        assert(vstd::utf8::is_ascii_chars(s@));
        assert(0 <= s@[i] < 128);
    }
}

proof fn lemma_step_texts()
    ensures
        buf::ascii(buf::text(model::ACQUIRED)),
        buf::ascii(buf::text("camera 0x")),
        buf::ascii(buf::text(" '")),
{
    reveal_strlit("Camera UFunction acquired");
    reveal_strlit("camera 0x");
    reveal_strlit(" '");
    lemma_text_ascii("Camera UFunction acquired");
    lemma_text_ascii("camera 0x");
    lemma_text_ascii(" '");
}

proof fn lemma_class_name_ascii(
    answers: Answers,
    module: Module,
    pool: usize,
    obj: usize,
    room: nat,
)
    ensures
        names::class_name_at(answers, module, pool, obj, room) matches Ok(name) ==> buf::ascii(
            names::shown_name(name),
        ),
{
    match names::class_at(answers, obj) {
        Ok(class) => match mem::u32_at(answers, class.wrapping_add(names::OFF_NAME)) {
            Ok(Some(id)) => {
                crate::laws::law_name_printable(answers, pool, id, room);
            },
            _ => {},
        },
        _ => {},
    }
}

/// Every line that a tick logs is ASCII, so that it is text as it stands.
pub proof fn law_tick_logs_ascii(
    answers: Answers,
    clock: Option<u64>,
    module: Module,
    model: Model,
    stage: Stage,
)
    ensures
        model::step(answers, clock, module, model, stage).action matches Action::Log(line)
            ==> buf::ascii(line),
{
    lemma_step_texts();
    match stage {
        Stage::LogCamera { scan, cam } => {
            lemma_class_name_ascii(
                answers,
                module,
                model::pool_of(module),
                cam,
                names::MAX_NAME as nat,
            );
            crate::laws::law_digits_ascii(cam as nat, 16);
        },
        _ => {},
    }
}

/// Every line that the worker logs is ASCII, so that it is text as it stands.
pub proof fn law_worker_logs_ascii(phase: Phase, notice: Notice, model: Model)
    ensures
        worker::next(phase, notice, model).1 matches Command::Log(line) ==> buf::ascii(line),
{
    reveal_strlit("EM-Win64-Shipping.exe");
    reveal_strlit("Not loaded by EM-Win64-Shipping.exe");
    reveal_strlit(" @ 0x");
    reveal_strlit(" size=0x");
    reveal_strlit("called ");
    reveal_strlit(" times, cameras ");
    reveal_strlit(", known ");
    reveal_strlit(", walk ");
    reveal_strlit("ms x");
    reveal_strlit(", func ");
    reveal_strlit("ok");
    reveal_strlit("MISSING");
    lemma_text_ascii("EM-Win64-Shipping.exe");
    lemma_text_ascii("Not loaded by EM-Win64-Shipping.exe");
    lemma_text_ascii(" @ 0x");
    lemma_text_ascii(" size=0x");
    lemma_text_ascii("called ");
    lemma_text_ascii(" times, cameras ");
    lemma_text_ascii(", known ");
    lemma_text_ascii(", walk ");
    lemma_text_ascii("ms x");
    lemma_text_ascii(", func ");
    lemma_text_ascii("ok");
    lemma_text_ascii("MISSING");
    match phase {
        Phase::Seeking { .. } => match notice {
            Notice::Found(Some(module)) => {
                crate::laws::law_digits_ascii(module.base as nat, 16);
                crate::laws::law_digits_ascii(module.size as nat, 16);
            },
            _ => {},
        },
        Phase::Ticking { .. } => {
            crate::laws::law_digits_ascii(model.cam_calls as nat, 10);
            crate::laws::law_digits_ascii(model.cams_last as nat, 10);
            crate::laws::law_digits_ascii(model.known.len(), 10);
            crate::laws::law_digits_ascii(model.scan_ms as nat, 10);
            crate::laws::law_digits_ascii(model.scans as nat, 10);
        },
        _ => {},
    }
}

/// The cameras in force. While they are looked at one by one, those that stay
/// stand in front, and those not yet looked at behind.
pub open spec fn cameras(model: Model, stage: Stage) -> Seq<usize> {
    match stage {
        Stage::Prune { k, w, .. } => model.known.take(w as int) + if k <= model.known.len() {
            model.known.skip(k as int)
        } else {
            Seq::empty()
        },
        _ => model.known,
    }
}

/// The state and the stage fit each other: no camera is null or known twice, no
/// more are known than there is room for, and a camera that a scan has just found
/// is known.
pub open spec fn consistent(model: Model, stage: Stage) -> bool {
    &&& model::stage_ok(model, stage)
    &&& model.known.len() <= MAX_KNOWN
    &&& cameras(model, stage).no_duplicates()
    &&& !cameras(model, stage).contains(0)
    &&& match stage {
        Stage::LogCamera { cam, .. } => model.known.contains(cam),
        Stage::DisableFound { cam, .. } => model.known.contains(cam),
        _ => true,
    }
}

/// Remembering a camera keeps every camera known once.
pub proof fn law_remember_keeps_distinct(model: Model, cam: usize)
    requires
        model.known.no_duplicates(),
        !model.known.contains(0),
        model.known.len() <= MAX_KNOWN,
        cam != 0,
    ensures
        ({
            let after = model::remembered(model, cam);
            &&& after.known.no_duplicates()
            &&& !after.known.contains(0)
            &&& after.known.len() <= MAX_KNOWN
            &&& after.known.contains(cam)
        }),
{
    let after = model::remembered(model, cam);
    if !model.known.contains(cam) {
        if model.known.len() < MAX_KNOWN {
            assert(after.known[model.known.len() as int] == cam);
        } else {
            assert(after.known[(model.cursor % MAX_KNOWN) as int] == cam);
        }
    }
}

/// A camera that is remembered twice is remembered once.
pub proof fn law_remember_twice(model: Model, cam: usize)
    requires
        model.known.len() <= MAX_KNOWN,
    ensures
        model::remembered(model::remembered(model, cam), cam) == model::remembered(model, cam),
{
    let after = model::remembered(model, cam);
    if !model.known.contains(cam) {
        if model.known.len() < MAX_KNOWN {
            assert(after.known[model.known.len() as int] == cam);
        } else {
            assert(after.known[(model.cursor % MAX_KNOWN) as int] == cam);
        }
    }
}

/// While there is room no camera is forgotten for another. Without room just one
/// is, and the place that is taken moves on by one.
pub proof fn law_remember_forgets_one(model: Model, cam: usize, i: int)
    requires
        model.known.len() <= MAX_KNOWN,
        0 <= i < model.known.len(),
    ensures
        model::remembered(model, cam).known[i] == model.known[i] || {
            &&& model.known.len() == MAX_KNOWN
            &&& i == model.cursor % MAX_KNOWN
            &&& model::remembered(model, cam).cursor % MAX_KNOWN == (model.cursor + 1) as int
                % MAX_KNOWN as int
        },
{
}

proof fn lemma_prune_consistent(
    answers: Answers,
    module: Module,
    model: Model,
    total: u32,
    k: usize,
    w: usize,
)
    requires
        consistent(model, Stage::Prune { total, k, w }),
    ensures
        ({
            let step = model::prune_step(answers, module, model, total, k, w);
            consistent(step.model, step.stage)
        }),
{
    let stage = Stage::Prune { total, k, w };
    let step = model::prune_step(answers, module, model, total, k, w);
    let old_cams = cameras(model, stage);
    let new_cams = cameras(step.model, step.stage);
    if k >= model.known.len() {
        assert(new_cams =~= old_cams);
    } else if step.action is Read {
    } else {
        assert(old_cams[w as int] == model.known[k as int]);
        assert(old_cams.contains(model.known[k as int]));
        if step.stage == (Stage::Prune { total, k: (k + 1) as usize, w: (w + 1) as usize }) {
            assert(new_cams =~= old_cams);
        } else {
            assert(new_cams =~= old_cams.remove(w as int));
            assert forall|i: int, j: int|
                0 <= i < new_cams.len() && 0 <= j < new_cams.len() && i != j implies new_cams[i]
                != new_cams[j] by {
                let a = if i < w {
                    i
                } else {
                    i + 1
                };
                let b = if j < w {
                    j
                } else {
                    j + 1
                };
                assert(new_cams[i] == old_cams[a]);
                assert(new_cams[j] == old_cams[b]);
            }
            if new_cams.contains(0) {
                let i = choose|i: int| 0 <= i < new_cams.len() && new_cams[i] == 0;
                let a = if i < w {
                    i
                } else {
                    i + 1
                };
                assert(old_cams[a] == 0);
            }
        }
    }
}

proof fn lemma_scan_consistent(answers: Answers, module: Module, model: Model, scan: Scan)
    requires
        consistent(model, Stage::Scan { scan }),
    ensures
        ({
            let step = model::scan_step(answers, module, model, scan);
            consistent(step.model, step.stage)
        }),
{
    if scan.i < scan.total {
        match model::current_chunk(answers, scan) {
            Ok(chunk) => match model::item_of(answers, chunk, scan.i) {
                Ok(obj) => if chunk != 0 && obj != 0 {
                    match model::described(answers, module, model.classes, obj) {
                        Ok(d) => {
                            let after = Model {
                                classes: model::learned(model.classes, d),
                                ..model
                            };
                            law_remember_keeps_distinct(after, obj);
                        },
                        _ => {},
                    }
                },
                _ => {},
            },
            _ => {},
        }
    }
}

proof fn lemma_revisit_consistent(
    answers: Answers,
    module: Module,
    model: Model,
    scan: Scan,
    back: Scan,
)
    requires
        consistent(model, Stage::Revisit { scan, back }),
    ensures
        ({
            let step = model::revisit_step(answers, module, model, scan, back);
            consistent(step.model, step.stage)
        }),
{
}

/// Every step keeps the state and the stage fitting each other.
pub proof fn law_step_keeps_consistent(
    answers: Answers,
    clock: Option<u64>,
    module: Module,
    model: Model,
    stage: Stage,
)
    requires
        consistent(model, stage),
    ensures
        ({
            let step = model::step(answers, clock, module, model, stage);
            consistent(step.model, step.stage)
        }),
{
    match stage {
        Stage::Prune { total, k, w } => lemma_prune_consistent(
            answers,
            module,
            model,
            total,
            k,
            w,
        ),
        Stage::Scan { scan } => lemma_scan_consistent(answers, module, model, scan),
        Stage::Revisit { scan, back } => lemma_revisit_consistent(
            answers,
            module,
            model,
            scan,
            back,
        ),
        Stage::Function { total } => {
            match model::judged(answers, module, model, model.func) {
                Ok((_, after)) => {
                    assert(after.known == model.known);
                },
                _ => {},
            }
            let step = model::function_step(answers, module, model, total);
            assert(cameras(step.model, step.stage) =~= model.known);
        },
        _ => {},
    }
}

/// The first tick begins with a fitting state, and a tick that is over leaves one
/// for the next.
pub proof fn law_ticks_begin_consistent(model: Model)
    ensures
        consistent(model::fresh(), Stage::Count),
        consistent(model, Stage::Done) ==> consistent(model, Stage::Count),
{
}

/// A step calls at an address inside the image, with the function at hand and a
/// camera that is known or has just been found to be one, and counts its call; or it
/// does not call.
pub open spec fn call_allowed(
    answers: Answers,
    module: Module,
    model: Model,
    step: Step,
) -> bool {
    match step.action {
        Action::Invoke { target, cam, func } => {
            &&& module.holds(target)
            &&& func == model.func
            &&& func != 0
            &&& cam != 0
            &&& model.known.contains(cam) || (model::described(
                answers,
                module,
                model.classes,
                cam,
            ) matches Ok(Some(d)) && d.class_tag == model::TAG_CAM)
            &&& step.model == Model {
                cam_calls: model.cam_calls.wrapping_add(1),
                classes: step.model.classes,
                ..model
            }
        },
        _ => step.model.cam_calls == model.cam_calls,
    }
}

proof fn lemma_scan_calls(answers: Answers, module: Module, model: Model, scan: Scan)
    requires
        consistent(model, Stage::Scan { scan }),
    ensures
        call_allowed(answers, module, model, model::scan_step(answers, module, model, scan)),
{
}

proof fn lemma_revisit_calls(answers: Answers, module: Module, model: Model, scan: Scan, back: Scan)
    requires
        consistent(model, Stage::Revisit { scan, back }),
    ensures
        call_allowed(
            answers,
            module,
            model,
            model::revisit_step(answers, module, model, scan, back),
        ),
{
}

proof fn lemma_function_calls(answers: Answers, module: Module, model: Model, total: u32)
    ensures
        call_allowed(
            answers,
            module,
            model,
            model::function_step(answers, module, model, total),
        ),
{
}

/// The game is called only at an address inside its image, with the function at
/// hand and a camera that is known or has just been found to be one, and every call
/// is counted.
pub proof fn law_calls(
    answers: Answers,
    clock: Option<u64>,
    module: Module,
    model: Model,
    stage: Stage,
)
    requires
        consistent(model, stage),
    ensures
        call_allowed(
            answers,
            module,
            model,
            model::step(answers, clock, module, model, stage),
        ),
{
    match stage {
        Stage::Scan { scan } => lemma_scan_calls(answers, module, model, scan),
        Stage::Revisit { scan, back } => lemma_revisit_calls(answers, module, model, scan, back),
        Stage::Function { total } => lemma_function_calls(answers, module, model, total),
        _ => {},
    }
}

/// A step counts its call, if it makes one, and nothing else.
pub proof fn law_call_counted(
    answers: Answers,
    clock: Option<u64>,
    module: Module,
    model: Model,
    stage: Stage,
)
    requires
        consistent(model, stage),
    ensures
        ({
            let step = model::step(answers, clock, module, model, stage);
            step.model.cam_calls == if step.action is Invoke {
                model.cam_calls.wrapping_add(1)
            } else {
                model.cam_calls
            }
        }),
{
    law_calls(answers, clock, module, model, stage);
}

/// The steps that a scan has left, at most: three for each object, and if the
/// function is still missing, one for each object that may have to be gone back to.
pub open spec fn scan_left(func: usize, scan: Scan) -> int {
    3 * (scan.total + model::ELEMENTS_PER_CHUNK - scan.i) + 2 + if func == 0 {
        scan.total + model::ELEMENTS_PER_CHUNK + 1
    } else {
        0
    }
}

/// The steps that a tick has left, at most, without those that wait.
pub open spec fn steps_left(model: Model, stage: Stage) -> int {
    let scan_bound: int = 4 * (model::MAX_ELEMENTS + model::ELEMENTS_PER_CHUNK) + 10;
    match stage {
        Stage::Done => 0,
        Stage::ScanEnd { .. } => 1,
        Stage::Scan { scan } => scan_left(model.func, scan),
        Stage::Revisit { scan, back } => scan_left(model.func, scan) + back.total
            + model::ELEMENTS_PER_CHUNK - back.i + 1,
        Stage::DisableFound { scan, .. } => scan_left(model.func, scan) + 1,
        Stage::LogCamera { scan, .. } => scan_left(model.func, scan) + 2,
        Stage::ScanOpen { .. } => scan_bound,
        Stage::ScanStart => scan_bound + 1,
        Stage::Disable { k, .. } => scan_bound + 2 + if k < model.known.len() {
            model.known.len() - k
        } else {
            0
        },
        Stage::Prune { k, .. } => scan_bound + 3 + model.known.len() + if k < model.known.len() {
            model.known.len() - k
        } else {
            0
        },
        Stage::Function { .. } => scan_bound + 4 + 2 * model.known.len(),
        Stage::Count => scan_bound + 5 + 2 * model.known.len(),
    }
}

/// A step brings a tick closer to its end, unless it waits, and says that the tick
/// is over when it is.
pub open spec fn closer(model: Model, stage: Stage, step: Step) -> bool {
    &&& 0 <= steps_left(step.model, step.stage)
    &&& step.action is Read || step.action is Clock || stage is Done || steps_left(
        step.model,
        step.stage,
    ) < steps_left(model, stage)
    &&& step.action is Done <==> step.stage is Done
}

proof fn lemma_scan_ends(answers: Answers, module: Module, model: Model, scan: Scan)
    requires
        consistent(model, Stage::Scan { scan }),
    ensures
        closer(model, Stage::Scan { scan }, model::scan_step(answers, module, model, scan)),
{
}

proof fn lemma_revisit_ends(answers: Answers, module: Module, model: Model, scan: Scan, back: Scan)
    requires
        consistent(model, Stage::Revisit { scan, back }),
    ensures
        closer(
            model,
            Stage::Revisit { scan, back },
            model::revisit_step(answers, module, model, scan, back),
        ),
{
}

proof fn lemma_function_ends(answers: Answers, module: Module, model: Model, total: u32)
    requires
        consistent(model, Stage::Function { total }),
    ensures
        closer(
            model,
            Stage::Function { total },
            model::function_step(answers, module, model, total),
        ),
{
}

proof fn lemma_prune_ends(
    answers: Answers,
    module: Module,
    model: Model,
    total: u32,
    k: usize,
    w: usize,
)
    requires
        consistent(model, Stage::Prune { total, k, w }),
    ensures
        closer(
            model,
            Stage::Prune { total, k, w },
            model::prune_step(answers, module, model, total, k, w),
        ),
{
}

/// A tick ends: every step that does not wait brings it closer to its end, and it
/// is over only when it says so.
pub proof fn law_tick_ends(
    answers: Answers,
    clock: Option<u64>,
    module: Module,
    model: Model,
    stage: Stage,
)
    requires
        consistent(model, stage),
    ensures
        closer(model, stage, model::step(answers, clock, module, model, stage)),
{
    match stage {
        Stage::Scan { scan } => lemma_scan_ends(answers, module, model, scan),
        Stage::Revisit { scan, back } => lemma_revisit_ends(answers, module, model, scan, back),
        Stage::Function { total } => lemma_function_ends(answers, module, model, total),
        Stage::Prune { total, k, w } => lemma_prune_ends(answers, module, model, total, k, w),
        _ => {},
    }
}

/// The first camera ever found is logged, and no other: a camera is logged only
/// while none has been, and from then on one has been.
pub proof fn law_camera_logged_once(
    answers: Answers,
    clock: Option<u64>,
    module: Module,
    model: Model,
    stage: Stage,
    cam: usize,
    class_name: Seq<u8>,
)
    ensures
        ({
            let step = model::step(answers, clock, module, model, stage);
            &&& model.logged ==> step.model.logged
            &&& step.action == Action::Log(model::camera_line(cam, class_name)) ==> {
                &&& !model.logged
                &&& step.model.logged
                &&& stage is LogCamera
            }
        }),
{
    reveal_strlit("Camera UFunction acquired");
    reveal_strlit("camera 0x");
    vstd::string::is_ascii_spec_bytes("Camera UFunction acquired");
    vstd::string::is_ascii_spec_bytes("camera 0x");
    assert(buf::text(model::ACQUIRED)[0] == 67);
    assert(model::camera_line(cam, class_name)[0] == 99);
}

} // verus!
