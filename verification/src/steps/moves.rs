//! Where a step of a tick leads from each stage, whatever is cached and however the
//! memory has changed since the last one.

use vstd::prelude::*;

use crate::buf::Buf;
use crate::laws::lines::{
    camera_spelled, hexadecimal, law_acquired_line, law_camera_line, spelled,
};
use crate::laws::objects::pool;
use crate::mem::{Answers, Miss, Module};
use crate::model;
use crate::model::{Action, Described, Model, Scan, Stage, Step};
use crate::names;
use crate::steps::consistent;

verus! {

/// The step waits for a read that was not answered, and leaves everything as it is.
pub open spec fn lacks(step: Step, model: Model, stage: Stage, miss: Miss) -> bool {
    &&& step.action == (Action::<Seq<u8>>::Read { addr: miss.addr, len: miss.len })
    &&& step.model == model
    &&& step.stage == stage
}

/// The step does nothing to the game and leads to a stage.
pub open spec fn leads(step: Step, model: Model, stage: Stage) -> bool {
    &&& step.action == Action::<Seq<u8>>::Proceed
    &&& step.model == model
    &&& step.stage == stage
}

/// The state with what was told of an object's class in the cache.
pub open spec fn told(model: Model, d: Option<Described>) -> Model {
    Model { classes: model::learned(model.classes, d), ..model }
}

/// A tick begins with the number of objects, and then looks whether the function is
/// still there. Without it the ticks are counted, and with it the count begins anew.
pub proof fn law_first_moves(
    answers: Answers,
    clock: Option<u64>,
    module: Module,
    model: Model,
    total: u32,
)
    ensures
        ({
            let step = model::step(answers, clock, module, model, Stage::Count);
            match model::count_at(answers, module) {
                Err(miss) => lacks(step, model, Stage::Count, miss),
                Ok(n) => leads(step, model, Stage::Function { total: n }),
            }
        }),
        ({
            let here = Stage::Function { total };
            let next = Stage::Prune { total, k: 0, w: 0 };
            let step = model::step(answers, clock, module, model, here);
            let missing = model.func_stale.wrapping_add(1);
            if model.func == 0 {
                leads(step, Model { func_stale: missing, ..model }, next)
            } else {
                match model::judged(answers, module, model, model.func) {
                    Err(miss) => lacks(step, model, here, miss),
                    Ok((true, after)) => leads(step, Model { func_stale: 0, ..after }, next),
                    Ok((false, after)) => leads(
                        step,
                        Model { func: 0, func_stale: missing, ..after },
                        next,
                    ),
                }
            }
        }),
{
}

/// The known cameras are looked at one by one. One that is still a live camera moves
/// up behind those that stay, and any other is passed over; after the last one only
/// those that stay are left, and it is known whether one had died.
pub proof fn law_prune_moves(
    answers: Answers,
    clock: Option<u64>,
    module: Module,
    model: Model,
    total: u32,
    k: usize,
    w: usize,
)
    requires
        consistent(model, Stage::Prune { total, k, w }),
    ensures
        ({
            let here = Stage::Prune { total, k, w };
            let step = model::step(answers, clock, module, model, here);
            if k >= model.known.len() {
                leads(
                    step,
                    Model { known: model.known.take(w as int), ..model },
                    Stage::Disable { total, k: 0, died: w != model.known.len() },
                )
            } else {
                let cam = model.known[k as int];
                let past = (k + 1) as usize;
                cam != 0 ==> match model::described(answers, module, model.classes, cam) {
                    Err(miss) => lacks(step, model, here, miss),
                    Ok(d) => if d is Some && d->0.class_tag == 1 {
                        leads(
                            step,
                            Model { known: model.known.update(w as int, cam), ..told(model, d) },
                            Stage::Prune { total, k: past, w: (w + 1) as usize },
                        )
                    } else {
                        leads(step, told(model, d), Stage::Prune { total, k: past, w })
                    },
                }
            }
        }),
{
}

/// The function is called on the known cameras one by one, on each that can be called
/// at that time. After the last one the tick scans if there was no scan yet, if the
/// number of objects differs, if a camera had died or there are more or fewer than the
/// last scan found, or if the function has been missing for four ticks. If not, it is
/// over.
pub proof fn law_disable_moves(
    answers: Answers,
    clock: Option<u64>,
    module: Module,
    model: Model,
    total: u32,
    k: usize,
    died: bool,
)
    requires
        consistent(model, Stage::Disable { total, k, died }),
        model.last_total <= 0xFFFF_FFFF,
    ensures
        ({
            let here = Stage::Disable { total, k, died };
            let step = model::step(answers, clock, module, model, here);
            if k < model.known.len() && model.func != 0 {
                let cam = model.known[k as int];
                let next = Stage::Disable { total, k: (k + 1) as usize, died };
                match model::target_at(answers, module, cam) {
                    Err(miss) => lacks(step, model, here, miss),
                    Ok(None) => leads(step, model, next),
                    Ok(Some(target)) => called(step, model, target, cam, next),
                }
            } else if model.last_total == 0xFFFF_FFFF || total != model.last_total || died
                || model.known.len() != model.cams_last || (model.func == 0 && model.func_stale
                >= 4) {
                leads(step, model, Stage::ScanStart)
            } else {
                &&& step.action == Action::<Seq<u8>>::Done
                &&& step.model == model
                &&& step.stage == Stage::Done
            }
        }),
{
    if k < model.known.len() {
        assert(model.known.contains(model.known[k as int]));
    }
}

/// The function at hand is called on a camera, which is counted, and nothing else
/// changes.
pub open spec fn called(step: Step, model: Model, target: usize, cam: usize, next: Stage) -> bool {
    &&& step.action == (Action::<Seq<u8>>::Invoke { target, cam, func: model.func })
    &&& step.model == Model { cam_calls: model.cam_calls.wrapping_add(1), ..model }
    &&& step.stage == next
}

/// A scan begins with the time, the table of chunks and the number of objects, as they
/// are then. Without a table or objects the tick is over, and nothing was noted down.
pub proof fn law_open_moves(
    answers: Answers,
    clock: Option<u64>,
    module: Module,
    model: Model,
    t0: u64,
)
    ensures
        ({
            let step = model::step(answers, clock, module, model, Stage::ScanStart);
            match clock {
                None => step == (Step { model, stage: Stage::ScanStart, action: Action::Clock }),
                Some(now) => leads(step, model, Stage::ScanOpen { t0: now }),
            }
        }),
        ({
            let here = Stage::ScanOpen { t0 };
            let step = model::step(answers, clock, module, model, here);
            match (model::chunks_at(answers, module), model::count_at(answers, module)) {
                (Err(miss), _) => lacks(step, model, here, miss),
                (Ok(_), Err(miss)) => lacks(step, model, here, miss),
                (Ok(chunks), Ok(total)) => if chunks != 0 && total != 0 {
                    &&& step.action == Action::<Seq<u8>>::Proceed
                    &&& step.model == model
                    &&& step.stage matches Stage::Scan { scan } && scan.t0 == t0 && scan.chunks
                        == chunks && scan.total == total && scan.i == 0 && scan.cams == 0
                        && scan.chunk_idx >= 0x1_0000
                } else {
                    &&& step.action == Action::<Seq<u8>>::Done
                    &&& step.model == model
                    &&& step.stage == Stage::Done
                },
            }
        }),
{
}

/// After the last object of a scan, the numbers of objects, cameras and scans are noted
/// down, and whether the function is missing; the time that it took follows when the
/// clock tells.
pub proof fn law_end_moves(
    answers: Answers,
    clock: Option<u64>,
    module: Module,
    model: Model,
    scan: Scan,
    t0: u64,
)
    ensures
        scan.i >= scan.total ==> leads(
            model::step(answers, clock, module, model, Stage::Scan { scan }),
            Model {
                last_total: scan.total as u64,
                cams_last: scan.cams,
                scans: model.scans.wrapping_add(1),
                func_stale: if model.func == 0 {
                    0xFFFF_FFFF
                } else {
                    0
                },
                ..model
            },
            Stage::ScanEnd { t0: scan.t0 },
        ),
        ({
            let step = model::step(answers, clock, module, model, Stage::ScanEnd { t0 });
            match clock {
                None => step == (Step {
                    model,
                    stage: Stage::ScanEnd { t0 },
                    action: Action::Clock,
                }),
                Some(now) => {
                    &&& step.action == Action::<Seq<u8>>::Done
                    &&& step.model == Model { scan_ms: now.wrapping_sub(t0), ..model }
                    &&& step.stage == Stage::Done
                },
            }
        }),
{
}

/// The chunk that the next object of a scan lies in: the one at hand if the object
/// before lay in it too, or else the one that the table names now.
pub open spec fn chunk_for(answers: Answers, scan: Scan) -> Result<usize, Miss> {
    if scan.i as int / 0x1_0000 == scan.chunk_idx {
        Ok(scan.chunk)
    } else {
        model::chunk_of(answers, scan.chunks, (scan.i as int / 0x1_0000) as u32)
    }
}

/// A scan goes over the objects in order. A chunk that is missing is passed over whole,
/// and what is null or no live object is passed over. A live camera is counted and
/// remembered, and logged if it is new; a function is judged by its name while there is
/// none, and the one that was missing is kept, logged, and called on the cameras before
/// it.
pub proof fn law_scan_moves(
    answers: Answers,
    clock: Option<u64>,
    module: Module,
    model: Model,
    scan: Scan,
)
    requires
        consistent(model, Stage::Scan { scan }),
        scan.i < scan.total,
    ensures
        ({
            let here = Stage::Scan { scan };
            let step = model::step(answers, clock, module, model, here);
            let part = scan.i as int / 0x1_0000;
            match chunk_for(answers, scan) {
                Err(miss) => lacks(step, model, here, miss),
                Ok(chunk) => {
                    let passed = Scan {
                        chunk_idx: part as u32,
                        chunk,
                        i: (scan.i + 1) as u32,
                        ..scan
                    };
                    if chunk == 0 {
                        leads(
                            step,
                            model,
                            Stage::Scan {
                                scan: Scan { i: ((part + 1) * 0x1_0000) as u32, ..passed },
                            },
                        )
                    } else {
                        match model::item_of(answers, chunk, scan.i) {
                            Err(miss) => lacks(step, model, here, miss),
                            Ok(obj) => if obj == 0 {
                                leads(step, model, Stage::Scan { scan: passed })
                            } else {
                                taken_in(answers, module, model, here, passed, obj, step)
                            },
                        }
                    }
                },
            }
        }),
{
    law_acquired_line();
}

/// The step takes an object of a scan in.
pub open spec fn taken_in(
    answers: Answers,
    module: Module,
    model: Model,
    here: Stage,
    passed: Scan,
    obj: usize,
    step: Step,
) -> bool {
    match model::described(answers, module, model.classes, obj) {
        Err(miss) => lacks(step, model, here, miss),
        Ok(d) => {
            let after = told(model, d);
            let counted = Scan { cams: (passed.cams + 1) as u64, ..passed };
            if d is Some && d->0.class_tag == 1 {
                if model.known.contains(obj) {
                    leads(step, after, Stage::DisableFound { scan: counted, cam: obj })
                } else {
                    leads(
                        step,
                        model::remembered(after, obj),
                        Stage::LogCamera { scan: counted, cam: obj },
                    )
                }
            } else if d is Some && d->0.class_tag == 2 && model.func == 0 {
                match model::name_tag_at(answers, pool(module), model.names, d->0.name_id) {
                    Err(miss) => lacks(step, model, here, miss),
                    Ok(tag) => {
                        let named = Model {
                            names: crate::cache::name_store(model.names, d->0.name_id, tag),
                            ..after
                        };
                        if tag == 1 {
                            &&& step.action == Action::Log(
                                spelled("Camera UFunction acquired"@),
                            )
                            &&& step.model == Model { func: obj, ..named }
                            &&& step.stage matches Stage::Revisit { scan, back } && scan == passed
                                && back.total == passed.i - 1 && back.i == 0 && back.chunks
                                == passed.chunks && back.chunk_idx >= 0x1_0000
                        } else {
                            leads(step, named, Stage::Scan { scan: passed })
                        }
                    },
                }
            } else {
                leads(step, after, Stage::Scan { scan: passed })
            }
        },
    }
}

/// A new camera is logged if none was before, with its address and the name of its
/// class. Then the function is called on it, if it is at hand and the camera can be
/// called, and the scan goes on.
pub proof fn law_found_moves(
    answers: Answers,
    clock: Option<u64>,
    module: Module,
    model: Model,
    scan: Scan,
    cam: usize,
)
    requires
        cam != 0,
    ensures
        ({
            let here = Stage::LogCamera { scan, cam };
            let next = Stage::DisableFound { scan, cam };
            let step = model::step(answers, clock, module, model, here);
            if model.logged {
                leads(step, model, next)
            } else {
                match names::class_name_at(answers, module, pool(module), cam, 64) {
                    Err(miss) => lacks(step, model, here, miss),
                    Ok(name) => {
                        &&& step.action == Action::Log(model::camera_line(cam, name))
                        &&& step.model == Model { logged: true, ..model }
                        &&& step.stage == next
                    },
                }
            }
        }),
        ({
            let here = Stage::DisableFound { scan, cam };
            let next = Stage::Scan { scan };
            let step = model::step(answers, clock, module, model, here);
            if model.func == 0 {
                leads(step, model, next)
            } else {
                match model::target_at(answers, module, cam) {
                    Err(miss) => lacks(step, model, here, miss),
                    Ok(None) => leads(step, model, next),
                    Ok(Some(target)) => called(step, model, target, cam, next),
                }
            }
        }),
{
}

/// On the way back the function is called on each live camera in front of it that can
/// be called at that time, and nothing else is done. Then the scan goes on where it
/// stood.
pub proof fn law_back_moves(
    answers: Answers,
    clock: Option<u64>,
    module: Module,
    model: Model,
    scan: Scan,
    back: Scan,
)
    requires
        consistent(model, Stage::Revisit { scan, back }),
    ensures
        ({
            let here = Stage::Revisit { scan, back };
            let step = model::step(answers, clock, module, model, here);
            let part = back.i as int / 0x1_0000;
            if back.i >= back.total {
                leads(step, model, Stage::Scan { scan })
            } else {
                match chunk_for(answers, back) {
                    Err(miss) => lacks(step, model, here, miss),
                    Ok(chunk) => {
                        let passed = Scan {
                            chunk_idx: part as u32,
                            chunk,
                            i: (back.i + 1) as u32,
                            ..back
                        };
                        let next = Stage::Revisit { scan, back: passed };
                        if chunk == 0 {
                            leads(
                                step,
                                model,
                                Stage::Revisit {
                                    scan,
                                    back: Scan { i: ((part + 1) * 0x1_0000) as u32, ..passed },
                                },
                            )
                        } else {
                            match model::item_of(answers, chunk, back.i) {
                                Err(miss) => lacks(step, model, here, miss),
                                Ok(obj) => if obj == 0 {
                                    leads(step, model, next)
                                } else {
                                    caught_up(answers, module, model, here, next, obj, step)
                                },
                            }
                        }
                    },
                }
            }
        }),
{
}

/// The step calls the function on an object that was passed before, if it is a live
/// camera that can be called.
pub open spec fn caught_up(
    answers: Answers,
    module: Module,
    model: Model,
    here: Stage,
    next: Stage,
    obj: usize,
    step: Step,
) -> bool {
    match model::described(answers, module, model.classes, obj) {
        Err(miss) => lacks(step, model, here, miss),
        Ok(d) => if d is Some && d->0.class_tag == 1 {
            match model::target_at(answers, module, obj) {
                Err(miss) => lacks(step, model, here, miss),
                Ok(None) => leads(step, told(model, d), next),
                Ok(Some(target)) => called(step, told(model, d), target, obj, next),
            }
        } else {
            leads(step, told(model, d), next)
        },
    }
}

/// A tick that is over stays over. Before the first one nothing is known, cached or
/// counted, and there was no scan.
pub proof fn law_ends(answers: Answers, clock: Option<u64>, module: Module, model: Model)
    ensures
        model::step(answers, clock, module, model, Stage::Done) == (Step {
            model,
            stage: Stage::Done,
            action: Action::Done,
        }),
        ({
            let first = model::fresh();
            &&& first.classes == Map::<int, (u64, u32)>::empty()
            &&& first.names == Map::<int, (u32, u32)>::empty()
            &&& first.known == Seq::<usize>::empty()
            &&& first.func == 0
            &&& first.cam_calls == 0
            &&& first.cams_last == 0
            &&& first.scan_ms == 0
            &&& first.scans == 0
            &&& first.last_total == 0xFFFF_FFFF
            &&& first.func_stale == 0
            &&& first.cursor == 0
            &&& !first.logged
        }),
{
}

/// The step logs a line when the first camera ever was found, about that camera, and
/// when a function was found that was missing, about that; and at no other time.
pub open spec fn logs_rightly(model: Model, stage: Stage, step: Step) -> bool {
    let first = !model.logged && step.model.logged;
    let acquired = model.func == 0 && step.model.func != 0;
    &&& step.action is Log <==> first || acquired
    &&& acquired ==> step.action == Action::Log(spelled("Camera UFunction acquired"@))
    &&& first ==> stage is LogCamera && camera_logged(step.action, stage->LogCamera_cam)
    &&& model.logged ==> step.model.logged
}

/// The line about a camera is logged.
pub open spec fn camera_logged(action: Action<Seq<u8>>, cam: usize) -> bool {
    exists|at: Seq<u8>, shown: Seq<u8>|
        #[trigger] camera_spelled(action->Log_0, at, shown) && hexadecimal(at, cam as int)
}

proof fn lemma_scan_logs(answers: Answers, module: Module, model: Model, scan: Scan)
    ensures
        logs_rightly(
            model,
            Stage::Scan { scan },
            model::scan_step(answers, module, model, scan),
        ),
{
    law_acquired_line();
}

proof fn lemma_back_logs(
    answers: Answers,
    module: Module,
    model: Model,
    scan: Scan,
    back: Scan,
)
    ensures
        logs_rightly(
            model,
            Stage::Revisit { scan, back },
            model::revisit_step(answers, module, model, scan, back),
        ),
{
}

proof fn lemma_function_logs(answers: Answers, module: Module, model: Model, total: u32)
    ensures
        logs_rightly(
            model,
            Stage::Function { total },
            model::function_step(answers, module, model, total),
        ),
{
}

proof fn lemma_prune_logs(
    answers: Answers,
    module: Module,
    model: Model,
    total: u32,
    k: usize,
    w: usize,
)
    ensures
        logs_rightly(
            model,
            Stage::Prune { total, k, w },
            model::prune_step(answers, module, model, total, k, w),
        ),
{
}

proof fn lemma_camera_logs(
    answers: Answers,
    module: Module,
    model: Model,
    scan: Scan,
    cam: usize,
)
    ensures
        logs_rightly(
            model,
            Stage::LogCamera { scan, cam },
            model::log_step(answers, module, model, scan, cam),
        ),
{
    let at = model::pool_of(module);
    match names::class_name_at(answers, module, at, cam, names::MAX_NAME as nat) {
        Ok(name) => {
            let line = model::camera_line(cam, name);
            let step = model::log_step(answers, module, model, scan, cam);
            law_camera_line(cam, name);
            let (at, shown) = choose|at: Seq<u8>, shown: Seq<u8>|
                #[trigger] camera_spelled(line, at, shown) && hexadecimal(at, cam as int);
            if !model.logged {
                assert(step.action == Action::Log(line));
                assert(camera_spelled(step.action->Log_0, at, shown));
                assert(camera_logged(step.action, cam));
            }
        },
        Err(_) => {},
    }
}

/// A line is logged when the first camera ever was found, about that camera, and when a
/// function was found that was missing, about that; and at no other time.
pub proof fn law_logs(
    answers: Answers,
    clock: Option<u64>,
    module: Module,
    model: Model,
    stage: Stage,
)
    ensures
        logs_rightly(model, stage, model::step(answers, clock, module, model, stage)),
{
    match stage {
        Stage::Scan { scan } => lemma_scan_logs(answers, module, model, scan),
        Stage::Revisit { scan, back } => lemma_back_logs(answers, module, model, scan, back),
        Stage::Function { total } => lemma_function_logs(answers, module, model, total),
        Stage::Prune { total, k, w } => lemma_prune_logs(answers, module, model, total, k, w),
        Stage::LogCamera { scan, cam } => lemma_camera_logs(answers, module, model, scan, cam),
        _ => {},
    }
}

/// What the caller is told to do is what the step says, and what it is told to log is
/// the line as it stands.
pub proof fn law_actions_told(action: Action<Buf>)
    ensures
        match action {
            Action::Proceed => action.plain() == Action::<Seq<u8>>::Proceed,
            Action::Read { addr, len } => action.plain() == (Action::<Seq<u8>>::Read {
                addr,
                len,
            }),
            Action::Clock => action.plain() == Action::<Seq<u8>>::Clock,
            Action::Invoke { target, cam, func } => action.plain() == (Action::<
                Seq<u8>,
            >::Invoke { target, cam, func }),
            Action::Log(line) => action.plain() == Action::<Seq<u8>>::Log(line@),
            Action::Done => action.plain() == Action::<Seq<u8>>::Done,
        },
{
}

} // verus!
