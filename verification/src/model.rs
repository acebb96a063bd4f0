//! What one step of a tick does, stated over what is known of the memory.

use vstd::prelude::*;

use crate::cache::{ClassSlots, NameSlots};
use crate::mem;
use crate::mem::{Answers, Miss, Module};
use crate::names;
use crate::names::{OFF_NAME, SKIP_FLAGS};

verus! {

/// Where the name pool lies in the image.
pub const GNAMES_RVA: usize = 0x0747CDC0;

/// Where the object array lies in the image.
pub const GOBJECTS_RVA: usize = 0x07127C80;

/// The vtable slot of `ProcessEvent`.
pub const PROCESSEVENT_IDX: usize = 0x44;

/// Object array: its table of chunks.
pub const OFF_OBJECTS: usize = 0x00;

/// Object array: its number of elements.
pub const OFF_NUM_ELEMENTS: usize = 0x14;

/// Object array: its number of chunks.
pub const OFF_NUM_CHUNKS: usize = 0x1C;

/// The number of objects in a chunk.
pub const ELEMENTS_PER_CHUNK: u32 = 0x1_0000;

/// The size of one entry of a chunk.
pub const FUOBJECT_ITEM: usize = 0x18;

/// An array that claims more elements than this is not believed.
pub const MAX_ELEMENTS: u32 = 8_000_000;

/// A table that claims more chunks than this is not believed.
pub const MAX_CHUNKS: u32 = 0x1000;

/// The size of an object's header.
pub const OBJ_BLOCK: usize = 0x28;

pub const CAM_CLASS: &'static str = "PlayerCameraComponent";

pub const FUNC_CLASS: &'static str = "Function";

pub const DISABLE_NAME: &'static str = "DisableCameraDither";

/// The log line for a function that was found.
pub const ACQUIRED: &'static str = "Camera UFunction acquired";

/// Classes that are neither cameras nor functions; names of other functions.
pub const TAG_OTHER: u32 = 0;

/// The class of cameras.
pub const TAG_CAM: u32 = 1;

/// The class of functions.
pub const TAG_FUNC: u32 = 2;

/// The name of the function that disables dithering.
pub const TAG_DISABLE: u32 = 1;

/// At most this many cameras are remembered.
pub const MAX_KNOWN: usize = 64;

/// The array's size before the first scan.
pub const NO_TOTAL: u64 = 0xFFFF_FFFF;

/// Ticks without the function after which it is searched again.
pub const STALE_TICKS: u64 = 4;

/// What is known of an object: its class with the tag of it, and the id of its
/// name.
#[derive(Clone, Copy, Debug, PartialEq, Eq, Structural)]
pub struct Described {
    pub class: usize,
    pub class_tag: u32,
    pub name_id: u32,
}

/// How far a scan of the object array has come.
#[derive(Clone, Copy, Debug, PartialEq, Eq, Structural)]
pub struct Scan {
    /// When it began.
    pub t0: u64,
    /// The table of chunks.
    pub chunks: usize,
    /// The number of objects.
    pub total: u32,
    /// The chunk that was looked up last: its number and its address.
    pub chunk_idx: u32,
    pub chunk: usize,
    /// The cameras found so far.
    pub cams: u64,
    /// The next object.
    pub i: u32,
}

/// How far a tick has come.
#[derive(Clone, Copy, Debug, PartialEq, Eq, Structural)]
pub enum Stage {
    /// Count the objects.
    Count,
    /// Check that the function is still there.
    Function { total: u32 },
    /// Drop the cameras that are gone: `k` were looked at, `w` of them stay.
    Prune { total: u32, k: usize, w: usize },
    /// Call the function on each camera: `k` are done. Some camera had `died`, or none.
    Disable { total: u32, k: usize, died: bool },
    /// Ask when the scan begins.
    ScanStart,
    /// Find the object array.
    ScanOpen { t0: u64 },
    /// Look at the next object.
    Scan { scan: Scan },
    /// Log the first camera ever found.
    LogCamera { scan: Scan, cam: usize },
    /// Call the function on a camera that was found.
    DisableFound { scan: Scan, cam: usize },
    /// Call the function, just acquired, on the cameras that the scan had passed
    /// before: `back` goes over the objects in front of it.
    Revisit { scan: Scan, back: Scan },
    /// Ask when the scan ended.
    ScanEnd { t0: u64 },
    /// The tick is over.
    Done,
}

/// What the caller has to do before the next step.
#[derive(Debug)]
pub enum Action<L> {
    /// Nothing.
    Proceed,
    /// Read memory, and record the answer.
    Read { addr: usize, len: usize },
    /// Tell the time.
    Clock,
    /// Call `target(cam, func, null)` in the game.
    Invoke { target: usize, cam: usize, func: usize },
    /// Write a line to the log.
    Log(L),
    /// Nothing any more: the tick is over.
    Done,
}

/// Everything that is kept from one tick to the next.
pub struct Model {
    /// The tags of classes.
    pub classes: ClassSlots,
    /// The tags of names.
    pub names: NameSlots,
    /// The function that disables dithering, or null.
    pub func: usize,
    /// How often the function was called.
    pub cam_calls: u64,
    /// The number of cameras that the last scan found.
    pub cams_last: u64,
    /// The cameras remembered.
    pub known: Seq<usize>,
    /// How long the last scan took, in milliseconds.
    pub scan_ms: u64,
    /// The number of scans.
    pub scans: u64,
    /// The number of objects at the last scan.
    pub last_total: u64,
    /// Ticks in a row without the function.
    pub func_stale: u64,
    /// The camera that is forgotten next when too many are known.
    pub cursor: usize,
    /// A camera was logged.
    pub logged: bool,
}

/// The state before the first tick.
pub open spec fn fresh() -> Model {
    Model {
        classes: Map::empty(),
        names: Map::empty(),
        func: 0,
        cam_calls: 0,
        cams_last: 0,
        known: Seq::empty(),
        scan_ms: 0,
        scans: 0,
        last_total: NO_TOTAL,
        func_stale: 0,
        cursor: 0,
        logged: false,
    }
}

/// The name pool of a module.
pub open spec fn pool_of(module: Module) -> usize {
    module.base.wrapping_add(GNAMES_RVA)
}

/// The object array of a module.
pub open spec fn array_of(module: Module) -> usize {
    module.base.wrapping_add(GOBJECTS_RVA)
}

/// The number of objects: zero where it cannot be read or believed.
pub open spec fn count_at(answers: Answers, module: Module) -> Result<u32, Miss> {
    match mem::u32_at(answers, array_of(module).wrapping_add(OFF_NUM_ELEMENTS)) {
        Err(miss) => Err(miss),
        Ok(None) => Ok(0),
        Ok(Some(n)) => Ok(
            if n <= MAX_ELEMENTS {
                n
            } else {
                0
            },
        ),
    }
}

/// The table of chunks: null where it cannot be read or believed.
pub open spec fn chunks_at(answers: Answers, module: Module) -> Result<usize, Miss> {
    match mem::u32_at(answers, array_of(module).wrapping_add(OFF_NUM_CHUNKS)) {
        Err(miss) => Err(miss),
        Ok(None) => Ok(0),
        Ok(Some(n)) => if 0 < n <= MAX_CHUNKS {
            mem::pointer_at(answers, array_of(module).wrapping_add(OFF_OBJECTS))
        } else {
            Ok(0)
        },
    }
}

/// The chunk number `idx` of a table: null where there is none.
pub open spec fn chunk_of(answers: Answers, chunks: usize, idx: u32) -> Result<usize, Miss> {
    if chunks == 0 {
        Ok(0)
    } else {
        mem::pointer_at(answers, chunks.wrapping_add((idx as usize).wrapping_mul(8)))
    }
}

/// The object number `index` of the array, in its chunk: null where there is none.
pub open spec fn item_of(answers: Answers, chunk: usize, index: u32) -> Result<usize, Miss> {
    if chunk == 0 {
        Ok(0)
    } else {
        mem::pointer_at(
            answers,
            chunk.wrapping_add(((index % ELEMENTS_PER_CHUNK) * FUOBJECT_ITEM) as usize),
        )
    }
}

/// An object's header.
pub struct Header {
    pub vtable: usize,
    pub flags: u32,
    pub class: usize,
    pub name_id: u32,
}

/// The header that a block of memory holds.
pub open spec fn header_of(block: Seq<u8>) -> Header {
    Header {
        vtable: mem::le(block.subrange(0, 8)) as u64 as usize,
        flags: mem::le(block.subrange(8, 12)) as u32,
        class: mem::le(block.subrange(0x10, 0x18)) as u64 as usize,
        name_id: mem::le(block.subrange(0x18, 0x1C)) as u32,
    }
}

/// The object may be a live instance: its vtable lies in the image, its flags do
/// not rule it out, and it has a class.
pub open spec fn plausible(header: Header, module: Module) -> bool {
    &&& header.vtable != 0
    &&& module.holds(header.vtable)
    &&& header.flags & SKIP_FLAGS == 0
    &&& header.class != 0
}

/// The tag of a class with the given name.
pub open spec fn class_tag_of(name: Seq<u8>) -> u32 {
    if names::same_name(name, crate::buf::text(CAM_CLASS)) {
        TAG_CAM
    } else if names::same_name(name, crate::buf::text(FUNC_CLASS)) {
        TAG_FUNC
    } else {
        TAG_OTHER
    }
}

/// The tag of a function with the given name.
pub open spec fn name_tag_of(name: Seq<u8>) -> u32 {
    if name.len() > 0 && names::same_name(name, crate::buf::text(DISABLE_NAME)) {
        TAG_DISABLE
    } else {
        TAG_OTHER
    }
}

/// The tag of a class, from memory: none where it is no class, that is, where its
/// vtable does not lie in the image or its name cannot be resolved.
pub open spec fn class_tag_at(answers: Answers, module: Module, class: usize) -> Result<
    Option<u32>,
    Miss,
> {
    match mem::u64_at(answers, class) {
        Err(miss) => Err(miss),
        Ok(None) => Ok(None),
        Ok(Some(vtable)) => if vtable == 0 || !module.holds(vtable as usize) {
            Ok(None)
        } else {
            match mem::u32_at(answers, class.wrapping_add(OFF_NAME)) {
                Err(miss) => Err(miss),
                Ok(None) => Ok(None),
                Ok(Some(id)) => match names::name_at(
                    answers,
                    pool_of(module),
                    id,
                    names::MAX_NAME as nat,
                ) {
                    Err(miss) => Err(miss),
                    Ok(name) => Ok(
                        if name.len() == 0 {
                            None
                        } else {
                            Some(class_tag_of(name))
                        },
                    ),
                },
            }
        },
    }
}

/// The tag of a class, from the cache or else from memory.
pub open spec fn class_tag(
    answers: Answers,
    module: Module,
    classes: ClassSlots,
    class: usize,
) -> Result<Option<u32>, Miss> {
    match crate::cache::class_lookup(classes, class) {
        Some(tag) => Ok(Some(tag)),
        None => class_tag_at(answers, module, class),
    }
}

/// What an object is: nothing where it is not a live object.
pub open spec fn described(
    answers: Answers,
    module: Module,
    classes: ClassSlots,
    obj: usize,
) -> Result<Option<Described>, Miss> {
    match mem::raw_at(answers, obj, OBJ_BLOCK) {
        Err(miss) => Err(miss),
        Ok(block) => {
            let header = header_of(block);
            if block.len() != OBJ_BLOCK || !plausible(header, module) {
                Ok(None)
            } else {
                match class_tag(answers, module, classes, header.class) {
                    Err(miss) => Err(miss),
                    Ok(None) => Ok(None),
                    Ok(Some(tag)) => Ok(
                        Some(
                            Described {
                                class: header.class,
                                class_tag: tag,
                                name_id: header.name_id,
                            },
                        ),
                    ),
                }
            }
        },
    }
}

/// The cache of classes after an object was described.
pub open spec fn learned(classes: ClassSlots, d: Option<Described>) -> ClassSlots {
    match d {
        None => classes,
        Some(d) => crate::cache::class_store(classes, d.class, d.class_tag),
    }
}

/// The tag of a function's name, from the cache or else from memory.
pub open spec fn name_tag_at(answers: Answers, pool: usize, names: NameSlots, id: u32) -> Result<
    u32,
    Miss,
> {
    match crate::cache::name_lookup(names, id) {
        Some(tag) => Ok(tag),
        None => match names::name_at(answers, pool, id, names::MAX_NAME as nat) {
            Err(miss) => Err(miss),
            Ok(name) => Ok(name_tag_of(name)),
        },
    }
}

/// Whether an object is the function that disables dithering, and what is cached
/// after that was found out.
pub open spec fn judged(answers: Answers, module: Module, model: Model, func: usize) -> Result<
    (bool, Model),
    Miss,
> {
    match described(answers, module, model.classes, func) {
        Err(miss) => Err(miss),
        Ok(d) => {
            let after = Model { classes: learned(model.classes, d), ..model };
            if d is Some && d->0.class_tag == TAG_FUNC {
                match name_tag_at(answers, pool_of(module), model.names, d->0.name_id) {
                    Err(miss) => Err(miss),
                    Ok(tag) => Ok(
                        (
                            tag == TAG_DISABLE,
                            Model {
                                names: crate::cache::name_store(
                                    model.names,
                                    d->0.name_id,
                                    tag,
                                ),
                                ..after
                            },
                        ),
                    ),
                }
            } else {
                Ok((false, after))
            }
        },
    }
}

/// The address of `ProcessEvent` for a camera: none where its vtable or the
/// address does not lie in the image.
pub open spec fn target_at(answers: Answers, module: Module, cam: usize) -> Result<
    Option<usize>,
    Miss,
> {
    match mem::u64_at(answers, cam) {
        Err(miss) => Err(miss),
        Ok(None) => Ok(None),
        Ok(Some(vtable)) => if vtable == 0 || !module.holds(vtable as usize) {
            Ok(None)
        } else {
            match mem::u64_at(
                answers,
                (vtable as usize).wrapping_add((PROCESSEVENT_IDX * 8) as usize),
            ) {
                Err(miss) => Err(miss),
                Ok(None) => Ok(None),
                Ok(Some(target)) => Ok(
                    if target == 0 || !module.holds(target as usize) {
                        None
                    } else {
                        Some(target as usize)
                    },
                ),
            }
        },
    }
}

/// The state once a camera is remembered. It joins the known ones, or takes the
/// place of one of them if there is no room.
pub open spec fn remembered(model: Model, cam: usize) -> Model {
    if model.known.contains(cam) {
        model
    } else if model.known.len() < MAX_KNOWN {
        Model { known: model.known.push(cam), ..model }
    } else {
        Model {
            known: model.known.update((model.cursor % MAX_KNOWN) as int, cam),
            cursor: model.cursor.wrapping_add(1),
            ..model
        }
    }
}

/// Something may have changed since the last scan: there was none, the number of
/// objects differs, a known camera died or there are not as many as the scan found,
/// or the function has been missing for a while.
pub open spec fn scan_needed(model: Model, total: u32, died: bool) -> bool {
    ||| model.last_total == NO_TOTAL
    ||| total != model.last_total as u32
    ||| died
    ||| model.known.len() != model.cams_last
    ||| model.func == 0 && model.func_stale >= STALE_TICKS
}

/// The line that tells of a camera.
pub open spec fn camera_line(cam: usize, class_name: Seq<u8>) -> Seq<u8> {
    crate::buf::text("camera 0x") + crate::buf::padded(crate::buf::digits(cam as nat, 16), 0)
        + crate::buf::text(" '") + names::shown_name(class_name) + seq![39u8]
}

/// One step: the state and the stage after it, and what to do before the next one.
pub struct Step {
    pub model: Model,
    pub stage: Stage,
    pub action: Action<Seq<u8>>,
}

/// A step that waits for a read: nothing moves.
pub open spec fn waiting(model: Model, stage: Stage, miss: Miss) -> Step {
    Step { model, stage, action: Action::Read { addr: miss.addr, len: miss.len } }
}

/// A step that asks for nothing.
pub open spec fn proceeding(model: Model, stage: Stage) -> Step {
    Step { model, stage, action: Action::Proceed }
}

/// Counts the objects.
pub open spec fn count_step(answers: Answers, module: Module, model: Model) -> Step {
    match count_at(answers, module) {
        Err(miss) => waiting(model, Stage::Count, miss),
        Ok(total) => proceeding(model, Stage::Function { total }),
    }
}

/// Forgets the function if it is no longer there, and counts the ticks without it.
pub open spec fn function_step(
    answers: Answers,
    module: Module,
    model: Model,
    total: u32,
) -> Step {
    let next = Stage::Prune { total, k: 0, w: 0 };
    if model.func == 0 {
        proceeding(Model { func_stale: model.func_stale.wrapping_add(1), ..model }, next)
    } else {
        match judged(answers, module, model, model.func) {
            Err(miss) => waiting(model, Stage::Function { total }, miss),
            Ok((is_it, after)) => if is_it {
                proceeding(Model { func_stale: 0, ..after }, next)
            } else {
                proceeding(
                    Model { func: 0, func_stale: model.func_stale.wrapping_add(1), ..after },
                    next,
                )
            },
        }
    }
}

/// Looks at one known camera: it moves up behind those that stay, or is passed
/// over. After the last one the rest is cut off.
pub open spec fn prune_step(
    answers: Answers,
    module: Module,
    model: Model,
    total: u32,
    k: usize,
    w: usize,
) -> Step {
    if k >= model.known.len() {
        proceeding(
            Model { known: model.known.take(w as int), ..model },
            Stage::Disable { total, k: 0, died: w < model.known.len() },
        )
    } else if model.known[k as int] == 0 {
        proceeding(model, Stage::Prune { total, k: (k + 1) as usize, w })
    } else {
        match described(answers, module, model.classes, model.known[k as int]) {
            Err(miss) => waiting(model, Stage::Prune { total, k, w }, miss),
            Ok(d) => {
                let after = Model { classes: learned(model.classes, d), ..model };
                if d is Some && d->0.class_tag == TAG_CAM {
                    proceeding(
                        Model {
                            known: model.known.update(w as int, model.known[k as int]),
                            ..after
                        },
                        Stage::Prune { total, k: (k + 1) as usize, w: (w + 1) as usize },
                    )
                } else {
                    proceeding(after, Stage::Prune { total, k: (k + 1) as usize, w })
                }
            },
        }
    }
}

/// The call of the function on a camera, where there is a function and the
/// camera can be called.
pub open spec fn call_step(
    answers: Answers,
    module: Module,
    model: Model,
    cam: usize,
    here: Stage,
    next: Stage,
) -> Step {
    if model.func == 0 || cam == 0 {
        proceeding(model, next)
    } else {
        match target_at(answers, module, cam) {
            Err(miss) => waiting(model, here, miss),
            Ok(None) => proceeding(model, next),
            Ok(Some(target)) => Step {
                model: Model { cam_calls: model.cam_calls.wrapping_add(1), ..model },
                stage: next,
                action: Action::Invoke { target, cam, func: model.func },
            },
        }
    }
}

/// Calls the function on the next known camera. After the last one the tick is
/// over, unless a scan is needed.
pub open spec fn disable_step(
    answers: Answers,
    module: Module,
    model: Model,
    total: u32,
    k: usize,
    died: bool,
) -> Step {
    if model.func != 0 && k < model.known.len() {
        call_step(
            answers,
            module,
            model,
            model.known[k as int],
            Stage::Disable { total, k, died },
            Stage::Disable { total, k: (k + 1) as usize, died },
        )
    } else if scan_needed(model, total, died) {
        proceeding(model, Stage::ScanStart)
    } else {
        Step { model, stage: Stage::Done, action: Action::Done }
    }
}

/// Finds the object array. Without one the scan does not take place.
pub open spec fn open_step(answers: Answers, module: Module, model: Model, t0: u64) -> Step {
    match chunks_at(answers, module) {
        Err(miss) => waiting(model, Stage::ScanOpen { t0 }, miss),
        Ok(chunks) => match count_at(answers, module) {
            Err(miss) => waiting(model, Stage::ScanOpen { t0 }, miss),
            Ok(total) => if chunks == 0 || total == 0 {
                Step { model, stage: Stage::Done, action: Action::Done }
            } else {
                proceeding(
                    model,
                    Stage::Scan {
                        scan: Scan {
                            t0,
                            chunks,
                            total,
                            chunk_idx: u32::MAX,
                            chunk: 0,
                            cams: 0,
                            i: 0,
                        },
                    },
                )
            },
        },
    }
}

/// The state after a scan.
pub open spec fn scanned(model: Model, scan: Scan) -> Model {
    Model {
        last_total: scan.total as u64,
        func_stale: if model.func == 0 {
            u32::MAX as u64
        } else {
            0
        },
        cams_last: scan.cams,
        scans: model.scans.wrapping_add(1),
        ..model
    }
}

/// The chunk of the next object: the one at hand, or the one that the table names.
pub open spec fn current_chunk(answers: Answers, scan: Scan) -> Result<usize, Miss> {
    if scan.i / ELEMENTS_PER_CHUNK == scan.chunk_idx {
        Ok(scan.chunk)
    } else {
        chunk_of(answers, scan.chunks, scan.i / ELEMENTS_PER_CHUNK)
    }
}

/// The way back over the objects in front of number `n`.
pub open spec fn way_back(scan: Scan, n: u32) -> Scan {
    Scan { total: n, chunk_idx: u32::MAX, chunk: 0, cams: 0, i: 0, ..scan }
}

/// Takes one object in: a camera is remembered, and a function kept if it is the
/// one that was missing. The cameras in front of that function are then gone back
/// to.
pub open spec fn object_step(
    answers: Answers,
    module: Module,
    model: Model,
    here: Stage,
    next: Scan,
    obj: usize,
) -> Step {
    match described(answers, module, model.classes, obj) {
        Err(miss) => waiting(model, here, miss),
        Ok(d) => {
            let after = Model { classes: learned(model.classes, d), ..model };
            if d is Some && d->0.class_tag == TAG_CAM {
                let scan = Scan { cams: (next.cams + 1) as u64, ..next };
                if model.known.contains(obj) {
                    proceeding(after, Stage::DisableFound { scan, cam: obj })
                } else {
                    proceeding(remembered(after, obj), Stage::LogCamera { scan, cam: obj })
                }
            } else if d is Some && d->0.class_tag == TAG_FUNC && model.func == 0 {
                match name_tag_at(answers, pool_of(module), model.names, d->0.name_id) {
                    Err(miss) => waiting(model, here, miss),
                    Ok(tag) => {
                        let named = Model {
                            names: crate::cache::name_store(model.names, d->0.name_id, tag),
                            ..after
                        };
                        if tag == TAG_DISABLE {
                            Step {
                                model: Model { func: obj, ..named },
                                stage: Stage::Revisit {
                                    scan: next,
                                    back: way_back(next, (next.i - 1) as u32),
                                },
                                action: Action::Log(crate::buf::text(ACQUIRED)),
                            }
                        } else {
                            proceeding(named, Stage::Scan { scan: next })
                        }
                    },
                }
            } else {
                proceeding(after, Stage::Scan { scan: next })
            }
        },
    }
}

/// Looks at the next object of a scan. A chunk that is missing is passed over
/// whole; after the last object the scan is noted down.
pub open spec fn scan_step(answers: Answers, module: Module, model: Model, scan: Scan) -> Step {
    let here = Stage::Scan { scan };
    let idx = scan.i / ELEMENTS_PER_CHUNK;
    if scan.i >= scan.total {
        proceeding(scanned(model, scan), Stage::ScanEnd { t0: scan.t0 })
    } else {
        match current_chunk(answers, scan) {
            Err(miss) => waiting(model, here, miss),
            Ok(chunk) => if chunk == 0 {
                proceeding(
                    model,
                    Stage::Scan {
                        scan: Scan {
                            chunk_idx: idx,
                            chunk,
                            i: ((idx + 1) * ELEMENTS_PER_CHUNK) as u32,
                            ..scan
                        },
                    },
                )
            } else {
                match item_of(answers, chunk, scan.i) {
                    Err(miss) => waiting(model, here, miss),
                    Ok(obj) => {
                        let next = Scan {
                            chunk_idx: idx,
                            chunk,
                            i: (scan.i + 1) as u32,
                            ..scan
                        };
                        if obj == 0 {
                            proceeding(model, Stage::Scan { scan: next })
                        } else {
                            object_step(answers, module, model, here, next, obj)
                        }
                    },
                }
            },
        }
    }
}

/// Calls the function on one object that a scan had passed before, if it is a
/// camera that can be called.
pub open spec fn missed_step(
    answers: Answers,
    module: Module,
    model: Model,
    here: Stage,
    next: Stage,
    obj: usize,
) -> Step {
    match described(answers, module, model.classes, obj) {
        Err(miss) => waiting(model, here, miss),
        Ok(d) => {
            let after = Model { classes: learned(model.classes, d), ..model };
            if d is Some && d->0.class_tag == TAG_CAM {
                match target_at(answers, module, obj) {
                    Err(miss) => waiting(model, here, miss),
                    Ok(None) => proceeding(after, next),
                    Ok(Some(target)) => Step {
                        model: Model { cam_calls: model.cam_calls.wrapping_add(1), ..after },
                        stage: next,
                        action: Action::Invoke { target, cam: obj, func: model.func },
                    },
                }
            } else {
                proceeding(after, next)
            }
        },
    }
}

/// Goes back to the next object in front of the function. After the last one the
/// scan goes on.
pub open spec fn revisit_step(
    answers: Answers,
    module: Module,
    model: Model,
    scan: Scan,
    back: Scan,
) -> Step {
    let here = Stage::Revisit { scan, back };
    let idx = back.i / ELEMENTS_PER_CHUNK;
    if back.i >= back.total {
        proceeding(model, Stage::Scan { scan })
    } else {
        match current_chunk(answers, back) {
            Err(miss) => waiting(model, here, miss),
            Ok(chunk) => if chunk == 0 {
                proceeding(
                    model,
                    Stage::Revisit {
                        scan,
                        back: Scan {
                            chunk_idx: idx,
                            chunk,
                            i: ((idx + 1) * ELEMENTS_PER_CHUNK) as u32,
                            ..back
                        },
                    },
                )
            } else {
                match item_of(answers, chunk, back.i) {
                    Err(miss) => waiting(model, here, miss),
                    Ok(obj) => {
                        let next = Stage::Revisit {
                            scan,
                            back: Scan {
                                chunk_idx: idx,
                                chunk,
                                i: (back.i + 1) as u32,
                                ..back
                            },
                        };
                        if obj == 0 {
                            proceeding(model, next)
                        } else {
                            missed_step(answers, module, model, here, next, obj)
                        }
                    },
                }
            },
        }
    }
}

/// Logs a camera, if it is the first one ever.
pub open spec fn log_step(
    answers: Answers,
    module: Module,
    model: Model,
    scan: Scan,
    cam: usize,
) -> Step {
    let next = Stage::DisableFound { scan, cam };
    if model.logged {
        proceeding(model, next)
    } else {
        match names::class_name_at(
            answers,
            module,
            pool_of(module),
            cam,
            names::MAX_NAME as nat,
        ) {
            Err(miss) => waiting(model, Stage::LogCamera { scan, cam }, miss),
            Ok(name) => Step {
                model: Model { logged: true, ..model },
                stage: next,
                action: Action::Log(camera_line(cam, name)),
            },
        }
    }
}

/// One step of a tick, with what is known of the memory and of the time.
pub open spec fn step(
    answers: Answers,
    clock: Option<u64>,
    module: Module,
    model: Model,
    stage: Stage,
) -> Step {
    match stage {
        Stage::Count => count_step(answers, module, model),
        Stage::Function { total } => function_step(answers, module, model, total),
        Stage::Prune { total, k, w } => prune_step(answers, module, model, total, k, w),
        Stage::Disable { total, k, died } => disable_step(
            answers,
            module,
            model,
            total,
            k,
            died,
        ),
        Stage::ScanStart => match clock {
            None => Step { model, stage, action: Action::Clock },
            Some(now) => proceeding(model, Stage::ScanOpen { t0: now }),
        },
        Stage::ScanOpen { t0 } => open_step(answers, module, model, t0),
        Stage::Scan { scan } => scan_step(answers, module, model, scan),
        Stage::LogCamera { scan, cam } => log_step(answers, module, model, scan, cam),
        Stage::DisableFound { scan, cam } => call_step(
            answers,
            module,
            model,
            cam,
            stage,
            Stage::Scan { scan },
        ),
        Stage::Revisit { scan, back } => revisit_step(answers, module, model, scan, back),
        Stage::ScanEnd { t0 } => match clock {
            None => Step { model, stage, action: Action::Clock },
            Some(now) => Step {
                model: Model { scan_ms: now.wrapping_sub(t0), ..model },
                stage: Stage::Done,
                action: Action::Done,
            },
        },
        Stage::Done => Step { model, stage, action: Action::Done },
    }
}

/// The numbers that a stage holds belong together, and to the state.
pub open spec fn stage_ok(model: Model, stage: Stage) -> bool {
    match stage {
        Stage::Prune { k, w, .. } => w <= k && w <= model.known.len(),
        Stage::Scan { scan } => scan_ok(scan),
        Stage::LogCamera { scan, cam } => scan_ok(scan) && cam != 0,
        Stage::DisableFound { scan, cam } => scan_ok(scan) && cam != 0,
        Stage::Revisit { scan, back } => {
            &&& scan_ok(scan)
            &&& scan_ok(back)
            &&& back.total < scan.i
            &&& back.total < scan.total
            &&& model.func != 0
        },
        _ => true,
    }
}

/// A scan goes over no more objects than are believed, and counts none twice.
pub open spec fn scan_ok(scan: Scan) -> bool {
    &&& scan.total <= MAX_ELEMENTS
    &&& scan.i <= scan.total + ELEMENTS_PER_CHUNK
    &&& scan.cams <= scan.i
    &&& scan.chunk_idx == scan.i / ELEMENTS_PER_CHUNK ==> scan.chunk != 0
}

} // verus!
