//! Finds the game's cameras and has dithering disabled on each of them.
//!
//! A tick runs in steps. Each call of `tick` takes one step as far as it can with
//! what is known of the memory and of the time, and says what the caller has to do
//! before the next one.

use vstd::prelude::*;

use crate::buf::Buf;
use crate::cache::{ClassCache, NameCache};
use crate::mem::{le_number, read_pointer, read_u32, read_u64, Memory, Miss, Module};
use crate::model::{
    Action, Described, Model, Scan, Stage, ACQUIRED, CAM_CLASS, DISABLE_NAME, ELEMENTS_PER_CHUNK,
    FUNC_CLASS, FUOBJECT_ITEM, GNAMES_RVA, GOBJECTS_RVA, MAX_CHUNKS, MAX_ELEMENTS, MAX_KNOWN,
    NO_TOTAL, OBJ_BLOCK, OFF_NUM_CHUNKS, OFF_NUM_ELEMENTS, OFF_OBJECTS, PROCESSEVENT_IDX,
    STALE_TICKS, TAG_CAM, TAG_DISABLE, TAG_FUNC, TAG_OTHER,
};
use crate::names::{push_class_name, read_fname, MAX_NAME, OFF_NAME, SKIP_FLAGS};

verus! {

/// Everything that is kept from one tick to the next.
#[derive(Debug)]
pub struct State {
    classes: ClassCache,
    names: NameCache,
    func: usize,
    cam_calls: u64,
    cams_last: u64,
    known: Vec<usize>,
    scan_ms: u64,
    scans: u64,
    last_total: u64,
    func_stale: u64,
    cursor: usize,
    logged: bool,
}

impl View for State {
    type V = Model;

    closed spec fn view(&self) -> Model {
        Model {
            classes: self.classes@,
            names: self.names@,
            func: self.func,
            cam_calls: self.cam_calls,
            cams_last: self.cams_last,
            known: self.known@,
            scan_ms: self.scan_ms,
            scans: self.scans,
            last_total: self.last_total,
            func_stale: self.func_stale,
            cursor: self.cursor,
            logged: self.logged,
        }
    }
}

impl State {
    /// The caches are whole, and no more cameras are known than there is room for.
    pub closed spec fn wf(&self) -> bool {
        &&& self.classes.wf()
        &&& self.names.wf()
        &&& self.known@.len() <= MAX_KNOWN
    }

    /// The state before the first tick.
    pub fn new() -> (state: State)
        ensures
            state.wf(),
            state@ == crate::model::fresh(),
    {
        State {
            classes: ClassCache::new(),
            names: NameCache::new(),
            func: 0,
            cam_calls: 0,
            cams_last: 0,
            known: Vec::new(),
            scan_ms: 0,
            scans: 0,
            last_total: NO_TOTAL,
            func_stale: 0,
            cursor: 0,
            logged: false,
        }
    }
}

/// How often the function was called on a camera.
pub fn cam_calls(state: &State) -> (r: u64)
    ensures
        r == state@.cam_calls,
{
    state.cam_calls
}

/// The number of cameras that the last scan found.
pub fn cams_last(state: &State) -> (r: u64)
    ensures
        r == state@.cams_last,
{
    state.cams_last
}

/// The number of cameras remembered.
pub fn known(state: &State) -> (r: u64)
    ensures
        r == state@.known.len(),
{
    state.known.len() as u64
}

/// How long the last scan took, in milliseconds.
pub fn walk_ms(state: &State) -> (r: u64)
    ensures
        r == state@.scan_ms,
{
    state.scan_ms
}

/// The number of scans.
pub fn scans(state: &State) -> (r: u64)
    ensures
        r == state@.scans,
{
    state.scans
}

/// Whether the function that disables dithering is at hand.
pub fn func_ok(state: &State) -> (r: bool)
    ensures
        r == (state@.func != 0),
{
    state.func != 0
}

/// The number of objects: zero where it cannot be read or believed.
pub fn count(memory: &Memory, module: &Module) -> (r: Result<u32, Miss>)
    ensures
        r == crate::model::count_at(memory@, *module),
{
    let array: usize = module.base.wrapping_add(GOBJECTS_RVA);
    match read_u32(memory, array.wrapping_add(OFF_NUM_ELEMENTS))? {
        Some(n) => if n <= MAX_ELEMENTS {
            Ok(n)
        } else {
            Ok(0)
        },
        None => Ok(0),
    }
}

/// The table of chunks: null where it cannot be read or believed.
pub fn chunks_ptr(memory: &Memory, module: &Module) -> (r: Result<usize, Miss>)
    ensures
        r == crate::model::chunks_at(memory@, *module),
{
    let array: usize = module.base.wrapping_add(GOBJECTS_RVA);
    match read_u32(memory, array.wrapping_add(OFF_NUM_CHUNKS))? {
        Some(n) => if !(n > 0 && n <= MAX_CHUNKS) {
            return Ok(0);
        },
        None => return Ok(0),
    }
    read_pointer(memory, array.wrapping_add(OFF_OBJECTS))
}

/// The chunk number `chunk_idx` of the table: null where there is none.
pub fn chunk_at(memory: &Memory, chunks: usize, chunk_idx: u32) -> (r: Result<usize, Miss>)
    ensures
        r == crate::model::chunk_of(memory@, chunks, chunk_idx),
{
    if chunks == 0 {
        return Ok(0);
    }
    read_pointer(memory, chunks.wrapping_add((chunk_idx as usize).wrapping_mul(8)))
}

/// The object number `index`, in its chunk: null where there is none.
pub fn item_at(memory: &Memory, chunk: usize, index: u32) -> (r: Result<usize, Miss>)
    ensures
        r == crate::model::item_of(memory@, chunk, index),
{
    if chunk == 0 {
        return Ok(0);
    }
    read_pointer(
        memory,
        chunk.wrapping_add((index % ELEMENTS_PER_CHUNK) as usize * FUOBJECT_ITEM),
    )
}

/// Reads a name whole, as far as names go.
fn whole_name(memory: &Memory, pool: usize, id: u32) -> (r: Result<Vec<u8>, Miss>)
    ensures
        match crate::names::name_at(memory@, pool, id, MAX_NAME as nat) {
            Err(miss) => r == Err::<Vec<u8>, Miss>(miss),
            Ok(name) => r is Ok && r->Ok_0@ == name,
        },
{
    let mut out: Vec<u8> = vec![0u8; MAX_NAME];
    let len: usize = read_fname(memory, pool, id, out.as_mut_slice())?;
    out.truncate(len);
    Ok(out)
}

/// Resolves the tag of a class from memory: `None` where it is no class.
fn read_class_tag(memory: &Memory, module: &Module, class: usize) -> (r: Result<Option<u32>, Miss>)
    ensures
        r == crate::model::class_tag_at(memory@, *module, class),
{
    let pool: usize = module.base.wrapping_add(GNAMES_RVA);
    match read_u64(memory, class)? {
        Some(v) => if v == 0 || !module.contains(v as usize) {
            return Ok(None);
        },
        None => return Ok(None),
    }
    let id: u32 = match read_u32(memory, class.wrapping_add(OFF_NAME))? {
        Some(v) => v,
        None => return Ok(None),
    };
    let name = whole_name(memory, pool, id)?;
    if name.len() == 0 {
        return Ok(None);
    }
    if crate::names::matches(name.as_slice(), CAM_CLASS.as_bytes()) {
        Ok(Some(TAG_CAM))
    } else if crate::names::matches(name.as_slice(), FUNC_CLASS.as_bytes()) {
        Ok(Some(TAG_FUNC))
    } else {
        Ok(Some(TAG_OTHER))
    }
}

/// What an object is, with what the cache of classes holds: `None` where it is
/// not a live object.
fn look(classes: &ClassCache, memory: &Memory, module: &Module, obj: usize) -> (r: Result<
    Option<Described>,
    Miss,
>)
    requires
        classes.wf(),
    ensures
        r == crate::model::described(memory@, *module, classes@, obj),
        r is Ok && r->Ok_0 is Some ==> r->Ok_0->0.class_tag <= crate::cache::MAX_TAG,
{
    let block = memory.raw(obj, OBJ_BLOCK)?;
    if block.len() != OBJ_BLOCK {
        return Ok(None);
    }
    proof {
        crate::mem::lemma_le_bound(block@.subrange(8, 12));
        crate::mem::lemma_le_bound(block@.subrange(0x18, 0x1C));
        crate::mem::lemma_pow256();
    }
    let vtable: usize = le_number(block, 0, 8) as usize;
    if vtable == 0 || !module.contains(vtable) {
        return Ok(None);
    }
    let flags: u32 = le_number(block, 8, 4) as u32;
    if flags & SKIP_FLAGS != 0 {
        return Ok(None);
    }
    let class: usize = le_number(block, 0x10, 8) as usize;
    if class == 0 {
        return Ok(None);
    }
    let name_id: u32 = le_number(block, 0x18, 4) as u32;
    let tag: Option<u32> = match classes.get(class) {
        Some(tag) => Some(tag),
        None => read_class_tag(memory, module, class)?,
    };
    match tag {
        Some(class_tag) => Ok(Some(Described { class, class_tag, name_id })),
        None => Ok(None),
    }
}

/// What an object is: `None` where it is not a live object. The tag of its class
/// is cached.
pub fn describe(state: &mut State, memory: &Memory, module: &Module, obj: usize) -> (r: Result<
    Option<Described>,
    Miss,
>)
    requires
        old(state).wf(),
    ensures
        final(state).wf(),
        r == crate::model::described(memory@, *module, old(state)@.classes, obj),
        final(state)@ == match r {
            Err(_) => old(state)@,
            Ok(d) => Model {
                classes: crate::model::learned(old(state)@.classes, d),
                ..old(state)@
            },
        },
{
    let d = look(&state.classes, memory, module, obj)?;
    match d {
        Some(found) => state.classes.put(found.class, found.class_tag),
        None => {},
    }
    Ok(d)
}

/// The tag of a function's name, with what the cache of names holds.
fn look_name(names: &NameCache, memory: &Memory, pool: usize, name_id: u32) -> (r: Result<
    u32,
    Miss,
>)
    requires
        names.wf(),
    ensures
        r == crate::model::name_tag_at(memory@, pool, names@, name_id),
        r is Ok ==> r->Ok_0 <= crate::cache::MAX_TAG,
{
    match names.get(name_id) {
        Some(tag) => return Ok(tag),
        None => {},
    }
    let name = whole_name(memory, pool, name_id)?;
    if name.len() > 0 && crate::names::matches(name.as_slice(), DISABLE_NAME.as_bytes()) {
        Ok(TAG_DISABLE)
    } else {
        Ok(TAG_OTHER)
    }
}

/// The tag of a function's name, which is cached.
pub fn name_tag(state: &mut State, memory: &Memory, pool: usize, name_id: u32) -> (r: Result<
    u32,
    Miss,
>)
    requires
        old(state).wf(),
    ensures
        final(state).wf(),
        r == crate::model::name_tag_at(memory@, pool, old(state)@.names, name_id),
        final(state)@ == match r {
            Err(_) => old(state)@,
            Ok(tag) => Model {
                names: crate::cache::name_store(old(state)@.names, name_id, tag),
                ..old(state)@
            },
        },
{
    let tag: u32 = look_name(&state.names, memory, pool, name_id)?;
    state.names.put(name_id, tag);
    Ok(tag)
}

/// Whether `func` is the function that disables dithering.
pub fn is_disable_func(state: &mut State, memory: &Memory, module: &Module, func: usize) -> (r:
    Result<bool, Miss>)
    requires
        old(state).wf(),
    ensures
        final(state).wf(),
        match crate::model::judged(memory@, *module, old(state)@, func) {
            Err(miss) => r == Err::<bool, Miss>(miss) && final(state)@ == old(state)@,
            Ok((is_it, after)) => r == Ok::<bool, Miss>(is_it) && final(state)@ == after,
        },
{
    let pool: usize = module.base.wrapping_add(GNAMES_RVA);
    match look(&state.classes, memory, module, func)? {
        Some(d) => {
            let mut is_it: bool = false;
            if d.class_tag == TAG_FUNC {
                is_it = name_tag(state, memory, pool, d.name_id)? == TAG_DISABLE;
            }
            state.classes.put(d.class, d.class_tag);
            Ok(is_it)
        },
        None => Ok(false),
    }
}

/// The address to call for a camera: `None` where its vtable or the address does
/// not lie in the image.
pub fn call_target(memory: &Memory, module: &Module, cam: usize) -> (r: Result<
    Option<usize>,
    Miss,
>)
    ensures
        r == crate::model::target_at(memory@, *module, cam),
{
    let vtable: usize = match read_u64(memory, cam)? {
        Some(v) => if v != 0 && module.contains(v as usize) {
            v as usize
        } else {
            return Ok(None);
        },
        None => return Ok(None),
    };
    match read_u64(memory, vtable.wrapping_add(PROCESSEVENT_IDX * 8))? {
        Some(v) => if v != 0 && module.contains(v as usize) {
            Ok(Some(v as usize))
        } else {
            Ok(None)
        },
        None => Ok(None),
    }
}

/// Remembers a camera, and says whether it is a new one.
pub fn remember_cam(state: &mut State, cam: usize) -> (r: bool)
    requires
        old(state).wf(),
    ensures
        final(state).wf(),
        r == !old(state)@.known.contains(cam),
        final(state)@ == crate::model::remembered(old(state)@, cam),
{
    let n: usize = state.known.len();
    let mut i: usize = 0;
    while i < n
        invariant
            i <= n,
            n == state.known@.len(),
            state.wf(),
            forall|j: int| 0 <= j < i ==> state.known@[j] != cam,
        decreases n - i,
    {
        if state.known[i] == cam {
            assert(state@.known[i as int] == cam);
            return false;
        }
        i = i + 1;
    }
    if n < MAX_KNOWN {
        state.known.push(cam);
        return true;
    }
    let at: usize = state.cursor % MAX_KNOWN;
    state.cursor = state.cursor.wrapping_add(1);
    state.known.set(at, cam);
    true
}

impl Action<Buf> {
    /// The action with the line that it logs, if it does.
    pub open spec fn plain(self) -> Action<Seq<u8>> {
        match self {
            Action::Proceed => Action::Proceed,
            Action::Read { addr, len } => Action::Read { addr, len },
            Action::Clock => Action::Clock,
            Action::Invoke { target, cam, func } => Action::Invoke { target, cam, func },
            Action::Log(line) => Action::Log(line@),
            Action::Done => Action::Done,
        }
    }
}

/// A tick under way.
#[derive(Debug)]
pub struct Tick {
    module: Module,
    stage: Stage,
    memory: Memory,
    clock: Option<u64>,
}

impl Tick {
    /// The module whose objects are watched.
    pub closed spec fn module(&self) -> Module {
        self.module
    }

    /// How far the tick has come.
    pub closed spec fn stage(&self) -> Stage {
        self.stage
    }

    /// The reads that were answered since the last step that moved.
    pub closed spec fn answers(&self) -> crate::mem::Answers {
        self.memory@
    }

    /// The time that was told since the last step that moved.
    pub closed spec fn clock(&self) -> Option<u64> {
        self.clock
    }

    /// A tick that begins.
    pub fn new(module: Module) -> (t: Tick)
        ensures
            t.module() == module,
            t.stage() == Stage::Count,
            t.answers() == Map::<(usize, usize), Seq<u8>>::empty(),
            t.clock() == None::<u64>,
    {
        Tick { module, stage: Stage::Count, memory: Memory::new(), clock: None }
    }

    /// Records what a read of `len` bytes at `addr` gave.
    pub fn answer(&mut self, addr: usize, len: usize, bytes: Vec<u8>)
        ensures
            final(self).module() == old(self).module(),
            final(self).stage() == old(self).stage(),
            final(self).clock() == old(self).clock(),
            final(self).answers() == old(self).answers().insert(
                (addr, len),
                if bytes@.len() <= len {
                    bytes@
                } else {
                    bytes@.take(len as int)
                },
            ),
    {
        self.memory.record(addr, len, bytes);
    }

    /// Records the time, in milliseconds.
    pub fn tell_time(&mut self, now: u64)
        ensures
            final(self).module() == old(self).module(),
            final(self).stage() == old(self).stage(),
            final(self).answers() == old(self).answers(),
            final(self).clock() == Some(now),
    {
        self.clock = Some(now);
    }
}

fn wait(miss: Miss) -> (r: (Option<Stage>, Action<Buf>))
    ensures
        r.0 is None,
        r.1.plain() == (Action::<Seq<u8>>::Read { addr: miss.addr, len: miss.len }),
{
    (None, Action::Read { addr: miss.addr, len: miss.len })
}

fn go(stage: Stage) -> (r: (Option<Stage>, Action<Buf>))
    ensures
        r.0 == Some(stage),
        r.1.plain() == Action::<Seq<u8>>::Proceed,
{
    (Some(stage), Action::Proceed)
}

/// A step was taken as it has to be: the state, the stage and the action after it
/// are the ones wanted. No stage stands for staying where it is.
spec fn taken(
    after: State,
    r: (Option<Stage>, Action<Buf>),
    here: Stage,
    step: crate::model::Step,
) -> bool {
    &&& after.wf()
    &&& after@ == step.model
    &&& r.1.plain() == step.action
    &&& match r.0 {
        Some(stage) => stage == step.stage && !(step.action is Read) && !(step.action is Clock),
        None => step.stage == here && (step.action is Read || step.action is Clock),
    }
}

fn check_function(state: &mut State, memory: &Memory, module: &Module, total: u32) -> (r: (
    Option<Stage>,
    Action<Buf>,
))
    requires
        old(state).wf(),
    ensures
        taken(
            *final(state),
            r,
            (Stage::Function { total }),
            crate::model::function_step(memory@, *module, old(state)@, total),
        ),
{
    let func: usize = state.func;
    if func != 0 {
        match is_disable_func(state, memory, module, func) {
            Err(miss) => return wait(miss),
            Ok(is_it) => if !is_it {
                state.func = 0;
            },
        }
    }
    if state.func == 0 {
        state.func_stale = state.func_stale.wrapping_add(1);
    } else {
        state.func_stale = 0;
    }
    go(Stage::Prune { total, k: 0, w: 0 })
}

fn prune(
    state: &mut State,
    memory: &Memory,
    module: &Module,
    total: u32,
    k: usize,
    w: usize,
) -> (r: (Option<Stage>, Action<Buf>))
    requires
        old(state).wf(),
        w <= k,
        w <= old(state)@.known.len(),
    ensures
        taken(
            *final(state),
            r,
            (Stage::Prune { total, k, w }),
            crate::model::prune_step(memory@, *module, old(state)@, total, k, w),
        ),
{
    if k >= state.known.len() {
        let died: bool = w < state.known.len();
        state.known.truncate(w);
        assert(state@.known =~= old(state)@.known.take(w as int));
        return go(Stage::Disable { total, k: 0, died });
    }
    let p: usize = state.known[k];
    if p == 0 {
        return go(Stage::Prune { total, k: k + 1, w });
    }
    match describe(state, memory, module, p) {
        Err(miss) => wait(miss),
        Ok(Some(d)) => if d.class_tag == TAG_CAM {
            state.known.set(w, p);
            go(Stage::Prune { total, k: k + 1, w: w + 1 })
        } else {
            go(Stage::Prune { total, k: k + 1, w })
        },
        Ok(None) => go(Stage::Prune { total, k: k + 1, w }),
    }
}

/// Has the function called on a camera, where there is a function and the camera
/// can be called.
fn call_disable(
    state: &mut State,
    memory: &Memory,
    module: &Module,
    cam: usize,
    here: Stage,
    next: Stage,
) -> (r: (Option<Stage>, Action<Buf>))
    requires
        old(state).wf(),
    ensures
        taken(
            *final(state),
            r,
            here,
            crate::model::call_step(memory@, *module, old(state)@, cam, here, next),
        ),
{
    if state.func == 0 || cam == 0 {
        return go(next);
    }
    match call_target(memory, module, cam) {
        Err(miss) => wait(miss),
        Ok(None) => go(next),
        Ok(Some(target)) => {
            state.cam_calls = state.cam_calls.wrapping_add(1);
            (Some(next), Action::Invoke { target, cam, func: state.func })
        },
    }
}

fn disable_known(
    state: &mut State,
    memory: &Memory,
    module: &Module,
    total: u32,
    k: usize,
    died: bool,
) -> (r: (Option<Stage>, Action<Buf>))
    requires
        old(state).wf(),
    ensures
        taken(
            *final(state),
            r,
            (Stage::Disable { total, k, died }),
            crate::model::disable_step(memory@, *module, old(state)@, total, k, died),
        ),
{
    if state.func != 0 && k < state.known.len() {
        let cam: usize = state.known[k];
        return call_disable(
            state,
            memory,
            module,
            cam,
            Stage::Disable { total, k, died },
            Stage::Disable { total, k: k + 1, died },
        );
    }
    let need: bool = state.last_total == NO_TOTAL || total != state.last_total as u32
        || died || state.known.len() as u64 != state.cams_last || (state.func == 0 && state.func_stale
        >= STALE_TICKS);
    if need {
        go(Stage::ScanStart)
    } else {
        (Some(Stage::Done), Action::Done)
    }
}

fn open_scan(state: &mut State, memory: &Memory, module: &Module, t0: u64) -> (r: (
    Option<Stage>,
    Action<Buf>,
))
    requires
        old(state).wf(),
    ensures
        taken(
            *final(state),
            r,
            (Stage::ScanOpen { t0 }),
            crate::model::open_step(memory@, *module, old(state)@, t0),
        ),
{
    let chunks: usize = match chunks_ptr(memory, module) {
        Err(miss) => return wait(miss),
        Ok(chunks) => chunks,
    };
    let total: u32 = match count(memory, module) {
        Err(miss) => return wait(miss),
        Ok(total) => total,
    };
    if chunks == 0 || total == 0 {
        return (Some(Stage::Done), Action::Done);
    }
    go(
        Stage::Scan {
            scan: Scan { t0, chunks, total, chunk_idx: u32::MAX, chunk: 0, cams: 0, i: 0 },
        },
    )
}

fn take_object(
    state: &mut State,
    memory: &Memory,
    module: &Module,
    here: Stage,
    next: Scan,
    obj: usize,
) -> (r: (Option<Stage>, Action<Buf>))
    requires
        old(state).wf(),
        next.cams < u64::MAX,
        next.i > 0,
    ensures
        taken(
            *final(state),
            r,
            here,
            crate::model::object_step(memory@, *module, old(state)@, here, next, obj),
        ),
{
    let pool: usize = module.base.wrapping_add(GNAMES_RVA);
    let d = match look(&state.classes, memory, module, obj) {
        Err(miss) => return wait(miss),
        Ok(Some(d)) => d,
        Ok(None) => return go(Stage::Scan { scan: next }),
    };
    let mut acquired: bool = false;
    if d.class_tag == TAG_FUNC && state.func == 0 {
        match name_tag(state, memory, pool, d.name_id) {
            Err(miss) => return wait(miss),
            Ok(tag) => acquired = tag == TAG_DISABLE,
        }
    }
    state.classes.put(d.class, d.class_tag);
    if d.class_tag == TAG_CAM {
        let scan = Scan { cams: next.cams + 1, ..next };
        if remember_cam(state, obj) {
            go(Stage::LogCamera { scan, cam: obj })
        } else {
            go(Stage::DisableFound { scan, cam: obj })
        }
    } else if acquired {
        state.func = obj;
        let mut line = Buf::new();
        line.push_str(ACQUIRED);
        assert(line@ =~= crate::buf::text(ACQUIRED));
        let back = Scan {
            total: next.i - 1,
            chunk_idx: u32::MAX,
            chunk: 0,
            cams: 0,
            i: 0,
            ..next
        };
        (Some(Stage::Revisit { scan: next, back }), Action::Log(line))
    } else {
        go(Stage::Scan { scan: next })
    }
}

fn full_scan(state: &mut State, memory: &Memory, module: &Module, scan: Scan) -> (r: (
    Option<Stage>,
    Action<Buf>,
))
    requires
        old(state).wf(),
        crate::model::scan_ok(scan),
    ensures
        taken(
            *final(state),
            r,
            (Stage::Scan { scan }),
            crate::model::scan_step(memory@, *module, old(state)@, scan),
        ),
{
    let i: u32 = scan.i;
    if i >= scan.total {
        state.last_total = scan.total as u64;
        state.func_stale = if state.func == 0 {
            u32::MAX as u64
        } else {
            0
        };
        state.cams_last = scan.cams;
        state.scans = state.scans.wrapping_add(1);
        return go(Stage::ScanEnd { t0: scan.t0 });
    }
    assert(i >> 16 == i / 0x1_0000) by (bit_vector);
    let idx: u32 = i >> 16;
    let chunk: usize = if idx == scan.chunk_idx {
        scan.chunk
    } else {
        match chunk_at(memory, scan.chunks, idx) {
            Err(miss) => return wait(miss),
            Ok(chunk) => chunk,
        }
    };
    if chunk == 0 {
        let past: u32 = (idx + 1) * ELEMENTS_PER_CHUNK;
        return go(Stage::Scan { scan: Scan { chunk_idx: idx, chunk, i: past, ..scan } });
    }
    let obj: usize = match item_at(memory, chunk, i) {
        Err(miss) => return wait(miss),
        Ok(obj) => obj,
    };
    let next = Scan { chunk_idx: idx, chunk, i: i + 1, ..scan };
    if obj == 0 {
        return go(Stage::Scan { scan: next });
    }
    take_object(state, memory, module, Stage::Scan { scan }, next, obj)
}

/// Has the function called on an object that the scan had passed before, if it is
/// a camera that can be called.
fn call_missed(
    state: &mut State,
    memory: &Memory,
    module: &Module,
    here: Stage,
    next: Stage,
    obj: usize,
) -> (r: (Option<Stage>, Action<Buf>))
    requires
        old(state).wf(),
    ensures
        taken(
            *final(state),
            r,
            here,
            crate::model::missed_step(memory@, *module, old(state)@, here, next, obj),
        ),
{
    let d = match look(&state.classes, memory, module, obj) {
        Err(miss) => return wait(miss),
        Ok(Some(d)) => d,
        Ok(None) => return go(next),
    };
    let mut called: Option<usize> = None;
    if d.class_tag == TAG_CAM {
        match call_target(memory, module, obj) {
            Err(miss) => return wait(miss),
            Ok(target) => called = target,
        }
    }
    state.classes.put(d.class, d.class_tag);
    match called {
        Some(target) => {
            state.cam_calls = state.cam_calls.wrapping_add(1);
            (Some(next), Action::Invoke { target, cam: obj, func: state.func })
        },
        None => go(next),
    }
}

/// Goes back to the next object in front of the function that was acquired.
fn revisit(
    state: &mut State,
    memory: &Memory,
    module: &Module,
    scan: Scan,
    back: Scan,
) -> (r: (Option<Stage>, Action<Buf>))
    requires
        old(state).wf(),
        crate::model::scan_ok(back),
    ensures
        taken(
            *final(state),
            r,
            (Stage::Revisit { scan, back }),
            crate::model::revisit_step(memory@, *module, old(state)@, scan, back),
        ),
{
    let i: u32 = back.i;
    if i >= back.total {
        return go(Stage::Scan { scan });
    }
    let idx: u32 = i / ELEMENTS_PER_CHUNK;
    let chunk: usize = if idx == back.chunk_idx {
        back.chunk
    } else {
        match chunk_at(memory, back.chunks, idx) {
            Err(miss) => return wait(miss),
            Ok(chunk) => chunk,
        }
    };
    if chunk == 0 {
        let past: u32 = (idx + 1) * ELEMENTS_PER_CHUNK;
        return go(
            Stage::Revisit { scan, back: Scan { chunk_idx: idx, chunk, i: past, ..back } },
        );
    }
    let obj: usize = match item_at(memory, chunk, i) {
        Err(miss) => return wait(miss),
        Ok(obj) => obj,
    };
    let next = Stage::Revisit { scan, back: Scan { chunk_idx: idx, chunk, i: i + 1, ..back } };
    if obj == 0 {
        return go(next);
    }
    call_missed(state, memory, module, Stage::Revisit { scan, back }, next, obj)
}

fn log_camera(
    state: &mut State,
    memory: &Memory,
    module: &Module,
    scan: Scan,
    cam: usize,
) -> (r: (Option<Stage>, Action<Buf>))
    requires
        old(state).wf(),
    ensures
        taken(
            *final(state),
            r,
            (Stage::LogCamera { scan, cam }),
            crate::model::log_step(memory@, *module, old(state)@, scan, cam),
        ),
{
    let next = Stage::DisableFound { scan, cam };
    if state.logged {
        return go(next);
    }
    let pool: usize = module.base.wrapping_add(GNAMES_RVA);
    let mut line = Buf::new();
    line.push_str("camera 0x");
    line.push_hex(cam as u64, 0);
    line.push_str(" '");
    match push_class_name(&mut line, memory, module, pool, cam) {
        Err(miss) => return wait(miss),
        Ok(()) => {},
    }
    line.push_byte(39);
    state.logged = true;
    proof {
        let name = crate::names::class_name_at(
            memory@,
            *module,
            pool,
            cam,
            MAX_NAME as nat,
        )->Ok_0;
        assert(line@ =~= crate::model::camera_line(cam, name));
    }
    (Some(next), Action::Log(line))
}

/// Takes one step of a tick, and says what to do before the next one.
///
/// A tick counts the objects, checks that the function is still there, drops the
/// cameras that are gone, and has the function called on those that stay. Only if
/// something may have changed does it pay for a scan of all objects, which acquires
/// the function if it is missing and has it called on every live camera. A step that
/// lacks a read or the time changes nothing; any other step begins the next stage
/// with nothing known.
#[verifier::rlimit(30)]
pub fn tick(state: &mut State, run: &mut Tick) -> (action: Action<Buf>)
    requires
        old(state).wf(),
        crate::model::stage_ok(old(state)@, old(run).stage()),
    ensures
        final(state).wf(),
        crate::model::stage_ok(final(state)@, final(run).stage()),
        ({
            let step = crate::model::step(
                old(run).answers(),
                old(run).clock(),
                old(run).module(),
                old(state)@,
                old(run).stage(),
            );
            &&& final(state)@ == step.model
            &&& final(run).stage() == step.stage
            &&& action.plain() == step.action
        }),
        final(run).module() == old(run).module(),
        if action is Read || action is Clock {
            final(run).answers() == old(run).answers() && final(run).clock() == old(run).clock()
        } else {
            final(run).answers() == Map::<(usize, usize), Seq<u8>>::empty()
                && final(run).clock() is None
        },
{
    let module = run.module;
    let (stage, action) = match run.stage {
        Stage::Count => match count(&run.memory, &module) {
            Err(miss) => wait(miss),
            Ok(total) => go(Stage::Function { total }),
        },
        Stage::Function { total } => check_function(state, &run.memory, &module, total),
        Stage::Prune { total, k, w } => prune(state, &run.memory, &module, total, k, w),
        Stage::Disable { total, k, died } => disable_known(
            state,
            &run.memory,
            &module,
            total,
            k,
            died,
        ),
        Stage::ScanStart => match run.clock {
            None => (None, Action::Clock),
            Some(now) => go(Stage::ScanOpen { t0: now }),
        },
        Stage::ScanOpen { t0 } => open_scan(state, &run.memory, &module, t0),
        Stage::Scan { scan } => full_scan(state, &run.memory, &module, scan),
        Stage::LogCamera { scan, cam } => log_camera(state, &run.memory, &module, scan, cam),
        Stage::DisableFound { scan, cam } => call_disable(
            state,
            &run.memory,
            &module,
            cam,
            run.stage,
            Stage::Scan { scan },
        ),
        Stage::Revisit { scan, back } => revisit(state, &run.memory, &module, scan, back),
        Stage::ScanEnd { t0 } => match run.clock {
            None => (None, Action::Clock),
            Some(now) => {
                state.scan_ms = now.wrapping_sub(t0);
                (Some(Stage::Done), Action::Done)
            },
        },
        Stage::Done => (Some(Stage::Done), Action::Done),
    };
    match stage {
        Some(next) => {
            run.stage = next;
            run.memory = Memory::new();
            run.clock = None;
        },
        None => {},
    }
    action
}

} // verus!
