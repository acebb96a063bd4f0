//! When a tick scans, and what it leaves and calls, while the memory does not change.

use vstd::prelude::*;

use crate::laws::bytes::{holds8, inside, law_callable, law_slot, past};
use crate::mem::{Answers, Miss, Module};
use crate::model;
use crate::model::{Action, Model, Stage};
use crate::steps::consistent;
use crate::still;
use crate::still::{
    array_calls, call_on, calls, classes_even, coherent, finish, is_camera, is_disabler, slot_in,
    whole, Times,
};
use crate::ticks;
use crate::ticks::{alive, checked, death, known_calls, law_tick, tick_scans};

verus! {

/// The objects of the array from number `i` on, in order.
pub open spec fn objects(mem: Answers, table: usize, i: int, n: int) -> Seq<usize> {
    Seq::new((n - i) as nat, |k: int| slot_in(mem, table, i + k))
}

/// The live cameras among objects, in order.
pub open spec fn live(mem: Answers, module: Module, objects: Seq<usize>) -> Seq<usize> {
    objects.filter(|obj: usize| is_camera(mem, module, obj))
}

/// The camera can be called.
pub open spec fn callable(mem: Answers, module: Module, cam: usize) -> bool {
    model::target_at(mem, module, cam) matches Ok(Some(_))
}

/// The calls of a function on those of some cameras that can be called, once for each
/// and in order; without a function there are none.
pub open spec fn invocations(
    mem: Answers,
    module: Module,
    func: usize,
    cams: Seq<usize>,
) -> Seq<Action<Seq<u8>>> {
    if func == 0 {
        Seq::empty()
    } else {
        cams.filter(|cam: usize| callable(mem, module, cam)).map_values(
            |cam: usize|
                Action::<Seq<u8>>::Invoke {
                    target: model::target_at(mem, module, cam)->Ok_0->0,
                    cam,
                    func,
                },
        )
    }
}

/// What is asked of the state and of the memory before a tick.
pub open spec fn ready(mem: Answers, module: Module, model: Model) -> bool {
    &&& whole(mem)
    &&& classes_even(mem, module)
    &&& coherent(mem, module, model)
    &&& consistent(model, Stage::Count)
}

/// The array has objects and a table of chunks.
pub open spec fn filled(mem: Answers, module: Module) -> bool {
    &&& model::count_at(mem, module) matches Ok(n) && n != 0
    &&& model::chunks_at(mem, module) matches Ok(table) && table != 0
}

/// The number of scans after a tick.
pub open spec fn scans_after(mem: Answers, now: Times, module: Module, model: Model) -> u64 {
    finish(mem, now, module, model, Stage::Count).model.scans
}

/// A tick whose number of objects differs from that of the last scan scans.
pub proof fn law_changed_count_scans(mem: Answers, now: Times, module: Module, model: Model)
    requires
        ready(mem, module, model),
        filled(mem, module),
        model.last_total <= 0xFFFF_FFFF,
        model::count_at(mem, module)->Ok_0 != model.last_total,
    ensures
        scans_after(mem, now, module, model) == model.scans.wrapping_add(1),
        finish(mem, now, module, model, Stage::Count).model.last_total == model::count_at(
            mem,
            module,
        )->Ok_0,
{
    law_tick(mem, now, module, model);
}

/// A tick that finds one of the known cameras dead scans.
pub proof fn law_death_scans(mem: Answers, now: Times, module: Module, model: Model, j: int)
    requires
        ready(mem, module, model),
        filled(mem, module),
        0 <= j < model.known.len(),
        !is_camera(mem, module, model.known[j]),
    ensures
        scans_after(mem, now, module, model) == model.scans.wrapping_add(1),
{
    law_tick(mem, now, module, model);
    assert(death(mem, module, model));
}

/// A tick that knows more or fewer cameras than the last scan found scans.
pub proof fn law_other_number_scans(mem: Answers, now: Times, module: Module, model: Model)
    requires
        ready(mem, module, model),
        filled(mem, module),
        model.known.len() != model.cams_last,
    ensures
        scans_after(mem, now, module, model) == model.scans.wrapping_add(1),
{
    law_tick(mem, now, module, model);
    ticks::lemma_death(mem, module, model.known);
}

/// The first tick scans, and so does every one until there has been a scan.
pub proof fn law_unscanned_scans(mem: Answers, now: Times, module: Module, model: Model)
    requires
        ready(mem, module, model),
        filled(mem, module),
        model.last_total == 0xFFFF_FFFF || model == model::fresh(),
    ensures
        scans_after(mem, now, module, model) == model.scans.wrapping_add(1),
{
    law_tick(mem, now, module, model);
}

/// A tick without the function scans if it was missing for three ticks before, or
/// after a scan that had not found it.
pub proof fn law_missing_function_scans(mem: Answers, now: Times, module: Module, model: Model)
    requires
        ready(mem, module, model),
        filled(mem, module),
        !is_disabler(mem, module, model.func),
        3 <= model.func_stale < 0xFFFF_FFFF_FFFF_FFFF,
    ensures
        scans_after(mem, now, module, model) == model.scans.wrapping_add(1),
{
    law_tick(mem, now, module, model);
}

/// A tick does not scan if there was a scan, the number of objects is the same, the
/// known cameras are there and are as many as the scan found, and the function is
/// there or was missing for two ticks at most.
pub proof fn law_nothing_new_no_scan(mem: Answers, now: Times, module: Module, model: Model)
    requires
        ready(mem, module, model),
        model::count_at(mem, module)->Ok_0 == model.last_total,
        forall|j: int|
            0 <= j < model.known.len() ==> is_camera(mem, module, #[trigger] model.known[j]),
        model.known.len() == model.cams_last,
        is_disabler(mem, module, model.func) || model.func_stale < 3,
    ensures
        scans_after(mem, now, module, model) == model.scans,
{
    law_tick(mem, now, module, model);
    still::lemma_whole(mem, module);
    assert(model::count_at(mem, module) is Ok);
    ticks::lemma_death(mem, module, model.known);
}

/// Without objects or without a table of chunks there is no scan.
pub proof fn law_empty_array_no_scan(mem: Answers, now: Times, module: Module, model: Model)
    requires
        ready(mem, module, model),
        !filled(mem, module),
    ensures
        scans_after(mem, now, module, model) == model.scans,
{
    law_tick(mem, now, module, model);
    still::lemma_whole(mem, module);
    assert(model::count_at(mem, module) is Ok);
    assert(model::chunks_at(mem, module) is Ok);
}

proof fn lemma_objects_first(mem: Answers, table: usize, i: int, n: int)
    requires
        i < n,
    ensures
        objects(mem, table, i, n) == seq![slot_in(mem, table, i)] + objects(mem, table, i + 1, n),
{
    assert(objects(mem, table, i, n) =~= seq![slot_in(mem, table, i)] + objects(
        mem,
        table,
        i + 1,
        n,
    ));
}

proof fn lemma_filter_first<A>(a: A, rest: Seq<A>, keep: spec_fn(A) -> bool)
    ensures
        (seq![a] + rest).filter(keep) == if keep(a) {
            seq![a] + rest.filter(keep)
        } else {
            rest.filter(keep)
        },
{
    Seq::filter_distributes_over_add(seq![a], rest, keep);
    reveal(Seq::filter);
    assert(seq![a].drop_last() =~= Seq::<A>::empty());
    assert(Seq::<A>::empty().filter(keep) =~= Seq::<A>::empty());
    if keep(a) {
        assert(seq![a].filter(keep) =~= seq![a]);
    } else {
        assert(seq![a].filter(keep) =~= Seq::<A>::empty());
        assert(Seq::<A>::empty() + rest.filter(keep) =~= rest.filter(keep));
    }
}

proof fn lemma_no_objects(mem: Answers, module: Module, table: usize, n: int)
    ensures
        live(mem, module, objects(mem, table, n, n)) == Seq::<usize>::empty(),
{
    reveal(Seq::filter);
    assert(objects(mem, table, n, n) =~= Seq::<usize>::empty());
}

proof fn lemma_live_first(mem: Answers, module: Module, table: usize, i: int, n: int)
    requires
        i < n,
    ensures
        live(mem, module, objects(mem, table, i, n)) == if is_camera(
            mem,
            module,
            slot_in(mem, table, i),
        ) {
            seq![slot_in(mem, table, i)] + live(mem, module, objects(mem, table, i + 1, n))
        } else {
            live(mem, module, objects(mem, table, i + 1, n))
        },
{
    lemma_objects_first(mem, table, i, n);
    lemma_filter_first(
        slot_in(mem, table, i),
        objects(mem, table, i + 1, n),
        |obj: usize| is_camera(mem, module, obj),
    );
}

proof fn lemma_invocations_none(mem: Answers, module: Module, func: usize)
    ensures
        invocations(mem, module, func, Seq::empty()) == Seq::<Action<Seq<u8>>>::empty(),
{
    reveal(Seq::filter);
    assert(invocations(mem, module, func, Seq::empty()) =~= Seq::<Action<Seq<u8>>>::empty());
}

proof fn lemma_invocations_first(
    mem: Answers,
    module: Module,
    func: usize,
    cam: usize,
    rest: Seq<usize>,
)
    ensures
        invocations(mem, module, func, seq![cam] + rest) == call_on(mem, module, func, cam)
            + invocations(mem, module, func, rest),
{
    lemma_filter_first(cam, rest, |cam: usize| callable(mem, module, cam));
    assert(invocations(mem, module, func, seq![cam] + rest) =~= call_on(mem, module, func, cam)
        + invocations(mem, module, func, rest));
}

/// A scan counts the live cameras of the array, one for each entry.
pub proof fn law_camera_count(mem: Answers, module: Module, table: usize, i: int, n: int)
    requires
        i <= n,
    ensures
        still::camera_count(mem, module, table, i, n) == live(
            mem,
            module,
            objects(mem, table, i, n),
        ).len(),
    decreases n - i,
{
    if i == n {
        lemma_no_objects(mem, module, table, n);
    } else {
        law_camera_count(mem, module, table, i + 1, n);
        lemma_live_first(mem, module, table, i, n);
    }
}

/// The calls of a scan are those on the live cameras of the array, in its order.
pub proof fn law_array_calls(
    mem: Answers,
    module: Module,
    table: usize,
    func: usize,
    i: int,
    n: int,
)
    requires
        i <= n,
    ensures
        array_calls(mem, module, table, func, i, n) == invocations(
            mem,
            module,
            func,
            live(mem, module, objects(mem, table, i, n)),
        ),
    decreases n - i,
{
    if i == n {
        lemma_no_objects(mem, module, table, n);
        lemma_invocations_none(mem, module, func);
    } else {
        let obj = slot_in(mem, table, i);
        let rest = live(mem, module, objects(mem, table, i + 1, n));
        law_array_calls(mem, module, table, func, i + 1, n);
        lemma_live_first(mem, module, table, i, n);
        lemma_invocations_first(mem, module, func, obj, rest);
        assert(Seq::empty() + array_calls(mem, module, table, func, i + 1, n) =~= array_calls(
            mem,
            module,
            table,
            func,
            i + 1,
            n,
        ));
    }
}

/// The calls on known cameras are those on each of them, in their order.
pub proof fn law_known_calls(mem: Answers, module: Module, func: usize, known: Seq<usize>)
    ensures
        known_calls(mem, module, func, known) == invocations(mem, module, func, known),
    decreases known.len(),
{
    if known.len() == 0 {
        assert(known =~= Seq::<usize>::empty());
        lemma_invocations_none(mem, module, func);
    } else {
        law_known_calls(mem, module, func, known.drop_first());
        lemma_invocations_first(mem, module, func, known[0], known.drop_first());
        assert(known =~= seq![known[0]] + known.drop_first());
    }
}

/// The function after a scan is the one at hand before it, or else the first one of
/// the array, if there is any.
pub proof fn law_function_found(
    mem: Answers,
    module: Module,
    table: usize,
    func: usize,
    i: int,
    n: int,
)
    requires
        i <= n,
    ensures
        ({
            let found = still::function_found(mem, module, table, func, i, n);
            if func != 0 {
                found == func
            } else {
                ||| {
                    &&& found == 0
                    &&& forall|j: int|
                        i <= j < n ==> !is_disabler(mem, module, #[trigger] slot_in(mem, table, j))
                }
                ||| exists|p: int|
                    {
                        &&& i <= p < n
                        &&& found == #[trigger] slot_in(mem, table, p)
                        &&& is_disabler(mem, module, found)
                        &&& forall|j: int|
                            i <= j < p ==> !is_disabler(
                                mem,
                                module,
                                #[trigger] slot_in(mem, table, j),
                            )
                    }
            }
        }),
    decreases n - i,
{
    if i < n && func == 0 {
        law_function_found(mem, module, table, func, i + 1, n);
        if is_disabler(mem, module, slot_in(mem, table, i)) {
            assert(still::function_found(mem, module, table, func, i, n) == slot_in(mem, table, i));
        }
    }
}

/// The state after cameras were remembered one after the other.
pub open spec fn remembering(model: Model, cams: Seq<usize>) -> Model
    decreases cams.len(),
{
    if cams.len() == 0 {
        model
    } else {
        remembering(model::remembered(model, cams[0]), cams.drop_first())
    }
}

/// A scan remembers the live cameras of the array, one after the other.
pub proof fn law_scan_remembers(
    mem: Answers,
    module: Module,
    table: usize,
    model: Model,
    i: int,
    n: int,
)
    requires
        i <= n,
    ensures
        still::all_remembered(mem, module, table, model, i, n) == remembering(
            model,
            live(mem, module, objects(mem, table, i, n)),
        ),
    decreases n - i,
{
    if i == n {
        lemma_no_objects(mem, module, table, n);
    } else {
        let obj = slot_in(mem, table, i);
        let rest = live(mem, module, objects(mem, table, i + 1, n));
        lemma_live_first(mem, module, table, i, n);
        if is_camera(mem, module, obj) {
            law_scan_remembers(mem, module, table, model::remembered(model, obj), i + 1, n);
            assert((seq![obj] + rest).drop_first() =~= rest);
        } else {
            law_scan_remembers(mem, module, table, model, i + 1, n);
        }
    }
}

/// A tick that does not scan keeps the known cameras that are still there, in order,
/// and calls the function on each of them that can be called. It forgets the function
/// if it is gone and counts the ticks without it, and leaves the rest as it was.
pub proof fn law_tick_without_scan(mem: Answers, now: Times, module: Module, model: Model)
    requires
        ready(mem, module, model),
        scans_after(mem, now, module, model) == model.scans,
    ensures
        ({
            let out = finish(mem, now, module, model, Stage::Count);
            let func = if is_disabler(mem, module, model.func) {
                model.func
            } else {
                0
            };
            &&& out.model.func == func
            &&& out.model.func_stale == if func != 0 {
                0
            } else {
                model.func_stale.wrapping_add(1)
            }
            &&& out.model.known == live(mem, module, model.known)
            &&& out.model.cursor == model.cursor
            &&& out.model.cams_last == model.cams_last
            &&& out.model.last_total == model.last_total
            &&& out.model.scan_ms == model.scan_ms
            &&& out.model.logged == model.logged
            &&& calls(out.actions) == invocations(
                mem,
                module,
                func,
                live(mem, module, model.known),
            )
        }),
{
    let kept = checked(mem, module, model);
    law_tick(mem, now, module, model);
    law_known_calls(mem, module, kept.func, kept.known);
    assert(!tick_scans(mem, module, model));
    assert(alive(mem, module, model.known) == live(mem, module, model.known));
}

/// A tick that scans keeps the known cameras that are still there and calls the
/// function on them, if it is there. Then it counts and remembers the live cameras of
/// the array, keeps the function or takes the first one of the array, and calls it on
/// all those cameras. The first one that was not known is logged if none was before.
/// What is compared at the next ticks is noted down anew.
pub proof fn law_tick_with_scan(mem: Answers, now: Times, module: Module, model: Model)
    requires
        ready(mem, module, model),
        scans_after(mem, now, module, model) != model.scans,
    ensures
        filled(mem, module),
        ({
            let n = model::count_at(mem, module)->Ok_0;
            let table = model::chunks_at(mem, module)->Ok_0;
            let cameras = live(mem, module, objects(mem, table, 0, n as int));
            let out = finish(mem, now, module, model, Stage::Count);
            let known = live(mem, module, model.known);
            let func = if is_disabler(mem, module, model.func) {
                model.func
            } else {
                0
            };
            &&& out.model.cams_last == cameras.len()
            &&& out.model.known == remembering(Model { known, ..model }, cameras).known
            &&& out.model.cursor == remembering(Model { known, ..model }, cameras).cursor
            &&& out.model.last_total == n
            &&& out.model.scans == model.scans.wrapping_add(1)
            &&& out.model.scan_ms == now.end.wrapping_sub(now.start)
            &&& out.model.logged == (model.logged || exists|j: int|
                0 <= j < n && is_camera(mem, module, #[trigger] slot_in(mem, table, j))
                    && !known.contains(slot_in(mem, table, j)))
            &&& func != 0 ==> out.model.func == func
            &&& func == 0 && out.model.func == 0 ==> forall|j: int|
                0 <= j < n ==> !is_disabler(mem, module, #[trigger] slot_in(mem, table, j))
            &&& func == 0 && out.model.func != 0 ==> exists|p: int|
                {
                    &&& 0 <= p < n
                    &&& out.model.func == #[trigger] slot_in(mem, table, p)
                    &&& is_disabler(mem, module, out.model.func)
                    &&& forall|j: int|
                        0 <= j < p ==> !is_disabler(mem, module, #[trigger] slot_in(mem, table, j))
                }
            &&& out.model.func_stale == if out.model.func != 0 {
                0
            } else {
                0xFFFF_FFFFu64
            }
            &&& calls(out.actions) == invocations(mem, module, func, known) + invocations(
                mem,
                module,
                out.model.func,
                cameras,
            )
        }),
{
    let n = model::count_at(mem, module)->Ok_0;
    let table = model::chunks_at(mem, module)->Ok_0;
    let kept = checked(mem, module, model);
    let cameras = live(mem, module, objects(mem, table, 0, n as int));
    let out = finish(mem, now, module, model, Stage::Count);
    law_tick(mem, now, module, model);
    still::lemma_whole(mem, module);
    assert(model::count_at(mem, module) is Ok);
    assert(model::chunks_at(mem, module) is Ok);
    assert(tick_scans(mem, module, model));
    assert(alive(mem, module, model.known) == live(mem, module, model.known));
    law_camera_count(mem, module, table, 0, n as int);
    law_array_calls(mem, module, table, out.model.func, 0, n as int);
    law_known_calls(mem, module, kept.func, kept.known);
    law_function_found(mem, module, table, kept.func, 0, n as int);
    law_scan_remembers(mem, module, table, kept, 0, n as int);
    lemma_remembering_alike(kept, Model { known: kept.known, ..model }, cameras);
}

/// Which cameras are remembered does not depend on what else is known.
proof fn lemma_remembering_alike(a: Model, b: Model, cams: Seq<usize>)
    requires
        a.known == b.known,
        a.cursor == b.cursor,
    ensures
        remembering(a, cams).known == remembering(b, cams).known,
        remembering(a, cams).cursor == remembering(b, cams).cursor,
    decreases cams.len(),
{
    if cams.len() > 0 {
        lemma_remembering_alike(
            model::remembered(a, cams[0]),
            model::remembered(b, cams[0]),
            cams.drop_first(),
        );
    }
}

/// A tick that scans and ends with the function at hand has called it on a camera that
/// the memory holds in whatever place of the array: in the entry for its number there is
/// a pointer to a live camera, whose vtable lies in the image and names an address in it.
pub proof fn law_scan_reaches(
    mem: Answers,
    now: Times,
    module: Module,
    model: Model,
    table: usize,
    chunk: usize,
    i: u32,
    cam: usize,
    vtable: usize,
    target: usize,
)
    requires
        ready(mem, module, model),
        scans_after(mem, now, module, model) != model.scans,
        model::chunks_at(mem, module) == Ok::<usize, Miss>(table),
        model::count_at(mem, module) matches Ok(n) && i < n,
        chunk != 0,
        holds8(mem, past(table, 8 * (i as int / 0x1_0000)), chunk as int),
        holds8(mem, past(chunk, 0x18 * (i as int % 0x1_0000)), cam as int),
        is_camera(mem, module, cam),
        holds8(mem, cam, vtable as int),
        vtable != 0,
        inside(module, vtable),
        holds8(mem, past(vtable, 0x44int * 8), target as int),
        target != 0,
        inside(module, target),
    ensures
        ({
            let out = finish(mem, now, module, model, Stage::Count);
            &&& out.model.cams_last > 0
            &&& out.model.func != 0 ==> out.actions.contains(
                Action::Invoke { target, cam, func: out.model.func },
            )
        }),
{
    let n = model::count_at(mem, module)->Ok_0;
    law_tick(mem, now, module, model);
    law_tick_with_scan(mem, now, module, model);
    law_slot(mem, table, chunk, i, cam);
    law_callable(mem, module, cam, vtable, target);
    ticks::law_scanning_tick_calls_all(mem, now, module, model, i as int);
    let all = objects(mem, table, 0, n as int);
    assert(all[i as int] == cam);
    all.lemma_filter_contains(|obj: usize| is_camera(mem, module, obj), i as int);
}

} // verus!
