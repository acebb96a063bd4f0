//! What holds of names, numbers, caches, objects and the worker as a whole.

use vstd::prelude::*;

pub mod bytes;
pub mod lines;
pub mod objects;
pub mod rounds;

use crate::buf;
use crate::cache;
use crate::cache::{ClassSlots, NameSlots};
use crate::mem::{Answers, Module};
use crate::model;
use crate::model::Model;
use crate::names;
use crate::names::MAX_NAME;
use crate::worker;
use crate::worker::{Command, Notice, Phase, Wait, PATIENCE_MS, POLL_MS, TICK_MS};

verus! {

/// The number that digits of a base stand for.
pub open spec fn value_of(bytes: Seq<u8>, base: nat) -> nat
    decreases bytes.len(),
{
    if bytes.len() == 0 {
        0
    } else {
        value_of(bytes.drop_last(), base) * base + (if bytes.last() < 58 {
            bytes.last() - 48
        } else {
            bytes.last() - 55
        }) as nat
    }
}

/// A number written out reads back as the same number.
pub proof fn law_digits_read_back(v: nat, base: nat)
    requires
        2 <= base <= 16,
    ensures
        value_of(buf::digits(v, base), base) == v,
    decreases v,
{
    let all = buf::digits(v, base);
    if v < base {
        assert(all.drop_last() =~= Seq::<u8>::empty());
        assert(value_of(all.drop_last(), base) * base == 0) by (nonlinear_arith)
            requires
                value_of(all.drop_last(), base) == 0,
        ;
    } else {
        vstd::arithmetic::div_mod::lemma_div_decreases(v as int, base as int);
        law_digits_read_back(v / base, base);
        assert(all.drop_last() =~= buf::digits(v / base, base));
        assert((v / base) * base + v % base == v) by (nonlinear_arith)
            requires
                base >= 2,
        ;
        assert(0 <= v % base < base) by (nonlinear_arith)
            requires
                base >= 2,
        ;
    }
}

/// Digits are ASCII.
pub proof fn law_digits_ascii(v: nat, base: nat)
    requires
        2 <= base <= 16,
    ensures
        buf::ascii(buf::digits(v, base)),
        buf::digits(v, base).len() > 0,
    decreases v,
{
    if v >= base {
        vstd::arithmetic::div_mod::lemma_div_decreases(v as int, base as int);
        law_digits_ascii(v / base, base);
        assert(0 <= v % base < base) by (nonlinear_arith)
            requires
                base >= 2,
        ;
    }
}

/// What is read of a stored name is printable, and no longer than was asked for.
pub proof fn law_name_text_printable(bytes: Seq<u8>, wide: bool, limit: nat)
    ensures
        names::name_text(bytes, wide, limit).len() <= limit,
        forall|i: int|
            0 <= i < names::name_text(bytes, wide, limit).len() ==> names::printable(
                #[trigger] names::name_text(bytes, wide, limit)[i],
            ),
    decreases limit,
{
    if limit > 0 {
        law_name_text_printable(bytes, wide, (limit - 1) as nat);
    }
}

/// A name, wherever it was read, is printable, fits the room there is for it and
/// is not longer than names are.
pub proof fn law_name_printable(answers: Answers, pool: usize, id: u32, room: nat)
    ensures
        names::name_at(answers, pool, id, room) matches Ok(name) ==> {
            &&& name.len() <= room
            &&& name.len() <= MAX_NAME
            &&& forall|i: int| 0 <= i < name.len() ==> names::printable(#[trigger] name[i])
        },
{
    match crate::mem::u64_at(answers, names::block_slot(pool, id)) {
        Ok(Some(block)) => {
            let entry = names::entry_address(block as usize, id);
            match crate::mem::u16_at(answers, entry) {
                Ok(Some(header)) => {
                    let wide = header % 2 == 1;
                    let limit = names::name_limit(header, room);
                    match crate::mem::raw_at(
                        answers,
                        entry.wrapping_add(names::ENTRY_HEADER),
                        if wide {
                            (2 * limit) as usize
                        } else {
                            limit as usize
                        },
                    ) {
                        Ok(bytes) => {
                            law_name_text_printable(bytes, wide, limit);
                        },
                        Err(_) => {},
                    }
                },
                _ => {},
            }
        },
        _ => {},
    }
}

/// A name is taken for itself, with nothing or with one or two bytes more behind
/// it, and for no shorter and no longer name.
pub proof fn law_same_name(tgt: Seq<u8>, more: Seq<u8>)
    ensures
        names::same_name(tgt + more, tgt) == (more.len() <= 2),
        more.len() > 0 ==> !names::same_name(tgt, tgt + more),
{
    assert((tgt + more).take(tgt.len() as int) =~= tgt);
}

/// No class is both a camera's and a function's by its name, so that the order in
/// which the two are tried does not matter.
pub proof fn law_class_names_apart(name: Seq<u8>)
    ensures
        !(names::same_name(name, buf::text(model::CAM_CLASS)) && names::same_name(
            name,
            buf::text(model::FUNC_CLASS),
        )),
{
    reveal_strlit("PlayerCameraComponent");
    reveal_strlit("Function");
    vstd::string::is_ascii_spec_bytes("PlayerCameraComponent");
    vstd::string::is_ascii_spec_bytes("Function");
    assert(buf::text(model::CAM_CLASS).len() == 21);
    assert(buf::text(model::FUNC_CLASS).len() == 8);
}

/// A tag stored for a class is found again.
pub proof fn law_class_store_found(slots: ClassSlots, class: usize, tag: u32)
    ensures
        cache::class_lookup(cache::class_store(slots, class, tag), class) == Some(tag),
{
}

/// Storing what the cache holds already changes nothing.
pub proof fn law_class_store_again(slots: ClassSlots, class: usize, tag: u32)
    requires
        cache::class_lookup(slots, class) == Some(tag),
    ensures
        cache::class_store(slots, class, tag) == slots,
{
    assert(cache::class_store(slots, class, tag) =~= slots);
}

/// Among classes at even addresses, a stored tag is found for no other class: one
/// that shares the slot is evicted, and one that does not keeps its tag.
pub proof fn law_class_store_others(slots: ClassSlots, class: usize, tag: u32, other: usize)
    requires
        class % 2 == 0,
        other % 2 == 0,
        other != class,
    ensures
        cache::class_lookup(cache::class_store(slots, class, tag), other) == (if cache::class_slot(
            other,
        ) == cache::class_slot(class) {
            None
        } else {
            cache::class_lookup(slots, other)
        }),
{
    let a = class as u64;
    let b = other as u64;
    assert(a | 1 != b | 1) by (bit_vector)
        requires
            a % 2 == 0,
            b % 2 == 0,
            a != b,
    ;
}

/// A tag stored for a name is found again, and for no other name: one that shares
/// the slot is evicted, and one that does not keeps its tag.
pub proof fn law_name_store(slots: NameSlots, id: u32, tag: u32, other: u32)
    ensures
        cache::name_lookup(cache::name_store(slots, id, tag), id) == Some(tag),
        other != id ==> cache::name_lookup(cache::name_store(slots, id, tag), other) == (
        if cache::name_slot(other) == cache::name_slot(id) {
            None
        } else {
            cache::name_lookup(slots, other)
        }),
        cache::name_lookup(slots, id) == Some(tag) ==> cache::name_store(slots, id, tag) == slots,
{
    if cache::name_lookup(slots, id) == Some(tag) {
        assert(cache::name_store(slots, id, tag) =~= slots);
    }
}

/// Class default objects and archetypes are never taken for live objects, and
/// neither is anything whose vtable lies outside the image or that has no class,
/// whatever is cached.
pub proof fn law_live_objects(answers: Answers, module: Module, classes: ClassSlots, obj: usize)
    ensures
        model::described(answers, module, classes, obj) matches Ok(Some(d)) ==> {
            let header = model::header_of(answers[(obj, model::OBJ_BLOCK)]);
            &&& header.flags & 0x10 == 0
            &&& header.flags & 0x20 == 0
            &&& module.holds(header.vtable)
            &&& header.class != 0
            &&& d.class == header.class
            &&& d.name_id == header.name_id
        },
{
    let flags = model::header_of(answers[(obj, model::OBJ_BLOCK)]).flags;
    assert(flags & 0x30 == 0 ==> flags & 0x10 == 0 && flags & 0x20 == 0) by (bit_vector);
}

/// The module is waited for in pauses, and not past the end of patience.
pub proof fn law_wait_ends(found: Option<Module>, waited: u32)
    requires
        waited % POLL_MS == 0,
        waited <= PATIENCE_MS,
    ensures
        worker::waited_for(found, waited) matches Wait::Again { waited: after } ==> {
            &&& found is None
            &&& after == waited + POLL_MS
            &&& after % POLL_MS == 0
            &&& after <= PATIENCE_MS
        },
        worker::waited_for(found, waited) is GiveUp <==> found is None && waited == PATIENCE_MS,
{
}

/// A tick is followed by a report if and only if a minute or more has passed since
/// the last one, and then the minute begins anew; either way the worker sleeps.
pub proof fn law_heartbeat(
    module: Module,
    last_report: u64,
    now: u64,
    told: Notice,
    logged: Notice,
    model: Model,
)
    ensures
        ({
            let timing = Phase::Timing { module, last_report };
            let (ticking, tick) = worker::next(timing, Notice::Time(now), model);
            let (after, command) = worker::next(ticking, told, model);
            let slept = Command::<Seq<u8>>::Sleep { ms: TICK_MS };
            &&& tick == Command::<Seq<u8>>::Tick { module }
            &&& if last_report <= now < last_report + 60_000 {
                &&& command == slept
                &&& after == Phase::Sleeping { module, last_report }
            } else {
                last_report <= now ==> {
                    &&& command == Command::Log(worker::report_line(model))
                    &&& worker::next(after, logged, model) == (
                        Phase::Sleeping { module, last_report: now },
                        slept,
                    )
                }
            }
        }),
{
}

/// The module that the worker is attached to, if it is.
pub open spec fn attached(phase: Phase) -> Option<Module> {
    match phase {
        Phase::Attached { module } => Some(module),
        Phase::Arming { module } => Some(module),
        Phase::Timing { module, .. } => Some(module),
        Phase::Ticking { module, .. } => Some(module),
        Phase::Reporting { module, .. } => Some(module),
        Phase::Sleeping { module, .. } => Some(module),
        _ => None,
    }
}

/// Once attached the worker stays attached to the same module and never ends, and
/// it ticks on no other module.
pub proof fn law_worker_stays(phase: Phase, notice: Notice, model: Model)
    requires
        attached(phase) is Some,
    ensures
        ({
            let (after, command) = worker::next(phase, notice, model);
            &&& attached(after) == attached(phase)
            &&& !(command is Exit)
            &&& command matches Command::Tick { module } ==> attached(phase) == Some(module)
        }),
{
}

/// The worker becomes attached only to a module that was found.
pub proof fn law_worker_attaches(phase: Phase, notice: Notice, model: Model)
    requires
        attached(phase) is None,
    ensures
        ({
            let (after, command) = worker::next(phase, notice, model);
            &&& !(command is Tick)
            &&& attached(after) matches Some(module) ==> {
                &&& notice == Notice::Found(Some(module))
                &&& command == Command::Log(worker::attach_line(module))
            }
        }),
{
}

} // verus!
