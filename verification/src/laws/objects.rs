//! Which of the game's objects are cameras, and which is the function that disables
//! dithering, told from the bytes of the memory.

use vstd::prelude::*;

use crate::buf;
use crate::cache;
use crate::cache::{ClassSlots, NameSlots};
use crate::laws::bytes::{
    answered, holds4, holds8, inside, law_numbers, law_taken_for, past, unreadable, word4, word8,
};
use crate::mem;
use crate::mem::{Answers, Miss, Module};
use crate::model;
use crate::model::{Described, Model};
use crate::names;
use crate::still;

verus! {

/// A name has all the characters of a text, in its place each, and up to two bytes
/// more.
pub open spec fn reads_as(name: Seq<u8>, text: Seq<char>) -> bool {
    &&& text.len() <= name.len()
    &&& name.len() - text.len() <= 2
    &&& forall|i: int| 0 <= i < text.len() ==> name[i] as int == (#[trigger] text[i]) as int
}

/// The bytes of a text in ASCII are its characters.
proof fn lemma_reads_as(name: Seq<u8>, s: &str)
    requires
        s.is_ascii(),
    ensures
        names::same_name(name, buf::text(s)) == reads_as(name, s@),
{
    let bytes = buf::text(s);
    vstd::string::is_ascii_spec_bytes(s);
    assert(vstd::utf8::is_ascii_chars(s@));
    assert(bytes.len() == s@.len());
    assert forall|i: int| 0 <= i < s@.len() implies bytes[i] as int == (#[trigger] s@[i]) as int by {
        assert(0 <= s@[i] < 128);
    }
    law_taken_for(name, bytes);
    if reads_as(name, s@) {
        assert forall|i: int| 0 <= i < bytes.len() implies name[i] == #[trigger] bytes[i] by {
            assert(name[i] as int == s@[i] as int);
        }
    }
    if names::same_name(name, bytes) {
        assert forall|i: int| 0 <= i < s@.len() implies name[i] as int == (#[trigger] s@[i]) as int by {
            assert(name[i] == bytes[i]);
        }
    }
}

/// A class is told by its name, and so is the function.
pub proof fn law_tags(name: Seq<u8>)
    ensures
        model::class_tag_of(name) == if reads_as(name, "PlayerCameraComponent"@) {
            1u32
        } else if reads_as(name, "Function"@) {
            2
        } else {
            0
        },
        model::name_tag_of(name) == if reads_as(name, "DisableCameraDither"@) {
            1u32
        } else {
            0
        },
{
    reveal_strlit("PlayerCameraComponent");
    reveal_strlit("Function");
    reveal_strlit("DisableCameraDither");
    lemma_reads_as(name, "PlayerCameraComponent");
    lemma_reads_as(name, "Function");
    lemma_reads_as(name, "DisableCameraDither");
}

/// Where the pool of names lies.
pub open spec fn pool(module: Module) -> usize {
    past(module.base, 0x0747CDC0)
}

/// A class has a vtable in the image and a name, whose id stands at `0x18` in it. The
/// name says what its objects are.
pub proof fn law_class(mem: Answers, module: Module, class: usize, vtable: usize, id: u32)
    ensures
        ({
            let tag = model::class_tag_at(mem, module, class);
            let none = Ok::<Option<u32>, Miss>(None);
            &&& unreadable(mem, class, 8) ==> tag == none
            &&& !answered(mem, class, 8) ==> tag == Err::<Option<u32>, Miss>(
                Miss { addr: class, len: 8 },
            )
            &&& holds8(mem, class, vtable as int) ==> if vtable != 0 && inside(module, vtable) {
                &&& unreadable(mem, past(class, 0x18), 4) ==> tag == none
                &&& !answered(mem, past(class, 0x18), 4) ==> tag == Err::<Option<u32>, Miss>(
                    Miss { addr: past(class, 0x18), len: 4 },
                )
                &&& holds4(mem, past(class, 0x18), id as int) ==> match names::name_at(
                    mem,
                    pool(module),
                    id,
                    64,
                ) {
                    Err(miss) => tag == Err::<Option<u32>, Miss>(miss),
                    Ok(name) => tag == Ok::<Option<u32>, Miss>(
                        if name.len() == 0 {
                            None
                        } else if reads_as(name, "PlayerCameraComponent"@) {
                            Some(1)
                        } else if reads_as(name, "Function"@) {
                            Some(2)
                        } else {
                            Some(0)
                        },
                    ),
                }
            } else {
                tag == none
            }
        }),
{
    law_numbers(mem, class, vtable as int);
    law_numbers(mem, past(class, 0x18), id as int);
    match names::name_at(mem, pool(module), id, 64) {
        Ok(name) => law_tags(name),
        Err(_) => {},
    }
}

/// The flags rule out that an object is a live instance: it is the default object of
/// its class, or an archetype.
pub open spec fn ruled_out(flags: int) -> bool {
    flags / 0x10 % 2 == 1 || flags / 0x20 % 2 == 1
}

/// A block of `0x28` bytes may be the beginning of a live object: a vtable in the
/// image at its beginning, flags at `0x08` that do not rule it out, and a class at
/// `0x10`.
pub open spec fn lives(b: Seq<u8>, module: Module) -> bool {
    let vtable = word8(b, 0);
    &&& b.len() == 0x28
    &&& vtable != 0
    &&& module.base <= vtable < module.base + module.size
    &&& !ruled_out(word4(b, 8))
    &&& word8(b, 0x10) != 0
}

/// Its pointers fit the machine's addresses.
pub open spec fn addresses(b: Seq<u8>) -> bool {
    b.len() == 0x28 ==> word8(b, 0) <= usize::MAX && word8(b, 0x10) <= usize::MAX
}

proof fn lemma_word8(b: Seq<u8>, at: int)
    requires
        0 <= at,
        at + 8 <= b.len(),
    ensures
        mem::le(b.subrange(at, at + 8)) == word8(b, at),
        0 <= word8(b, at) <= u64::MAX,
{
    crate::laws::bytes::law_little_endian(b.subrange(at, at + 8));
}

proof fn lemma_word4(b: Seq<u8>, at: int)
    requires
        0 <= at,
        at + 4 <= b.len(),
    ensures
        mem::le(b.subrange(at, at + 4)) == word4(b, at),
        0 <= word4(b, at) <= u32::MAX,
{
    crate::laws::bytes::law_little_endian(b.subrange(at, at + 4));
}

proof fn lemma_lives(b: Seq<u8>, module: Module)
    requires
        b.len() == 0x28,
        addresses(b),
    ensures
        ({
            let header = model::header_of(b);
            &&& model::plausible(header, module) == lives(b, module)
            &&& header.class == word8(b, 0x10)
            &&& header.name_id == word4(b, 0x18)
        }),
{
    lemma_word8(b, 0);
    lemma_word4(b, 8);
    lemma_word8(b, 0x10);
    lemma_word4(b, 0x18);
    let flags = model::header_of(b).flags;
    assert(flags & 0x30 == 0 <==> !(flags / 0x10 % 2 == 1 || flags / 0x20 % 2 == 1))
        by (bit_vector);
}

/// An object is what its class is, if its block of `0x28` bytes came back whole and may
/// be the beginning of a live object; the id of its name stands at `0x18` in it. What
/// the class is comes from the cache, or else from the memory. Anything else is nothing.
pub proof fn law_object(mem: Answers, module: Module, classes: ClassSlots, obj: usize)
    requires
        addresses(mem[(obj, 0x28)]),
    ensures
        ({
            let b = mem[(obj, 0x28)];
            let class = word8(b, 0x10) as usize;
            let d = model::described(mem, module, classes, obj);
            if !answered(mem, obj, 0x28) {
                d == Err::<Option<Described>, Miss>(Miss { addr: obj, len: 0x28 })
            } else if !lives(b, module) {
                d == Ok::<Option<Described>, Miss>(None)
            } else {
                match (match cache::class_lookup(classes, class) {
                    Some(tag) => Ok(Some(tag)),
                    None => model::class_tag_at(mem, module, class),
                }) {
                    Err(miss) => d == Err::<Option<Described>, Miss>(miss),
                    Ok(None) => d == Ok::<Option<Described>, Miss>(None),
                    Ok(Some(tag)) => d == Ok::<Option<Described>, Miss>(
                        Some(
                            Described { class, class_tag: tag, name_id: word4(b, 0x18) as u32 },
                        ),
                    ),
                }
            }
        }),
{
    let b = mem[(obj, 0x28)];
    if answered(mem, obj, 0x28) && b.len() == 0x28 {
        lemma_lives(b, module);
    }
}

/// What is told of the class of an object stays in the cache, and nothing is cached of
/// what is no object.
pub proof fn law_learned(classes: ClassSlots, d: Option<Described>, other: usize)
    ensures
        d is None ==> model::learned(classes, d) == classes,
        d is Some ==> cache::class_lookup(model::learned(classes, d), d->0.class) == Some(
            d->0.class_tag,
        ),
        d is Some && other as int / 8 % 0x800 != d->0.class as int / 8 % 0x800
            ==> cache::class_lookup(model::learned(classes, d), other) == cache::class_lookup(
            classes,
            other,
        ),
{
}

/// The caches hold `0x800` classes, by their address without its lowest three bits,
/// and as many names, by their id. What is stored leaves the other slots alone.
pub proof fn law_slots(
    classes: ClassSlots,
    class: usize,
    other: usize,
    names: NameSlots,
    id: u32,
    another: u32,
    tag: u32,
)
    ensures
        class as int / 8 % 0x800 != other as int / 8 % 0x800 ==> cache::class_lookup(
            cache::class_store(classes, class, tag),
            other,
        ) == cache::class_lookup(classes, other),
        class as int / 8 % 0x800 == other as int / 8 % 0x800 && class % 2 == 0 && other % 2 == 0
            && class != other ==> cache::class_lookup(
            cache::class_store(classes, class, tag),
            other,
        ) is None,
        id % 0x800 != another % 0x800 ==> cache::name_lookup(
            cache::name_store(names, id, tag),
            another,
        ) == cache::name_lookup(names, another),
        id % 0x800 == another % 0x800 && id != another ==> cache::name_lookup(
            cache::name_store(names, id, tag),
            another,
        ) is None,
        cache::class_lookup(Map::empty(), class) is None,
        cache::name_lookup(Map::empty(), id) is None,
{
    if class % 2 == 0 && other % 2 == 0 && class != other {
        crate::laws::law_class_store_others(classes, class, tag, other);
    }
}

/// The lowest bit of the address of a class does not tell classes apart.
pub proof fn law_lowest_bit(classes: ClassSlots, class: usize)
    requires
        class % 2 == 0,
        class < usize::MAX,
    ensures
        cache::class_lookup(classes, class) == cache::class_lookup(classes, (class + 1) as usize),
{
    let low = class as u64;
    assert((low + 1) as u64 | 1 == low | 1) by (bit_vector)
        requires
            low % 2 == 0,
    ;
}

/// The name of a function is told by its text, unless the cache tells of it.
pub proof fn law_function_name(mem: Answers, at: usize, names: NameSlots, id: u32)
    ensures
        ({
            let tag = model::name_tag_at(mem, at, names, id);
            match cache::name_lookup(names, id) {
                Some(cached) => tag == Ok::<u32, Miss>(cached),
                None => match names::name_at(mem, at, id, 64) {
                    Err(miss) => tag == Err::<u32, Miss>(miss),
                    Ok(name) => tag == Ok::<u32, Miss>(
                        if reads_as(name, "DisableCameraDither"@) {
                            1
                        } else {
                            0
                        },
                    ),
                },
            }
        }),
{
    match names::name_at(mem, at, id, 64) {
        Ok(name) => law_tags(name),
        Err(_) => {},
    }
}

/// An object is judged to be the function if and only if it is of the class of
/// functions and has its name. What was found out on the way is cached, and nothing
/// else changes.
pub proof fn law_judged(mem: Answers, module: Module, model: Model, func: usize)
    ensures
        ({
            let verdict = model::judged(mem, module, model, func);
            match model::described(mem, module, model.classes, func) {
                Err(miss) => verdict == Err::<(bool, Model), Miss>(miss),
                Ok(None) => verdict == Ok::<(bool, Model), Miss>((false, model)),
                Ok(Some(d)) => {
                    let learned = Model {
                        classes: cache::class_store(model.classes, d.class, d.class_tag),
                        ..model
                    };
                    if d.class_tag != 2 {
                        verdict == Ok::<(bool, Model), Miss>((false, learned))
                    } else {
                        match model::name_tag_at(mem, pool(module), model.names, d.name_id) {
                            Err(miss) => verdict == Err::<(bool, Model), Miss>(miss),
                            Ok(tag) => verdict == Ok::<(bool, Model), Miss>(
                                (
                                    tag == 1,
                                    Model {
                                        names: cache::name_store(model.names, d.name_id, tag),
                                        ..learned
                                    },
                                ),
                            ),
                        }
                    }
                },
            }
        }),
{
}

/// What a class is called in a memory, as far as that tells what its objects are.
pub open spec fn class_called(mem: Answers, module: Module, class: usize, text: Seq<char>) -> bool {
    let vtable = word8(mem[(class, 8)], 0);
    let id = word4(mem[(past(class, 0x18), 4)], 0) as u32;
    &&& mem[(class, 8)].len() == 8
    &&& vtable != 0
    &&& module.base <= vtable < module.base + module.size
    &&& mem[(past(class, 0x18), 4)].len() == 4
    &&& names::name_at(mem, pool(module), id, 64) matches Ok(name) && reads_as(name, text)
}

proof fn lemma_class_called(mem: Answers, module: Module, class: usize)
    requires
        still::whole(mem),
        mem[(class, 8)].len() == 8 ==> word8(mem[(class, 8)], 0) <= usize::MAX,
    ensures
        ({
            let tag = model::class_tag_at(mem, module, class);
            &&& tag is Ok
            &&& tag->Ok_0 == Some(1u32) <==> class_called(
                mem,
                module,
                class,
                "PlayerCameraComponent"@,
            )
            &&& tag->Ok_0 == Some(2u32) <==> class_called(mem, module, class, "Function"@)
                && !class_called(mem, module, class, "PlayerCameraComponent"@)
        }),
{
    reveal_strlit("PlayerCameraComponent");
    reveal_strlit("Function");
    still::lemma_whole(mem, module);
    assert(mem.dom().contains((class, 8usize)));
    assert(mem.dom().contains((past(class, 0x18), 4usize)));
    if mem[(class, 8)].len() == 8 {
        lemma_word8(mem[(class, 8)], 0);
        let vtable = word8(mem[(class, 8)], 0) as usize;
        assert(holds8(mem, class, vtable as int));
        if mem[(past(class, 0x18), 4)].len() == 4 {
            lemma_word4(mem[(past(class, 0x18), 4)], 0);
            let id = word4(mem[(past(class, 0x18), 4)], 0) as u32;
            assert(holds4(mem, past(class, 0x18), id as int));
            law_class(mem, module, class, vtable, id);
        } else {
            law_class(mem, module, class, vtable, 0);
        }
    } else {
        law_class(mem, module, class, 0, 0);
    }
}

/// The pointers at an object and at its class fit the machine's addresses.
pub open spec fn addressable(mem: Answers, obj: usize) -> bool {
    let b = mem[(obj, 0x28)];
    let class = word8(b, 0x10) as usize;
    &&& addresses(b)
    &&& mem[(class, 8)].len() == 8 ==> word8(mem[(class, 8)], 0) <= usize::MAX
}

/// The live cameras are the objects, as far as they may be live, whose class is called
/// `PlayerCameraComponent`, and no others.
pub proof fn law_camera(mem: Answers, module: Module, obj: usize)
    requires
        still::whole(mem),
        addressable(mem, obj),
    ensures
        still::is_camera(mem, module, obj) <==> {
            &&& obj != 0
            &&& lives(mem[(obj, 0x28)], module)
            &&& class_called(
                mem,
                module,
                word8(mem[(obj, 0x28)], 0x10) as usize,
                "PlayerCameraComponent"@,
            )
        },
{
    let class = word8(mem[(obj, 0x28)], 0x10) as usize;
    assert(mem.dom().contains((obj, 0x28usize)));
    law_object(mem, module, Map::empty(), obj);
    lemma_class_called(mem, module, class);
}

/// The function that disables dithering is any object, as far as it may be live, whose
/// class is called `Function` and whose name is `DisableCameraDither`, and no other.
pub proof fn law_disabler(mem: Answers, module: Module, obj: usize)
    requires
        still::whole(mem),
        addressable(mem, obj),
    ensures
        still::is_disabler(mem, module, obj) <==> {
            let b = mem[(obj, 0x28)];
            let class = word8(b, 0x10) as usize;
            let id = word4(b, 0x18) as u32;
            &&& obj != 0
            &&& lives(b, module)
            &&& class_called(mem, module, class, "Function"@)
            &&& names::name_at(mem, pool(module), id, 64) matches Ok(name) && reads_as(
                name,
                "DisableCameraDither"@,
            )
        },
{
    let b = mem[(obj, 0x28)];
    let class = word8(b, 0x10) as usize;
    let id = word4(b, 0x18) as u32;
    reveal_strlit("PlayerCameraComponent");
    reveal_strlit("Function");
    assert(mem.dom().contains((obj, 0x28usize)));
    still::lemma_whole(mem, module);
    law_object(mem, module, Map::empty(), obj);
    lemma_class_called(mem, module, class);
    assert(names::name_at(mem, pool(module), id, 64) is Ok);
    law_tags(names::name_at(mem, pool(module), id, 64)->Ok_0);
}

/// A camera is remembered behind the others, and once. Without room for more than 64,
/// it takes the place of one of them, each place in turn.
pub proof fn law_remembered(model: Model, cam: usize)
    requires
        model.known.len() <= 64,
    ensures
        ({
            let after = model::remembered(model, cam);
            let place = model.cursor as int % 64;
            &&& after == Model { known: after.known, cursor: after.cursor, ..model }
            &&& model.known.contains(cam) ==> after == model
            &&& !model.known.contains(cam) && model.known.len() < 64 ==> {
                &&& after.known.len() == model.known.len() + 1
                &&& after.known.last() == cam
                &&& forall|i: int|
                    0 <= i < model.known.len() ==> #[trigger] after.known[i] == model.known[i]
                &&& after.cursor == model.cursor
            }
            &&& !model.known.contains(cam) && model.known.len() == 64 ==> {
                &&& after.known.len() == 64
                &&& after.known[place] == cam
                &&& forall|i: int|
                    0 <= i < 64 && i != place ==> #[trigger] after.known[i] == model.known[i]
                &&& after.cursor == model.cursor.wrapping_add(1)
            }
        }),
{
}

} // verus!
