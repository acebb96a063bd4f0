//! What the numbers, names, objects and cameras of the game are in the bytes of its
//! memory.

use vstd::prelude::*;

use crate::mem;
use crate::mem::{Answers, Miss, Module};
use crate::model;
use crate::names;
use crate::still;

verus! {

/// Two bytes as a number, the lowest first.
pub open spec fn word2(b: Seq<u8>, at: int) -> int {
    b[at] + 0x100 * b[at + 1]
}

/// Four bytes as a number, the lowest first.
pub open spec fn word4(b: Seq<u8>, at: int) -> int {
    b[at] + 0x100 * b[at + 1] + 0x1_0000 * b[at + 2] + 0x100_0000 * b[at + 3]
}

/// Eight bytes as a number, the lowest first.
pub open spec fn word8(b: Seq<u8>, at: int) -> int {
    word4(b, at) + 0x1_0000_0000 * word4(b, at + 4)
}

/// A read was answered.
pub open spec fn answered(mem: Answers, addr: usize, len: usize) -> bool {
    mem.dom().contains((addr, len))
}

/// A read was answered, with fewer or more bytes than it asked for.
pub open spec fn unreadable(mem: Answers, addr: usize, len: usize) -> bool {
    answered(mem, addr, len) && mem[(addr, len)].len() != len
}

/// The two bytes at an address were read, and hold a number.
pub open spec fn holds2(mem: Answers, addr: usize, v: int) -> bool {
    answered(mem, addr, 2) && mem[(addr, 2)].len() == 2 && word2(mem[(addr, 2)], 0) == v
}

/// The four bytes at an address were read, and hold a number.
pub open spec fn holds4(mem: Answers, addr: usize, v: int) -> bool {
    answered(mem, addr, 4) && mem[(addr, 4)].len() == 4 && word4(mem[(addr, 4)], 0) == v
}

/// The eight bytes at an address were read, and hold a number.
pub open spec fn holds8(mem: Answers, addr: usize, v: int) -> bool {
    answered(mem, addr, 8) && mem[(addr, 8)].len() == 8 && word8(mem[(addr, 8)], 0) == v
}

/// The address so many bytes behind another one.
pub open spec fn past(addr: usize, n: int) -> usize {
    addr.wrapping_add(n as usize)
}

/// The address lies in the image.
pub open spec fn inside(module: Module, addr: usize) -> bool {
    module.base <= addr && addr < module.base + module.size
}

proof fn lemma_le_next(b: Seq<u8>)
    requires
        b.len() > 0,
    ensures
        mem::le(b) == b[0] + 256 * mem::le(b.drop_first()),
{
}

/// Little-endian bytes, written out.
proof fn lemma_le4(b: Seq<u8>)
    requires
        b.len() == 4,
    ensures
        mem::le(b) == word4(b, 0),
{
    let b1 = b.drop_first();
    let b2 = b1.drop_first();
    let b3 = b2.drop_first();
    lemma_le_next(b);
    lemma_le_next(b1);
    lemma_le_next(b2);
    lemma_le_next(b3);
    assert(mem::le(b3.drop_first()) == 0);
}

proof fn lemma_le2(b: Seq<u8>)
    requires
        b.len() == 2,
    ensures
        mem::le(b) == word2(b, 0),
{
    let b1 = b.drop_first();
    lemma_le_next(b);
    lemma_le_next(b1);
    assert(mem::le(b1.drop_first()) == 0);
}

proof fn lemma_le8(b: Seq<u8>)
    requires
        b.len() == 8,
    ensures
        mem::le(b) == word8(b, 0),
        0 <= mem::le(b) < 0x1_0000_0000_0000_0000,
{
    let b1 = b.drop_first();
    let b2 = b1.drop_first();
    let b3 = b2.drop_first();
    let b4 = b3.drop_first();
    lemma_le_next(b);
    lemma_le_next(b1);
    lemma_le_next(b2);
    lemma_le_next(b3);
    lemma_le4(b4);
}

/// A read gives the number that the bytes hold, the lowest byte first, and none if
/// not all of them came back. If it was not answered, that very read is missing.
pub proof fn law_numbers(mem: Answers, addr: usize, v: int)
    ensures
        holds2(mem, addr, v) ==> mem::u16_at(mem, addr) == Ok::<Option<u16>, Miss>(Some(v as u16)),
        holds4(mem, addr, v) ==> mem::u32_at(mem, addr) == Ok::<Option<u32>, Miss>(Some(v as u32)),
        holds8(mem, addr, v) ==> mem::u64_at(mem, addr) == Ok::<Option<u64>, Miss>(Some(v as u64)),
        holds8(mem, addr, v) && v <= usize::MAX ==> mem::pointer_at(mem, addr) == Ok::<
            usize,
            Miss,
        >(v as usize),
        unreadable(mem, addr, 2) ==> mem::u16_at(mem, addr) == Ok::<Option<u16>, Miss>(None),
        unreadable(mem, addr, 4) ==> mem::u32_at(mem, addr) == Ok::<Option<u32>, Miss>(None),
        unreadable(mem, addr, 8) ==> mem::u64_at(mem, addr) == Ok::<Option<u64>, Miss>(None),
        unreadable(mem, addr, 8) ==> mem::pointer_at(mem, addr) == Ok::<usize, Miss>(0),
        !answered(mem, addr, 2) ==> mem::u16_at(mem, addr) == Err::<Option<u16>, Miss>(
            Miss { addr, len: 2 },
        ),
        !answered(mem, addr, 4) ==> mem::u32_at(mem, addr) == Err::<Option<u32>, Miss>(
            Miss { addr, len: 4 },
        ),
        !answered(mem, addr, 8) ==> mem::u64_at(mem, addr) == Err::<Option<u64>, Miss>(
            Miss { addr, len: 8 },
        ),
        !answered(mem, addr, 8) ==> mem::pointer_at(mem, addr) == Err::<usize, Miss>(
            Miss { addr, len: 8 },
        ),
{
    if answered(mem, addr, 2) && mem[(addr, 2)].len() == 2 {
        lemma_le2(mem[(addr, 2)]);
    }
    if answered(mem, addr, 4) && mem[(addr, 4)].len() == 4 {
        lemma_le4(mem[(addr, 4)]);
    }
    if answered(mem, addr, 8) && mem[(addr, 8)].len() == 8 {
        lemma_le8(mem[(addr, 8)]);
    }
}

/// The bytes that a read of any length gives are those that came back for that very
/// read.
pub proof fn law_raw(mem: Answers, addr: usize, len: usize)
    ensures
        answered(mem, addr, len) ==> mem::raw_at(mem, addr, len) == Ok::<Seq<u8>, Miss>(
            mem[(addr, len)],
        ),
        !answered(mem, addr, len) ==> mem::raw_at(mem, addr, len) == Err::<Seq<u8>, Miss>(
            Miss { addr, len },
        ),
{
}

/// The numbers up to eight bytes long that a run of bytes holds are told by the
/// bytes, the lowest first.
pub proof fn law_little_endian(b: Seq<u8>)
    ensures
        b.len() == 0 ==> mem::le(b) == 0,
        b.len() > 0 ==> mem::le(b) == b[0] + 0x100 * mem::le(b.drop_first()),
        b.len() == 2 ==> mem::le(b) == word2(b, 0),
        b.len() == 4 ==> mem::le(b) == word4(b, 0),
        b.len() == 8 ==> mem::le(b) == word8(b, 0),
{
    if b.len() == 2 {
        lemma_le2(b);
    } else if b.len() == 4 {
        lemma_le4(b);
    } else if b.len() == 8 {
        lemma_le8(b);
    }
}

/// The image reaches from its base to its end: its first byte is in it, and the one
/// behind its last byte is not.
pub proof fn law_inside(module: Module, addr: usize)
    ensures
        module.holds(addr) == (module.base <= addr && addr - module.base < module.size),
        module.holds(addr) == inside(module, addr),
{
}

/// A name is taken for another if and only if it has all the bytes of it, in its
/// place each, and up to two more.
pub proof fn law_taken_for(src: Seq<u8>, tgt: Seq<u8>)
    ensures
        names::same_name(src, tgt) <==> {
            &&& tgt.len() <= src.len()
            &&& src.len() - tgt.len() <= 2
            &&& forall|i: int| 0 <= i < tgt.len() ==> src[i] == #[trigger] tgt[i]
        },
{
    if tgt.len() <= src.len() && forall|i: int| 0 <= i < tgt.len() ==> src[i] == #[trigger] tgt[i] {
        assert(src.take(tgt.len() as int) =~= tgt);
    }
    if names::same_name(src, tgt) {
        assert forall|i: int| 0 <= i < tgt.len() implies src[i] == #[trigger] tgt[i] by {
            assert(src.take(tgt.len() as int)[i] == src[i]);
        }
    }
}

/// The character number `i` of a stored name came back and may stand in a name: in a
/// wide name a character takes two bytes, the second of them zero.
pub open spec fn character(b: Seq<u8>, wide: bool, i: int) -> bool {
    if wide {
        2 * i + 1 < b.len() && 0x20 <= b[2 * i] < 0x7f && b[2 * i + 1] == 0
    } else {
        i < b.len() && 0x20 <= b[i] < 0x7f
    }
}

/// A text is what bytes hold of a name: its characters up to the limit, or up to the
/// first one that did not come back or may not stand in a name.
pub open spec fn text_of(text: Seq<u8>, b: Seq<u8>, wide: bool, limit: int) -> bool {
    &&& text.len() <= limit
    &&& text.len() < limit ==> !character(b, wide, text.len() as int)
    &&& forall|i: int|
        #![trigger text[i]]
        #![trigger character(b, wide, i)]
        0 <= i < text.len() ==> character(b, wide, i) && text[i] == (if wide {
            b[2 * i]
        } else {
            b[i]
        })
}

/// What is read of a stored name is its characters up to the limit, or up to the
/// first one that is none.
pub proof fn law_name_text(b: Seq<u8>, wide: bool, limit: nat)
    ensures
        text_of(names::name_text(b, wide, limit), b, wide, limit as int),
    decreases limit,
{
    if limit > 0 {
        let last = limit - 1;
        let front = names::name_text(b, wide, last as nat);
        law_name_text(b, wide, last as nat);
        assert(names::legible(b, wide, last) == character(b, wide, last));
        if front.len() == last && character(b, wide, last) {
            let c = if wide {
                b[2 * last]
            } else {
                b[last]
            };
            assert(names::name_text(b, wide, limit) == front.push(c));
        } else {
            assert(names::name_text(b, wide, limit) == front);
        }
    }
}

/// The least of three numbers.
pub open spec fn least(a: int, b: int, c: int) -> int {
    if a <= b && a <= c {
        a
    } else if b <= c {
        b
    } else {
        c
    }
}

/// A name stands in the block that the pool names for the upper half of its id, twice
/// the lower half behind its beginning: its length with the mark of wide names below
/// it, and then its characters, of which no more than 64 are read.
pub proof fn law_name(
    mem: Answers,
    pool: usize,
    id: u32,
    room: nat,
    block: usize,
    header: int,
)
    ensures
        ({
            let slot = past(pool, 0x10 + 8 * (id as int / 0x1_0000));
            let entry = past(block, 2 * (id as int % 0x1_0000));
            let wide = header % 2 == 1;
            let limit = least(header / 2, 64, room as int);
            let want = if wide {
                2 * limit
            } else {
                limit
            };
            let name = names::name_at(mem, pool, id, room);
            let none = Ok::<Seq<u8>, Miss>(Seq::empty());
            &&& !answered(mem, slot, 8) ==> name == Err::<Seq<u8>, Miss>(
                Miss { addr: slot, len: 8 },
            )
            &&& unreadable(mem, slot, 8) ==> name == none
            &&& holds8(mem, slot, 0) ==> name == none
            &&& holds8(mem, slot, block as int) && block != 0 ==> {
                &&& !answered(mem, entry, 2) ==> name == Err::<Seq<u8>, Miss>(
                    Miss { addr: entry, len: 2 },
                )
                &&& unreadable(mem, entry, 2) ==> name == none
                &&& holds2(mem, entry, header) && header < 2 ==> name == none
                &&& holds2(mem, entry, header) && header >= 2 ==> if answered(
                    mem,
                    past(entry, 2),
                    want as usize,
                ) {
                    name is Ok && text_of(
                        name->Ok_0,
                        mem[(past(entry, 2), want as usize)],
                        wide,
                        limit,
                    )
                } else {
                    name == Err::<Seq<u8>, Miss>(
                        Miss { addr: past(entry, 2), len: want as usize },
                    )
                }
            }
        }),
{
    let slot = past(pool, 0x10 + 8 * (id as int / 0x1_0000));
    let entry = past(block, 2 * (id as int % 0x1_0000));
    let wide = header % 2 == 1;
    let limit = least(header / 2, 64, room as int);
    let want = if wide {
        2 * limit
    } else {
        limit
    };
    assert(names::block_slot(pool, id) == slot);
    assert(names::entry_address(block, id) == entry);
    law_numbers(mem, slot, block as int);
    law_numbers(mem, slot, 0);
    law_numbers(mem, entry, header);
    if holds8(mem, slot, block as int) && block != 0 && holds2(mem, entry, header) && header >= 2 {
        let h = header as u16;
        assert(h == header);
        assert(names::name_limit(h, room) == limit);
        law_raw(mem, past(entry, 2), want as usize);
        law_name_text(mem[(past(entry, 2), want as usize)], wide, limit as nat);
    }
}

/// The class of an object is the pointer at `0x10` in it, and the object that it lies
/// in is the one at `0x20`.
pub proof fn law_class_and_outer(mem: Answers, obj: usize, p: usize)
    ensures
        holds8(mem, past(obj, 0x10), p as int) ==> names::class_at(mem, obj) == Ok::<usize, Miss>(
            p,
        ),
        unreadable(mem, past(obj, 0x10), 8) ==> names::class_at(mem, obj) == Ok::<usize, Miss>(0),
        !answered(mem, past(obj, 0x10), 8) ==> names::class_at(mem, obj) == Err::<usize, Miss>(
            Miss { addr: past(obj, 0x10), len: 8 },
        ),
        holds8(mem, past(obj, 0x20), p as int) ==> names::outer_at(mem, obj) == Ok::<usize, Miss>(
            p,
        ),
        unreadable(mem, past(obj, 0x20), 8) ==> names::outer_at(mem, obj) == Ok::<usize, Miss>(0),
        !answered(mem, past(obj, 0x20), 8) ==> names::outer_at(mem, obj) == Err::<usize, Miss>(
            Miss { addr: past(obj, 0x20), len: 8 },
        ),
{
    law_numbers(mem, past(obj, 0x10), p as int);
    law_numbers(mem, past(obj, 0x20), p as int);
}

/// The name of an object's class is the one whose id stands at `0x18` in the class at
/// `0x10` in the object, if the vtable of that class lies in the image.
pub proof fn law_class_name(
    mem: Answers,
    module: Module,
    pool: usize,
    obj: usize,
    room: nat,
    class: usize,
    vtable: usize,
    id: u32,
)
    ensures
        ({
            let name = names::class_name_at(mem, module, pool, obj, room);
            let none = Ok::<Seq<u8>, Miss>(Seq::empty());
            &&& unreadable(mem, past(obj, 0x10), 8) ==> name == none
            &&& holds8(mem, past(obj, 0x10), 0) ==> name == none
            &&& !answered(mem, past(obj, 0x10), 8) ==> name == Err::<Seq<u8>, Miss>(
                Miss { addr: past(obj, 0x10), len: 8 },
            )
            &&& holds8(mem, past(obj, 0x10), class as int) && class != 0 ==> {
                &&& unreadable(mem, class, 8) ==> name == none
                &&& !answered(mem, class, 8) ==> name == Err::<Seq<u8>, Miss>(
                    Miss { addr: class, len: 8 },
                )
                &&& holds8(mem, class, vtable as int) ==> if inside(module, vtable) {
                    &&& unreadable(mem, past(class, 0x18), 4) ==> name == none
                    &&& !answered(mem, past(class, 0x18), 4) ==> name == Err::<Seq<u8>, Miss>(
                        Miss { addr: past(class, 0x18), len: 4 },
                    )
                    &&& holds4(mem, past(class, 0x18), id as int) ==> name == names::name_at(
                        mem,
                        pool,
                        id,
                        room,
                    )
                } else {
                    name == none
                }
            }
        }),
{
    law_numbers(mem, past(obj, 0x10), class as int);
    law_numbers(mem, past(obj, 0x10), 0);
    law_numbers(mem, class, vtable as int);
    law_numbers(mem, past(class, 0x18), id as int);
}

/// The number of objects stands at `0x14` in the array, and is believed up to eight
/// millions.
pub proof fn law_count(mem: Answers, module: Module, n: u32)
    ensures
        ({
            let at = past(module.base, 0x07127C80int + 0x14);
            let count = model::count_at(mem, module);
            &&& holds4(mem, at, n as int) ==> count == Ok::<u32, Miss>(
                if n <= 8_000_000 {
                    n
                } else {
                    0
                },
            )
            &&& unreadable(mem, at, 4) ==> count == Ok::<u32, Miss>(0)
            &&& !answered(mem, at, 4) ==> count == Err::<u32, Miss>(Miss { addr: at, len: 4 })
        }),
{
    let at = past(module.base, 0x07127C80int + 0x14);
    assert(at == model::array_of(module).wrapping_add(model::OFF_NUM_ELEMENTS));
    law_numbers(mem, at, n as int);
}

/// The table of chunks stands at the beginning of the array, and is believed if the
/// number of chunks at `0x1C` is neither zero nor more than `0x1000`.
pub proof fn law_table(mem: Answers, module: Module, n: u32, table: usize)
    ensures
        ({
            let array = past(module.base, 0x07127C80);
            let at = past(module.base, 0x07127C80int + 0x1C);
            let chunks = model::chunks_at(mem, module);
            &&& unreadable(mem, at, 4) ==> chunks == Ok::<usize, Miss>(0)
            &&& !answered(mem, at, 4) ==> chunks == Err::<usize, Miss>(Miss { addr: at, len: 4 })
            &&& holds4(mem, at, n as int) ==> if 1 <= n <= 0x1000 {
                &&& holds8(mem, array, table as int) ==> chunks == Ok::<usize, Miss>(table)
                &&& unreadable(mem, array, 8) ==> chunks == Ok::<usize, Miss>(0)
                &&& !answered(mem, array, 8) ==> chunks == Err::<usize, Miss>(
                    Miss { addr: array, len: 8 },
                )
            } else {
                chunks == Ok::<usize, Miss>(0)
            }
        }),
{
    let array = past(module.base, 0x07127C80);
    let at = past(module.base, 0x07127C80int + 0x1C);
    assert(at == model::array_of(module).wrapping_add(model::OFF_NUM_CHUNKS));
    assert(array == model::array_of(module).wrapping_add(model::OFF_OBJECTS));
    law_numbers(mem, at, n as int);
    law_numbers(mem, array, table as int);
}

/// A chunk is the pointer with its number in the table. The object with a number is
/// the pointer in the entry of the chunk, of `0x18` bytes each, that is left over when
/// the number is divided by `0x10000`.
pub proof fn law_entry(mem: Answers, table: usize, chunk: usize, i: u32, p: usize)
    ensures
        ({
            let at = past(table, 8 * i);
            &&& model::chunk_of(mem, 0, i) == Ok::<usize, Miss>(0)
            &&& table != 0 && 8 * i <= usize::MAX ==> {
                &&& holds8(mem, at, p as int) ==> model::chunk_of(mem, table, i) == Ok::<
                    usize,
                    Miss,
                >(p)
                &&& unreadable(mem, at, 8) ==> model::chunk_of(mem, table, i) == Ok::<usize, Miss>(
                    0,
                )
                &&& !answered(mem, at, 8) ==> model::chunk_of(mem, table, i) == Err::<
                    usize,
                    Miss,
                >(Miss { addr: at, len: 8 })
            }
        }),
        ({
            let at = past(chunk, 0x18 * (i as int % 0x1_0000));
            &&& model::item_of(mem, 0, i) == Ok::<usize, Miss>(0)
            &&& chunk != 0 ==> {
                &&& holds8(mem, at, p as int) ==> model::item_of(mem, chunk, i) == Ok::<
                    usize,
                    Miss,
                >(p)
                &&& unreadable(mem, at, 8) ==> model::item_of(mem, chunk, i) == Ok::<usize, Miss>(
                    0,
                )
                &&& !answered(mem, at, 8) ==> model::item_of(mem, chunk, i) == Err::<usize, Miss>(
                    Miss { addr: at, len: 8 },
                )
            }
        }),
{
    if 8 * i <= usize::MAX {
        vstd::arithmetic::div_mod::lemma_small_mod((8 * i) as nat, (usize::MAX + 1) as nat);
        assert((i as usize).wrapping_mul(8) == 8 * i);
    }
    law_numbers(mem, past(table, 8 * i), p as int);
    law_numbers(mem, past(chunk, 0x18 * (i as int % 0x1_0000)), p as int);
}

/// What a scan takes for the object with a number is the pointer that the memory holds
/// for it: in the chunk that the table names for the upper half of the number, at the
/// entry that the lower half says. Without the table, the chunk or the entry it is
/// null.
pub proof fn law_slot(mem: Answers, table: usize, chunk: usize, i: u32, p: usize)
    requires
        still::whole(mem),
    ensures
        still::slot_in(mem, 0, i as int) == 0,
        table != 0 ==> {
            let named = past(table, 8 * (i as int / 0x1_0000));
            let entry = past(chunk, 0x18 * (i as int % 0x1_0000));
            &&& unreadable(mem, named, 8) ==> still::slot_in(mem, table, i as int) == 0
            &&& holds8(mem, named, 0) ==> still::slot_in(mem, table, i as int) == 0
            &&& holds8(mem, named, chunk as int) && chunk != 0 ==> {
                &&& holds8(mem, entry, p as int) ==> still::slot_in(mem, table, i as int) == p
                &&& unreadable(mem, entry, 8) ==> still::slot_in(mem, table, i as int) == 0
            }
        },
{
    law_entry(mem, table, chunk, (i / 0x1_0000) as u32, chunk);
    law_entry(mem, table, chunk, (i / 0x1_0000) as u32, 0);
    law_entry(mem, table, chunk, i, p);
}

/// A camera is called at the address in slot `0x44` of its vtable, if and only if that
/// address and the vtable lie in the image, wherever in it.
pub proof fn law_callable(mem: Answers, module: Module, cam: usize, vtable: usize, target: usize)
    ensures
        ({
            let slot = past(vtable, 0x44int * 8);
            let to = model::target_at(mem, module, cam);
            let none = Ok::<Option<usize>, Miss>(None);
            &&& unreadable(mem, cam, 8) ==> to == none
            &&& !answered(mem, cam, 8) ==> to == Err::<Option<usize>, Miss>(
                Miss { addr: cam, len: 8 },
            )
            &&& holds8(mem, cam, vtable as int) ==> if vtable != 0 && inside(module, vtable) {
                &&& unreadable(mem, slot, 8) ==> to == none
                &&& !answered(mem, slot, 8) ==> to == Err::<Option<usize>, Miss>(
                    Miss { addr: slot, len: 8 },
                )
                &&& holds8(mem, slot, target as int) ==> to == Ok::<Option<usize>, Miss>(
                    if target != 0 && inside(module, target) {
                        Some(target)
                    } else {
                        None
                    },
                )
            } else {
                to == none
            }
        }),
{
    law_numbers(mem, cam, vtable as int);
    law_numbers(mem, past(vtable, 0x44int * 8), target as int);
}

} // verus!
