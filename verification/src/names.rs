//! Names of the game's objects and classes.

use vstd::prelude::*;

use crate::buf::Buf;
use crate::mem::{read_pointer, read_u16, read_u32, read_u64, Memory, Miss, Module};

verus! {

/// Object header: vtable at `0x00`, flags at `0x08`, index at `0x0C`, class at
/// `0x10`, name at `0x18`, outer object at `0x20`.
pub const OFF_CLASS: usize = 0x10;

pub const OFF_NAME: usize = 0x18;

pub const OFF_OUTER: usize = 0x20;

/// Class default objects (`0x10`) and archetypes (`0x20`): never live instances.
pub const SKIP_FLAGS: u32 = 0x30;

/// Where the name pool keeps its table of blocks.
pub const POOL_BLOCKS: usize = 0x10;

/// The size of the header in front of a name's characters.
pub const ENTRY_HEADER: usize = 2;

/// Names longer than this are cut.
pub const MAX_NAME: usize = 64;

/// A name is taken for another if it is equal to it but for up to two bytes more
/// at its end.
pub open spec fn same_name(src: Seq<u8>, tgt: Seq<u8>) -> bool {
    tgt.is_prefix_of(src) && src.len() <= tgt.len() + 2
}

/// Whether the name `src` is taken for `tgt`.
pub fn matches(src: &[u8], tgt: &[u8]) -> (r: bool)
    ensures
        r == same_name(src@, tgt@),
{
    if src.len() < tgt.len() || src.len() - tgt.len() > 2 {
        return false;
    }
    let n: usize = tgt.len();
    let mut i: usize = 0;
    while i < n
        invariant
            i <= n,
            n == tgt@.len(),
            n <= src@.len(),
            src@.take(i as int) == tgt@.take(i as int),
        decreases n - i,
    {
        if src[i] != tgt[i] {
            assert(src@.take(n as int)[i as int] != tgt@[i as int]);
            return false;
        }
        i = i + 1;
        assert(src@.take(i as int) =~= src@.take(i - 1).push(src@[i - 1]));
        assert(tgt@.take(i as int) =~= tgt@.take(i - 1).push(tgt@[i - 1]));
    }
    assert(tgt@.take(n as int) =~= tgt@);
    true
}

/// The characters that a name may hold.
pub open spec fn printable(c: u8) -> bool {
    0x20 <= c < 0x7f
}

/// The character number `i` of a stored name was read and is legible. Wide names
/// take two bytes a character, the second of them zero.
pub open spec fn legible(bytes: Seq<u8>, wide: bool, i: int) -> bool {
    if wide {
        2 * i + 1 < bytes.len() && bytes[2 * i + 1] == 0 && printable(bytes[2 * i])
    } else {
        i < bytes.len() && printable(bytes[i])
    }
}

/// The longest legible beginning of a stored name, of at most `limit` characters.
pub open spec fn name_text(bytes: Seq<u8>, wide: bool, limit: nat) -> Seq<u8>
    decreases limit,
{
    if limit == 0 {
        Seq::empty()
    } else {
        let last = limit - 1;
        let front = name_text(bytes, wide, last as nat);
        if front.len() == last && legible(bytes, wide, last) {
            front.push(
                if wide {
                    bytes[2 * last]
                } else {
                    bytes[last]
                },
            )
        } else {
            front
        }
    }
}

/// How many characters of a name are wanted: its header holds its length above
/// the lowest bit, the cut is at `MAX_NAME`, and there is room for `room`.
pub open spec fn name_limit(header: u16, room: nat) -> nat {
    let len = (header / 2) as nat;
    let cut = if len > MAX_NAME {
        MAX_NAME as nat
    } else {
        len
    };
    if room < cut {
        room
    } else {
        cut
    }
}

/// The address of the pool's pointer to the block that holds name `id`.
pub open spec fn block_slot(pool: usize, id: u32) -> usize {
    pool.wrapping_add(POOL_BLOCKS).wrapping_add(((id / 0x1_0000) * 8) as usize)
}

/// The address of the entry of name `id` in its block.
pub open spec fn entry_address(block: usize, id: u32) -> usize {
    block.wrapping_add(((id % 0x1_0000) * 2) as usize)
}

/// The text of a pool entry.
pub open spec fn entry_text(answers: crate::mem::Answers, entry: usize, room: nat) -> Result<
    Seq<u8>,
    Miss,
> {
    match crate::mem::u16_at(answers, entry) {
        Err(miss) => Err(miss),
        Ok(None) => Ok(Seq::empty()),
        Ok(Some(header)) => {
            let wide = header % 2 == 1;
            let limit = name_limit(header, room);
            if header / 2 == 0 {
                Ok(Seq::empty())
            } else {
                match crate::mem::raw_at(
                    answers,
                    entry.wrapping_add(ENTRY_HEADER),
                    if wide {
                        (2 * limit) as usize
                    } else {
                        limit as usize
                    },
                ) {
                    Err(miss) => Err(miss),
                    Ok(bytes) => Ok(name_text(bytes, wide, limit)),
                }
            }
        },
    }
}

/// The text of name `id`, cut to `room` characters: empty where it cannot be
/// resolved.
pub open spec fn name_at(
    answers: crate::mem::Answers,
    pool: usize,
    id: u32,
    room: nat,
) -> Result<Seq<u8>, Miss> {
    match crate::mem::u64_at(answers, block_slot(pool, id)) {
        Err(miss) => Err(miss),
        Ok(None) => Ok(Seq::empty()),
        Ok(Some(block)) => if block == 0 {
            Ok(Seq::empty())
        } else {
            entry_text(answers, entry_address(block as usize, id), room)
        },
    }
}

/// The class of an object: null where it cannot be read.
pub open spec fn class_at(answers: crate::mem::Answers, obj: usize) -> Result<usize, Miss> {
    crate::mem::pointer_at(answers, obj.wrapping_add(OFF_CLASS))
}

/// The object that an object lies in: null where it cannot be read.
pub open spec fn outer_at(answers: crate::mem::Answers, obj: usize) -> Result<usize, Miss> {
    crate::mem::pointer_at(answers, obj.wrapping_add(OFF_OUTER))
}

/// The name of an object's class, cut to `room` characters: empty where it cannot
/// be resolved. A class lies on the heap, but its vtable lies in the game's image.
pub open spec fn class_name_at(
    answers: crate::mem::Answers,
    module: Module,
    pool: usize,
    obj: usize,
    room: nat,
) -> Result<Seq<u8>, Miss> {
    match class_at(answers, obj) {
        Err(miss) => Err(miss),
        Ok(class) => if class == 0 {
            Ok(Seq::empty())
        } else {
            match crate::mem::u64_at(answers, class) {
                Err(miss) => Err(miss),
                Ok(None) => Ok(Seq::empty()),
                Ok(Some(vtable)) => if !module.holds(vtable as usize) {
                    Ok(Seq::empty())
                } else {
                    match crate::mem::u32_at(answers, class.wrapping_add(OFF_NAME)) {
                        Err(miss) => Err(miss),
                        Ok(None) => Ok(Seq::empty()),
                        Ok(Some(id)) => name_at(answers, pool, id, room),
                    }
                },
            }
        },
    }
}

/// A name shown in a log line: `?` where it cannot be resolved.
pub open spec fn shown_name(name: Seq<u8>) -> Seq<u8> {
    if name.len() == 0 {
        seq![63u8]
    } else {
        name
    }
}

proof fn lemma_name_text_end(bytes: Seq<u8>, wide: bool, n: nat, limit: nat)
    requires
        n <= limit,
        name_text(bytes, wide, n).len() == n,
        n == limit || !legible(bytes, wide, n as int),
    ensures
        name_text(bytes, wide, limit) == name_text(bytes, wide, n),
    decreases limit,
{
    if n < limit {
        lemma_name_text_end(bytes, wide, n, (limit - 1) as nat);
    }
}

/// Reads the text of name `id` into the front of `out`, and says how long it is.
pub fn read_fname(memory: &Memory, pool: usize, id: u32, out: &mut [u8]) -> (r: Result<
    usize,
    Miss,
>)
    ensures
        match name_at(memory@, pool, id, old(out)@.len()) {
            Err(miss) => r == Err::<usize, Miss>(miss) && final(out)@ == old(out)@,
            Ok(name) => {
                &&& r == Ok::<usize, Miss>(name.len() as usize)
                &&& name.len() <= old(out)@.len()
                &&& final(out)@ == name + old(out)@.skip(name.len() as int)
            },
        },
{
    let ghost before = out@;
    let room: usize = out.len();
    proof {
        assert(id >> 16 == id / 0x1_0000) by (bit_vector);
        assert(id & 0xFFFF == id % 0x1_0000) by (bit_vector);
        assert(before =~= Seq::<u8>::empty() + before.skip(0));
    }
    let slot: usize = pool.wrapping_add(POOL_BLOCKS).wrapping_add((id >> 16) as usize * 8);
    let block: usize = match read_u64(memory, slot)? {
        Some(v) => if v != 0 {
            v as usize
        } else {
            return Ok(0);
        },
        None => return Ok(0),
    };
    let entry: usize = block.wrapping_add((id & 0xFFFF) as usize * 2);
    let header: u16 = match read_u16(memory, entry)? {
        Some(v) => v,
        None => return Ok(0),
    };
    proof {
        assert(header >> 1 == header / 2) by (bit_vector);
        assert(header & 1 == header % 2) by (bit_vector);
    }
    let len: usize = (header >> 1) as usize;
    let wide: bool = (header & 1) != 0;
    if len == 0 {
        return Ok(0);
    }
    let cut: usize = if len > MAX_NAME {
        MAX_NAME
    } else {
        len
    };
    let limit: usize = if room < cut {
        room
    } else {
        cut
    };
    let want: usize = if wide {
        limit * 2
    } else {
        limit
    };
    let bytes = memory.raw(entry.wrapping_add(ENTRY_HEADER), want)?;
    let got: usize = bytes.len();
    let mut n: usize = 0;
    let mut going: bool = true;
    while going && n < limit
        invariant
            n <= limit <= room,
            limit <= MAX_NAME,
            got == bytes@.len(),
            out@.len() == room,
            before.len() == room,
            name_text(bytes@, wide, n as nat).len() == n,
            out@ == name_text(bytes@, wide, n as nat) + before.skip(n as int),
            !going ==> !legible(bytes@, wide, n as int),
        decreases limit - n, (if going { 1int } else { 0int }),
    {
        let at: usize = if wide {
            2 * n
        } else {
            n
        };
        let mut ok: bool = at < got;
        if ok && wide {
            ok = at + 1 < got && bytes[at + 1] == 0;
        }
        if ok {
            ok = 0x20 <= bytes[at] && bytes[at] < 0x7f;
        }
        assert(ok == legible(bytes@, wide, n as int));
        if ok {
            out[n] = bytes[at];
            n = n + 1;
            assert(out@ =~= name_text(bytes@, wide, n as nat) + before.skip(n as int));
        } else {
            going = false;
        }
    }
    proof {
        lemma_name_text_end(bytes@, wide, n as nat, limit as nat);
    }
    Ok(n)
}

/// Reads the name of the class of `obj` into the front of `out`, and says how
/// long it is.
pub fn class_name(
    memory: &Memory,
    module: &Module,
    pool: usize,
    obj: usize,
    out: &mut [u8],
) -> (r: Result<usize, Miss>)
    ensures
        match class_name_at(memory@, *module, pool, obj, old(out)@.len()) {
            Err(miss) => r == Err::<usize, Miss>(miss) && final(out)@ == old(out)@,
            Ok(name) => {
                &&& r == Ok::<usize, Miss>(name.len() as usize)
                &&& name.len() <= old(out)@.len()
                &&& final(out)@ == name + old(out)@.skip(name.len() as int)
            },
        },
{
    assert(out@ =~= Seq::<u8>::empty() + out@.skip(0));
    let class: usize = class_of(memory, obj)?;
    if class == 0 {
        return Ok(0);
    }
    match read_u64(memory, class)? {
        Some(v) => if !module.contains(v as usize) {
            return Ok(0);
        },
        None => return Ok(0),
    }
    let id: u32 = match read_u32(memory, class.wrapping_add(OFF_NAME))? {
        Some(v) => v,
        None => return Ok(0),
    };
    read_fname(memory, pool, id, out)
}

/// The class of `obj`: null where it cannot be read.
pub fn class_of(memory: &Memory, obj: usize) -> (r: Result<usize, Miss>)
    ensures
        r == class_at(memory@, obj),
{
    read_pointer(memory, obj.wrapping_add(OFF_CLASS))
}

/// The object that `obj` lies in: null where it cannot be read.
pub fn outer_of(memory: &Memory, obj: usize) -> (r: Result<usize, Miss>)
    ensures
        r == outer_at(memory@, obj),
{
    read_pointer(memory, obj.wrapping_add(OFF_OUTER))
}

/// Appends the name of the class of `obj`: `?` where it cannot be resolved.
pub fn push_class_name(
    b: &mut Buf,
    memory: &Memory,
    module: &Module,
    pool: usize,
    obj: usize,
) -> (r: Result<(), Miss>)
    ensures
        match class_name_at(memory@, *module, pool, obj, MAX_NAME as nat) {
            Err(miss) => r == Err::<(), Miss>(miss) && final(b)@ == old(b)@,
            Ok(name) => r == Ok::<(), Miss>(()) && final(b)@ == old(b)@ + shown_name(name),
        },
{
    let mut out: Vec<u8> = vec![0u8; MAX_NAME];
    let len: usize = class_name(memory, module, pool, obj, out.as_mut_slice())?;
    if len == 0 {
        b.push_byte(63);
    } else {
        out.truncate(len);
        b.push_bytes(out.as_slice());
    }
    Ok(())
}

} // verus!
