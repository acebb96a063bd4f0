//! What is known of the game's memory.
//!
//! A `Memory` holds the reads that were answered so far. Looking up a read that
//! has no answer yet gives a `Miss`: the caller carries the read out, records
//! the answer and asks again.

use vstd::prelude::*;

verus! {

/// The answers to reads: the address and the length that were asked for, and
/// the bytes that came back (fewer than asked for where the rest cannot be read).
pub type Answers = Map<(usize, usize), Seq<u8>>;

/// A read whose answer is not known yet.
#[derive(Clone, Copy, Debug, PartialEq, Eq, Structural)]
pub struct Miss {
    pub addr: usize,
    pub len: usize,
}

/// The value of little-endian bytes.
pub open spec fn le(bytes: Seq<u8>) -> nat
    decreases bytes.len(),
{
    if bytes.len() == 0 {
        0
    } else {
        bytes[0] as nat + 256 * le(bytes.drop_first())
    }
}

/// `256` to the power `n`.
pub open spec fn pow256(n: nat) -> nat
    decreases n,
{
    if n == 0 {
        1
    } else {
        256 * pow256((n - 1) as nat)
    }
}

/// `n` little-endian bytes hold a value below `256` to the power `n`.
pub proof fn lemma_le_bound(bytes: Seq<u8>)
    ensures
        le(bytes) < pow256(bytes.len()),
    decreases bytes.len(),
{
    if bytes.len() > 0 {
        lemma_le_bound(bytes.drop_first());
    }
}

/// The powers for the sizes of numbers.
pub proof fn lemma_pow256()
    ensures
        pow256(2) == 0x1_0000,
        pow256(4) == 0x1_0000_0000,
        pow256(8) == 0x1_0000_0000_0000_0000,
{
    reveal_with_fuel(pow256, 9);
}

proof fn lemma_pow256_monotone(a: nat, b: nat)
    requires
        a <= b,
    ensures
        pow256(a) <= pow256(b),
    decreases b,
{
    if a < b {
        lemma_pow256_monotone(a, (b - 1) as nat);
    }
}

/// The answer to a read of `len` bytes at `addr`.
pub open spec fn raw_at(answers: Answers, addr: usize, len: usize) -> Result<Seq<u8>, Miss> {
    if answers.dom().contains((addr, len)) {
        Ok(answers[(addr, len)])
    } else {
        Err(Miss { addr, len })
    }
}

/// The little-endian number of `len` bytes at `addr`: none where not all of them
/// can be read.
pub open spec fn number_at(answers: Answers, addr: usize, len: usize) -> Result<
    Option<nat>,
    Miss,
> {
    match raw_at(answers, addr, len) {
        Err(miss) => Err(miss),
        Ok(bytes) => Ok(
            if bytes.len() == len {
                Some(le(bytes))
            } else {
                None
            },
        ),
    }
}

pub open spec fn u16_at(answers: Answers, addr: usize) -> Result<Option<u16>, Miss> {
    match number_at(answers, addr, 2) {
        Err(miss) => Err(miss),
        Ok(None) => Ok(None),
        Ok(Some(n)) => Ok(Some(n as u16)),
    }
}

pub open spec fn u32_at(answers: Answers, addr: usize) -> Result<Option<u32>, Miss> {
    match number_at(answers, addr, 4) {
        Err(miss) => Err(miss),
        Ok(None) => Ok(None),
        Ok(Some(n)) => Ok(Some(n as u32)),
    }
}

pub open spec fn u64_at(answers: Answers, addr: usize) -> Result<Option<u64>, Miss> {
    match number_at(answers, addr, 8) {
        Err(miss) => Err(miss),
        Ok(None) => Ok(None),
        Ok(Some(n)) => Ok(Some(n as u64)),
    }
}

/// The pointer stored at `addr`: null where it cannot be read.
pub open spec fn pointer_at(answers: Answers, addr: usize) -> Result<usize, Miss> {
    match u64_at(answers, addr) {
        Err(miss) => Err(miss),
        Ok(None) => Ok(0),
        Ok(Some(v)) => Ok(v as usize),
    }
}

/// One answered read.
#[derive(Debug)]
struct Reading {
    addr: usize,
    len: usize,
    bytes: Vec<u8>,
}

/// The reads that were answered so far.
#[derive(Debug)]
pub struct Memory {
    readings: Vec<Reading>,
}

spec fn answers_of(readings: Seq<Reading>) -> Answers
    decreases readings.len(),
{
    if readings.len() == 0 {
        Map::empty()
    } else {
        let last = readings.last();
        answers_of(readings.drop_last()).insert((last.addr, last.len), last.bytes@)
    }
}

impl View for Memory {
    type V = Answers;

    closed spec fn view(&self) -> Answers {
        answers_of(self.readings@)
    }
}

impl Memory {
    /// Nothing has been read yet.
    pub fn new() -> (memory: Memory)
        ensures
            memory@ == Map::<(usize, usize), Seq<u8>>::empty(),
    {
        Memory { readings: Vec::new() }
    }

    /// Records what a read of `len` bytes at `addr` gave. Bytes past `len` were
    /// not asked for and are dropped; a later answer replaces an earlier one.
    pub fn record(&mut self, addr: usize, len: usize, bytes: Vec<u8>)
        ensures
            final(self)@ == old(self)@.insert(
                (addr, len),
                if bytes@.len() <= len {
                    bytes@
                } else {
                    bytes@.take(len as int)
                },
            ),
    {
        let mut kept = bytes;
        kept.truncate(len);
        let ghost before = self.readings@;
        self.readings.push(Reading { addr, len, bytes: kept });
        proof {
            assert(self.readings@.drop_last() =~= before);
            assert(bytes@.len() > len ==> kept@ =~= bytes@.take(len as int));
            assert(bytes@.len() <= len ==> kept@ =~= bytes@);
        }
    }

    /// What a read of `len` bytes at `addr` gave.
    pub fn raw(&self, addr: usize, len: usize) -> (r: Result<&Vec<u8>, Miss>)
        ensures
            match r {
                Ok(bytes) => raw_at(self@, addr, len) == Ok::<Seq<u8>, Miss>(bytes@),
                Err(miss) => raw_at(self@, addr, len) == Err::<Seq<u8>, Miss>(miss),
            },
    {
        let mut i: usize = self.readings.len();
        assert(self.readings@.take(i as int) =~= self.readings@);
        while i > 0
            invariant
                i <= self.readings@.len(),
                raw_at(self@, addr, len) == raw_at(
                    answers_of(self.readings@.take(i as int)),
                    addr,
                    len,
                ),
            decreases i,
        {
            i = i - 1;
            assert(self.readings@.take(i + 1).drop_last() =~= self.readings@.take(i as int));
            let reading = &self.readings[i];
            if reading.addr == addr && reading.len == len {
                return Ok(&reading.bytes);
            }
        }
        Err(Miss { addr, len })
    }
}

/// The number that `n` bytes of `bytes` from `at` on hold, the lowest byte first.
pub fn le_number(bytes: &Vec<u8>, at: usize, n: usize) -> (r: u64)
    requires
        at + n <= bytes@.len(),
        n <= 8,
    ensures
        r == le(bytes@.subrange(at as int, at + n)),
{
    let end: usize = bytes.len();
    let mut value: u64 = 0;
    let mut i: usize = n;
    while i > 0
        invariant
            i <= n <= 8,
            at + n <= end,
            end == bytes@.len(),
            value == le(bytes@.subrange(at + i, at + n)),
        decreases i,
    {
        i = i - 1;
        proof {
            let rest = bytes@.subrange(at + i, at + n);
            assert(rest.drop_first() =~= bytes@.subrange(at + i + 1, at + n));
            lemma_le_bound(rest.drop_first());
            lemma_pow256_monotone((n - i - 1) as nat, 7);
            assert(pow256(7) == 0x100_0000_0000_0000) by {
                reveal_with_fuel(pow256, 8);
            }
        }
        value = value * 256 + bytes[at + i] as u64;
    }
    value
}

/// Reads a 16-bit number: `None` where its bytes cannot all be read.
pub fn read_u16(memory: &Memory, addr: usize) -> (r: Result<Option<u16>, Miss>)
    ensures
        r == u16_at(memory@, addr),
{
    let bytes = memory.raw(addr, 2)?;
    if bytes.len() != 2 {
        return Ok(None);
    }
    proof {
        lemma_le_bound(bytes@);
        lemma_pow256();
        assert(bytes@.subrange(0, 2) =~= bytes@);
    }
    Ok(Some(le_number(bytes, 0, 2) as u16))
}

/// Reads a 32-bit number: `None` where its bytes cannot all be read.
pub fn read_u32(memory: &Memory, addr: usize) -> (r: Result<Option<u32>, Miss>)
    ensures
        r == u32_at(memory@, addr),
{
    let bytes = memory.raw(addr, 4)?;
    if bytes.len() != 4 {
        return Ok(None);
    }
    proof {
        lemma_le_bound(bytes@);
        lemma_pow256();
        assert(bytes@.subrange(0, 4) =~= bytes@);
    }
    Ok(Some(le_number(bytes, 0, 4) as u32))
}

/// Reads a 64-bit number: `None` where its bytes cannot all be read.
pub fn read_u64(memory: &Memory, addr: usize) -> (r: Result<Option<u64>, Miss>)
    ensures
        r == u64_at(memory@, addr),
{
    let bytes = memory.raw(addr, 8)?;
    if bytes.len() != 8 {
        return Ok(None);
    }
    proof {
        assert(bytes@.subrange(0, 8) =~= bytes@);
    }
    Ok(Some(le_number(bytes, 0, 8)))
}

/// Reads a pointer: null where it cannot be read.
pub fn read_pointer(memory: &Memory, addr: usize) -> (r: Result<usize, Miss>)
    ensures
        r == pointer_at(memory@, addr),
{
    match read_u64(memory, addr)? {
        Some(v) => Ok(v as usize),
        None => Ok(0),
    }
}

/// Where the game's image lies.
#[derive(Clone, Copy, Debug, PartialEq, Eq, Structural)]
pub struct Module {
    pub base: usize,
    pub size: usize,
}

impl Module {
    /// The address lies inside the image.
    pub open spec fn holds(self, addr: usize) -> bool {
        self.base <= addr < self.base + self.size
    }

    /// Whether `addr` lies inside the image.
    pub fn contains(&self, addr: usize) -> (r: bool)
        ensures
            r == self.holds(addr),
    {
        addr >= self.base && addr - self.base < self.size
    }
}

} // verus!
