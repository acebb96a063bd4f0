//! Log lines under construction.

use vstd::prelude::*;

verus! {

/// A log line under construction.
#[derive(Debug)]
pub struct Buf {
    bytes: Vec<u8>,
}

impl View for Buf {
    type V = Seq<u8>;

    closed spec fn view(&self) -> Seq<u8> {
        self.bytes@
    }
}

/// The bytes of a text.
pub open spec fn text(s: &str) -> Seq<u8> {
    vstd::utf8::encode_utf8(s@)
}

/// Every byte is ASCII, so that the bytes are text as they stand.
pub open spec fn ascii(bytes: Seq<u8>) -> bool {
    forall|i: int| 0 <= i < bytes.len() ==> #[trigger] bytes[i] < 0x80
}

/// The character for one digit: `0` to `9`, then `A` to `F`.
pub open spec fn digit(d: nat) -> u8 {
    if d < 10 {
        (48 + d) as u8
    } else {
        (55 + d) as u8
    }
}

/// `v` written in `base`, without leading zeros.
pub open spec fn digits(v: nat, base: nat) -> Seq<u8>
    decreases v,
{
    if base < 2 || v < base {
        seq![digit(v)]
    } else {
        proof {
            vstd::arithmetic::div_mod::lemma_div_decreases(v as int, base as int);
        }
        digits(v / base, base).push(digit(v % base))
    }
}

/// `bytes`, filled up with zeros in front to `width` bytes.
pub open spec fn padded(bytes: Seq<u8>, width: nat) -> Seq<u8> {
    if bytes.len() >= width {
        bytes
    } else {
        Seq::new((width - bytes.len()) as nat, |i: int| 48u8) + bytes
    }
}

impl Buf {
    /// An empty line.
    pub fn new() -> (b: Buf)
        ensures
            b@ == Seq::<u8>::empty(),
    {
        Buf { bytes: Vec::new() }
    }

    /// The line so far.
    pub fn as_bytes(&self) -> (r: &[u8])
        ensures
            r@ == self@,
    {
        self.bytes.as_slice()
    }

    /// Appends one byte.
    pub fn push_byte(&mut self, byte: u8)
        ensures
            final(self)@ == old(self)@.push(byte),
    {
        self.bytes.push(byte);
    }

    /// Appends bytes.
    pub fn push_bytes(&mut self, bytes: &[u8])
        ensures
            final(self)@ == old(self)@ + bytes@,
    {
        let ghost before = self@;
        let n: usize = bytes.len();
        let mut i: usize = 0;
        while i < n
            invariant
                i <= n,
                n == bytes@.len(),
                self@ == before + bytes@.take(i as int),
            decreases n - i,
        {
            self.bytes.push(bytes[i]);
            i = i + 1;
            assert(bytes@.take(i as int) =~= bytes@.take(i - 1).push(bytes@[i - 1]));
        }
        assert(bytes@.take(n as int) =~= bytes@);
    }

    /// Appends a text.
    pub fn push_str(&mut self, s: &str)
        ensures
            final(self)@ == old(self)@ + text(s),
    {
        self.push_bytes(s.as_bytes());
    }

    /// Appends `v` in decimal.
    pub fn push_u64(&mut self, v: u64)
        ensures
            final(self)@ == old(self)@ + digits(v as nat, 10),
    {
        self.push_digits(v, 10, 0);
    }

    /// Appends `v` in hexadecimal, with zeros in front up to `width` digits.
    pub fn push_hex(&mut self, v: u64, width: usize)
        ensures
            final(self)@ == old(self)@ + padded(digits(v as nat, 16), width as nat),
    {
        self.push_digits(v, 16, width);
    }

    fn push_digits(&mut self, v: u64, base: u64, width: usize)
        requires
            2 <= base <= 16,
        ensures
            final(self)@ == old(self)@ + padded(digits(v as nat, base as nat), width as nat),
    {
        let ghost all = digits(v as nat, base as nat);
        let mut low: Vec<u8> = Vec::new();
        let mut rest: u64 = v;
        while rest >= base
            invariant
                2 <= base <= 16,
                all == digits(rest as nat, base as nat) + low@.reverse(),
            decreases rest,
        {
            let d: u64 = rest % base;
            let ghost before = low@;
            low.push(if d < 10 { 48 + d as u8 } else { 55 + d as u8 });
            proof {
                assert(low@.reverse() =~= seq![low@.last()] + before.reverse());
                assert(digits(rest as nat, base as nat) == digits(
                    (rest / base) as nat,
                    base as nat,
                ).push(digit(d as nat)));
                assert(rest / base < rest) by (nonlinear_arith)
                    requires
                        rest >= base,
                        base >= 2,
                ;
            }
            rest = rest / base;
            assert(all =~= digits(rest as nat, base as nat) + low@.reverse());
        }
        let ghost before = low@;
        low.push(if rest < 10 { 48 + rest as u8 } else { 55 + rest as u8 });
        assert(low@.reverse() =~= seq![low@.last()] + before.reverse());
        assert(low@.reverse() =~= all);
        while low.len() < width
            invariant
                padded(all, width as nat) == padded(low@.reverse(), width as nat),
            decreases width - low@.len(),
        {
            let ghost before = low@;
            low.push(48);
            assert(low@.reverse() =~= seq![48u8] + before.reverse());
            assert(padded(low@.reverse(), width as nat) =~= padded(
                before.reverse(),
                width as nat,
            ));
        }
        let ghost front = self@;
        let ghost whole = low@.reverse();
        let mut i: usize = low.len();
        assert(front =~= front + whole.take(0));
        while i > 0
            invariant
                i <= low@.len(),
                whole == low@.reverse(),
                self@ == front + whole.take(low@.len() - i),
            decreases i,
        {
            i = i - 1;
            self.bytes.push(low[i]);
            assert(whole.take(low@.len() - i) =~= whole.take(low@.len() - i - 1).push(low@[i as int]));
        }
        assert(whole.take(low@.len() as int) =~= whole);
    }
}

} // verus!
