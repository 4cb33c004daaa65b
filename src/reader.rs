use vstd::prelude::*;

use crate::error::{Error, Result};

verus! {

/// The outcome of reading a varint that starts at some position of a byte string.
pub enum VarintParse {
    /// The varint ends before `end` and holds `value`.
    Value { value: int, end: int },
    /// The accumulated value outgrew `u32` at the byte before `end`.
    Overflow { end: int },
    /// The bytes ran out before the last group.
    Truncated,
}

/// Reads the varint at position `i` of `s`, with `acc` already accumulated: each byte
/// with the high bit set adds its low seven bits and shifts the sum left by seven; the
/// first byte without it adds itself and ends the number.
pub open spec fn parse_varint_from(s: Seq<u8>, i: int, acc: int) -> VarintParse
    decreases s.len() - i,
{
    if i < 0 || i >= s.len() {
        VarintParse::Truncated
    } else if s[i] < 128 {
        VarintParse::Value { value: acc + s[i], end: i + 1 }
    } else {
        let next = (acc + (s[i] - 128)) * 128;
        if next > u32::MAX {
            VarintParse::Overflow { end: i + 1 }
        } else {
            parse_varint_from(s, i + 1, next)
        }
    }
}

/// The varint at position `i` of `s`.
pub open spec fn parse_varint(s: Seq<u8>, i: int) -> VarintParse {
    parse_varint_from(s, i, 0)
}

/// The continuation groups of `x`: its base-128 digits, most significant first, each
/// with the high bit set.
pub open spec fn varint_prefix(x: nat) -> Seq<u8>
    decreases x,
{
    if x < 128 {
        seq![(x + 128) as u8]
    } else {
        varint_prefix(x / 128) + seq![((x % 128) + 128) as u8]
    }
}

/// The shortest varint encoding of `x`.
pub open spec fn varint_bytes(x: nat) -> Seq<u8> {
    if x < 128 {
        seq![x as u8]
    } else {
        varint_prefix(x / 128) + seq![(x % 128) as u8]
    }
}

/// Reading the continuation groups of `y` from position `i` leaves `y * 128` accumulated.
proof fn lemma_prefix_accumulates(y: nat, s: Seq<u8>, i: int)
    requires
        0 <= i,
        i + varint_prefix(y).len() <= s.len(),
        s.subrange(i, i + varint_prefix(y).len()) == varint_prefix(y),
        y * 128 <= u32::MAX,
    ensures
        parse_varint_from(s, i, 0) == parse_varint_from(s, i + varint_prefix(y).len(), (y * 128) as int),
    decreases y,
{
    if y < 128 {
        assert(s[i] == varint_prefix(y)[0]);
    } else {
        let head = varint_prefix(y / 128);
        let n = head.len() as int;
        assert(varint_prefix(y) == head + seq![((y % 128) + 128) as u8]);
        assert(varint_prefix(y).subrange(0, n) =~= head);
        assert(s.subrange(i, i + n) =~= varint_prefix(y).subrange(0, n));
        assert((y / 128) * 128 <= y);
        lemma_prefix_accumulates(y / 128, s, i);
        assert(s[i + n] == varint_prefix(y)[n]);
        assert(((y / 128) * 128 + y % 128) * 128 == y * 128);
    }
}

/// Decoding the shortest encoding of any 32-bit value, whatever follows it, gives the
/// value back and stops right after the encoding.
pub proof fn varint_round_trip(x: u32, rest: Seq<u8>)
    ensures
        parse_varint(varint_bytes(x as nat) + rest, 0)
            == (VarintParse::Value { value: x as int, end: varint_bytes(x as nat).len() as int }),
{
    let s = varint_bytes(x as nat) + rest;
    if x < 128 {
        assert(s[0] == x);
    } else {
        let y = (x / 128) as nat;
        let head = varint_prefix(y);
        let n = head.len() as int;
        assert(varint_bytes(x as nat) == head + seq![(x % 128) as u8]);
        assert(s.subrange(0, n) =~= head);
        assert(y * 128 <= x);
        lemma_prefix_accumulates(y, s, 0);
        assert(s[n] == (x % 128) as u8);
        assert(y * 128 + x % 128 == x);
    }
}

/// A byte source over an in-memory buffer.
#[derive(Debug)]
pub struct ByteReader {
    pub data: Vec<u8>,
    pub pos: usize,
}

impl ByteReader {
    pub open spec fn wf(&self) -> bool {
        self.pos <= self.data@.len()
    }

    /// The bytes not yet read.
    pub open spec fn rest(&self) -> Seq<u8> {
        self.data@.subrange(self.pos as int, self.data@.len() as int)
    }

    pub fn new(bytes: &[u8]) -> (r: ByteReader)
        ensures
            r.wf(),
            r.data@ == bytes@,
            r.pos == 0,
    {
        let mut data: Vec<u8> = Vec::new();
        let mut i: usize = 0;
        while i < bytes.len()
            invariant
                i <= bytes@.len(),
                data@ == bytes@.subrange(0, i as int),
            decreases bytes@.len() - i,
        {
            data.push(bytes[i]);
            i = i + 1;
        }
        assert(data@ == bytes@);
        ByteReader { data, pos: 0 }
    }

    /// Reads one byte.
    pub fn read_u8(&mut self) -> (r: Result<u8>)
        requires
            old(self).wf(),
        ensures
            final(self).wf(),
            final(self).data@ == old(self).data@,
            match r {
                Ok(b) => old(self).pos < old(self).data@.len() && b == old(self).data@[old(self).pos as int]
                    && final(self).pos == old(self).pos + 1,
                Err(e) => old(self).pos == old(self).data@.len() && e is UnexpectedEof
                    && final(self).pos == old(self).pos,
            },
    {
        if self.pos < self.data.len() {
            let b = self.data[self.pos];
            self.pos = self.pos + 1;
            Ok(b)
        } else {
            Err(Error::UnexpectedEof)
        }
    }

    /// Reads exactly `n` bytes.
    pub fn read_bytes(&mut self, n: usize) -> (r: Result<Vec<u8>>)
        requires
            old(self).wf(),
        ensures
            final(self).wf(),
            final(self).data@ == old(self).data@,
            match r {
                Ok(v) => old(self).pos + n <= old(self).data@.len()
                    && v@ == old(self).data@.subrange(old(self).pos as int, old(self).pos + n)
                    && final(self).pos == old(self).pos + n,
                Err(e) => old(self).pos + n > old(self).data@.len() && e is UnexpectedEof
                    && final(self).pos == old(self).pos,
            },
    {
        if n > self.data.len() - self.pos {
            return Err(Error::UnexpectedEof);
        }
        let start = self.pos;
        let mut v: Vec<u8> = Vec::new();
        let mut i: usize = 0;
        while i < n
            invariant
                start + n <= self.data.len(),
                i <= n,
                v@ == self.data@.subrange(start as int, start + i),
            decreases n - i,
        {
            v.push(self.data[start + i]);
            i = i + 1;
        }
        self.pos = start + n;
        Ok(v)
    }

    /// Reads an unsigned varint into a `u32`.
    pub fn read_varint(&mut self) -> (r: Result<u32>)
        requires
            old(self).wf(),
        ensures
            final(self).wf(),
            final(self).data@ == old(self).data@,
            match parse_varint(old(self).data@, old(self).pos as int) {
                VarintParse::Value { value, end } => (r matches Ok(v) && v == value)
                    && final(self).pos == end,
                VarintParse::Overflow { .. } => r matches Err(Error::InvalidVarint),
                VarintParse::Truncated => r matches Err(Error::UnexpectedEof),
            },
            r is Ok ==> final(self).pos > old(self).pos,
    {
        let ghost s = self.data@;
        let ghost start = self.pos as int;
        let mut acc: u32 = 0;
        loop
            invariant
                self.wf(),
                self.data@ == s,
                s == old(self).data@,
                start == old(self).pos,
                self.pos >= start,
                acc % 128 == 0,
                parse_varint_from(s, self.pos as int, acc as int) == parse_varint(s, start),
            decreases s.len() - self.pos,
        {
            let byte = match self.read_u8() {
                Ok(b) => b,
                Err(e) => {
                    return Err(e);
                },
            };
            if byte < 128 {
                return Ok(acc + byte as u32);
            }
            let low: u32 = (byte - 128) as u32;
            assert(acc + low <= u32::MAX);
            if acc + low > u32::MAX / 128 {
                return Err(Error::InvalidVarint);
            }
            acc = (acc + low) * 128;
        }
    }
}

} // verus!
