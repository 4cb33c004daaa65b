use vstd::prelude::*;

use crate::chances::{ChanceTable, ChanceTableEntry, UpdateTable, TABLE_SIZE};
use crate::reader::ByteReader;
use crate::roundtrip::{encoder_renorm, encoder_split, encoder_step, lemma_number_all_ff, lemma_number_bounds, lemma_number_increment, lemma_number_push, number, writer_value};
use vstd::arithmetic::power::{lemma_pow0, lemma_pow1, lemma_pow_adds, lemma_pow_positive, pow};

verus! {

/// Below or at this range the coder shifts in another byte.
pub const MIN_RANGE: u32 = 0x1_0000;

/// The range right after initialisation: 24 bits.
pub const MAX_RANGE: u32 = 0x100_0000;

/// `chance / 4096` of `range`, rounded, computed without overflowing 32 bits.
pub open spec fn scaled_chance(chance: int, range: int) -> int {
    (range / 4096) * chance + ((range % 4096) * chance + 2048) / 4096
}

/// The byte at `pos`, or `0xFF` past the end of the input.
pub open spec fn byte_or_ff(data: Seq<u8>, pos: int) -> int {
    if 0 <= pos < data.len() { data[pos] as int } else { 0xFF }
}

/// The position after reading one byte at `pos`.
pub open spec fn pos_after(data: Seq<u8>, pos: int) -> int {
    if pos < data.len() { pos + 1 } else { pos }
}

/// The coder's state: range, low register and input position.
pub struct RacState {
    pub range: int,
    pub low: int,
    pub pos: int,
}

/// One renormalisation step: shift in a byte when the range has fallen to `MIN_RANGE`.
pub open spec fn renorm_step(s: RacState, data: Seq<u8>) -> RacState {
    if s.range <= MIN_RANGE {
        RacState {
            range: s.range * 256,
            low: s.low * 256 + byte_or_ff(data, s.pos),
            pos: pos_after(data, s.pos),
        }
    } else {
        s
    }
}

/// Decides one bit whose true side has width `c`, then renormalises twice.
pub open spec fn decode_step(s: RacState, data: Seq<u8>, c: int) -> (bool, RacState) {
    let bit = s.low >= s.range - c;
    let mid = if bit {
        RacState { range: c, low: s.low - (s.range - c), pos: s.pos }
    } else {
        RacState { range: s.range - c, low: s.low, pos: s.pos }
    };
    (bit, renorm_step(renorm_step(mid, data), data))
}

/// The value of the first three bytes, each missing one read as `0xFF`.
pub open spec fn initial_low(data: Seq<u8>, pos: int) -> int {
    byte_or_ff(data, pos) * 0x1_0000 + byte_or_ff(data, pos_after(data, pos)) * 0x100
        + byte_or_ff(data, pos_after(data, pos_after(data, pos)))
}

/// The interval an encoder keeps after coding `bit` with chance `chance / 4096` from the
/// interval `[lo, lo + range)`: the top part of width `scaled_chance` for a true bit,
/// the rest for a false one. The pair is the new low end and the new range.
pub open spec fn encode_interval(lo: int, range: int, chance: int, bit: bool) -> (int, int) {
    let c = scaled_chance(chance, range);
    if bit { (lo + range - c, c) } else { (lo, range - c) }
}

/// One step of the range coder inverts one step of a mirror encoder: when the number `w`
/// that a decoder stands on lies in the interval the encoder kept for `bit`, a decoder
/// whose low register is `w - lo` decides `bit`, and before renormalising it holds the
/// encoder's new range and the distance of `w` from the encoder's new low end.
pub proof fn bit_round_trip(lo: int, range: int, chance: int, bit: bool, w: int, pos: int, data: Seq<u8>)
    requires
        MIN_RANGE < range <= MAX_RANGE,
        1 <= chance < 4096,
        encode_interval(lo, range, chance, bit).0 <= w < encode_interval(lo, range, chance, bit).0
            + encode_interval(lo, range, chance, bit).1,
    ensures
        ({
            let (b, next) = decode_step(RacState { range, low: w - lo, pos }, data, scaled_chance(chance, range));
            let (lo2, range2) = encode_interval(lo, range, chance, bit);
            &&& b == bit
            &&& next == renorm_step(renorm_step(RacState { range: range2, low: w - lo2, pos }, data), data)
        }),
{
}

/// A binary range coder. As a decoder it reads from `io`; as an encoder it appends to
/// `io.data`.
#[derive(Debug)]
pub struct Rac {
    pub io: ByteReader,
    pub range: u32,
    pub low: u32,
}

fn apply_chance(chance: u32, range: u32) -> (r: u32)
    requires
        chance < 4096,
        range <= MAX_RANGE,
    ensures
        r == scaled_chance(chance as int, range as int),
        r <= range - range / 4096,
        chance > 0 ==> r >= range / 4096,
        chance == 0 ==> r == 0,
{
    let q = range / 4096;
    let m = range % 4096;
    assert(q * chance <= 0x1000 * 4096) by (nonlinear_arith)
        requires q <= 0x1000, chance < 4096;
    assert(m * chance < 4096 * 4096) by (nonlinear_arith)
        requires m < 4096, chance < 4096;
    let lower = (m * chance + 2048) / 4096;
    let upper = q * chance;
    assert(upper + lower <= range - q) by (nonlinear_arith)
        requires
            range == q * 4096 + m, m < 4096, chance < 4096, upper == q * chance,
            lower == (m * chance + 2048) / 4096, q >= 0;
    assert(chance > 0 ==> upper >= q) by (nonlinear_arith)
        requires upper == q * chance, q >= 0;
    upper + lower
}

impl Rac {
    /// The state of a decoder: its range is more than `MIN_RANGE` and at most 24 bits,
    /// and its low register lies below the range.
    pub open spec fn wf(&self) -> bool {
        &&& self.io.wf()
        &&& MIN_RANGE < self.range <= MAX_RANGE
        &&& self.low < self.range
    }

    /// The state of an encoder: a range of more than `MIN_RANGE` and at most 24 bits, a
    /// low register below 2^24 whose carries have gone into the bytes written, and an
    /// interval inside the one it started with.
    pub open spec fn wf_writer(&self) -> bool {
        &&& MIN_RANGE < self.range <= MAX_RANGE
        &&& self.low < MAX_RANGE
        &&& self.writer_state().lo + self.range <= MAX_RANGE * pow(256, self.io.data@.len())
    }

    /// The encoder state the written bytes, the low register and the range stand for.
    pub open spec fn writer_state(&self) -> crate::roundtrip::EncoderState {
        writer_value(self.io.data@, self.low as int, self.range as int)
    }

    pub open spec fn state(&self) -> RacState {
        RacState { range: self.range as int, low: self.low as int, pos: self.io.pos as int }
    }

    /// The input the decoder reads.
    pub open spec fn input(&self) -> Seq<u8> {
        self.io.data@
    }

    fn next_byte(&mut self) -> (r: u32)
        requires
            old(self).io.wf(),
        ensures
            final(self).io.wf(),
            final(self).io.data@ == old(self).io.data@,
            final(self).range == old(self).range,
            final(self).low == old(self).low,
            r == byte_or_ff(old(self).io.data@, old(self).io.pos as int),
            final(self).io.pos == pos_after(old(self).io.data@, old(self).io.pos as int),
    {
        match self.io.read_u8() {
            Ok(b) => b as u32,
            Err(_) => 0xFF,
        }
    }

    /// Starts decoding: the next three bytes (`0xFF` for each missing one) form the low
    /// register.
    pub fn from_reader(reader: ByteReader) -> (r: Rac)
        requires
            reader.wf(),
        ensures
            r.wf(),
            r.range == MAX_RANGE,
            r.io.data@ == reader.data@,
            r.low == initial_low(reader.data@, reader.pos as int),
            r.io.pos == pos_after(reader.data@, pos_after(reader.data@, pos_after(reader.data@, reader.pos as int))),
    {
        let mut rac = Rac { io: reader, range: MAX_RANGE, low: 0 };
        let b0 = rac.next_byte();
        let b1 = rac.next_byte();
        let b2 = rac.next_byte();
        rac.low = b0 * 0x1_0000 + b1 * 0x100 + b2;
        rac
    }

    fn renormalize(&mut self)
        requires
            old(self).io.wf(),
            old(self).low < old(self).range,
            16 <= old(self).range <= MAX_RANGE,
        ensures
            final(self).wf(),
            final(self).io.data@ == old(self).io.data@,
            final(self).state() == renorm_step(renorm_step(old(self).state(), old(self).io.data@), old(self).io.data@),
    {
        let ghost data = self.io.data@;
        if self.range <= MIN_RANGE {
            let b = self.next_byte();
            assert(self.low * 256 + b < self.range * 256) by (nonlinear_arith)
                requires self.low < self.range, b < 256;
            self.low = self.low * 256 + b;
            self.range = self.range * 256;
        }
        if self.range <= MIN_RANGE {
            let b = self.next_byte();
            assert(self.low * 256 + b < self.range * 256) by (nonlinear_arith)
                requires self.low < self.range, b < 256;
            self.low = self.low * 256 + b;
            self.range = self.range * 256;
        }
    }

    fn get(&mut self, chance: u32) -> (r: bool)
        requires
            old(self).wf(),
            chance <= old(self).range - 16,
            chance == 0 || chance >= 16,
        ensures
            final(self).wf(),
            final(self).io.data@ == old(self).io.data@,
            (r, final(self).state()) == decode_step(old(self).state(), old(self).io.data@, chance as int),
    {
        if self.low >= self.range - chance {
            self.low = self.low - (self.range - chance);
            self.range = chance;
            self.renormalize();
            true
        } else {
            self.range = self.range - chance;
            self.renormalize();
            false
        }
    }

    /// Reads a bit with even chances.
    pub fn read_bit(&mut self) -> (r: bool)
        requires
            old(self).wf(),
        ensures
            final(self).wf(),
            final(self).io.data@ == old(self).io.data@,
            (r, final(self).state()) == decode_step(old(self).state(), old(self).io.data@, (old(self).range / 2) as int),
    {
        let chance = self.range / 2;
        self.get(chance)
    }

    /// Reads a bit that is true with chance `chance / 4096`.
    pub fn read_chance(&mut self, chance: u32) -> (r: bool)
        requires
            old(self).wf(),
            chance < 4096,
        ensures
            final(self).wf(),
            final(self).io.data@ == old(self).io.data@,
            (r, final(self).state()) == decode_step(
                old(self).state(),
                old(self).io.data@,
                scaled_chance(chance as int, old(self).range as int),
            ),
    {
        let c = apply_chance(chance, self.range);
        self.get(c)
    }

    /// Reads a bit with the chance `table` holds for `entry`, then moves that chance on.
    pub fn read(&mut self, table: &mut ChanceTable, entry: ChanceTableEntry, updates: &UpdateTable) -> (r: bool)
        requires
            old(self).wf(),
            updates.wf(),
            old(table).within(updates.cutoff as int),
            entry.valid(),
        ensures
            final(self).wf(),
            final(self).io.data@ == old(self).io.data@,
            (r, final(self).state()) == decode_step(
                old(self).state(),
                old(self).io.data@,
                scaled_chance(old(table).chance_of(entry) as int, old(self).range as int),
            ),
            final(table).within(updates.cutoff as int),
            forall|i: int| 0 <= i < TABLE_SIZE ==> 1 <= #[trigger] final(table).chances@[i] <= 4095,
            final(table).chances@ == old(table).chances@.update(
                entry.slot(),
                updates.next_spec(r, old(table).chance_of(entry) as int) as u16,
            ),
    {
        let chance = table.get_chance(entry);
        let bit = self.read_chance(chance as u32);
        table.update_entry(bit, entry, updates);
        assert forall|i: int| 0 <= i < TABLE_SIZE implies 1 <= #[trigger] table.chances@[i] <= 4095 by {
            assert(updates.cutoff <= table.chances@[i] <= 4096 - updates.cutoff);
        }
        bit
    }

    /// Starts encoding into an empty buffer.
    pub fn from_writer() -> (r: Rac)
        ensures
            r.wf_writer(),
            r.range == MAX_RANGE,
            r.low == 0,
            r.io.data@.len() == 0,
    {
        let r = Rac { io: ByteReader { data: Vec::new(), pos: 0 }, range: MAX_RANGE, low: 0 };
        proof {
            lemma_pow0(256);
        }
        r
    }

    /// The bytes written so far.
    pub fn into_bytes(self) -> (r: Vec<u8>)
        ensures
            r@ == self.io.data@,
    {
        self.io.data
    }

    /// Adds one to the number the written bytes spell: a carry out of the low register.
    fn carry(&mut self)
        requires
            number(old(self).io.data@) + 1 < pow(256, old(self).io.data@.len()),
        ensures
            number(final(self).io.data@) == number(old(self).io.data@) + 1,
            final(self).io.data@.len() == old(self).io.data@.len(),
            final(self).range == old(self).range,
            final(self).low == old(self).low,
    {
        let ghost s = self.io.data@;
        let n = self.io.data.len();
        let mut i = n;
        while i > 0 && self.io.data[i - 1] == 0xFF
            invariant
                i <= n,
                self.io.data@ == s,
                n == s.len(),
                forall|j: int| i <= j < n ==> #[trigger] s[j] == 0xFF,
            decreases i,
        {
            i = i - 1;
        }
        if i == 0 {
            proof {
                lemma_number_all_ff(s);
            }
            return;
        }
        let b = self.io.data[i - 1];
        self.io.data.set(i - 1, b + 1);
        let mut j = i;
        while j < n
            invariant
                i <= j <= n,
                n == s.len(),
                self.io.data@.len() == n,
                self.range == old(self).range,
                self.low == old(self).low,
                forall|k: int| 0 <= k < i - 1 ==> #[trigger] self.io.data@[k] == s[k],
                1 <= i,
                b < 0xFF,
                b == s[i - 1],
                self.io.data@[i - 1] == b + 1,
                forall|k: int| i <= k < j ==> #[trigger] self.io.data@[k] == 0u8,
            decreases n - j,
        {
            self.io.data.set(j, 0);
            j = j + 1;
        }
        proof {
            lemma_number_increment(s, i - 1);
            assert(self.io.data@ =~= s.subrange(0, i - 1).push((s[i - 1] + 1) as u8)
                + Seq::new((s.len() - (i - 1) - 1) as nat, |k: int| 0u8));
        }
    }

    fn emit(&mut self)
        requires
            16 <= old(self).range <= MAX_RANGE,
            old(self).low < MAX_RANGE,
            old(self).writer_state().lo + old(self).range <= MAX_RANGE * pow(256, old(self).io.data@.len()),
        ensures
            16 <= final(self).range <= MAX_RANGE,
            final(self).low < MAX_RANGE,
            final(self).writer_state().lo + final(self).range <= MAX_RANGE * pow(256, final(self).io.data@.len()),
            final(self).writer_state() == encoder_renorm(old(self).writer_state()),
    {
        if self.range <= MIN_RANGE {
            let ghost before = self.io.data@;
            let ghost lo = self.writer_state().lo;
            let ghost r0 = self.range as int;
            let byte: u8 = (self.low / 0x1_0000) as u8;
            self.io.data.push(byte);
            let low = self.low;
            self.low = (low % 0x1_0000) * 256;
            self.range = self.range * 256;
            proof {
                lemma_number_push(before, byte);
                lemma_pow_adds(256, before.len(), 1);
                lemma_pow1(256);
                assert(number(self.io.data@) * 0x100_0000 + self.low == lo * 256) by (nonlinear_arith)
                    requires
                        number(self.io.data@) == number(before) * 256 + byte,
                        byte == low / 0x1_0000,
                        self.low == (low % 0x1_0000) * 256,
                        low == 0x1_0000 * (low / 0x1_0000) + low % 0x1_0000,
                        lo == number(before) * 0x100_0000 + low;
                assert((lo + r0) * 256 <= MAX_RANGE * pow(256, before.len()) * 256) by (nonlinear_arith)
                    requires lo + r0 <= MAX_RANGE * pow(256, before.len());
            }
        }
    }

    fn set(&mut self, chance: u32, bit: bool)
        requires
            old(self).wf_writer(),
            chance <= old(self).range - 16,
            bit ==> chance >= 16,
        ensures
            final(self).wf_writer(),
            final(self).writer_state() == encoder_split(old(self).writer_state(), chance as int, bit),
    {
        let ghost e = self.writer_state();
        if bit {
            let add: u32 = self.range - chance;
            let sum: u32 = self.low + add;
            if sum >= MAX_RANGE {
                proof {
                    lemma_number_bounds(self.io.data@);
                    lemma_pow_positive(256, self.io.data@.len());
                    assert(number(self.io.data@) + 1 < pow(256, self.io.data@.len())) by (nonlinear_arith)
                        requires
                            number(self.io.data@) * 0x100_0000 + self.low + self.range <= 0x100_0000 * pow(256, self.io.data@.len()),
                            sum == self.low + self.range - chance,
                            sum >= 0x100_0000,
                            chance >= 16;
                }
                self.carry();
                self.low = sum - MAX_RANGE;
            } else {
                self.low = sum;
            }
            self.range = chance;
        } else {
            self.range = self.range - chance;
        }
        self.emit();
        self.emit();
    }

    /// Writes a bit with even chances.
    pub fn write_bit(&mut self, bit: bool)
        requires
            old(self).wf_writer(),
        ensures
            final(self).wf_writer(),
            final(self).writer_state() == encoder_split(old(self).writer_state(), (old(self).range / 2) as int, bit),
    {
        let chance = self.range / 2;
        self.set(chance, bit)
    }

    /// Writes a bit that is true with chance `chance / 4096`; a true bit needs a chance
    /// that is not zero.
    pub fn write_chance(&mut self, chance: u32, bit: bool)
        requires
            old(self).wf_writer(),
            chance < 4096,
            bit ==> chance > 0,
        ensures
            final(self).wf_writer(),
            final(self).writer_state() == encoder_step(old(self).writer_state(), chance as int, bit),
    {
        let c = apply_chance(chance, self.range);
        self.set(c, bit)
    }

    /// Writes out the top byte of the low register. A decoder reads `0xFF` past the end,
    /// which keeps the number it sees inside the final interval.
    pub fn flush(&mut self)
        requires
            old(self).wf_writer(),
        ensures
            final(self).range == old(self).range,
            final(self).io.data@ == old(self).io.data@.push((old(self).low / 0x1_0000) as u8),
    {
        let byte: u8 = (self.low / 0x1_0000) as u8;
        self.io.data.push(byte);
    }
}

} // verus!
