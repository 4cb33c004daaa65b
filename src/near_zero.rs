use vstd::prelude::*;

use crate::chances::{ChanceTable, ChanceTableEntry, UpdateTable};
use crate::error::{Error, Result};
use crate::rac::{decode_step, scaled_chance, Rac, RacState};

verus! {

/// How far a near-zero read over `[min, max]` shifts the interval so that it holds zero:
/// the bound nearest to zero when both bounds have the same sign, else nothing.
pub open spec fn near_zero_shift(min: int, max: int) -> int {
    if min > 0 {
        if min < max { min } else { max }
    } else if max < 0 {
        max
    } else {
        0
    }
}

/// The coder state and the chances of a table.
pub struct CoderState {
    pub rac: RacState,
    pub chances: Seq<u16>,
}

/// Reads one bit with the chance of `entry`, then moves that chance on.
pub open spec fn read_entry(s: CoderState, data: Seq<u8>, u: UpdateTable, entry: ChanceTableEntry) -> (bool, CoderState) {
    let chance = s.chances[entry.slot()];
    let (bit, next) = decode_step(s.rac, data, scaled_chance(chance as int, s.rac.range));
    (bit, CoderState { rac: next, chances: s.chances.update(entry.slot(), u.next_spec(bit, chance as int) as u16) })
}

/// The exponent phase: from exponent `e` with `have == 2^e`, each exponent entry that
/// reads false moves one exponent up, until a true bit or the largest exponent whose
/// power of two is at most `amax`.
pub open spec fn exponent_phase(s: CoderState, data: Seq<u8>, u: UpdateTable, sign: bool, amax: int, e: int, have: int)
    -> (int, int, CoderState)
    decreases 32 - e,
{
    if e >= 31 || have * 2 > amax {
        (e, have, s)
    } else {
        let (bit, next) = read_entry(s, data, u, ChanceTableEntry::Exp(e as u8, sign));
        if bit {
            (e, have, next)
        } else {
            exponent_phase(next, data, u, sign, amax, e + 1, have * 2)
        }
    }
}

/// The mantissa phase: below position `pos`, most significant first, a one bit of
/// weight `step / 2` is read where it keeps the magnitude at most `amax`.
pub open spec fn mantissa_phase(s: CoderState, data: Seq<u8>, u: UpdateTable, amax: int, pos: int, step: int, have: int)
    -> (int, CoderState)
    decreases pos,
{
    if pos <= 0 {
        (have, s)
    } else {
        let p = pos - 1;
        let half = if step > 1 { step / 2 } else { 1 };
        if have + half <= amax {
            let (bit, next) = read_entry(s, data, u, ChanceTableEntry::Mant(p as u8));
            mantissa_phase(next, data, u, amax, p, half, if bit { have + half } else { have })
        } else {
            mantissa_phase(s, data, u, amax, p, half, have)
        }
    }
}

/// A near-zero read over `[min, max]` with `min <= 0 <= max`: zero flag, sign, exponent,
/// then mantissa.
pub open spec fn near_zero_inner(s: CoderState, data: Seq<u8>, u: UpdateTable, min: int, max: int) -> (int, CoderState) {
    if min == max {
        (min, s)
    } else {
        let (zero, s1) = read_entry(s, data, u, ChanceTableEntry::Zero);
        if zero {
            (0, s1)
        } else {
            let (sign, s2) = if min < 0 && max > 0 {
                read_entry(s1, data, u, ChanceTableEntry::Sign)
            } else {
                (min >= 0, s1)
            };
            let amax = if sign { max } else { -min };
            let (e, have, s3) = exponent_phase(s2, data, u, sign, amax, 0, 1);
            let (h, s4) = mantissa_phase(s3, data, u, amax, e, have, have);
            (if sign { h } else { -h }, s4)
        }
    }
}

/// A near-zero read over `[min, max]`, shifted to touch zero first.
pub open spec fn near_zero_spec(s: CoderState, data: Seq<u8>, u: UpdateTable, min: int, max: int) -> (int, CoderState) {
    let d = near_zero_shift(min, max);
    let (v, next) = near_zero_inner(s, data, u, min - d, max - d);
    (v + d, next)
}

impl Rac {
    pub open spec fn coder(&self, table: ChanceTable) -> CoderState {
        CoderState { rac: self.state(), chances: table.chances@ }
    }

    /// Reads a value of `[min, max]`, where `min <= 0 <= max`.
    fn read_near_zero_inner(&mut self, min: i64, max: i64, table: &mut ChanceTable, updates: &UpdateTable) -> (r: i64)
        requires
            old(self).wf(),
            updates.wf(),
            old(table).within(updates.cutoff as int),
            -0x1_0000_0000 < min <= 0 <= max < 0x1_0000_0000,
        ensures
            final(self).wf(),
            final(self).io.data@ == old(self).io.data@,
            final(table).within(updates.cutoff as int),
            min <= r <= max,
            (r as int, final(self).coder(*final(table))) == near_zero_inner(old(self).coder(*old(table)), old(self).io.data@, *updates, min as int, max as int),
    {
        let ghost data = self.io.data@;
        let ghost u = *updates;
        if min == max {
            return min;
        }
        if self.read(table, ChanceTableEntry::Zero, updates) {
            return 0;
        }
        let ghost s1 = self.coder(*table);
        let sign: bool = if min < 0 && max > 0 {
            self.read(table, ChanceTableEntry::Sign, updates)
        } else {
            min >= 0
        };
        let absolute_max: i64 = if sign { max } else { -min };
        let ghost s2 = self.coder(*table);
        // the exponent is the position of the leading one bit of the magnitude; a
        // magnitude below 2^32 has it below 32
        let mut exponent: u8 = 0;
        let mut have: i64 = 1;
        loop
            invariant_except_break
                exponent_phase(self.coder(*table), data, u, sign, absolute_max as int, exponent as int, have as int)
                    == exponent_phase(s2, data, u, sign, absolute_max as int, 0, 1),
            invariant
                self.wf(),
                self.io.data@ == data,
                data == old(self).io.data@,
                u == *updates,
                table.within(updates.cutoff as int),
                updates.wf(),
                1 <= have <= absolute_max,
                absolute_max < 0x1_0000_0000,
                exponent < 32,
            ensures
                exponent_phase(s2, data, u, sign, absolute_max as int, 0, 1)
                    == (exponent as int, have as int, self.coder(*table)),
            decreases 32 - exponent,
        {
            if exponent >= 31 || have * 2 > absolute_max
                || self.read(table, ChanceTableEntry::Exp(exponent, sign), updates) {
                break;
            }
            exponent = exponent + 1;
            have = have * 2;
        }
        let ghost s3 = self.coder(*table);
        // mantissa bits, most significant first: a one that would pass the maximum is
        // never read
        let mut pos: u8 = exponent;
        let mut step: i64 = have;
        let ghost e0 = exponent as int;
        let ghost have0 = have as int;
        while pos > 0
            invariant
                self.wf(),
                self.io.data@ == data,
                data == old(self).io.data@,
                u == *updates,
                table.within(updates.cutoff as int),
                updates.wf(),
                1 <= have <= absolute_max,
                absolute_max < 0x1_0000_0000,
                1 <= step <= 0x1_0000_0000,
                pos < 32,
                mantissa_phase(self.coder(*table), data, u, absolute_max as int, pos as int, step as int, have as int)
                    == mantissa_phase(s3, data, u, absolute_max as int, e0, have0, have0),
            decreases pos,
        {
            pos = pos - 1;
            step = if step > 1 { step / 2 } else { 1 };
            let with_one = have + step;
            if with_one <= absolute_max {
                if self.read(table, ChanceTableEntry::Mant(pos), updates) {
                    have = with_one;
                }
            }
        }
        if sign { have } else { -have }
    }

    /// Reads a signed integer of `[min, max]` with a strong prior towards zero; when
    /// both bounds have the same sign the interval is first shifted to touch zero.
    pub fn read_near_zero(&mut self, min: i32, max: i32, table: &mut ChanceTable, updates: &UpdateTable) -> (r: Result<i32>)
        requires
            old(self).wf(),
            updates.wf(),
            old(table).within(updates.cutoff as int),
        ensures
            final(self).wf(),
            final(self).io.data@ == old(self).io.data@,
            final(table).within(updates.cutoff as int),
            min > max <==> r is Err,
            r matches Err(e) ==> e is InvalidOperation,
            r matches Ok(v) ==> min <= v <= max
                && (v as int, final(self).coder(*final(table)))
                    == near_zero_spec(old(self).coder(*old(table)), old(self).io.data@, *updates, min as int, max as int),
            min == max ==> r == Ok::<i32, Error>(min) && final(self).state() == old(self).state(),
    {
        if min > max {
            return Err(Error::InvalidOperation("near zero integer reading was passed a larger min than max".to_owned()));
        }
        let lo = min as i64;
        let hi = max as i64;
        let delta: i64 = if lo > 0 {
            if lo < hi { lo } else { hi }
        } else if hi < 0 {
            hi
        } else {
            0
        };
        let v = self.read_near_zero_inner(lo - delta, hi - delta, table, updates);
        Ok((v + delta) as i32)
    }
}

} // verus!
