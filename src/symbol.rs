use vstd::prelude::*;

use crate::rac::{decode_step, Rac, RacState};

verus! {

/// The value a uniform read over `[min, max]` yields from decoder state `s`, and the
/// state after it: a binary search driven by even-chance bits, a true bit taking the
/// upper half.
pub open spec fn uniform_spec(s: RacState, data: Seq<u8>, min: int, max: int) -> (int, RacState)
    decreases max - min,
{
    if max <= min {
        (min, s)
    } else {
        let mid = min + (max - min) / 2;
        let (bit, next) = decode_step(s, data, s.range / 2);
        if bit {
            uniform_spec(next, data, mid + 1, max)
        } else {
            uniform_spec(next, data, min, mid)
        }
    }
}

impl Rac {
    /// Reads a value of `[min, max]` with every value equally likely.
    pub fn read_val(&mut self, min: u32, max: u32) -> (r: u32)
        requires
            old(self).wf(),
            min <= max,
        ensures
            final(self).wf(),
            final(self).io.data@ == old(self).io.data@,
            min <= r <= max,
            (r as int, final(self).state()) == uniform_spec(old(self).state(), old(self).io.data@, min as int, max as int),
    {
        let ghost data = self.io.data@;
        let mut lo = min;
        let mut hi = max;
        while hi != lo
            invariant
                self.wf(),
                self.io.data@ == data,
                min <= lo <= hi <= max,
                uniform_spec(self.state(), data, lo as int, hi as int) == uniform_spec(
                    old(self).state(),
                    data,
                    min as int,
                    max as int,
                ),
            decreases hi - lo,
        {
            let mid = lo + (hi - lo) / 2;
            if self.read_bit() {
                lo = mid + 1;
            } else {
                hi = mid;
            }
        }
        lo
    }

    /// Reads a bit with even chances.
    pub fn read_bool(&mut self) -> (r: bool)
        requires
            old(self).wf(),
        ensures
            final(self).wf(),
            final(self).io.data@ == old(self).io.data@,
            (r, final(self).state()) == decode_step(old(self).state(), old(self).io.data@, (old(self).range / 2) as int),
    {
        self.read_bit()
    }
}

} // verus!
