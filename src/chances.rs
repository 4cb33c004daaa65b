use vstd::prelude::*;

verus! {

/// The number of entries of a chance table: zero, sign, 32 exponents for each sign
/// and 32 mantissa positions.
pub const TABLE_SIZE: usize = 98;

/// The neutral chance, one half in twelve-bit precision.
pub const HALF_CHANCE: u16 = 2048;

/// An entry of a chance table.
#[derive(Clone, Copy, Debug, PartialEq, Eq, Structural)]
pub enum ChanceTableEntry {
    Zero,
    Sign,
    Exp(u8, bool),
    Mant(u8),
}

impl ChanceTableEntry {
    /// Whether the entry exists in a table (exponents and positions below 32).
    pub open spec fn valid(self) -> bool {
        match self {
            ChanceTableEntry::Exp(e, _) => e < 32,
            ChanceTableEntry::Mant(p) => p < 32,
            _ => true,
        }
    }

    /// The slot of the entry in a table.
    pub open spec fn slot(self) -> int {
        match self {
            ChanceTableEntry::Zero => 0,
            ChanceTableEntry::Sign => 1,
            ChanceTableEntry::Exp(e, s) => 2 + 2 * e + if s { 1int } else { 0int },
            ChanceTableEntry::Mant(p) => 66 + p,
        }
    }

    pub fn slot_index(&self) -> (r: usize)
        requires
            self.valid(),
        ensures
            r == self.slot(),
            r < TABLE_SIZE,
    {
        match self {
            ChanceTableEntry::Zero => 0,
            ChanceTableEntry::Sign => 1,
            ChanceTableEntry::Exp(e, s) => 2 + 2 * (*e as usize) + if *s { 1 } else { 0 },
            ChanceTableEntry::Mant(p) => 66 + (*p as usize),
        }
    }
}

/// The chance a fresh table gives an exponent entry.
pub open spec fn exp_seed(e: int) -> u16 {
    if e == 0 { 1000 }
    else if e == 1 { 1200 }
    else if e == 2 { 1500 }
    else if e == 3 { 1750 }
    else if e == 4 { 2000 }
    else if e == 5 { 2300 }
    else if e == 6 { 2800 }
    else if e == 7 { 2400 }
    else if e == 8 { 2300 }
    else { 2048 }
}

/// The chance a fresh table gives a mantissa entry.
pub open spec fn mant_seed(p: int) -> u16 {
    if p == 0 { 1900 }
    else if p == 1 { 1850 }
    else if p == 2 { 1800 }
    else if p == 3 { 1750 }
    else if p == 4 { 1650 }
    else if p == 5 { 1600 }
    else if p == 6 { 1600 }
    else { 2048 }
}

/// The chances of a fresh table.
pub open spec fn fresh_chances() -> Seq<u16> {
    Seq::new(TABLE_SIZE as nat, |i: int| seed_at(i))
}

/// The chance a fresh table holds in slot `i`.
pub open spec fn seed_at(i: int) -> u16 {
    if i == 0 { 1000 }
    else if i == 1 { 2048 }
    else if i < 66 { exp_seed((i - 2) / 2) }
    else { mant_seed(i - 66) }
}

fn exp_seed_exec(e: usize) -> (r: u16)
    ensures
        r == exp_seed(e as int),
{
    if e == 0 { 1000 }
    else if e == 1 { 1200 }
    else if e == 2 { 1500 }
    else if e == 3 { 1750 }
    else if e == 4 { 2000 }
    else if e == 5 { 2300 }
    else if e == 6 { 2800 }
    else if e == 7 { 2400 }
    else if e == 8 { 2300 }
    else { 2048 }
}

fn mant_seed_exec(p: usize) -> (r: u16)
    ensures
        r == mant_seed(p as int),
{
    if p == 0 { 1900 }
    else if p == 1 { 1850 }
    else if p == 2 { 1800 }
    else if p == 3 { 1750 }
    else if p == 4 { 1650 }
    else if p == 5 { 1600 }
    else if p == 6 { 1600 }
    else { 2048 }
}

/// The transition function of chances, built once from `(alpha_divisor, cutoff)`.
#[derive(Debug)]
pub struct UpdateTable {
    pub updates: Vec<u16>,
    pub alpha_divisor: u8,
    pub cutoff: u8,
}

/// One step of the fixed-point accumulator: `(2^32 - old) * floor((2^32 - 1) / divisor)`,
/// scaled down by `2^32` and rounded by adding one when the low 32 bits are not zero.
pub open spec fn accumulator_step(old: int, divisor: int) -> int {
    let v = (0x1_0000_0000 - old) * (0xFFFF_FFFFint / divisor);
    if v % 0x1_0000_0000 > 0 {
        (v + 1) / 0x1_0000_0000
    } else {
        v / 0x1_0000_0000
    }
}

fn update_chance_accumulator(old: u64, alpha_divisor: u8) -> (r: u64)
    requires
        old <= 0x1_0000_0000,
        alpha_divisor >= 2,
    ensures
        r == accumulator_step(old as int, alpha_divisor as int),
        r <= 0x1_0000_0000 - old,
{
    let a: u64 = 0x1_0000_0000 - old;
    let b: u64 = 0xFFFF_FFFFu64 / (alpha_divisor as u64);
    assert(b <= 0x8000_0000) by (nonlinear_arith)
        requires b == 0xFFFF_FFFFu64 / (alpha_divisor as u64), alpha_divisor >= 2;
    assert(a * b <= 0x1_0000_0000 * 0x8000_0000) by (nonlinear_arith)
        requires a <= 0x1_0000_0000, b <= 0x8000_0000;
    let v: u64 = a * b;
    assert((v + 1) / 0x1_0000_0000 <= a) by (nonlinear_arith)
        requires v == a * b, b <= 0x8000_0000;
    assert(v / 0x1_0000_0000 <= a) by (nonlinear_arith)
        requires v == a * b, b <= 0x8000_0000;
    if v % 0x1_0000_0000 > 0 {
        (v + 1) / 0x1_0000_0000
    } else {
        v / 0x1_0000_0000
    }
}

/// A table of chances as integers.
pub open spec fn widened(t: Seq<u16>) -> Seq<int> {
    t.map_values(|x: u16| x as int)
}

/// The first phase of building the table, from round `i` on: the accumulator `acc`, a
/// 32-bit fixed-point chance, rounded to twelve bits and forced above the previous chance
/// `old`, gives the entry of `old` when it is a chance of the table; then it moves on.
pub open spec fn first_phase(t: Seq<int>, i: int, old: int, acc: int, divisor: int, max: int) -> Seq<int>
    decreases 2048 - i,
{
    if i >= 2048 {
        t
    } else {
        let whole = acc / 0x10_0000;
        let rounded = if acc % 0x10_0000 >= 0x8_0000 { whole + 1 } else { whole };
        let next = if rounded <= old { old + 1 } else { rounded };
        let t2 = if old != 0 && old < 4096 && next <= max { t.update(old, next) } else { t };
        first_phase(t2, i + 1, next, acc + accumulator_step(acc, divisor), divisor, max)
    }
}

/// The entry the second phase gives chance `c`: one accumulator step from `c` in 32-bit
/// fixed point, rounded back to twelve bits, kept above `c` and at most `max`.
pub open spec fn second_value(c: int, divisor: int, max: int) -> int {
    let start = (c * 0x1_0000_0000 + 2048) / 4096;
    let scaled = (4096 * (start + accumulator_step(start, divisor)) + 0x8000_0000) / 0x1_0000_0000;
    let raised = if scaled <= c { c + 1 } else { scaled };
    if raised > max { max } else { raised }
}

/// The second phase, from chance `c` up to `max`: entries the first phase left empty get
/// their second-phase value.
pub open spec fn second_phase(t: Seq<int>, c: int, divisor: int, max: int) -> Seq<int>
    decreases max + 1 - c,
{
    if c > max {
        t
    } else {
        let t2 = if t[c] == 0 { t.update(c, second_value(c, divisor, max)) } else { t };
        second_phase(t2, c + 1, divisor, max)
    }
}

/// The update table for `(divisor, cutoff)`.
pub open spec fn update_table_spec(divisor: int, cutoff: int) -> Seq<int> {
    let max = 4096 - cutoff;
    second_phase(first_phase(Seq::new(4096, |k: int| 0int), 0, 0, 0x8000_0000, divisor, max), cutoff, divisor, max)
}

impl UpdateTable {
    /// The largest chance the table produces.
    pub open spec fn max_chance(&self) -> int {
        4096 - self.cutoff
    }

    /// Every chance in `[cutoff, 4096 - cutoff]` moves to one in `[c, 4096 - cutoff]`
    /// on a true bit.
    pub open spec fn wf(&self) -> bool {
        &&& self.updates@.len() == 4096
        &&& 1 <= self.cutoff <= 128
        &&& 2 <= self.alpha_divisor
        &&& forall|c: int|
            self.cutoff <= c <= self.max_chance() ==> c <= #[trigger] self.updates@[c] <= self.max_chance()
    }

    /// The chance that follows `chance` after reading `bit`.
    pub open spec fn next_spec(&self, bit: bool, chance: int) -> int {
        if bit {
            self.updates@[chance] as int
        } else {
            4096 - self.updates@[4096 - chance]
        }
    }

    pub fn new(alpha_divisor: u8, cutoff: u8) -> (r: UpdateTable)
        requires
            2 <= alpha_divisor,
            1 <= cutoff <= 128,
        ensures
            r.wf(),
            r.alpha_divisor == alpha_divisor,
            r.cutoff == cutoff,
            forall|c: int| cutoff <= c < r.max_chance() ==> c < #[trigger] r.updates@[c],
            r.updates@[r.max_chance()] == r.max_chance(),
            widened(r.updates@) == update_table_spec(alpha_divisor as int, cutoff as int),
    {
        let mut updates: Vec<u16> = vec![0u16; 4096];
        let ghost ad = alpha_divisor as int;
        let ghost mx = 4096 - cutoff as int;
        let ghost start = Seq::new(4096, |k: int| 0int);
        assert(widened(updates@) =~= start);
        let max_chance: u16 = 4096 - cutoff as u16;
        let mut old_chance: u16 = 0;
        let mut acc: u64 = 0x8000_0000;
        let mut i: usize = 0;
        while i < 2048
            invariant
                updates@.len() == 4096,
                max_chance == 4096 - cutoff,
                1 <= cutoff <= 128,
                2 <= alpha_divisor,
                acc <= 0x1_0000_0000,
                old_chance <= 4097 + i,
                i <= 2048,
                forall|c: int| 0 <= c < 4096 ==> #[trigger] updates@[c] == 0
                    || (c < updates@[c] <= max_chance),
                ad == alpha_divisor && mx == max_chance,
                first_phase(widened(updates@), i as int, old_chance as int, acc as int, ad, mx)
                    == first_phase(start, 0, 0, 0x8000_0000, ad, mx),
            decreases 2048 - i,
        {
            let ghost before = widened(updates@);
            let whole: u16 = (acc / 0x10_0000) as u16;
            let mut new_chance: u16 = if acc % 0x10_0000 >= 0x8_0000 { whole + 1 } else { whole };
            if new_chance <= old_chance {
                new_chance = old_chance + 1;
            }
            if old_chance != 0 && (old_chance as usize) < updates.len() && new_chance <= max_chance {
                updates.set(old_chance as usize, new_chance);
                assert(widened(updates@) =~= before.update(old_chance as int, new_chance as int));
            }
            let step = update_chance_accumulator(acc, alpha_divisor);
            acc = acc + step;
            old_chance = new_chance;
            i = i + 1;
        }
        let mut c: u16 = cutoff as u16;
        while c <= max_chance
            invariant
                updates@.len() == 4096,
                max_chance == 4096 - cutoff,
                1 <= cutoff <= 128,
                2 <= alpha_divisor,
                cutoff <= c <= max_chance + 1,
                forall|k: int| 0 <= k < 4096 ==> #[trigger] updates@[k] == 0
                    || (k < updates@[k] <= max_chance) || (k == max_chance && updates@[k] == max_chance),
                forall|k: int| cutoff <= k < c ==> #[trigger] updates@[k] != 0,
                ad == alpha_divisor && mx == max_chance,
                second_phase(widened(updates@), c as int, ad, mx)
                    == update_table_spec(alpha_divisor as int, cutoff as int),
            decreases max_chance + 1 - c,
        {
            let ghost before = widened(updates@);
            if updates[c as usize] == 0 {
                let start: u64 = ((c as u64) * 0x1_0000_0000 + 2048) / 4096;
                assert(start <= 0x1_0000_0000) by (nonlinear_arith)
                    requires start == ((c as u64) * 0x1_0000_0000 + 2048) / 4096, c <= 4095;
                let step = update_chance_accumulator(start, alpha_divisor);
                let moved: u64 = start + step;
                let scaled: u64 = (4096 * moved + 0x8000_0000) / 0x1_0000_0000;
                let mut new_chance: u64 = scaled;
                if new_chance <= c as u64 {
                    new_chance = c as u64 + 1;
                }
                if new_chance > max_chance as u64 {
                    new_chance = max_chance as u64;
                }
                updates.set(c as usize, new_chance as u16);
                assert(widened(updates@) =~= before.update(c as int, second_value(c as int, ad, mx)));
            }
            c = c + 1;
        }
        UpdateTable { updates, alpha_divisor, cutoff }
    }

    /// The chance that follows `chance` after reading `bit`.
    pub fn next_chance(&self, bit: bool, chance: u16) -> (r: u16)
        requires
            self.wf(),
            self.cutoff <= chance <= self.max_chance(),
        ensures
            r == self.next_spec(bit, chance as int),
            self.cutoff <= r <= self.max_chance(),
            bit ==> chance <= r,
            !bit ==> r <= chance,
    {
        if bit {
            self.updates[chance as usize]
        } else {
            let j = 4096 - chance;
            assert(self.cutoff <= j <= self.max_chance());
            4096 - self.updates[j as usize]
        }
    }
}

/// The adaptive chances of one coding context.
#[derive(Debug)]
pub struct ChanceTable {
    pub chances: Vec<u16>,
}

impl ChanceTable {
    /// The table has its full size and every chance lies in `[lo, 4096 - lo]`.
    pub open spec fn within(&self, lo: int) -> bool {
        &&& self.chances@.len() == TABLE_SIZE
        &&& forall|i: int| 0 <= i < TABLE_SIZE ==> lo <= #[trigger] self.chances@[i] <= 4096 - lo
    }

    /// The chance currently held for `entry`.
    pub open spec fn chance_of(&self, entry: ChanceTableEntry) -> u16 {
        self.chances@[entry.slot()]
    }

    /// A table holding the fixed prior chances.
    pub fn new() -> (r: ChanceTable)
        ensures
            r.chances@.len() == TABLE_SIZE,
            forall|i: int| 0 <= i < TABLE_SIZE ==> #[trigger] r.chances@[i] == seed_at(i),
            r.chances@ == fresh_chances(),
            r.within(128),
    {
        let mut chances: Vec<u16> = Vec::new();
        chances.push(1000);
        chances.push(HALF_CHANCE);
        let mut e: usize = 0;
        while e < 32
            invariant
                e <= 32,
                chances@.len() == 2 + 2 * e,
                forall|i: int| 0 <= i < chances@.len() ==> #[trigger] chances@[i] == seed_at(i),
            decreases 32 - e,
        {
            let s = exp_seed_exec(e);
            chances.push(s);
            chances.push(s);
            e = e + 1;
        }
        let mut p: usize = 0;
        while p < 32
            invariant
                p <= 32,
                chances@.len() == 66 + p,
                forall|i: int| 0 <= i < chances@.len() ==> #[trigger] chances@[i] == seed_at(i),
            decreases 32 - p,
        {
            chances.push(mant_seed_exec(p));
            p = p + 1;
        }
        let r = ChanceTable { chances };
        assert(r.chances@ =~= fresh_chances());
        assert forall|i: int| 0 <= i < TABLE_SIZE implies 128 <= #[trigger] r.chances@[i] <= 4096 - 128 by {
            assert(r.chances@[i] == seed_at(i));
        }
        r
    }

    /// The chance currently held for `entry`.
    pub fn get_chance(&self, entry: ChanceTableEntry) -> (r: u16)
        requires
            self.chances@.len() == TABLE_SIZE,
            entry.valid(),
        ensures
            r == self.chance_of(entry),
    {
        self.chances[entry.slot_index()]
    }

    /// Moves the chance of `entry` on after reading `bit`; other entries keep theirs.
    pub fn update_entry(&mut self, bit: bool, entry: ChanceTableEntry, updates: &UpdateTable)
        requires
            updates.wf(),
            old(self).chances@.len() == TABLE_SIZE,
            updates.cutoff <= old(self).chance_of(entry) <= 4096 - updates.cutoff,
            entry.valid(),
        ensures
            old(self).within(updates.cutoff as int) ==> final(self).within(updates.cutoff as int),
            updates.cutoff <= final(self).chance_of(entry) <= 4096 - updates.cutoff,
            1 <= final(self).chance_of(entry) <= 4095,
            final(self).chances@ == old(self).chances@.update(
                entry.slot(),
                updates.next_spec(bit, old(self).chance_of(entry) as int) as u16,
            ),
    {
        let i = entry.slot_index();
        let old_chance = self.chances[i];
        let new_chance = updates.next_chance(bit, old_chance);
        self.chances.set(i, new_chance);
    }
}

} // verus!
