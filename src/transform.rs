use vstd::prelude::*;

use crate::chances::{fresh_chances, ChanceTable, UpdateTable};
use crate::near_zero::{near_zero_spec, CoderState};
use crate::error::{Error, Result};
use crate::pixels::{Channel, ColorSpace, ColorValue, Rgba};
use crate::rac::{decode_step, Rac};
use crate::symbol::uniform_spec;

verus! {

/// Every range of a transform chain lies within `[-COLOR_LIMIT, COLOR_LIMIT]`, so that
/// each of its values fits a [`ColorValue`].
pub const COLOR_LIMIT: i32 = 32767;

/// The most transformations a chain may hold. The format sets no bound, but a stream
/// could otherwise announce transformations without end; a longer chain is refused with
/// `InvalidOperation`.
pub const MAX_TRANSFORMS: usize = 64;

/// An inclusive interval of channel values.
#[derive(Clone, Copy, Debug, PartialEq, Eq, Structural, Default)]
pub struct ColorRange {
    pub min: i32,
    pub max: i32,
}

impl ColorRange {
    /// Not empty, and within the limits of a [`ColorValue`].
    pub open spec fn fits(self) -> bool {
        -COLOR_LIMIT <= self.min <= self.max <= COLOR_LIMIT
    }

    pub open spec fn contains(self, v: int) -> bool {
        self.min <= v <= self.max
    }

    pub open spec fn inside(self, outer: ColorRange) -> bool {
        outer.min <= self.min && self.max <= outer.max
    }

    /// Whether the range is not empty and lies inside `outer`.
    pub fn is_within(&self, outer: &ColorRange) -> (r: bool)
        ensures
            r == (self.min <= self.max && self.inside(*outer)),
    {
        self.min <= self.max && outer.min <= self.min && self.max <= outer.max
    }
}

/// The range of every channel before any transformation: eight bits.
pub open spec fn untransformed_range() -> ColorRange {
    ColorRange { min: 0, max: 255 }
}

/// The transformations the format knows, by the name of their identifier.
#[derive(Clone, Copy, Debug, PartialEq, Eq, Structural)]
pub enum Transformation {
    ChannelCompact,
    YCoGg,
    PermutePlanes,
    Bounds,
    PaletteAlpha,
    Palette,
    ColorBuckets,
    DuplicateFrame,
    FrameShape,
    FrameLookback,
}

impl Transformation {
    pub open spec fn from_id_spec(id: int) -> Option<Transformation> {
        if id == 0 { Some(Transformation::ChannelCompact) }
        else if id == 1 { Some(Transformation::YCoGg) }
        else if id == 3 { Some(Transformation::PermutePlanes) }
        else if id == 4 { Some(Transformation::Bounds) }
        else if id == 5 { Some(Transformation::PaletteAlpha) }
        else if id == 6 { Some(Transformation::Palette) }
        else if id == 7 { Some(Transformation::ColorBuckets) }
        else if id == 10 { Some(Transformation::DuplicateFrame) }
        else if id == 11 { Some(Transformation::FrameShape) }
        else if id == 12 { Some(Transformation::FrameLookback) }
        else { None }
    }

    /// The transformation with identifier `id`, if there is one.
    pub fn from_id(id: u8) -> (r: Option<Transformation>)
        ensures
            r == Self::from_id_spec(id as int),
    {
        if id == 0 { Some(Transformation::ChannelCompact) }
        else if id == 1 { Some(Transformation::YCoGg) }
        else if id == 3 { Some(Transformation::PermutePlanes) }
        else if id == 4 { Some(Transformation::Bounds) }
        else if id == 5 { Some(Transformation::PaletteAlpha) }
        else if id == 6 { Some(Transformation::Palette) }
        else if id == 7 { Some(Transformation::ColorBuckets) }
        else if id == 10 { Some(Transformation::DuplicateFrame) }
        else if id == 11 { Some(Transformation::FrameShape) }
        else if id == 12 { Some(Transformation::FrameLookback) }
        else { None }
    }

    /// A human-readable name.
    pub open spec fn name_spec(self) -> Seq<char> {
        match self {
            Transformation::ChannelCompact => "Channel Compact"@,
            Transformation::YCoGg => "YCoCg"@,
            Transformation::PermutePlanes => "Permute Planes"@,
            Transformation::Bounds => "Bounds"@,
            Transformation::PaletteAlpha => "Palette Alpha"@,
            Transformation::Palette => "Palette"@,
            Transformation::ColorBuckets => "Color Buckets"@,
            Transformation::DuplicateFrame => "Duplicate Frame"@,
            Transformation::FrameShape => "Frame Shape"@,
            Transformation::FrameLookback => "Frame Lookback"@,
        }
    }

    /// Whether this decoder reads the transformation.
    pub open spec fn supported(self) -> bool {
        self == Transformation::ChannelCompact || self == Transformation::YCoGg || self == Transformation::PermutePlanes
            || self == Transformation::Bounds
    }

    /// A human-readable name.
    pub fn name(&self) -> (r: &'static str)
        ensures
            r@ == self.name_spec(),
    {
        match self {
            Transformation::ChannelCompact => "Channel Compact",
            Transformation::YCoGg => "YCoCg",
            Transformation::PermutePlanes => "Permute Planes",
            Transformation::Bounds => "Bounds",
            Transformation::PaletteAlpha => "Palette Alpha",
            Transformation::Palette => "Palette",
            Transformation::ColorBuckets => "Color Buckets",
            Transformation::DuplicateFrame => "Duplicate Frame",
            Transformation::FrameShape => "Frame Shape",
            Transformation::FrameLookback => "Frame Lookback",
        }
    }
}

/// Remaps each channel through a table of the values that occur in it.
#[derive(Debug)]
pub struct ChannelCompact {
    pub ranges: Vec<ColorRange>,
    pub decompacted: Vec<Vec<ColorValue>>,
    pub channels: ColorSpace,
}

/// Each table of a channel-compact step lists its values in strictly increasing order.
#[verifier::opaque]
pub open spec fn tables_increase(t: ChannelCompact) -> bool {
    forall|c: int, j: int, k: int| 0 <= c < t.channels.count() && 0 <= j < k < t.decompacted@[c]@.len()
        ==> (#[trigger] t.decompacted@[c]@[j]) < (#[trigger] t.decompacted@[c]@[k])
}

impl ChannelCompact {
    pub open spec fn wf(&self) -> bool {
        &&& self.ranges@.len() == 4
        &&& self.decompacted@.len() == 4
        &&& forall|c: int| 0 <= c < 4 ==> (#[trigger] self.ranges@[c]).fits() && self.ranges@[c].min == 0
        &&& forall|c: int| 0 <= c < self.channels.count() ==> (#[trigger] self.decompacted@[c])@.len() == self.ranges@[c].max + 1
    }
}

/// The luma / chroma-orange / chroma-green colour transform.
#[derive(Debug)]
pub struct YCoGg {
    pub max: i32,
    pub alpha_range: ColorRange,
}

/// Reorders the colour planes, optionally subtracting the first from the others. Its
/// parameters are read and its ranges known; decoding pixels through it is not supported.
#[derive(Debug)]
pub struct PermutePlanes {
    pub max: i32,
    pub subtract: bool,
    pub permutation: Vec<u8>,
}

/// Records a tighter range for each channel.
#[derive(Debug)]
pub struct Bounds {
    pub ranges: Vec<ColorRange>,
}

/// One transformation of a chain, with what it read from the stream.
#[derive(Debug)]
pub enum TransformStep {
    ChannelCompact(ChannelCompact),
    YCoGg(YCoGg),
    PermutePlanes(PermutePlanes),
    Bounds(Bounds),
}

/// The range of the expanded luma / chroma space of a transform with maximum `max`.
pub open spec fn expanded_range(max: int, c: Channel) -> ColorRange {
    if c == Channel::Red {
        ColorRange { min: 0, max: max as i32 }
    } else {
        ColorRange { min: (-max) as i32, max: max as i32 }
    }
}

/// `x >> 1` on a signed integer: the floor of a half.
pub open spec fn floor_half(x: int) -> int {
    x / 2
}

fn floor_half_exec(x: i32) -> (r: i32)
    requires
        -0x4000_0000 <= x <= 0x4000_0000,
    ensures
        r == floor_half(x as int),
{
    if x >= 0 {
        x / 2
    } else {
        -((1 - x) / 2)
    }
}

fn abs_exec(x: i32) -> (r: i32)
    requires
        x > i32::MIN,
    ensures
        r as int == (if x < 0 { -(x as int) } else { x as int }),
{
    if x < 0 { -x } else { x }
}

/// The conditional range of the YCoCg transform with maximum `max` for channel `c`,
/// given the luma `y` and chroma-orange `co` already decoded.
pub open spec fn ycocg_crange(max: int, alpha: ColorRange, c: Channel, y: int, co: int) -> ColorRange {
    let o = (max + 1) / 4;
    let aco = if co < 0 { -co } else { co };
    match c {
        Channel::Red => expanded_range(max, c),
        Channel::Green => {
            let lo = if y < o - 1 {
                -3 - 4 * y
            } else if y > 3 * o - 1 {
                4 * (y - max)
            } else {
                -max
            };
            let hi = if y < o - 1 {
                3 + 4 * y
            } else if y > 3 * o - 1 {
                4 * o - 4 * (1 + y - 3 * o)
            } else {
                max
            };
            ColorRange { min: lo as i32, max: hi as i32 }
        },
        Channel::Blue => {
            let lo = if y < o - 1 {
                -(2 * y + 1)
            } else if y > 3 * o - 1 {
                -(2 * (4 * o - 1 - y) - ((1 + aco) / 2) * 2)
            } else {
                let a = 2 * o - 1 + (y - o + 1) * 2;
                let b = 2 * o + (3 * o - 1 - y) * 2 - ((1 + aco) / 2) * 2;
                -(if a < b { a } else { b })
            };
            let hi = if y < o - 1 {
                1 + 2 * y - (aco / 2) * 2
            } else if y > 3 * o - 1 {
                2 * (4 * o - 1 - y)
            } else {
                let a = (1 + y - 2 * o) * 2 - 4 * o;
                let b = (aco / 2) * 2 - (y - o) * 2 - 2 * o - 1;
                -(if a > b { a } else { b })
            };
            ColorRange { min: lo as i32, max: hi as i32 }
        },
        Channel::Alpha => alpha,
    }
}

/// The pixel the YCoCg transform had before it was applied; each value is narrowed
/// to sixteen bits.
pub open spec fn ycocg_undo(p: Rgba) -> Rgba {
    let y = p.red as int;
    let co = p.green as int;
    let cg = p.blue as int;
    Rgba {
        red: (co + y + floor_half(1 - cg) - floor_half(co)) as i16,
        green: (y - floor_half(-cg)) as i16,
        blue: (y + floor_half(1 - cg) - floor_half(co)) as i16,
        alpha: p.alpha,
    }
}

impl ChannelCompact {
    /// The range of channel `c`: the indices into its table.
    pub fn range(&self, c: Channel) -> (r: ColorRange)
        requires
            self.wf(),
        ensures
            r == self.ranges@[c.index() as int],
            r.fits(),
    {
        self.ranges[c.as_index()]
    }
}

impl YCoGg {
    pub open spec fn wf(&self) -> bool {
        3 <= self.max <= COLOR_LIMIT && self.max % 4 == 3 && self.alpha_range.fits()
    }

    /// The range of channel `c`: luma from zero, chroma symmetric around zero, alpha
    /// unchanged.
    pub fn range(&self, c: Channel) -> (r: ColorRange)
        requires
            self.wf(),
        ensures
            r == (if c == Channel::Alpha { self.alpha_range } else { expanded_range(self.max as int, c) }),
            r.fits(),
    {
        if c == Channel::Alpha {
            self.alpha_range
        } else if c == Channel::Red {
            ColorRange { min: 0, max: self.max }
        } else {
            ColorRange { min: -self.max, max: self.max }
        }
    }

    /// The range of channel `c` given the luma and chroma-orange of `p`.
    pub fn crange(&self, c: Channel, p: Rgba) -> (r: ColorRange)
        requires
            self.wf(),
        ensures
            r == ycocg_crange(self.max as int, self.alpha_range, c, p.red as int, p.green as int),
    {
        let max = self.max;
        let o = (max + 1) / 4;
        assert(1 <= o <= 8192);
        let y = p.red as i32;
        let co = p.green as i32;
        let aco = abs_exec(co);
        match c {
            Channel::Red => ColorRange { min: 0, max },
            Channel::Green => {
                let lo = if y < o - 1 {
                    -3 - 4 * y
                } else if y > 3 * o - 1 {
                    4 * (y - max)
                } else {
                    -max
                };
                let hi = if y < o - 1 {
                    3 + 4 * y
                } else if y > 3 * o - 1 {
                    4 * o - 4 * (1 + y - 3 * o)
                } else {
                    max
                };
                ColorRange { min: lo, max: hi }
            },
            Channel::Blue => {
                let lo = if y < o - 1 {
                    -(2 * y + 1)
                } else if y > 3 * o - 1 {
                    -(2 * (4 * o - 1 - y) - ((1 + aco) / 2) * 2)
                } else {
                    let a = 2 * o - 1 + (y - o + 1) * 2;
                    let b = 2 * o + (3 * o - 1 - y) * 2 - ((1 + aco) / 2) * 2;
                    -(if a < b { a } else { b })
                };
                let hi = if y < o - 1 {
                    1 + 2 * y - (aco / 2) * 2
                } else if y > 3 * o - 1 {
                    2 * (4 * o - 1 - y)
                } else {
                    let a = (1 + y - 2 * o) * 2 - 4 * o;
                    let b = (aco / 2) * 2 - (y - o) * 2 - 2 * o - 1;
                    -(if a > b { a } else { b })
                };
                ColorRange { min: lo, max: hi }
            },
            Channel::Alpha => self.alpha_range,
        }
    }

    /// Turns luma, chroma-orange and chroma-green back into red, green and blue.
    pub fn undo(&self, p: Rgba) -> (r: Rgba)
        ensures
            r == ycocg_undo(p),
    {
        let y = p.red as i32;
        let co = p.green as i32;
        let cg = p.blue as i32;
        let red = co + y + floor_half_exec(1 - cg) - floor_half_exec(co);
        let green = y - floor_half_exec(-cg);
        let blue = y + floor_half_exec(1 - cg) - floor_half_exec(co);
        Rgba { red: red as i16, green: green as i16, blue: blue as i16, alpha: p.alpha }
    }
}

impl PermutePlanes {
    /// The range of channel `c`, expanded as YCoCg expands it.
    pub fn range(&self, c: Channel) -> (r: ColorRange)
        requires
            3 <= self.max <= COLOR_LIMIT,
        ensures
            r == expanded_range(self.max as int, c),
            r.fits(),
    {
        if c == Channel::Red {
            ColorRange { min: 0, max: self.max }
        } else {
            ColorRange { min: -self.max, max: self.max }
        }
    }
}

/// The conditional range of a colour under bounds `own`, given the conditional range
/// `prev` of the steps before: their intersection, or `own` where they do not meet.
pub open spec fn bounds_clamp(own: ColorRange, prev: ColorRange) -> ColorRange {
    let lo = if prev.min > own.min { prev.min } else { own.min };
    let hi = if prev.max < own.max { prev.max } else { own.max };
    if lo > hi { own } else { ColorRange { min: lo, max: hi } }
}

impl Bounds {
    pub open spec fn wf(&self) -> bool {
        self.ranges@.len() == 4 && forall|c: int| 0 <= c < 4 ==> (#[trigger] self.ranges@[c]).fits()
    }

    /// The recorded range of channel `c`.
    pub fn range(&self, c: Channel) -> (r: ColorRange)
        requires
            self.wf(),
        ensures
            r == self.ranges@[c.index() as int],
            r.fits(),
    {
        self.ranges[c.as_index()]
    }

    /// Narrows the conditional range `prev` of channel `c` by the recorded bounds.
    pub fn clamp(&self, c: Channel, prev: ColorRange) -> (r: ColorRange)
        requires
            self.wf(),
        ensures
            r == bounds_clamp(self.ranges@[c.index() as int], prev),
    {
        let own = self.ranges[c.as_index()];
        let lo = if prev.min > own.min { prev.min } else { own.min };
        let hi = if prev.max < own.max { prev.max } else { own.max };
        if lo > hi { own } else { ColorRange { min: lo, max: hi } }
    }
}

impl TransformStep {
    pub open spec fn wf(&self) -> bool {
        match self {
            TransformStep::ChannelCompact(t) => t.wf(),
            TransformStep::YCoGg(t) => t.wf(),
            TransformStep::PermutePlanes(t) => 3 <= t.max <= COLOR_LIMIT,
            TransformStep::Bounds(t) => t.wf(),
        }
    }

    /// The absolute range of channel `c` after this step.
    pub open spec fn range_spec(&self, c: Channel) -> ColorRange {
        match self {
            TransformStep::ChannelCompact(t) => t.ranges@[c.index() as int],
            TransformStep::YCoGg(t) => if c == Channel::Alpha { t.alpha_range } else { expanded_range(t.max as int, c) },
            TransformStep::PermutePlanes(t) => expanded_range(t.max as int, c),
            TransformStep::Bounds(t) => t.ranges@[c.index() as int],
        }
    }

    pub fn range(&self, c: Channel) -> (r: ColorRange)
        requires
            self.wf(),
        ensures
            r == self.range_spec(c),
            r.fits(),
    {
        match self {
            TransformStep::ChannelCompact(t) => t.range(c),
            TransformStep::YCoGg(t) => t.range(c),
            TransformStep::PermutePlanes(t) => t.range(c),
            TransformStep::Bounds(t) => t.range(c),
        }
    }
}

/// The absolute range of channel `c` after the first `k` steps.
pub open spec fn chain_range(steps: Seq<TransformStep>, k: int, c: Channel) -> ColorRange {
    if k <= 0 {
        untransformed_range()
    } else {
        steps[k - 1].range_spec(c)
    }
}

/// The range of channel `c` after the first `k` steps, given the channels of `p`
/// that are already decoded.
pub open spec fn chain_crange(steps: Seq<TransformStep>, k: int, c: Channel, p: Rgba) -> ColorRange
    decreases k,
{
    if k <= 0 {
        untransformed_range()
    } else {
        match steps[k - 1] {
            TransformStep::YCoGg(t) => ycocg_crange(t.max as int, t.alpha_range, c, p.red as int, p.green as int),
            TransformStep::Bounds(t) => {
                if c == Channel::Red || c == Channel::Alpha {
                    t.ranges@[c.index() as int]
                } else {
                    bounds_clamp(t.ranges@[c.index() as int], chain_crange(steps, k - 1, c, p))
                }
            },
            _ => steps[k - 1].range_spec(c),
        }
    }
}

/// The pixel before the first `k` steps were applied, or `None` where a channel-compact
/// step meets a value outside its table.
pub open spec fn chain_undo(steps: Seq<TransformStep>, k: int, p: Rgba) -> Option<Rgba>
    decreases k,
{
    if k <= 0 {
        Some(p)
    } else {
        match steps[k - 1] {
            TransformStep::ChannelCompact(t) => match compact_undo(t, p) {
                Some(q) => chain_undo(steps, k - 1, q),
                None => None,
            },
            TransformStep::YCoGg(_) => chain_undo(steps, k - 1, ycocg_undo(p)),
            _ => chain_undo(steps, k - 1, p),
        }
    }
}

/// Looks channel `c` of `p` up in the table of a channel-compact step.
pub open spec fn compact_lookup(t: ChannelCompact, c: int, v: int) -> Option<ColorValue> {
    if c >= t.channels.count() {
        Some(v as i16)
    } else if 0 <= v < t.decompacted@[c]@.len() {
        Some(t.decompacted@[c]@[v])
    } else {
        None
    }
}

/// The pixel before a channel-compact step.
pub open spec fn compact_undo(t: ChannelCompact, p: Rgba) -> Option<Rgba> {
    match (compact_lookup(t, 0, p.red as int), compact_lookup(t, 1, p.green as int),
        compact_lookup(t, 2, p.blue as int), compact_lookup(t, 3, p.alpha as int)) {
        (Some(r), Some(g), Some(b), Some(a)) => Some(Rgba { red: r, green: g, blue: b, alpha: a }),
        _ => None,
    }
}

impl ChannelCompact {
    fn lookup(&self, c: usize, v: ColorValue) -> (r: Option<ColorValue>)
        requires
            self.wf(),
            c < 4,
        ensures
            r == compact_lookup(*self, c as int, v as int),
    {
        if c >= self.channels.num_channels() {
            Some(v)
        } else if v >= 0 && (v as usize) < self.decompacted[c].len() {
            Some(self.decompacted[c][v as usize])
        } else {
            None
        }
    }

    fn undo(&self, p: Rgba) -> (r: Option<Rgba>)
        requires
            self.wf(),
        ensures
            r == compact_undo(*self, p),
    {
        let r = self.lookup(0, p.red);
        let g = self.lookup(1, p.green);
        let b = self.lookup(2, p.blue);
        let a = self.lookup(3, p.alpha);
        match (r, g, b, a) {
            (Some(r), Some(g), Some(b), Some(a)) => Some(Rgba { red: r, green: g, blue: b, alpha: a }),
            _ => None,
        }
    }
}

/// The transformations an image was encoded with, first applied first.
#[derive(Debug)]
pub struct TransformChain {
    pub steps: Vec<TransformStep>,
}

impl TransformChain {
    pub open spec fn wf(&self) -> bool {
        forall|k: int| 0 <= k < self.steps@.len() ==> (#[trigger] self.steps@[k]).wf()
    }

    /// The absolute range of channel `c` after the whole chain.
    pub open spec fn range_spec(&self, c: Channel) -> ColorRange {
        chain_range(self.steps@, self.steps@.len() as int, c)
    }

    /// The conditional range of channel `c` after the whole chain.
    pub open spec fn crange_spec(&self, c: Channel, p: Rgba) -> ColorRange {
        chain_crange(self.steps@, self.steps@.len() as int, c, p)
    }

    /// Whether the chain holds a step whose pixel semantics are not supported.
    pub open spec fn has_permute(&self) -> bool {
        exists|k: int| 0 <= k < self.steps@.len() && #[trigger] self.steps@[k] is PermutePlanes
    }

    pub fn new() -> (r: TransformChain)
        ensures
            r.steps@.len() == 0,
            r.wf(),
    {
        TransformChain { steps: Vec::new() }
    }

    /// The absolute range of channel `c`.
    pub fn range(&self, c: Channel) -> (r: ColorRange)
        requires
            self.wf(),
        ensures
            r == self.range_spec(c),
            r.fits(),
    {
        let n = self.steps.len();
        if n == 0 {
            ColorRange { min: 0, max: 255 }
        } else {
            self.steps[n - 1].range(c)
        }
    }

    fn crange_upto(&self, k: usize, c: Channel, p: Rgba) -> (r: ColorRange)
        requires
            self.wf(),
            k <= self.steps@.len(),
        ensures
            r == chain_crange(self.steps@, k as int, c, p),
        decreases k,
    {
        if k == 0 {
            return ColorRange { min: 0, max: 255 };
        }
        match &self.steps[k - 1] {
            TransformStep::YCoGg(t) => t.crange(c, p),
            TransformStep::Bounds(t) => {
                if c == Channel::Red || c == Channel::Alpha {
                    t.range(c)
                } else {
                    let prev = self.crange_upto(k - 1, c, p);
                    t.clamp(c, prev)
                }
            },
            _ => self.steps[k - 1].range(c),
        }
    }

    /// The range of channel `c` given the channels of `p` already decoded.
    pub fn crange(&self, c: Channel, p: Rgba) -> (r: ColorRange)
        requires
            self.wf(),
        ensures
            r == self.crange_spec(c, p),
    {
        self.crange_upto(self.steps.len(), c, p)
    }

    /// `value` clamped into the conditional range of channel `c`.
    pub fn snap(&self, c: Channel, p: Rgba, value: i32) -> (r: i32)
        requires
            self.wf(),
        ensures
            r == (if value > self.crange_spec(c, p).max {
                self.crange_spec(c, p).max
            } else if value < self.crange_spec(c, p).min {
                self.crange_spec(c, p).min
            } else {
                value
            }),
            self.crange_spec(c, p).min <= self.crange_spec(c, p).max ==> self.crange_spec(c, p).contains(r as int),
    {
        let range = self.crange(c, p);
        if value > range.max {
            range.max
        } else if value < range.min {
            range.min
        } else {
            value
        }
    }

    /// The pixel before the whole chain was applied, or `None` where it holds a value
    /// that a channel-compact table does not have.
    pub fn undo(&self, p: Rgba) -> (r: Option<Rgba>)
        requires
            self.wf(),
        ensures
            r == chain_undo(self.steps@, self.steps@.len() as int, p),
    {
        let mut k = self.steps.len();
        let mut q = p;
        while k > 0
            invariant
                self.wf(),
                k <= self.steps@.len(),
                chain_undo(self.steps@, k as int, q) == chain_undo(self.steps@, self.steps@.len() as int, p),
            decreases k,
        {
            match &self.steps[k - 1] {
                TransformStep::ChannelCompact(t) => match t.undo(q) {
                    Some(x) => q = x,
                    None => return None,
                },
                TransformStep::YCoGg(t) => q = t.undo(q),
                _ => {},
            }
            k = k - 1;
        }
        Some(q)
    }

    /// Whether a step supports only its ranges.
    pub fn has_permute_planes(&self) -> (r: bool)
        ensures
            r == self.has_permute(),
    {
        let mut k: usize = 0;
        while k < self.steps.len()
            invariant
                k <= self.steps@.len(),
                forall|j: int| 0 <= j < k ==> !(#[trigger] self.steps@[j] is PermutePlanes),
            decreases self.steps@.len() - k,
        {
            if let TransformStep::PermutePlanes(_) = &self.steps[k] {
                return true;
            }
            k = k + 1;
        }
        false
    }
}

/// The values of a channel-compact table read from state `s`: values `i` to `last`, the
/// next one at least `min`, each near-zero coded as its distance from that minimum with
/// room left for the values after it; `None` where no room is left.
pub open spec fn compact_values(s: CoderState, data: Seq<u8>, u: UpdateTable, t: ColorRange, last: int, i: int, min: int)
    -> Option<(Seq<int>, CoderState)>
    decreases last + 1 - i,
{
    if i > last {
        Some((seq![], s))
    } else {
        let room = t.max - (min + (last - i));
        if room < 0 {
            None
        } else {
            let (v, s1) = near_zero_spec(s, data, u, 0, room);
            match compact_values(s1, data, u, t, last, i + 1, min + v + 1) {
                Some((rest, s2)) => Some((seq![min + v] + rest, s2)),
                None => None,
            }
        }
    }
}

/// The channel-compact tables read from state `s` for channels `c` to `n - 1`: for each,
/// the largest index near-zero coded within the width of the previous range (at most
/// `COLOR_LIMIT`), then the table.
pub open spec fn compact_spec(s: CoderState, data: Seq<u8>, u: UpdateTable, previous: TransformChain, c: int, n: int)
    -> Option<(Seq<(int, Seq<int>)>, CoderState)>
    decreases n - c,
{
    if c >= n {
        Some((seq![], s))
    } else {
        let t = previous.range_spec(Channel::from_index_spec(c as nat));
        let (last, s1) = near_zero_spec(s, data, u, 0, t.max - t.min);
        if last > COLOR_LIMIT {
            None
        } else {
            match compact_values(s1, data, u, t, last, 0, t.min as int) {
                Some((values, s2)) => match compact_spec(s2, data, u, previous, c + 1, n) {
                    Some((rest, s3)) => Some((seq![(last, values)] + rest, s3)),
                    None => None,
                },
                None => None,
            }
        }
    }
}

proof fn lemma_compact_len(s: CoderState, data: Seq<u8>, u: UpdateTable, previous: TransformChain, c: int, n: int)
    requires
        c <= n,
    ensures
        compact_spec(s, data, u, previous, c, n) matches Some((v, _)) ==> v.len() == n - c,
    decreases n - c,
{
    if c < n {
        let t = previous.range_spec(Channel::from_index_spec(c as nat));
        let (last, s1) = near_zero_spec(s, data, u, 0, t.max - t.min);
        match compact_values(s1, data, u, t, last, 0, t.min as int) {
            Some((values, s2)) => lemma_compact_len(s2, data, u, previous, c + 1, n),
            None => {},
        }
    }
}

/// The values of a vector as integers.
pub open spec fn as_ints(v: Seq<ColorValue>) -> Seq<int> {
    v.map_values(|x: ColorValue| x as int)
}

fn zero_ranges() -> (r: Vec<ColorRange>)
    ensures
        r@.len() == 4,
        forall|c: int| 0 <= c < 4 ==> #[trigger] r@[c] == (ColorRange { min: 0, max: 0 }),
{
    let mut r: Vec<ColorRange> = Vec::new();
    let mut i: usize = 0;
    while i < 4
        invariant
            i <= 4,
            r@.len() == i,
            forall|c: int| 0 <= c < i ==> #[trigger] r@[c] == (ColorRange { min: 0, max: 0 }),
        decreases 4 - i,
    {
        r.push(ColorRange { min: 0, max: 0 });
        i = i + 1;
    }
    r
}

impl ChannelCompact {
    /// Reads the table of one channel whose previous range is `t`: its largest index, then
    /// its values.
    fn read_table(rac: &mut Rac, context: &mut ChanceTable, t: ColorRange, updates: &UpdateTable) -> (r: Result<(i32, Vec<ColorValue>)>)
        requires
            old(rac).wf(),
            updates.wf(),
            old(context).within(updates.cutoff as int),
            t.fits(),
        ensures
            final(rac).wf(),
            final(rac).io.data@ == old(rac).io.data@,
            final(context).within(updates.cutoff as int),
            ({
                let s0 = CoderState { rac: old(rac).state(), chances: old(context).chances@ };
                let (last, s1) = near_zero_spec(s0, old(rac).io.data@, *updates, 0, t.max - t.min);
                let vals = compact_values(s1, old(rac).io.data@, *updates, t, last, 0, t.min as int);
                &&& (r is Ok <==> last <= COLOR_LIMIT && vals is Some)
                &&& r matches Ok((l, v)) ==> {
                    &&& l == last && 0 <= l <= COLOR_LIMIT
                    &&& as_ints(v@) == vals->Some_0.0
                    &&& (CoderState { rac: final(rac).state(), chances: final(context).chances@ }) == vals->Some_0.1
                    &&& v@.len() == l + 1
                    &&& forall|j: int| 0 <= j < v@.len() ==> t.contains(#[trigger] v@[j] as int)
                    &&& forall|j: int, k: int| 0 <= j < k < v@.len() ==> (#[trigger] v@[j]) < (#[trigger] v@[k])
                }
            }),
            r matches Err(e) ==> e is InvalidOperation,
    {
        let ghost data = rac.io.data@;
        let ghost u = *updates;
        let last = rac.read_near_zero(0, t.max - t.min, context, updates)?;
        if last > COLOR_LIMIT {
            return Err(Error::InvalidOperation("channel compact range exceeds the value limit".to_owned()));
        }
        let ghost after_count = CoderState { rac: rac.state(), chances: context.chances@ };
        let ghost values_full = compact_values(after_count, data, u, t, last as int, 0, t.min as int);
        assert(as_ints(Seq::<ColorValue>::empty()) + Seq::<int>::empty() =~= Seq::<int>::empty());
        let mut values: Vec<ColorValue> = Vec::new();
        let mut min: i32 = t.min;
        let mut i: i32 = 0;
        while i <= last
            invariant
                rac.wf(),
                rac.io.data@ == data,
                data == old(rac).io.data@,
                u == *updates,
                updates.wf(),
                context.within(updates.cutoff as int),
                t.fits(),
                0 <= last <= COLOR_LIMIT,
                0 <= i <= last + 1,
                values@.len() == i,
                t.min <= min <= t.max + 1,
                forall|j: int| 0 <= j < values@.len() ==> t.contains(#[trigger] values@[j] as int),
                forall|j: int, k: int| 0 <= j < k < values@.len() ==> (#[trigger] values@[j]) < (#[trigger] values@[k]),
                forall|j: int| 0 <= j < values@.len() ==> (#[trigger] values@[j]) < min,
                values_full == compact_values(after_count, data, u, t, last as int, 0, t.min as int),
                (last as int, after_count) == near_zero_spec(CoderState { rac: old(rac).state(), chances: old(context).chances@ },
                    data, u, 0, t.max - t.min),
                match compact_values(CoderState { rac: rac.state(), chances: context.chances@ }, data, u, t, last as int, i as int, min as int) {
                    Some((rest, st)) => values_full == Some((as_ints(values@) + rest, st)),
                    None => values_full is None,
                },
            decreases last + 1 - i,
        {
            let ghost old_values = values@;
            let ghost here = CoderState { rac: rac.state(), chances: context.chances@ };
            let v = match rac.read_near_zero(0, t.max - (min + (last - i)), context, updates) {
                Ok(v) => v,
                Err(e) => {
                    assert(compact_values(here, data, u, t, last as int, i as int, min as int) is None);
                    return Err(e);
                },
            };
            let value = min + v;
            values.push(value as ColorValue);
            proof {
                assert(as_ints(values@) =~= as_ints(old_values) + seq![value as int]);
                match compact_values(CoderState { rac: rac.state(), chances: context.chances@ }, data, u, t, last as int, i + 1, value + 1) {
                    Some((rest, st)) => {
                        assert(as_ints(values@) + rest =~= as_ints(old_values) + (seq![value as int] + rest));
                    },
                    None => {},
                }
            }
            min = value + 1;
            i = i + 1;
        }
        assert(as_ints(values@) + Seq::<int>::empty() =~= as_ints(values@));
        Ok((last, values))
    }

    /// Reads, for each channel, the number of values that occur and those values in
    /// increasing order within the channel's previous range.
    pub fn new(rac: &mut Rac, previous: &TransformChain, channels: ColorSpace, updates: &UpdateTable) -> (r: Result<ChannelCompact>)
        requires
            old(rac).wf(),
            updates.wf(),
            previous.wf(),
        ensures
            final(rac).wf(),
            final(rac).io.data@ == old(rac).io.data@,
            r matches Ok(t) ==> t.wf() && t.channels == channels
                && forall|c: int| 0 <= c < channels.count() ==> forall|i: int| 0 <= i < #[trigger] t.decompacted@[c]@.len()
                    ==> (#[trigger] chain_range(previous.steps@, previous.steps@.len() as int, Channel::from_index_spec(c as nat))).contains(t.decompacted@[c]@[i] as int),
            r matches Ok(t) ==> tables_increase(t),
            ({
                let full = compact_spec(CoderState { rac: old(rac).state(), chances: fresh_chances() }, old(rac).io.data@,
                    *updates, *previous, 0, channels.count() as int);
                &&& (r is Ok <==> full is Some)
                &&& r matches Ok(t) ==> {
                    &&& final(rac).state() == full->Some_0.1.rac
                    &&& forall|c: int| 0 <= c < channels.count() ==> (#[trigger] t.ranges@[c]).max == full->Some_0.0[c].0
                        && as_ints(t.decompacted@[c]@) == full->Some_0.0[c].1
                }
            }),
            r matches Err(e) ==> e is InvalidOperation,
    {
        let mut context = ChanceTable::new();
        let mut ranges = zero_ranges();
        let mut decompacted: Vec<Vec<ColorValue>> = Vec::new();
        decompacted.push(Vec::new());
        decompacted.push(Vec::new());
        decompacted.push(Vec::new());
        decompacted.push(Vec::new());
        let n = channels.num_channels();
        let ghost data = rac.io.data@;
        let ghost u = *updates;
        let ghost full = compact_spec(CoderState { rac: rac.state(), chances: context.chances@ }, data, u, *previous, 0, n as int);
        proof {
            lemma_compact_len(CoderState { rac: rac.state(), chances: context.chances@ }, data, u, *previous, 0, n as int);
            if full is Some {
                assert(full->Some_0.0.subrange(0, n as int) =~= full->Some_0.0);
            }
        }
        let mut c: usize = 0;
        while c < n
            invariant
                rac.wf(),
                rac.io.data@ == old(rac).io.data@,
                data == old(rac).io.data@,
                u == *updates,
                updates.wf(),
                previous.wf(),
                context.within(updates.cutoff as int),
                n == channels.count(),
                c <= n,
                ranges@.len() == 4,
                decompacted@.len() == 4,
                forall|k: int| 0 <= k < 4 ==> (#[trigger] ranges@[k]).fits() && ranges@[k].min == 0,
                forall|k: int| 0 <= k < c ==> (#[trigger] decompacted@[k])@.len() == ranges@[k].max + 1,
                forall|k: int, j: int, l: int| 0 <= k < c && 0 <= j < l < decompacted@[k]@.len()
                    ==> (#[trigger] decompacted@[k]@[j]) < (#[trigger] decompacted@[k]@[l]),
                forall|k: int| 0 <= k < c ==> forall|i: int| 0 <= i < #[trigger] decompacted@[k]@.len()
                    ==> (#[trigger] chain_range(previous.steps@, previous.steps@.len() as int, Channel::from_index_spec(k as nat))).contains(decompacted@[k]@[i] as int),
                full == compact_spec(CoderState { rac: old(rac).state(), chances: fresh_chances() }, data, u, *previous, 0, n as int),
                match compact_spec(CoderState { rac: rac.state(), chances: context.chances@ }, data, u, *previous, c as int, n as int) {
                    Some((rest, st)) => full is Some && full->Some_0.1 == st && full->Some_0.0.len() == n
                        && full->Some_0.0.subrange(c as int, n as int) == rest
                        && forall|k: int| 0 <= k < c ==> (#[trigger] ranges@[k]).max == full->Some_0.0[k].0
                            && as_ints(decompacted@[k]@) == full->Some_0.0[k].1,
                    None => full is None,
                },
            decreases n - c,
        {
            let ghost at_channel = CoderState { rac: rac.state(), chances: context.chances@ };
            let t = previous.range(Channel::from_index(c));
            let (last, values) = Self::read_table(rac, &mut context, t, updates)?;
            ranges.set(c, ColorRange { min: 0, max: last });
            proof {
                match compact_spec(CoderState { rac: rac.state(), chances: context.chances@ }, data, u, *previous, c + 1, n as int) {
                    Some((rest, st)) => {
                        let w = full->Some_0.0;
                        let tail = w.subrange(c as int, n as int);
                        assert(w[c as int] == tail[0]);
                        assert(w.subrange(c + 1, n as int) =~= tail.subrange(1, tail.len() as int));
                        assert(tail.subrange(1, tail.len() as int) =~= rest);
                    },
                    None => {},
                }
            }
            decompacted.set(c, values);
            c = c + 1;
        }
        let t = ChannelCompact { ranges, decompacted, channels };
        proof {
            reveal(tables_increase);
        }
        Ok(t)
    }
}

/// The expansion of a maximum to the YCoCg range: the next value that is three modulo
/// four.
pub open spec fn expanded_max(old_max: int) -> int {
    ((old_max / 4) + 1) * 4 - 1
}

/// The largest maximum among red, green and blue after the chain.
pub open spec fn largest_color_max(chain: TransformChain) -> int {
    let r = chain.range_spec(Channel::Red).max as int;
    let g = chain.range_spec(Channel::Green).max as int;
    let b = chain.range_spec(Channel::Blue).max as int;
    let rb = if b > r { b } else { r };
    if g > rb { g } else { rb }
}

impl YCoGg {
    /// Expands the largest colour maximum of the previous step.
    pub fn new(previous: &TransformChain, channels: ColorSpace) -> (r: Result<YCoGg>)
        requires
            previous.wf(),
        ensures
            r matches Ok(t) ==> 3 <= t.max <= COLOR_LIMIT && t.alpha_range.fits()
                && t.alpha_range == previous.range_spec(Channel::Alpha)
                && t.max == expanded_max(largest_color_max(*previous)),
            channels == ColorSpace::Monochrome ==> r is Err,
            channels != ColorSpace::Monochrome && 0 <= largest_color_max(*previous) <= COLOR_LIMIT - 4 ==> r is Ok,
            r matches Err(e) ==> e is InvalidOperation,
    {
        if channels == ColorSpace::Monochrome {
            return Err(Error::InvalidOperation("the YCoCg transformation needs three colour channels".to_owned()));
        }
        let red = previous.range(Channel::Red).max;
        let green = previous.range(Channel::Green).max;
        let blue = previous.range(Channel::Blue).max;
        let mut old_max = red;
        if blue > old_max {
            old_max = blue;
        }
        if green > old_max {
            old_max = green;
        }
        if old_max < 0 || old_max > COLOR_LIMIT - 4 {
            return Err(Error::InvalidOperation("the YCoCg range exceeds the value limit".to_owned()));
        }
        let max = ((old_max / 4) + 1) * 4 - 1;
        Ok(YCoGg { max, alpha_range: previous.range(Channel::Alpha) })
    }
}

/// The source planes read from state `s` for channels `c` to `n - 1`, each near-zero
/// coded in `[0, n - 1]`, with the state after them.
pub open spec fn perm_values(s: CoderState, data: Seq<u8>, u: UpdateTable, n: int, c: int) -> (Seq<int>, CoderState)
    decreases n - c,
{
    if c >= n {
        (seq![], s)
    } else {
        let (v, s1) = near_zero_spec(s, data, u, 0, n - 1);
        let (rest, s2) = perm_values(s1, data, u, n, c + 1);
        (seq![v] + rest, s2)
    }
}

proof fn lemma_perm_len(s: CoderState, data: Seq<u8>, u: UpdateTable, n: int, c: int)
    requires
        c <= n,
    ensures
        perm_values(s, data, u, n, c).0.len() == n - c,
    decreases n - c,
{
    if c < n {
        let (v, s1) = near_zero_spec(s, data, u, 0, n - 1);
        lemma_perm_len(s1, data, u, n, c + 1);
    }
}

/// The largest maximum among the first `k` channels after the chain.
pub open spec fn channel_max_upto(chain: TransformChain, k: int) -> int
    decreases k,
{
    let m = chain.range_spec(Channel::from_index_spec((k - 1) as nat)).max as int;
    if k <= 1 {
        chain.range_spec(Channel::Red).max as int
    } else {
        let prev = channel_max_upto(chain, k - 1);
        if m > prev { m } else { prev }
    }
}

impl PermutePlanes {
    /// Reads the subtract flag and the source plane of each channel, and expands the
    /// largest maximum of the image's channels as YCoCg does.
    pub fn new(rac: &mut Rac, previous: &TransformChain, channels: ColorSpace, updates: &UpdateTable) -> (r: Result<PermutePlanes>)
        requires
            old(rac).wf(),
            updates.wf(),
            previous.wf(),
        ensures
            final(rac).wf(),
            final(rac).io.data@ == old(rac).io.data@,
            r matches Ok(t) ==> 3 <= t.max <= COLOR_LIMIT && t.permutation@.len() == channels.count()
                && forall|i: int| 0 <= i < t.permutation@.len() ==> #[trigger] t.permutation@[i] < channels.count(),
            r matches Err(e) ==> e is InvalidOperation,
            ({
                let data = old(rac).io.data@;
                let (sub, s1) = near_zero_spec(CoderState { rac: old(rac).state(), chances: fresh_chances() }, data, *updates, 0, 1);
                let (perm, s2) = perm_values(s1, data, *updates, channels.count() as int, 0);
                let m = channel_max_upto(*previous, channels.count() as int);
                &&& (r is Ok <==> 0 <= m <= COLOR_LIMIT - 4)
                &&& r matches Ok(t) ==> t.subtract == (sub == 1) && t.max == expanded_max(m)
                    && t.permutation@.map_values(|x: u8| x as int) == perm && final(rac).state() == s2.rac
            }),
    {
        let mut context = ChanceTable::new();
        let ghost data = rac.io.data@;
        let ghost u = *updates;
        let sub = match rac.read_near_zero(0, 1, &mut context, updates) {
            Ok(v) => v,
            Err(e) => {
                return Err(e);
            },
        };
        let subtract = sub == 1;
        let ghost after_sub = CoderState { rac: rac.state(), chances: context.chances@ };
        let n = channels.num_channels();
        let mut permutation: Vec<u8> = Vec::new();
        let mut c: usize = 0;
        proof {
            lemma_perm_len(after_sub, data, u, n as int, 0);
            assert(perm_values(after_sub, data, u, n as int, 0).0.subrange(0, n as int)
                =~= perm_values(after_sub, data, u, n as int, 0).0);
            assert(permutation@.map_values(|x: u8| x as int) =~= perm_values(after_sub, data, u, n as int, 0).0.subrange(0, 0));
        }
        while c < n
            invariant
                rac.wf(),
                rac.io.data@ == old(rac).io.data@,
                updates.wf(),
                context.within(updates.cutoff as int),
                n == channels.count(),
                1 <= n <= 4,
                c <= n,
                permutation@.len() == c,
                forall|i: int| 0 <= i < c ==> #[trigger] permutation@[i] < n,
                data == old(rac).io.data@ && u == *updates,
                ({
                    let full = perm_values(after_sub, data, u, n as int, 0);
                    let cur = perm_values(CoderState { rac: rac.state(), chances: context.chances@ }, data, u, n as int, c as int);
                    &&& full.0.len() == n
                    &&& cur.1 == full.1 && cur.0 == full.0.subrange(c as int, n as int)
                    &&& permutation@.map_values(|x: u8| x as int) == full.0.subrange(0, c as int)
                }),
            decreases n - c,
        {
            let ghost before = CoderState { rac: rac.state(), chances: context.chances@ };
            let ghost old_perm = permutation@;
            let source = match rac.read_near_zero(0, (n - 1) as i32, &mut context, updates) {
                Ok(v) => v,
                Err(e) => {
                    return Err(e);
                },
            };
            permutation.push(source as u8);
            proof {
                let full = perm_values(after_sub, data, u, n as int, 0);
                let cur = perm_values(before, data, u, n as int, c as int);
                let next = perm_values(CoderState { rac: rac.state(), chances: context.chances@ }, data, u, n as int, c + 1);
                assert(cur.0 == seq![source as int] + next.0);
                assert(full.0[c as int] == cur.0[0]);
                assert(full.0.subrange(c + 1, n as int) =~= cur.0.subrange(1, cur.0.len() as int));
                assert(cur.0.subrange(1, cur.0.len() as int) =~= next.0);
                assert(permutation@.map_values(|x: u8| x as int) =~= old_perm.map_values(|x: u8| x as int).push(source as int));
                assert(full.0.subrange(0, c + 1) =~= full.0.subrange(0, c as int).push(full.0[c as int]));
            }
            c = c + 1;
        }
        let mut old_max = previous.range(Channel::Red).max;
        let mut k: usize = 1;
        while k < n
            invariant
                previous.wf(),
                n <= 4,
                1 <= k <= n || n == 0,
                -COLOR_LIMIT <= old_max <= COLOR_LIMIT,
                n >= 1 ==> old_max == channel_max_upto(*previous, k as int),
            decreases n - k,
        {
            let m = previous.range(Channel::from_index(k)).max;
            if m > old_max {
                old_max = m;
            }
            k = k + 1;
        }
        proof {
            let full = perm_values(after_sub, data, u, n as int, 0);
            assert(permutation@.map_values(|x: u8| x as int) =~= full.0);
        }
        if old_max < 0 || old_max > COLOR_LIMIT - 4 {
            return Err(Error::InvalidOperation("the permuted range exceeds the value limit".to_owned()));
        }
        Ok(PermutePlanes { max: ((old_max / 4) + 1) * 4 - 1, subtract, permutation })
    }
}

/// The bounds read from state `s` for channels `c` to `n - 1`: for each, a minimum
/// near-zero coded within the previous range and a maximum from that minimum up, both
/// clamped to the previous range; with the state after them.
pub open spec fn bounds_spec(s: CoderState, data: Seq<u8>, u: UpdateTable, previous: TransformChain, c: int, n: int)
    -> (Seq<(int, int)>, CoderState)
    decreases n - c,
{
    if c >= n {
        (seq![], s)
    } else {
        let t = previous.range_spec(Channel::from_index_spec(c as nat));
        let (lo, s1) = near_zero_spec(s, data, u, t.min as int, t.max as int);
        let (hi, s2) = near_zero_spec(s1, data, u, lo, t.max as int);
        let lo2 = if lo > t.min { lo } else { t.min as int };
        let hi2 = if hi < t.max { hi } else { t.max as int };
        let (rest, s3) = bounds_spec(s2, data, u, previous, c + 1, n);
        (seq![(lo2, hi2)] + rest, s3)
    }
}

proof fn lemma_bounds_len(s: CoderState, data: Seq<u8>, u: UpdateTable, previous: TransformChain, c: int, n: int)
    requires
        c <= n,
    ensures
        bounds_spec(s, data, u, previous, c, n).0.len() == n - c,
    decreases n - c,
{
    if c < n {
        let t = previous.range_spec(Channel::from_index_spec(c as nat));
        let (lo, s1) = near_zero_spec(s, data, u, t.min as int, t.max as int);
        let (hi, s2) = near_zero_spec(s1, data, u, lo, t.max as int);
        lemma_bounds_len(s2, data, u, previous, c + 1, n);
    }
}

impl Bounds {
    /// Reads, for each channel, a minimum and a maximum within its previous range.
    pub fn new(rac: &mut Rac, previous: &TransformChain, channels: ColorSpace, updates: &UpdateTable) -> (r: Result<Bounds>)
        requires
            old(rac).wf(),
            updates.wf(),
            previous.wf(),
        ensures
            final(rac).wf(),
            final(rac).io.data@ == old(rac).io.data@,
            r is Ok,
            r matches Ok(t) ==> t.ranges@.len() == 4
                && (forall|c: int| 0 <= c < 4 ==> (#[trigger] t.ranges@[c]).fits())
                && (forall|c: int| 0 <= c < channels.count() ==>
                    (#[trigger] t.ranges@[c]).inside(chain_range(previous.steps@, previous.steps@.len() as int, Channel::from_index_spec(c as nat))))
                && {
                    let (spec, st) = bounds_spec(CoderState { rac: old(rac).state(), chances: fresh_chances() },
                        old(rac).io.data@, *updates, *previous, 0, channels.count() as int);
                    &&& final(rac).state() == st.rac
                    &&& forall|c: int| 0 <= c < channels.count() ==> (#[trigger] t.ranges@[c]).min == spec[c].0
                        && t.ranges@[c].max == spec[c].1
                },
    {
        let mut context = ChanceTable::new();
        let mut ranges = zero_ranges();
        let n = channels.num_channels();
        let ghost data = rac.io.data@;
        let ghost full = bounds_spec(CoderState { rac: rac.state(), chances: context.chances@ }, data, *updates, *previous, 0, n as int);
        proof {
            lemma_bounds_len(CoderState { rac: rac.state(), chances: context.chances@ }, data, *updates, *previous, 0, n as int);
        }
        let mut c: usize = 0;
        while c < n
            invariant
                rac.wf(),
                rac.io.data@ == old(rac).io.data@,
                updates.wf(),
                previous.wf(),
                context.within(updates.cutoff as int),
                n == channels.count(),
                c <= n,
                ranges@.len() == 4,
                forall|k: int| 0 <= k < 4 ==> (#[trigger] ranges@[k]).fits(),
                forall|k: int| 0 <= k < c ==>
                    (#[trigger] ranges@[k]).inside(chain_range(previous.steps@, previous.steps@.len() as int, Channel::from_index_spec(k as nat))),
                data == old(rac).io.data@,
                full == bounds_spec(CoderState { rac: old(rac).state(), chances: fresh_chances() }, data, *updates, *previous, 0, n as int),
                full.0.len() == n,
                ({
                    let cur = bounds_spec(CoderState { rac: rac.state(), chances: context.chances@ }, data, *updates, *previous, c as int, n as int);
                    cur.1.rac == full.1.rac && cur.0 == full.0.subrange(c as int, n as int)
                }),
                forall|k: int| 0 <= k < c ==> (#[trigger] ranges@[k]).min == full.0[k].0 && ranges@[k].max == full.0[k].1,
            decreases n - c,
        {
            let ghost before = CoderState { rac: rac.state(), chances: context.chances@ };
            let t = previous.range(Channel::from_index(c));
            let lo = rac.read_near_zero(t.min, t.max, &mut context, updates)?;
            let hi = rac.read_near_zero(lo, t.max, &mut context, updates)?;
            let lo = if lo > t.min { lo } else { t.min };
            let hi = if hi < t.max { hi } else { t.max };
            ranges.set(c, ColorRange { min: lo, max: hi });
            proof {
                let cur = bounds_spec(before, data, *updates, *previous, c as int, n as int);
                let next = bounds_spec(CoderState { rac: rac.state(), chances: context.chances@ }, data, *updates, *previous, c + 1, n as int);
                assert(cur.0 == seq![(lo as int, hi as int)] + next.0);
                assert(full.0[c as int] == cur.0[0]);
                assert(full.0.subrange(c + 1, n as int) =~= cur.0.subrange(1, cur.0.len() as int));
                assert(cur.0.subrange(1, cur.0.len() as int) =~= next.0);
            }
            c = c + 1;
        }
        Ok(Bounds { ranges })
    }
}

/// The identifiers in `ids` name the steps of `steps`, one for one.
pub open spec fn names_steps(ids: Seq<Transformation>, steps: Seq<TransformStep>) -> bool {
    &&& ids.len() == steps.len()
    &&& forall|k: int| 0 <= k < ids.len() ==> match #[trigger] steps[k] {
        TransformStep::ChannelCompact(_) => ids[k] == Transformation::ChannelCompact,
        TransformStep::YCoGg(_) => ids[k] == Transformation::YCoGg,
        TransformStep::PermutePlanes(_) => ids[k] == Transformation::PermutePlanes,
        TransformStep::Bounds(_) => ids[k] == Transformation::Bounds,
    }
}

/// The first transformation read from state `s` is announced and is one this decoder
/// reads.
pub open spec fn first_step_ok(s: crate::rac::RacState, data: Seq<u8>) -> bool {
    let (more, s1) = decode_step(s, data, s.range / 2);
    let (id, _) = uniform_spec(s1, data, 0, 13);
    more && (Transformation::from_id_spec(id) matches Some(t) && t.supported())
}

/// Reads the chain of transformations: while a leading bit is set, a four-bit
/// identifier and the parameters of that transformation. More than `MAX_TRANSFORMS`
/// transformations are refused with `InvalidOperation`.
#[verifier::rlimit(100)]
pub fn load_transformations(rac: &mut Rac, channels: ColorSpace, updates: &UpdateTable) -> (r: Result<(Vec<Transformation>, TransformChain)>)
    requires
        old(rac).wf(),
        updates.wf(),
    ensures
        final(rac).wf(),
        final(rac).io.data@ == old(rac).io.data@,
        r matches Ok((ids, chain)) ==> chain.wf() && names_steps(ids@, chain.steps@)
            && ids@.len() <= MAX_TRANSFORMS,
        r matches Err(e) ==> e is InvalidOperation || e is UnimplementedTransformation,
        ({
            let s0 = old(rac).state();
            let data = old(rac).io.data@;
            let (more, s1) = decode_step(s0, data, s0.range / 2);
            let (id, _) = uniform_spec(s1, data, 0, 13);
            &&& !more ==> (r matches Ok((ids, chain)) && ids@.len() == 0 && chain.steps@.len() == 0) && final(rac).state() == s1
            &&& more && Transformation::from_id_spec(id) is None ==> (r matches Err(Error::InvalidOperation(_)))
            &&& more && (Transformation::from_id_spec(id) matches Some(t) && !t.supported())
                ==> (r matches Err(Error::UnimplementedTransformation(n)) && n@ == Transformation::from_id_spec(id)->Some_0.name_spec())
        }),
{
    let ghost s0 = rac.state();
    let ghost data = rac.io.data@;
    let mut chain = TransformChain::new();
    let mut ids: Vec<Transformation> = Vec::new();
    loop
        invariant_except_break
            ids@.len() == 0 ==> rac.state() == s0,
        invariant
            rac.wf(),
            rac.io.data@ == old(rac).io.data@,
            updates.wf(),
            chain.wf(),
            names_steps(ids@, chain.steps@),
            ids@.len() <= MAX_TRANSFORMS,
            s0 == old(rac).state() && data == old(rac).io.data@,
            ids@.len() == 0 ==> chain.steps@.len() == 0,
            ids@.len() > 0 ==> first_step_ok(s0, data),
        ensures
            ids@.len() > 0 ==> first_step_ok(s0, data),
            rac.wf(),
            rac.io.data@ == old(rac).io.data@,
            chain.wf(),
            names_steps(ids@, chain.steps@),
            ids@.len() <= MAX_TRANSFORMS,
            ids@.len() == 0 ==> chain.steps@.len() == 0 && !decode_step(s0, data, s0.range / 2).0
                && rac.state() == decode_step(s0, data, s0.range / 2).1,
        decreases MAX_TRANSFORMS - ids@.len(),
    {
        let ghost first = ids@.len() == 0;
        if !rac.read_bit() {
            break;
        }
        if ids.len() >= MAX_TRANSFORMS {
            return Err(Error::InvalidOperation("too many transformations".to_owned()));
        }
        let id_value = rac.read_val(0, 13);
        let id = match Transformation::from_id(id_value as u8) {
            Some(id) => id,
            None => {
                return Err(Error::InvalidOperation("Invalid transformation identifier read, possibly corrupt file".to_owned()));
            },
        };
        let step = match id {
            Transformation::ChannelCompact => TransformStep::ChannelCompact(ChannelCompact::new(rac, &chain, channels, updates)?),
            Transformation::YCoGg => TransformStep::YCoGg(YCoGg::new(&chain, channels)?),
            Transformation::PermutePlanes => TransformStep::PermutePlanes(PermutePlanes::new(rac, &chain, channels, updates)?),
            Transformation::Bounds => TransformStep::Bounds(Bounds::new(rac, &chain, channels, updates)?),
            _ => {
                return Err(Error::UnimplementedTransformation(id.name().to_owned()));
            },
        };
        chain.steps.push(step);
        ids.push(id);
    }
    Ok((ids, chain))
}

} // verus!
