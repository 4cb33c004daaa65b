use vstd::prelude::*;

use crate::chances::UpdateTable;
use crate::error::{Error, Result};
use crate::decoder::FlifInfo;
use crate::maniac::{build_spec, prange_spec, ManiacNode, ManiacTree};
use crate::pixels::{Channel, ColorSpace, ColorValue, Rgba};
use crate::predict::{as_ints, guess_spec, make_guess, make_pvec, neighbors_fit, pvec_spec, Neighbors};
use crate::maniac::apply_spec;
use crate::transform::ColorRange;
use crate::rac::{Rac, RacState};
use crate::transform::{chain_undo, TransformChain, COLOR_LIMIT};
use crate::Limits;

verus! {

/// The order in which the channels are decoded: alpha first, then the colours.
pub open spec fn decode_order(space: ColorSpace) -> Seq<Channel> {
    match space {
        ColorSpace::Monochrome => seq![Channel::Red],
        ColorSpace::RGB => seq![Channel::Red, Channel::Green, Channel::Blue],
        ColorSpace::RGBA => seq![Channel::Alpha, Channel::Red, Channel::Green, Channel::Blue],
    }
}

pub fn decode_order_exec(space: ColorSpace) -> (r: Vec<Channel>)
    ensures
        r@ == decode_order(space),
{
    let mut r: Vec<Channel> = Vec::new();
    if space == ColorSpace::RGBA {
        r.push(Channel::Alpha);
    }
    r.push(Channel::Red);
    if space != ColorSpace::Monochrome {
        r.push(Channel::Green);
        r.push(Channel::Blue);
    }
    assert(r@ =~= decode_order(space));
    r
}

/// `x / 2` rounded towards zero.
fn half_toward_zero(x: i32) -> (r: i32)
    requires
        -0x1_0000 <= x <= 0x1_0000,
    ensures
        x >= 0 ==> r == x / 2,
        x < 0 ==> r == -((-x) / 2),
{
    if x >= 0 { x / 2 } else { -((-x) / 2) }
}

/// The trees of the channels in decoding order: none where the channel's range holds one
/// value, else one read from the stream.
pub open spec fn trees_ok(trees: Seq<Option<ManiacTree>>, order: Seq<Channel>, chain: TransformChain, cutoff: int, max_nodes: int) -> bool {
    &&& trees.len() == order.len()
    &&& forall|k: int| 0 <= k < trees.len() ==> {
        let r = chain.range_spec(#[trigger] order[k]);
        &&& (trees[k] is None <==> r.min == r.max)
        &&& (trees[k] matches Some(t) ==> t.wf(cutoff) && t.active_ok() && t.nodes@.len() <= max_nodes)
    }
}

/// Reads the trees of channels `k` on of `order` from state `s`: a channel whose range
/// holds one value reads nothing; every other reads its tree, and a failing read fails
/// the whole. The result is the state after the last tree.
pub open spec fn trees_run(s: RacState, data: Seq<u8>, u: UpdateTable, info: FlifInfo, order: Seq<Channel>, k: int, limit: int)
    -> Option<RacState>
    decreases order.len() - k,
{
    if k >= order.len() {
        Some(s)
    } else {
        let c = order[k];
        let r = info.transform.range_spec(c);
        if r.min == r.max {
            trees_run(s, data, u, info, order, k + 1, limit)
        } else {
            let fin = build_spec(s, data, u, prange_spec(c, info.header.channels, info.transform), limit);
            if fin.failed {
                None
            } else {
                trees_run(fin.coder.rac, data, u, info, order, k + 1, limit)
            }
        }
    }
}

/// Reads the MANIAC tree of every channel whose range holds more than one value.
pub fn build_trees(rac: &mut Rac, info: &FlifInfo, updates: &UpdateTable, limits: &Limits)
    -> (r: Result<Vec<Option<ManiacTree>>>)
    requires
        old(rac).wf(),
        updates.wf(),
        info.transform.wf(),
    ensures
        final(rac).wf(),
        final(rac).io.data@ == old(rac).io.data@,
        r matches Ok(trees) ==> trees_ok(trees@, decode_order(info.header.channels), info.transform, updates.cutoff as int,
            limits.maniac_nodes as int),
        ({
            let run = trees_run(old(rac).state(), old(rac).io.data@, *updates, *info, decode_order(info.header.channels), 0,
                limits.maniac_nodes as int);
            &&& limits.maniac_nodes + 8 <= usize::MAX ==> (r is Ok <==> run is Some)
            &&& r is Ok ==> run == Some(final(rac).state())
        }),
{
    let ghost data = rac.io.data@;
    let ghost whole = trees_run(rac.state(), data, *updates, *info, decode_order(info.header.channels), 0,
        limits.maniac_nodes as int);
    let chain = &info.transform;
    let space = info.header.channels;
    let order = decode_order_exec(space);
    let mut trees: Vec<Option<ManiacTree>> = Vec::new();
    let mut k: usize = 0;
    while k < order.len()
        invariant
            rac.wf(),
            rac.io.data@ == old(rac).io.data@,
            updates.wf(),
            chain.wf(),
            info.transform.wf(),
            *chain == info.transform,
            space == info.header.channels,
            order@ == decode_order(space),
            k <= order@.len(),
            trees@.len() == k,
            forall|j: int| 0 <= j < k ==> {
                let r = chain.range_spec(#[trigger] order@[j]);
                &&& (trees@[j] is None <==> r.min == r.max)
                &&& (trees@[j] matches Some(t) ==> t.wf(updates.cutoff as int) && t.active_ok() && t.nodes@.len() <= limits.maniac_nodes)
            },
            data == old(rac).io.data@,
            whole == trees_run(old(rac).state(), data, *updates, *info, order@, 0, limits.maniac_nodes as int),
            trees_run(rac.state(), data, *updates, *info, order@, k as int, limits.maniac_nodes as int) == whole,
        decreases order@.len() - k,
    {
        let c = order[k];
        let range = chain.range(c);
        if range.min == range.max {
            trees.push(None);
        } else {
            let tree = match ManiacTree::new(rac, c, info, updates, limits) {
                Ok(t) => t,
                Err(e) => {
                    return Err(e);
                },
            };
            trees.push(Some(tree));
        }
        k = k + 1;
    }
    Ok(trees)
}

/// The pixels of an image while it is being decoded.
#[derive(Debug)]
pub struct DecodingImage {
    pub width: usize,
    pub height: usize,
    pub channels: ColorSpace,
    pub alpha_zero: bool,
    pub data: Vec<Rgba>,
}

/// Every pixel holds, in each of the first `k` channels of `order` and in channel
/// `order[k]` for the pixels before `upto`, a value of the channel's range.
pub open spec fn values_in_range(data: Seq<Rgba>, order: Seq<Channel>, chain: TransformChain, k: int, upto: int) -> bool {
    &&& forall|j: int, p: int| 0 <= j < k && 0 <= p < data.len() ==>
        chain.range_spec(order[j]).contains((#[trigger] data[p]).value(#[trigger] order[j]) as int)
    &&& forall|p: int| 0 <= p < upto && 0 <= k < order.len() ==>
        chain.range_spec(order[k]).contains((#[trigger] data[p]).value(order[k]) as int)
}

/// A channel whose range holds a single value holds that value at every pixel.
pub proof fn singleton_channel_is_constant(data: Seq<Rgba>, order: Seq<Channel>, chain: TransformChain, j: int, p: int)
    requires
        values_in_range(data, order, chain, order.len() as int, 0),
        0 <= j < order.len(),
        0 <= p < data.len(),
        chain.range_spec(order[j]).min == chain.range_spec(order[j]).max,
    ensures
        data[p].value(order[j]) == chain.range_spec(order[j]).min,
{
    assert(chain.range_spec(order[j]).contains(data[p].value(order[j]) as int));
}

/// The value of channel `c` at position `i`, when `cond` holds.
pub open spec fn value_if(data: Seq<Rgba>, cond: bool, i: int, c: Channel) -> Option<i32> {
    if cond { Some(data[i].value(c) as i32) } else { None }
}

/// The decoded neighbours of the pixel at `(x, y)` of an image `w` wide, in channel `c`.
pub open spec fn neighbors_spec(data: Seq<Rgba>, w: int, x: int, y: int, c: Channel) -> Neighbors {
    let i = y * w + x;
    Neighbors {
        left: value_if(data, x >= 1, i - 1, c),
        left2: value_if(data, x >= 2, i - 2, c),
        top: value_if(data, y >= 1, i - w, c),
        top2: value_if(data, y >= 2, i - 2 * w, c),
        top_left: value_if(data, x >= 1 && y >= 1, i - w - 1, c),
        top_right: value_if(data, y >= 1 && x + 1 < w, i - w + 1, c),
    }
}

/// `x / 2` rounded towards zero.
pub open spec fn half_toward_zero_spec(x: int) -> int {
    if x >= 0 { x / 2 } else { -((-x) / 2) }
}

/// What the prediction falls back on when neither left nor top is there: the middle of
/// the channel's range for a colour of a pixel whose alpha is zero in an image that
/// flags it, else the range's minimum.
pub open spec fn fallback_spec(alpha_zero: bool, space: ColorSpace, c: Channel, p: Rgba, range: ColorRange) -> int {
    if alpha_zero && c != Channel::Alpha && space == ColorSpace::RGBA && p.alpha == 0 {
        half_toward_zero_spec(range.min + range.max)
    } else {
        range.min as int
    }
}

/// `v` clamped into `r`.
pub open spec fn clamp_spec(v: int, r: ColorRange) -> int {
    if v > r.max { r.max as int } else if v < r.min { r.min as int } else { v }
}

/// The bytes of a pixel: its first `n` channels in colour-space order, eight bits each.
pub open spec fn pixel_bytes(q: Rgba, n: nat) -> Seq<u8> {
    if n == 1 {
        seq![q.red as u8]
    } else if n == 3 {
        seq![q.red as u8, q.green as u8, q.blue as u8]
    } else {
        seq![q.red as u8, q.green as u8, q.blue as u8, q.alpha as u8]
    }
}

impl DecodingImage {
    pub open spec fn wf(&self) -> bool {
        &&& self.width >= 1 && self.height >= 1
        &&& self.data@.len() == self.width * self.height
    }

    /// An image of the size the headers give, with every value zero.
    pub fn new(info: &FlifInfo) -> (r: Result<DecodingImage>)
        requires
            info.wf(),
        ensures
            r matches Ok(img) ==> img.wf() && img.width == info.header.width && img.height == info.header.height
                && img.channels == info.header.channels && img.alpha_zero == info.second_header.alpha_zero
                && forall|p: int| 0 <= p < img.data@.len() ==> #[trigger] img.data@[p] == (Rgba { red: 0, green: 0, blue: 0, alpha: 0 }),
            info.header.width * info.header.height <= usize::MAX ==> r is Ok,
            r matches Err(e) ==> e is LimitViolation,
    {
        let header = &info.header;
        let alpha_zero = info.second_header.alpha_zero;
        let w = header.width as u64;
        let h = header.height as u64;
        assert(w * h <= u64::MAX) by (nonlinear_arith)
            requires w <= u32::MAX, h <= u32::MAX;
        let n64 = w * h;
        if n64 > usize::MAX as u64 {
            return Err(Error::LimitViolation("number of pixels exceeds the address space".to_owned()));
        }
        let n = n64 as usize;
        let mut data: Vec<Rgba> = Vec::new();
        let mut i: usize = 0;
        while i < n
            invariant
                i <= n,
                data@.len() == i,
                forall|p: int| 0 <= p < i ==> #[trigger] data@[p] == (Rgba { red: 0, green: 0, blue: 0, alpha: 0 }),
            decreases n - i,
        {
            data.push(Rgba::zero());
            i = i + 1;
        }
        Ok(DecodingImage {
            width: header.width as usize,
            height: header.height as usize,
            channels: header.channels,
            alpha_zero,
            data,
        })
    }

    /// The value of channel `c` of the pixel at `(x, y)`.
    pub fn get_val(&self, x: usize, y: usize, c: Channel) -> (r: ColorValue)
        requires
            self.wf(),
            x < self.width,
            y < self.height,
        ensures
            r == self.data@[y * self.width + x].value(c),
    {
        let len = self.data.len();
        assert(y * self.width + x < len) by (nonlinear_arith)
            requires x < self.width, y < self.height, len == self.width * self.height;
        assert(y * self.width <= y * self.width + x);
        self.data[y * self.width + x].get(c)
    }

    /// Sets channel `c` of the pixel at `(x, y)` to `v`.
    pub fn set_val(&mut self, x: usize, y: usize, c: Channel, v: ColorValue)
        requires
            old(self).wf(),
            x < old(self).width,
            y < old(self).height,
        ensures
            final(self).wf(),
            final(self).width == old(self).width && final(self).height == old(self).height,
            final(self).channels == old(self).channels && final(self).alpha_zero == old(self).alpha_zero,
            ({
                let i = y * old(self).width + x;
                &&& final(self).data@[i].value(c) == v
                &&& forall|d: Channel| d != c ==> #[trigger] final(self).data@[i].value(d) == old(self).data@[i].value(d)
                &&& final(self).data@ == old(self).data@.update(i, final(self).data@[i])
            }),
    {
        let len = self.data.len();
        assert(y * self.width + x < len) by (nonlinear_arith)
            requires x < self.width, y < self.height, len == self.width * self.height;
        assert(y * self.width <= y * self.width + x);
        let idx = y * self.width + x;
        let mut p = self.data[idx];
        p.set(c, v);
        self.data.set(idx, p);
    }

    /// The value of channel `c` at position `idx`.
    fn value_at(&self, idx: usize, c: Channel) -> (r: i32)
        requires
            idx < self.data@.len(),
        ensures
            r == self.data@[idx as int].value(c),
            -0x8000 <= r < 0x8000,
    {
        self.data[idx].get(c) as i32
    }

    /// The decoded neighbours of the pixel at `(x, y)` in channel `c`.
    fn neighbors(&self, x: usize, y: usize, c: Channel) -> (r: Neighbors)
        requires
            self.wf(),
            x < self.width,
            y < self.height,
        ensures
            neighbors_fit(r),
            r == neighbors_spec(self.data@, self.width as int, x as int, y as int, c),
            r.left is Some <==> x >= 1,
            r.top is Some <==> y >= 1,
            r.top_left is Some <==> x >= 1 && y >= 1,
    {
        let w = self.width;
        let len = self.data.len();
        assert(y * w + x < len) by (nonlinear_arith)
            requires x < w, y < self.height, len == w * self.height;
        assert(y * w <= y * w + x);
        let idx = y * w + x;
        assert(y >= 1 ==> idx >= w) by (nonlinear_arith)
            requires idx == y * w + x;
        assert(y >= 2 ==> idx >= 2 * w) by (nonlinear_arith)
            requires idx == y * w + x;
        let left = if x >= 1 { Some(self.value_at(idx - 1, c)) } else { None };
        let left2 = if x >= 2 { Some(self.value_at(idx - 2, c)) } else { None };
        let top = if y >= 1 { Some(self.value_at(idx - w, c)) } else { None };
        let top2 = if y >= 2 { Some(self.value_at(idx - 2 * w, c)) } else { None };
        let top_left = if x >= 1 && y >= 1 { Some(self.value_at(idx - w - 1, c)) } else { None };
        let top_right = if y >= 1 && x + 1 < w { Some(self.value_at(idx - w + 1, c)) } else { None };
        Neighbors { left, left2, top, top2, top_left, top_right }
    }

    /// Decodes channel `c` of the pixel at `(x, y)`: predicts it, snaps the prediction
    /// into the conditional range and reads the value with the channel's tree, or takes
    /// the low end of the range when the channel has no tree.
    fn decode_pixel(
        &mut self,
        rac: &mut Rac,
        chain: &TransformChain,
        tree: &mut Option<ManiacTree>,
        updates: &UpdateTable,
        x: usize,
        y: usize,
        c: Channel,
    ) -> (r: Result<()>)
        requires
            old(self).wf(),
            old(rac).wf(),
            updates.wf(),
            chain.wf(),
            x < old(self).width,
            y < old(self).height,
            *old(tree) matches Some(t) ==> t.wf(updates.cutoff as int) && t.active_ok(),
            *old(tree) is None ==> chain.range_spec(c).min == chain.range_spec(c).max,
        ensures
            final(rac).wf(),
            final(rac).io.data@ == old(rac).io.data@,
            final(self).wf(),
            final(self).width == old(self).width,
            final(self).height == old(self).height,
            final(self).channels == old(self).channels,
            final(self).alpha_zero == old(self).alpha_zero,
            *final(tree) matches Some(t) ==> t.wf(updates.cutoff as int) && t.active_ok(),
            (*final(tree) is None) <==> (*old(tree) is None),
            r is Ok ==> ({
                let i = y * old(self).width + x;
                let p = old(self).data@[i];
                let cr = chain.crange_spec(c, p);
                let n = neighbors_spec(old(self).data@, old(self).width as int, x as int, y as int, c);
                let guess = guess_spec(n, fallback_spec(old(self).alpha_zero, old(self).channels, c, p, chain.range_spec(c)));
                let snap = clamp_spec(guess, cr);
                let v = final(self).data@[i].value(c) as int;
                *old(tree) is None ==> v == cr.min
            }),
            r is Ok ==> ({
                let i = y * old(self).width + x;
                let p = old(self).data@[i];
                let cr = chain.crange_spec(c, p);
                let n = neighbors_spec(old(self).data@, old(self).width as int, x as int, y as int, c);
                let guess = guess_spec(n, fallback_spec(old(self).alpha_zero, old(self).channels, c, p, chain.range_spec(c)));
                let snap = clamp_spec(guess, cr);
                let v = final(self).data@[i].value(c) as int;
                *old(tree) matches Some(t0) ==> *final(tree) matches Some(t1) && (cr.min == cr.max ==> v == cr.min
                    && t1.nodes@ == t0.nodes@ && final(rac).state() == old(rac).state())
            }),
            r is Ok ==> ({
                let i = y * old(self).width + x;
                let p = old(self).data@[i];
                let cr = chain.crange_spec(c, p);
                let n = neighbors_spec(old(self).data@, old(self).width as int, x as int, y as int, c);
                let guess = guess_spec(n, fallback_spec(old(self).alpha_zero, old(self).channels, c, p, chain.range_spec(c)));
                let snap = clamp_spec(guess, cr);
                let v = final(self).data@[i].value(c) as int;
                *old(tree) matches Some(t0) ==> *final(tree) matches Some(t1)
                    && (cr.min < cr.max ==> exists|pv: Seq<i32>| as_ints(pv) == pvec_spec(c, old(self).channels, p, snap, n)
                        && #[trigger] apply_spec(t0.nodes@, t1.nodes@, old(rac).state(), final(rac).state(), old(rac).io.data@,
                        *updates, pv, cr.min - snap, cr.max - snap, v - snap))
            }),
            r is Ok ==> {
                let i = y * old(self).width + x;
                &&& final(self).data@ == old(self).data@.update(i, final(self).data@[i])
                &&& chain.range_spec(c).contains(final(self).data@[i].value(c) as int)
                &&& forall|d: Channel| d != c ==> #[trigger] final(self).data@[i].value(d) == old(self).data@[i].value(d)
            },
    {
        let w = self.width;
        let len = self.data.len();
        assert(y * w + x < len) by (nonlinear_arith)
            requires x < w, y < self.height, len == w * self.height;
        assert(y * w <= y * w + x);
        let idx = y * w + x;
        let pixel = self.data[idx];
        let n = self.neighbors(x, y, c);
        let range = chain.range(c);
        let fallback = if self.alpha_zero && c != Channel::Alpha && pixel.is_alpha_zero(self.channels) {
            half_toward_zero(range.min + range.max)
        } else {
            range.min
        };
        let guess = make_guess(&n, fallback);
        let crange = chain.crange(c, pixel);
        if !crange.is_within(&range) {
            return Err(Error::InvalidOperation("conditional range lies outside the channel range".to_owned()));
        }
        let ghost fb = fallback_spec(self.alpha_zero, self.channels, c, pixel, chain.range_spec(c));
        assert(fallback as int == fb);
        let ghost snap_s = clamp_spec(guess as int, crange);
        let ghost mut pv: Seq<i32> = Seq::empty();
        let ghost old_tree = *tree;
        let ghost old_data = self.data@;
        let ghost nodes_before: Seq<ManiacNode> = Seq::empty();
        let ghost rac_before = rac.state();
        let ghost input = rac.io.data@;
        proof {
            if let Some(t) = tree {
                nodes_before = t.nodes@;
            }
        }
        let value = match tree {
            Some(t) => {
                let snap = chain.snap(c, pixel, guess);
                assert(snap as int == snap_s);
                let pvec = make_pvec(c, self.channels, pixel, snap, &n);
                proof {
                    pv = pvec@;
                }
                let ghost nodes0 = t.nodes@;
                let ghost rac0 = rac.state();
                let ghost data0 = rac.io.data@;
                let v = t.process(rac, &pvec, snap, crange.min, crange.max, updates)?;
                proof {
                    if crange.min < crange.max {
                        assert(apply_spec(nodes0, t.nodes@, rac0, rac.state(), data0, *updates, pvec@,
                            crange.min - snap, crange.max - snap, v - snap));
                    }
                }
                v
            },
            None => crange.min,
        };
        assert(range.min <= value <= range.max);
        let mut updated = pixel;
        updated.set(c, value as i16);
        assert(updated.value(c) as int == value as int);
        self.data.set(idx, updated);
        proof {
            if let Some(t) = tree {
                if crange.min < crange.max {
                    assert(as_ints(pv) == pvec_spec(c, self.channels, pixel, snap_s, n));
                    assert(apply_spec(nodes_before, t.nodes@, rac_before, rac.state(), input, *updates, pv,
                        crange.min - snap_s, crange.max - snap_s, value - snap_s));
                    assert(old_tree matches Some(t0) && t0.nodes@ == nodes_before);
                    assert(self.data@[idx as int].value(c) as int == value as int);
                    assert(snap_s == clamp_spec(guess_spec(neighbors_spec(old_data, w as int, x as int, y as int, c),
                        fallback_spec(self.alpha_zero, self.channels, c, pixel, chain.range_spec(c))), chain.crange_spec(c, pixel)));
                }
            }
        }
        Ok(())
    }

    /// Decodes every channel, in decoding order, row by row.
    pub fn decode_channels(&mut self, rac: &mut Rac, chain: &TransformChain, trees: &mut Vec<Option<ManiacTree>>, updates: &UpdateTable, limits: &Limits)
        -> (r: Result<()>)
        requires
            old(self).wf(),
            old(rac).wf(),
            updates.wf(),
            chain.wf(),
            trees_ok(old(trees)@, decode_order(old(self).channels), *chain, updates.cutoff as int, limits.maniac_nodes as int),
        ensures
            final(rac).wf(),
            final(rac).io.data@ == old(rac).io.data@,
            final(self).wf(),
            final(self).width == old(self).width,
            final(self).height == old(self).height,
            final(self).channels == old(self).channels,
            r is Ok ==> values_in_range(final(self).data@, decode_order(final(self).channels), *chain,
                decode_order(final(self).channels).len() as int, 0),
    {
        let order = decode_order_exec(self.channels);
        let w = self.width;
        let h = self.height;
        let ghost space = self.channels;
        let mut k: usize = 0;
        while k < order.len()
            invariant
                rac.wf(),
                rac.io.data@ == old(rac).io.data@,
                updates.wf(),
                chain.wf(),
                self.wf(),
                self.width == w && self.height == h,
                self.width == old(self).width && self.height == old(self).height,
                self.channels == space && space == old(self).channels,
                order@ == decode_order(space),
                k <= order@.len(),
                trees@.len() == order@.len(),
                forall|j: int| k <= j < trees@.len() ==> {
                    let r = chain.range_spec(#[trigger] order@[j]);
                    &&& (trees@[j] is None <==> r.min == r.max)
                    &&& (trees@[j] matches Some(t) ==> t.wf(updates.cutoff as int) && t.active_ok())
                },
                values_in_range(self.data@, order@, *chain, k as int, 0),
            decreases order@.len() - k,
        {
            let c = order[k];
            let mut tree: Option<ManiacTree> = None;
            std::mem::swap(&mut tree, &mut trees[k]);
            let mut y: usize = 0;
            while y < h
                invariant
                    rac.wf(),
                    rac.io.data@ == old(rac).io.data@,
                    updates.wf(),
                    chain.wf(),
                    self.wf(),
                    self.width == w && self.height == h,
                    self.width == old(self).width && self.height == old(self).height,
                    self.channels == space && space == old(self).channels,
                    order@ == decode_order(space),
                    k < order@.len(),
                    c == order@[k as int],
                    y <= h,
                    tree matches Some(t) ==> t.wf(updates.cutoff as int) && t.active_ok(),
                    tree is None ==> chain.range_spec(c).min == chain.range_spec(c).max,
                    values_in_range(self.data@, order@, *chain, k as int, (y * w) as int),
                decreases h - y,
            {
                let mut x: usize = 0;
                while x < w
                    invariant
                        rac.wf(),
                        rac.io.data@ == old(rac).io.data@,
                        updates.wf(),
                        chain.wf(),
                        self.wf(),
                        self.width == w && self.height == h,
                        self.width == old(self).width && self.height == old(self).height,
                        self.channels == space && space == old(self).channels,
                        order@ == decode_order(space),
                        k < order@.len(),
                        c == order@[k as int],
                        y < h,
                        x <= w,
                        tree matches Some(t) ==> t.wf(updates.cutoff as int) && t.active_ok(),
                        tree is None ==> chain.range_spec(c).min == chain.range_spec(c).max,
                        values_in_range(self.data@, order@, *chain, k as int, (y * w + x) as int),
                    decreases w - x,
                {
                    let ghost before = self.data@;
                    self.decode_pixel(rac, chain, &mut tree, updates, x, y, c)?;
                    proof {
                        let i = (y * w + x) as int;
                        assert(i < before.len()) by (nonlinear_arith)
                            requires i == y * w + x, x < w, y < h, before.len() == w * h;
                        assert(self.data@ == before.update(i, self.data@[i]));
                        assert forall|j: int, p: int| 0 <= j < k && 0 <= p < self.data@.len() implies
                            chain.range_spec(order@[j]).contains((#[trigger] self.data@[p]).value(#[trigger] order@[j]) as int) by {
                            if p == i {
                                assert(order@[j] != c);
                            }
                        }
                        assert forall|p: int| 0 <= p < i + 1 && 0 <= k < order@.len() implies
                            chain.range_spec(order@[k as int]).contains((#[trigger] self.data@[p]).value(order@[k as int]) as int) by {
                            if p < i {
                                assert(self.data@[p] == before.update(i, self.data@[i])[p]);
                                assert(self.data@[p] == before[p]);
                            }
                        }
                    }
                    x = x + 1;
                }
                assert((y + 1) * w == y * w + w) by (nonlinear_arith);
                y = y + 1;
            }
            assert(h * w == self.data@.len()) by (nonlinear_arith)
                requires self.data@.len() == w * h;
            k = k + 1;
        }
        Ok(())
    }

    /// Undoes the transformations pixel by pixel and writes the channels of the colour
    /// space, interleaved, eight bits each.
    pub fn to_raw(&self, chain: &TransformChain) -> (r: Result<Vec<u8>>)
        requires
            self.wf(),
            chain.wf(),
        ensures
            r matches Ok(raw) ==> raw@.len() == self.data@.len() * self.channels.count(),
            r is Err <==> exists|p: int| 0 <= p < self.data@.len()
                && chain_undo(chain.steps@, chain.steps@.len() as int, #[trigger] self.data@[p]) is None,
            r matches Ok(raw) ==> forall|p: int, k: int| 0 <= p < self.data@.len() && 0 <= k < self.channels.count() ==>
                raw@[p * self.channels.count() + k] == #[trigger] pixel_bytes(
                    chain_undo(chain.steps@, chain.steps@.len() as int, #[trigger] self.data@[p])->Some_0,
                    self.channels.count(),
                )[k],
    {
        let n = self.channels.num_channels();
        let total = self.data.len();
        let mut raw: Vec<u8> = Vec::new();
        let mut p: usize = 0;
        while p < total
            invariant
                total == self.data@.len(),
                n == self.channels.count(),
                1 <= n <= 4,
                p <= total,
                raw@.len() == p * n,
                chain.wf(),
                forall|q: int| 0 <= q < p ==> chain_undo(chain.steps@, chain.steps@.len() as int, #[trigger] self.data@[q]) is Some,
                forall|q: int, k: int| 0 <= q < p && 0 <= k < n ==>
                    raw@[q * n + k] == #[trigger] pixel_bytes(
                        chain_undo(chain.steps@, chain.steps@.len() as int, #[trigger] self.data@[q])->Some_0,
                        n as nat,
                    )[k],
            decreases total - p,
        {
            let ghost before = raw@;
            let pixel = match chain.undo(self.data[p]) {
                Some(px) => px,
                None => {
                    return Err(Error::InvalidOperation("decoded value outside a channel compact table".to_owned()));
                },
            };
            raw.push(pixel.red as u8);
            if n >= 3 {
                raw.push(pixel.green as u8);
                raw.push(pixel.blue as u8);
            }
            if n == 4 {
                raw.push(pixel.alpha as u8);
            }
            assert((p + 1) * n == p * n + n) by (nonlinear_arith);
            proof {
                assert(raw@ =~= before + pixel_bytes(pixel, n as nat));
                assert forall|q: int, k: int| 0 <= q < p + 1 && 0 <= k < n implies
                    raw@[q * n + k] == #[trigger] pixel_bytes(
                        chain_undo(chain.steps@, chain.steps@.len() as int, #[trigger] self.data@[q])->Some_0,
                        n as nat,
                    )[k] by {
                    if q < p {
                        assert(q * n + k < p * n) by (nonlinear_arith)
                            requires q < p, k < n, q >= 0;
                    } else {
                        assert(q * n + k == p * n + k) by (nonlinear_arith)
                            requires q == p;
                    }
                }
            }
            p = p + 1;
        }
        Ok(raw)
    }

    /// Decodes the trees and the pixels and returns the raw interleaved bytes.
    pub fn process(&mut self, rac: &mut Rac, info: &FlifInfo, updates: &UpdateTable, limits: &Limits) -> (r: Result<Vec<u8>>)
        requires
            old(self).wf(),
            old(rac).wf(),
            updates.wf(),
            info.transform.wf(),
            old(self).channels == info.header.channels,
        ensures
            final(rac).wf(),
            final(rac).io.data@ == old(rac).io.data@,
            r matches Ok(raw) ==> raw@.len() == old(self).width * old(self).height * old(self).channels.count(),
            info.transform.has_permute() ==> (r matches Err(Error::UnimplementedTransformation(_))),
            ({
                let run = trees_run(old(rac).state(), old(rac).io.data@, *updates, *info, decode_order(info.header.channels), 0,
                    limits.maniac_nodes as int);
                &&& r is Ok ==> run is Some
                &&& limits.maniac_nodes + 8 <= usize::MAX && run is None ==> r is Err
            }),
            r matches Ok(raw) ==> {
                let order = decode_order(info.header.channels);
                let n = info.header.channels.count();
                let d = final(self).data@;
                &&& final(self).wf() && final(self).channels == old(self).channels
                &&& d.len() == old(self).width * old(self).height
                &&& values_in_range(d, order, info.transform, order.len() as int, 0)
                &&& forall|j: int, p: int| 0 <= j < order.len() && 0 <= p < d.len()
                    && info.transform.range_spec(order[j]).min == info.transform.range_spec(order[j]).max
                    ==> (#[trigger] d[p]).value(#[trigger] order[j]) == info.transform.range_spec(order[j]).min
                &&& forall|p: int, k: int| 0 <= p < d.len() && 0 <= k < n ==>
                    raw@[p * n + k] == #[trigger] pixel_bytes(
                        chain_undo(info.transform.steps@, info.transform.steps@.len() as int, #[trigger] d[p])->Some_0, n)[k]
            },
    {
        let chain = &info.transform;
        if chain.has_permute_planes() {
            return Err(Error::UnimplementedTransformation("Permute Planes".to_owned()));
        }
        let mut trees = build_trees(rac, info, updates, limits)?;
        let ghost w0 = self.width;
        let ghost h0 = self.height;
        self.decode_channels(rac, chain, &mut trees, updates, limits)?;
        proof {
            let order = decode_order(info.header.channels);
            assert forall|j: int, p: int| 0 <= j < order.len() && 0 <= p < self.data@.len()
                && info.transform.range_spec(order[j]).min == info.transform.range_spec(order[j]).max
                implies (#[trigger] self.data@[p]).value(#[trigger] order[j]) == info.transform.range_spec(order[j]).min by {
                singleton_channel_is_constant(self.data@, order, info.transform, j, p);
            }
        }
        self.to_raw(chain)
    }
}

} // verus!
