use vstd::prelude::*;

use crate::chances::{fresh_chances, ChanceTable, UpdateTable};
use crate::decoder::FlifInfo;
use crate::error::{Error, Result};
use crate::pixels::{Channel, ColorSpace};
use crate::near_zero::{near_zero_spec, CoderState};
use crate::rac::{Rac, RacState};
use crate::transform::{ColorRange, TransformChain, COLOR_LIMIT};
use crate::Limits;

verus! {

/// The number of slots of a property vector.
pub const PVEC_LEN: usize = 10;

/// A node of a MANIAC tree. Children are indices into the tree's node array.
#[derive(Debug)]
pub enum ManiacNode {
    /// Acts as a leaf until its counter runs out, then becomes an inner node.
    Property { id: usize, value: i32, table: ChanceTable, counter: u32, left: usize, right: usize },
    /// A property node that its parent has not activated yet.
    InactiveProperty { id: usize, value: i32, counter: u32, left: usize, right: usize },
    /// Branches on whether property `id` exceeds `value`.
    Inner { id: usize, value: i32, left: usize, right: usize },
    /// A node that never splits.
    Leaf(ChanceTable),
    /// A leaf that its parent has not activated yet.
    InactiveLeaf,
}

impl ManiacNode {
    /// The node is well formed at index `i` of a tree with `n` nodes: children come
    /// after it, side by side, the property exists and tables hold valid chances.
    pub open spec fn wf_at(&self, i: int, n: int, cutoff: int) -> bool {
        match *self {
            ManiacNode::Property { id, table, left, right, .. } => i < left && right == left + 1 && right < n
                && id < PVEC_LEN && table.within(cutoff),
            ManiacNode::InactiveProperty { id, left, right, .. } => i < left && right == left + 1 && right < n
                && id < PVEC_LEN,
            ManiacNode::Inner { id, left, right, .. } => i < left && right == left + 1 && right < n && id < PVEC_LEN,
            ManiacNode::Leaf(table) => table.within(cutoff),
            ManiacNode::InactiveLeaf => true,
        }
    }

    pub fn children_of(&self) -> (r: Option<(usize, usize)>)
        ensures
            r == children(*self),
    {
        match self {
            ManiacNode::Property { left, right, .. } => Some((*left, *right)),
            ManiacNode::InactiveProperty { left, right, .. } => Some((*left, *right)),
            ManiacNode::Inner { left, right, .. } => Some((*left, *right)),
            _ => None,
        }
    }

    pub open spec fn is_active(&self) -> bool {
        !(self is InactiveLeaf || self is InactiveProperty)
    }

    /// Hands a node its chance table: an inactive leaf becomes a leaf and an inactive
    /// property node a property node; other nodes stay as they are.
    pub fn activate(&mut self, table: ChanceTable)
        ensures
            match *old(self) {
                ManiacNode::InactiveLeaf => *final(self) == ManiacNode::Leaf(table),
                ManiacNode::InactiveProperty { id, value, counter, left, right } =>
                    *final(self) == (ManiacNode::Property { id, value, table, counter, left, right }),
                _ => *final(self) == *old(self),
            },
    {
        let mut node = ManiacNode::InactiveLeaf;
        std::mem::swap(&mut node, self);
        *self = match node {
            ManiacNode::InactiveLeaf => ManiacNode::Leaf(table),
            ManiacNode::InactiveProperty { id, value, counter, left, right } =>
                ManiacNode::Property { id, value, table, counter, left, right },
            other => other,
        };
    }
}

/// A MANIAC decision tree for one channel, stored flat with the root at index 0.
#[derive(Debug)]
pub struct ManiacTree {
    pub nodes: Vec<ManiacNode>,
}

/// Node `n` has child `i`.
pub open spec fn has_child(n: ManiacNode, i: int) -> bool {
    children(n) matches Some((l, r)) && (l == i || r == i)
}

proof fn lemma_fresh_shape(nodes: Seq<ManiacNode>, parents: Seq<int>)
    requires
        nodes.len() >= 1,
        parents.len() == nodes.len(),
        nodes[0] is Leaf || nodes[0] is Property,
        forall|i: int| 0 < i < nodes.len() ==> (#[trigger] nodes[i] is InactiveLeaf || nodes[i] is InactiveProperty),
        forall|i: int| 0 < i < nodes.len() ==> 0 <= #[trigger] parents[i] < nodes.len() && has_child(nodes[parents[i]], i),
        forall|j: int, i: int| 0 <= j < nodes.len() && #[trigger] has_child(nodes[j], i) ==> 0 < i < nodes.len() && parents[i] == j,
    ensures
        fresh_shape(nodes),
{
    reveal(fresh_shape);
    assert forall|i: int| 0 < i < nodes.len() implies #[trigger] has_parent(nodes, i) by {
        assert(has_child(nodes[parents[i]], i));
    }
}

/// Some node of `nodes` has child `i`.
pub open spec fn has_parent(nodes: Seq<ManiacNode>, i: int) -> bool {
    exists|j: int| 0 <= j < nodes.len() && #[trigger] has_child(nodes[j], i)
}

/// A freshly read tree: the root is a leaf or a property node, every other node waits
/// inactive for its parent, and every other node is the child of exactly one node.
#[verifier::opaque]
pub open spec fn fresh_shape(nodes: Seq<ManiacNode>) -> bool {
    &&& nodes.len() >= 1
    &&& (nodes[0] is Leaf || nodes[0] is Property)
    &&& forall|i: int| 0 < i < nodes.len() ==> (#[trigger] nodes[i] is InactiveLeaf || nodes[i] is InactiveProperty)
    &&& forall|i: int| 0 < i < nodes.len() ==> #[trigger] has_parent(nodes, i)
    &&& forall|i: int, j1: int, j2: int| 0 <= j1 < nodes.len() && 0 <= j2 < nodes.len()
        && #[trigger] has_child(nodes[j1], i) && #[trigger] has_child(nodes[j2], i) ==> j1 == j2
}

/// The children of a node that has them.
pub open spec fn children(node: ManiacNode) -> Option<(usize, usize)> {
    match node {
        ManiacNode::Property { left, right, .. } => Some((left, right)),
        ManiacNode::InactiveProperty { left, right, .. } => Some((left, right)),
        ManiacNode::Inner { left, right, .. } => Some((left, right)),
        _ => None,
    }
}

/// The number of nodes on the longest path from node `i` down.
pub open spec fn depth_from(nodes: Seq<ManiacNode>, i: int) -> int
    decreases nodes.len() - i,
{
    if i < 0 || i >= nodes.len() {
        0
    } else {
        match children(nodes[i]) {
            Some((l, r)) => if i < l && i < r && l < nodes.len() && r < nodes.len() {
                let a = depth_from(nodes, l as int);
                let b = depth_from(nodes, r as int);
                1 + if a > b { a } else { b }
            } else {
                1
            },
            None => 1,
        }
    }
}

/// The ranges of the properties of channel `c`: the red range for green and blue, the
/// green range for blue, the alpha range for colours of an image with alpha, the
/// channel's own range, the median index, then five times the range of a difference of
/// two values of the channel.
pub open spec fn prange_spec(c: Channel, space: ColorSpace, chain: TransformChain) -> Seq<ColorRange> {
    let own = chain.range_spec(c);
    let maxdiff = ColorRange { min: (own.min - own.max) as i32, max: (own.max - own.min) as i32 };
    let red = if c == Channel::Green || c == Channel::Blue { seq![chain.range_spec(Channel::Red)] } else { seq![] };
    let green = if c == Channel::Blue { seq![chain.range_spec(Channel::Green)] } else { seq![] };
    let alpha = if c != Channel::Alpha && space == ColorSpace::RGBA { seq![chain.range_spec(Channel::Alpha)] } else { seq![] };
    red + green + alpha + seq![own, ColorRange { min: 0, max: 2 }, maxdiff, maxdiff, maxdiff, maxdiff, maxdiff]
}

/// Builds the property ranges of channel `c`.
pub fn build_prange(c: Channel, space: ColorSpace, chain: &TransformChain) -> (r: Vec<ColorRange>)
    requires
        chain.wf(),
    ensures
        r@ == prange_spec(c, space, *chain),
        r@.len() <= PVEC_LEN,
{
    let mut r: Vec<ColorRange> = Vec::new();
    if c == Channel::Green || c == Channel::Blue {
        r.push(chain.range(Channel::Red));
    }
    if c == Channel::Blue {
        r.push(chain.range(Channel::Green));
    }
    if c != Channel::Alpha && space == ColorSpace::RGBA {
        r.push(chain.range(Channel::Alpha));
    }
    let own = chain.range(c);
    let maxdiff = ColorRange { min: own.min - own.max, max: own.max - own.min };
    r.push(own);
    r.push(ColorRange { min: 0, max: 2 });
    r.push(maxdiff);
    r.push(maxdiff);
    r.push(maxdiff);
    r.push(maxdiff);
    r.push(maxdiff);
    assert(r@ =~= prange_spec(c, space, *chain));
    r
}

/// Every property range is within twice the value limit.
pub open spec fn prange_bounded(p: Seq<ColorRange>) -> bool {
    forall|k: int| 0 <= k < p.len() ==> -2 * COLOR_LIMIT <= (#[trigger] p[k]).min && p[k].max <= 2 * COLOR_LIMIT
}

/// The shape of a node as read from the stream: a leaf, or a test of property `id`
/// against `value` with a `counter`, whose children sit at `left` and `left + 1`.
pub enum NodeShape {
    Leaf,
    Split { id: int, value: int, counter: int, left: int },
}

/// The shape of a node.
pub open spec fn shape_of(n: ManiacNode) -> NodeShape {
    match n {
        ManiacNode::Property { id, value, counter, left, .. } => NodeShape::Split { id: id as int, value: value as int, counter: counter as int, left: left as int },
        ManiacNode::InactiveProperty { id, value, counter, left, .. } => NodeShape::Split { id: id as int, value: value as int, counter: counter as int, left: left as int },
        ManiacNode::Inner { id, value, left, .. } => NodeShape::Split { id: id as int, value: value as int, counter: 0, left: left as int },
        _ => NodeShape::Leaf,
    }
}

/// The range coder and the three chance tables that code a tree: properties, counters
/// and test values.
pub struct TreeCoder {
    pub rac: RacState,
    pub props: Seq<u16>,
    pub counters: Seq<u16>,
    pub values: Seq<u16>,
}

/// Property ranges as pairs of integers.
pub open spec fn range_ints(p: Seq<ColorRange>) -> Seq<(int, int)> {
    p.map_values(|r: ColorRange| (r.min as int, r.max as int))
}

/// Reads the head of a node over property ranges `pr`: property zero makes a leaf; any
/// other names the property (shifted by one), then come a counter in `[1, 512]` and a
/// test value below the property's maximum. `None` where that property's range holds a
/// single value.
pub open spec fn node_spec(c: TreeCoder, data: Seq<u8>, u: UpdateTable, pr: Seq<(int, int)>)
    -> Option<(Option<(int, int, int)>, TreeCoder)>
{
    let (p, s1) = near_zero_spec(CoderState { rac: c.rac, chances: c.props }, data, u, 0, pr.len() as int);
    if p == 0 {
        Some((None, TreeCoder { rac: s1.rac, props: s1.chances, counters: c.counters, values: c.values }))
    } else {
        let id = p - 1;
        if pr[id].0 >= pr[id].1 {
            None
        } else {
            let (cnt, s2) = near_zero_spec(CoderState { rac: s1.rac, chances: c.counters }, data, u, 1, 512);
            let (val, s3) = near_zero_spec(CoderState { rac: s2.rac, chances: c.values }, data, u, pr[id].0, pr[id].1 - 1);
            Some((Some((id, val, cnt)), TreeCoder { rac: s3.rac, props: s1.chances, counters: s2.chances, values: s3.chances }))
        }
    }
}

/// The state of reading a tree: the coder, the node shapes so far and the slots still to
/// read, each with its property ranges.
pub struct BuildState {
    pub coder: TreeCoder,
    pub shapes: Seq<NodeShape>,
    pub stack: Seq<(int, Seq<(int, int)>)>,
    pub failed: bool,
}

/// Reads the slot on top of the stack. A test node gets its two children at the end of
/// the array; the left child, whose property range starts above the test value, is read
/// next. More nodes than `limit` fail.
#[verifier::opaque]
pub open spec fn build_step(st: BuildState, data: Seq<u8>, u: UpdateTable, limit: int) -> BuildState {
    let (slot, pr) = st.stack.last();
    let rest = st.stack.drop_last();
    let fail = BuildState { coder: st.coder, shapes: st.shapes, stack: st.stack, failed: true };
    if st.shapes.len() > limit {
        fail
    } else {
        match node_spec(st.coder, data, u, pr) {
            None => fail,
            Some((None, c2)) => BuildState { coder: c2, shapes: st.shapes.update(slot, NodeShape::Leaf), stack: rest, failed: false },
            Some((Some((id, val, cnt)), c2)) => {
                let l = st.shapes.len() as int;
                BuildState {
                    coder: c2,
                    shapes: (st.shapes + seq![NodeShape::Leaf, NodeShape::Leaf]).update(slot, NodeShape::Split { id, value: val, counter: cnt, left: l }),
                    stack: rest.push((l + 1, pr.update(id, (pr[id].0, val)))).push((l, pr.update(id, (val + 1, pr[id].1)))),
                    failed: false,
                }
            },
        }
    }
}

/// Reads slots until none is left, a read fails or `fuel` runs out.
pub open spec fn build_run(st: BuildState, data: Seq<u8>, u: UpdateTable, limit: int, fuel: nat) -> BuildState
    decreases fuel,
{
    if fuel == 0 || st.failed || st.stack.len() == 0 {
        st
    } else {
        build_run(build_step(st, data, u, limit), data, u, limit, (fuel - 1) as nat)
    }
}

/// The shapes of a node array.
pub open spec fn shapes_of(nodes: Seq<ManiacNode>) -> Seq<NodeShape> {
    nodes.map_values(|n: ManiacNode| shape_of(n))
}

/// The slots still to read, with their property ranges as integers.
pub open spec fn abstract_stack(stack: Seq<(usize, Vec<ColorRange>)>) -> Seq<(int, Seq<(int, int)>)> {
    stack.map_values(|e: (usize, Vec<ColorRange>)| (e.0 as int, range_ints(e.1@)))
}

/// The reading state that a coder, its three tables, the nodes and the pending slots stand for.
pub open spec fn abstract_build(
    rac: RacState,
    contexts: (ChanceTable, ChanceTable, ChanceTable),
    nodes: Seq<ManiacNode>,
    stack: Seq<(usize, Vec<ColorRange>)>,
) -> BuildState {
    BuildState {
        coder: TreeCoder { rac, props: contexts.0.chances@, counters: contexts.1.chances@, values: contexts.2.chances@ },
        shapes: shapes_of(nodes),
        stack: abstract_stack(stack),
        failed: false,
    }
}

proof fn lemma_run_fails(st: BuildState, data: Seq<u8>, u: UpdateTable, limit: int, fuel: nat)
    requires
        fuel > 0,
        !st.failed,
        st.stack.len() > 0,
        build_step(st, data, u, limit).failed,
    ensures
        build_run(st, data, u, limit, fuel).failed,
        build_run(st, data, u, limit, fuel).shapes.len() == st.shapes.len(),
{
    reveal(build_step);
    assert(build_run(st, data, u, limit, fuel) == build_run(build_step(st, data, u, limit), data, u, limit, (fuel - 1) as nat));
}

proof fn lemma_limit_fails(st: BuildState, data: Seq<u8>, u: UpdateTable, limit: int, fuel: nat)
    requires
        fuel > 0,
        !st.failed,
        st.stack.len() > 0,
        st.shapes.len() > limit,
    ensures
        build_run(st, data, u, limit, fuel).failed,
        build_run(st, data, u, limit, fuel).shapes.len() == st.shapes.len(),
{
    reveal(build_step);
    lemma_run_fails(st, data, u, limit, fuel);
}

proof fn lemma_node_fails(st: BuildState, data: Seq<u8>, u: UpdateTable, limit: int, fuel: nat)
    requires
        fuel > 0,
        !st.failed,
        st.stack.len() > 0,
        st.shapes.len() <= limit,
        node_spec(st.coder, data, u, st.stack.last().1) is None,
    ensures
        build_run(st, data, u, limit, fuel).failed,
        build_run(st, data, u, limit, fuel).shapes.len() == st.shapes.len(),
{
    reveal(build_step);
    lemma_run_fails(st, data, u, limit, fuel);
}

/// The outcome of reading a tree over property ranges `prange` from state `s`, with
/// three fresh tables.
pub open spec fn build_spec(s: RacState, data: Seq<u8>, u: UpdateTable, prange: Seq<ColorRange>, limit: int) -> BuildState {
    let start = BuildState {
        coder: TreeCoder { rac: s, props: fresh_chances(), counters: fresh_chances(), values: fresh_chances() },
        shapes: seq![NodeShape::Leaf],
        stack: seq![(0int, range_ints(prange))],
        failed: false,
    };
    build_run(start, data, u, limit, (3 * (limit + 1) + 2) as nat)
}

/// The property ranges of the two children of a node testing property `id` against
/// `value`: above the value on the left, up to it on the right.
fn split_ranges(ranges: Vec<ColorRange>, id: usize, value: i32) -> (r: (Vec<ColorRange>, Vec<ColorRange>))
    requires
        id < ranges@.len(),
        ranges@[id as int].min <= value < ranges@[id as int].max,
        prange_bounded(ranges@),
    ensures
        r.0@.len() == ranges@.len() && r.1@.len() == ranges@.len(),
        prange_bounded(r.0@) && prange_bounded(r.1@),
        range_ints(r.0@) == range_ints(ranges@).update(id as int, (value + 1, range_ints(ranges@)[id as int].1)),
        range_ints(r.1@) == range_ints(ranges@).update(id as int, (range_ints(ranges@)[id as int].0, value as int)),
{
    let mut left_ranges = ranges.clone();
    assert(left_ranges@ =~= ranges@);
    let mut right_ranges = ranges;
    let old_range = left_ranges[id];
    left_ranges.set(id, ColorRange { min: value + 1, max: old_range.max });
    right_ranges.set(id, ColorRange { min: old_range.min, max: value });
    let ghost pr = range_ints(ranges@);
    assert(range_ints(left_ranges@) =~= pr.update(id as int, (value + 1, pr[id as int].1)));
    assert(range_ints(right_ranges@) =~= pr.update(id as int, (pr[id as int].0, value as int)));
    (left_ranges, right_ranges)
}

impl ManiacTree {
    pub open spec fn wf(&self, cutoff: int) -> bool {
        &&& self.nodes@.len() >= 1
        &&& forall|i: int| 0 <= i < self.nodes@.len() ==> (#[trigger] self.nodes@[i]).wf_at(i, self.nodes@.len() as int, cutoff)
    }

    /// Reads the node at a slot: property `0` makes a leaf, any other names the property
    /// (shifted by one) that the node tests, its counter and its test value.
    fn read_node(
        rac: &mut Rac,
        root: bool,
        child_start: usize,
        contexts: &mut (ChanceTable, ChanceTable, ChanceTable),
        updates: &UpdateTable,
        prange: &Vec<ColorRange>,
    ) -> (r: Result<ManiacNode>)
        requires
            old(rac).wf(),
            updates.wf(),
            old(contexts).0.within(updates.cutoff as int),
            old(contexts).1.within(updates.cutoff as int),
            old(contexts).2.within(updates.cutoff as int),
            prange@.len() <= PVEC_LEN,
            prange_bounded(prange@),
            child_start < usize::MAX - 2,
        ensures
            final(rac).wf(),
            final(rac).io.data@ == old(rac).io.data@,
            final(contexts).0.within(updates.cutoff as int),
            final(contexts).1.within(updates.cutoff as int),
            final(contexts).2.within(updates.cutoff as int),
            r matches Ok(node) ==> match node {
                ManiacNode::Property { id, value, table, left, right, .. } => root && left == child_start
                    && right == child_start + 1 && id < prange@.len() && table.within(updates.cutoff as int)
                    && prange@[id as int].min <= value < prange@[id as int].max,
                ManiacNode::InactiveProperty { id, value, left, right, .. } => !root && left == child_start
                    && right == child_start + 1 && id < prange@.len()
                    && prange@[id as int].min <= value < prange@[id as int].max,
                ManiacNode::Leaf(table) => root && table.within(updates.cutoff as int),
                ManiacNode::InactiveLeaf => !root,
                _ => false,
            },
            ({
                let c0 = TreeCoder { rac: old(rac).state(), props: old(contexts).0.chances@,
                    counters: old(contexts).1.chances@, values: old(contexts).2.chances@ };
                let c1 = TreeCoder { rac: final(rac).state(), props: final(contexts).0.chances@,
                    counters: final(contexts).1.chances@, values: final(contexts).2.chances@ };
                match node_spec(c0, old(rac).io.data@, *updates, range_ints(prange@)) {
                    None => r is Err,
                    Some((None, c2)) => (r matches Ok(n) && shape_of(n) == NodeShape::Leaf) && c1 == c2,
                    Some((Some((id, val, cnt)), c2)) => (r matches Ok(n)
                        && shape_of(n) == (NodeShape::Split { id, value: val, counter: cnt, left: child_start as int })) && c1 == c2,
                }
            }),
    {
        let property = rac.read_near_zero(0, prange.len() as i32, &mut contexts.0, updates)?;
        if property == 0 {
            if root {
                return Ok(ManiacNode::Leaf(ChanceTable::new()));
            } else {
                return Ok(ManiacNode::InactiveLeaf);
            }
        }
        let id = (property - 1) as usize;
        let range = prange[id];
        if range.min >= range.max {
            return Err(Error::InvalidOperation("Invalid maniac tree".to_owned()));
        }
        let counter = rac.read_near_zero(1, 512, &mut contexts.1, updates)?;
        let value = rac.read_near_zero(range.min, range.max - 1, &mut contexts.2, updates)?;
        if root {
            Ok(ManiacNode::Property {
                id,
                value,
                table: ChanceTable::new(),
                counter: counter as u32,
                left: child_start,
                right: child_start + 1,
            })
        } else {
            Ok(ManiacNode::InactiveProperty { id, value, counter: counter as u32, left: child_start, right: child_start + 1 })
        }
    }

    /// Reads the tree of channel `channel` of an image with headers `info`.
    pub fn new(rac: &mut Rac, channel: Channel, info: &FlifInfo, updates: &UpdateTable, limits: &Limits) -> (r: Result<ManiacTree>)
        requires
            old(rac).wf(),
            updates.wf(),
            info.transform.wf(),
        ensures
            final(rac).wf(),
            final(rac).io.data@ == old(rac).io.data@,
            r matches Ok(t) ==> t.wf(updates.cutoff as int) && t.nodes@.len() <= limits.maniac_nodes
                && t.active_ok() && fresh_shape(t.nodes@),
            ({
                let fin = build_spec(old(rac).state(), old(rac).io.data@, *updates,
                    prange_spec(channel, info.header.channels, info.transform), limits.maniac_nodes as int);
                &&& fin.failed ==> r is Err
                &&& limits.maniac_nodes + 8 <= usize::MAX ==> (r is Ok <==> !fin.failed)
                &&& limits.maniac_nodes + 8 <= usize::MAX && fin.failed && fin.shapes.len() > limits.maniac_nodes
                    ==> (r matches Err(Error::LimitViolation(m)) && m@ == "number of maniac nodes exceeds limit"@)
                &&& r matches Ok(t) ==> !fin.failed && fin.stack.len() == 0 && final(rac).state() == fin.coder.rac
                    && shapes_of(t.nodes@) == fin.shapes
            }),
    {
        let prange = build_prange(channel, info.header.channels, &info.transform);
        Self::create_nodes(rac, prange, updates, limits.maniac_nodes)
    }

    /// Reads a tree whose properties range over `prange`, in depth-first order. The root
    /// is active; every other node waits for its parent to split.
    #[verifier::rlimit(100)]
    #[verifier::spinoff_prover]
    fn create_nodes(rac: &mut Rac, prange: Vec<ColorRange>, updates: &UpdateTable, max_nodes: u32) -> (r: Result<ManiacTree>)
        requires
            old(rac).wf(),
            updates.wf(),
            prange@.len() <= PVEC_LEN,
            prange_bounded(prange@),
        ensures
            final(rac).wf(),
            final(rac).io.data@ == old(rac).io.data@,
            r matches Ok(t) ==> t.wf(updates.cutoff as int) && t.nodes@.len() <= max_nodes
                && t.active_ok() && fresh_shape(t.nodes@),
            build_spec(old(rac).state(), old(rac).io.data@, *updates, prange@, max_nodes as int).failed ==> r is Err,
            max_nodes + 8 <= usize::MAX ==> (r is Ok <==> !build_spec(old(rac).state(), old(rac).io.data@, *updates, prange@, max_nodes as int).failed),
            max_nodes + 8 <= usize::MAX && build_spec(old(rac).state(), old(rac).io.data@, *updates, prange@, max_nodes as int).failed && build_spec(old(rac).state(), old(rac).io.data@, *updates, prange@, max_nodes as int).shapes.len() > max_nodes
                ==> (r matches Err(Error::LimitViolation(m)) && m@ == "number of maniac nodes exceeds limit"@),
            r matches Ok(t) ==> !build_spec(old(rac).state(), old(rac).io.data@, *updates, prange@, max_nodes as int).failed && build_spec(old(rac).state(), old(rac).io.data@, *updates, prange@, max_nodes as int).stack.len() == 0 && final(rac).state() == build_spec(old(rac).state(), old(rac).io.data@, *updates, prange@, max_nodes as int).coder.rac
                && shapes_of(t.nodes@) == build_spec(old(rac).state(), old(rac).io.data@, *updates, prange@, max_nodes as int).shapes,
    {
        let ghost data = rac.io.data@;
        let ghost u = *updates;
        let ghost fin = build_spec(rac.state(), data, u, prange@, max_nodes as int);
        let ghost mut fuel: nat = (3 * (max_nodes + 1) + 2) as nat;
        if max_nodes as u64 + 8 > usize::MAX as u64 {
            return Err(Error::LimitViolation("the maniac node limit exceeds the address space".to_owned()));
        }
        let mut contexts = (ChanceTable::new(), ChanceTable::new(), ChanceTable::new());
        let mut nodes: Vec<ManiacNode> = Vec::new();
        nodes.push(ManiacNode::InactiveLeaf);
        let mut stack: Vec<(usize, Vec<ColorRange>)> = Vec::new();
        let ghost plen = prange@.len();
        let ghost prange0 = prange@;
        stack.push((0, prange));
        proof {
            let a = abstract_build(rac.state(), contexts, nodes@, stack@);
            assert(a.shapes =~= seq![NodeShape::Leaf]);
            assert(a.stack =~= seq![(0int, range_ints(prange0))]);
        }
        let limit = max_nodes as usize;
        let ghost cutoff = updates.cutoff as int;
        let mut root_done = false;
        let ghost mut parents: Seq<int> = seq![0int];
        loop
            invariant
                rac.wf(),
                rac.io.data@ == old(rac).io.data@,
                updates.wf(),
                cutoff == updates.cutoff,
                contexts.0.within(cutoff),
                contexts.1.within(cutoff),
                contexts.2.within(cutoff),
                limit == max_nodes,
                max_nodes + 8 <= usize::MAX,
                1 <= nodes@.len() <= limit + 2,
                plen <= PVEC_LEN,
                forall|i: int| 0 <= i < nodes@.len() ==> (#[trigger] nodes@[i]).wf_at(i, nodes@.len() as int, cutoff),
                forall|k: int| 0 <= k < stack@.len() ==> (#[trigger] stack@[k]).0 < nodes@.len()
                    && stack@[k].1@.len() == plen && prange_bounded(stack@[k].1@)
                    && (stack@[k].0 == 0 <==> !root_done),
                !root_done ==> stack@.len() == 1 && nodes@.len() == 1,
                root_done ==> nodes@[0].is_active(),
                stack@.len() == 0 ==> nodes@.len() <= limit && root_done,
                forall|i: int| 0 <= i < nodes@.len() ==> !(#[trigger] nodes@[i] is Inner),
                data == old(rac).io.data@,
                u == *updates,
                fin == build_spec(old(rac).state(), data, u, prange0, max_nodes as int),
                prange0 == prange@,
                fuel >= 3 * (limit + 2 - nodes@.len()) + stack@.len() + 1,
                build_run(abstract_build(rac.state(), contexts, nodes@, stack@), data, u, max_nodes as int, fuel) == fin,
                parents.len() == nodes@.len(),
                forall|i: int| 0 < i < nodes@.len() ==> (#[trigger] nodes@[i] is InactiveLeaf || nodes@[i] is InactiveProperty),
                forall|i: int| 0 < i < nodes@.len() ==> 0 <= #[trigger] parents[i] < nodes@.len() && has_child(nodes@[parents[i]], i),
                forall|j: int, i: int| 0 <= j < nodes@.len() && #[trigger] has_child(nodes@[j], i) ==> 0 < i < nodes@.len() && parents[i] == j,
                root_done ==> (nodes@[0] is Leaf || nodes@[0] is Property),
                forall|k: int| 0 <= k < stack@.len() ==> nodes@[(#[trigger] stack@[k]).0 as int] is InactiveLeaf,
                forall|k1: int, k2: int| 0 <= k1 < stack@.len() && 0 <= k2 < stack@.len() && k1 != k2
                    ==> (#[trigger] stack@[k1]).0 != (#[trigger] stack@[k2]).0,
            ensures
                parents.len() == nodes@.len(),
                forall|i: int| 0 < i < nodes@.len() ==> (#[trigger] nodes@[i] is InactiveLeaf || nodes@[i] is InactiveProperty),
                forall|i: int| 0 < i < nodes@.len() ==> 0 <= #[trigger] parents[i] < nodes@.len() && has_child(nodes@[parents[i]], i),
                forall|j: int, i: int| 0 <= j < nodes@.len() && #[trigger] has_child(nodes@[j], i) ==> 0 < i < nodes@.len() && parents[i] == j,
                nodes@[0] is Leaf || nodes@[0] is Property,
                !fin.failed && fin.stack.len() == 0 && rac.state() == fin.coder.rac && shapes_of(nodes@) == fin.shapes,
                forall|i: int| 0 <= i < nodes@.len() ==> !(#[trigger] nodes@[i] is Inner),
                1 <= nodes@.len() <= limit,
                nodes@[0].is_active(),
                forall|i: int| 0 <= i < nodes@.len() ==> (#[trigger] nodes@[i]).wf_at(i, nodes@.len() as int, cutoff),
            decreases 3 * (limit + 2 - nodes@.len()) + stack@.len(),
        {
            let ghost before = abstract_build(rac.state(), contexts, nodes@, stack@);
            let (index, ranges) = match stack.pop() {
                Some(entry) => entry,
                None => break,
            };
            proof {
                assert(before.stack.last() == (index as int, range_ints(ranges@)));
                assert(abstract_stack(stack@) =~= before.stack.drop_last());
            }
            if nodes.len() > limit {
                proof {
                    assert(before.stack.len() > 0);
                    assert(fuel > 0);
                    assert(build_run(before, data, u, max_nodes as int, fuel) == fin);
                    lemma_limit_fails(before, data, u, max_nodes as int, fuel);
                    assert(fin.failed && fin.shapes.len() > max_nodes);
                }
                return Err(Error::LimitViolation("number of maniac nodes exceeds limit".to_owned()));
            }
            let child_start = nodes.len();
            let root = index == 0;
            let ghost ranges_ghost = ranges@;
            let node = match Self::read_node(rac, root, child_start, &mut contexts, updates, &ranges) {
                Ok(node) => node,
                Err(e) => {
                    proof {
                        assert(before.stack.len() > 0);
                        assert(node_spec(before.coder, data, u, before.stack.last().1) is None);
                        lemma_node_fails(before, data, u, max_nodes as int, fuel);
                        assert(fin.failed);
                    }
                    return Err(e);
                },
            };
            let split = match &node {
                ManiacNode::Property { id, value, .. } => Some((*id, *value)),
                ManiacNode::InactiveProperty { id, value, .. } => Some((*id, *value)),
                _ => None,
            };
            match split {
                Some((id, value)) => {
                    nodes.push(ManiacNode::InactiveLeaf);
                    nodes.push(ManiacNode::InactiveLeaf);
                    let (left_ranges, right_ranges) = split_ranges(ranges, id, value);
                    stack.push((child_start + 1, right_ranges));
                    stack.push((child_start, left_ranges));
                    nodes.set(index, node);
                },
                None => {
                    nodes.set(index, node);
                },
            }
            root_done = true;
            proof {
                if child_start < nodes@.len() {
                    parents = parents + seq![index as int, index as int];
                }
            }
            proof {
                let after = abstract_build(rac.state(), contexts, nodes@, stack@);
                let stepped = build_step(before, data, u, max_nodes as int);
                assert(after == stepped) by {
                    reveal(build_step);
                    assert(after.shapes =~= stepped.shapes);
                    assert(after.stack =~= stepped.stack);
                }
                fuel = (fuel - 1) as nat;
            }
        }
        proof {
            lemma_fresh_shape(nodes@, parents);
        }
        Ok(ManiacTree { nodes })
    }

    /// The number of nodes.
    pub fn size(&self) -> (r: usize)
        ensures
            r == self.nodes@.len(),
    {
        self.nodes.len()
    }

    /// The number of nodes on the longest path from the root down.
    pub fn depth(&self) -> (r: usize)
        ensures
            r == depth_from(self.nodes@, 0),
    {
        let n = self.nodes.len();
        // below[n - 1 - j] is the depth from node j down, for the nodes j from k on
        let mut below: Vec<usize> = Vec::new();
        let mut k = n;
        while k > 0
            invariant
                k <= n,
                n == self.nodes@.len(),
                below@.len() == n - k,
                forall|j: int| k <= j < n ==> below@[n - 1 - j] == #[trigger] depth_from(self.nodes@, j),
                forall|j: int| k <= j < n ==> 1 <= #[trigger] depth_from(self.nodes@, j) <= n - j,
            decreases k,
        {
            k = k - 1;
            let d: usize = match self.nodes[k].children_of() {
                Some((left, right)) => {
                    if k < left && k < right && left < n && right < n {
                        let l = below[n - 1 - left];
                        let r = below[n - 1 - right];
                        assert(l == depth_from(self.nodes@, left as int));
                        assert(r == depth_from(self.nodes@, right as int));
                        1 + if l > r { l } else { r }
                    } else {
                        1
                    }
                },
                None => 1,
            };
            assert(d == depth_from(self.nodes@, k as int));
            below.push(d);
        }
        if n == 0 { 0 } else { below[n - 1] }
    }
}


/// What activating `node` with `table` makes of it.
pub open spec fn activated(node: ManiacNode, table: ChanceTable) -> ManiacNode {
    match node {
        ManiacNode::InactiveLeaf => ManiacNode::Leaf(table),
        ManiacNode::InactiveProperty { id, value, counter, left, right } =>
            ManiacNode::Property { id, value, table, counter, left, right },
        _ => node,
    }
}

/// The node that a walk from node `i` down through inner nodes reaches: at an inner
/// node it goes left when the tested property exceeds the node's value, else right.
pub open spec fn walk(nodes: Seq<ManiacNode>, pvec: Seq<i32>, i: int) -> int
    decreases nodes.len() - i,
{
    if 0 <= i < nodes.len() {
        match nodes[i] {
            ManiacNode::Inner { id, value, left, right } => {
                let next = if pvec[id as int] > value { left as int } else { right as int };
                if i < next < nodes.len() { walk(nodes, pvec, next) } else { i }
            },
            _ => i,
        }
    } else {
        i
    }
}

/// `new` is `old` activated with a table holding `chances`.
pub open spec fn activated_with(old: ManiacNode, new: ManiacNode, chances: Seq<u16>) -> bool {
    match old {
        ManiacNode::InactiveLeaf => new matches ManiacNode::Leaf(t) && t.chances@ == chances,
        ManiacNode::InactiveProperty { id, value, counter, left, right } => match new {
            ManiacNode::Property { id: id2, value: value2, table, counter: counter2, left: left2, right: right2 } =>
                id2 == id && value2 == value && counter2 == counter && left2 == left && right2 == right
                && table.chances@ == chances,
            _ => false,
        },
        _ => new == old,
    }
}

/// What reading `v` from `[min, max]` through a tree does: the walk reaches node `j`,
/// whose table codes `v` with the near-zero coder. A leaf and a property node with a
/// positive counter keep the moved table (the counter drops by one); a property node
/// whose counter has run out becomes an inner node, and its children are activated with
/// copies of its table, the one on the side of the walk holding the moved chances.
pub open spec fn apply_spec(
    old: Seq<ManiacNode>,
    new: Seq<ManiacNode>,
    s0: RacState,
    s1: RacState,
    data: Seq<u8>,
    u: UpdateTable,
    pvec: Seq<i32>,
    min: int,
    max: int,
    v: int,
) -> bool {
    let j = walk(old, pvec, 0);
    &&& new.len() == old.len()
    &&& match old[j] {
        ManiacNode::Leaf(t) => {
            let (val, st) = near_zero_spec(CoderState { rac: s0, chances: t.chances@ }, data, u, min, max);
            &&& v == val && s1 == st.rac
            &&& new[j] matches ManiacNode::Leaf(t2) && t2.chances@ == st.chances
            &&& forall|k: int| 0 <= k < old.len() && k != j ==> new[k] == old[k]
        },
        ManiacNode::Property { id, value, table, counter, left, right } => {
            let (val, st) = near_zero_spec(CoderState { rac: s0, chances: table.chances@ }, data, u, min, max);
            &&& v == val && s1 == st.rac
            &&& if counter > 0 {
                &&& match new[j] {
                    ManiacNode::Property { id: id2, value: value2, table: t2, counter: c2, left: l2, right: r2 } =>
                        id2 == id && value2 == value && c2 == counter - 1 && l2 == left && r2 == right
                        && t2.chances@ == st.chances,
                    _ => false,
                }
                &&& forall|k: int| 0 <= k < old.len() && k != j ==> new[k] == old[k]
            } else {
                let goes_left = pvec[id as int] > value;
                &&& new[j] == (ManiacNode::Inner { id, value, left, right })
                &&& activated_with(old[left as int], new[left as int], if goes_left { st.chances } else { table.chances@ })
                &&& activated_with(old[right as int], new[right as int], if goes_left { table.chances@ } else { st.chances })
                &&& forall|k: int| 0 <= k < old.len() && k != j && k != left && k != right ==> new[k] == old[k]
            }
        },
        _ => false,
    }
}

impl ChanceTable {
    /// A copy of the table.
    pub fn duplicate(&self) -> (r: ChanceTable)
        ensures
            r.chances@ == self.chances@,
    {
        let mut chances: Vec<u16> = Vec::new();
        let mut i: usize = 0;
        while i < self.chances.len()
            invariant
                i <= self.chances@.len(),
                chances@ == self.chances@.subrange(0, i as int),
            decreases self.chances@.len() - i,
        {
            chances.push(self.chances[i]);
            i = i + 1;
        }
        assert(chances@ == self.chances@);
        ChanceTable { chances }
    }
}

impl ManiacTree {
    /// The root is active, and so are both children of every inner node: a walk from
    /// the root through inner nodes meets active nodes only.
    pub open spec fn active_ok(&self) -> bool {
        &&& self.nodes@.len() >= 1
        &&& self.nodes@[0].is_active()
        &&& forall|i: int| 0 <= i < self.nodes@.len() && (#[trigger] self.nodes@[i]) is Inner ==> {
            let (l, r) = children(self.nodes@[i])->Some_0;
            &&& 0 <= l < self.nodes@.len() && 0 <= r < self.nodes@.len()
            &&& self.nodes@[l as int].is_active() && self.nodes@[r as int].is_active()
        }
    }

    fn activate_at(&mut self, idx: usize, table: ChanceTable)
        requires
            idx < old(self).nodes@.len(),
        ensures
            final(self).nodes@ == old(self).nodes@.update(idx as int, activated(old(self).nodes@[idx as int], table)),
    {
        let mut node = ManiacNode::InactiveLeaf;
        std::mem::swap(&mut node, &mut self.nodes[idx]);
        node.activate(table);
        self.nodes.set(idx, node);
    }

    /// Reads a value of `[min, max]` with the chance table that the property vector
    /// `pvec` selects. A property node whose counter has run out splits: both children
    /// get a copy of its table and it becomes an inner node.
    pub fn apply(&mut self, rac: &mut Rac, pvec: &Vec<i32>, min: i32, max: i32, updates: &UpdateTable) -> (r: Result<i32>)
        requires
            old(rac).wf(),
            updates.wf(),
            old(self).wf(updates.cutoff as int),
            old(self).active_ok(),
            pvec@.len() == PVEC_LEN,
        ensures
            final(rac).wf(),
            final(rac).io.data@ == old(rac).io.data@,
            final(self).wf(updates.cutoff as int),
            final(self).active_ok(),
            final(self).nodes@.len() == old(self).nodes@.len(),
            r is Err <==> min > max,
            r matches Ok(v) ==> min <= v <= max && apply_spec(old(self).nodes@, final(self).nodes@, old(rac).state(),
                final(rac).state(), old(rac).io.data@, *updates, pvec@, min as int, max as int, v as int),
    {
        if min > max {
            return Err(Error::InvalidOperation("a maniac read was passed a larger min than max".to_owned()));
        }
        let ghost nodes0 = self.nodes@;
        let ghost cutoff = updates.cutoff as int;
        let n = self.nodes.len();
        let mut i: usize = 0;
        loop
            invariant
                rac.wf(),
                rac.io.data@ == old(rac).io.data@,
                updates.wf(),
                cutoff == updates.cutoff,
                self.wf(cutoff),
                self.active_ok(),
                self.nodes@.len() == n,
                n == old(self).nodes@.len(),
                i < n,
                self.nodes@[i as int].is_active(),
                pvec@.len() == PVEC_LEN,
                min <= max,
                self.nodes@ == nodes0,
                nodes0 == old(self).nodes@,
                rac.state() == old(rac).state(),
                walk(nodes0, pvec@, i as int) == walk(nodes0, pvec@, 0),
            decreases n - i,
        {
            if let ManiacNode::Inner { id, value, left, right } = &self.nodes[i] {
                assert(self.nodes@[i as int].wf_at(i as int, n as int, cutoff));
                if pvec[*id] > *value {
                    i = *left;
                } else {
                    i = *right;
                }
                continue;
            }
            let ghost before = self.nodes@;
            assert(before[i as int].wf_at(i as int, n as int, cutoff));
            assert(walk(nodes0, pvec@, i as int) == i);
            let mut node = ManiacNode::InactiveLeaf;
            std::mem::swap(&mut node, &mut self.nodes[i]);
            match node {
                ManiacNode::Leaf(mut table) => {
                    let v = rac.read_near_zero(min, max, &mut table, updates);
                    self.nodes.set(i, ManiacNode::Leaf(table));
                    assert(self.nodes@ == before.update(i as int, ManiacNode::Leaf(table)));
                    assert forall|k: int| 0 <= k < n implies (#[trigger] self.nodes@[k]).wf_at(k, n as int, cutoff) by {
                        assert(before[k].wf_at(k, n as int, cutoff));
                    }
                    return v;
                },
                ManiacNode::Property { id, value, mut table, counter, left, right } => {
                    if counter > 0 {
                        let v = rac.read_near_zero(min, max, &mut table, updates);
                        let updated = ManiacNode::Property { id, value, table, counter: counter - 1, left, right };
                        self.nodes.set(i, updated);
                        assert forall|k: int| 0 <= k < n implies (#[trigger] self.nodes@[k]).wf_at(k, n as int, cutoff) by {
                            assert(before[k].wf_at(k, n as int, cutoff));
                        }
                        return v;
                    }
                    let mut left_table = table.duplicate();
                    let mut right_table = table;
                    let v = if pvec[id] > value {
                        rac.read_near_zero(min, max, &mut left_table, updates)
                    } else {
                        rac.read_near_zero(min, max, &mut right_table, updates)
                    };
                    let inner = ManiacNode::Inner { id, value, left, right };
                    self.nodes.set(i, inner);
                    let ghost mid = self.nodes@;
                    self.activate_at(left, left_table);
                    let ghost mid2 = self.nodes@;
                    self.activate_at(right, right_table);
                    assert forall|k: int| 0 <= k < n implies (#[trigger] self.nodes@[k]).wf_at(k, n as int, cutoff) by {
                        assert(before[k].wf_at(k, n as int, cutoff));
                    }
                    assert forall|k: int| 0 <= k < n && (#[trigger] self.nodes@[k]) is Inner implies {
                        let (l, r) = children(self.nodes@[k])->Some_0;
                        &&& 0 <= l < n && 0 <= r < n
                        &&& self.nodes@[l as int].is_active() && self.nodes@[r as int].is_active()
                    } by {
                        assert(before[k].wf_at(k, n as int, cutoff));
                        if k != i {
                            assert(before[k] is Inner);
                        }
                    }
                    return v;
                },
                _ => {
                    assert(false);
                    return Err(Error::InvalidOperation("inactive maniac node reached during traversal".to_owned()));
                },
            }
        }
    }

    /// Reads a value of `[min, max]` predicted as `guess`: the tree codes the difference
    /// to the guess. A one-value interval reads nothing.
    pub fn process(&mut self, rac: &mut Rac, pvec: &Vec<i32>, guess: i32, min: i32, max: i32, updates: &UpdateTable) -> (r: Result<i32>)
        requires
            old(rac).wf(),
            updates.wf(),
            old(self).wf(updates.cutoff as int),
            old(self).active_ok(),
            pvec@.len() == PVEC_LEN,
            -4 * COLOR_LIMIT <= guess <= 4 * COLOR_LIMIT,
            -4 * COLOR_LIMIT <= min <= 4 * COLOR_LIMIT,
            -4 * COLOR_LIMIT <= max <= 4 * COLOR_LIMIT,
        ensures
            final(rac).wf(),
            final(rac).io.data@ == old(rac).io.data@,
            final(self).wf(updates.cutoff as int),
            final(self).active_ok(),
            final(self).nodes@.len() == old(self).nodes@.len(),
            r is Err <==> min > max,
            r matches Ok(v) ==> min <= v <= max,
            min == max ==> r == Ok::<i32, Error>(min) && final(rac).state() == old(rac).state()
                && final(self).nodes@ == old(self).nodes@,
            min < max ==> (r matches Ok(v) && apply_spec(old(self).nodes@, final(self).nodes@, old(rac).state(),
                final(rac).state(), old(rac).io.data@, *updates, pvec@, min - guess, max - guess, v - guess)),
    {
        if min == max {
            return Ok(min);
        }
        let v = self.apply(rac, pvec, min - guess, max - guess, updates)?;
        Ok(v + guess)
    }
}

} // verus!
