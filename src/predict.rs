use vstd::prelude::*;

use crate::maniac::PVEC_LEN;
use crate::pixels::{Channel, ColorSpace, Rgba};

verus! {

/// The middle one of three values: the value that has another value at most as large
/// and another at least as large.
pub open spec fn median_of(a: int, b: int, c: int) -> int {
    if (a <= b && b <= c) || (c <= b && b <= a) {
        b
    } else if (b <= a && a <= c) || (c <= a && a <= b) {
        a
    } else {
        c
    }
}

/// The median of three values.
pub fn median3(a: i32, b: i32, c: i32) -> (r: i32)
    ensures
        r == median_of(a as int, b as int, c as int),
        r == a || r == b || r == c,
        (a <= r) as int + (b <= r) as int + (c <= r) as int >= 2,
        (a >= r) as int + (b >= r) as int + (c >= r) as int >= 2,
{
    let lo = if a < b { a } else { b };
    let hi = if a < b { b } else { a };
    let m = if hi < c { hi } else { c };
    if lo > m { lo } else { m }
}

/// The median of three values does not depend on their order.
pub proof fn median_of_any_order(a: int, b: int, c: int)
    ensures
        median_of(a, b, c) == median_of(b, a, c),
        median_of(a, b, c) == median_of(a, c, b),
        median_of(a, b, c) == median_of(c, b, a),
        median_of(a, b, c) == median_of(b, c, a),
        median_of(a, b, c) == median_of(c, a, b),
{
}

/// The already decoded values around a pixel, in its channel; `None` past an edge of
/// the image.
#[derive(Clone, Copy, Debug)]
pub struct Neighbors {
    pub left: Option<i32>,
    pub left2: Option<i32>,
    pub top: Option<i32>,
    pub top2: Option<i32>,
    pub top_left: Option<i32>,
    pub top_right: Option<i32>,
}

/// The value of an option, or `d`.
pub open spec fn or_else(o: Option<i32>, d: int) -> int {
    match o {
        Some(v) => v as int,
        None => d,
    }
}

/// The left value the guess uses: left, else top, else `fallback`.
pub open spec fn guess_left(n: Neighbors, fallback: int) -> int {
    or_else(n.left, or_else(n.top, fallback))
}

/// The top value the guess uses: top, else the left value.
pub open spec fn guess_top(n: Neighbors, fallback: int) -> int {
    or_else(n.top, guess_left(n, fallback))
}

/// The top-left value the guess uses: top-left, else top, else the left value.
pub open spec fn guess_top_left(n: Neighbors, fallback: int) -> int {
    or_else(n.top_left, or_else(n.top, guess_left(n, fallback)))
}

/// The prediction of a pixel: the median of the gradient `left + top - top_left`, left
/// and top.
pub open spec fn guess_spec(n: Neighbors, fallback: int) -> int {
    let l = guess_left(n, fallback);
    let t = guess_top(n, fallback);
    let tl = guess_top_left(n, fallback);
    median_of(l + t - tl, l, t)
}

/// Every value present fits sixteen bits.
pub open spec fn neighbors_fit(n: Neighbors) -> bool {
    &&& n.left matches Some(v) ==> -0x8000 <= v < 0x8000
    &&& n.left2 matches Some(v) ==> -0x8000 <= v < 0x8000
    &&& n.top matches Some(v) ==> -0x8000 <= v < 0x8000
    &&& n.top2 matches Some(v) ==> -0x8000 <= v < 0x8000
    &&& n.top_left matches Some(v) ==> -0x8000 <= v < 0x8000
    &&& n.top_right matches Some(v) ==> -0x8000 <= v < 0x8000
}

/// Predicts a pixel from its neighbours; `fallback` stands in when neither left nor top
/// is there.
pub fn make_guess(n: &Neighbors, fallback: i32) -> (r: i32)
    requires
        neighbors_fit(*n),
        -0x8000 <= fallback < 0x8000,
    ensures
        r == guess_spec(*n, fallback as int),
        -0x8000 <= r < 0x8000,
{
    let left = match n.left {
        Some(v) => v,
        None => match n.top {
            Some(v) => v,
            None => fallback,
        },
    };
    let top = match n.top {
        Some(v) => v,
        None => left,
    };
    let top_left = match n.top_left {
        Some(v) => v,
        None => match n.top {
            Some(v) => v,
            None => left,
        },
    };
    median3(left + top - top_left, left, top)
}

/// The difference `a - b` when both are there, else zero.
pub open spec fn delta(a: Option<i32>, b: Option<i32>) -> int {
    match (a, b) {
        (Some(x), Some(y)) => x - y,
        _ => 0,
    }
}

/// The median index of a prediction: 1 when it is the left value, 2 when it is the top
/// value, 0 when it is the gradient or when a neighbour is missing.
pub open spec fn median_index(pred: int, n: Neighbors) -> int {
    match (n.left, n.top, n.top_left) {
        (Some(l), Some(t), Some(tl)) => if pred == l + t - tl {
            0
        } else if pred == l {
            1
        } else if pred == t {
            2
        } else {
            0
        },
        _ => 0,
    }
}

/// The values of the current pixel that lead its property vector: red for green and
/// blue, green for blue, alpha for the colours of an image with alpha.
pub open spec fn pvec_head(c: Channel, space: ColorSpace, p: Rgba) -> Seq<int> {
    let red = if c == Channel::Green || c == Channel::Blue { seq![p.red as int] } else { seq![] };
    let green = if c == Channel::Blue { seq![p.green as int] } else { seq![] };
    let alpha = if c != Channel::Alpha && space == ColorSpace::RGBA { seq![p.alpha as int] } else { seq![] };
    red + green + alpha
}

/// The property vector of a pixel, padded with zeros to its full length.
pub open spec fn pvec_spec(c: Channel, space: ColorSpace, p: Rgba, pred: int, n: Neighbors) -> Seq<int> {
    let head = pvec_head(c, space, p);
    let body = seq![
        pred,
        median_index(pred, n),
        delta(n.left, n.top_left),
        delta(n.top_left, n.top),
        delta(n.top, n.top_right),
        delta(n.top2, n.top),
        delta(n.left2, n.left),
    ];
    let all = head + body;
    all + Seq::new((PVEC_LEN - all.len()) as nat, |i: int| 0int)
}

/// The values of a vector as integers.
pub open spec fn as_ints(v: Seq<i32>) -> Seq<int> {
    v.map_values(|x: i32| x as int)
}

fn delta_exec(a: Option<i32>, b: Option<i32>) -> (r: i32)
    requires
        a matches Some(x) ==> -0x8000 <= x < 0x8000,
        b matches Some(y) ==> -0x8000 <= y < 0x8000,
    ensures
        r == delta(a, b),
{
    match (a, b) {
        (Some(x), Some(y)) => x - y,
        _ => 0,
    }
}

/// Builds the property vector of a pixel of channel `c` predicted as `pred`.
pub fn make_pvec(c: Channel, space: ColorSpace, p: Rgba, pred: i32, n: &Neighbors) -> (r: Vec<i32>)
    requires
        neighbors_fit(*n),
    ensures
        as_ints(r@) == pvec_spec(c, space, p, pred as int, *n),
        r@.len() == PVEC_LEN,
{
    let mut v: Vec<i32> = Vec::new();
    if let Some(red) = p.red_pvec(c) {
        v.push(red);
    }
    if let Some(green) = p.green_pvec(c) {
        v.push(green);
    }
    if let Some(alpha) = p.alpha_pvec(c, space) {
        v.push(alpha);
    }
    assert(as_ints(v@) =~= pvec_head(c, space, p));
    let index: i32 = match (n.left, n.top, n.top_left) {
        (Some(l), Some(t), Some(tl)) => if pred == l + t - tl {
            0
        } else if pred == l {
            1
        } else if pred == t {
            2
        } else {
            0
        },
        _ => 0,
    };
    v.push(pred);
    v.push(index);
    v.push(delta_exec(n.left, n.top_left));
    v.push(delta_exec(n.top_left, n.top));
    v.push(delta_exec(n.top, n.top_right));
    v.push(delta_exec(n.top2, n.top));
    v.push(delta_exec(n.left2, n.left));
    let ghost all = v@;
    assert(as_ints(all) =~= pvec_head(c, space, p) + seq![
        pred as int,
        median_index(pred as int, *n),
        delta(n.left, n.top_left),
        delta(n.top_left, n.top),
        delta(n.top, n.top_right),
        delta(n.top2, n.top),
        delta(n.left2, n.left),
    ]);
    while v.len() < PVEC_LEN
        invariant
            v@.len() <= PVEC_LEN,
            all.len() <= PVEC_LEN,
            v@.len() >= all.len(),
            v@.subrange(0, all.len() as int) == all,
            forall|i: int| all.len() <= i < v@.len() ==> #[trigger] v@[i] == 0i32,
        decreases PVEC_LEN - v@.len(),
    {
        v.push(0);
    }
    assert(as_ints(v@) =~= pvec_spec(c, space, p, pred as int, *n));
    v
}

} // verus!
