//! Plane geometry: vectors, axis-aligned boxes, overlap tests and the
//! integer square root used for radial push-back.

use vstd::prelude::*;

verus! {

/// Magnitude bound on world coordinates and box extents that the simulation
/// functions accept; it leaves ample headroom in `i64` for the products that
/// the resolution arithmetic forms.
pub const WORLD_LIMIT: i64 = 100_000_000;

/// A displacement or position on the plane.
#[derive(Clone, Copy, Debug, PartialEq, Eq, Structural)]
pub struct Vec2 {
    pub x: i64,
    pub y: i64,
}

/// An axis-aligned box: origin at (`left`, `top`), extent (`width`, `height`).
/// A negative extent describes the mirrored box; overlap tests first
/// normalise the box so that both extents are non-negative.
#[derive(Clone, Copy, Debug, PartialEq, Eq, Structural)]
pub struct WorldRect {
    pub left: i64,
    pub top: i64,
    pub width: i64,
    pub height: i64,
}

impl Vec2 {
    pub open spec fn bounded(self, k: int) -> bool {
        &&& -k <= self.x <= k
        &&& -k <= self.y <= k
    }

    pub fn new(x: i64, y: i64) -> (v: Vec2)
        ensures
            v == (Vec2 { x, y }),
    {
        Vec2 { x, y }
    }
}

impl WorldRect {
    /// Every field lies within `[-k, k]`.
    pub open spec fn bounded(self, k: int) -> bool {
        &&& -k <= self.left <= k
        &&& -k <= self.top <= k
        &&& -k <= self.width <= k
        &&& -k <= self.height <= k
    }

    pub fn new(left: i64, top: i64, width: i64, height: i64) -> (r: WorldRect)
        ensures
            r == (WorldRect { left, top, width, height }),
    {
        WorldRect { left, top, width, height }
    }
}

pub open spec fn spec_min(a: int, b: int) -> int {
    if a <= b {
        a
    } else {
        b
    }
}

pub open spec fn spec_max(a: int, b: int) -> int {
    if a <= b {
        b
    } else {
        a
    }
}

/// Low edge of a span after normalising a possibly negative extent.
pub open spec fn span_lo(pos: int, ext: int) -> int {
    spec_min(pos, pos + ext)
}

/// High edge of a span after normalising a possibly negative extent.
pub open spec fn span_hi(pos: int, ext: int) -> int {
    spec_max(pos, pos + ext)
}

/// The overlap of two boxes: normalise both, intersect the spans on each
/// axis, and yield a box exactly when the overlap has positive area.
pub open spec fn spec_intersection(a: WorldRect, b: WorldRect) -> Option<WorldRect> {
    let lx = spec_max(span_lo(a.left as int, a.width as int), span_lo(b.left as int, b.width as int));
    let hx = spec_min(span_hi(a.left as int, a.width as int), span_hi(b.left as int, b.width as int));
    let ly = spec_max(span_lo(a.top as int, a.height as int), span_lo(b.top as int, b.height as int));
    let hy = spec_min(span_hi(a.top as int, a.height as int), span_hi(b.top as int, b.height as int));
    if lx < hx && ly < hy {
        Some(
            WorldRect {
                left: lx as i64,
                top: ly as i64,
                width: (hx - lx) as i64,
                height: (hy - ly) as i64,
            },
        )
    } else {
        None
    }
}

/// Computes the overlap of two boxes, `None` when they merely touch or are
/// apart.
pub fn intersection(a: &WorldRect, b: &WorldRect) -> (res: Option<WorldRect>)
    requires
        a.bounded(16 * WORLD_LIMIT),
        b.bounded(16 * WORLD_LIMIT),
    ensures
        res == spec_intersection(*a, *b),
{
    let a_lo_x = if a.width < 0 { a.left + a.width } else { a.left };
    let a_hi_x = if a.width < 0 { a.left } else { a.left + a.width };
    let a_lo_y = if a.height < 0 { a.top + a.height } else { a.top };
    let a_hi_y = if a.height < 0 { a.top } else { a.top + a.height };
    let b_lo_x = if b.width < 0 { b.left + b.width } else { b.left };
    let b_hi_x = if b.width < 0 { b.left } else { b.left + b.width };
    let b_lo_y = if b.height < 0 { b.top + b.height } else { b.top };
    let b_hi_y = if b.height < 0 { b.top } else { b.top + b.height };

    let lx = if a_lo_x <= b_lo_x { b_lo_x } else { a_lo_x };
    let hx = if a_hi_x <= b_hi_x { a_hi_x } else { b_hi_x };
    let ly = if a_lo_y <= b_lo_y { b_lo_y } else { a_lo_y };
    let hy = if a_hi_y <= b_hi_y { a_hi_y } else { b_hi_y };

    if lx < hx && ly < hy {
        Some(WorldRect { left: lx, top: ly, width: hx - lx, height: hy - ly })
    } else {
        None
    }
}

/// Componentwise gap between two boxes: zero on an axis where their spans
/// overlap, otherwise the distance between the nearer edges.
pub open spec fn spec_closest_distance(a: WorldRect, b: WorldRect) -> Vec2 {
    let dx: int = if a.left + a.width < b.left {
        b.left - (a.left + a.width)
    } else if b.left + b.width < a.left {
        a.left - (b.left + b.width)
    } else {
        0
    };
    let dy: int = if a.top + a.height < b.top {
        b.top - (a.top + a.height)
    } else if b.top + b.height < a.top {
        a.top - (b.top + b.height)
    } else {
        0
    };
    Vec2 { x: dx as i64, y: dy as i64 }
}

/// The gap vector between two boxes, component by component.
pub fn closest_distance(rect1: WorldRect, rect2: WorldRect) -> (d: Vec2)
    requires
        rect1.bounded(16 * WORLD_LIMIT),
        rect2.bounded(16 * WORLD_LIMIT),
    ensures
        d == spec_closest_distance(rect1, rect2),
        0 <= d.x,
        0 <= d.y,
{
    let dx: i64 = if rect1.left + rect1.width < rect2.left {
        rect2.left - (rect1.left + rect1.width)
    } else if rect2.left + rect2.width < rect1.left {
        rect1.left - (rect2.left + rect2.width)
    } else {
        0
    };
    let dy: i64 = if rect1.top + rect1.height < rect2.top {
        rect2.top - (rect1.top + rect1.height)
    } else if rect2.top + rect2.height < rect1.top {
        rect1.top - (rect2.top + rect2.height)
    } else {
        0
    };
    Vec2 { x: dx, y: dy }
}

/// The integer square root: the greatest `r` with `r * r <= n`.
pub open spec fn spec_isqrt(n: int) -> int {
    choose|r: int| 0 <= r && #[trigger] (r * r) <= n && n < (r + 1) * (r + 1)
}

/// The characterisation of `spec_isqrt` has at most one solution, so any
/// witness equals it.
pub proof fn lemma_isqrt_is(n: int, r: int)
    requires
        0 <= r,
        r * r <= n,
        n < (r + 1) * (r + 1),
    ensures
        spec_isqrt(n) == r,
{
    assert(exists|q: int| 0 <= q && #[trigger] (q * q) <= n && n < (q + 1) * (q + 1));
    let c = spec_isqrt(n);
    assert(0 <= c && c * c <= n && n < (c + 1) * (c + 1));
    assert(c == r) by (nonlinear_arith)
        requires
            0 <= r,
            0 <= c,
            r * r <= n,
            c * c <= n,
            n < (r + 1) * (r + 1),
            n < (c + 1) * (c + 1),
    ;
}

/// Binary search for the integer square root.
pub fn isqrt64(n: u64) -> (r: u64)
    ensures
        r * r <= n < (r + 1) * (r + 1),
        r == spec_isqrt(n as int),
{
    let mut lo: u64 = 0;
    let mut hi: u64 = 4_294_967_296;
    while lo + 1 < hi
        invariant
            lo < hi <= 4_294_967_296,
            lo * lo <= n,
            (n as int) < (hi as int) * (hi as int),
        decreases hi - lo,
    {
        let mid = lo + (hi - lo) / 2;
        assert(lo < mid < hi);
        assert((mid as int) * (mid as int) < 0x1_0000_0000_0000_0000) by (nonlinear_arith)
            requires
                mid < 4_294_967_296,
        ;
        if mid * mid <= n {
            lo = mid;
        } else {
            hi = mid;
        }
    }
    proof {
        lemma_isqrt_is(n as int, lo as int);
    }
    lo
}

} // verus!
