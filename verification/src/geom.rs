//! Points and affine transforms in whole units.
//!
//! Coordinates and coefficients are 64-bit integers. A result that would
//! leave that range is pinned to its nearest end, so every operation is
//! defined for all inputs.

use vstd::prelude::*;

verus! {

/// The integer of 64 bits nearest to `v`.
pub open spec fn clamp(v: int) -> int {
    if v < i64::MIN {
        i64::MIN as int
    } else if v > i64::MAX {
        i64::MAX as int
    } else {
        v
    }
}

/// `a * b + c * d + e`, pinned to 64 bits.
pub open spec fn dot(a: int, b: int, c: int, d: int, e: int) -> int {
    clamp(a * b + c * d + e)
}

/// A point in the plane.
#[derive(Debug, Copy, Clone, PartialEq, Eq, Structural, Hash)]
pub struct Point {
    /// The horizontal coordinate.
    pub x: i64,
    /// The vertical coordinate.
    pub y: i64,
}

/// An affine map of the plane: `(x, y)` goes to
/// `(sx * x + kx * y + tx, ky * x + sy * y + ty)`.
#[derive(Debug, Copy, Clone, PartialEq, Eq, Structural, Hash)]
pub struct Transform {
    pub sx: i64,
    pub ky: i64,
    pub kx: i64,
    pub sy: i64,
    pub tx: i64,
    pub ty: i64,
}

/// The product of two integers of 64 bits lies within 127 bits.
proof fn lemma_product_bound(a: i64, b: i64)
    ensures
        -0x4000_0000_0000_0000_0000_0000_0000_0000 <= (a as int) * (b as int)
            <= 0x4000_0000_0000_0000_0000_0000_0000_0000,
{
    let x = a as int;
    let y = b as int;
    assert(-0x4000_0000_0000_0000_0000_0000_0000_0000 <= x * y
        <= 0x4000_0000_0000_0000_0000_0000_0000_0000) by (nonlinear_arith)
        requires
            -0x8000_0000_0000_0000 <= x <= 0x8000_0000_0000_0000,
            -0x8000_0000_0000_0000 <= y <= 0x8000_0000_0000_0000,
    ;
}

/// Computes `a * b + c * d + e` and pins it to 64 bits.
fn dot_exec(a: i64, b: i64, c: i64, d: i64, e: i64) -> (r: i64)
    ensures
        r == dot(a as int, b as int, c as int, d as int, e as int),
{
    proof {
        lemma_product_bound(a, b);
        lemma_product_bound(c, d);
    }
    let p: i128 = (a as i128) * (b as i128);
    let q: i128 = (c as i128) * (d as i128);
    if q > 0 && p > i128::MAX - q {
        return i64::MAX;
    }
    let pq: i128 = p + q;
    let rest: i128 = e as i128;
    if rest > 0 && pq > i128::MAX - rest {
        return i64::MAX;
    }
    if rest < 0 && pq < i128::MIN - rest {
        return i64::MIN;
    }
    let sum: i128 = pq + rest;
    if sum < i64::MIN as i128 {
        i64::MIN
    } else if sum > i64::MAX as i128 {
        i64::MAX
    } else {
        sum as i64
    }
}

impl Point {
    /// The point with the given coordinates.
    pub fn new(x: i64, y: i64) -> (p: Self)
        ensures
            p == (Point { x, y }),
    {
        Point { x, y }
    }

    /// Where `ts` takes this point.
    pub open spec fn transformed(self, ts: Transform) -> Point {
        Point {
            x: dot(ts.sx as int, self.x as int, ts.kx as int, self.y as int, ts.tx as int) as i64,
            y: dot(ts.ky as int, self.x as int, ts.sy as int, self.y as int, ts.ty as int) as i64,
        }
    }

    /// Applies `ts` to this point.
    pub fn transform(self, ts: Transform) -> (p: Self)
        ensures
            p == self.transformed(ts),
    {
        Point {
            x: dot_exec(ts.sx, self.x, ts.kx, self.y, ts.tx),
            y: dot_exec(ts.ky, self.x, ts.sy, self.y, ts.ty),
        }
    }
}

impl Transform {
    /// The map that leaves every point where it is.
    pub open spec fn spec_identity() -> Transform {
        Transform { sx: 1, ky: 0, kx: 0, sy: 1, tx: 0, ty: 0 }
    }

    /// The map that moves every point by `(tx, ty)`.
    pub open spec fn spec_translate(tx: i64, ty: i64) -> Transform {
        Transform { sx: 1, ky: 0, kx: 0, sy: 1, tx, ty }
    }

    /// The map that applies `prev` first and `self` after it.
    pub open spec fn spec_pre_concat(self, prev: Transform) -> Transform {
        Transform {
            sx: dot(self.sx as int, prev.sx as int, self.kx as int, prev.ky as int, 0) as i64,
            ky: dot(self.ky as int, prev.sx as int, self.sy as int, prev.ky as int, 0) as i64,
            kx: dot(self.sx as int, prev.kx as int, self.kx as int, prev.sy as int, 0) as i64,
            sy: dot(self.ky as int, prev.kx as int, self.sy as int, prev.sy as int, 0) as i64,
            tx: dot(self.sx as int, prev.tx as int, self.kx as int, prev.ty as int, self.tx as int)
                as i64,
            ty: dot(self.ky as int, prev.tx as int, self.sy as int, prev.ty as int, self.ty as int)
                as i64,
        }
    }

    /// The identity transform.
    pub fn identity() -> (ts: Self)
        ensures
            ts == Self::spec_identity(),
    {
        Transform { sx: 1, ky: 0, kx: 0, sy: 1, tx: 0, ty: 0 }
    }

    /// A translation by `(tx, ty)`.
    pub fn translate(tx: i64, ty: i64) -> (ts: Self)
        ensures
            ts == Self::spec_translate(tx, ty),
    {
        Transform { sx: 1, ky: 0, kx: 0, sy: 1, tx, ty }
    }

    /// Composes two transforms: the result applies `prev` first, then `self`.
    pub fn pre_concat(self, prev: Self) -> (ts: Self)
        ensures
            ts == self.spec_pre_concat(prev),
    {
        Transform {
            sx: dot_exec(self.sx, prev.sx, self.kx, prev.ky, 0),
            ky: dot_exec(self.ky, prev.sx, self.sy, prev.ky, 0),
            kx: dot_exec(self.sx, prev.kx, self.kx, prev.sy, 0),
            sy: dot_exec(self.ky, prev.kx, self.sy, prev.sy, 0),
            tx: dot_exec(self.sx, prev.tx, self.kx, prev.ty, self.tx),
            ty: dot_exec(self.ky, prev.tx, self.sy, prev.ty, self.ty),
        }
    }
}

/// The identity moves no point.
pub proof fn lemma_identity_fixes_points(p: Point)
    ensures
        p.transformed(Transform::spec_identity()) == p,
{
    assert(dot(1, p.x as int, 0, p.y as int, 0) == p.x);
    assert(dot(0, p.x as int, 1, p.y as int, 0) == p.y);
}

/// A translation adds its offset wherever the sum fits.
pub proof fn lemma_translate_adds(p: Point, tx: i64, ty: i64)
    ensures
        p.transformed(Transform::spec_translate(tx, ty)).x == clamp(p.x + tx),
        p.transformed(Transform::spec_translate(tx, ty)).y == clamp(p.y + ty),
{
    assert(dot(1, p.x as int, 0, p.y as int, tx as int) == clamp(p.x + tx));
    assert(dot(0, p.x as int, 1, p.y as int, ty as int) == clamp(p.y + ty));
}

} // verus!
