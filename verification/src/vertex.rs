//! The 2D vertex primitive and its exact integer geometry.
//!
//! A stored coordinate `v` stands for the normalized-device value
//! `v / SCALE`. All geometry here is produced by halving sums of dyadic
//! coordinates, so with a power-of-two scale every midpoint is exact.

use vstd::arithmetic::div_mod::{lemma_fundamental_div_mod, lemma_mod_multiples_basic};
use vstd::arithmetic::power2::pow2;
use vstd::prelude::*;

verus! {

/// One normalized-device unit, as a scaled integer coordinate.
pub const SCALE: i64 = 4294967296;

/// A 2D vertex in scaled integer coordinates: `x / SCALE` and `y / SCALE`
/// are the normalized-device coordinates in `[-1, 1]`.
#[derive(Clone, Copy, PartialEq, Eq, Structural, Debug)]
pub struct Vertex {
    pub x: i64,
    pub y: i64,
}

/// The mathematical value of a vertex: an exact integer point.
pub ghost struct Pt {
    pub x: int,
    pub y: int,
}

impl View for Vertex {
    type V = Pt;

    open spec fn view(&self) -> Pt {
        Pt { x: self.x as int, y: self.y as int }
    }
}

/// The exact midpoint of two points whose coordinate sums are even.
pub open spec fn mid_pt(a: Pt, b: Pt) -> Pt {
    Pt { x: (a.x + b.x) / 2, y: (a.y + b.y) / 2 }
}

/// Both coordinates lie within one normalized-device unit of the origin.
pub open spec fn bounded(p: Pt) -> bool {
    &&& -SCALE <= p.x <= SCALE
    &&& -SCALE <= p.y <= SCALE
}

/// Membership in the convex hull of the three anchor points
/// `(-1, -1)`, `(0, 1)` and `(1, -1)` (in scaled coordinates).
pub open spec fn in_hull(p: Pt) -> bool {
    &&& p.y >= -SCALE
    &&& p.y <= 2 * p.x + SCALE
    &&& p.y <= -2 * p.x + SCALE
}

/// Twice the signed area of the triangle `(a, b, c)`.
pub open spec fn cross(a: Pt, b: Pt, c: Pt) -> int {
    (b.x - a.x) * (c.y - a.y) - (b.y - a.y) * (c.x - a.x)
}

/// Both coordinates are multiples of `2^d`, so `d` rounds of halving
/// stay exact.
pub open spec fn on_grid(p: Pt, d: nat) -> bool {
    &&& p.x % (pow2(d) as int) == 0
    &&& p.y % (pow2(d) as int) == 0
}

impl Vertex {
    /// Build a vertex from scaled integer coordinates.
    pub fn new(x: i64, y: i64) -> (v: Vertex)
        ensures
            v@ == (Pt { x: x as int, y: y as int }),
    {
        Vertex { x, y }
    }

    /// The exact midpoint of two vertices with even coordinate sums.
    pub fn midpoint(self, other: Vertex) -> (m: Vertex)
        requires
            bounded(self@),
            bounded(other@),
            (self@.x + other@.x) % 2 == 0,
            (self@.y + other@.y) % 2 == 0,
        ensures
            m@ == mid_pt(self@, other@),
            bounded(m@),
    {
        Vertex { x: (self.x + other.x) / 2, y: (self.y + other.y) / 2 }
    }
}

/// The hull is closed under exact midpoints.
pub proof fn lemma_mid_in_hull(a: Pt, b: Pt)
    requires
        in_hull(a),
        in_hull(b),
        (a.x + b.x) % 2 == 0,
        (a.y + b.y) % 2 == 0,
    ensures
        in_hull(mid_pt(a, b)),
{
    lemma_fundamental_div_mod(a.x + b.x, 2);
    lemma_fundamental_div_mod(a.y + b.y, 2);
}

/// Halving two points on the `2^d` grid lands on the `2^(d-1)` grid,
/// and their coordinate sums are even.
pub proof fn lemma_mid_on_grid(a: Pt, b: Pt, d: nat)
    requires
        d >= 1,
        on_grid(a, d),
        on_grid(b, d),
    ensures
        (a.x + b.x) % 2 == 0,
        (a.y + b.y) % 2 == 0,
        on_grid(mid_pt(a, b), (d - 1) as nat),
{
    let q = pow2((d - 1) as nat) as int;
    assert(q >= 1) by {
        vstd::arithmetic::power2::lemma_pow2_pos((d - 1) as nat);
    }
    assert(pow2(d) == 2 * pow2((d - 1) as nat)) by {
        vstd::arithmetic::power2::lemma_pow2_unfold(d);
    }
    lemma_coord_half_grid(a.x, b.x, q);
    lemma_coord_half_grid(a.y, b.y, q);
}

/// Replacing two corners of a triangle by exact midpoints quarters its
/// doubled signed area: each of the three corner sub-triangles of the
/// midpoint subdivision has exactly a quarter of the original cross value.
pub proof fn lemma_cross_mid(a: Pt, b: Pt, c: Pt)
    requires
        (a.x + b.x) % 2 == 0,
        (a.y + b.y) % 2 == 0,
        (a.x + c.x) % 2 == 0,
        (a.y + c.y) % 2 == 0,
        (b.x + c.x) % 2 == 0,
        (b.y + c.y) % 2 == 0,
    ensures
        4 * cross(a, mid_pt(a, b), mid_pt(a, c)) == cross(a, b, c),
        4 * cross(mid_pt(a, b), b, mid_pt(b, c)) == cross(a, b, c),
        4 * cross(mid_pt(a, c), mid_pt(b, c), c) == cross(a, b, c),
{
    let ab = mid_pt(a, b);
    let ac = mid_pt(a, c);
    let bc = mid_pt(b, c);
    lemma_fundamental_div_mod(a.x + b.x, 2);
    lemma_fundamental_div_mod(a.y + b.y, 2);
    lemma_fundamental_div_mod(a.x + c.x, 2);
    lemma_fundamental_div_mod(a.y + c.y, 2);
    lemma_fundamental_div_mod(b.x + c.x, 2);
    lemma_fundamental_div_mod(b.y + c.y, 2);
    assert(4 * ((ab.x - a.x) * (ac.y - a.y) - (ab.y - a.y) * (ac.x - a.x)) == (b.x - a.x) * (
    c.y - a.y) - (b.y - a.y) * (c.x - a.x)) by (nonlinear_arith)
        requires
            2 * ab.x == a.x + b.x,
            2 * ab.y == a.y + b.y,
            2 * ac.x == a.x + c.x,
            2 * ac.y == a.y + c.y,
    ;
    assert(4 * ((b.x - ab.x) * (bc.y - ab.y) - (b.y - ab.y) * (bc.x - ab.x)) == (b.x - a.x) * (
    c.y - a.y) - (b.y - a.y) * (c.x - a.x)) by (nonlinear_arith)
        requires
            2 * ab.x == a.x + b.x,
            2 * ab.y == a.y + b.y,
            2 * bc.x == b.x + c.x,
            2 * bc.y == b.y + c.y,
    ;
    assert(4 * ((bc.x - ac.x) * (c.y - ac.y) - (bc.y - ac.y) * (c.x - ac.x)) == (b.x - a.x) * (
    c.y - a.y) - (b.y - a.y) * (c.x - a.x)) by (nonlinear_arith)
        requires
            2 * ac.x == a.x + c.x,
            2 * ac.y == a.y + c.y,
            2 * bc.x == b.x + c.x,
            2 * bc.y == b.y + c.y,
    ;
}

/// A point on the `2^d` grid is on every coarser `2^e` grid.
pub proof fn lemma_on_grid_weaken(p: Pt, d: nat, e: nat)
    requires
        e <= d,
        on_grid(p, d),
    ensures
        on_grid(p, e),
{
    let md = pow2(d) as int;
    let me = pow2(e) as int;
    let f = pow2((d - e) as nat) as int;
    vstd::arithmetic::power2::lemma_pow2_pos(d);
    vstd::arithmetic::power2::lemma_pow2_pos(e);
    assert(pow2(d) == pow2(e) * pow2((d - e) as nat)) by {
        vstd::arithmetic::power2::lemma_pow2_adds(e, (d - e) as nat);
    }
    lemma_fundamental_div_mod(p.x, md);
    lemma_fundamental_div_mod(p.y, md);
    let kx = p.x / md;
    let ky = p.y / md;
    assert(p.x == me * (f * kx) && p.y == me * (f * ky)) by (nonlinear_arith)
        requires
            p.x == md * kx,
            p.y == md * ky,
            md == me * f,
    ;
    lemma_mod_multiples_basic(f * kx, me);
    lemma_mod_multiples_basic(f * ky, me);
}

/// One coordinate of `lemma_mid_on_grid`: if `u` and `v` are multiples of
/// `2q` then `u + v` is even and the half of the sum is a multiple of `q`.
proof fn lemma_coord_half_grid(u: int, v: int, q: int)
    requires
        q >= 1,
        u % (2 * q) == 0,
        v % (2 * q) == 0,
    ensures
        (u + v) % 2 == 0,
        ((u + v) / 2) % q == 0,
{
    lemma_fundamental_div_mod(u, 2 * q);
    lemma_fundamental_div_mod(v, 2 * q);
    let ku = u / (2 * q);
    let kv = v / (2 * q);
    assert(u + v == 2 * (q * (ku + kv))) by (nonlinear_arith)
        requires
            u == 2 * q * ku,
            v == 2 * q * kv,
    ;
    lemma_mod_multiples_basic(q * (ku + kv), 2);
    assert((u + v) / 2 == q * (ku + kv)) by {
        lemma_fundamental_div_mod(u + v, 2);
    }
    lemma_mod_multiples_basic(ku + kv, q);
}

} // verus!
