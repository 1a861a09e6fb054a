//! The two Sierpinski-gasket generators and the shape they feed.
//!
//! `generate_vertices_rec` / `divide_triangle` produce a flat triangle list
//! by recursive midpoint subdivision; `generate_points_random` approximates
//! the gasket by chaos-game sampling against three fixed anchors.

use crate::vertex::{
    bounded, cross, in_hull, lemma_mid_in_hull, lemma_mid_on_grid, lemma_on_grid_weaken, mid_pt,
    on_grid, Pt, Vertex, SCALE,
};
use vstd::arithmetic::div_mod::{lemma_fundamental_div_mod, lemma_mod_multiples_basic};
use vstd::arithmetic::power2::pow2;
use vstd::prelude::*;

verus! {

/// `3^n`, the number of leaf triangles after `n` rounds of subdivision.
pub open spec fn pow3(n: nat) -> nat
    decreases n,
{
    if n == 0 {
        1
    } else {
        3 * pow3((n - 1) as nat)
    }
}

/// `4^n`, the factor by which `n` rounds of subdivision shrink an area.
pub open spec fn pow4(n: nat) -> nat
    decreases n,
{
    if n == 0 {
        1
    } else {
        4 * pow4((n - 1) as nat)
    }
}

/// The mathematical values of a vertex buffer.
pub open spec fn pts_of(s: Seq<Vertex>) -> Seq<Pt> {
    s.map_values(|v: Vertex| v@)
}

/// First anchor of the bounding triangle, `(-1, -1)` in device coordinates.
pub open spec fn anchor_a() -> Pt {
    Pt { x: -(SCALE as int), y: -(SCALE as int) }
}

/// Second anchor of the bounding triangle, `(0, 1)` in device coordinates.
pub open spec fn anchor_b() -> Pt {
    Pt { x: 0, y: SCALE as int }
}

/// Third anchor of the bounding triangle, `(1, -1)` in device coordinates.
pub open spec fn anchor_c() -> Pt {
    Pt { x: SCALE as int, y: -(SCALE as int) }
}

/// The flat vertex list emitted by subdividing the triangle `(a, b, c)`:
/// at depth 0 the triangle itself; otherwise the three corner sub-triangles
/// in order, the central inverted triangle left out.
pub open spec fn subdiv(a: Pt, b: Pt, c: Pt, depth: nat) -> Seq<Pt>
    decreases depth,
{
    if depth == 0 {
        seq![a, b, c]
    } else {
        let ab = mid_pt(a, b);
        let ac = mid_pt(a, c);
        let bc = mid_pt(b, c);
        let d = (depth - 1) as nat;
        subdiv(a, ab, ac, d) + subdiv(ab, b, bc, d) + subdiv(ac, bc, c, d)
    }
}

/// Subdividing to depth `d` emits exactly `3 * 3^d` vertices.
pub proof fn lemma_subdiv_len(a: Pt, b: Pt, c: Pt, depth: nat)
    ensures
        subdiv(a, b, c, depth).len() == 3 * pow3(depth),
    decreases depth,
{
    if depth > 0 {
        let ab = mid_pt(a, b);
        let ac = mid_pt(a, c);
        let bc = mid_pt(b, c);
        let d = (depth - 1) as nat;
        lemma_subdiv_len(a, ab, ac, d);
        lemma_subdiv_len(ab, b, bc, d);
        lemma_subdiv_len(ac, bc, c, d);
    }
}

/// Every vertex emitted by subdividing a triangle whose corners lie in the
/// anchor hull lies in the anchor hull itself.
pub proof fn lemma_subdiv_in_hull(a: Pt, b: Pt, c: Pt, depth: nat)
    requires
        in_hull(a) && in_hull(b) && in_hull(c),
        on_grid(a, depth) && on_grid(b, depth) && on_grid(c, depth),
    ensures
        forall|i: int|
            0 <= i < subdiv(a, b, c, depth).len() ==> in_hull(#[trigger] subdiv(a, b, c, depth)[i]),
    decreases depth,
{
    let s = subdiv(a, b, c, depth);
    if depth == 0 {
        assert forall|i: int| 0 <= i < s.len() implies in_hull(#[trigger] s[i]) by {
            assert(s[0] == a && s[1] == b && s[2] == c);
        }
    } else {
        let ab = mid_pt(a, b);
        let ac = mid_pt(a, c);
        let bc = mid_pt(b, c);
        let d = (depth - 1) as nat;
        lemma_mid_on_grid(a, b, depth);
        lemma_mid_on_grid(a, c, depth);
        lemma_mid_on_grid(b, c, depth);
        lemma_mid_in_hull(a, b);
        lemma_mid_in_hull(a, c);
        lemma_mid_in_hull(b, c);
        lemma_on_grid_weaken(a, depth, d);
        lemma_on_grid_weaken(b, depth, d);
        lemma_on_grid_weaken(c, depth, d);
        lemma_subdiv_in_hull(a, ab, ac, d);
        lemma_subdiv_in_hull(ab, b, bc, d);
        lemma_subdiv_in_hull(ac, bc, c, d);
        let s1 = subdiv(a, ab, ac, d);
        let s2 = subdiv(ab, b, bc, d);
        let s3 = subdiv(ac, bc, c, d);
        assert forall|i: int| 0 <= i < s.len() implies in_hull(#[trigger] s[i]) by {
            if i < s1.len() {
                assert(s[i] == s1[i]);
            } else if i < s1.len() + s2.len() {
                assert(s[i] == s2[i - s1.len()]);
            } else {
                assert(s[i] == s3[i - s1.len() - s2.len()]);
            }
        }
    }
}

/// The doubled signed area of the `t`-th drawable triangle of a flat
/// triangle list: consecutive vertex triples are the drawable triangles.
pub open spec fn triple_cross(s: Seq<Pt>, t: int) -> int {
    cross(s[3 * t], s[3 * t + 1], s[3 * t + 2])
}

/// Every triangle emitted by subdividing a triangle on the `2^depth` grid
/// has exactly `(1/4)^depth` of its doubled signed area.
pub proof fn lemma_subdiv_area(a: Pt, b: Pt, c: Pt, depth: nat)
    requires
        on_grid(a, depth) && on_grid(b, depth) && on_grid(c, depth),
    ensures
        forall|t: int|
            0 <= t < pow3(depth) ==> pow4(depth) * #[trigger] triple_cross(
                subdiv(a, b, c, depth),
                t,
            ) == cross(a, b, c),
    decreases depth,
{
    let s = subdiv(a, b, c, depth);
    lemma_subdiv_len(a, b, c, depth);
    if depth == 0 {
        assert(s[0] == a && s[1] == b && s[2] == c);
        assert(pow3(depth) == 1 && pow4(depth) == 1);
        assert forall|t: int| 0 <= t < pow3(depth) implies pow4(depth) * #[trigger] triple_cross(
            s,
            t,
        ) == cross(a, b, c) by {
            assert(t == 0);
            assert(triple_cross(s, 0) == cross(a, b, c));
        }
    } else {
        let ab = mid_pt(a, b);
        let ac = mid_pt(a, c);
        let bc = mid_pt(b, c);
        let d = (depth - 1) as nat;
        lemma_mid_on_grid(a, b, depth);
        lemma_mid_on_grid(a, c, depth);
        lemma_mid_on_grid(b, c, depth);
        lemma_on_grid_weaken(a, depth, d);
        lemma_on_grid_weaken(b, depth, d);
        lemma_on_grid_weaken(c, depth, d);
        crate::vertex::lemma_cross_mid(a, b, c);
        lemma_subdiv_area(a, ab, ac, d);
        lemma_subdiv_area(ab, b, bc, d);
        lemma_subdiv_area(ac, bc, c, d);
        let s1 = subdiv(a, ab, ac, d);
        let s2 = subdiv(ab, b, bc, d);
        let s3 = subdiv(ac, bc, c, d);
        lemma_subdiv_len(a, ab, ac, d);
        lemma_subdiv_len(ab, b, bc, d);
        lemma_subdiv_len(ac, bc, c, d);
        let p = pow3(d) as int;
        let q = pow4(d) as int;
        assert(pow3(depth) == 3 * p && pow4(depth) == 4 * q);
        assert forall|t: int|
            0 <= t < pow3(depth) implies pow4(depth) * #[trigger] triple_cross(s, t) == cross(
            a,
            b,
            c,
        ) by {
            if t < p {
                assert(s[3 * t] == s1[3 * t] && s[3 * t + 1] == s1[3 * t + 1] && s[3 * t + 2]
                    == s1[3 * t + 2]);
                assert(triple_cross(s, t) == triple_cross(s1, t));
                let x = triple_cross(s1, t);
                assert((4 * q) * x == 4 * (q * x)) by (nonlinear_arith);
            } else if t < 2 * p {
                let u = t - p;
                assert(s[3 * t] == s2[3 * u] && s[3 * t + 1] == s2[3 * u + 1] && s[3 * t + 2]
                    == s2[3 * u + 2]);
                assert(triple_cross(s, t) == triple_cross(s2, u));
                let x = triple_cross(s2, u);
                assert((4 * q) * x == 4 * (q * x)) by (nonlinear_arith);
            } else {
                let u = t - 2 * p;
                assert(s[3 * t] == s3[3 * u] && s[3 * t + 1] == s3[3 * u + 1] && s[3 * t + 2]
                    == s3[3 * u + 2]);
                assert(triple_cross(s, t) == triple_cross(s3, u));
                let x = triple_cross(s3, u);
                assert((4 * q) * x == 4 * (q * x)) by (nonlinear_arith);
            }
        }
    }
}

/// Append the subdivision of `(a, b, c)` at the given depth to `vertices`.
///
/// The corner coordinates must be multiples of `2^depth` so that every
/// midpoint taken along the way is exact.
pub fn divide_triangle(
    vertices: &mut Vec<Vertex>,
    a: &Vertex,
    b: &Vertex,
    c: &Vertex,
    depth: usize,
)
    requires
        bounded(a@) && bounded(b@) && bounded(c@),
        on_grid(a@, depth as nat) && on_grid(b@, depth as nat) && on_grid(c@, depth as nat),
    ensures
        pts_of(final(vertices)@) == pts_of(old(vertices)@) + subdiv(a@, b@, c@, depth as nat),
    decreases depth,
{
    if depth == 0 {
        vertices.push(*a);
        vertices.push(*b);
        vertices.push(*c);
        proof {
            assert(pts_of(vertices@) =~= pts_of(old(vertices)@) + seq![a@, b@, c@]);
        }
        return ;
    }

    proof {
        lemma_mid_on_grid(a@, b@, depth as nat);
        lemma_mid_on_grid(a@, c@, depth as nat);
        lemma_mid_on_grid(b@, c@, depth as nat);
        lemma_on_grid_weaken(a@, depth as nat, (depth - 1) as nat);
        lemma_on_grid_weaken(b@, depth as nat, (depth - 1) as nat);
        lemma_on_grid_weaken(c@, depth as nat, (depth - 1) as nat);
    }
    let ab = a.midpoint(*b);
    let ac = a.midpoint(*c);
    let bc = b.midpoint(*c);

    let ghost pre = pts_of(vertices@);
    let ghost d = (depth - 1) as nat;
    divide_triangle(vertices, a, &ab, &ac, depth - 1);
    divide_triangle(vertices, &ab, b, &bc, depth - 1);
    divide_triangle(vertices, &ac, &bc, c, depth - 1);
    proof {
        let s1 = subdiv(a@, mid_pt(a@, b@), mid_pt(a@, c@), d);
        let s2 = subdiv(mid_pt(a@, b@), b@, mid_pt(b@, c@), d);
        let s3 = subdiv(mid_pt(a@, c@), mid_pt(b@, c@), c@, d);
        assert(pts_of(vertices@) =~= pre + (s1 + s2 + s3));
    }
}

/// The three anchors sit on the `2^d` grid for every `d` up to the number
/// of bits of the scale.
proof fn lemma_anchor_on_grid(d: nat)
    requires
        d <= 32,
    ensures
        on_grid(anchor_a(), d),
        on_grid(anchor_b(), d),
        on_grid(anchor_c(), d),
{
    let m = pow2(d) as int;
    let k = pow2((32 - d) as nat) as int;
    vstd::arithmetic::power2::lemma_pow2_pos(d);
    vstd::arithmetic::power2::lemma_pow2_pos((32 - d) as nat);
    assert(pow2(32) == pow2((32 - d) as nat) * pow2(d)) by {
        vstd::arithmetic::power2::lemma_pow2_adds((32 - d) as nat, d);
    }
    assert(pow2(32) == 0x1_0000_0000) by {
        vstd::arithmetic::power2::lemma2_to64();
    }
    assert(SCALE as int == k * m);
    assert((SCALE as int) % m == 0) by {
        lemma_mod_multiples_basic(k, m);
    }
    assert(-(SCALE as int) == (-k) * m) by (nonlinear_arith)
        requires
            SCALE as int == k * m,
    ;
    assert((-(SCALE as int)) % m == 0) by {
        lemma_mod_multiples_basic(-k, m);
    }
    assert(0int % m == 0) by {
        lemma_mod_multiples_basic(0, m);
    }
}

/// The recursive gasket at a given depth: every vertex lies in the
/// starting anchor triangle, and every drawable triangle has exactly
/// `(1/4)^depth` of the starting triangle's doubled signed area.
pub proof fn lemma_gasket_triangles(depth: nat)
    requires
        depth <= 32,
    ensures
        forall|i: int|
            0 <= i < subdiv(anchor_a(), anchor_b(), anchor_c(), depth).len() ==> in_hull(
                #[trigger] subdiv(anchor_a(), anchor_b(), anchor_c(), depth)[i],
            ),
        forall|t: int|
            0 <= t < pow3(depth) ==> pow4(depth) * #[trigger] triple_cross(
                subdiv(anchor_a(), anchor_b(), anchor_c(), depth),
                t,
            ) == cross(anchor_a(), anchor_b(), anchor_c()),
{
    lemma_anchor_on_grid(depth);
    lemma_subdiv_in_hull(anchor_a(), anchor_b(), anchor_c(), depth);
    lemma_subdiv_area(anchor_a(), anchor_b(), anchor_c(), depth);
}

/// Generate the recursive-subdivision gasket inside the fixed anchor
/// triangle, as a flat triangle list of `3 * 3^depth` vertices.
pub fn generate_vertices_rec(depth: usize) -> (r: Vec<Vertex>)
    requires
        depth <= 32,
    ensures
        pts_of(r@) == subdiv(anchor_a(), anchor_b(), anchor_c(), depth as nat),
        r@.len() == 3 * pow3(depth as nat),
{
    proof {
        lemma_anchor_on_grid(depth as nat);
        lemma_subdiv_len(anchor_a(), anchor_b(), anchor_c(), depth as nat);
    }
    let a = Vertex::new(-SCALE, -SCALE);
    let b = Vertex::new(0, SCALE);
    let c = Vertex::new(SCALE, -SCALE);

    let mut vertices: Vec<Vertex> = Vec::new();
    divide_triangle(&mut vertices, &a, &b, &c, depth);
    proof {
        assert(pts_of(Seq::<Vertex>::empty()) =~= Seq::<Pt>::empty());
        assert(Seq::<Pt>::empty() + subdiv(anchor_a(), anchor_b(), anchor_c(), depth as nat)
            =~= subdiv(anchor_a(), anchor_b(), anchor_c(), depth as nat));
    }
    vertices
}

/// Barycentric weights of a chaos-game point with respect to the three
/// anchors, scaled by `SCALE`. The generated point is
/// `(a * anchor_a + b * anchor_b + c * anchor_c) / SCALE`; floor-halving
/// the weights may shed at most the rounding remainder, so the weight sum
/// stays at most `SCALE` and the point stays inside the hull.
pub ghost struct Weights {
    pub a: int,
    pub b: int,
    pub c: int,
}

/// The weights of the fixed interior seed point `(0.25, 0.5)`.
pub open spec fn seed_weights() -> Weights {
    Weights { a: 0, b: (3 * (SCALE as int)) / 4, c: (SCALE as int) / 4 }
}

/// One chaos-game step: average the current point with the anchor chosen
/// by `j`, rounding each weight down.
pub open spec fn step_weights(w: Weights, j: int) -> Weights {
    Weights {
        a: (w.a + if j == 0 { SCALE as int } else { 0int }) / 2,
        b: (w.b + if j == 1 { SCALE as int } else { 0int }) / 2,
        c: (w.c + if j == 2 { SCALE as int } else { 0int }) / 2,
    }
}

/// The weights after `i` chaos-game steps driven by the choice sequence.
pub open spec fn weights_at(cs: Seq<int>, i: nat) -> Weights
    decreases i,
{
    if i == 0 {
        seed_weights()
    } else {
        step_weights(weights_at(cs, (i - 1) as nat), cs[i - 1])
    }
}

/// The Cartesian point carried by a set of weights.
pub open spec fn pt_of_weights(w: Weights) -> Pt {
    Pt { x: w.c - w.a, y: w.b - w.a - w.c }
}

/// Nonnegative weights whose sum is at most the scale: a convex
/// combination of the anchors and the (interior) origin.
pub open spec fn valid_weights(w: Weights) -> bool {
    &&& 0 <= w.a
    &&& 0 <= w.b
    &&& 0 <= w.c
    &&& w.a + w.b + w.c <= SCALE
}

/// The fixed seed point `(0.25, 0.5)` in scaled coordinates.
pub open spec fn seed_pt() -> Pt {
    Pt { x: (SCALE as int) / 4, y: (SCALE as int) / 2 }
}

/// Every choice is one of the three anchor indices.
pub open spec fn valid_choices(cs: Seq<int>) -> bool {
    forall|k: int| 0 <= k < cs.len() ==> 0 <= #[trigger] cs[k] < 3
}

/// The point sequence is exactly the chaos game driven by `cs`: the point
/// at index `i` carries the weights reached after `i` steps from the seed.
pub open spec fn follows_chaos_game(cs: Seq<int>, ps: Seq<Pt>) -> bool {
    &&& valid_choices(cs)
    &&& forall|i: int|
        0 <= i < ps.len() ==> #[trigger] ps[i] == pt_of_weights(weights_at(cs, i as nat))
}

/// One chaos-game step keeps the weights valid, whatever the choice.
proof fn lemma_step_valid(w: Weights, j: int)
    requires
        valid_weights(w),
    ensures
        valid_weights(step_weights(w, j)),
{
    let na = w.a + if j == 0 { SCALE as int } else { 0int };
    let nb = w.b + if j == 1 { SCALE as int } else { 0int };
    let nc = w.c + if j == 2 { SCALE as int } else { 0int };
    lemma_fundamental_div_mod(na, 2);
    lemma_fundamental_div_mod(nb, 2);
    lemma_fundamental_div_mod(nc, 2);
}

/// The weights reached after any number of steps are valid.
pub proof fn lemma_weights_valid(cs: Seq<int>, i: nat)
    ensures
        valid_weights(weights_at(cs, i)),
    decreases i,
{
    if i > 0 {
        lemma_weights_valid(cs, (i - 1) as nat);
        lemma_step_valid(weights_at(cs, (i - 1) as nat), cs[i - 1]);
    }
}

/// The point carried by valid weights lies in the anchor hull.
pub proof fn lemma_weights_in_hull(w: Weights)
    requires
        valid_weights(w),
    ensures
        in_hull(pt_of_weights(w)),
{
}

/// Relies on rand::random: one uniformly distributed machine word from the
/// thread-local generator; nothing is assumed of the returned value.
#[verifier::external_body]
fn random_usize() -> usize {
    rand::random::<usize>()
}

/// Turn a set of weights, held as machine integers, into the vertex it
/// carries.
fn weights_vertex(wa: u64, wb: u64, wc: u64) -> (v: Vertex)
    requires
        wa <= SCALE,
        wb <= SCALE,
        wc <= SCALE,
    ensures
        v@ == pt_of_weights(Weights { a: wa as int, b: wb as int, c: wc as int }),
{
    Vertex { x: wc as i64 - wa as i64, y: wb as i64 - wa as i64 - wc as i64 }
}

/// Run the chaos game for `number_points` points with the given anchor
/// choices: the seed point first, then one midpoint step per choice.
pub fn generate_points_with(number_points: usize, choices: &Vec<usize>) -> (r: Vec<Vertex>)
    requires
        number_points == 0 || choices@.len() >= number_points - 1,
        forall|k: int| 0 <= k < choices@.len() ==> #[trigger] choices@[k] < 3,
    ensures
        r@.len() == number_points,
        follows_chaos_game(choices@.map_values(|u: usize| u as int), pts_of(r@)),
{
    let ghost cs = choices@.map_values(|u: usize| u as int);
    let mut points: Vec<Vertex> = Vec::new();
    if number_points == 0 {
        proof {
            assert(pts_of(points@) =~= Seq::<Pt>::empty());
        }
        return points;
    }
    let mut wa: u64 = 0;
    let mut wb: u64 = 3221225472;
    let mut wc: u64 = 1073741824;
    proof {
        assert(wa as int == seed_weights().a && wb as int == seed_weights().b && wc as int
            == seed_weights().c);
        lemma_weights_valid(cs, 0);
    }
    points.push(weights_vertex(wa, wb, wc));
    let mut i: usize = 1;
    while i < number_points
        invariant
            1 <= i <= number_points,
            number_points >= 1,
            choices@.len() >= number_points - 1,
            forall|k: int| 0 <= k < choices@.len() ==> #[trigger] choices@[k] < 3,
            cs == choices@.map_values(|u: usize| u as int),
            points@.len() == i,
            wa as int == weights_at(cs, (i - 1) as nat).a,
            wb as int == weights_at(cs, (i - 1) as nat).b,
            wc as int == weights_at(cs, (i - 1) as nat).c,
            valid_weights(weights_at(cs, (i - 1) as nat)),
            forall|t: int|
                0 <= t < i ==> (#[trigger] points@[t])@ == pt_of_weights(weights_at(cs, t as nat)),
        decreases number_points - i,
    {
        let j: usize = choices[i - 1];
        let unit: u64 = SCALE as u64;
        proof {
            lemma_step_valid(weights_at(cs, (i - 1) as nat), cs[i - 1]);
            assert(cs[i - 1] == choices@[i - 1] as int);
        }
        wa = (wa + if j == 0 { unit } else { 0 }) / 2;
        wb = (wb + if j == 1 { unit } else { 0 }) / 2;
        wc = (wc + if j == 2 { unit } else { 0 }) / 2;
        proof {
            assert(weights_at(cs, i as nat) == step_weights(
                weights_at(cs, (i - 1) as nat),
                cs[i - 1],
            ));
        }
        points.push(weights_vertex(wa, wb, wc));
        i = i + 1;
    }
    proof {
        assert forall|t: int| 0 <= t < pts_of(points@).len() implies #[trigger] pts_of(points@)[t]
            == pt_of_weights(weights_at(cs, t as nat)) by {
            assert(pts_of(points@)[t] == points@[t]@);
        }
    }
    points
}

/// Generate `number_points` chaos-game points with anchors chosen by the
/// thread-local random generator: the fixed seed point first, then each
/// point the midpoint of its predecessor and a random anchor. Every
/// generated point lies in the anchor hull.
pub fn generate_points_random(number_points: usize) -> (r: Vec<Vertex>)
    ensures
        r@.len() == number_points,
        number_points >= 1 ==> r@[0]@ == seed_pt(),
        forall|i: int| 0 <= i < r@.len() ==> in_hull((#[trigger] r@[i])@),
        exists|cs: Seq<int>| follows_chaos_game(cs, pts_of(r@)),
{
    let mut choices: Vec<usize> = Vec::new();
    if number_points > 0 {
        let wanted: usize = number_points - 1;
        while choices.len() < wanted
            invariant
                choices@.len() <= wanted,
                forall|k: int| 0 <= k < choices@.len() ==> #[trigger] choices@[k] < 3,
            decreases wanted - choices@.len(),
        {
            let j: usize = random_usize() % 3;
            choices.push(j);
        }
    }
    let r = generate_points_with(number_points, &choices);
    proof {
        let cs = choices@.map_values(|u: usize| u as int);
        if number_points >= 1 {
            assert(pts_of(r@)[0] == pt_of_weights(weights_at(cs, 0)));
            assert(pt_of_weights(seed_weights()) == seed_pt());
            assert(r@[0]@ == pts_of(r@)[0]);
        }
        assert forall|i: int| 0 <= i < r@.len() implies in_hull((#[trigger] r@[i])@) by {
            assert(pts_of(r@)[i] == r@[i]@);
            assert(pts_of(r@)[i] == pt_of_weights(weights_at(cs, i as nat)));
            lemma_weights_valid(cs, i as nat);
            lemma_weights_in_hull(weights_at(cs, i as nat));
        }
        assert(follows_chaos_game(cs, pts_of(r@)));
    }
    r
}


/// The generation strategy of a gasket shape: a point-cloud of a given
/// size, or a recursive subdivision of a given depth.
#[derive(Clone, Copy, PartialEq, Eq, Structural, Debug)]
pub enum SierpinskiType {
    Points { number: usize },
    Triangles { depth: usize },
}

/// What a generated vertex buffer must look like for a given strategy.
pub open spec fn generated_from(ps: Seq<Pt>, method: SierpinskiType) -> bool {
    match method {
        SierpinskiType::Points { number } => {
            &&& ps.len() == number
            &&& (number >= 1 ==> ps[0] == seed_pt())
            &&& (forall|i: int| 0 <= i < ps.len() ==> in_hull(#[trigger] ps[i]))
            &&& (exists|cs: Seq<int>| follows_chaos_game(cs, ps))
        },
        SierpinskiType::Triangles { depth } => {
            &&& ps == subdiv(anchor_a(), anchor_b(), anchor_c(), depth as nat)
            &&& ps.len() == 3 * pow3(depth as nat)
        },
    }
}

impl SierpinskiType {
    /// A subdivision depth must leave the anchors on the halving grid; the
    /// scale has 32 bits of fraction, and memory runs out long before.
    pub open spec fn wf(self) -> bool {
        match self {
            SierpinskiType::Points { .. } => true,
            SierpinskiType::Triangles { depth } => depth <= 32,
        }
    }

    /// Generate this strategy's vertex buffer.
    pub fn generate_points(&self) -> (r: Vec<Vertex>)
        requires
            self.wf(),
        ensures
            generated_from(pts_of(r@), *self),
    {
        let r = match self {
            SierpinskiType::Points { number } => generate_points_random(*number),
            SierpinskiType::Triangles { depth } => generate_vertices_rec(*depth),
        };
        proof {
            match *self {
                SierpinskiType::Points { number } => {
                    assert forall|i: int| 0 <= i < pts_of(r@).len() implies in_hull(
                        #[trigger] pts_of(r@)[i],
                    ) by {
                        assert(pts_of(r@)[i] == r@[i]@);
                    }
                    if number >= 1 {
                        assert(pts_of(r@)[0] == r@[0]@);
                    }
                },
                SierpinskiType::Triangles { .. } => {},
            }
        }
        r
    }
}

/// The primitive topology a shape is drawn with.
#[derive(Clone, Copy, PartialEq, Eq, Structural, Debug)]
pub enum DrawKind {
    Points,
    Triangles,
}

/// One GPU draw call: the topology and how many vertices to draw.
#[derive(Clone, Copy, PartialEq, Eq, Structural, Debug)]
pub struct DrawCall {
    pub kind: DrawKind,
    pub count: usize,
}

/// The topology a generation strategy is drawn with.
pub open spec fn draw_kind_of(method: SierpinskiType) -> DrawKind {
    match method {
        SierpinskiType::Points { .. } => DrawKind::Points,
        SierpinskiType::Triangles { .. } => DrawKind::Triangles,
    }
}

/// A gasket shape: its vertex buffer, generated once at construction and
/// immutable thereafter, and the strategy it was generated with.
pub struct Sierpinski {
    vertices: Vec<Vertex>,
    method: SierpinskiType,
}

impl Sierpinski {
    /// The strategy this shape was built with.
    pub closed spec fn method_spec(&self) -> SierpinskiType {
        self.method
    }

    /// The mathematical values of this shape's vertex buffer.
    pub closed spec fn points(&self) -> Seq<Pt> {
        pts_of(self.vertices@)
    }

    /// The shape's buffer was generated by its own strategy.
    pub open spec fn wf(&self) -> bool {
        &&& self.method_spec().wf()
        &&& generated_from(self.points(), self.method_spec())
    }

    /// Build a shape: generate its vertex buffer once from the strategy.
    pub fn new(method: SierpinskiType) -> (s: Sierpinski)
        requires
            method.wf(),
        ensures
            s.wf(),
            s.method_spec() == method,
    {
        let vertices = method.generate_points();
        Sierpinski { vertices, method }
    }

    /// How many vertices the shape's buffer holds.
    pub fn vertex_count(&self) -> (n: usize)
        ensures
            n == self.points().len(),
    {
        self.vertices.len()
    }

    /// The shape's vertex buffer, for upload to the rendering collaborator.
    pub fn vertices(&self) -> (v: &Vec<Vertex>)
        ensures
            pts_of(v@) == self.points(),
    {
        &self.vertices
    }

    /// The strategy this shape was built with.
    pub fn method(&self) -> (m: SierpinskiType)
        ensures
            m == self.method_spec(),
    {
        self.method
    }

    /// The draw call that renders this shape: its strategy's topology over
    /// the whole buffer.
    pub fn draw_call(&self) -> (d: DrawCall)
        ensures
            d.kind == draw_kind_of(self.method_spec()),
            d.count == self.points().len(),
    {
        DrawCall {
            kind: match self.method {
                SierpinskiType::Points { .. } => DrawKind::Points,
                SierpinskiType::Triangles { .. } => DrawKind::Triangles,
            },
            count: self.vertices.len(),
        }
    }
}

/// The draw call a frame submits for the plain static triangle.
pub open spec fn plain_draw_call() -> DrawCall {
    DrawCall { kind: DrawKind::Triangles, count: 3 }
}

/// Decide a frame's draw call: the active mode selects which precomputed
/// buffer is submitted; nothing is regenerated on a mode switch.
pub fn frame_draw(mode: crate::mode::Mode, gasket: &Sierpinski, recursive: &Sierpinski) -> (d:
    DrawCall)
    ensures
        mode == crate::mode::Mode::Triangle ==> d == plain_draw_call(),
        mode == crate::mode::Mode::Sierpinski ==> d.kind == draw_kind_of(gasket.method_spec())
            && d.count == gasket.points().len(),
        mode == crate::mode::Mode::SierpinskiRec ==> d.kind == draw_kind_of(
            recursive.method_spec(),
        ) && d.count == recursive.points().len(),
{
    match mode {
        crate::mode::Mode::Triangle => DrawCall { kind: DrawKind::Triangles, count: 3 },
        crate::mode::Mode::Sierpinski => gasket.draw_call(),
        crate::mode::Mode::SierpinskiRec => recursive.draw_call(),
    }
}


} // verus!
