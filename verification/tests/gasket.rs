use sierpinski::sierpinski::{
    divide_triangle, generate_points_random, generate_points_with, generate_vertices_rec,
    DrawKind, Sierpinski, SierpinskiType,
};
use sierpinski::vertex::{Vertex, SCALE};

const S: i64 = SCALE;

fn in_hull(v: &Vertex) -> bool {
    v.y >= -S && v.y <= 2 * v.x + S && v.y <= -2 * v.x + S
}

fn cross(a: &Vertex, b: &Vertex, c: &Vertex) -> i128 {
    (b.x as i128 - a.x as i128) * (c.y as i128 - a.y as i128)
        - (b.y as i128 - a.y as i128) * (c.x as i128 - a.x as i128)
}

#[test]
fn random_sample_counts() {
    for n in [0usize, 1, 2, 5, 1000] {
        let pts = generate_points_random(n);
        assert_eq!(pts.len(), n);
    }
}

#[test]
fn random_sample_in_hull() {
    let pts = generate_points_random(5000);
    for p in &pts {
        assert!(in_hull(p), "({}, {}) escaped the hull", p.x, p.y);
    }
}

#[test]
fn random_sample_one_is_seed() {
    let pts = generate_points_random(1);
    assert_eq!(pts.len(), 1);
    assert_eq!(pts[0].x, S / 4);
    assert_eq!(pts[0].y, S / 2);
}

#[test]
fn chaos_fixed_choice_toward_each_anchor() {
    // One step toward anchor a, b or c is the exact midpoint of the seed
    // (S/4, S/2) and that anchor.
    let toward_a = generate_points_with(2, &vec![0]);
    assert_eq!((toward_a[1].x, toward_a[1].y), (-3 * S / 8, -S / 4));
    let toward_b = generate_points_with(2, &vec![1]);
    assert_eq!((toward_b[1].x, toward_b[1].y), (S / 8, 3 * S / 4));
    let toward_c = generate_points_with(2, &vec![2]);
    assert_eq!((toward_c[1].x, toward_c[1].y), (5 * S / 8, -S / 4));
}

#[test]
fn chaos_fixed_choice_sequence() {
    let pts = generate_points_with(4, &vec![0, 1, 2]);
    let expect = [
        (S / 4, S / 2),
        (-3 * S / 8, -S / 4),
        (-3 * S / 16, 3 * S / 8),
        (13 * S / 32, -5 * S / 16),
    ];
    assert_eq!(pts.len(), 4);
    for (p, e) in pts.iter().zip(expect.iter()) {
        assert_eq!((p.x, p.y), *e);
    }
}

#[test]
fn chaos_empty() {
    let pts = generate_points_with(0, &vec![]);
    assert!(pts.is_empty());
}

#[test]
fn rec_depth0_is_starting_triangle_in_order() {
    let pts = generate_vertices_rec(0);
    assert_eq!(pts.len(), 3);
    assert_eq!((pts[0].x, pts[0].y), (-S, -S));
    assert_eq!((pts[1].x, pts[1].y), (0, S));
    assert_eq!((pts[2].x, pts[2].y), (S, -S));
}

#[test]
fn rec_depth1_exact_vertices() {
    // Corner sub-triangles (a, ab, ac), (ab, b, bc), (ac, bc, c); the
    // central inverted triangle (ab, bc, ac) is never emitted.
    let pts = generate_vertices_rec(1);
    let a = (-S, -S);
    let b = (0, S);
    let c = (S, -S);
    let ab = (-S / 2, 0);
    let ac = (0, -S);
    let bc = (S / 2, 0);
    let expect = [a, ab, ac, ab, b, bc, ac, bc, c];
    assert_eq!(pts.len(), 9);
    for (p, e) in pts.iter().zip(expect.iter()) {
        assert_eq!((p.x, p.y), *e);
    }
}

#[test]
fn rec_lengths_are_three_times_powers_of_three() {
    let mut want: usize = 3;
    for depth in 0usize..6 {
        assert_eq!(generate_vertices_rec(depth).len(), want);
        want *= 3;
    }
}

#[test]
fn rec_vertices_stay_in_hull() {
    let pts = generate_vertices_rec(3);
    for p in &pts {
        assert!(in_hull(p), "({}, {}) escaped the hull", p.x, p.y);
    }
}

#[test]
fn rec_triangle_areas_quarter_per_depth() {
    // cross of the anchors is -4 * S^2; each depth divides it by 4.
    let whole: i128 = -4 * (S as i128) * (S as i128);
    for depth in 0usize..4 {
        let pts = generate_vertices_rec(depth);
        let want = whole / 4i128.pow(depth as u32);
        for t in pts.chunks(3) {
            assert_eq!(cross(&t[0], &t[1], &t[2]), want);
        }
    }
}

#[test]
fn divide_triangle_appends() {
    let a = Vertex::new(-S, -S);
    let b = Vertex::new(0, S);
    let c = Vertex::new(S, -S);
    let mut buf = vec![Vertex::new(7, 7)];
    divide_triangle(&mut buf, &a, &b, &c, 0);
    assert_eq!(buf.len(), 4);
    assert_eq!((buf[0].x, buf[0].y), (7, 7));
    assert_eq!((buf[1].x, buf[1].y), (-S, -S));
}

#[test]
fn vertex_midpoint_is_exact() {
    let m = Vertex::new(-S, S).midpoint(Vertex::new(S / 2, 0));
    assert_eq!((m.x, m.y), (-S / 4, S / 2));
}

#[test]
fn generate_points_dispatches_on_method() {
    let cloud = SierpinskiType::Points { number: 10 }.generate_points();
    assert_eq!(cloud.len(), 10);
    let tris = SierpinskiType::Triangles { depth: 2 }.generate_points();
    assert_eq!(tris.len(), 27);
    let direct = generate_vertices_rec(2);
    for (p, q) in tris.iter().zip(direct.iter()) {
        assert_eq!((p.x, p.y), (q.x, q.y));
    }
}

#[test]
fn shape_holds_its_buffer_and_draw_call() {
    let cloud = Sierpinski::new(SierpinskiType::Points { number: 42 });
    assert_eq!(cloud.vertex_count(), 42);
    let d = cloud.draw_call();
    assert_eq!(d.kind, DrawKind::Points);
    assert_eq!(d.count, 42);

    let tris = Sierpinski::new(SierpinskiType::Triangles { depth: 3 });
    assert_eq!(tris.vertex_count(), 81);
    let d = tris.draw_call();
    assert_eq!(d.kind, DrawKind::Triangles);
    assert_eq!(d.count, 81);
    assert_eq!(tris.vertices().len(), 81);
    assert_eq!(tris.method(), SierpinskiType::Triangles { depth: 3 });
}
