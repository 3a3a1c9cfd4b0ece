use rtlib::aabb::{AabbF, BoundingBox};
use rtlib::cube::{Cube, Wall};
use rtlib::hitlist::HitList;
use rtlib::hittable::{set_face_normal, Custom, Facing, HitRecord, Hitters};
use rtlib::materials::{Dielectric, Metal};
use rtlib::rectangle::{Axes, Axis, Rect};
use rtlib::sphere::{active_span, root_in_range, Span};
use rtlib::vec3::Vec3;
use rtlib::volumes::{scatters_inside, span_inside};

fn key(x: f64) -> i64 {
    rtlib::scalar::key_of_bits(x.to_bits())
}

fn unkey(k: i64) -> f64 {
    f64::from_bits(rtlib::scalar::bits_of_key(k))
}

fn vect(x: f64, y: f64, z: f64) -> Vec3 {
    Vec3::new(key(x), key(y), key(z))
}

fn rect(a0: f64, a1: f64, b0: f64, b1: f64, k: f64, axis: Axis) -> Rect {
    Rect::new(key(a0), key(a1), key(b0), key(b1), key(k), axis)
}

/// Where the ray from `origin` along `direction` crosses the plane of the
/// rectangle, and whether the rectangle takes it.
fn cross(r: &Rect, origin: [f64; 3], direction: [f64; 3], tmin: f64, tmax: f64) -> Option<(f64, f64, f64)> {
    let axes = r.axes();
    let t = (unkey(r.k) - origin[axes.along]) / direction[axes.along];
    let axis0 = origin[axes.first] + t * direction[axes.first];
    let axis1 = origin[axes.second] + t * direction[axes.second];
    if r.accepts(key(t), key(tmin), key(tmax), key(axis0), key(axis1)) {
        let u = (axis0 - unkey(r.axis0_min)) / (unkey(r.axis0_max) - unkey(r.axis0_min));
        let v = (axis1 - unkey(r.axis1_min)) / (unkey(r.axis1_max) - unkey(r.axis1_min));
        Some((t, u, v))
    } else {
        None
    }
}

fn thick(r: &Rect) -> Option<BoundingBox> {
    r.bounding_box(key(unkey(r.k) - 0.0001), key(unkey(r.k) + 0.0001))
}

#[test]
fn test_xyrect_creation() {
    let xyrect = rect(-1.0, 1.0, -1.0, 1.0, 0.0, Axis::Z);

    let bb_ans = BoundingBox::AabbF(AabbF::new(
        vect(-1., -1., 0.0 - 0.0001),
        vect(1., 1., 0.0 + 0.0001),
    ));

    assert_eq!(thick(&xyrect), Some(bb_ans));
}

#[test]
fn test_xyrect_hit() {
    let xyrect = rect(-1.0, 1.0, -1.0, 1.0, 0.0, Axis::Z);

    let hit = cross(&xyrect, [0., 0., 1.], [0., 0., -1.], 0.0, 1.0);

    assert_eq!(hit, Some((1.0, 0.5, 0.5)));
    assert_eq!(xyrect.normal(), vect(0., 0., 1.));
}

#[test]
fn test_xzrect_creation() {
    let xzrect = rect(-1.0, 1.0, -1.0, 1.0, 0.0, Axis::Y);

    let bb_ans = BoundingBox::AabbF(AabbF::new(
        vect(-1., 0.0 - 0.0001, -1.),
        vect(1., 0.0 + 0.0001, 1.),
    ));

    assert_eq!(thick(&xzrect), Some(bb_ans));
}

#[test]
fn test_xzrect_hit() {
    let xzrect = rect(-1.0, 1.0, -1.0, 1.0, 0.0, Axis::Y);

    let hit = cross(&xzrect, [0., 1., 0.], [0., -1., 0.], 0.0, 1.0);

    assert_eq!(hit, Some((1.0, 0.5, 0.5)));
    assert_eq!(xzrect.normal(), vect(0., 1., 0.));
}

#[test]
fn test_yzrect_creation() {
    let yzrect = rect(-1.0, 1.0, -1.0, 1.0, 0.0, Axis::X);

    let bb_ans = BoundingBox::AabbF(AabbF::new(
        vect(0.0 - 0.0001, -1., -1.),
        vect(0.0 + 0.0001, 1., 1.),
    ));

    assert_eq!(thick(&yzrect), Some(bb_ans));
}

#[test]
fn test_yzrect_hit() {
    let yzrect = rect(-1.0, 1.0, -1.0, 1.0, 0.0, Axis::X);

    let hit = cross(&yzrect, [1., 0., 0.], [-1., 0., 0.], 0.0, 1.0);

    assert_eq!(hit, Some((1.0, 0.5, 0.5)));
    assert_eq!(yzrect.normal(), vect(1., 0., 0.));
}

#[test]
fn test_cube_construction() {
    let p0 = vect(-1., -1., -1.);
    let p1 = vect(1., 1., 1.);
    let c0 = Cube::new(&p0, &p1);

    assert_eq!(c0.pmin, p0);
    assert_eq!(c0.pmax, p1);
}

#[test]
fn a_cube_has_six_sides() {
    let c = Cube::new(&Vec3::new(1, 2, 3), &Vec3::new(4, 5, 6));
    let wall = |a0, a1, b0, b1, k, axis, flipped| Wall {
        rect: Rect::new(a0, a1, b0, b1, k, axis),
        flipped,
    };
    assert_eq!(
        c.walls,
        vec![
            wall(1, 4, 2, 5, 6, Axis::Z, false),
            wall(1, 4, 2, 5, 3, Axis::Z, true),
            wall(1, 4, 3, 6, 5, Axis::Y, false),
            wall(1, 4, 3, 6, 2, Axis::Y, true),
            wall(2, 5, 3, 6, 4, Axis::X, false),
            wall(2, 5, 3, 6, 1, Axis::X, true),
        ]
    );
    let bb = BoundingBox::AabbF(AabbF::new(Vec3::new(1, 2, 3), Vec3::new(4, 5, 6)));
    assert_eq!(c.bounding_box(), Some(bb));
    let copy = c.clone();
    assert_eq!(copy.walls, c.walls);
    assert_eq!((copy.pmin, copy.pmax), (c.pmin, c.pmax));
}

#[test]
fn a_rectangle_includes_its_borders() {
    let r = Rect::new(10, 20, 30, 40, 5, Axis::Y);
    assert!(r.accepts(7, 7, 9, 10, 30));
    assert!(r.accepts(9, 7, 9, 20, 40));
    assert!(!r.accepts(6, 7, 9, 15, 35));
    assert!(!r.accepts(10, 7, 9, 15, 35));
    assert!(!r.accepts(8, 7, 9, 9, 35));
    assert!(!r.accepts(8, 7, 9, 21, 35));
    assert!(!r.accepts(8, 7, 9, 15, 29));
    assert!(!r.accepts(8, 7, 9, 15, 41));
    assert_eq!(r.axes(), Axes { along: 1, first: 0, second: 2 });
    assert_eq!(Rect::new(0, 0, 0, 0, 0, Axis::X).axes(), Axes { along: 0, first: 1, second: 2 });
    assert_eq!(Rect::new(0, 0, 0, 0, 0, Axis::Z).axes(), Axes { along: 2, first: 0, second: 1 });
    assert_eq!(Rect::default(), Rect::new(0, 0, 0, 0, 0, Axis::X));
}

#[test]
fn a_box_of_a_rectangle_has_its_own_extent_on_each_axis() {
    let r = Rect::new(10, 20, 30, 40, 5, Axis::Z);
    let bb = BoundingBox::AabbF(AabbF::new(Vec3::new(10, 30, 4), Vec3::new(20, 40, 6)));
    assert_eq!(r.bounding_box(4, 6), Some(bb));
    let r = Rect::new(10, 20, 30, 40, 5, Axis::Y);
    let bb = BoundingBox::AabbF(AabbF::new(Vec3::new(10, 4, 30), Vec3::new(20, 6, 40)));
    assert_eq!(r.bounding_box(4, 6), Some(bb));
    let r = Rect::new(10, 20, 30, 40, 5, Axis::X);
    let bb = BoundingBox::AabbF(AabbF::new(Vec3::new(4, 10, 30), Vec3::new(6, 20, 40)));
    assert_eq!(r.bounding_box(4, 6), Some(bb));
}

#[test]
fn sphere_test_sphere_hit() {
    // a ray from (0, 0, 0) toward (1, 1, 1) against a sphere at (2, 2, 2) with radius 3
    let (origin, direction) = ([0.0f64; 3], [1.0f64; 3]);
    let (center, radius) = ([2.0f64; 3], 3.0f64);
    let oc: Vec<f64> = (0..3).map(|i| origin[i] - center[i]).collect();
    let a: f64 = direction.iter().map(|d| d * d).sum();
    let b: f64 = (0..3).map(|i| oc[i] * direction[i]).sum();
    let c: f64 = oc.iter().map(|x| x * x).sum::<f64>() - radius * radius;
    let root = (b * b - a * c).sqrt();
    let (near, far) = ((-b - root) / a, (-b + root) / a);

    // this should have 2 hits, but we'll return the closest one
    if let Some(result) = root_in_range(key(near), key(far), key(0.0), key(4.0)) {
        assert_eq!(unkey(result), 0.26794919243112264);
    }
    assert!(root_in_range(key(near), key(far), key(0.0), key(4.0)).is_some());
}

#[test]
fn the_nearer_root_wins_where_it_is_inside() {
    assert_eq!(root_in_range(3, 8, 0, 10), Some(3));
    assert_eq!(root_in_range(3, 8, 3, 10), Some(8));
    assert_eq!(root_in_range(-3, 8, 0, 10), Some(8));
    assert_eq!(root_in_range(3, 8, 0, 3), None);
    assert_eq!(root_in_range(3, 8, 4, 8), None);
    assert_eq!(root_in_range(3, 8, 8, 20), None);
    assert_eq!(root_in_range(3, 8, 0, 4), Some(3));
}

#[test]
fn a_moving_sphere_is_there_while_both_intervals_last() {
    assert_eq!(active_span(0, 10, 2, 5), Some(Span { from: 2, to: 5 }));
    assert_eq!(active_span(3, 4, 0, 10), Some(Span { from: 3, to: 4 }));
    assert_eq!(active_span(0, 4, 2, 10), Some(Span { from: 2, to: 4 }));
    assert_eq!(active_span(0, 2, 2, 10), Some(Span { from: 2, to: 2 }));
    assert_eq!(active_span(0, 1, 2, 10), None);
    assert_eq!(active_span(11, 12, 2, 10), None);
}

#[test]
fn the_part_inside_a_medium() {
    assert_eq!(span_inside(2, 8, 0, 10), Some(Span { from: 2, to: 8 }));
    assert_eq!(span_inside(2, 8, 3, 7), Some(Span { from: 3, to: 7 }));
    assert_eq!(span_inside(-5, 8, -9, 10), Some(Span { from: 0, to: 8 }));
    assert_eq!(span_inside(-5, 8, -2, 10), Some(Span { from: 0, to: 8 }));
    assert_eq!(span_inside(2, 8, 8, 10), None);
    assert_eq!(span_inside(2, 8, 0, 2), None);
    assert_eq!(span_inside(8, 2, 0, 10), None);
    assert_eq!(span_inside(-8, -2, -10, 10), Some(Span { from: 0, to: -2 }));
    assert!(scatters_inside(3, 4));
    assert!(!scatters_inside(4, 4));
    assert!(!scatters_inside(5, 4));
}

#[test]
fn a_metal_scatters_away_from_the_surface_only() {
    assert!(Metal::reflects(key(0.5)));
    assert!(!Metal::reflects(key(0.0)));
    assert!(!Metal::reflects(key(-0.5)));
}

#[test]
fn glass_reflects_all_light_that_it_cannot_refract() {
    assert!(Dielectric::leaving(key(0.1)));
    assert!(!Dielectric::leaving(key(-0.1)));
    assert!(!Dielectric::leaving(key(0.0)));
    for draw in [0.0, 0.3, 0.999] {
        assert!(Dielectric::reflects(false, key(draw), key(0.0)));
        assert!(Dielectric::reflects(false, key(draw), key(1.0)));
        assert!(Dielectric::reflects(true, key(draw), key(1.0)));
        assert!(!Dielectric::reflects(true, key(draw), key(0.0)));
    }
    assert!(Dielectric::reflects(true, key(0.2), key(0.3)));
    assert!(!Dielectric::reflects(true, key(0.3), key(0.3)));
    assert!(!Dielectric::reflects(true, key(0.4), key(0.3)));
}

/// What a ray test of a cube reports: the parameter, the point, the normal and the place on the side.
#[derive(Clone, Debug, PartialEq)]
struct Seen {
    t: f64,
    p: [f64; 3],
    normal: Vec3,
    uv: (f64, f64),
}

/// The nearest side of the cube that the ray hits: the sides are tested one
/// by one, each only up to the nearest hit so far.
fn cube_hit(c: &Cube, origin: [f64; 3], direction: [f64; 3], tmin: f64, tmax: f64) -> Option<Seen> {
    let mut sides = HitList::new();
    for (id, wall) in c.walls.iter().enumerate() {
        sides.add(Hitters::Custom(Custom::new(id, thick(&wall.rect))));
    }
    let probe = |side: Custom, lo: i64, hi: i64| {
        let wall = c.walls[side.id];
        cross(&wall.rect, origin, direction, unkey(lo), unkey(hi)).map(|(t, u, v)| {
            let n = wall.rect.normal();
            let normal = if wall.flipped {
                vect(unkey(n.x) * -1.0, unkey(n.y) * -1.0, unkey(n.z) * -1.0)
            } else {
                n
            };
            let p = [
                origin[0] + t * direction[0],
                origin[1] + t * direction[1],
                origin[2] + t * direction[2],
            ];
            HitRecord::new(key(t), Seen { t, p, normal, uv: (u, v) })
        })
    };
    sides
        .hit(key(tmin), key(tmax), &|_bb, _lo, _hi| None::<HitRecord<Seen>>, &probe)
        .map(|rec| rec.payload)
}

#[test]
fn test_cube_hit() {
    let p0 = vect(-1., -1., -1.);
    let p1 = vect(1., 1., 1.);
    let c0 = Cube::new(&p0, &p1);
    let zero = key(0.0);
    let same = |a: &Seen, b: &Seen| {
        // zero is zero, whatever its sign
        let flat = |v: Vec3| {
            let z = |k: i64| if unkey(k) == 0.0 { zero } else { k };
            Vec3::new(z(v.x), z(v.y), z(v.z))
        };
        a.t == b.t && a.p == b.p && flat(a.normal) == flat(b.normal) && a.uv == b.uv
    };

    // from the front
    let mut hr_ans = Seen { t: 1.0, p: [0., 0., 1.], normal: vect(0., 0., 1.), uv: (0.5, 0.5) };
    let hr = cube_hit(&c0, [0., 0., 2.], [0., 0., -1.], 0.0, 1.0);
    assert!(same(&hr.unwrap(), &hr_ans));

    // from the back
    hr_ans.normal = vect(0., 0., -1.);
    hr_ans.p = [0., 0., -1.];
    let hr = cube_hit(&c0, [0., 0., -2.], [0., 0., 1.], 0.0, 1.0);
    assert!(same(&hr.unwrap(), &hr_ans));

    // from the right side
    hr_ans.normal = vect(1., 0., 0.);
    hr_ans.p = [1., 0., 0.];
    let hr = cube_hit(&c0, [2., 0., 0.], [-1., 0., 0.], 0.0, 1.0);
    assert!(same(&hr.unwrap(), &hr_ans));

    // from the left side
    hr_ans.normal = vect(-1., 0., 0.);
    hr_ans.p = [-1., 0., 0.];
    let hr = cube_hit(&c0, [-2., 0., 0.], [1., 0., 0.], 0.0, 1.0);
    assert!(same(&hr.unwrap(), &hr_ans));

    // from the top
    hr_ans.normal = vect(0., 1., 0.);
    hr_ans.p = [0., 1., 0.];
    let hr = cube_hit(&c0, [0., 2., 0.], [0., -1., 0.], 0.0, 1.0);
    assert!(same(&hr.unwrap(), &hr_ans));

    // from the bottom
    hr_ans.normal = vect(0., -1., 0.);
    hr_ans.p = [0., -1., 0.];
    let hr = cube_hit(&c0, [0., -2., 0.], [0., 1., 0.], 0.0, 1.0);
    assert!(same(&hr.unwrap(), &hr_ans));
}

#[test]
fn the_normal_points_against_the_ray() {
    let out = vect(0., 0., 1.);
    let inward = vect(0., 0., -1.);
    assert_eq!(
        set_face_normal(key(-0.5), out, inward),
        Facing { front_face: true, normal: out }
    );
    assert_eq!(
        set_face_normal(key(0.5), out, inward),
        Facing { front_face: false, normal: inward }
    );
    assert_eq!(
        set_face_normal(key(0.0), out, inward),
        Facing { front_face: false, normal: inward }
    );
}
