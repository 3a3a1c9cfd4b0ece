use rtlib::scalar::ONE;
use rtlib::util::{
    color, color_just_attenuation, color_use_explicit_lighting, color_use_interior_lighting,
    ffmax, ffmin, optional_arg, progress_due, sample_pixel, write_color, Bounce,
};
use rtlib::vec3::{Color, Vec3};

fn key(x: f64) -> i64 {
    rtlib::scalar::key_of_bits(x.to_bits())
}

fn unkey(k: i64) -> f64 {
    f64::from_bits(rtlib::scalar::bits_of_key(k))
}

fn encode(c: [f64; 3]) -> Color {
    Vec3::new(key(c[0]), key(c[1]), key(c[2]))
}

fn decode(c: Color) -> [f64; 3] {
    [unkey(c.x), unkey(c.y), unkey(c.z)]
}

/// Attenuation times what came back, plus emission, channel by channel.
fn blend(a: Color, k: Color, e: Color) -> Color {
    let (a, k, e) = (decode(a), decode(k), decode(e));
    encode([a[0] * k[0] + e[0], a[1] * k[1] + e[1], a[2] * k[2] + e[2]])
}

/// A path over numbered rays: ray 0 and ray 1 are scattered, ray 2 hits nothing.
fn three_steps(ray: u32, may_scatter: bool) -> Bounce<i64, u32> {
    match ray {
        0 if may_scatter => Bounce::Scattered { emitted: 1, attenuation: 2, ray: 1 },
        0 => Bounce::Absorbed { emitted: 1 },
        1 if may_scatter => Bounce::Scattered { emitted: 2, attenuation: 3, ray: 2 },
        1 => Bounce::Absorbed { emitted: 2 },
        _ => Bounce::Missed { background: 5 },
    }
}

#[test]
fn color_folds_from_the_last_step_to_the_first() {
    // pairs (1, 2), (2, 3), (5, ambient); ambient 1:
    // 1 * 1 + 5 = 6, 3 * 6 + 2 = 20, 2 * 20 + 1 = 41
    let c = color(0u32, &three_steps, &|a: i64, k: i64, e: i64| a * k + e, 5, 1i64);
    assert_eq!(c, 41);
    // ambient 0: 0 * 0 + 5 = 5, 3 * 5 + 2 = 17, 2 * 17 + 1 = 35
    let c = color(0u32, &three_steps, &|a: i64, k: i64, e: i64| a * k + e, 5, 0i64);
    assert_eq!(c, 35);
}

#[test]
fn color_stops_at_the_depth() {
    // depth 1: ray 0 is scattered, ray 1 may not be: pairs (1, 2), (2, ambient)
    // 1 * 1 + 2 = 3, 2 * 3 + 1 = 7
    let c = color(0u32, &three_steps, &|a: i64, k: i64, e: i64| a * k + e, 1, 1i64);
    assert_eq!(c, 7);
    // depth 0: the first surface only: 1 * 1 + 1 = 2
    let c = color(0u32, &three_steps, &|a: i64, k: i64, e: i64| a * k + e, 0, 1i64);
    assert_eq!(c, 2);
    // depth 2 reaches the miss: as with depth 5
    let c = color(0u32, &three_steps, &|a: i64, k: i64, e: i64| a * k + e, 2, 1i64);
    assert_eq!(c, 41);
}

#[test]
fn color_does_not_follow_a_ray_that_may_not_scatter() {
    // a tracer that scatters whatever it is told
    let stubborn = |ray: u32, _may: bool| Bounce::Scattered { emitted: 1i64, attenuation: 2i64, ray: ray + 1 };
    // depth 2: pairs (1, 2), (1, 2), (1, ambient 10): 10 * 10 + 1 = 101, 2 * 101 + 1 = 203, 2 * 203 + 1 = 407
    let c = color(0u32, &stubborn, &|a: i64, k: i64, e: i64| a * k + e, 2, 10i64);
    assert_eq!(c, 407);
}

#[test]
fn color_agrees_with_the_plain_recursion() {
    fn rec(ray: u32, depth: i32, ambient: i64) -> i64 {
        match three_steps(ray, depth > 0) {
            Bounce::Scattered { emitted, attenuation, ray: next } if depth > 0 => {
                attenuation * rec(next, depth - 1, ambient) + emitted
            }
            Bounce::Scattered { emitted, .. } | Bounce::Absorbed { emitted } => {
                ambient * ambient + emitted
            }
            Bounce::Missed { background } => ambient * ambient + background,
        }
    }
    for depth in 0..6 {
        for ambient in [0i64, 1, 3] {
            let c = color(0u32, &three_steps, &|a: i64, k: i64, e: i64| a * k + e, depth, ambient);
            assert_eq!(c, rec(0, depth, ambient));
        }
    }
}

#[test]
fn color_of_a_white_mirror_is_white() {
    // a perfect white mirror that sends every ray into the open: emission black,
    // attenuation white, then a miss that sees black
    let trace = |ray: u32, may: bool| {
        if ray == 0 && may {
            Bounce::Scattered { emitted: encode([0.; 3]), attenuation: encode([1.; 3]), ray: 1u32 }
        } else {
            Bounce::Missed { background: encode([0.; 3]) }
        }
    };
    let c = color_use_interior_lighting(0u32, &trace, &blend, 100);
    assert_eq!(decode(c), [1.0, 1.0, 1.0]);
    let c = color_use_explicit_lighting(0u32, &trace, &blend, 100);
    assert_eq!(decode(c), [0.0, 0.0, 0.0]);
    let c = color(0u32, &trace, &blend, 100, Vec3::new(ONE, ONE, ONE));
    assert_eq!(decode(c), [1.0, 1.0, 1.0]);
}

#[test]
fn color_channels_stay_at_or_above_zero() {
    let trace = |ray: u32, may: bool| {
        if ray < 7 && may {
            Bounce::Scattered {
                emitted: encode([0.0, 0.1, 0.0]),
                attenuation: encode([0.5, 0.9, 0.0]),
                ray: ray + 1,
            }
        } else if ray < 7 {
            Bounce::Absorbed { emitted: encode([0.2, 0.0, 4.0]) }
        } else {
            Bounce::Missed { background: encode([0.5, 0.7, 1.0]) }
        }
    };
    for depth in 0..10 {
        for ambient in [[0.0; 3], [1.0; 3]] {
            let c = decode(color(0u32, &trace, &blend, depth, encode(ambient)));
            assert!(c[0] >= 0.0 && c[1] >= 0.0 && c[2] >= 0.0);
        }
    }
}

#[test]
fn just_attenuation_looks_at_the_first_surface() {
    let scatter = |_r: u32, _m: bool| Bounce::Scattered {
        emitted: Vec3::new(1, 1, 1),
        attenuation: Vec3::new(7, 8, 9),
        ray: 0u32,
    };
    let absorb = |_r: u32, _m: bool| Bounce::Absorbed { emitted: Vec3::new(1, 1, 1) };
    let miss = |_r: u32, _m: bool| Bounce::Missed { background: Vec3::new(4, 5, 6) };
    assert_eq!(color_just_attenuation(0u32, &scatter), Vec3::new(7, 8, 9));
    assert_eq!(color_just_attenuation(0u32, &absorb), Vec3::new(0, 0, 0));
    assert_eq!(color_just_attenuation(0u32, &miss), Vec3::new(4, 5, 6));
}

#[test]
fn write_color_writes_one_line() {
    let mut out = Vec::new();
    write_color(&mut out, 255, 0, 128);
    assert_eq!(out, b"255 0 128\n".to_vec());
    write_color(&mut out, 7, 42, 100);
    assert_eq!(out, b"255 0 128\n7 42 100\n".to_vec());
    write_color(&mut out, 9, 10, 99);
    assert_eq!(out, b"255 0 128\n7 42 100\n9 10 99\n".to_vec());
}

#[test]
fn write_color_cuts_to_a_byte() {
    let mut out = Vec::new();
    write_color(&mut out, 300, -5, 256);
    write_color(&mut out, i32::MAX, i32::MIN, 254);
    assert_eq!(out, b"255 0 255\n255 0 254\n".to_vec());
}

#[test]
fn write_color_after_gamma() {
    // three samples that add up to (0.75, 3.0, 0): the root of the mean, times 255
    let samples = 3;
    let pixel = [0.75f64, 3.0, 0.0];
    let scale = 1.0 / samples as f64;
    let level = |c: f64| ((scale * c).sqrt() * 255.0) as i32;
    let mut out = Vec::new();
    write_color(&mut out, level(pixel[0]), level(pixel[1]), level(pixel[2]));
    assert_eq!(String::from_utf8(out).unwrap(), "127 255 0\n");
}

#[test]
fn optional_arg_falls_back_to_the_default() {
    assert_eq!(optional_arg(Some(5i64)), 5);
    assert_eq!(optional_arg::<i64>(None), 0);
    assert_eq!(optional_arg(Some(String::from("x"))), "x");
    assert_eq!(optional_arg::<String>(None), "");
    assert_eq!(optional_arg::<Vec3>(None), Vec3::new(0, 0, 0));
}

#[test]
fn a_pixel_is_the_sum_of_its_samples() {
    // the rays are numbered as they are cast: 0, 1, 2, 0, 1, 2, ...
    let next = std::cell::Cell::new(0u32);
    let cast = || {
        let ray = next.get();
        next.set((ray + 1) % 3);
        ray
    };
    let blend = |a: i64, k: i64, e: i64| a * k + e;
    let add = |a: i64, b: i64| a + b;
    // from ray 0 the path gives 41, from ray 1 it gives 3 * 6 + 2 = 20, from ray 2 it gives 6
    assert_eq!(sample_pixel(&cast, &three_steps, &blend, &add, 1, 5, 1i64, 0i64), 41);
    next.set(0);
    assert_eq!(sample_pixel(&cast, &three_steps, &blend, &add, 3, 5, 1i64, 0i64), 67);
    next.set(0);
    assert_eq!(sample_pixel(&cast, &three_steps, &blend, &add, 4, 5, 1i64, 100i64), 208);
    next.set(0);
    assert_eq!(sample_pixel(&cast, &three_steps, &blend, &add, 0, 5, 1i64, 9i64), 9);
    assert_eq!(sample_pixel(&cast, &three_steps, &blend, &add, -3, 5, 1i64, 9i64), 9);
    assert_eq!(next.get(), 0);
}

/// Three doubles, with the operations that the tests below need.
#[derive(Clone, Copy, Debug, PartialEq)]
struct V3 {
    x: f64,
    y: f64,
    z: f64,
}

fn v3(x: f64, y: f64, z: f64) -> V3 {
    V3 { x, y, z }
}

fn add3(a: V3, b: V3) -> V3 {
    v3(a.x + b.x, a.y + b.y, a.z + b.z)
}

fn sub3(a: V3, b: V3) -> V3 {
    v3(a.x - b.x, a.y - b.y, a.z - b.z)
}

fn scale3(t: f64, a: V3) -> V3 {
    v3(t * a.x, t * a.y, t * a.z)
}

fn over3(a: V3, t: f64) -> V3 {
    v3(a.x / t, a.y / t, a.z / t)
}

fn times3(a: V3, b: V3) -> V3 {
    v3(a.x * b.x, a.y * b.y, a.z * b.z)
}

fn dot3(a: V3, b: V3) -> f64 {
    a.x * b.x + a.y * b.y + a.z * b.z
}

fn unit3(a: V3) -> V3 {
    over3(a, dot3(a, a).sqrt())
}

#[derive(Clone, Copy)]
struct Beam {
    a: V3,
    b: V3,
}

/// A white mirror ball at (2, 2, 2) with radius 3: where the beam hits it
/// between 0.001 and infinity, and how it is mirrored there.
fn mirror_ball(beam: Beam) -> Option<Beam> {
    let (center, radius) = (v3(2.0, 2.0, 2.0), 3.0);
    let oc = sub3(beam.a, center);
    let a = dot3(beam.b, beam.b);
    let b = dot3(oc, beam.b);
    let c = dot3(oc, oc) - radius * radius;
    let discriminant = b * b - a * c;
    if !(discriminant > 0.0) {
        return None;
    }
    let root = discriminant.sqrt();
    let t = rtlib::sphere::root_in_range(
        key((-b - root) / a),
        key((-b + root) / a),
        key(0.001),
        key(f64::INFINITY),
    )?;
    let pat = add3(beam.a, scale3(unkey(t), beam.b));
    let normal = over3(sub3(pat, center), radius);
    let v = unit3(beam.b);
    let reflected = sub3(v, scale3(2_f64 * dot3(v, normal), normal));
    let scattered = Beam { a: pat, b: add3(reflected, scale3(0.0, v3(0.3, -0.2, 0.1))) };
    if rtlib::materials::Metal::reflects(key(dot3(scattered.b, normal))) {
        Some(scattered)
    } else {
        // the mirror swallows what it would send into itself
        Some(Beam { a: pat, b: v3(f64::NAN, f64::NAN, f64::NAN) })
    }
}

fn sky(beam: Beam) -> V3 {
    let unit_direction = unit3(beam.b);
    let t = 0.5 * (unit_direction.y + 1.0);
    add3(scale3(1.0 - t, v3(1.0, 1.0, 1.0)), scale3(t, v3(0.5, 0.7, 1.0)))
}

fn ball_world(background: fn(Beam) -> V3) -> impl Fn(Beam, bool) -> Bounce<V3, Beam> {
    move |beam: Beam, may_scatter: bool| match mirror_ball(beam) {
        Some(next) if may_scatter && !next.b.x.is_nan() => Bounce::Scattered {
            emitted: v3(0., 0., 0.),
            attenuation: v3(1.0, 1.0, 1.0),
            ray: next,
        },
        Some(_) => Bounce::Absorbed { emitted: v3(0., 0., 0.) },
        None => Bounce::Missed { background: background(beam) },
    }
}

fn blend3(a: V3, k: V3, e: V3) -> V3 {
    add3(times3(a, k), e)
}

#[test]
fn util_test_color() {
    let v = v3(0.0, 0.0, 0.0);
    let v2 = v3(1.0, 1.0, 1.0);
    let r = Beam { a: v, b: v2 };

    let ans = v3(1.0, 1.0, 1.0);

    // the world is one white mirror ball; a ray that hits nothing sees black,
    // and every surface is lit
    let world = ball_world(|_| v3(0., 0., 0.));
    let c = color(r, &world, &blend3, 100, v3(1.0, 1.0, 1.0));
    assert_eq!(c, ans);
}

#[test]
fn lib_test_color() {
    let v = v3(0.0, 0.0, 0.0);
    let v2 = v3(1.0, 1.0, 1.0);
    let r = Beam { a: v, b: v2 };
    let ans = v3(0.8943375672974064, 0.9366025403784438, 1.0);

    // the world is one white mirror ball; a ray that hits nothing sees the
    // sky, and nothing is lit but by the sky
    let world = ball_world(sky);
    let c = color(r, &world, &blend3, 100, v3(0.0, 0.0, 0.0));
    assert_eq!(c, ans);
}

#[test]
fn progress_is_due_every_thousandth_part() {
    // 2000 by 1000 pixels: every 2000th, and the last
    let num_pixels = 2_000_000;
    assert!(progress_due(0, num_pixels));
    assert!(!progress_due(1, num_pixels));
    assert!(!progress_due(1999, num_pixels));
    assert!(progress_due(2000, num_pixels));
    assert!(progress_due(1_998_000, num_pixels));
    assert!(progress_due(1_999_999, num_pixels));
    assert!(!progress_due(1_999_998, num_pixels));
    // a thousand pixels: every one
    assert!(progress_due(0, 1000));
    assert!(progress_due(7, 1000));
    // 200 by 100: every twentieth
    assert!(progress_due(20, 20_000));
    assert!(!progress_due(21, 20_000));
    assert!(progress_due(19_999, 20_000));
}

#[test]
fn the_smaller_and_the_larger_of_two() {
    assert_eq!(ffmin(key(1.5), key(-2.0)), key(-2.0));
    assert_eq!(ffmax(key(1.5), key(-2.0)), key(1.5));
    assert_eq!(ffmin(key(f64::NEG_INFINITY), key(f64::MIN)), key(f64::NEG_INFINITY));
    assert_eq!(ffmax(key(f64::INFINITY), key(f64::MAX)), key(f64::INFINITY));
    assert_eq!(ffmin(3, 3), 3);
    assert_eq!(ffmax(3, 3), 3);
    assert_eq!(ffmin(-7, 7), -7);
    assert_eq!(ffmax(-7, 7), 7);
}
