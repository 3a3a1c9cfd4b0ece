use crate::scalar::ONE;
use crate::vec3::{key_max, key_min, Color, Vec3};
use crate::witness::witness;
use rand::Rng;
use vstd::prelude::*;

verus! {

/// Draws a number below `n` from the thread's random generator, by
/// `rand::Rng::gen_range` on `rand::thread_rng()` with the range from zero
/// up to, and without, `n`. The contract claims only what holds of every
/// draw: the number lies in that range. An empty range makes the call panic,
/// so `n` must not be zero. Two calls may differ. The generator is seeded
/// from the operating system when a thread first uses it; where the system
/// gives no seed the call panics, and no argument can prevent that.
#[verifier::external_body]
pub(crate) fn random_below(n: usize) -> (r: usize)
    requires
        n > 0,
    ensures
        r < n,
{
    rand::thread_rng().gen_range(0..n)
}

/// The smaller of two keys; the second where they are equal.
pub fn ffmin(a: i64, b: i64) -> (m: i64)
    ensures
        m == key_min(a, b),
{
    if a < b {
        a
    } else {
        b
    }
}

/// The larger of two keys; the second where they are equal.
pub fn ffmax(a: i64, b: i64) -> (m: i64)
    ensures
        m == key_max(a, b),
{
    if a > b {
        a
    } else {
        b
    }
}

/// The value that `thing` holds, or the default of its type where it holds none.
pub fn optional_arg<T: Default>(thing: Option<T>) -> (r: T)
    ensures
        thing is Some ==> r == thing.unwrap(),
        thing is None ==> T::default.ensures((), r),
{
    thing.unwrap_or_default()
}

/// What became of a ray at one step of its path.
pub enum Bounce<C, R> {
    /// It hit a surface that emits `emitted` and scatters it on as `ray`,
    /// weakened by `attenuation`.
    Scattered { emitted: C, attenuation: C, ray: R },
    /// It hit a surface that emits `emitted` and scatters nothing.
    Absorbed { emitted: C },
    /// It hit nothing, and sees `background`.
    Missed { background: C },
}

/// Whether following `ray` for at most `depth` scatterings may collect
/// `emitts` and `attens`, one pair to a step: what a surface emits with how
/// it weakens the light that comes back; for the last step, what was seen
/// there with `ambient`. Only while `depth` is above zero is the ray
/// followed on.
pub open spec fn path_rel<C, R, T: Fn(R, bool) -> Bounce<C, R>>(
    trace: T,
    ray: R,
    depth: int,
    ambient: C,
    emitts: Seq<C>,
    attens: Seq<C>,
) -> bool
    decreases emitts.len(),
{
    exists|b: Bounce<C, R>|
        {
            &&& #[trigger] witness(b)
            &&& call_ensures(trace, (ray, depth > 0), b)
            &&& emitts.len() >= 1
            &&& emitts.len() == attens.len()
            &&& match b {
                Bounce::Scattered { emitted, attenuation, ray: next } => if depth > 0 {
                    &&& emitts[0] == emitted
                    &&& attens[0] == attenuation
                    &&& path_rel(
                        trace,
                        next,
                        depth - 1,
                        ambient,
                        emitts.drop_first(),
                        attens.drop_first(),
                    )
                } else {
                    emitts == seq![emitted] && attens == seq![ambient]
                },
                Bounce::Absorbed { emitted } => emitts == seq![emitted] && attens == seq![ambient],
                Bounce::Missed { background } => emitts == seq![background] && attens == seq![
                    ambient,
                ],
            }
        }
}

/// Whether folding the pairs from the last to the first may give `acc`:
/// the fold starts at `ambient`, and each pair blends its attenuation, what
/// was folded behind it, and its emission.
pub open spec fn fold_rel<C, M: Fn(C, C, C) -> C>(
    blend: M,
    emitts: Seq<C>,
    attens: Seq<C>,
    ambient: C,
    acc: C,
) -> bool
    decreases emitts.len(),
{
    if emitts.len() == 0 {
        acc == ambient
    } else {
        exists|inner: C|
            {
                &&& #[trigger] witness(inner)
                &&& fold_rel(blend, emitts.drop_first(), attens.drop_first(), ambient, inner)
                &&& call_ensures(blend, (attens[0], inner, emitts[0]), acc)
            }
    }
}

/// Whether `res` is a colour that the integrator may return for `ray`.
pub open spec fn color_rel<C, R, T: Fn(R, bool) -> Bounce<C, R>, M: Fn(C, C, C) -> C>(
    ray: R,
    trace: T,
    blend: M,
    depth: int,
    ambient: C,
    res: C,
) -> bool {
    exists|emitts: Seq<C>, attens: Seq<C>|
        {
            &&& #[trigger] witness((emitts, attens))
            &&& emitts.len() <= depth + 1
            &&& path_rel(trace, ray, depth, ambient, emitts, attens)
            &&& fold_rel(blend, emitts, attens, ambient, res)
        }
}

/// The colour that the plain recursion gives: what the surface emits,
/// blended with its attenuation and the colour of the scattered ray at one
/// depth less; at a surface that scatters nothing, at depth zero and where
/// nothing is hit, what is seen there blended with `ambient` for both.
pub open spec fn color_rec<C, R>(
    tr: spec_fn(R, bool) -> Bounce<C, R>,
    bl: spec_fn(C, C, C) -> C,
    ray: R,
    depth: int,
    ambient: C,
) -> C
    decreases depth,
{
    match tr(ray, depth > 0) {
        Bounce::Scattered { emitted, attenuation, ray: next } => if depth > 0 {
            bl(attenuation, color_rec(tr, bl, next, depth - 1, ambient), emitted)
        } else {
            bl(ambient, ambient, emitted)
        },
        Bounce::Absorbed { emitted } => bl(ambient, ambient, emitted),
        Bounce::Missed { background } => bl(ambient, ambient, background),
    }
}

/// The integrator agrees with the plain recursion. Where tracing and
/// blending are functions, the colour that `color` returns, built by
/// collecting the pairs forward and folding them backward, is what the
/// recursion gives that adds each emission to the attenuated colour of the
/// scattered ray.
pub proof fn lemma_color_is_recursion<
    C,
    R,
    T: Fn(R, bool) -> Bounce<C, R>,
    M: Fn(C, C, C) -> C,
>(
    ray: R,
    trace: T,
    blend: M,
    tr: spec_fn(R, bool) -> Bounce<C, R>,
    bl: spec_fn(C, C, C) -> C,
    depth: int,
    ambient: C,
    res: C,
)
    requires
        forall|r: R, go: bool, b: Bounce<C, R>| #[trigger]
            call_ensures(trace, (r, go), b) ==> b == tr(r, go),
        forall|a: C, k: C, e: C, c: C| #[trigger]
            call_ensures(blend, (a, k, e), c) ==> c == bl(a, k, e),
        color_rel(ray, trace, blend, depth, ambient, res),
    ensures
        res == color_rec(tr, bl, ray, depth, ambient),
{
    let (emitts, attens) = choose|emitts: Seq<C>, attens: Seq<C>|
        {
            &&& #[trigger] witness((emitts, attens))
            &&& emitts.len() <= depth + 1
            &&& path_rel(trace, ray, depth, ambient, emitts, attens)
            &&& fold_rel(blend, emitts, attens, ambient, res)
        };
    lemma_fold_of_path(ray, trace, blend, tr, bl, depth, ambient, emitts, attens, res);
}

/// The fold of a path's pairs is the recursion's colour.
pub proof fn lemma_fold_of_path<C, R, T: Fn(R, bool) -> Bounce<C, R>, M: Fn(C, C, C) -> C>(
    ray: R,
    trace: T,
    blend: M,
    tr: spec_fn(R, bool) -> Bounce<C, R>,
    bl: spec_fn(C, C, C) -> C,
    depth: int,
    ambient: C,
    emitts: Seq<C>,
    attens: Seq<C>,
    res: C,
)
    requires
        forall|r: R, go: bool, b: Bounce<C, R>| #[trigger]
            call_ensures(trace, (r, go), b) ==> b == tr(r, go),
        forall|a: C, k: C, e: C, c: C| #[trigger]
            call_ensures(blend, (a, k, e), c) ==> c == bl(a, k, e),
        path_rel(trace, ray, depth, ambient, emitts, attens),
        fold_rel(blend, emitts, attens, ambient, res),
    ensures
        res == color_rec(tr, bl, ray, depth, ambient),
    decreases emitts.len(),
{
    let b = choose|b: Bounce<C, R>|
        {
            &&& #[trigger] witness(b)
            &&& call_ensures(trace, (ray, depth > 0), b)
            &&& emitts.len() >= 1
            &&& emitts.len() == attens.len()
            &&& match b {
                Bounce::Scattered { emitted, attenuation, ray: next } => if depth > 0 {
                    &&& emitts[0] == emitted
                    &&& attens[0] == attenuation
                    &&& path_rel(
                        trace,
                        next,
                        depth - 1,
                        ambient,
                        emitts.drop_first(),
                        attens.drop_first(),
                    )
                } else {
                    emitts == seq![emitted] && attens == seq![ambient]
                },
                Bounce::Absorbed { emitted } => emitts == seq![emitted] && attens == seq![ambient],
                Bounce::Missed { background } => emitts == seq![background] && attens == seq![
                    ambient,
                ],
            }
        };
    assert(b == tr(ray, depth > 0));
    let inner = choose|inner: C|
        {
            &&& #[trigger] witness(inner)
            &&& fold_rel(blend, emitts.drop_first(), attens.drop_first(), ambient, inner)
            &&& call_ensures(blend, (attens[0], inner, emitts[0]), res)
        };
    assert(res == bl(attens[0], inner, emitts[0]));
    match b {
        Bounce::Scattered { emitted, attenuation, ray: next } => {
            if depth > 0 {
                lemma_fold_of_path(
                    next,
                    trace,
                    blend,
                    tr,
                    bl,
                    depth - 1,
                    ambient,
                    emitts.drop_first(),
                    attens.drop_first(),
                    inner,
                );
            } else {
                assert(emitts.drop_first().len() == 0);
            }
        },
        _ => {
            assert(emitts.drop_first().len() == 0);
        },
    }
}

/// Whether every colour that `b` names has the property `inv`.
pub open spec fn bounce_keeps<C, R>(b: Bounce<C, R>, inv: spec_fn(C) -> bool) -> bool {
    match b {
        Bounce::Scattered { emitted, attenuation, ray } => inv(emitted) && inv(attenuation),
        Bounce::Absorbed { emitted } => inv(emitted),
        Bounce::Missed { background } => inv(background),
    }
}

/// The integrator makes nothing that its parts do not make. Let `inv` be a
/// property of colours, such as that no channel is negative. Where the
/// ambient light has it, every emission, attenuation and background has it,
/// and blending keeps it, the colour of every ray at every depth has it.
pub proof fn lemma_color_keeps_invariant<C, R>(
    tr: spec_fn(R, bool) -> Bounce<C, R>,
    bl: spec_fn(C, C, C) -> C,
    inv: spec_fn(C) -> bool,
    ray: R,
    depth: int,
    ambient: C,
)
    requires
        inv(ambient),
        forall|r: R, go: bool| bounce_keeps(#[trigger] tr(r, go), inv),
        forall|a: C, k: C, e: C| inv(a) && inv(k) && inv(e) ==> inv(#[trigger] bl(a, k, e)),
    ensures
        inv(color_rec(tr, bl, ray, depth, ambient)),
    decreases depth,
{
    let b = tr(ray, depth > 0);
    assert(bounce_keeps(b, inv));
    match b {
        Bounce::Scattered { emitted, attenuation, ray: next } => {
            if depth > 0 {
                lemma_color_keeps_invariant(tr, bl, inv, next, depth - 1, ambient);
            }
        },
        _ => {},
    }
}

/// The colour that a ray brings back. The ray is followed from surface to
/// surface, for at most `depth` scatterings: `trace` says what became of it
/// at each step, and is told whether the ray may still be scattered. The
/// emission and the attenuation of each step are collected; the last step
/// contributes `interior_light` as its attenuation. The pairs are then
/// folded from the last to the first, starting at `interior_light`, by
/// `blend`, which takes an attenuation, the colour folded so far, and an
/// emission.
pub fn color<C: Copy, R: Copy, T: Fn(R, bool) -> Bounce<C, R>, M: Fn(C, C, C) -> C>(
    ray: R,
    trace: &T,
    blend: &M,
    depth: i32,
    interior_light: C,
) -> (res: C)
    requires
        depth >= 0,
        forall|r: R, go: bool| call_requires(*trace, (r, go)),
        forall|a: C, k: C, e: C| call_requires(*blend, (a, k, e)),
    ensures
        color_rel(ray, *trace, *blend, depth as int, interior_light, res),
{
    let mut emitts: Vec<C> = Vec::new();
    let mut attenuations: Vec<C> = Vec::new();
    let mut tmpray = ray;
    let mut left: i32 = depth;
    let mut done = false;
    while !done
        invariant
            0 <= left <= depth,
            emitts@.len() == attenuations@.len(),
            forall|r: R, go: bool| call_requires(*trace, (r, go)),
            !done ==> emitts@.len() == depth - left,
            !done ==> forall|te: Seq<C>, ta: Seq<C>| #[trigger]
                path_rel(*trace, tmpray, left as int, interior_light, te, ta) ==> path_rel(
                    *trace,
                    ray,
                    depth as int,
                    interior_light,
                    emitts@ + te,
                    attenuations@ + ta,
                ),
            done ==> emitts@.len() <= depth + 1 && path_rel(
                *trace,
                ray,
                depth as int,
                interior_light,
                emitts@,
                attenuations@,
            ),
        decreases left + (if done { 0int } else { 1int }),
    {
        let ghost at = tmpray;
        let ghost before_e = emitts@;
        let ghost before_a = attenuations@;
        let bounce = trace(tmpray, left > 0);
        let ghost b = bounce;
        match bounce {
            Bounce::Scattered { emitted, attenuation, ray: next } => {
                if left > 0 {
                    emitts.push(emitted);
                    attenuations.push(attenuation);
                    tmpray = next;
                    left = left - 1;
                    proof {
                        assert forall|te: Seq<C>, ta: Seq<C>| #[trigger]
                            path_rel(
                                *trace,
                                tmpray,
                                left as int,
                                interior_light,
                                te,
                                ta,
                            ) implies path_rel(
                            *trace,
                            ray,
                            depth as int,
                            interior_light,
                            emitts@ + te,
                            attenuations@ + ta,
                        ) by {
                            let e1 = seq![emitted] + te;
                            let a1 = seq![attenuation] + ta;
                            assert(e1.drop_first() =~= te);
                            assert(a1.drop_first() =~= ta);
                            lemma_path_lengths(*trace, tmpray, left as int, interior_light, te, ta);
                            assert(witness(b));
                            assert(path_rel(*trace, at, left + 1, interior_light, e1, a1));
                            assert(before_e + e1 =~= emitts@ + te);
                            assert(before_a + a1 =~= attenuations@ + ta);
                        }
                    }
                } else {
                    emitts.push(emitted);
                    attenuations.push(interior_light);
                    done = true;
                    proof {
                        let e1 = seq![emitted];
                        let a1 = seq![interior_light];
                        assert(witness(b));
                        assert(path_rel(*trace, at, left as int, interior_light, e1, a1));
                        assert(before_e + e1 =~= emitts@);
                        assert(before_a + a1 =~= attenuations@);
                    }
                }
            },
            Bounce::Absorbed { emitted } => {
                emitts.push(emitted);
                attenuations.push(interior_light);
                done = true;
                proof {
                    let e1 = seq![emitted];
                    let a1 = seq![interior_light];
                    assert(witness(b));
                    assert(path_rel(*trace, at, left as int, interior_light, e1, a1));
                    assert(before_e + e1 =~= emitts@);
                    assert(before_a + a1 =~= attenuations@);
                }
            },
            Bounce::Missed { background } => {
                emitts.push(background);
                attenuations.push(interior_light);
                done = true;
                proof {
                    let e1 = seq![background];
                    let a1 = seq![interior_light];
                    assert(witness(b));
                    assert(path_rel(*trace, at, left as int, interior_light, e1, a1));
                    assert(before_e + e1 =~= emitts@);
                    assert(before_a + a1 =~= attenuations@);
                }
            },
        }
    }
    let mut color = interior_light;
    let mut i: usize = emitts.len();
    proof {
        assert(emitts@.skip(i as int).len() == 0);
    }
    while i > 0
        invariant
            i <= emitts@.len(),
            emitts@.len() == attenuations@.len(),
            forall|a: C, k: C, e: C| call_requires(*blend, (a, k, e)),
            fold_rel(
                *blend,
                emitts@.skip(i as int),
                attenuations@.skip(i as int),
                interior_light,
                color,
            ),
        decreases i,
    {
        i -= 1;
        let ghost inner = color;
        color = blend(attenuations[i], color, emitts[i]);
        proof {
            assert(emitts@.skip(i as int).drop_first() =~= emitts@.skip(i + 1));
            assert(attenuations@.skip(i as int).drop_first() =~= attenuations@.skip(i + 1));
            assert(witness(inner));
        }
    }
    proof {
        assert(emitts@.skip(0) =~= emitts@);
        assert(attenuations@.skip(0) =~= attenuations@);
        assert(witness((emitts@, attenuations@)));
    }
    color
}

/// A path names as many attenuations as emissions, and at least one of each.
pub proof fn lemma_path_lengths<C, R, T: Fn(R, bool) -> Bounce<C, R>>(
    trace: T,
    ray: R,
    depth: int,
    ambient: C,
    emitts: Seq<C>,
    attens: Seq<C>,
)
    requires
        path_rel(trace, ray, depth, ambient, emitts, attens),
    ensures
        emitts.len() == attens.len(),
        emitts.len() >= 1,
{
}

/// The colour of a ray in a scene that is lit from within: every path ends
/// in white.
pub fn color_use_interior_lighting<R: Copy, T: Fn(R, bool) -> Bounce<Color, R>, M: Fn(
    Color,
    Color,
    Color,
) -> Color>(ray: R, trace: &T, blend: &M, depth: i32) -> (res: Color)
    requires
        depth >= 0,
        forall|r: R, go: bool| call_requires(*trace, (r, go)),
        forall|a: Color, k: Color, e: Color| call_requires(*blend, (a, k, e)),
    ensures
        color_rel(ray, *trace, *blend, depth as int, Vec3 { x: ONE, y: ONE, z: ONE }, res),
{
    let interior_light = Vec3 { x: ONE, y: ONE, z: ONE };
    color(ray, trace, blend, depth, interior_light)
}

/// The colour of a ray in a scene that is lit by its lights alone: every
/// path ends in black.
pub fn color_use_explicit_lighting<R: Copy, T: Fn(R, bool) -> Bounce<Color, R>, M: Fn(
    Color,
    Color,
    Color,
) -> Color>(ray: R, trace: &T, blend: &M, depth: i32) -> (res: Color)
    requires
        depth >= 0,
        forall|r: R, go: bool| call_requires(*trace, (r, go)),
        forall|a: Color, k: Color, e: Color| call_requires(*blend, (a, k, e)),
    ensures
        color_rel(ray, *trace, *blend, depth as int, Vec3::zero(), res),
{
    let interior_light = Vec3 { x: 0, y: 0, z: 0 };
    color(ray, trace, blend, depth, interior_light)
}

/// The colour of the first surface alone: its attenuation where it
/// scatters, black where it does not, the background where nothing is hit.
pub fn color_just_attenuation<R: Copy, T: Fn(R, bool) -> Bounce<Color, R>>(ray: R, trace: &T) -> (res:
    Color)
    requires
        forall|r: R, go: bool| call_requires(*trace, (r, go)),
    ensures
        exists|b: Bounce<Color, R>| #[trigger]
            witness(b) && call_ensures(*trace, (ray, true), b) && res == match b {
                Bounce::Scattered { emitted, attenuation, ray: next } => attenuation,
                Bounce::Absorbed { emitted } => Vec3::zero(),
                Bounce::Missed { background } => background,
            },
{
    let bounce = trace(ray, true);
    proof {
        assert(witness(bounce));
    }
    match bounce {
        Bounce::Scattered { emitted, attenuation, ray: next } => attenuation,
        Bounce::Absorbed { emitted } => Vec3 { x: 0, y: 0, z: 0 },
        Bounce::Missed { background } => background,
    }
}

/// Whether adding up the colours of `count` rays, each cast by `cast` and
/// followed by the integrator, may give `sum`: the sum starts at `zero`, and
/// `accumulate` adds a ray's colour to it.
pub open spec fn pixel_rel<
    C,
    R,
    K: Fn() -> R,
    T: Fn(R, bool) -> Bounce<C, R>,
    M: Fn(C, C, C) -> C,
    A: Fn(C, C) -> C,
>(
    cast: K,
    trace: T,
    blend: M,
    accumulate: A,
    count: int,
    depth: int,
    ambient: C,
    zero: C,
    sum: C,
) -> bool
    decreases count,
{
    if count <= 0 {
        sum == zero
    } else {
        exists|before: C, ray: R, seen: C|
            {
                &&& #[trigger] witness((before, ray, seen))
                &&& pixel_rel(cast, trace, blend, accumulate, count - 1, depth, ambient, zero, before)
                &&& call_ensures(cast, (), ray)
                &&& color_rel(ray, trace, blend, depth, ambient, seen)
                &&& call_ensures(accumulate, (before, seen), sum)
            }
    }
}

/// The sum of the colours of the samples of one pixel: `samples_per_pixel`
/// rays are cast by `cast`, each is followed by the integrator for at most
/// `depth` scatterings, and the colours that come back are added up by
/// `accumulate`, starting from `zero`. The caller takes the mean and corrects it.
pub fn sample_pixel<
    C: Copy,
    R: Copy,
    K: Fn() -> R,
    T: Fn(R, bool) -> Bounce<C, R>,
    M: Fn(C, C, C) -> C,
    A: Fn(C, C) -> C,
>(
    cast: &K,
    trace: &T,
    blend: &M,
    accumulate: &A,
    samples_per_pixel: i32,
    depth: i32,
    interior_light: C,
    zero: C,
) -> (sum: C)
    requires
        depth >= 0,
        call_requires(*cast, ()),
        forall|r: R, go: bool| call_requires(*trace, (r, go)),
        forall|a: C, k: C, e: C| call_requires(*blend, (a, k, e)),
        forall|a: C, b: C| call_requires(*accumulate, (a, b)),
    ensures
        pixel_rel(
            *cast,
            *trace,
            *blend,
            *accumulate,
            samples_per_pixel as int,
            depth as int,
            interior_light,
            zero,
            sum,
        ),
{
    let mut pixel_color = zero;
    let mut n: i32 = 0;
    while n < samples_per_pixel
        invariant
            depth >= 0,
            0 <= n,
            n <= samples_per_pixel || (samples_per_pixel < 0 && n == 0),
            n == 0 ==> pixel_color == zero,
            call_requires(*cast, ()),
            forall|r: R, go: bool| call_requires(*trace, (r, go)),
            forall|a: C, k: C, e: C| call_requires(*blend, (a, k, e)),
            forall|a: C, b: C| call_requires(*accumulate, (a, b)),
            pixel_rel(
                *cast,
                *trace,
                *blend,
                *accumulate,
                n as int,
                depth as int,
                interior_light,
                zero,
                pixel_color,
            ),
        decreases samples_per_pixel - n,
    {
        let ghost before = pixel_color;
        let r = cast();
        let seen = color(r, trace, blend, depth, interior_light);
        pixel_color = accumulate(pixel_color, seen);
        proof {
            assert(witness((before, r, seen)));
        }
        n += 1;
    }
    pixel_color
}

/// Whether progress is to be reported after pixel number `n` of
/// `num_pixels`: after every thousandth part of them, and after the last.
/// With fewer than a thousand pixels there is no thousandth part to count by.
pub fn progress_due(n: i32, num_pixels: i32) -> (due: bool)
    requires
        n >= 0,
        num_pixels >= 1000,
    ensures
        due == ((n as int) % (num_pixels as int / 1000) == 0 || n == num_pixels - 1),
{
    n % (num_pixels / 1000) == 0 || n == num_pixels - 1
}

/// A channel value cut to the range of a byte.
pub open spec fn clamp_channel(v: int) -> int {
    if v < 0 {
        0
    } else if v > 255 {
        255
    } else {
        v
    }
}

/// The decimal digits of a number from 0 to 255, in ASCII, without leading zeros.
pub open spec fn decimal(n: int) -> Seq<u8> {
    if n < 10 {
        seq![(48 + n) as u8]
    } else if n < 100 {
        seq![(48 + n / 10) as u8, (48 + n % 10) as u8]
    } else {
        seq![(48 + n / 100) as u8, (48 + (n / 10) % 10) as u8, (48 + n % 10) as u8]
    }
}

/// One pixel's line of a plain pixmap: the three channels in decimal, cut to
/// the range of a byte, with a space between them and a line feed behind.
pub open spec fn pixel_line(r: int, g: int, b: int) -> Seq<u8> {
    decimal(clamp_channel(r)) + seq![32u8] + decimal(clamp_channel(g)) + seq![32u8] + decimal(
        clamp_channel(b),
    ) + seq![10u8]
}

/// Appends the decimal digits of a channel, cut to the range of a byte.
fn write_channel(stream: &mut Vec<u8>, v: i32)
    ensures
        final(stream)@ == old(stream)@ + decimal(clamp_channel(v as int)),
{
    let n: u8 = if v < 0 {
        0
    } else if v > 255 {
        255
    } else {
        v as u8
    };
    if n >= 100 {
        stream.push(48 + n / 100);
        stream.push(48 + (n / 10) % 10);
        stream.push(48 + n % 10);
    } else if n >= 10 {
        stream.push(48 + n / 10);
        stream.push(48 + n % 10);
    } else {
        stream.push(48 + n);
    }
    proof {
        assert(stream@ =~= old(stream)@ + decimal(clamp_channel(v as int)));
    }
}

/// Appends one pixel to a plain pixmap: red, green and blue, each cut to the
/// range from 0 to 255 and written in decimal, on a line of their own.
pub fn write_color(stream: &mut Vec<u8>, r: i32, g: i32, b: i32)
    ensures
        final(stream)@ == old(stream)@ + pixel_line(r as int, g as int, b as int),
{
    write_channel(stream, r);
    stream.push(32);
    write_channel(stream, g);
    stream.push(32);
    write_channel(stream, b);
    stream.push(10);
    proof {
        assert(stream@ =~= old(stream)@ + pixel_line(r as int, g as int, b as int));
    }
}

} // verus!
