use crate::scalar::ZERO;
use crate::sphere::Span;
use crate::vec3::{key_max, key_min};
use vstd::prelude::*;

verus! {

/// The part of a ray that runs inside a medium. The ray enters the boundary
/// at `enter` and leaves it at `leave`; of that stretch only what lies
/// between `tmin` and `tmax` counts, and nothing that lies behind the ray's
/// origin. Where nothing is left there is no part.
pub open spec fn spec_span_inside(enter: i64, leave: i64, tmin: i64, tmax: i64) -> Option<Span> {
    if key_max(enter, tmin) >= key_min(leave, tmax) {
        None
    } else {
        Some(Span { from: key_max(key_max(enter, tmin), ZERO), to: key_min(leave, tmax) })
    }
}

/// The part of a ray that runs inside a medium whose boundary it enters at
/// `enter` and leaves at `leave`, on the interval from `tmin` to `tmax`.
pub fn span_inside(enter: i64, leave: i64, tmin: i64, tmax: i64) -> (s: Option<Span>)
    ensures
        s == spec_span_inside(enter, leave, tmin, tmax),
{
    let mut t0: i64 = enter;
    let mut t1: i64 = leave;
    if t0 < tmin {
        t0 = tmin;
    }
    if t1 > tmax {
        t1 = tmax;
    }
    if t0 >= t1 {
        return None;
    }
    if t0 < ZERO {
        t0 = ZERO;
    }
    Some(Span { from: t0, to: t1 })
}

/// Whether a ray that would travel `hit_distance` through the medium before
/// it scatters does so before it has left: the stretch inside the boundary
/// is `distance_inside` long.
pub fn scatters_inside(hit_distance: i64, distance_inside: i64) -> (inside: bool)
    ensures
        inside == (hit_distance < distance_inside),
{
    hit_distance < distance_inside
}

} // verus!
