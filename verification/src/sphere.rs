use crate::vec3::{key_max, key_min};
use vstd::prelude::*;

verus! {

/// An interval of time or of a ray's parameter.
#[derive(Clone, Copy, Debug, PartialEq, Eq, Structural)]
pub struct Span {
    pub from: i64,
    pub to: i64,
}

/// Whether `t` lies inside the interval, the ends left out.
pub open spec fn strictly_between(t: i64, t_min: i64, t_max: i64) -> bool {
    t_min < t < t_max
}

/// Of the two places where a ray crosses a sphere, the one that counts: the
/// nearer one where it lies inside the interval, else the farther one where
/// that does, else none.
pub open spec fn spec_root_in_range(near: i64, far: i64, t_min: i64, t_max: i64) -> Option<i64> {
    if strictly_between(near, t_min, t_max) {
        Some(near)
    } else if strictly_between(far, t_min, t_max) {
        Some(far)
    } else {
        None
    }
}

/// The time during which a moving sphere is there while the shutter is
/// open: from the later of the two beginnings to the earlier of the two
/// ends, or no time at all where that end comes before that beginning.
pub open spec fn spec_active_span(t0: i64, t1: i64, time0: i64, time1: i64) -> Option<Span> {
    if key_min(t1, time1) < key_max(t0, time0) {
        None
    } else {
        Some(Span { from: key_max(t0, time0), to: key_min(t1, time1) })
    }
}

/// Of the two places where a ray crosses a sphere, `near` before `far`, the
/// one that is the hit on the interval from `t_min` to `t_max`, the ends
/// left out.
pub fn root_in_range(near: i64, far: i64, t_min: i64, t_max: i64) -> (t: Option<i64>)
    ensures
        t == spec_root_in_range(near, far, t_min, t_max),
{
    if near < t_max && near > t_min {
        return Some(near);
    }
    if far < t_max && far > t_min {
        return Some(far);
    }
    None
}

/// The time during which a sphere that moves from `time0` to `time1` is
/// there while the shutter is open from `t0` to `t1`.
pub fn active_span(t0: i64, t1: i64, time0: i64, time1: i64) -> (s: Option<Span>)
    ensures
        s == spec_active_span(t0, t1, time0, time1),
{
    let min_time: i64 = if t0 > time0 {
        t0
    } else {
        time0
    };
    let max_time: i64 = if t1 < time1 {
        t1
    } else {
        time1
    };
    if max_time < min_time {
        return None;
    }
    Some(Span { from: min_time, to: max_time })
}

} // verus!
