use crate::vec3::{key_max, key_min, key_order, order_of, Vec3};
use std::cmp::Ordering;
use vstd::prelude::*;

verus! {

/// An axis-aligned box whose ray test is the branch-based minimum / maximum form.
#[derive(Clone, Copy, Debug)]
pub struct Aabb {
    pub minimum: Vec3,
    pub maximum: Vec3,
}

/// An axis-aligned box whose ray test is the reciprocal-direction form.
#[derive(Clone, Copy, Debug)]
pub struct AabbF {
    pub minimum: Vec3,
    pub maximum: Vec3,
}

/// A box, or the marker that there is none.
#[derive(Clone, Copy, Debug)]
pub enum BoundingBox {
    Aabb(Aabb),
    AabbF(AabbF),
    Empty,
}

/// For each axis, whether the ray runs backward along it.
#[derive(Clone, Copy, Debug, PartialEq, Eq, Structural)]
pub struct Flips {
    pub x: bool,
    pub y: bool,
    pub z: bool,
}

/// The two corners of a box.
#[derive(Clone, Copy, Debug, PartialEq, Eq, Structural)]
pub struct Corners {
    pub lo: Vec3,
    pub hi: Vec3,
}

/// What has two corners.
pub trait AABB {
    /// The corners, where there are any.
    spec fn corners(&self) -> Option<Corners>;

    fn min(&self) -> (v: Vec3)
        requires
            self.corners() is Some,
        ensures
            v == self.corners().unwrap().lo,
    ;

    fn max(&self) -> (v: Vec3)
        requires
            self.corners() is Some,
        ensures
            v == self.corners().unwrap().hi,
    ;
}

/// The corners of the smallest box that holds both boxes; an absent box adds nothing.
pub open spec fn union_corners(a: Option<Corners>, b: Option<Corners>) -> Option<Corners> {
    match (a, b) {
        (Some(p), Some(q)) => Some(Corners { lo: p.lo.spec_min(q.lo), hi: p.hi.spec_max(q.hi) }),
        (Some(p), None) => Some(p),
        (None, _) => b,
    }
}

/// The corners that an optional box stands for. An absent box and the empty marker have none.
pub open spec fn corners_of(b: Option<BoundingBox>) -> Option<Corners> {
    match b {
        Some(bb) => bb.corners(),
        None => None,
    }
}

/// Whether the minimum corner is at most the maximum corner on every axis.
pub open spec fn ordered_corners(c: Corners) -> bool {
    &&& c.lo.x <= c.hi.x
    &&& c.lo.y <= c.hi.y
    &&& c.lo.z <= c.hi.z
}

/// The union of two optional boxes, as `expand_to_contain` returns it.
pub open spec fn spec_expand(bb0: Option<BoundingBox>, bb1: Option<BoundingBox>) -> Option<
    BoundingBox,
> {
    match (corners_of(bb0), corners_of(bb1)) {
        (Some(p), Some(q)) => Some(
            BoundingBox::AabbF(AabbF { minimum: p.lo.spec_min(q.lo), maximum: p.hi.spec_max(q.hi) }),
        ),
        (Some(p), None) => Some(BoundingBox::AabbF(AabbF { minimum: p.lo, maximum: p.hi })),
        (None, Some(q)) => bb1,
        (None, None) => Some(BoundingBox::Empty),
    }
}

/// How two optional boxes compare by one component of their minimum corners.
/// A box that is there sorts before one that is absent; two absent boxes do not compare.
pub open spec fn order_by_axis(
    lhs: Option<BoundingBox>,
    rhs: Option<BoundingBox>,
    axis: int,
) -> Option<Ordering> {
    match (corners_of(lhs), corners_of(rhs)) {
        (Some(p), Some(q)) => Some(key_order(p.lo.component(axis), q.lo.component(axis))),
        (Some(_), None) => Some(Ordering::Less),
        (None, Some(_)) => Some(Ordering::Greater),
        (None, None) => None,
    }
}

/// The order the other way round.
pub open spec fn reversed(o: Option<Ordering>) -> Option<Ordering> {
    match o {
        Some(Ordering::Less) => Some(Ordering::Greater),
        Some(Ordering::Greater) => Some(Ordering::Less),
        _ => o,
    }
}

/// The comparators order in full. Any two boxes of which at least one has
/// corners compare; a box compares equal to itself where it has corners;
/// compared the other way round two boxes give the reverse; and where a
/// first box is at or before a second and the second at or before a third,
/// the first is at or before the third.
pub proof fn lemma_order_by_axis_is_total(
    a: Option<BoundingBox>,
    b: Option<BoundingBox>,
    c: Option<BoundingBox>,
    axis: int,
)
    ensures
        order_by_axis(a, b, axis) is None <==> corners_of(a) is None && corners_of(b) is None,
        corners_of(a) is Some ==> order_by_axis(a, a, axis) == Some(Ordering::Equal),
        order_by_axis(b, a, axis) == reversed(order_by_axis(a, b, axis)),
        order_by_axis(a, b, axis) is Some && order_by_axis(a, b, axis) != Some(Ordering::Greater)
            && order_by_axis(b, c, axis) is Some && order_by_axis(b, c, axis) != Some(
            Ordering::Greater,
        ) ==> order_by_axis(a, c, axis) is Some && order_by_axis(a, c, axis) != Some(
            Ordering::Greater,
        ),
{
}

/// Whether an optional box has corners.
pub fn has_corners(b: &Option<BoundingBox>) -> (has: bool)
    ensures
        has == (corners_of(*b) is Some),
{
    match b {
        Some(BoundingBox::Aabb(_)) => true,
        Some(BoundingBox::AabbF(_)) => true,
        _ => false,
    }
}

/// Whether a ray that enters a slab at `t0` and leaves it at `t1` is still
/// inside every slab so far, on an interval that was `t_min` to `t_max`
/// before: the interval that is left must not have collapsed.
pub open spec fn slab_open(t0: i64, t1: i64, t_min: i64, t_max: i64) -> bool {
    key_min(t1, t_max) > key_max(t0, t_min)
}

/// Whether a ray passes through all three slabs, entering slab `a` at
/// `enter`'s component `a` and leaving it at `leave`'s: the interval is
/// narrowed axis by axis, and must never collapse.
pub open spec fn slabs_hit(enter: Vec3, leave: Vec3, t_min: i64, t_max: i64) -> bool {
    &&& slab_open(enter.x, leave.x, t_min, t_max)
    &&& slab_open(
        enter.y,
        leave.y,
        key_max(enter.x, t_min),
        key_min(leave.x, t_max),
    )
    &&& slab_open(
        enter.z,
        leave.z,
        key_max(enter.y, key_max(enter.x, t_min)),
        key_min(leave.y, key_min(leave.x, t_max)),
    )
}

/// The slab test in its minimum / maximum form. `lo` holds, for each axis,
/// the ray parameter at which the ray crosses the plane of the box's minimum,
/// `hi` the one for the plane of its maximum; the ray enters each slab at the
/// smaller of the two and leaves it at the larger.
pub open spec fn min_max_hit(lo: Vec3, hi: Vec3, t_min: i64, t_max: i64) -> bool {
    slabs_hit(lo.spec_min(hi), lo.spec_max(hi), t_min, t_max)
}

/// The slab test in its reciprocal-direction form. Where the ray runs
/// backward along an axis (`backward`'s flag for it), it enters the slab at
/// the plane of the maximum and leaves at that of the minimum; else the
/// other way round.
pub open spec fn inverse_hit(
    lo: Vec3,
    hi: Vec3,
    backward: Flips,
    t_min: i64,
    t_max: i64,
) -> bool {
    slabs_hit(
        Vec3 {
            x: if backward.x { hi.x } else { lo.x },
            y: if backward.y { hi.y } else { lo.y },
            z: if backward.z { hi.z } else { lo.z },
        },
        Vec3 {
            x: if backward.x { lo.x } else { hi.x },
            y: if backward.y { lo.y } else { hi.y },
            z: if backward.z { lo.z } else { hi.z },
        },
        t_min,
        t_max,
    )
}

/// Whether the flags say of each axis what the crossings show: backward
/// where the plane of the maximum is crossed first, forward where the plane
/// of the minimum is.
pub open spec fn flips_agree(lo: Vec3, hi: Vec3, backward: Flips) -> bool {
    &&& if backward.x { hi.x <= lo.x } else { lo.x <= hi.x }
    &&& if backward.y { hi.y <= lo.y } else { lo.y <= hi.y }
    &&& if backward.z { hi.z <= lo.z } else { lo.z <= hi.z }
}

/// The two forms of the slab test agree: for the same crossings and the same
/// interval, with flags that say what the crossings show, the
/// reciprocal-direction form reports a hit exactly where the minimum /
/// maximum form does.
pub proof fn lemma_slab_forms_agree(lo: Vec3, hi: Vec3, backward: Flips, t_min: i64, t_max: i64)
    requires
        flips_agree(lo, hi, backward),
    ensures
        inverse_hit(lo, hi, backward, t_min, t_max) == min_max_hit(lo, hi, t_min, t_max),
{
}

/// A ray that passes the slabs of a box passes the slabs of every box around
/// it: slabs that are entered no later and left no earlier, on each axis,
/// are passed on the same interval.
pub proof fn lemma_slabs_hit_of_wider_box(
    enter: Vec3,
    leave: Vec3,
    wider_enter: Vec3,
    wider_leave: Vec3,
    t_min: i64,
    t_max: i64,
)
    requires
        slabs_hit(enter, leave, t_min, t_max),
        wider_enter.x <= enter.x && wider_enter.y <= enter.y && wider_enter.z <= enter.z,
        leave.x <= wider_leave.x && leave.y <= wider_leave.y && leave.z <= wider_leave.z,
    ensures
        slabs_hit(wider_enter, wider_leave, t_min, t_max),
{
}

/// A ray that passes the slabs on an interval passes them on every interval that holds it.
pub proof fn lemma_slabs_hit_on_wider_interval(
    enter: Vec3,
    leave: Vec3,
    t_min: i64,
    t_max: i64,
    wider_min: i64,
    wider_max: i64,
)
    requires
        slabs_hit(enter, leave, t_min, t_max),
        wider_min <= t_min,
        t_max <= wider_max,
    ensures
        slabs_hit(enter, leave, wider_min, wider_max),
{
}

/// The corners of the smallest box around the points; no points, no box.
pub open spec fn hull(points: Seq<Vec3>) -> Option<Corners>
    decreases points.len(),
{
    if points.len() == 0 {
        None
    } else {
        union_corners(
            hull(points.drop_last()),
            Some(Corners { lo: points.last(), hi: points.last() }),
        )
    }
}

/// The smallest box around the points holds each of them.
pub proof fn lemma_hull_holds_point(points: Seq<Vec3>, i: int)
    requires
        0 <= i < points.len(),
    ensures
        hull(points) is Some,
        contains_box(hull(points).unwrap(), Corners { lo: points[i], hi: points[i] }),
    decreases points.len(),
{
    if i < points.len() - 1 {
        lemma_hull_holds_point(points.drop_last(), i);
    }
}

/// Whether the box with corners `outer` holds the box with corners `inner`.
pub open spec fn contains_box(outer: Corners, inner: Corners) -> bool {
    &&& outer.lo.x <= inner.lo.x
    &&& outer.lo.y <= inner.lo.y
    &&& outer.lo.z <= inner.lo.z
    &&& inner.hi.x <= outer.hi.x
    &&& inner.hi.y <= outer.hi.y
    &&& inner.hi.z <= outer.hi.z
}

/// The union has the corners of the two boxes' union, whichever variants they are.
pub proof fn lemma_expand_corners(a: Option<BoundingBox>, b: Option<BoundingBox>)
    ensures
        spec_expand(a, b) is Some,
        corners_of(spec_expand(a, b)) == union_corners(corners_of(a), corners_of(b)),
{
}

/// Union is associative: joining `a` with the union of `b` and `c` gives the
/// corners that joining the union of `a` and `b` with `c` gives.
pub proof fn lemma_expand_associative(
    a: Option<BoundingBox>,
    b: Option<BoundingBox>,
    c: Option<BoundingBox>,
)
    ensures
        corners_of(spec_expand(a, spec_expand(b, c))) == corners_of(
            spec_expand(spec_expand(a, b), c),
        ),
{
}

/// Union is commutative: the order of the two boxes does not change the corners.
pub proof fn lemma_expand_commutative(a: Option<BoundingBox>, b: Option<BoundingBox>)
    ensures
        corners_of(spec_expand(a, b)) == corners_of(spec_expand(b, a)),
{
}

/// Union is idempotent: a box joined with itself keeps its corners.
pub proof fn lemma_expand_idempotent(a: Option<BoundingBox>)
    ensures
        corners_of(spec_expand(a, a)) == corners_of(a),
{
}

/// An absent box, and the empty marker, are neutral: joined with either, a
/// box keeps its corners, on the left as on the right.
pub proof fn lemma_expand_neutral(a: Option<BoundingBox>)
    ensures
        corners_of(spec_expand(a, None)) == corners_of(a),
        corners_of(spec_expand(None, a)) == corners_of(a),
        corners_of(spec_expand(a, Some(BoundingBox::Empty))) == corners_of(a),
        corners_of(spec_expand(Some(BoundingBox::Empty), a)) == corners_of(a),
{
}

/// The union of two absent boxes is the empty marker.
pub proof fn lemma_expand_of_nothing()
    ensures
        spec_expand(None, None) == Some(BoundingBox::Empty),
        spec_expand(Some(BoundingBox::Empty), Some(BoundingBox::Empty)) == Some(
            BoundingBox::Empty,
        ),
        spec_expand(None, Some(BoundingBox::Empty)) == Some(BoundingBox::Empty),
        spec_expand(Some(BoundingBox::Empty), None) == Some(BoundingBox::Empty),
{
}

/// The union holds both boxes, and keeps minimum below maximum where both boxes do.
pub proof fn lemma_union_holds_both(p: Corners, q: Corners)
    ensures
        contains_box(union_corners(Some(p), Some(q)).unwrap(), p),
        contains_box(union_corners(Some(p), Some(q)).unwrap(), q),
        ordered_corners(p) && ordered_corners(q) ==> ordered_corners(
            union_corners(Some(p), Some(q)).unwrap(),
        ),
{
}

/// A box that holds a second box holds every box that the second holds.
pub proof fn lemma_contains_transitive(a: Corners, b: Corners, c: Corners)
    requires
        contains_box(a, b),
        contains_box(b, c),
    ensures
        contains_box(a, c),
{
}

impl Aabb {
    pub fn new(min: Vec3, max: Vec3) -> (b: Aabb)
        ensures
            b.minimum == min,
            b.maximum == max,
    {
        Aabb { minimum: min, maximum: max }
    }

    /// The box as an optional bounding box: always there.
    pub fn bounding_box(&self) -> (b: Option<BoundingBox>)
        ensures
            b == Some(BoundingBox::Aabb(*self)),
    {
        Some(BoundingBox::Aabb(*self))
    }

    /// The slab test in its minimum / maximum form, on the crossings that
    /// the caller has worked out from the box and the ray: `lo` for the
    /// planes of the minimum, `hi` for those of the maximum.
    pub fn hit(lo: &Vec3, hi: &Vec3, t_min: i64, t_max: i64) -> (h: bool)
        ensures
            h == min_max_hit(*lo, *hi, t_min, t_max),
    {
        let enter = lo.min(hi);
        let leave = lo.max(hi);
        slabs(&enter, &leave, t_min, t_max)
    }
}

/// Narrows the interval slab by slab, and gives up where it collapses.
fn slabs(enter: &Vec3, leave: &Vec3, t_min: i64, t_max: i64) -> (h: bool)
    ensures
        h == slabs_hit(*enter, *leave, t_min, t_max),
{
    let mut near: i64 = t_min;
    let mut far: i64 = t_max;
    let mut a: usize = 0;
    while a < 3
        invariant
            a <= 3,
            a == 0 ==> near == t_min && far == t_max,
            a >= 1 ==> slab_open(enter.x, leave.x, t_min, t_max),
            a == 1 ==> near == key_max(enter.x, t_min) && far == key_min(leave.x, t_max),
            a >= 2 ==> slab_open(
                enter.y,
                leave.y,
                key_max(enter.x, t_min),
                key_min(leave.x, t_max),
            ),
            a == 2 ==> near == key_max(enter.y, key_max(enter.x, t_min)) && far == key_min(
                leave.y,
                key_min(leave.x, t_max),
            ),
            a == 3 ==> slabs_hit(*enter, *leave, t_min, t_max),
        decreases 3 - a,
    {
        let t0: i64 = enter.get(a);
        let t1: i64 = leave.get(a);
        let ghost near_before = near;
        let ghost far_before = far;
        if t0 > near {
            near = t0;
        }
        if t1 < far {
            far = t1;
        }
        assert(near == key_max(t0, near_before));
        assert(far == key_min(t1, far_before));
        if far <= near {
            assert(!slab_open(t0, t1, near_before, far_before));
            return false;
        }
        assert(slab_open(t0, t1, near_before, far_before));
        a += 1;
    }
    true
}

impl AabbF {
    pub fn new(min: Vec3, max: Vec3) -> (b: AabbF)
        ensures
            b.minimum == min,
            b.maximum == max,
    {
        AabbF { minimum: min, maximum: max }
    }

    /// The box as an optional bounding box: always there.
    pub fn bounding_box(&self) -> (b: Option<BoundingBox>)
        ensures
            b == Some(BoundingBox::AabbF(*self)),
    {
        Some(BoundingBox::AabbF(*self))
    }

    /// The slab test in its reciprocal-direction form, on the crossings that
    /// the caller has worked out from the box and the ray, and on the sign
    /// of the reciprocal of the ray's direction on each axis.
    pub fn hit(lo: &Vec3, hi: &Vec3, backward: &Flips, t_min: i64, t_max: i64) -> (h: bool)
        ensures
            h == inverse_hit(*lo, *hi, *backward, t_min, t_max),
    {
        let enter = Vec3 {
            x: if backward.x { hi.x } else { lo.x },
            y: if backward.y { hi.y } else { lo.y },
            z: if backward.z { hi.z } else { lo.z },
        };
        let leave = Vec3 {
            x: if backward.x { lo.x } else { hi.x },
            y: if backward.y { lo.y } else { hi.y },
            z: if backward.z { lo.z } else { hi.z },
        };
        slabs(&enter, &leave, t_min, t_max)
    }
}

impl Default for Aabb {
    fn default() -> (b: Aabb)
        ensures
            b.minimum == Vec3::zero(),
            b.maximum == Vec3::zero(),
    {
        Aabb { minimum: Vec3 { x: 0, y: 0, z: 0 }, maximum: Vec3 { x: 0, y: 0, z: 0 } }
    }
}

impl Default for AabbF {
    fn default() -> (b: AabbF)
        ensures
            b.minimum == Vec3::zero(),
            b.maximum == Vec3::zero(),
    {
        AabbF { minimum: Vec3 { x: 0, y: 0, z: 0 }, maximum: Vec3 { x: 0, y: 0, z: 0 } }
    }
}

impl Default for BoundingBox {
    fn default() -> (b: BoundingBox)
        ensures
            b == BoundingBox::Empty,
    {
        BoundingBox::Empty
    }
}

impl PartialEq for BoundingBox {
    /// Two boxes are equal where they have the same corners, or both none.
    fn eq(&self, other: &BoundingBox) -> (r: bool) {
        match (Self::try_corners(&Some(*self)), Self::try_corners(&Some(*other))) {
            (Some(p), Some(q)) => p.lo == q.lo && p.hi == q.hi,
            (None, None) => true,
            _ => false,
        }
    }
}

impl vstd::std_specs::cmp::PartialEqSpecImpl for BoundingBox {
    open spec fn obeys_eq_spec() -> bool {
        true
    }

    open spec fn eq_spec(&self, other: &BoundingBox) -> bool {
        self.corners() == other.corners()
    }
}

impl AABB for Aabb {
    open spec fn corners(&self) -> Option<Corners> {
        Some(Corners { lo: self.minimum, hi: self.maximum })
    }

    fn min(&self) -> (v: Vec3) {
        self.minimum
    }

    fn max(&self) -> (v: Vec3) {
        self.maximum
    }
}

impl AABB for AabbF {
    open spec fn corners(&self) -> Option<Corners> {
        Some(Corners { lo: self.minimum, hi: self.maximum })
    }

    fn min(&self) -> (v: Vec3) {
        self.minimum
    }

    fn max(&self) -> (v: Vec3) {
        self.maximum
    }
}

impl AABB for BoundingBox {
    open spec fn corners(&self) -> Option<Corners> {
        match *self {
            BoundingBox::Aabb(x) => Some(Corners { lo: x.minimum, hi: x.maximum }),
            BoundingBox::AabbF(x) => Some(Corners { lo: x.minimum, hi: x.maximum }),
            BoundingBox::Empty => None,
        }
    }

    fn min(&self) -> (v: Vec3) {
        match self {
            BoundingBox::Aabb(x) => x.minimum,
            BoundingBox::AabbF(x) => x.minimum,
            BoundingBox::Empty => Vec3 { x: 0, y: 0, z: 0 },
        }
    }

    fn max(&self) -> (v: Vec3) {
        match self {
            BoundingBox::Aabb(x) => x.maximum,
            BoundingBox::AabbF(x) => x.maximum,
            BoundingBox::Empty => Vec3 { x: 0, y: 0, z: 0 },
        }
    }
}

impl BoundingBox {
    /// The box as an optional box: nothing for the empty marker.
    pub open spec fn as_option(self) -> Option<BoundingBox> {
        match self {
            BoundingBox::Empty => None,
            _ => Some(self),
        }
    }

    /// The box in its reciprocal-direction form, or nothing for the empty marker.
    pub fn get(&self) -> (b: Option<AabbF>)
        ensures
            b is Some <==> self.corners() is Some,
            b is Some ==> self.corners() == Some(
                Corners { lo: b.unwrap().minimum, hi: b.unwrap().maximum },
            ),
    {
        match self {
            BoundingBox::Aabb(x) => Some(AabbF { minimum: x.minimum, maximum: x.maximum }),
            BoundingBox::AabbF(x) => Some(*x),
            BoundingBox::Empty => None,
        }
    }

    /// The corners of an optional box, for code that runs.
    pub fn try_corners(b: &Option<BoundingBox>) -> (c: Option<Corners>)
        ensures
            c == corners_of(*b),
    {
        match b {
            Some(BoundingBox::Aabb(x)) => Some(Corners { lo: x.minimum, hi: x.maximum }),
            Some(BoundingBox::AabbF(x)) => Some(Corners { lo: x.minimum, hi: x.maximum }),
            Some(BoundingBox::Empty) => None,
            None => None,
        }
    }

    /// The box itself where it has corners; nothing for the empty marker.
    pub fn bounding_box(&self) -> (b: Option<BoundingBox>)
        ensures
            b == self.as_option(),
            corners_of(b) == self.corners(),
    {
        match self {
            BoundingBox::Aabb(x) => Some(BoundingBox::Aabb(*x)),
            BoundingBox::AabbF(x) => Some(BoundingBox::AabbF(*x)),
            BoundingBox::Empty => None,
        }
    }

    /// The smallest box around the points, or nothing where there are none.
    pub fn around(points: &Vec<Vec3>) -> (b: Option<BoundingBox>)
        ensures
            b is Some <==> points@.len() > 0,
            corners_of(b) == hull(points@),
            b is Some ==> b.unwrap() is AabbF,
    {
        let mut acc: Option<BoundingBox> = None;
        let mut i: usize = 0;
        while i < points.len()
            invariant
                i <= points.len(),
                acc is Some <==> i > 0,
                corners_of(acc) == hull(points@.take(i as int)),
                acc is Some ==> acc.unwrap() is AabbF,
            decreases points.len() - i,
        {
            proof {
                assert(points@.take(i + 1).drop_last() =~= points@.take(i as int));
            }
            let p = points[i];
            let grown = match Self::try_corners(&acc) {
                Some(c) => AabbF { minimum: c.lo.min(&p), maximum: c.hi.max(&p) },
                None => AabbF { minimum: p, maximum: p },
            };
            acc = Some(BoundingBox::AabbF(grown));
            i += 1;
        }
        proof {
            assert(points@.take(i as int) =~= points@);
        }
        acc
    }

    /// Whether the ray passes the box: never for the empty marker, else by
    /// the form of the slab test that the box stands for.
    pub open spec fn spec_hit(
        self,
        lo: Vec3,
        hi: Vec3,
        backward: Flips,
        t_min: i64,
        t_max: i64,
    ) -> bool {
        match self {
            BoundingBox::Aabb(_) => min_max_hit(lo, hi, t_min, t_max),
            BoundingBox::AabbF(_) => inverse_hit(lo, hi, backward, t_min, t_max),
            BoundingBox::Empty => false,
        }
    }

    /// Tests a ray against the box, on the crossings that the caller has
    /// worked out from the box and the ray.
    pub fn hit(&self, lo: &Vec3, hi: &Vec3, backward: &Flips, t_min: i64, t_max: i64) -> (h: bool)
        ensures
            h == self.spec_hit(*lo, *hi, *backward, t_min, t_max),
    {
        match self {
            BoundingBox::Aabb(_) => Aabb::hit(lo, hi, t_min, t_max),
            BoundingBox::AabbF(_) => AabbF::hit(lo, hi, backward, t_min, t_max),
            BoundingBox::Empty => false,
        }
    }

    /// The smallest box that holds both boxes. An absent box, or the empty
    /// marker, adds nothing; where neither has corners the result is the
    /// empty marker.
    pub fn expand_to_contain(bb0: Option<BoundingBox>, bb1: Option<BoundingBox>) -> (r: Option<
        BoundingBox,
    >)
        ensures
            r == spec_expand(bb0, bb1),
            r is Some,
            corners_of(r) == union_corners(corners_of(bb0), corners_of(bb1)),
    {
        let c0 = Self::try_corners(&bb0);
        let c1 = Self::try_corners(&bb1);
        match c0 {
            Some(p) => match c1 {
                Some(q) => Some(
                    BoundingBox::AabbF(AabbF { minimum: p.lo.min(&q.lo), maximum: p.hi.max(&q.hi) }),
                ),
                None => Some(BoundingBox::AabbF(AabbF { minimum: p.lo, maximum: p.hi })),
            },
            None => match c1 {
                Some(_) => bb1,
                None => Some(BoundingBox::Empty),
            },
        }
    }

    /// Orders two optional boxes by the x of their minimum corners.
    pub fn cmp_by_x(lhs: Option<BoundingBox>, rhs: Option<BoundingBox>) -> (o: Option<Ordering>)
        ensures
            o == order_by_axis(lhs, rhs, 0),
    {
        match (Self::try_corners(&lhs), Self::try_corners(&rhs)) {
            (Some(p), Some(q)) => Some(order_of(p.lo.x, q.lo.x)),
            (Some(_), None) => Some(Ordering::Less),
            (None, Some(_)) => Some(Ordering::Greater),
            (None, None) => None,
        }
    }

    /// Orders two optional boxes by the y of their minimum corners.
    pub fn cmp_by_y(lhs: Option<BoundingBox>, rhs: Option<BoundingBox>) -> (o: Option<Ordering>)
        ensures
            o == order_by_axis(lhs, rhs, 1),
    {
        match (Self::try_corners(&lhs), Self::try_corners(&rhs)) {
            (Some(p), Some(q)) => Some(order_of(p.lo.y, q.lo.y)),
            (Some(_), None) => Some(Ordering::Less),
            (None, Some(_)) => Some(Ordering::Greater),
            (None, None) => None,
        }
    }

    /// Orders two optional boxes by the z of their minimum corners.
    pub fn cmp_by_z(lhs: Option<BoundingBox>, rhs: Option<BoundingBox>) -> (o: Option<Ordering>)
        ensures
            o == order_by_axis(lhs, rhs, 2),
    {
        match (Self::try_corners(&lhs), Self::try_corners(&rhs)) {
            (Some(p), Some(q)) => Some(order_of(p.lo.z, q.lo.z)),
            (Some(_), None) => Some(Ordering::Less),
            (None, Some(_)) => Some(Ordering::Greater),
            (None, None) => None,
        }
    }
}

} // verus!
