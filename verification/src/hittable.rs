use crate::aabb::BoundingBox;
use crate::scalar::ZERO;
use crate::vec3::Vec3;
use crate::bvh::BvhNode;
use crate::hitlist::HitList;
use crate::witness::witness;
use vstd::prelude::*;

verus! {

/// What a ray test reports: the ray parameter of the intersection, as a key,
/// and whatever the caller wants to know of the surface there.
#[derive(Clone, Debug)]
pub struct HitRecord<P> {
    pub t: i64,
    pub payload: P,
}

/// Geometry that the caller intersects itself: the identifier under which the
/// caller knows it, and the box that bounds it, if it has one.
#[derive(Clone, Copy, Debug)]
pub struct Custom {
    pub id: usize,
    pub bb: Option<BoundingBox>,
}

/// Geometry that no ray ever hits.
#[derive(Clone, Copy, Debug)]
pub struct NoBatter;

/// Everything that can stand in a scene.
pub enum Hitters {
    HitList(HitList),
    BoundingBox(BoundingBox),
    BvhNode(BvhNode),
    Custom(Custom),
    Nothing(NoBatter),
}

/// The side of a surface that a ray meets: whether it is the front, and the
/// normal that points against the ray.
#[derive(Clone, Copy, Debug, PartialEq, Eq, Structural)]
pub struct Facing {
    pub front_face: bool,
    pub normal: Vec3,
}

/// The side of a surface that a ray meets. The ray comes from the front
/// where its direction and the outward normal have a product `toward` below
/// zero; the normal is then the outward one, and else the inward one, so
/// that it always points against the ray.
pub fn set_face_normal(toward: i64, outward_normal: Vec3, inward_normal: Vec3) -> (f: Facing)
    ensures
        f.front_face == (toward < ZERO),
        f.normal == if toward < ZERO {
            outward_normal
        } else {
            inward_normal
        },
{
    let front_face = toward < ZERO;
    Facing {
        front_face,
        normal: if front_face {
            outward_normal
        } else {
            inward_normal
        },
    }
}

/// The nearer of two optional hits. Of two hits the left one wins only where
/// its parameter is strictly smaller.
pub open spec fn nearer<P>(l: Option<HitRecord<P>>, r: Option<HitRecord<P>>) -> Option<
    HitRecord<P>,
> {
    match (l, r) {
        (Some(a), Some(b)) => if a.t < b.t {
            l
        } else {
            r
        },
        (Some(_), None) => l,
        (None, _) => r,
    }
}

/// What the slab test `box_test` may answer for a box on the interval from
/// `t_min` to `t_max`. The empty marker is never hit and never asked.
pub open spec fn box_hit_rel<P, B: Fn(BoundingBox, i64, i64) -> Option<HitRecord<P>>>(
    bb: BoundingBox,
    t_min: i64,
    t_max: i64,
    box_test: B,
    res: Option<HitRecord<P>>,
) -> bool {
    match bb {
        BoundingBox::Empty => res is None,
        _ => call_ensures(box_test, (bb, t_min, t_max), res),
    }
}

impl<P> HitRecord<P> {
    pub fn new(t: i64, payload: P) -> (rec: HitRecord<P>)
        ensures
            rec.t == t,
            rec.payload == payload,
    {
        HitRecord { t, payload }
    }
}

impl Custom {
    pub fn new(id: usize, bb: Option<BoundingBox>) -> (c: Custom)
        ensures
            c.id == id,
            c.bb == bb,
    {
        Custom { id, bb }
    }
}

impl Clone for Hitters {
    /// A copy that is alike all the way down.
    fn clone(&self) -> (res: Hitters)
        ensures
            self.same(res),
        decreases self,
    {
        match self {
            Hitters::HitList(hl) => Hitters::HitList(hl.clone()),
            Hitters::BoundingBox(b) => Hitters::BoundingBox(*b),
            Hitters::BvhNode(n) => Hitters::BvhNode(n.clone()),
            Hitters::Custom(c) => Hitters::Custom(*c),
            Hitters::Nothing(_) => Hitters::Nothing(NoBatter),
        }
    }
}

impl Default for NoBatter {
    fn default() -> NoBatter {
        NoBatter
    }
}

impl Hitters {
    /// The box that bounds the item, if it has one.
    pub open spec fn spec_bounding_box(self) -> Option<BoundingBox>
        decreases self,
    {
        match self {
            Hitters::HitList(hl) => HitList::fold_boxes(hl.list@),
            Hitters::BoundingBox(b) => b.as_option(),
            Hitters::BvhNode(n) => Some(n.bb),
            Hitters::Custom(c) => c.bb,
            Hitters::Nothing(_) => None,
        }
    }

    /// Whether `res` is an answer that a ray test of the item may give, when
    /// boxes are tested by `box_test` and the caller's geometry by `probe`.
    pub open spec fn hit_rel<
        P,
        B: Fn(BoundingBox, i64, i64) -> Option<HitRecord<P>>,
        H: Fn(Custom, i64, i64) -> Option<HitRecord<P>>,
    >(self, t_min: i64, t_max: i64, box_test: B, probe: H, res: Option<HitRecord<P>>) -> bool
        decreases self,
    {
        match self {
            Hitters::HitList(hl) => exists|closest: i64| #[trigger]
                witness(closest) && HitList::prefix_rel(
                    hl.list@,
                    t_min,
                    t_max,
                    box_test,
                    probe,
                    closest,
                    res,
                ),
            Hitters::BoundingBox(b) => box_hit_rel(b, t_min, t_max, box_test, res),
            Hitters::BvhNode(n) => n.hit_rel(t_min, t_max, box_test, probe, res),
            Hitters::Custom(c) => call_ensures(probe, (c, t_min, t_max), res),
            Hitters::Nothing(_) => res is None,
        }
    }

    /// Whether two items are alike all the way down: the same variants, the
    /// same boxes and identifiers, and lists that are alike item by item.
    pub open spec fn same(self, other: Hitters) -> bool
        decreases self,
    {
        match (self, other) {
            (Hitters::HitList(a), Hitters::HitList(b)) => HitList::same_items(a.list@, b.list@),
            (Hitters::BoundingBox(a), Hitters::BoundingBox(b)) => a == b,
            (Hitters::BvhNode(a), Hitters::BvhNode(b)) => a.same(b),
            (Hitters::Custom(a), Hitters::Custom(b)) => a == b,
            (Hitters::Nothing(_), Hitters::Nothing(_)) => true,
            _ => false,
        }
    }

    /// The box that bounds the item: of a list the union of its items' boxes,
    /// of a hierarchy the box it was built with, of the caller's geometry
    /// the box it came with.
    pub fn bounding_box(&self) -> (b: Option<BoundingBox>)
        ensures
            b == self.spec_bounding_box(),
        decreases self,
    {
        match self {
            Hitters::HitList(hl) => hl.bounding_box(),
            Hitters::BoundingBox(b) => b.bounding_box(),
            Hitters::BvhNode(n) => n.bounding_box(),
            Hitters::Custom(c) => c.bb,
            Hitters::Nothing(_) => None,
        }
    }

    /// Tests a ray against the item. The ray itself stays with the caller:
    /// `box_test` answers for a box and `probe` for a piece of the caller's
    /// geometry, each on the interval handed to it.
    pub fn hit<
        P,
        B: Fn(BoundingBox, i64, i64) -> Option<HitRecord<P>>,
        H: Fn(Custom, i64, i64) -> Option<HitRecord<P>>,
    >(&self, t_min: i64, t_max: i64, box_test: &B, probe: &H) -> (res: Option<HitRecord<P>>)
        requires
            forall|b: BoundingBox, lo: i64, hi: i64| call_requires(*box_test, (b, lo, hi)),
            forall|c: Custom, lo: i64, hi: i64| call_requires(*probe, (c, lo, hi)),
        ensures
            self.hit_rel(t_min, t_max, *box_test, *probe, res),
        decreases self,
    {
        match self {
            Hitters::HitList(hl) => {
                let res = hl.hit(t_min, t_max, box_test, probe);
                proof {
                    let closest = choose|closest: i64| #[trigger]
                        witness(closest) && HitList::prefix_rel(
                            hl.list@,
                            t_min,
                            t_max,
                            *box_test,
                            *probe,
                            closest,
                            res,
                        );
                    assert(witness(closest));
                    assert(HitList::prefix_rel(
                        hl.list@,
                        t_min,
                        t_max,
                        *box_test,
                        *probe,
                        closest,
                        res,
                    ));
                }
                res
            },
            Hitters::BoundingBox(b) => match b {
                BoundingBox::Empty => None,
                _ => box_test(*b, t_min, t_max),
            },
            Hitters::BvhNode(n) => n.hit(t_min, t_max, box_test, probe),
            Hitters::Custom(c) => probe(*c, t_min, t_max),
            Hitters::Nothing(_) => None,
        }
    }
}

} // verus!
