use crate::aabb::BoundingBox;
use crate::bvh::BvhNode;
use crate::hitlist::HitList;
use crate::hittable::{box_hit_rel, Custom, HitRecord, Hitters};
use crate::witness::witness;
use vstd::prelude::*;

verus! {

/// Likeness goes both ways: where one item is like another, the other is like the first.
pub proof fn lemma_same_symmetric(a: Hitters, b: Hitters)
    requires
        a.same(b),
    ensures
        b.same(a),
    decreases a,
{
    match (a, b) {
        (Hitters::HitList(x), Hitters::HitList(y)) => {
            lemma_same_items_symmetric(x.list@, y.list@);
        },
        (Hitters::BvhNode(x), Hitters::BvhNode(y)) => {
            lemma_same_symmetric(*x.p_left, *y.p_left);
            lemma_same_symmetric(*x.p_right, *y.p_right);
        },
        _ => {},
    }
}

/// Likeness of lists goes both ways.
pub proof fn lemma_same_items_symmetric(a: Seq<Hitters>, b: Seq<Hitters>)
    requires
        HitList::same_items(a, b),
    ensures
        HitList::same_items(b, a),
    decreases a,
{
    assert forall|i: int| 0 <= i < b.len() implies (#[trigger] b[i]).same(a[i]) by {
        lemma_same_symmetric(a[i], b[i]);
    }
}

/// Every item is like itself.
pub proof fn lemma_same_reflexive(a: Hitters)
    ensures
        a.same(a),
    decreases a,
{
    match a {
        Hitters::HitList(x) => {
            lemma_same_items_reflexive(x.list@);
        },
        Hitters::BvhNode(x) => {
            lemma_same_reflexive(*x.p_left);
            lemma_same_reflexive(*x.p_right);
        },
        _ => {},
    }
}

/// Every list is like itself.
pub proof fn lemma_same_items_reflexive(a: Seq<Hitters>)
    ensures
        HitList::same_items(a, a),
    decreases a,
{
    assert forall|i: int| 0 <= i < a.len() implies (#[trigger] a[i]).same(a[i]) by {
        lemma_same_reflexive(a[i]);
    }
}

/// Items that are alike have the same bounding box. A copy made by `clone`
/// is like what it was made from, so asking the copy for its box gives the
/// same box.
pub proof fn lemma_same_bounding_box(a: Hitters, b: Hitters)
    requires
        a.same(b),
    ensures
        a.spec_bounding_box() == b.spec_bounding_box(),
    decreases a,
{
    match (a, b) {
        (Hitters::HitList(x), Hitters::HitList(y)) => {
            lemma_same_fold_boxes(x.list@, y.list@);
        },
        _ => {},
    }
}

/// Lists that are alike have the same union of boxes.
pub proof fn lemma_same_fold_boxes(a: Seq<Hitters>, b: Seq<Hitters>)
    requires
        HitList::same_items(a, b),
    ensures
        HitList::fold_boxes(a) == HitList::fold_boxes(b),
    decreases a,
{
    if a.len() > 0 {
        assert(HitList::same_items(a.drop_last(), b.drop_last())) by {
            assert forall|i: int| 0 <= i < a.drop_last().len() implies (#[trigger] a.drop_last()[i]).same(
                b.drop_last()[i],
            ) by {
                assert(a[i].same(b[i]));
            }
        }
        lemma_same_fold_boxes(a.drop_last(), b.drop_last());
        assert(a[a.len() - 1].same(b[a.len() - 1]));
        lemma_same_bounding_box(a.last(), b.last());
    }
}

/// Items that are alike answer a ray test alike: whatever one may answer,
/// with the same interval and the same two tests, the other may answer too.
/// A copy made by `clone` is like what it was made from, so a ray test of
/// the copy gives the same answers.
pub proof fn lemma_same_hit<
    P,
    B: Fn(BoundingBox, i64, i64) -> Option<HitRecord<P>>,
    H: Fn(Custom, i64, i64) -> Option<HitRecord<P>>,
>(
    a: Hitters,
    b: Hitters,
    t_min: i64,
    t_max: i64,
    box_test: B,
    probe: H,
    res: Option<HitRecord<P>>,
)
    requires
        a.same(b),
    ensures
        a.hit_rel(t_min, t_max, box_test, probe, res) == b.hit_rel(
            t_min,
            t_max,
            box_test,
            probe,
            res,
        ),
{
    lemma_same_symmetric(a, b);
    if a.hit_rel(t_min, t_max, box_test, probe, res) {
        lemma_same_hit_forward(a, b, t_min, t_max, box_test, probe, res);
    }
    if b.hit_rel(t_min, t_max, box_test, probe, res) {
        lemma_same_hit_forward(b, a, t_min, t_max, box_test, probe, res);
    }
}

/// One direction of `lemma_same_hit`.
pub proof fn lemma_same_hit_forward<
    P,
    B: Fn(BoundingBox, i64, i64) -> Option<HitRecord<P>>,
    H: Fn(Custom, i64, i64) -> Option<HitRecord<P>>,
>(
    a: Hitters,
    b: Hitters,
    t_min: i64,
    t_max: i64,
    box_test: B,
    probe: H,
    res: Option<HitRecord<P>>,
)
    requires
        a.same(b),
        a.hit_rel(t_min, t_max, box_test, probe, res),
    ensures
        b.hit_rel(t_min, t_max, box_test, probe, res),
    decreases a,
{
    match (a, b) {
        (Hitters::HitList(x), Hitters::HitList(y)) => {
            let closest = choose|closest: i64| #[trigger]
                witness(closest) && HitList::prefix_rel(
                    x.list@,
                    t_min,
                    t_max,
                    box_test,
                    probe,
                    closest,
                    res,
                );
            lemma_same_prefix(x.list@, y.list@, t_min, t_max, box_test, probe, closest, res);
            assert(witness(closest));
        },
        (Hitters::BvhNode(x), Hitters::BvhNode(y)) => {
            lemma_same_node_hit_forward(x, y, t_min, t_max, box_test, probe, res);
        },
        _ => {},
    }
}

/// Nodes that are alike answer a ray test alike.
pub proof fn lemma_same_node_hit_forward<
    P,
    B: Fn(BoundingBox, i64, i64) -> Option<HitRecord<P>>,
    H: Fn(Custom, i64, i64) -> Option<HitRecord<P>>,
>(
    x: BvhNode,
    y: BvhNode,
    t_min: i64,
    t_max: i64,
    box_test: B,
    probe: H,
    res: Option<HitRecord<P>>,
)
    requires
        x.same(y),
        x.hit_rel(t_min, t_max, box_test, probe, res),
    ensures
        y.hit_rel(t_min, t_max, box_test, probe, res),
    decreases x,
{
    let entry = choose|entry: Option<HitRecord<P>>|
        {
            &&& #[trigger] box_hit_rel(x.bb, t_min, t_max, box_test, entry)
            &&& match entry {
                None => res is None,
                Some(_) => exists|l: Option<HitRecord<P>>, r: Option<HitRecord<P>>|
                    {
                        &&& #[trigger] witness((l, r))
                        &&& (*x.p_left).hit_rel(t_min, t_max, box_test, probe, l)
                        &&& (*x.p_right).hit_rel(t_min, t_max, box_test, probe, r)
                        &&& res == crate::hittable::nearer(l, r)
                    },
            }
        };
    assert(box_hit_rel(y.bb, t_min, t_max, box_test, entry));
    if entry is Some {
        let (l, r) = choose|l: Option<HitRecord<P>>, r: Option<HitRecord<P>>|
            {
                &&& #[trigger] witness((l, r))
                &&& (*x.p_left).hit_rel(t_min, t_max, box_test, probe, l)
                &&& (*x.p_right).hit_rel(t_min, t_max, box_test, probe, r)
                &&& res == crate::hittable::nearer(l, r)
            };
        lemma_same_hit_forward(*x.p_left, *y.p_left, t_min, t_max, box_test, probe, l);
        lemma_same_hit_forward(*x.p_right, *y.p_right, t_min, t_max, box_test, probe, r);
        assert(witness((l, r)));
    }
}

/// Lists that are alike may end a scan in the same state.
pub proof fn lemma_same_prefix<
    P,
    B: Fn(BoundingBox, i64, i64) -> Option<HitRecord<P>>,
    H: Fn(Custom, i64, i64) -> Option<HitRecord<P>>,
>(
    a: Seq<Hitters>,
    b: Seq<Hitters>,
    t_min: i64,
    t_max: i64,
    box_test: B,
    probe: H,
    closest: i64,
    best: Option<HitRecord<P>>,
)
    requires
        HitList::same_items(a, b),
        HitList::prefix_rel(a, t_min, t_max, box_test, probe, closest, best),
    ensures
        HitList::prefix_rel(b, t_min, t_max, box_test, probe, closest, best),
    decreases a,
{
    if a.len() > 0 {
        let (c, k, answer) = choose|c: i64, k: Option<HitRecord<P>>, answer: Option<HitRecord<P>>|
            {
                &&& #[trigger] witness((c, k, answer))
                &&& HitList::prefix_rel(a.drop_last(), t_min, t_max, box_test, probe, c, k)
                &&& a.last().hit_rel(t_min, c, box_test, probe, answer)
                &&& closest == crate::hitlist::closest_after(c, answer)
                &&& best == crate::hitlist::best_after(k, answer)
            };
        assert(HitList::same_items(a.drop_last(), b.drop_last())) by {
            assert forall|i: int| 0 <= i < a.drop_last().len() implies (#[trigger] a.drop_last()[i]).same(
                b.drop_last()[i],
            ) by {
                assert(a[i].same(b[i]));
            }
        }
        lemma_same_prefix(a.drop_last(), b.drop_last(), t_min, t_max, box_test, probe, c, k);
        assert(a[a.len() - 1].same(b[a.len() - 1]));
        lemma_same_hit_forward(a.last(), b.last(), t_min, c, box_test, probe, answer);
        assert(witness((c, k, answer)));
    }
}

} // verus!
