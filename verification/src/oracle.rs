use crate::aabb::BoundingBox;
use crate::bvh::BvhNode;
use crate::hitlist::{best_after, closest_after, HitList};
use crate::hittable::{box_hit_rel, nearer, Custom, HitRecord, Hitters};
use crate::witness::witness;
use vstd::prelude::*;

verus! {

/// Whether the test `f` is a function: whatever it answers for an argument
/// and an interval is what `oracle` gives for them.
pub open spec fn answers_as<X, P, F: Fn(X, i64, i64) -> Option<HitRecord<P>>>(
    f: F,
    oracle: spec_fn(X, i64, i64) -> Option<HitRecord<P>>,
) -> bool {
    forall|x: X, lo: i64, hi: i64, r: Option<HitRecord<P>>| #[trigger]
        call_ensures(f, (x, lo, hi), r) ==> r == oracle(x, lo, hi)
}

/// Where a scan of a list stands: the upper end of the interval, and the hit kept.
pub struct ScanState<P> {
    pub closest: i64,
    pub best: Option<HitRecord<P>>,
}

/// The answer for a box, when the slab test is the function `bo`.
pub open spec fn box_value<P>(
    bb: BoundingBox,
    t_min: i64,
    t_max: i64,
    bo: spec_fn(BoundingBox, i64, i64) -> Option<HitRecord<P>>,
) -> Option<HitRecord<P>> {
    match bb {
        BoundingBox::Empty => None,
        _ => bo(bb, t_min, t_max),
    }
}

impl Hitters {
    /// The answer of a ray test of the item, when the slab test is the
    /// function `bo` and the test of the caller's geometry is the function `po`.
    pub open spec fn hit_value<P>(
        self,
        t_min: i64,
        t_max: i64,
        bo: spec_fn(BoundingBox, i64, i64) -> Option<HitRecord<P>>,
        po: spec_fn(Custom, i64, i64) -> Option<HitRecord<P>>,
    ) -> Option<HitRecord<P>>
        decreases self,
    {
        match self {
            Hitters::HitList(hl) => HitList::scan_value(hl.list@, t_min, t_max, bo, po).best,
            Hitters::BoundingBox(b) => box_value(b, t_min, t_max, bo),
            Hitters::BvhNode(n) => n.hit_value(t_min, t_max, bo, po),
            Hitters::Custom(c) => po(c, t_min, t_max),
            Hitters::Nothing(_) => None,
        }
    }
}

impl HitList {
    /// Where a scan of `items` ends: each item is tested up to the nearest
    /// hit before it, and a hit replaces the one kept.
    pub open spec fn scan_value<P>(
        items: Seq<Hitters>,
        t_min: i64,
        t_max: i64,
        bo: spec_fn(BoundingBox, i64, i64) -> Option<HitRecord<P>>,
        po: spec_fn(Custom, i64, i64) -> Option<HitRecord<P>>,
    ) -> ScanState<P>
        decreases items,
    {
        if items.len() == 0 {
            ScanState { closest: t_max, best: None }
        } else {
            let before = Self::scan_value(items.drop_last(), t_min, t_max, bo, po);
            let answer = items.last().hit_value(t_min, before.closest, bo, po);
            ScanState {
                closest: closest_after(before.closest, answer),
                best: best_after(before.best, answer),
            }
        }
    }
}

impl BvhNode {
    /// The answer of a ray test of the node: none where its box is missed,
    /// else the nearer of its children's answers.
    pub open spec fn hit_value<P>(
        self,
        t_min: i64,
        t_max: i64,
        bo: spec_fn(BoundingBox, i64, i64) -> Option<HitRecord<P>>,
        po: spec_fn(Custom, i64, i64) -> Option<HitRecord<P>>,
    ) -> Option<HitRecord<P>>
        decreases self,
    {
        if box_value(self.bb, t_min, t_max, bo) is None {
            None
        } else {
            nearer(
                (*self.p_left).hit_value(t_min, t_max, bo, po),
                (*self.p_right).hit_value(t_min, t_max, bo, po),
            )
        }
    }
}

/// Where the two tests are functions, a ray test has one answer: whatever
/// `hit` returns is what `hit_value` gives for those functions.
pub proof fn lemma_hit_is_value<
    P,
    B: Fn(BoundingBox, i64, i64) -> Option<HitRecord<P>>,
    H: Fn(Custom, i64, i64) -> Option<HitRecord<P>>,
>(
    h: Hitters,
    t_min: i64,
    t_max: i64,
    box_test: B,
    probe: H,
    bo: spec_fn(BoundingBox, i64, i64) -> Option<HitRecord<P>>,
    po: spec_fn(Custom, i64, i64) -> Option<HitRecord<P>>,
    res: Option<HitRecord<P>>,
)
    requires
        answers_as(box_test, bo),
        answers_as(probe, po),
        h.hit_rel(t_min, t_max, box_test, probe, res),
    ensures
        res == h.hit_value(t_min, t_max, bo, po),
    decreases h,
{
    match h {
        Hitters::HitList(hl) => {
            let closest = choose|closest: i64| #[trigger]
                witness(closest) && HitList::prefix_rel(
                    hl.list@,
                    t_min,
                    t_max,
                    box_test,
                    probe,
                    closest,
                    res,
                );
            lemma_scan_is_value(hl.list@, t_min, t_max, box_test, probe, bo, po, closest, res);
        },
        Hitters::BvhNode(n) => {
            lemma_node_hit_is_value(n, t_min, t_max, box_test, probe, bo, po, res);
        },
        _ => {},
    }
}

/// Where the two tests are functions, a ray test of a node has one answer.
pub proof fn lemma_node_hit_is_value<
    P,
    B: Fn(BoundingBox, i64, i64) -> Option<HitRecord<P>>,
    H: Fn(Custom, i64, i64) -> Option<HitRecord<P>>,
>(
    n: BvhNode,
    t_min: i64,
    t_max: i64,
    box_test: B,
    probe: H,
    bo: spec_fn(BoundingBox, i64, i64) -> Option<HitRecord<P>>,
    po: spec_fn(Custom, i64, i64) -> Option<HitRecord<P>>,
    res: Option<HitRecord<P>>,
)
    requires
        answers_as(box_test, bo),
        answers_as(probe, po),
        n.hit_rel(t_min, t_max, box_test, probe, res),
    ensures
        res == n.hit_value(t_min, t_max, bo, po),
    decreases n,
{
    let entry = choose|entry: Option<HitRecord<P>>|
        {
            &&& #[trigger] box_hit_rel(n.bb, t_min, t_max, box_test, entry)
            &&& match entry {
                None => res is None,
                Some(_) => exists|l: Option<HitRecord<P>>, r: Option<HitRecord<P>>|
                    {
                        &&& #[trigger] witness((l, r))
                        &&& (*n.p_left).hit_rel(t_min, t_max, box_test, probe, l)
                        &&& (*n.p_right).hit_rel(t_min, t_max, box_test, probe, r)
                        &&& res == nearer(l, r)
                    },
            }
        };
    assert(entry == box_value(n.bb, t_min, t_max, bo));
    if entry is Some {
        let (l, r) = choose|l: Option<HitRecord<P>>, r: Option<HitRecord<P>>|
            {
                &&& #[trigger] witness((l, r))
                &&& (*n.p_left).hit_rel(t_min, t_max, box_test, probe, l)
                &&& (*n.p_right).hit_rel(t_min, t_max, box_test, probe, r)
                &&& res == nearer(l, r)
            };
        lemma_hit_is_value(*n.p_left, t_min, t_max, box_test, probe, bo, po, l);
        lemma_hit_is_value(*n.p_right, t_min, t_max, box_test, probe, bo, po, r);
    }
}

/// Where the two tests are functions, a scan of a list ends in one state.
pub proof fn lemma_scan_is_value<
    P,
    B: Fn(BoundingBox, i64, i64) -> Option<HitRecord<P>>,
    H: Fn(Custom, i64, i64) -> Option<HitRecord<P>>,
>(
    items: Seq<Hitters>,
    t_min: i64,
    t_max: i64,
    box_test: B,
    probe: H,
    bo: spec_fn(BoundingBox, i64, i64) -> Option<HitRecord<P>>,
    po: spec_fn(Custom, i64, i64) -> Option<HitRecord<P>>,
    closest: i64,
    best: Option<HitRecord<P>>,
)
    requires
        answers_as(box_test, bo),
        answers_as(probe, po),
        HitList::prefix_rel(items, t_min, t_max, box_test, probe, closest, best),
    ensures
        HitList::scan_value(items, t_min, t_max, bo, po) == (ScanState { closest, best }),
    decreases items,
{
    if items.len() > 0 {
        let (c, k, answer) = choose|c: i64, k: Option<HitRecord<P>>, answer: Option<HitRecord<P>>|
            {
                &&& #[trigger] witness((c, k, answer))
                &&& HitList::prefix_rel(items.drop_last(), t_min, t_max, box_test, probe, c, k)
                &&& items.last().hit_rel(t_min, c, box_test, probe, answer)
                &&& closest == closest_after(c, answer)
                &&& best == best_after(k, answer)
            };
        lemma_scan_is_value(items.drop_last(), t_min, t_max, box_test, probe, bo, po, c, k);
        lemma_hit_is_value(items.last(), t_min, c, box_test, probe, bo, po, answer);
    }
}

/// Items that are alike have the same answer.
pub proof fn lemma_same_hit_value<P>(
    a: Hitters,
    b: Hitters,
    t_min: i64,
    t_max: i64,
    bo: spec_fn(BoundingBox, i64, i64) -> Option<HitRecord<P>>,
    po: spec_fn(Custom, i64, i64) -> Option<HitRecord<P>>,
)
    requires
        a.same(b),
    ensures
        a.hit_value(t_min, t_max, bo, po) == b.hit_value(t_min, t_max, bo, po),
    decreases a,
{
    match (a, b) {
        (Hitters::HitList(x), Hitters::HitList(y)) => {
            lemma_same_scan_value(x.list@, y.list@, t_min, t_max, bo, po);
        },
        (Hitters::BvhNode(x), Hitters::BvhNode(y)) => {
            lemma_same_hit_value(*x.p_left, *y.p_left, t_min, t_max, bo, po);
            lemma_same_hit_value(*x.p_right, *y.p_right, t_min, t_max, bo, po);
        },
        _ => {},
    }
}

/// Lists that are alike end a scan in the same state.
pub proof fn lemma_same_scan_value<P>(
    a: Seq<Hitters>,
    b: Seq<Hitters>,
    t_min: i64,
    t_max: i64,
    bo: spec_fn(BoundingBox, i64, i64) -> Option<HitRecord<P>>,
    po: spec_fn(Custom, i64, i64) -> Option<HitRecord<P>>,
)
    requires
        HitList::same_items(a, b),
    ensures
        HitList::scan_value(a, t_min, t_max, bo, po) == HitList::scan_value(b, t_min, t_max, bo, po),
    decreases a,
{
    if a.len() > 0 {
        assert(HitList::same_items(a.drop_last(), b.drop_last())) by {
            assert forall|i: int| 0 <= i < a.drop_last().len() implies (#[trigger] a.drop_last()[i]).same(
                b.drop_last()[i],
            ) by {
                assert(a[i].same(b[i]));
            }
        }
        lemma_same_scan_value(a.drop_last(), b.drop_last(), t_min, t_max, bo, po);
        assert(a[a.len() - 1].same(b[a.len() - 1]));
        let before = HitList::scan_value(a.drop_last(), t_min, t_max, bo, po);
        lemma_same_hit_value(a.last(), b.last(), t_min, before.closest, bo, po);
    }
}

} // verus!
