use crate::aabb::{spec_expand, BoundingBox};
use crate::hittable::{Custom, HitRecord, Hitters};
use crate::witness::witness;
use vstd::prelude::*;

verus! {

/// An ordered list of items, hit where its nearest item is hit.
pub struct HitList {
    pub list: Vec<Hitters>,
}

/// The upper end of the interval after an item has answered: the parameter of
/// its hit, or the old end where it was missed.
pub open spec fn closest_after<P>(closest: i64, answer: Option<HitRecord<P>>) -> i64 {
    match answer {
        Some(rec) => rec.t,
        None => closest,
    }
}

/// The hit kept after an item has answered: its hit, or the one kept before.
pub open spec fn best_after<P>(best: Option<HitRecord<P>>, answer: Option<HitRecord<P>>) -> Option<
    HitRecord<P>,
> {
    match answer {
        Some(_) => answer,
        None => best,
    }
}

impl HitList {
    /// Whether two lists are as long as each other and alike item by item.
    pub open spec fn same_items(a: Seq<Hitters>, b: Seq<Hitters>) -> bool
        decreases a,
    {
        &&& a.len() == b.len()
        &&& forall|i: int| 0 <= i < a.len() ==> (#[trigger] a[i]).same(b[i])
    }

    /// The union of the items' boxes, folded from the front. No item, no box.
    pub open spec fn fold_boxes(items: Seq<Hitters>) -> Option<BoundingBox>
        decreases items,
    {
        if items.len() == 0 {
            None
        } else {
            spec_expand(Self::fold_boxes(items.drop_last()), items.last().spec_bounding_box())
        }
    }

    /// Whether testing `items` in order, each only up to the nearest hit so
    /// far, may end with the interval's upper end at `closest` and with
    /// `best` as the hit that is kept.
    pub open spec fn prefix_rel<
        P,
        B: Fn(BoundingBox, i64, i64) -> Option<HitRecord<P>>,
        H: Fn(Custom, i64, i64) -> Option<HitRecord<P>>,
    >(
        items: Seq<Hitters>,
        t_min: i64,
        t_max: i64,
        box_test: B,
        probe: H,
        closest: i64,
        best: Option<HitRecord<P>>,
    ) -> bool
        decreases items,
    {
        if items.len() == 0 {
            closest == t_max && best is None
        } else {
            exists|c: i64, b: Option<HitRecord<P>>, answer: Option<HitRecord<P>>|
                {
                    &&& #[trigger] witness((c, b, answer))
                    &&& Self::prefix_rel(items.drop_last(), t_min, t_max, box_test, probe, c, b)
                    &&& items.last().hit_rel(t_min, c, box_test, probe, answer)
                    &&& closest == closest_after(c, answer)
                    &&& best == best_after(b, answer)
                }
        }
    }

    /// Whether `res` is an answer that a ray test of the whole list may give.
    pub open spec fn scan_rel<
        P,
        B: Fn(BoundingBox, i64, i64) -> Option<HitRecord<P>>,
        H: Fn(Custom, i64, i64) -> Option<HitRecord<P>>,
    >(
        items: Seq<Hitters>,
        t_min: i64,
        t_max: i64,
        box_test: B,
        probe: H,
        res: Option<HitRecord<P>>,
    ) -> bool {
        exists|closest: i64| #[trigger]
            witness(closest) && Self::prefix_rel(
                items,
                t_min,
                t_max,
                box_test,
                probe,
                closest,
                res,
            )
    }

    pub fn new() -> (hl: HitList)
        ensures
            hl.list@ == Seq::<Hitters>::empty(),
    {
        HitList { list: Vec::new() }
    }

    pub fn from_hittable(object: Hitters) -> (hl: HitList)
        ensures
            hl.list@ == seq![object],
    {
        let mut hl = HitList { list: Vec::new() };
        hl.add(object);
        hl
    }

    pub fn clear(&mut self)
        ensures
            final(self).list@ == Seq::<Hitters>::empty(),
    {
        self.list.clear()
    }

    pub fn add(&mut self, object: Hitters)
        ensures
            final(self).list@ == old(self).list@.push(object),
    {
        self.list.push(object)
    }

    /// The box that holds every item's box. An empty list has none.
    pub fn bounding_box(&self) -> (b: Option<BoundingBox>)
        ensures
            b == Self::fold_boxes(self.list@),
        decreases self,
    {
        let mut temp_rec: Option<BoundingBox> = None;
        let mut i: usize = 0;
        while i < self.list.len()
            invariant
                i <= self.list.len(),
                temp_rec == Self::fold_boxes(self.list@.take(i as int)),
            decreases self.list.len() - i,
        {
            let rec = self.list[i].bounding_box();
            proof {
                assert(self.list@.take(i + 1).drop_last() =~= self.list@.take(i as int));
            }
            temp_rec = BoundingBox::expand_to_contain(temp_rec, rec);
            i += 1;
        }
        proof {
            assert(self.list@.take(i as int) =~= self.list@);
        }
        temp_rec
    }

    /// Tests the items in order, each only up to the nearest hit found so
    /// far, and returns the last hit found: the nearest one.
    pub fn hit<
        P,
        B: Fn(BoundingBox, i64, i64) -> Option<HitRecord<P>>,
        H: Fn(Custom, i64, i64) -> Option<HitRecord<P>>,
    >(&self, t_min: i64, t_max: i64, box_test: &B, probe: &H) -> (res: Option<HitRecord<P>>)
        requires
            forall|b: BoundingBox, lo: i64, hi: i64| call_requires(*box_test, (b, lo, hi)),
            forall|c: Custom, lo: i64, hi: i64| call_requires(*probe, (c, lo, hi)),
        ensures
            Self::scan_rel(self.list@, t_min, t_max, *box_test, *probe, res),
        decreases self,
    {
        let mut temp_rec: Option<HitRecord<P>> = None;
        let mut closest_so_far: i64 = t_max;
        let mut i: usize = 0;
        while i < self.list.len()
            invariant
                i <= self.list.len(),
                forall|b: BoundingBox, lo: i64, hi: i64| call_requires(*box_test, (b, lo, hi)),
                forall|c: Custom, lo: i64, hi: i64| call_requires(*probe, (c, lo, hi)),
                Self::prefix_rel(
                    self.list@.take(i as int),
                    t_min,
                    t_max,
                    *box_test,
                    *probe,
                    closest_so_far,
                    temp_rec,
                ),
            decreases self.list.len() - i,
        {
            let answer = self.list[i].hit(t_min, closest_so_far, box_test, probe);
            let ghost before = temp_rec;
            let ghost end = closest_so_far;
            proof {
                assert(self.list@.take(i + 1).drop_last() =~= self.list@.take(i as int));
                assert(self.list@.take(i + 1).last() == self.list@[i as int]);
            }
            match answer {
                Some(rec) => {
                    closest_so_far = rec.t;
                    temp_rec = Some(rec);
                },
                None => {},
            }
            proof {
                assert(witness((end, before, answer)));
                assert(closest_so_far == closest_after(end, answer));
                assert(temp_rec == best_after(before, answer));
                assert(self.list@.take(i + 1).last().hit_rel(
                    t_min,
                    end,
                    *box_test,
                    *probe,
                    answer,
                ));
                assert(Self::prefix_rel(
                    self.list@.take(i + 1).drop_last(),
                    t_min,
                    t_max,
                    *box_test,
                    *probe,
                    end,
                    before,
                ));
            }
            i += 1;
        }
        proof {
            assert(self.list@.take(i as int) =~= self.list@);
            assert(witness(closest_so_far));
        }
        temp_rec
    }
}

impl Clone for HitList {
    /// A list of copies, in the same order.
    fn clone(&self) -> (res: HitList)
        ensures
            HitList::same_items(self.list@, res.list@),
        decreases self,
    {
        let mut list: Vec<Hitters> = Vec::new();
        let mut i: usize = 0;
        while i < self.list.len()
            invariant
                i <= self.list.len(),
                list@.len() == i,
                forall|k: int| 0 <= k < i ==> (#[trigger] self.list@[k]).same(list@[k]),
            decreases self.list.len() - i,
        {
            let item = self.list[i].clone();
            list.push(item);
            i += 1;
        }
        HitList { list }
    }
}

impl Default for HitList {
    fn default() -> (hl: HitList)
        ensures
            hl.list@ == Seq::<Hitters>::empty(),
    {
        HitList { list: Vec::new() }
    }
}

} // verus!
