use crate::aabb::{
    contains_box, corners_of, lemma_contains_transitive, lemma_expand_corners,
    lemma_union_holds_both, union_corners, BoundingBox, AABB,
};
use crate::bvh::{all_bounded, bounded, grow, sorted_on, BvhNode};
use crate::hitlist::HitList;
use crate::hittable::{nearer, Custom, HitRecord, Hitters};
use crate::oracle::{box_value, lemma_same_hit_value, ScanState};
use crate::witness::witness;
use vstd::prelude::*;
use vstd::seq_lib::*;

verus! {

/// Whether the ray hits the item `x` of `items`, and `x` has a box.
pub open spec fn hit_in<P>(
    items: Seq<Hitters>,
    x: Hitters,
    t_min: i64,
    t_max: i64,
    bo: spec_fn(BoundingBox, i64, i64) -> Option<HitRecord<P>>,
    po: spec_fn(Custom, i64, i64) -> Option<HitRecord<P>>,
) -> bool {
    &&& items.contains(x)
    &&& bounded(x)
    &&& x.hit_value(t_min, t_max, bo, po) is Some
}

/// Whether the slab test lets the ray into the box.
pub open spec fn opens<P>(
    bb: BoundingBox,
    t_min: i64,
    t_max: i64,
    bo: spec_fn(BoundingBox, i64, i64) -> Option<HitRecord<P>>,
) -> bool {
    bo(bb, t_min, t_max) is Some
}

/// Whether the slab test `bo` is sound for `items`: on the interval from
/// `t_min` to `t_max` it lets the ray into every box that holds the box of
/// an item that the ray hits there.
pub open spec fn slab_sound<P>(
    items: Seq<Hitters>,
    t_min: i64,
    t_max: i64,
    bo: spec_fn(BoundingBox, i64, i64) -> Option<HitRecord<P>>,
    po: spec_fn(Custom, i64, i64) -> Option<HitRecord<P>>,
) -> bool {
    forall|bb: BoundingBox, x: Hitters|
        {
            &&& #[trigger] hit_in(items, x, t_min, t_max, bo, po)
            &&& bb.corners() is Some
            &&& contains_box(bb.corners().unwrap(), corners_of(x.spec_bounding_box()).unwrap())
        } ==> #[trigger] opens(bb, t_min, t_max, bo)
}

/// Whether `res` is the nearest hit among `items`: no item is hit nearer,
/// an item that is hit makes it a hit, and where it is a hit it is the hit
/// of one of the items.
pub open spec fn nearest_of<P>(
    res: Option<HitRecord<P>>,
    items: Seq<Hitters>,
    t_min: i64,
    t_max: i64,
    bo: spec_fn(BoundingBox, i64, i64) -> Option<HitRecord<P>>,
    po: spec_fn(Custom, i64, i64) -> Option<HitRecord<P>>,
) -> bool {
    &&& forall|x: Hitters| #[trigger]
        items.contains(x) && x.hit_value(t_min, t_max, bo, po) is Some ==> res is Some
            && res.unwrap().t <= x.hit_value(t_min, t_max, bo, po).unwrap().t
    &&& res is Some ==> exists|x: Hitters| #[trigger]
        items.contains(x) && res == x.hit_value(t_min, t_max, bo, po)
}

/// The box of a node that was empty before it was built has the corners of
/// the union of its items' boxes: what the list of those items gives as its
/// own bounding box.
pub proof fn lemma_root_box_is_union(items: Seq<Hitters>)
    ensures
        grow(BoundingBox::Empty, items).corners() == corners_of(HitList::fold_boxes(items)),
    decreases items.len(),
{
    if items.len() > 0 {
        lemma_root_box_is_union(items.drop_last());
        lemma_expand_corners(
            grow(BoundingBox::Empty, items.drop_last()).as_option(),
            items.last().spec_bounding_box(),
        );
        lemma_expand_corners(
            HitList::fold_boxes(items.drop_last()),
            items.last().spec_bounding_box(),
        );
    }
}

/// A node's box after building has the corners of the union of the box it
/// had before and of its items' boxes.
pub proof fn lemma_grown_box_is_union(bb: BoundingBox, items: Seq<Hitters>)
    ensures
        grow(bb, items).corners() == union_corners(
            bb.corners(),
            corners_of(HitList::fold_boxes(items)),
        ),
    decreases items.len(),
{
    if items.len() > 0 {
        lemma_grown_box_is_union(bb, items.drop_last());
        lemma_expand_corners(
            grow(bb, items.drop_last()).as_option(),
            items.last().spec_bounding_box(),
        );
        lemma_expand_corners(
            HitList::fold_boxes(items.drop_last()),
            items.last().spec_bounding_box(),
        );
    }
}

/// The box of a built node holds the box of each of its items.
pub proof fn lemma_grown_box_holds_item(bb: BoundingBox, items: Seq<Hitters>, x: Hitters)
    requires
        items.contains(x),
        bounded(x),
    ensures
        grow(bb, items).corners() is Some,
        contains_box(
            grow(bb, items).corners().unwrap(),
            corners_of(x.spec_bounding_box()).unwrap(),
        ),
    decreases items.len(),
{
    let prev = grow(bb, items.drop_last());
    let last = items.last();
    lemma_expand_corners(prev.as_option(), last.spec_bounding_box());
    let i = choose|i: int| 0 <= i < items.len() && items[i] == x;
    if i == items.len() - 1 {
        let q = corners_of(x.spec_bounding_box()).unwrap();
        if prev.corners() is Some {
            lemma_union_holds_both(prev.corners().unwrap(), q);
        }
    } else {
        assert(items.drop_last()[i] == x);
        assert(items.drop_last().contains(x));
        lemma_grown_box_holds_item(bb, items.drop_last(), x);
        let p = prev.corners().unwrap();
        if corners_of(last.spec_bounding_box()) is Some {
            let q = corners_of(last.spec_bounding_box()).unwrap();
            lemma_union_holds_both(p, q);
            lemma_contains_transitive(
                union_corners(Some(p), Some(q)).unwrap(),
                p,
                corners_of(x.spec_bounding_box()).unwrap(),
            );
        }
    }
}

/// Two sequences with the same items, each as often, hold the same items.
pub proof fn lemma_same_members(a: Seq<Hitters>, b: Seq<Hitters>, x: Hitters)
    requires
        a.to_multiset() == b.to_multiset(),
    ensures
        a.contains(x) == b.contains(x),
{
    to_multiset_contains(a, x);
    to_multiset_contains(b, x);
}

/// A slab test that is sound for a list is sound for every part of it.
pub proof fn lemma_slab_sound_for_part<P>(
    items: Seq<Hitters>,
    part: Seq<Hitters>,
    t_min: i64,
    t_max: i64,
    bo: spec_fn(BoundingBox, i64, i64) -> Option<HitRecord<P>>,
    po: spec_fn(Custom, i64, i64) -> Option<HitRecord<P>>,
)
    requires
        slab_sound(items, t_min, t_max, bo, po),
        forall|x: Hitters| part.contains(x) ==> items.contains(x),
    ensures
        slab_sound(part, t_min, t_max, bo, po),
{
    assert forall|bb: BoundingBox, x: Hitters|
        {
            &&& #[trigger] hit_in(part, x, t_min, t_max, bo, po)
            &&& bb.corners() is Some
            &&& contains_box(bb.corners().unwrap(), corners_of(x.spec_bounding_box()).unwrap())
        } implies #[trigger] opens(bb, t_min, t_max, bo) by {
        assert(hit_in(items, x, t_min, t_max, bo, po));
    }
}

/// The nearest hit of a list in two parts is the nearer of the parts' nearest
/// hits where the box around them lets the ray in, provided it lets the ray
/// in wherever anything is hit.
pub proof fn lemma_nearest_of_parts<P>(
    lv: Option<HitRecord<P>>,
    rv: Option<HitRecord<P>>,
    lo_items: Seq<Hitters>,
    hi_items: Seq<Hitters>,
    items: Seq<Hitters>,
    box_open: bool,
    t_min: i64,
    t_max: i64,
    bo: spec_fn(BoundingBox, i64, i64) -> Option<HitRecord<P>>,
    po: spec_fn(Custom, i64, i64) -> Option<HitRecord<P>>,
)
    requires
        nearest_of(lv, lo_items, t_min, t_max, bo, po),
        nearest_of(rv, hi_items, t_min, t_max, bo, po),
        forall|x: Hitters|
            items.contains(x) <==> lo_items.contains(x) || hi_items.contains(x),
        forall|x: Hitters|
            items.contains(x) && x.hit_value(t_min, t_max, bo, po) is Some ==> box_open,
    ensures
        nearest_of(
            if box_open {
                nearer(lv, rv)
            } else {
                None
            },
            items,
            t_min,
            t_max,
            bo,
            po,
        ),
{
    let res = if box_open {
        nearer(lv, rv)
    } else {
        None
    };
    assert forall|x: Hitters| #[trigger]
        items.contains(x) && x.hit_value(t_min, t_max, bo, po) is Some implies res is Some
        && res.unwrap().t <= x.hit_value(t_min, t_max, bo, po).unwrap().t by {
        assert(lo_items.contains(x) || hi_items.contains(x));
    }
    if res is Some {
        if res == lv {
            let x = choose|x: Hitters| #[trigger]
                lo_items.contains(x) && lv == x.hit_value(t_min, t_max, bo, po);
            assert(items.contains(x));
        } else {
            let x = choose|x: Hitters| #[trigger]
                hi_items.contains(x) && rv == x.hit_value(t_min, t_max, bo, po);
            assert(items.contains(x));
        }
    }
}

/// The items of a list are the items of its sorted order up to a cut and
/// from the cut on.
pub proof fn lemma_cut_keeps_members(
    items: Seq<Hitters>,
    sorted: Seq<Hitters>,
    cut: int,
    x: Hitters,
)
    requires
        sorted.to_multiset() == items.to_multiset(),
        0 <= cut <= sorted.len(),
    ensures
        items.contains(x) <==> sorted.take(cut).contains(x) || sorted.skip(cut).contains(x),
{
    lemma_same_members(sorted, items, x);
    if sorted.contains(x) {
        let k = choose|k: int| 0 <= k < sorted.len() && sorted[k] == x;
        if k < cut {
            assert(sorted.take(cut)[k] == x);
        } else {
            assert(sorted.skip(cut)[k - cut] == x);
        }
    }
    if sorted.take(cut).contains(x) {
        let k = choose|k: int| 0 <= k < sorted.take(cut).len() && sorted.take(cut)[k] == x;
        assert(sorted[k] == x);
    }
    if sorted.skip(cut).contains(x) {
        let k = choose|k: int| 0 <= k < sorted.skip(cut).len() && sorted.skip(cut)[k] == x;
        assert(sorted[k + cut] == x);
    }
}

/// A single item is its own nearest hit.
pub proof fn lemma_single_is_nearest<P>(
    item: Hitters,
    items: Seq<Hitters>,
    t_min: i64,
    t_max: i64,
    bo: spec_fn(BoundingBox, i64, i64) -> Option<HitRecord<P>>,
    po: spec_fn(Custom, i64, i64) -> Option<HitRecord<P>>,
)
    requires
        items.len() == 1,
        items[0] == item,
    ensures
        nearest_of(item.hit_value(t_min, t_max, bo, po), items, t_min, t_max, bo, po),
{
    assert(items.contains(item));
}

/// Items in a part of a list of boxed items are boxed.
pub proof fn lemma_part_is_bounded(items: Seq<Hitters>, part: Seq<Hitters>)
    requires
        all_bounded(items),
        forall|x: Hitters| part.contains(x) ==> items.contains(x),
    ensures
        all_bounded(part),
{
    assert forall|i: int| 0 <= i < part.len() implies bounded(#[trigger] part[i]) by {
        assert(part.contains(part[i]));
        let k = choose|k: int| 0 <= k < items.len() && items[k] == part[i];
        assert(bounded(items[k]));
    }
}

/// The hierarchy reaches every item. Let a node be built over items that all
/// have boxes, and let the slab test be sound for them. Then a ray test of
/// the node answers with the nearest hit among the items: an item that the
/// ray hits directly is hit through the hierarchy too, at a parameter that
/// is no larger, and every hit of the hierarchy is the hit of an item.
pub proof fn lemma_bvh_reaches_every_item<P>(
    node: BvhNode,
    bb0: BoundingBox,
    items: Seq<Hitters>,
    allowed: spec_fn(int) -> bool,
    t_min: i64,
    t_max: i64,
    bo: spec_fn(BoundingBox, i64, i64) -> Option<HitRecord<P>>,
    po: spec_fn(Custom, i64, i64) -> Option<HitRecord<P>>,
)
    requires
        node.built_over(items, allowed),
        node.bb == grow(bb0, items),
        all_bounded(items),
        slab_sound(items, t_min, t_max, bo, po),
    ensures
        nearest_of(node.hit_value(t_min, t_max, bo, po), items, t_min, t_max, bo, po),
    decreases items.len(),
{
    let (axis, sorted) = choose|axis: int, sorted: Seq<Hitters>|
        {
            &&& #[trigger] witness((axis, sorted))
            &&& 0 <= axis < 3
            &&& allowed(axis)
            &&& sorted.len() == items.len()
            &&& sorted.to_multiset() == items.to_multiset()
            &&& sorted_on(sorted, axis)
            &&& if items.len() == 1 {
                *node.p_left == sorted[0] && sorted[0].same(*node.p_right)
            } else if items.len() == 2 {
                *node.p_left == sorted[0] && *node.p_right == sorted[1]
            } else {
                &&& *node.p_left matches Hitters::BvhNode(l) && l.bb == grow(
                    BoundingBox::Empty,
                    sorted.take(items.len() as int / 2),
                ) && l.built_over(sorted.take(items.len() as int / 2), allowed)
                &&& *node.p_right matches Hitters::BvhNode(r) && r.bb == grow(
                    BoundingBox::Empty,
                    sorted.skip(items.len() as int / 2),
                ) && r.built_over(sorted.skip(items.len() as int / 2), allowed)
            }
        };
    let n = items.len() as int;
    let cut = if n == 1 {
        1
    } else {
        n / 2
    };
    let lv = (*node.p_left).hit_value(t_min, t_max, bo, po);
    let rv = (*node.p_right).hit_value(t_min, t_max, bo, po);
    let lo_items = sorted.take(cut);
    let hi_items = if n == 1 {
        sorted.take(1)
    } else {
        sorted.skip(cut)
    };
    assert forall|x: Hitters|
        items.contains(x) <==> lo_items.contains(x) || hi_items.contains(x) by {
        lemma_cut_keeps_members(items, sorted, cut, x);
        if n == 1 {
            assert(sorted.skip(1) =~= Seq::<Hitters>::empty());
        }
    }
    if n == 1 {
        lemma_same_hit_value(sorted[0], *node.p_right, t_min, t_max, bo, po);
        lemma_single_is_nearest(sorted[0], lo_items, t_min, t_max, bo, po);
    } else if n == 2 {
        lemma_single_is_nearest(sorted[0], lo_items, t_min, t_max, bo, po);
        lemma_single_is_nearest(sorted[1], hi_items, t_min, t_max, bo, po);
    } else {
        let l = (*node.p_left)->BvhNode_0;
        let r = (*node.p_right)->BvhNode_0;
        lemma_part_is_bounded(items, lo_items);
        lemma_part_is_bounded(items, hi_items);
        lemma_slab_sound_for_part(items, lo_items, t_min, t_max, bo, po);
        lemma_slab_sound_for_part(items, hi_items, t_min, t_max, bo, po);
        lemma_bvh_reaches_every_item(
            l,
            BoundingBox::Empty,
            lo_items,
            allowed,
            t_min,
            t_max,
            bo,
            po,
        );
        lemma_bvh_reaches_every_item(
            r,
            BoundingBox::Empty,
            hi_items,
            allowed,
            t_min,
            t_max,
            bo,
            po,
        );
    }
    let box_open = box_value(node.bb, t_min, t_max, bo) is Some;
    assert forall|x: Hitters|
        items.contains(x) && x.hit_value(t_min, t_max, bo, po) is Some implies box_open by {
        let i = choose|i: int| 0 <= i < items.len() && items[i] == x;
        assert(bounded(items[i]));
        lemma_grown_box_holds_item(bb0, items, x);
        assert(hit_in(items, x, t_min, t_max, bo, po));
        assert(opens(node.bb, t_min, t_max, bo));
    }
    lemma_nearest_of_parts(lv, rv, lo_items, hi_items, items, box_open, t_min, t_max, bo, po);
}

/// Whether the item's answers respect the interval they are asked on. Asked
/// up to `hi`, the item answers with a hit only if it is its hit on the
/// whole interval and lies at or before `hi`; and it does answer with that
/// hit where it lies before `hi`.
pub open spec fn respects_interval<P>(
    x: Hitters,
    t_min: i64,
    t_max: i64,
    bo: spec_fn(BoundingBox, i64, i64) -> Option<HitRecord<P>>,
    po: spec_fn(Custom, i64, i64) -> Option<HitRecord<P>>,
) -> bool {
    forall|hi: i64|
        hi <= t_max ==> {
            let full = x.hit_value(t_min, t_max, bo, po);
            let cut = #[trigger] x.hit_value(t_min, hi, bo, po);
            &&& cut is Some ==> cut == full && cut.unwrap().t <= hi
            &&& full is Some && full.unwrap().t < hi ==> cut == full
        }
}

/// Whether every item of the list respects the interval it is asked on.
pub open spec fn all_respect_interval<P>(
    items: Seq<Hitters>,
    t_min: i64,
    t_max: i64,
    bo: spec_fn(BoundingBox, i64, i64) -> Option<HitRecord<P>>,
    po: spec_fn(Custom, i64, i64) -> Option<HitRecord<P>>,
) -> bool {
    forall|x: Hitters| #[trigger] items.contains(x) ==> respects_interval(x, t_min, t_max, bo, po)
}

/// Whether a scan stands where it should after the items: the interval's
/// end has come down to the hit that is kept, and that hit is the nearest
/// hit of the items.
pub open spec fn scan_holds_nearest<P>(
    state: ScanState<P>,
    items: Seq<Hitters>,
    t_min: i64,
    t_max: i64,
    bo: spec_fn(BoundingBox, i64, i64) -> Option<HitRecord<P>>,
    po: spec_fn(Custom, i64, i64) -> Option<HitRecord<P>>,
) -> bool {
    &&& state.closest <= t_max
    &&& state.best is None ==> state.closest == t_max
    &&& state.best is Some ==> state.closest == state.best.unwrap().t
    &&& nearest_of(state.best, items, t_min, t_max, bo, po)
}

/// A list is hit where its nearest item is hit. Where every item respects
/// the interval it is asked on, testing the items in order, each only up to
/// the nearest hit so far, ends with the nearest hit among them.
pub proof fn lemma_list_finds_nearest<P>(
    items: Seq<Hitters>,
    t_min: i64,
    t_max: i64,
    bo: spec_fn(BoundingBox, i64, i64) -> Option<HitRecord<P>>,
    po: spec_fn(Custom, i64, i64) -> Option<HitRecord<P>>,
)
    requires
        all_respect_interval(items, t_min, t_max, bo, po),
    ensures
        scan_holds_nearest(
            HitList::scan_value(items, t_min, t_max, bo, po),
            items,
            t_min,
            t_max,
            bo,
            po,
        ),
    decreases items.len(),
{
    if items.len() > 0 {
        let front = items.drop_last();
        let last = items.last();
        assert forall|x: Hitters| #[trigger] front.contains(x) implies respects_interval(
            x,
            t_min,
            t_max,
            bo,
            po,
        ) by {
            let i = choose|i: int| 0 <= i < front.len() && front[i] == x;
            assert(items[i] == x);
            assert(items.contains(x));
        }
        lemma_list_finds_nearest(front, t_min, t_max, bo, po);
        let before = HitList::scan_value(front, t_min, t_max, bo, po);
        let after = HitList::scan_value(items, t_min, t_max, bo, po);
        let full = last.hit_value(t_min, t_max, bo, po);
        let cut = last.hit_value(t_min, before.closest, bo, po);
        assert(items.contains(last)) by {
            assert(items[items.len() - 1] == last);
        }
        assert(respects_interval(last, t_min, t_max, bo, po));
        assert forall|x: Hitters| #[trigger]
            items.contains(x) && x.hit_value(t_min, t_max, bo, po) is Some implies after.best
            is Some && after.best.unwrap().t <= x.hit_value(t_min, t_max, bo, po).unwrap().t by {
            let i = choose|i: int| 0 <= i < items.len() && items[i] == x;
            if i < items.len() - 1 {
                assert(front[i] == x);
                assert(front.contains(x));
            }
        }
        if after.best is Some {
            if cut is Some {
                assert(after.best == full);
            } else {
                let x = choose|x: Hitters| #[trigger]
                    front.contains(x) && before.best == x.hit_value(t_min, t_max, bo, po);
                let i = choose|i: int| 0 <= i < front.len() && front[i] == x;
                assert(items[i] == x);
                assert(items.contains(x));
            }
        }
    }
}

/// The hierarchy answers as the list does. Let a node be built over the
/// items of a list that all have boxes, let the slab test be sound for them,
/// and let every item respect the interval it is asked on. Then a ray hits
/// the hierarchy exactly where it hits the list, and at the same parameter.
pub proof fn lemma_bvh_agrees_with_list<P>(
    node: BvhNode,
    bb0: BoundingBox,
    items: Seq<Hitters>,
    allowed: spec_fn(int) -> bool,
    t_min: i64,
    t_max: i64,
    bo: spec_fn(BoundingBox, i64, i64) -> Option<HitRecord<P>>,
    po: spec_fn(Custom, i64, i64) -> Option<HitRecord<P>>,
)
    requires
        node.built_over(items, allowed),
        node.bb == grow(bb0, items),
        all_bounded(items),
        slab_sound(items, t_min, t_max, bo, po),
        all_respect_interval(items, t_min, t_max, bo, po),
    ensures
        node.hit_value(t_min, t_max, bo, po) is Some <==> HitList::scan_value(
            items,
            t_min,
            t_max,
            bo,
            po,
        ).best is Some,
        node.hit_value(t_min, t_max, bo, po) is Some ==> node.hit_value(
            t_min,
            t_max,
            bo,
            po,
        ).unwrap().t == HitList::scan_value(items, t_min, t_max, bo, po).best.unwrap().t,
{
    lemma_bvh_reaches_every_item(node, bb0, items, allowed, t_min, t_max, bo, po);
    lemma_list_finds_nearest(items, t_min, t_max, bo, po);
    let through = node.hit_value(t_min, t_max, bo, po);
    let direct = HitList::scan_value(items, t_min, t_max, bo, po).best;
    if through is Some {
        let x = choose|x: Hitters| #[trigger]
            items.contains(x) && through == x.hit_value(t_min, t_max, bo, po);
        assert(direct is Some);
    }
    if direct is Some {
        let x = choose|x: Hitters| #[trigger]
            items.contains(x) && direct == x.hit_value(t_min, t_max, bo, po);
        assert(through is Some);
    }
}

/// A copy of the hierarchy reaches every item as the hierarchy does: what
/// `build` hands out answers with the nearest hit among the items, too.
pub proof fn lemma_copy_reaches_every_item<P>(
    node: BvhNode,
    copy: BvhNode,
    bb0: BoundingBox,
    items: Seq<Hitters>,
    allowed: spec_fn(int) -> bool,
    t_min: i64,
    t_max: i64,
    bo: spec_fn(BoundingBox, i64, i64) -> Option<HitRecord<P>>,
    po: spec_fn(Custom, i64, i64) -> Option<HitRecord<P>>,
)
    requires
        node.same(copy),
        node.built_over(items, allowed),
        node.bb == grow(bb0, items),
        all_bounded(items),
        slab_sound(items, t_min, t_max, bo, po),
    ensures
        nearest_of(copy.hit_value(t_min, t_max, bo, po), items, t_min, t_max, bo, po),
{
    lemma_bvh_reaches_every_item(node, bb0, items, allowed, t_min, t_max, bo, po);
    lemma_same_hit_value(Hitters::BvhNode(node), Hitters::BvhNode(copy), t_min, t_max, bo, po);
}

} // verus!
