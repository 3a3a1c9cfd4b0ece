use crate::aabb::{corners_of, spec_expand, BoundingBox};
use crate::hitlist::HitList;
use crate::hittable::{box_hit_rel, nearer, Custom, HitRecord, Hitters};
use crate::util::random_below;
use crate::witness::witness;
use std::cmp::Ordering;
use vstd::multiset::Multiset;
use vstd::prelude::*;
use vstd::seq_lib::*;

verus! {

/// Whether the item has a box with corners.
pub open spec fn bounded(h: Hitters) -> bool {
    corners_of(h.spec_bounding_box()) is Some
}

/// Whether every item has a box with corners.
pub open spec fn all_bounded(items: Seq<Hitters>) -> bool {
    forall|i: int| 0 <= i < items.len() ==> bounded(#[trigger] items[i])
}

/// The key by which an item is sorted on an axis: that component of the
/// minimum corner of its box.
pub open spec fn axis_key(h: Hitters, axis: int) -> i64 {
    corners_of(h.spec_bounding_box()).unwrap().lo.component(axis)
}

/// Whether the items stand in ascending order of their keys on an axis.
pub open spec fn sorted_on(items: Seq<Hitters>, axis: int) -> bool {
    forall|i: int, j: int|
        0 <= i < j < items.len() ==> axis_key(#[trigger] items[i], axis) <= axis_key(
            #[trigger] items[j],
            axis,
        )
}

/// The box of a node after the items' boxes have been added to it one by one.
pub open spec fn grow(bb: BoundingBox, items: Seq<Hitters>) -> BoundingBox
    decreases items.len(),
{
    if items.len() == 0 {
        bb
    } else {
        spec_expand(
            grow(bb, items.drop_last()).as_option(),
            items.last().spec_bounding_box(),
        ).unwrap()
    }
}

/// Whether the key of `a` on the axis is below the key of `b`.
pub open spec fn key_before(a: Hitters, b: Hitters, axis: u8) -> bool {
    axis_key(a, axis as int) < axis_key(b, axis as int)
}

/// Whether `a` sorts before `b` on the axis, by the comparator of that axis.
fn precedes(a: &Hitters, b: &Hitters, axis: u8) -> (before: bool)
    requires
        axis < 3,
        bounded(*a),
        bounded(*b),
    ensures
        before == key_before(*a, *b, axis),
{
    let x = a.bounding_box();
    let y = b.bounding_box();
    let order = if axis == 0 {
        BoundingBox::cmp_by_x(x, y)
    } else if axis == 1 {
        BoundingBox::cmp_by_y(x, y)
    } else {
        BoundingBox::cmp_by_z(x, y)
    };
    match order {
        Some(Ordering::Less) => true,
        _ => false,
    }
}

/// Whether the items stand in descending order of their keys on an axis.
pub open spec fn sorted_down_on(items: Seq<Hitters>, axis: int) -> bool {
    forall|i: int, j: int|
        0 <= i < j < items.len() ==> axis_key(#[trigger] items[i], axis) >= axis_key(
            #[trigger] items[j],
            axis,
        )
}

/// Whether no item of `low` has a key above that of an item of `high`.
pub open spec fn all_at_most(low: Seq<Hitters>, high: Seq<Hitters>, axis: int) -> bool {
    forall|i: int, j: int|
        0 <= i < low.len() && 0 <= j < high.len() ==> axis_key(#[trigger] low[i], axis)
            <= axis_key(#[trigger] high[j], axis)
}

/// Sorts the items by their keys on an axis, smallest first: the list is
/// halved, the halves are sorted, and the sorted halves are merged.
fn sort_on_axis(list: Vec<Hitters>, axis: u8) -> (sorted: Vec<Hitters>)
    requires
        axis < 3,
        all_bounded(list@),
    ensures
        sorted@.len() == list@.len(),
        sorted@.to_multiset() == list@.to_multiset(),
        sorted_on(sorted@, axis as int),
        all_bounded(sorted@),
    decreases list@.len(),
{
    if list.len() <= 1 {
        return list;
    }
    let ghost whole = list@;
    let mut left = list;
    let right = left.split_off(left.len() / 2);
    proof {
        broadcast use group_to_multiset_ensures;

        assert(whole =~= left@ + right@);
        lemma_multiset_commutative(left@, right@);
        assert forall|k: int| 0 <= k < left@.len() implies bounded(#[trigger] left@[k]) by {
            assert(left@[k] == whole[k]);
        }
        assert forall|k: int| 0 <= k < right@.len() implies bounded(#[trigger] right@[k]) by {
            assert(right@[k] == whole[k + left@.len()]);
        }
    }
    let left = sort_on_axis(left, axis);
    let right = sort_on_axis(right, axis);
    merge_on_axis(left, right, axis)
}

/// The items of a sequence without its last are the items of the sequence but for the last.
proof fn lemma_drop_last_multiset(s: Seq<Hitters>)
    requires
        s.len() > 0,
    ensures
        s.to_multiset() == s.drop_last().to_multiset().insert(s.last()),
{
    broadcast use group_to_multiset_ensures;

    assert(s =~= s.drop_last().push(s.last()));
}

/// Merges two sorted lists into one.
fn merge_on_axis(left: Vec<Hitters>, right: Vec<Hitters>, axis: u8) -> (merged: Vec<Hitters>)
    requires
        axis < 3,
        all_bounded(left@),
        all_bounded(right@),
        sorted_on(left@, axis as int),
        sorted_on(right@, axis as int),
    ensures
        merged@.len() == left@.len() + right@.len(),
        merged@.to_multiset() == left@.to_multiset().add(right@.to_multiset()),
        sorted_on(merged@, axis as int),
        all_bounded(merged@),
{
    let mut l = left;
    let mut r = right;
    // the items from the largest down
    let mut down: Vec<Hitters> = Vec::new();
    proof {
        broadcast use group_to_multiset_ensures;

        assert(down@.to_multiset().add(l@.to_multiset()).add(r@.to_multiset())
            =~= left@.to_multiset().add(right@.to_multiset()));
    }
    while l.len() > 0 || r.len() > 0
        invariant
            axis < 3,
            all_bounded(l@),
            all_bounded(r@),
            all_bounded(down@),
            sorted_on(l@, axis as int),
            sorted_on(r@, axis as int),
            sorted_down_on(down@, axis as int),
            all_at_most(l@, down@, axis as int),
            all_at_most(r@, down@, axis as int),
            down@.len() + l@.len() + r@.len() == left@.len() + right@.len(),
            down@.to_multiset().add(l@.to_multiset()).add(r@.to_multiset())
                == left@.to_multiset().add(right@.to_multiset()),
        decreases l.len() + r.len(),
    {
        let from_left = if l.len() == 0 {
            false
        } else if r.len() == 0 {
            true
        } else {
            precedes(&r[r.len() - 1], &l[l.len() - 1], axis)
        };
        let ghost l0 = l@;
        let ghost r0 = r@;
        let ghost d0 = down@;
        let item = if from_left {
            l.pop().unwrap()
        } else {
            r.pop().unwrap()
        };
        down.push(item);
        proof {
            broadcast use group_to_multiset_ensures;

            if from_left {
                lemma_drop_last_multiset(l0);
                assert(l@ == l0.drop_last());
            } else {
                lemma_drop_last_multiset(r0);
                assert(r@ == r0.drop_last());
            }
            assert(down@ == d0.push(item));
            assert(down@.to_multiset().add(l@.to_multiset()).add(r@.to_multiset())
                =~= d0.to_multiset().add(l0.to_multiset()).add(r0.to_multiset()));
            assert forall|k: int| 0 <= k < l@.len() implies bounded(#[trigger] l@[k]) by {
                assert(l@[k] == l0[k]);
            }
            assert forall|k: int| 0 <= k < r@.len() implies bounded(#[trigger] r@[k]) by {
                assert(r@[k] == r0[k]);
            }
            assert forall|k: int| 0 <= k < down@.len() implies bounded(#[trigger] down@[k]) by {
                if k < d0.len() {
                    assert(down@[k] == d0[k]);
                } else if from_left {
                    assert(down@[k] == l0[l0.len() - 1]);
                } else {
                    assert(down@[k] == r0[r0.len() - 1]);
                }
            }
            assert forall|i: int, j: int| 0 <= i < j < l@.len() implies axis_key(
                #[trigger] l@[i],
                axis as int,
            ) <= axis_key(#[trigger] l@[j], axis as int) by {
                assert(l@[i] == l0[i] && l@[j] == l0[j]);
            }
            assert forall|i: int, j: int| 0 <= i < j < r@.len() implies axis_key(
                #[trigger] r@[i],
                axis as int,
            ) <= axis_key(#[trigger] r@[j], axis as int) by {
                assert(r@[i] == r0[i] && r@[j] == r0[j]);
            }
            assert forall|i: int, j: int| 0 <= i < j < down@.len() implies axis_key(
                #[trigger] down@[i],
                axis as int,
            ) >= axis_key(#[trigger] down@[j], axis as int) by {
                assert(down@[i] == d0[i]);
                if j < d0.len() {
                    assert(down@[j] == d0[j]);
                } else if from_left {
                    assert(down@[j] == l0[l0.len() - 1]);
                } else {
                    assert(down@[j] == r0[r0.len() - 1]);
                }
            }
            assert forall|i: int, j: int|
                0 <= i < l@.len() && 0 <= j < down@.len() implies axis_key(
                #[trigger] l@[i],
                axis as int,
            ) <= axis_key(#[trigger] down@[j], axis as int) by {
                assert(l@[i] == l0[i]);
                if j < d0.len() {
                    assert(down@[j] == d0[j]);
                } else if from_left {
                    assert(down@[j] == l0[l0.len() - 1]);
                } else {
                    assert(down@[j] == r0[r0.len() - 1]);
                    assert(l0[i] == l0[i] && axis_key(l0[i], axis as int) <= axis_key(
                        l0[l0.len() - 1],
                        axis as int,
                    ));
                }
            }
            assert forall|i: int, j: int|
                0 <= i < r@.len() && 0 <= j < down@.len() implies axis_key(
                #[trigger] r@[i],
                axis as int,
            ) <= axis_key(#[trigger] down@[j], axis as int) by {
                assert(r@[i] == r0[i]);
                if j < d0.len() {
                    assert(down@[j] == d0[j]);
                } else if from_left {
                    assert(down@[j] == l0[l0.len() - 1]);
                    if r0.len() > 0 {
                        assert(axis_key(r0[i], axis as int) <= axis_key(
                            r0[r0.len() - 1],
                            axis as int,
                        ));
                    }
                } else {
                    assert(down@[j] == r0[r0.len() - 1]);
                }
            }
        }
    }
    proof {
        broadcast use group_to_multiset_ensures;

        assert(l@ =~= Seq::<Hitters>::empty());
        assert(r@ =~= Seq::<Hitters>::empty());
        assert(down@.to_multiset().add(Multiset::<Hitters>::empty()).add(
            Multiset::<Hitters>::empty(),
        ) =~= down@.to_multiset());
    }
    // and now the other way round
    let mut up: Vec<Hitters> = Vec::new();
    let ghost d_all = down@;
    proof {
        broadcast use group_to_multiset_ensures;

        assert(up@.to_multiset().add(down@.to_multiset()) =~= d_all.to_multiset());
    }
    while down.len() > 0
        invariant
            all_bounded(down@),
            all_bounded(up@),
            sorted_down_on(down@, axis as int),
            sorted_on(up@, axis as int),
            all_at_most(up@, down@, axis as int),
            up@.len() + down@.len() == d_all.len(),
            up@.to_multiset().add(down@.to_multiset()) == d_all.to_multiset(),
        decreases down.len(),
    {
        let ghost d0 = down@;
        let ghost u0 = up@;
        let item = down.pop().unwrap();
        up.push(item);
        proof {
            broadcast use group_to_multiset_ensures;

            lemma_drop_last_multiset(d0);
            assert(down@ == d0.drop_last());
            assert(up@ == u0.push(item));
            assert(up@.to_multiset().add(down@.to_multiset()) =~= u0.to_multiset().add(
                d0.to_multiset(),
            ));
            assert forall|k: int| 0 <= k < down@.len() implies bounded(#[trigger] down@[k]) by {
                assert(down@[k] == d0[k]);
            }
            assert forall|k: int| 0 <= k < up@.len() implies bounded(#[trigger] up@[k]) by {
                if k < u0.len() {
                    assert(up@[k] == u0[k]);
                } else {
                    assert(up@[k] == d0[d0.len() - 1]);
                }
            }
            assert forall|i: int, j: int| 0 <= i < j < down@.len() implies axis_key(
                #[trigger] down@[i],
                axis as int,
            ) >= axis_key(#[trigger] down@[j], axis as int) by {
                assert(down@[i] == d0[i] && down@[j] == d0[j]);
            }
            assert forall|i: int, j: int| 0 <= i < j < up@.len() implies axis_key(
                #[trigger] up@[i],
                axis as int,
            ) <= axis_key(#[trigger] up@[j], axis as int) by {
                assert(up@[i] == u0[i]);
                if j < u0.len() {
                    assert(up@[j] == u0[j]);
                } else {
                    assert(up@[j] == d0[d0.len() - 1]);
                }
            }
            assert forall|i: int, j: int|
                0 <= i < up@.len() && 0 <= j < down@.len() implies axis_key(
                #[trigger] up@[i],
                axis as int,
            ) <= axis_key(#[trigger] down@[j], axis as int) by {
                assert(down@[j] == d0[j]);
                if i < u0.len() {
                    assert(up@[i] == u0[i]);
                } else {
                    assert(up@[i] == d0[d0.len() - 1]);
                }
            }
        }
    }
    proof {
        broadcast use group_to_multiset_ensures;

        assert(down@ =~= Seq::<Hitters>::empty());
        assert(up@.to_multiset().add(Multiset::<Hitters>::empty()) =~= up@.to_multiset());
    }
    up
}

/// A node of the hierarchy: two children and the box that holds them.
pub struct BvhNode {
    pub p_left: Box<Hitters>,
    pub p_right: Box<Hitters>,
    pub bb: BoundingBox,
}

pub type Bvh = BvhNode;

impl BvhNode {
    /// Whether two nodes have the same box and children that are alike.
    pub open spec fn same(self, other: BvhNode) -> bool
        decreases self,
    {
        &&& self.bb == other.bb
        &&& (*self.p_left).same(*other.p_left)
        &&& (*self.p_right).same(*other.p_right)
    }

    /// Whether `res` is an answer that a ray test of the node may give: none
    /// where the ray misses the node's box, else the nearer of what the two
    /// children answer on the same interval.
    pub open spec fn hit_rel<
        P,
        B: Fn(BoundingBox, i64, i64) -> Option<HitRecord<P>>,
        H: Fn(Custom, i64, i64) -> Option<HitRecord<P>>,
    >(self, t_min: i64, t_max: i64, box_test: B, probe: H, res: Option<HitRecord<P>>) -> bool
        decreases self,
    {
        exists|entry: Option<HitRecord<P>>|
            {
                &&& #[trigger] box_hit_rel(self.bb, t_min, t_max, box_test, entry)
                &&& match entry {
                    None => res is None,
                    Some(_) => exists|l: Option<HitRecord<P>>, r: Option<HitRecord<P>>|
                        {
                            &&& #[trigger] witness((l, r))
                            &&& (*self.p_left).hit_rel(t_min, t_max, box_test, probe, l)
                            &&& (*self.p_right).hit_rel(t_min, t_max, box_test, probe, r)
                            &&& res == nearer(l, r)
                        },
                }
            }
    }

    /// Whether the node's children are what building over `items` leaves:
    /// for some axis that `allowed` admits, the items sorted by their keys on
    /// it; a single item in both children; two items one in each; more of
    /// them split at the midpoint, the smaller half to the left, each half
    /// under a node of its own that is built the same way and boxed by its
    /// own items.
    pub open spec fn built_over(self, items: Seq<Hitters>, allowed: spec_fn(int) -> bool) -> bool
        decreases items.len(),
    {
        &&& items.len() >= 1
        &&& exists|axis: int, sorted: Seq<Hitters>|
            {
                &&& #[trigger] witness((axis, sorted))
                &&& 0 <= axis < 3
                &&& allowed(axis)
                &&& sorted.len() == items.len()
                &&& sorted.to_multiset() == items.to_multiset()
                &&& sorted_on(sorted, axis)
                &&& if items.len() == 1 {
                    *self.p_left == sorted[0] && sorted[0].same(*self.p_right)
                } else if items.len() == 2 {
                    *self.p_left == sorted[0] && *self.p_right == sorted[1]
                } else {
                    &&& *self.p_left matches Hitters::BvhNode(l) && l.bb == grow(
                        BoundingBox::Empty,
                        sorted.take(items.len() as int / 2),
                    ) && l.built_over(sorted.take(items.len() as int / 2), allowed)
                    &&& *self.p_right matches Hitters::BvhNode(r) && r.bb == grow(
                        BoundingBox::Empty,
                        sorted.skip(items.len() as int / 2),
                    ) && r.built_over(sorted.skip(items.len() as int / 2), allowed)
                }
            }
    }

    /// A node without items: both children and the box are the empty marker.
    pub fn new() -> (node: BvhNode)
        ensures
            *node.p_left == Hitters::BoundingBox(BoundingBox::Empty),
            *node.p_right == Hitters::BoundingBox(BoundingBox::Empty),
            node.bb == BoundingBox::Empty,
    {
        BvhNode {
            p_left: Box::new(Hitters::BoundingBox(BoundingBox::Empty)),
            p_right: Box::new(Hitters::BoundingBox(BoundingBox::Empty)),
            bb: BoundingBox::Empty,
        }
    }

    /// Puts a copy of `node` in the left child's place.
    pub fn init_left(&mut self, node: &Hitters)
        ensures
            node.same(*final(self).p_left),
            final(self).p_right == old(self).p_right,
            final(self).bb == old(self).bb,
    {
        self.p_left = Box::new(node.clone());
    }

    /// Puts a copy of `node` in the right child's place.
    pub fn init_right(&mut self, node: &Hitters)
        ensures
            node.same(*final(self).p_right),
            final(self).p_left == old(self).p_left,
            final(self).bb == old(self).bb,
    {
        self.p_right = Box::new(node.clone());
    }

    /// The finished hierarchy: a copy of the node.
    pub fn build(&self) -> (res: BvhNode)
        ensures
            self.same(res),
    {
        self.clone()
    }

    /// The node as an item of a scene: a copy of it.
    pub fn box_clone(&self) -> (res: Hitters)
        ensures
            res matches Hitters::BvhNode(n) && self.same(n),
    {
        Hitters::BvhNode(self.clone())
    }

    /// An axis picked at random: 0 for x, 1 for y, 2 for z.
    pub fn rand_axis() -> (axis: u8)
        ensures
            axis < 3,
    {
        let r: usize = random_below(3);
        r as u8
    }

    /// Builds the hierarchy over the items of a list, on axes picked at
    /// random. The node's box grows to hold every item's box; at each node
    /// the items are sorted on an axis of its own; one item goes to both
    /// children, two go one to each, and more are split at the midpoint
    /// between two nodes built the same way. The list must hold an item, and
    /// every item must have a box.
    pub fn add_hitlist(&mut self, hl: HitList)
        requires
            hl.list@.len() > 0,
            all_bounded(hl.list@),
        ensures
            final(self).bb == grow(old(self).bb, hl.list@),
            final(self).built_over(hl.list@, |axis: int| true),
    {
        let pick = || -> (axis: u8)
            ensures
                axis < 3,
            { Self::rand_axis() };
        let ghost items = hl.list@;
        self.add_hitlist_with(hl, &pick);
        proof {
            lemma_built_over_weakens(
                *self,
                items,
                |axis: int| call_ensures(pick, (), axis as u8),
                |axis: int| true,
            );
        }
    }

    /// Builds the hierarchy as `add_hitlist` does, on the axes that `pick`
    /// names: it is asked once for each node, before the node's items are
    /// looked at, the node itself before its children and the left child
    /// before the right.
    pub fn add_hitlist_with<F: Fn() -> u8>(&mut self, hl: HitList, pick: &F)
        requires
            hl.list@.len() > 0,
            all_bounded(hl.list@),
            call_requires(*pick, ()),
            forall|axis: u8| call_ensures(*pick, (), axis) ==> axis < 3,
        ensures
            final(self).bb == grow(old(self).bb, hl.list@),
            final(self).built_over(hl.list@, |axis: int| call_ensures(*pick, (), axis as u8)),
        decreases hl.list@.len(),
    {
        let axis = pick();
        let list = hl.list;
        let ghost items = list@;
        let mut bb = self.bb;
        let mut i: usize = 0;
        while i < list.len()
            invariant
                i <= list.len(),
                list@ == items,
                bb == grow(old(self).bb, items.take(i as int)),
            decreases list.len() - i,
        {
            proof {
                assert(items.take(i + 1).drop_last() =~= items.take(i as int));
            }
            let grown = BoundingBox::expand_to_contain(bb.bounding_box(), list[i].bounding_box());
            bb = grown.unwrap();
            i += 1;
        }
        proof {
            assert(items.take(i as int) =~= items);
        }
        self.bb = bb;
        let mut sorted = sort_on_axis(list, axis);
        let ghost order = sorted@;
        let n = sorted.len();
        if n == 1 {
            let item = sorted.pop().unwrap();
            self.p_right = Box::new(item.clone());
            self.p_left = Box::new(item);
        } else if n == 2 {
            let second = sorted.pop().unwrap();
            let first = sorted.pop().unwrap();
            self.p_left = Box::new(first);
            self.p_right = Box::new(second);
        } else {
            let right_list = sorted.split_off(n / 2);
            proof {
                assert(sorted@ == order.take(n as int / 2));
                assert(right_list@ =~= order.skip(n as int / 2));
                assert forall|k: int| 0 <= k < sorted@.len() implies bounded(
                    #[trigger] sorted@[k],
                ) by {
                    assert(sorted@[k] == order[k]);
                }
                assert forall|k: int| 0 <= k < right_list@.len() implies bounded(
                    #[trigger] right_list@[k],
                ) by {
                    assert(right_list@[k] == order[k + n as int / 2]);
                }
            }
            let mut left_node = BvhNode::new();
            let mut right_node = BvhNode::new();
            left_node.add_hitlist_with(HitList { list: sorted }, pick);
            right_node.add_hitlist_with(HitList { list: right_list }, pick);
            self.p_left = Box::new(Hitters::BvhNode(left_node));
            self.p_right = Box::new(Hitters::BvhNode(right_node));
        }
        proof {
            assert(witness((axis as int, order)));
        }
    }

    pub fn left(&self) -> (l: Option<&Hitters>)
        ensures
            l == Some(&*self.p_left),
    {
        Some(&*self.p_left)
    }

    pub fn right(&self) -> (r: Option<&Hitters>)
        ensures
            r == Some(&*self.p_right),
    {
        Some(&*self.p_right)
    }

    /// The box the node was built with.
    pub fn bounding_box(&self) -> (b: Option<BoundingBox>)
        ensures
            b == Some(self.bb),
    {
        Some(self.bb)
    }

    /// Tests the node's box first; only where the ray passes it are the two
    /// children tested, and the nearer of their hits is returned.
    pub fn hit<
        P,
        B: Fn(BoundingBox, i64, i64) -> Option<HitRecord<P>>,
        H: Fn(Custom, i64, i64) -> Option<HitRecord<P>>,
    >(&self, t_min: i64, t_max: i64, box_test: &B, probe: &H) -> (res: Option<HitRecord<P>>)
        requires
            forall|b: BoundingBox, lo: i64, hi: i64| call_requires(*box_test, (b, lo, hi)),
            forall|c: Custom, lo: i64, hi: i64| call_requires(*probe, (c, lo, hi)),
        ensures
            self.hit_rel(t_min, t_max, *box_test, *probe, res),
        decreases self,
    {
        let entry = match self.bb {
            BoundingBox::Empty => None,
            _ => box_test(self.bb, t_min, t_max),
        };
        assert(box_hit_rel(self.bb, t_min, t_max, *box_test, entry));
        if entry.is_some() {
            let lefthit = self.p_left.hit(t_min, t_max, box_test, probe);
            let righthit = self.p_right.hit(t_min, t_max, box_test, probe);
            let ghost l = lefthit;
            let ghost r = righthit;
            let left_wins = match (&lefthit, &righthit) {
                (Some(a), Some(b)) => a.t < b.t,
                (Some(_), None) => true,
                (None, _) => false,
            };
            let res = if left_wins {
                lefthit
            } else {
                righthit
            };
            proof {
                assert((*self.p_left).hit_rel(t_min, t_max, *box_test, *probe, l));
                assert((*self.p_right).hit_rel(t_min, t_max, *box_test, *probe, r));
                assert(res == nearer(l, r));
                assert(witness((l, r)));
            }
            res
        } else {
            None
        }
    }
}

/// A node that is built on axes of one kind is built on axes of every wider kind.
pub proof fn lemma_built_over_weakens(
    node: BvhNode,
    items: Seq<Hitters>,
    narrow: spec_fn(int) -> bool,
    wide: spec_fn(int) -> bool,
)
    requires
        node.built_over(items, narrow),
        forall|axis: int| #[trigger] narrow(axis) ==> wide(axis),
    ensures
        node.built_over(items, wide),
    decreases items.len(),
{
    let (axis, sorted) = choose|axis: int, sorted: Seq<Hitters>|
        {
            &&& #[trigger] witness((axis, sorted))
            &&& 0 <= axis < 3
            &&& narrow(axis)
            &&& sorted.len() == items.len()
            &&& sorted.to_multiset() == items.to_multiset()
            &&& sorted_on(sorted, axis)
            &&& if items.len() == 1 {
                *node.p_left == sorted[0] && sorted[0].same(*node.p_right)
            } else if items.len() == 2 {
                *node.p_left == sorted[0] && *node.p_right == sorted[1]
            } else {
                &&& *node.p_left matches Hitters::BvhNode(l) && l.bb == grow(
                    BoundingBox::Empty,
                    sorted.take(items.len() as int / 2),
                ) && l.built_over(sorted.take(items.len() as int / 2), narrow)
                &&& *node.p_right matches Hitters::BvhNode(r) && r.bb == grow(
                    BoundingBox::Empty,
                    sorted.skip(items.len() as int / 2),
                ) && r.built_over(sorted.skip(items.len() as int / 2), narrow)
            }
        };
    if items.len() > 2 {
        let l = (*node.p_left)->BvhNode_0;
        let r = (*node.p_right)->BvhNode_0;
        lemma_built_over_weakens(l, sorted.take(items.len() as int / 2), narrow, wide);
        lemma_built_over_weakens(r, sorted.skip(items.len() as int / 2), narrow, wide);
    }
    assert(witness((axis, sorted)));
}

impl Default for BvhNode {
    fn default() -> (node: BvhNode)
        ensures
            *node.p_left == Hitters::BoundingBox(BoundingBox::Empty),
            *node.p_right == Hitters::BoundingBox(BoundingBox::Empty),
            node.bb == BoundingBox::Empty,
    {
        BvhNode::new()
    }
}

impl Clone for BvhNode {
    /// A copy with the same box and with copies of both children.
    fn clone(&self) -> (res: BvhNode)
        ensures
            self.same(res),
        decreases self,
    {
        BvhNode {
            p_left: Box::new((*self.p_left).clone()),
            p_right: Box::new((*self.p_right).clone()),
            bb: self.bb,
        }
    }
}

} // verus!
