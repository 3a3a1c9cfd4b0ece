use crate::aabb::{AabbF, BoundingBox};
use crate::scalar::{ONE, ZERO};
use crate::vec3::Vec3;
use vstd::prelude::*;

verus! {

/// One of the three axes; a rectangle is named by the axis it is aligned to.
#[derive(Clone, Copy, Debug, PartialEq, Eq, Structural)]
pub enum Axis {
    X,
    Y,
    Z,
}

impl Axis {
    /// The place of the axis among the components of a vector.
    pub open spec fn spec_index(self) -> int {
        match self {
            Axis::X => 0,
            Axis::Y => 1,
            Axis::Z => 2,
        }
    }

    /// The place of the axis among the components of a vector: 0, 1 or 2.
    pub fn index(&self) -> (i: usize)
        ensures
            i == self.spec_index(),
            i < 3,
    {
        match self {
            Axis::X => 0,
            Axis::Y => 1,
            Axis::Z => 2,
        }
    }
}

/// A rectangle in a plane that is aligned to an axis: an interval on each of
/// the two other axes, and the place `k` of the plane on the axis it is
/// aligned to. Of x, y and z, `axis0` is the first that is not the aligned
/// axis and `axis1` the second.
#[derive(Clone, Copy, Debug, PartialEq, Eq, Structural)]
pub struct Rect {
    pub axis0_min: i64,
    pub axis0_max: i64,
    pub axis1_min: i64,
    pub axis1_max: i64,
    pub k: i64,
    pub aligned_axis: Axis,
}

/// Which components of a vector a rectangle looks at: the one along which
/// its plane is placed, and the two that span the plane.
#[derive(Clone, Copy, Debug, PartialEq, Eq, Structural)]
pub struct Axes {
    pub along: usize,
    pub first: usize,
    pub second: usize,
}

impl Rect {
    /// The components that the rectangle looks at.
    pub open spec fn spec_axes(self) -> Axes {
        match self.aligned_axis {
            Axis::Z => Axes { along: 2, first: 0, second: 1 },
            Axis::Y => Axes { along: 1, first: 0, second: 2 },
            Axis::X => Axes { along: 0, first: 1, second: 2 },
        }
    }

    /// The vector that has `along` on the aligned axis, and `first` and
    /// `second` on the two others in their order.
    pub open spec fn place(self, first: i64, second: i64, along: i64) -> Vec3 {
        match self.aligned_axis {
            Axis::Z => Vec3 { x: first, y: second, z: along },
            Axis::Y => Vec3 { x: first, y: along, z: second },
            Axis::X => Vec3 { x: along, y: first, z: second },
        }
    }

    /// Whether a ray that crosses the plane at parameter `t`, in the point
    /// with the plane coordinates `axis0` and `axis1`, hits the rectangle on
    /// the interval from `tmin` to `tmax`: the parameter must lie in the
    /// interval and the point in the rectangle, the borders included.
    pub open spec fn spec_accepts(self, t: i64, tmin: i64, tmax: i64, axis0: i64, axis1: i64) -> bool {
        &&& tmin <= t <= tmax
        &&& self.axis0_min <= axis0 <= self.axis0_max
        &&& self.axis1_min <= axis1 <= self.axis1_max
    }

    pub fn new(
        axis0_min: i64,
        axis0_max: i64,
        axis1_min: i64,
        axis1_max: i64,
        k: i64,
        aligned_axis: Axis,
    ) -> (r: Rect)
        ensures
            r == (Rect { axis0_min, axis0_max, axis1_min, axis1_max, k, aligned_axis }),
    {
        Rect { axis0_min, axis0_max, axis1_min, axis1_max, k, aligned_axis }
    }

    /// The components that the rectangle looks at.
    pub fn axes(&self) -> (a: Axes)
        ensures
            a == self.spec_axes(),
            a.along < 3 && a.first < 3 && a.second < 3,
    {
        match self.aligned_axis {
            Axis::Z => Axes { along: 2, first: 0, second: 1 },
            Axis::Y => Axes { along: 1, first: 0, second: 2 },
            Axis::X => Axes { along: 0, first: 1, second: 2 },
        }
    }

    /// Whether a ray that crosses the plane at `t`, in the point `(axis0,
    /// axis1)` of the plane, hits the rectangle between `tmin` and `tmax`.
    pub fn accepts(&self, t: i64, tmin: i64, tmax: i64, axis0: i64, axis1: i64) -> (hit: bool)
        ensures
            hit == self.spec_accepts(t, tmin, tmax, axis0, axis1),
    {
        if t < tmin || t > tmax {
            return false;
        }
        if (axis0 < self.axis0_min) || (axis0 > self.axis0_max) || (axis1 < self.axis1_min) || (
        axis1 > self.axis1_max) {
            return false;
        }
        true
    }

    /// The normal of the rectangle: one along the aligned axis, zero along the others.
    pub fn normal(&self) -> (n: Vec3)
        ensures
            n == self.place(ZERO, ZERO, ONE),
    {
        match self.aligned_axis {
            Axis::Z => Vec3 { x: ZERO, y: ZERO, z: ONE },
            Axis::Y => Vec3 { x: ZERO, y: ONE, z: ZERO },
            Axis::X => Vec3 { x: ONE, y: ZERO, z: ZERO },
        }
    }

    /// The box around the rectangle, which is given a thickness: it reaches
    /// from `below` to `above` along the aligned axis.
    pub fn bounding_box(&self, below: i64, above: i64) -> (b: Option<BoundingBox>)
        ensures
            b == Some(
                BoundingBox::AabbF(
                    AabbF {
                        minimum: self.place(self.axis0_min, self.axis1_min, below),
                        maximum: self.place(self.axis0_max, self.axis1_max, above),
                    },
                ),
            ),
    {
        let (minimum, maximum) = match self.aligned_axis {
            Axis::Z => (
                Vec3 { x: self.axis0_min, y: self.axis1_min, z: below },
                Vec3 { x: self.axis0_max, y: self.axis1_max, z: above },
            ),
            Axis::Y => (
                Vec3 { x: self.axis0_min, y: below, z: self.axis1_min },
                Vec3 { x: self.axis0_max, y: above, z: self.axis1_max },
            ),
            Axis::X => (
                Vec3 { x: below, y: self.axis0_min, z: self.axis1_min },
                Vec3 { x: above, y: self.axis0_max, z: self.axis1_max },
            ),
        };
        Some(BoundingBox::AabbF(AabbF { minimum, maximum }))
    }
}

impl Default for Rect {
    fn default() -> (r: Rect)
        ensures
            r == (Rect {
                axis0_min: 0,
                axis0_max: 0,
                axis1_min: 0,
                axis1_max: 0,
                k: 0,
                aligned_axis: Axis::X,
            }),
    {
        Rect { axis0_min: 0, axis0_max: 0, axis1_min: 0, axis1_max: 0, k: 0, aligned_axis: Axis::X }
    }
}

impl Default for Axis {
    fn default() -> (a: Axis)
        ensures
            a == Axis::X,
    {
        Axis::X
    }
}

} // verus!
