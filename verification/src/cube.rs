use crate::aabb::{AabbF, BoundingBox};
use crate::rectangle::{Axis, Rect};
use crate::vec3::Vec3;
use vstd::prelude::*;

verus! {

/// One side of a cube: a rectangle, and whether its normal is turned over
/// so that it points out of the cube.
#[derive(Clone, Copy, Debug, PartialEq, Eq, Structural)]
pub struct Wall {
    pub rect: Rect,
    pub flipped: bool,
}

/// A box between two corners, made of six rectangles.
#[derive(Debug)]
pub struct Cube {
    pub walls: Vec<Wall>,
    pub pmin: Vec3,
    pub pmax: Vec3,
}

/// The six sides of the box between `pt0` and `pt1`: for each axis the side
/// at `pt1` as it is and the side at `pt0` turned over; z first, then y, then x.
pub open spec fn walls_between(pt0: Vec3, pt1: Vec3) -> Seq<Wall> {
    seq![
        Wall {
            rect: Rect {
                axis0_min: pt0.x,
                axis0_max: pt1.x,
                axis1_min: pt0.y,
                axis1_max: pt1.y,
                k: pt1.z,
                aligned_axis: Axis::Z,
            },
            flipped: false,
        },
        Wall {
            rect: Rect {
                axis0_min: pt0.x,
                axis0_max: pt1.x,
                axis1_min: pt0.y,
                axis1_max: pt1.y,
                k: pt0.z,
                aligned_axis: Axis::Z,
            },
            flipped: true,
        },
        Wall {
            rect: Rect {
                axis0_min: pt0.x,
                axis0_max: pt1.x,
                axis1_min: pt0.z,
                axis1_max: pt1.z,
                k: pt1.y,
                aligned_axis: Axis::Y,
            },
            flipped: false,
        },
        Wall {
            rect: Rect {
                axis0_min: pt0.x,
                axis0_max: pt1.x,
                axis1_min: pt0.z,
                axis1_max: pt1.z,
                k: pt0.y,
                aligned_axis: Axis::Y,
            },
            flipped: true,
        },
        Wall {
            rect: Rect {
                axis0_min: pt0.y,
                axis0_max: pt1.y,
                axis1_min: pt0.z,
                axis1_max: pt1.z,
                k: pt1.x,
                aligned_axis: Axis::X,
            },
            flipped: false,
        },
        Wall {
            rect: Rect {
                axis0_min: pt0.y,
                axis0_max: pt1.y,
                axis1_min: pt0.z,
                axis1_max: pt1.z,
                k: pt0.x,
                aligned_axis: Axis::X,
            },
            flipped: true,
        },
    ]
}

impl Cube {
    /// The box between the corners `pt0` and `pt1`.
    pub fn new(pt0: &Vec3, pt1: &Vec3) -> (c: Cube)
        ensures
            c.walls@ == walls_between(*pt0, *pt1),
            c.pmin == *pt0,
            c.pmax == *pt1,
    {
        let mut walls: Vec<Wall> = Vec::with_capacity(6);
        // front, and the front turned over for the back
        walls.push(
            Wall { rect: Rect::new(pt0.x, pt1.x, pt0.y, pt1.y, pt1.z, Axis::Z), flipped: false },
        );
        walls.push(
            Wall { rect: Rect::new(pt0.x, pt1.x, pt0.y, pt1.y, pt0.z, Axis::Z), flipped: true },
        );
        // top and bottom
        walls.push(
            Wall { rect: Rect::new(pt0.x, pt1.x, pt0.z, pt1.z, pt1.y, Axis::Y), flipped: false },
        );
        walls.push(
            Wall { rect: Rect::new(pt0.x, pt1.x, pt0.z, pt1.z, pt0.y, Axis::Y), flipped: true },
        );
        // the two sides
        walls.push(
            Wall { rect: Rect::new(pt0.y, pt1.y, pt0.z, pt1.z, pt1.x, Axis::X), flipped: false },
        );
        walls.push(
            Wall { rect: Rect::new(pt0.y, pt1.y, pt0.z, pt1.z, pt0.x, Axis::X), flipped: true },
        );
        proof {
            assert(walls@ =~= walls_between(*pt0, *pt1));
        }
        Cube { walls, pmin: *pt0, pmax: *pt1 }
    }

    /// The box between the two corners.
    pub fn bounding_box(&self) -> (b: Option<BoundingBox>)
        ensures
            b == Some(BoundingBox::AabbF(AabbF { minimum: self.pmin, maximum: self.pmax })),
    {
        Some(BoundingBox::AabbF(AabbF { minimum: self.pmin, maximum: self.pmax }))
    }
}

impl Clone for Cube {
    /// A copy with the same sides and corners.
    fn clone(&self) -> (res: Cube)
        ensures
            res.walls@ == self.walls@,
            res.pmin == self.pmin,
            res.pmax == self.pmax,
    {
        let walls = self.walls.clone();
        proof {
            assert(walls@ =~= self.walls@);
        }
        Cube { walls, pmin: self.pmin, pmax: self.pmax }
    }
}

} // verus!
