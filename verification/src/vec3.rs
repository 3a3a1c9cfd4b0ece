use crate::util::{ffmax, ffmin};
use std::cmp::Ordering;
use vstd::prelude::*;

verus! {

/// Three scalar keys: a point, a direction or a colour.
#[derive(Clone, Copy, Debug, PartialEq, Eq, Structural)]
pub struct Vec3T {
    pub x: i64,
    pub y: i64,
    pub z: i64,
}

pub type Vec3 = Vec3T;

pub type Point3 = Vec3T;

pub type Color = Vec3T;

/// The smaller of two keys.
pub open spec fn key_min(a: i64, b: i64) -> i64 {
    if a < b {
        a
    } else {
        b
    }
}

/// The larger of two keys.
pub open spec fn key_max(a: i64, b: i64) -> i64 {
    if a > b {
        a
    } else {
        b
    }
}

/// How two keys compare, as the order of the integers.
pub open spec fn key_order(a: i64, b: i64) -> Ordering {
    if a < b {
        Ordering::Less
    } else if a == b {
        Ordering::Equal
    } else {
        Ordering::Greater
    }
}

impl Vec3T {
    /// The vector whose components are all zero.
    pub open spec fn zero() -> Vec3T {
        Vec3T { x: 0, y: 0, z: 0 }
    }

    /// Component `i`, counting x, y, z from zero.
    pub open spec fn component(self, i: int) -> i64 {
        if i == 0 {
            self.x
        } else if i == 1 {
            self.y
        } else {
            self.z
        }
    }

    /// The componentwise minimum of two vectors.
    pub open spec fn spec_min(self, rhs: Vec3T) -> Vec3T {
        Vec3T { x: key_min(self.x, rhs.x), y: key_min(self.y, rhs.y), z: key_min(self.z, rhs.z) }
    }

    /// The componentwise maximum of two vectors.
    pub open spec fn spec_max(self, rhs: Vec3T) -> Vec3T {
        Vec3T { x: key_max(self.x, rhs.x), y: key_max(self.y, rhs.y), z: key_max(self.z, rhs.z) }
    }

    pub fn new(x: i64, y: i64, z: i64) -> (v: Vec3T)
        ensures
            v == (Vec3T { x, y, z }),
    {
        Vec3T { x, y, z }
    }

    /// Component `i` of the vector; only 0, 1 and 2 name a component.
    pub fn get(&self, i: usize) -> (c: i64)
        requires
            i < 3,
        ensures
            c == self.component(i as int),
    {
        if i == 0 {
            self.x
        } else if i == 1 {
            self.y
        } else {
            self.z
        }
    }

    /// The corner that is smallest on every axis.
    pub fn min(&self, rhs: &Vec3T) -> (v: Vec3T)
        ensures
            v == self.spec_min(*rhs),
    {
        Vec3T { x: ffmin(self.x, rhs.x), y: ffmin(self.y, rhs.y), z: ffmin(self.z, rhs.z) }
    }

    /// The corner that is largest on every axis.
    pub fn max(&self, rhs: &Vec3T) -> (v: Vec3T)
        ensures
            v == self.spec_max(*rhs),
    {
        Vec3T { x: ffmax(self.x, rhs.x), y: ffmax(self.y, rhs.y), z: ffmax(self.z, rhs.z) }
    }

    pub fn partial_cmp_by_x(&self, rhs: &Vec3T) -> (o: Option<Ordering>)
        ensures
            o == Some(key_order(self.x, rhs.x)),
    {
        Some(order_of(self.x, rhs.x))
    }

    pub fn partial_cmp_by_y(&self, rhs: &Vec3T) -> (o: Option<Ordering>)
        ensures
            o == Some(key_order(self.y, rhs.y)),
    {
        Some(order_of(self.y, rhs.y))
    }

    pub fn partial_cmp_by_z(&self, rhs: &Vec3T) -> (o: Option<Ordering>)
        ensures
            o == Some(key_order(self.z, rhs.z)),
    {
        Some(order_of(self.z, rhs.z))
    }
}

impl Default for Vec3T {
    fn default() -> (v: Vec3T)
        ensures
            v == Vec3T::zero(),
    {
        Vec3T { x: 0, y: 0, z: 0 }
    }
}

/// Compares two keys.
pub fn order_of(a: i64, b: i64) -> (o: Ordering)
    ensures
        o == key_order(a, b),
{
    if a < b {
        Ordering::Less
    } else if a == b {
        Ordering::Equal
    } else {
        Ordering::Greater
    }
}

} // verus!
