//! The index and control core of a sample-based ray tracer.
//!
//! Every scalar the library holds (a coordinate, a ray parameter, a colour
//! channel) is an `i64` key that orders exactly as the number it encodes;
//! [`scalar`] says how doubles are encoded. The library compares keys and
//! carries them around; it never does arithmetic on them.
//!
//! Geometry whose intersection needs real arithmetic stays with the caller
//! and enters the library as a [`hittable::Custom`] item: an identifier and
//! the box that bounds it. Traversals take the caller's slab test and
//! primitive test as functions and decide which of them to ask, in which
//! order, and which answer wins.
//!
//! - [`vec3`], [`scalar`]: keys and triples of keys.
//! - [`aabb`]: boxes, their union, their order, and the two forms of the slab test.
//! - [`hittable`], [`hitlist`], [`bvh`]: the items of a scene, lists of
//!   them, and the hierarchy that is built over a list.
//! - [`oracle`], [`coverage`], [`likeness`]: what a ray test answers when
//!   the caller's tests are functions; that the hierarchy reaches every
//!   item; that copies answer alike.
//! - [`rectangle`], [`cube`], [`sphere`], [`volumes`]: what the shapes decide
//!   once the caller has done their arithmetic.
//! - [`materials`], [`textures`], [`perlin`], [`image`]: what a surface is
//!   made of, and the tables behind noise and image textures.
//! - [`util`]: the path integrator, the sum over the samples of a pixel, and
//!   the pixel writer.
//! - [`ppm`]: the header of the pixmap and the order of its pixels.
pub mod aabb;
pub mod bvh;
pub mod coverage;
pub mod cube;
pub mod hitlist;
pub mod hittable;
pub mod image;
pub mod likeness;
pub mod materials;
pub mod oracle;
pub mod perlin;
pub mod ppm;
pub mod rectangle;
pub mod scalar;
pub mod sphere;
pub mod textures;
pub mod util;
pub mod vec3;
pub mod volumes;
pub mod witness;
