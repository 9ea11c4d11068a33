//! The deciding half of an offline path tracer.
//!
//! A path tracer casts rays from a camera into a scene of spheres, follows them
//! from surface to surface and averages what comes back into the pixels of an
//! image. Most of that is arithmetic on real numbers, and the arithmetic is left
//! to whoever links this library. What the library holds is the course of a
//! render and every decision that is taken on the way, each with its contract:
//!
//! - the order in which pixels and samples are made, and the path that is
//!   followed for a sample ([`rendering::renderer`]);
//! - which of its two roots a ray takes at a sphere, and which sphere of a scene
//!   it meets first ([`math::geometry`], [`world`]);
//! - whether a drawn vector is taken for a direction ([`rendering::sampler`]);
//! - whether a material lets a path go on ([`rendering::material`]);
//! - at which level a colour is written, and the text of the finished image
//!   ([`color`], [`rendering::image`]);
//! - which material a configured object refers to, and how the fields of a
//!   configuration are taken apart ([`config`]);
//! - how far the work has come, and the line that shows it ([`progressbar`]).
//!
//! Real numbers cross the border in three ways. Where the library has to compare
//! one, it takes its [`math::rank::Rank`], an integer. Where it only has to keep
//! one and hand it back (a centre, a radius, an albedo), its types are generic in
//! the vector type `V` and the scalar type `S` of the caller. And where a real
//! number has to be computed in the course of a render, the caller hands in the
//! function that computes it.

pub mod color;
pub mod config;
pub mod math;
pub mod progressbar;
pub mod rendering;
pub mod world;
