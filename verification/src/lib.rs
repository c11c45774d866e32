//! The decision core of a small path tracer.
//!
//! Numbers are binary64 values held by their bit patterns. The library
//! compares them, picks between them and flips their signs, all of which is
//! exact; arithmetic that rounds is left to the caller.

pub mod scalar;
pub mod math_util;
pub mod vec3;
pub mod ray;
pub mod hit;
pub mod material;
pub mod scene;
pub mod path;
pub mod frame;
pub mod ppm;
