//! The deciding core of a small path tracer: which root of a ray-sphere
//! crossing is a hit, which primitive of a scene is hit first, how each
//! surface sends a ray on, when a path ends, and how the pixels of an image
//! come together in one buffer, whatever the order in which workers hand
//! them in.
//!
//! Numbers are carried as bit patterns ([`scalar::Scalar`]) and only ever
//! compared, moved and cut down to bytes here; the arithmetic on them is the
//! caller's.

pub mod canvas;
pub mod element;
pub mod material;
pub mod ray;
pub mod raycaster;
pub mod scalar;
pub mod scene;
pub mod vector;
