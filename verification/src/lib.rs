//! The discrete core of a small sphere ray tracer.
//!
//! A renderer of this kind spends its time in single-precision arithmetic: it intersects
//! rays with spheres, shades the hits and adds up what each bounce contributes. Around that
//! arithmetic stand decisions that are exact: which pixel an index names, which of the
//! objects a ray meets comes first, when a ray stops bouncing, and which byte a channel
//! becomes. Those decisions are this crate. Numbers reach it as binary32 bit patterns and
//! as indices, and every function says in its contract what it returns.

pub mod binary32;
pub mod color;
pub mod nearest;
pub mod tracer;
pub mod viewport;
