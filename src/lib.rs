//! Combat core of a 2D arena shooter: a fixed-capacity projectile pool, a
//! per-tick collision resolver, enemy lifecycle, and the time-control and
//! feedback effects driven by combat outcomes.
use vstd::prelude::*;

pub mod allocator;
pub mod collision;
pub mod components;
pub mod enemies;
pub mod fx;
pub mod layers;
pub mod messages;
pub mod pool;
pub mod request;

verus! {

} // verus!
