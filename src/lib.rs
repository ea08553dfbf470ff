//! Discrete core of a small 2D arcade simulation: a uniform-grid spatial
//! index, an entity store with disjoint pair access, a hash-seeded random
//! source, the supply and score rules, and the fixed-step tick clock.

pub mod clock;
pub mod control;
pub mod entity;
pub mod input;
pub mod object;
pub mod rng;
pub mod spatial;
pub mod spatial_node;
pub mod world;
