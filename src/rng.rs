//! Reproducible randomness: a value is the hash of the world seed and of a
//! context key, so a seed and a sequence of keys always give the same
//! values.
use vstd::prelude::*;

use std::hash::{Hash, Hasher};

verus! {

/// Hash of the seed followed by a sequence number.
pub uninterp spec fn seq_hash(seed: u64, n: u32) -> u64;

/// Hash of the seed followed by the tuple `(n, tag)`.
pub uninterp spec fn tagged_hash(seed: u64, n: u32, tag: Seq<char>) -> u64;

/// Hash of the seed followed by the tuple `(v, tag)`.
pub uninterp spec fn wide_tagged_hash(seed: u64, v: u64, tag: Seq<char>) -> u64;

/// Relies on `std::hash::DefaultHasher`: every hasher made by `new` is the
/// same, so the result depends on `seed` and `n` alone.
#[verifier::external_body]
fn hash_seq(seed: u64, n: u32) -> (r: u64)
    ensures
        r == seq_hash(seed, n),
{
    let mut hasher = std::hash::DefaultHasher::new();
    seed.hash(&mut hasher);
    n.hash(&mut hasher);
    hasher.finish()
}

/// Relies on `std::hash::DefaultHasher` and the `Hash` impl of a `(u32,
/// &str)` tuple: the result depends on the arguments alone.
#[verifier::external_body]
fn hash_tagged(seed: u64, n: u32, tag: &str) -> (r: u64)
    ensures
        r == tagged_hash(seed, n, tag@),
{
    let mut hasher = std::hash::DefaultHasher::new();
    seed.hash(&mut hasher);
    (n, tag).hash(&mut hasher);
    hasher.finish()
}

/// Relies on `std::hash::DefaultHasher` and the `Hash` impl of a `(u64,
/// &str)` tuple: the result depends on the arguments alone.
#[verifier::external_body]
fn hash_wide_tagged(seed: u64, v: u64, tag: &str) -> (r: u64)
    ensures
        r == wide_tagged_hash(seed, v, tag@),
{
    let mut hasher = std::hash::DefaultHasher::new();
    seed.hash(&mut hasher);
    (v, tag).hash(&mut hasher);
    hasher.finish()
}

/// What a draw is for; its text tells draws of one sequence number apart.
#[derive(Clone, Copy, Debug, PartialEq, Eq, Structural)]
pub enum HashTag {
    Vel,
    VelAngle,
    AngVel,
    AsteroidNum,
}

/// One of the two axes of a drawn vector.
#[derive(Clone, Copy, Debug, PartialEq, Eq, Structural)]
pub enum Axis {
    X,
    Y,
}

/// The context that a random value is drawn for.
#[derive(Clone, Copy, Debug, PartialEq, Eq, Structural)]
pub enum HashKey {
    /// A sequence number alone.
    Sequence(u32),
    /// A sequence number and what the draw is for.
    Tagged(u32, HashTag),
    /// One axis of a vector, keyed by the hash drawn for the whole vector.
    Axis(u64, Axis),
}

pub open spec fn tag_text(t: HashTag) -> Seq<char> {
    match t {
        HashTag::Vel => seq!['v', 'e', 'l'],
        HashTag::VelAngle => seq!['v', 'e', 'l', '_', 'a', 'n', 'g', 'l', 'e'],
        HashTag::AngVel => seq!['a', 'n', 'g', '_', 'v', 'e', 'l'],
        HashTag::AsteroidNum => seq!['a', 's', 't', 'e', 'r', 'o', 'i', 'd', '_', 'n', 'u', 'm'],
    }
}

pub open spec fn axis_text(a: Axis) -> Seq<char> {
    match a {
        Axis::X => seq!['x'],
        Axis::Y => seq!['y'],
    }
}

/// The hash that a draw for `key` under `seed` starts from.
pub open spec fn key_hash(seed: u64, key: HashKey) -> u64 {
    match key {
        HashKey::Sequence(n) => seq_hash(seed, n),
        HashKey::Tagged(n, t) => tagged_hash(seed, n, tag_text(t)),
        HashKey::Axis(v, a) => wide_tagged_hash(seed, v, axis_text(a)),
    }
}

fn tag_str(t: HashTag) -> (r: &'static str)
    ensures
        r@ == tag_text(t),
{
    match t {
        HashTag::Vel => {
            proof {
                reveal_strlit("vel");
            }
            "vel"
        },
        HashTag::VelAngle => {
            proof {
                reveal_strlit("vel_angle");
            }
            "vel_angle"
        },
        HashTag::AngVel => {
            proof {
                reveal_strlit("ang_vel");
            }
            "ang_vel"
        },
        HashTag::AsteroidNum => {
            proof {
                reveal_strlit("asteroid_num");
            }
            "asteroid_num"
        },
    }
}

fn axis_str(a: Axis) -> (r: &'static str)
    ensures
        r@ == axis_text(a),
{
    match a {
        Axis::X => {
            proof {
                reveal_strlit("x");
            }
            "x"
        },
        Axis::Y => {
            proof {
                reveal_strlit("y");
            }
            "y"
        },
    }
}

/// The 64-bit hash of `seed` and `value`: the same arguments always give
/// the same result.
pub fn _hash_rand(seed: u64, value: HashKey) -> (r: u64)
    ensures
        r == key_hash(seed, value),
{
    match value {
        HashKey::Sequence(n) => hash_seq(seed, n),
        HashKey::Tagged(n, t) => hash_tagged(seed, n, tag_str(t)),
        HashKey::Axis(v, a) => hash_wide_tagged(seed, v, axis_str(a)),
    }
}

/// An integer of `start_range .. end_range` picked by hash `h`: its low 32
/// bits modulo the range's width, past the start. An empty range gives its
/// start.
pub open spec fn range_pick(h: u64, start_range: u32, end_range: u32) -> u32 {
    if end_range <= start_range {
        start_range
    } else {
        (start_range + (h as u32) % ((end_range - start_range) as u32)) as u32
    }
}

/// `range_pick` of an already drawn hash.
pub fn pick_in_range(h: u64, start_range: u32, end_range: u32) -> (r: u32)
    ensures
        r == range_pick(h, start_range, end_range),
        start_range < end_range ==> start_range <= r < end_range,
        end_range <= start_range ==> r == start_range,
{
    let v = h as u32;
    if end_range <= start_range {
        // normally we are selecting from [start,end), but if that is empty just choose start
        start_range
    } else {
        start_range + v % (end_range - start_range)
    }
}

/// An integer of `start_range .. end_range` drawn for `value` under `seed`;
/// an empty range gives its start.
pub fn hash_rand_u32(seed: u64, value: HashKey, start_range: u32, end_range: u32) -> (r: u32)
    ensures
        r == range_pick(key_hash(seed, value), start_range, end_range),
        start_range < end_range ==> start_range <= r < end_range,
        end_range <= start_range ==> r == start_range,
{
    let h = _hash_rand(seed, value);
    pick_in_range(h, start_range, end_range)
}

/// A value of type `T` drawn from a range.
pub trait HashRand<T>: Sized {
    spec fn hash_rand_spec(self, seed: u64, value: HashKey) -> T;

    fn hash_rand(self, seed: u64, value: HashKey) -> (r: T)
        ensures
            r == self.hash_rand_spec(seed, value),
    ;
}

impl HashRand<u32> for std::ops::Range<u32> {
    open spec fn hash_rand_spec(self, seed: u64, value: HashKey) -> u32 {
        range_pick(key_hash(seed, value), self.start, self.end)
    }

    fn hash_rand(self, seed: u64, value: HashKey) -> (r: u32) {
        hash_rand_u32(seed, value, self.start, self.end)
    }
}

/// Number of distinct obstacle outlines.
pub const ASTEROID_KINDS: u32 = 6;

/// Which of the obstacle outlines a new obstacle of sequence number `seq`
/// gets.
pub fn asteroid_kind(seed: u64, seq: u32) -> (r: u32)
    ensures
        r < ASTEROID_KINDS,
        r == range_pick(key_hash(seed, HashKey::Tagged(seq, HashTag::AsteroidNum)), 0, ASTEROID_KINDS),
{
    (0..ASTEROID_KINDS).hash_rand(seed, HashKey::Tagged(seq, HashTag::AsteroidNum))
}

} // verus!
