//! The explicit random stream: every draw is a pure function of the world's
//! seed and of a key naming who draws, when, and for what.

use vstd::prelude::*;

verus! {

/// Scale of every probability and gene value: 1000 stands for 1.
pub const PER_MILLE: u64 = 1000;

/// Who draws and when: the world's seed, the tick, and the drawing organism.
#[derive(Clone, Copy, Debug, PartialEq, Eq, Structural)]
pub struct RngKey {
    pub seed: u64,
    pub tick: u64,
    pub id: u64,
}

/// The 64-bit finalizer of the SplitMix generator.
pub open spec fn spec_mix(z: u64) -> u64 {
    let a = (z ^ (z >> 30u64)).wrapping_mul(0xbf58476d1ce4e5b9u64);
    let b = (a ^ (a >> 27u64)).wrapping_mul(0x94d049bb133111ebu64);
    b ^ (b >> 31u64)
}

/// The value drawn for `key`, in the sub-stream `stream`, at position `index`.
pub open spec fn spec_draw(key: RngKey, stream: u64, index: u64) -> u64 {
    spec_mix(
        spec_mix(spec_mix(spec_mix(key.seed ^ stream).wrapping_add(key.tick)).wrapping_add(key.id)).wrapping_add(
            index,
        ),
    )
}

/// A draw reduced to a per-mille roll in `0..1000`.
pub open spec fn spec_roll(key: RngKey, stream: u64, index: u64) -> u64 {
    spec_draw(key, stream, index) % PER_MILLE
}

pub fn mix(z: u64) -> (r: u64)
    ensures
        r == spec_mix(z),
{
    let a = (z ^ (z >> 30u64)).wrapping_mul(0xbf58476d1ce4e5b9u64);
    let b = (a ^ (a >> 27u64)).wrapping_mul(0x94d049bb133111ebu64);
    b ^ (b >> 31u64)
}

pub fn draw(key: RngKey, stream: u64, index: u64) -> (r: u64)
    ensures
        r == spec_draw(key, stream, index),
{
    let s = mix(key.seed ^ stream);
    let t = mix(s.wrapping_add(key.tick));
    let u = mix(t.wrapping_add(key.id));
    mix(u.wrapping_add(index))
}

pub fn roll(key: RngKey, stream: u64, index: u64) -> (r: u64)
    ensures
        r == spec_roll(key, stream, index),
        r < PER_MILLE,
{
    draw(key, stream, index) % PER_MILLE
}

} // verus!
