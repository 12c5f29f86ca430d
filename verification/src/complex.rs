//! Complex samples as they lie in a raw plane.
//!
//! A complex sample takes eight bytes: a real and an imaginary part, each a
//! 32-bit big-endian float. This module cuts a plane into such samples by
//! position and leaves the bytes as they are.

use vstd::prelude::*;

verus! {

/// One complex sample: the bytes of its real part, then of its imaginary
/// part.
pub type C32Layout = [[u8; 4]; 2];

/// The bytes that one complex sample takes.
pub const SAMPLE_BYTES: usize = 8;

/// Whether `z` is the sample that `plane` holds at position `index`: its
/// real part is the first four of the eight bytes there, its imaginary part
/// the last four.
pub open spec fn is_sample(plane: Seq<u8>, index: int, z: C32Layout) -> bool {
    let at = SAMPLE_BYTES * index;
    &&& z@[0]@ == plane.subrange(at, at + 4)
    &&& z@[1]@ == plane.subrange(at + 4, at + 8)
}

/// The number of whole samples that a plane holds.
pub fn sample_count(plane: &[u8]) -> (n: usize)
    ensures
        n == plane@.len() / (SAMPLE_BYTES as nat),
{
    plane.len() / SAMPLE_BYTES
}

/// The sample at position `index` of a plane; `None` where the plane ends
/// before the end of that sample.
pub fn sample(plane: &[u8], index: usize) -> (res: Option<C32Layout>)
    ensures
        res is Some <==> SAMPLE_BYTES * (index + 1) <= plane@.len(),
        res matches Some(z) ==> is_sample(plane@, index as int, z),
{
    if index >= plane.len() / SAMPLE_BYTES {
        return None;
    }
    let at = SAMPLE_BYTES * index;
    let z: C32Layout = [
        [plane[at], plane[at + 1], plane[at + 2], plane[at + 3]],
        [plane[at + 4], plane[at + 5], plane[at + 6], plane[at + 7]],
    ];
    assert(z@[0]@ =~= plane@.subrange(at as int, at + 4));
    assert(z@[1]@ =~= plane@.subrange(at + 4, at + 8));
    Some(z)
}

} // verus!
