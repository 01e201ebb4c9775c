//! Captured octets, held in the reference-counted buffers of the `bytes` crate.

use vstd::prelude::*;

verus! {

/// Declares the buffer type of the `bytes` crate; nothing is claimed of its inside.
#[verifier::external_type_specification]
#[verifier::external_body]
pub struct ExBytes(bytes::Bytes);

/// The octets that a buffer holds, in order.
pub uninterp spec fn octets_of(buffer: bytes::Bytes) -> Seq<u8>;

/// `Bytes::copy_from_slice` makes a buffer that holds exactly the octets of the slice.
pub assume_specification[ bytes::Bytes::copy_from_slice ](data: &[u8]) -> (buffer: bytes::Bytes)
    ensures
        octets_of(buffer) == data@,
;

/// `Bytes::len` returns the number of octets in the buffer.
pub assume_specification[ bytes::Bytes::len ](buffer: &bytes::Bytes) -> (length: usize)
    ensures
        length == octets_of(*buffer).len(),
;

/// `Bytes::slice` on the range from `start` up to `end` returns a buffer with the octets of that
/// range. It panics where the range is not inside the buffer, so such ranges are left out.
#[verifier::external_body]
pub(crate) fn buffer_range(buffer: &bytes::Bytes, start: usize, end: usize) -> (part: bytes::Bytes)
    requires
        start <= end <= octets_of(*buffer).len(),
    ensures
        octets_of(part) == octets_of(*buffer).subrange(start as int, end as int),
{
    buffer.slice(start..end)
}

} // verus!
