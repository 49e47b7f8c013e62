//! The 16 extension bits of a message header, held in a `bitvec` bit array.
//!
//! For the ascending-bootstrap pull messages the extension bits carry the
//! length of the payload that follows the pull type and the id.

use bitvec::array::BitArray;
use vstd::prelude::*;

verus! {

/// The extension bits of a message header: a 16-bit `bitvec` bit array in a
/// private field, whose buffer is `extension_bits`.
#[verifier::external_body]
pub struct HeaderExtensions {
    bits: BitArray<u16>,
}

/// The 16-bit buffer that the header's bit array holds.
pub uninterp spec fn extension_bits(e: HeaderExtensions) -> u16;

/// Calls `bitvec::array::BitArray::new`, which wraps `data` as the array's
/// buffer: the buffer of the result is `data`.
#[verifier::external_body]
fn bit_array_new(data: u16) -> (r: HeaderExtensions)
    ensures
        extension_bits(r) == data,
{
    HeaderExtensions { bits: BitArray::new(data) }
}

/// Reads the public field `data` of the `bitvec::array::BitArray`, which is
/// its buffer.
#[verifier::external_body]
fn bit_array_data(e: &HeaderExtensions) -> (r: u16)
    ensures
        r == extension_bits(*e),
{
    e.bits.data
}

impl HeaderExtensions {
    /// Extension bits that hold `data`.
    pub fn new(data: u16) -> (r: HeaderExtensions)
        ensures
            extension_bits(r) == data,
    {
        bit_array_new(data)
    }

    /// The 16 bits the header carries.
    pub fn data(&self) -> (r: u16)
        ensures
            r == extension_bits(*self),
    {
        bit_array_data(self)
    }
}

/// Bytes of an ascending-bootstrap pull message before its payload: the pull
/// type and the 64-bit id.
pub const PULL_PREFIX_LEN: u16 = 9;

/// The extension bits of an ascending-bootstrap pull message whose body is
/// `payload_len` bytes long: the length of what follows the pull type and id.
pub fn pull_header_extensions(payload_len: u16) -> (r: HeaderExtensions)
    requires
        payload_len >= PULL_PREFIX_LEN,
    ensures
        extension_bits(r) == payload_len - PULL_PREFIX_LEN,
{
    HeaderExtensions::new(payload_len - 1 - 8)
}

/// The full size of an ascending-bootstrap pull message body whose header
/// carries `extensions`: pull type, id and payload.
pub fn pull_serialized_size(extensions: &HeaderExtensions) -> (r: usize)
    ensures
        r == 1 + 8 + extension_bits(*extensions),
{
    let payload_len = extensions.data() as usize;
    1 + 8 + payload_len
}

/// The size computed from the header extensions is the body length they
/// were made from.
pub proof fn lemma_header_size_roundtrip(payload_len: u16, extensions: HeaderExtensions)
    requires
        payload_len >= PULL_PREFIX_LEN,
        extension_bits(extensions) == payload_len - PULL_PREFIX_LEN,
    ensures
        1 + 8 + extension_bits(extensions) == payload_len,
{
}

} // verus!
