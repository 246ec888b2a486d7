//! Bounds-checked single-bit reads from a byte buffer.

use bitvec::order::{Lsb0, Msb0};
use bitvec::view::BitView;
use vstd::prelude::*;

use crate::bit_order::{physical_position_of, BitOrderTag};

verus! {

/// The longest buffer, in bytes, that can be decoded: its bits must stay
/// addressable by a bit-slice view.
pub const MAX_BUFFER_LEN: usize = usize::MAX / 64;

/// The bit length of a decodable buffer fits in a `usize`.
pub proof fn lemma_bit_len_fits(len: usize)
    requires
        len <= MAX_BUFFER_LEN,
    ensures
        len * 8 <= usize::MAX,
{
}

/// Returned when a bit index lies at or past the end of the buffer.
#[derive(Clone, Copy, Debug, PartialEq, Eq, Structural)]
pub struct OutOfRange;

/// Bit `position` of `b`, position 0 being the least significant bit.
pub open spec fn byte_bit(b: u8, position: u32) -> bool {
    (b >> (position as u8)) & 1u8 == 1u8
}

/// Number of bits in a buffer.
pub open spec fn bit_len(bytes: Seq<u8>) -> int {
    bytes.len() as int * 8
}

/// The bit at absolute index `index` of `bytes`, each byte being an 8-bit
/// register read under `order`.
pub open spec fn buffer_bit(bytes: Seq<u8>, order: BitOrderTag, index: int) -> bool {
    byte_bit(bytes[index / 8], physical_position_of(order, 8, (index % 8) as u32))
}

/// Relies on bitvec's `BitSlice<u8, Msb0>` view of a byte slice and its
/// indexing: bit `i` is bit `7 - i % 8` of byte `i / 8`. The view panics on
/// slices longer than bitvec can address, indexing on `i` past the end.
#[verifier::external_body]
fn msb0_bit(bytes: &[u8], i: usize) -> (r: bool)
    requires
        bytes@.len() <= MAX_BUFFER_LEN,
        i < bytes@.len() * 8,
    ensures
        r == byte_bit(bytes@[i as int / 8], (7 - i % 8) as u32),
{
    bytes.view_bits::<Msb0>()[i]
}

/// Relies on bitvec's `BitSlice<u8, Lsb0>` view of a byte slice and its
/// indexing: bit `i` is bit `i % 8` of byte `i / 8`. The view panics on
/// slices longer than bitvec can address, indexing on `i` past the end.
#[verifier::external_body]
fn lsb0_bit(bytes: &[u8], i: usize) -> (r: bool)
    requires
        bytes@.len() <= MAX_BUFFER_LEN,
        i < bytes@.len() * 8,
    ensures
        r == byte_bit(bytes@[i as int / 8], (i % 8) as u32),
{
    bytes.view_bits::<Lsb0>()[i]
}

proof fn lemma_nibble_swap_same_byte(i: usize)
    by (bit_vector)
    ensures
        (i ^ 4usize) / 8 == i / 8,
        (i ^ 4usize) % 8 == (i % 8) ^ 4usize,
{
}

proof fn lemma_nibble_swap_narrow(x: usize)
    requires
        x < 8,
    ensures
        (x ^ 4usize) as u32 == (x as u32) ^ 4u32,
{
    let y = x as u32;
    assert((y ^ 4u32) as usize == x ^ 4usize) by (bit_vector)
        requires
            y as usize == x,
            x < 8,
    ;
}

/// Reads the bit at absolute index `index` of `bytes` under `order`, or reports
/// that the index lies outside the buffer.
pub fn read_bit(bytes: &[u8], order: BitOrderTag, index: usize) -> (r: Result<bool, OutOfRange>)
    requires
        bytes@.len() <= MAX_BUFFER_LEN,
    ensures
        r is Err <==> index >= bit_len(bytes@),
        r matches Ok(b) ==> b == buffer_bit(bytes@, order, index as int),
{
    if index / 8 >= bytes.len() {
        return Err(OutOfRange);
    }
    match order {
        BitOrderTag::MsbFirst => Ok(msb0_bit(bytes, index)),
        BitOrderTag::LsbFirst => Ok(lsb0_bit(bytes, index)),
        BitOrderTag::HiLoNibbleSwap => {
            proof {
                lemma_nibble_swap_same_byte(index);
                lemma_nibble_swap_narrow(index % 8);
            }
            Ok(msb0_bit(bytes, index ^ 4))
        },
    }
}

} // verus!
