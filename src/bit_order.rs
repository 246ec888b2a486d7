//! Bit-order strategies: where the n-th logical bit of a storage register lies.

use vstd::prelude::*;

verus! {

/// Maps a logical bit index inside a storage register to a physical bit
/// position, where physical position 0 is the least significant bit.
#[derive(Clone, Copy, Debug, PartialEq, Eq, Structural)]
pub enum BitOrderTag {
    /// The first logical bit is the most significant one.
    MsbFirst,
    /// The first logical bit is the least significant one.
    LsbFirst,
    /// Most significant bit first, with the two nibbles of each byte swapped.
    HiLoNibbleSwap,
}

/// The register widths (in bits) a bit order is defined over.
pub open spec fn is_register_width(width: u32) -> bool {
    width == 8 || width == 16 || width == 32 || width == 64
}

/// Physical position of logical bit `index` in a register of `width` bits.
pub open spec fn physical_position_of(order: BitOrderTag, width: u32, index: u32) -> u32 {
    match order {
        BitOrderTag::MsbFirst => (width - 1 - index) as u32,
        BitOrderTag::LsbFirst => index,
        BitOrderTag::HiLoNibbleSwap => (width - 1 - (index ^ 4u32)) as u32,
    }
}

/// The logical index whose physical position is `position`: the inverse of
/// `physical_position_of`.
pub open spec fn logical_index_of(order: BitOrderTag, width: u32, position: u32) -> u32 {
    match order {
        BitOrderTag::MsbFirst => (width - 1 - position) as u32,
        BitOrderTag::LsbFirst => position,
        BitOrderTag::HiLoNibbleSwap => ((width - 1 - position) as u32) ^ 4u32,
    }
}

proof fn lemma_nibble_swap_in_register(index: u32, width: u32)
    by (bit_vector)
    requires
        width == 8u32 || width == 16u32 || width == 32u32 || width == 64u32,
        index < width,
    ensures
        (index ^ 4u32) < width,
        (index ^ 4u32) ^ 4u32 == index,
{
}

/// Every bit order is a bijection from the logical indices `0..width` onto the
/// physical positions `0..width`: each position is reached by exactly one index.
pub proof fn lemma_physical_position_bijective(order: BitOrderTag, width: u32)
    requires
        is_register_width(width),
    ensures
        forall|i: u32| i < width ==> #[trigger] physical_position_of(order, width, i) < width,
        forall|i: u32, j: u32|
            i < width && j < width && #[trigger] physical_position_of(order, width, i)
                == #[trigger] physical_position_of(order, width, j) ==> i == j,
        forall|p: u32|
            p < width ==> #[trigger] logical_index_of(order, width, p) < width
                && physical_position_of(order, width, logical_index_of(order, width, p)) == p,
{
    assert forall|i: u32| i < width implies #[trigger] physical_position_of(order, width, i) < width by {
        lemma_nibble_swap_in_register(i, width);
    }
    assert forall|i: u32, j: u32|
        i < width && j < width && #[trigger] physical_position_of(order, width, i)
            == #[trigger] physical_position_of(order, width, j) implies i == j by {
        lemma_nibble_swap_in_register(i, width);
        lemma_nibble_swap_in_register(j, width);
    }
    assert forall|p: u32| p < width implies #[trigger] logical_index_of(order, width, p) < width
        && physical_position_of(order, width, logical_index_of(order, width, p)) == p by {
        lemma_nibble_swap_in_register((width - 1 - p) as u32, width);
    }
}

impl BitOrderTag {
    /// Physical position of logical bit `index` in a register of `width` bits.
    pub fn physical_position(self, width: u32, index: u32) -> (r: u32)
        requires
            is_register_width(width),
            index < width,
        ensures
            r == physical_position_of(self, width, index),
            r < width,
    {
        match self {
            BitOrderTag::MsbFirst => width - 1 - index,
            BitOrderTag::LsbFirst => index,
            BitOrderTag::HiLoNibbleSwap => {
                proof {
                    lemma_nibble_swap_in_register(index, width);
                }
                width - 1 - (index ^ 4)
            },
        }
    }
}

} // verus!
