//! Linear bitmaps: rows of pixels with no tiling.

use vstd::arithmetic::power2::pow2;
use vstd::prelude::*;

use crate::bit_cursor::MAX_BUFFER_LEN;
use crate::bit_order::BitOrderTag;
use crate::bit_cursor::bit_len;
use crate::layout::{
    lemma_nested_strides, lemma_renders_whole_region, lemma_zero_buffer_renders_zero, palette_size, BitLayout,
    PalettePixel,
};

verus! {

/// A linear bitmap of `bpp`-bit pixels, each followed by `px_pad` unused bits,
/// each row followed by `row_pad` unused bits. Bit `bit_i` of pixel (`x`, `y`) is
/// at `offset + y * bits_per_row(width) + x * bits_per_pixel + bit_i`, and the
/// bits of a pixel are assembled least significant first.
#[derive(Clone, Copy, Debug, PartialEq, Eq, Structural)]
pub struct NbppPalettedGraphics {
    /// How bits are fetched from the data bytes.
    pub data_bit_order: BitOrderTag,
    pub bpp: usize,
    pub px_pad: usize,
    pub row_pad: usize,
}

impl NbppPalettedGraphics {
    pub open spec fn bits_per_pixel_spec(&self) -> int {
        self.bpp + self.px_pad
    }

    pub open spec fn bits_per_row_spec(&self, w: int) -> int {
        self.bits_per_pixel_spec() * w + self.row_pad
    }

    /// Between 1 and 8 bits per pixel, and the bits of a pixel fit in a `usize`.
    pub open spec fn wf(&self) -> bool {
        &&& 1 <= self.bpp <= 8
        &&& self.bits_per_pixel_spec() <= usize::MAX
    }

    /// Whether the bits of a row of `w` pixels can be counted in a `usize`.
    pub open spec fn row_fits(&self, w: int) -> bool {
        &&& self.bits_per_pixel_spec() * w <= usize::MAX
        &&& self.bits_per_row_spec(w) <= usize::MAX
    }

    /// An image `w` pixels wide and `h` high, as one cell of a layout.
    pub open spec fn layout_spec(&self, w: int, h: int) -> BitLayout {
        BitLayout {
            data_order: self.data_bit_order,
            assembly_order: BitOrderTag::LsbFirst,
            depth: self.bpp,
            cell_width: w as usize,
            cell_height: h as usize,
            bits_per_cell: 0,
            row_stride: self.bits_per_row_spec(w) as usize,
            pixel_stride: self.bits_per_pixel_spec() as usize,
            depth_stride: 1,
        }
    }

    pub fn new(data_bit_order: BitOrderTag, bpp: usize, px_pad: usize, row_pad: usize) -> (r: Self)
        requires
            (Self { data_bit_order, bpp, px_pad, row_pad }).wf(),
        ensures
            r == (Self { data_bit_order, bpp, px_pad, row_pad }),
            r.wf(),
    {
        Self { data_bit_order, bpp, px_pad, row_pad }
    }

    /// `2^bpp`.
    pub fn num_palette_colors(&self) -> (r: usize)
        requires
            self.wf(),
        ensures
            r == pow2(self.bpp as nat),
    {
        palette_size(self.bpp)
    }

    pub fn bits_per_pixel(&self) -> (r: usize)
        requires
            self.wf(),
        ensures
            r == self.bits_per_pixel_spec(),
    {
        self.bpp + self.px_pad
    }

    pub fn bits_per_row(&self, w: usize) -> (r: usize)
        requires
            self.wf(),
            self.row_fits(w as int),
        ensures
            r == self.bits_per_row_spec(w as int),
    {
        (self.bpp + self.px_pad) * w + self.row_pad
    }

    /// Decodes an image `w` pixels wide and `h` high starting at bit `bit_offs`
    /// of `bytes`, row by row.
    pub fn render(&self, bytes: &[u8], bit_offs: u8, w: usize, h: usize) -> (out: Vec<PalettePixel>)
        requires
            self.wf(),
            self.row_fits(w as int),
            bytes@.len() <= MAX_BUFFER_LEN,
        ensures
            self.layout_spec(w as int, h as int).renders(bytes@, bit_offs as int, 1, 1, out@),
    {
        let layout = BitLayout {
            data_order: self.data_bit_order,
            assembly_order: BitOrderTag::LsbFirst,
            depth: self.bpp,
            cell_width: w,
            cell_height: h,
            bits_per_cell: 0,
            row_stride: self.bits_per_row(w),
            pixel_stride: self.bits_per_pixel(),
            depth_stride: 1,
        };
        layout.render_cells(bytes, bit_offs as usize, 1, 1)
    }
}

/// One bit per pixel, most significant bit first.
pub open spec fn lin_1bpp_msb_first_format() -> NbppPalettedGraphics {
    NbppPalettedGraphics { data_bit_order: BitOrderTag::MsbFirst, bpp: 1, px_pad: 0, row_pad: 0 }
}

/// One bit per pixel, least significant bit first.
pub open spec fn lin_1bpp_lsb_first_format() -> NbppPalettedGraphics {
    NbppPalettedGraphics { data_bit_order: BitOrderTag::LsbFirst, bpp: 1, px_pad: 0, row_pad: 0 }
}

pub fn lin_1bpp_msb_first() -> (r: NbppPalettedGraphics)
    ensures
        r == lin_1bpp_msb_first_format(),
        r.wf(),
{
    NbppPalettedGraphics::new(BitOrderTag::MsbFirst, 1, 0, 0)
}

pub fn lin_1bpp_lsb_first() -> (r: NbppPalettedGraphics)
    ensures
        r == lin_1bpp_lsb_first_format(),
        r.wf(),
{
    NbppPalettedGraphics::new(BitOrderTag::LsbFirst, 1, 0, 0)
}

/// Decoding an all-zero buffer that holds the whole image (`h` rows of
/// `bits_per_row(w)` bits from `offset`) emits every pixel of the image, each
/// with palette index 0, whatever the bit order and paddings.
pub proof fn lemma_zero_buffer_renders_zero_image(
    codec: NbppPalettedGraphics,
    bytes: Seq<u8>,
    offset: int,
    w: usize,
    h: usize,
    out: Seq<PalettePixel>,
)
    requires
        codec.wf(),
        codec.row_fits(w as int),
        0 <= offset,
        forall|i: int| 0 <= i < bytes.len() ==> bytes[i] == 0u8,
        offset + h * codec.bits_per_row_spec(w as int) <= bit_len(bytes),
        codec.layout_spec(w as int, h as int).renders(bytes, offset, 1, 1, out),
    ensures
        out.len() == w * h,
        forall|k: int| 0 <= k < out.len() ==> (#[trigger] out[k]).index == 0u8,
{
    let l = codec.layout_spec(w as int, h as int);
    let row = codec.bits_per_row_spec(w as int);
    let px_bits = codec.bits_per_pixel_spec();
    lemma_zero_buffer_renders_zero(l, bytes, offset, 1, 1, out);
    assert(l.pixel_count(1, 1) == w * h) by (nonlinear_arith)
        requires
            l.pixel_count(1, 1) == 1 * 1 * l.cell_height * l.cell_width,
            l.cell_width == w,
            l.cell_height == h,
    ;
    assert forall|py: int, px: int, j: int|
        0 <= py < l.cell_height && 0 <= px < l.cell_width && 0 <= j < l.depth implies #[trigger] (py * l.row_stride
            + px * l.pixel_stride + j * l.depth_stride) < h * row by {
        assert(w * px_bits <= row) by (nonlinear_arith)
            requires
                row == px_bits * w + codec.row_pad,
                codec.row_pad >= 0,
        ;
        lemma_nested_strides(j, px, py, codec.bpp as int, w as int, h as int, px_bits, row);
        assert(j * l.depth_stride == j) by (nonlinear_arith)
            requires
                l.depth_stride == 1,
        ;
        assert(h * row == row * h) by (nonlinear_arith);
    }
    lemma_renders_whole_region(l, bytes, offset, 1, 1, out, h * row);
}

} // verus!
