//! Tile-based graphics: the three ways tile formats lay out their bits.

use vstd::arithmetic::power2::pow2;
use vstd::prelude::*;

use crate::bit_cursor::MAX_BUFFER_LEN;
use crate::bit_order::BitOrderTag;
use crate::bit_cursor::bit_len;
use crate::layout::{assembles, cell_of, column_in_cell, lemma_flat_index_bounds, lemma_nested_strides, lemma_next_cell_index, lemma_renders_whole_region, lemma_zero_buffer_renders_zero, palette_size, row_in_cell, BitLayout, PalettePixel};

verus! {

/// Planar tiles, one plane after another: all rows of plane 0, then all rows of
/// plane 1, and so on. Bit `plane` of pixel (`px_x`, `px_y`) of tile `tile_i` is at
/// `offset + tile_i * bits_per_tile + plane * bits_per_plane + px_y * (tile_w + tile_w_pad) + px_x`.
#[derive(Clone, Copy, Debug, PartialEq, Eq, Structural)]
pub struct PlanarNonInterleavedTileGraphics {
    /// How bits are fetched from the data bytes.
    pub data_bit_order: BitOrderTag,
    /// Which bit of the `planes`-bit palette index each plane sets.
    pub plane_bit_order: BitOrderTag,
    pub planes: usize,
    pub tile_w: usize,
    pub tile_h: usize,
    /// Unused bits after each row of a plane.
    pub tile_w_pad: usize,
    /// Unused bits after each plane.
    pub plane_pad: usize,
    /// Unused bits after each tile.
    pub final_pad: usize,
}

impl PlanarNonInterleavedTileGraphics {
    pub open spec fn bits_per_row_spec(&self) -> int {
        self.tile_w + self.tile_w_pad
    }

    pub open spec fn bits_per_plane_spec(&self) -> int {
        self.bits_per_row_spec() * self.tile_h + self.plane_pad
    }

    pub open spec fn bits_per_tile_spec(&self) -> int {
        self.bits_per_plane_spec() * self.planes + self.final_pad
    }

    /// Between 1 and 8 planes that the plane order can assemble (a nibble swap
    /// needs 4 or 8), and every size of the layout fits in a `usize`.
    pub open spec fn wf(&self) -> bool {
        &&& assembles(self.plane_bit_order, self.planes as int)
        &&& self.bits_per_row_spec() <= usize::MAX
        &&& self.bits_per_row_spec() * self.tile_h <= usize::MAX
        &&& self.bits_per_plane_spec() <= usize::MAX
        &&& self.bits_per_plane_spec() * self.planes <= usize::MAX
        &&& self.bits_per_tile_spec() <= usize::MAX
    }

    pub open spec fn layout_spec(&self) -> BitLayout {
        BitLayout {
            data_order: self.data_bit_order,
            assembly_order: self.plane_bit_order,
            depth: self.planes,
            cell_width: self.tile_w,
            cell_height: self.tile_h,
            bits_per_cell: self.bits_per_tile_spec() as usize,
            row_stride: self.bits_per_row_spec() as usize,
            pixel_stride: 1,
            depth_stride: self.bits_per_plane_spec() as usize,
        }
    }

    pub fn new(
        data_bit_order: BitOrderTag,
        plane_bit_order: BitOrderTag,
        planes: usize,
        tile_w: usize,
        tile_h: usize,
        tile_w_pad: usize,
        plane_pad: usize,
        final_pad: usize,
    ) -> (r: Self)
        requires
            (Self { data_bit_order, plane_bit_order, planes, tile_w, tile_h, tile_w_pad, plane_pad, final_pad }).wf(),
        ensures
            r == (Self { data_bit_order, plane_bit_order, planes, tile_w, tile_h, tile_w_pad, plane_pad, final_pad }),
            r.wf(),
    {
        Self { data_bit_order, plane_bit_order, planes, tile_w, tile_h, tile_w_pad, plane_pad, final_pad }
    }

    /// `2^planes`.
    pub fn num_palette_colors(&self) -> (r: usize)
        requires
            self.wf(),
        ensures
            r == pow2(self.planes as nat),
    {
        palette_size(self.planes)
    }

    pub fn bits_per_tile(&self) -> (r: usize)
        requires
            self.wf(),
        ensures
            r == self.bits_per_tile_spec(),
    {
        let data_bits_per_row = self.tile_w + self.tile_w_pad;
        let data_bits_per_plane = data_bits_per_row * self.tile_h + self.plane_pad;
        data_bits_per_plane * self.planes + self.final_pad
    }

    pub fn tile_width(&self) -> (r: usize)
        ensures
            r == self.tile_w,
    {
        self.tile_w
    }

    pub fn tile_height(&self) -> (r: usize)
        ensures
            r == self.tile_h,
    {
        self.tile_h
    }

    pub fn layout(&self) -> (r: BitLayout)
        requires
            self.wf(),
        ensures
            r == self.layout_spec(),
            r.wf(),
    {
        let data_bits_per_row = self.tile_w + self.tile_w_pad;
        let data_bits_per_plane = data_bits_per_row * self.tile_h + self.plane_pad;
        BitLayout {
            data_order: self.data_bit_order,
            assembly_order: self.plane_bit_order,
            depth: self.planes,
            cell_width: self.tile_w,
            cell_height: self.tile_h,
            bits_per_cell: self.bits_per_tile(),
            row_stride: data_bits_per_row,
            pixel_stride: 1,
            depth_stride: data_bits_per_plane,
        }
    }

    /// Decodes `tiles_w` × `tiles_h` tiles starting at bit `bit_offs` of `bytes`.
    pub fn render(&self, bytes: &[u8], bit_offs: u8, tiles_w: usize, tiles_h: usize) -> (out: Vec<PalettePixel>)
        requires
            self.wf(),
            bytes@.len() <= MAX_BUFFER_LEN,
            tiles_w * self.tile_w <= usize::MAX,
            tiles_h * self.tile_h <= usize::MAX,
        ensures
            self.layout_spec().renders(bytes@, bit_offs as int, tiles_w as int, tiles_h as int, out@),
    {
        self.layout().render_cells(bytes, bit_offs as usize, tiles_w, tiles_h)
    }
}

/// Planar tiles, one row after another: all planes of row 0, then all planes of
/// row 1, and so on. Bit `plane` of pixel (`px_x`, `px_y`) of tile `tile_i` is at
/// `offset + tile_i * bits_per_tile + px_y * bits_per_row + plane * (tile_w + tile_w_pad) + px_x`.
#[derive(Clone, Copy, Debug, PartialEq, Eq, Structural)]
pub struct PlanarInterleavedTileGraphics {
    /// How bits are fetched from the data bytes.
    pub data_bit_order: BitOrderTag,
    /// Which bit of the `planes`-bit palette index each plane sets.
    pub plane_bit_order: BitOrderTag,
    pub planes: usize,
    pub tile_w: usize,
    pub tile_h: usize,
    /// Unused bits after each row of each plane.
    pub tile_w_pad: usize,
    /// Unused bits after each tile.
    pub final_pad: usize,
}

impl PlanarInterleavedTileGraphics {
    pub open spec fn bits_per_plane_row_spec(&self) -> int {
        self.tile_w + self.tile_w_pad
    }

    pub open spec fn bits_per_row_spec(&self) -> int {
        self.bits_per_plane_row_spec() * self.planes
    }

    pub open spec fn bits_per_tile_spec(&self) -> int {
        self.bits_per_row_spec() * self.tile_h + self.final_pad
    }

    /// Between 1 and 8 planes that the plane order can assemble (a nibble swap
    /// needs 4 or 8), and every size of the layout fits in a `usize`.
    pub open spec fn wf(&self) -> bool {
        &&& assembles(self.plane_bit_order, self.planes as int)
        &&& self.bits_per_plane_row_spec() <= usize::MAX
        &&& self.bits_per_row_spec() <= usize::MAX
        &&& self.bits_per_row_spec() * self.tile_h <= usize::MAX
        &&& self.bits_per_tile_spec() <= usize::MAX
    }

    pub open spec fn layout_spec(&self) -> BitLayout {
        BitLayout {
            data_order: self.data_bit_order,
            assembly_order: self.plane_bit_order,
            depth: self.planes,
            cell_width: self.tile_w,
            cell_height: self.tile_h,
            bits_per_cell: self.bits_per_tile_spec() as usize,
            row_stride: self.bits_per_row_spec() as usize,
            pixel_stride: 1,
            depth_stride: self.bits_per_plane_row_spec() as usize,
        }
    }

    pub fn new(
        data_bit_order: BitOrderTag,
        plane_bit_order: BitOrderTag,
        planes: usize,
        tile_w: usize,
        tile_h: usize,
        tile_w_pad: usize,
        final_pad: usize,
    ) -> (r: Self)
        requires
            (Self { data_bit_order, plane_bit_order, planes, tile_w, tile_h, tile_w_pad, final_pad }).wf(),
        ensures
            r == (Self { data_bit_order, plane_bit_order, planes, tile_w, tile_h, tile_w_pad, final_pad }),
            r.wf(),
    {
        Self { data_bit_order, plane_bit_order, planes, tile_w, tile_h, tile_w_pad, final_pad }
    }

    /// `2^planes`.
    pub fn num_palette_colors(&self) -> (r: usize)
        requires
            self.wf(),
        ensures
            r == pow2(self.planes as nat),
    {
        palette_size(self.planes)
    }

    pub fn bits_per_tile(&self) -> (r: usize)
        requires
            self.wf(),
        ensures
            r == self.bits_per_tile_spec(),
    {
        let data_bits_per_plane = self.tile_w + self.tile_w_pad;
        let data_bits_per_row = data_bits_per_plane * self.planes;
        data_bits_per_row * self.tile_h + self.final_pad
    }

    pub fn tile_width(&self) -> (r: usize)
        ensures
            r == self.tile_w,
    {
        self.tile_w
    }

    pub fn tile_height(&self) -> (r: usize)
        ensures
            r == self.tile_h,
    {
        self.tile_h
    }

    pub fn layout(&self) -> (r: BitLayout)
        requires
            self.wf(),
        ensures
            r == self.layout_spec(),
            r.wf(),
    {
        let data_bits_per_plane = self.tile_w + self.tile_w_pad;
        let data_bits_per_row = data_bits_per_plane * self.planes;
        BitLayout {
            data_order: self.data_bit_order,
            assembly_order: self.plane_bit_order,
            depth: self.planes,
            cell_width: self.tile_w,
            cell_height: self.tile_h,
            bits_per_cell: self.bits_per_tile(),
            row_stride: data_bits_per_row,
            pixel_stride: 1,
            depth_stride: data_bits_per_plane,
        }
    }

    /// Decodes `tiles_w` × `tiles_h` tiles starting at bit `bit_offs` of `bytes`.
    pub fn render(&self, bytes: &[u8], bit_offs: u8, tiles_w: usize, tiles_h: usize) -> (out: Vec<PalettePixel>)
        requires
            self.wf(),
            bytes@.len() <= MAX_BUFFER_LEN,
            tiles_w * self.tile_w <= usize::MAX,
            tiles_h * self.tile_h <= usize::MAX,
        ensures
            self.layout_spec().renders(bytes@, bit_offs as int, tiles_w as int, tiles_h as int, out@),
    {
        self.layout().render_cells(bytes, bit_offs as usize, tiles_w, tiles_h)
    }
}

/// Chunky tiles: the `bpp` bits of each pixel are contiguous and assembled
/// least significant first. Bit `bit_i` of pixel (`px_x`, `px_y`) of tile `tile_i` is at
/// `offset + tile_i * bits_per_tile + px_y * bits_per_row + px_x * bpp + bit_i`.
#[derive(Clone, Copy, Debug, PartialEq, Eq, Structural)]
pub struct NonPlanarTileGraphics {
    /// How bits are fetched from the data bytes.
    pub data_bit_order: BitOrderTag,
    pub bpp: usize,
    pub tile_w: usize,
    pub tile_h: usize,
    /// Unused bits after each row.
    pub tile_w_pad: usize,
    /// Unused bits after each tile.
    pub final_pad: usize,
}

impl NonPlanarTileGraphics {
    pub open spec fn bits_per_row_spec(&self) -> int {
        self.bpp * self.tile_w + self.tile_w_pad
    }

    pub open spec fn bits_per_tile_spec(&self) -> int {
        self.bits_per_row_spec() * self.tile_h + self.final_pad
    }

    /// Between 1 and 8 bits per pixel, and every size of the layout fits in a `usize`.
    pub open spec fn wf(&self) -> bool {
        &&& 1 <= self.bpp <= 8
        &&& self.bpp * self.tile_w <= usize::MAX
        &&& self.bits_per_row_spec() <= usize::MAX
        &&& self.bits_per_row_spec() * self.tile_h <= usize::MAX
        &&& self.bits_per_tile_spec() <= usize::MAX
    }

    pub open spec fn layout_spec(&self) -> BitLayout {
        BitLayout {
            data_order: self.data_bit_order,
            assembly_order: BitOrderTag::LsbFirst,
            depth: self.bpp,
            cell_width: self.tile_w,
            cell_height: self.tile_h,
            bits_per_cell: self.bits_per_tile_spec() as usize,
            row_stride: self.bits_per_row_spec() as usize,
            pixel_stride: self.bpp,
            depth_stride: 1,
        }
    }

    pub fn new(
        data_bit_order: BitOrderTag,
        bpp: usize,
        tile_w: usize,
        tile_h: usize,
        tile_w_pad: usize,
        final_pad: usize,
    ) -> (r: Self)
        requires
            (Self { data_bit_order, bpp, tile_w, tile_h, tile_w_pad, final_pad }).wf(),
        ensures
            r == (Self { data_bit_order, bpp, tile_w, tile_h, tile_w_pad, final_pad }),
            r.wf(),
    {
        Self { data_bit_order, bpp, tile_w, tile_h, tile_w_pad, final_pad }
    }

    /// `2^bpp`.
    pub fn num_palette_colors(&self) -> (r: usize)
        requires
            self.wf(),
        ensures
            r == pow2(self.bpp as nat),
    {
        palette_size(self.bpp)
    }

    pub fn bits_per_tile(&self) -> (r: usize)
        requires
            self.wf(),
        ensures
            r == self.bits_per_tile_spec(),
    {
        let data_bits_per_row = self.bpp * self.tile_w + self.tile_w_pad;
        data_bits_per_row * self.tile_h + self.final_pad
    }

    pub fn tile_width(&self) -> (r: usize)
        ensures
            r == self.tile_w,
    {
        self.tile_w
    }

    pub fn tile_height(&self) -> (r: usize)
        ensures
            r == self.tile_h,
    {
        self.tile_h
    }

    pub fn layout(&self) -> (r: BitLayout)
        requires
            self.wf(),
        ensures
            r == self.layout_spec(),
            r.wf(),
    {
        BitLayout {
            data_order: self.data_bit_order,
            assembly_order: BitOrderTag::LsbFirst,
            depth: self.bpp,
            cell_width: self.tile_w,
            cell_height: self.tile_h,
            bits_per_cell: self.bits_per_tile(),
            row_stride: self.bpp * self.tile_w + self.tile_w_pad,
            pixel_stride: self.bpp,
            depth_stride: 1,
        }
    }

    /// Decodes `tiles_w` × `tiles_h` tiles starting at bit `bit_offs` of `bytes`.
    pub fn render(&self, bytes: &[u8], bit_offs: u8, tiles_w: usize, tiles_h: usize) -> (out: Vec<PalettePixel>)
        requires
            self.wf(),
            bytes@.len() <= MAX_BUFFER_LEN,
            tiles_w * self.tile_w <= usize::MAX,
            tiles_h * self.tile_h <= usize::MAX,
        ensures
            self.layout_spec().renders(bytes@, bit_offs as int, tiles_w as int, tiles_h as int, out@),
    {
        self.layout().render_cells(bytes, bit_offs as usize, tiles_w, tiles_h)
    }
}

/// The two-plane 8×8 tiles of the NES: plane 0 rows, then plane 1 rows.
pub open spec fn nes_format() -> PlanarNonInterleavedTileGraphics {
    PlanarNonInterleavedTileGraphics {
        data_bit_order: BitOrderTag::MsbFirst,
        plane_bit_order: BitOrderTag::LsbFirst,
        planes: 2,
        tile_w: 8,
        tile_h: 8,
        tile_w_pad: 0,
        plane_pad: 0,
        final_pad: 0,
    }
}

/// The two-plane 8×8 tiles of the Game Boy: both planes of a row side by side.
pub open spec fn gb_format() -> PlanarInterleavedTileGraphics {
    PlanarInterleavedTileGraphics {
        data_bit_order: BitOrderTag::MsbFirst,
        plane_bit_order: BitOrderTag::LsbFirst,
        planes: 2,
        tile_w: 8,
        tile_h: 8,
        tile_w_pad: 0,
        final_pad: 0,
    }
}

pub fn nes_graphics() -> (r: PlanarNonInterleavedTileGraphics)
    ensures
        r == nes_format(),
        r.wf(),
{
    PlanarNonInterleavedTileGraphics::new(BitOrderTag::MsbFirst, BitOrderTag::LsbFirst, 2, 8, 8, 0, 0, 0)
}

pub fn gb_graphics() -> (r: PlanarInterleavedTileGraphics)
    ensures
        r == gb_format(),
        r.wf(),
{
    PlanarInterleavedTileGraphics::new(BitOrderTag::MsbFirst, BitOrderTag::LsbFirst, 2, 8, 8, 0, 0)
}

/// Chunky 4-bit 8×8 tiles, least significant bit first.
pub fn gba_tile_graphics_4bpp() -> (r: NonPlanarTileGraphics)
    ensures
        r == (NonPlanarTileGraphics {
            data_bit_order: BitOrderTag::LsbFirst,
            bpp: 4,
            tile_w: 8,
            tile_h: 8,
            tile_w_pad: 0,
            final_pad: 0,
        }),
        r.wf(),
{
    NonPlanarTileGraphics::new(BitOrderTag::LsbFirst, 4, 8, 8, 0, 0)
}

/// Chunky 4-bit 8×8 tiles read with the nibbles of each byte swapped.
pub fn genesis_graphics_4bpp() -> (r: NonPlanarTileGraphics)
    ensures
        r == (NonPlanarTileGraphics {
            data_bit_order: BitOrderTag::HiLoNibbleSwap,
            bpp: 4,
            tile_w: 8,
            tile_h: 8,
            tile_w_pad: 0,
            final_pad: 0,
        }),
        r.wf(),
{
    NonPlanarTileGraphics::new(BitOrderTag::HiLoNibbleSwap, 4, 8, 8, 0, 0)
}

/// Chunky 8-bit 8×8 tiles.
pub fn tile_graphics_8bpp() -> (r: NonPlanarTileGraphics)
    ensures
        r == (NonPlanarTileGraphics {
            data_bit_order: BitOrderTag::LsbFirst,
            bpp: 8,
            tile_w: 8,
            tile_h: 8,
            tile_w_pad: 0,
            final_pad: 0,
        }),
        r.wf(),
{
    NonPlanarTileGraphics::new(BitOrderTag::LsbFirst, 8, 8, 8, 0, 0)
}

/// Any tile format.
#[derive(Clone, Copy, Debug, PartialEq, Eq, Structural)]
pub enum TileCodec {
    PlanarNonInterleaved(PlanarNonInterleavedTileGraphics),
    PlanarInterleaved(PlanarInterleavedTileGraphics),
    NonPlanar(NonPlanarTileGraphics),
}

impl TileCodec {
    pub open spec fn wf(&self) -> bool {
        match self {
            TileCodec::PlanarNonInterleaved(c) => c.wf(),
            TileCodec::PlanarInterleaved(c) => c.wf(),
            TileCodec::NonPlanar(c) => c.wf(),
        }
    }

    pub open spec fn layout_spec(&self) -> BitLayout {
        match self {
            TileCodec::PlanarNonInterleaved(c) => c.layout_spec(),
            TileCodec::PlanarInterleaved(c) => c.layout_spec(),
            TileCodec::NonPlanar(c) => c.layout_spec(),
        }
    }

    /// Bits per pixel: the number of planes, or of bits of a chunky pixel.
    pub open spec fn depth_spec(&self) -> nat {
        self.layout_spec().depth as nat
    }

    pub open spec fn bits_per_tile_spec(&self) -> int {
        self.layout_spec().bits_per_cell as int
    }

    pub open spec fn tile_width_spec(&self) -> int {
        self.layout_spec().cell_width as int
    }

    pub open spec fn tile_height_spec(&self) -> int {
        self.layout_spec().cell_height as int
    }

    /// `2^depth`.
    pub fn num_palette_colors(&self) -> (r: usize)
        requires
            self.wf(),
        ensures
            r == pow2(self.depth_spec()),
    {
        match self {
            TileCodec::PlanarNonInterleaved(c) => c.num_palette_colors(),
            TileCodec::PlanarInterleaved(c) => c.num_palette_colors(),
            TileCodec::NonPlanar(c) => c.num_palette_colors(),
        }
    }

    pub fn bits_per_tile(&self) -> (r: usize)
        requires
            self.wf(),
        ensures
            r == self.bits_per_tile_spec(),
    {
        match self {
            TileCodec::PlanarNonInterleaved(c) => c.bits_per_tile(),
            TileCodec::PlanarInterleaved(c) => c.bits_per_tile(),
            TileCodec::NonPlanar(c) => c.bits_per_tile(),
        }
    }

    pub fn tile_width(&self) -> (r: usize)
        ensures
            r == self.tile_width_spec(),
    {
        match self {
            TileCodec::PlanarNonInterleaved(c) => c.tile_width(),
            TileCodec::PlanarInterleaved(c) => c.tile_width(),
            TileCodec::NonPlanar(c) => c.tile_width(),
        }
    }

    pub fn tile_height(&self) -> (r: usize)
        ensures
            r == self.tile_height_spec(),
    {
        match self {
            TileCodec::PlanarNonInterleaved(c) => c.tile_height(),
            TileCodec::PlanarInterleaved(c) => c.tile_height(),
            TileCodec::NonPlanar(c) => c.tile_height(),
        }
    }

    /// Decodes `tiles_w` × `tiles_h` tiles starting at bit `bit_offs` of `bytes`.
    pub fn render(&self, bytes: &[u8], bit_offs: u8, tiles_w: usize, tiles_h: usize) -> (out: Vec<PalettePixel>)
        requires
            self.wf(),
            bytes@.len() <= MAX_BUFFER_LEN,
            tiles_w * self.tile_width_spec() <= usize::MAX,
            tiles_h * self.tile_height_spec() <= usize::MAX,
        ensures
            self.layout_spec().renders(bytes@, bit_offs as int, tiles_w as int, tiles_h as int, out@),
    {
        match self {
            TileCodec::PlanarNonInterleaved(c) => c.render(bytes, bit_offs, tiles_w, tiles_h),
            TileCodec::PlanarInterleaved(c) => c.render(bytes, bit_offs, tiles_w, tiles_h),
            TileCodec::NonPlanar(c) => c.render(bytes, bit_offs, tiles_w, tiles_h),
        }
    }
}

/// Starting one tile later is decoding the next tile: for every tile format,
/// buffer, offset, tile index and pixel, the pixel of tile `tile_i` decoded from
/// `offset + bits_per_tile` reads the same bits, has them inside the buffer in the
/// same cases, and has the same palette index as the pixel of tile `tile_i + 1`
/// decoded from `offset`.
pub proof fn lemma_offset_by_one_tile(codec: TileCodec, bytes: Seq<u8>, offset: int, tile_i: int, px_y: int, px_x: int)
    requires
        codec.wf(),
    ensures
        ({
            let l = codec.layout_spec();
            let shifted = l.pixel_base(offset + codec.bits_per_tile_spec(), tile_i, px_y, px_x);
            let next = l.pixel_base(offset, tile_i + 1, px_y, px_x);
            &&& shifted == next
            &&& l.bits_in_range(bytes, shifted) == l.bits_in_range(bytes, next)
            &&& l.pixel_value(bytes, shifted) == l.pixel_value(bytes, next)
        }),
{
    let l = codec.layout_spec();
    assert((tile_i + 1) * l.bits_per_cell == tile_i * l.bits_per_cell + l.bits_per_cell) by (nonlinear_arith);
}

/// Starting one tile later shifts a decoded row of tiles by one tile: decoding
/// `tiles_w` tiles from `offset + bits_per_tile` emits, pixel for pixel, what
/// decoding `tiles_w + 1` tiles from `offset` emits after its first tile, with
/// the same palette indices, one tile width further left; and where the latter
/// completes its first tile, the two emit the same number of pixels beyond it.
pub proof fn lemma_render_offset_by_one_tile(
    codec: TileCodec,
    bytes: Seq<u8>,
    offset: int,
    tiles_w: int,
    shifted: Seq<PalettePixel>,
    full: Seq<PalettePixel>,
)
    requires
        codec.wf(),
        0 <= offset,
        0 <= tiles_w,
        codec.tile_width_spec() > 0,
        codec.tile_height_spec() > 0,
        (tiles_w + 1) * codec.tile_width_spec() <= usize::MAX,
        codec.layout_spec().renders(bytes, offset + codec.bits_per_tile_spec(), tiles_w, 1, shifted),
        codec.layout_spec().renders(bytes, offset, tiles_w + 1, 1, full),
    ensures
        ({
            let per_tile = codec.tile_width_spec() * codec.tile_height_spec();
            &&& forall|k: int|
                0 <= k < shifted.len() && per_tile + k < full.len() ==> {
                    &&& (#[trigger] full[per_tile + k]).index == shifted[k].index
                    &&& full[per_tile + k].x == shifted[k].x + codec.tile_width_spec()
                    &&& full[per_tile + k].y == shifted[k].y
                }
            &&& full.len() >= per_tile ==> full.len() == shifted.len() + per_tile
        }),
{
    let l = codec.layout_spec();
    let cw = l.cell_width as int;
    let ch = l.cell_height as int;
    let bpt = codec.bits_per_tile_spec();
    let per_tile = cw * ch;
    let later = offset + bpt;
    assert(per_tile > 0) by (nonlinear_arith)
        requires
            per_tile == cw * ch,
            cw > 0,
            ch > 0,
    ;
    assert(l.pixel_count(tiles_w, 1) == tiles_w * per_tile) by (nonlinear_arith)
        requires
            l.pixel_count(tiles_w, 1) == 1 * tiles_w * ch * cw,
            per_tile == cw * ch,
    ;
    assert(l.pixel_count(tiles_w + 1, 1) == tiles_w * per_tile + per_tile) by (nonlinear_arith)
        requires
            l.pixel_count(tiles_w + 1, 1) == 1 * (tiles_w + 1) * ch * cw,
            per_tile == cw * ch,
    ;
    // pixel `k` from the later offset and pixel `per_tile + k` from `offset` read the same bits
    assert forall|k: int| 0 <= k < tiles_w * per_tile implies
        #[trigger] l.base_of(later, k) == l.base_of(offset, per_tile + k)
        && cell_of(k, cw, ch) < tiles_w by {
        lemma_next_cell_index(k, cw, ch);
        let c = cell_of(k, cw, ch);
        assert((c + 1) * l.bits_per_cell == c * l.bits_per_cell + l.bits_per_cell) by (nonlinear_arith);
        assert(k + cw * ch == per_tile + k);
        assert(k < 1 * tiles_w * ch * cw);
        lemma_flat_index_bounds(k, cw, ch, tiles_w, 1);
    }
    assert forall|k: int| 0 <= k < shifted.len() && per_tile + k < full.len() implies {
        &&& (#[trigger] full[per_tile + k]).index == shifted[k].index
        &&& full[per_tile + k].x == shifted[k].x + codec.tile_width_spec()
        &&& full[per_tile + k].y == shifted[k].y
    } by {
        assert(l.base_of(later, k) == l.base_of(offset, per_tile + k));
        assert(full[per_tile + k] == l.pixel_record(bytes, offset, tiles_w + 1, per_tile + k));
        assert(shifted[k] == l.pixel_record(bytes, later, tiles_w, k));
        lemma_next_cell_index(k, cw, ch);
        let c = cell_of(k, cw, ch);
        assert(k + cw * ch == per_tile + k);
        vstd::arithmetic::div_mod::lemma_small_mod(c as nat, tiles_w as nat);
        vstd::arithmetic::div_mod::lemma_small_mod((c + 1) as nat, (tiles_w + 1) as nat);
        vstd::arithmetic::div_mod::lemma_basic_div(c, tiles_w);
        vstd::arithmetic::div_mod::lemma_basic_div(c + 1, tiles_w + 1);
        assert((c + 1) * cw == c * cw + cw) by (nonlinear_arith);
        assert(0 <= c * cw + column_in_cell(k, cw) && c * cw + column_in_cell(k, cw) + cw <= (tiles_w + 1) * cw) by (nonlinear_arith)
            requires
                0 <= c < tiles_w,
                0 <= column_in_cell(k, cw) < cw,
        ;
        assert(0 <= row_in_cell(k, cw, ch) < ch);
    }
    if full.len() >= per_tile {
        if shifted.len() < tiles_w * per_tile {
            let k = shifted.len() as int;
            assert(!l.bits_in_range(bytes, l.base_of(later, k)));
            assert(l.base_of(later, k) == l.base_of(offset, per_tile + k));
            if full.len() > per_tile + k {
                assert(full[per_tile + k] == l.pixel_record(bytes, offset, tiles_w + 1, per_tile + k));
            }
        }
        if full.len() < tiles_w * per_tile + per_tile {
            let k = full.len() - per_tile;
            assert(!l.bits_in_range(bytes, l.base_of(offset, per_tile + k)));
            assert(l.base_of(later, k) == l.base_of(offset, per_tile + k));
            if shifted.len() > k {
                assert(shifted[k] == l.pixel_record(bytes, later, tiles_w, k));
            }
        }
    }
}

/// Every bit of a tile lies within `bits_per_tile` bits of the tile's start.
proof fn lemma_tile_extent(codec: TileCodec)
    requires
        codec.wf(),
    ensures
        ({
            let l = codec.layout_spec();
            forall|py: int, px: int, j: int|
                0 <= py < l.cell_height && 0 <= px < l.cell_width && 0 <= j < l.depth ==> #[trigger] (py * l.row_stride
                    + px * l.pixel_stride + j * l.depth_stride) < codec.bits_per_tile_spec()
        }),
{
    let l = codec.layout_spec();
    assert forall|py: int, px: int, j: int|
        0 <= py < l.cell_height && 0 <= px < l.cell_width && 0 <= j < l.depth implies #[trigger] (py * l.row_stride
            + px * l.pixel_stride + j * l.depth_stride) < codec.bits_per_tile_spec() by {
        match codec {
            TileCodec::PlanarNonInterleaved(c) => {
                let r = c.bits_per_row_spec();
                let p = c.bits_per_plane_spec();
                assert(c.tile_h * r <= p) by (nonlinear_arith)
                    requires
                        p == r * c.tile_h + c.plane_pad,
                        c.plane_pad >= 0,
                ;
                lemma_nested_strides(px, py, j, c.tile_w as int, c.tile_h as int, c.planes as int, r, p);
                assert(l.row_stride == r && l.depth_stride == p && l.pixel_stride == 1);
                assert(px * l.pixel_stride == px);
                assert(c.planes * p == p * c.planes) by (nonlinear_arith);
                assert(p * c.planes <= c.bits_per_tile_spec());
            },
            TileCodec::PlanarInterleaved(c) => {
                let r = c.bits_per_plane_row_spec();
                let w = c.bits_per_row_spec();
                assert(c.planes * r == w) by (nonlinear_arith)
                    requires
                        w == r * c.planes,
                ;
                lemma_nested_strides(px, j, py, c.tile_w as int, c.planes as int, c.tile_h as int, r, w);
                assert(l.row_stride == w && l.depth_stride == r && l.pixel_stride == 1);
                assert(px * l.pixel_stride == px);
                assert(c.tile_h * w == w * c.tile_h) by (nonlinear_arith);
            },
            TileCodec::NonPlanar(c) => {
                let b = c.bits_per_row_spec();
                assert(c.tile_w * c.bpp <= b) by (nonlinear_arith)
                    requires
                        b == c.bpp * c.tile_w + c.tile_w_pad,
                        c.tile_w_pad >= 0,
                ;
                lemma_nested_strides(j, px, py, c.bpp as int, c.tile_w as int, c.tile_h as int, c.bpp as int, b);
                assert(l.row_stride == b && l.depth_stride == 1 && l.pixel_stride == c.bpp);
                assert(j * l.depth_stride == j) by (nonlinear_arith)
                    requires
                        l.depth_stride == 1,
                ;
                assert(c.tile_h * b == b * c.tile_h) by (nonlinear_arith);
            },
        }
    }
}

/// Decoding an all-zero buffer that holds the whole region (`tiles_w * tiles_h`
/// tiles of `bits_per_tile` bits from `offset`) emits every pixel of the region,
/// each with palette index 0, whatever the format, bit orders and paddings.
pub proof fn lemma_zero_buffer_renders_zero_region(
    codec: TileCodec,
    bytes: Seq<u8>,
    offset: int,
    tiles_w: int,
    tiles_h: int,
    out: Seq<PalettePixel>,
)
    requires
        codec.wf(),
        0 <= offset,
        0 <= tiles_w,
        0 <= tiles_h,
        forall|i: int| 0 <= i < bytes.len() ==> bytes[i] == 0u8,
        offset + tiles_w * tiles_h * codec.bits_per_tile_spec() <= bit_len(bytes),
        codec.layout_spec().renders(bytes, offset, tiles_w, tiles_h, out),
    ensures
        out.len() == tiles_w * tiles_h * codec.tile_width_spec() * codec.tile_height_spec(),
        forall|k: int| 0 <= k < out.len() ==> (#[trigger] out[k]).index == 0u8,
{
    let l = codec.layout_spec();
    let bpt = codec.bits_per_tile_spec();
    lemma_zero_buffer_renders_zero(l, bytes, offset, tiles_w, tiles_h, out);
    assert(l.pixel_count(tiles_w, tiles_h) == tiles_w * tiles_h * codec.tile_width_spec() * codec.tile_height_spec())
        by (nonlinear_arith)
        requires
            l.pixel_count(tiles_w, tiles_h) == tiles_h * tiles_w * l.cell_height * l.cell_width,
            codec.tile_width_spec() == l.cell_width,
            codec.tile_height_spec() == l.cell_height,
    ;
    if tiles_w == 0 || tiles_h == 0 {
        assert(l.pixel_count(tiles_w, tiles_h) == 0) by (nonlinear_arith)
            requires
                tiles_w == 0 || tiles_h == 0,
                l.pixel_count(tiles_w, tiles_h) == tiles_h * tiles_w * l.cell_height * l.cell_width,
        ;
    } else {
        lemma_tile_extent(codec);
        assert((tiles_w * tiles_h - 1) * bpt + bpt == tiles_w * tiles_h * bpt) by (nonlinear_arith);
        lemma_renders_whole_region(l, bytes, offset, tiles_w, tiles_h, out, bpt);
    }
}

/// The same shift seen through a sliced buffer, as a host steps the offset:
/// with `o = offset + bits_per_tile`, decoding `tiles_w` tiles of `bytes[o / 8..]`
/// from bit `o % 8` emits what decoding `tiles_w + 1` tiles of `bytes` from
/// `offset` emits after its first tile, with the same palette indices, one tile
/// width further left; and where the latter completes its first tile, both stop
/// at the same pixel.
pub proof fn lemma_render_sliced_by_one_tile(
    codec: TileCodec,
    bytes: Seq<u8>,
    offset: int,
    tiles_w: int,
    shifted: Seq<PalettePixel>,
    full: Seq<PalettePixel>,
)
    requires
        codec.wf(),
        0 <= offset,
        0 <= tiles_w,
        codec.tile_width_spec() > 0,
        codec.tile_height_spec() > 0,
        (tiles_w + 1) * codec.tile_width_spec() <= usize::MAX,
        (offset + codec.bits_per_tile_spec()) / 8 <= bytes.len(),
        codec.layout_spec().renders(
            bytes.subrange((offset + codec.bits_per_tile_spec()) / 8, bytes.len() as int),
            (offset + codec.bits_per_tile_spec()) % 8,
            tiles_w,
            1,
            shifted,
        ),
        codec.layout_spec().renders(bytes, offset, tiles_w + 1, 1, full),
    ensures
        ({
            let per_tile = codec.tile_width_spec() * codec.tile_height_spec();
            &&& forall|k: int|
                0 <= k < shifted.len() && per_tile + k < full.len() ==> {
                    &&& (#[trigger] full[per_tile + k]).index == shifted[k].index
                    &&& full[per_tile + k].x == shifted[k].x + codec.tile_width_spec()
                    &&& full[per_tile + k].y == shifted[k].y
                }
            &&& full.len() >= per_tile ==> full.len() == shifted.len() + per_tile
        }),
{
    let o = offset + codec.bits_per_tile_spec();
    codec.layout_spec().lemma_renders_sliced(bytes, o / 8, o % 8, tiles_w, 1, shifted);
    assert(o % 8 + 8 * (o / 8) == o);
    lemma_render_offset_by_one_tile(codec, bytes, offset, tiles_w, shifted, full);
}

} // verus!
