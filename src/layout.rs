//! The decoding engine shared by every codec. Pixels are grouped in cells
//! (tiles; a linear image is one cell), and each bit of a pixel is found at a
//! fixed stride from the start of its cell.

use vstd::arithmetic::div_mod::lemma_fundamental_div_mod_converse;
use vstd::arithmetic::power2::{lemma2_to64, lemma_pow2_unfold, pow2};
use vstd::prelude::*;

use crate::bit_cursor::{bit_len, buffer_bit, byte_bit, lemma_bit_len_fits, read_bit, MAX_BUFFER_LEN};
use crate::bit_order::{lemma_physical_position_bijective, physical_position_of, BitOrderTag};

verus! {

/// One emitted pixel: its coordinates in the rendered region and its palette index.
#[derive(Clone, Copy, Debug, PartialEq, Eq, Structural)]
pub struct PalettePixel {
    pub x: usize,
    pub y: usize,
    pub index: u8,
}

/// Where the bits of every pixel lie. Bit `j` of the pixel at column `px`,
/// row `py` of cell `cell` sits at absolute index
/// `start + cell * bits_per_cell + py * row_stride + px * pixel_stride + j * depth_stride`;
/// it is read under `data_order`, and it sets bit
/// `assembly_position(assembly_order, depth, j)` of the `depth`-bit palette index.
#[derive(Clone, Copy, Debug, PartialEq, Eq, Structural)]
pub struct BitLayout {
    pub data_order: BitOrderTag,
    pub assembly_order: BitOrderTag,
    /// Bits per pixel.
    pub depth: usize,
    pub cell_width: usize,
    pub cell_height: usize,
    pub bits_per_cell: usize,
    pub row_stride: usize,
    pub pixel_stride: usize,
    pub depth_stride: usize,
}

/// The bit of a `depth`-bit palette index that logical bit `j` of a pixel sets
/// under `order`: `LsbFirst` gives `j`, `MsbFirst` gives `depth - 1 - j`, and
/// `HiLoNibbleSwap` gives its byte position `7 - (j ^ 4)`.
pub open spec fn assembly_position(order: BitOrderTag, depth: u32, j: u32) -> u32 {
    match order {
        BitOrderTag::LsbFirst => j,
        BitOrderTag::MsbFirst => (depth - 1 - j) as u32,
        BitOrderTag::HiLoNibbleSwap => physical_position_of(order, 8, j),
    }
}

/// `order` can assemble palette indices of `depth` bits inside `[0, 2^depth)`:
/// any depth from 1 to 8, but whole nibbles (4 or 8 bits) for a nibble swap.
pub open spec fn assembles(order: BitOrderTag, depth: int) -> bool {
    &&& 1 <= depth <= 8
    &&& (order is HiLoNibbleSwap ==> depth == 4 || depth == 8)
}

proof fn lemma_low_nibble_swap(j: u32)
    by (bit_vector)
    requires
        j < 4,
    ensures
        j ^ 4u32 == j + 4,
{
}

/// Every assembly position lies inside the index.
pub proof fn lemma_assembly_position_below(order: BitOrderTag, depth: u32, j: u32)
    requires
        assembles(order, depth as int),
        j < depth,
    ensures
        assembly_position(order, depth, j) < depth,
{
    lemma_physical_position_bijective(order, 8);
    if order is HiLoNibbleSwap && depth == 4 {
        lemma_low_nibble_swap(j);
    }
}

proof fn lemma_set_bit_below(v: u8, p: u8, d: u8)
    by (bit_vector)
    requires
        p < d,
        d <= 8,
        d >= 8 || v < (1u8 << d),
    ensures
        d >= 8 || (v | (1u8 << p)) < (1u8 << d),
{
}

proof fn lemma_low_bits_bound(v: u8, d: u8)
    requires
        1 <= d <= 8,
        d >= 8 || v < (1u8 << d),
    ensures
        (v as nat) < pow2(d as nat),
{
    lemma2_to64();
    assert(
        (d == 1 ==> (1u8 << d) == 2u8) && (d == 2 ==> (1u8 << d) == 4u8) && (d == 3 ==> (1u8 << d) == 8u8)
        && (d == 4 ==> (1u8 << d) == 16u8) && (d == 5 ==> (1u8 << d) == 32u8) && (d == 6 ==> (1u8 << d) == 64u8)
        && (d == 7 ==> (1u8 << d) == 128u8)
    ) by (bit_vector);
}

/// Column within its cell of the `k`-th pixel in rendering order.
pub open spec fn column_in_cell(k: int, cell_width: int) -> int {
    k % cell_width
}

/// Row within its cell of the `k`-th pixel in rendering order.
pub open spec fn row_in_cell(k: int, cell_width: int, cell_height: int) -> int {
    (k / cell_width) % cell_height
}

/// Cell of the `k`-th pixel in rendering order; cells are numbered row by row.
pub open spec fn cell_of(k: int, cell_width: int, cell_height: int) -> int {
    k / cell_width / cell_height
}

impl BitLayout {
    /// Between 1 and 8 bits per pixel, which the assembly order can place.
    pub open spec fn wf(&self) -> bool {
        assembles(self.assembly_order, self.depth as int)
    }

    /// Absolute index of bit 0 of the pixel at (`px`, `py`) of cell `cell`.
    pub open spec fn pixel_base(&self, start: int, cell: int, py: int, px: int) -> int {
        start + cell * self.bits_per_cell + py * self.row_stride + px * self.pixel_stride
    }

    /// Absolute index of bit `j` of the pixel whose bit 0 is at `base`.
    pub open spec fn bit_at(&self, base: int, j: int) -> int {
        base + j * self.depth_stride
    }

    /// Every bit of the pixel whose bit 0 is at `base` lies inside `bytes`.
    pub open spec fn bits_in_range(&self, bytes: Seq<u8>, base: int) -> bool {
        forall|j: int| 0 <= j < self.depth ==> #[trigger] self.bit_at(base, j) < bit_len(bytes)
    }

    /// The palette index assembled from the first `k` bits of the pixel whose
    /// bit 0 is at `base`: each set bit sets its assembly position.
    pub open spec fn value_from(&self, bytes: Seq<u8>, base: int, k: nat) -> u8
        decreases k,
    {
        if k == 0 {
            0
        } else {
            let prev = self.value_from(bytes, base, (k - 1) as nat);
            if buffer_bit(bytes, self.data_order, self.bit_at(base, k - 1)) {
                prev | (1u8 << (assembly_position(self.assembly_order, self.depth as u32, (k - 1) as u32) as u8))
            } else {
                prev
            }
        }
    }

    /// The bits set in the first `k` bits' index all lie below bit `depth`.
    proof fn lemma_value_from_below(&self, bytes: Seq<u8>, base: int, k: nat)
        requires
            self.wf(),
            k <= self.depth,
        ensures
            self.depth >= 8 || self.value_from(bytes, base, k) < (1u8 << (self.depth as u8)),
        decreases k,
    {
        let d = self.depth as u8;
        if k == 0 {
            assert(d >= 8 || 0u8 < (1u8 << d)) by (bit_vector);
        } else {
            self.lemma_value_from_below(bytes, base, (k - 1) as nat);
            let p = assembly_position(self.assembly_order, self.depth as u32, (k - 1) as u32);
            lemma_assembly_position_below(self.assembly_order, self.depth as u32, (k - 1) as u32);
            lemma_set_bit_below(self.value_from(bytes, base, (k - 1) as nat), p as u8, d);
        }
    }

    /// A palette index lies in `[0, 2^depth)`.
    pub proof fn lemma_pixel_value_in_palette(&self, bytes: Seq<u8>, base: int)
        requires
            self.wf(),
        ensures
            (self.pixel_value(bytes, base) as nat) < pow2(self.depth as nat),
    {
        self.lemma_value_from_below(bytes, base, self.depth as nat);
        lemma_low_bits_bound(self.pixel_value(bytes, base), self.depth as u8);
    }

    /// The palette index of the pixel whose bit 0 is at `base`.
    pub open spec fn pixel_value(&self, bytes: Seq<u8>, base: int) -> u8 {
        self.value_from(bytes, base, self.depth as nat)
    }

    /// Number of pixels in a grid of `cells_w` × `cells_h` cells.
    pub open spec fn pixel_count(&self, cells_w: int, cells_h: int) -> int {
        cells_h * cells_w * self.cell_height * self.cell_width
    }

    /// Absolute index of bit 0 of the `k`-th pixel in rendering order.
    pub open spec fn base_of(&self, start: int, k: int) -> int {
        let cw = self.cell_width as int;
        let ch = self.cell_height as int;
        self.pixel_base(start, cell_of(k, cw, ch), row_in_cell(k, cw, ch), column_in_cell(k, cw))
    }

    /// The `k`-th pixel in rendering order: cells row by row, and inside a cell
    /// pixels row by row.
    pub open spec fn pixel_record(&self, bytes: Seq<u8>, start: int, cells_w: int, k: int) -> PalettePixel {
        let cw = self.cell_width as int;
        let ch = self.cell_height as int;
        let cell = cell_of(k, cw, ch);
        PalettePixel {
            x: ((cell % cells_w) * cw + column_in_cell(k, cw)) as usize,
            y: ((cell / cells_w) * ch + row_in_cell(k, cw, ch)) as usize,
            index: self.pixel_value(bytes, self.base_of(start, k)),
        }
    }

    /// `out` holds the first `out.len()` pixels in rendering order, each with
    /// all of its bits inside `bytes` and a palette index below `2^depth`.
    pub open spec fn emits_prefix(&self, bytes: Seq<u8>, start: int, cells_w: int, out: Seq<PalettePixel>) -> bool {
        forall|k: int|
            0 <= k < out.len() ==> self.bits_in_range(bytes, self.base_of(start, k))
                && #[trigger] out[k] == self.pixel_record(bytes, start, cells_w, k)
                && (out[k].index as nat) < pow2(self.depth as nat)
    }

    /// `out` is what rendering a grid of `cells_w` × `cells_h` cells from bit
    /// `start` of `bytes` emits: the pixels in rendering order up to, and not
    /// including, the first one that has a bit outside the buffer.
    pub open spec fn renders(&self, bytes: Seq<u8>, start: int, cells_w: int, cells_h: int, out: Seq<PalettePixel>) -> bool {
        &&& out.len() <= self.pixel_count(cells_w, cells_h)
        &&& self.emits_prefix(bytes, start, cells_w, out)
        &&& out.len() < self.pixel_count(cells_w, cells_h) ==> !self.bits_in_range(bytes, self.base_of(start, out.len() as int))
    }
}

/// Number of palette entries that pixels of `depth` bits can select: `2^depth`.
pub fn palette_size(depth: usize) -> (r: usize)
    requires
        depth <= 8,
    ensures
        r == pow2(depth as nat),
{
    proof {
        lemma2_to64();
    }
    let mut r: usize = 1;
    let mut i: usize = 0;
    while i < depth
        invariant
            i <= depth <= 8,
            r == pow2(i as nat),
            pow2(8) == 256,
        decreases depth - i,
    {
        proof {
            lemma_pow2_unfold((i + 1) as nat);
            lemma2_to64();
        }
        assert(r < 256) by {
            vstd::arithmetic::power2::lemma_pow2_strictly_increases(i as nat, 8);
        }
        r = r * 2;
        i = i + 1;
    }
    r
}

proof fn lemma_mixed_radix(a: int, b: int, a_bound: int, b_bound: int)
    requires
        0 <= a < a_bound,
        0 <= b < b_bound,
    ensures
        0 <= a * b_bound + b < a_bound * b_bound,
{
    assert(a * b_bound + b < a_bound * b_bound) by (nonlinear_arith)
        requires
            0 <= a < a_bound,
            0 <= b < b_bound,
    ;
    assert(0 <= a * b_bound) by (nonlinear_arith)
        requires
            0 <= a,
            0 <= b_bound,
    ;
}

/// Splits the flat rendering index of a pixel back into its cell, row and column.
proof fn lemma_flat_index(k: int, cells_w: int, ch: int, cw: int, tx: int, ty: int, py: int, px: int)
    requires
        0 <= tx < cells_w,
        0 <= py < ch,
        0 <= px < cw,
        0 <= ty,
        k == ((ty * cells_w + tx) * ch + py) * cw + px,
    ensures
        column_in_cell(k, cw) == px,
        row_in_cell(k, cw, ch) == py,
        cell_of(k, cw, ch) == ty * cells_w + tx,
        (ty * cells_w + tx) % cells_w == tx,
        (ty * cells_w + tx) / cells_w == ty,
{
    let cell = ty * cells_w + tx;
    lemma_fundamental_div_mod_converse(k, cw, cell * ch + py, px);
    lemma_fundamental_div_mod_converse(cell * ch + py, ch, cell, py);
    lemma_fundamental_div_mod_converse(cell, cells_w, ty, tx);
}

impl BitLayout {
    /// Index of bit 0 of the pixel at (`px`, `py`) of the cell in column `tx`,
    /// row `ty`, or `None` where that index does not fit in a `usize`.
    fn checked_pixel_base(&self, start: usize, cells_w: usize, tx: usize, ty: usize, py: usize, px: usize) -> (r: Option<usize>)
        ensures
            r matches Some(v) ==> v == self.pixel_base(start as int, ty * cells_w + tx, py as int, px as int),
            r is None ==> self.pixel_base(start as int, ty * cells_w + tx, py as int, px as int) > usize::MAX,
    {
        let ghost cell = ty * cells_w + tx;
        let ghost rows = py * self.row_stride;
        let ghost cols = px * self.pixel_stride;
        assert(0 <= rows && 0 <= cols && 0 <= cell * self.bits_per_cell) by (nonlinear_arith)
            requires
                rows == py * self.row_stride,
                cols == px * self.pixel_stride,
                0 <= cell,
        ;
        let cell_bits: usize = if self.bits_per_cell == 0 {
            assert(cell * self.bits_per_cell == 0);
            0
        } else {
            let row_cells = match ty.checked_mul(cells_w) {
                Some(v) => v,
                None => {
                    assert(cell * self.bits_per_cell >= ty * cells_w) by (nonlinear_arith)
                        requires
                            cell == ty * cells_w + tx,
                            tx >= 0,
                            self.bits_per_cell >= 1,
                            ty * cells_w >= 0,
                    ;
                    return None;
                },
            };
            let c = match row_cells.checked_add(tx) {
                Some(v) => v,
                None => {
                    assert(cell * self.bits_per_cell >= cell) by (nonlinear_arith)
                        requires
                            cell >= 0,
                            self.bits_per_cell >= 1,
                    ;
                    return None;
                },
            };
            match c.checked_mul(self.bits_per_cell) {
                Some(v) => v,
                None => return None,
            }
        };
        let a = match start.checked_add(cell_bits) {
            Some(v) => v,
            None => return None,
        };
        let row_bits = match py.checked_mul(self.row_stride) {
            Some(v) => v,
            None => return None,
        };
        let a = match a.checked_add(row_bits) {
            Some(v) => v,
            None => return None,
        };
        let col_bits = match px.checked_mul(self.pixel_stride) {
            Some(v) => v,
            None => return None,
        };
        let a = match a.checked_add(col_bits) {
            Some(v) => v,
            None => return None,
        };
        Some(a)
    }

    /// The palette index of the pixel whose bit 0 is at `base`, or `None` when
    /// one of its bits lies outside `bytes`.
    fn decode_pixel(&self, bytes: &[u8], base: usize) -> (r: Option<u8>)
        requires
            self.wf(),
            bytes@.len() <= MAX_BUFFER_LEN,
        ensures
            r is Some <==> self.bits_in_range(bytes@, base as int),
            r matches Some(v) ==> v == self.pixel_value(bytes@, base as int),
    {
        proof {
            lemma_bit_len_fits(bytes@.len() as usize);
        }
        let mut value: u8 = 0;
        let mut j: usize = 0;
        while j < self.depth
            invariant
                self.wf(),
                bytes@.len() <= MAX_BUFFER_LEN,
                j <= self.depth,
                value == self.value_from(bytes@, base as int, j as nat),
                forall|i: int| 0 <= i < j ==> #[trigger] self.bit_at(base as int, i) < bit_len(bytes@),
            decreases self.depth - j,
        {
            assert(0 <= j * self.depth_stride) by (nonlinear_arith)
                requires
                    0 <= j,
                    0 <= self.depth_stride,
            ;
            let offset = match j.checked_mul(self.depth_stride) {
                Some(v) => v,
                None => {
                    assert(self.bit_at(base as int, j as int) >= bit_len(bytes@));
                    return None;
                },
            };
            let index = match base.checked_add(offset) {
                Some(v) => v,
                None => {
                    assert(self.bit_at(base as int, j as int) >= bit_len(bytes@));
                    return None;
                },
            };
            match read_bit(bytes, self.data_order, index) {
                Err(_) => {
                    assert(self.bit_at(base as int, j as int) >= bit_len(bytes@));
                    return None;
                },
                Ok(bit) => {
                    if bit {
                        proof {
                            lemma_assembly_position_below(self.assembly_order, self.depth as u32, j as u32);
                        }
                        let position: u32 = match self.assembly_order {
                            BitOrderTag::LsbFirst => j as u32,
                            BitOrderTag::MsbFirst => self.depth as u32 - 1 - j as u32,
                            BitOrderTag::HiLoNibbleSwap => self.assembly_order.physical_position(8, j as u32),
                        };
                        value = value | (1u8 << (position as u8));
                    }
                },
            }
            j = j + 1;
        }
        Some(value)
    }

    /// Decodes a grid of `cells_w` × `cells_h` cells starting at absolute bit
    /// `start` of `bytes`, and returns the pixels emitted in rendering order,
    /// stopping before the first pixel that has a bit outside the buffer.
    pub fn render_cells(&self, bytes: &[u8], start: usize, cells_w: usize, cells_h: usize) -> (out: Vec<PalettePixel>)
        requires
            self.wf(),
            bytes@.len() <= MAX_BUFFER_LEN,
            cells_w * self.cell_width <= usize::MAX,
            cells_h * self.cell_height <= usize::MAX,
        ensures
            self.renders(bytes@, start as int, cells_w as int, cells_h as int, out@),
    {
        let cw = self.cell_width;
        let ch = self.cell_height;
        let ghost count = self.pixel_count(cells_w as int, cells_h as int);
        proof {
            lemma_bit_len_fits(bytes@.len() as usize);
            assert(((0 * cells_w) * ch) * cw == 0) by (nonlinear_arith);
        }
        let mut out: Vec<PalettePixel> = Vec::new();
        let mut ty: usize = 0;
        while ty < cells_h
            invariant
                self.wf(),
                bytes@.len() <= MAX_BUFFER_LEN,
                cells_w * cw <= usize::MAX,
                cells_h * ch <= usize::MAX,
                cw == self.cell_width,
                ch == self.cell_height,
                count == self.pixel_count(cells_w as int, cells_h as int),
                ty <= cells_h,
                out.len() == ((ty * cells_w) * ch) * cw,
                self.emits_prefix(bytes@, start as int, cells_w as int, out@),
            decreases cells_h - ty,
        {
            let mut tx: usize = 0;
            while tx < cells_w
                invariant
                    self.wf(),
                    bytes@.len() <= MAX_BUFFER_LEN,
                    cells_w * cw <= usize::MAX,
                    cells_h * ch <= usize::MAX,
                    cw == self.cell_width,
                    ch == self.cell_height,
                    count == self.pixel_count(cells_w as int, cells_h as int),
                    ty < cells_h,
                    tx <= cells_w,
                    out.len() == ((ty * cells_w + tx) * ch) * cw,
                    self.emits_prefix(bytes@, start as int, cells_w as int, out@),
                decreases cells_w - tx,
            {
                let mut py: usize = 0;
                while py < ch
                    invariant
                        self.wf(),
                        bytes@.len() <= MAX_BUFFER_LEN,
                        cells_w * cw <= usize::MAX,
                        cells_h * ch <= usize::MAX,
                        cw == self.cell_width,
                        ch == self.cell_height,
                        count == self.pixel_count(cells_w as int, cells_h as int),
                        ty < cells_h,
                        tx < cells_w,
                        py <= ch,
                        out.len() == ((ty * cells_w + tx) * ch + py) * cw,
                        self.emits_prefix(bytes@, start as int, cells_w as int, out@),
                    decreases ch - py,
                {
                    let mut px: usize = 0;
                    while px < cw
                        invariant
                            self.wf(),
                            bit_len(bytes@) <= usize::MAX,
                            bytes@.len() <= MAX_BUFFER_LEN,
                            cells_w * cw <= usize::MAX,
                            cells_h * ch <= usize::MAX,
                            cw == self.cell_width,
                            ch == self.cell_height,
                            count == self.pixel_count(cells_w as int, cells_h as int),
                            ty < cells_h,
                            tx < cells_w,
                            py < ch,
                            px <= cw,
                            out.len() == ((ty * cells_w + tx) * ch + py) * cw + px,
                            self.emits_prefix(bytes@, start as int, cells_w as int, out@),
                        decreases cw - px,
                    {
                        let ghost k = out.len() as int;
                        proof {
                            lemma_flat_index(k, cells_w as int, ch as int, cw as int, tx as int, ty as int, py as int, px as int);
                            lemma_mixed_radix(tx as int, px as int, cells_w as int, cw as int);
                            lemma_mixed_radix(ty as int, py as int, cells_h as int, ch as int);
                            lemma_mixed_radix(ty as int, tx as int, cells_h as int, cells_w as int);
                            lemma_mixed_radix(ty * cells_w + tx, py as int, cells_h * cells_w, ch as int);
                            lemma_mixed_radix((ty * cells_w + tx) * ch + py, px as int, cells_h * cells_w * ch, cw as int);
                        }
                        let base = self.checked_pixel_base(start, cells_w, tx, ty, py, px);
                        let decoded = match base {
                            Some(b) => self.decode_pixel(bytes, b),
                            None => {
                                proof {
                                    let b = self.base_of(start as int, k);
                                    assert(self.bit_at(b, 0) == b);
                                }
                                None
                            },
                        };
                        match decoded {
                            None => {
                                return out;
                            },
                            Some(index) => {
                                let pixel = PalettePixel { x: tx * cw + px, y: ty * ch + py, index };
                                let ghost prev = out@;
                                out.push(pixel);
                                proof {
                                    assert(out@[k] == self.pixel_record(bytes@, start as int, cells_w as int, k));
                                    assert forall|i: int| 0 <= i < out@.len() implies
                                        #[trigger] out@[i] == self.pixel_record(bytes@, start as int, cells_w as int, i) by {
                                        if i < k {
                                            assert(out@[i] == prev[i]);
                                        }
                                    }
                                    {
                                        self.lemma_pixel_value_in_palette(bytes@, self.base_of(start as int, k));
                                    }
                                    assert forall|i: int| 0 <= i < out@.len() implies
                                        self.bits_in_range(bytes@, self.base_of(start as int, i))
                                        && (out@[i].index as nat) < pow2(self.depth as nat) by {
                                        if i < k {
                                            assert(prev[i] == self.pixel_record(bytes@, start as int, cells_w as int, i));
                                        }
                                    }
                                    assert(self.emits_prefix(bytes@, start as int, cells_w as int, out@));
                                }
                            },
                        }
                        px = px + 1;
                    }
                    assert(((ty * cells_w + tx) * ch + py) * cw + cw == ((ty * cells_w + tx) * ch + py + 1) * cw) by (nonlinear_arith);
                    py = py + 1;
                }
                assert(((ty * cells_w + tx) * ch + ch) * cw == ((ty * cells_w + tx + 1) * ch) * cw) by (nonlinear_arith);
                tx = tx + 1;
            }
            assert(((ty * cells_w + cells_w) * ch) * cw == (((ty + 1) * cells_w) * ch) * cw) by (nonlinear_arith);
            ty = ty + 1;
        }
        out
    }
}

proof fn lemma_zero_byte_bits(position: u32)
    requires
        position < 8,
    ensures
        !byte_bit(0u8, position),
{
    let p = position as u8;
    assert((0u8 >> p) & 1u8 != 1u8) by (bit_vector);
}

proof fn lemma_zero_value_from(l: BitLayout, bytes: Seq<u8>, base: int, k: nat)
    requires
        l.wf(),
        k <= l.depth,
        l.bits_in_range(bytes, base),
        0 <= base,
        forall|i: int| 0 <= i < bytes.len() ==> bytes[i] == 0u8,
    ensures
        l.value_from(bytes, base, k) == 0u8,
    decreases k,
{
    if k > 0 {
        lemma_zero_value_from(l, bytes, base, (k - 1) as nat);
        let index = l.bit_at(base, k - 1);
        assert(index < bit_len(bytes));
        assert(0 <= (k - 1) * l.depth_stride) by (nonlinear_arith)
            requires
                k >= 1,
        ;
        let ord = l.data_order;
        lemma_physical_position_bijective(ord, 8);
        assert(physical_position_of(ord, 8, (index % 8) as u32) < 8);
        lemma_zero_byte_bits(physical_position_of(ord, 8, (index % 8) as u32));
        assert(!buffer_bit(bytes, ord, index));
    }
}

/// Decoding an all-zero buffer gives palette index 0 for every pixel emitted,
/// whatever the layout, bit orders, offset and region.
pub proof fn lemma_zero_buffer_renders_zero(
    l: BitLayout,
    bytes: Seq<u8>,
    start: int,
    cells_w: int,
    cells_h: int,
    out: Seq<PalettePixel>,
)
    requires
        l.wf(),
        0 <= start,
        0 <= cells_w,
        forall|i: int| 0 <= i < bytes.len() ==> bytes[i] == 0u8,
        l.renders(bytes, start, cells_w, cells_h, out),
    ensures
        forall|k: int| 0 <= k < out.len() ==> (#[trigger] out[k]).index == 0u8,
{
    assert forall|k: int| 0 <= k < out.len() implies (#[trigger] out[k]).index == 0u8 by {
        let cw = l.cell_width as int;
        let ch = l.cell_height as int;
        let base = l.base_of(start, k);
        assert(0 <= cw && 0 <= ch);
        assert(cw > 0) by {
            if cw == 0 {
                assert(l.pixel_count(cells_w, cells_h) == 0) by (nonlinear_arith)
                    requires
                        cw == 0,
                        l.pixel_count(cells_w, cells_h) == cells_h * cells_w * ch * cw,
                ;
            }
        }
        assert(ch > 0) by {
            if ch == 0 {
                assert(l.pixel_count(cells_w, cells_h) == 0) by (nonlinear_arith)
                    requires
                        ch == 0,
                        l.pixel_count(cells_w, cells_h) == cells_h * cells_w * ch * cw,
                ;
            }
        }
        let cell = cell_of(k, cw, ch);
        let row = row_in_cell(k, cw, ch);
        let col = column_in_cell(k, cw);
        assert(0 <= cell && 0 <= row && 0 <= col) by {
            vstd::arithmetic::div_mod::lemma_div_pos_is_pos(k, cw);
            vstd::arithmetic::div_mod::lemma_div_pos_is_pos(k / cw, ch);
        }
        assert(0 <= cell * l.bits_per_cell + row * l.row_stride + col * l.pixel_stride) by (nonlinear_arith)
            requires
                0 <= cell,
                0 <= row,
                0 <= col,
        ;
        assert(l.emits_prefix(bytes, start, cells_w, out));
        assert(out[k] == l.pixel_record(bytes, start, cells_w, k));
        assert(l.bits_in_range(bytes, base));
        lemma_zero_value_from(l, bytes, base, l.depth as nat);
    }
}

/// Rendering stops before any pixel that needs a bit at or past the end of the
/// buffer: no pixel at or after it in rendering order is emitted, so no bit
/// outside the buffer is ever read.
pub proof fn lemma_stops_at_buffer_end(
    l: BitLayout,
    bytes: Seq<u8>,
    start: int,
    cells_w: int,
    cells_h: int,
    out: Seq<PalettePixel>,
    k: int,
    j: int,
)
    requires
        l.renders(bytes, start, cells_w, cells_h, out),
        0 <= k,
        0 <= j < l.depth,
        l.bit_at(l.base_of(start, k), j) >= bit_len(bytes),
    ensures
        out.len() <= k,
{
    if out.len() > k {
        assert(out[k] == l.pixel_record(bytes, start, cells_w, k));
    }
}

/// The pixel `cell_width * cell_height` places later in rendering order is the
/// pixel at the same row and column of the next cell.
pub proof fn lemma_next_cell_index(k: int, cw: int, ch: int)
    requires
        0 <= k,
        cw > 0,
        ch > 0,
    ensures
        column_in_cell(k + cw * ch, cw) == column_in_cell(k, cw),
        row_in_cell(k + cw * ch, cw, ch) == row_in_cell(k, cw, ch),
        cell_of(k + cw * ch, cw, ch) == cell_of(k, cw, ch) + 1,
        0 <= column_in_cell(k, cw) < cw,
        0 <= row_in_cell(k, cw, ch) < ch,
        0 <= cell_of(k, cw, ch),
{
    let q = k / cw;
    let r = k % cw;
    vstd::arithmetic::div_mod::lemma_fundamental_div_mod(k, cw);
    vstd::arithmetic::div_mod::lemma_mod_pos_bound(k, cw);
    vstd::arithmetic::div_mod::lemma_div_pos_is_pos(k, cw);
    assert(k + cw * ch == (q + ch) * cw + r) by (nonlinear_arith)
        requires
            k == cw * q + r,
    ;
    lemma_fundamental_div_mod_converse(k + cw * ch, cw, q + ch, r);
    let c = q / ch;
    let rr = q % ch;
    vstd::arithmetic::div_mod::lemma_fundamental_div_mod(q, ch);
    vstd::arithmetic::div_mod::lemma_mod_pos_bound(q, ch);
    vstd::arithmetic::div_mod::lemma_div_pos_is_pos(q, ch);
    assert(q + ch == (c + 1) * ch + rr) by (nonlinear_arith)
        requires
            q == ch * c + rr,
    ;
    lemma_fundamental_div_mod_converse(q + ch, ch, c + 1, rr);
}

/// The `k`-th pixel of a grid of `cells_w` × `cells_h` cells lies in one of its
/// cells, at a row and column of that cell.
pub proof fn lemma_flat_index_bounds(k: int, cw: int, ch: int, cells_w: int, cells_h: int)
    requires
        cw > 0,
        ch > 0,
        0 <= k < cells_h * cells_w * ch * cw,
    ensures
        0 <= column_in_cell(k, cw) < cw,
        0 <= row_in_cell(k, cw, ch) < ch,
        0 <= cell_of(k, cw, ch) < cells_w * cells_h,
{
    let q = k / cw;
    let c = q / ch;
    vstd::arithmetic::div_mod::lemma_fundamental_div_mod(k, cw);
    vstd::arithmetic::div_mod::lemma_mod_pos_bound(k, cw);
    vstd::arithmetic::div_mod::lemma_div_pos_is_pos(k, cw);
    vstd::arithmetic::div_mod::lemma_fundamental_div_mod(q, ch);
    vstd::arithmetic::div_mod::lemma_mod_pos_bound(q, ch);
    vstd::arithmetic::div_mod::lemma_div_pos_is_pos(q, ch);
    if c >= cells_w * cells_h {
        assert(k >= cells_h * cells_w * ch * cw) by (nonlinear_arith)
            requires
                k == cw * q + k % cw,
                q == ch * c + q % ch,
                k % cw >= 0,
                q % ch >= 0,
                c >= cells_w * cells_h,
                cw > 0,
                ch > 0,
        ;
    }
}

/// Where the buffer holds every bit of the region (each cell's pixels lie
/// within `extent` bits of the cell's start, and the last cell ends inside the
/// buffer), rendering emits every pixel of the region.
pub proof fn lemma_renders_whole_region(
    l: BitLayout,
    bytes: Seq<u8>,
    start: int,
    cells_w: int,
    cells_h: int,
    out: Seq<PalettePixel>,
    extent: int,
)
    requires
        l.wf(),
        0 <= start,
        1 <= cells_w,
        1 <= cells_h,
        forall|py: int, px: int, j: int|
            0 <= py < l.cell_height && 0 <= px < l.cell_width && 0 <= j < l.depth ==> #[trigger] (py * l.row_stride
                + px * l.pixel_stride + j * l.depth_stride) < extent,
        start + (cells_w * cells_h - 1) * l.bits_per_cell + extent <= bit_len(bytes),
        l.renders(bytes, start, cells_w, cells_h, out),
    ensures
        out.len() == l.pixel_count(cells_w, cells_h),
{
    let count = l.pixel_count(cells_w, cells_h);
    if out.len() < count {
        let k = out.len() as int;
        let cw = l.cell_width as int;
        let ch = l.cell_height as int;
        if cw == 0 || ch == 0 {
            assert(count == 0) by (nonlinear_arith)
                requires
                    cw == 0 || ch == 0,
                    count == cells_h * cells_w * ch * cw,
            ;
        } else {
            lemma_flat_index_bounds(k, cw, ch, cells_w, cells_h);
            let cell = cell_of(k, cw, ch);
            let py = row_in_cell(k, cw, ch);
            let px = column_in_cell(k, cw);
            let base = l.base_of(start, k);
            assert(cell * l.bits_per_cell <= (cells_w * cells_h - 1) * l.bits_per_cell) by (nonlinear_arith)
                requires
                    0 <= cell <= cells_w * cells_h - 1,
                    l.bits_per_cell >= 0,
            ;
            assert forall|j: int| 0 <= j < l.depth implies #[trigger] l.bit_at(base, j) < bit_len(bytes) by {
                assert(py * l.row_stride + px * l.pixel_stride + j * l.depth_stride < extent);
            }
            assert(l.bits_in_range(bytes, base));
        }
    }
}

/// Three nested fields (unit stride, then strides `sb` and `sa`) that do not
/// overlap stay below `na * sa`.
pub(crate) proof fn lemma_nested_strides(c: int, b: int, a: int, nc: int, nb: int, na: int, sb: int, sa: int)
    requires
        0 <= c < nc,
        0 <= b < nb,
        0 <= a < na,
        nc <= sb,
        nb * sb <= sa,
    ensures
        c + b * sb + a * sa < na * sa,
{
    assert(c + b * sb < nb * sb) by (nonlinear_arith)
        requires
            0 <= c < nc,
            nc <= sb,
            0 <= b < nb,
    ;
    assert(0 <= nb * sb) by (nonlinear_arith)
        requires
            0 <= b < nb,
            0 <= c < nc <= sb,
    ;
    assert(a * sa + sa <= na * sa) by (nonlinear_arith)
        requires
            0 <= a < na,
            0 <= sa,
    ;
}

proof fn lemma_sliced_bit(bytes: Seq<u8>, order: BitOrderTag, b: int, i: int)
    requires
        0 <= b <= bytes.len(),
        0 <= i < (bytes.len() - b) * 8,
    ensures
        buffer_bit(bytes.subrange(b, bytes.len() as int), order, i) == buffer_bit(bytes, order, i + 8 * b),
{
    vstd::arithmetic::div_mod::lemma_fundamental_div_mod(i, 8);
    vstd::arithmetic::div_mod::lemma_mod_pos_bound(i, 8);
    lemma_fundamental_div_mod_converse(i + 8 * b, 8, i / 8 + b, i % 8);
}

impl BitLayout {
    proof fn lemma_sliced_value(&self, bytes: Seq<u8>, b: int, base: int, k: nat)
        requires
            0 <= b <= bytes.len(),
            0 <= base,
            k <= self.depth,
            self.bits_in_range(bytes.subrange(b, bytes.len() as int), base),
        ensures
            self.value_from(bytes.subrange(b, bytes.len() as int), base, k) == self.value_from(bytes, base + 8 * b, k),
        decreases k,
    {
        if k > 0 {
            self.lemma_sliced_value(bytes, b, base, (k - 1) as nat);
            let i = self.bit_at(base, k - 1);
            assert(i < bit_len(bytes.subrange(b, bytes.len() as int)));
            assert(0 <= (k - 1) * self.depth_stride) by (nonlinear_arith)
                requires
                    k >= 1,
            ;
            lemma_sliced_bit(bytes, self.data_order, b, i);
            assert(self.bit_at(base + 8 * b, k - 1) == i + 8 * b);
        }
    }

    /// Rendering a buffer without its first `b` bytes is rendering the whole
    /// buffer from `8 * b` bits later.
    pub proof fn lemma_renders_sliced(
        &self,
        bytes: Seq<u8>,
        b: int,
        start: int,
        cells_w: int,
        cells_h: int,
        out: Seq<PalettePixel>,
    )
        requires
            self.wf(),
            0 <= b <= bytes.len(),
            0 <= start,
            0 <= cells_w,
        ensures
            self.renders(bytes.subrange(b, bytes.len() as int), start, cells_w, cells_h, out)
                <==> self.renders(bytes, start + 8 * b, cells_w, cells_h, out),
    {
        let sub = bytes.subrange(b, bytes.len() as int);
        let later = start + 8 * b;
        let cw = self.cell_width as int;
        let ch = self.cell_height as int;
        // pixel `k` reads, from `later` in `bytes`, the bits it reads from `start` in `sub`
        assert forall|k: int| 0 <= k && cw > 0 && ch > 0 implies {
            &&& #[trigger] self.base_of(later, k) == self.base_of(start, k) + 8 * b
            &&& self.bits_in_range(sub, self.base_of(start, k)) == self.bits_in_range(bytes, self.base_of(later, k))
            &&& self.bits_in_range(sub, self.base_of(start, k)) ==> self.pixel_record(sub, start, cells_w, k)
                == self.pixel_record(bytes, later, cells_w, k)
        } by {
            let base = self.base_of(start, k);
            let cell = cell_of(k, cw, ch);
            let row = row_in_cell(k, cw, ch);
            let col = column_in_cell(k, cw);
            vstd::arithmetic::div_mod::lemma_div_pos_is_pos(k, cw);
            vstd::arithmetic::div_mod::lemma_div_pos_is_pos(k / cw, ch);
            vstd::arithmetic::div_mod::lemma_mod_pos_bound(k, cw);
            vstd::arithmetic::div_mod::lemma_mod_pos_bound(k / cw, ch);
            assert(0 <= cell * self.bits_per_cell + row * self.row_stride + col * self.pixel_stride) by (nonlinear_arith)
                requires
                    0 <= cell,
                    0 <= row,
                    0 <= col,
            ;
            assert(self.base_of(later, k) == base + 8 * b);
            if self.bits_in_range(sub, base) {
                assert forall|j: int| 0 <= j < self.depth implies #[trigger] self.bit_at(base + 8 * b, j) < bit_len(bytes) by {
                    assert(self.bit_at(base, j) < bit_len(sub));
                }
                self.lemma_sliced_value(bytes, b, base, self.depth as nat);
            }
            if self.bits_in_range(bytes, base + 8 * b) {
                assert forall|j: int| 0 <= j < self.depth implies #[trigger] self.bit_at(base, j) < bit_len(sub) by {
                    assert(self.bit_at(base + 8 * b, j) < bit_len(bytes));
                }
            }
        }
        let count = self.pixel_count(cells_w, cells_h);
        if cw == 0 || ch == 0 {
            assert(count == 0) by (nonlinear_arith)
                requires
                    cw == 0 || ch == 0,
                    count == cells_h * cells_w * ch * cw,
            ;
        }
        if cw > 0 && ch > 0 {
            if self.renders(sub, start, cells_w, cells_h, out) {
                assert(self.emits_prefix(sub, start, cells_w, out));
                assert forall|k: int| 0 <= k < out.len() implies #[trigger] out[k] == self.pixel_record(bytes, later, cells_w, k) by {
                    assert(out[k] == self.pixel_record(sub, start, cells_w, k));
                    assert(self.base_of(later, k) == self.base_of(start, k) + 8 * b);
                }
                assert forall|k: int| 0 <= k < out.len() implies self.bits_in_range(bytes, self.base_of(later, k))
                    && (out[k].index as nat) < pow2(self.depth as nat) by {
                    assert(out[k] == self.pixel_record(sub, start, cells_w, k));
                    assert(self.base_of(later, k) == self.base_of(start, k) + 8 * b);
                }
                assert(self.emits_prefix(bytes, later, cells_w, out));
                if out.len() < count {
                    assert(self.base_of(later, out.len() as int) == self.base_of(start, out.len() as int) + 8 * b);
                }
            }
            if self.renders(bytes, later, cells_w, cells_h, out) {
                assert(self.emits_prefix(bytes, later, cells_w, out));
                assert forall|k: int| 0 <= k < out.len() implies #[trigger] out[k] == self.pixel_record(sub, start, cells_w, k) by {
                    assert(out[k] == self.pixel_record(bytes, later, cells_w, k));
                    assert(self.base_of(later, k) == self.base_of(start, k) + 8 * b);
                }
                assert forall|k: int| 0 <= k < out.len() implies self.bits_in_range(sub, self.base_of(start, k))
                    && (out[k].index as nat) < pow2(self.depth as nat) by {
                    assert(out[k] == self.pixel_record(bytes, later, cells_w, k));
                    assert(self.base_of(later, k) == self.base_of(start, k) + 8 * b);
                }
                assert(self.emits_prefix(sub, start, cells_w, out));
                if out.len() < count {
                    assert(self.base_of(later, out.len() as int) == self.base_of(start, out.len() as int) + 8 * b);
                }
            }
        }
    }
}

} // verus!
