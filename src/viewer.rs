//! The state of an interactive viewer: the data, the current bit offset, and the
//! chosen format with the size of the region shown. Every step of navigation is
//! a function from one state to the next; drawing is left to the host.

use vstd::prelude::*;
use vstd::slice::{slice_subrange, slice_to_vec};

use crate::bit_cursor::{lemma_bit_len_fits, MAX_BUFFER_LEN};
use crate::export::{encode_indexed, indexed_png, painted, palette_bytes_spec, ExportError, PALETTE_ENTRIES};
use crate::layout::PalettePixel;
use crate::offset_text::{file_offset_text, file_offset_text_spec, offset_text_value, parse_offset_text, push_decimal, radix_digits};
use crate::linear_codec::NbppPalettedGraphics;
use crate::registry::{builtin_codecs, builtin_graphics_codec, GraphicsCodec, BUILTIN_CODEC_COUNT};
use crate::tile_codec::{nes_format, nes_graphics, TileCodec};

verus! {

/// Tiles across and down of a tile view that starts out, or switches from a
/// linear view.
pub const DEFAULT_TILES: usize = 32;

/// Pixels across and down of a linear view that switches from a tile view.
pub const DEFAULT_PIXELS: usize = 256;

/// How many rows a fast row step moves in a tile view.
pub const FAST_TILE_ROWS: usize = 8;

/// How many rows a fast row step moves in a linear view.
pub const FAST_PIXEL_ROWS: usize = 32;

/// Returned when a format index names no built-in format.
#[derive(Clone, Copy, Debug, PartialEq, Eq, Structural)]
pub struct NoSuchFormat;

/// The format shown and the size of the region.
#[derive(Clone, Copy, Debug, PartialEq, Eq, Structural)]
pub enum TileCorruptorTiledOrLinear {
    Tiled { tiles_width: usize, tiles_height: usize, tile_codec: TileCodec },
    Linear { width: usize, height: usize, lin_codec: NbppPalettedGraphics },
}

/// A tile region of `tiles_width` × `tiles_height` tiles of `codec` can be rendered.
pub open spec fn tiled_fits(tiles_width: int, tiles_height: int, codec: TileCodec) -> bool {
    &&& codec.wf()
    &&& 1 <= tiles_width
    &&& 1 <= tiles_height
    &&& tiles_width * codec.tile_width_spec() <= usize::MAX
    &&& tiles_height * codec.tile_height_spec() <= usize::MAX
}

/// A linear region of `width` × `height` pixels of `codec` can be rendered.
pub open spec fn linear_fits(width: int, height: int, codec: NbppPalettedGraphics) -> bool {
    &&& codec.wf()
    &&& 1 <= width
    &&& 1 <= height
    &&& codec.row_fits(width)
}

impl TileCorruptorTiledOrLinear {
    pub open spec fn wf(&self) -> bool {
        match *self {
            TileCorruptorTiledOrLinear::Tiled { tiles_width, tiles_height, tile_codec } =>
                tiled_fits(tiles_width as int, tiles_height as int, tile_codec),
            TileCorruptorTiledOrLinear::Linear { width, height, lin_codec } =>
                linear_fits(width as int, height as int, lin_codec),
        }
    }
}

/// The view that choosing `codec` while showing `view` leads to: a tile format
/// keeps the tile counts of a tile view, a linear format the size of a linear
/// view; otherwise, or where the kept size does not fit the new format, the
/// default size is taken.
pub open spec fn switched_view(view: TileCorruptorTiledOrLinear, codec: GraphicsCodec) -> TileCorruptorTiledOrLinear {
    match codec {
        GraphicsCodec::Tiled(c) => {
            let kept = match view {
                TileCorruptorTiledOrLinear::Tiled { tiles_width, tiles_height, .. } => Some((tiles_width, tiles_height)),
                _ => None,
            };
            match kept {
                Some((w, h)) if tiled_fits(w as int, h as int, c) =>
                    TileCorruptorTiledOrLinear::Tiled { tiles_width: w, tiles_height: h, tile_codec: c },
                _ => TileCorruptorTiledOrLinear::Tiled { tiles_width: DEFAULT_TILES, tiles_height: DEFAULT_TILES, tile_codec: c },
            }
        },
        GraphicsCodec::Linear(c) => {
            let kept = match view {
                TileCorruptorTiledOrLinear::Linear { width, height, .. } => Some((width, height)),
                _ => None,
            };
            match kept {
                Some((w, h)) if linear_fits(w as int, h as int, c) =>
                    TileCorruptorTiledOrLinear::Linear { width: w, height: h, lin_codec: c },
                _ => TileCorruptorTiledOrLinear::Linear { width: DEFAULT_PIXELS, height: DEFAULT_PIXELS, lin_codec: c },
            }
        },
    }
}

/// The offset `amount` bits back from `off`, stopping at the start of the data.
pub open spec fn stepped_back(off: int, amount: int) -> int {
    if off >= amount { off - amount } else { 0 }
}

/// The offset `amount` bits on from `off`, or `off` itself where that would
/// leave the data.
pub open spec fn stepped_on(off: int, amount: int, data_len: int) -> int {
    if off + amount < data_len * 8 { off + amount } else { off }
}

/// The bit offset that the offset text `s` names, where `s` is well formed and
/// the offset lies inside `data_len` bytes.
pub open spec fn text_target(s: Seq<char>, data_len: int) -> Option<int> {
    match offset_text_value(s) {
        Some((byte, bit)) => if byte * 8 + bit < data_len * 8 { Some(byte * 8 + bit as int) } else { None },
        None => None,
    }
}

/// The size of a view as text: tiles and pixels for a tile view, pixels for a
/// linear view.
pub open spec fn gfx_dims_text_spec(view: TileCorruptorTiledOrLinear) -> Seq<char> {
    match view {
        TileCorruptorTiledOrLinear::Tiled { tiles_width, tiles_height, tile_codec } =>
            radix_digits(tiles_width as nat, 10) + " x "@ + radix_digits(tiles_height as nat, 10) + " tiles ("@
                + radix_digits((tiles_width * tile_codec.tile_width_spec()) as nat, 10) + " x "@
                + radix_digits((tiles_height * tile_codec.tile_height_spec()) as nat, 10) + " px)"@,
        TileCorruptorTiledOrLinear::Linear { width, height, .. } =>
            radix_digits(width as nat, 10) + " x "@ + radix_digits(height as nat, 10) + " px"@,
    }
}

/// The viewer: the data, the current bit offset into it, and the view.
pub struct TileCorruptorAppInst {
    pub data: Vec<u8>,
    pub data_bit_off: usize,
    pub tiled_or_linear: TileCorruptorTiledOrLinear,
}

/// `a * b * c`, or `None` where it does not fit in a `usize`.
fn checked_product(a: usize, b: usize, c: usize) -> (r: Option<usize>)
    requires
        c >= 1,
    ensures
        r matches Some(v) ==> v == a * b * c,
        r is None ==> a * b * c > usize::MAX,
{
    match a.checked_mul(b) {
        Some(ab) => ab.checked_mul(c),
        None => {
            assert(a * b * c >= a * b) by (nonlinear_arith)
                requires
                    c >= 1,
                    a * b >= 0,
            ;
            None
        },
    }
}

impl TileCorruptorAppInst {
    /// The data fits the decoder, the offset lies inside the data (or is 0),
    /// and the view can be rendered.
    pub open spec fn wf(&self) -> bool {
        &&& self.data@.len() <= MAX_BUFFER_LEN
        &&& (self.data_bit_off == 0 || self.data_bit_off < self.data@.len() * 8)
        &&& self.tiled_or_linear.wf()
    }

    /// Bits per row of the view: a row of tiles, or a row of pixels.
    pub open spec fn row_bits(&self) -> int {
        match self.tiled_or_linear {
            TileCorruptorTiledOrLinear::Tiled { tiles_width, tile_codec, .. } =>
                tile_codec.bits_per_tile_spec() * tiles_width,
            TileCorruptorTiledOrLinear::Linear { width, lin_codec, .. } =>
                lin_codec.bits_per_row_spec(width as int),
        }
    }

    /// How many rows a row step moves.
    pub open spec fn row_factor(&self, faster: bool) -> int {
        if !faster {
            1
        } else if self.tiled_or_linear is Tiled {
            FAST_TILE_ROWS as int
        } else {
            FAST_PIXEL_ROWS as int
        }
    }

    /// `out` is what rendering the view emits: the region decoded from the
    /// current offset (the data from its byte, starting at its bit in that byte).
    pub open spec fn shows(&self, out: Seq<PalettePixel>) -> bool {
        let bytes = self.data@.subrange(self.data_bit_off as int / 8, self.data@.len() as int);
        let sub = self.data_bit_off as int % 8;
        match self.tiled_or_linear {
            TileCorruptorTiledOrLinear::Tiled { tiles_width, tiles_height, tile_codec } =>
                tile_codec.layout_spec().renders(bytes, sub, tiles_width as int, tiles_height as int, out),
            TileCorruptorTiledOrLinear::Linear { width, height, lin_codec } =>
                lin_codec.layout_spec(width as int, height as int).renders(bytes, sub, 1, 1, out),
        }
    }

    /// Width and height, in pixels, of the region shown.
    pub open spec fn pixel_dims_spec(&self) -> (int, int) {
        match self.tiled_or_linear {
            TileCorruptorTiledOrLinear::Tiled { tiles_width, tiles_height, tile_codec } => (
                tiles_width * tile_codec.tile_width_spec(),
                tiles_height * tile_codec.tile_height_spec(),
            ),
            TileCorruptorTiledOrLinear::Linear { width, height, .. } => (width as int, height as int),
        }
    }

    /// A viewer at offset 0 of a copy of `data`, showing 32 × 32 tiles of the
    /// first built-in format.
    pub fn new(data: &[u8]) -> (r: Self)
        requires
            data@.len() <= MAX_BUFFER_LEN,
        ensures
            r.wf(),
            r.data@ == data@,
            r.data_bit_off == 0,
            r.tiled_or_linear == (TileCorruptorTiledOrLinear::Tiled {
                tiles_width: DEFAULT_TILES,
                tiles_height: DEFAULT_TILES,
                tile_codec: TileCodec::PlanarNonInterleaved(nes_format()),
            }),
    {
        Self {
            data: slice_to_vec(data),
            data_bit_off: 0,
            tiled_or_linear: TileCorruptorTiledOrLinear::Tiled {
                tiles_width: DEFAULT_TILES,
                tiles_height: DEFAULT_TILES,
                tile_codec: TileCodec::PlanarNonInterleaved(nes_graphics()),
            },
        }
    }

    /// Switches to the built-in format at `new_codec_idx` of the catalogue.
    pub fn change_codec(&mut self, new_codec_idx: usize) -> (r: Result<(), NoSuchFormat>)
        requires
            old(self).wf(),
        ensures
            final(self).wf(),
            r is Err <==> new_codec_idx >= BUILTIN_CODEC_COUNT,
            final(self).data == old(self).data,
            final(self).data_bit_off == old(self).data_bit_off,
            final(self).tiled_or_linear == (if new_codec_idx < BUILTIN_CODEC_COUNT {
                switched_view(old(self).tiled_or_linear, builtin_codecs()[new_codec_idx as int])
            } else {
                old(self).tiled_or_linear
            }),
    {
        let entry = match builtin_graphics_codec(new_codec_idx) {
            Some(e) => e,
            None => return Err(NoSuchFormat),
        };
        match entry.codec {
            GraphicsCodec::Tiled(c) => {
                let (w, h) = match self.tiled_or_linear {
                    TileCorruptorTiledOrLinear::Tiled { tiles_width, tiles_height, .. } => (tiles_width, tiles_height),
                    _ => (0, 0),
                };
                let kept = w >= 1 && h >= 1 && match (w.checked_mul(c.tile_width()), h.checked_mul(c.tile_height())) {
                    (Some(_), Some(_)) => true,
                    _ => false,
                };
                if kept {
                    self.tiled_or_linear = TileCorruptorTiledOrLinear::Tiled { tiles_width: w, tiles_height: h, tile_codec: c };
                } else {
                    self.tiled_or_linear = TileCorruptorTiledOrLinear::Tiled {
                        tiles_width: DEFAULT_TILES,
                        tiles_height: DEFAULT_TILES,
                        tile_codec: c,
                    };
                }
            },
            GraphicsCodec::Linear(c) => {
                let (w, h) = match self.tiled_or_linear {
                    TileCorruptorTiledOrLinear::Linear { width, height, .. } => (width, height),
                    _ => (0, 0),
                };
                let kept = w >= 1 && h >= 1 && match c.bits_per_pixel().checked_mul(w) {
                    Some(bits) => bits.checked_add(c.row_pad).is_some(),
                    None => false,
                };
                if kept {
                    self.tiled_or_linear = TileCorruptorTiledOrLinear::Linear { width: w, height: h, lin_codec: c };
                } else {
                    self.tiled_or_linear = TileCorruptorTiledOrLinear::Linear {
                        width: DEFAULT_PIXELS,
                        height: DEFAULT_PIXELS,
                        lin_codec: c,
                    };
                }
            },
        }
        Ok(())
    }

    /// Width and height, in pixels, of the region shown.
    pub fn pixel_dims(&self) -> (r: (usize, usize))
        requires
            self.wf(),
        ensures
            r.0 == self.pixel_dims_spec().0,
            r.1 == self.pixel_dims_spec().1,
    {
        match self.tiled_or_linear {
            TileCorruptorTiledOrLinear::Tiled { tiles_width, tiles_height, tile_codec } => (
                tiles_width * tile_codec.tile_width(),
                tiles_height * tile_codec.tile_height(),
            ),
            TileCorruptorTiledOrLinear::Linear { width, height, .. } => (width, height),
        }
    }

    /// The pixels of the region shown, decoded from the current offset.
    pub fn render(&self) -> (out: Vec<PalettePixel>)
        requires
            self.wf(),
        ensures
            self.shows(out@),
    {
        let bytes = slice_subrange(self.data.as_slice(), self.data_bit_off / 8, self.data.len());
        let sub = (self.data_bit_off % 8) as u8;
        match self.tiled_or_linear {
            TileCorruptorTiledOrLinear::Tiled { tiles_width, tiles_height, tile_codec } =>
                tile_codec.render(bytes, sub, tiles_width, tiles_height),
            TileCorruptorTiledOrLinear::Linear { width, height, lin_codec } =>
                lin_codec.render(bytes, sub, width, height),
        }
    }

    /// One tile (or pixel) narrower, down to 1.
    pub fn width_minus(&mut self)
        requires
            old(self).wf(),
        ensures
            final(self).wf(),
            final(self).data == old(self).data,
            final(self).data_bit_off == old(self).data_bit_off,
            final(self).tiled_or_linear == (match old(self).tiled_or_linear {
                TileCorruptorTiledOrLinear::Tiled { tiles_width, tiles_height, tile_codec } =>
                    TileCorruptorTiledOrLinear::Tiled {
                        tiles_width: if tiles_width > 1 { (tiles_width - 1) as usize } else { tiles_width },
                        tiles_height,
                        tile_codec,
                    },
                TileCorruptorTiledOrLinear::Linear { width, height, lin_codec } =>
                    TileCorruptorTiledOrLinear::Linear {
                        width: if width > 1 { (width - 1) as usize } else { width },
                        height,
                        lin_codec,
                    },
            }),
    {
        match self.tiled_or_linear {
            TileCorruptorTiledOrLinear::Tiled { tiles_width, tiles_height, tile_codec } => {
                if tiles_width > 1 {
                    assert((tiles_width - 1) * tile_codec.tile_width_spec() <= tiles_width * tile_codec.tile_width_spec())
                        by (nonlinear_arith)
                        requires
                            tiles_width > 1,
                            tile_codec.tile_width_spec() >= 0,
                    ;
                    self.tiled_or_linear = TileCorruptorTiledOrLinear::Tiled {
                        tiles_width: tiles_width - 1,
                        tiles_height,
                        tile_codec,
                    };
                }
            },
            TileCorruptorTiledOrLinear::Linear { width, height, lin_codec } => {
                if width > 1 {
                    assert(lin_codec.bits_per_pixel_spec() * (width - 1) <= lin_codec.bits_per_pixel_spec() * width)
                        by (nonlinear_arith)
                        requires
                            width > 1,
                            lin_codec.bits_per_pixel_spec() >= 0,
                    ;
                    self.tiled_or_linear = TileCorruptorTiledOrLinear::Linear { width: width - 1, height, lin_codec };
                }
            },
        }
    }

    /// One tile (or pixel) wider, unless the region's bits would no longer
    /// fit in a `usize`.
    pub fn width_plus(&mut self)
        requires
            old(self).wf(),
        ensures
            final(self).wf(),
            final(self).data == old(self).data,
            final(self).data_bit_off == old(self).data_bit_off,
            final(self).tiled_or_linear == (match old(self).tiled_or_linear {
                TileCorruptorTiledOrLinear::Tiled { tiles_width, tiles_height, tile_codec } =>
                    if tiles_width < usize::MAX && tiled_fits(tiles_width + 1, tiles_height as int, tile_codec) {
                        TileCorruptorTiledOrLinear::Tiled { tiles_width: (tiles_width + 1) as usize, tiles_height, tile_codec }
                    } else {
                        old(self).tiled_or_linear
                    },
                TileCorruptorTiledOrLinear::Linear { width, height, lin_codec } =>
                    if width < usize::MAX && linear_fits(width + 1, height as int, lin_codec) {
                        TileCorruptorTiledOrLinear::Linear { width: (width + 1) as usize, height, lin_codec }
                    } else {
                        old(self).tiled_or_linear
                    },
            }),
    {
        match self.tiled_or_linear {
            TileCorruptorTiledOrLinear::Tiled { tiles_width, tiles_height, tile_codec } => {
                if tiles_width < usize::MAX {
                    let w = tiles_width + 1;
                    if w.checked_mul(tile_codec.tile_width()).is_some() {
                        self.tiled_or_linear = TileCorruptorTiledOrLinear::Tiled { tiles_width: w, tiles_height, tile_codec };
                    }
                }
            },
            TileCorruptorTiledOrLinear::Linear { width, height, lin_codec } => {
                if width < usize::MAX {
                    let w = width + 1;
                    let fits = match lin_codec.bits_per_pixel().checked_mul(w) {
                        Some(bits) => bits.checked_add(lin_codec.row_pad).is_some(),
                        None => false,
                    };
                    if fits {
                        self.tiled_or_linear = TileCorruptorTiledOrLinear::Linear { width: w, height, lin_codec };
                    }
                }
            },
        }
    }

    /// One tile (or pixel) lower, down to 1.
    pub fn height_minus(&mut self)
        requires
            old(self).wf(),
        ensures
            final(self).wf(),
            final(self).data == old(self).data,
            final(self).data_bit_off == old(self).data_bit_off,
            final(self).tiled_or_linear == (match old(self).tiled_or_linear {
                TileCorruptorTiledOrLinear::Tiled { tiles_width, tiles_height, tile_codec } =>
                    TileCorruptorTiledOrLinear::Tiled {
                        tiles_width,
                        tiles_height: if tiles_height > 1 { (tiles_height - 1) as usize } else { tiles_height },
                        tile_codec,
                    },
                TileCorruptorTiledOrLinear::Linear { width, height, lin_codec } =>
                    TileCorruptorTiledOrLinear::Linear {
                        width,
                        height: if height > 1 { (height - 1) as usize } else { height },
                        lin_codec,
                    },
            }),
    {
        match self.tiled_or_linear {
            TileCorruptorTiledOrLinear::Tiled { tiles_width, tiles_height, tile_codec } => {
                if tiles_height > 1 {
                    assert((tiles_height - 1) * tile_codec.tile_height_spec() <= tiles_height * tile_codec.tile_height_spec())
                        by (nonlinear_arith)
                        requires
                            tiles_height > 1,
                            tile_codec.tile_height_spec() >= 0,
                    ;
                    self.tiled_or_linear = TileCorruptorTiledOrLinear::Tiled {
                        tiles_width,
                        tiles_height: tiles_height - 1,
                        tile_codec,
                    };
                }
            },
            TileCorruptorTiledOrLinear::Linear { width, height, lin_codec } => {
                if height > 1 {
                    self.tiled_or_linear = TileCorruptorTiledOrLinear::Linear { width, height: height - 1, lin_codec };
                }
            },
        }
    }

    /// One tile (or pixel) higher, unless the region would no longer fit in a
    /// `usize`.
    pub fn height_plus(&mut self)
        requires
            old(self).wf(),
        ensures
            final(self).wf(),
            final(self).data == old(self).data,
            final(self).data_bit_off == old(self).data_bit_off,
            final(self).tiled_or_linear == (match old(self).tiled_or_linear {
                TileCorruptorTiledOrLinear::Tiled { tiles_width, tiles_height, tile_codec } =>
                    if tiles_height < usize::MAX && tiled_fits(tiles_width as int, tiles_height + 1, tile_codec) {
                        TileCorruptorTiledOrLinear::Tiled { tiles_width, tiles_height: (tiles_height + 1) as usize, tile_codec }
                    } else {
                        old(self).tiled_or_linear
                    },
                TileCorruptorTiledOrLinear::Linear { width, height, lin_codec } =>
                    if height + 1 <= usize::MAX {
                        TileCorruptorTiledOrLinear::Linear { width, height: (height + 1) as usize, lin_codec }
                    } else {
                        old(self).tiled_or_linear
                    },
            }),
    {
        match self.tiled_or_linear {
            TileCorruptorTiledOrLinear::Tiled { tiles_width, tiles_height, tile_codec } => {
                if tiles_height < usize::MAX {
                    let h = tiles_height + 1;
                    if h.checked_mul(tile_codec.tile_height()).is_some() {
                        self.tiled_or_linear = TileCorruptorTiledOrLinear::Tiled { tiles_width, tiles_height: h, tile_codec };
                    }
                }
            },
            TileCorruptorTiledOrLinear::Linear { width, height, lin_codec } => {
                if height < usize::MAX {
                    self.tiled_or_linear = TileCorruptorTiledOrLinear::Linear { width, height: height + 1, lin_codec };
                }
            },
        }
    }

    /// In a tile view, one tile back (stopping at the start of the data);
    /// returns whether the view is a tile view. A linear view is left as it is.
    pub fn tile_minus(&mut self) -> (moved: bool)
        requires
            old(self).wf(),
        ensures
            final(self).wf(),
            moved == (old(self).tiled_or_linear is Tiled),
            final(self).data == old(self).data,
            final(self).tiled_or_linear == old(self).tiled_or_linear,
            final(self).data_bit_off == (match old(self).tiled_or_linear {
                TileCorruptorTiledOrLinear::Tiled { tile_codec, .. } =>
                    stepped_back(old(self).data_bit_off as int, tile_codec.bits_per_tile_spec()),
                _ => old(self).data_bit_off as int,
            }),
    {
        match self.tiled_or_linear {
            TileCorruptorTiledOrLinear::Tiled { tile_codec, .. } => {
                self.step_back(tile_codec.bits_per_tile());
                true
            },
            _ => false,
        }
    }

    /// In a tile view, one tile on, unless that leaves the data; returns whether
    /// the offset moved.
    pub fn tile_plus(&mut self) -> (moved: bool)
        requires
            old(self).wf(),
        ensures
            final(self).wf(),
            final(self).data == old(self).data,
            final(self).tiled_or_linear == old(self).tiled_or_linear,
            final(self).data_bit_off == (match old(self).tiled_or_linear {
                TileCorruptorTiledOrLinear::Tiled { tile_codec, .. } => stepped_on(
                    old(self).data_bit_off as int,
                    tile_codec.bits_per_tile_spec(),
                    old(self).data@.len() as int,
                ),
                _ => old(self).data_bit_off as int,
            }),
            moved == (final(self).data_bit_off != old(self).data_bit_off),
    {
        match self.tiled_or_linear {
            TileCorruptorTiledOrLinear::Tiled { tile_codec, .. } => self.step_on(tile_codec.bits_per_tile()),
            _ => false,
        }
    }

    /// In a linear view, one pixel back (stopping at the start of the data);
    /// returns whether the view is a linear view. A tile view is left as it is.
    pub fn px_minus(&mut self) -> (moved: bool)
        requires
            old(self).wf(),
        ensures
            final(self).wf(),
            moved == (old(self).tiled_or_linear is Linear),
            final(self).data == old(self).data,
            final(self).tiled_or_linear == old(self).tiled_or_linear,
            final(self).data_bit_off == (match old(self).tiled_or_linear {
                TileCorruptorTiledOrLinear::Linear { lin_codec, .. } =>
                    stepped_back(old(self).data_bit_off as int, lin_codec.bits_per_pixel_spec()),
                _ => old(self).data_bit_off as int,
            }),
    {
        match self.tiled_or_linear {
            TileCorruptorTiledOrLinear::Linear { lin_codec, .. } => {
                self.step_back(lin_codec.bits_per_pixel());
                true
            },
            _ => false,
        }
    }

    /// In a linear view, one pixel on, unless that leaves the data; returns
    /// whether the offset moved.
    pub fn px_plus(&mut self) -> (moved: bool)
        requires
            old(self).wf(),
        ensures
            final(self).wf(),
            final(self).data == old(self).data,
            final(self).tiled_or_linear == old(self).tiled_or_linear,
            final(self).data_bit_off == (match old(self).tiled_or_linear {
                TileCorruptorTiledOrLinear::Linear { lin_codec, .. } => stepped_on(
                    old(self).data_bit_off as int,
                    lin_codec.bits_per_pixel_spec(),
                    old(self).data@.len() as int,
                ),
                _ => old(self).data_bit_off as int,
            }),
            moved == (final(self).data_bit_off != old(self).data_bit_off),
    {
        match self.tiled_or_linear {
            TileCorruptorTiledOrLinear::Linear { lin_codec, .. } => self.step_on(lin_codec.bits_per_pixel()),
            _ => false,
        }
    }

    /// The bits a row step moves, or `None` where that does not fit in a `usize`.
    fn row_step(&self, faster: bool) -> (r: Option<usize>)
        requires
            self.wf(),
        ensures
            r matches Some(v) ==> v == self.row_bits() * self.row_factor(faster),
            r is None ==> self.row_bits() * self.row_factor(faster) > usize::MAX,
    {
        match self.tiled_or_linear {
            TileCorruptorTiledOrLinear::Tiled { tiles_width, tile_codec, .. } => {
                let factor: usize = if faster { FAST_TILE_ROWS } else { 1 };
                checked_product(tile_codec.bits_per_tile(), tiles_width, factor)
            },
            TileCorruptorTiledOrLinear::Linear { width, lin_codec, .. } => {
                let factor: usize = if faster { FAST_PIXEL_ROWS } else { 1 };
                checked_product(lin_codec.bits_per_row(width), 1, factor)
            },
        }
    }

    /// One row of tiles (or pixels) back, or eight rows of tiles (32 rows of
    /// pixels) when `faster`, stopping at the start of the data.
    pub fn row_minus(&mut self, faster: bool)
        requires
            old(self).wf(),
        ensures
            final(self).wf(),
            final(self).data == old(self).data,
            final(self).tiled_or_linear == old(self).tiled_or_linear,
            final(self).data_bit_off == stepped_back(
                old(self).data_bit_off as int,
                old(self).row_bits() * old(self).row_factor(faster),
            ),
    {
        match self.row_step(faster) {
            Some(amount) => self.step_back(amount),
            None => self.data_bit_off = 0,
        }
    }

    /// One row of tiles (or pixels) on, or eight rows of tiles (32 rows of
    /// pixels) when `faster`, unless that leaves the data.
    pub fn row_plus(&mut self, faster: bool)
        requires
            old(self).wf(),
        ensures
            final(self).wf(),
            final(self).data == old(self).data,
            final(self).tiled_or_linear == old(self).tiled_or_linear,
            final(self).data_bit_off == stepped_on(
                old(self).data_bit_off as int,
                old(self).row_bits() * old(self).row_factor(faster),
                old(self).data@.len() as int,
            ),
    {
        match self.row_step(faster) {
            Some(amount) => {
                self.step_on(amount);
            },
            None => {},
        }
    }

    /// One byte back, where the offset is at least one byte; returns whether it moved.
    pub fn byte_minus(&mut self) -> (moved: bool)
        requires
            old(self).wf(),
        ensures
            final(self).wf(),
            final(self).data == old(self).data,
            final(self).tiled_or_linear == old(self).tiled_or_linear,
            moved == (old(self).data_bit_off >= 8),
            final(self).data_bit_off == (if moved { old(self).data_bit_off - 8 } else { old(self).data_bit_off as int }),
    {
        if self.data_bit_off >= 8 {
            self.data_bit_off = self.data_bit_off - 8;
            true
        } else {
            false
        }
    }

    /// One byte on, unless that leaves the data; returns whether it moved.
    pub fn byte_plus(&mut self) -> (moved: bool)
        requires
            old(self).wf(),
        ensures
            final(self).wf(),
            final(self).data == old(self).data,
            final(self).tiled_or_linear == old(self).tiled_or_linear,
            final(self).data_bit_off == stepped_on(old(self).data_bit_off as int, 8, old(self).data@.len() as int),
            moved == (final(self).data_bit_off != old(self).data_bit_off),
    {
        self.step_on(8)
    }

    /// One bit back, where the offset is not 0; returns whether it moved.
    pub fn bit_minus(&mut self) -> (moved: bool)
        requires
            old(self).wf(),
        ensures
            final(self).wf(),
            final(self).data == old(self).data,
            final(self).tiled_or_linear == old(self).tiled_or_linear,
            moved == (old(self).data_bit_off > 0),
            final(self).data_bit_off == (if moved { old(self).data_bit_off - 1 } else { old(self).data_bit_off as int }),
    {
        if self.data_bit_off > 0 {
            self.data_bit_off = self.data_bit_off - 1;
            true
        } else {
            false
        }
    }

    /// One bit on, unless that leaves the data; returns whether it moved.
    pub fn bit_plus(&mut self) -> (moved: bool)
        requires
            old(self).wf(),
        ensures
            final(self).wf(),
            final(self).data == old(self).data,
            final(self).tiled_or_linear == old(self).tiled_or_linear,
            final(self).data_bit_off == stepped_on(old(self).data_bit_off as int, 1, old(self).data@.len() as int),
            moved == (final(self).data_bit_off != old(self).data_bit_off),
    {
        self.step_on(1)
    }

    fn step_back(&mut self, amount: usize)
        requires
            old(self).wf(),
        ensures
            final(self).wf(),
            final(self).data == old(self).data,
            final(self).tiled_or_linear == old(self).tiled_or_linear,
            final(self).data_bit_off == stepped_back(old(self).data_bit_off as int, amount as int),
    {
        if self.data_bit_off >= amount {
            self.data_bit_off = self.data_bit_off - amount;
        } else {
            self.data_bit_off = 0;
        }
    }

    fn step_on(&mut self, amount: usize) -> (moved: bool)
        requires
            old(self).wf(),
        ensures
            final(self).wf(),
            final(self).data == old(self).data,
            final(self).tiled_or_linear == old(self).tiled_or_linear,
            final(self).data_bit_off == stepped_on(old(self).data_bit_off as int, amount as int, old(self).data@.len() as int),
            moved == (final(self).data_bit_off != old(self).data_bit_off),
    {
        proof {
            lemma_bit_len_fits(self.data@.len() as usize);
        }
        match self.data_bit_off.checked_add(amount) {
            Some(new_off) => {
                if new_off / 8 < self.data.len() {
                    self.data_bit_off = new_off;
                    amount != 0
                } else {
                    false
                }
            },
            None => false,
        }
    }

    /// Moves to the offset that the text `offs_str` names (a hexadecimal byte
    /// offset, optionally `0x`-prefixed, optionally followed by `.b` and a bit
    /// number), where the text is well formed and the offset lies inside the
    /// data; returns whether it moved.
    pub fn go_to_offset(&mut self, offs_str: &str) -> (moved: bool)
        requires
            old(self).wf(),
        ensures
            final(self).wf(),
            final(self).data == old(self).data,
            final(self).tiled_or_linear == old(self).tiled_or_linear,
            moved == (text_target(offs_str@, old(self).data@.len() as int) is Some),
            final(self).data_bit_off == (match text_target(offs_str@, old(self).data@.len() as int) {
                Some(off) => off,
                None => old(self).data_bit_off as int,
            }),
    {
        proof {
            lemma_bit_len_fits(self.data@.len() as usize);
        }
        let (byte, bit) = match parse_offset_text(offs_str) {
            Some(parsed) => parsed,
            None => return false,
        };
        let new_off = match byte.checked_mul(8) {
            Some(bits) => bits.checked_add(bit as usize),
            None => None,
        };
        match new_off {
            Some(off) => {
                if off / 8 < self.data.len() {
                    self.data_bit_off = off;
                    true
                } else {
                    false
                }
            },
            None => false,
        }
    }

    /// The current offset as text, as `file_offset_text_spec` describes.
    pub fn file_offset_text(&self) -> (r: String)
        ensures
            r@ == file_offset_text_spec(self.data_bit_off as nat),
    {
        file_offset_text(self.data_bit_off)
    }

    /// The size of the region shown, as text.
    pub fn gfx_dims_text(&self) -> (r: String)
        requires
            self.wf(),
        ensures
            r@ == gfx_dims_text_spec(self.tiled_or_linear),
    {
        let mut r = String::new();
        match self.tiled_or_linear {
            TileCorruptorTiledOrLinear::Tiled { tiles_width, tiles_height, tile_codec } => {
                push_decimal(&mut r, tiles_width);
                r.append(" x ");
                push_decimal(&mut r, tiles_height);
                r.append(" tiles (");
                push_decimal(&mut r, tiles_width * tile_codec.tile_width());
                r.append(" x ");
                push_decimal(&mut r, tiles_height * tile_codec.tile_height());
                r.append(" px)");
            },
            TileCorruptorTiledOrLinear::Linear { width, height, .. } => {
                push_decimal(&mut r, width);
                r.append(" x ");
                push_decimal(&mut r, height);
                r.append(" px");
            },
        }
        assert(r@ =~= gfx_dims_text_spec(self.tiled_or_linear));
        r
    }

    /// The region shown as an indexed PNG image with the first 256 colours of
    /// `palette`; pixels that rendering does not reach keep index 0.
    pub fn export_png(&self, palette: &[(u8, u8, u8)]) -> (r: Result<Vec<u8>, ExportError>)
        requires
            self.wf(),
            palette@.len() >= PALETTE_ENTRIES,
        ensures
            ({
                let (w, h) = self.pixel_dims_spec();
                &&& r == Err::<Vec<u8>, ExportError>(ExportError::TooLarge) <==> (w > u32::MAX || h > u32::MAX || w >= usize::MAX
                    || w * h > usize::MAX)
                &&& r matches Ok(bytes) ==> exists|out: Seq<PalettePixel>|
                    #[trigger] self.shows(out) && bytes@ == indexed_png(
                        w as u32,
                        h as u32,
                        palette_bytes_spec(palette@),
                        painted(Seq::new((w * h) as nat, |i: int| 0u8), w, h, out),
                    )
            }),
    {
        let (w, h) = self.pixel_dims();
        let pixels = self.render();
        let r = encode_indexed(w, h, &pixels, palette);
        assert(self.shows(pixels@));
        r
    }
}

} // verus!
