//! The catalogue of built-in formats a host can choose from.

use vstd::prelude::*;

use crate::linear_codec::{
    lin_1bpp_lsb_first, lin_1bpp_lsb_first_format, lin_1bpp_msb_first, lin_1bpp_msb_first_format,
    NbppPalettedGraphics,
};
use crate::tile_codec::{gb_format, gb_graphics, nes_format, nes_graphics, TileCodec};

verus! {

/// The decoder of a format: tile-based or linear.
#[derive(Clone, Copy, Debug, PartialEq, Eq, Structural)]
pub enum GraphicsCodec {
    Tiled(TileCodec),
    Linear(NbppPalettedGraphics),
}

impl GraphicsCodec {
    pub open spec fn wf(&self) -> bool {
        match self {
            GraphicsCodec::Tiled(c) => c.wf(),
            GraphicsCodec::Linear(c) => c.wf(),
        }
    }
}

/// A built-in format: the key of its display name, whether it is tile-based,
/// and its decoder.
#[derive(Clone, Copy, Debug)]
pub struct BuiltinGraphicsCodec {
    pub i18n_name: &'static str,
    pub is_tiled: bool,
    pub codec: GraphicsCodec,
}

/// Number of built-in formats.
pub const BUILTIN_CODEC_COUNT: usize = 4;

/// The decoders of the built-in formats, in catalogue order.
pub open spec fn builtin_codecs() -> Seq<GraphicsCodec> {
    seq![
        GraphicsCodec::Tiled(TileCodec::PlanarNonInterleaved(nes_format())),
        GraphicsCodec::Tiled(TileCodec::PlanarInterleaved(gb_format())),
        GraphicsCodec::Linear(lin_1bpp_msb_first_format()),
        GraphicsCodec::Linear(lin_1bpp_lsb_first_format()),
    ]
}

/// The display-name keys of the built-in formats, in catalogue order.
pub open spec fn builtin_names() -> Seq<Seq<char>> {
    seq!["nes"@, "gb"@, "lin-1bpp-msbfirst"@, "lin-1bpp-lsbfirst"@]
}

/// Entry `i` of the catalogue is the `i`-th built-in format, and is tile-based
/// exactly when its decoder is.
pub open spec fn is_builtin_entry(e: BuiltinGraphicsCodec, i: int) -> bool {
    &&& 0 <= i < BUILTIN_CODEC_COUNT
    &&& e.i18n_name@ == builtin_names()[i]
    &&& e.codec == builtin_codecs()[i]
    &&& e.is_tiled == (e.codec is Tiled)
}

/// The built-in format at position `index` of the catalogue, or `None` when there
/// is no such format.
pub fn builtin_graphics_codec(index: usize) -> (r: Option<BuiltinGraphicsCodec>)
    ensures
        index < BUILTIN_CODEC_COUNT <==> r is Some,
        r matches Some(e) ==> is_builtin_entry(e, index as int) && e.codec.wf(),
{
    if index == 0 {
        Some(BuiltinGraphicsCodec {
            i18n_name: "nes",
            is_tiled: true,
            codec: GraphicsCodec::Tiled(TileCodec::PlanarNonInterleaved(nes_graphics())),
        })
    } else if index == 1 {
        Some(BuiltinGraphicsCodec {
            i18n_name: "gb",
            is_tiled: true,
            codec: GraphicsCodec::Tiled(TileCodec::PlanarInterleaved(gb_graphics())),
        })
    } else if index == 2 {
        Some(BuiltinGraphicsCodec {
            i18n_name: "lin-1bpp-msbfirst",
            is_tiled: false,
            codec: GraphicsCodec::Linear(lin_1bpp_msb_first()),
        })
    } else if index == 3 {
        Some(BuiltinGraphicsCodec {
            i18n_name: "lin-1bpp-lsbfirst",
            is_tiled: false,
            codec: GraphicsCodec::Linear(lin_1bpp_lsb_first()),
        })
    } else {
        None
    }
}

/// The whole catalogue, in order.
pub fn wasm_get_builtin_graphics_codecs() -> (r: Vec<BuiltinGraphicsCodec>)
    ensures
        r@.len() == BUILTIN_CODEC_COUNT,
        forall|i: int| 0 <= i < r@.len() ==> is_builtin_entry(#[trigger] r@[i], i),
{
    let mut r: Vec<BuiltinGraphicsCodec> = Vec::new();
    let mut i: usize = 0;
    while i < BUILTIN_CODEC_COUNT
        invariant
            i <= BUILTIN_CODEC_COUNT,
            r@.len() == i,
            forall|j: int| 0 <= j < r@.len() ==> is_builtin_entry(#[trigger] r@[j], j),
        decreases BUILTIN_CODEC_COUNT - i,
    {
        match builtin_graphics_codec(i) {
            Some(e) => r.push(e),
            None => {},
        }
        i = i + 1;
    }
    r
}

} // verus!
