use tile_corruptor::bit_cursor::{read_bit, OutOfRange};
use tile_corruptor::bit_order::BitOrderTag;
use tile_corruptor::layout::PalettePixel;
use tile_corruptor::linear_codec::{lin_1bpp_lsb_first, lin_1bpp_msb_first, NbppPalettedGraphics};
use tile_corruptor::registry::{builtin_graphics_codec, wasm_get_builtin_graphics_codecs, GraphicsCodec};
use tile_corruptor::tile_codec::{
    gb_graphics, gba_tile_graphics_4bpp, genesis_graphics_4bpp, nes_graphics, tile_graphics_8bpp,
    NonPlanarTileGraphics, PlanarInterleavedTileGraphics, PlanarNonInterleavedTileGraphics, TileCodec,
};

const ORDERS: [BitOrderTag; 3] = [BitOrderTag::MsbFirst, BitOrderTag::LsbFirst, BitOrderTag::HiLoNibbleSwap];

fn nes_fixture() -> Vec<u8> {
    vec![
        0x41, 0xC2, 0x44, 0x48, 0x10, 0x20, 0x40, 0x80, //
        0x01, 0x02, 0x04, 0x08, 0x16, 0x21, 0x42, 0x87,
    ]
}

fn all_tile_codecs() -> Vec<TileCodec> {
    vec![
        TileCodec::PlanarNonInterleaved(nes_graphics()),
        TileCodec::PlanarInterleaved(gb_graphics()),
        TileCodec::NonPlanar(gba_tile_graphics_4bpp()),
        TileCodec::NonPlanar(genesis_graphics_4bpp()),
        TileCodec::NonPlanar(tile_graphics_8bpp()),
    ]
}

fn indices(out: &[PalettePixel]) -> Vec<u8> {
    out.iter().map(|p| p.index).collect()
}

#[test]
fn prove_hilo() {
    for order in ORDERS {
        for width in [8u32, 16, 32, 64] {
            let mut seen = vec![false; width as usize];
            for i in 0..width {
                let p = order.physical_position(width, i);
                assert!(p < width);
                assert!(!seen[p as usize]);
                seen[p as usize] = true;
            }
            assert!(seen.iter().all(|s| *s));
        }
    }
}

#[test]
fn hilo_positions() {
    let o = BitOrderTag::HiLoNibbleSwap;
    assert_eq!(o.physical_position(8, 0), 3);
    assert_eq!(o.physical_position(8, 4), 7);
    assert_eq!(o.physical_position(8, 3), 0);
    assert_eq!(o.physical_position(8, 7), 4);
}

#[test]
fn msb_and_lsb_positions() {
    assert_eq!(BitOrderTag::MsbFirst.physical_position(8, 0), 7);
    assert_eq!(BitOrderTag::MsbFirst.physical_position(16, 3), 12);
    assert_eq!(BitOrderTag::LsbFirst.physical_position(8, 5), 5);
}

#[test]
fn tile_codec_ensure_obj_safe() {
    let codecs = all_tile_codecs();
    let widths: Vec<usize> = codecs.iter().map(|c| c.tile_width()).collect();
    assert_eq!(widths, vec![8, 8, 8, 8, 8]);
}

#[test]
fn linear_codec_ensure_obj_safe() {
    let codecs: Vec<NbppPalettedGraphics> = vec![lin_1bpp_msb_first(), lin_1bpp_lsb_first()];
    for c in &codecs {
        assert_eq!(c.bits_per_pixel(), 1);
    }
}

#[test]
fn read_bit_orders() {
    let bytes = [0b1000_0001u8, 0b0100_0000];
    assert_eq!(read_bit(&bytes, BitOrderTag::MsbFirst, 0), Ok(true));
    assert_eq!(read_bit(&bytes, BitOrderTag::MsbFirst, 1), Ok(false));
    assert_eq!(read_bit(&bytes, BitOrderTag::MsbFirst, 9), Ok(true));
    assert_eq!(read_bit(&bytes, BitOrderTag::LsbFirst, 0), Ok(true));
    assert_eq!(read_bit(&bytes, BitOrderTag::LsbFirst, 6), Ok(false));
    assert_eq!(read_bit(&bytes, BitOrderTag::LsbFirst, 14), Ok(true));
    // logical 3 is physical bit 0, logical 4 is physical bit 7
    assert_eq!(read_bit(&bytes, BitOrderTag::HiLoNibbleSwap, 3), Ok(true));
    assert_eq!(read_bit(&bytes, BitOrderTag::HiLoNibbleSwap, 4), Ok(true));
    assert_eq!(read_bit(&bytes, BitOrderTag::HiLoNibbleSwap, 0), Ok(false));
    assert_eq!(read_bit(&bytes, BitOrderTag::HiLoNibbleSwap, 13), Ok(true));
}

#[test]
fn read_bit_out_of_range() {
    let bytes = [0xFFu8, 0xFF];
    assert_eq!(read_bit(&bytes, BitOrderTag::MsbFirst, 15), Ok(true));
    assert_eq!(read_bit(&bytes, BitOrderTag::MsbFirst, 16), Err(OutOfRange));
    assert_eq!(read_bit(&[], BitOrderTag::LsbFirst, 0), Err(OutOfRange));
}

#[test]
fn bits_per_tile_values() {
    assert_eq!(nes_graphics().bits_per_tile(), 128);
    assert_eq!(gb_graphics().bits_per_tile(), 128);
    assert_eq!(gba_tile_graphics_4bpp().bits_per_tile(), 256);
    assert_eq!(lin_1bpp_msb_first().bits_per_row(8), 8);
}

#[test]
fn bits_per_tile_with_padding() {
    let a = PlanarNonInterleavedTileGraphics::new(BitOrderTag::MsbFirst, BitOrderTag::LsbFirst, 3, 8, 8, 2, 5, 7);
    assert_eq!(a.bits_per_tile(), ((8 + 2) * 8 + 5) * 3 + 7);
    let b = PlanarInterleavedTileGraphics::new(BitOrderTag::MsbFirst, BitOrderTag::LsbFirst, 2, 8, 4, 1, 3);
    assert_eq!(b.bits_per_tile(), ((8 + 1) * 2) * 4 + 3);
    let c = NonPlanarTileGraphics::new(BitOrderTag::LsbFirst, 2, 4, 4, 3, 9);
    assert_eq!(c.bits_per_tile(), (2 * 4 + 3) * 4 + 9);
    let l = NbppPalettedGraphics::new(BitOrderTag::MsbFirst, 3, 1, 5);
    assert_eq!(l.bits_per_pixel(), 4);
    assert_eq!(l.bits_per_row(10), 45);
}

#[test]
fn palette_sizes() {
    assert_eq!(nes_graphics().num_palette_colors(), 4);
    assert_eq!(gba_tile_graphics_4bpp().num_palette_colors(), 16);
    assert_eq!(tile_graphics_8bpp().num_palette_colors(), 256);
    assert_eq!(lin_1bpp_lsb_first().num_palette_colors(), 2);
    assert_eq!(TileCodec::PlanarInterleaved(gb_graphics()).num_palette_colors(), 4);
}

#[test]
fn nes_tile_fixture() {
    let out = nes_graphics().render(&nes_fixture(), 0, 1, 1);
    let expected: [[u8; 8]; 8] = [
        [0, 1, 0, 0, 0, 0, 0, 3],
        [1, 1, 0, 0, 0, 0, 3, 0],
        [0, 1, 0, 0, 0, 3, 0, 0],
        [0, 1, 0, 0, 3, 0, 0, 0],
        [0, 0, 0, 3, 0, 2, 2, 0],
        [0, 0, 3, 0, 0, 0, 0, 2],
        [0, 3, 0, 0, 0, 0, 2, 0],
        [3, 0, 0, 0, 0, 2, 2, 2],
    ];
    assert_eq!(out.len(), 64);
    for (k, p) in out.iter().enumerate() {
        assert_eq!((p.x, p.y), (k % 8, k / 8));
        assert_eq!(p.index, expected[k / 8][k % 8]);
    }
}

#[test]
fn gb_interleaved_tile() {
    // row 0: plane 0 = 0xFF, plane 1 = 0x0F; every other row 0
    let mut bytes = vec![0u8; 16];
    bytes[0] = 0xFF;
    bytes[1] = 0x0F;
    let out = gb_graphics().render(&bytes, 0, 1, 1);
    assert_eq!(out.len(), 64);
    assert_eq!(indices(&out[0..8]), vec![1, 1, 1, 1, 3, 3, 3, 3]);
    assert!(out[8..].iter().all(|p| p.index == 0));
}

#[test]
fn chunky_4bpp_lsb_first() {
    let mut bytes = vec![0u8; 32];
    bytes[0] = 0x21;
    let out = gba_tile_graphics_4bpp().render(&bytes, 0, 1, 1);
    assert_eq!(out.len(), 64);
    assert_eq!(indices(&out[0..3]), vec![1, 2, 0]);
}

#[test]
fn chunky_4bpp_nibble_swapped() {
    let mut bytes = vec![0u8; 32];
    bytes[0] = 0x12;
    let out = genesis_graphics_4bpp().render(&bytes, 0, 1, 1);
    assert_eq!(out.len(), 64);
    assert_eq!(indices(&out[0..3]), vec![4, 8, 0]);
}

#[test]
fn chunky_8bpp_reads_whole_bytes() {
    let bytes: Vec<u8> = (0..64u8).collect();
    let out = tile_graphics_8bpp().render(&bytes, 0, 1, 1);
    assert_eq!(indices(&out), bytes);
}

#[test]
fn linear_1bpp_msb_and_lsb() {
    let bytes = [0b1010_0000u8];
    let msb = lin_1bpp_msb_first().render(&bytes, 0, 8, 1);
    assert_eq!(indices(&msb), vec![1, 0, 1, 0, 0, 0, 0, 0]);
    let lsb = lin_1bpp_lsb_first().render(&bytes, 0, 8, 1);
    assert_eq!(indices(&lsb), vec![0, 0, 0, 0, 0, 1, 0, 1]);
    assert_eq!((lsb[5].x, lsb[5].y), (5, 0));
}

#[test]
fn linear_2bpp_assembles_each_pixel() {
    let codec = NbppPalettedGraphics::new(BitOrderTag::MsbFirst, 2, 0, 0);
    let out = codec.render(&[0b1101_0000u8], 0, 2, 2);
    assert_eq!(indices(&out), vec![3, 2, 0, 0]);
    assert_eq!((out[2].x, out[2].y), (0, 1));
}

#[test]
fn linear_padding_skips_bits() {
    // one padding bit after each pixel, one after each row of 3 pixels:
    // row 0 reads bits 0, 2, 4 and row 1 bits 7, 9, 11
    let codec = NbppPalettedGraphics::new(BitOrderTag::MsbFirst, 1, 1, 1);
    let out = codec.render(&[0b1010_1011u8, 0b1000_0000], 0, 3, 2);
    assert_eq!(indices(&out), vec![1, 1, 1, 1, 0, 0]);
}

#[test]
fn zero_buffer_gives_zero_for_every_codec() {
    let bytes = vec![0u8; 1024];
    for codec in all_tile_codecs() {
        for offs in [0u8, 3, 7] {
            let out = codec.render(&bytes, offs, 3, 2);
            assert_eq!(out.len(), 3 * 2 * 64);
            assert!(out.iter().all(|p| p.index == 0));
        }
    }
    for order in ORDERS {
        let codec = NbppPalettedGraphics::new(order, 3, 1, 2);
        let out = codec.render(&bytes, 5, 17, 9);
        assert_eq!(out.len(), 17 * 9);
        assert!(out.iter().all(|p| p.index == 0));
    }
}

#[test]
fn stops_one_bit_short_of_a_tile() {
    // from bit 1, the last plane bit of the last pixel would be bit 128 of 128
    let bytes = vec![0xFFu8; 16];
    let out = nes_graphics().render(&bytes, 1, 1, 1);
    assert_eq!(out.len(), 63);
    assert!(out.iter().all(|p| p.index == 3));
    let full = nes_graphics().render(&bytes, 0, 1, 1);
    assert_eq!(full.len(), 64);
}

#[test]
fn stops_one_bit_short_of_a_row() {
    let out = lin_1bpp_msb_first().render(&[0xFFu8], 1, 8, 1);
    assert_eq!(out.len(), 7);
    let out = lin_1bpp_msb_first().render(&[0xFFu8], 0, 8, 2);
    assert_eq!(out.len(), 8);
}

#[test]
fn empty_buffer_emits_nothing() {
    assert!(nes_graphics().render(&[], 0, 4, 4).is_empty());
    assert!(lin_1bpp_lsb_first().render(&[], 0, 4, 4).is_empty());
}

#[test]
fn one_tile_later_is_the_next_tile() {
    let mut bytes = nes_fixture();
    bytes.extend((0..32u8).map(|i| i.wrapping_mul(37)));
    for codec in [TileCodec::PlanarNonInterleaved(nes_graphics()), TileCodec::PlanarInterleaved(gb_graphics())] {
        let bpt = codec.bits_per_tile();
        assert_eq!(bpt % 8, 0);
        let grid = codec.render(&bytes, 0, 3, 1);
        let later = codec.render(&bytes[bpt / 8..], 0, 2, 1);
        assert_eq!(grid.len(), 3 * 64);
        assert_eq!(later.len(), 2 * 64);
        for p in &later {
            let q = grid.iter().find(|q| q.x == p.x + 8 && q.y == p.y).unwrap();
            assert_eq!(q.index, p.index);
        }
    }
}

#[test]
fn tiles_are_placed_row_by_row() {
    let bytes = vec![0xFFu8; 16 * 4];
    let out = nes_graphics().render(&bytes, 0, 2, 2);
    assert_eq!(out.len(), 256);
    assert_eq!((out[64].x, out[64].y), (8, 0));
    assert_eq!((out[128].x, out[128].y), (0, 8));
    assert_eq!((out[255].x, out[255].y), (15, 15));
}

#[test]
fn registry_entries() {
    let all = wasm_get_builtin_graphics_codecs();
    let names: Vec<&str> = all.iter().map(|e| e.i18n_name).collect();
    assert_eq!(names, vec!["nes", "gb", "lin-1bpp-msbfirst", "lin-1bpp-lsbfirst"]);
    let tiled: Vec<bool> = all.iter().map(|e| e.is_tiled).collect();
    assert_eq!(tiled, vec![true, true, false, false]);
    assert_eq!(all[0].codec, GraphicsCodec::Tiled(TileCodec::PlanarNonInterleaved(nes_graphics())));
    assert_eq!(all[3].codec, GraphicsCodec::Linear(lin_1bpp_lsb_first()));
}

#[test]
fn registry_rejects_unknown_index() {
    assert!(builtin_graphics_codec(3).is_some());
    assert!(builtin_graphics_codec(4).is_none());
    assert!(builtin_graphics_codec(usize::MAX).is_none());
}

#[test]
fn msb_plane_order_stays_in_palette() {
    let ones = vec![0xFFu8; 16];
    let a = PlanarNonInterleavedTileGraphics::new(BitOrderTag::MsbFirst, BitOrderTag::MsbFirst, 2, 8, 8, 0, 0, 0);
    let out = a.render(&ones, 0, 1, 1);
    assert_eq!(out.len(), 64);
    assert!(out.iter().all(|p| p.index == 3));
    assert_eq!(a.num_palette_colors(), 4);
    let b = PlanarInterleavedTileGraphics::new(BitOrderTag::MsbFirst, BitOrderTag::MsbFirst, 2, 8, 8, 0, 0);
    assert!(b.render(&ones, 0, 1, 1).iter().all(|p| p.index == 3));
    // plane 0 alone sets the highest of the two index bits
    let mut plane0 = vec![0u8; 16];
    for byte in plane0.iter_mut().take(8) {
        *byte = 0xFF;
    }
    assert!(a.render(&plane0, 0, 1, 1).iter().all(|p| p.index == 2));
}

#[test]
fn nibble_swapped_plane_order_on_eight_planes() {
    // one row of 8 pixels per plane: plane j is byte j
    let codec = PlanarNonInterleavedTileGraphics::new(
        BitOrderTag::MsbFirst,
        BitOrderTag::HiLoNibbleSwap,
        8,
        8,
        1,
        0,
        0,
        0,
    );
    let mut bytes = vec![0u8; 8];
    bytes[0] = 0x80;
    bytes[4] = 0x80;
    let out = codec.render(&bytes, 0, 1, 1);
    assert_eq!(out.len(), 8);
    // plane 0 sets bit 3, plane 4 sets bit 7
    assert_eq!(out[0].index, 0x88);
    assert!(out[1..].iter().all(|p| p.index == 0));
}

#[test]
fn nibble_swapped_plane_order_on_four_planes() {
    let codec = PlanarNonInterleavedTileGraphics::new(
        BitOrderTag::MsbFirst,
        BitOrderTag::HiLoNibbleSwap,
        4,
        8,
        1,
        0,
        0,
        0,
    );
    let bytes = [0x80u8, 0x00, 0x00, 0x80];
    let out = codec.render(&bytes, 0, 1, 1);
    assert_eq!(out.len(), 8);
    // plane 0 sets bit 3 and plane 3 sets bit 0, inside the 16 colours
    assert_eq!(out[0].index, 9);
    assert_eq!(codec.num_palette_colors(), 16);
    assert!(out.iter().all(|p| (p.index as usize) < 16));
}
