use tile_corruptor::export::{encode_indexed, indexed_image, palette_bytes, ExportError};
use tile_corruptor::layout::PalettePixel;
use tile_corruptor::offset_text::{file_offset_text, parse_offset_text};
use tile_corruptor::registry::builtin_graphics_codec;
use tile_corruptor::tile_codec::{nes_graphics, TileCodec};
use tile_corruptor::viewer::{NoSuchFormat, TileCorruptorAppInst, TileCorruptorTiledOrLinear};

fn grey_palette() -> Vec<(u8, u8, u8)> {
    (0..=255u8).map(|i| (i, i, i)).collect()
}

#[test]
fn new_viewer_shows_nes_tiles() {
    let v = TileCorruptorAppInst::new(&[1, 2, 3]);
    assert_eq!(v.data, vec![1, 2, 3]);
    assert_eq!(v.data_bit_off, 0);
    assert_eq!(
        v.tiled_or_linear,
        TileCorruptorTiledOrLinear::Tiled {
            tiles_width: 32,
            tiles_height: 32,
            tile_codec: TileCodec::PlanarNonInterleaved(nes_graphics()),
        }
    );
    assert_eq!(v.pixel_dims(), (256, 256));
}

#[test]
fn change_codec_keeps_or_resets_size() {
    let mut v = TileCorruptorAppInst::new(&[0; 64]);
    v.width_plus();
    assert_eq!(v.change_codec(1), Ok(()));
    assert_eq!(v.pixel_dims(), (33 * 8, 32 * 8));
    assert_eq!(v.change_codec(2), Ok(()));
    assert_eq!(v.pixel_dims(), (256, 256));
    v.height_minus();
    assert_eq!(v.change_codec(3), Ok(()));
    assert_eq!(v.pixel_dims(), (256, 255));
    assert_eq!(v.change_codec(0), Ok(()));
    assert_eq!(v.pixel_dims(), (256, 256));
    assert!(builtin_graphics_codec(0).unwrap().is_tiled);
}

#[test]
fn change_codec_rejects_unknown_index() {
    let mut v = TileCorruptorAppInst::new(&[0; 8]);
    let before = v.tiled_or_linear;
    assert_eq!(v.change_codec(4), Err(NoSuchFormat));
    assert_eq!(v.tiled_or_linear, before);
}

#[test]
fn width_and_height_stop_at_one() {
    let mut v = TileCorruptorAppInst::new(&[0; 8]);
    for _ in 0..40 {
        v.width_minus();
        v.height_minus();
    }
    assert_eq!(v.pixel_dims(), (8, 8));
    v.height_plus();
    assert_eq!(v.pixel_dims(), (8, 16));
}

#[test]
fn tile_steps() {
    let mut v = TileCorruptorAppInst::new(&[0; 40]);
    assert!(v.tile_plus());
    assert_eq!(v.data_bit_off, 128);
    assert!(v.tile_plus());
    assert_eq!(v.data_bit_off, 256);
    // 384 would be past the 320 bits of data
    assert!(!v.tile_plus());
    assert_eq!(v.data_bit_off, 256);
    assert!(v.bit_minus());
    assert!(v.tile_minus());
    assert_eq!(v.data_bit_off, 127);
    assert!(v.tile_minus());
    assert_eq!(v.data_bit_off, 0);
    assert!(!v.px_plus());
    assert!(!v.px_minus());
}

#[test]
fn pixel_steps_in_linear_view() {
    let mut v = TileCorruptorAppInst::new(&[0; 2]);
    v.change_codec(2).unwrap();
    assert!(v.px_plus());
    assert!(v.px_plus());
    assert_eq!(v.data_bit_off, 2);
    assert!(v.px_minus());
    assert_eq!(v.data_bit_off, 1);
    assert!(!v.tile_plus());
    assert!(!v.tile_minus());
}

#[test]
fn row_steps() {
    let mut v = TileCorruptorAppInst::new(&vec![0; 16 * 32 * 10]);
    v.row_plus(false);
    assert_eq!(v.data_bit_off, 128 * 32);
    v.row_plus(true);
    assert_eq!(v.data_bit_off, 128 * 32 * 9);
    // another fast step would leave the data
    v.row_plus(true);
    assert_eq!(v.data_bit_off, 128 * 32 * 9);
    v.row_minus(false);
    assert_eq!(v.data_bit_off, 128 * 32 * 8);
    v.row_minus(true);
    assert_eq!(v.data_bit_off, 0);
    v.change_codec(2).unwrap();
    v.row_plus(false);
    assert_eq!(v.data_bit_off, 256);
    v.row_plus(true);
    assert_eq!(v.data_bit_off, 256 * 33);
    v.row_minus(true);
    assert_eq!(v.data_bit_off, 256);
}

#[test]
fn byte_and_bit_steps() {
    let mut v = TileCorruptorAppInst::new(&[0; 2]);
    assert!(!v.byte_minus());
    assert!(!v.bit_minus());
    assert!(v.byte_plus());
    assert_eq!(v.data_bit_off, 8);
    assert!(!v.byte_plus());
    assert!(v.bit_plus());
    assert_eq!(v.data_bit_off, 9);
    assert!(v.byte_minus());
    assert_eq!(v.data_bit_off, 1);
}

#[test]
fn go_to_offset_moves_inside_the_data() {
    let mut v = TileCorruptorAppInst::new(&[0; 32]);
    assert!(v.go_to_offset("0x10.b3"));
    assert_eq!(v.data_bit_off, 16 * 8 + 3);
    assert!(v.go_to_offset("1f"));
    assert_eq!(v.data_bit_off, 31 * 8);
    assert!(!v.go_to_offset("20"));
    assert!(!v.go_to_offset("zz"));
    assert!(!v.go_to_offset("1.b"));
    assert_eq!(v.data_bit_off, 31 * 8);
}

#[test]
fn offset_text_parsing() {
    assert_eq!(parse_offset_text("1A"), Some((26, 0)));
    assert_eq!(parse_offset_text("0x1a.b7"), Some((26, 7)));
    assert_eq!(parse_offset_text("10.b+5"), Some((16, 5)));
    assert_eq!(parse_offset_text("+ff"), Some((255, 0)));
    assert_eq!(parse_offset_text("10.b07"), Some((16, 7)));
    assert_eq!(parse_offset_text("10.b8"), None);
    assert_eq!(parse_offset_text(".b3"), None);
    assert_eq!(parse_offset_text("0x"), None);
    assert_eq!(parse_offset_text("+0x1"), None);
    assert_eq!(parse_offset_text("-1"), None);
    assert_eq!(parse_offset_text("1.b2.b3"), None);
    assert_eq!(parse_offset_text("ffffffffffffffffff"), None);
    assert_eq!(parse_offset_text(""), None);
}

#[test]
fn offset_text_formatting() {
    assert_eq!(file_offset_text(0), "0x00000000");
    assert_eq!(file_offset_text(16 * 8 + 3), "0x00000010.b3");
    assert_eq!(file_offset_text(0xABCDEF12 * 8 + 7), "0xABCDEF12.b7");
    assert_eq!(file_offset_text(0x1_2345_6789 * 8), "0x123456789");
}

#[test]
fn status_texts() {
    let mut v = TileCorruptorAppInst::new(&[0; 32]);
    assert_eq!(v.gfx_dims_text(), "32 x 32 tiles (256 x 256 px)");
    v.width_minus();
    assert_eq!(v.gfx_dims_text(), "31 x 32 tiles (248 x 256 px)");
    v.change_codec(3).unwrap();
    assert_eq!(v.gfx_dims_text(), "256 x 256 px");
    v.bit_plus();
    assert_eq!(v.file_offset_text(), "0x00000000.b1");
}

#[test]
fn render_from_sub_byte_offset() {
    let mut v = TileCorruptorAppInst::new(&[0b0100_0000, 0]);
    v.change_codec(2).unwrap();
    assert!(v.bit_plus());
    let out = v.render();
    // 256 pixels per row: the 15 remaining bits fill part of the first row only
    assert_eq!(out.len(), 15);
    assert_eq!(out[0].index, 1);
    assert_eq!(out[1].index, 0);
}

#[test]
fn viewer_tile_step_matches_later_decoding() {
    let data: Vec<u8> = (0..64u8).map(|i| i.wrapping_mul(91)).collect();
    let mut v = TileCorruptorAppInst::new(&data);
    for _ in 0..40 {
        v.width_minus();
        v.height_minus();
    }
    v.width_plus();
    let both = v.render();
    assert!(v.tile_plus());
    let second = v.render();
    assert_eq!(both.len(), 128);
    assert_eq!(second.len(), 128);
    for p in &second[0..64] {
        assert_eq!(p.index, both[64 + p.y * 8 + p.x].index);
    }
}

#[test]
fn indexed_image_paints_pixels() {
    let pixels = vec![
        PalettePixel { x: 1, y: 0, index: 5 },
        PalettePixel { x: 0, y: 1, index: 7 },
        PalettePixel { x: 9, y: 9, index: 3 },
    ];
    assert_eq!(indexed_image(2, 2, &pixels), vec![0, 5, 7, 0]);
}

#[test]
fn palette_flattening() {
    let bytes = palette_bytes(&grey_palette());
    assert_eq!(bytes.len(), 768);
    assert_eq!(&bytes[0..6], &[0, 0, 0, 1, 1, 1]);
    assert_eq!(bytes[767], 255);
}

#[test]
fn export_writes_png() {
    let pixels = vec![PalettePixel { x: 0, y: 0, index: 1 }];
    let png = encode_indexed(2, 2, &pixels, &grey_palette()).unwrap();
    assert_eq!(&png[0..8], &[0x89, b'P', b'N', b'G', 0x0D, 0x0A, 0x1A, 0x0A]);
    assert!(png.len() > 8 + 768);
    assert_eq!(encode_indexed(1usize << 33, 1, &pixels, &grey_palette()), Err(ExportError::TooLarge));
}

#[test]
fn export_reports_encoder_refusal() {
    let pixels: Vec<PalettePixel> = Vec::new();
    assert_eq!(encode_indexed(0, 4, &pixels, &grey_palette()), Err(ExportError::Encoding));
}

#[test]
fn viewer_export() {
    let v = TileCorruptorAppInst::new(&[0xFF; 16]);
    let png = v.export_png(&grey_palette()).unwrap();
    assert_eq!(&png[1..4], b"PNG");
}
