//! Decoding of arbitrary byte buffers as tile-based or linear pixel graphics.

pub mod bit_order;
pub mod bit_cursor;
pub mod layout;
pub mod tile_codec;
pub mod linear_codec;
pub mod registry;
pub mod viewer;
pub mod offset_text;
pub mod export;
