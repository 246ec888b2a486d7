//! Exporting decoded pixels as an indexed PNG image.

use vstd::prelude::*;

use crate::layout::PalettePixel;

verus! {

#[verifier::external_type_specification]
#[verifier::external_body]
pub struct ExEncodingError(png::EncodingError);

/// Number of palette entries an exported image carries.
pub const PALETTE_ENTRIES: usize = 256;

/// Why an image could not be exported.
#[derive(Clone, Copy, Debug, PartialEq, Eq, Structural)]
pub enum ExportError {
    /// The image's width or height does not fit in a `u32`, or its pixel count
    /// (or its width plus one) in a `usize`.
    TooLarge,
    /// The PNG encoder refused the image.
    Encoding,
}

/// The bytes of the PNG file that png's encoder writes for an 8-bit indexed
/// image of `width` × `height` pixels with the PLTE contents `palette` and the
/// row-major palette indices `pixels`.
pub uninterp spec fn indexed_png(width: u32, height: u32, palette: Seq<u8>, pixels: Seq<u8>) -> Seq<u8>;

/// Relies on png's `Encoder` (`new`, `set_depth`, `set_color`, `set_palette`,
/// `write_header`, `Writer::write_image_data`, `Writer::finish`), which together
/// encode one 8-bit indexed image into a byte vector; the bytes depend on the
/// arguments alone. `write_image_data` computes the row length `width + 1` and
/// the image size `width * height` in `usize` unchecked, so both must fit.
#[verifier::external_body]
fn encode_indexed_png(width: u32, height: u32, palette: &Vec<u8>, pixels: &Vec<u8>) -> (r: Result<Vec<u8>, png::EncodingError>)
    requires
        width as int + 1 <= usize::MAX,
        width as int * height as int <= usize::MAX,
        pixels@.len() == width as int * height as int,
        palette@.len() == 3 * PALETTE_ENTRIES,
    ensures
        r matches Ok(bytes) ==> bytes@ == indexed_png(width, height, palette@, pixels@),
{
    let mut out = Vec::new();
    let mut encoder = png::Encoder::new(&mut out, width, height);
    encoder.set_depth(png::BitDepth::Eight);
    encoder.set_color(png::ColorType::Indexed);
    encoder.set_palette(palette.clone());
    let mut writer = encoder.write_header()?;
    writer.write_image_data(pixels)?;
    writer.finish()?;
    Ok(out)
}

/// `canvas` after writing each pixel of `pixels`, in order, at index
/// `y * width + x`; pixels outside `width` × `height` are skipped.
pub open spec fn painted(canvas: Seq<u8>, width: int, height: int, pixels: Seq<PalettePixel>) -> Seq<u8>
    decreases pixels.len(),
{
    if pixels.len() == 0 {
        canvas
    } else {
        let prev = painted(canvas, width, height, pixels.drop_last());
        let p = pixels.last();
        if p.x < width && p.y < height {
            prev.update(p.y * width + p.x, p.index)
        } else {
            prev
        }
    }
}

/// The first `PALETTE_ENTRIES` colours of `palette` as red, green, blue bytes.
pub open spec fn palette_bytes_spec(palette: Seq<(u8, u8, u8)>) -> Seq<u8> {
    Seq::new(3 * PALETTE_ENTRIES as nat, |i: int| {
        let c = palette[i / 3];
        if i % 3 == 0 { c.0 } else if i % 3 == 1 { c.1 } else { c.2 }
    })
}

proof fn lemma_painted_len(canvas: Seq<u8>, width: int, height: int, pixels: Seq<PalettePixel>)
    requires
        canvas.len() == width * height,
        0 <= width,
    ensures
        painted(canvas, width, height, pixels).len() == canvas.len(),
    decreases pixels.len(),
{
    if pixels.len() > 0 {
        lemma_painted_len(canvas, width, height, pixels.drop_last());
        let p = pixels.last();
        if p.x < width && p.y < height {
            assert(p.y * width + p.x < width * height) by (nonlinear_arith)
                requires
                    p.x < width,
                    p.y < height,
                    0 <= p.x,
                    0 <= p.y,
            ;
            assert(0 <= p.y * width + p.x) by (nonlinear_arith)
                requires
                    0 <= p.x,
                    0 <= p.y,
                    0 <= width,
            ;
        }
    }
}

/// A `width` × `height` image of palette indices, all 0 but where `pixels`
/// write them.
pub fn indexed_image(width: usize, height: usize, pixels: &Vec<PalettePixel>) -> (r: Vec<u8>)
    requires
        width * height <= usize::MAX,
    ensures
        r@ == painted(Seq::new((width * height) as nat, |i: int| 0u8), width as int, height as int, pixels@),
{
    let n = width * height;
    let mut image: Vec<u8> = Vec::new();
    while image.len() < n
        invariant
            image.len() <= n,
            forall|i: int| 0 <= i < image.len() ==> image@[i] == 0u8,
        decreases n - image.len(),
    {
        image.push(0);
    }
    let ghost blank = Seq::new(n as nat, |i: int| 0u8);
    assert(image@ =~= blank);
    let mut k: usize = 0;
    while k < pixels.len()
        invariant
            k <= pixels@.len(),
            n == width * height,
            blank == Seq::new(n as nat, |i: int| 0u8),
            image@ == painted(blank, width as int, height as int, pixels@.subrange(0, k as int)),
        decreases pixels.len() - k,
    {
        let p = pixels[k];
        let ghost done = pixels@.subrange(0, k as int);
        let ghost next = pixels@.subrange(0, k + 1);
        assert(next.drop_last() =~= done);
        proof {
            lemma_painted_len(blank, width as int, height as int, done);
        }
        if p.x < width && p.y < height {
            assert(p.y * width + p.x < width * height) by (nonlinear_arith)
                requires
                    p.x < width,
                    p.y < height,
            ;
            image.set(p.y * width + p.x, p.index);
        }
        k = k + 1;
    }
    assert(pixels@.subrange(0, k as int) =~= pixels@);
    image
}

/// The first `PALETTE_ENTRIES` colours of `palette` as red, green, blue bytes.
pub fn palette_bytes(palette: &[(u8, u8, u8)]) -> (r: Vec<u8>)
    requires
        palette@.len() >= PALETTE_ENTRIES,
    ensures
        r@ == palette_bytes_spec(palette@),
{
    let mut r: Vec<u8> = Vec::new();
    let mut i: usize = 0;
    while i < PALETTE_ENTRIES
        invariant
            i <= PALETTE_ENTRIES <= palette@.len(),
            r@.len() == 3 * i,
            forall|j: int| 0 <= j < r@.len() ==> r@[j] == palette_bytes_spec(palette@)[j],
        decreases PALETTE_ENTRIES - i,
    {
        let (red, green, blue) = palette[i];
        r.push(red);
        r.push(green);
        r.push(blue);
        i = i + 1;
    }
    assert(r@ =~= palette_bytes_spec(palette@));
    r
}

/// Encodes `pixels`, painted on a `width` × `height` image of palette indices,
/// as an indexed PNG with the first `PALETTE_ENTRIES` colours of `palette`.
pub fn encode_indexed(width: usize, height: usize, pixels: &Vec<PalettePixel>, palette: &[(u8, u8, u8)]) -> (r: Result<Vec<u8>, ExportError>)
    requires
        palette@.len() >= PALETTE_ENTRIES,
    ensures
        r == Err::<Vec<u8>, ExportError>(ExportError::TooLarge) <==> (width > u32::MAX || height > u32::MAX || width
            >= usize::MAX || width * height > usize::MAX),
        r matches Ok(bytes) ==> bytes@ == indexed_png(
            width as u32,
            height as u32,
            palette_bytes_spec(palette@),
            painted(Seq::new((width * height) as nat, |i: int| 0u8), width as int, height as int, pixels@),
        ),
{
    if width > u32::MAX as usize || height > u32::MAX as usize || width == usize::MAX {
        return Err(ExportError::TooLarge);
    }
    if width.checked_mul(height).is_none() {
        return Err(ExportError::TooLarge);
    }
    let image = indexed_image(width, height, pixels);
    let pal = palette_bytes(palette);
    proof {
        lemma_painted_len(Seq::new((width * height) as nat, |i: int| 0u8), width as int, height as int, pixels@);
    }
    match encode_indexed_png(width as u32, height as u32, &pal, &image) {
        Ok(bytes) => Ok(bytes),
        Err(_) => Err(ExportError::Encoding),
    }
}

} // verus!
