use vstd::prelude::*;
use crate::raster::{pixels_of, raw_of, Frame, Raster, Rgba};

verus! {

/// The width and height of the image that `image::load_from_memory` decodes
/// `bytes` to; `None` where it reports an error. The pixel values themselves
/// may differ between machines, so they get no name.
pub uninterp spec fn decoded_size_of(bytes: Seq<u8>) -> Option<(nat, nat)>;

/// The RGBA bytes that `image::imageops::resize` with nearest-neighbour
/// filtering makes of a `width` × `height` raster at `new_width` × `new_height`.
pub uninterp spec fn resized_of(
    raw: Seq<u8>,
    width: nat,
    height: nat,
    new_width: nat,
    new_height: nat,
) -> Seq<u8>;

/// The luminance of an RGBA pixel given by its bytes: the sRGB weighting of
/// red, green and blue in ten-thousandths, rounded down; alpha is ignored.
pub open spec fn luma_value(r: u8, g: u8, b: u8) -> u8 {
    ((2126 * r + 7152 * g + 722 * b) / 10000) as u8
}

/// The luminance of each pixel of interleaved RGBA bytes.
pub open spec fn luma_bytes(raw: Seq<u8>) -> Seq<u8> {
    Seq::new(raw.len() / 4, |i: int| luma_value(raw[4 * i], raw[4 * i + 1], raw[4 * i + 2]))
}

/// The luminance of a pixel.
pub open spec fn luma_of_pixel(p: Rgba) -> u8 {
    luma_value(p.r, p.g, p.b)
}

/// Every pixel is transparent.
pub open spec fn all_clear(pixels: Seq<Rgba>) -> bool {
    forall|i: int| 0 <= i < pixels.len() ==> #[trigger] pixels[i].is_transparent()
}

/// `cols` and `rows` pick, for each column and row of a `new_width` ×
/// `new_height` raster, a column and row of a `width` × `height` raster.
pub open spec fn nearest_maps(
    cols: Seq<int>,
    rows: Seq<int>,
    width: nat,
    height: nat,
    new_width: nat,
    new_height: nat,
) -> bool {
    &&& cols.len() == new_width
    &&& rows.len() == new_height
    &&& forall|x: int| 0 <= x < new_width ==> 0 <= #[trigger] cols[x] < width
    &&& forall|y: int| 0 <= y < new_height ==> 0 <= #[trigger] rows[y] < height
}

/// Pixel (`x`, `y`) of interleaved RGBA bytes `width` pixels wide.
pub open spec fn pixel_of(raw: Seq<u8>, width: nat, x: int, y: int) -> Rgba {
    pixels_of(raw)[y * width + x]
}

/// Every byte is zero.
pub open spec fn all_zero(raw: Seq<u8>) -> bool {
    forall|k: int| 0 <= k < raw.len() ==> raw[k] == 0
}

/// Relies on `image::load_from_memory` to decode a compressed frame, and on
/// `DynamicImage::to_rgba8` for its pixels, which hold four bytes for each of
/// `width` × `height` pixels.
#[verifier::external_body]
fn decode_raw(bytes: &[u8]) -> (r: Option<(u32, u32, Vec<u8>)>)
    ensures
        match r {
            Some((w, h, raw)) => decoded_size_of(bytes@) == Some((w as nat, h as nat))
                && raw@.len() == 4 * (w * h),
            None => decoded_size_of(bytes@) is None,
        },
{
    match image::load_from_memory(bytes) {
        Ok(img) => {
            let rgba = img.to_rgba8();
            Some((rgba.width(), rgba.height(), rgba.into_raw()))
        },
        Err(_) => None,
    }
}

/// Relies on `image::imageops::resize` with `FilterType::Nearest`: the result
/// has the new size and an unchanged size gives a copy. Each output column and
/// row is sampled from one input column and row with weight one, so output
/// pixel (x, y) is input pixel (cols[x], rows[y]) for some column and row
/// maps, and an all-zero input stays all zero.
#[verifier::external_body]
fn resize_raw(raw: Vec<u8>, width: u32, height: u32, new_width: u32, new_height: u32) -> (r: Vec<
    u8,
>)
    requires
        raw@.len() == 4 * (width * height),
        width > 0,
        height > 0,
        new_width > 0,
        new_height > 0,
        4 * (new_width * new_height) <= usize::MAX,
    ensures
        r@ == resized_of(raw@, width as nat, height as nat, new_width as nat, new_height as nat),
        r@.len() == 4 * (new_width * new_height),
        width == new_width && height == new_height ==> r@ == raw@,
        all_zero(raw@) ==> all_zero(r@),
        exists|cols: Seq<int>, rows: Seq<int>|
            #[trigger] nearest_maps(
                cols,
                rows,
                width as nat,
                height as nat,
                new_width as nat,
                new_height as nat,
            ) && forall|x: int, y: int|
                0 <= x < new_width && 0 <= y < new_height ==> #[trigger] pixel_of(
                    r@,
                    new_width as nat,
                    x,
                    y,
                ) == pixel_of(raw@, width as nat, cols[x], rows[y]),
{
    let img = image::RgbaImage::from_raw(width, height, raw).unwrap();
    image::imageops::resize(&img, new_width, new_height, image::imageops::FilterType::Nearest).into_raw()
}

/// Relies on `DynamicImage::to_luma8`, which gives one byte for each pixel:
/// `(2126 * r + 7152 * g + 722 * b) / 10000`, worked out in `u32`.
#[verifier::external_body]
fn luma_raw(raw: Vec<u8>, width: u32, height: u32) -> (r: Vec<u8>)
    requires
        raw@.len() == 4 * (width * height),
    ensures
        r@ == luma_bytes(raw@),
{
    let img = image::RgbaImage::from_raw(width, height, raw).unwrap();
    image::DynamicImage::ImageRgba8(img).to_luma8().into_raw()
}

/// `src` scaled to `width` × `height` by nearest-neighbour sampling.
pub open spec fn resized(src: Raster, width: nat, height: nat) -> Raster {
    Raster {
        width,
        height,
        pixels: pixels_of(resized_of(raw_of(src.pixels), src.width, src.height, width, height)),
    }
}

/// Why a frame could not be processed.
#[derive(Clone, Copy, Debug, PartialEq, Eq, Structural)]
pub enum FrameError {
    /// The compressed bytes do not decode to an image.
    Decode,
    /// The frame's size is not the capture resolution, or a region or a
    /// patch does not fit the raster it is meant for.
    SizeMismatch,
}

/// Decodes a compressed frame (JPEG, PNG, ...) into an RGBA frame.
pub fn decode_frame(bytes: &[u8]) -> (r: Result<Frame, FrameError>)
    ensures
        match r {
            Ok(f) => f.wf() && decoded_size_of(bytes@) == Some((f.width as nat, f.height as nat)),
            Err(e) => e == FrameError::Decode && decoded_size_of(bytes@) is None,
        },
{
    match decode_raw(bytes) {
        Some((w, h, raw)) => {
            Ok(Frame::from_raw(w, h, &raw))
        },
        None => Err(FrameError::Decode),
    }
}

/// Laying pixels out as bytes and reading them back gives the same pixels.
pub proof fn lemma_pixels_round_trip(pixels: Seq<Rgba>)
    ensures
        pixels_of(raw_of(pixels)) == pixels,
{
    assert forall|i: int| 0 <= i < pixels.len() implies #[trigger] pixels_of(raw_of(pixels))[i]
        == pixels[i] by {
        assert((4 * i) / 4 == i && (4 * i + 1) / 4 == i && (4 * i + 2) / 4 == i && (4 * i + 3)
            / 4 == i);
        assert((4 * i) % 4 == 0 && (4 * i + 1) % 4 == 1 && (4 * i + 2) % 4 == 2 && (4 * i + 3)
            % 4 == 3);
    }
    assert(pixels_of(raw_of(pixels)) =~= pixels);
}

/// Scales a frame to `width` × `height` by nearest-neighbour sampling.
pub fn resize_frame(src: &Frame, width: u32, height: u32) -> (r: Frame)
    requires
        src.wf(),
        src.width > 0,
        src.height > 0,
        width > 0,
        height > 0,
        4 * (width * height) <= usize::MAX,
    ensures
        r.wf(),
        r@ == resized(src@, width as nat, height as nat),
        all_clear(src.pixels@) ==> all_clear(r.pixels@),
        width == src.width && height == src.height ==> r@ == src@,
        exists|cols: Seq<int>, rows: Seq<int>|
            #[trigger] nearest_maps(
                cols,
                rows,
                src.width as nat,
                src.height as nat,
                width as nat,
                height as nat,
            ) && forall|x: int, y: int|
                0 <= x < width && 0 <= y < height ==> #[trigger] r@.at(x, y) == src@.at(
                    cols[x],
                    rows[y],
                ),
{
    let raw = src.to_raw();
    proof {
        if all_clear(src.pixels@) {
            assert forall|k: int| 0 <= k < raw@.len() implies raw@[k] == 0 by {
                assert(src.pixels@[k / 4].is_transparent());
            }
        }
    }
    let out = resize_raw(raw, src.width, src.height, width, height);
    let r = Frame::from_raw(width, height, &out);
    proof {
        lemma_pixels_round_trip(src.pixels@);
        let (cols, rows) = choose|cols: Seq<int>, rows: Seq<int>|
            #[trigger] nearest_maps(
                cols,
                rows,
                src.width as nat,
                src.height as nat,
                width as nat,
                height as nat,
            ) && forall|x: int, y: int|
                0 <= x < width && 0 <= y < height ==> #[trigger] pixel_of(
                    out@,
                    width as nat,
                    x,
                    y,
                ) == pixel_of(raw@, src.width as nat, cols[x], rows[y]);
        assert forall|x: int, y: int| 0 <= x < width && 0 <= y < height implies #[trigger] r@.at(
            x,
            y,
        ) == src@.at(cols[x], rows[y]) by {
            assert(pixel_of(out@, width as nat, x, y) == pixel_of(
                raw@,
                src.width as nat,
                cols[x],
                rows[y],
            ));
        }
        assert(nearest_maps(
            cols,
            rows,
            src.width as nat,
            src.height as nat,
            width as nat,
            height as nat,
        ));
        if all_clear(src.pixels@) {
            assert forall|i: int| 0 <= i < r.pixels@.len() implies #[trigger] r.pixels@[i].is_transparent() by {
                assert(out@[4 * i] == 0 && out@[4 * i + 1] == 0 && out@[4 * i + 2] == 0 && out@[4 * i + 3] == 0);
            }
        }
    }
    r
}

/// The luminance of each pixel of a frame, row by row, as the detector reads it.
pub fn luma(src: &Frame) -> (r: Vec<u8>)
    requires
        src.wf(),
    ensures
        r@ == src.pixels@.map_values(|p: Rgba| luma_of_pixel(p)),
{
    let raw = src.to_raw();
    let r = luma_raw(raw, src.width, src.height);
    proof {
        assert forall|i: int| 0 <= i < src.pixels@.len() implies r@[i] == luma_of_pixel(
            #[trigger] src.pixels@[i],
        ) by {
            assert((4 * i) / 4 == i && (4 * i + 1) / 4 == i && (4 * i + 2) / 4 == i);
            assert((4 * i) % 4 == 0 && (4 * i + 1) % 4 == 1 && (4 * i + 2) % 4 == 2);
        }
        assert(r@ =~= src.pixels@.map_values(|p: Rgba| luma_of_pixel(p)));
    }
    r
}

} // verus!
