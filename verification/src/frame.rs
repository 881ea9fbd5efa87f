//! The pixels that are shown on an output or on a card of the picker.

use vstd::prelude::*;
use vstd::utf8::*;

use crate::path::{extension, FilePath};
use crate::text::{lemma_encoded_text_is_shown_as_it_is, lossy_text, to_text_lossy};

verus! {

/// The number of bytes of one pixel: red, green, blue and opacity.
pub const PIXEL_BYTES: u32 = 4;

/// The longest side of an image that can be scaled to any length. The image
/// crate's sampler finds its place in the image in single precision; on a
/// longer side it can come out a whole pixel past the end, where no pixel
/// counts.
pub const LONGEST_SIDE: u32 = 4194304;

/// The longest side that an image of any size can be scaled to: up to here the
/// middle of every scaled pixel is counted without rounding, and its place in
/// the image stays within it.
pub const LONGEST_SCALED: u32 = 8388608;

/// The longest side of a frame that the drawing crate draws in one piece.
pub const LONGEST_PIECE: u32 = 8191;

/// The colour of an output without a wallpaper.
pub const PLAIN_RED: u8 = 13;

pub const PLAIN_GREEN: u8 = 6;

pub const PLAIN_BLUE: u8 = 15;

/// How the pixels of a scaled image are mixed from those of the image.
#[derive(Debug, Clone, Copy, PartialEq, Eq, Structural)]
pub enum Sampling {
    /// By the distance to the nearest ones.
    Triangle,
    /// By a windowed sine, three pixels wide.
    Lanczos3,
}

/// Whether a frame of the given size can be shared with the compositor, which
/// counts its bytes in an `i32`.
pub open spec fn frame_fits(width: u32, height: u32) -> bool {
    width >= 1 && height >= 1 && width * height * PIXEL_BYTES <= i32::MAX
}

/// The bytes in a frame.
pub open spec fn frame_bytes(width: u32, height: u32) -> int {
    width * height * PIXEL_BYTES
}

/// A scale factor as it counts: at least one.
pub open spec fn at_least_one(factor: i32) -> i32 {
    if factor < 1 {
        1
    } else {
        factor
    }
}

/// One side of a frame in pixels.
pub open spec fn pixel_side(side: u32, scale: i32) -> int {
    (if side < 1 {
        1
    } else {
        side as int
    }) * at_least_one(scale)
}

/// Whether the frame of a surface can be shared with the compositor.
pub open spec fn surface_fits(width: u32, height: u32, scale: i32) -> bool {
    &&& pixel_side(width, scale) <= u32::MAX
    &&& pixel_side(height, scale) <= u32::MAX
    &&& frame_fits(pixel_side(width, scale) as u32, pixel_side(height, scale) as u32)
}

/// Whether a row of so many pixels can be painted: its bytes are counted in an
/// `i32`.
pub open spec fn row_fits(pixels: int) -> bool {
    pixels * PIXEL_BYTES <= i32::MAX
}

/// Whether a surface can be asked for its frame: its sides can be counted, and
/// where a row of it can be painted at all, the whole frame can be shared.
pub open spec fn surface_countable(width: u32, height: u32, scale: i32) -> bool {
    &&& pixel_side(width, scale) <= u32::MAX
    &&& pixel_side(height, scale) <= u32::MAX
    &&& row_fits(pixel_side(width, scale)) ==> surface_fits(width, height, scale)
}

/// The frame to paint for a surface: its size in pixels, the bytes of a row
/// and of the whole, and the scale that it is painted at.
#[derive(Debug, Clone, Copy, PartialEq, Eq, Structural)]
pub struct FramePlan {
    pub width: u32,
    pub height: u32,
    pub stride: i32,
    pub size: i32,
    pub scale: i32,
}

/// The frame to paint for a surface of the given size and scale.
pub open spec fn plan_of(width: u32, height: u32, scale: i32) -> FramePlan {
    let wide = pixel_side(width, scale);
    let tall = pixel_side(height, scale);
    FramePlan {
        width: wide as u32,
        height: tall as u32,
        stride: (wide * 4) as i32,
        size: (wide * tall * 4) as i32,
        scale: at_least_one(scale),
    }
}

/// A bound on one side of an image that is scaled until it covers a frame:
/// `side` and `other` are the image's, `want` and `want_other` the frame's.
pub open spec fn scaled_bound(side: u32, other: u32, want: u32, want_other: u32) -> int {
    let stretched = (want_other * side + other - 1) / other as int;
    if stretched > want {
        stretched
    } else {
        want as int
    }
}

/// Whether an image covers a frame as it is: one side is the frame's, and the
/// other is no shorter. It is then only cropped.
pub open spec fn covers_unscaled(image: (u32, u32), width: u32, height: u32) -> bool {
    ||| image.0 == width && image.1 >= height
    ||| image.1 == height && image.0 >= width
}

/// Whether the sampler keeps its place while it scales a side.
pub open spec fn side_fits(side: u32, scaled: int) -> bool {
    side <= LONGEST_SIDE || scaled <= LONGEST_SCALED
}

/// Whether an image can be made to cover a frame: it does so as it is, or the
/// sampler keeps its place on both sides, the scaled sides can be counted, and
/// memory can be addressed for it.
pub open spec fn cover_fits(image: (u32, u32), width: u32, height: u32) -> bool {
    &&& 1 <= image.0
    &&& 1 <= image.1
    &&& covers_unscaled(image, width, height) || ({
        let wide = scaled_bound(image.0, image.1, width, height);
        let tall = scaled_bound(image.1, image.0, height, width);
        &&& side_fits(image.0, wide)
        &&& side_fits(image.1, tall)
        &&& wide <= u32::MAX
        &&& tall <= u32::MAX
        &&& image.0 * tall * 16 <= isize::MAX
        &&& wide * tall * 16 <= isize::MAX
    })
}

/// The extension, as text, that tells the format of an image file; empty where
/// the path has none.
pub open spec fn format_hint(path: Seq<u8>) -> Seq<char> {
    match extension(path) {
        Some(ext) => lossy_text(ext),
        None => Seq::empty(),
    }
}

/// The size that the image crate reads from an image file's bytes, the format
/// being that of its extension.
pub uninterp spec fn image_size(data: Seq<u8>, ext: Seq<char>) -> Option<(u32, u32)>;

/// The pixels of an image file's bytes once decoded, scaled until they cover a
/// frame and cropped to it; none where they do not decode.
pub uninterp spec fn cover_pixels(
    data: Seq<u8>,
    ext: Seq<char>,
    width: u32,
    height: u32,
    sampling: Sampling,
) -> Option<Seq<u8>>;

/// Whether a frame is drawn in one piece.
pub open spec fn fits_one_piece(width: u32, height: u32) -> bool {
    width <= LONGEST_PIECE && height <= LONGEST_PIECE
}

/// The pixels of a transparent frame after an image of the same size is drawn
/// onto it in more than one piece.
pub uninterp spec fn pieced_pixels(rgba: Seq<u8>, width: u32, height: u32) -> Seq<u8>;

/// The pixels of a transparent frame after an image of the same size is drawn
/// onto it: the image's own, where it is drawn in one piece.
pub open spec fn drawn_pixels(rgba: Seq<u8>, width: u32, height: u32) -> Seq<u8> {
    if fits_one_piece(width, height) {
        rgba
    } else {
        pieced_pixels(rgba, width, height)
    }
}

/// What is shown of an image file's bytes in a frame.
pub open spec fn shown_pixels(
    data: Seq<u8>,
    path: Seq<u8>,
    width: u32,
    height: u32,
) -> Option<Seq<u8>> {
    match cover_pixels(data, format_hint(path), width, height, Sampling::Triangle) {
        Some(rgba) => Some(drawn_pixels(rgba, width, height)),
        None => None,
    }
}

/// Whether an image file's bytes can be shown in a frame at all.
pub open spec fn can_show(data: Seq<u8>, path: Seq<u8>, width: u32, height: u32) -> bool {
    &&& frame_fits(width, height)
    &&& image_size(data, format_hint(path)) matches Some(size) ==> cover_fits(size, width, height)
}

/// A frame of one opaque colour.
pub open spec fn plain_pixels(width: u32, height: u32) -> Seq<u8> {
    Seq::new(
        frame_bytes(width, height) as nat,
        |i: int|
            if i % 4 == 0 {
                PLAIN_RED
            } else if i % 4 == 1 {
                PLAIN_GREEN
            } else if i % 4 == 2 {
                PLAIN_BLUE
            } else {
                255u8
            },
    )
}

/// A frame holds four bytes for each pixel, and can be shared where it has a
/// pixel and its bytes can be counted in an `i32`.
pub proof fn lemma_frame_holds_four_bytes_a_pixel(width: u32, height: u32)
    ensures
        frame_bytes(width, height) == 4 * (width * height),
        frame_fits(width, height) <==> width > 0 && height > 0 && 4 * (width * height)
            <= 2147483647,
{
    assert(width * height * 4 == 4 * (width * height)) by (nonlinear_arith);
}

/// A side is its length times the scale; a side of no length counts as one,
/// and so does a scale below one.
pub proof fn lemma_side_grows_with_the_scale(side: u32, scale: i32)
    ensures
        at_least_one(scale) >= 1,
        scale >= 1 ==> at_least_one(scale) == scale,
        scale <= 1 ==> at_least_one(scale) == 1,
        pixel_side(side, scale) >= 1,
        side >= 1 && scale >= 1 ==> pixel_side(side, scale) == side * scale,
        pixel_side(0, scale) == pixel_side(1, scale),
        scale < 1 ==> pixel_side(side, scale) == pixel_side(side, 1),
{
    let long: int = if side < 1 {
        1
    } else {
        side as int
    };
    let factor: int = at_least_one(scale) as int;
    assert(long * factor >= 1) by (nonlinear_arith)
        requires
            long >= 1,
            factor >= 1,
    ;
}

/// A surface can be shown where four bytes for each of its pixels can be
/// counted in an `i32`, and a row can be painted where that holds of the row.
pub proof fn lemma_surface_fits_by_its_pixels(width: u32, height: u32, scale: i32)
    ensures
        surface_fits(width, height, scale) <==> 4 * (pixel_side(width, scale) * pixel_side(
            height,
            scale,
        )) <= 2147483647,
        row_fits(pixel_side(width, scale)) <==> 4 * pixel_side(width, scale) <= 2147483647,
        surface_fits(width, height, scale) ==> row_fits(pixel_side(width, scale)),
        surface_countable(width, height, scale) <==> {
            &&& pixel_side(width, scale) <= 4294967295
            &&& pixel_side(height, scale) <= 4294967295
            &&& 4 * pixel_side(width, scale) > 2147483647 || 4 * (pixel_side(width, scale)
                * pixel_side(height, scale)) <= 2147483647
        },
{
    lemma_side_grows_with_the_scale(width, scale);
    lemma_side_grows_with_the_scale(height, scale);
    let wide = pixel_side(width, scale);
    let tall = pixel_side(height, scale);
    assert(wide <= wide * tall && tall <= wide * tall) by (nonlinear_arith)
        requires
            wide >= 1,
            tall >= 1,
    ;
    assert(wide * tall * 4 == 4 * (wide * tall)) by (nonlinear_arith);
}

/// A plan counts the pixels of both sides, four bytes a pixel in a row and in
/// the whole, and keeps the scale.
pub proof fn lemma_plan_counts_its_bytes(width: u32, height: u32, scale: i32)
    requires
        surface_fits(width, height, scale),
    ensures
        plan_of(width, height, scale).width == pixel_side(width, scale),
        plan_of(width, height, scale).height == pixel_side(height, scale),
        plan_of(width, height, scale).stride == 4 * plan_of(width, height, scale).width,
        plan_of(width, height, scale).size == plan_of(width, height, scale).stride * plan_of(
            width,
            height,
            scale,
        ).height,
        scale >= 1 ==> plan_of(width, height, scale).scale == scale,
        scale < 1 ==> plan_of(width, height, scale).scale == 1,
{
    lemma_surface_fits_by_its_pixels(width, height, scale);
    lemma_side_grows_with_the_scale(width, scale);
    lemma_side_grows_with_the_scale(height, scale);
    let wide = pixel_side(width, scale);
    let tall = pixel_side(height, scale);
    assert(wide * tall * 4 == (4 * wide) * tall) by (nonlinear_arith);
    assert(wide * tall * 4 == 4 * (wide * tall)) by (nonlinear_arith);
}

/// The bound on a scaled side is the shortest that is no shorter than the
/// frame's and keeps the image's proportions while the other side covers the
/// frame.
pub proof fn lemma_bound_is_the_shortest_that_covers(
    side: u32,
    other: u32,
    want: u32,
    want_other: u32,
    long: int,
)
    requires
        other >= 1,
    ensures
        long >= scaled_bound(side, other, want, want_other) <==> long >= want && long * other
            >= want_other * side,
{
    let product = want_other * side;
    let divisor = other as int;
    let stretched = (product + divisor - 1) / divisor;
    vstd::arithmetic::div_mod::lemma_fundamental_div_mod(product + divisor - 1, divisor);
    vstd::arithmetic::div_mod::lemma_mod_bound(product + divisor - 1, divisor);
    let rest = (product + divisor - 1) % divisor;
    assert(product + divisor - 1 == divisor * stretched + rest);
    if long >= stretched {
        assert(long * divisor >= product) by (nonlinear_arith)
            requires
                long >= stretched,
                divisor >= 1,
                product + divisor - 1 == divisor * stretched + rest,
                rest <= divisor - 1,
        ;
    } else {
        assert(long * divisor < product) by (nonlinear_arith)
            requires
                long <= stretched - 1,
                divisor >= 1,
                product + divisor - 1 == divisor * stretched + rest,
                rest >= 0,
        ;
    }
}

/// An image without pixels covers no frame. One that has a side of the frame's
/// length, and the other no shorter, always does. Any other does where no side
/// is both longer than the sampler can scale freely and scaled beyond what it
/// can count, the scaled sides can be counted, and memory can be addressed for
/// the image half scaled and scaled.
pub proof fn lemma_cover_limits(image: (u32, u32), width: u32, height: u32)
    ensures
        image.0 == 0 || image.1 == 0 ==> !cover_fits(image, width, height),
        image.0 >= 1 && image.1 >= 1 && (image.0 == width && image.1 >= height || image.1 == height
            && image.0 >= width) ==> cover_fits(image, width, height),
        image.0 >= 1 && image.1 >= 1 && !(image.0 == width && image.1 >= height || image.1
            == height && image.0 >= width) ==> ({
            let wide = scaled_bound(image.0, image.1, width, height);
            let tall = scaled_bound(image.1, image.0, height, width);
            cover_fits(image, width, height) <==> {
                &&& !(image.0 > 4194304 && wide > 8388608)
                &&& !(image.1 > 4194304 && tall > 8388608)
                &&& wide <= 4294967295
                &&& tall <= 4294967295
                &&& image.0 * tall * 16 <= isize::MAX
                &&& wide * tall * 16 <= isize::MAX
            }
        }),
{
}

/// The hint of a format is the path's extension as it is written, or as it
/// shows where it is not UTF-8.
pub proof fn lemma_hint_is_the_extension(path: Seq<u8>, ext: Seq<char>)
    ensures
        extension(path) is Some ==> format_hint(path) == lossy_text(extension(path)->0),
        extension(path) == Some(encode_utf8(ext)) ==> format_hint(path) == ext,
        extension(path) is None ==> format_hint(path).len() == 0,
{
    lemma_encoded_text_is_shown_as_it_is(ext);
}

/// What is shown of an image is the image itself, made to cover the frame,
/// where the frame is drawn in one piece; a file that does not decode shows
/// nothing. A file can be shown where the frame fits and its image, where its
/// size can be read, can be made to cover it.
pub proof fn lemma_shown_is_the_covering_image(
    data: Seq<u8>,
    path: Seq<u8>,
    width: u32,
    height: u32,
)
    ensures
        ({
            let covering = cover_pixels(
                data,
                format_hint(path),
                width,
                height,
                Sampling::Triangle,
            );
            &&& shown_pixels(data, path, width, height) is None <==> covering is None
            &&& width <= 8191 && height <= 8191 ==> shown_pixels(data, path, width, height)
                == covering
            &&& (width > 8191 || height > 8191) && covering is Some ==> shown_pixels(
                data,
                path,
                width,
                height,
            ) == Some(pieced_pixels(covering->0, width, height))
        }),
        can_show(data, path, width, height) <==> frame_fits(width, height) && (image_size(
            data,
            format_hint(path),
        ) is None || cover_fits(image_size(data, format_hint(path))->0, width, height)),
{
}

/// Every pixel of a plain frame is the same dark, opaque colour.
pub proof fn lemma_plain_frame_is_one_color(width: u32, height: u32)
    ensures
        plain_pixels(width, height).len() == 4 * (width * height),
        forall|pixel: int|
            0 <= pixel < width * height ==> {
                &&& #[trigger] plain_pixels(width, height)[4 * pixel] == 13
                &&& plain_pixels(width, height)[4 * pixel + 1] == 6
                &&& plain_pixels(width, height)[4 * pixel + 2] == 15
                &&& plain_pixels(width, height)[4 * pixel + 3] == 255
            },
{
    lemma_frame_holds_four_bytes_a_pixel(width, height);
    assert(width * height >= 0) by (nonlinear_arith);
}

/// Calls `image::ImageReader::into_dimensions` on a file's bytes, with the
/// format that `image::ImageFormat::from_extension` gives; no size comes out
/// where either fails.
#[verifier::external_body]
pub(crate) fn read_size(data: &[u8], ext: &str) -> (size: Option<(u32, u32)>)
    ensures
        size == image_size(data@, ext@),
{
    let format = image::ImageFormat::from_extension(ext)?;
    image::ImageReader::with_format(std::io::Cursor::new(data), format).into_dimensions().ok()
}

/// Calls `image::ImageReader::decode` on a file's bytes, with the format that
/// `image::ImageFormat::from_extension` gives, then `resize_to_fill` with the
/// asked filter and `to_rgba8`. An image that covers the frame as it is, is
/// only cropped. Scaling panics where no memory can be addressed for the
/// scaled image, or the sampler loses its place in the image; where that can
/// happen is claimed of the triangle filter alone. The result has exactly the
/// asked size.
#[verifier::external_body]
pub(crate) fn cover(data: &[u8], ext: &str, width: u32, height: u32, sampling: Sampling) -> (rgba:
    Option<Vec<u8>>)
    requires
        width >= 1,
        height >= 1,
        sampling == Sampling::Triangle,
        image_size(data@, ext@) matches Some(size) ==> cover_fits(size, width, height),
    ensures
        rgba is Some <==> cover_pixels(data@, ext@, width, height, sampling) is Some,
        rgba matches Some(pixels) ==> cover_pixels(data@, ext@, width, height, sampling) == Some(
            pixels@,
        ),
        rgba matches Some(pixels) ==> pixels@.len() == frame_bytes(width, height),
{
    let format = image::ImageFormat::from_extension(ext)?;
    let reader = image::ImageReader::with_format(std::io::Cursor::new(data), format);
    let image = reader.decode().ok()?;
    let filter = match sampling {
        Sampling::Triangle => image::imageops::FilterType::Triangle,
        Sampling::Lanczos3 => image::imageops::FilterType::Lanczos3,
    };
    Some(image.resize_to_fill(width, height, filter).to_rgba8().into_raw())
}

/// Calls `tiny_skia::Pixmap::new`, `PixmapMut::from_bytes` and `draw_pixmap`
/// at the origin, with the default paint and no transform. Both pixmaps exist
/// for every size that fits a frame. A frame of up to 8191 pixels a side is
/// drawn in one piece, and every pixel of it becomes the image's; what a
/// larger one becomes, which is drawn piece by piece, is named, not stated.
#[verifier::external_body]
pub(crate) fn draw(rgba: Vec<u8>, width: u32, height: u32) -> (pixels: Vec<u8>)
    requires
        frame_fits(width, height),
        rgba@.len() == frame_bytes(width, height),
    ensures
        fits_one_piece(width, height) ==> pixels@ == rgba@,
        !fits_one_piece(width, height) ==> pixels@ == pieced_pixels(rgba@, width, height),
        pixels@.len() == frame_bytes(width, height),
{
    let mut rgba = rgba;
    let source = tiny_skia::PixmapMut::from_bytes(&mut rgba, width, height).unwrap();
    let mut canvas = tiny_skia::Pixmap::new(width, height).unwrap();
    let paint = tiny_skia::PixmapPaint::default();
    canvas.draw_pixmap(0, 0, source.as_ref(), &paint, tiny_skia::Transform::identity(), None);
    canvas.take()
}

/// Calls `tiny_skia::Pixmap::new` and `Pixmap::fill` with an opaque colour:
/// every pixel is that colour.
#[verifier::external_body]
pub(crate) fn fill(width: u32, height: u32, red: u8, green: u8, blue: u8) -> (pixels: Vec<u8>)
    requires
        frame_fits(width, height),
    ensures
        pixels@.len() == frame_bytes(width, height),
        forall|i: int|
            0 <= i < pixels@.len() ==> #[trigger] pixels@[i] == if i % 4 == 0 {
                red
            } else if i % 4 == 1 {
                green
            } else if i % 4 == 2 {
                blue
            } else {
                255u8
            },
{
    let mut canvas = tiny_skia::Pixmap::new(width, height).unwrap();
    canvas.fill(tiny_skia::Color::from_rgba8(red, green, blue, 255));
    canvas.take()
}

/// Whether a frame of the given size can be shared with the compositor.
pub fn fits_frame(width: u32, height: u32) -> (fits: bool)
    ensures
        fits == frame_fits(width, height),
{
    assert(width * height <= 0x1_0000_0000_0000_0000) by (nonlinear_arith)
        requires
            width <= 0xffff_ffffu32,
            height <= 0xffff_ffffu32,
    ;
    let bytes: u128 = (width as u128) * (height as u128) * 4;
    assert(bytes == width * height * PIXEL_BYTES) by (nonlinear_arith)
        requires
            bytes == (width as u128) * (height as u128) * 4,
            PIXEL_BYTES == 4,
    ;
    width >= 1 && height >= 1 && bytes <= 2147483647
}

fn scaled(side: u32, scale: i32) -> (pixels: u64)
    ensures
        pixels == pixel_side(side, scale),
        pixels >= 1,
{
    let side: u64 = if side < 1 {
        1
    } else {
        side as u64
    };
    let scale: u64 = if scale < 1 {
        1
    } else {
        scale as u64
    };
    assert(1 <= side * scale <= 0xffff_ffff * 0x7fff_ffff) by (nonlinear_arith)
        requires
            1 <= side <= 0xffff_ffff,
            1 <= scale <= 0x7fff_ffff,
    ;
    side * scale
}

/// Whether the frame of a surface can be shared with the compositor.
pub fn fits_surface(width: u32, height: u32, scale: i32) -> (fits: bool)
    ensures
        fits == surface_fits(width, height, scale),
{
    let wide = scaled(width, scale);
    let tall = scaled(height, scale);
    wide <= 0xffff_ffff && tall <= 0xffff_ffff && fits_frame(wide as u32, tall as u32)
}

/// Whether a row of a surface can be painted.
pub fn fits_row(width: u32, scale: i32) -> (fits: bool)
    ensures
        fits == row_fits(pixel_side(width, scale)),
{
    scaled(width, scale) as u128 * 4 <= 2147483647
}

/// Whether a surface can be asked for its frame.
pub fn is_countable(width: u32, height: u32, scale: i32) -> (ok: bool)
    ensures
        ok == surface_countable(width, height, scale),
{
    scaled(width, scale) <= 0xffff_ffff && scaled(height, scale) <= 0xffff_ffff && (!fits_row(
        width,
        scale,
    ) || fits_surface(width, height, scale))
}

/// The frame to paint for a surface of the given size and scale.
pub fn plan_frame(width: u32, height: u32, scale: i32) -> (plan: FramePlan)
    requires
        surface_fits(width, height, scale),
    ensures
        plan == plan_of(width, height, scale),
        frame_fits(plan.width, plan.height),
        plan.width == pixel_side(width, scale),
        plan.height == pixel_side(height, scale),
        plan.stride == plan.width * 4,
        plan.size == plan.width * plan.height * 4,
{
    let wide = scaled(width, scale);
    let tall = scaled(height, scale);
    assert(wide * 4 <= wide * tall * 4) by (nonlinear_arith)
        requires
            tall >= 1,
    ;
    assert(wide * tall * 4 <= 0x7fff_ffff);
    assert(wide * tall <= 0x7fff_ffff) by (nonlinear_arith)
        requires
            wide * tall * 4 <= 0x7fff_ffff,
            wide >= 1,
            tall >= 1,
    ;
    FramePlan {
        width: wide as u32,
        height: tall as u32,
        stride: (wide * 4) as i32,
        size: (wide * tall * 4) as i32,
        scale: if scale < 1 {
            1
        } else {
            scale
        },
    }
}

fn bound_of(side: u32, other: u32, want: u32, want_other: u32) -> (bound: u128)
    requires
        other >= 1,
    ensures
        bound == scaled_bound(side, other, want, want_other),
{
    assert(want_other * side <= 0x1_0000_0000_0000_0000) by (nonlinear_arith)
        requires
            want_other <= 0xffff_ffffu32,
            side <= 0xffff_ffffu32,
    ;
    let product: u128 = (want_other as u128) * (side as u128);
    let stretched: u128 = (product + other as u128 - 1) / (other as u128);
    if stretched > want as u128 {
        stretched
    } else {
        want as u128
    }
}

/// Whether an image of the given size can be made to cover a frame.
pub fn fits_cover(image: (u32, u32), width: u32, height: u32) -> (fits: bool)
    ensures
        fits == cover_fits(image, width, height),
{
    if image.0 < 1 || image.1 < 1 {
        return false;
    }
    if (image.0 == width && image.1 >= height) || (image.1 == height && image.0 >= width) {
        return true;
    }
    let wide = bound_of(image.0, image.1, width, height);
    let tall = bound_of(image.1, image.0, height, width);
    if image.0 > LONGEST_SIDE && wide > LONGEST_SCALED as u128 {
        return false;
    }
    if image.1 > LONGEST_SIDE && tall > LONGEST_SCALED as u128 {
        return false;
    }
    if wide > u32::MAX as u128 || tall > u32::MAX as u128 {
        return false;
    }
    assert(image.0 * tall <= 0x1_0000_0000_0000_0000 && wide * tall <= 0x1_0000_0000_0000_0000)
        by (nonlinear_arith)
        requires
            image.0 <= 0xffff_ffff,
            wide <= 0xffff_ffff,
            tall <= 0xffff_ffff,
    ;
    let limit: u128 = isize::MAX as u128;
    (image.0 as u128) * tall * 16 <= limit && wide * tall * 16 <= limit
}

fn hint(path: &FilePath) -> (ext: String)
    ensures
        ext@ == format_hint(path@),
{
    match path.extension() {
        Some(ext) => to_text_lossy(ext.as_slice()),
        None => String::new(),
    }
}

/// The size of the image in the file at `path`, which holds `data`, where it
/// can be read.
pub fn image_dimensions(data: &Vec<u8>, path: &FilePath) -> (size: Option<(u32, u32)>)
    ensures
        size == image_size(data@, format_hint(path@)),
{
    read_size(data.as_slice(), hint(path).as_str())
}

/// What is shown in a frame of the image file at `path`, which holds `data`;
/// nothing where it does not decode.
pub fn paint_image(data: &Vec<u8>, path: &FilePath, width: u32, height: u32) -> (pixels: Option<
    Vec<u8>,
>)
    requires
        can_show(data@, path@, width, height),
    ensures
        pixels is Some <==> shown_pixels(data@, path@, width, height) is Some,
        pixels matches Some(made) ==> shown_pixels(data@, path@, width, height) == Some(made@),
        pixels matches Some(made) ==> made@.len() == frame_bytes(width, height),
{
    let ext = hint(path);
    match cover(data.as_slice(), ext.as_str(), width, height, Sampling::Triangle) {
        Some(rgba) => Some(draw(rgba, width, height)),
        None => None,
    }
}

/// What came of painting an image file.
#[derive(Debug)]
pub enum Painted {
    /// The pixels of the frame.
    Pixels(Vec<u8>),
    /// The file does not decode.
    Undecodable,
    /// The frame, or the image scaled to it, is too large.
    TooLarge,
}

/// What is shown in a frame of the image file at `path`, with the sizes tried
/// first.
pub fn try_paint_image(data: &Vec<u8>, path: &FilePath, width: u32, height: u32) -> (painted:
    Painted)
    ensures
        painted is TooLarge <==> !can_show(data@, path@, width, height),
        painted is Undecodable <==> can_show(data@, path@, width, height) && shown_pixels(
            data@,
            path@,
            width,
            height,
        ) is None,
        painted matches Painted::Pixels(made) ==> shown_pixels(data@, path@, width, height) == Some(
            made@,
        ) && made@.len() == frame_bytes(width, height),
{
    if !fits_frame(width, height) {
        return Painted::TooLarge;
    }
    if let Some(size) = image_dimensions(data, path) {
        if !fits_cover(size, width, height) {
            return Painted::TooLarge;
        }
    }
    match paint_image(data, path, width, height) {
        Some(pixels) => Painted::Pixels(pixels),
        None => Painted::Undecodable,
    }
}

/// The frame of an output without a wallpaper.
pub fn paint_plain(width: u32, height: u32) -> (pixels: Vec<u8>)
    requires
        frame_fits(width, height),
    ensures
        pixels@ == plain_pixels(width, height),
{
    let pixels = fill(width, height, PLAIN_RED, PLAIN_GREEN, PLAIN_BLUE);
    assert(pixels@ =~= plain_pixels(width, height));
    pixels
}

} // verus!
