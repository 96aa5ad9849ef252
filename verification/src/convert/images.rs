//! Image conversions: raster to raster, and rasterised SVG to raster.
//!
//! Decoding, resizing and encoding are done by the `image` crate. What is
//! decided here is which format a target extension names, how an image is
//! prepared for a format that cannot hold it as it is, and the flattening of
//! transparent pixels onto white.
use vstd::prelude::*;

use crate::error::ConvertError;
use crate::util::{
    ascii_lower,
    extension,
    is,
    lemma_extension_literals,
    path_extension,
    to_ascii_lower,
};
use image::{DynamicImage, ImageFormat, RgbImage, RgbaImage};

verus! {

broadcast use vstd::string::group_string_axioms;

/// The raster formats that images are written in.
#[derive(Clone, Copy, PartialEq, Eq, Structural, Debug)]
pub enum ImageKind {
    Png,
    Jpeg,
    WebP,
    Gif,
    Bmp,
    Tiff,
    Ico,
}

/// The format a target extension names.
pub open spec fn format_of(ext: Seq<char>) -> Option<ImageKind> {
    if ext == seq!['p', 'n', 'g'] {
        Some(ImageKind::Png)
    } else if ext == seq!['j', 'p', 'g'] || ext == seq!['j', 'p', 'e', 'g'] {
        Some(ImageKind::Jpeg)
    } else if ext == seq!['w', 'e', 'b', 'p'] {
        Some(ImageKind::WebP)
    } else if ext == seq!['g', 'i', 'f'] {
        Some(ImageKind::Gif)
    } else if ext == seq!['b', 'm', 'p'] {
        Some(ImageKind::Bmp)
    } else if ext == seq!['t', 'i', 'f', 'f'] || ext == seq!['t', 'i', 'f'] {
        Some(ImageKind::Tiff)
    } else if ext == seq!['i', 'c', 'o'] {
        Some(ImageKind::Ico)
    } else {
        None
    }
}

/// The image format for a target extension.
pub fn ext_to_format(ext: &str) -> (r: Result<ImageKind, ConvertError>)
    ensures
        match format_of(ext@) {
            Some(k) => r == Ok::<ImageKind, ConvertError>(k),
            None => r matches Err(ConvertError::UnsupportedImageTarget(e)) && e@ == ext@,
        },
{
    proof {
        lemma_extension_literals();
    }
    let e = String::from_str(ext);
    if is(&e, "png") {
        Ok(ImageKind::Png)
    } else if is(&e, "jpg") || is(&e, "jpeg") {
        Ok(ImageKind::Jpeg)
    } else if is(&e, "webp") {
        Ok(ImageKind::WebP)
    } else if is(&e, "gif") {
        Ok(ImageKind::Gif)
    } else if is(&e, "bmp") {
        Ok(ImageKind::Bmp)
    } else if is(&e, "tiff") || is(&e, "tif") {
        Ok(ImageKind::Tiff)
    } else if is(&e, "ico") {
        Ok(ImageKind::Ico)
    } else {
        Err(ConvertError::UnsupportedImageTarget(e))
    }
}

/// How an image is prepared before it is written in a format.
#[derive(Clone, Copy, PartialEq, Eq, Structural, Debug)]
pub enum Preparation {
    /// Flatten transparency onto white.
    FlattenOnWhite,
    /// Shrink, keeping the aspect ratio, to fit in 256x256.
    FitIcon,
    /// Write as it is.
    Keep,
}

/// JPEG has no alpha and BMP's alpha support is inconsistent, so both are
/// flattened onto white; ICO maxes out at 256x256, so larger images are
/// shrunk to fit.
pub open spec fn preparation(kind: ImageKind, width: u32, height: u32) -> Preparation {
    match kind {
        ImageKind::Jpeg | ImageKind::Bmp => Preparation::FlattenOnWhite,
        ImageKind::Ico => if width <= 256 && height <= 256 {
            Preparation::Keep
        } else {
            Preparation::FitIcon
        },
        _ => Preparation::Keep,
    }
}

/// Some formats don't support alpha, or want specific size constraints:
/// decide how the image is normalised so saving doesn't fail or produce a
/// surprising result.
pub fn prepare_for_format(kind: ImageKind, width: u32, height: u32) -> (r: Preparation)
    ensures
        r == preparation(kind, width, height),
{
    match kind {
        ImageKind::Jpeg | ImageKind::Bmp => Preparation::FlattenOnWhite,
        ImageKind::Ico => if width <= 256 && height <= 256 {
            Preparation::Keep
        } else {
            Preparation::FitIcon
        },
        _ => Preparation::Keep,
    }
}

/// A colour channel `c` of alpha `a` composited over white, rounded to the
/// nearest value: `c * a/255 + 255 * (1 - a/255)`.
pub open spec fn blend(c: u8, a: u8) -> u8 {
    ((c * a + 255 * (255 - a) + 127) / 255) as u8
}

/// Channel `k` of pixel `p` in an image with `n` channels per pixel.
pub open spec fn channel(data: Seq<u8>, n: int, p: int, k: int) -> u8 {
    data[n * p + k]
}

/// `rgb` holds the first `pixels` pixels of `rgba` flattened onto white.
pub open spec fn flattened(rgba: Seq<u8>, pixels: int, rgb: Seq<u8>) -> bool {
    &&& rgb.len() == 3 * pixels
    &&& forall|p: int, k: int|
        0 <= p < pixels && 0 <= k < 3 ==> #[trigger] channel(rgb, 3, p, k) == blend(
            channel(rgba, 4, p, k),
            channel(rgba, 4, p, 3),
        )
}

fn blend_channel(c: u8, a: u8) -> (r: u8)
    ensures
        r == blend(c, a),
{
    assert(c as u32 * a as u32 <= 255 * a as u32) by (nonlinear_arith)
        requires
            c <= 255,
    ;
    let v = (c as u32 * a as u32 + 255 * (255 - a as u32) + 127) / 255;
    v as u8
}

/// Flatten the first `pixels` RGBA pixels onto white, giving RGB pixels.
pub fn flatten_on_white(rgba: &Vec<u8>, pixels: usize) -> (r: Vec<u8>)
    requires
        4 * pixels <= rgba@.len(),
    ensures
        flattened(rgba@, pixels as int, r@),
{
    let mut out: Vec<u8> = Vec::new();
    let mut p: usize = 0;
    let n = rgba.len();
    while p < pixels
        invariant
            n == rgba@.len(),
            4 * pixels <= rgba@.len(),
            p <= pixels,
            flattened(rgba@, p as int, out@),
        decreases pixels - p,
    {
        let base = 4 * p;
        let a = rgba[base + 3];
        let ghost before = out@;
        out.push(blend_channel(rgba[base], a));
        out.push(blend_channel(rgba[base + 1], a));
        out.push(blend_channel(rgba[base + 2], a));
        assert forall|q: int, k: int| 0 <= q < p + 1 && 0 <= k < 3 implies #[trigger] channel(
            out@,
            3,
            q,
            k,
        ) == blend(channel(rgba@, 4, q, k), channel(rgba@, 4, q, 3)) by {
            if q < p {
                assert(channel(out@, 3, q, k) == channel(before, 3, q, k));
            }
        }
        p = p + 1;
    }
    out
}

/// An opaque pixel keeps its colour when flattened, and a fully transparent
/// one turns white.
pub proof fn law_flattening_keeps_opaque_and_whitens_transparent(c: u8)
    ensures
        blend(c, 255) == c,
        blend(c, 0) == 255,
{
    assert((c * 255 + 127) / 255 == c as int) by (nonlinear_arith);
}

/// Whether `bytes` open with the signature of a file in the format `kind`:
/// the PNG signature, the JPEG start-of-image marker, a RIFF container of
/// type `WEBP`, the `GIF89a` header, `BM`, a TIFF header in either byte
/// order, or an ICO directory header (reserved zero, type one).
pub open spec fn has_signature(kind: ImageKind, bytes: Seq<u8>) -> bool {
    match kind {
        ImageKind::Png => bytes.len() >= 8 && bytes.subrange(0, 8) == seq![
            137u8,
            80u8,
            78u8,
            71u8,
            13u8,
            10u8,
            26u8,
            10u8,
        ],
        ImageKind::Jpeg => bytes.len() >= 2 && bytes[0] == 0xFFu8 && bytes[1] == 0xD8u8,
        ImageKind::WebP => bytes.len() >= 12 && bytes.subrange(0, 4) == seq![
            82u8,
            73u8,
            70u8,
            70u8,
        ] && bytes.subrange(8, 12) == seq![87u8, 69u8, 66u8, 80u8],
        ImageKind::Gif => bytes.len() >= 6 && bytes.subrange(0, 6) == seq![
            71u8,
            73u8,
            70u8,
            56u8,
            57u8,
            97u8,
        ],
        ImageKind::Bmp => bytes.len() >= 2 && bytes[0] == 66u8 && bytes[1] == 77u8,
        ImageKind::Tiff => bytes.len() >= 4 && ({
            ||| bytes.subrange(0, 4) == seq![73u8, 73u8, 42u8, 0u8]
            ||| bytes.subrange(0, 4) == seq![77u8, 77u8, 0u8, 42u8]
        }),
        ImageKind::Ico => bytes.len() >= 4 && bytes.subrange(0, 4) == seq![0u8, 0u8, 1u8, 0u8],
    }
}

/// The RGB pixels of the first `pixels` RGBA pixels of `rgba`, flattened
/// onto white.
pub open spec fn flat_of(rgba: Seq<u8>, pixels: int) -> Seq<u8> {
    Seq::new(
        (3 * pixels) as nat,
        |i: int| blend(rgba[4 * (i / 3) + i % 3], rgba[4 * (i / 3) + 3]),
    )
}

pub(crate) proof fn lemma_flattened_is_flat_of(rgba: Seq<u8>, pixels: int, rgb: Seq<u8>)
    requires
        0 <= pixels,
        flattened(rgba, pixels, rgb),
    ensures
        rgb == flat_of(rgba, pixels),
{
    assert forall|i: int| 0 <= i < rgb.len() implies rgb[i] == flat_of(rgba, pixels)[i] by {
        let p = i / 3;
        let k = i % 3;
        assert(i == 3 * p + k);
        assert(channel(rgb, 3, p, k) == rgb[i]);
    }
    assert(rgb =~= flat_of(rgba, pixels));
}

/// Pixels as plain values: a width, a height, whether each pixel carries an
/// alpha channel (four bytes, RGBA) or not (three bytes, RGB), and the bytes
/// row by row.
pub ghost struct Pixels {
    pub width: u32,
    pub height: u32,
    pub alpha: bool,
    pub data: Seq<u8>,
}

/// The bytes per pixel.
pub open spec fn channels(alpha: bool) -> int {
    if alpha {
        4
    } else {
        3
    }
}

/// An image held as 8-bit RGB or RGBA pixels.
pub struct Raster {
    pub width: u32,
    pub height: u32,
    pub alpha: bool,
    pub data: Vec<u8>,
}

impl View for Raster {
    type V = Pixels;

    open spec fn view(&self) -> Pixels {
        Pixels { width: self.width, height: self.height, alpha: self.alpha, data: self.data@ }
    }
}

impl Pixels {
    /// The buffer holds exactly one pixel's worth of bytes per pixel.
    pub open spec fn wf(self) -> bool {
        self.data.len() == channels(self.alpha) * self.width * self.height
    }
}

/// What `image::load_from_memory` decodes `bytes` to, as `to_rgba8` hands
/// it out: width, height and RGBA buffer, or `None` when decoding fails.
pub uninterp spec fn decoded_rgba(bytes: Seq<u8>) -> Option<(u32, u32, Seq<u8>)>;

/// What `image::load_from_memory_with_format` decodes `bytes` to, read as
/// the format `kind`, as `to_rgba8` hands it out: width, height and RGBA
/// buffer, or `None` when decoding fails.
pub uninterp spec fn decoded_rgba_as(kind: ImageKind, bytes: Seq<u8>) -> Option<(u32, u32, Seq<u8>)>;

/// What `DynamicImage::write_to` writes for an 8-bit image of the given
/// size and pixels in the format `kind`, or `None` when it fails.
pub uninterp spec fn encoding(
    kind: ImageKind,
    width: u32,
    height: u32,
    alpha: bool,
    data: Seq<u8>,
) -> Option<Seq<u8>>;

/// The pixels that `DynamicImage::resize` gives, with the Lanczos3 filter,
/// for an RGBA image scaled to fit within the bounds.
pub uninterp spec fn resized_rgba(
    width: u32,
    height: u32,
    data: Seq<u8>,
    bound_w: u32,
    bound_h: u32,
) -> (u32, u32, Seq<u8>);

/// Decodes with `image::load_from_memory` and converts with
/// `DynamicImage::to_rgba8`: the result is the name `decoded_rgba` of the
/// bytes. An RGBA buffer holds at least four bytes per pixel. The error is
/// the `Display` text of the `image` error; nothing is stated of it.
#[verifier::external_body]
fn decode_rgba(bytes: &[u8]) -> (r: Result<(u32, u32, Vec<u8>), String>)
    ensures
        r is Ok == decoded_rgba(bytes@) is Some,
        r matches Ok((w, h, d)) ==> decoded_rgba(bytes@) == Some((w, h, d@)) && 4 * (w as int) * (
        h as int) <= d@.len(),
{
    match image::load_from_memory(bytes) {
        Ok(img) => {
            let buf = img.to_rgba8();
            Ok((buf.width(), buf.height(), buf.into_raw()))
        },
        Err(e) => Err(e.to_string()),
    }
}

/// Decodes with `image::load_from_memory_with_format`, reading the bytes as
/// the format `kind`, and converts with `DynamicImage::to_rgba8`: the result
/// is the name `decoded_rgba_as` of the arguments. An RGBA buffer holds at
/// least four bytes per pixel. The error is the `Display` text of the
/// `image` error; nothing is stated of it.
#[verifier::external_body]
fn decode_rgba_as(kind: ImageKind, bytes: &[u8]) -> (r: Result<(u32, u32, Vec<u8>), String>)
    ensures
        r is Ok == decoded_rgba_as(kind, bytes@) is Some,
        r matches Ok((w, h, d)) ==> decoded_rgba_as(kind, bytes@) == Some((w, h, d@)) && 4 * (
        w as int) * (h as int) <= d@.len(),
{
    let format = match kind {
        ImageKind::Png => ImageFormat::Png, ImageKind::Jpeg => ImageFormat::Jpeg,
        ImageKind::WebP => ImageFormat::WebP, ImageKind::Gif => ImageFormat::Gif,
        ImageKind::Bmp => ImageFormat::Bmp, ImageKind::Tiff => ImageFormat::Tiff,
        ImageKind::Ico => ImageFormat::Ico,
    };
    match image::load_from_memory_with_format(bytes, format) {
        Ok(img) => {
            let buf = img.to_rgba8();
            Ok((buf.width(), buf.height(), buf.into_raw()))
        },
        Err(e) => Err(e.to_string()),
    }
}

/// Builds an `RgbImage` or `RgbaImage` from the exact-length buffer and calls
/// `DynamicImage::write_to` on an in-memory buffer, in the format `kind`
/// names: the result is the name `encoding` of the arguments. When it
/// succeeds, the buffer starts with that format's signature: each of the
/// crate's encoders writes its header first, into a buffer that starts
/// empty, and never rewrites those bytes (the TIFF encoder writes the byte
/// order of the machine, hence either header). The error text is not stated.
#[verifier::external_body]
fn encode_pixels(kind: ImageKind, width: u32, height: u32, alpha: bool, data: Vec<u8>) -> (r:
    Result<Vec<u8>, String>)
    requires
        data@.len() == channels(alpha) * width * height,
    ensures
        r is Ok == encoding(kind, width, height, alpha, data@) is Some,
        r matches Ok(b) ==> encoding(kind, width, height, alpha, data@) == Some(b@) && has_signature(
            kind,
            b@,
        ),
{
    let format = match kind {
        ImageKind::Png => ImageFormat::Png, ImageKind::Jpeg => ImageFormat::Jpeg,
        ImageKind::WebP => ImageFormat::WebP, ImageKind::Gif => ImageFormat::Gif,
        ImageKind::Bmp => ImageFormat::Bmp, ImageKind::Tiff => ImageFormat::Tiff,
        ImageKind::Ico => ImageFormat::Ico,
    };
    let img = if alpha { DynamicImage::ImageRgba8(RgbaImage::from_raw(width, height, data).unwrap()) }
        else { DynamicImage::ImageRgb8(RgbImage::from_raw(width, height, data).unwrap()) };
    let mut out: Vec<u8> = Vec::new();
    match img.write_to(&mut std::io::Cursor::new(&mut out), format) {
        Ok(()) => Ok(out),
        Err(e) => Err(e.to_string()),
    }
}

/// Calls `DynamicImage::resize` with the Lanczos3 filter on an RGBA image
/// and hands out the result as RGBA: the name `resized_rgba` of the
/// arguments. The new size is what `resize_dimensions` computes, keeping the
/// aspect ratio: the side that limits the scale takes its bound exactly (the
/// `f64` ratio times that side rounds back to the bound), and the other side
/// is its exact scaled length rounded to the nearest integer, at least one
/// and at most its bound. A side of zero scales to zero and is raised to
/// one; an image with both sides zero is left unstated. The buffer of the
/// resized image is allocated for exactly that size.
#[verifier::external_body]
fn resize_rgba(width: u32, height: u32, data: Vec<u8>, bound_w: u32, bound_h: u32) -> (r: (
    u32,
    u32,
    Vec<u8>,
))
    requires
        data@.len() == 4 * width * height,
    ensures
        (r.0, r.1, r.2@) == resized_rgba(width, height, data@, bound_w, bound_h),
        r.2@.len() == 4 * (r.0 as int) * (r.1 as int),
        (width > 0 || height > 0) && bound_w > 0 && bound_h > 0 ==> fits_within(
            width as int,
            height as int,
            bound_w as int,
            bound_h as int,
            r.0 as int,
            r.1 as int,
        ),
{
    let img = DynamicImage::ImageRgba8(RgbaImage::from_raw(width, height, data).unwrap());
    let out = img.resize(bound_w, bound_h, image::imageops::FilterType::Lanczos3).into_rgba8();
    (out.width(), out.height(), out.into_raw())
}

/// `nw` by `nh` is `w` by `h` scaled to fit within `bw` by `bh` with its
/// aspect ratio kept: the limiting side takes its bound, and the other side
/// is its scaled length rounded to the nearest integer, at least one and at
/// most its bound.
pub open spec fn fits_within(w: int, h: int, bw: int, bh: int, nw: int, nh: int) -> bool {
    if w * bh >= h * bw {
        &&& nw == bw
        &&& 1 <= nh <= bh
        &&& (nh - 1) * w <= h * bw <= (nh + 1) * w
    } else {
        &&& nh == bh
        &&& 1 <= nw <= bw
        &&& (nw - 1) * h <= w * bh <= (nw + 1) * h
    }
}

/// The largest side of an icon.
pub const ICON_MAX: u32 = 256;

/// The pixels, given as RGBA, prepared for the format `kind`.
pub open spec fn prepared(kind: ImageKind, width: u32, height: u32, rgba: Seq<u8>) -> Pixels {
    match preparation(kind, width, height) {
        Preparation::FlattenOnWhite => Pixels {
            width,
            height,
            alpha: false,
            data: flat_of(rgba, width * height),
        },
        Preparation::FitIcon => {
            let (w, h, d) = resized_rgba(width, height, rgba, ICON_MAX, ICON_MAX);
            Pixels { width: w, height: h, alpha: true, data: d }
        },
        Preparation::Keep => Pixels { width, height, alpha: true, data: rgba },
    }
}

/// Prepare RGBA pixels for the format `kind`: flatten them onto white for
/// JPEG and BMP, shrink them to fit in 256x256 for an ICO that is larger,
/// and keep them as they are otherwise.
pub fn prepare_pixels(kind: ImageKind, width: u32, height: u32, rgba: Vec<u8>) -> (r: Raster)
    requires
        rgba@.len() == 4 * width * height,
    ensures
        r@ == prepared(kind, width, height, rgba@),
        r@.wf(),
        kind is Ico ==> r.width <= ICON_MAX && r.height <= ICON_MAX && (
        preparation(kind, width, height) is Keep || fits_within(
            width as int,
            height as int,
            ICON_MAX as int,
            ICON_MAX as int,
            r.width as int,
            r.height as int,
        )),
{
    match prepare_for_format(kind, width, height) {
        Preparation::FlattenOnWhite => {
            assert(4 * (width as int) * (height as int) == 4 * ((width as int) * (height as int)))
                by (nonlinear_arith);
            let total = rgba.len();
            assert((width as int) * (height as int) <= total) by (nonlinear_arith)
                requires
                    4 * ((width as int) * (height as int)) <= total,
            ;
            let pixels = width as usize * height as usize;
            let rgb = flatten_on_white(&rgba, pixels);
            proof {
                lemma_flattened_is_flat_of(rgba@, pixels as int, rgb@);
                assert(3 * (width as int) * (height as int) == 3 * ((width as int) * (
                height as int))) by (nonlinear_arith);
            }
            Raster { width, height, alpha: false, data: rgb }
        },
        Preparation::FitIcon => {
            let (w, h, d) = resize_rgba(width, height, rgba, ICON_MAX, ICON_MAX);
            Raster { width: w, height: h, alpha: true, data: d }
        },
        Preparation::Keep => Raster { width, height, alpha: true, data: rgba },
    }
}

/// What writing RGBA pixels in the format `kind` gives: the prepared pixels,
/// encoded.
pub open spec fn saved(kind: ImageKind, width: u32, height: u32, rgba: Seq<u8>) -> Option<
    Seq<u8>,
> {
    let p = prepared(kind, width, height, rgba);
    encoding(kind, p.width, p.height, p.alpha, p.data)
}

/// `r` is what saving RGBA pixels under the target extension `target`, for
/// the output file at `output`, answers: an unsupported target is refused by
/// name; otherwise the prepared pixels are encoded, and the bytes are that
/// encoding, which opens with the format's signature, or the encoder's
/// failure is reported for the output file.
pub open spec fn written_as(
    target: Seq<char>,
    output: Seq<char>,
    width: u32,
    height: u32,
    rgba: Seq<u8>,
    r: Result<Vec<u8>, ConvertError>,
) -> bool {
    match format_of(target) {
        None => r matches Err(ConvertError::UnsupportedImageTarget(e)) && e@ == target,
        Some(k) => match saved(k, width, height, rgba) {
            Some(b) => r matches Ok(v) && v@ == b && has_signature(k, b),
            None => r matches Err(ConvertError::ImageEncode { path, .. }) && path@ == output,
        },
    }
}

/// Whatever bytes an image conversion hands back are in the requested
/// format: they open with the signature of the format the target extension
/// names.
pub proof fn law_output_is_in_requested_format(
    target: Seq<char>,
    output: Seq<char>,
    width: u32,
    height: u32,
    rgba: Seq<u8>,
    r: Result<Vec<u8>, ConvertError>,
)
    requires
        written_as(target, output, width, height, rgba, r),
        r is Ok,
    ensures
        format_of(target) is Some,
        has_signature(format_of(target)->Some_0, r->Ok_0@),
{
}

/// Encode RGBA pixels, for the output file at `output_path`, in the format
/// the target extension names, prepared for that format first.
pub fn save_rgba(width: u32, height: u32, rgba: Vec<u8>, output_path: &str, target_ext: &str) -> (r:
    Result<Vec<u8>, ConvertError>)
    requires
        rgba@.len() == 4 * width * height,
    ensures
        written_as(target_ext@, output_path@, width, height, rgba@, r),
{
    let kind = match ext_to_format(target_ext) {
        Ok(k) => k,
        Err(e) => return Err(e),
    };
    let p = prepare_pixels(kind, width, height, rgba);
    match encode_pixels(kind, p.width, p.height, p.alpha, p.data) {
        Ok(bytes) => Ok(bytes),
        Err(detail) => Err(ConvertError::ImageEncode { path: String::from_str(output_path), detail }),
    }
}

/// A decoded width, height and RGBA buffer as pixels: the buffer cut to one
/// pixel's worth of bytes per pixel.
pub open spec fn rgba_pixels(d: Option<(u32, u32, Seq<u8>)>) -> Option<Pixels> {
    match d {
        Some((w, h, data)) => Some(
            Pixels { width: w, height: h, alpha: true, data: data.take(4 * (w as int) * (h as int)) },
        ),
        None => None,
    }
}

/// What decoding `bytes` gives, the format guessed from their content.
pub open spec fn decoded(bytes: Seq<u8>) -> Option<Pixels> {
    rgba_pixels(decoded_rgba(bytes))
}

/// The format that a file extension, already in lowercase ASCII, names for
/// reading: the target formats, and `jfif` and `apng`, which are read as
/// JPEG and PNG.
pub open spec fn read_format_of(ext: Seq<char>) -> Option<ImageKind> {
    if ext == seq!['j', 'f', 'i', 'f'] {
        Some(ImageKind::Jpeg)
    } else if ext == seq!['a', 'p', 'n', 'g'] {
        Some(ImageKind::Png)
    } else {
        format_of(ext)
    }
}

/// The format an image file is read as: the one its path's extension names,
/// in any letter case.
pub open spec fn source_format(path: Seq<char>) -> Option<ImageKind> {
    match path_extension(path) {
        Some(e) => read_format_of(ascii_lower(e)),
        None => None,
    }
}

/// What decoding the image file at `path`, holding `bytes`, gives: the bytes
/// read as the format the path's extension names.
pub open spec fn file_decoded(bytes: Seq<u8>, path: Seq<char>) -> Option<Pixels> {
    match source_format(path) {
        Some(k) => rgba_pixels(decoded_rgba_as(k, bytes)),
        None => None,
    }
}

fn exact_raster(w: u32, h: u32, d: Vec<u8>) -> (r: Raster)
    requires
        4 * (w as int) * (h as int) <= d@.len(),
    ensures
        Some(r@) == rgba_pixels(Some((w, h, d@))),
        r@.wf(),
{
    let mut data = d;
    let len = data.len();
    assert((4 * (w as int)) * (h as int) == 4 * (w as int) * (h as int)) by (nonlinear_arith);
    assert((4 * (w as u64)) * (h as u64) <= len);
    let n = 4 * (w as u64) * (h as u64);
    data.truncate(n as usize);
    Raster { width: w, height: h, alpha: true, data }
}

/// Decode image bytes into RGBA pixels, the format guessed from their
/// content.
pub fn decode_raster(bytes: &[u8]) -> (r: Result<Raster, String>)
    ensures
        r is Ok == decoded(bytes@) is Some,
        r matches Ok(ra) ==> decoded(bytes@) == Some(ra@) && ra@.wf(),
{
    match decode_rgba(bytes) {
        Ok((w, h, d)) => Ok(exact_raster(w, h, d)),
        Err(e) => Err(e),
    }
}

/// Decode the image file at `path`, holding `bytes`, into RGBA pixels: the
/// bytes are read as the format the path's extension names, in any letter
/// case. A file that does not decode, or whose extension names no format,
/// is refused for that path.
pub fn decode_image_file(bytes: &[u8], path: &str) -> (r: Result<Raster, ConvertError>)
    ensures
        match file_decoded(bytes@, path@) {
            Some(p) => r matches Ok(ra) && ra@ == p && p.wf(),
            None => r matches Err(ConvertError::ImageDecode { path: q, .. }) && q@ == path@,
        },
{
    let kind = match extension(path) {
        Some(e) => {
            let lower = to_ascii_lower(e.as_str());
            let l = String::from_str(lower.as_str());
            proof {
                lemma_extension_literals();
            }
            if is(&l, "jfif") {
                Some(ImageKind::Jpeg)
            } else if is(&l, "apng") {
                Some(ImageKind::Png)
            } else {
                match ext_to_format(lower.as_str()) {
                    Ok(k) => Some(k),
                    Err(_) => None,
                }
            }
        },
        None => None,
    };
    match kind {
        Some(k) => match decode_rgba_as(k, bytes) {
            Ok((w, h, d)) => Ok(exact_raster(w, h, d)),
            Err(detail) => Err(ConvertError::ImageDecode { path: String::from_str(path), detail }),
        },
        None => Err(
            ConvertError::ImageDecode {
                path: String::from_str(path),
                detail: String::from_str("the file extension names no supported image format"),
            },
        ),
    }
}

/// `r` is what converting the image file at `input_path`, holding `input`,
/// to the target extension `target` for the output file at `output_path`
/// answers: a file that does not decode is refused for its path; otherwise
/// its pixels are written as the target format.
pub open spec fn raster_converted(
    input: Seq<u8>,
    input_path: Seq<char>,
    output_path: Seq<char>,
    target: Seq<char>,
    r: Result<Vec<u8>, ConvertError>,
) -> bool {
    match file_decoded(input, input_path) {
        None => r matches Err(ConvertError::ImageDecode { path, .. }) && path@ == input_path,
        Some(p) => written_as(target, output_path, p.width, p.height, p.data, r),
    }
}

/// Convert any supported raster format to any other supported raster format.
pub fn raster_to_raster(input: &[u8], input_path: &str, output_path: &str, target_ext: &str) -> (r:
    Result<Vec<u8>, ConvertError>)
    ensures
        raster_converted(input@, input_path@, output_path@, target_ext@, r),
{
    let img = match decode_image_file(input, input_path) {
        Ok(i) => i,
        Err(e) => return Err(e),
    };
    save_rgba(img.width, img.height, img.data, output_path, target_ext)
}

/// Save a rasterised SVG, given as `width * height` RGBA pixels, as one of
/// the supported raster formats, for the output file at `output_path`.
pub fn svg_to_raster(width: u32, height: u32, rgba: Vec<u8>, output_path: &str, target_ext: &str) -> (r:
    Result<Vec<u8>, ConvertError>)
    requires
        rgba@.len() == 4 * (width as int) * (height as int),
    ensures
        written_as(target_ext@, output_path@, width, height, rgba@, r),
{
    save_rgba(width, height, rgba, output_path, target_ext)
}

} // verus!
