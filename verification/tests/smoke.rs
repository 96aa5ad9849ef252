//! End-to-end checks of the converters on inputs generated here (no fixture
//! files): the same entry points the front end's commands use, with the
//! outputs checked for a plausible shape.

use formatlab::commands::pick_output_path;
use formatlab::convert::dng::dng_to_raster;
use formatlab::convert::heic::heic_to_raster;
use formatlab::convert::images::{raster_to_raster, svg_to_raster};
use formatlab::convert::text::{html_to_markdown, markdown_to_txt};
use formatlab::conversion::{run, Input};
use formatlab::error::ConvertError;
use formatlab::registry::{convert, Converter};

/// A small coloured PNG (32x32).
fn test_png() -> Vec<u8> {
    let mut img = image::RgbaImage::new(32, 32);
    for (x, y, px) in img.enumerate_pixels_mut() {
        let r = ((x * 8) & 0xFF) as u8;
        let g = ((y * 8) & 0xFF) as u8;
        *px = image::Rgba([r, g, 128, 255]);
    }
    let mut out = Vec::new();
    image::DynamicImage::ImageRgba8(img)
        .write_to(&mut std::io::Cursor::new(&mut out), image::ImageFormat::Png)
        .expect("encode test png");
    out
}

fn put_ifd(buf: &mut Vec<u8>, entries: &[(u16, u32)], next: u32) {
    buf.extend_from_slice(&(entries.len() as u16).to_le_bytes());
    for &(tag, val) in entries {
        buf.extend_from_slice(&tag.to_le_bytes());
        buf.extend_from_slice(&4u16.to_le_bytes()); // type LONG
        buf.extend_from_slice(&1u32.to_le_bytes()); // count
        buf.extend_from_slice(&val.to_le_bytes());
    }
    buf.extend_from_slice(&next.to_le_bytes());
}

/// A minimal but realistic DNG: a TIFF whose IFD0 holds fake raw CFA data
/// (PhotometricInterpretation = CFA) and whose SubIFD holds a real 16x12
/// JPEG preview. Returns the file and the exact preview bytes.
fn test_dng() -> (Vec<u8>, Vec<u8>) {
    let mut prev = image::RgbImage::new(16, 12);
    for (x, y, px) in prev.enumerate_pixels_mut() {
        *px = image::Rgb([((x * 16) & 0xFF) as u8, ((y * 16) & 0xFF) as u8, 200]);
    }
    let mut jpeg = Vec::new();
    image::DynamicImage::ImageRgb8(prev)
        .write_to(&mut std::io::Cursor::new(&mut jpeg), image::ImageFormat::Jpeg)
        .expect("encode preview jpeg");
    let raw = vec![0xABu8; 64]; // fake CFA strip, deliberately not a JPEG

    let ifd0_off = 8usize;
    let ifd0_size = 2 + 7 * 12 + 4;
    let subifd_off = ifd0_off + ifd0_size;
    let subifd_size = 2 + 6 * 12 + 4;
    let jpeg_off = subifd_off + subifd_size;
    let raw_off = jpeg_off + jpeg.len();

    let mut buf = Vec::new();
    buf.extend_from_slice(b"II");
    buf.extend_from_slice(&42u16.to_le_bytes());
    buf.extend_from_slice(&(ifd0_off as u32).to_le_bytes());
    put_ifd(
        &mut buf,
        &[
            (256, 100),
            (257, 100),
            (259, 7),
            (262, 32803),
            (273, raw_off as u32),
            (279, raw.len() as u32),
            (330, subifd_off as u32),
        ],
        0,
    );
    put_ifd(
        &mut buf,
        &[
            (256, 16),
            (257, 12),
            (259, 7),
            (262, 6),
            (273, jpeg_off as u32),
            (279, jpeg.len() as u32),
        ],
        0,
    );
    assert_eq!(buf.len(), jpeg_off, "jpeg data must follow the IFDs");
    buf.extend_from_slice(&jpeg);
    assert_eq!(buf.len(), raw_off, "raw data must follow the jpeg");
    buf.extend_from_slice(&raw);
    (buf, jpeg)
}

const TEST_MARKDOWN: &str = "# FormatLab\n\nA **local** file converter.\n\n- images\n- PDFs\n- text\n";

#[test]
fn output_defaults_next_to_source() {
    let out = pick_output_path("/tmp/photos/IMG_1234.dng", "jpg", None).unwrap();
    assert_eq!(out, "/tmp/photos/IMG_1234.jpg");
}

#[test]
fn png_to_jpg() {
    let out = raster_to_raster(&test_png(), "/tmp/test.png", "/tmp/test.jpg", "jpg").expect("png -> jpg failed");
    assert!(out.len() >= 200);
    assert!(out.starts_with(&[0xFF, 0xD8, 0xFF]), "JPEG magic");
}

#[test]
fn png_to_webp() {
    let out = raster_to_raster(&test_png(), "/tmp/test.png", "/tmp/test.webp", "webp").expect("png -> webp failed");
    assert!(out.len() >= 80);
    assert!(out.starts_with(b"RIFF"), "WebP RIFF header");
}

#[test]
fn png_to_ico_downscales() {
    let out = raster_to_raster(&test_png(), "/tmp/test.png", "/tmp/test.ico", "ico").expect("png -> ico failed");
    assert!(out.len() >= 100);
    assert!(out.starts_with(&[0x00, 0x00, 0x01, 0x00]), "ICO header");
}

#[test]
fn markdown_to_html() {
    let body = formatlab::convert::text::markdown_to_html(TEST_MARKDOWN, "/tmp/test.md");
    assert!(body.len() >= 100);
    assert!(body.contains("<h1>"), "expected <h1> tag in HTML output");
    assert!(
        body.contains("<strong>local</strong>"),
        "expected inline markdown rendered to <strong>"
    );
    assert!(body.contains("<li>"), "expected bullet list rendering");
}

#[test]
fn markdown_to_txt_strips_marks() {
    let body = markdown_to_txt(TEST_MARKDOWN);
    assert!(!body.starts_with("#"), "expected heading marker stripped");
    assert!(body.contains("FormatLab"), "expected the document text preserved");
}

#[test]
fn heic_disabled_returns_friendly_error() {
    let err = heic_to_raster(b"not a real heic", "png").expect_err("should fail without libheif");
    assert!(
        err.message().contains("isn't available in this build")
            || err.message().contains("not available"),
        "error message should explain the missing decoder: {}",
        err.message()
    );
    match convert("heic", "png") {
        Ok(Converter::HeicToRaster(t)) => assert_eq!(t, "png"),
        other => panic!("heic -> png should reach the HEIC converter: {other:?}"),
    }
}

#[test]
fn dng_to_jpg_passes_preview_through() {
    let (src, preview) = test_dng();
    let got = dng_to_raster(&src, "/tmp/test.jpg", "jpg").expect("dng -> jpg failed");
    assert!(got.starts_with(&[0xFF, 0xD8, 0xFF]), "JPEG magic");
    assert_eq!(
        got, preview,
        "DNG -> JPG should write the embedded preview through untouched"
    );
}

#[test]
fn dng_to_png_decodes_preview_not_raw() {
    let (src, _) = test_dng();
    let out = dng_to_raster(&src, "/tmp/test.png", "png").expect("dng -> png failed");
    assert!(out.starts_with(&[0x89, b'P', b'N', b'G']), "PNG signature");
    // 16x12 is the preview; 100x100 would mean the raw CFA was grabbed.
    let decoded = image::load_from_memory(&out).expect("open decoded png");
    assert_eq!(decoded.width(), 16, "should decode the preview, not the raw");
    assert_eq!(decoded.height(), 12, "should decode the preview, not the raw");
}

#[test]
fn dng_without_preview_errors_clearly() {
    // A valid little-endian TIFF header pointing at an empty IFD: no preview.
    let mut buf = Vec::new();
    buf.extend_from_slice(b"II");
    buf.extend_from_slice(&42u16.to_le_bytes());
    buf.extend_from_slice(&8u32.to_le_bytes());
    buf.extend_from_slice(&0u16.to_le_bytes()); // 0 entries
    buf.extend_from_slice(&0u32.to_le_bytes()); // no next IFD
    let err = dng_to_raster(&buf, "/tmp/empty.jpg", "jpg").expect_err("should fail without a preview");
    assert!(
        err.message().contains("no embedded JPEG preview"),
        "error should explain the missing preview: {}",
        err.message()
    );
}

#[test]
fn html_to_markdown_inline() {
    let body = html_to_markdown(
        "<h2>Hi</h2><p>This is <strong>bold</strong> and <em>italic</em>.</p><ul><li>one</li><li>two</li></ul>",
    );
    assert!(body.contains("## Hi"), "heading should become ##");
    assert!(body.contains("**bold**"), "<strong> should become **bold**");
    assert!(body.contains("*italic*"), "<em> should become *italic*");
    assert!(body.contains("- one"), "list item should become - one");
}

#[test]
fn svg_pixels_to_png() {
    // A 4x4 opaque blue square, as the SVG rasteriser hands it over.
    let rgba: Vec<u8> = [0x2d, 0x6c, 0xdf, 0xff].repeat(16);
    let out = svg_to_raster(4, 4, rgba, "/tmp/test.png", "png").expect("svg -> png failed");
    assert!(out.starts_with(&[0x89, b'P', b'N', b'G']), "PNG signature");
    let decoded = image::load_from_memory(&out).expect("open png");
    assert_eq!((decoded.width(), decoded.height()), (4, 4));
}

/// The test SVG (a blue square with a white circle), rasterised as the
/// front end does: premultiplied RGBA pixels.
fn test_svg_pixels() -> (u32, u32, Vec<u8>) {
    let svg = r##"<svg xmlns="http://www.w3.org/2000/svg" width="64" height="64" viewBox="0 0 64 64">
            <rect width="64" height="64" fill="#2d6cdf"/>
            <circle cx="32" cy="32" r="20" fill="#ffffff"/>
        </svg>"##;
    let tree = usvg::Tree::from_data(svg.as_bytes(), &usvg::Options::default()).expect("parse svg");
    let size = tree.size();
    let (w, h) = (size.width().ceil() as u32, size.height().ceil() as u32);
    let mut pixmap = tiny_skia::Pixmap::new(w, h).expect("allocate pixmap");
    resvg::render(&tree, tiny_skia::Transform::identity(), &mut pixmap.as_mut());
    (pixmap.width(), pixmap.height(), pixmap.data().to_vec())
}

fn run_on(src: &str, tgt: &str, input: Input) -> Result<Vec<u8>, ConvertError> {
    let conv = convert(src, tgt).expect("a converter for the pair");
    run(&conv, input, &format!("/tmp/test.{src}"), &format!("/tmp/test.{tgt}"))
}

fn assert_pdf(out: &[u8]) {
    assert!(out.len() >= 500);
    assert!(out.starts_with(b"%PDF-"), "PDF header");
    let tail = String::from_utf8_lossy(&out[out.len().saturating_sub(64)..]).into_owned();
    assert!(tail.contains("%%EOF"), "PDF trailer missing at tail: {tail:?}");
}

#[test]
fn png_to_pdf_produces_valid_pdf() {
    let out = run_on("png", "pdf", Input::Bytes(test_png())).expect("png -> pdf failed");
    assert_pdf(&out);
}

#[test]
fn svg_to_png_rasterises() {
    let (width, height, rgba) = test_svg_pixels();
    let out = run_on("svg", "png", Input::Pixels { width, height, rgba }).expect("svg -> png failed");
    assert!(out.len() >= 200);
    assert!(out.starts_with(&[0x89, b'P', b'N', b'G']), "PNG signature");
}

#[test]
fn svg_to_pdf_embeds() {
    let (width, height, rgba) = test_svg_pixels();
    let out = run_on("svg", "pdf", Input::Pixels { width, height, rgba }).expect("svg -> pdf failed");
    assert_pdf(&out);
}

#[test]
fn converters_run_end_to_end() {
    let (dng, preview) = test_dng();
    assert_eq!(run_on("dng", "jpg", Input::Bytes(dng.clone())).unwrap(), preview);
    let png = run_on("DNG", "png", Input::Bytes(dng)).unwrap();
    assert!(png.starts_with(&[0x89, b'P', b'N', b'G']));
    for (tgt, magic) in [("jpg", &[0xFFu8, 0xD8][..]), ("webp", b"RIFF"), ("ico", &[0, 0, 1, 0])] {
        let out = run_on("png", tgt, Input::Bytes(test_png())).unwrap();
        assert!(out.starts_with(magic), "{tgt} signature");
    }
    match run_on("heic", "png", Input::Bytes(b"not a real heic".to_vec())) {
        Err(ConvertError::HeicUnavailable) => {}
        other => panic!("unexpected: {other:?}"),
    }
    let txt = run_on("md", "txt", Input::Text(TEST_MARKDOWN.to_string())).unwrap();
    assert!(String::from_utf8(txt).unwrap().contains("FormatLab"));
    let csv = run_on("xlsx", "csv", Input::Rows(vec![vec![formatlab::convert::office::Cell::Int(3)]]))
        .unwrap();
    assert_eq!(csv, b"3\n");
}

#[test]
fn image_files_are_read_as_their_extension_says() {
    let png = test_png();
    // Letter case does not matter, and `apng` is read as PNG.
    assert!(raster_to_raster(&png, "/tmp/Shot.PNG", "/tmp/out.jpg", "jpg").is_ok());
    assert!(raster_to_raster(&png, "/tmp/shot.apng", "/tmp/out.jpg", "jpg").is_ok());
    // PNG bytes under a `.jpg` name are read as JPEG, and fail.
    match raster_to_raster(&png, "/tmp/shot.jpg", "/tmp/out.webp", "webp") {
        Err(e @ ConvertError::ImageDecode { .. }) => {
            assert!(e.message().starts_with("Failed to decode image: /tmp/shot.jpg: "), "{}", e.message())
        }
        other => panic!("unexpected: {other:?}"),
    }
    // No extension: nothing names a format.
    match raster_to_raster(&png, "/tmp/shot", "/tmp/out.webp", "webp") {
        Err(ConvertError::ImageDecode { path, .. }) => assert_eq!(path, "/tmp/shot"),
        other => panic!("unexpected: {other:?}"),
    }
}
