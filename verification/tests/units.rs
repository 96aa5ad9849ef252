//! Concrete checks of the library's contracts and laws.

use formatlab::commands::{
    file_meta, pick_output_path, prepare_conversion, ConversionResult, OutputPathError,
};
use formatlab::convert::dng::{
    dng_to_pdf, entry_values, extract_preview_jpeg, scan_ifd, type_size, DngError, Tiff,
};
use formatlab::convert::heic::{heic_to_pdf, pack_rows};
use formatlab::convert::images::{
    ext_to_format, flatten_on_white, prepare_for_format, prepare_pixels, raster_to_raster,
    save_rgba, ImageKind, Preparation,
};
use formatlab::convert::office::{needs_quoting, xlsx_to_csv, Cell};
use formatlab::convert::pdf::{image_to_pdf, pdf_of_rgb, svg_to_pdf};
use formatlab::convert::text::{
    html_escape, html_to_txt, naive_html_to_md, replace_block, replace_inline, strip_html,
    txt_to_html, txt_to_markdown, markdown_to_txt, markdown_to_html,
};
use formatlab::error::ConvertError;
use formatlab::registry::{convert, dispatch, Converter};
use formatlab::util::{sibling_candidate, unique_sibling_path, ExtExt, SiblingStep};

// ---------------------------------------------------------------- TIFF / DNG

fn jpeg_bytes(w: u32, h: u32) -> Vec<u8> {
    let img = image::RgbImage::from_pixel(w, h, image::Rgb([10, 200, 30]));
    let mut out = Vec::new();
    image::DynamicImage::ImageRgb8(img)
        .write_to(&mut std::io::Cursor::new(&mut out), image::ImageFormat::Jpeg)
        .unwrap();
    out
}

fn entry(buf: &mut Vec<u8>, tag: u16, ty: u16, count: u32, val: u32) {
    buf.extend_from_slice(&tag.to_le_bytes());
    buf.extend_from_slice(&ty.to_le_bytes());
    buf.extend_from_slice(&count.to_le_bytes());
    buf.extend_from_slice(&val.to_le_bytes());
}

#[test]
fn tiff_reads_both_byte_orders() {
    let bytes = [0x12, 0x34, 0x56, 0x78];
    let le = Tiff { buf: &bytes, le: true };
    let be = Tiff { buf: &bytes, le: false };
    assert_eq!(le.u16(0).unwrap(), 0x3412);
    assert_eq!(be.u16(0).unwrap(), 0x1234);
    assert_eq!(le.u32(0).unwrap(), 0x7856_3412);
    assert_eq!(be.u32(0).unwrap(), 0x1234_5678);
    assert_eq!(le.u16(3), Err(DngError::ReadOutOfBounds));
    assert_eq!(le.u32(1), Err(DngError::ReadOutOfBounds));
    assert_eq!(le.u16(u64::MAX), Err(DngError::ReadOutOfBounds));
}

#[test]
fn tiff_type_sizes() {
    assert_eq!(type_size(1), 1);
    assert_eq!(type_size(2), 1);
    assert_eq!(type_size(3), 2);
    assert_eq!(type_size(4), 4);
    assert_eq!(type_size(5), 8);
    assert_eq!(type_size(11), 4);
    assert_eq!(type_size(12), 8);
    assert_eq!(type_size(13), 0);
}

#[test]
fn tiff_entry_values_inline_and_out_of_line() {
    // One entry: SHORT x2 inline, then one: LONG x2 out of line at 20.
    let mut buf = Vec::new();
    entry(&mut buf, 273, 3, 2, 0x0009_0007);
    entry(&mut buf, 273, 4, 2, 28);
    buf.extend_from_slice(&[0, 0, 0, 0]);
    buf.extend_from_slice(&5u32.to_le_bytes());
    buf.extend_from_slice(&6u32.to_le_bytes());
    let t = Tiff { buf: &buf, le: true };
    assert_eq!(entry_values(&t, 0).unwrap(), vec![7, 9]);
    assert_eq!(entry_values(&t, 12).unwrap(), vec![5, 6]);
    // A RATIONAL (8 bytes) value read out of line.
    let mut r = Vec::new();
    entry(&mut r, 1, 5, 1, 12);
    r.extend_from_slice(&1u32.to_le_bytes());
    r.extend_from_slice(&2u32.to_le_bytes());
    let t = Tiff { buf: &r, le: true };
    assert_eq!(entry_values(&t, 0).unwrap(), vec![1 | (2u64 << 32)]);
    // Values past the end of the file.
    let mut bad = Vec::new();
    entry(&mut bad, 1, 4, 3, 1000);
    let t = Tiff { buf: &bad, le: true };
    assert_eq!(entry_values(&t, 0), Err(DngError::ReadOutOfBounds));
    // An unknown type reads as no values.
    let mut unknown = Vec::new();
    entry(&mut unknown, 1, 99, 3, 1000);
    let t = Tiff { buf: &unknown, le: true };
    assert_eq!(entry_values(&t, 0).unwrap(), Vec::<u64>::new());
}

#[test]
fn dng_header_errors() {
    assert_eq!(extract_preview_jpeg(b"XX*\0\x08\0\0\0"), Err(DngError::NotTiffByteOrder));
    assert_eq!(extract_preview_jpeg(b"I"), Err(DngError::NotTiffByteOrder));
    assert_eq!(extract_preview_jpeg(b"II\x2b\0\x08\0\0\0"), Err(DngError::BadMagic));
    assert_eq!(extract_preview_jpeg(b"MM\0\x2a\0\0"), Err(DngError::ReadOutOfBounds));
    assert_eq!(extract_preview_jpeg(b"II"), Err(DngError::ReadOutOfBounds));
    assert_eq!(
        DngError::BadMagic.message(),
        "Not a TIFF/DNG file (bad magic number)"
    );
}

/// A little-endian TIFF with one IFD per `(width, height, jpeg)` preview,
/// chained through next-IFD pointers.
fn chained_previews(previews: &[(u32, u32, Vec<u8>)]) -> Vec<u8> {
    let n = previews.len();
    let ifd_size = 2 + 6 * 12 + 4;
    let mut data_off = 8 + n * ifd_size;
    let mut buf = Vec::new();
    buf.extend_from_slice(b"II");
    buf.extend_from_slice(&42u16.to_le_bytes());
    buf.extend_from_slice(&8u32.to_le_bytes());
    for (i, (w, h, jpeg)) in previews.iter().enumerate() {
        buf.extend_from_slice(&6u16.to_le_bytes());
        entry(&mut buf, 256, 4, 1, *w);
        entry(&mut buf, 257, 4, 1, *h);
        entry(&mut buf, 259, 3, 1, 7);
        entry(&mut buf, 262, 3, 1, 2);
        entry(&mut buf, 513, 4, 1, data_off as u32);
        entry(&mut buf, 514, 4, 1, jpeg.len() as u32);
        let next = if i + 1 < n { 8 + (i + 1) * ifd_size } else { 0 };
        buf.extend_from_slice(&(next as u32).to_le_bytes());
        data_off += jpeg.len();
    }
    for (_, _, jpeg) in previews {
        buf.extend_from_slice(jpeg);
    }
    buf
}

#[test]
fn dng_largest_preview_wins() {
    let small = jpeg_bytes(8, 8);
    let large = jpeg_bytes(32, 24);
    let file = chained_previews(&[(8, 8, small.clone()), (32, 24, large.clone())]);
    assert_eq!(extract_preview_jpeg(&file).unwrap(), large);
    let file = chained_previews(&[(32, 24, large.clone()), (8, 8, small)]);
    assert_eq!(extract_preview_jpeg(&file).unwrap(), large);
}

#[test]
fn dng_cyclic_ifds_terminate() {
    // An IFD whose next pointer is itself and which holds no preview.
    let mut buf = Vec::new();
    buf.extend_from_slice(b"MM");
    buf.extend_from_slice(&42u16.to_be_bytes());
    buf.extend_from_slice(&8u32.to_be_bytes());
    buf.extend_from_slice(&0u16.to_be_bytes());
    buf.extend_from_slice(&8u32.to_be_bytes());
    assert_eq!(extract_preview_jpeg(&buf), Err(DngError::NoPreview));
}

#[test]
fn dng_region_must_start_with_soi() {
    // The JPEG pointer names bytes that are not a JPEG.
    let not_jpeg = vec![0x12u8; 40];
    let file = chained_previews(&[(8, 8, not_jpeg)]);
    assert_eq!(extract_preview_jpeg(&file), Err(DngError::NoPreview));
}

#[test]
fn dng_to_pdf_embeds_the_preview() {
    let file = chained_previews(&[(8, 8, jpeg_bytes(8, 8))]);
    let pdf = dng_to_pdf(&file).expect("dng -> pdf failed");
    assert!(pdf.starts_with(b"%PDF-"));
    assert!(pdf.ends_with(b"%%EOF\n"));
    assert!(pdf.len() >= 3 * 8 * 8);
    match dng_to_pdf(b"nope") {
        Err(ConvertError::Dng(DngError::NotTiffByteOrder)) => {}
        other => panic!("unexpected: {other:?}"),
    }
}

/// An IFD at offset 0: Compression, Photometric, StripOffsets [54] and
/// StripByteCounts [2], no next IFD, then the two bytes `FF D8` at 54.
fn single_strip_ifd(photometric: u8, photometric_hi: u8) -> Vec<u8> {
    vec![
        4, 0, 3, 1, 3, 0, 1, 0, 0, 0, 7, 0, 0, 0, 6, 1, 3, 0, 1, 0, 0, 0, photometric,
        photometric_hi, 0, 0, 17, 1, 4, 0, 1, 0, 0, 0, 54, 0, 0, 0, 23, 1, 4, 0, 1, 0, 0, 0, 2, 0,
        0, 0, 0, 0, 0, 0, 255, 216,
    ]
}

#[test]
fn scan_ifd_skips_raw_cfa_jpeg() {
    let buf = single_strip_ifd(35, 128); // Photometric 32803, CFA
    let t = Tiff { buf: &buf, le: true };
    let mut queue = Vec::new();
    let mut best = None;
    assert_eq!(scan_ifd(&t, 0, &mut queue, &mut best), Ok(()));
    assert_eq!(queue, vec![0]);
    assert!(best.is_none());
}

#[test]
fn scan_ifd_takes_a_photographic_strip() {
    let buf = single_strip_ifd(6, 0); // YCbCr
    let t = Tiff { buf: &buf, le: true };
    let mut queue = Vec::new();
    let mut best = None;
    assert_eq!(scan_ifd(&t, 0, &mut queue, &mut best), Ok(()));
    assert_eq!(queue, vec![0]);
    let b = best.expect("candidate");
    assert_eq!((b.offset, b.len, b.score), (54, 2, 2));
    // A candidate of equal score stays where it is.
    let mut queue = Vec::new();
    let mut best = Some(formatlab::convert::dng::Candidate { offset: 0, len: 0, score: 2 });
    assert_eq!(scan_ifd(&t, 0, &mut queue, &mut best), Ok(()));
    let b = best.expect("candidate");
    assert_eq!((b.offset, b.len, b.score), (0, 0, 2));
}

#[test]
fn scan_ifd_reports_reads_past_the_end() {
    let buf = single_strip_ifd(6, 0);
    let short = &buf[..20];
    let t = Tiff { buf: short, le: true };
    let mut queue = Vec::new();
    let mut best = None;
    assert_eq!(scan_ifd(&t, 0, &mut queue, &mut best), Err(DngError::ReadOutOfBounds));
    assert!(best.is_none());
    assert_eq!(scan_ifd(&t, 100, &mut queue, &mut best), Err(DngError::ReadOutOfBounds));
}

// ---------------------------------------------------------------- text

#[test]
fn html_escape_exact() {
    assert_eq!(html_escape("a < b && c > d"), "a &lt; b &amp;&amp; c &gt; d");
    assert_eq!(html_escape("plain"), "plain");
    let escaped = html_escape("<script>alert('x')</script>");
    assert!(!escaped.contains('<') && !escaped.contains('>'));
}

#[test]
fn strip_html_decodes_entities_in_order() {
    assert_eq!(strip_html("<p>a &amp;lt; b</p>"), "a < b");
    assert_eq!(strip_html("x&nbsp;y &quot;q&quot; it&#39;s"), "x y \"q\" it's");
    assert_eq!(strip_html("<b>bold</b> text"), "bold text");
    assert_eq!(html_to_txt("<div class=\"a\">hi</div>"), "hi");
}

#[test]
fn strip_html_keeps_plain_text() {
    let s = "no tags here, just words\nand lines";
    assert_eq!(strip_html(s), s);
}

#[test]
fn markdown_to_txt_exact() {
    assert_eq!(markdown_to_txt("# Title\r\n> quote\n## Sub"), "Title\nquote\nSub\n");
    assert_eq!(markdown_to_txt(""), "");
    assert_eq!(markdown_to_txt("\n"), "\n");
    assert_eq!(markdown_to_txt("  ## x\n> > y\n"), "## x\ny\n");
    assert_eq!(markdown_to_txt("#\u{3000}wide"), "wide\n");
}

#[test]
fn txt_conversions() {
    assert_eq!(txt_to_markdown("keep *this*"), "keep *this*");
    assert_eq!(
        txt_to_html("a<b\nc"),
        "<!doctype html>\n<html lang=\"en\">\n<head><meta charset=\"utf-8\"><title>Text</title></head>\n<body><pre>a&lt;b<br>\nc</pre></body>\n</html>\n"
    );
}

#[test]
fn replace_block_exact() {
    assert_eq!(
        replace_block("x<h1 id=\"a\">Title</h1>y<h1>Two</h1>", "h1", "# ", "\n"),
        "x# Title\ny# Two\n"
    );
    // An unclosed block stops the scan and is kept as it is.
    assert_eq!(replace_block("<p>a</p><p>b", "p", "", "|"), "a|<p>b");
    assert_eq!(replace_block("no blocks", "p", "", "|"), "no blocks");
}

#[test]
fn replace_inline_exact() {
    assert_eq!(replace_inline("<em>a</em> <em>b</em>", "em", "*"), "*a* *b*");
}

#[test]
fn html_to_markdown_collapses_blank_lines() {
    let md = naive_html_to_md("<p>a</p>\n\n\n\n<p>b</p>\n");
    assert_eq!(md, "a\n\nb\n");
    assert!(!md.contains("\n\n\n"));
    assert_eq!(naive_html_to_md(""), "\n");
    assert_eq!(naive_html_to_md("<ul><li>x</li></ul><hr><br/>y"), "- x\n\n---\n\ny\n");
}

// ---------------------------------------------------------------- registry

#[test]
fn registry_routes() {
    match convert("PNG", "JPEG") {
        Ok(Converter::RasterToRaster(t)) => assert_eq!(t, "jpg"),
        other => panic!("unexpected: {other:?}"),
    }
    assert!(matches!(convert("md", "html"), Ok(Converter::MarkdownToHtml)));
    assert!(matches!(convert("markdown", "txt"), Ok(Converter::MarkdownToTxt)));
    assert!(matches!(convert("htm", "md"), Ok(Converter::HtmlToMarkdown)));
    assert!(matches!(convert("xlsx", "csv"), Ok(Converter::XlsxToCsv)));
    assert!(matches!(convert("svg", "pdf"), Ok(Converter::SvgToPdf)));
    assert!(matches!(convert("png", "pdf"), Ok(Converter::RasterToPdf)));
    assert!(matches!(convert("dng", "pdf"), Ok(Converter::DngToPdf)));
    match convert("dng", "tif") {
        Ok(Converter::DngToRaster(t)) => assert_eq!(t, "tiff"),
        other => panic!("unexpected: {other:?}"),
    }
    match convert("svg", "ico") {
        Ok(Converter::SvgToRaster(t)) => assert_eq!(t, "ico"),
        other => panic!("unexpected: {other:?}"),
    }
}

#[test]
fn registry_refuses_unknown_pairs() {
    let e = dispatch("png", "png").expect_err("same format");
    assert_eq!(e.message(), "No converter registered for png \u{2192} png");
    let e = convert("JPEG", "jpg").expect_err("same format after aliasing");
    assert_eq!(e.message(), "No converter registered for jpg \u{2192} jpg");
    let e = convert("txt", "csv").expect_err("no such converter");
    match e {
        ConvertError::NoConverter { src, tgt } => {
            assert_eq!(src, "txt");
            assert_eq!(tgt, "csv");
        }
        other => panic!("unexpected: {other:?}"),
    }
}

// ---------------------------------------------------------------- paths

#[test]
fn extension_lowercased() {
    assert_eq!("photo.JPG".ext_lower(), Some("jpg".to_string()));
    assert_eq!(String::from("/a/b.Tar.GZ").ext_lower(), Some("gz".to_string()));
    assert_eq!("noext".ext_lower(), None);
    assert_eq!(".bashrc".ext_lower(), None);
}

#[test]
fn sibling_names() {
    assert_eq!(sibling_candidate("/a/b/file.png", 0), "/a/b/file.png");
    assert_eq!(sibling_candidate("/a/b/file.png", 1), "/a/b/file (1).png");
    assert_eq!(sibling_candidate("/a/b/file", 12), "/a/b/file (12)");
    assert_eq!(sibling_candidate("file.tar.gz", 9999), "file.tar (9999).gz");
}

#[test]
fn unique_sibling_steps() {
    match unique_sibling_path("/a/x.png", 0, false) {
        SiblingStep::Accept(p) => assert_eq!(p, "/a/x.png"),
        other => panic!("unexpected: {other:?}"),
    }
    match unique_sibling_path("/a/x.png", 0, true) {
        SiblingStep::Probe(n) => assert_eq!(n, 1),
        other => panic!("unexpected: {other:?}"),
    }
    match unique_sibling_path("/a/x.png", 3, false) {
        SiblingStep::Accept(p) => assert_eq!(p, "/a/x (3).png"),
        other => panic!("unexpected: {other:?}"),
    }
    match unique_sibling_path("/a/x.png", 9999, true) {
        SiblingStep::Exhausted => {}
        other => panic!("unexpected: {other:?}"),
    }
}

#[test]
fn output_honours_destination_dir() {
    let out = pick_output_path("/somewhere/else/IMG_1234.dng", "jpg", Some("/tmp/dest")).unwrap();
    assert_eq!(out, "/tmp/dest/IMG_1234.jpg");
    match pick_output_path("/", "jpg", None) {
        Err(OutputPathError::NoStem) => {}
        other => panic!("unexpected: {other:?}"),
    }
    assert_eq!(OutputPathError::NoStem.message(), "Input has no filename stem");
    assert_eq!(
        OutputPathError::NoParent("x".to_string()).message(),
        "Input path has no parent directory: x"
    );
}

#[test]
fn file_meta_names() {
    let m = file_meta("/photos/a.png", 12);
    assert_eq!((m.path.as_str(), m.name.as_str(), m.size_bytes), ("/photos/a.png", "a.png", 12));
    let m = file_meta("/", 0);
    assert_eq!(m.name, "/");
}

#[test]
fn conversion_results() {
    let ok = ConversionResult::ok("/out.png".to_string());
    assert!(ok.ok);
    assert_eq!(ok.output_path.as_deref(), Some("/out.png"));
    assert_eq!(ok.error, None);
    let err = ConversionResult::err("boom".to_string());
    assert!(!err.ok);
    assert_eq!(err.output_path, None);
    assert_eq!(err.error.as_deref(), Some("boom"));
}

// ---------------------------------------------------------------- CSV

#[test]
fn csv_quoting() {
    assert!(!needs_quoting("plain"));
    assert!(needs_quoting("a,b"));
    assert!(needs_quoting("say \"hi\""));
    assert!(needs_quoting("two\nlines"));
    assert!(needs_quoting("cr\r"));
    let rows = vec![
        vec![Cell::Text("name".into()), Cell::Text("a,b".into()), Cell::Empty],
        vec![Cell::Int(-42), Cell::Int(i64::MIN), Cell::Bool(true), Cell::Bool(false)],
        vec![],
        vec![Cell::Text("say \"hi\"".into())],
    ];
    assert_eq!(
        xlsx_to_csv(&rows),
        "name,\"a,b\",\n-42,-9223372036854775808,true,false\n\n\"say \"\"hi\"\"\"\n"
    );
    assert_eq!(xlsx_to_csv(&vec![]), "");
}

// ---------------------------------------------------------------- images

#[test]
fn image_formats_and_preparation() {
    assert_eq!(ext_to_format("tif").unwrap(), ImageKind::Tiff);
    assert_eq!(ext_to_format("jpeg").unwrap(), ImageKind::Jpeg);
    let e = ext_to_format("xyz").expect_err("unknown target");
    assert_eq!(e.message(), "Unsupported image target: xyz");
    assert_eq!(prepare_for_format(ImageKind::Ico, 300, 10), Preparation::FitIcon);
    assert_eq!(prepare_for_format(ImageKind::Ico, 256, 256), Preparation::Keep);
    assert_eq!(prepare_for_format(ImageKind::Jpeg, 1, 1), Preparation::FlattenOnWhite);
    assert_eq!(prepare_for_format(ImageKind::Bmp, 1, 1), Preparation::FlattenOnWhite);
    assert_eq!(prepare_for_format(ImageKind::Png, 999, 999), Preparation::Keep);
}

#[test]
fn flattening_onto_white() {
    let rgba = vec![10, 20, 30, 255, 10, 20, 30, 0, 0, 255, 100, 128, 9, 9, 9, 9];
    assert_eq!(
        flatten_on_white(&rgba, 3),
        vec![10, 20, 30, 255, 255, 255, 127, 255, 177]
    );
}

#[test]
fn raster_errors_and_downscaling() {
    match raster_to_raster(b"not an image", "/a/in.gif", "/a/out.png", "png") {
        Err(e @ ConvertError::ImageDecode { .. }) => {
            assert!(e.message().starts_with("Failed to decode image: /a/in.gif: "))
        }
        other => panic!("unexpected: {other:?}"),
    }
    let big = image::RgbaImage::from_pixel(600, 300, image::Rgba([1, 2, 3, 128]));
    let mut png = Vec::new();
    image::DynamicImage::ImageRgba8(big)
        .write_to(&mut std::io::Cursor::new(&mut png), image::ImageFormat::Png)
        .unwrap();
    let ico = raster_to_raster(&png, "/a/big.png", "/a/big.ico", "ico").unwrap();
    let decoded = image::load_from_memory(&ico).unwrap();
    assert_eq!((decoded.width(), decoded.height()), (256, 128));
    let bmp = raster_to_raster(&png, "/a/big.png", "/a/big.bmp", "bmp").unwrap();
    assert!(bmp.starts_with(b"BM"));
    match raster_to_raster(&png, "/a/big.png", "/a/big.svg", "svg") {
        Err(ConvertError::UnsupportedImageTarget(t)) => assert_eq!(t, "svg"),
        other => panic!("unexpected: {other:?}"),
    }
}

#[test]
fn unavailable_converters() {
    assert!(matches!(image_to_pdf(b"", "/a/x.png"), Err(ConvertError::ImageDecode { .. })));
    assert!(matches!(heic_to_pdf(b""), Err(ConvertError::HeicUnavailable)));
}

#[test]
fn conversion_preparation() {
    let (s, t) = prepare_conversion("/x/Photo.PNG", "JPG", true).unwrap();
    assert_eq!((s.as_str(), t.as_str()), ("png", "jpg"));
    let f = prepare_conversion("/x/noext", "jpg", true).unwrap_err();
    assert_eq!(f.error.as_deref(), Some("Input file has no extension."));
    assert!(!f.ok);
    let f = prepare_conversion("/x/a.png", "jpg", false).unwrap_err();
    assert_eq!(f.error.as_deref(), Some("Input file no longer exists."));
}

#[test]
fn markdown_page_title() {
    let page = markdown_to_html("*hi*", "/notes/My <Notes>.md");
    assert!(page.contains("<title>My &lt;Notes&gt;</title>"));
    assert!(page.contains("<p><em>hi</em></p>"));
    assert!(page.ends_with("\n</body>\n</html>\n"));
    let page = markdown_to_html("x", "");
    assert!(page.contains("<title>Document</title>"));
}

#[test]
fn decode_error_carries_detail() {
    match raster_to_raster(&[0x89, b'P', b'N', b'G', 0, 0], "/p/t.png", "/p/t.jpg", "jpg") {
        Err(e) => {
            let m = e.message();
            let head = "Failed to decode image: /p/t.png: ";
            assert!(m.starts_with(head) && m.len() > head.len(), "{m}");
        }
        Ok(_) => panic!("a truncated PNG should not decode"),
    }
}

#[test]
fn icon_preparation_fits_and_keeps_the_aspect_ratio() {
    let rgba = vec![7u8; 4 * 600 * 300];
    let r = prepare_pixels(ImageKind::Ico, 600, 300, rgba);
    assert_eq!((r.width, r.height, r.alpha), (256, 128, true));
    assert_eq!(r.data.len(), 4 * 256 * 128);
    let tall = prepare_pixels(ImageKind::Ico, 100, 1000, vec![0u8; 4 * 100 * 1000]);
    assert_eq!((tall.width, tall.height), (26, 256));
    let small = prepare_pixels(ImageKind::Ico, 16, 16, vec![1u8; 4 * 16 * 16]);
    assert_eq!((small.width, small.height, small.data), (16, 16, vec![1u8; 4 * 16 * 16]));
    let thin = prepare_pixels(ImageKind::Ico, 0, 300, Vec::new());
    assert_eq!((thin.width, thin.height, thin.data.len()), (1, 256, 4 * 256));
    let flat = prepare_pixels(ImageKind::Jpeg, 1, 1, vec![0, 0, 0, 0]);
    assert_eq!((flat.alpha, flat.data), (false, vec![255, 255, 255]));
}

#[test]
fn saved_images_carry_the_target_signature() {
    let rgba = [0x2du8, 0x6c, 0xdf, 0x80].repeat(9);
    let cases: [(&str, &[u8]); 7] = [
        ("png", &[0x89, b'P', b'N', b'G', 13, 10, 26, 10]),
        ("jpg", &[0xFF, 0xD8]),
        ("jpeg", &[0xFF, 0xD8]),
        ("webp", b"RIFF"),
        ("gif", b"GIF89a"),
        ("bmp", b"BM"),
        ("ico", &[0, 0, 1, 0]),
    ];
    for (ext, magic) in cases {
        let out = save_rgba(3, 3, rgba.clone(), "/a/out", ext).unwrap_or_else(|e| panic!("{ext}: {e:?}"));
        assert!(out.starts_with(magic), "{ext} signature");
    }
    let tiff = save_rgba(3, 3, rgba.clone(), "/a/out.tif", "tif").unwrap();
    assert!(tiff.starts_with(b"II*\0") || tiff.starts_with(b"MM\0*"), "TIFF signature");
    match save_rgba(3, 3, rgba, "/a/out.svg", "svg") {
        Err(ConvertError::UnsupportedImageTarget(t)) => assert_eq!(t, "svg"),
        other => panic!("unexpected: {other:?}"),
    }
}

fn expected_pdf(width: &str, height: &str, w: u32, h: u32, rgb: &[u8]) -> Vec<u8> {
    let content = format!("q {width} 0 0 {height} 0 0 cm /Im0 Do Q");
    let mut out: Vec<u8> = b"%PDF-1.4\n".to_vec();
    let mut offsets = Vec::new();
    offsets.push(out.len());
    out.extend_from_slice(b"1 0 obj\n<< /Type /Catalog /Pages 2 0 R >>\nendobj\n");
    offsets.push(out.len());
    out.extend_from_slice(b"2 0 obj\n<< /Type /Pages /Kids [3 0 R] /Count 1 >>\nendobj\n");
    offsets.push(out.len());
    out.extend_from_slice(format!("3 0 obj\n<< /Type /Page /Parent 2 0 R /MediaBox [0 0 {width} {height}] /Resources << /XObject << /Im0 4 0 R >> >> /Contents 5 0 R >>\nendobj\n").as_bytes());
    offsets.push(out.len());
    out.extend_from_slice(format!("4 0 obj\n<< /Type /XObject /Subtype /Image /Width {w} /Height {h} /ColorSpace /DeviceRGB /BitsPerComponent 8 /Length {} >>\nstream\n", rgb.len()).as_bytes());
    out.extend_from_slice(rgb);
    out.extend_from_slice(b"\nendstream\nendobj\n");
    offsets.push(out.len());
    out.extend_from_slice(format!("5 0 obj\n<< /Length {} >>\nstream\n{content}\nendstream\nendobj\n", content.len()).as_bytes());
    let xref = out.len();
    out.extend_from_slice(b"xref\n0 6\n0000000000 65535 f \n");
    for o in offsets {
        out.extend_from_slice(format!("{o:010} 00000 n \n").as_bytes());
    }
    out.extend_from_slice(format!("trailer\n<< /Size 6 /Root 1 0 R >>\nstartxref\n{xref}\n%%EOF\n").as_bytes());
    out
}

#[test]
fn pdf_layout_is_exact() {
    let rgb = vec![1u8, 2, 3, 4, 5, 6];
    assert_eq!(pdf_of_rgb(2, 1, &rgb), expected_pdf("0.48", "0.24", 2, 1, &rgb));
    // 300 pixels are one inch, 72 points.
    let big = vec![9u8; 3 * 300 * 301];
    assert_eq!(pdf_of_rgb(300, 301, &big), expected_pdf("72.00", "72.24", 300, 301, &big));
    // Transparent pixels are flattened onto white.
    let pdf = svg_to_pdf(1, 1, vec![0, 0, 0, 0]).unwrap();
    assert_eq!(pdf, expected_pdf("0.24", "0.24", 1, 1, &[255, 255, 255]));
}

#[test]
fn padded_rows_are_packed() {
    let data = [1u8, 2, 3, 4, 9, 9, 5, 6, 7, 8];
    assert_eq!(pack_rows(&data, 6, 1, 2), vec![1, 2, 3, 4, 5, 6, 7, 8]);
    assert_eq!(pack_rows(&data, 4, 1, 2), vec![1, 2, 3, 4, 9, 9, 5, 6]);
    assert!(pack_rows(&[], 0, 5, 0).is_empty());
}

#[test]
fn letter_case_never_changes_the_route() {
    for (s, t) in [("PNG", "Jpg"), ("Markdown", "HTM"), ("TIF", "PDF"), ("XlSx", "CSV")] {
        let a = format!("{:?}", convert(s, t));
        let b = format!("{:?}", convert(&s.to_lowercase(), &t.to_lowercase()));
        assert_eq!(a, b);
    }
    match convert("JPEG", "TIF") {
        Ok(Converter::RasterToRaster(t)) => assert_eq!(t, "tiff"),
        other => panic!("unexpected: {other:?}"),
    }
}
