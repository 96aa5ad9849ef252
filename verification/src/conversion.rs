//! Running a converter: what it reads, and the bytes it produces.
//!
//! Reading the input file and writing the output are left to the caller;
//! everything in between is here.
use vstd::prelude::*;

use crate::convert::dng::{
    dng_pdf_converted,
    dng_raster_converted,
    dng_to_pdf,
    dng_to_raster,
    is_jpeg_target,
    law_preview_is_jpeg_slice_of_file,
    preview_of,
};
use crate::convert::heic::{heic_to_pdf, heic_to_raster};
use crate::convert::images::{raster_converted, raster_to_raster, svg_to_raster, written_as};
use crate::convert::office::{csv_text, xlsx_to_csv, Cell};
use crate::convert::pdf::{image_pdf_converted, image_to_pdf, pdf_document, svg_to_pdf};
use crate::convert::images::{flat_of, format_of, has_signature};
use crate::convert::text::{
    commonmark_html,
    document_title,
    html_markdown,
    html_to_markdown,
    html_to_txt,
    markdown_page,
    markdown_text,
    markdown_to_html,
    markdown_to_txt,
    stripped,
    txt_html,
    txt_to_html,
    txt_to_markdown,
};
use crate::error::ConvertError;
use crate::registry::{Converter, Route};

verus! {

broadcast use vstd::string::group_string_axioms;

/// What a converter reads.
pub enum Input {
    /// The file's bytes: raster images, DNG and HEIF files.
    Bytes(Vec<u8>),
    /// The file's text: markdown, HTML and plain text.
    Text(String),
    /// An SVG rasterised to `width * height` RGBA pixels.
    Pixels { width: u32, height: u32, rgba: Vec<u8> },
    /// The rows of a workbook's first sheet.
    Rows(Vec<Vec<Cell>>),
}

/// The kinds of input.
#[derive(Clone, Copy, PartialEq, Eq, Structural, Debug)]
pub enum InputKind {
    Bytes,
    Text,
    Pixels,
    Rows,
}

impl Input {
    /// The kind of this input.
    pub open spec fn kind_of(&self) -> InputKind {
        match self {
            Input::Bytes(_) => InputKind::Bytes,
            Input::Text(_) => InputKind::Text,
            Input::Pixels { .. } => InputKind::Pixels,
            Input::Rows(_) => InputKind::Rows,
        }
    }

    /// Pixels hold four bytes for each pixel.
    pub open spec fn wf(&self) -> bool {
        match self {
            Input::Pixels { width, height, rgba } => rgba@.len() == 4 * (*width as int) * (
            *height as int),
            _ => true,
        }
    }

    /// The kind of this input.
    pub fn kind(&self) -> (k: InputKind)
        ensures
            k == self.kind_of(),
    {
        match self {
            Input::Bytes(_) => InputKind::Bytes,
            Input::Text(_) => InputKind::Text,
            Input::Pixels { .. } => InputKind::Pixels,
            Input::Rows(_) => InputKind::Rows,
        }
    }
}

/// What a converter reads: SVG files are rasterised, workbooks read sheet
/// by sheet, text formats read as text, and everything else as bytes.
pub open spec fn needs(route: Route) -> InputKind {
    match route {
        Route::SvgToRaster(_) | Route::SvgToPdf => InputKind::Pixels,
        Route::XlsxToCsv => InputKind::Rows,
        Route::MarkdownToHtml | Route::MarkdownToTxt | Route::HtmlToMarkdown | Route::HtmlToTxt
        | Route::TxtToMarkdown | Route::TxtToHtml => InputKind::Text,
        _ => InputKind::Bytes,
    }
}

/// What the converter reads.
pub fn input_kind(conv: &Converter) -> (k: InputKind)
    ensures
        k == needs(conv@),
{
    match conv {
        Converter::SvgToRaster(_) | Converter::SvgToPdf => InputKind::Pixels,
        Converter::XlsxToCsv => InputKind::Rows,
        Converter::MarkdownToHtml | Converter::MarkdownToTxt | Converter::HtmlToMarkdown
        | Converter::HtmlToTxt | Converter::TxtToMarkdown | Converter::TxtToHtml => InputKind::Text,
        _ => InputKind::Bytes,
    }
}

/// The UTF-8 bytes of a text.
pub open spec fn utf8(s: Seq<char>) -> Seq<u8> {
    vstd::utf8::encode_utf8(s)
}

/// `r` is what running the converter `route` on `input`, read from the file
/// at `path`, for the output file at `output`, produces: each converter's own answer, with text written as
/// UTF-8.
pub open spec fn ran(
    route: Route,
    input: Input,
    path: Seq<char>,
    output: Seq<char>,
    r: Result<Vec<u8>, ConvertError>,
) -> bool {
    match (route, input) {
        (Route::HeicToRaster(_), _) => r matches Err(ConvertError::HeicUnavailable),
        (Route::HeicToPdf, _) => r matches Err(ConvertError::HeicUnavailable),
        (Route::RasterToRaster(t), Input::Bytes(b)) => raster_converted(b@, path, output, t, r),
        (Route::RasterToPdf, Input::Bytes(b)) => image_pdf_converted(b@, path, r),
        (Route::SvgToRaster(t), Input::Pixels { width, height, rgba }) => written_as(
            t,
            output,
            width,
            height,
            rgba@,
            r,
        ),
        (Route::SvgToPdf, Input::Pixels { width, height, rgba }) => r matches Ok(v) && v@
            == pdf_document(width, height, flat_of(rgba@, width * height)),
        (Route::DngToRaster(t), Input::Bytes(b)) => dng_raster_converted(b@, output, t, r),
        (Route::DngToPdf, Input::Bytes(b)) => dng_pdf_converted(b@, r),
        (Route::MarkdownToHtml, Input::Text(s)) => r matches Ok(v) && v@ == utf8(
            markdown_page(document_title(path), commonmark_html(s@)),
        ),
        (Route::MarkdownToTxt, Input::Text(s)) => r matches Ok(v) && v@ == utf8(markdown_text(s@)),
        (Route::HtmlToMarkdown, Input::Text(s)) => r matches Ok(v) && v@ == utf8(
            html_markdown(s@),
        ),
        (Route::HtmlToTxt, Input::Text(s)) => r matches Ok(v) && v@ == utf8(stripped(s@)),
        (Route::TxtToMarkdown, Input::Text(s)) => r matches Ok(v) && v@ == utf8(s@),
        (Route::TxtToHtml, Input::Text(s)) => r matches Ok(v) && v@ == utf8(txt_html(s@)),
        (Route::XlsxToCsv, Input::Rows(rows)) => r matches Ok(v) && v@ == utf8(csv_text(rows@)),
        _ => false,
    }
}

fn text_bytes(s: String) -> (v: Vec<u8>)
    ensures
        v@ == utf8(s@),
{
    vstd::slice::slice_to_vec(s.as_str().as_bytes())
}

/// Run the converter on its input, read from the file at `path`, and give
/// the bytes of the output file at `output`.
pub fn run(conv: &Converter, input: Input, path: &str, output: &str) -> (r: Result<
    Vec<u8>,
    ConvertError,
>)
    requires
        input.kind_of() == needs(conv@),
        input.wf(),
    ensures
        ran(conv@, input, path@, output@, r),
{
    match conv {
        Converter::HeicToRaster(t) => {
            let empty: Vec<u8> = Vec::new();
            heic_to_raster(empty.as_slice(), t.as_str())
        },
        Converter::HeicToPdf => {
            let empty: Vec<u8> = Vec::new();
            heic_to_pdf(empty.as_slice())
        },
        Converter::RasterToRaster(t) => match input {
            Input::Bytes(b) => raster_to_raster(b.as_slice(), path, output, t.as_str()),
            _ => vstd::pervasive::unreached(),
        },
        Converter::RasterToPdf => match input {
            Input::Bytes(b) => image_to_pdf(b.as_slice(), path),
            _ => vstd::pervasive::unreached(),
        },
        Converter::SvgToRaster(t) => match input {
            Input::Pixels { width, height, rgba } => svg_to_raster(
                width,
                height,
                rgba,
                output,
                t.as_str(),
            ),
            _ => vstd::pervasive::unreached(),
        },
        Converter::SvgToPdf => match input {
            Input::Pixels { width, height, rgba } => svg_to_pdf(width, height, rgba),
            _ => vstd::pervasive::unreached(),
        },
        Converter::DngToRaster(t) => match input {
            Input::Bytes(b) => dng_to_raster(b.as_slice(), output, t.as_str()),
            _ => vstd::pervasive::unreached(),
        },
        Converter::DngToPdf => match input {
            Input::Bytes(b) => dng_to_pdf(b.as_slice()),
            _ => vstd::pervasive::unreached(),
        },
        Converter::MarkdownToHtml => match input {
            Input::Text(s) => Ok(text_bytes(markdown_to_html(s.as_str(), path))),
            _ => vstd::pervasive::unreached(),
        },
        Converter::MarkdownToTxt => match input {
            Input::Text(s) => Ok(text_bytes(markdown_to_txt(s.as_str()))),
            _ => vstd::pervasive::unreached(),
        },
        Converter::HtmlToMarkdown => match input {
            Input::Text(s) => Ok(text_bytes(html_to_markdown(s.as_str()))),
            _ => vstd::pervasive::unreached(),
        },
        Converter::HtmlToTxt => match input {
            Input::Text(s) => Ok(text_bytes(html_to_txt(s.as_str()))),
            _ => vstd::pervasive::unreached(),
        },
        Converter::TxtToMarkdown => match input {
            Input::Text(s) => Ok(text_bytes(txt_to_markdown(s.as_str()))),
            _ => vstd::pervasive::unreached(),
        },
        Converter::TxtToHtml => match input {
            Input::Text(s) => Ok(text_bytes(txt_to_html(s.as_str()))),
            _ => vstd::pervasive::unreached(),
        },
        Converter::XlsxToCsv => match input {
            Input::Rows(rows) => Ok(text_bytes(xlsx_to_csv(&rows))),
            _ => vstd::pervasive::unreached(),
        },
    }
}

/// The raster format a converter writes, if it writes one.
pub open spec fn raster_target(route: Route) -> Option<Seq<char>> {
    match route {
        Route::RasterToRaster(t) => Some(t),
        Route::SvgToRaster(t) => Some(t),
        Route::DngToRaster(t) => Some(t),
        _ => None,
    }
}

/// Whatever bytes a conversion to a raster format hands back are in that
/// format: they open with the signature of the format its target names. A
/// DNG's preview, written through for a JPEG target, is a JPEG too.
pub proof fn law_raster_output_is_in_target_format(
    route: Route,
    input: Input,
    path: Seq<char>,
    output: Seq<char>,
    r: Result<Vec<u8>, ConvertError>,
)
    requires
        ran(route, input, path, output, r),
        r is Ok,
        raster_target(route) is Some,
    ensures
        format_of(raster_target(route)->Some_0) is Some,
        has_signature(format_of(raster_target(route)->Some_0)->Some_0, r->Ok_0@),
{
    match (route, input) {
        (Route::DngToRaster(t), Input::Bytes(b)) => {
            if preview_of(b@) is Ok && is_jpeg_target(t) {
                law_preview_is_jpeg_slice_of_file(b@);
            }
        },
        _ => {},
    }
}

} // verus!
