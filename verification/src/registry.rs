//! Central dispatch: given (source extension, target extension), pick the
//! converter.
use vstd::prelude::*;

use crate::error::ConvertError;
use crate::util::{
    all_ascii,
    ascii_lower,
    is,
    lemma_extension_literals,
    lowercase_of,
    to_lowercase,
};

verus! {

broadcast use vstd::string::group_string_axioms;

/// The converter that handles a conversion; raster targets carry their
/// (normalised) extension.
#[derive(Debug)]
pub enum Converter {
    HeicToRaster(String),
    HeicToPdf,
    RasterToRaster(String),
    RasterToPdf,
    SvgToRaster(String),
    SvgToPdf,
    DngToRaster(String),
    DngToPdf,
    MarkdownToHtml,
    MarkdownToTxt,
    HtmlToMarkdown,
    HtmlToTxt,
    TxtToMarkdown,
    TxtToHtml,
    XlsxToCsv,
}

/// A converter, its target extension taken by its characters.
pub enum Route {
    HeicToRaster(Seq<char>),
    HeicToPdf,
    RasterToRaster(Seq<char>),
    RasterToPdf,
    SvgToRaster(Seq<char>),
    SvgToPdf,
    DngToRaster(Seq<char>),
    DngToPdf,
    MarkdownToHtml,
    MarkdownToTxt,
    HtmlToMarkdown,
    HtmlToTxt,
    TxtToMarkdown,
    TxtToHtml,
    XlsxToCsv,
}

impl View for Converter {
    type V = Route;

    open spec fn view(&self) -> Route {
        match self {
            Converter::HeicToRaster(t) => Route::HeicToRaster(t@),
            Converter::HeicToPdf => Route::HeicToPdf,
            Converter::RasterToRaster(t) => Route::RasterToRaster(t@),
            Converter::RasterToPdf => Route::RasterToPdf,
            Converter::SvgToRaster(t) => Route::SvgToRaster(t@),
            Converter::SvgToPdf => Route::SvgToPdf,
            Converter::DngToRaster(t) => Route::DngToRaster(t@),
            Converter::DngToPdf => Route::DngToPdf,
            Converter::MarkdownToHtml => Route::MarkdownToHtml,
            Converter::MarkdownToTxt => Route::MarkdownToTxt,
            Converter::HtmlToMarkdown => Route::HtmlToMarkdown,
            Converter::HtmlToTxt => Route::HtmlToTxt,
            Converter::TxtToMarkdown => Route::TxtToMarkdown,
            Converter::TxtToHtml => Route::TxtToHtml,
            Converter::XlsxToCsv => Route::XlsxToCsv,
        }
    }
}

/// Aliases folded onto one name, so that `jpeg` converts as `jpg`, `tif` as
/// `tiff`, `htm` as `html` and `markdown` as `md`.
pub open spec fn normalised(ext: Seq<char>) -> Seq<char> {
    if ext == seq!['j', 'p', 'e', 'g'] {
        seq!['j', 'p', 'g']
    } else if ext == seq!['t', 'i', 'f'] {
        seq!['t', 'i', 'f', 'f']
    } else if ext == seq!['h', 't', 'm'] {
        seq!['h', 't', 'm', 'l']
    } else if ext == seq!['m', 'a', 'r', 'k', 'd', 'o', 'w', 'n'] {
        seq!['m', 'd']
    } else {
        ext
    }
}

/// The raster formats that convert among one another.
pub open spec fn raster(ext: Seq<char>) -> bool {
    ||| ext == seq!['p', 'n', 'g']
    ||| ext == seq!['j', 'p', 'g']
    ||| ext == seq!['w', 'e', 'b', 'p']
    ||| ext == seq!['g', 'i', 'f']
    ||| ext == seq!['b', 'm', 'p']
    ||| ext == seq!['t', 'i', 'f', 'f']
    ||| ext == seq!['i', 'c', 'o']
}

/// The HEIF container formats.
pub open spec fn heif(ext: Seq<char>) -> bool {
    ext == seq!['h', 'e', 'i', 'c'] || ext == seq!['h', 'e', 'i', 'f'] || ext == seq!['a', 'v', 'i', 'f']
}

/// The converter for a pair of normalised extensions, if there is one. The
/// first rule that applies wins.
pub open spec fn route(s: Seq<char>, t: Seq<char>) -> Option<Route> {
    if heif(s) && raster(t) {
        Some(Route::HeicToRaster(t))
    } else if heif(s) && t == seq!['p', 'd', 'f'] {
        Some(Route::HeicToPdf)
    } else if raster(s) && raster(t) && s != t {
        Some(Route::RasterToRaster(t))
    } else if raster(s) && t == seq!['p', 'd', 'f'] {
        Some(Route::RasterToPdf)
    } else if s == seq!['s', 'v', 'g'] && raster(t) {
        Some(Route::SvgToRaster(t))
    } else if s == seq!['s', 'v', 'g'] && t == seq!['p', 'd', 'f'] {
        Some(Route::SvgToPdf)
    } else if s == seq!['d', 'n', 'g'] && raster(t) {
        Some(Route::DngToRaster(t))
    } else if s == seq!['d', 'n', 'g'] && t == seq!['p', 'd', 'f'] {
        Some(Route::DngToPdf)
    } else if s == seq!['m', 'd'] && t == seq!['h', 't', 'm', 'l'] {
        Some(Route::MarkdownToHtml)
    } else if s == seq!['m', 'd'] && t == seq!['t', 'x', 't'] {
        Some(Route::MarkdownToTxt)
    } else if s == seq!['h', 't', 'm', 'l'] && t == seq!['m', 'd'] {
        Some(Route::HtmlToMarkdown)
    } else if s == seq!['h', 't', 'm', 'l'] && t == seq!['t', 'x', 't'] {
        Some(Route::HtmlToTxt)
    } else if s == seq!['t', 'x', 't'] && t == seq!['m', 'd'] {
        Some(Route::TxtToMarkdown)
    } else if s == seq!['t', 'x', 't'] && t == seq!['h', 't', 'm', 'l'] {
        Some(Route::TxtToHtml)
    } else if s == seq!['x', 'l', 's', 'x'] && t == seq!['c', 's', 'v'] {
        Some(Route::XlsxToCsv)
    } else {
        None
    }
}

/// What `dispatch` answers for two lowercase extensions.
pub open spec fn dispatched(src: Seq<char>, tgt: Seq<char>, r: Result<Converter, ConvertError>) -> bool {
    match route(normalised(src), normalised(tgt)) {
        Some(rt) => r matches Ok(c) && c@ == rt,
        None => r matches Err(ConvertError::NoConverter { src: s, tgt: t }) && s@ == normalised(
            src,
        ) && t@ == normalised(tgt),
    }
}

fn normalise_ext(ext: &String) -> (r: String)
    ensures
        r@ == normalised(ext@),
{
    proof {
        lemma_extension_literals();
    }
    if is(ext, "jpeg") {
        String::from_str("jpg")
    } else if is(ext, "tif") {
        String::from_str("tiff")
    } else if is(ext, "htm") {
        String::from_str("html")
    } else if is(ext, "markdown") {
        String::from_str("md")
    } else {
        ext.clone()
    }
}

fn is_raster(ext: &String) -> (r: bool)
    ensures
        r == raster(ext@),
{
    proof {
        lemma_extension_literals();
    }
    is(ext, "png") || is(ext, "jpg") || is(ext, "webp") || is(ext, "gif") || is(ext, "bmp") || is(
        ext,
        "tiff",
    ) || is(ext, "ico")
}

fn is_heic(ext: &String) -> (r: bool)
    ensures
        r == heif(ext@),
{
    proof {
        lemma_extension_literals();
    }
    is(ext, "heic") || is(ext, "heif") || is(ext, "avif")
}

/// Pick the converter for two extensions that are already lowercase.
pub fn dispatch(src: &str, tgt: &str) -> (r: Result<Converter, ConvertError>)
    ensures
        dispatched(src@, tgt@, r),
{
    proof {
        lemma_extension_literals();
    }
    let s = normalise_ext(&String::from_str(src));
    let t = normalise_ext(&String::from_str(tgt));
    if is_heic(&s) && is_raster(&t) {
        Ok(Converter::HeicToRaster(t))
    } else if is_heic(&s) && is(&t, "pdf") {
        Ok(Converter::HeicToPdf)
    } else if is_raster(&s) && is_raster(&t) && !s.eq(&t) {
        Ok(Converter::RasterToRaster(t))
    } else if is_raster(&s) && is(&t, "pdf") {
        Ok(Converter::RasterToPdf)
    } else if is(&s, "svg") && is_raster(&t) {
        Ok(Converter::SvgToRaster(t))
    } else if is(&s, "svg") && is(&t, "pdf") {
        Ok(Converter::SvgToPdf)
    } else if is(&s, "dng") && is_raster(&t) {
        Ok(Converter::DngToRaster(t))
    } else if is(&s, "dng") && is(&t, "pdf") {
        Ok(Converter::DngToPdf)
    } else if is(&s, "md") && is(&t, "html") {
        Ok(Converter::MarkdownToHtml)
    } else if is(&s, "md") && is(&t, "txt") {
        Ok(Converter::MarkdownToTxt)
    } else if is(&s, "html") && is(&t, "md") {
        Ok(Converter::HtmlToMarkdown)
    } else if is(&s, "html") && is(&t, "txt") {
        Ok(Converter::HtmlToTxt)
    } else if is(&s, "txt") && is(&t, "md") {
        Ok(Converter::TxtToMarkdown)
    } else if is(&s, "txt") && is(&t, "html") {
        Ok(Converter::TxtToHtml)
    } else if is(&s, "xlsx") && is(&t, "csv") {
        Ok(Converter::XlsxToCsv)
    } else {
        Err(ConvertError::NoConverter { src: s, tgt: t })
    }
}

/// Pick the converter for a source and a target extension, in any case.
pub fn convert(src: &str, tgt: &str) -> (r: Result<Converter, ConvertError>)
    ensures
        dispatched(lowercase_of(src@), lowercase_of(tgt@), r),
        all_ascii(src@) && all_ascii(tgt@) ==> dispatched(ascii_lower(src@), ascii_lower(tgt@), r),
{
    let s = to_lowercase(src);
    let t = to_lowercase(tgt);
    dispatch(s.as_str(), t.as_str())
}

/// Every documented conversion has a converter: raster
/// images among the raster formats, SVG to raster formats, markdown, HTML
/// and text among one another, and XLSX to CSV.
pub proof fn law_documented_conversions_are_routed(s: Seq<char>, t: Seq<char>)
    requires
        ({
            ||| raster(s) && raster(t) && s != t
            ||| s == seq!['s', 'v', 'g'] && raster(t)
            ||| s == seq!['m', 'd'] && (t == seq!['h', 't', 'm', 'l'] || t == seq!['t', 'x', 't'])
            ||| s == seq!['h', 't', 'm', 'l'] && (t == seq!['m', 'd'] || t == seq!['t', 'x', 't'])
            ||| s == seq!['t', 'x', 't'] && (t == seq!['m', 'd'] || t == seq!['h', 't', 'm', 'l'])
            ||| s == seq!['x', 'l', 's', 'x'] && t == seq!['c', 's', 'v']
        }),
    ensures
        route(s, t) is Some,
{
}

/// `r` names the converter `rt`.
pub open spec fn routes_to(r: Result<Converter, ConvertError>, rt: Route) -> bool {
    r matches Ok(c) && c@ == rt
}

/// Each documented pair of extensions, aliases folded, goes to its own
/// converter: text to text by the converter for exactly that pair, images by
/// the converter for their kinds, which carries the target's extension.
pub proof fn law_each_pair_has_its_own_converter(
    s: Seq<char>,
    t: Seq<char>,
    r: Result<Converter, ConvertError>,
)
    requires
        dispatched(s, t, r),
    ensures
        ({
            let a = normalised(s);
            let b = normalised(t);
            let md = seq!['m', 'd'];
            let html = seq!['h', 't', 'm', 'l'];
            let txt = seq!['t', 'x', 't'];
            let pdf = seq!['p', 'd', 'f'];
            &&& a == md && b == html ==> routes_to(r, Route::MarkdownToHtml)
            &&& a == md && b == txt ==> routes_to(r, Route::MarkdownToTxt)
            &&& a == html && b == md ==> routes_to(r, Route::HtmlToMarkdown)
            &&& a == html && b == txt ==> routes_to(r, Route::HtmlToTxt)
            &&& a == txt && b == md ==> routes_to(r, Route::TxtToMarkdown)
            &&& a == txt && b == html ==> routes_to(r, Route::TxtToHtml)
            &&& a == seq!['x', 'l', 's', 'x'] && b == seq!['c', 's', 'v'] ==> routes_to(r, Route::XlsxToCsv)
            &&& raster(a) && raster(b) && a != b ==> routes_to(r, Route::RasterToRaster(b))
            &&& raster(a) && b == pdf ==> routes_to(r, Route::RasterToPdf)
            &&& a == seq!['s', 'v', 'g'] && raster(b) ==> routes_to(r, Route::SvgToRaster(b))
            &&& a == seq!['s', 'v', 'g'] && b == pdf ==> routes_to(r, Route::SvgToPdf)
            &&& a == seq!['d', 'n', 'g'] && raster(b) ==> routes_to(r, Route::DngToRaster(b))
            &&& a == seq!['d', 'n', 'g'] && b == pdf ==> routes_to(r, Route::DngToPdf)
            &&& heif(a) && raster(b) ==> routes_to(r, Route::HeicToRaster(b))
            &&& heif(a) && b == pdf ==> routes_to(r, Route::HeicToPdf)
        }),
{
}

/// A raster image is never converted to its own format.
pub proof fn law_same_raster_format_is_refused(s: Seq<char>)
    requires
        raster(s),
    ensures
        route(s, s) is None,
{
}

/// An alias is handled exactly as the name it stands for.
pub proof fn law_aliases_route_alike(t: Seq<char>)
    ensures
        route(normalised(seq!['j', 'p', 'e', 'g']), normalised(t)) == route(normalised(seq!['j', 'p', 'g']), normalised(t)),
        route(normalised(seq!['t', 'i', 'f']), normalised(t)) == route(normalised(seq!['t', 'i', 'f', 'f']), normalised(t)),
        route(normalised(seq!['h', 't', 'm']), normalised(t)) == route(normalised(seq!['h', 't', 'm', 'l']), normalised(t)),
        route(normalised(seq!['m', 'a', 'r', 'k', 'd', 'o', 'w', 'n']), normalised(t)) == route(normalised(seq!['m', 'd']), normalised(t)),
        route(normalised(t), normalised(seq!['j', 'p', 'e', 'g'])) == route(normalised(t), normalised(seq!['j', 'p', 'g'])),
        route(normalised(t), normalised(seq!['t', 'i', 'f'])) == route(normalised(t), normalised(seq!['t', 'i', 'f', 'f'])),
        route(normalised(t), normalised(seq!['h', 't', 'm'])) == route(normalised(t), normalised(seq!['h', 't', 'm', 'l'])),
        route(normalised(t), normalised(seq!['m', 'a', 'r', 'k', 'd', 'o', 'w', 'n'])) == route(normalised(t), normalised(seq!['m', 'd'])),
{
}

/// Normalising an extension twice gives what normalising it once gives:
/// an alias is folded onto a name that is no alias itself.
pub proof fn law_normalising_is_idempotent(ext: Seq<char>)
    ensures
        normalised(normalised(ext)) == normalised(ext),
{
}

proof fn lemma_ascii_lower_idempotent(s: Seq<char>)
    ensures
        ascii_lower(ascii_lower(s)) == ascii_lower(s),
{
    assert(ascii_lower(ascii_lower(s)) =~= ascii_lower(s));
}

proof fn lemma_normalised_is_lowercase(s: Seq<char>)
    ensures
        ascii_lower(normalised(ascii_lower(s))) == normalised(ascii_lower(s)),
{
    let l = ascii_lower(s);
    lemma_ascii_lower_idempotent(s);
    if l == seq!['j', 'p', 'e', 'g'] {
        assert(ascii_lower(seq!['j', 'p', 'g']) =~= seq!['j', 'p', 'g']);
    } else if l == seq!['t', 'i', 'f'] {
        assert(ascii_lower(seq!['t', 'i', 'f', 'f']) =~= seq!['t', 'i', 'f', 'f']);
    } else if l == seq!['h', 't', 'm'] {
        assert(ascii_lower(seq!['h', 't', 'm', 'l']) =~= seq!['h', 't', 'm', 'l']);
    } else if l == seq!['m', 'a', 'r', 'k', 'd', 'o', 'w', 'n'] {
        assert(ascii_lower(seq!['m', 'd']) =~= seq!['m', 'd']);
    }
}

/// Letter case and the aliases never change what a conversion does: for
/// ASCII extensions, converting `s` to `t` is dispatched exactly as
/// converting their lowercased, alias-folded forms, and two extensions that
/// differ only in letter case are dispatched alike.
pub proof fn law_case_and_aliases_never_change_the_route(
    s: Seq<char>,
    t: Seq<char>,
    s2: Seq<char>,
    t2: Seq<char>,
    r: Result<Converter, ConvertError>,
)
    requires
        all_ascii(s),
        all_ascii(t),
        ascii_lower(s2) == ascii_lower(s),
        ascii_lower(t2) == ascii_lower(t),
    ensures
        dispatched(ascii_lower(s), ascii_lower(t), r) == dispatched(
            ascii_lower(normalised(ascii_lower(s))),
            ascii_lower(normalised(ascii_lower(t))),
            r,
        ),
        dispatched(ascii_lower(s), ascii_lower(t), r) == dispatched(ascii_lower(s2), ascii_lower(t2), r),
{
    lemma_normalised_is_lowercase(s);
    lemma_normalised_is_lowercase(t);
    law_normalising_is_idempotent(ascii_lower(s));
    law_normalising_is_idempotent(ascii_lower(t));
}

} // verus!
