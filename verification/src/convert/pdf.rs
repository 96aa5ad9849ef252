//! PDF output: an image on a single page of its own size at 300 DPI.
//!
//! The document is written by hand: a catalog, one page, the image as an
//! uncompressed 8-bit RGB XObject, a content stream that paints it over the
//! whole page, and the cross-reference table.
use vstd::prelude::*;

use crate::convert::images::{decode_image_file, file_decoded, flat_of, flatten_on_white, Pixels};
use crate::error::ConvertError;
use vstd::string::StringSliceAdditionalSpecFns;

verus! {

broadcast use vstd::string::group_string_axioms;

/// The decimal digits of `n`, as ASCII bytes.
pub open spec fn dec(n: nat) -> Seq<u8>
    decreases n,
{
    if n < 10 {
        seq![(48 + n) as u8]
    } else {
        dec(n / 10) + seq![(48 + n % 10) as u8]
    }
}

/// The last `k` decimal digits of `n`, zero-padded, as ASCII bytes.
pub open spec fn padded(n: nat, k: nat) -> Seq<u8>
    decreases k,
{
    if k == 0 {
        Seq::empty()
    } else {
        padded(n / 10, (k - 1) as nat) + seq![(48 + n % 10) as u8]
    }
}

/// A length of `px` pixels at 300 DPI in PDF points (1/72 inch), that is
/// `px * 0.24`, written with two decimals.
pub open spec fn points(px: nat) -> Seq<u8> {
    dec(px * 24 / 100) + seq![46u8] + padded(px * 24 % 100, 2)
}

/// The page's content stream: scale the unit square to the page and paint
/// the image into it.
pub open spec fn pdf_content(width: u32, height: u32) -> Seq<u8> {
    "q ".spec_bytes() + points(width as nat) + " 0 0 ".spec_bytes() + points(height as nat)
        + " 0 0 cm /Im0 Do Q".spec_bytes()
}

/// Object 1, the document catalog.
pub open spec fn pdf_catalog() -> Seq<u8> {
    "1 0 obj\n<< /Type /Catalog /Pages 2 0 R >>\nendobj\n".spec_bytes()
}

/// Object 2, the page tree with its one page.
pub open spec fn pdf_pages() -> Seq<u8> {
    "2 0 obj\n<< /Type /Pages /Kids [3 0 R] /Count 1 >>\nendobj\n".spec_bytes()
}

/// Object 3, the page, as large as the image.
pub open spec fn pdf_page(width: u32, height: u32) -> Seq<u8> {
    "3 0 obj\n<< /Type /Page /Parent 2 0 R /MediaBox [0 0 ".spec_bytes() + points(width as nat)
        + " ".spec_bytes() + points(height as nat)
        + "] /Resources << /XObject << /Im0 4 0 R >> >> /Contents 5 0 R >>\nendobj\n".spec_bytes()
}

/// Object 4, the image: `rgb` as an uncompressed 8-bit RGB stream.
pub open spec fn pdf_image(width: u32, height: u32, rgb: Seq<u8>) -> Seq<u8> {
    "4 0 obj\n<< /Type /XObject /Subtype /Image /Width ".spec_bytes() + dec(width as nat)
        + " /Height ".spec_bytes() + dec(height as nat)
        + " /ColorSpace /DeviceRGB /BitsPerComponent 8 /Length ".spec_bytes() + dec(rgb.len())
        + " >>\nstream\n".spec_bytes() + rgb + "\nendstream\nendobj\n".spec_bytes()
}

/// Object 5, the content stream.
pub open spec fn pdf_contents(content: Seq<u8>) -> Seq<u8> {
    "5 0 obj\n<< /Length ".spec_bytes() + dec(content.len()) + " >>\nstream\n".spec_bytes()
        + content + "\nendstream\nendobj\n".spec_bytes()
}

/// One in-use entry of the cross-reference table.
pub open spec fn xref_entry(offset: nat) -> Seq<u8> {
    padded(offset, 10) + " 00000 n \n".spec_bytes()
}

/// The cross-reference table for objects 1 to 5 at the given offsets.
pub open spec fn pdf_xref(o1: nat, o2: nat, o3: nat, o4: nat, o5: nat) -> Seq<u8> {
    "xref\n0 6\n0000000000 65535 f \n".spec_bytes() + xref_entry(o1) + xref_entry(o2) + xref_entry(
        o3,
    ) + xref_entry(o4) + xref_entry(o5)
}

/// The trailer, pointing at the catalog and at the table at `xref`.
pub open spec fn pdf_trailer(xref: nat) -> Seq<u8> {
    "trailer\n<< /Size 6 /Root 1 0 R >>\nstartxref\n".spec_bytes() + dec(xref)
        + "\n%%EOF\n".spec_bytes()
}

/// The PDF document that shows the RGB pixels `rgb` on one page.
pub open spec fn pdf_document(width: u32, height: u32, rgb: Seq<u8>) -> Seq<u8> {
    let b0 = "%PDF-1.4\n".spec_bytes();
    let b1 = b0 + pdf_catalog();
    let b2 = b1 + pdf_pages();
    let b3 = b2 + pdf_page(width, height);
    let b4 = b3 + pdf_image(width, height, rgb);
    let b5 = b4 + pdf_contents(pdf_content(width, height));
    b5 + pdf_xref(b0.len(), b1.len(), b2.len(), b3.len(), b4.len()) + pdf_trailer(b5.len())
}

fn push_bytes(out: &mut Vec<u8>, b: &[u8])
    ensures
        final(out)@ == old(out)@ + b@,
{
    let mut i: usize = 0;
    while i < b.len()
        invariant
            i <= b@.len(),
            out@ == old(out)@ + b@.take(i as int),
        decreases b@.len() - i,
    {
        out.push(b[i]);
        i = i + 1;
        assert(b@.take(i as int) == b@.take(i - 1).push(b@[i - 1]));
    }
    assert(b@.take(b@.len() as int) == b@);
}

fn push_str(out: &mut Vec<u8>, s: &str)
    ensures
        final(out)@ == old(out)@ + s.spec_bytes(),
{
    push_bytes(out, s.as_bytes());
}

fn push_dec(out: &mut Vec<u8>, n: u64)
    ensures
        final(out)@ == old(out)@ + dec(n as nat),
    decreases n,
{
    let ghost before = out@;
    if n >= 10 {
        push_dec(out, n / 10);
    }
    out.push((48 + n % 10) as u8);
    assert(out@ == before + dec(n as nat));
}

fn push_padded(out: &mut Vec<u8>, n: u64, k: u32)
    ensures
        final(out)@ == old(out)@ + padded(n as nat, k as nat),
    decreases k,
{
    if k > 0 {
        let ghost before = out@;
        push_padded(out, n / 10, k - 1);
        out.push((48 + n % 10) as u8);
        assert(out@ == before + padded(n as nat, k as nat));
    }
}

fn push_points(out: &mut Vec<u8>, px: u32)
    ensures
        final(out)@ == old(out)@ + points(px as nat),
{
    let ghost before = out@;
    let c = px as u64 * 24;
    push_dec(out, c / 100);
    out.push(46u8);
    push_padded(out, c % 100, 2);
    assert(out@ == before + points(px as nat));
}

fn push_content(out: &mut Vec<u8>, width: u32, height: u32)
    ensures
        final(out)@ == old(out)@ + pdf_content(width, height),
{
    let ghost before = out@;
    push_str(out, "q ");
    push_points(out, width);
    push_str(out, " 0 0 ");
    push_points(out, height);
    push_str(out, " 0 0 cm /Im0 Do Q");
    assert(out@ == before + pdf_content(width, height));
}

fn push_page(out: &mut Vec<u8>, width: u32, height: u32)
    ensures
        final(out)@ == old(out)@ + pdf_page(width, height),
{
    let ghost before = out@;
    push_str(out, "3 0 obj\n<< /Type /Page /Parent 2 0 R /MediaBox [0 0 ");
    push_points(out, width);
    push_str(out, " ");
    push_points(out, height);
    push_str(out, "] /Resources << /XObject << /Im0 4 0 R >> >> /Contents 5 0 R >>\nendobj\n");
    assert(out@ == before + pdf_page(width, height));
}

fn push_image(out: &mut Vec<u8>, width: u32, height: u32, rgb: &Vec<u8>)
    ensures
        final(out)@ == old(out)@ + pdf_image(width, height, rgb@),
{
    let ghost before = out@;
    push_str(out, "4 0 obj\n<< /Type /XObject /Subtype /Image /Width ");
    push_dec(out, width as u64);
    push_str(out, " /Height ");
    push_dec(out, height as u64);
    push_str(out, " /ColorSpace /DeviceRGB /BitsPerComponent 8 /Length ");
    push_dec(out, rgb.len() as u64);
    push_str(out, " >>\nstream\n");
    push_bytes(out, rgb.as_slice());
    push_str(out, "\nendstream\nendobj\n");
    assert(out@ == before + pdf_image(width, height, rgb@));
}

fn push_contents(out: &mut Vec<u8>, content: &Vec<u8>)
    ensures
        final(out)@ == old(out)@ + pdf_contents(content@),
{
    let ghost before = out@;
    push_str(out, "5 0 obj\n<< /Length ");
    push_dec(out, content.len() as u64);
    push_str(out, " >>\nstream\n");
    push_bytes(out, content.as_slice());
    push_str(out, "\nendstream\nendobj\n");
    assert(out@ == before + pdf_contents(content@));
}

fn push_xref_entry(out: &mut Vec<u8>, offset: usize)
    ensures
        final(out)@ == old(out)@ + xref_entry(offset as nat),
{
    let ghost before = out@;
    push_padded(out, offset as u64, 10);
    push_str(out, " 00000 n \n");
    assert(out@ == before + xref_entry(offset as nat));
}

fn push_xref(out: &mut Vec<u8>, o1: usize, o2: usize, o3: usize, o4: usize, o5: usize)
    ensures
        final(out)@ == old(out)@ + pdf_xref(o1 as nat, o2 as nat, o3 as nat, o4 as nat, o5 as nat),
{
    let ghost before = out@;
    push_str(out, "xref\n0 6\n0000000000 65535 f \n");
    push_xref_entry(out, o1);
    push_xref_entry(out, o2);
    push_xref_entry(out, o3);
    push_xref_entry(out, o4);
    push_xref_entry(out, o5);
    assert(out@ == before + pdf_xref(o1 as nat, o2 as nat, o3 as nat, o4 as nat, o5 as nat));
}

fn push_trailer(out: &mut Vec<u8>, xref: usize)
    ensures
        final(out)@ == old(out)@ + pdf_trailer(xref as nat),
{
    let ghost before = out@;
    push_str(out, "trailer\n<< /Size 6 /Root 1 0 R >>\nstartxref\n");
    push_dec(out, xref as u64);
    push_str(out, "\n%%EOF\n");
    assert(out@ == before + pdf_trailer(xref as nat));
}

/// The PDF document that shows the RGB pixels `rgb` on one page.
pub fn pdf_of_rgb(width: u32, height: u32, rgb: &Vec<u8>) -> (r: Vec<u8>)
    ensures
        r@ == pdf_document(width, height, rgb@),
{
    let mut content: Vec<u8> = Vec::new();
    push_content(&mut content, width, height);
    assert(content@ == pdf_content(width, height));
    let mut out: Vec<u8> = Vec::new();
    push_str(&mut out, "%PDF-1.4\n");
    let o1 = out.len();
    push_str(&mut out, "1 0 obj\n<< /Type /Catalog /Pages 2 0 R >>\nendobj\n");
    let o2 = out.len();
    push_str(&mut out, "2 0 obj\n<< /Type /Pages /Kids [3 0 R] /Count 1 >>\nendobj\n");
    let o3 = out.len();
    push_page(&mut out, width, height);
    let o4 = out.len();
    push_image(&mut out, width, height, rgb);
    let o5 = out.len();
    push_contents(&mut out, &content);
    let x = out.len();
    push_xref(&mut out, o1, o2, o3, o4, o5);
    push_trailer(&mut out, x);
    out
}

/// The PDF document that shows RGBA pixels, flattened onto white, on one
/// page.
pub fn pdf_of_rgba(width: u32, height: u32, rgba: &Vec<u8>) -> (r: Vec<u8>)
    requires
        rgba@.len() == 4 * width * height,
    ensures
        r@ == pdf_document(width, height, flat_of(rgba@, width * height)),
{
    assert(4 * (width as int) * (height as int) == 4 * ((width as int) * (height as int))) by (
    nonlinear_arith);
    let total = rgba.len();
    assert((width as int) * (height as int) <= total) by (nonlinear_arith)
        requires
            4 * ((width as int) * (height as int)) <= total,
    ;
    let pixels = width as usize * height as usize;
    let rgb = flatten_on_white(rgba, pixels);
    proof {
        crate::convert::images::lemma_flattened_is_flat_of(rgba@, pixels as int, rgb@);
    }
    pdf_of_rgb(width, height, &rgb)
}

/// A PDF document opens with the `%PDF-` header, ends with the `%%EOF`
/// marker and a newline, and holds every byte of the image.
#[verifier::spinoff_prover]
#[verifier::rlimit(40)]
pub proof fn law_pdf_is_framed(width: u32, height: u32, rgb: Seq<u8>)
    ensures
        pdf_document(width, height, rgb).len() >= rgb.len() + 11,
        pdf_document(width, height, rgb).subrange(0, 5) == seq![37u8, 80u8, 68u8, 70u8, 45u8],
        pdf_document(width, height, rgb).subrange(
            pdf_document(width, height, rgb).len() - 6,
            pdf_document(width, height, rgb).len() as int,
        ) == seq![37u8, 37u8, 69u8, 79u8, 70u8, 10u8],
{
    reveal_strlit("%PDF-1.4\n");
    reveal_strlit("\n%%EOF\n");
    let h = "%PDF-1.4\n".spec_bytes();
    let e = "\n%%EOF\n".spec_bytes();
    assert(vstd::string::is_ascii("%PDF-1.4\n"));
    assert(vstd::string::is_ascii("\n%%EOF\n"));
    assert(h =~= seq![37u8, 80u8, 68u8, 70u8, 45u8, 49u8, 46u8, 52u8, 10u8]);
    assert(e =~= seq![10u8, 37u8, 37u8, 69u8, 79u8, 70u8, 10u8]);
    let d = pdf_document(width, height, rgb);
    assert(d.subrange(0, 5) =~= h.subrange(0, 5));
    assert(d.subrange(d.len() - 6, d.len() as int) =~= e.subrange(1, 7));
}

/// The PDF document that shows RGBA pixels, flattened onto white.
pub open spec fn rgba_pdf(p: Pixels) -> Seq<u8> {
    pdf_document(p.width, p.height, flat_of(p.data, p.width * p.height))
}

/// `r` is what converting the image file at `path`, holding `input`, to PDF
/// answers: a file that does not decode is refused for its path; otherwise
/// the document shows its pixels.
pub open spec fn image_pdf_converted(
    input: Seq<u8>,
    path: Seq<char>,
    r: Result<Vec<u8>, ConvertError>,
) -> bool {
    match file_decoded(input, path) {
        None => r matches Err(ConvertError::ImageDecode { path: q, .. }) && q@ == path,
        Some(p) => r matches Ok(v) && v@ == rgba_pdf(p),
    }
}

/// Raster image to PDF: the image file at `input_path`, holding `input`,
/// decoded as the format its extension names, flattened onto white, on a page
/// of its own size at 300 DPI.
pub fn image_to_pdf(input: &[u8], input_path: &str) -> (r: Result<Vec<u8>, ConvertError>)
    ensures
        image_pdf_converted(input@, input_path@, r),
{
    match decode_image_file(input, input_path) {
        Ok(img) => Ok(pdf_of_rgba(img.width, img.height, &img.data)),
        Err(e) => Err(e),
    }
}

/// SVG to PDF: the rasterised SVG, given as `width * height` RGBA pixels,
/// flattened onto white, on a page of its own size at 300 DPI.
pub fn svg_to_pdf(width: u32, height: u32, rgba: Vec<u8>) -> (r: Result<Vec<u8>, ConvertError>)
    requires
        rgba@.len() == 4 * (width as int) * (height as int),
    ensures
        r matches Ok(v) && v@ == pdf_document(width, height, flat_of(rgba@, width * height)),
{
    Ok(pdf_of_rgba(width, height, &rgba))
}

} // verus!
