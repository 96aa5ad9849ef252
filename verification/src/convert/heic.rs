//! HEIC / HEIF / AVIF decoding.
//!
//! Decoding these needs the system `libheif`, which this build does not link.
//! The converters still exist so that the front end can list HEIC files, and
//! they answer with a clear "not available in this build" error instead of a
//! silent failure.
use vstd::prelude::*;

use crate::error::ConvertError;

verus! {

/// Decode a HEIC / HEIF / AVIF file and save it as a raster format.
pub fn heic_to_raster(input: &[u8], target_ext: &str) -> (r: Result<Vec<u8>, ConvertError>)
    ensures
        r matches Err(ConvertError::HeicUnavailable),
{
    Err(ConvertError::HeicUnavailable)
}

/// Decode a HEIC / HEIF / AVIF file, then embed it in a PDF.
pub fn heic_to_pdf(input: &[u8]) -> (r: Result<Vec<u8>, ConvertError>)
    ensures
        r matches Err(ConvertError::HeicUnavailable),
{
    Err(ConvertError::HeicUnavailable)
}

/// The first `height` rows of `row_bytes` bytes each, taken from a buffer
/// whose rows start `stride` bytes apart, packed one after another.
pub open spec fn packed_rows(data: Seq<u8>, stride: int, row_bytes: int, height: nat) -> Seq<u8>
    decreases height,
{
    if height == 0 {
        Seq::empty()
    } else {
        let y = height - 1;
        packed_rows(data, stride, row_bytes, y as nat) + data.subrange(
            y * stride,
            y * stride + row_bytes,
        )
    }
}

/// Decoders may pad each row of pixels to a stride larger than the row
/// itself; the `image` crate wants rows packed tight. Copy the rows of a
/// `width * height` RGBA image out of a buffer with the given stride.
pub fn pack_rows(data: &[u8], stride: usize, width: u32, height: u32) -> (r: Vec<u8>)
    requires
        height > 0 ==> (height - 1) * stride + 4 * width <= data@.len(),
    ensures
        r@ == packed_rows(data@, stride as int, 4 * width, height as nat),
{
    let mut out: Vec<u8> = Vec::new();
    if height == 0 {
        return out;
    }
    assert(0 <= ((height - 1) as int) * (stride as int)) by (nonlinear_arith)
        requires
            height > 0,
    ;
    let n = data.len();
    let row_bytes = 4 * width as usize;
    let mut y: usize = 0;
    while y < height as usize
        invariant
            y <= height,
            row_bytes == 4 * width,
            height > 0,
            0 <= ((height - 1) as int) * (stride as int),
            n == data@.len(),
            (height - 1) * stride + 4 * width <= data@.len(),
            out@ == packed_rows(data@, stride as int, row_bytes as int, y as nat),
        decreases height - y,
    {
        assert((y as int) * (stride as int) <= ((height - 1) as int) * (stride as int)) by (
        nonlinear_arith)
            requires
                y <= height - 1,
        ;
        assert((y as int) * (stride as int) + row_bytes <= data@.len());
        let start = y * stride;
        let mut k: usize = 0;
        let ghost before = out@;
        while k < row_bytes
            invariant
                k <= row_bytes,
                n == data@.len(),
                start + row_bytes <= data@.len(),
                out@ == before + data@.subrange(start as int, start + k),
            decreases row_bytes - k,
        {
            out.push(data[start + k]);
            k = k + 1;
            assert(data@.subrange(start as int, start + k) == data@.subrange(
                start as int,
                start + k - 1,
            ).push(data@[start + k - 1]));
        }
        y = y + 1;
    }
    out
}

} // verus!
