//! Why a conversion failed.
use vstd::prelude::*;

use crate::convert::dng::DngError;

verus! {

broadcast use vstd::string::group_string_axioms;

/// Why a conversion failed.
#[derive(Debug)]
pub enum ConvertError {
    /// No converter handles this pair of (normalised) extensions.
    NoConverter { src: String, tgt: String },
    /// The DNG holds no usable preview.
    Dng(DngError),
    /// HEIC / HEIF / AVIF decoding is not part of this build.
    HeicUnavailable,
    /// The target extension names no raster format.
    UnsupportedImageTarget(String),
    /// The image file at `path` could not be decoded; the image library's
    /// explanation.
    ImageDecode { path: String, detail: String },
    /// The JPEG preview of a DNG could not be decoded.
    PreviewDecode(String),
    /// The image for the file at `path` could not be encoded; the image
    /// library's explanation.
    ImageEncode { path: String, detail: String },
}

pub open spec fn heic_unavailable_message() -> Seq<char> {
    "HEIC/HEIF/AVIF decoding isn't available in this build of FormatLab. Linux builds include it by default; Windows support is planned for v0.1.2."@
}

impl ConvertError {
    /// The message shown to the user.
    pub open spec fn spec_message(&self) -> Seq<char> {
        match self {
            ConvertError::NoConverter { src, tgt } => "No converter registered for "@ + src@
                + " \u{2192} "@ + tgt@,
            ConvertError::Dng(e) => e.spec_message(),
            ConvertError::HeicUnavailable => heic_unavailable_message(),
            ConvertError::UnsupportedImageTarget(ext) => "Unsupported image target: "@ + ext@,
            ConvertError::ImageDecode { path, detail } => "Failed to decode image: "@ + path@
                + ": "@ + detail@,
            ConvertError::PreviewDecode(d) => "Failed to decode the JPEG preview embedded in the DNG: "@
                + d@,
            ConvertError::ImageEncode { path, detail } => "Failed to write image: "@ + path@
                + ": "@ + detail@,
        }
    }

    /// The message shown to the user.
    pub fn message(&self) -> (s: String)
        ensures
            s@ == self.spec_message(),
    {
        match self {
            ConvertError::NoConverter { src, tgt } => {
                let mut m = String::from_str("No converter registered for ");
                m.append(src.as_str());
                m.append(" \u{2192} ");
                m.append(tgt.as_str());
                m
            },
            ConvertError::Dng(e) => e.message(),
            ConvertError::HeicUnavailable => String::from_str(
                "HEIC/HEIF/AVIF decoding isn't available in this build of FormatLab. Linux builds include it by default; Windows support is planned for v0.1.2.",
            ),
            ConvertError::UnsupportedImageTarget(ext) => {
                let mut m = String::from_str("Unsupported image target: ");
                m.append(ext.as_str());
                m
            },
            ConvertError::ImageDecode { path, detail } => {
                let mut m = String::from_str("Failed to decode image: ");
                m.append(path.as_str());
                m.append(": ");
                m.append(detail.as_str());
                m
            },
            ConvertError::PreviewDecode(d) => {
                let mut m = String::from_str(
                    "Failed to decode the JPEG preview embedded in the DNG: ",
                );
                m.append(d.as_str());
                m
            },
            ConvertError::ImageEncode { path, detail } => {
                let mut m = String::from_str("Failed to write image: ");
                m.append(path.as_str());
                m.append(": ");
                m.append(detail.as_str());
                m
            },
        }
    }
}

} // verus!
