# formatlab

The conversion logic of FormatLab, an offline file converter, as a Verus
library, with a thin command-line front end around it.

- `src/` is the verified library.
  - `convert/dng.rs` finds the embedded JPEG preview of a DNG (TIFF) file.
  - `convert/text.rs` converts between markdown, HTML and plain text.
  - `convert/images.rs` chooses image formats and prepares images for them;
    the `image` crate decodes, resizes and encodes.
  - `convert/office.rs` writes worksheet rows as CSV.
  - `convert/pdf.rs` writes an image as a single-page PDF.
  - `convert/heic.rs` packs padded pixel rows, and answers that HEIF
    decoding is not part of this build.
  - `registry.rs` picks the converter for a pair of extensions, and
    `conversion.rs` runs it on what it reads.
  - `commands.rs` and `util.rs` hold what the front end hands back and the
    choice of output paths.
  - `chars.rs` holds the character-sequence helpers (search, replace,
    decimal numbers) the others share.
- `app/` reads and writes files, rasterises SVGs, reads workbooks, and runs
  the command line.
- `tests/` exercises the library on generated inputs.
