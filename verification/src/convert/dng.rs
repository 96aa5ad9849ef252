//! DNG (Adobe Digital Negative) support.
//!
//! A DNG is a TIFF: a header pointing at a chain of IFDs (image file
//! directories), each a table of tagged entries. The raw sensor data and one
//! or more JPEG previews live in separate IFDs, often reached through the
//! SubIFDs tag. Rather than developing the raw data, the converter extracts
//! the largest embedded photographic JPEG preview. Raw CFA data that happens
//! to be JPEG-compressed is skipped because its PhotometricInterpretation is
//! neither RGB nor YCbCr.
//!
//! Offsets are held as `u64`; offset arithmetic saturates, which is exact for
//! reads because no position at or beyond `u64::MAX` lies inside a buffer.
use vstd::prelude::*;

use crate::convert::images::{decode_raster, decoded, save_rgba, written_as};
use crate::convert::pdf::{pdf_of_rgba, rgba_pdf};
use crate::error::ConvertError;

verus! {

pub const TAG_IMAGE_WIDTH: u16 = 256;

pub const TAG_IMAGE_LENGTH: u16 = 257;

pub const TAG_COMPRESSION: u16 = 259;

pub const TAG_PHOTOMETRIC: u16 = 262;

pub const TAG_STRIP_OFFSETS: u16 = 273;

pub const TAG_STRIP_BYTE_COUNTS: u16 = 279;

pub const TAG_SUB_IFDS: u16 = 330;

/// JPEGInterchangeFormat
pub const TAG_JPEG_IF_OFFSET: u16 = 513;

/// JPEGInterchangeFormatLength
pub const TAG_JPEG_IF_LENGTH: u16 = 514;

pub const COMPRESSION_OLD_JPEG: u64 = 6;

pub const COMPRESSION_JPEG: u64 = 7;

pub const PHOTOMETRIC_RGB: u64 = 2;

pub const PHOTOMETRIC_YCBCR: u64 = 6;

/// Guard against malformed or hostile files with cyclic / huge IFD graphs.
pub const MAX_IFDS: usize = 512;

/// Why no preview could be extracted.
#[derive(Debug, Clone, Copy, PartialEq, Eq, Structural)]
pub enum DngError {
    /// The file starts with neither `II` nor `MM`.
    NotTiffByteOrder,
    /// The TIFF magic number is not 42.
    BadMagic,
    /// A read fell outside the file.
    ReadOutOfBounds,
    /// No IFD holds a photographic JPEG.
    NoPreview,
}

impl DngError {
    /// The message shown to the user.
    pub fn message(&self) -> (s: String)
        ensures
            s@ == self.spec_message(),
    {
        match self {
            DngError::NotTiffByteOrder => String::from_str(
                "Not a TIFF/DNG file (missing byte-order mark)",
            ),
            DngError::BadMagic => String::from_str("Not a TIFF/DNG file (bad magic number)"),
            DngError::ReadOutOfBounds => String::from_str("TIFF read out of bounds"),
            DngError::NoPreview => String::from_str(
                "This DNG has no embedded JPEG preview, so FormatLab can't convert it. DNGs from phones, drones, and Lightroom include one; some raw-only archival DNGs don't.",
            ),
        }
    }

    pub open spec fn spec_message(&self) -> Seq<char> {
        match self {
            DngError::NotTiffByteOrder => "Not a TIFF/DNG file (missing byte-order mark)"@,
            DngError::BadMagic => "Not a TIFF/DNG file (bad magic number)"@,
            DngError::ReadOutOfBounds => "TIFF read out of bounds"@,
            DngError::NoPreview => "This DNG has no embedded JPEG preview, so FormatLab can't convert it. DNGs from phones, drones, and Lightroom include one; some raw-only archival DNGs don't."@,
        }
    }
}

// ---------------------------------------------------------------------------
// The model: what the file's bytes say.
// ---------------------------------------------------------------------------
/// The 16-bit value at `off`, in the given byte order.
pub open spec fn read_u16(buf: Seq<u8>, le: bool, off: int) -> Option<u16> {
    if 0 <= off && off + 2 <= buf.len() {
        let b0 = buf[off] as int;
        let b1 = buf[off + 1] as int;
        Some(
            if le {
                (b0 + 256 * b1) as u16
            } else {
                (256 * b0 + b1) as u16
            },
        )
    } else {
        None
    }
}

/// The 32-bit value at `off`, in the given byte order.
pub open spec fn read_u32(buf: Seq<u8>, le: bool, off: int) -> Option<u32> {
    if 0 <= off && off + 4 <= buf.len() {
        let b0 = buf[off] as int;
        let b1 = buf[off + 1] as int;
        let b2 = buf[off + 2] as int;
        let b3 = buf[off + 3] as int;
        Some(
            if le {
                (b0 + 256 * b1 + 65536 * b2 + 16777216 * b3) as u32
            } else {
                (16777216 * b0 + 65536 * b1 + 256 * b2 + b3) as u32
            },
        )
    } else {
        None
    }
}

/// Byte width of a TIFF field type; 0 for types that are not read.
pub open spec fn spec_type_size(ty: u16) -> u64 {
    if ty == 1 || ty == 2 || ty == 6 || ty == 7 {
        1
    } else if ty == 3 || ty == 8 {
        2
    } else if ty == 4 || ty == 9 || ty == 11 {
        4
    } else if ty == 5 || ty == 10 || ty == 12 {
        8
    } else {
        0
    }
}

/// One value of width `ts` at `pos`, widened to 64 bits.
pub open spec fn value_at(buf: Seq<u8>, le: bool, pos: int, ts: u64) -> Option<u64> {
    if ts == 1 {
        if 0 <= pos < buf.len() {
            Some(buf[pos] as u64)
        } else {
            None
        }
    } else if ts == 2 {
        match read_u16(buf, le, pos) {
            Some(v) => Some(v as u64),
            None => None,
        }
    } else if ts == 4 {
        match read_u32(buf, le, pos) {
            Some(v) => Some(v as u64),
            None => None,
        }
    } else if ts == 8 {
        match (read_u32(buf, le, pos), read_u32(buf, le, pos + 4)) {
            (Some(a), Some(b)) => Some(
                if le {
                    (a as int + 4294967296 * (b as int)) as u64
                } else {
                    (4294967296 * (a as int) + b as int) as u64
                },
            ),
            _ => None,
        }
    } else {
        None
    }
}

/// The `i`-th value of an entry whose values start at `base`.
pub open spec fn element(buf: Seq<u8>, le: bool, base: int, ts: u64, i: int) -> Option<u64> {
    value_at(buf, le, base + i * ts, ts)
}

/// Where the values of the entry at `entry` start: inline in the entry when
/// they fit in four bytes, else at the offset the entry holds.
pub open spec fn values_base(buf: Seq<u8>, le: bool, entry: int, total: int) -> Option<int> {
    if total <= 4 {
        Some(entry + 8)
    } else {
        match read_u32(buf, le, entry + 8) {
            Some(b) => Some(b as int),
            None => None,
        }
    }
}

/// Every value of the IFD entry at `entry`, or `None` when a read fails.
pub open spec fn entry_values_of(buf: Seq<u8>, le: bool, entry: int) -> Option<Seq<u64>> {
    match (read_u16(buf, le, entry + 2), read_u32(buf, le, entry + 4)) {
        (Some(ty), Some(count)) => {
            let ts = spec_type_size(ty);
            if ts == 0 || count == 0 {
                Some(Seq::<u64>::empty())
            } else {
                match values_base(buf, le, entry, ts * count) {
                    Some(base) => if forall|i: int|
                        0 <= i < count ==> (#[trigger] element(buf, le, base, ts, i)) is Some {
                        Some(Seq::new(count as nat, |i: int| element(buf, le, base, ts, i).unwrap()))
                    } else {
                        None
                    },
                    None => None,
                }
            }
        },
        _ => None,
    }
}

/// The tags of one IFD that the extractor looks at, and the child IFDs it
/// names.
pub struct IfdTags {
    pub compression: Option<u64>,
    pub photometric: Option<u64>,
    pub width: Option<u64>,
    pub length: Option<u64>,
    pub jpeg_offset: Option<u64>,
    pub jpeg_len: Option<u64>,
    pub strip_offsets: Seq<u64>,
    pub strip_byte_counts: Seq<u64>,
    pub children: Seq<u64>,
}

pub open spec fn no_tags() -> IfdTags {
    IfdTags {
        compression: None,
        photometric: None,
        width: None,
        length: None,
        jpeg_offset: None,
        jpeg_len: None,
        strip_offsets: Seq::empty(),
        strip_byte_counts: Seq::empty(),
        children: Seq::empty(),
    }
}

pub open spec fn first_of(vs: Seq<u64>) -> Option<u64> {
    if vs.len() > 0 {
        Some(vs[0])
    } else {
        None
    }
}

/// The tags after reading the entry at `entry`, or `None` when a read fails.
pub open spec fn apply_entry(buf: Seq<u8>, le: bool, t: IfdTags, entry: int) -> Option<IfdTags> {
    match read_u16(buf, le, entry) {
        None => None,
        Some(tag) => if tag == TAG_SUB_IFDS || tag == TAG_COMPRESSION || tag == TAG_PHOTOMETRIC
            || tag == TAG_IMAGE_WIDTH || tag == TAG_IMAGE_LENGTH || tag == TAG_JPEG_IF_OFFSET
            || tag == TAG_JPEG_IF_LENGTH || tag == TAG_STRIP_OFFSETS || tag
            == TAG_STRIP_BYTE_COUNTS {
            match entry_values_of(buf, le, entry) {
                None => None,
                Some(vs) => Some(
                    if tag == TAG_SUB_IFDS {
                        IfdTags { children: t.children + vs, ..t }
                    } else if tag == TAG_COMPRESSION {
                        IfdTags { compression: first_of(vs), ..t }
                    } else if tag == TAG_PHOTOMETRIC {
                        IfdTags { photometric: first_of(vs), ..t }
                    } else if tag == TAG_IMAGE_WIDTH {
                        IfdTags { width: first_of(vs), ..t }
                    } else if tag == TAG_IMAGE_LENGTH {
                        IfdTags { length: first_of(vs), ..t }
                    } else if tag == TAG_JPEG_IF_OFFSET {
                        IfdTags { jpeg_offset: first_of(vs), ..t }
                    } else if tag == TAG_JPEG_IF_LENGTH {
                        IfdTags { jpeg_len: first_of(vs), ..t }
                    } else if tag == TAG_STRIP_OFFSETS {
                        IfdTags { strip_offsets: vs, ..t }
                    } else {
                        IfdTags { strip_byte_counts: vs, ..t }
                    },
                ),
            }
        } else {
            Some(t)
        },
    }
}

/// The state after the first `k` entries of the IFD at `off`; the flag is
/// false when an entry could not be read, and the state is then the one
/// before that entry.
pub open spec fn tags_after(buf: Seq<u8>, le: bool, off: int, k: nat) -> (IfdTags, bool)
    decreases k,
{
    if k == 0 {
        (no_tags(), true)
    } else {
        let (t, ok) = tags_after(buf, le, off, (k - 1) as nat);
        if !ok {
            (t, false)
        } else {
            match apply_entry(buf, le, t, off + 2 + (k - 1) * 12) {
                Some(t2) => (t2, true),
                None => (t, false),
            }
        }
    }
}

/// A located JPEG inside the file, with a comparison score (pixel area when
/// known, else byte length).
#[derive(Clone, Copy)]
pub struct Candidate {
    pub offset: u64,
    pub len: u64,
    pub score: u64,
}

/// `a * b`, saturating at `u64::MAX`.
pub open spec fn sat_mul(a: u64, b: u64) -> u64 {
    if a * b > u64::MAX {
        u64::MAX
    } else {
        (a * b) as u64
    }
}

/// The region an IFD's JPEG occupies: the JPEGInterchangeFormat pointer
/// when it has a length of at least 2, else a single strip.
pub open spec fn jpeg_region(t: IfdTags) -> Option<(u64, u64)> {
    match (t.jpeg_offset, t.jpeg_len) {
        (Some(o), Some(l)) if l >= 2 => Some((o, l)),
        _ => if t.strip_offsets.len() == 1 && t.strip_byte_counts.len() == 1 {
            Some((t.strip_offsets[0], t.strip_byte_counts[0]))
        } else {
            None
        },
    }
}

/// The region lies inside the file and starts with the JPEG SOI marker.
pub open spec fn is_jpeg_at(buf: Seq<u8>, o: int, l: int) -> bool {
    &&& o + l <= buf.len()
    &&& l >= 2
    &&& buf[o] == 0xFFu8
    &&& buf[o + 1] == 0xD8u8
}

/// The best candidate after considering a fully read IFD.
pub open spec fn pick(buf: Seq<u8>, t: IfdTags, best: Option<Candidate>) -> Option<Candidate> {
    let is_jpeg = t.compression == Some(COMPRESSION_JPEG) || t.compression == Some(
        COMPRESSION_OLD_JPEG,
    );
    let is_photographic = t.photometric == Some(PHOTOMETRIC_RGB) || t.photometric == Some(
        PHOTOMETRIC_YCBCR,
    );
    if !is_jpeg || !is_photographic {
        best
    } else {
        match jpeg_region(t) {
            None => best,
            Some((o, l)) => if !is_jpeg_at(buf, o as int, l as int) {
                best
            } else {
                let area = sat_mul(
                    match t.width {
                        Some(w) => w,
                        None => 0,
                    },
                    match t.length {
                        Some(h) => h,
                        None => 0,
                    },
                );
                let score = if area > 0 {
                    area
                } else {
                    l
                };
                match best {
                    Some(b) if score <= b.score => best,
                    _ => Some(Candidate { offset: o, len: l, score }),
                }
            },
        }
    }
}

/// Scanning the IFD at `off`: the child IFDs it enqueues (in order) and the
/// best candidate afterwards. A read failure keeps what was enqueued before
/// it and leaves the best candidate unchanged.
pub open spec fn scan(buf: Seq<u8>, le: bool, off: int, best: Option<Candidate>) -> (
    Seq<u64>,
    Option<Candidate>,
) {
    match read_u16(buf, le, off) {
        None => (Seq::empty(), best),
        Some(n) => {
            let (t, ok) = tags_after(buf, le, off, n as nat);
            if !ok {
                (t.children, best)
            } else {
                match read_u32(buf, le, off + 2 + n * 12) {
                    None => (t.children, best),
                    Some(next) => (t.children.push(next as u64), pick(buf, t, best)),
                }
            }
        },
    }
}

/// Whether every read that scanning the IFD at `off` makes stays inside the
/// file: its entry count, each entry it interprets, and the pointer to the
/// next IFD.
pub open spec fn scan_reads_ok(buf: Seq<u8>, le: bool, off: int) -> bool {
    match read_u16(buf, le, off) {
        None => false,
        Some(n) => tags_after(buf, le, off, n as nat).1 && read_u32(buf, le, off + 2 + n * 12) is Some,
    }
}

/// The walk over the IFD graph: pop the last queued offset, skip 0 and
/// offsets already visited, stop after more than `MAX_IFDS` IFDs, and scan
/// the rest.
pub open spec fn walk(
    buf: Seq<u8>,
    le: bool,
    queue: Seq<u64>,
    visited: Seq<u64>,
    best: Option<Candidate>,
) -> Option<Candidate>
    decreases MAX_IFDS - visited.len(), queue.len(),
{
    if queue.len() == 0 || visited.len() > MAX_IFDS {
        best
    } else {
        let off = queue.last();
        let rest = queue.drop_last();
        if off == 0 || visited.contains(off) {
            walk(buf, le, rest, visited, best)
        } else {
            let seen = visited.push(off);
            if seen.len() > MAX_IFDS {
                best
            } else {
                let (children, best2) = scan(buf, le, off as int, best);
                walk(buf, le, rest + children, seen, best2)
            }
        }
    }
}

/// The byte order the header announces: `II` is little-endian, `MM`
/// big-endian.
pub open spec fn byte_order(buf: Seq<u8>) -> Option<bool> {
    if buf.len() >= 2 && buf[0] == 0x49u8 && buf[1] == 0x49u8 {
        Some(true)
    } else if buf.len() >= 2 && buf[0] == 0x4Du8 && buf[1] == 0x4Du8 {
        Some(false)
    } else {
        None
    }
}

/// The embedded preview of a DNG file, or why there is none.
pub open spec fn preview_of(buf: Seq<u8>) -> Result<Seq<u8>, DngError> {
    match byte_order(buf) {
        None => Err(DngError::NotTiffByteOrder),
        Some(le) => match read_u16(buf, le, 2) {
            None => Err(DngError::ReadOutOfBounds),
            Some(magic) => if magic != 42 {
                Err(DngError::BadMagic)
            } else {
                match read_u32(buf, le, 4) {
                    None => Err(DngError::ReadOutOfBounds),
                    Some(first) => match walk(
                        buf,
                        le,
                        seq![first as u64],
                        Seq::empty(),
                        None,
                    ) {
                        Some(c) => Ok(
                            buf.subrange(c.offset as int, c.offset as int + c.len as int),
                        ),
                        None => Err(DngError::NoPreview),
                    },
                }
            },
        },
    }
}

// ---------------------------------------------------------------------------
// Properties of the model.
// ---------------------------------------------------------------------------
pub open spec fn good_candidate(buf: Seq<u8>, c: Option<Candidate>) -> bool {
    c matches Some(b) ==> is_jpeg_at(buf, b.offset as int, b.len as int)
}

proof fn lemma_pick_good(buf: Seq<u8>, t: IfdTags, best: Option<Candidate>)
    requires
        good_candidate(buf, best),
    ensures
        good_candidate(buf, pick(buf, t, best)),
{
}

proof fn lemma_scan_good(buf: Seq<u8>, le: bool, off: int, best: Option<Candidate>)
    requires
        good_candidate(buf, best),
    ensures
        good_candidate(buf, scan(buf, le, off, best).1),
{
    match read_u16(buf, le, off) {
        None => {},
        Some(n) => {
            let (t, ok) = tags_after(buf, le, off, n as nat);
            lemma_pick_good(buf, t, best);
        },
    }
}

proof fn lemma_walk_good(
    buf: Seq<u8>,
    le: bool,
    queue: Seq<u64>,
    visited: Seq<u64>,
    best: Option<Candidate>,
)
    requires
        good_candidate(buf, best),
    ensures
        good_candidate(buf, walk(buf, le, queue, visited, best)),
    decreases MAX_IFDS - visited.len(), queue.len(),
{
    if queue.len() == 0 || visited.len() > MAX_IFDS {
    } else {
        let off = queue.last();
        let rest = queue.drop_last();
        if off == 0 || visited.contains(off) {
            lemma_walk_good(buf, le, rest, visited, best);
        } else {
            let seen = visited.push(off);
            if seen.len() > MAX_IFDS {
            } else {
                let (children, best2) = scan(buf, le, off as int, best);
                lemma_scan_good(buf, le, off as int, best);
                lemma_walk_good(buf, le, rest + children, seen, best2);
            }
        }
    }
}

/// A preview that the extractor hands back is a contiguous slice of the file
/// that starts with the JPEG start-of-image marker `FF D8`.
pub proof fn law_preview_is_jpeg_slice_of_file(buf: Seq<u8>)
    requires
        preview_of(buf) is Ok,
    ensures
        ({
            let p = preview_of(buf)->Ok_0;
            &&& p.len() >= 2
            &&& p[0] == 0xFFu8
            &&& p[1] == 0xD8u8
            &&& exists|o: int| 0 <= o && o + p.len() <= buf.len() && #[trigger] buf.subrange(o, o + p.len()) == p
        }),
{
    let le = byte_order(buf).unwrap();
    let first = read_u32(buf, le, 4).unwrap();
    lemma_walk_good(buf, le, seq![first as u64], Seq::empty(), None);
    let c = walk(buf, le, seq![first as u64], Seq::empty(), None).unwrap();
    let p = preview_of(buf)->Ok_0;
    assert(buf.subrange(c.offset as int, c.offset as int + p.len()) == p);
}

/// `x` is a prefix of `y`.
pub open spec fn is_prefix(x: Seq<u64>, y: Seq<u64>) -> bool {
    x.len() <= y.len() && forall|i: int| 0 <= i < x.len() ==> #[trigger] y[i] == x[i]
}

proof fn lemma_apply_entry_extends_children(buf: Seq<u8>, le: bool, t: IfdTags, entry: int)
    requires
        apply_entry(buf, le, t, entry) is Some,
    ensures
        is_prefix(t.children, apply_entry(buf, le, t, entry)->Some_0.children),
{
}

proof fn lemma_children_step(buf: Seq<u8>, le: bool, off: int, m: nat)
    requires
        m > 0,
    ensures
        is_prefix(
            tags_after(buf, le, off, (m - 1) as nat).0.children,
            tags_after(buf, le, off, m).0.children,
        ),
{
    let (t, ok) = tags_after(buf, le, off, (m - 1) as nat);
    if ok {
        if apply_entry(buf, le, t, off + 2 + (m - 1) * 12) is Some {
            lemma_apply_entry_extends_children(buf, le, t, off + 2 + (m - 1) * 12);
        }
    }
}

proof fn lemma_children_grow(buf: Seq<u8>, le: bool, off: int, m1: nat, m2: nat)
    requires
        m1 <= m2,
    ensures
        is_prefix(tags_after(buf, le, off, m1).0.children, tags_after(buf, le, off, m2).0.children),
    decreases m2,
{
    if m1 < m2 {
        lemma_children_grow(buf, le, off, m1, (m2 - 1) as nat);
        lemma_children_step(buf, le, off, m2);
    }
}

/// Every IFD that a SubIFDs entry names is queued to be scanned: when the
/// entries before it read, the offsets a SubIFDs entry lists all appear, in
/// their order and side by side, among the IFDs that scanning its IFD
/// enqueues, so every sub-IFD, not only the first, is walked.
pub proof fn law_every_sub_ifd_is_enqueued(
    buf: Seq<u8>,
    le: bool,
    off: int,
    best: Option<Candidate>,
    k: nat,
)
    requires
        read_u16(buf, le, off) is Some,
        k < read_u16(buf, le, off)->Some_0,
        tags_after(buf, le, off, k).1,
        read_u16(buf, le, off + 2 + k * 12) == Some(330u16),
        entry_values_of(buf, le, off + 2 + k * 12) is Some,
    ensures
        ({
            let vs = entry_values_of(buf, le, off + 2 + k * 12)->Some_0;
            let queued = scan(buf, le, off, best).0;
            exists|i: int|
                0 <= i && i + vs.len() <= queued.len() && #[trigger] queued.subrange(
                    i,
                    i + vs.len(),
                ) == vs
        }),
{
    let n = read_u16(buf, le, off)->Some_0;
    let vs = entry_values_of(buf, le, off + 2 + k * 12)->Some_0;
    let tk = tags_after(buf, le, off, k).0;
    let tk1 = tags_after(buf, le, off, k + 1).0;
    assert(tk1.children == tk.children + vs);
    lemma_children_grow(buf, le, off, k + 1, n as nat);
    let t = tags_after(buf, le, off, n as nat).0;
    let queued = scan(buf, le, off, best).0;
    assert(is_prefix(t.children, queued));
    let i = tk.children.len() as int;
    assert(queued.subrange(i, i + vs.len()) =~= vs) by {
        assert forall|j: int| 0 <= j < vs.len() implies queued.subrange(i, i + vs.len())[j]
            == vs[j] by {
            assert(tk1.children[i + j] == vs[j]);
            assert(t.children[i + j] == tk1.children[i + j]);
            assert(queued[i + j] == t.children[i + j]);
        }
    }
}

/// A scanned IFD only ever replaces the best candidate with a JPEG-compressed
/// image whose photometric interpretation is RGB or YCbCr (never raw CFA
/// data), whose bytes lie in the file and start with the JPEG SOI marker,
/// and whose score is strictly larger: the largest preview wins, and the
/// first of equally large ones stays.
pub proof fn law_only_larger_photographic_jpegs_replace_the_best(
    buf: Seq<u8>,
    t: IfdTags,
    best: Option<Candidate>,
)
    ensures
        pick(buf, t, best) != best ==> {
            &&& t.compression == Some(COMPRESSION_JPEG) || t.compression == Some(
                COMPRESSION_OLD_JPEG,
            )
            &&& t.photometric == Some(PHOTOMETRIC_RGB) || t.photometric == Some(
                PHOTOMETRIC_YCBCR,
            )
            &&& pick(buf, t, best) matches Some(c) && is_jpeg_at(
                buf,
                c.offset as int,
                c.len as int,
            ) && (best matches Some(b) ==> c.score > b.score)
        },
{
}

/// Once an entry of an IFD fails to read, the state of the scan stays as it
/// was before that entry.
proof fn lemma_tags_after_failure_sticks(buf: Seq<u8>, le: bool, off: int, k: nat, m: nat)
    requires
        k <= m,
        !tags_after(buf, le, off, k).1,
    ensures
        tags_after(buf, le, off, m) == tags_after(buf, le, off, k),
    decreases m - k,
{
    if k < m {
        lemma_tags_after_failure_sticks(buf, le, off, k, (m - 1) as nat);
    }
}

// ---------------------------------------------------------------------------
// The extractor.
// ---------------------------------------------------------------------------
/// `a + b`, saturating at `u64::MAX`.
fn sat_add(a: u64, b: u64) -> (r: u64)
    ensures
        r == (if a + b > u64::MAX {
            u64::MAX as int
        } else {
            a + b
        }),
{
    a.saturating_add(b)
}

/// Reads at a saturated position fail exactly when reads at the true
/// position do.
proof fn lemma_saturated_reads(buf: Seq<u8>, le: bool, pos: int, r: u64)
    requires
        pos >= 0,
        r == (if pos > u64::MAX {
            u64::MAX as int
        } else {
            pos
        }),
        buf.len() <= u64::MAX,
    ensures
        read_u16(buf, le, r as int) == read_u16(buf, le, pos),
        read_u32(buf, le, r as int) == read_u32(buf, le, pos),
        forall|ts: u64| #[trigger] value_at(buf, le, r as int, ts) == value_at(buf, le, pos, ts),
{
}

/// A TIFF file and its byte order.
pub struct Tiff<'a> {
    pub buf: &'a [u8],
    pub le: bool,
}

impl<'a> Tiff<'a> {
    /// The 16-bit value at `off`.
    pub fn u16(&self, off: u64) -> (r: Result<u16, DngError>)
        ensures
            r == (match read_u16(self.buf@, self.le, off as int) {
                Some(v) => Ok(v),
                None => Err(DngError::ReadOutOfBounds),
            }),
    {
        let len = self.buf.len() as u64;
        if off > len || len - off < 2 {
            return Err(DngError::ReadOutOfBounds);
        }
        let i = off as usize;
        let b0 = self.buf[i] as u16;
        let b1 = self.buf[i + 1] as u16;
        if self.le {
            Ok(b0 + 256 * b1)
        } else {
            Ok(256 * b0 + b1)
        }
    }

    /// The 32-bit value at `off`.
    pub fn u32(&self, off: u64) -> (r: Result<u32, DngError>)
        ensures
            r == (match read_u32(self.buf@, self.le, off as int) {
                Some(v) => Ok(v),
                None => Err(DngError::ReadOutOfBounds),
            }),
    {
        let len = self.buf.len() as u64;
        if off > len || len - off < 4 {
            return Err(DngError::ReadOutOfBounds);
        }
        let i = off as usize;
        let b0 = self.buf[i] as u32;
        let b1 = self.buf[i + 1] as u32;
        let b2 = self.buf[i + 2] as u32;
        let b3 = self.buf[i + 3] as u32;
        if self.le {
            Ok(b0 + 256 * b1 + 65536 * b2 + 16777216 * b3)
        } else {
            Ok(16777216 * b0 + 65536 * b1 + 256 * b2 + b3)
        }
    }

    /// One value of width `ts` (1, 2, 4 or 8 bytes) at `pos`.
    fn value(&self, pos: u64, ts: u64) -> (r: Option<u64>)
        requires
            ts == 1 || ts == 2 || ts == 4 || ts == 8,
        ensures
            r == value_at(self.buf@, self.le, pos as int, ts),
    {
        if ts == 1 {
            if pos < self.buf.len() as u64 {
                Some(self.buf[pos as usize] as u64)
            } else {
                None
            }
        } else if ts == 2 {
            match self.u16(pos) {
                Ok(v) => Some(v as u64),
                Err(_) => None,
            }
        } else if ts == 4 {
            match self.u32(pos) {
                Ok(v) => Some(v as u64),
                Err(_) => None,
            }
        } else {
            let a = match self.u32(pos) {
                Ok(v) => v as u64,
                Err(_) => return None,
            };
            let p4 = sat_add(pos, 4);
            let _n = self.buf.len();
            proof {
                lemma_saturated_reads(self.buf@, self.le, pos + 4, p4);
            }
            let b = match self.u32(p4) {
                Ok(v) => v as u64,
                Err(_) => return None,
            };
            if self.le {
                Some(a + 4294967296 * b)
            } else {
                Some(4294967296 * a + b)
            }
        }
    }
}

/// Byte width of a TIFF field type. Returns 0 for types we don't read.
pub fn type_size(ty: u16) -> (r: u64)
    ensures
        r == spec_type_size(ty),
{
    match ty {
        1 | 2 | 6 | 7 => 1,
        3 | 8 => 2,
        4 | 9 | 11 => 4,
        5 | 10 | 12 => 8,
        _ => 0,
    }
}

/// Read every value of one IFD entry, widened to u64. Handles inline
/// values (count fits in the 4-byte slot) and out-of-line value arrays.
pub fn entry_values(tiff: &Tiff, entry_off: u64) -> (r: Result<Vec<u64>, DngError>)
    ensures
        match entry_values_of(tiff.buf@, tiff.le, entry_off as int) {
            Some(vs) => r matches Ok(v) && v@ == vs,
            None => r == Err::<Vec<u64>, DngError>(DngError::ReadOutOfBounds),
        },
{
    let buf = Ghost(tiff.buf@);
    let le = tiff.le;
    let p2 = sat_add(entry_off, 2);
    let p4 = sat_add(entry_off, 4);
    let p8 = sat_add(entry_off, 8);
    let _n = tiff.buf.len();
    proof {
        lemma_saturated_reads(buf@, le, entry_off + 2, p2);
        lemma_saturated_reads(buf@, le, entry_off + 4, p4);
        lemma_saturated_reads(buf@, le, entry_off + 8, p8);
    }
    let ty = match tiff.u16(p2) {
        Ok(v) => v,
        Err(e) => return Err(e),
    };
    let count = match tiff.u32(p4) {
        Ok(v) => v as u64,
        Err(e) => return Err(e),
    };
    let ts = type_size(ty);
    if ts == 0 || count == 0 {
        return Ok(Vec::new());
    }
    assert(ts * count <= 8 * 4294967295) by (nonlinear_arith)
        requires
            ts <= 8,
            count <= 4294967295,
    ;
    let total = ts * count;
    let base: u64 = if total <= 4 {
        p8
    } else {
        match tiff.u32(p8) {
            Ok(v) => v as u64,
            Err(e) => return Err(e),
        }
    };
    let ghost gbase: int = values_base(buf@, le, entry_off as int, ts * count).unwrap();
    assert(base == (if gbase > u64::MAX {
        u64::MAX as int
    } else {
        gbase
    }));
    let mut out: Vec<u64> = Vec::new();
    let mut i: u64 = 0;
    while i < count
        invariant
            tiff.buf@ == buf@,
            tiff.le == le,
            buf@.len() <= u64::MAX,
            read_u16(buf@, le, entry_off + 2) == Some(ty),
            read_u32(buf@, le, entry_off + 4) matches Some(c) && c == count,
            ts == spec_type_size(ty),
            values_base(buf@, le, entry_off as int, ts * count) == Some(gbase),
            ts == 1 || ts == 2 || ts == 4 || ts == 8,
            count <= 4294967295,
            0 <= i <= count,
            gbase >= 0,
            base == (if gbase > u64::MAX {
                u64::MAX as int
            } else {
                gbase
            }),
            out@.len() == i,
            forall|j: int|
                0 <= j < i ==> (#[trigger] element(buf@, le, gbase, ts, j)) is Some && out@[j]
                    == element(buf@, le, gbase, ts, j).unwrap(),
        decreases count - i,
    {
        assert(i * ts <= 8 * 4294967295) by (nonlinear_arith)
            requires
                ts <= 8,
                i <= 4294967295,
        ;
        let o = sat_add(base, i * ts);
        proof {
            let pos = gbase + i * ts;
            assert(o == (if pos > u64::MAX {
                u64::MAX as int
            } else {
                pos
            }));
            lemma_saturated_reads(buf@, le, pos, o);
        }
        match tiff.value(o, ts) {
            Some(v) => {
                assert(v == element(buf@, le, gbase, ts, i as int).unwrap());
                out.push(v);
            },
            None => {
                assert(element(buf@, le, gbase, ts, i as int) is None);
                assert(!(forall|j: int|
                    0 <= j < count ==> (#[trigger] element(buf@, le, gbase, ts, j)) is Some));
                assert(values_base(buf@, le, entry_off as int, ts * count) == Some(gbase));
                return Err(DngError::ReadOutOfBounds);
            },
        }
        i = i + 1;
    }
    assert(out@ == Seq::new(count as nat, |j: int| element(buf@, le, gbase, ts, j).unwrap()));
    Ok(out)
}


/// The tags of an IFD read so far, as the scan holds them.
pub struct ScanState {
    pub compression: Option<u64>,
    pub photometric: Option<u64>,
    pub width: Option<u64>,
    pub length: Option<u64>,
    pub jpeg_offset: Option<u64>,
    pub jpeg_len: Option<u64>,
    pub strip_offsets: Vec<u64>,
    pub strip_byte_counts: Vec<u64>,
}

impl ScanState {
    pub open spec fn tags(&self, children: Seq<u64>) -> IfdTags {
        IfdTags {
            compression: self.compression,
            photometric: self.photometric,
            width: self.width,
            length: self.length,
            jpeg_offset: self.jpeg_offset,
            jpeg_len: self.jpeg_len,
            strip_offsets: self.strip_offsets@,
            strip_byte_counts: self.strip_byte_counts@,
            children,
        }
    }
}

proof fn lemma_entry_at_saturated(buf: Seq<u8>, le: bool, g: int, e: u64)
    requires
        g >= 0,
        e == (if g > u64::MAX {
            u64::MAX as int
        } else {
            g
        }),
        buf.len() <= u64::MAX,
    ensures
        forall|t: IfdTags| #[trigger] apply_entry(buf, le, t, e as int) == apply_entry(buf, le, t, g),
{
    if g > u64::MAX {
        assert(read_u16(buf, le, e as int) is None);
        assert(read_u16(buf, le, g) is None);
    }
}

proof fn lemma_apply_entry_children(buf: Seq<u8>, le: bool, t: IfdTags, entry: int)
    ensures
        match apply_entry(buf, le, IfdTags { children: Seq::empty(), ..t }, entry) {
            Some(t2) => apply_entry(buf, le, t, entry) == Some(
                IfdTags { children: t.children + t2.children, ..t2 },
            ),
            None => apply_entry(buf, le, t, entry) is None,
        },
{
    let e = IfdTags { children: Seq::empty(), ..t };
    assert(e.children + Seq::<u64>::empty() == e.children);
    match apply_entry(buf, le, e, entry) {
        Some(t2) => {
            assert(t.children + Seq::<u64>::empty() == t.children);
            match entry_values_of(buf, le, entry) {
                Some(vs) => {
                    assert(Seq::<u64>::empty() + vs == vs);
                },
                None => {},
            }
        },
        None => {},
    }
}

/// Read the IFD entry at `entry` into the scan state, enqueueing the child
/// IFDs it names.
fn read_entry(tiff: &Tiff, entry: u64, st: &mut ScanState, queue: &mut Vec<u64>) -> (r: Result<
    (),
    DngError,
>)
    ensures
        match apply_entry(tiff.buf@, tiff.le, old(st).tags(Seq::empty()), entry as int) {
            Some(t2) => {
                &&& r is Ok
                &&& final(st).tags(Seq::empty()) == IfdTags { children: Seq::empty(), ..t2 }
                &&& final(queue)@ == old(queue)@ + t2.children
            },
            None => r == Err::<(), DngError>(DngError::ReadOutOfBounds) && final(queue)@ == old(
                queue,
            )@,
        },
{
    let tag = match tiff.u16(entry) {
        Ok(v) => v,
        Err(e) => return Err(e),
    };
    if tag == TAG_SUB_IFDS || tag == TAG_COMPRESSION || tag == TAG_PHOTOMETRIC || tag
        == TAG_IMAGE_WIDTH || tag == TAG_IMAGE_LENGTH || tag == TAG_JPEG_IF_OFFSET || tag
        == TAG_JPEG_IF_LENGTH || tag == TAG_STRIP_OFFSETS || tag == TAG_STRIP_BYTE_COUNTS {
        let vs = match entry_values(tiff, entry) {
            Ok(v) => v,
            Err(e) => return Err(e),
        };
        if tag == TAG_SUB_IFDS {
            append_all(queue, &vs);
            assert(Seq::<u64>::empty() + vs@ == vs@);
        } else if tag == TAG_COMPRESSION {
            st.compression = first_value(&vs);
        } else if tag == TAG_PHOTOMETRIC {
            st.photometric = first_value(&vs);
        } else if tag == TAG_IMAGE_WIDTH {
            st.width = first_value(&vs);
        } else if tag == TAG_IMAGE_LENGTH {
            st.length = first_value(&vs);
        } else if tag == TAG_JPEG_IF_OFFSET {
            st.jpeg_offset = first_value(&vs);
        } else if tag == TAG_JPEG_IF_LENGTH {
            st.jpeg_len = first_value(&vs);
        } else if tag == TAG_STRIP_OFFSETS {
            st.strip_offsets = vs;
        } else {
            st.strip_byte_counts = vs;
        }
        if tag != TAG_SUB_IFDS {
            assert(queue@ == old(queue)@ + Seq::<u64>::empty());
        }
    } else {
        assert(queue@ == old(queue)@ + Seq::<u64>::empty());
    }
    Ok(())
}

fn first_value(v: &Vec<u64>) -> (r: Option<u64>)
    ensures
        r == first_of(v@),
{
    if v.len() > 0 {
        Some(v[0])
    } else {
        None
    }
}

fn append_all(queue: &mut Vec<u64>, vs: &Vec<u64>)
    ensures
        final(queue)@ == old(queue)@ + vs@,
{
    let mut i: usize = 0;
    while i < vs.len()
        invariant
            i <= vs.len(),
            queue@ == old(queue)@ + vs@.take(i as int),
        decreases vs.len() - i,
    {
        queue.push(vs[i]);
        i = i + 1;
        assert(vs@.take(i as int) == vs@.take(i - 1).push(vs@[i - 1]));
    }
    assert(vs@.take(vs.len() as int) == vs@);
}

/// Parse one IFD: enqueue any child IFDs and update `best` if this IFD
/// holds a photographic JPEG larger than what we've seen so far.
pub fn scan_ifd(tiff: &Tiff, off: u64, queue: &mut Vec<u64>, best: &mut Option<Candidate>) -> (r:
    Result<(), DngError>)
    ensures
        final(queue)@ == old(queue)@ + scan(tiff.buf@, tiff.le, off as int, *old(best)).0,
        *final(best) == scan(tiff.buf@, tiff.le, off as int, *old(best)).1,
        r == (if scan_reads_ok(tiff.buf@, tiff.le, off as int) {
            Ok::<(), DngError>(())
        } else {
            Err(DngError::ReadOutOfBounds)
        }),
{
    let ghost buf = tiff.buf@;
    let ghost le = tiff.le;
    let ghost q0 = queue@;
    let ghost b0 = *best;
    let _n = tiff.buf.len();
    let n = match tiff.u16(off) {
        Ok(v) => v as u64,
        Err(e) => {
            assert(queue@ == q0 + Seq::<u64>::empty());
            return Err(e);
        },
    };
    let mut st = ScanState {
        compression: None,
        photometric: None,
        width: None,
        length: None,
        jpeg_offset: None,
        jpeg_len: None,
        strip_offsets: Vec::new(),
        strip_byte_counts: Vec::new(),
    };
    let start = off + 2;
    let mut i: u64 = 0;
    assert(queue@ == q0 + no_tags().children);
    assert(st.tags(no_tags().children) == no_tags());
    while i < n
        invariant
            tiff.buf@ == buf,
            tiff.le == le,
            buf.len() <= u64::MAX,
            start == off + 2,
            start <= buf.len(),
            n <= 65535,
            read_u16(buf, le, off as int) == Some(n as u16),
            *best == b0,
            old(queue)@ == q0,
            *old(best) == b0,
            i <= n,
            tags_after(buf, le, off as int, i as nat).1,
            st.tags(tags_after(buf, le, off as int, i as nat).0.children) == tags_after(
                buf,
                le,
                off as int,
                i as nat,
            ).0,
            queue@ == q0 + tags_after(buf, le, off as int, i as nat).0.children,
        decreases n - i,
    {
        let ghost t = tags_after(buf, le, off as int, i as nat).0;
        let entry = sat_add(start, i * 12);
        let ghost gentry: int = off + 2 + i * 12;
        let ghost si = st.tags(Seq::empty());
        proof {
            lemma_entry_at_saturated(buf, le, gentry, entry);
            lemma_apply_entry_children(buf, le, t, gentry);
            assert(si == IfdTags { children: Seq::empty(), ..t });
        }
        match read_entry(tiff, entry, &mut st, queue) {
            Ok(()) => {
                proof {
                    let t2 = apply_entry(buf, le, si, gentry).unwrap();
                    assert(queue@ == q0 + (t.children + t2.children));
                    assert(st.tags(t.children + t2.children) == IfdTags {
                        children: t.children + t2.children,
                        ..t2
                    });
                }
            },
            Err(e) => {
                proof {
                    assert(queue@ == q0 + t.children);
                    assert(apply_entry(buf, le, t, gentry) is None);
                    assert(tags_after(buf, le, off as int, (i + 1) as nat) == (t, false));
                    lemma_tags_after_failure_sticks(buf, le, off as int, (i + 1) as nat, n as nat);
                    assert(tags_after(buf, le, off as int, (n as u16) as nat) == (t, false));
                    assert(scan(buf, le, off as int, b0).0 == t.children);
                }
                return Err(e);
            },
        }
        i = i + 1;
    }
    let ghost t = tags_after(buf, le, off as int, n as nat).0;
    // Chain to the next IFD in the linked list.
    let next_pos = sat_add(start, n * 12);
    proof {
        lemma_saturated_reads(buf, le, off + 2 + n * 12, next_pos);
    }
    let next = match tiff.u32(next_pos) {
        Ok(v) => v as u64,
        Err(e) => return Err(e),
    };
    queue.push(next);
    assert(queue@ == q0 + t.children.push(next));
    // Only photographic JPEGs qualify. This is what excludes the raw CFA
    // data, which may be JPEG-compressed but is PhotometricInterpretation
    // CFA (32803) or LinearRaw (34892), never RGB/YCbCr.
    let compression = st.compression;
    let photometric = st.photometric;
    let width = st.width;
    let length = st.length;
    let jpeg_offset = st.jpeg_offset;
    let jpeg_len = st.jpeg_len;
    let strip_offsets = st.strip_offsets;
    let strip_byte_counts = st.strip_byte_counts;
    let is_jpeg = match compression {
        Some(c) => c == COMPRESSION_JPEG || c == COMPRESSION_OLD_JPEG,
        None => false,
    };
    let is_photographic = match photometric {
        Some(p) => p == PHOTOMETRIC_RGB || p == PHOTOMETRIC_YCBCR,
        None => false,
    };
    if !is_jpeg || !is_photographic {
        return Ok(());
    }
    // Prefer the old-style JPEGInterchangeFormat pointer; fall back to a
    // single-strip image (how DNG previews are normally stored).
    let region: Option<(u64, u64)> = match (jpeg_offset, jpeg_len) {
        (Some(o), Some(l)) if l >= 2 => Some((o, l)),
        _ => if strip_offsets.len() == 1 && strip_byte_counts.len() == 1 {
            Some((strip_offsets[0], strip_byte_counts[0]))
        } else {
            None
        },
    };
    assert(region == jpeg_region(t));
    let (o, l) = match region {
        Some(r) => r,
        None => return Ok(()),
    };
    let len = tiff.buf.len() as u64;
    let is_jpeg_bytes = o <= len && l <= len - o && l >= 2 && tiff.buf[o as usize] == 0xFFu8
        && tiff.buf[o as usize + 1] == 0xD8u8;
    if !is_jpeg_bytes {
        return Ok(());
    }
    let w = match width {
        Some(w) => w,
        None => 0,
    };
    let h = match length {
        Some(h) => h,
        None => 0,
    };
    let area = match w.checked_mul(h) {
        Some(a) => a,
        None => u64::MAX,
    };
    let score = if area > 0 {
        area
    } else {
        l
    };
    let replace = match *best {
        Some(b) => score > b.score,
        None => true,
    };
    if replace {
        *best = Some(Candidate { offset: o, len: l, score });
    }
    Ok(())
}

fn contains_offset(v: &Vec<u64>, x: u64) -> (r: bool)
    ensures
        r == v@.contains(x),
{
    let mut i: usize = 0;
    while i < v.len()
        invariant
            i <= v.len(),
            forall|j: int| 0 <= j < i ==> v@[j] != x,
        decreases v.len() - i,
    {
        if v[i] == x {
            assert(v@[i as int] == x);
            return true;
        }
        i = i + 1;
    }
    false
}

/// The embedded JPEG preview of a DNG file: the largest photographic JPEG
/// that any IFD reachable from the header describes.
pub fn extract_preview_jpeg(buf: &[u8]) -> (r: Result<Vec<u8>, DngError>)
    ensures
        match preview_of(buf@) {
            Ok(p) => r matches Ok(v) && v@ == p,
            Err(e) => r matches Err(e2) && e2 == e,
        },
{
    let le = if buf.len() >= 2 && buf[0] == 0x49u8 && buf[1] == 0x49u8 {
        true
    } else if buf.len() >= 2 && buf[0] == 0x4Du8 && buf[1] == 0x4Du8 {
        false
    } else {
        return Err(DngError::NotTiffByteOrder);
    };
    let tiff = Tiff { buf, le };
    let magic = match tiff.u16(2) {
        Ok(v) => v,
        Err(e) => return Err(e),
    };
    if magic != 42 {
        return Err(DngError::BadMagic);
    }
    let first = match tiff.u32(4) {
        Ok(v) => v as u64,
        Err(e) => return Err(e),
    };
    let mut queue: Vec<u64> = Vec::new();
    queue.push(first);
    let mut visited: Vec<u64> = Vec::new();
    let mut best: Option<Candidate> = None;
    let ghost answer = walk(buf@, le, seq![first], Seq::empty(), None);
    assert(queue@ == seq![first]);
    proof {
        lemma_walk_good(buf@, le, seq![first], Seq::empty(), None);
    }
    loop
        invariant_except_break
            visited@.len() <= MAX_IFDS,
            walk(buf@, le, queue@, visited@, best) == answer,
        invariant
            tiff.buf@ == buf@,
            tiff.le == le,
            good_candidate(buf@, answer),
        ensures
            best == answer,
        decreases MAX_IFDS - visited@.len(), queue@.len(),
    {
        let ghost q = queue@;
        match queue.pop() {
            None => {
                break;
            },
            Some(off) => {
                assert(q.last() == off && q.drop_last() == queue@);
                if off == 0 || contains_offset(&visited, off) {
                    continue;
                }
                visited.push(off);
                if visited.len() > MAX_IFDS {
                    break;
                }
                // A single unreadable IFD (e.g. a stray pointer) doesn't
                // abort extraction when other IFDs hold a valid preview.
                let _ = scan_ifd(&tiff, off, &mut queue, &mut best);
            },
        }
    }
    match best {
        Some(c) => {
            let start = c.offset as usize;
            let end = start + c.len as usize;
            let slice = vstd::slice::slice_subrange(buf, start, end);
            Ok(vstd::slice::slice_to_vec(slice))
        },
        None => Err(DngError::NoPreview),
    }
}


/// The target extensions for which the preview is written through as it is.
pub open spec fn is_jpeg_target(ext: Seq<char>) -> bool {
    ext == seq!['j', 'p', 'g'] || ext == seq!['j', 'p', 'e', 'g']
}

/// `r` is what converting the DNG file `file` to the target extension
/// `target`, for the output file at `output`, answers: the preview's failure, the preview itself for a JPEG
/// target, and otherwise the decoded preview written as the target format.
pub open spec fn dng_raster_converted(
    file: Seq<u8>,
    output: Seq<char>,
    target: Seq<char>,
    r: Result<Vec<u8>, ConvertError>,
) -> bool {
    match preview_of(file) {
        Err(e) => r matches Err(ConvertError::Dng(e2)) && e2 == e,
        Ok(pv) => if is_jpeg_target(target) {
            r matches Ok(v) && v@ == pv
        } else {
            match decoded(pv) {
                None => r matches Err(ConvertError::PreviewDecode(_)),
                Some(p) => written_as(target, output, p.width, p.height, p.data, r),
            }
        },
    }
}

/// `r` is what converting the DNG file `file` to PDF answers: the
/// preview's failure, or the document that shows the decoded preview.
pub open spec fn dng_pdf_converted(file: Seq<u8>, r: Result<Vec<u8>, ConvertError>) -> bool {
    match preview_of(file) {
        Err(e) => r matches Err(ConvertError::Dng(e2)) && e2 == e,
        Ok(pv) => match decoded(pv) {
            None => r matches Err(ConvertError::PreviewDecode(_)),
            Some(p) => r matches Ok(v) && v@ == rgba_pdf(p),
        },
    }
}

/// Convert a DNG to a raster image via its embedded JPEG preview.
///
/// For JPEG targets the preview bytes are written through untouched:
/// lossless, and it keeps the camera's own encoding and EXIF. Other raster
/// targets decode the preview and re-encode it.
pub fn dng_to_raster(file: &[u8], output_path: &str, target_ext: &str) -> (r: Result<
    Vec<u8>,
    ConvertError,
>)
    ensures
        dng_raster_converted(file@, output_path@, target_ext@, r),
{
    let jpeg = match extract_preview_jpeg(file) {
        Ok(j) => j,
        Err(e) => return Err(ConvertError::Dng(e)),
    };
    proof {
        reveal_strlit("jpg");
        reveal_strlit("jpeg");
        assert("jpg"@ =~= seq!['j', 'p', 'g']);
        assert("jpeg"@ =~= seq!['j', 'p', 'e', 'g']);
    }
    let t = String::from_str(target_ext);
    if t.eq(&String::from_str("jpg")) || t.eq(&String::from_str("jpeg")) {
        return Ok(jpeg);
    }
    let img = match decode_raster(jpeg.as_slice()) {
        Ok(i) => i,
        Err(e) => return Err(ConvertError::PreviewDecode(e)),
    };
    save_rgba(img.width, img.height, img.data, output_path, target_ext)
}

/// Convert a DNG to a single-page PDF via its embedded JPEG preview: the
/// decoded preview, flattened onto white, on a page of its own size at
/// 300 DPI.
pub fn dng_to_pdf(file: &[u8]) -> (r: Result<Vec<u8>, ConvertError>)
    ensures
        dng_pdf_converted(file@, r),
{
    let jpeg = match extract_preview_jpeg(file) {
        Ok(j) => j,
        Err(e) => return Err(ConvertError::Dng(e)),
    };
    match decode_raster(jpeg.as_slice()) {
        Ok(img) => Ok(pdf_of_rgba(img.width, img.height, &img.data)),
        Err(e) => Err(ConvertError::PreviewDecode(e)),
    }
}

} // verus!
