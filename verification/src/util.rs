//! Path helpers: extensions, output names, and the choice of a file name
//! that does not clash with an existing file.
//!
//! Paths are held as strings. What `std::path` makes of them (the stem, the
//! extension, the parent, a join) is named below and obtained from
//! `std::path` itself.
use vstd::prelude::*;

use crate::chars::{decimal, from_chars, push_all, push_decimal, to_chars};

verus! {

broadcast use vstd::string::group_string_axioms;

/// What `Path::file_stem` returns for the path `p`.
pub uninterp spec fn path_file_stem(p: Seq<char>) -> Option<Seq<char>>;

/// What `Path::extension` returns for the path `p`.
pub uninterp spec fn path_extension(p: Seq<char>) -> Option<Seq<char>>;

/// What `Path::parent` returns for the path `p`.
pub uninterp spec fn path_parent(p: Seq<char>) -> Option<Seq<char>>;

/// What `Path::file_name` returns for the path `p`.
pub uninterp spec fn path_file_name(p: Seq<char>) -> Option<Seq<char>>;

/// What `Path::join` returns for `base` and `name`.
pub uninterp spec fn path_join(base: Seq<char>, name: Seq<char>) -> Seq<char>;

/// What `str::to_lowercase` returns for `s`.
pub uninterp spec fn lowercase_of(s: Seq<char>) -> Seq<char>;

/// Whether every character of `s` is ASCII.
pub open spec fn all_ascii(s: Seq<char>) -> bool {
    forall|i: int| 0 <= i < s.len() ==> (#[trigger] s[i] as u32) < 128
}

/// `c` with the letters `A` to `Z` mapped to `a` to `z`.
pub open spec fn ascii_lower_char(c: char) -> char {
    if 'A' <= c && c <= 'Z' {
        ((c as u32) + 32) as char
    } else {
        c
    }
}

/// `s` with the ASCII letters `A` to `Z` mapped to `a` to `z`, and every
/// other character kept.
pub open spec fn ascii_lower(s: Seq<char>) -> Seq<char> {
    s.map_values(|c: char| ascii_lower_char(c))
}

/// The extension literals, character by character.
pub(crate) proof fn lemma_extension_literals()
    ensures
        "jpeg"@ == seq!['j', 'p', 'e', 'g'],
        "jpg"@ == seq!['j', 'p', 'g'],
        "tif"@ == seq!['t', 'i', 'f'],
        "tiff"@ == seq!['t', 'i', 'f', 'f'],
        "htm"@ == seq!['h', 't', 'm'],
        "html"@ == seq!['h', 't', 'm', 'l'],
        "markdown"@ == seq!['m', 'a', 'r', 'k', 'd', 'o', 'w', 'n'],
        "md"@ == seq!['m', 'd'],
        "png"@ == seq!['p', 'n', 'g'],
        "webp"@ == seq!['w', 'e', 'b', 'p'],
        "gif"@ == seq!['g', 'i', 'f'],
        "bmp"@ == seq!['b', 'm', 'p'],
        "ico"@ == seq!['i', 'c', 'o'],
        "heic"@ == seq!['h', 'e', 'i', 'c'],
        "heif"@ == seq!['h', 'e', 'i', 'f'],
        "avif"@ == seq!['a', 'v', 'i', 'f'],
        "pdf"@ == seq!['p', 'd', 'f'],
        "svg"@ == seq!['s', 'v', 'g'],
        "dng"@ == seq!['d', 'n', 'g'],
        "txt"@ == seq!['t', 'x', 't'],
        "xlsx"@ == seq!['x', 'l', 's', 'x'],
        "csv"@ == seq!['c', 's', 'v'],
        "jfif"@ == seq!['j', 'f', 'i', 'f'],
        "apng"@ == seq!['a', 'p', 'n', 'g'],
{
    reveal_strlit("jpeg");
    assert("jpeg"@ =~= seq!['j', 'p', 'e', 'g']);
    reveal_strlit("jpg");
    assert("jpg"@ =~= seq!['j', 'p', 'g']);
    reveal_strlit("tif");
    assert("tif"@ =~= seq!['t', 'i', 'f']);
    reveal_strlit("tiff");
    assert("tiff"@ =~= seq!['t', 'i', 'f', 'f']);
    reveal_strlit("htm");
    assert("htm"@ =~= seq!['h', 't', 'm']);
    reveal_strlit("html");
    assert("html"@ =~= seq!['h', 't', 'm', 'l']);
    reveal_strlit("markdown");
    assert("markdown"@ =~= seq!['m', 'a', 'r', 'k', 'd', 'o', 'w', 'n']);
    reveal_strlit("md");
    assert("md"@ =~= seq!['m', 'd']);
    reveal_strlit("png");
    assert("png"@ =~= seq!['p', 'n', 'g']);
    reveal_strlit("webp");
    assert("webp"@ =~= seq!['w', 'e', 'b', 'p']);
    reveal_strlit("gif");
    assert("gif"@ =~= seq!['g', 'i', 'f']);
    reveal_strlit("bmp");
    assert("bmp"@ =~= seq!['b', 'm', 'p']);
    reveal_strlit("ico");
    assert("ico"@ =~= seq!['i', 'c', 'o']);
    reveal_strlit("heic");
    assert("heic"@ =~= seq!['h', 'e', 'i', 'c']);
    reveal_strlit("heif");
    assert("heif"@ =~= seq!['h', 'e', 'i', 'f']);
    reveal_strlit("avif");
    assert("avif"@ =~= seq!['a', 'v', 'i', 'f']);
    reveal_strlit("pdf");
    assert("pdf"@ =~= seq!['p', 'd', 'f']);
    reveal_strlit("svg");
    assert("svg"@ =~= seq!['s', 'v', 'g']);
    reveal_strlit("dng");
    assert("dng"@ =~= seq!['d', 'n', 'g']);
    reveal_strlit("txt");
    assert("txt"@ =~= seq!['t', 'x', 't']);
    reveal_strlit("xlsx");
    assert("xlsx"@ =~= seq!['x', 'l', 's', 'x']);
    reveal_strlit("csv");
    assert("csv"@ =~= seq!['c', 's', 'v']);
    reveal_strlit("jfif");
    assert("jfif"@ =~= seq!['j', 'f', 'i', 'f']);
    reveal_strlit("apng");
    assert("apng"@ =~= seq!['a', 'p', 'n', 'g']);
}

/// Whether `s` is the text `lit`.
pub(crate) fn is(s: &String, lit: &str) -> (r: bool)
    ensures
        r == (s@ == lit@),
{
    s.eq(&String::from_str(lit))
}


/// Calls `std::path::Path::file_stem` on `p`; the stem of a path made from a
/// `str` is valid UTF-8, so `to_string_lossy` hands it back unchanged. The
/// contract names the result: it depends on `p` alone.
#[verifier::external_body]
pub(crate) fn file_stem(p: &str) -> (r: Option<String>)
    ensures
        match r {
            Some(s) => path_file_stem(p@) == Some(s@),
            None => path_file_stem(p@) is None,
        },
{
    std::path::Path::new(p).file_stem().map(|s| s.to_string_lossy().into_owned())
}

/// Calls `std::path::Path::extension` on `p`, converted as in `file_stem`.
#[verifier::external_body]
pub(crate) fn extension(p: &str) -> (r: Option<String>)
    ensures
        match r {
            Some(s) => path_extension(p@) == Some(s@),
            None => path_extension(p@) is None,
        },
{
    std::path::Path::new(p).extension().map(|s| s.to_string_lossy().into_owned())
}

/// Calls `std::path::Path::parent` on `p`, converted as in `file_stem`.
#[verifier::external_body]
pub(crate) fn parent(p: &str) -> (r: Option<String>)
    ensures
        match r {
            Some(s) => path_parent(p@) == Some(s@),
            None => path_parent(p@) is None,
        },
{
    std::path::Path::new(p).parent().map(|s| s.to_string_lossy().into_owned())
}

/// Calls `std::path::Path::file_name` on `p`, converted as in `file_stem`.
#[verifier::external_body]
pub(crate) fn file_name(p: &str) -> (r: Option<String>)
    ensures
        match r {
            Some(s) => path_file_name(p@) == Some(s@),
            None => path_file_name(p@) is None,
        },
{
    std::path::Path::new(p).file_name().map(|s| s.to_string_lossy().into_owned())
}

/// Calls `std::path::Path::join` on `base` and `name`; the joined path of two
/// strings is valid UTF-8 and comes back unchanged from `to_string_lossy`.
#[verifier::external_body]
pub(crate) fn join(base: &str, name: &str) -> (r: String)
    ensures
        r@ == path_join(base@, name@),
{
    std::path::Path::new(base).join(name).to_string_lossy().into_owned()
}

/// Calls `str::to_lowercase` on `s`. Its result depends on `s` alone (the
/// mapping is Unicode's, with no locale), and for ASCII text it is the ASCII
/// mapping: the documentation defines lowercase by Unicode's Lowercase
/// property, under which `A` to `Z` map to `a` to `z` and every other ASCII
/// character maps to itself.
#[verifier::external_body]
pub(crate) fn to_lowercase(s: &str) -> (r: String)
    ensures
        r@ == lowercase_of(s@),
        all_ascii(s@) ==> r@ == ascii_lower(s@),
{
    s.to_lowercase()
}

/// `s` with the ASCII letters `A` to `Z` mapped to `a` to `z`.
pub fn to_ascii_lower(s: &str) -> (r: String)
    ensures
        r@ == ascii_lower(s@),
{
    let v = to_chars(s);
    let mut out: Vec<char> = Vec::new();
    let mut i: usize = 0;
    while i < v.len()
        invariant
            i <= v@.len(),
            v@ == s@,
            out@ == ascii_lower(v@.take(i as int)),
        decreases v@.len() - i,
    {
        let c = v[i];
        let d = if 'A' <= c && c <= 'Z' {
            ((c as u8) + 32) as char
        } else {
            c
        };
        out.push(d);
        i = i + 1;
        assert(ascii_lower(v@.take(i as int)) =~= ascii_lower(v@.take(i - 1)).push(d));
    }
    assert(v@.take(v@.len() as int) == v@);
    from_chars(&out)
}

/// The lowercase extension of the path `p`, if it has one.
pub open spec fn lower_extension(p: Seq<char>) -> Option<Seq<char>> {
    match path_extension(p) {
        Some(e) => Some(lowercase_of(e)),
        None => None,
    }
}

pub trait ExtExt {
    /// Return the file's extension as a lowercase owned string, if any.
    fn ext_lower(&self) -> Option<String>;
}

impl ExtExt for str {
    fn ext_lower(&self) -> (r: Option<String>)
        ensures
            match r {
                Some(e) => lower_extension(self@) == Some(e@),
                None => lower_extension(self@) is None,
            },
    {
        match extension(self) {
            Some(e) => Some(to_lowercase(e.as_str())),
            None => None,
        }
    }
}

impl ExtExt for String {
    fn ext_lower(&self) -> (r: Option<String>)
        ensures
            match r {
                Some(e) => lower_extension(self@) == Some(e@),
                None => lower_extension(self@) is None,
            },
    {
        self.as_str().ext_lower()
    }
}

/// The highest number tried in a ` (n)` suffix.
pub const MAX_SIBLING: u32 = 9999;

/// The file name of the `i`-th alternative to a path whose stem and
/// extension are given: `stem (i).ext`, or `stem (i)` without an extension.
pub open spec fn numbered_name(stem: Seq<char>, i: nat, ext: Seq<char>) -> Seq<char> {
    let base = stem + " ("@ + decimal(i) + ")"@;
    if ext.len() == 0 {
        base
    } else {
        base + "."@ + ext
    }
}

pub open spec fn or_empty(o: Option<Seq<char>>) -> Seq<char> {
    match o {
        Some(s) => s,
        None => Seq::empty(),
    }
}

/// The `i`-th path tried for `candidate`: the candidate itself for 0, else
/// its sibling `stem (i).ext` in the same directory (`.` when the candidate
/// has no parent).
pub open spec fn sibling(candidate: Seq<char>, i: nat) -> Seq<char> {
    if i == 0 {
        candidate
    } else {
        let dir = match path_parent(candidate) {
            Some(d) => d,
            None => "."@,
        };
        path_join(
            dir,
            numbered_name(
                or_empty(path_file_stem(candidate)),
                i,
                or_empty(path_extension(candidate)),
            ),
        )
    }
}

/// The path tried at attempt `attempt` of `unique_sibling_path`.
pub fn sibling_candidate(candidate: &str, attempt: u32) -> (r: String)
    ensures
        r@ == sibling(candidate@, attempt as nat),
{
    if attempt == 0 {
        return String::from_str(candidate);
    }
    let dir = match parent(candidate) {
        Some(d) => d,
        None => String::from_str("."),
    };
    let stem = match file_stem(candidate) {
        Some(s) => s,
        None => String::new(),
    };
    let ext = match extension(candidate) {
        Some(e) => e,
        None => String::new(),
    };
    proof {
        reveal_strlit(" (");
        reveal_strlit(")");
        reveal_strlit(".");
        assert(" ("@ == seq![' ', '(']);
        assert(")"@ == seq![')']);
        assert("."@ == seq!['.']);
    }
    let mut name = to_chars(stem.as_str());
    name.push(' ');
    name.push('(');
    push_decimal(&mut name, attempt as u64);
    name.push(')');
    let ghost base = name@;
    assert(base == stem@ + " ("@ + decimal(attempt as nat) + ")"@);
    let e = to_chars(ext.as_str());
    if e.len() > 0 {
        name.push('.');
        push_all(&mut name, &e);
    }
    assert(name@ == numbered_name(stem@, attempt as nat, ext@));
    let n = from_chars(&name);
    join(dir.as_str(), n.as_str())
}

/// What to do after probing whether a path exists.
#[derive(Debug)]
pub enum SiblingStep {
    /// Use this path.
    Accept(String),
    /// Probe the path of this attempt next.
    Probe(u32),
    /// Every name tried exists: there is no free name, and nothing may be
    /// overwritten.
    Exhausted,
}

/// Given a candidate output path, choose a path that doesn't clash with an
/// existing file. If `file.png` exists, try `file (1).png`, `file (2).png`,
/// and so on up to 9999; when all of them exist, report that no free name is
/// left rather than overwrite a file.
///
/// The caller probes the file system: it checks whether
/// `sibling_candidate(candidate, attempt)` exists, starting at attempt 0, and
/// hands the answer here until the answer is `Accept`.
pub fn unique_sibling_path(candidate: &str, attempt: u32, exists: bool) -> (r: SiblingStep)
    ensures
        !exists ==> (r matches SiblingStep::Accept(p) && p@ == sibling(candidate@, attempt as nat)),
        exists && attempt < MAX_SIBLING ==> (r matches SiblingStep::Probe(n) && n == attempt + 1),
        exists && attempt >= MAX_SIBLING ==> r is Exhausted,
{
    if !exists {
        SiblingStep::Accept(sibling_candidate(candidate, attempt))
    } else if attempt < MAX_SIBLING {
        SiblingStep::Probe(attempt + 1)
    } else {
        SiblingStep::Exhausted
    }
}

} // verus!
