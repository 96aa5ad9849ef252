//! What the front end is handed back: file metadata, conversion results, and
//! where a converted file goes.
use vstd::prelude::*;

use crate::util::{
    file_name, file_stem, join, lower_extension, lowercase_of, parent, path_file_name, path_file_stem,
    path_join, path_parent, to_lowercase, ExtExt,
};

verus! {

broadcast use vstd::string::group_string_axioms;

/// Basic metadata of a file the user dropped.
#[derive(Debug)]
pub struct FileMeta {
    pub path: String,
    pub name: String,
    pub size_bytes: u64,
}

/// The metadata of the file at `path` of `size_bytes` bytes: its name is the
/// path's file name, or the path itself when it has none.
pub fn file_meta(path: &str, size_bytes: u64) -> (m: FileMeta)
    ensures
        m.path@ == path@,
        m.name@ == (match path_file_name(path@) {
            Some(n) => n,
            None => path@,
        }),
        m.size_bytes == size_bytes,
{
    let name = match file_name(path) {
        Some(n) => n,
        None => String::from_str(path),
    };
    FileMeta { path: String::from_str(path), name, size_bytes }
}

/// The outcome of one conversion: the output path when it succeeded, the
/// error message when it failed.
#[derive(Debug)]
pub struct ConversionResult {
    pub ok: bool,
    pub output_path: Option<String>,
    pub error: Option<String>,
}

impl ConversionResult {
    /// Exactly one of the output path and the error is present, and `ok`
    /// says which.
    pub open spec fn wf(&self) -> bool {
        &&& self.ok <==> self.output_path is Some
        &&& self.ok <==> self.error is None
    }

    /// A failed conversion with the message `msg`.
    pub open spec fn fails_with(&self, msg: Seq<char>) -> bool {
        &&& self.wf()
        &&& self.error matches Some(e) && e@ == msg
    }

    /// A successful conversion that wrote `path`.
    pub fn ok(path: String) -> (r: Self)
        ensures
            r.wf(),
            r.ok,
            r.output_path matches Some(p) && p@ == path@,
    {
        ConversionResult { ok: true, output_path: Some(path), error: None }
    }

    /// A failed conversion.
    pub fn err(msg: String) -> (r: Self)
        ensures
            r.wf(),
            !r.ok,
            r.error matches Some(e) && e@ == msg@,
    {
        ConversionResult { ok: false, output_path: None, error: Some(msg) }
    }
}

/// Why no output path could be chosen.
#[derive(Debug)]
pub enum OutputPathError {
    /// The input path has no file stem.
    NoStem,
    /// The input path has no parent directory; the input path.
    NoParent(String),
}

impl OutputPathError {
    pub open spec fn spec_message(&self) -> Seq<char> {
        match self {
            OutputPathError::NoStem => "Input has no filename stem"@,
            OutputPathError::NoParent(p) => "Input path has no parent directory: "@ + p@,
        }
    }

    /// The message shown to the user.
    pub fn message(&self) -> (s: String)
        ensures
            s@ == self.spec_message(),
    {
        match self {
            OutputPathError::NoStem => String::from_str("Input has no filename stem"),
            OutputPathError::NoParent(p) => {
                let mut m = String::from_str("Input path has no parent directory: ");
                m.append(p.as_str());
                m
            },
        }
    }
}

/// The output file name for an input stem and a target extension.
pub open spec fn output_name(stem: Seq<char>, target_ext: Seq<char>) -> Seq<char> {
    stem + "."@ + target_ext
}

/// Where the output of converting `input` to `target_ext` goes, before name
/// clashes are resolved: `stem.target_ext` in `output_dir` when one is given,
/// else next to the input.
pub open spec fn output_candidate(
    input: Seq<char>,
    target_ext: Seq<char>,
    output_dir: Option<Seq<char>>,
) -> Option<Seq<char>> {
    match path_file_stem(input) {
        None => None,
        Some(stem) => match output_dir {
            Some(d) => Some(path_join(d, output_name(stem, target_ext))),
            None => match path_parent(input) {
                Some(dir) => Some(path_join(dir, output_name(stem, target_ext))),
                None => None,
            },
        },
    }
}

/// Choose the output path for converting `input` to `target_ext`.
///
/// When `output_dir` is given, the file goes there (the caller creates the
/// folder); otherwise it lands next to the source file. Name clashes are
/// resolved afterwards with `unique_sibling_path`, so nothing is overwritten.
pub fn pick_output_path(input: &str, target_ext: &str, output_dir: Option<&str>) -> (r: Result<
    String,
    OutputPathError,
>)
    ensures
        match output_candidate(
            input@,
            target_ext@,
            match output_dir {
                Some(d) => Some(d@),
                None => None,
            },
        ) {
            Some(p) => r matches Ok(q) && q@ == p,
            None => match path_file_stem(input@) {
                None => r matches Err(OutputPathError::NoStem),
                Some(_) => r matches Err(OutputPathError::NoParent(p)) && p@ == input@,
            },
        },
{
    let stem = match file_stem(input) {
        Some(s) => s,
        None => return Err(OutputPathError::NoStem),
    };
    let dir = match output_dir {
        Some(d) => String::from_str(d),
        None => match parent(input) {
            Some(p) => p,
            None => return Err(OutputPathError::NoParent(String::from_str(input))),
        },
    };
    let mut name = stem;
    name.append(".");
    name.append(target_ext);
    Ok(join(dir.as_str(), name.as_str()))
}


/// The extensions a conversion starts from: the input's lowercase extension
/// and the lowercase target extension. The input must have an extension and
/// must still exist (`input_exists`, as the caller found); otherwise the
/// conversion ends here with the failure the user is shown.
pub fn prepare_conversion(input_path: &str, target_ext: &str, input_exists: bool) -> (r: Result<
    (String, String),
    ConversionResult,
>)
    ensures
        match lower_extension(input_path@) {
            None => r matches Err(f) && f.fails_with("Input file has no extension."@),
            Some(src) => if !input_exists {
                r matches Err(f) && f.fails_with("Input file no longer exists."@)
            } else {
                r matches Ok((s, t)) && s@ == src && t@ == lowercase_of(target_ext@)
            },
        },
{
    let source_ext = match input_path.ext_lower() {
        Some(e) => e,
        None => return Err(ConversionResult::err(String::from_str("Input file has no extension."))),
    };
    if !input_exists {
        return Err(ConversionResult::err(String::from_str("Input file no longer exists.")));
    }
    Ok((source_ext, to_lowercase(target_ext)))
}

} // verus!
