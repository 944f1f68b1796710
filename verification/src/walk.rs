//! Source files found under the input directory.
use vstd::prelude::*;
use std::path::PathBuf;
use crate::text::{chars_of, eq_ignore_ascii_case, eq_ignore_ascii_case_exec};

verus! {

/// A Markdown source file and its path relative to the input root.
#[derive(Debug, Clone)]
pub struct MdFile {
    pub absolute: PathBuf,
    /// Relative path including the `.md` filename (e.g. `docs/intro.md`).
    pub relative: PathBuf,
}

/// A non-Markdown source file and its path relative to the input root.
#[derive(Debug, Clone)]
pub struct AssetFile {
    pub absolute: PathBuf,
    /// Relative path including the filename (e.g. `images/logo.png`).
    pub relative: PathBuf,
}

/// A file is Markdown when its extension is `md` in any ASCII case.
pub open spec fn markdown_extension(extension: Option<Seq<char>>) -> bool {
    match extension {
        Some(e) => eq_ignore_ascii_case(e, "md"@),
        None => false,
    }
}

/// Whether a file with this extension (`None`: none, or not UTF-8) is a Markdown source.
pub fn is_markdown_extension(extension: Option<&str>) -> (b: bool)
    ensures
        b == markdown_extension(
            match extension {
                Some(e) => Some(e@),
                None => None,
            },
        ),
{
    match extension {
        Some(e) => {
            let ec = chars_of(e);
            let md = chars_of("md");
            eq_ignore_ascii_case_exec(ec.as_slice(), md.as_slice())
        },
        None => false,
    }
}

} // verus!
