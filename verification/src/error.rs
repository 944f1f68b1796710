//! Error type of the library.
use vstd::prelude::*;
use std::path::PathBuf;
use std::string::FromUtf8Error;
use walkdir::Error as WalkDirError;

verus! {

#[verifier::external_type_specification]
#[verifier::external_body]
pub struct ExIoError(std::io::Error);

#[verifier::external_type_specification]
#[verifier::external_body]
pub struct ExFromUtf8Error(FromUtf8Error);

#[verifier::external_type_specification]
#[verifier::external_body]
pub struct ExWalkDirError(WalkDirError);

#[verifier::external_type_specification]
#[verifier::external_body]
pub struct ExPathBuf(PathBuf);

/// `Clone` for `PathBuf`: a copy of the path. Nothing is claimed of the result.
pub assume_specification[ <std::path::PathBuf as Clone>::clone ](p: &PathBuf) -> PathBuf;

/// Library error type.
#[derive(Debug)]
pub enum Error {
    /// A file could not be read or written.
    Io(std::io::Error),
    /// A Markdown file is not UTF-8.
    Utf8(FromUtf8Error),
    /// The input directory could not be walked.
    WalkDir(WalkDirError),
    /// The input path is not a directory.
    InputNotDirectory(PathBuf),
    /// Any other failure, described by its message.
    Other(String),
}

pub type Result<T> = std::result::Result<T, Error>;

} // verus!
