//! The failure taxonomy of the preprocessor.

use vstd::prelude::*;

verus! {

/// The kinds of failure the preprocessor distinguishes.
#[derive(Clone, Copy, Debug, PartialEq, Eq, Structural)]
pub enum ErrorKind {
    /// A file could not be read.
    Io,
    /// A context source did not parse as the expected format.
    Parse,
    /// A glob pattern for template discovery was malformed.
    PatternInvalid,
    /// A template batch could not be registered: a template of the batch does
    /// not parse, or a parent named by an inheriting template is missing from
    /// the combined set.
    Inheritance,
    /// A template failed to evaluate against the context.
    Eval,
    /// The requested template is not registered.
    NotFound,
    /// A chapter path is not representable as portable text.
    InvalidPath,
    /// Mutually exclusive context options were both supplied.
    Configuration,
}

/// A failure, optionally annotated with the path of the chapter on which it
/// arose.
#[derive(Clone, Debug, PartialEq, Eq)]
pub struct Error {
    /// What went wrong.
    pub kind: ErrorKind,
    /// The path of the offending chapter, where one is known.
    pub chapter: Option<String>,
}

impl Error {
    /// A failure outside any particular chapter.
    pub fn new(kind: ErrorKind) -> (r: Error)
        ensures
            r.kind == kind,
            r.chapter is None,
    {
        Error { kind, chapter: None }
    }

    /// A failure annotated with the path of the chapter it arose on.
    pub fn in_chapter(kind: ErrorKind, chapter: String) -> (r: Error)
        ensures
            r.kind == kind,
            r.chapter == Some(chapter),
    {
        Error { kind, chapter: Some(chapter) }
    }
}

} // verus!
