use vstd::prelude::*;

verus! {

/// Every failure a catalog store can report.
#[derive(Debug, PartialEq, Eq)]
pub enum Error {
    /// A file could not be opened, created, read or written.  The store's own
    /// operations never produce this variant: the caller that performs the
    /// file I/O does.
    IOError(String),
    /// The backing file's contents are not a valid encoded catalog; the
    /// payload carries the decoder's message.
    DeserializationError(String),
    /// `add` was given a meal whose name is already present; the payload is
    /// that name.
    AddError(String),
    /// A search pattern the store cannot interpret.  Reserved for pattern
    /// syntax beyond literal substrings: under substring-only search every
    /// pattern is accepted and this variant is never produced.
    InvalidSearchPattern(String),
    /// `info` was given a name that no entry carries; the payload is that
    /// name.
    MealDoesNotExist(String),
}

} // verus!
