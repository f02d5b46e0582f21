//! Configuration errors, reported before any statement is built.

use vstd::prelude::*;

verus! {

/// Why a request was refused before any statement was built.
#[derive(Debug, Clone, Copy, PartialEq, Eq, Structural)]
pub enum ConfigError {
    /// The record type declares no columns.
    NoColumns,
    /// The chunk size is zero: given as zero, or derived from a type with
    /// more columns than one statement may bind.
    ZeroChunkSize,
    /// A numbered marker would need an index beyond `usize::MAX`.
    IndexOverflow,
}

/// Why an insertion failed.
#[derive(Debug, Clone, PartialEq, Eq)]
pub enum InsertError<E> {
    /// The request was refused before any statement was built.
    Config(ConfigError),
    /// The executor failed on the statement of a single insert.
    Statement(E),
    /// The executor failed on chunk `index` of a bulk insert; the chunks
    /// before it were executed.
    Chunk { index: usize, source: E },
}

impl ConfigError {
    /// A short description of the error.
    pub fn message(&self) -> (r: &'static str)
        ensures
            r@ == match *self {
                ConfigError::NoColumns => "the record type has no columns"@,
                ConfigError::ZeroChunkSize => "the chunk size is zero"@,
                ConfigError::IndexOverflow => "placeholder index out of range"@,
            },
    {
        match self {
            ConfigError::NoColumns => "the record type has no columns",
            ConfigError::ZeroChunkSize => "the chunk size is zero",
            ConfigError::IndexOverflow => "placeholder index out of range",
        }
    }
}

} // verus!
