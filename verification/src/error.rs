//! What can go wrong in a search.

use vstd::prelude::*;

verus! {

/// A setting that a search cannot run without.
#[derive(Debug, Clone, Copy, PartialEq, Eq, Structural)]
pub enum Parameter {
    /// The substring of the block names to look for.
    Block,
    /// The directory that holds the region files.
    Directory,
}

/// Why a search failed.
#[derive(Debug, Clone, Copy, PartialEq, Eq, Structural)]
pub enum SearchError {
    /// A file name does not name a region: it is not `r.<X>.<Z>.mca` and
    /// nothing more, or one of the two numbers cannot be read.
    InvalidFilename,
    /// A region file could not be opened or read. The library reads no
    /// files: this is for the reader to tell of its own failure.
    IoError,
    /// The contents of a region or of a chunk are malformed: the decoder
    /// failed, or what it found is no chunk of a region.
    DecodeError,
    /// A required setting was given neither on the command line nor in the
    /// configuration file.
    MissingParameter(Parameter),
}

} // verus!
