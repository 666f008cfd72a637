//! Decoder for the primary header and data unit of a FITS image file.
//!
//! A FITS file is a sequence of 2880-byte blocks. The primary header is one or
//! more blocks of 80-byte ASCII cards ending with an `END` card; the pixel
//! payload follows it, padded out to a whole number of blocks.

pub mod text;
pub mod header;
pub mod geometry;
pub mod payload;
pub mod facts;
pub mod samples;
pub mod texture_display;

use vstd::prelude::*;

verus! {

/// Why a FITS buffer could not be decoded.
#[derive(Debug, Clone, PartialEq, Eq)]
pub enum FitsError {
    /// A header card's keyword or value bytes are not valid UTF-8 text.
    DecodeError,
    /// The buffer is not a whole number of blocks, or ends before an `END` card.
    TruncatedHeaderError,
    /// A required keyword is absent from the header.
    MissingKeywordError(String),
    /// A required keyword's value is not a number of the expected kind: the
    /// keyword and its raw value.
    MalformedValueError(String, String),
    /// The buffer ends before the pixel payload that the header declares.
    TruncatedDataError,
}

} // verus!
