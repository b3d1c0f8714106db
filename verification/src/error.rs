//! Error kinds for CTI decoding.

use vstd::prelude::*;
use vstd::string::StringExecFns;
use crate::compression::CompressionId;
use crate::compression::spec_dec_u8;
use crate::compression::spec_describe;
use crate::compression::dec_u8;

verus! {

/// A decode failure. Every failure aborts the whole decode: there is no
/// partial output and no recovery.
#[derive(Clone, Copy, Debug, PartialEq, Eq, Structural)]
pub enum CtiError {
    /// The file ends before a structure that must be read is complete.
    IOError,
    /// Structural corruption: bad magic, a compressed payload the engine
    /// rejects, or a tile too short for the region it must fill.
    FormatError,
    /// The header's color type identifier is outside the known set;
    /// carries the raw identifier byte.
    UnsupportedColorType(u8),
    /// The header names a compression mode with no decode behaviour, or an
    /// unrecognized one; carries the raw identifier byte for diagnostics.
    UnsupportedCompression(u8),
    /// A tile's checksum does not match its decompressed bytes.
    IntegrityError,
}

/// The characters of the human-readable report for each error kind.
pub open spec fn spec_error_message(e: CtiError) -> Seq<char> {
    match e {
        CtiError::IOError => "I/O error: truncated or unreadable data"@,
        CtiError::FormatError => "Format error: malformed data"@,
        CtiError::UnsupportedColorType(v) => "Unsupported color type id "@ + spec_dec_u8(v),
        CtiError::UnsupportedCompression(v) => "Unsupported compression: "@ + spec_describe(
            crate::compression::spec_compression_from(v),
        ),
        CtiError::IntegrityError => "Integrity error: checksum mismatch"@,
    }
}

impl CtiError {
    /// Human-readable report of the failure; for an unsupported
    /// compression mode it names the mode, with the raw byte for an
    /// unrecognized one.
    pub fn message(&self) -> (r: String)
        ensures
            r@ == spec_error_message(*self),
    {
        match *self {
            CtiError::IOError => String::from_str("I/O error: truncated or unreadable data"),
            CtiError::FormatError => String::from_str("Format error: malformed data"),
            CtiError::UnsupportedColorType(v) => {
                let mut s = String::from_str("Unsupported color type id ");
                let d = dec_u8(v);
                s.append(d.as_str());
                s
            },
            CtiError::UnsupportedCompression(v) => {
                let mut s = String::from_str("Unsupported compression: ");
                let d = CompressionId::from(v).describe();
                s.append(d.as_str());
                s
            },
            CtiError::IntegrityError => String::from_str("Integrity error: checksum mismatch"),
        }
    }
}

} // verus!
