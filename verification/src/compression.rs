//! Compression identifiers and per-tile decompression dispatch.
//!
//! Only the `None`, `Zstd` and `LZ4` modes have decode behaviour; the
//! remaining named modes and any unrecognized byte fail with
//! `UnsupportedCompression`.

use vstd::prelude::*;
use vstd::string::StringExecFns;
use crate::error::CtiError;

verus! {

/// A compression identifier: the named set of modes the format declares,
/// plus an escape case that preserves an unrecognized byte for diagnostics.
#[derive(Clone, Copy, Debug, PartialEq, Eq, Structural)]
pub enum CompressionId {
    Uncompressed,
    Rle,
    Lz77,
    Delta,
    Predictive,
    Zstd,
    Lz4,
    Unknown(u8),
}

/// The compression identifier a raw header byte denotes.
pub open spec fn spec_compression_from(v: u8) -> CompressionId {
    if v == 0 {
        CompressionId::Uncompressed
    } else if v == 1 {
        CompressionId::Rle
    } else if v == 2 {
        CompressionId::Lz77
    } else if v == 3 {
        CompressionId::Delta
    } else if v == 4 {
        CompressionId::Predictive
    } else if v == 10 {
        CompressionId::Zstd
    } else if v == 11 {
        CompressionId::Lz4
    } else {
        CompressionId::Unknown(v)
    }
}

impl From<u8> for CompressionId {
    fn from(v: u8) -> Self {
        match v {
            0 => CompressionId::Uncompressed,
            1 => CompressionId::Rle,
            2 => CompressionId::Lz77,
            3 => CompressionId::Delta,
            4 => CompressionId::Predictive,
            10 => CompressionId::Zstd,
            11 => CompressionId::Lz4,
            x => CompressionId::Unknown(x),
        }
    }
}

impl vstd::std_specs::convert::FromSpecImpl<u8> for CompressionId {
    open spec fn obeys_from_spec() -> bool {
        true
    }

    open spec fn from_spec(v: u8) -> Self {
        spec_compression_from(v)
    }
}

/// The characters of each mode's short name.
pub open spec fn spec_as_str(c: CompressionId) -> Seq<char> {
    match c {
        CompressionId::Uncompressed => "None"@,
        CompressionId::Rle => "RLE"@,
        CompressionId::Lz77 => "LZ77"@,
        CompressionId::Delta => "Delta"@,
        CompressionId::Predictive => "Predictive"@,
        CompressionId::Zstd => "Zstd"@,
        CompressionId::Lz4 => "LZ4"@,
        CompressionId::Unknown(_) => "Unknown"@,
    }
}

/// The decimal digit character for a value below ten.
pub open spec fn spec_digit_char(d: u8) -> char {
    if d == 0 {
        '0'
    } else if d == 1 {
        '1'
    } else if d == 2 {
        '2'
    } else if d == 3 {
        '3'
    } else if d == 4 {
        '4'
    } else if d == 5 {
        '5'
    } else if d == 6 {
        '6'
    } else if d == 7 {
        '7'
    } else if d == 8 {
        '8'
    } else {
        '9'
    }
}

/// The decimal digit characters of a byte value, without leading zeros.
pub open spec fn spec_dec_u8(v: u8) -> Seq<char> {
    if v >= 100 {
        seq![
            spec_digit_char((v / 100) as u8),
            spec_digit_char(((v / 10) % 10) as u8),
            spec_digit_char((v % 10) as u8),
        ]
    } else if v >= 10 {
        seq![spec_digit_char((v / 10) as u8), spec_digit_char((v % 10) as u8)]
    } else {
        seq![spec_digit_char(v)]
    }
}

/// The characters of a mode's full description: the short name, with the
/// raw byte in parentheses for an unrecognized mode.
pub open spec fn spec_describe(c: CompressionId) -> Seq<char> {
    match c {
        CompressionId::Unknown(v) => "Unknown("@ + spec_dec_u8(v) + ")"@,
        _ => spec_as_str(c),
    }
}

/// One decimal digit as a string slice.
fn digit_str(d: u8) -> (r: &'static str)
    requires
        d < 10,
    ensures
        r@ == seq![spec_digit_char(d)],
{
    proof {
        reveal_strlit("0");
        reveal_strlit("1");
        reveal_strlit("2");
        reveal_strlit("3");
        reveal_strlit("4");
        reveal_strlit("5");
        reveal_strlit("6");
        reveal_strlit("7");
        reveal_strlit("8");
        reveal_strlit("9");
    }
    match d {
        0 => "0",
        1 => "1",
        2 => "2",
        3 => "3",
        4 => "4",
        5 => "5",
        6 => "6",
        7 => "7",
        8 => "8",
        _ => "9",
    }
}

/// A byte value rendered as decimal digits, without leading zeros.
pub fn dec_u8(v: u8) -> (r: String)
    ensures
        r@ == spec_dec_u8(v),
{
    let mut s = String::new();
    if v >= 100 {
        s.append(digit_str(v / 100));
    }
    if v >= 10 {
        s.append(digit_str((v / 10) % 10));
    }
    s.append(digit_str(v % 10));
    proof {
        assert(s@ =~= spec_dec_u8(v));
    }
    s
}

impl CompressionId {
    /// The mode's short name; an unrecognized byte is named "Unknown"
    /// without its value.
    pub fn as_str(self) -> (r: &'static str)
        ensures
            r@ == spec_as_str(self),
    {
        match self {
            CompressionId::Uncompressed => "None",
            CompressionId::Rle => "RLE",
            CompressionId::Lz77 => "LZ77",
            CompressionId::Delta => "Delta",
            CompressionId::Predictive => "Predictive",
            CompressionId::Zstd => "Zstd",
            CompressionId::Lz4 => "LZ4",
            CompressionId::Unknown(_) => "Unknown",
        }
    }

    /// Human-readable description; includes the numeric value for an
    /// unrecognized mode, as in "Unknown(99)".
    pub fn describe(self) -> (r: String)
        ensures
            r@ == spec_describe(self),
    {
        match self {
            CompressionId::Unknown(v) => {
                let mut s = String::from_str("Unknown(");
                let d = dec_u8(v);
                s.append(d.as_str());
                s.append(")");
                proof {
                    assert(s@ =~= spec_describe(CompressionId::Unknown(v)));
                }
                s
            },
            other => String::from_str(other.as_str()),
        }
    }
}

/// What `zstd::bulk::decompress` returns for a compressed block and a
/// capacity: the decompressed bytes, or nothing when the engine rejects
/// the block or the result would exceed the capacity.
pub uninterp spec fn zstd_inflate(comp: Seq<u8>, capacity: nat) -> Option<Seq<u8>>;

/// What `lz4_flex::block::decompress_size_prepended` returns for a
/// size-prepended compressed block, or nothing when the engine rejects it.
pub uninterp spec fn lz4_inflate(comp: Seq<u8>) -> Option<Seq<u8>>;

/// Relies on `zstd::bulk::decompress`: single-block decompression into a
/// buffer of at most `capacity` bytes; deterministic in its arguments, and
/// an error when the data is malformed or the result exceeds the capacity.
#[verifier::external_body]
fn zstd_decompress(comp: &[u8], capacity: usize) -> (r: Option<Vec<u8>>)
    ensures
        match r {
            Some(v) => zstd_inflate(comp@, capacity as nat) == Some(v@) && v@.len() <= capacity,
            None => zstd_inflate(comp@, capacity as nat) is None,
        },
{
    match zstd::bulk::decompress(comp, capacity) {
        Ok(v) => Some(v),
        Err(_) => None,
    }
}

/// Relies on `lz4_flex::block::decompress_size_prepended`: the first four
/// bytes carry the decompressed length little-endian, and the result never
/// exceeds that length; deterministic in its argument, and an error when
/// the input is shorter than four bytes or the block is malformed.
#[verifier::external_body]
fn lz4_decompress(comp: &[u8]) -> (r: Option<Vec<u8>>)
    ensures
        match r {
            Some(v) => lz4_inflate(comp@) == Some(v@) && comp@.len() >= 4 && v@.len()
                <= vstd::bytes::spec_u32_from_le_bytes(comp@.subrange(0, 4)),
            None => lz4_inflate(comp@) is None,
        },
{
    match lz4_flex::block::decompress_size_prepended(comp) {
        Ok(v) => Some(v),
        Err(_) => None,
    }
}

/// What decompressing a tile yields for each compression mode: the bytes
/// unchanged for `None`, the engine's result for `Zstd` and `LZ4`, and an
/// `UnsupportedCompression` failure for every other identifier.
pub open spec fn spec_decompress(kind: u8, comp: Seq<u8>, original_size: nat) -> Result<
    Seq<u8>,
    CtiError,
> {
    if kind == 0 {
        Ok(comp)
    } else if kind == 10 {
        match zstd_inflate(comp, original_size) {
            Some(v) => Ok(v),
            None => Err(CtiError::FormatError),
        }
    } else if kind == 11 {
        match lz4_inflate(comp) {
            Some(v) => Ok(v),
            None => Err(CtiError::FormatError),
        }
    } else {
        Err(CtiError::UnsupportedCompression(kind))
    }
}

/// Decompresses one tile payload according to the compression identifier,
/// sizing the result by the index record's declared decompressed length
/// where the mode needs it.
pub fn decompress_tile_with_size(kind: u8, comp: &[u8], original_size: usize) -> (r: Result<
    Vec<u8>,
    CtiError,
>)
    ensures
        match r {
            Ok(v) => spec_decompress(kind, comp@, original_size as nat) == Ok::<
                Seq<u8>,
                CtiError,
            >(v@),
            Err(e) => spec_decompress(kind, comp@, original_size as nat) == Err::<
                Seq<u8>,
                CtiError,
            >(e),
        },
{
    match CompressionId::from(kind) {
        CompressionId::Uncompressed => Ok(vstd::slice::slice_to_vec(comp)),
        CompressionId::Zstd => match zstd_decompress(comp, original_size) {
            Some(v) => Ok(v),
            None => Err(CtiError::FormatError),
        },
        CompressionId::Lz4 => match lz4_decompress(comp) {
            Some(v) => Ok(v),
            None => Err(CtiError::FormatError),
        },
        _ => Err(CtiError::UnsupportedCompression(kind)),
    }
}

} // verus!
