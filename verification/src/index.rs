//! The tile index: fixed-size per-tile records following the header.
//!
//! Record `i` belongs to the tile at grid column `i % tiles_x`, row
//! `i / tiles_x`. Each record is 20 bytes: a u64 absolute payload offset,
//! a u32 compressed length, a u32 declared decompressed length, and a u32
//! checksum of the decompressed bytes.

use vstd::prelude::*;
use vstd::bytes::spec_u32_from_le_bytes;
use vstd::bytes::spec_u64_from_le_bytes;
use crate::error::CtiError;
use crate::header::read_u32_le;
use crate::header::read_u64_le;

verus! {

/// Size of one tile index record in bytes.
pub const INDEX_RECORD_SIZE: usize = 20;

/// One tile's location, sizes and checksum.
#[derive(Clone, Copy, Debug)]
pub struct TileIndex {
    /// Absolute byte offset of the compressed payload in the file.
    pub offset: u64,
    /// Length of the compressed payload in bytes.
    pub compressed_size: u32,
    /// Declared length of the decompressed payload in bytes.
    pub original_size: u32,
    /// Checksum of the decompressed bytes.
    pub crc32: u32,
}

/// The record `rec` holds exactly the fields the 20 bytes of `b` at
/// `base` encode.
pub open spec fn index_matches(rec: TileIndex, b: Seq<u8>, base: int) -> bool {
    &&& rec.offset == spec_u64_from_le_bytes(b.subrange(base, base + 8))
    &&& rec.compressed_size == spec_u32_from_le_bytes(b.subrange(base + 8, base + 12))
    &&& rec.original_size == spec_u32_from_le_bytes(b.subrange(base + 12, base + 16))
    &&& rec.crc32 == spec_u32_from_le_bytes(b.subrange(base + 16, base + 20))
}

/// Parses `n` contiguous tile index records starting at `pos`. Succeeds
/// exactly when the data reaches to the end of the last record; no
/// cross-validation against the image geometry is performed.
pub fn read_indices(bytes: &[u8], pos: usize, n: usize) -> (r: Result<Vec<TileIndex>, CtiError>)
    ensures
        pos + n * INDEX_RECORD_SIZE <= bytes@.len() ==> (r matches Ok(v) && v@.len() == n
            && forall|i: int|
            0 <= i < n ==> index_matches(#[trigger] v@[i], bytes@, pos + i * INDEX_RECORD_SIZE)),
        pos + n * INDEX_RECORD_SIZE > bytes@.len() ==> r == Err::<Vec<TileIndex>, CtiError>(
            CtiError::IOError,
        ),
{
    if pos > bytes.len() || n > (bytes.len() - pos) / INDEX_RECORD_SIZE {
        proof {
            if pos + n * INDEX_RECORD_SIZE <= bytes@.len() {
                assert(pos <= bytes@.len());
                assert(n * INDEX_RECORD_SIZE <= bytes@.len() - pos);
                assert(n <= (bytes@.len() - pos) as int / INDEX_RECORD_SIZE as int)
                    by (nonlinear_arith)
                    requires
                        n * INDEX_RECORD_SIZE <= bytes@.len() - pos,
                        INDEX_RECORD_SIZE == 20,
                        n >= 0,
                ;
            }
        }
        return Err(CtiError::IOError);
    }
    proof {
        assert(n * INDEX_RECORD_SIZE <= bytes@.len() - pos) by (nonlinear_arith)
            requires
                n <= (bytes@.len() - pos) as int / INDEX_RECORD_SIZE as int,
                INDEX_RECORD_SIZE == 20,
                pos <= bytes@.len(),
                n >= 0,
        ;
    }
    let len = bytes.len();
    let mut v: Vec<TileIndex> = Vec::new();
    let mut i: usize = 0;
    while i < n
        invariant
            0 <= i <= n,
            pos + n * INDEX_RECORD_SIZE <= bytes@.len(),
            bytes@.len() == len,
            INDEX_RECORD_SIZE == 20,
            v@.len() == i,
            forall|j: int|
                0 <= j < i ==> index_matches(#[trigger] v@[j], bytes@, pos + j * INDEX_RECORD_SIZE),
        decreases n - i,
    {
        proof {
            assert((i + 1) * INDEX_RECORD_SIZE <= n * INDEX_RECORD_SIZE) by (nonlinear_arith)
                requires
                    i < n,
                    INDEX_RECORD_SIZE == 20,
            ;
            assert(i * INDEX_RECORD_SIZE + INDEX_RECORD_SIZE == (i + 1) * INDEX_RECORD_SIZE)
                by (nonlinear_arith);
            assert(pos + i * INDEX_RECORD_SIZE + INDEX_RECORD_SIZE <= bytes@.len());
        }
        let base: usize = pos + i * INDEX_RECORD_SIZE;
        let offset = match read_u64_le(bytes, base) {
            Ok(x) => x,
            Err(e) => return Err(e),
        };
        let compressed_size = match read_u32_le(bytes, base + 8) {
            Ok(x) => x,
            Err(e) => return Err(e),
        };
        let original_size = match read_u32_le(bytes, base + 12) {
            Ok(x) => x,
            Err(e) => return Err(e),
        };
        let crc32 = match read_u32_le(bytes, base + 16) {
            Ok(x) => x,
            Err(e) => return Err(e),
        };
        v.push(TileIndex { offset, compressed_size, original_size, crc32 });
        i = i + 1;
    }
    Ok(v)
}

} // verus!
