//! The 32-bit cyclic redundancy check over decompressed tile bytes.
//!
//! Reflected input and output, polynomial 0xEDB88320, initial register
//! 0xFFFFFFFF, final bitwise complement, computed through a 256-entry
//! lookup table.

use vstd::prelude::*;
use crate::error::CtiError;

verus! {

/// One bit step of the reflected checksum: shift right, folding the
/// polynomial in when the low bit is set.
pub open spec fn crc_step(c: u32) -> u32 {
    if c & 1 == 1 {
        0xEDB8_8320u32 ^ (c >> 1)
    } else {
        c >> 1
    }
}

/// `n` bit steps applied to `c`.
pub open spec fn crc_steps(n: nat, c: u32) -> u32
    decreases n,
{
    if n == 0 {
        c
    } else {
        crc_step(crc_steps((n - 1) as nat, c))
    }
}

/// The lookup table entry for index `i`: eight bit steps.
pub open spec fn crc_entry(i: u32) -> u32
    recommends
        i < 256,
{
    crc_steps(8, i)
}

/// The register after absorbing one byte.
pub open spec fn crc_update(acc: u32, b: u8) -> u32 {
    (acc >> 8) ^ crc_entry((acc ^ b as u32) & 0xFF)
}

/// The register after absorbing all of `data`, starting from `acc`.
pub open spec fn crc_accum(data: Seq<u8>, acc: u32) -> u32
    decreases data.len(),
{
    if data.len() == 0 {
        acc
    } else {
        crc_accum(data.drop_first(), crc_update(acc, data[0]))
    }
}

/// The checksum of `data`: the complement of the register after absorbing
/// every byte, starting from all ones.
pub open spec fn spec_crc32(data: Seq<u8>) -> u32 {
    !crc_accum(data, 0xFFFF_FFFFu32)
}

/// Builds the 256-entry lookup table.
pub fn crc32_table() -> (t: Vec<u32>)
    ensures
        t@.len() == 256,
        forall|i: int| 0 <= i < 256 ==> t@[i] == crc_entry(i as u32),
{
    let mut t: Vec<u32> = Vec::new();
    let mut i: usize = 0;
    while i < 256
        invariant
            0 <= i <= 256,
            t@.len() == i,
            forall|k: int| 0 <= k < i ==> t@[k] == crc_entry(k as u32),
        decreases 256 - i,
    {
        let mut c: u32 = i as u32;
        let mut j: usize = 0;
        while j < 8
            invariant
                0 <= j <= 8,
                c == crc_steps(j as nat, i as u32),
            decreases 8 - j,
        {
            c = if c & 1 == 1 {
                0xEDB8_8320u32 ^ (c >> 1)
            } else {
                c >> 1
            };
            j = j + 1;
        }
        t.push(c);
        i = i + 1;
    }
    t
}

/// The checksum of `data`.
pub fn crc32(data: &[u8]) -> (r: u32)
    ensures
        r == spec_crc32(data@),
{
    let table = crc32_table();
    let mut crc: u32 = 0xFFFF_FFFFu32;
    let mut k: usize = 0;
    proof {
        assert(data@.skip(0) =~= data@);
    }
    while k < data.len()
        invariant
            0 <= k <= data@.len(),
            table@.len() == 256,
            forall|i: int| 0 <= i < 256 ==> table@[i] == crc_entry(i as u32),
            crc_accum(data@, 0xFFFF_FFFFu32) == crc_accum(data@.skip(k as int), crc),
        decreases data@.len() - k,
    {
        let b = *vstd::slice::slice_index_get(data, k);
        let x: u32 = (crc ^ b as u32) & 0xFF;
        proof {
            assert(x < 256) by (bit_vector)
                requires
                    x == (crc ^ b as u32) & 0xFF,
            ;
            assert(data@.skip(k as int).drop_first() =~= data@.skip(k as int + 1));
            assert(data@.skip(k as int)[0] == data@[k as int]);
        }
        crc = (crc >> 8) ^ table[x as usize];
        k = k + 1;
    }
    proof {
        assert(data@.skip(data@.len() as int).len() == 0);
    }
    !crc
}

/// Verifies a tile's decompressed bytes against the stored checksum: any
/// mismatch is an integrity failure that aborts the whole decode.
pub fn verify_checksum(data: &[u8], stored: u32) -> (r: Result<(), CtiError>)
    ensures
        spec_crc32(data@) == stored ==> r == Ok::<(), CtiError>(()),
        spec_crc32(data@) != stored ==> r == Err::<(), CtiError>(CtiError::IntegrityError),
{
    if crc32(data) == stored {
        Ok(())
    } else {
        Err(CtiError::IntegrityError)
    }
}

/// Absorbing one byte is injective in the register.
proof fn lemma_crc_update_injective_acc(a1: u32, a2: u32, b: u8)
    requires
        crc_update(a1, b) == crc_update(a2, b),
    ensures
        a1 == a2,
{
    assert(a1 == a2) by (bit_vector)
        requires
            crc_update(a1, b) == crc_update(a2, b),
    ;
}

/// Absorbing one byte is injective in the byte.
proof fn lemma_crc_update_injective_byte(acc: u32, b1: u8, b2: u8)
    requires
        crc_update(acc, b1) == crc_update(acc, b2),
    ensures
        b1 == b2,
{
    assert(b1 == b2) by (bit_vector)
        requires
            crc_update(acc, b1) == crc_update(acc, b2),
    ;
}

/// Absorbing the same bytes keeps distinct registers distinct.
proof fn lemma_crc_accum_injective(data: Seq<u8>, a1: u32, a2: u32)
    requires
        a1 != a2,
    ensures
        crc_accum(data, a1) != crc_accum(data, a2),
    decreases data.len(),
{
    if data.len() > 0 {
        if crc_update(a1, data[0]) == crc_update(a2, data[0]) {
            lemma_crc_update_injective_acc(a1, a2, data[0]);
        }
        lemma_crc_accum_injective(data.drop_first(), crc_update(a1, data[0]), crc_update(a2, data[0]));
    }
}

/// The register after a whole sequence is the register after its tail,
/// started from the register after its first `j` bytes.
proof fn lemma_crc_accum_split(data: Seq<u8>, j: int, acc: u32)
    requires
        0 <= j <= data.len(),
    ensures
        crc_accum(data, acc) == crc_accum(data.skip(j), crc_accum(data.take(j), acc)),
    decreases j,
{
    if j == 0 {
        assert(data.take(0).len() == 0);
        assert(data.skip(0) =~= data);
    } else {
        assert(data.take(j)[0] == data[0]);
        assert(data.take(j).drop_first() =~= data.drop_first().take(j - 1));
        assert(data.skip(j) =~= data.drop_first().skip(j - 1));
        lemma_crc_accum_split(data.drop_first(), j - 1, crc_update(acc, data[0]));
    }
}

/// Checksum sensitivity: flipping any bits of any single byte of the data,
/// while leaving the rest unchanged, changes the checksum. In particular a
/// single flipped bit can never pass verification against the stored value.
pub proof fn lemma_crc32_bit_sensitivity(data: Seq<u8>, i: int, mask: u8)
    requires
        0 <= i < data.len(),
        mask != 0,
    ensures
        spec_crc32(data.update(i, data[i] ^ mask)) != spec_crc32(data),
{
    let flipped = data.update(i, data[i] ^ mask);
    let acc0 = crc_accum(data.take(i), 0xFFFF_FFFFu32);
    assert(flipped.take(i) =~= data.take(i));
    lemma_crc_accum_split(data, i, 0xFFFF_FFFFu32);
    lemma_crc_accum_split(flipped, i, 0xFFFF_FFFFu32);
    // The two registers agree up to byte i, then absorb different bytes.
    let b1 = data[i];
    let b2 = data[i] ^ mask;
    assert(b2 != b1) by (bit_vector)
        requires
            mask != 0 && b2 == b1 ^ mask,
    ;
    if crc_update(acc0, b1) == crc_update(acc0, b2) {
        lemma_crc_update_injective_byte(acc0, b1, b2);
    }
    assert(data.skip(i)[0] == data[i]);
    assert(flipped.skip(i)[0] == flipped[i]);
    assert(data.skip(i).drop_first() =~= data.skip(i + 1));
    assert(flipped.skip(i).drop_first() =~= flipped.skip(i + 1));
    assert(flipped.skip(i + 1) =~= data.skip(i + 1));
    lemma_crc_accum_injective(data.skip(i + 1), crc_update(acc0, b1), crc_update(acc0, b2));
    let r1 = crc_accum(data, 0xFFFF_FFFFu32);
    let r2 = crc_accum(flipped, 0xFFFF_FFFFu32);
    assert(!r1 != !r2) by (bit_vector)
        requires
            r1 != r2,
    ;
}

} // verus!
