//! Records: the 512-byte units an archive is made of, and the arithmetic on them.

use vstd::prelude::*;

verus! {

/// The length in bytes of one record.
pub const BLOCK_SIZE: usize = 512;

/// Where the checksum field of a header starts.
pub const CHECKSUM_START: usize = 148;

/// Where the checksum field of a header ends.
pub const CHECKSUM_END: usize = 156;

/// The largest body size that can still be rounded up to whole records.
pub const MAX_ROUNDABLE: u64 = 0xffff_ffff_ffff_fe00;

/// The length of a body of `size` bytes once padded to whole records: the
/// smallest multiple of 512 that is at least `size`.
#[verifier::opaque]
pub open spec fn padded_len(size: nat) -> nat {
    (((size + 511) / 512) * 512) as nat
}

/// `padded_len` is a multiple of 512 that is not below the size and less than
/// one record above it.
pub proof fn lemma_padded_len(size: nat)
    ensures
        padded_len(size) % 512 == 0,
        size <= padded_len(size) < size + 512,
{
    reveal(padded_len);
    let records = (size + 511) / 512;
    assert(512 * records <= size + 511 < 512 * records + 512);
    assert((records * 512) % 512 == 0) by (nonlinear_arith);
}

/// No multiple of 512 between the size and `padded_len` is smaller.
pub proof fn lemma_padded_len_least(size: nat, m: nat)
    requires
        m % 512 == 0,
        size <= m,
    ensures
        padded_len(size) <= m,
{
    let padded = padded_len(size);
    lemma_padded_len(size);
    assert(padded <= m) by (nonlinear_arith)
        requires
            padded % 512 == 0,
            m % 512 == 0,
            padded < m + 512,
    ;
}

/// Rounds a body size up to whole records.
pub fn round_up(size: u64) -> (r: u64)
    requires
        size <= MAX_ROUNDABLE,
    ensures
        r == padded_len(size as nat),
{
    let biased: u64 = size + 511;
    proof {
        reveal(padded_len);
        assert(biased & !511u64 == (biased / 512) * 512) by (bit_vector);
    }
    biased & !511u64
}

/// Whether every byte of `bytes` is zero.
pub open spec fn all_zero(bytes: Seq<u8>) -> bool {
    forall|i: int| 0 <= i < bytes.len() ==> bytes[i] == 0
}

/// Tells whether a record holds nothing but zero bytes.
pub fn is_zero_block(block: &[u8; 512]) -> (r: bool)
    ensures
        r == all_zero(block@),
{
    let mut i: usize = 0;
    while i < 512
        invariant
            i <= 512,
            forall|k: int| 0 <= k < i ==> block@[k] == 0,
        decreases 512 - i,
    {
        if block[i] != 0 {
            return false;
        }
        i += 1;
    }
    true
}

/// The sum of the bytes of `bytes`, each taken as an unsigned number.
pub open spec fn byte_sum(bytes: Seq<u8>) -> nat
    decreases bytes.len(),
{
    if bytes.len() == 0 {
        0
    } else {
        byte_sum(bytes.drop_last()) + bytes.last() as nat
    }
}

/// The checksum a header record should carry: the sum of its bytes, each
/// taken as an unsigned number, with the eight bytes of the checksum field
/// counted as spaces. A checksum that was summed over signed bytes is another
/// number wherever a byte is above 127, and does not match.
pub open spec fn expected_checksum(block: Seq<u8>) -> nat
    recommends
        block.len() == 512,
{
    byte_sum(block.subrange(0, 148)) + byte_sum(block.subrange(156, 512)) + 256
}

/// No byte adds more than 255 to a sum.
pub proof fn lemma_byte_sum_bound(bytes: Seq<u8>)
    ensures
        byte_sum(bytes) <= 255 * bytes.len(),
    decreases bytes.len(),
{
    if bytes.len() > 0 {
        lemma_byte_sum_bound(bytes.drop_last());
    }
}

/// Taking one more byte into a range adds that byte to the sum.
pub proof fn lemma_byte_sum_extend(bytes: Seq<u8>, from: int, to: int)
    requires
        0 <= from <= to < bytes.len(),
    ensures
        byte_sum(bytes.subrange(from, to + 1)) == byte_sum(bytes.subrange(from, to)) + bytes[to],
{
    assert(bytes.subrange(from, to + 1).drop_last() =~= bytes.subrange(from, to));
}

/// Changing one byte changes the sum by the difference of the two values.
pub proof fn lemma_byte_sum_update(bytes: Seq<u8>, at: int, value: u8)
    requires
        0 <= at < bytes.len(),
    ensures
        byte_sum(bytes.update(at, value)) + bytes[at] == byte_sum(bytes) + value,
    decreases bytes.len(),
{
    let changed = bytes.update(at, value);
    if at == bytes.len() - 1 {
        assert(changed.drop_last() =~= bytes.drop_last());
    } else {
        lemma_byte_sum_update(bytes.drop_last(), at, value);
        assert(changed.drop_last() =~= bytes.drop_last().update(at, value));
    }
}

/// Adds up the bytes of `block` from `from` up to, not including, `to`.
fn sum_range(block: &[u8; 512], from: usize, to: usize) -> (sum: u32)
    requires
        from <= to <= 512,
    ensures
        sum == byte_sum(block@.subrange(from as int, to as int)),
{
    let mut sum: u32 = 0;
    let mut i: usize = from;
    while i < to
        invariant
            from <= i <= to <= 512,
            sum == byte_sum(block@.subrange(from as int, i as int)),
            sum <= 255 * (i - from),
        decreases to - i,
    {
        proof {
            lemma_byte_sum_extend(block@, from as int, i as int);
        }
        sum = sum + block[i] as u32;
        i += 1;
    }
    sum
}

/// Computes the checksum that the record should carry.
pub fn checksum(block: &[u8; 512]) -> (sum: u32)
    ensures
        sum == expected_checksum(block@),
{
    let before: u32 = sum_range(block, 0, CHECKSUM_START);
    let after: u32 = sum_range(block, CHECKSUM_END, BLOCK_SIZE);
    proof {
        lemma_byte_sum_bound(block@.subrange(0, 148));
        lemma_byte_sum_bound(block@.subrange(156, 512));
    }
    before + after + 256
}

} // verus!
