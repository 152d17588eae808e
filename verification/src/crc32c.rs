//! CRC32C (Castagnoli) checksum engine: a 256-entry slice-by-1 lookup table
//! and a streaming compute over a byte range. The accumulator starts at
//! all-ones and the final value is the accumulator itself; this variant
//! applies no trailing complement.
use vstd::prelude::*;

verus! {

/// The reflected Castagnoli polynomial.
pub const POLYNOMIAL: u32 = 0x82F63B78;

/// One bit-fold of the table construction: shift right, conditionally
/// folding in the polynomial when the low bit is set.
pub open spec fn fold_bit(x: u32) -> u32 {
    if x & 1 == 1 {
        (x >> 1) ^ POLYNOMIAL
    } else {
        x >> 1
    }
}

/// `x` folded through `n` bit steps.
pub open spec fn fold_bits(x: u32, n: nat) -> u32
    decreases n,
{
    if n == 0 {
        x
    } else {
        fold_bit(fold_bits(x, (n - 1) as nat))
    }
}

/// The table entry for byte value `b`: the byte folded through 8 bit steps.
pub open spec fn table_entry(b: int) -> u32 {
    fold_bits(b as u32, 8)
}

/// `t` is the CRC32C lookup table.
pub open spec fn table_matches(t: Seq<u32>) -> bool {
    &&& t.len() == 256
    &&& forall|i: int| 0 <= i < 256 ==> t[i] == table_entry(i)
}

/// One byte step of the running checksum.
pub open spec fn crc_step(acc: u32, b: u8) -> u32 {
    table_entry(((acc ^ (b as u32)) & 0xFF) as int) ^ (acc >> 8)
}

/// The accumulator after folding every byte of `s` into `acc`.
pub open spec fn crc_acc(acc: u32, s: Seq<u8>) -> u32
    decreases s.len(),
{
    if s.len() == 0 {
        acc
    } else {
        crc_acc(crc_step(acc, s[0]), s.drop_first())
    }
}

/// The CRC32C of `s` under this variant: all-ones in, accumulator out.
pub open spec fn crc32c(s: Seq<u8>) -> u32 {
    crc_acc(0xFFFFFFFFu32, s)
}

/// Builds the 256-entry lookup table.
pub fn build_table() -> (t: Vec<u32>)
    ensures
        table_matches(t@),
{
    let mut t: Vec<u32> = Vec::new();
    let mut b: usize = 0;
    while b < 256
        invariant
            b <= 256,
            t@.len() == b,
            forall|i: int| 0 <= i < b ==> t@[i] == table_entry(i),
        decreases 256 - b,
    {
        let mut x: u32 = b as u32;
        let mut k: usize = 0;
        while k < 8
            invariant
                k <= 8,
                x == fold_bits(b as u32, k as nat),
            decreases 8 - k,
        {
            if x & 1 == 1 {
                x = (x >> 1) ^ POLYNOMIAL;
            } else {
                x = x >> 1;
            }
            k = k + 1;
        }
        t.push(x);
        b = b + 1;
    }
    t
}

/// Checksums `bytes[start..end]` with the given table.
pub fn compute_range(table: &Vec<u32>, bytes: &Vec<u8>, start: usize, end: usize) -> (r: u32)
    requires
        table_matches(table@),
        start <= end <= bytes@.len(),
    ensures
        r == crc32c(bytes@.subrange(start as int, end as int)),
{
    let ghost whole = bytes@.subrange(start as int, end as int);
    let mut acc: u32 = 0xFFFFFFFF;
    let mut i: usize = start;
    while i < end
        invariant
            start <= i <= end <= bytes@.len(),
            table_matches(table@),
            whole == bytes@.subrange(start as int, end as int),
            crc32c(whole) == crc_acc(acc, bytes@.subrange(i as int, end as int)),
        decreases end - i,
    {
        let b = bytes[i];
        let idx = ((acc ^ (b as u32)) & 0xFF) as usize;
        proof {
            assert((acc ^ (b as u32)) & 0xFF < 256) by (bit_vector);
            let rest = bytes@.subrange(i as int, end as int);
            assert(rest[0] == bytes@[i as int]);
            assert(rest.drop_first() =~= bytes@.subrange(i + 1, end as int));
        }
        acc = table[idx] ^ (acc >> 8);
        i = i + 1;
    }
    assert(bytes@.subrange(end as int, end as int).len() == 0);
    acc
}

/// Checksums the whole of `bytes` with the given table.
pub fn compute(table: &Vec<u32>, bytes: &Vec<u8>) -> (r: u32)
    requires
        table_matches(table@),
    ensures
        r == crc32c(bytes@),
{
    let r = compute_range(table, bytes, 0, bytes.len());
    proof {
        assert(bytes@.subrange(0, bytes@.len() as int) =~= bytes@);
    }
    r
}

/// The checksum of the empty byte sequence is the initial all-ones
/// accumulator, unchanged.
pub proof fn lemma_crc_empty()
    ensures
        crc32c(Seq::<u8>::empty()) == 0xFFFFFFFFu32,
{
}

/// The table is determined by the polynomial alone: any two tables that
/// satisfy `table_matches` are identical.
pub proof fn lemma_table_deterministic(t1: Seq<u32>, t2: Seq<u32>)
    requires
        table_matches(t1),
        table_matches(t2),
    ensures
        t1 == t2,
{
    assert forall|i: int| 0 <= i < 256 implies t1[i] == t2[i] by {
        assert(t1[i] == table_entry(i));
        assert(t2[i] == table_entry(i));
    }
    assert(t1 =~= t2);
}

/// The first entries agree with the standard reflected CRC32C reference
/// table.
pub proof fn lemma_table_reference_entries()
    ensures
        table_entry(0) == 0,
        table_entry(1) == 0xF26B8303u32,
{
    reveal_with_fuel(fold_bits, 9);
    assert(fold_bits(0u32, 8) == fold_bit(
        fold_bit(fold_bit(fold_bit(fold_bit(fold_bit(fold_bit(fold_bit(0u32))))))),
    ));
    assert(fold_bit(fold_bit(fold_bit(fold_bit(fold_bit(fold_bit(fold_bit(fold_bit(0u32))))))))
        == 0) by (bit_vector);
    assert(fold_bits(1u32, 8) == fold_bit(
        fold_bit(fold_bit(fold_bit(fold_bit(fold_bit(fold_bit(fold_bit(1u32))))))),
    ));
    assert(fold_bit(fold_bit(fold_bit(fold_bit(fold_bit(fold_bit(fold_bit(fold_bit(1u32))))))))
        == 0xF26B8303u32) by (bit_vector);
}

} // verus!
