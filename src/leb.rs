//! Length of the LEB128 encoding that precedes a section's contents.

use vstd::prelude::*;

verus! {

/// Number of bytes in the unsigned LEB128 encoding of `n`: one byte for each
/// started group of seven bits, and one byte for zero.
pub open spec fn leb128_len(n: nat) -> nat
    decreases n,
{
    if n < 128 {
        1
    } else {
        1 + leb128_len(n / 128)
    }
}

/// Size of a section header: the tag byte and the LEB128 length.
pub open spec fn header_size(size: nat) -> nat {
    leb128_len(size) + 1
}

spec fn pow128(k: nat) -> nat
    decreases k,
{
    if k == 0 {
        1
    } else {
        128 * pow128((k - 1) as nat)
    }
}

proof fn lemma_leb128_len_le(n: nat, k: nat)
    requires
        n < pow128(k),
        k >= 1,
    ensures
        leb128_len(n) <= k,
    decreases k,
{
    if n >= 128 {
        assert(k >= 2) by {
            if k == 1 {
                assert(pow128(0) == 1);
            }
        }
        assert(n / 128 < pow128((k - 1) as nat)) by (nonlinear_arith)
            requires
                n < pow128(k),
                pow128(k) == 128 * pow128((k - 1) as nat),
        ;
        lemma_leb128_len_le(n / 128, (k - 1) as nat);
    }
}

/// A 64-bit value takes at most ten LEB128 bytes.
pub proof fn lemma_leb128_len_u64(n: nat)
    requires
        n <= u64::MAX,
    ensures
        1 <= leb128_len(n) <= 10,
{
    reveal_with_fuel(pow128, 11);
    assert(pow128(10) == 0x40_0000_0000_0000_0000nat);
    lemma_leb128_len_le(n, 10);
}

/// Relies on leb128::write::unsigned: it writes one byte per seven-bit group
/// of `n` (at least one) and returns how many it wrote; writing into a `Vec`
/// does not fail.
#[verifier::external_body]
pub(crate) fn encoded_len(n: u64) -> (r: usize)
    ensures
        r == leb128_len(n as nat),
{
    let mut buf: Vec<u8> = Vec::new();
    leb128::write::unsigned(&mut buf, n).unwrap()
}

} // verus!
