//! Little-endian numbers.

use vstd::prelude::*;

pub mod fs_utility;

verus! {

/// The number that `bytes` spell, least significant byte first.
pub open spec fn le_value(bytes: Seq<u8>) -> nat
    decreases bytes.len(),
{
    if bytes.len() == 0 {
        0
    } else {
        bytes[0] as nat + 256 * le_value(bytes.drop_first())
    }
}

/// 256 to the power `n`.
pub open spec fn pow256(n: nat) -> nat
    decreases n,
{
    if n == 0 {
        1
    } else {
        256 * pow256((n - 1) as nat)
    }
}

/// The `n` least significant bytes of `value`, least significant byte first.
pub open spec fn le_bytes(value: nat, n: nat) -> Seq<u8>
    decreases n,
{
    if n == 0 {
        Seq::empty()
    } else {
        seq![(value % 256) as u8] + le_bytes(value / 256, (n - 1) as nat)
    }
}

/// A little-endian number of `n` bytes is below 256 to the `n`.
pub proof fn lemma_le_value_bound(bytes: Seq<u8>)
    ensures
        le_value(bytes) < pow256(bytes.len()),
    decreases bytes.len(),
{
    if bytes.len() > 0 {
        lemma_le_value_bound(bytes.drop_first());
    }
}

/// Spelling a number in `n` bytes and reading it back keeps it modulo 256 to the `n`.
pub proof fn lemma_le_value_of_le_bytes(value: nat, n: nat)
    ensures
        le_bytes(value, n).len() == n,
        le_value(le_bytes(value, n)) == value % pow256(n),
    decreases n,
{
    if n > 0 {
        let rest = le_bytes(value / 256, (n - 1) as nat);
        lemma_le_value_of_le_bytes(value / 256, (n - 1) as nat);
        assert(le_bytes(value, n).drop_first() =~= rest);
        let p = pow256((n - 1) as nat);
        lemma_pow256_positive((n - 1) as nat);
        assert(value % (256 * p) == value % 256 + 256 * ((value / 256) % p)) by {
            vstd::arithmetic::div_mod::lemma_breakdown(value as int, 256, p as int);
            vstd::arithmetic::div_mod::lemma_mod_breakdown(value as int, 256, p as int);
        }
    }
}

/// Reading a number and spelling it again in as many bytes gives the bytes back.
pub proof fn lemma_le_bytes_of_le_value(bytes: Seq<u8>)
    ensures
        le_bytes(le_value(bytes), bytes.len()) == bytes,
    decreases bytes.len(),
{
    if bytes.len() > 0 {
        lemma_le_bytes_of_le_value(bytes.drop_first());
    }
}

/// A power of 256 is positive.
pub proof fn lemma_pow256_positive(n: nat)
    ensures
        pow256(n) > 0,
    decreases n,
{
    if n > 0 {
        lemma_pow256_positive((n - 1) as nat);
    }
}

/// Reads the first eight bytes as a little-endian number.
pub fn le_bytes_to_u64(bytes: &[u8]) -> (result: u64)
    requires
        bytes@.len() >= 8,
    ensures
        result == le_value(bytes@.subrange(0, 8)),
{
    let head = vstd::slice::slice_subrange(bytes, 0, 8);
    le_bytes_to_u64_padded(head)
}

/// Reads the first four bytes as a little-endian number.
pub fn le_bytes_to_u32(bytes: &[u8]) -> (result: u32)
    requires
        bytes@.len() >= 4,
    ensures
        result == le_value(bytes@.subrange(0, 4)),
{
    let head = vstd::slice::slice_subrange(bytes, 0, 4);
    proof {
        lemma_le_value_bound(head@);
        reveal_with_fuel(pow256, 5);
    }
    let wide = le_bytes_to_u64_padded(head);
    wide as u32
}

/// Reads up to eight bytes as a little-endian number, as if zero bytes followed them.
pub fn le_bytes_to_u64_padded(bytes: &[u8]) -> (result: u64)
    requires
        bytes@.len() <= 8,
    ensures
        result == le_value(bytes@),
{
    let n = bytes.len();
    let mut result: u64 = 0;
    let mut idx: usize = n;
    while idx > 0
        invariant
            n == bytes@.len(),
            n <= 8,
            idx <= n,
            result == le_value(bytes@.subrange(idx as int, n as int)),
        decreases idx,
    {
        idx -= 1;
        proof {
            let tail = bytes@.subrange(idx as int, n as int);
            assert(tail.drop_first() =~= bytes@.subrange(idx + 1, n as int));
            lemma_le_value_bound(tail);
            lemma_pow256_at_most_eight(tail.len());
        }
        result = bytes[idx] as u64 + 256 * result;
    }
    proof {
        assert(bytes@.subrange(0, n as int) =~= bytes@);
    }
    result
}

/// Spells the `N` least significant bytes of `value`, least significant byte first.
pub fn to_le_bytes<const N: usize>(value: u64) -> (bytes: [u8; N])
    ensures
        bytes@ == le_bytes(value as nat, N as nat),
{
    let mut bytes = [0u8; N];
    let mut rest: u64 = value;
    let mut i: usize = 0;
    while i < N
        invariant
            i <= N,
            bytes@.len() == N,
            le_bytes(value as nat, N as nat) =~= bytes@.subrange(0, i as int) + le_bytes(
                rest as nat,
                (N - i) as nat,
            ),
        decreases N - i,
    {
        bytes[i] = (rest % 256) as u8;
        rest = rest / 256;
        i += 1;
    }
    bytes
}

/// Up to the eighth, a power of 256 fits in 64 bits.
pub proof fn lemma_pow256_at_most_eight(n: nat)
    requires
        n <= 8,
    ensures
        pow256(n) <= 0x1_0000_0000_0000_0000,
{
    reveal_with_fuel(pow256, 9);
}

} // verus!
