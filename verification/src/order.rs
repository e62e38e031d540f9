//! Lexicographic order of byte strings, and canonical field elements.

use vstd::prelude::*;

use crate::codec::same_array;

verus! {

/// The order of the BN254 scalar field, most significant byte first.
pub const SCALAR_FIELD_ORDER: [u8; 32] = [
    0x30u8, 0x64u8, 0x4eu8, 0x72u8, 0xe1u8, 0x31u8, 0xa0u8, 0x29u8,
    0xb8u8, 0x50u8, 0x45u8, 0xb6u8, 0x81u8, 0x81u8, 0x58u8, 0x5du8,
    0x28u8, 0x33u8, 0xe8u8, 0x48u8, 0x79u8, 0xb9u8, 0x70u8, 0x91u8,
    0x43u8, 0xe1u8, 0xf5u8, 0x93u8, 0xf0u8, 0x00u8, 0x00u8, 0x01u8,
];

/// The first byte in which `a` and `b` differ is less in `a`.
pub open spec fn lex_less<const N: usize>(a: [u8; N], b: [u8; N]) -> bool {
    exists|i: int|
        0 <= i < N && #[trigger] a@[i] < b@[i] && forall|j: int| 0 <= j < i ==> a@[j] == b@[j]
}

/// `bytes` is the big-endian encoding of a scalar-field element.
pub open spec fn canonical_scalar(bytes: [u8; 32]) -> bool {
    lex_less(bytes, SCALAR_FIELD_ORDER)
}

/// Of two different byte strings exactly one is less.
pub proof fn lex_order_is_total<const N: usize>(a: [u8; N], b: [u8; N])
    ensures
        a == b ==> !lex_less(a, b),
        a != b ==> lex_less(a, b) != lex_less(b, a),
{
    if a != b {
        if forall|i: int| 0 <= i < N ==> a@[i] == b@[i] {
            assert(a =~= b);
        }
        lemma_first_difference(a, b, 0);
    }
}

proof fn lemma_first_difference<const N: usize>(a: [u8; N], b: [u8; N], from: int)
    requires
        0 <= from <= N,
        forall|j: int| 0 <= j < from ==> a@[j] == b@[j],
        exists|j: int| 0 <= j < N && a@[j] != b@[j],
    ensures
        lex_less(a, b) != lex_less(b, a),
    decreases N - from,
{
    let w = choose|j: int| 0 <= j < N && a@[j] != b@[j];
    assert(from <= w);
    if a@[from] == b@[from] {
        lemma_first_difference(a, b, from + 1);
    } else if a@[from] < b@[from] {
        assert(lex_less(a, b));
        assert(!lex_less(b, a));
    } else {
        assert(lex_less(b, a));
        assert(!lex_less(a, b));
    }
}

/// The order is transitive.
pub proof fn lex_order_is_transitive<const N: usize>(a: [u8; N], b: [u8; N], c: [u8; N])
    requires
        lex_less(a, b),
        lex_less(b, c),
    ensures
        lex_less(a, c),
{
    let i = choose|i: int|
        0 <= i < N && #[trigger] a@[i] < b@[i] && forall|j: int| 0 <= j < i ==> a@[j] == b@[j];
    let k = choose|i: int|
        0 <= i < N && #[trigger] b@[i] < c@[i] && forall|j: int| 0 <= j < i ==> b@[j] == c@[j];
    if i <= k {
        assert(a@[i] < c@[i]);
    } else {
        assert(a@[k] < c@[k]);
    }
}

pub fn lex_less_than<const N: usize>(a: &[u8; N], b: &[u8; N]) -> (less: bool)
    ensures
        less == lex_less(*a, *b),
{
    let mut i: usize = 0;
    while i < N
        invariant
            i <= N,
            forall|j: int| 0 <= j < i ==> a@[j] == b@[j],
        decreases N - i,
    {
        if a[i] != b[i] {
            assert(a@[i as int] < b@[i as int] ==> lex_less(*a, *b));
            return a[i] < b[i];
        }
        i += 1;
    }
    false
}

/// Whether `bytes` is a canonical scalar-field element.
pub fn is_canonical_scalar(bytes: &[u8; 32]) -> (ok: bool)
    ensures
        ok == canonical_scalar(*bytes),
{
    lex_less_than(bytes, &SCALAR_FIELD_ORDER)
}

/// A value whose three high-order bits are clear is a canonical scalar-field
/// element.
pub proof fn masked_values_are_canonical(bytes: [u8; 32])
    requires
        bytes[0] <= 0x1f,
    ensures
        canonical_scalar(bytes),
{
    assert(bytes@[0] < SCALAR_FIELD_ORDER@[0]);
}

/// Whether all 32 bytes are zero.
pub open spec fn all_zero(bytes: [u8; 32]) -> bool {
    forall|i: int| 0 <= i < 32 ==> bytes@[i] == 0
}

pub fn is_zero32(bytes: &[u8; 32]) -> (zero: bool)
    ensures
        zero == all_zero(*bytes),
{
    let zero: [u8; 32] = [0u8; 32];
    let same = same_array(bytes, &zero);
    proof {
        if all_zero(*bytes) {
            assert(*bytes =~= zero);
        }
    }
    same
}

} // verus!
