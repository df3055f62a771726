//! Shared facts about splitting a 32-bit word into a high byte and a low
//! 24-bit field and packing the two back together.

use vstd::prelude::*;
use vstd::arithmetic::div_mod::{lemma_fundamental_div_mod, lemma_fundamental_div_mod_converse};

verus! {

/// Splitting a word into its high byte and its low field is sound.
pub(crate) proof fn lemma_split(raw: u32)
    ensures
        raw / 0x0100_0000 < 0x100,
        raw % 0x0100_0000 < 0x0100_0000,
        raw == (raw / 0x0100_0000) * 0x0100_0000 + raw % 0x0100_0000,
{
    lemma_fundamental_div_mod(raw as int, 0x0100_0000);
}

/// Packing a high byte and a low field reads back field by field.
pub(crate) proof fn lemma_pack(code: u32, low: u32)
    requires
        code < 0x100,
        low < 0x0100_0000,
    ensures
        (low + code * 0x0100_0000) / 0x0100_0000 == code,
        (low + code * 0x0100_0000) % 0x0100_0000 == low,
        low + code * 0x0100_0000 <= u32::MAX,
{
    lemma_fundamental_div_mod_converse(
        low + code * 0x0100_0000,
        0x0100_0000,
        code as int,
        low as int,
    );
}


/// The scan domain for `size` slots — the largest multiple of
/// `size * 0x0100_0000` that fits in `usize` — is reached by dividing
/// twice, and its factors stay within `usize`.
pub(crate) proof fn lemma_max_idx(size: int)
    requires
        1 <= size,
    ensures
        usize::MAX as int / size / 0x0100_0000 == usize::MAX as int / (size * 0x0100_0000),
        (usize::MAX as int / (size * 0x0100_0000)) * (size * 0x0100_0000) <= usize::MAX,
        (usize::MAX as int / (size * 0x0100_0000)) * size * 0x0100_0000 == (usize::MAX as int / (
        size * 0x0100_0000)) * (size * 0x0100_0000),
        (usize::MAX as int / (size * 0x0100_0000)) * size <= usize::MAX,
{
    let m = usize::MAX as int;
    let c = 0x0100_0000int;
    let q = m / (size * c);
    vstd::arithmetic::div_mod::lemma_div_denominator(m, size, c);
    vstd::arithmetic::mul::lemma_mul_strictly_positive(size, c);
    vstd::arithmetic::div_mod::lemma_fundamental_div_mod(m, size * c);
    vstd::arithmetic::div_mod::lemma_mod_bound(m, size * c);
    assert(q * (size * c) <= m);
    vstd::arithmetic::mul::lemma_mul_is_associative(q, size, c);
    if q == 0 {
        assert(q * size == 0);
    } else {
        vstd::arithmetic::mul::lemma_mul_nonnegative(q, size);
        if q * size != 0 {
            vstd::arithmetic::mul::lemma_mul_ordering(q * size, c);
        }
    }
}

} // verus!
