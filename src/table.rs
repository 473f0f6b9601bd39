use vstd::arithmetic::power2::pow2;
use vstd::prelude::*;

verus! {

/// Index bits of the engine's sine and cosine tables.
pub const TABLE_BITS: u32 = 13;

/// Entries in each of the engine's sine and cosine tables.
pub const TABLE_SIZE: usize = 8192;

/// Entries in a table indexed by `bits` bits: always a power of two.
pub open spec fn table_len(bits: u32) -> int {
    pow2(bits as nat) as int
}

/// The engine's tables hold exactly as many entries as their index bits
/// address, so a wrapped index always falls inside them.
pub proof fn lemma_engine_table_size()
    ensures
        table_len(TABLE_BITS) == TABLE_SIZE,
{
    vstd::arithmetic::power2::lemma2_to64();
}

proof fn lemma_shift_is_pow2(bits: u32)
    requires
        bits < 32,
    ensures
        (1usize << bits) as int == table_len(bits),
        table_len(bits) <= usize::MAX,
        table_len(bits) > 0,
{
    vstd::bits::lemma_usize_pow2_no_overflow(bits as nat);
    assert(1 * pow2(bits as nat) == pow2(bits as nat));
    vstd::bits::lemma_usize_shl_is_mul(1usize, bits as usize);
    vstd::arithmetic::power2::lemma_pow2_pos(bits as nat);
}

/// Number of entries in a table indexed by `bits` bits.
pub fn table_size(bits: u32) -> (r: usize)
    requires
        bits < 32,
    ensures
        r == table_len(bits),
{
    proof {
        lemma_shift_is_pow2(bits);
    }
    1usize << bits
}

/// Wraps any index into a table of `table_len(bits)` entries, by masking the
/// low bits rather than dividing.
pub fn wrap_index(i: usize, bits: u32) -> (r: usize)
    requires
        bits < 32,
    ensures
        r == i as int % table_len(bits),
        r < table_len(bits),
{
    proof {
        lemma_shift_is_pow2(bits);
    }
    let size: usize = 1usize << bits;
    let mask: usize = size - 1;
    proof {
        vstd::bits::lemma_usize_low_bits_mask_is_mod(i, bits as nat);
    }
    i & mask
}

/// The two table entries that a lookup at `i` interpolates between: entry
/// `i` and its successor, each wrapped around the end of the table.
pub fn neighbor_indices(i: usize, bits: u32) -> (r: (usize, usize))
    requires
        bits < 32,
    ensures
        r.0 == i as int % table_len(bits),
        r.1 == (i as int + 1) % table_len(bits),
        r.0 < table_len(bits),
        r.1 < table_len(bits),
{
    let lo = wrap_index(i, bits);
    proof {
        lemma_shift_is_pow2(bits);
    }
    let hi = wrap_index(lo + 1, bits);
    proof {
        let n = table_len(bits) as int;
        vstd::arithmetic::div_mod::lemma_add_mod_noop(i as int, 1, n);
        vstd::arithmetic::div_mod::lemma_mod_twice(i as int, n);
        vstd::arithmetic::div_mod::lemma_add_mod_noop(lo as int, 1, n);
    }
    (lo, hi)
}

} // verus!
