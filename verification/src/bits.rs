//! Packed validity bitmaps: one bit per value, set meaning non-null.

use vstd::prelude::*;

verus! {

/// Whether bit `k` of `byte` is set.
pub open spec fn spec_get_bit(byte: u8, k: u8) -> bool
    recommends
        k < 8,
{
    (byte >> k) & 1u8 == 1u8
}

/// Whether bit `i` of a packed bitmap is set.
pub open spec fn bitmap_bit(bytes: Seq<u8>, i: int) -> bool
    recommends
        0 <= i,
        i / 8 < bytes.len(),
{
    spec_get_bit(bytes[i / 8], (i % 8) as u8)
}

/// How many entries of `bits` are false: the null count of a validity
/// sequence.
pub open spec fn count_nulls(bits: Seq<bool>) -> nat
    decreases bits.len(),
{
    if bits.len() == 0 {
        0
    } else {
        count_nulls(bits.drop_last()) + (if bits.last() {
            0nat
        } else {
            1nat
        })
    }
}

pub proof fn lemma_count_nulls_bound(bits: Seq<bool>)
    ensures
        count_nulls(bits) <= bits.len(),
    decreases bits.len(),
{
    if bits.len() > 0 {
        lemma_count_nulls_bound(bits.drop_last());
    }
}

/// A sequence without a false entry has no nulls.
pub proof fn lemma_count_nulls_all_true(bits: Seq<bool>)
    requires
        forall|i: int| 0 <= i < bits.len() ==> bits[i],
    ensures
        count_nulls(bits) == 0,
    decreases bits.len(),
{
    if bits.len() > 0 {
        lemma_count_nulls_all_true(bits.drop_last());
    }
}

/// Reads bit `k` of `byte`.
pub fn get_bit(byte: u8, k: u8) -> (r: bool)
    requires
        k < 8,
    ensures
        r == spec_get_bit(byte, k),
{
    (byte >> k) & 1u8 == 1u8
}

/// Sets bit `k` of `byte`.
fn set_bit(byte: u8, k: u8) -> (r: u8)
    requires
        k < 8,
    ensures
        forall|j: u8| j < 8 ==> spec_get_bit(r, j) == (j == k || spec_get_bit(byte, j)),
{
    let r = byte | (1u8 << k);
    proof {
        assert(forall|j: u8| #![auto]
            j < 8 && k < 8 ==> ((r >> j) & 1u8 == 1u8 <==> (j == k || (byte >> j) & 1u8
                == 1u8))) by (bit_vector)
            requires
                r == byte | (1u8 << k),
        ;
    }
    r
}

/// Counts the false entries of `bits`.
pub fn count_false(bits: &Vec<bool>) -> (c: usize)
    ensures
        c == count_nulls(bits@),
{
    let mut c: usize = 0;
    let mut i: usize = 0;
    proof {
        assert(bits@.take(0) =~= Seq::<bool>::empty());
    }
    while i < bits.len()
        invariant
            i <= bits@.len(),
            c <= i,
            c == count_nulls(bits@.take(i as int)),
        decreases bits@.len() - i,
    {
        proof {
            assert(bits@.take(i + 1).drop_last() =~= bits@.take(i as int));
            assert(bits@.take(i + 1).last() == bits@[i as int]);
        }
        if !bits[i] {
            c = c + 1;
        }
        i = i + 1;
    }
    proof {
        assert(bits@.take(bits@.len() as int) =~= bits@);
    }
    c
}

/// Packs a validity sequence into bitmap bytes laid over `out`, which
/// must arrive zeroed and sized to hold one bit per entry.
pub fn fill_bitmap(bits: &Vec<bool>, out: &mut Vec<u8>)
    requires
        old(out)@.len() == (bits@.len() + 7) / 8,
        forall|i: int| 0 <= i < old(out)@.len() ==> old(out)@[i] == 0u8,
    ensures
        final(out)@.len() == old(out)@.len(),
        forall|i: int| 0 <= i < bits@.len() ==> bitmap_bit(final(out)@, i) == bits@[i],
{
    proof {
        assert(forall|j: u8| #![auto] j < 8 ==> (0u8 >> j) & 1u8 != 1u8) by (bit_vector);
    }
    let mut i: usize = 0;
    while i < bits.len()
        invariant
            i <= bits@.len(),
            out@.len() == (bits@.len() + 7) / 8,
            forall|j: int| 0 <= j < i ==> bitmap_bit(out@, j) == bits@[j],
            forall|j: int| i <= j < bits@.len() ==> !bitmap_bit(out@, j),
        decreases bits@.len() - i,
    {
        if bits[i] {
            let byte_idx = i / 8;
            let bit_idx = (i % 8) as u8;
            let ghost out0 = out@;
            let updated = set_bit(out[byte_idx], bit_idx);
            out[byte_idx] = updated;
            proof {
                assert forall|j: int| 0 <= j < bits@.len() implies bitmap_bit(out@, j) == (j
                    == i as int || bitmap_bit(out0, j)) by {
                    assert(0 <= j % 8 < 8);
                    assert(8 * (j / 8) + (j % 8) == j) by (nonlinear_arith);
                    assert(8 * (i as int / 8) + (i as int % 8) == i as int) by (nonlinear_arith);
                    assert(0 <= j / 8 < out0.len());
                    if j / 8 == byte_idx as int {
                        assert(out@[j / 8] == updated);
                        assert(out0[j / 8] == out0[byte_idx as int]);
                        assert(spec_get_bit(updated, (j % 8) as u8) == ((j % 8) as u8 == bit_idx
                            || spec_get_bit(out0[byte_idx as int], (j % 8) as u8)));
                    } else {
                        assert(out@[j / 8] == out0[j / 8]);
                    }
                }
                assert forall|j: int| i + 1 <= j < bits@.len() implies !bitmap_bit(out@, j) by {
                    assert(bitmap_bit(out@, j) == (j == i as int || bitmap_bit(out0, j)));
                    assert(!bitmap_bit(out0, j));
                }
                assert forall|j: int| 0 <= j < i + 1 implies bitmap_bit(out@, j) == bits@[j] by {
                    assert(bitmap_bit(out@, j) == (j == i as int || bitmap_bit(out0, j)));
                }
            }
        }
        i = i + 1;
    }
}

} // verus!
