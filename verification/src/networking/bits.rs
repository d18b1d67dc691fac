//! Facts about the bits of a 32-bit field.

use vstd::prelude::*;

verus! {

/// Whether bit `index` of `field` is set, counting from the least
/// significant bit. There are no bits outside `0..32`.
pub open spec fn bit(field: u32, index: int) -> bool {
    0 <= index < 32 && (field >> (index as u32)) & 1u32 == 1u32
}

/// Reads one bit.
pub fn test_bit(field: u32, index: u32) -> (set: bool)
    requires
        index < 32,
    ensures
        set == bit(field, index as int),
{
    (field >> index) & 1 == 1
}

/// Sets one bit and leaves the others alone.
pub fn set_bit(field: u32, index: u32) -> (result: u32)
    requires
        index < 32,
    ensures
        forall|k: int| bit(result, k) <==> (bit(field, k) || k == index),
{
    let result: u32 = field | (1u32 << index);
    assert forall|k: int| bit(result, k) <==> (bit(field, k) || k == index) by {
        if 0 <= k < 32 {
            let i = k as u32;
            assert(((field | (1u32 << index)) >> i) & 1u32 == 1u32 <==> ((field >> i) & 1u32 == 1u32
                || i == index)) by (bit_vector)
                requires
                    index < 32,
                    i < 32,
            ;
        }
    }
    result
}

/// Moves every bit up by `by`; bits that leave the field are dropped.
pub fn shift_up(field: u32, by: u32) -> (result: u32)
    ensures
        forall|k: int| bit(result, k) <==> (k < 32 && bit(field, k - by)),
{
    if by >= 32 {
        assert forall|k: int| !bit(0u32, k) by {
            lemma_no_bits(k);
        }
        return 0;
    }
    let result: u32 = field << by;
    assert forall|k: int| bit(result, k) <==> (k < 32 && bit(field, k - by)) by {
        if 0 <= k < 32 {
            let i = k as u32;
            if k >= by {
                let j = (k - by) as u32;
                assert(((field << by) >> i) & 1u32 == (field >> j) & 1u32) by (bit_vector)
                    requires
                        by < 32,
                        i < 32,
                        by <= i,
                        j == i - by,
                ;
            } else {
                assert(((field << by) >> i) & 1u32 == 0u32) by (bit_vector)
                    requires
                        by < 32,
                        i < by,
                ;
            }
        }
    }
    result
}

/// The bits that are set in either field.
pub fn either_bits(a: u32, b: u32) -> (result: u32)
    ensures
        forall|k: int| bit(result, k) <==> (bit(a, k) || bit(b, k)),
{
    let result: u32 = a | b;
    assert forall|k: int| bit(result, k) <==> (bit(a, k) || bit(b, k)) by {
        if 0 <= k < 32 {
            let i = k as u32;
            assert(((a | b) >> i) & 1u32 == 1u32 <==> ((a >> i) & 1u32 == 1u32 || (b >> i) & 1u32
                == 1u32)) by (bit_vector)
                requires
                    i < 32,
            ;
        }
    }
    result
}

/// No bit of zero is set.
pub proof fn lemma_no_bits(index: int)
    ensures
        !bit(0, index),
{
    if 0 <= index < 32 {
        let i = index as u32;
        assert((0u32 >> i) & 1u32 == 0u32) by (bit_vector);
    }
}

} // verus!
