//! Per-site occupancy records: one bit per discrete velocity direction.

use vstd::prelude::*;

verus! {

/// True when direction `d`'s bit is set in the occupancy record `b`.
pub open spec fn occ_bit(b: u8, d: u8) -> bool {
    (b >> d) & 1 == 1
}

/// An occupancy record is well formed for a lattice with `nd` directions
/// when every bit at position `nd` or above is clear.
pub open spec fn node_wf(b: u8, nd: u8) -> bool {
    forall|d: u8| nd <= d < 8 ==> !occ_bit(b, d)
}

/// Every direction below `nd` is occupied in `b`.
pub open spec fn all_set(b: u8, nd: u8) -> bool {
    forall|d: u8| d < nd ==> occ_bit(b, d)
}

/// Number of set bits among directions `0 .. d` of `b`.
pub open spec fn node_count(b: u8, d: nat) -> nat
    decreases d,
{
    if d == 0 {
        0
    } else {
        node_count(b, (d - 1) as nat) + if occ_bit(b, (d - 1) as u8) {
            1nat
        } else {
            0nat
        }
    }
}

/// Two records with the same eight bits are the same byte.
pub proof fn lemma_occ_bit_ext(a: u8, b: u8)
    requires
        forall|d: u8| d < 8 ==> occ_bit(a, d) == occ_bit(b, d),
    ensures
        a == b,
{
    assert(occ_bit(a, 0) == occ_bit(b, 0));
    assert(occ_bit(a, 1) == occ_bit(b, 1));
    assert(occ_bit(a, 2) == occ_bit(b, 2));
    assert(occ_bit(a, 3) == occ_bit(b, 3));
    assert(occ_bit(a, 4) == occ_bit(b, 4));
    assert(occ_bit(a, 5) == occ_bit(b, 5));
    assert(occ_bit(a, 6) == occ_bit(b, 6));
    assert(occ_bit(a, 7) == occ_bit(b, 7));
    assert(a == b) by (bit_vector)
        requires
            ((a >> 0u8) & 1 == 1) == ((b >> 0u8) & 1 == 1),
            ((a >> 1u8) & 1 == 1) == ((b >> 1u8) & 1 == 1),
            ((a >> 2u8) & 1 == 1) == ((b >> 2u8) & 1 == 1),
            ((a >> 3u8) & 1 == 1) == ((b >> 3u8) & 1 == 1),
            ((a >> 4u8) & 1 == 1) == ((b >> 4u8) & 1 == 1),
            ((a >> 5u8) & 1 == 1) == ((b >> 5u8) & 1 == 1),
            ((a >> 6u8) & 1 == 1) == ((b >> 6u8) & 1 == 1),
            ((a >> 7u8) & 1 == 1) == ((b >> 7u8) & 1 == 1),
    ;
}

/// The all-clear record has no bit set.
pub proof fn lemma_zero_bits()
    ensures
        forall|d: u8| !occ_bit(0u8, d),
{
    assert(forall|d: u8| (0u8 >> d) & 1 != 1) by (bit_vector);
}

/// Reads direction `i`'s bit of an occupancy record.
pub fn get_cell(i: usize, node: u8) -> (r: bool)
    requires
        i < 8,
    ensures
        r == occ_bit(node, i as u8),
{
    let sh = i as u8;
    let r = ((node >> sh) & 0b1) != 0b0;
    proof {
        assert((((node >> sh) & 1) != 0) == (((node >> sh) & 1) == 1)) by (bit_vector);
    }
    r
}

/// Overwrites exactly direction `i`'s bit of an occupancy record, leaving
/// every other bit unchanged.
pub fn set_cell(i: usize, node: &mut u8, val: bool)
    requires
        i < 8,
    ensures
        forall|d: u8|
            d < 8 ==> occ_bit(*final(node), d) == (if d == i as u8 {
                val
            } else {
                occ_bit(*old(node), d)
            }),
{
    let sh = i as u8;
    let v: u8 = if val {
        1
    } else {
        0
    };
    let b0 = *node;
    *node = (!(1u8 << sh) & b0) | (v << sh);
    proof {
        let b1 = *node;
        assert(forall|d: u8|
            d < 8 ==> (((b1 >> d) & 1 == 1) == (if d == sh {
                v == 1
            } else {
                (b0 >> d) & 1 == 1
            }))) by (bit_vector)
            requires
                b1 == (!(1u8 << sh) & b0) | (v << sh),
                sh < 8,
                v == 0 || v == 1,
        ;
    }
}

} // verus!
