//! The collision stage's per-site rules: the deterministic tables, the
//! per-step random resolution of ambiguous families, and wall reflection.

use crate::bits::{node_count, node_wf, occ_bit};
use crate::geometry::{dirs, Topology};
use crate::rng::rand_below;
use vstd::prelude::*;

verus! {

/// The per-step resolution of the ambiguous symmetric collision families of
/// the six-direction lattice: for each family, the single replacement
/// pattern that every matching site uses during this step.
#[derive(Clone, Copy)]
pub struct Choices {
    /// Replaces the two-particle pattern `0b100100`.
    pub two_a: u8,
    /// Replaces the two-particle pattern `0b010010`.
    pub two_b: u8,
    /// Replaces the two-particle pattern `0b001001`.
    pub two_c: u8,
    /// Replaces the four-particle pattern `0b110110`.
    pub four_a: u8,
    /// Replaces the four-particle pattern `0b101101`.
    pub four_b: u8,
    /// Replaces the four-particle pattern `0b011011`.
    pub four_c: u8,
}

impl Choices {
    /// Every family's choice is one of that family's two valid outcomes.
    pub open spec fn wf(self) -> bool {
        (self.two_a == 0b010010 || self.two_a == 0b001001) && (self.two_b == 0b100100
            || self.two_b == 0b001001) && (self.two_c == 0b010010 || self.two_c == 0b100100) && (
        self.four_a == 0b101101 || self.four_a == 0b011011) && (self.four_b == 0b110110
            || self.four_b == 0b011011) && (self.four_c == 0b101101 || self.four_c == 0b110110)
    }
}

/// Draws this step's resolution of every ambiguous family: one independent,
/// uniform pick between each family's two alternatives.
pub fn random_choices(rng: &mut rand::rngs::StdRng) -> (c: Choices)
    ensures
        c.wf(),
{
    Choices {
        two_a: if rand_below(rng, 2) == 0 {
            0b010010
        } else {
            0b001001
        },
        two_b: if rand_below(rng, 2) == 0 {
            0b100100
        } else {
            0b001001
        },
        two_c: if rand_below(rng, 2) == 0 {
            0b010010
        } else {
            0b100100
        },
        four_a: if rand_below(rng, 2) == 0 {
            0b101101
        } else {
            0b011011
        },
        four_b: if rand_below(rng, 2) == 0 {
            0b110110
        } else {
            0b011011
        },
        four_c: if rand_below(rng, 2) == 0 {
            0b101101
        } else {
            0b110110
        },
    }
}

/// Deterministic collision table of the four-direction square lattice: the
/// two head-on pairs swap into each other; every other pattern passes
/// through unchanged.
pub open spec fn square_collide_spec(b: u8) -> u8 {
    if b == 0b0101 {
        0b1010
    } else if b == 0b1010 {
        0b0101
    } else {
        b
    }
}

/// Collision table of the six-direction lattice: the two head-on triples
/// swap; an ambiguous two- or four-particle family takes this step's choice;
/// every other pattern passes through unchanged.
pub open spec fn hex_collide_spec(b: u8, c: Choices) -> u8 {
    if b == 0b010101 {
        0b101010
    } else if b == 0b101010 {
        0b010101
    } else if b == 0b100100 {
        c.two_a
    } else if b == 0b010010 {
        c.two_b
    } else if b == 0b001001 {
        c.two_c
    } else if b == 0b110110 {
        c.four_a
    } else if b == 0b101101 {
        c.four_b
    } else if b == 0b011011 {
        c.four_c
    } else {
        b
    }
}

/// The fluid collision rule of the given topology.
pub open spec fn collide_spec(t: Topology, b: u8, c: Choices) -> u8 {
    match t {
        Topology::Square4 => square_collide_spec(b),
        Topology::Hex6 => hex_collide_spec(b, c),
    }
}

/// Whether the pattern belongs to a family with more than one valid
/// post-collision outcome.
pub open spec fn is_ambiguous(t: Topology, b: u8) -> bool {
    match t {
        Topology::Square4 => false,
        Topology::Hex6 => b == 0b100100 || b == 0b010010 || b == 0b001001 || b == 0b110110 || b
            == 0b101101 || b == 0b011011,
    }
}

/// Applies the fluid collision table to one site's pattern.
pub fn collide_node(t: Topology, b: u8, c: &Choices) -> (r: u8)
    ensures
        r == collide_spec(t, b, *c),
{
    match t {
        Topology::Square4 => if b == 0b0101 {
            0b1010
        } else if b == 0b1010 {
            0b0101
        } else {
            b
        },
        Topology::Hex6 => if b == 0b010101 {
            0b101010
        } else if b == 0b101010 {
            0b010101
        } else if b == 0b100100 {
            c.two_a
        } else if b == 0b010010 {
            c.two_b
        } else if b == 0b001001 {
            c.two_c
        } else if b == 0b110110 {
            c.four_a
        } else if b == 0b101101 {
            c.four_b
        } else if b == 0b011011 {
            c.four_c
        } else {
            b
        },
    }
}

/// Reflection of the four-direction lattice: a rotate by half the direction
/// count, swapping each direction with its antipode.
pub open spec fn square_reflect_spec(b: u8) -> u8 {
    (b >> 2) | ((b << 2) & 0b1100)
}

/// Reflection of the six-direction lattice: a rotate by half the direction
/// count, swapping each direction with its antipode.
pub open spec fn hex_reflect_spec(b: u8) -> u8 {
    (b >> 3) | ((b << 3) & 0b111000)
}

/// The wall reflection transform of the given topology.
pub open spec fn reflect_spec(t: Topology, b: u8) -> u8 {
    match t {
        Topology::Square4 => square_reflect_spec(b),
        Topology::Hex6 => hex_reflect_spec(b),
    }
}

/// Reflects one site's pattern front to back, as a solid wall does.
pub fn reflect_node(t: Topology, b: u8) -> (r: u8)
    ensures
        r == reflect_spec(t, b),
{
    match t {
        Topology::Square4 => (b >> 2) | ((b << 2) & 0b1100),
        Topology::Hex6 => (b >> 3) | ((b << 3) & 0b111000),
    }
}

/// Reflection swaps each direction's bit with its antipode half the
/// direction count away, and keeps the record well formed.
pub proof fn lemma_reflect_bits(t: Topology, b: u8)
    requires
        node_wf(b, dirs(t)),
    ensures
        node_wf(reflect_spec(t, b), dirs(t)),
        forall|d: u8|
            d < dirs(t) ==> occ_bit(reflect_spec(t, b), d) == occ_bit(
                b,
                ((d + dirs(t) / 2) % (dirs(t) as int)) as u8,
            ),
{
    match t {
        Topology::Square4 => {
            let r = square_reflect_spec(b);
            assert(!occ_bit(b, 4u8) && !occ_bit(b, 5u8) && !occ_bit(b, 6u8) && !occ_bit(b, 7u8));
            assert(((r >> 0u8) & 1 == 1) == ((b >> 2u8) & 1 == 1) && ((r >> 1u8) & 1 == 1) == ((b
                >> 3u8) & 1 == 1) && ((r >> 2u8) & 1 == 1) == ((b >> 0u8) & 1 == 1) && ((r >> 3u8)
                & 1 == 1) == ((b >> 1u8) & 1 == 1) && (r >> 4u8) & 1 != 1 && (r >> 5u8) & 1 != 1
                && (r >> 6u8) & 1 != 1 && (r >> 7u8) & 1 != 1) by (bit_vector)
                requires
                    r == (b >> 2) | ((b << 2) & 0b1100),
                    (b >> 4u8) & 1 != 1,
                    (b >> 5u8) & 1 != 1,
                    (b >> 6u8) & 1 != 1,
                    (b >> 7u8) & 1 != 1,
            ;
            assert forall|d: u8| d < 4 implies occ_bit(r, d) == occ_bit(
                b,
                ((d + 2) % 4) as u8,
            ) by {
                if d == 0 {
                } else if d == 1 {
                } else if d == 2 {
                } else {
                    assert(d == 3);
                }
            }
        },
        Topology::Hex6 => {
            let r = hex_reflect_spec(b);
            assert(!occ_bit(b, 6u8) && !occ_bit(b, 7u8));
            assert(((r >> 0u8) & 1 == 1) == ((b >> 3u8) & 1 == 1) && ((r >> 1u8) & 1 == 1) == ((b
                >> 4u8) & 1 == 1) && ((r >> 2u8) & 1 == 1) == ((b >> 5u8) & 1 == 1) && ((r >> 3u8)
                & 1 == 1) == ((b >> 0u8) & 1 == 1) && ((r >> 4u8) & 1 == 1) == ((b >> 1u8) & 1 == 1)
                && ((r >> 5u8) & 1 == 1) == ((b >> 2u8) & 1 == 1) && (r >> 6u8) & 1 != 1 && (r
                >> 7u8) & 1 != 1) by (bit_vector)
                requires
                    r == (b >> 3) | ((b << 3) & 0b111000),
                    (b >> 6u8) & 1 != 1,
                    (b >> 7u8) & 1 != 1,
            ;
            assert forall|d: u8| d < 6 implies occ_bit(r, d) == occ_bit(
                b,
                ((d + 3) % 6) as u8,
            ) by {
                if d == 0 {
                } else if d == 1 {
                } else if d == 2 {
                } else if d == 3 {
                } else if d == 4 {
                } else {
                    assert(d == 5);
                }
            }
        },
    }
}

/// Applying the wall reflection transform twice returns the original
/// pattern: reflection is its own inverse.
pub proof fn lemma_reflect_involution(t: Topology, b: u8)
    requires
        node_wf(b, dirs(t)),
    ensures
        reflect_spec(t, reflect_spec(t, b)) == b,
{
    match t {
        Topology::Square4 => {
            let r = square_reflect_spec(b);
            assert(!occ_bit(b, 4u8) && !occ_bit(b, 5u8) && !occ_bit(b, 6u8) && !occ_bit(b, 7u8));
            assert((r >> 2) | ((r << 2) & 0b1100) == b) by (bit_vector)
                requires
                    r == (b >> 2) | ((b << 2) & 0b1100),
                    (b >> 4u8) & 1 != 1,
                    (b >> 5u8) & 1 != 1,
                    (b >> 6u8) & 1 != 1,
                    (b >> 7u8) & 1 != 1,
            ;
        },
        Topology::Hex6 => {
            let r = hex_reflect_spec(b);
            assert(!occ_bit(b, 6u8) && !occ_bit(b, 7u8));
            assert((r >> 3) | ((r << 3) & 0b111000) == b) by (bit_vector)
                requires
                    r == (b >> 3) | ((b << 3) & 0b111000),
                    (b >> 6u8) & 1 != 1,
                    (b >> 7u8) & 1 != 1,
            ;
        },
    }
}

/// Bit values of the six-direction patterns named by the collision table,
/// their particle counts, and their well-formedness.
proof fn lemma_hex_pattern_facts()
    ensures
        node_count(0b010101u8, 6) == 3,
        node_count(0b101010u8, 6) == 3,
        node_count(0b100100u8, 6) == 2,
        node_count(0b010010u8, 6) == 2,
        node_count(0b001001u8, 6) == 2,
        node_count(0b110110u8, 6) == 4,
        node_count(0b101101u8, 6) == 4,
        node_count(0b011011u8, 6) == 4,
        node_wf(0b010101u8, 6),
        node_wf(0b101010u8, 6),
        node_wf(0b100100u8, 6),
        node_wf(0b010010u8, 6),
        node_wf(0b001001u8, 6),
        node_wf(0b110110u8, 6),
        node_wf(0b101101u8, 6),
        node_wf(0b011011u8, 6),
{
    assert forall|p: u8, d: u8| p < 64 && 6 <= d < 8 implies !occ_bit(p, d) by {
        assert((p >> d) & 1 != 1) by (bit_vector)
            requires
                p < 64,
                6 <= d < 8,
        ;
    }
    reveal_with_fuel(node_count, 8);
    assert((0b010101u8 >> 0u8) & 1 == 1 &&
(0b010101u8 >> 1u8) & 1 != 1 &&
(0b010101u8 >> 2u8) & 1 == 1 &&
(0b010101u8 >> 3u8) & 1 != 1 &&
(0b010101u8 >> 4u8) & 1 == 1 &&
(0b010101u8 >> 5u8) & 1 != 1 &&
(0b101010u8 >> 0u8) & 1 != 1 &&
(0b101010u8 >> 1u8) & 1 == 1 &&
(0b101010u8 >> 2u8) & 1 != 1 &&
(0b101010u8 >> 3u8) & 1 == 1 &&
(0b101010u8 >> 4u8) & 1 != 1 &&
(0b101010u8 >> 5u8) & 1 == 1 &&
(0b100100u8 >> 0u8) & 1 != 1 &&
(0b100100u8 >> 1u8) & 1 != 1 &&
(0b100100u8 >> 2u8) & 1 == 1 &&
(0b100100u8 >> 3u8) & 1 != 1 &&
(0b100100u8 >> 4u8) & 1 != 1 &&
(0b100100u8 >> 5u8) & 1 == 1 &&
(0b010010u8 >> 0u8) & 1 != 1 &&
(0b010010u8 >> 1u8) & 1 == 1 &&
(0b010010u8 >> 2u8) & 1 != 1 &&
(0b010010u8 >> 3u8) & 1 != 1 &&
(0b010010u8 >> 4u8) & 1 == 1 &&
(0b010010u8 >> 5u8) & 1 != 1 &&
(0b001001u8 >> 0u8) & 1 == 1 &&
(0b001001u8 >> 1u8) & 1 != 1 &&
(0b001001u8 >> 2u8) & 1 != 1 &&
(0b001001u8 >> 3u8) & 1 == 1 &&
(0b001001u8 >> 4u8) & 1 != 1 &&
(0b001001u8 >> 5u8) & 1 != 1 &&
(0b110110u8 >> 0u8) & 1 != 1 &&
(0b110110u8 >> 1u8) & 1 == 1 &&
(0b110110u8 >> 2u8) & 1 == 1 &&
(0b110110u8 >> 3u8) & 1 != 1 &&
(0b110110u8 >> 4u8) & 1 == 1 &&
(0b110110u8 >> 5u8) & 1 == 1 &&
(0b101101u8 >> 0u8) & 1 == 1 &&
(0b101101u8 >> 1u8) & 1 != 1 &&
(0b101101u8 >> 2u8) & 1 == 1 &&
(0b101101u8 >> 3u8) & 1 == 1 &&
(0b101101u8 >> 4u8) & 1 != 1 &&
(0b101101u8 >> 5u8) & 1 == 1 &&
(0b011011u8 >> 0u8) & 1 == 1 &&
(0b011011u8 >> 1u8) & 1 == 1 &&
(0b011011u8 >> 2u8) & 1 != 1 &&
(0b011011u8 >> 3u8) & 1 == 1 &&
(0b011011u8 >> 4u8) & 1 == 1 &&
(0b011011u8 >> 5u8) & 1 != 1) by (bit_vector);
    assert(node_count(0b010101u8, 6) == 3);
    assert(node_count(0b101010u8, 6) == 3);
    assert(node_count(0b100100u8, 6) == 2);
    assert(node_count(0b010010u8, 6) == 2);
    assert(node_count(0b001001u8, 6) == 2);
    assert(node_count(0b110110u8, 6) == 4);
    assert(node_count(0b101101u8, 6) == 4);
    assert(node_count(0b011011u8, 6) == 4);
}

/// Bit values, counts and well-formedness of the square-lattice head-on
/// patterns.
proof fn lemma_square_pattern_facts()
    ensures
        node_count(0b0101u8, 4) == 2,
        node_count(0b1010u8, 4) == 2,
        node_wf(0b0101u8, 4),
        node_wf(0b1010u8, 4),
{
    assert forall|p: u8, d: u8| p < 16 && 4 <= d < 8 implies !occ_bit(p, d) by {
        assert((p >> d) & 1 != 1) by (bit_vector)
            requires
                p < 16,
                4 <= d < 8,
        ;
    }
    reveal_with_fuel(node_count, 6);
    assert((0b0101u8 >> 0u8) & 1 == 1 &&
(0b0101u8 >> 1u8) & 1 != 1 &&
(0b0101u8 >> 2u8) & 1 == 1 &&
(0b0101u8 >> 3u8) & 1 != 1 &&
(0b1010u8 >> 0u8) & 1 != 1 &&
(0b1010u8 >> 1u8) & 1 == 1 &&
(0b1010u8 >> 2u8) & 1 != 1 &&
(0b1010u8 >> 3u8) & 1 == 1) by (bit_vector);
    assert(node_count(0b0101u8, 4) == 2);
    assert(node_count(0b1010u8, 4) == 2);
}

/// The fluid collision rule conserves the particle count at the site: no
/// collision outcome creates or destroys a particle.
pub proof fn lemma_collide_count(t: Topology, b: u8, c: Choices)
    requires
        c.wf(),
    ensures
        node_count(collide_spec(t, b, c), dirs(t) as nat) == node_count(b, dirs(t) as nat),
{
    match t {
        Topology::Square4 => {
            lemma_square_pattern_facts();
        },
        Topology::Hex6 => {
            lemma_hex_pattern_facts();
        },
    }
}

/// The fluid collision rule keeps the record well formed.
pub proof fn lemma_collide_wf(t: Topology, b: u8, c: Choices)
    requires
        c.wf(),
        node_wf(b, dirs(t)),
    ensures
        node_wf(collide_spec(t, b, c), dirs(t)),
{
    match t {
        Topology::Square4 => {
            lemma_square_pattern_facts();
        },
        Topology::Hex6 => {
            lemma_hex_pattern_facts();
        },
    }
}

/// On a pattern outside the ambiguous families the collision table is fully
/// deterministic: the step's random choices play no part in the outcome.
pub proof fn lemma_collision_deterministic(t: Topology, b: u8, c1: Choices, c2: Choices)
    requires
        !is_ambiguous(t, b),
    ensures
        collide_spec(t, b, c1) == collide_spec(t, b, c2),
{
}

} // verus!
