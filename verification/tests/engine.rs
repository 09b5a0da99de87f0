use lattice_gas::collision::Choices;
use lattice_gas::driver::{NodeType, Simulation};
use lattice_gas::geometry::Topology;

fn fixed_choices() -> Choices {
    Choices {
        two_a: 0b010010,
        two_b: 0b100100,
        two_c: 0b010010,
        four_a: 0b101101,
        four_b: 0b110110,
        four_c: 0b101101,
    }
}

fn total_bits(s: &Simulation, w: usize, h: usize) -> u32 {
    let mut total: u32 = 0;
    for row in 0..h {
        for col in 0..w {
            total += s.occupancy_at(row, col).count_ones();
        }
    }
    total
}

#[test]
fn head_on_scenario_square() {
    // A 3x3 periodic all-fluid square grid, one site seeded with the
    // head-on pair (directions 0 and 2): after one step the orthogonal pair
    // appears at the two neighbors in directions 1 and 3, all else empty.
    let mut s = Simulation::create(3, 3, Topology::Square4, 7);
    s.seed_occupancy(1, 1, 0b0101);
    s.step_with_choices(&fixed_choices());
    for row in 0..3 {
        for col in 0..3 {
            let b = s.occupancy_at(row, col);
            if row == 0 && col == 1 {
                assert_eq!(b, 0b0010);
            } else if row == 2 && col == 1 {
                assert_eq!(b, 0b1000);
            } else {
                assert_eq!(b, 0);
            }
        }
    }
}

#[test]
fn conservation_all_fluid_hex() {
    let mut s = Simulation::create(4, 4, Topology::Hex6, 42);
    s.seed_occupancy(0, 0, 0b010101);
    s.seed_occupancy(1, 2, 0b001001);
    s.seed_occupancy(2, 3, 0b110110);
    s.seed_occupancy(3, 1, 0b000011);
    let before = total_bits(&s, 4, 4);
    for _ in 0..25 {
        s.step();
    }
    assert_eq!(total_bits(&s, 4, 4), before);
}

#[test]
fn conservation_all_fluid_square() {
    let mut s = Simulation::create(5, 3, Topology::Square4, 9);
    s.seed_occupancy(0, 0, 0b0101);
    s.seed_occupancy(1, 4, 0b1111);
    s.seed_occupancy(2, 2, 0b0010);
    let before = total_bits(&s, 5, 3);
    for _ in 0..25 {
        s.step();
    }
    assert_eq!(total_bits(&s, 5, 3), before);
}

#[test]
fn sink_absorbs_inflowing_particle() {
    // One fluid site fires a particle into a sink; the sink absorbs it on
    // arrival, so it is empty immediately after the step, and stays empty.
    let mut s = Simulation::create(2, 1, Topology::Hex6, 3);
    s.set_type(0, 1, NodeType::Sink);
    s.seed_occupancy(0, 0, 0b000001);
    s.step_with_choices(&fixed_choices());
    assert_eq!(s.occupancy_at(0, 0), 0);
    assert_eq!(s.occupancy_at(0, 1), 0);
    s.step_with_choices(&fixed_choices());
    assert_eq!(s.occupancy_at(0, 0), 0);
    assert_eq!(s.occupancy_at(0, 1), 0);
}

#[test]
fn sink_clears_itself() {
    let mut s = Simulation::create(1, 1, Topology::Hex6, 3);
    s.set_type(0, 0, NodeType::Sink);
    s.seed_occupancy(0, 0, 0b111111);
    s.step();
    assert_eq!(s.occupancy_at(0, 0), 0);
}

#[test]
fn inflow_full_rates_force_injection() {
    let mut s = Simulation::create(1, 1, Topology::Hex6, 11);
    s.set_type(0, 0, NodeType::Inflow([1000, 1000, 1000, 1000, 1000, 1000]));
    s.step();
    assert_eq!(s.occupancy_at(0, 0), 0b111111);
}

#[test]
fn inflow_zero_rates_acts_as_wall() {
    let mut s = Simulation::create(1, 1, Topology::Hex6, 11);
    s.set_type(0, 0, NodeType::Inflow([0, 0, 0, 0, 0, 0]));
    s.seed_occupancy(0, 0, 0b000001);
    s.step();
    // Reflection sends direction 0 to its antipode, direction 3.
    assert_eq!(s.occupancy_at(0, 0), 0b001000);
}

#[test]
fn boundary_reflects() {
    let mut s = Simulation::create(1, 1, Topology::Square4, 5);
    s.set_type(0, 0, NodeType::Boundary);
    s.seed_occupancy(0, 0, 0b0001);
    s.step_with_choices(&fixed_choices());
    assert_eq!(s.occupancy_at(0, 0), 0b0100);
}

#[test]
fn queries_and_setup() {
    let mut s = Simulation::create(4, 2, Topology::Hex6, 1);
    assert_eq!(s.width(), 4);
    assert_eq!(s.height(), 2);
    assert!(matches!(s.type_at(1, 3), NodeType::Fluid));
    s.set_type(1, 3, NodeType::Boundary);
    assert!(matches!(s.type_at(1, 3), NodeType::Boundary));
    assert_eq!(s.occupancy_at(0, 2), 0);
    s.seed_occupancy(0, 2, 0b101010);
    assert_eq!(s.occupancy_at(0, 2), 0b101010);
}

#[test]
fn hex_head_on_triple_swaps() {
    // The non-ambiguous three-particle head-on pattern swaps to the other
    // triple wherever it sits, whatever the step's random choices are.
    let mut s = Simulation::create(1, 1, Topology::Hex6, 2);
    s.seed_occupancy(0, 0, 0b010101);
    s.step();
    assert_eq!(s.occupancy_at(0, 0), 0b101010);
    s.step();
    assert_eq!(s.occupancy_at(0, 0), 0b010101);
}

#[test]
fn ambiguous_pair_takes_step_choice() {
    let mut s = Simulation::create(1, 1, Topology::Hex6, 2);
    s.seed_occupancy(0, 0, 0b100100);
    let c = fixed_choices();
    s.step_with_choices(&c);
    assert_eq!(s.occupancy_at(0, 0), c.two_a);
}

#[test]
fn random_seeding_rate_extremes() {
    let mut s = Simulation::create(2, 2, Topology::Hex6, 8);
    s.seed_occupancy(1, 1, 0b000111);
    s.seed_occupancy_random(0, 0, 1000);
    assert_eq!(s.occupancy_at(0, 0), 0b111111);
    s.seed_occupancy_random(0, 1, 0);
    assert_eq!(s.occupancy_at(0, 1), 0);
    // Other sites stay untouched.
    assert_eq!(s.occupancy_at(1, 1), 0b000111);
}
