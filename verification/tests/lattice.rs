use lattice_gas::bits::{get_cell, set_cell};
use lattice_gas::collision::{collide_node, reflect_node, Choices};
use lattice_gas::geometry::Topology;
use lattice_gas::hpp::{collide, init_lattice, update_lattice};

#[test]
fn get_and_set_cell() {
    let mut node: u8 = 0;
    set_cell(3, &mut node, true);
    assert_eq!(node, 0b1000);
    assert!(get_cell(3, node));
    assert!(!get_cell(2, node));
    set_cell(0, &mut node, true);
    assert_eq!(node, 0b1001);
    set_cell(3, &mut node, false);
    assert_eq!(node, 0b0001);
}

#[test]
fn reflection_is_an_involution() {
    for b in 0u8..64 {
        let r = reflect_node(Topology::Hex6, b);
        assert_eq!(reflect_node(Topology::Hex6, r), b);
    }
    for b in 0u8..16 {
        let r = reflect_node(Topology::Square4, b);
        assert_eq!(reflect_node(Topology::Square4, r), b);
    }
}

#[test]
fn reflection_swaps_antipodes() {
    assert_eq!(reflect_node(Topology::Hex6, 0b000001), 0b001000);
    assert_eq!(reflect_node(Topology::Hex6, 0b000110), 0b110000);
    assert_eq!(reflect_node(Topology::Square4, 0b0011), 0b1100);
}

#[test]
fn hex_collision_table() {
    let c = Choices {
        two_a: 0b001001,
        two_b: 0b001001,
        two_c: 0b100100,
        four_a: 0b011011,
        four_b: 0b011011,
        four_c: 0b110110,
    };
    assert_eq!(collide_node(Topology::Hex6, 0b010101, &c), 0b101010);
    assert_eq!(collide_node(Topology::Hex6, 0b101010, &c), 0b010101);
    assert_eq!(collide_node(Topology::Hex6, 0b100100, &c), c.two_a);
    assert_eq!(collide_node(Topology::Hex6, 0b010010, &c), c.two_b);
    assert_eq!(collide_node(Topology::Hex6, 0b001001, &c), c.two_c);
    assert_eq!(collide_node(Topology::Hex6, 0b110110, &c), c.four_a);
    assert_eq!(collide_node(Topology::Hex6, 0b101101, &c), c.four_b);
    assert_eq!(collide_node(Topology::Hex6, 0b011011, &c), c.four_c);
    // Patterns outside the table pass through unchanged.
    assert_eq!(collide_node(Topology::Hex6, 0b000111, &c), 0b000111);
    assert_eq!(collide_node(Topology::Hex6, 0b111111, &c), 0b111111);
    assert_eq!(collide_node(Topology::Hex6, 0, &c), 0);
}

#[test]
fn square_collision_table() {
    let c = Choices {
        two_a: 0b010010,
        two_b: 0b100100,
        two_c: 0b010010,
        four_a: 0b101101,
        four_b: 0b110110,
        four_c: 0b101101,
    };
    assert_eq!(collide_node(Topology::Square4, 0b0101, &c), 0b1010);
    assert_eq!(collide_node(Topology::Square4, 0b1010, &c), 0b0101);
    assert_eq!(collide_node(Topology::Square4, 0b0011, &c), 0b0011);
    assert_eq!(collide_node(Topology::Square4, 0b1111, &c), 0b1111);
}

#[test]
fn hpp_collide_swaps_head_on_pairs() {
    assert_eq!(collide(&[true, false, true, false]), [false, true, false, true]);
    assert_eq!(collide(&[false, true, false, true]), [true, false, true, false]);
    assert_eq!(collide(&[true, true, false, false]), [true, true, false, false]);
    assert_eq!(collide(&[true, true, true, true]), [true, true, true, true]);
}

#[test]
fn init_lattice_fills() {
    let l = init_lattice(3, 2, 7u8);
    assert_eq!(l.len(), 2);
    for row in &l {
        assert_eq!(row.len(), 3);
        for v in row {
            assert_eq!(*v, 7);
        }
    }
}

#[test]
fn update_lattice_streams_head_on_pair() {
    // 3x3 grid, center seeded with the head-on pair: the collision swaps it
    // to the orthogonal pair, and streaming carries those two flags to the
    // two neighbors.
    let mut l: Vec<Vec<[bool; 4]>> = init_lattice(3, 3, [false; 4]);
    l[1][1] = [true, false, true, false];
    update_lattice(&mut l, 3, 3);
    for i in 0..3 {
        for j in 0..3 {
            let expect = if i == 1 && j == 0 {
                [false, true, false, false]
            } else if i == 1 && j == 2 {
                [false, false, false, true]
            } else {
                [false; 4]
            };
            assert_eq!(l[i][j], expect);
        }
    }
}

#[test]
fn update_lattice_reflects_at_edges() {
    let mut l: Vec<Vec<[bool; 4]>> = init_lattice(1, 1, [false; 4]);
    l[0][0] = [true, false, false, false];
    update_lattice(&mut l, 1, 1);
    assert_eq!(l[0][0], [false, false, true, false]);
}

#[test]
fn update_lattice_conserves_particles() {
    // Collision and streaming — edge reflection included — permute the flag
    // slots, so a cloud keeps its particle count however long it runs and
    // however often it bounces off the walls.
    let mut l: Vec<Vec<[bool; 4]>> = init_lattice(5, 5, [false; 4]);
    l[0][0] = [true, true, true, true];
    l[2][3] = [true, false, true, false];
    l[4][1] = [false, true, false, true];
    l[1][4] = [true, true, false, false];
    let count = |l: &Vec<Vec<[bool; 4]>>| -> usize {
        l.iter().flatten().flatten().filter(|b| **b).count()
    };
    let before = count(&l);
    for _ in 0..20 {
        update_lattice(&mut l, 5, 5);
    }
    assert_eq!(count(&l), before);
}
