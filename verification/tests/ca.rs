use lattice_gas::automata::{cyclic_step, update};

#[test]
fn one_dimensional_rule_two_spreads() {
    // Rule 2 keeps exactly the cells whose five-cell window holds one live
    // cell; a lone live cell therefore spreads to its four neighbors, and a
    // surviving cell's age grows by one.
    let state = vec![
        (true, 1usize),
        (false, 0usize),
        (false, 0usize),
        (false, 0usize),
        (false, 0usize),
        (false, 0usize),
        (false, 0usize),
    ];
    let next = update(&state, 2);
    let expect = vec![
        (true, 2usize),
        (true, 1usize),
        (true, 1usize),
        (false, 0usize),
        (false, 0usize),
        (true, 1usize),
        (true, 1usize),
    ];
    assert_eq!(next, expect);
}

#[test]
fn one_dimensional_rule_without_matching_count_kills_all() {
    // Rule 20 selects counts 2 and 4; every window of this state holds at
    // most one live cell, so the next generation is empty.
    let state = vec![
        (true, 1usize),
        (false, 0usize),
        (false, 0usize),
        (false, 0usize),
        (false, 0usize),
        (false, 0usize),
        (false, 0usize),
    ];
    let next = update(&state, 20);
    assert!(next.iter().all(|c| *c == (false, 0usize)));
}

#[test]
fn one_dimensional_keeps_length() {
    let state = vec![(false, 0usize); 12];
    let next = update(&state, 31);
    assert_eq!(next.len(), 12);
}

#[test]
fn cyclic_radius_zero_never_advances() {
    let l = vec![0usize, 1, 2, 2, 1, 0, 0, 0, 1];
    let next = cyclic_step(&l, 3, 3, 0, 0);
    assert_eq!(next, l);
}

#[test]
fn cyclic_advances_over_threshold() {
    // On a 3x3 periodic grid a radius-1 window covers every cell. Three
    // cells hold state 1, so every state-0 cell sees three successors and
    // advances past a threshold of two; the state-1 cells see no 2 and stay.
    let l = vec![0usize, 1, 1, 1, 0, 0, 0, 0, 0];
    let next = cyclic_step(&l, 3, 3, 2, 1);
    assert_eq!(next, vec![1usize; 9]);
}

#[test]
fn cyclic_stays_under_threshold() {
    let l = vec![0usize, 1, 1, 1, 0, 0, 0, 0, 0];
    let next = cyclic_step(&l, 3, 3, 3, 1);
    assert_eq!(next, l);
}
