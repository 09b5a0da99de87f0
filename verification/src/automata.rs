//! Two simpler cellular automata on periodic grids: a one-dimensional
//! totalistic automaton whose rule is a bitmask over the live count of a
//! five-cell window, and a two-dimensional cyclic automaton where a cell
//! advances to the next state when enough neighbors already carry it.

use vstd::prelude::*;

verus! {

/// Number of live cells in the five-cell periodic window centered on `i`.
pub open spec fn window_count(s: Seq<(bool, usize)>, i: int) -> int {
    let n = s.len() as int;
    (if s[(i - 2 + n) % n].0 {
        1int
    } else {
        0int
    }) + (if s[(i - 1 + n) % n].0 {
        1int
    } else {
        0int
    }) + (if s[(i + n) % n].0 {
        1int
    } else {
        0int
    }) + (if s[(i + 1 + n) % n].0 {
        1int
    } else {
        0int
    }) + (if s[(i + 2 + n) % n].0 {
        1int
    } else {
        0int
    })
}

/// Whether the rule mask keeps a cell with `c` live neighbors alive.
pub open spec fn rule_selects(rule: i32, c: u32) -> bool {
    (rule >> c) & 1 == 1
}

/// One generation of the one-dimensional automaton: a cell is live next
/// generation exactly when the rule's bit at its window count is set, and a
/// live cell carries its age, one more than before.
pub fn update(state: &Vec<(bool, usize)>, rule: i32) -> (r: Vec<(bool, usize)>)
    requires
        state@.len() <= 0x4000_0000,
        forall|k: int| 0 <= k < state@.len() ==> (#[trigger] state@[k]).1 < usize::MAX,
    ensures
        r@.len() == state@.len(),
        forall|i: int|
            0 <= i < state@.len() ==> r@[i] == (if rule_selects(rule, window_count(state@, i) as u32) {
                (true, (state@[i].1 + 1) as usize)
            } else {
                (false, 0usize)
            }),
{
    let n = state.len();
    let mut r: Vec<(bool, usize)> = Vec::new();
    let mut i: usize = 0;
    while i < n
        invariant
            i <= n,
            n == state@.len(),
            n <= 0x4000_0000,
            forall|k: int| 0 <= k < n ==> (#[trigger] state@[k]).1 < usize::MAX,
            r@.len() == i,
            forall|ii: int|
                0 <= ii < i ==> r@[ii] == (if rule_selects(rule, window_count(state@, ii) as u32) {
                    (true, (state@[ii].1 + 1) as usize)
                } else {
                    (false, 0usize)
                }),
        decreases n - i,
    {
        let mut c: u32 = 0;
        let mut j: usize = 0;
        while j < 5
            invariant
                j <= 5,
                i < n,
                n == state@.len(),
                n <= 0x4000_0000,
                c <= j,
                c as int == (if j >= 1 && state@[(i - 2 + n as int) % (n as int)].0 {
                    1int
                } else {
                    0int
                }) + (if j >= 2 && state@[(i - 1 + n as int) % (n as int)].0 {
                    1int
                } else {
                    0int
                }) + (if j >= 3 && state@[(i + n as int) % (n as int)].0 {
                    1int
                } else {
                    0int
                }) + (if j >= 4 && state@[(i + 1 + n as int) % (n as int)].0 {
                    1int
                } else {
                    0int
                }) + (if j >= 5 && state@[(i + 2 + n as int) % (n as int)].0 {
                    1int
                } else {
                    0int
                }),
            decreases 5 - j,
        {
            let idx = (i + 2 * n + j - 2) % n;
            proof {
                vstd::arithmetic::div_mod::lemma_mod_multiples_vanish(
                    1,
                    i as int + j as int - 2 + n as int,
                    n as int,
                );
                assert(idx as int == (i as int + (j as int - 2) + n as int) % (n as int));
            }
            if state[idx].0 {
                c += 1;
            }
            j += 1;
        }
        assert(c as int == window_count(state@, i as int));
        let cell = if (rule >> c) & 1 == 1 {
            (true, state[i].1 + 1)
        } else {
            (false, 0usize)
        };
        r.push(cell);
        i += 1;
    }
    r
}

/// The state of the periodic square cell `(x, y)` wrapped into bounds.
pub open spec fn cell_at(l: Seq<usize>, side: int, x: int, y: int) -> usize {
    l[side * ((x + side) % side) + ((y + side) % side)]
}

/// How many of the first `c` columns of the window row at `x` (columns
/// `j - r .. j - r + c`) hold the target state.
pub open spec fn row_count(l: Seq<usize>, side: int, x: int, j: int, r: int, c: int, tgt: usize) -> int
    decreases c,
{
    if c <= 0 {
        0
    } else {
        row_count(l, side, x, j, r, c - 1, tgt) + if cell_at(l, side, x, j + (c - 1) - r) == tgt {
            1int
        } else {
            0int
        }
    }
}

/// How many cells of the first `rows` rows of the `(2r+1) x (2r+1)` window
/// centered on `(i, j)` hold the target state.
pub open spec fn win_count(l: Seq<usize>, side: int, i: int, j: int, r: int, rows: int, tgt: usize) -> int
    decreases rows,
{
    if rows <= 0 {
        0
    } else {
        win_count(l, side, i, j, r, rows - 1, tgt) + row_count(
            l,
            side,
            i + (rows - 1) - r,
            j,
            r,
            2 * r + 1,
            tgt,
        )
    }
}

proof fn lemma_row_count_bound(l: Seq<usize>, side: int, x: int, j: int, r: int, c: int, tgt: usize)
    ensures
        0 <= row_count(l, side, x, j, r, c, tgt) <= (if c >= 0 {
            c
        } else {
            0
        }),
    decreases c,
{
    if c > 0 {
        lemma_row_count_bound(l, side, x, j, r, c - 1, tgt);
    }
}

proof fn lemma_win_count_bound(l: Seq<usize>, side: int, i: int, j: int, r: int, rows: int, tgt: usize)
    requires
        r >= 0,
    ensures
        0 <= win_count(l, side, i, j, r, rows, tgt) <= (if rows >= 0 {
            rows * (2 * r + 1)
        } else {
            0
        }),
    decreases rows,
{
    if rows > 0 {
        lemma_win_count_bound(l, side, i, j, r, rows - 1, tgt);
        lemma_row_count_bound(l, side, i + (rows - 1) - r, j, r, 2 * r + 1, tgt);
        assert(rows * (2 * r + 1) == (rows - 1) * (2 * r + 1) + (2 * r + 1)) by (nonlinear_arith);
    }
}

/// The next state of flat cell `k`: a cell in state `s` advances to
/// `(s + 1) % states` exactly when more than `threshold` cells of the
/// `(2r+1)`-wide window around it already hold that next state; otherwise it
/// keeps `s`.
pub open spec fn cyclic_next(
    l: Seq<usize>,
    side: int,
    states: int,
    threshold: int,
    r: int,
    k: int,
) -> usize {
    let tgt = (((l[k] + 1) as int) % states) as usize;
    if win_count(l, side, k / side, k % side, r, 2 * r + 1, tgt) > threshold {
        tgt
    } else {
        l[k]
    }
}

/// One generation of the cyclic automaton on a periodic `side x side` grid,
/// cell by cell as `cyclic_next` says.
pub fn cyclic_step(
    lattice: &Vec<usize>,
    side: usize,
    states: usize,
    threshold: usize,
    radius: usize,
) -> (r: Vec<usize>)
    requires
        1 <= side <= 0x4000_0000,
        side * side <= usize::MAX,
        lattice@.len() == side * side,
        states >= 1,
        forall|k: int| 0 <= k < lattice@.len() ==> lattice@[k] < states,
        radius <= side,
        radius <= 0x3fff,
    ensures
        r@.len() == lattice@.len(),
        forall|k: int|
            0 <= k < lattice@.len() ==> r@[k] == cyclic_next(
                lattice@,
                side as int,
                states as int,
                threshold as int,
                radius as int,
                k,
            ),
{
    let n = lattice.len();
    let win = 2 * radius + 1;
    let mut out: Vec<usize> = Vec::new();
    let mut i: usize = 0;
    while i < side
        invariant
            i <= side,
            1 <= side <= 0x4000_0000,
            side * side <= usize::MAX,
            n == side * side,
            lattice@.len() == n,
            states >= 1,
            forall|k: int| 0 <= k < lattice@.len() ==> lattice@[k] < states,
            radius <= side,
            radius <= 0x3fff,
            win == 2 * radius + 1,
            out@.len() == i * side,
            forall|k: int|
                0 <= k < out@.len() ==> out@[k] == cyclic_next(
                    lattice@,
                    side as int,
                    states as int,
                    threshold as int,
                    radius as int,
                    k,
                ),
        decreases side - i,
    {
        proof {
            assert((i as int + 1) * (side as int) <= (side as int) * (side as int)
                && (i as int) * (side as int) + (side as int) == (i as int + 1) * (side as int))
                by (nonlinear_arith)
                requires
                    0 <= (i as int) < (side as int),
            ;
        }
        let mut j: usize = 0;
        while j < side
            invariant
                j <= side,
                i < side,
                1 <= side <= 0x4000_0000,
                side * side <= usize::MAX,
                n == side * side,
                lattice@.len() == n,
                states >= 1,
                forall|k: int| 0 <= k < lattice@.len() ==> lattice@[k] < states,
                radius <= side,
                radius <= 0x3fff,
                win == 2 * radius + 1,
                i * side + side <= n,
                out@.len() == i * side + j,
                forall|k: int|
                    0 <= k < out@.len() ==> out@[k] == cyclic_next(
                        lattice@,
                        side as int,
                        states as int,
                        threshold as int,
                        radius as int,
                        k,
                    ),
            decreases side - j,
        {
            let m = i * side + j;
            proof {
                assert((i as int) * (side as int) + (j as int) < (n as int)) by (nonlinear_arith)
                    requires
                        0 <= (i as int) < (side as int),
                        0 <= (j as int) < (side as int),
                        n as int == (side as int) * (side as int),
                ;
                vstd::arithmetic::div_mod::lemma_fundamental_div_mod_converse(
                    m as int,
                    side as int,
                    i as int,
                    j as int,
                );
            }
            let s = lattice[m];
            let tgt = (s + 1) % states;
            let mut count: usize = 0;
            let mut dk: usize = 0;
            while dk < win
                invariant
                    dk <= win,
                    i < side,
                    j < side,
                    1 <= side <= 0x4000_0000,
                    side * side <= usize::MAX,
                    n == side * side,
                    lattice@.len() == n,
                    radius <= side,
                    radius <= 0x3fff,
                    win == 2 * radius + 1,
                    count as int == win_count(
                        lattice@,
                        side as int,
                        i as int,
                        j as int,
                        radius as int,
                        dk as int,
                        tgt,
                    ),
                decreases win - dk,
            {
                let ghost x = i as int + dk as int - radius as int;
                let mut dl: usize = 0;
                while dl < win
                    invariant
                        dl <= win,
                        dk < win,
                        i < side,
                        j < side,
                        1 <= side <= 0x4000_0000,
                        side * side <= usize::MAX,
                        n == side * side,
                        lattice@.len() == n,
                        radius <= side,
                        radius <= 0x3fff,
                        win == 2 * radius + 1,
                        x == i as int + dk as int - radius as int,
                        count as int == win_count(
                            lattice@,
                            side as int,
                            i as int,
                            j as int,
                            radius as int,
                            dk as int,
                            tgt,
                        ) + row_count(
                            lattice@,
                            side as int,
                            x,
                            j as int,
                            radius as int,
                            dl as int,
                            tgt,
                        ),
                    decreases win - dl,
                {
                    proof {
                        lemma_win_count_bound(
                            lattice@,
                            side as int,
                            i as int,
                            j as int,
                            radius as int,
                            dk as int,
                            tgt,
                        );
                        lemma_row_count_bound(
                            lattice@,
                            side as int,
                            x,
                            j as int,
                            radius as int,
                            dl as int,
                            tgt,
                        );
                        assert((dk as int) * (2 * (radius as int) + 1) + (dl as int) < 0x40000000)
                            by (nonlinear_arith)
                            requires
                                0 <= (dk as int) < 2 * (radius as int) + 1,
                                0 <= (dl as int) < 2 * (radius as int) + 1,
                                (radius as int) <= 0x3fff,
                        ;
                    }
                    let xi = (i + side + dk - radius) % side;
                    let yj = (j + side + dl - radius) % side;
                    proof {
                        vstd::arithmetic::div_mod::lemma_mod_division_less_than_divisor(
                            (i + side + dk - radius) as int,
                            side as int,
                        );
                        vstd::arithmetic::div_mod::lemma_mod_division_less_than_divisor(
                            (j + side + dl - radius) as int,
                            side as int,
                        );
                        assert((side as int) * (xi as int) + (yj as int) < (n as int))
                            by (nonlinear_arith)
                            requires
                                0 <= (xi as int) < (side as int),
                                0 <= (yj as int) < (side as int),
                                n as int == (side as int) * (side as int),
                        ;
                        assert(xi as int == (x + side as int) % (side as int));
                        assert(yj as int == ((j as int + dl as int - radius as int) + side as int)
                            % (side as int));
                    }
                    if lattice[side * xi + yj] == tgt {
                        count += 1;
                    }
                    dl += 1;
                }
                dk += 1;
            }
            out.push(if count > threshold {
                tgt
            } else {
                s
            });
            proof {
                assert(out@[m as int] == cyclic_next(
                    lattice@,
                    side as int,
                    states as int,
                    threshold as int,
                    radius as int,
                    m as int,
                ));
            }
            j += 1;
        }
        i += 1;
        proof {
            assert(out@.len() == (i as int) * (side as int)) by (nonlinear_arith)
                requires
                    out@.len() == ((i as int) - 1) * (side as int) + side as int,
            ;
        }
    }
    proof {
        assert(out@.len() == n as int) by (nonlinear_arith)
            requires
                out@.len() == (side as int) * (side as int),
                n as int == (side as int) * (side as int),
        ;
    }
    out
}

} // verus!
