//! Lattice geometry: the direction-offset tables of each topology and the
//! periodic source/destination maps that the streaming stage follows.
//!
//! Sites live on a `width x height` grid stored row-major: site `(row, col)`
//! has flat index `row * width + col`. For each direction `d`, streaming
//! moves the bit at a source site to its destination neighbor; on the
//! periodic grid that map is a bijection, stated here through an explicit
//! inverse.

use vstd::arithmetic::div_mod::lemma_fundamental_div_mod;
use vstd::arithmetic::div_mod::lemma_fundamental_div_mod_converse;
use vstd::arithmetic::div_mod::lemma_mod_division_less_than_divisor;
use vstd::arithmetic::div_mod::lemma_mod_multiples_vanish;
use vstd::arithmetic::div_mod::lemma_small_mod;
use vstd::prelude::*;

verus! {

/// The lattice topology: a square grid with four directions, or a hexagonal
/// grid with six directions stored in a rectangular array (so neighbor
/// offsets depend on row parity).
#[derive(Clone, Copy, PartialEq, Eq, Structural, Debug)]
pub enum Topology {
    Square4,
    Hex6,
}

/// How many discrete velocity directions the topology has.
pub open spec fn dirs(t: Topology) -> u8 {
    match t {
        Topology::Square4 => 4,
        Topology::Hex6 => 6,
    }
}

/// Executable twin of `dirs`.
pub fn direction_count(t: Topology) -> (n: u8)
    ensures
        n == dirs(t),
{
    match t {
        Topology::Square4 => 4,
        Topology::Hex6 => 6,
    }
}

/// Row offset of direction `d`: a particle moving in direction `d` from row
/// `j` lands on row `(j - row_off) mod height`. The hexagonal rows differ
/// only in their column offsets, so no parity appears here.
pub open spec fn row_off(t: Topology, d: int) -> int {
    match t {
        Topology::Square4 => if d == 1 {
            1
        } else if d == 3 {
            -1
        } else {
            0
        },
        Topology::Hex6 => if d == 1 || d == 2 {
            -1
        } else if d == 4 || d == 5 {
            1
        } else {
            0
        },
    }
}

/// Column offset of direction `d` for a source row of the given parity: the
/// particle lands on column `(col + col_off) mod width`.
pub open spec fn col_off(t: Topology, parity: int, d: int) -> int {
    match t {
        Topology::Square4 => if d == 0 {
            1
        } else if d == 2 {
            -1
        } else {
            0
        },
        Topology::Hex6 => if parity == 0 {
            if d == 0 {
                1
            } else if d == 2 || d == 3 || d == 4 {
                -1
            } else {
                0
            }
        } else {
            if d == 0 || d == 1 || d == 5 {
                1
            } else if d == 3 {
                -1
            } else {
                0
            }
        },
    }
}

/// Row of the site whose direction-`d` particle streams into row `nj`.
pub open spec fn src_row(t: Topology, nj: int, d: int, h: int) -> int {
    (nj + row_off(t, d) + h) % h
}

/// Flat index of the site whose direction-`d` particle streams into site `k`.
/// The column offset is looked up with the parity of the source row.
pub open spec fn src_idx(t: Topology, k: int, d: int, w: int, h: int) -> int {
    let j = src_row(t, k / w, d, h);
    j * w + (k % w - col_off(t, j % 2, d) + w) % w
}

/// Flat index of the site that the direction-`d` particle of site `k`
/// streams into: the inverse of `src_idx`.
pub open spec fn dst_idx(t: Topology, k: int, d: int, w: int, h: int) -> int {
    let j = k / w;
    let nj = (j - row_off(t, d) + h) % h;
    nj * w + (k % w + col_off(t, j % 2, d) + w) % w
}

/// `row_off + 1`, as an executable value (so exec code stays in `usize`).
fn row_off1(t: Topology, d: u8) -> (r: usize)
    requires
        d < dirs(t),
    ensures
        r as int == row_off(t, d as int) + 1,
{
    match t {
        Topology::Square4 => if d == 1 {
            2
        } else if d == 3 {
            0
        } else {
            1
        },
        Topology::Hex6 => if d == 1 || d == 2 {
            0
        } else if d == 4 || d == 5 {
            2
        } else {
            1
        },
    }
}

/// `col_off + 1`, as an executable value.
fn col_off1(t: Topology, parity: usize, d: u8) -> (r: usize)
    requires
        d < dirs(t),
        parity < 2,
    ensures
        r as int == col_off(t, parity as int, d as int) + 1,
{
    match t {
        Topology::Square4 => if d == 0 {
            2
        } else if d == 2 {
            0
        } else {
            1
        },
        Topology::Hex6 => if parity == 0 {
            if d == 0 {
                2
            } else if d == 2 || d == 3 || d == 4 {
                0
            } else {
                1
            }
        } else {
            if d == 0 || d == 1 || d == 5 {
                2
            } else if d == 3 {
                0
            } else {
                1
            }
        },
    }
}

/// Computes the flat index of the source site feeding direction `d` of
/// destination site `k` on the periodic grid.
pub fn source_index(t: Topology, k: usize, d: u8, w: usize, h: usize) -> (m: usize)
    requires
        1 <= w <= 0x4000_0000,
        1 <= h <= 0x4000_0000,
        w * h <= usize::MAX,
        k < w * h,
        d < dirs(t),
    ensures
        m as int == src_idx(t, k as int, d as int, w as int, h as int),
        m < w * h,
{
    let nj = k / w;
    let ni = k % w;
    proof {
        lemma_fundamental_div_mod(k as int, w as int);
        lemma_mod_division_less_than_divisor(k as int, w as int);
        assert(nj < h) by (nonlinear_arith)
            requires
                k as int == w as int * (nj as int) + ni as int,
                0 <= (ni as int) < (w as int),
                (k as int) < (w as int) * (h as int),
                0 <= nj as int,
                w as int >= 1,
        ;
    }
    let ro1 = row_off1(t, d);
    let j = (nj + h + ro1 - 1) % h;
    let p = j % 2;
    let co1 = col_off1(t, p, d);
    let i = (ni + w + 1 - co1) % w;
    proof {
        assert(j as int == src_row(t, nj as int, d as int, h as int));
        assert(i as int == (ni as int - col_off(t, j as int % 2, d as int) + w as int) % (
        w as int));
        assert((j as int) * (w as int) + (i as int) < (h as int) * (w as int)) by (nonlinear_arith)
            requires
                (j as int) < (h as int),
                (i as int) < (w as int),
                0 <= i as int,
                0 <= j as int,
                w as int >= 1,
        ;
        assert((h as int) * (w as int) == (w as int) * (h as int)) by (nonlinear_arith);
    }
    j * w + i
}

/// Adding a multiple of the modulus and shifting back cancels out.
proof fn lemma_mod_shift_cancel(a: int, s: int, m: int)
    requires
        m > 0,
        0 <= a < m,
    ensures
        ((a + s + m) % m - s + m) % m == a,
{
    let x = a + s + m;
    let j = x % m;
    lemma_fundamental_div_mod(x, m);
    lemma_mod_division_less_than_divisor(x, m);
    let q = x / m;
    let t = 2 - q;
    assert(j - s + m == m * t + a) by (nonlinear_arith)
        requires
            x == m * q + j,
            x == a + s + m,
            t == 2 - q,
    ;
    lemma_mod_multiples_vanish(t, a, m);
    lemma_small_mod(a as nat, m as nat);
}

/// On the periodic grid, for every direction the source map and the
/// destination map are mutually inverse bijections of the site indices.
pub proof fn lemma_src_dst_bijection(t: Topology, d: int, w: int, h: int, k: int)
    requires
        1 <= w,
        1 <= h,
        0 <= k < w * h,
        0 <= d < dirs(t),
    ensures
        0 <= src_idx(t, k, d, w, h) < w * h,
        dst_idx(t, src_idx(t, k, d, w, h), d, w, h) == k,
        0 <= dst_idx(t, k, d, w, h) < w * h,
        src_idx(t, dst_idx(t, k, d, w, h), d, w, h) == k,
{
    let nj = k / w;
    let ni = k % w;
    lemma_fundamental_div_mod(k, w);
    lemma_mod_division_less_than_divisor(k, w);
    assert(0 <= nj < h) by (nonlinear_arith)
        requires
            k == w * nj + ni,
            0 <= ni < w,
            0 <= k < w * h,
            w >= 1,
    ;
    let ro = row_off(t, d);
    // Source direction: j, i are where the bit that lands on (nj, ni) starts.
    let j = (nj + ro + h) % h;
    lemma_mod_division_less_than_divisor(nj + ro + h, h);
    let co = col_off(t, j % 2, d);
    let i = (ni - co + w) % w;
    lemma_mod_division_less_than_divisor(ni - co + w, w);
    let m = j * w + i;
    assert(0 <= m < w * h) by (nonlinear_arith)
        requires
            m == j * w + i,
            0 <= j < h,
            0 <= i < w,
            w >= 1,
    ;
    lemma_fundamental_div_mod_converse(m, w, j, i);
    assert(m == src_idx(t, k, d, w, h));
    // Destination of (j, i) in direction d is (nj, ni) again.
    lemma_mod_shift_cancel(nj, ro, h);
    assert((j - ro + h) % h == nj);
    lemma_mod_shift_cancel(ni, -co, w);
    assert((i + co + w) % w == ni);
    lemma_fundamental_div_mod_converse(k, w, nj, ni);
    assert(dst_idx(t, m, d, w, h) == k);
    // And the same both ways around: destination of k, then its source.
    let pj = nj;  // k's own row, now read as a source row
    let co2 = col_off(t, pj % 2, d);
    let nj2 = (pj - ro + h) % h;
    lemma_mod_division_less_than_divisor(pj - ro + h, w);
    lemma_mod_division_less_than_divisor(pj - ro + h, h);
    let ni2 = (ni + co2 + w) % w;
    lemma_mod_division_less_than_divisor(ni + co2 + w, w);
    let m2 = nj2 * w + ni2;
    assert(0 <= m2 < w * h) by (nonlinear_arith)
        requires
            m2 == nj2 * w + ni2,
            0 <= nj2 < h,
            0 <= ni2 < w,
            w >= 1,
    ;
    lemma_fundamental_div_mod_converse(m2, w, nj2, ni2);
    assert(m2 == dst_idx(t, k, d, w, h));
    // src of m2: row is (nj2 + ro + h) % h == pj.
    lemma_mod_shift_cancel(pj, -ro, h);
    assert((((pj - ro + h) % h) + ro + h) % h == pj) by {
        assert((pj + (-ro) + h) % h == (pj - ro + h) % h);
    }
    assert(src_row(t, m2 / w, d, h) == pj);
    lemma_mod_shift_cancel(ni, co2, w);
    assert((ni2 - co2 + w) % w == ni);
    assert(src_idx(t, m2, d, w, h) == pj * w + ni);
}

} // verus!
