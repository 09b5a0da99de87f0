//! Particle counting over whole grids, and the conservation laws of the
//! streaming stage: on a periodic grid, streaming only moves bits, so every
//! per-direction count — and with it the total particle count — is kept.

use crate::bits::{node_count, occ_bit};
use crate::geometry::{dirs, dst_idx, lemma_src_dst_bijection, src_idx, Topology};
use vstd::prelude::*;
use vstd::relations::injective_on;
use vstd::set_lib::{lemma_int_range, lemma_map_size, set_int_range};

verus! {

/// Number of sites whose direction-`d` bit is set.
pub open spec fn dir_count(g: Seq<u8>, d: u8) -> nat
    decreases g.len(),
{
    if g.len() == 0 {
        0
    } else {
        dir_count(g.drop_last(), d) + if occ_bit(g.last(), d) {
            1nat
        } else {
            0nat
        }
    }
}

/// Total particle count of the grid: set bits among directions `0 .. nd`,
/// summed over every site.
pub open spec fn grid_count(g: Seq<u8>, nd: nat) -> nat
    decreases g.len(),
{
    if g.len() == 0 {
        0
    } else {
        grid_count(g.drop_last(), nd) + node_count(g.last(), nd)
    }
}

proof fn lemma_grid_count_zero(g: Seq<u8>)
    ensures
        grid_count(g, 0) == 0,
    decreases g.len(),
{
    if g.len() > 0 {
        lemma_grid_count_zero(g.drop_last());
    }
}

/// Splitting the topmost direction off the total count.
proof fn lemma_grid_count_unfold(g: Seq<u8>, nd: nat)
    requires
        1 <= nd <= 8,
    ensures
        grid_count(g, nd) == grid_count(g, (nd - 1) as nat) + dir_count(g, (nd - 1) as u8),
    decreases g.len(),
{
    if g.len() > 0 {
        lemma_grid_count_unfold(g.drop_last(), nd);
    }
}

/// Grids with equal per-direction counts hold equally many particles.
proof fn lemma_grid_count_from_dirs(g1: Seq<u8>, g2: Seq<u8>, nd: nat)
    requires
        nd <= 8,
        forall|d: u8| d < nd ==> dir_count(g1, d) == dir_count(g2, d),
    ensures
        grid_count(g1, nd) == grid_count(g2, nd),
    decreases nd,
{
    if nd == 0 {
        lemma_grid_count_zero(g1);
        lemma_grid_count_zero(g2);
    } else {
        lemma_grid_count_from_dirs(g1, g2, (nd - 1) as nat);
        lemma_grid_count_unfold(g1, nd);
        lemma_grid_count_unfold(g2, nd);
        assert(dir_count(g1, (nd - 1) as u8) == dir_count(g2, (nd - 1) as u8));
    }
}

/// Sites with equal per-site counts give equal totals.
pub proof fn lemma_grid_count_pointwise(g1: Seq<u8>, g2: Seq<u8>, nd: nat)
    requires
        g1.len() == g2.len(),
        forall|k: int| 0 <= k < g1.len() ==> node_count(g1[k], nd) == node_count(g2[k], nd),
    ensures
        grid_count(g1, nd) == grid_count(g2, nd),
    decreases g1.len(),
{
    if g1.len() > 0 {
        let n = g1.len() - 1;
        assert(forall|k: int|
            0 <= k < n ==> g1.drop_last()[k] == g1[k] && g2.drop_last()[k] == g2[k]);
        lemma_grid_count_pointwise(g1.drop_last(), g2.drop_last(), nd);
        assert(node_count(g1[n as int], nd) == node_count(g2[n as int], nd));
    }
}

/// The set of site indices whose direction-`d` bit is set.
pub open spec fn occupied_set(g: Seq<u8>, d: u8) -> Set<int> {
    set_int_range(0, g.len() as int).filter(|k: int| occ_bit(g[k], d))
}

/// `dir_count` is the cardinality of the occupied set.
proof fn lemma_dir_count_is_card(g: Seq<u8>, d: u8)
    ensures
        occupied_set(g, d).finite(),
        occupied_set(g, d).len() == dir_count(g, d),
    decreases g.len(),
{
    lemma_int_range(0, g.len() as int);
    set_int_range(0, g.len() as int).lemma_len_filter(|k: int| occ_bit(g[k], d));
    if g.len() == 0 {
        assert(occupied_set(g, d) =~= Set::empty());
    } else {
        let n = g.len() - 1;
        let prev = g.drop_last();
        lemma_dir_count_is_card(prev, d);
        assert(forall|k: int| 0 <= k < n ==> prev[k] == g[k]);
        if occ_bit(g.last(), d) {
            assert(occupied_set(g, d) =~= occupied_set(prev, d).insert(n as int));
            assert(!occupied_set(prev, d).contains(n as int));
        } else {
            assert(occupied_set(g, d) =~= occupied_set(prev, d));
        }
    }
}

/// The streaming stage redistributes the per-direction bits bijectively: for
/// every direction, the bits after streaming are exactly the bits before,
/// each moved by that direction's offset, so no bit is created, destroyed or
/// duplicated and every per-direction count is kept.
pub proof fn lemma_streaming_bijection(t: Topology, mid: Seq<u8>, out: Seq<u8>, w: int, h: int)
    requires
        w >= 1,
        h >= 1,
        mid.len() == w * h,
        out.len() == w * h,
        forall|k: int, d: u8|
            0 <= k < w * h && d < dirs(t) ==> occ_bit(out[k], d) == occ_bit(
                mid[src_idx(t, k, d as int, w, h)],
                d,
            ),
    ensures
        forall|d: u8| d < dirs(t) ==> dir_count(out, d) == dir_count(mid, d),
{
    let n = w * h;
    assert forall|d: u8| d < dirs(t) implies dir_count(out, d) == dir_count(mid, d) by {
        let sigma = |k: int| src_idx(t, k, d as int, w, h);
        let so = occupied_set(out, d);
        let sm = occupied_set(mid, d);
        lemma_dir_count_is_card(out, d);
        lemma_dir_count_is_card(mid, d);
        assert forall|k: int| 0 <= k < n implies 0 <= #[trigger] sigma(k) < n && dst_idx(
            t,
            sigma(k),
            d as int,
            w,
            h,
        ) == k by {
            lemma_src_dst_bijection(t, d as int, w, h, k);
        }
        assert forall|m: int| 0 <= m < n implies 0 <= dst_idx(t, m, d as int, w, h) < n && sigma(
            dst_idx(t, m, d as int, w, h),
        ) == m by {
            lemma_src_dst_bijection(t, d as int, w, h, m);
        }
        assert(so.map(sigma) =~= sm) by {
            assert forall|m: int| sm.contains(m) implies so.map(sigma).contains(m) by {
                let k = dst_idx(t, m, d as int, w, h);
                assert(sigma(k) == m);
                assert(occ_bit(out[k], d) == occ_bit(mid[m], d));
                assert(so.contains(k));
                assert(so.map(sigma).contains(sigma(k)));
            }
            assert forall|m: int| so.map(sigma).contains(m) implies sm.contains(m) by {
                let k = choose|k: int| so.contains(k) && m == sigma(k);
                assert(so.contains(k) && m == sigma(k));
                assert(occ_bit(out[k], d) == occ_bit(mid[m], d));
            }
        }
        assert(injective_on(sigma, so)) by {
            assert forall|x1: int, x2: int|
                so.contains(x1) && so.contains(x2) && #[trigger] sigma(x1) == #[trigger] sigma(
                    x2,
                ) implies x1 == x2 by {
                assert(dst_idx(t, sigma(x1), d as int, w, h) == x1);
                assert(dst_idx(t, sigma(x2), d as int, w, h) == x2);
            }
        }
        lemma_map_size(so, sm, sigma);
    }
}

/// On the periodic grid the streaming stage conserves the total particle
/// count exactly.
pub proof fn lemma_streaming_conserves(t: Topology, mid: Seq<u8>, out: Seq<u8>, w: int, h: int)
    requires
        w >= 1,
        h >= 1,
        mid.len() == w * h,
        out.len() == w * h,
        forall|k: int, d: u8|
            0 <= k < w * h && d < dirs(t) ==> occ_bit(out[k], d) == occ_bit(
                mid[src_idx(t, k, d as int, w, h)],
                d,
            ),
    ensures
        grid_count(out, dirs(t) as nat) == grid_count(mid, dirs(t) as nat),
{
    lemma_streaming_bijection(t, mid, out, w, h);
    lemma_grid_count_from_dirs(out, mid, dirs(t) as nat);
}


/// Number of positions below `n` where `f` holds.
pub open spec fn true_count(f: spec_fn(int) -> bool, n: nat) -> nat
    decreases n,
{
    if n == 0 {
        0
    } else {
        true_count(f, (n - 1) as nat) + if f(n - 1) {
            1nat
        } else {
            0nat
        }
    }
}

proof fn lemma_true_count_is_card(f: spec_fn(int) -> bool, n: nat)
    ensures
        set_int_range(0, n as int).filter(f).finite(),
        set_int_range(0, n as int).filter(f).len() == true_count(f, n),
    decreases n,
{
    lemma_int_range(0, n as int);
    set_int_range(0, n as int).lemma_len_filter(f);
    if n > 0 {
        lemma_true_count_is_card(f, (n - 1) as nat);
        let m = n - 1;
        if f(m as int) {
            assert(set_int_range(0, n as int).filter(f) =~= set_int_range(0, m as int).filter(
                f,
            ).insert(m as int));
            assert(!set_int_range(0, m as int).filter(f).contains(m as int));
        } else {
            assert(set_int_range(0, n as int).filter(f) =~= set_int_range(0, m as int).filter(f));
        }
    } else {
        assert(set_int_range(0, 0).filter(f) =~= Set::empty());
    }
}

/// Two position-indexed families of truths related by a bijection of the
/// positions hold at equally many positions: no truth is created, destroyed
/// or duplicated by the relabeling.
pub proof fn lemma_true_count_bijection(
    f1: spec_fn(int) -> bool,
    f2: spec_fn(int) -> bool,
    sigma: spec_fn(int) -> int,
    tau: spec_fn(int) -> int,
    n: nat,
)
    requires
        forall|k: int| 0 <= k < n ==> f2(k) == f1(#[trigger] sigma(k)),
        forall|k: int| 0 <= k < n ==> 0 <= #[trigger] sigma(k) < n && tau(sigma(k)) == k,
        forall|k: int| 0 <= k < n ==> 0 <= #[trigger] tau(k) < n && sigma(tau(k)) == k,
    ensures
        true_count(f2, n) == true_count(f1, n),
{
    let s2 = set_int_range(0, n as int).filter(f2);
    let s1 = set_int_range(0, n as int).filter(f1);
    lemma_true_count_is_card(f1, n);
    lemma_true_count_is_card(f2, n);
    assert(s2.map(sigma) =~= s1) by {
        assert forall|m: int| s1.contains(m) implies s2.map(sigma).contains(m) by {
            let k = tau(m);
            assert(sigma(k) == m);
            assert(f2(k) == f1(m));
            assert(s2.contains(k));
            assert(s2.map(sigma).contains(sigma(k)));
        }
        assert forall|m: int| s2.map(sigma).contains(m) implies s1.contains(m) by {
            let k = choose|k: int| s2.contains(k) && m == sigma(k);
            assert(s2.contains(k) && m == sigma(k));
            assert(f2(k) == f1(m));
        }
    }
    assert(injective_on(sigma, s2)) by {
        assert forall|x1: int, x2: int|
            s2.contains(x1) && s2.contains(x2) && #[trigger] sigma(x1) == #[trigger] sigma(
                x2,
            ) implies x1 == x2 by {
            assert(tau(sigma(x1)) == x1);
            assert(tau(sigma(x2)) == x2);
        }
    }
    lemma_map_size(s2, s1, sigma);
}


/// Number of truths in the four-slot group `4q .. 4q+4`.
pub open spec fn quad_count(f: spec_fn(int) -> bool, q: int) -> int {
    (if f(4 * q) {
        1int
    } else {
        0int
    }) + (if f(4 * q + 1) {
        1int
    } else {
        0int
    }) + (if f(4 * q + 2) {
        1int
    } else {
        0int
    }) + (if f(4 * q + 3) {
        1int
    } else {
        0int
    })
}

/// Families equal in every four-slot group hold at equally many positions.
pub proof fn lemma_true_count_quads(f1: spec_fn(int) -> bool, f2: spec_fn(int) -> bool, ns: nat)
    requires
        forall|q: int| 0 <= q < ns ==> quad_count(f1, q) == quad_count(f2, q),
    ensures
        true_count(f1, 4 * ns) == true_count(f2, 4 * ns),
    decreases ns,
{
    if ns > 0 {
        lemma_true_count_quads(f1, f2, (ns - 1) as nat);
        reveal_with_fuel(true_count, 5);
        assert(4 * ns - 4 == 4 * ((ns - 1) as nat));
        assert(quad_count(f1, ns - 1) == quad_count(f2, ns - 1));
        assert(true_count(f1, 4 * ns) == true_count(f1, (4 * ns - 4) as nat) + quad_count(
            f1,
            ns - 1,
        ));
        assert(true_count(f2, 4 * ns) == true_count(f2, (4 * ns - 4) as nat) + quad_count(
            f2,
            ns - 1,
        ));
    }
}

} // verus!
