//! The four-direction lattice gas in an array-of-flags form: a
//! node is four booleans, the grid is a vector of columns indexed
//! `[i][j]` with `i` over the width, and the edges reflect incoming
//! particles back instead of wrapping around.

use crate::counting::{lemma_true_count_bijection, lemma_true_count_quads, quad_count, true_count};
use vstd::arithmetic::div_mod::lemma_fundamental_div_mod;
use vstd::arithmetic::div_mod::lemma_fundamental_div_mod_converse;
use vstd::arithmetic::div_mod::lemma_mod_division_less_than_divisor;
use vstd::prelude::*;

verus! {

/// One site's occupancy: one flag per direction.
pub type Node = [bool; 4];

/// Head-on pairs swap to the orthogonal pair; every other pattern passes
/// through unchanged.
pub open spec fn hpp_collide_spec(n: Node) -> Node {
    if n@[0] && !n@[1] && n@[2] && !n@[3] {
        [false, true, false, true]
    } else if !n@[0] && n@[1] && !n@[2] && n@[3] {
        [true, false, true, false]
    } else {
        n
    }
}

/// Applies the deterministic head-on collision rule to one node.
pub fn collide(node: &Node) -> (r: Node)
    ensures
        r@ == hpp_collide_spec(*node)@,
{
    if node[0] && !node[1] && node[2] && !node[3] {
        [false, true, false, true]
    } else if !node[0] && node[1] && !node[2] && node[3] {
        [true, false, true, false]
    } else {
        *node
    }
}

/// A `width x height` grid of equal values.
pub fn init_lattice<T: Copy>(w: usize, h: usize, t: T) -> (l: Vec<Vec<T>>)
    ensures
        l@.len() == h,
        forall|i: int| 0 <= i < h ==> l@[i]@.len() == w,
        forall|i: int, j: int| 0 <= i < h && 0 <= j < w ==> l@[i]@[j] == t,
{
    let mut l: Vec<Vec<T>> = Vec::new();
    let mut i: usize = 0;
    while i < h
        invariant
            i <= h,
            l@.len() == i,
            forall|ii: int| 0 <= ii < i ==> l@[ii]@.len() == w,
            forall|ii: int, j: int| 0 <= ii < i && 0 <= j < w ==> l@[ii]@[j] == t,
        decreases h - i,
    {
        let mut row: Vec<T> = Vec::new();
        let mut j: usize = 0;
        while j < w
            invariant
                j <= w,
                row@.len() == j,
                forall|jj: int| 0 <= jj < j ==> row@[jj] == t,
            decreases w - j,
        {
            row.push(t);
            j += 1;
        }
        l.push(row);
        i += 1;
    }
    l
}

/// The grid has `width` columns of `height` nodes each.
pub open spec fn hpp_grid_wf(l: Seq<Vec<Node>>, w: int, h: int) -> bool {
    l.len() == w && forall|i: int| 0 <= i < w ==> l[i]@.len() == h
}

/// The grid after the collision pass, site by site.
pub open spec fn hpp_collided(l: Seq<Vec<Node>>, w: int, h: int) -> Seq<Seq<Node>> {
    Seq::new(w as nat, |i: int| Seq::new(h as nat, |j: int| hpp_collide_spec(l[i]@[j])))
}

/// Direction `d`'s flag at `(i, j)` after the streaming pass over the
/// collided grid `c`: each direction pulls from its unique source neighbor,
/// and at the four edges the antipodal flag of the site itself reflects
/// back instead.
pub open spec fn hpp_streamed_bit(c: Seq<Seq<Node>>, i: int, j: int, d: int, w: int, h: int) -> bool {
    if d == 0 {
        if i == 0 {
            c[0][j]@[2]
        } else {
            c[i - 1][j]@[0]
        }
    } else if d == 1 {
        if j == h - 1 {
            c[i][j]@[3]
        } else {
            c[i][j + 1]@[1]
        }
    } else if d == 2 {
        if i == w - 1 {
            c[i][j]@[0]
        } else {
            c[i + 1][j]@[2]
        }
    } else {
        if j == 0 {
            c[i][j]@[1]
        } else {
            c[i][j - 1]@[3]
        }
    }
}

/// One full update of the reflecting-edge four-direction lattice: every site
/// collides, then every direction's flag moves one site along its offset,
/// with the edges reflecting the antipodal flag back.
pub fn update_lattice(lattice: &mut Vec<Vec<Node>>, height: usize, width: usize)
    requires
        hpp_grid_wf(old(lattice)@, width as int, height as int),
    ensures
        hpp_grid_wf(final(lattice)@, width as int, height as int),
        forall|i: int, j: int, d: int|
            0 <= i < width && 0 <= j < height && 0 <= d < 4 ==> final(lattice)@[i]@[j]@[d]
                == hpp_streamed_bit(
                hpp_collided(old(lattice)@, width as int, height as int),
                i,
                j,
                d,
                width as int,
                height as int,
            ),
        hpp_total(final(lattice)@, width as int, height as int) == hpp_total(
            old(lattice)@,
            width as int,
            height as int,
        ),
{
    let ghost c = hpp_collided(lattice@, width as int, height as int);
    let mut collided: Vec<Vec<Node>> = Vec::new();
    let mut i: usize = 0;
    while i < width
        invariant
            i <= width,
            hpp_grid_wf(lattice@, width as int, height as int),
            c == hpp_collided(lattice@, width as int, height as int),
            collided@.len() == i,
            forall|ii: int| 0 <= ii < i ==> collided@[ii]@.len() == height,
            forall|ii: int, j: int|
                0 <= ii < i && 0 <= j < height ==> collided@[ii]@[j]@ == c[ii][j]@,
        decreases width - i,
    {
        let mut row: Vec<Node> = Vec::new();
        let mut j: usize = 0;
        while j < height
            invariant
                j <= height,
                i < width,
                hpp_grid_wf(lattice@, width as int, height as int),
                c == hpp_collided(lattice@, width as int, height as int),
                row@.len() == j,
                forall|jj: int| 0 <= jj < j ==> row@[jj]@ == c[i as int][jj]@,
            decreases height - j,
        {
            row.push(collide(&lattice[i][j]));
            j += 1;
        }
        collided.push(row);
        i += 1;
    }
    let mut new_l: Vec<Vec<Node>> = Vec::new();
    let mut i: usize = 0;
    while i < width
        invariant
            i <= width,
            collided@.len() == width,
            forall|ii: int| 0 <= ii < width ==> collided@[ii]@.len() == height,
            forall|ii: int, j: int|
                0 <= ii < width && 0 <= j < height ==> collided@[ii]@[j]@ == c[ii][j]@,
            new_l@.len() == i,
            forall|ii: int| 0 <= ii < i ==> new_l@[ii]@.len() == height,
            forall|ii: int, j: int, d: int|
                0 <= ii < i && 0 <= j < height && 0 <= d < 4 ==> new_l@[ii]@[j]@[d]
                    == hpp_streamed_bit(c, ii, j, d, width as int, height as int),
        decreases width - i,
    {
        let mut row: Vec<Node> = Vec::new();
        let mut j: usize = 0;
        while j < height
            invariant
                j <= height,
                i < width,
                collided@.len() == width,
                forall|ii: int| 0 <= ii < width ==> collided@[ii]@.len() == height,
                forall|ii: int, jj: int|
                    0 <= ii < width && 0 <= jj < height ==> collided@[ii]@[jj]@ == c[ii][jj]@,
                row@.len() == j,
                forall|jj: int, d: int|
                    0 <= jj < j && 0 <= d < 4 ==> row@[jj]@[d] == hpp_streamed_bit(
                        c,
                        i as int,
                        jj,
                        d,
                        width as int,
                        height as int,
                    ),
            decreases height - j,
        {
            let b0 = if i == 0 {
                collided[0][j][2]
            } else {
                collided[i - 1][j][0]
            };
            let b1 = if j == height - 1 {
                collided[i][j][3]
            } else {
                collided[i][j + 1][1]
            };
            let b2 = if i == width - 1 {
                collided[i][j][0]
            } else {
                collided[i + 1][j][2]
            };
            let b3 = if j == 0 {
                collided[i][j][1]
            } else {
                collided[i][j - 1][3]
            };
            row.push([b0, b1, b2, b3]);
            j += 1;
        }
        new_l.push(row);
        i += 1;
    }
    *lattice = new_l;
    proof {
        if width >= 1 && height >= 1 {
            lemma_update_lattice_conserves(
                old(lattice)@,
                lattice@,
                width as int,
                height as int,
            );
        } else {
            assert((4 * (width as int) * (height as int)) as nat == 0) by (nonlinear_arith)
                requires
                    width as int == 0 || height as int == 0,
            ;
        }
    }
}

/// Number of set flags at one node.
pub open spec fn hpp_node_count(n: Node) -> int {
    (if n@[0] {
        1int
    } else {
        0int
    }) + (if n@[1] {
        1int
    } else {
        0int
    }) + (if n@[2] {
        1int
    } else {
        0int
    }) + (if n@[3] {
        1int
    } else {
        0int
    })
}

/// The collision table conserves the flag count at the site.
pub proof fn lemma_hpp_collide_count(n: Node)
    ensures
        hpp_node_count(hpp_collide_spec(n)) == hpp_node_count(n),
{
}

/// Flat slot index of direction `d` at site `(i, j)`: four slots per site.
pub open spec fn slot_of(i: int, j: int, d: int, h: int) -> int {
    (i * h + j) * 4 + d
}

/// The flag at flat slot `m` of a stored grid.
pub open spec fn grid_slot(l: Seq<Vec<Node>>, m: int, h: int) -> bool {
    let q = m / 4;
    l[q / h]@[q % h]@[m % 4]
}

/// The flag at flat slot `m` of a collided grid.
pub open spec fn coll_slot(c: Seq<Seq<Node>>, m: int, h: int) -> bool {
    let q = m / 4;
    c[q / h][q % h]@[m % 4]
}

/// Total number of set flags on a stored grid.
pub open spec fn hpp_total(l: Seq<Vec<Node>>, w: int, h: int) -> nat {
    true_count(|m: int| grid_slot(l, m, h), (4 * w * h) as nat)
}

/// Source slot feeding slot `m` in the streaming pass: the interior pulls
/// one site along the direction's offset, an outward-facing edge takes the
/// site's own antipodal flag.
pub open spec fn hpp_src_slot(m: int, w: int, h: int) -> int {
    let q = m / 4;
    let d = m % 4;
    let i = q / h;
    let j = q % h;
    if d == 0 {
        if i == 0 {
            slot_of(0, j, 2, h)
        } else {
            slot_of(i - 1, j, 0, h)
        }
    } else if d == 1 {
        if j == h - 1 {
            slot_of(i, j, 3, h)
        } else {
            slot_of(i, j + 1, 1, h)
        }
    } else if d == 2 {
        if i == w - 1 {
            slot_of(i, j, 0, h)
        } else {
            slot_of(i + 1, j, 2, h)
        }
    } else {
        if j == 0 {
            slot_of(i, j, 1, h)
        } else {
            slot_of(i, j - 1, 3, h)
        }
    }
}

/// Destination slot that slot `m` feeds: the inverse of `hpp_src_slot`.
pub open spec fn hpp_dst_slot(m: int, w: int, h: int) -> int {
    let q = m / 4;
    let d = m % 4;
    let i = q / h;
    let j = q % h;
    if d == 0 {
        if i == w - 1 {
            slot_of(w - 1, j, 2, h)
        } else {
            slot_of(i + 1, j, 0, h)
        }
    } else if d == 1 {
        if j == 0 {
            slot_of(i, 0, 3, h)
        } else {
            slot_of(i, j - 1, 1, h)
        }
    } else if d == 2 {
        if i == 0 {
            slot_of(0, j, 0, h)
        } else {
            slot_of(i - 1, j, 2, h)
        }
    } else {
        if j == h - 1 {
            slot_of(i, h - 1, 1, h)
        } else {
            slot_of(i, j + 1, 3, h)
        }
    }
}

/// How an encoded slot decodes.
proof fn lemma_slot_decode(i: int, j: int, d: int, w: int, h: int)
    requires
        1 <= w,
        1 <= h,
        0 <= i < w,
        0 <= j < h,
        0 <= d < 4,
    ensures
        0 <= slot_of(i, j, d, h) < 4 * w * h,
        slot_of(i, j, d, h) / 4 == i * h + j,
        slot_of(i, j, d, h) % 4 == d,
        slot_of(i, j, d, h) / 4 / h == i,
        slot_of(i, j, d, h) / 4 % h == j,
{
    let q = i * h + j;
    assert(0 <= q && q < w * h && 0 <= q * 4 + d && q * 4 + d < 4 * w * h) by (nonlinear_arith)
        requires
            q == i * h + j,
            0 <= i < w,
            0 <= j < h,
            0 <= d < 4,
            1 <= h,
            1 <= w,
    ;
    lemma_fundamental_div_mod_converse(q * 4 + d, 4, q, d);
    lemma_fundamental_div_mod_converse(q, h, i, j);
}

/// How a slot index splits into site and direction.
proof fn lemma_slot_parts(m: int, w: int, h: int)
    requires
        1 <= w,
        1 <= h,
        0 <= m < 4 * w * h,
    ensures
        0 <= m % 4 < 4,
        0 <= (m / 4) / h < w,
        0 <= (m / 4) % h < h,
        slot_of((m / 4) / h, (m / 4) % h, m % 4, h) == m,
{
    lemma_fundamental_div_mod(m, 4);
    lemma_mod_division_less_than_divisor(m, 4);
    let q = m / 4;
    assert(0 <= q && q < w * h) by (nonlinear_arith)
        requires
            m == 4 * q + m % 4,
            0 <= m % 4 < 4,
            0 <= m,
            m < 4 * w * h,
    ;
    lemma_fundamental_div_mod(q, h);
    lemma_mod_division_less_than_divisor(q, h);
    let i = q / h;
    let j = q % h;
    assert(0 <= i && i < w) by (nonlinear_arith)
        requires
            q == h * i + j,
            0 <= j < h,
            0 <= q,
            q < w * h,
            1 <= h,
    ;
    assert((i * h + j) * 4 + m % 4 == m) by (nonlinear_arith)
        requires
            q == h * i + j,
            m == 4 * q + m % 4,
    ;
}

/// The streaming pass's source and destination slot maps are mutually
/// inverse bijections of the flag slots: with edge reflection included,
/// every flag has exactly one place to go and one place it came from.
pub proof fn lemma_hpp_slot_bijection(m: int, w: int, h: int)
    requires
        1 <= w,
        1 <= h,
        0 <= m < 4 * w * h,
    ensures
        0 <= hpp_src_slot(m, w, h) < 4 * w * h,
        hpp_dst_slot(hpp_src_slot(m, w, h), w, h) == m,
        0 <= hpp_dst_slot(m, w, h) < 4 * w * h,
        hpp_src_slot(hpp_dst_slot(m, w, h), w, h) == m,
{
    lemma_slot_parts(m, w, h);
    let q = m / 4;
    let d = m % 4;
    let i = q / h;
    let j = q % h;
    if d == 0 {
        if i == 0 {
            lemma_slot_decode(0, j, 2, w, h);
        } else {
            lemma_slot_decode(i - 1, j, 0, w, h);
        }
        if i == w - 1 {
            lemma_slot_decode(w - 1, j, 2, w, h);
        } else {
            lemma_slot_decode(i + 1, j, 0, w, h);
        }
    } else if d == 1 {
        if j == h - 1 {
            lemma_slot_decode(i, j, 3, w, h);
        } else {
            lemma_slot_decode(i, j + 1, 1, w, h);
        }
        if j == 0 {
            lemma_slot_decode(i, 0, 3, w, h);
        } else {
            lemma_slot_decode(i, j - 1, 1, w, h);
        }
    } else if d == 2 {
        if i == w - 1 {
            lemma_slot_decode(i, j, 0, w, h);
        } else {
            lemma_slot_decode(i + 1, j, 2, w, h);
        }
        if i == 0 {
            lemma_slot_decode(0, j, 0, w, h);
        } else {
            lemma_slot_decode(i - 1, j, 2, w, h);
        }
    } else {
        if j == 0 {
            lemma_slot_decode(i, j, 1, w, h);
        } else {
            lemma_slot_decode(i, j - 1, 3, w, h);
        }
        if j == h - 1 {
            lemma_slot_decode(i, h - 1, 1, w, h);
        } else {
            lemma_slot_decode(i, j + 1, 3, w, h);
        }
    }
}

/// One full update of the reflecting-edge lattice conserves the total flag
/// count: the collision table conserves it at every site, and the streaming
/// pass — edge reflection included — is a bijection of the flag slots, so no
/// flag is created, destroyed or duplicated.
pub proof fn lemma_update_lattice_conserves(
    before: Seq<Vec<Node>>,
    after: Seq<Vec<Node>>,
    w: int,
    h: int,
)
    requires
        1 <= w,
        1 <= h,
        hpp_grid_wf(before, w, h),
        hpp_grid_wf(after, w, h),
        forall|i: int, j: int, d: int|
            0 <= i < w && 0 <= j < h && 0 <= d < 4 ==> after[i]@[j]@[d] == hpp_streamed_bit(
                hpp_collided(before, w, h),
                i,
                j,
                d,
                w,
                h,
            ),
    ensures
        hpp_total(after, w, h) == hpp_total(before, w, h),
{
    let c = hpp_collided(before, w, h);
    let n = (4 * w * h) as nat;
    let fa = |m: int| grid_slot(after, m, h);
    let fc = |m: int| coll_slot(c, m, h);
    let fb = |m: int| grid_slot(before, m, h);
    let sigma = |m: int| hpp_src_slot(m, w, h);
    let tau = |m: int| hpp_dst_slot(m, w, h);
    assert forall|m: int| 0 <= m < n implies fa(m) == fc(#[trigger] sigma(m)) by {
        lemma_slot_parts(m, w, h);
        let q = m / 4;
        let d = m % 4;
        let i = q / h;
        let j = q % h;
        if d == 0 {
            if i == 0 {
                lemma_slot_decode(0, j, 2, w, h);
            } else {
                lemma_slot_decode(i - 1, j, 0, w, h);
            }
        } else if d == 1 {
            if j == h - 1 {
                lemma_slot_decode(i, j, 3, w, h);
            } else {
                lemma_slot_decode(i, j + 1, 1, w, h);
            }
        } else if d == 2 {
            if i == w - 1 {
                lemma_slot_decode(i, j, 0, w, h);
            } else {
                lemma_slot_decode(i + 1, j, 2, w, h);
            }
        } else {
            if j == 0 {
                lemma_slot_decode(i, j, 1, w, h);
            } else {
                lemma_slot_decode(i, j - 1, 3, w, h);
            }
        }
        assert(after[i]@[j]@[d] == hpp_streamed_bit(c, i, j, d, w, h));
    }
    assert forall|m: int| 0 <= m < n implies 0 <= #[trigger] sigma(m) < n && tau(sigma(m))
        == m by {
        lemma_hpp_slot_bijection(m, w, h);
    }
    assert forall|m: int| 0 <= m < n implies 0 <= #[trigger] tau(m) < n && sigma(tau(m)) == m by {
        lemma_hpp_slot_bijection(m, w, h);
    }
    lemma_true_count_bijection(fc, fa, sigma, tau, n);
    assert forall|q: int| 0 <= q < w * h implies quad_count(fc, q) == quad_count(fb, q) by {
        lemma_fundamental_div_mod(q, h);
        lemma_mod_division_less_than_divisor(q, h);
        let i = q / h;
        let j = q % h;
        assert(0 <= i && i < w) by (nonlinear_arith)
            requires
                q == h * i + j,
                0 <= j < h,
                0 <= q,
                q < w * h,
                1 <= h,
        ;
        lemma_slot_decode(i, j, 0, w, h);
        lemma_slot_decode(i, j, 1, w, h);
        lemma_slot_decode(i, j, 2, w, h);
        lemma_slot_decode(i, j, 3, w, h);
        assert((i * h + j) * 4 == 4 * q) by (nonlinear_arith)
            requires
                q == h * i + j,
        ;
        assert(c[i][j] == hpp_collide_spec(before[i]@[j]));
        lemma_hpp_collide_count(before[i]@[j]);
    }
    assert(4 * ((w * h) as nat) == n) by (nonlinear_arith)
        requires
            w >= 1,
            h >= 1,
            n == (4 * w * h) as nat,
    ;
    lemma_true_count_quads(fc, fb, (w * h) as nat);
    assert(hpp_total(after, w, h) == true_count(fa, n));
    assert(hpp_total(before, w, h) == true_count(fb, n));
}

} // verus!
