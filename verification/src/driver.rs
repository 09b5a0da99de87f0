//! The simulation driver: owns the occupancy grid and the type grid, runs
//! one discrete step (collision, then streaming into a fresh buffer), and
//! answers read queries. Node types select the per-site physics: fluid sites
//! collide, walls reflect, inflow sites reflect and then inject, sinks
//! absorb.

use crate::bits::{get_cell, node_count, node_wf, occ_bit, set_cell};
use crate::collision::{
    collide_node, collide_spec, lemma_collide_count, lemma_collide_wf, lemma_reflect_bits,
    random_choices, reflect_node, reflect_spec, Choices,
};
use crate::counting::{grid_count, lemma_grid_count_pointwise, lemma_streaming_conserves};
use crate::geometry::{dirs, direction_count, source_index, src_idx, Topology};
use crate::rng::{rand_below, seeded_rng};
use vstd::prelude::*;

verus! {

/// Scale of the inflow rates: a rate of `RATE_SCALE` means a sure injection,
/// a rate of `r` means probability `r / RATE_SCALE` per direction per step.
pub const RATE_SCALE: u32 = 1000;

/// The per-site behavior tag, constant after scenario setup. The inflow
/// rates are per-direction, in units of `1 / RATE_SCALE`; on the square
/// lattice only the first four entries are used.
#[derive(Clone, Copy, Debug)]
pub enum NodeType {
    /// Ordinary site: occupancy evolves by collision and streaming.
    Fluid,
    /// Solid wall: incoming particles are reflected to their antipodes.
    Boundary,
    /// Source wall: reflects, then force-sets each direction with its rate.
    Inflow([u32; 6]),
    /// Absorbing wall: cleared at every collision stage, and whatever
    /// streams at it is absorbed on arrival, so it is empty after every step.
    Sink,
}

pub open spec fn is_fluid(ty: NodeType) -> bool {
    match ty {
        NodeType::Fluid => true,
        _ => false,
    }
}

pub open spec fn is_sink(ty: NodeType) -> bool {
    match ty {
        NodeType::Sink => true,
        _ => false,
    }
}

/// Every site of the type grid is ordinary fluid.
pub open spec fn all_fluid(types: Seq<NodeType>) -> bool {
    forall|k: int| 0 <= k < types.len() ==> is_fluid(types[k])
}

/// What an inflow site holds after the collision stage: at least the
/// reflected pattern, surely each direction with a full rate, exactly the
/// reflected bit where the rate is zero, and nothing outside the lattice's
/// directions. Which other directions were injected is the step's random
/// draw, so nothing more is promised about them.
pub open spec fn inflow_ok(t: Topology, rb: u8, rates: [u32; 6], m: u8) -> bool {
    &&& forall|d: u8| d < dirs(t) && occ_bit(rb, d) ==> occ_bit(m, d)
    &&& forall|d: u8| d < dirs(t) && rates@[d as int] >= RATE_SCALE ==> occ_bit(m, d)
    &&& forall|d: u8| d < dirs(t) && rates@[d as int] == 0 ==> occ_bit(m, d) == occ_bit(rb, d)
    &&& node_wf(m, dirs(t))
}

/// What the collision stage leaves at one site, by node type: exact for
/// fluid sites (the rule table), walls (reflection) and sinks (empty), and
/// `inflow_ok` for inflow sites.
pub open spec fn collided_ok(t: Topology, b: u8, ty: NodeType, c: Choices, m: u8) -> bool {
    match ty {
        NodeType::Fluid => m == collide_spec(t, b, c),
        NodeType::Boundary => m == reflect_spec(t, b),
        NodeType::Inflow(rates) => inflow_ok(t, reflect_spec(t, b), rates, m),
        NodeType::Sink => m == 0,
    }
}

/// The collision stage leaves a Sink site with no particles at all.
pub proof fn lemma_sink_absorbs(t: Topology, b: u8, c: Choices, m: u8)
    requires
        collided_ok(t, b, NodeType::Sink, c, m),
    ensures
        m == 0,
        node_count(m, dirs(t) as nat) == 0,
{
    lemma_node_count_zero(dirs(t) as nat);
}

/// Any site marked Sink has empty occupancy immediately after every step,
/// regardless of what flowed in: the collision stage clears it, and the
/// streaming stage absorbs whatever arrives at it.
pub proof fn lemma_sink_empty_after_step(
    t: Topology,
    before: Seq<u8>,
    types: Seq<NodeType>,
    c: Choices,
    m: Seq<u8>,
    after: Seq<u8>,
    w: int,
    h: int,
    k: int,
)
    requires
        step_rel(t, before, types, c, m, after, w, h),
        0 <= k < after.len(),
        is_sink(types[k]),
    ensures
        after[k] == 0,
{
}

proof fn lemma_node_count_zero(d: nat)
    ensures
        node_count(0u8, d) == 0,
    decreases d,
{
    if d > 0 {
        lemma_node_count_zero((d - 1) as nat);
        crate::bits::lemma_zero_bits();
    }
}

/// One full step relates the grids like this: some collided grid `m`
/// satisfies the per-site collision contract, and the new grid holds, at
/// every site other than a sink, exactly the bit that streams in from `m`
/// along each direction's offset. A sink absorbs whatever streams at it, so
/// it is empty the moment the step ends.
pub open spec fn step_rel(
    t: Topology,
    before: Seq<u8>,
    types: Seq<NodeType>,
    c: Choices,
    m: Seq<u8>,
    after: Seq<u8>,
    w: int,
    h: int,
) -> bool {
    &&& m.len() == before.len()
    &&& forall|k: int| 0 <= k < before.len() ==> collided_ok(t, before[k], types[k], c, m[k])
    &&& after.len() == before.len()
    &&& forall|k: int| 0 <= k < after.len() && is_sink(types[k]) ==> after[k] == 0
    &&& forall|k: int, d: u8|
        0 <= k < after.len() && !is_sink(types[k]) && d < dirs(t) ==> occ_bit(after[k], d)
            == occ_bit(m[src_idx(t, k, d as int, w, h)], d)
    &&& forall|k: int| 0 <= k < after.len() ==> node_wf(after[k], dirs(t))
}

/// Reflects, then injects: each direction is force-set with its rate's
/// probability, drawn independently per direction per step.
fn inflow_node(t: Topology, b: u8, rates: &[u32; 6], rng: &mut rand::rngs::StdRng) -> (m: u8)
    requires
        node_wf(b, dirs(t)),
    ensures
        inflow_ok(t, reflect_spec(t, b), *rates, m),
{
    let mut m = reflect_node(t, b);
    proof {
        lemma_reflect_bits(t, b);
    }
    let ghost rb = m;
    let nd = direction_count(t);
    let mut d: u8 = 0;
    while d < nd
        invariant
            d <= nd,
            nd == dirs(t),
            rb == reflect_spec(t, b),
            node_wf(rb, dirs(t)),
            forall|dd: u8| dd < d && occ_bit(rb, dd) ==> occ_bit(m, dd),
            forall|dd: u8| dd < d && rates@[dd as int] >= RATE_SCALE ==> occ_bit(m, dd),
            forall|dd: u8| dd < d && rates@[dd as int] == 0 ==> occ_bit(m, dd) == occ_bit(rb, dd),
            forall|dd: u8| d <= dd < 8 ==> occ_bit(m, dd) == occ_bit(rb, dd),
        decreases nd - d,
    {
        let r = rand_below(rng, RATE_SCALE);
        if r < rates[d as usize] {
            set_cell(d as usize, &mut m, true);
        }
        d += 1;
    }
    m
}

/// The collision stage: a pure per-site map over the whole grid, reading
/// only each site's own pattern and type (and, at inflow sites, the step's
/// random draws).
fn collide_stage(
    t: Topology,
    grid: &Vec<u8>,
    types: &Vec<NodeType>,
    c: &Choices,
    rng: &mut rand::rngs::StdRng,
) -> (mid: Vec<u8>)
    requires
        grid@.len() == types@.len(),
        c.wf(),
        forall|k: int| 0 <= k < grid@.len() ==> node_wf(grid@[k], dirs(t)),
    ensures
        mid@.len() == grid@.len(),
        forall|k: int| 0 <= k < grid@.len() ==> collided_ok(t, grid@[k], types@[k], *c, mid@[k]),
        forall|k: int| 0 <= k < grid@.len() ==> node_wf(mid@[k], dirs(t)),
{
    let n = grid.len();
    let mut mid: Vec<u8> = Vec::new();
    let mut k: usize = 0;
    while k < n
        invariant
            k <= n,
            n == grid@.len(),
            grid@.len() == types@.len(),
            c.wf(),
            forall|j: int| 0 <= j < n ==> node_wf(grid@[j], dirs(t)),
            mid@.len() == k,
            forall|j: int| 0 <= j < k ==> collided_ok(t, grid@[j], types@[j], *c, mid@[j]),
            forall|j: int| 0 <= j < k ==> node_wf(mid@[j], dirs(t)),
        decreases n - k,
    {
        let b = grid[k];
        let m = match types[k] {
            NodeType::Fluid => {
                proof {
                    lemma_collide_wf(t, b, *c);
                }
                collide_node(t, b, c)
            },
            NodeType::Boundary => {
                proof {
                    lemma_reflect_bits(t, b);
                }
                reflect_node(t, b)
            },
            NodeType::Inflow(rates) => inflow_node(t, b, &rates, rng),
            NodeType::Sink => {
                proof {
                    crate::bits::lemma_zero_bits();
                }
                0u8
            },
        };
        mid.push(m);
        k += 1;
    }
    mid
}

/// The streaming stage: builds a fresh grid where every non-sink site's
/// direction-`d` bit is pulled from its unique source site, so each output
/// bit has exactly one writer and the move is one-to-one; a sink destination
/// absorbs what arrives and stays empty.
fn stream_stage(t: Topology, mid: &Vec<u8>, types: &Vec<NodeType>, w: usize, h: usize) -> (out:
    Vec<u8>)
    requires
        1 <= w <= 0x4000_0000,
        1 <= h <= 0x4000_0000,
        w * h <= usize::MAX,
        mid@.len() == w * h,
        types@.len() == w * h,
    ensures
        out@.len() == w * h,
        forall|k: int| 0 <= k < out@.len() && is_sink(types@[k]) ==> out@[k] == 0,
        forall|k: int, d: u8|
            0 <= k < out@.len() && !is_sink(types@[k]) && d < dirs(t) ==> occ_bit(out@[k], d)
                == occ_bit(mid@[src_idx(t, k, d as int, w as int, h as int)], d),
        forall|k: int| 0 <= k < out@.len() ==> node_wf(out@[k], dirs(t)),
{
    let n = mid.len();
    let nd = direction_count(t);
    let mut out: Vec<u8> = Vec::new();
    let mut k: usize = 0;
    while k < n
        invariant
            k <= n,
            n == mid@.len(),
            n == w * h,
            1 <= w <= 0x4000_0000,
            1 <= h <= 0x4000_0000,
            w * h <= usize::MAX,
            nd == dirs(t),
            types@.len() == n,
            out@.len() == k,
            forall|j: int| 0 <= j < k && is_sink(types@[j]) ==> out@[j] == 0,
            forall|j: int, d: u8|
                0 <= j < k && !is_sink(types@[j]) && d < dirs(t) ==> occ_bit(out@[j], d)
                    == occ_bit(mid@[src_idx(t, j, d as int, w as int, h as int)], d),
            forall|j: int| 0 <= j < k ==> node_wf(out@[j], dirs(t)),
        decreases n - k,
    {
        let mut b: u8 = 0;
        proof {
            crate::bits::lemma_zero_bits();
        }
        let mut d: u8 = 0;
        while d < nd
            invariant
                d <= nd,
                nd == dirs(t),
                k < n,
                n == mid@.len(),
                n == w * h,
                1 <= w <= 0x4000_0000,
                1 <= h <= 0x4000_0000,
                w * h <= usize::MAX,
                forall|dd: u8|
                    dd < d ==> occ_bit(b, dd) == occ_bit(
                        mid@[src_idx(t, k as int, dd as int, w as int, h as int)],
                        dd,
                    ),
                forall|dd: u8| d <= dd < 8 ==> !occ_bit(b, dd),
            decreases nd - d,
        {
            let s = source_index(t, k, d, w, h);
            let v = get_cell(d as usize, mid[s]);
            if v {
                set_cell(d as usize, &mut b, true);
            }
            d += 1;
        }
        let val = match types[k] {
            NodeType::Sink => 0u8,
            _ => b,
        };
        out.push(val);
        k += 1;
    }
    out
}

/// The simulation driver. It owns the live occupancy grid and the type
/// grid (same shape, fixed after setup), plus the seeded random generator
/// that resolves ambiguous collisions and inflow draws.
pub struct Simulation {
    topology: Topology,
    width: usize,
    height: usize,
    grid: Vec<u8>,
    types: Vec<NodeType>,
    rng: rand::rngs::StdRng,
}

impl Simulation {
    /// The grid topology.
    pub closed spec fn topo(self) -> Topology {
        self.topology
    }

    /// Grid width, as a mathematical integer.
    pub closed spec fn w(self) -> int {
        self.width as int
    }

    /// Grid height, as a mathematical integer.
    pub closed spec fn h(self) -> int {
        self.height as int
    }

    /// The occupancy grid, row-major: site `(row, col)` is entry
    /// `row * width + col`.
    pub closed spec fn occ(self) -> Seq<u8> {
        self.grid@
    }

    /// The type grid, indexed like the occupancy grid.
    pub closed spec fn ty(self) -> Seq<NodeType> {
        self.types@
    }

    /// Well-formedness: positive bounded dimensions, grids of matching
    /// shape, and every occupancy record confined to the lattice's
    /// directions.
    pub closed spec fn wf(self) -> bool {
        &&& 1 <= self.width <= 0x4000_0000
        &&& 1 <= self.height <= 0x4000_0000
        &&& self.width * self.height <= usize::MAX
        &&& self.grid@.len() == self.width * self.height
        &&& self.types@.len() == self.grid@.len()
        &&& forall|k: int| 0 <= k < self.grid@.len() ==> node_wf(self.grid@[k], dirs(self.topology))
    }

    /// Builds an empty all-fluid grid of the given shape and topology. The
    /// seed drives every random draw the simulation will make.
    pub fn create(width: usize, height: usize, topology: Topology, seed: u64) -> (s: Simulation)
        requires
            1 <= width <= 0x4000_0000,
            1 <= height <= 0x4000_0000,
            width * height <= usize::MAX,
        ensures
            s.wf(),
            s.topo() == topology,
            s.w() == width,
            s.h() == height,
            s.occ().len() == width * height,
            forall|k: int| 0 <= k < s.occ().len() ==> s.occ()[k] == 0,
            s.ty().len() == width * height,
            all_fluid(s.ty()),
    {
        let n = width * height;
        let mut grid: Vec<u8> = Vec::new();
        let mut types: Vec<NodeType> = Vec::new();
        let mut k: usize = 0;
        while k < n
            invariant
                k <= n,
                grid@.len() == k,
                types@.len() == k,
                forall|j: int| 0 <= j < k ==> grid@[j] == 0,
                forall|j: int| 0 <= j < k ==> is_fluid(types@[j]),
            decreases n - k,
        {
            grid.push(0);
            types.push(NodeType::Fluid);
            k += 1;
        }
        proof {
            crate::bits::lemma_zero_bits();
        }
        Simulation { topology, width, height, grid, types, rng: seeded_rng(seed) }
    }

    /// Grid width.
    pub fn width(&self) -> (r: usize)
        ensures
            r == self.w(),
    {
        self.width
    }

    /// Grid height.
    pub fn height(&self) -> (r: usize)
        ensures
            r == self.h(),
    {
        self.height
    }

    /// Flat index of `(row, col)`, with the bounds proof.
    fn index_of(&self, row: usize, col: usize) -> (k: usize)
        requires
            self.wf(),
            row < self.h(),
            col < self.w(),
        ensures
            k == row * self.w() + col,
            k < self.occ().len(),
            k < self.ty().len(),
    {
        proof {
            assert((row as int) * (self.width as int) + (col as int) < (self.height as int) * (
            self.width as int)) by (nonlinear_arith)
                requires
                    (row as int) < (self.height as int),
                    (col as int) < (self.width as int),
                    0 <= row as int,
                    0 <= col as int,
                    (self.width as int) >= 1,
            ;
            assert((self.height as int) * (self.width as int) == (self.width as int) * (
            self.height as int)) by (nonlinear_arith);
        }
        row * self.width + col
    }

    /// Sets the node type of one site during scenario construction.
    pub fn set_type(&mut self, row: usize, col: usize, ty: NodeType)
        requires
            old(self).wf(),
            row < old(self).h(),
            col < old(self).w(),
        ensures
            final(self).wf(),
            final(self).topo() == old(self).topo(),
            final(self).w() == old(self).w(),
            final(self).h() == old(self).h(),
            final(self).occ() == old(self).occ(),
            final(self).ty() == old(self).ty().update(row * old(self).w() + col, ty),
    {
        let k = self.index_of(row, col);
        self.types[k] = ty;
    }

    /// Seeds one site's occupancy with the given bit pattern.
    pub fn seed_occupancy(&mut self, row: usize, col: usize, pattern: u8)
        requires
            old(self).wf(),
            row < old(self).h(),
            col < old(self).w(),
            node_wf(pattern, dirs(old(self).topo())),
        ensures
            final(self).wf(),
            final(self).topo() == old(self).topo(),
            final(self).w() == old(self).w(),
            final(self).h() == old(self).h(),
            final(self).ty() == old(self).ty(),
            final(self).occ() == old(self).occ().update(row * old(self).w() + col, pattern),
    {
        let k = self.index_of(row, col);
        self.grid[k] = pattern;
    }

    /// Seeds one site's occupancy at random: each direction's bit is set
    /// independently with probability `rate / RATE_SCALE`. A full rate fills
    /// the site surely; a zero rate leaves it surely empty.
    pub fn seed_occupancy_random(&mut self, row: usize, col: usize, rate: u32)
        requires
            old(self).wf(),
            row < old(self).h(),
            col < old(self).w(),
        ensures
            final(self).wf(),
            final(self).topo() == old(self).topo(),
            final(self).w() == old(self).w(),
            final(self).h() == old(self).h(),
            final(self).ty() == old(self).ty(),
            final(self).occ().len() == old(self).occ().len(),
            forall|j: int|
                0 <= j < old(self).occ().len() && j != row * old(self).w() + col ==> final(self).occ()[j]
                    == old(self).occ()[j],
            rate >= RATE_SCALE ==> crate::bits::all_set(
                final(self).occ()[row * old(self).w() + col],
                dirs(old(self).topo()),
            ),
            rate == 0 ==> final(self).occ()[row * old(self).w() + col] == 0,
    {
        let k = self.index_of(row, col);
        let nd = direction_count(self.topology);
        let mut b: u8 = 0;
        proof {
            crate::bits::lemma_zero_bits();
        }
        let mut d: u8 = 0;
        while d < nd
            invariant
                d <= nd,
                old(self).wf(),
                self.topology == old(self).topology,
                self.width == old(self).width,
                self.height == old(self).height,
                self.grid@ == old(self).grid@,
                self.types@ == old(self).types@,
                k < self.grid@.len(),
                k == row * old(self).w() + col,
                nd == dirs(self.topology),
                forall|dd: u8| dd < d && rate >= RATE_SCALE ==> occ_bit(b, dd),
                forall|dd: u8| dd < d && rate == 0 ==> !occ_bit(b, dd),
                forall|dd: u8| d <= dd < 8 ==> !occ_bit(b, dd),
            decreases nd - d,
        {
            let r = rand_below(&mut self.rng, RATE_SCALE);
            if r < rate {
                set_cell(d as usize, &mut b, true);
            }
            d += 1;
        }
        proof {
            if rate == 0 {
                crate::bits::lemma_zero_bits();
                crate::bits::lemma_occ_bit_ext(b, 0);
            }
        }
        self.grid[k] = b;
    }

    /// Reads one site's occupancy record.
    pub fn occupancy_at(&self, row: usize, col: usize) -> (r: u8)
        requires
            self.wf(),
            row < self.h(),
            col < self.w(),
        ensures
            r == self.occ()[row * self.w() + col],
    {
        let k = self.index_of(row, col);
        self.grid[k]
    }

    /// Reads one site's node type.
    pub fn type_at(&self, row: usize, col: usize) -> (r: NodeType)
        requires
            self.wf(),
            row < self.h(),
            col < self.w(),
        ensures
            r == self.ty()[row * self.w() + col],
    {
        let k = self.index_of(row, col);
        self.types[k]
    }

    /// One discrete step with the given resolution of the ambiguous
    /// collision families: collision, then streaming into a fresh buffer
    /// that replaces the live grid. Every sink site is empty when the step
    /// ends, whatever flowed in. On an all-fluid grid the total particle
    /// count is conserved exactly, whatever the choices and however many
    /// steps are taken.
    pub fn step_with_choices(&mut self, c: &Choices)
        requires
            old(self).wf(),
            c.wf(),
        ensures
            final(self).wf(),
            final(self).topo() == old(self).topo(),
            final(self).w() == old(self).w(),
            final(self).h() == old(self).h(),
            final(self).ty() == old(self).ty(),
            exists|m: Seq<u8>|
                step_rel(
                    old(self).topo(),
                    old(self).occ(),
                    old(self).ty(),
                    *c,
                    m,
                    final(self).occ(),
                    old(self).w(),
                    old(self).h(),
                ),
            forall|k: int|
                0 <= k < final(self).occ().len() && is_sink(old(self).ty()[k]) ==> final(self).occ()[k]
                    == 0,
            all_fluid(old(self).ty()) ==> grid_count(final(self).occ(), dirs(old(self).topo()) as nat)
                == grid_count(old(self).occ(), dirs(old(self).topo()) as nat),
    {
        let ghost before = self.grid@;
        let t = self.topology;
        let mid = collide_stage(t, &self.grid, &self.types, c, &mut self.rng);
        let out = stream_stage(t, &mid, &self.types, self.width, self.height);
        self.grid = out;
        proof {
            let w = self.width as int;
            let h = self.height as int;
            assert(step_rel(t, before, self.types@, *c, mid@, self.grid@, w, h));
            assert(step_rel(
                old(self).topo(),
                old(self).occ(),
                old(self).ty(),
                *c,
                mid@,
                self.occ(),
                old(self).w(),
                old(self).h(),
            ));
            if all_fluid(self.types@) {
                assert forall|k: int| 0 <= k < before.len() implies node_count(
                    mid@[k],
                    dirs(t) as nat,
                ) == node_count(before[k], dirs(t) as nat) by {
                    assert(is_fluid(self.types@[k]));
                    assert(mid@[k] == collide_spec(t, before[k], *c));
                    lemma_collide_count(t, before[k], *c);
                }
                lemma_grid_count_pointwise(mid@, before, dirs(t) as nat);
                assert(forall|k: int| 0 <= k < self.types@.len() ==> !is_sink(self.types@[k]));
                lemma_streaming_conserves(t, mid@, self.grid@, w, h);
            }
        }
    }

    /// One discrete step: draws this step's resolution of each ambiguous
    /// collision family uniformly at random (once per step, applied to every
    /// matching site), then collides and streams.
    pub fn step(&mut self)
        requires
            old(self).wf(),
        ensures
            final(self).wf(),
            final(self).topo() == old(self).topo(),
            final(self).w() == old(self).w(),
            final(self).h() == old(self).h(),
            final(self).ty() == old(self).ty(),
            exists|c: Choices, m: Seq<u8>|
                c.wf() && step_rel(
                    old(self).topo(),
                    old(self).occ(),
                    old(self).ty(),
                    c,
                    m,
                    final(self).occ(),
                    old(self).w(),
                    old(self).h(),
                ),
            forall|k: int|
                0 <= k < final(self).occ().len() && is_sink(old(self).ty()[k]) ==> final(self).occ()[k]
                    == 0,
            all_fluid(old(self).ty()) ==> grid_count(final(self).occ(), dirs(old(self).topo()) as nat)
                == grid_count(old(self).occ(), dirs(old(self).topo()) as nat),
    {
        let c = random_choices(&mut self.rng);
        self.step_with_choices(&c);
        proof {
            let m0 = choose|m: Seq<u8>|
                step_rel(
                    old(self).topo(),
                    old(self).occ(),
                    old(self).ty(),
                    c,
                    m,
                    self.occ(),
                    old(self).w(),
                    old(self).h(),
                );
            assert(c.wf() && step_rel(
                old(self).topo(),
                old(self).occ(),
                old(self).ty(),
                c,
                m0,
                self.occ(),
                old(self).w(),
                old(self).h(),
            ));
        }
    }
}

} // verus!
