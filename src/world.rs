//! The world: a grid of resource cells and the organisms living on it,
//! advanced one tick at a time.

use vstd::prelude::*;
use crate::config::{Config, ConfigError, PartnerPolicy, config_valid, config_error};
use crate::genome::{Gene, Genome, genes_in_range, mutated, recombined, lemma_crossover_invariants};
use crate::organism::{
    Organism, OrganismModel, Status, TRAIT_APPETITE, TRAIT_WANDER, views, metabolized, species_layout,
    energy_after,
};
use crate::rng::{RngKey, spec_roll, spec_draw, roll, draw};
use crate::spatial::{within, query_indices, lemma_within_bounds};
use crate::snapshot::{OrganismSummary, Snapshot, SnapshotModel, summary_of, encodes, lemma_encoding_unique};

verus! {

/// Sub-stream of draws that steer movement.
pub const STREAM_MOVE: u64 = 3;

/// Sub-stream of draws that place the initial population.
pub const STREAM_PLACE: u64 = 4;

/// Sub-stream of draws that give the initial population its genes.
pub const STREAM_GENES: u64 = 5;

#[derive(Clone, Copy, Debug, PartialEq, Eq, Structural)]
pub struct Cell {
    pub resource: u64,
    pub capacity: u64,
}

/// A cell after one tick of regrowth: `rate` more, up to its capacity.
pub open spec fn regrown(c: Cell, rate: u64) -> Cell {
    if c.resource + rate >= c.capacity {
        Cell { resource: c.capacity, ..c }
    } else {
        Cell { resource: (c.resource + rate) as u64, ..c }
    }
}

pub open spec fn regrown_all(cells: Seq<Cell>, rate: u64) -> Seq<Cell> {
    Seq::new(cells.len(), |i: int| regrown(cells[i], rate))
}

/// Row-major position of `(x, y)` in the grid.
pub open spec fn cell_index(c: Config, x: u32, y: u32) -> int {
    y * c.width + x
}

/// The cells an organism at `(x, y)` may move to: itself and its four
/// neighbours inside the grid, in ascending cell order.
pub open spec fn neighbours(c: Config, x: u32, y: u32) -> Seq<(u32, u32)> {
    let s0: Seq<(u32, u32)> = if y > 0 {
        seq![(x, (y - 1) as u32)]
    } else {
        seq![]
    };
    let s1 = if x > 0 {
        s0.push(((x - 1) as u32, y))
    } else {
        s0
    };
    let s2 = s1.push((x, y));
    let s3 = if x + 1 < c.width {
        s2.push(((x + 1) as u32, y))
    } else {
        s2
    };
    if y + 1 < c.height {
        s3.push((x, (y + 1) as u32))
    } else {
        s3
    }
}

pub open spec fn resource_at(c: Config, cells: Seq<Cell>, p: (u32, u32)) -> u64 {
    cells[cell_index(c, p.0, p.1)].resource
}

/// Position, among the first `k` candidates, of the richest one; the first
/// such, that is the lowest cell, on ties.
pub open spec fn richest(c: Config, cells: Seq<Cell>, cands: Seq<(u32, u32)>, k: nat) -> int
    decreases k,
{
    if k <= 1 {
        0
    } else {
        let b = richest(c, cells, cands, (k - 1) as nat);
        if resource_at(c, cells, cands[k - 1]) > resource_at(c, cells, cands[b]) {
            k - 1
        } else {
            b
        }
    }
}

/// Where an organism moves: with probability given by its wander gene, to a
/// candidate drawn at random; otherwise to the richest candidate.
pub open spec fn move_target(c: Config, cells: Seq<Cell>, o: OrganismModel, key: RngKey) -> (u32, u32) {
    let cands = neighbours(c, o.x, o.y);
    if spec_roll(key, STREAM_MOVE, 0) < o.genes[1].value {
        cands[(spec_draw(key, STREAM_MOVE, 1) % (cands.len() as u64)) as int]
    } else {
        cands[richest(c, cells, cands, cands.len())]
    }
}

/// Where a child is placed: the first neighbour of its parent's cell to the
/// right, left, below or above that lies inside the grid; the parent's own
/// cell in a grid of one cell.
pub open spec fn child_spot(c: Config, x: u32, y: u32) -> (u32, u32) {
    if x + 1 < c.width {
        ((x + 1) as u32, y)
    } else if x > 0 {
        ((x - 1) as u32, y)
    } else if y + 1 < c.height {
        (x, (y + 1) as u32)
    } else if y > 0 {
        (x, (y - 1) as u32)
    } else {
        (x, y)
    }
}

pub open spec fn sat_add(a: u64, b: u64) -> u64 {
    if a + b > u64::MAX {
        u64::MAX
    } else {
        (a + b) as u64
    }
}

/// The state of a tick's organism pass: the grid, the organisms that have
/// acted and live on, the children born so far, and the next free identifier.
pub ghost struct PassModel {
    pub cells: Seq<Cell>,
    pub survivors: Seq<OrganismModel>,
    pub born: Seq<OrganismModel>,
    pub next_id: u64,
}

/// Feeding: an organism on a cell holding at least its appetite eats that
/// much.
pub open spec fn feed(c: Config, ps: PassModel, o: OrganismModel) -> (PassModel, OrganismModel) {
    let i = cell_index(c, o.x, o.y);
    let cell = ps.cells[i];
    let a = o.genes[0].value as u64;
    if cell.resource >= a {
        (
            PassModel { cells: ps.cells.update(i, Cell { resource: (cell.resource - a) as u64, ..cell }), ..ps },
            OrganismModel { energy: sat_add(o.energy, a), ..o },
        )
    } else {
        (ps, o)
    }
}

/// The genome a reproducing organism recombines its own with.
pub open spec fn partner_genes(c: Config, ps: PassModel, o: OrganismModel) -> Seq<Gene> {
    match c.partner_policy {
        PartnerPolicy::SelfCrossover => o.genes,
        PartnerPolicy::NearestPartner => {
            let q = within(ps.survivors, o.x, o.y, c.sense_radius as nat);
            if q.len() > 0 {
                ps.survivors[q[0] as int].genes
            } else {
                o.genes
            }
        },
    }
}

/// Reproduction is allowed with enough energy, below the population cap
/// (`n` organisms started the tick), and while identifiers remain.
pub open spec fn may_reproduce(c: Config, n: nat, ps: PassModel, o: OrganismModel) -> bool {
    &&& o.energy >= c.reproduction_threshold
    &&& o.energy >= c.reproduction_cost
    &&& n + ps.born.len() < c.max_population
    &&& ps.next_id < u64::MAX
}

pub open spec fn child_of(c: Config, ps: PassModel, o: OrganismModel, key: RngKey) -> OrganismModel {
    let spot = child_spot(c, o.x, o.y);
    OrganismModel {
        id: ps.next_id,
        genes: mutated(recombined(o.genes, partner_genes(c, ps, o), c.crossover_bias, key), c.mutation_rate, key),
        energy: c.reproduction_cost,
        age: 0,
        x: spot.0,
        y: spot.1,
        parent: Some(o.id),
    }
}

pub open spec fn reproduce(c: Config, n: nat, ps: PassModel, o: OrganismModel, key: RngKey) -> (PassModel, OrganismModel) {
    if may_reproduce(c, n, ps, o) {
        (
            PassModel { born: ps.born.push(child_of(c, ps, o, key)), next_id: (ps.next_id + 1) as u64, ..ps },
            OrganismModel { energy: (o.energy - c.reproduction_cost) as u64, ..o },
        )
    } else {
        (ps, o)
    }
}

/// One organism's turn in tick `tick`: metabolism, starvation, movement,
/// feeding, reproduction, and the age limit, in that order.
#[verifier::opaque]
pub open spec fn act(c: Config, tick: u64, n: nat, ps: PassModel, o: OrganismModel) -> PassModel {
    let m = metabolized(o, c.metabolism_cost);
    if m.energy == 0 {
        ps
    } else {
        let key = RngKey { seed: c.seed, tick, id: o.id };
        let t = move_target(c, ps.cells, m, key);
        let moved = OrganismModel { x: t.0, y: t.1, ..m };
        let f = feed(c, ps, moved);
        let r = reproduce(c, n, f.0, f.1, key);
        if r.1.age > c.max_age {
            r.0
        } else {
            PassModel { survivors: r.0.survivors.push(r.1), ..r.0 }
        }
    }
}

/// The pass after the first `k` organisms of `orgs` have acted.
pub open spec fn pass(c: Config, tick: u64, orgs: Seq<OrganismModel>, start: PassModel, k: nat) -> PassModel
    decreases k,
{
    if k == 0 {
        start
    } else {
        act(c, tick, orgs.len(), pass(c, tick, orgs, start, (k - 1) as nat), orgs[k - 1])
    }
}

/// A world as a mathematical value.
pub ghost struct WorldModel {
    pub config: Config,
    pub cells: Seq<Cell>,
    pub orgs: Seq<OrganismModel>,
    pub tick: u64,
    pub next_id: u64,
}

/// One tick: regrowth of every cell, then each organism's turn in identifier
/// order, then the dead are purged and the newborn join.
pub open spec fn tick_model(w: WorldModel) -> WorldModel {
    let start = PassModel {
        cells: regrown_all(w.cells, w.config.resource_regen_rate),
        survivors: seq![],
        born: seq![],
        next_id: w.next_id,
    };
    let p = pass(w.config, w.tick, w.orgs, start, w.orgs.len());
    WorldModel { config: w.config, cells: p.cells, orgs: p.survivors + p.born, tick: (w.tick + 1) as u64, next_id: p.next_id }
}

/// `n` ticks in a row.
pub open spec fn steps(w: WorldModel, n: nat) -> WorldModel
    decreases n,
{
    if n == 0 {
        w
    } else {
        steps(tick_model(w), (n - 1) as nat)
    }
}

/// What holds of every living organism.
pub open spec fn organism_ok(c: Config, o: OrganismModel) -> bool {
    &&& o.x < c.width
    &&& o.y < c.height
    &&& o.age <= c.max_age
    &&& species_layout(o.genes)
    &&& genes_in_range(o.genes)
}

pub open spec fn cells_ok(c: Config, cells: Seq<Cell>) -> bool {
    &&& cells.len() == c.width * c.height
    &&& forall|i: int| 0 <= i < cells.len() ==> (#[trigger] cells[i]).resource <= cells[i].capacity
}

pub open spec fn ids_increasing(s: Seq<OrganismModel>) -> bool {
    forall|i: int, j: int| 0 <= i < j < s.len() ==> s[i].id < s[j].id
}

/// The world's invariant: a valid configuration, a full grid with no cell
/// above its capacity, at most `max_population` organisms, each inside the
/// grid, within the age limit and with a well-formed genome, and identifiers
/// increasing and below the next free one.
pub open spec fn world_ok(w: WorldModel) -> bool {
    &&& config_valid(w.config)
    &&& cells_ok(w.config, w.cells)
    &&& w.orgs.len() <= w.config.max_population
    &&& forall|i: int| 0 <= i < w.orgs.len() ==> organism_ok(w.config, #[trigger] w.orgs[i])
    &&& forall|i: int| 0 <= i < w.orgs.len() ==> (#[trigger] w.orgs[i]).id < w.next_id
    &&& ids_increasing(w.orgs)
}

/// A tick's organism pass in progress.
struct Pass {
    cells: Vec<Cell>,
    survivors: Vec<Organism>,
    born: Vec<Organism>,
    next_id: u64,
}

impl View for Pass {
    type V = PassModel;

    closed spec fn view(&self) -> PassModel {
        PassModel {
            cells: self.cells@,
            survivors: views(self.survivors@),
            born: views(self.born@),
            next_id: self.next_id,
        }
    }
}

proof fn lemma_index_in_grid(c: Config, x: u32, y: u32)
    requires
        x < c.width,
        y < c.height,
    ensures
        0 <= cell_index(c, x, y) < c.width * c.height,
{
    assert(0 <= y * c.width + x < c.width * c.height) by (nonlinear_arith)
        requires
            x < c.width,
            y < c.height,
    ;
}

fn index_of(c: &Config, x: u32, y: u32) -> (i: usize)
    requires
        config_valid(*c),
        x < c.width,
        y < c.height,
    ensures
        i == cell_index(*c, x, y),
        i < c.width * c.height,
{
    proof {
        lemma_index_in_grid(*c, x, y);
    }
    (y as usize) * (c.width as usize) + (x as usize)
}

fn neighbours_of(c: &Config, x: u32, y: u32) -> (r: Vec<(u32, u32)>)
    requires
        x < c.width,
        y < c.height,
    ensures
        r@ == neighbours(*c, x, y),
        r@.len() >= 1,
        forall|i: int| 0 <= i < r@.len() ==> (#[trigger] r@[i]).0 < c.width && r@[i].1 < c.height,
{
    let mut r: Vec<(u32, u32)> = Vec::new();
    if y > 0 {
        r.push((x, y - 1));
    }
    if x > 0 {
        r.push((x - 1, y));
    }
    r.push((x, y));
    if (x as u64) + 1 < c.width as u64 {
        r.push((x + 1, y));
    }
    if (y as u64) + 1 < c.height as u64 {
        r.push((x, y + 1));
    }
    proof {
        let s0: Seq<(u32, u32)> = if y > 0 {
            seq![(x, (y - 1) as u32)]
        } else {
            seq![]
        };
        if y > 0 {
            assert(s0 =~= seq![].push((x, (y - 1) as u32)));
        }
        assert(r@ =~= neighbours(*c, x, y));
    }
    r
}

fn richest_of(c: &Config, cells: &Vec<Cell>, cands: &Vec<(u32, u32)>) -> (b: usize)
    requires
        config_valid(*c),
        cells_ok(*c, cells@),
        cands@.len() >= 1,
        forall|i: int| 0 <= i < cands@.len() ==> (#[trigger] cands@[i]).0 < c.width && cands@[i].1 < c.height,
    ensures
        b == richest(*c, cells@, cands@, cands@.len()),
        b < cands@.len(),
{
    let mut best: usize = 0;
    let mut k: usize = 1;
    while k < cands.len()
        invariant
            1 <= k <= cands@.len(),
            best < k,
            best == richest(*c, cells@, cands@, k as nat),
            config_valid(*c),
            cells_ok(*c, cells@),
            forall|i: int| 0 <= i < cands@.len() ==> (#[trigger] cands@[i]).0 < c.width && cands@[i].1 < c.height,
        decreases cands@.len() - k,
    {
        let ck = cands[k];
        let cb = cands[best];
        let ik = index_of(c, ck.0, ck.1);
        let ib = index_of(c, cb.0, cb.1);
        if cells[ik].resource > cells[ib].resource {
            best = k;
        }
        k += 1;
    }
    best
}

fn move_of(c: &Config, cells: &Vec<Cell>, o: &Organism, key: RngKey) -> (t: (u32, u32))
    requires
        config_valid(*c),
        cells_ok(*c, cells@),
        o.x < c.width,
        o.y < c.height,
        species_layout(o@.genes),
    ensures
        t == move_target(*c, cells@, o@, key),
        t.0 < c.width,
        t.1 < c.height,
{
    let cands = neighbours_of(c, o.x, o.y);
    if roll(key, STREAM_MOVE, 0) < o.genome.value(1) as u64 {
        let j = draw(key, STREAM_MOVE, 1) % (cands.len() as u64);
        cands[j as usize]
    } else {
        let b = richest_of(c, cells, &cands);
        cands[b]
    }
}

fn child_spot_of(c: &Config, x: u32, y: u32) -> (p: (u32, u32))
    requires
        x < c.width,
        y < c.height,
    ensures
        p == child_spot(*c, x, y),
        p.0 < c.width,
        p.1 < c.height,
{
    if (x as u64) + 1 < c.width as u64 {
        (x + 1, y)
    } else if x > 0 {
        (x - 1, y)
    } else if (y as u64) + 1 < c.height as u64 {
        (x, y + 1)
    } else if y > 0 {
        (x, y - 1)
    } else {
        (x, y)
    }
}

/// What holds of a pass whenever an organism takes its turn.
pub open spec fn pass_ready(c: Config, n: nat, ps: PassModel) -> bool {
    &&& config_valid(c)
    &&& cells_ok(c, ps.cells)
    &&& forall|i: int| 0 <= i < ps.survivors.len() ==> organism_ok(c, #[trigger] ps.survivors[i])
    &&& n + ps.born.len() <= c.max_population
}

proof fn lemma_views_push(s: Seq<Organism>, o: Organism)
    ensures
        views(s.push(o)) == views(s).push(o@),
{
    assert(views(s.push(o)) =~= views(s).push(o@));
}

impl Pass {
    /// One organism's turn; see `act`.
    fn act_one(&mut self, c: &Config, tick: u64, n: usize, o: &Organism)
        requires
            pass_ready(*c, n as nat, old(self)@),
            organism_ok(*c, o@),
        ensures
            final(self)@ == act(*c, tick, n as nat, old(self)@, o@),
    {
        let ghost ps0 = self@;
        proof {
            reveal(act);
        }
        let mut m = o.copy();
        proof {
            assert(o.age < u64::MAX);
        }
        let status = m.metabolize(c.metabolism_cost);
        if status == Status::Dead {
            return;
        }
        let key = RngKey { seed: c.seed, tick, id: o.id };
        let t = move_of(c, &self.cells, &m, key);
        m.x = t.0;
        m.y = t.1;
        let ghost moved = m@;
        let i = index_of(c, m.x, m.y);
        let cell = self.cells[i];
        let a = m.genome.value(0) as u64;
        if cell.resource >= a {
            self.cells.set(i, Cell { resource: cell.resource - a, ..cell });
            m.energy = m.energy.saturating_add(a);
        }
        let ghost fed = feed(*c, ps0, moved);
        assert(self@ == fed.0);
        assert(m@ == fed.1);
        if m.energy >= c.reproduction_threshold && m.energy >= c.reproduction_cost && (n as u64) + (
        self.born.len() as u64) < c.max_population as u64 && self.next_id < u64::MAX {
            let child_genome = match c.partner_policy {
                PartnerPolicy::SelfCrossover => Genome::crossover(
                    &m.genome,
                    &m.genome,
                    c.crossover_bias,
                    c.mutation_rate,
                    key,
                ),
                PartnerPolicy::NearestPartner => {
                    let q = query_indices(&self.survivors, m.x, m.y, c.sense_radius);
                    if q.len() > 0 {
                        let j = q[0];
                        proof {
                            assert(organism_ok(*c, self@.survivors[j as int]));
                        }
                        Genome::crossover(
                            &m.genome,
                            &self.survivors[j].genome,
                            c.crossover_bias,
                            c.mutation_rate,
                            key,
                        )
                    } else {
                        Genome::crossover(&m.genome, &m.genome, c.crossover_bias, c.mutation_rate, key)
                    }
                },
            };
            let spot = child_spot_of(c, m.x, m.y);
            let child = Organism {
                id: self.next_id,
                genome: child_genome,
                energy: c.reproduction_cost,
                age: 0,
                x: spot.0,
                y: spot.1,
                parent: Some(m.id),
            };
            assert(child@ == child_of(*c, fed.0, fed.1, key));
            proof {
                lemma_views_push(self.born@, child);
            }
            self.born.push(child);
            self.next_id = self.next_id + 1;
            m.energy = m.energy - c.reproduction_cost;
        }
        let ghost rep = reproduce(*c, n as nat, fed.0, fed.1, key);
        assert(self@ == rep.0);
        assert(m@ == rep.1);
        if m.age <= c.max_age as u64 {
            proof {
                lemma_views_push(self.survivors@, m);
            }
            self.survivors.push(m);
        }
    }
}

proof fn lemma_neighbours_in_grid(c: Config, x: u32, y: u32)
    requires
        x < c.width,
        y < c.height,
    ensures
        neighbours(c, x, y).len() >= 1,
        forall|i: int|
            0 <= i < neighbours(c, x, y).len() ==> (#[trigger] neighbours(c, x, y)[i]).0 < c.width
                && neighbours(c, x, y)[i].1 < c.height,
{
}

proof fn lemma_richest_bound(c: Config, cells: Seq<Cell>, cands: Seq<(u32, u32)>, k: nat)
    requires
        k >= 1,
    ensures
        0 <= richest(c, cells, cands, k) < k,
    decreases k,
{
    if k > 1 {
        lemma_richest_bound(c, cells, cands, (k - 1) as nat);
    }
}

/// Movement never leaves the grid.
pub proof fn lemma_move_in_grid(c: Config, cells: Seq<Cell>, o: OrganismModel, key: RngKey)
    requires
        o.x < c.width,
        o.y < c.height,
    ensures
        move_target(c, cells, o, key).0 < c.width,
        move_target(c, cells, o, key).1 < c.height,
{
    let cands = neighbours(c, o.x, o.y);
    lemma_neighbours_in_grid(c, o.x, o.y);
    lemma_richest_bound(c, cells, cands, cands.len());
    let j = (spec_draw(key, STREAM_MOVE, 1) % (cands.len() as u64)) as int;
    assert(0 <= j < cands.len());
    assert(cands[j].0 < c.width);
    let b = richest(c, cells, cands, cands.len());
    assert(cands[b].0 < c.width);
}

/// What holds of a tick's pass after the first `k` organisms of `orgs` have
/// acted, when the pass started with the free identifier `first_id`.
pub open spec fn pass_inv(c: Config, orgs: Seq<OrganismModel>, first_id: u64, k: nat, ps: PassModel) -> bool {
    &&& pass_ready(c, orgs.len(), ps)
    &&& forall|i: int| 0 <= i < ps.born.len() ==> organism_ok(c, #[trigger] ps.born[i])
    &&& ids_increasing(ps.survivors)
    &&& ids_increasing(ps.born)
    &&& forall|i: int|
        0 <= i < ps.survivors.len() ==> (#[trigger] ps.survivors[i]).id < first_id && (k < orgs.len()
            ==> ps.survivors[i].id < orgs[k as int].id)
    &&& forall|i: int| 0 <= i < ps.born.len() ==> first_id <= (#[trigger] ps.born[i]).id < ps.next_id
    &&& first_id <= ps.next_id
    &&& ps.survivors.len() <= k
}

proof fn lemma_act_keeps(c: Config, tick: u64, orgs: Seq<OrganismModel>, first_id: u64, k: nat, ps: PassModel)
    requires
        k < orgs.len(),
        orgs.len() <= c.max_population,
        forall|i: int| 0 <= i < orgs.len() ==> organism_ok(c, #[trigger] orgs[i]),
        forall|i: int| 0 <= i < orgs.len() ==> (#[trigger] orgs[i]).id < first_id,
        ids_increasing(orgs),
        pass_inv(c, orgs, first_id, k, ps),
    ensures
        pass_inv(c, orgs, first_id, k + 1, act(c, tick, orgs.len(), ps, orgs[k as int])),
{
    reveal(act);
    let o = orgs[k as int];
    assert(organism_ok(c, o));
    let m = metabolized(o, c.metabolism_cost);
    if m.energy != 0 {
        let key = RngKey { seed: c.seed, tick, id: o.id };
        lemma_move_in_grid(c, ps.cells, m, key);
        let t = move_target(c, ps.cells, m, key);
        let moved = OrganismModel { x: t.0, y: t.1, ..m };
        let f = feed(c, ps, moved);
        lemma_index_in_grid(c, moved.x, moved.y);
        assert(cells_ok(c, f.0.cells));
        let r = reproduce(c, orgs.len(), f.0, f.1, key);
        if may_reproduce(c, orgs.len(), f.0, f.1) {
            let pg = partner_genes(c, f.0, f.1);
            if c.partner_policy == PartnerPolicy::NearestPartner {
                let q = within(f.0.survivors, f.1.x, f.1.y, c.sense_radius as nat);
                lemma_within_bounds(f.0.survivors, f.1.x, f.1.y, c.sense_radius as nat);
                if q.len() > 0 {
                    assert(organism_ok(c, f.0.survivors[q[0] as int]));
                }
            }
            assert(species_layout(pg));
            lemma_crossover_invariants(f.1.genes, pg, c.crossover_bias, c.mutation_rate, key);
            let ch = child_of(c, f.0, f.1, key);
            assert(organism_ok(c, ch));
            assert(r.0.born == f.0.born.push(ch));
        }
        if k + 1 < orgs.len() {
            assert(o.id < orgs[k + 1 as int].id);
        }
        if r.1.age <= c.max_age {
            assert(organism_ok(c, r.1));
        }
    }
}

proof fn lemma_pass_keeps(c: Config, tick: u64, orgs: Seq<OrganismModel>, first_id: u64, start: PassModel, k: nat)
    requires
        k <= orgs.len(),
        orgs.len() <= c.max_population,
        forall|i: int| 0 <= i < orgs.len() ==> organism_ok(c, #[trigger] orgs[i]),
        forall|i: int| 0 <= i < orgs.len() ==> (#[trigger] orgs[i]).id < first_id,
        ids_increasing(orgs),
        pass_inv(c, orgs, first_id, 0, start),
    ensures
        pass_inv(c, orgs, first_id, k, pass(c, tick, orgs, start, k)),
    decreases k,
{
    if k > 0 {
        lemma_pass_keeps(c, tick, orgs, first_id, start, (k - 1) as nat);
        lemma_act_keeps(c, tick, orgs, first_id, (k - 1) as nat, pass(c, tick, orgs, start, (k - 1) as nat));
    }
}

/// A tick keeps the world's invariant: the population stays within its cap,
/// every cell within its capacity, every organism inside the grid and within
/// the age limit, every gene within its range.
pub proof fn lemma_tick_keeps(w: WorldModel)
    requires
        world_ok(w),
    ensures
        world_ok(tick_model(w)),
{
    let c = w.config;
    let start = PassModel {
        cells: regrown_all(w.cells, c.resource_regen_rate),
        survivors: seq![],
        born: seq![],
        next_id: w.next_id,
    };
    assert(pass_inv(c, w.orgs, w.next_id, 0, start));
    lemma_pass_keeps(c, w.tick, w.orgs, w.next_id, start, w.orgs.len());
    let p = pass(c, w.tick, w.orgs, start, w.orgs.len());
    let all = p.survivors + p.born;
    assert(all.len() <= c.max_population);
    assert(cells_ok(c, p.cells));
    assert forall|i: int| 0 <= i < all.len() implies organism_ok(c, #[trigger] all[i]) && all[i].id < p.next_id by {
        if i < p.survivors.len() {
            assert(organism_ok(c, p.survivors[i]));
        } else {
            assert(organism_ok(c, p.born[i - p.survivors.len()]));
        }
    }
    assert forall|i: int, j: int| 0 <= i < j < all.len() implies all[i].id < all[j].id by {
        if j < p.survivors.len() {
        } else if i < p.survivors.len() {
            assert(p.survivors[i].id < w.next_id);
            assert(w.next_id <= p.born[j - p.survivors.len()].id);
        } else {
            assert(p.born[i - p.survivors.len()].id < p.born[j - p.survivors.len()].id);
        }
    }
}

/// Over any number of ticks the world's invariant holds.
pub proof fn lemma_steps_keep(w: WorldModel, n: nat)
    requires
        world_ok(w),
    ensures
        world_ok(steps(w, n)),
    decreases n,
{
    if n > 0 {
        lemma_tick_keeps(w);
        lemma_steps_keep(tick_model(w), (n - 1) as nat);
    }
}

/// Running `a` ticks and then `b` ticks gives the same world as running
/// `a + b` ticks at once.
pub proof fn lemma_steps_add(w: WorldModel, a: nat, b: nat)
    ensures
        steps(steps(w, a), b) == steps(w, a + b),
    decreases a,
{
    if a > 0 {
        lemma_steps_add(tick_model(w), (a - 1) as nat, b);
        assert((a - 1) as nat + b == (a + b - 1) as nat);
    }
}

/// Two runs from the same configuration, advanced by the same number of
/// ticks, reach the same world and save byte-identical snapshots.
pub proof fn lemma_determinism(c: Config, n: nat, b1: Seq<u8>, b2: Seq<u8>)
    requires
        encodes(b1, snapshot_model(steps(initial_model(c), n))),
        encodes(b2, snapshot_model(steps(initial_model(c), n))),
    ensures
        b1 == b2,
{
    lemma_encoding_unique(b1, b2, snapshot_model(steps(initial_model(c), n)));
}

/// An organism that starves takes no further part in the tick: it leaves
/// no survivor, no child, and every cell as it was.
pub proof fn lemma_starved_changes_nothing(c: Config, tick: u64, n: nat, ps: PassModel, o: OrganismModel)
    requires
        energy_after(o.energy, c.metabolism_cost) == 0,
    ensures
        act(c, tick, n, ps, o) == ps,
{
    reveal(act);
}

/// The tick counter advances by exactly one per tick.
pub proof fn lemma_steps_tick(w: WorldModel, n: nat)
    requires
        w.tick + n <= u64::MAX,
    ensures
        steps(w, n).tick == w.tick + n,
        steps(w, n).config == w.config,
    decreases n,
{
    if n > 0 {
        lemma_steps_tick(tick_model(w), (n - 1) as nat);
    }
}

/// A member of the initial population, drawn from the seed alone.
pub open spec fn initial_organism(c: Config, id: u64) -> OrganismModel {
    let key = RngKey { seed: c.seed, tick: 0, id };
    OrganismModel {
        id,
        genes: seq![
            Gene { trait_id: TRAIT_APPETITE, value: spec_roll(key, STREAM_GENES, 0) as u32 },
            Gene { trait_id: TRAIT_WANDER, value: spec_roll(key, STREAM_GENES, 1) as u32 },
        ],
        energy: c.initial_energy,
        age: 0,
        x: (spec_draw(key, STREAM_PLACE, 0) % (c.width as u64)) as u32,
        y: (spec_draw(key, STREAM_PLACE, 1) % (c.height as u64)) as u32,
        parent: None,
    }
}

/// The world a configuration creates: every cell full, the initial population
/// with identifiers `0..initial_population`, at tick zero.
pub open spec fn initial_model(c: Config) -> WorldModel {
    WorldModel {
        config: c,
        cells: Seq::new(
            (c.width * c.height) as nat,
            |i: int| Cell { resource: c.resource_cap, capacity: c.resource_cap },
        ),
        orgs: Seq::new(c.initial_population as nat, |i: int| initial_organism(c, i as u64)),
        tick: 0,
        next_id: c.initial_population as u64,
    }
}

/// Sum of the resources of the first `k` cells, saturating at `u64::MAX`.
pub open spec fn total_resource(cells: Seq<Cell>, k: nat) -> u64
    decreases k,
{
    if k == 0 {
        0
    } else {
        sat_add(total_resource(cells, (k - 1) as nat), cells[k - 1].resource)
    }
}

/// What a snapshot of `w` holds: the tick, the summed resources of all
/// cells, and a summary of each living organism in identifier order.
pub open spec fn snapshot_model(w: WorldModel) -> SnapshotModel {
    SnapshotModel {
        tick: w.tick,
        total_resource: total_resource(w.cells, w.cells.len()),
        organisms: Seq::new(w.orgs.len(), |i: int| summary_of(w.orgs[i])),
    }
}

fn summarize(o: &Organism) -> (s: OrganismSummary)
    requires
        species_layout(o@.genes),
    ensures
        s == summary_of(o@),
{
    OrganismSummary {
        id: o.id,
        x: o.x,
        y: o.y,
        energy: o.energy,
        age: o.age,
        appetite: o.genome.value(0),
        wander: o.genome.value(1),
    }
}

#[derive(Clone, Copy, Debug, PartialEq, Eq, Structural)]
pub enum EngineError {
    /// The tick counter would pass its largest value.
    TickLimit,
}

#[derive(Debug)]
pub struct World {
    config: Config,
    cells: Vec<Cell>,
    organisms: Vec<Organism>,
    tick: u64,
    next_id: u64,
}

impl View for World {
    type V = WorldModel;

    closed spec fn view(&self) -> WorldModel {
        WorldModel {
            config: self.config,
            cells: self.cells@,
            orgs: views(self.organisms@),
            tick: self.tick,
            next_id: self.next_id,
        }
    }
}

fn new_organism(c: &Config, id: u64) -> (o: Organism)
    requires
        c.width > 0,
        c.height > 0,
    ensures
        o@ == initial_organism(*c, id),
{
    let key = RngKey { seed: c.seed, tick: 0, id };
    let mut genes: Vec<Gene> = Vec::new();
    genes.push(Gene { trait_id: TRAIT_APPETITE, value: roll(key, STREAM_GENES, 0) as u32 });
    genes.push(Gene { trait_id: TRAIT_WANDER, value: roll(key, STREAM_GENES, 1) as u32 });
    let o = Organism {
        id,
        genome: Genome::new(genes),
        energy: c.initial_energy,
        age: 0,
        x: (draw(key, STREAM_PLACE, 0) % (c.width as u64)) as u32,
        y: (draw(key, STREAM_PLACE, 1) % (c.height as u64)) as u32,
        parent: None,
    };
    assert(o@.genes =~= initial_organism(*c, id).genes);
    o
}

impl World {
    pub open spec fn wf(&self) -> bool {
        world_ok(self@)
    }

    /// Builds the world a valid configuration describes; a configuration with
    /// an invalid field is rejected, naming the first such field.
    pub fn create_world(config: Config) -> (r: Result<World, ConfigError>)
        ensures
            r.is_ok() <==> config_valid(config),
            r matches Ok(w) ==> w@ == initial_model(config) && w.wf(),
            r matches Err(e) ==> config_error(config) == Some(e),
    {
        match config.validate() {
            Err(e) => {
                return Err(e);
            },
            Ok(()) => {},
        }
        let n_cells: usize = (config.width as usize) * (config.height as usize);
        let mut cells: Vec<Cell> = Vec::new();
        let mut i: usize = 0;
        while i < n_cells
            invariant
                i <= n_cells,
                cells@ =~= Seq::new(
                    i as nat,
                    |j: int| Cell { resource: config.resource_cap, capacity: config.resource_cap },
                ),
            decreases n_cells - i,
        {
            cells.push(Cell { resource: config.resource_cap, capacity: config.resource_cap });
            i += 1;
        }
        let mut organisms: Vec<Organism> = Vec::new();
        let mut id: u32 = 0;
        while id < config.initial_population
            invariant
                id <= config.initial_population,
                config_valid(config),
                views(organisms@) =~= Seq::new(id as nat, |j: int| initial_organism(config, j as u64)),
            decreases config.initial_population - id,
        {
            let o = new_organism(&config, id as u64);
            proof {
                lemma_views_push(organisms@, o);
            }
            organisms.push(o);
            id += 1;
        }
        let w = World { config, cells, organisms, tick: 0, next_id: config.initial_population as u64 };
        proof {
            let m = w@;
            assert(m == initial_model(config));
            assert forall|j: int| 0 <= j < m.orgs.len() implies organism_ok(config, #[trigger] m.orgs[j]) by {
                let key = RngKey { seed: config.seed, tick: 0, id: j as u64 };
                assert(spec_roll(key, STREAM_GENES, 0) < 1000);
                assert(spec_roll(key, STREAM_GENES, 1) < 1000);
            }
        }
        Ok(w)
    }

    /// The current tick counter.
    pub fn tick(&self) -> (t: u64)
        ensures
            t == self@.tick,
    {
        self.tick
    }

    /// The configuration the world was built from.
    pub fn config(&self) -> (c: Config)
        ensures
            c == self@.config,
    {
        self.config
    }

    /// The number of living organisms.
    pub fn population(&self) -> (n: usize)
        ensures
            n == self@.orgs.len(),
    {
        self.organisms.len()
    }

    /// Runs one tick.
    fn run_tick(&mut self)
        requires
            world_ok(old(self)@),
            old(self)@.tick < u64::MAX,
        ensures
            final(self)@ == tick_model(old(self)@),
            world_ok(final(self)@),
    {
        let ghost w0 = self@;
        let c = self.config;
        let rate = c.resource_regen_rate;
        let mut i: usize = 0;
        while i < self.cells.len()
            invariant
                self@.config == w0.config,
                self@.orgs == w0.orgs,
                self.tick == w0.tick,
                self.next_id == w0.next_id,
                c == w0.config,
                rate == c.resource_regen_rate,
                i <= self.cells@.len(),
                self.cells@.len() == w0.cells.len(),
                forall|j: int| 0 <= j < i ==> self.cells@[j] == regrown(w0.cells[j], rate),
                forall|j: int| i <= j < self.cells@.len() ==> self.cells@[j] == w0.cells[j],
            decreases self.cells@.len() - i,
        {
            let cell = self.cells[i];
            let r = cell.resource.saturating_add(rate);
            let nr = if r >= cell.capacity {
                cell.capacity
            } else {
                r
            };
            self.cells.set(i, Cell { resource: nr, ..cell });
            i += 1;
        }
        let ghost start = PassModel {
            cells: regrown_all(w0.cells, rate),
            survivors: seq![],
            born: seq![],
            next_id: w0.next_id,
        };
        assert(self.cells@ =~= start.cells);
        let mut ps = Pass { cells: Vec::new(), survivors: Vec::new(), born: Vec::new(), next_id: self.next_id };
        std::mem::swap(&mut self.cells, &mut ps.cells);
        assert(ps@.survivors =~= start.survivors);
        assert(ps@.born =~= start.born);
        assert(ps@ == start);
        let n = self.organisms.len();
        let mut k: usize = 0;
        assert(pass_inv(c, w0.orgs, w0.next_id, 0, start));
        while k < n
            invariant
                k <= n,
                n == w0.orgs.len(),
                c == w0.config,
                world_ok(w0),
                views(self.organisms@) == w0.orgs,
                self.tick == w0.tick,
                ps@ == pass(c, w0.tick, w0.orgs, start, k as nat),
                pass_inv(c, w0.orgs, w0.next_id, 0, start),
            decreases n - k,
        {
            proof {
                lemma_pass_keeps(c, w0.tick, w0.orgs, w0.next_id, start, k as nat);
                assert(organism_ok(c, w0.orgs[k as int]));
            }
            ps.act_one(&c, self.tick, n, &self.organisms[k]);
            k += 1;
        }
        let mut all = ps.survivors;
        let mut born = ps.born;
        let ghost s_seq = all@;
        let ghost b_seq = born@;
        all.append(&mut born);
        proof {
            assert(views(all@) =~= views(s_seq) + views(b_seq));
            lemma_tick_keeps(w0);
        }
        self.organisms = all;
        self.cells = ps.cells;
        self.next_id = ps.next_id;
        self.tick = self.tick + 1;
    }

    /// Advances the world by `ticks` ticks; zero ticks leave it as it is.
    /// When the tick counter cannot advance that far the world is left as it
    /// is and the step fails.
    pub fn step(&mut self, ticks: u32) -> (r: Result<(), EngineError>)
        requires
            old(self).wf(),
        ensures
            final(self).wf(),
            r.is_ok() <==> old(self)@.tick + ticks <= u64::MAX,
            r.is_ok() ==> final(self)@ == steps(old(self)@, ticks as nat),
            r.is_ok() ==> final(self)@.tick == old(self)@.tick + ticks,
            r.is_err() ==> r == Err::<(), EngineError>(EngineError::TickLimit) && final(self)@ == old(self)@,
    {
        if self.tick > u64::MAX - (ticks as u64) {
            return Err(EngineError::TickLimit);
        }
        let ghost w0 = self@;
        let mut done: u32 = 0;
        while done < ticks
            invariant
                done <= ticks,
                w0.tick + ticks <= u64::MAX,
                world_ok(self@),
                self@ == steps(w0, done as nat),
                self@.tick == w0.tick + done,
            decreases ticks - done,
        {
            proof {
                lemma_steps_add(w0, done as nat, 1);
                let x = self@;
                assert(steps(tick_model(x), 0) == tick_model(x));
                assert(steps(x, 1) == tick_model(x));
            }
            self.run_tick();
            done += 1;
        }
        Ok(())
    }

    /// A read-only copy of the world's current state.
    pub fn snapshot(&self) -> (s: Snapshot)
        requires
            self.wf(),
        ensures
            s@ == snapshot_model(self@),
    {
        let ghost w = self@;
        let mut total: u64 = 0;
        let mut i: usize = 0;
        while i < self.cells.len()
            invariant
                i <= self.cells@.len(),
                total == total_resource(self.cells@, i as nat),
            decreases self.cells@.len() - i,
        {
            total = total.saturating_add(self.cells[i].resource);
            i += 1;
        }
        let mut orgs: Vec<OrganismSummary> = Vec::new();
        let mut k: usize = 0;
        while k < self.organisms.len()
            invariant
                w == self@,
                world_ok(w),
                k <= self.organisms@.len(),
                orgs@ =~= Seq::new(k as nat, |j: int| summary_of(w.orgs[j])),
            decreases self.organisms@.len() - k,
        {
            proof {
                assert(organism_ok(w.config, w.orgs[k as int]));
            }
            orgs.push(summarize(&self.organisms[k]));
            k += 1;
        }
        Snapshot { tick: self.tick, total_resource: total, organisms: orgs }
    }

    /// Summaries of the organisms within `radius` (Chebyshev distance) of
    /// `(x, y)`, nearest first, ties broken by identifier.
    pub fn query_radius(&self, x: u32, y: u32, radius: u32) -> (r: Vec<OrganismSummary>)
        requires
            self.wf(),
        ensures
            ({
                let q = within(self@.orgs, x, y, radius as nat);
                r@ == Seq::new(q.len(), |i: int| summary_of(self@.orgs[q[i] as int]))
            }),
    {
        let ghost w = self@;
        let q = query_indices(&self.organisms, x, y, radius);
        let mut r: Vec<OrganismSummary> = Vec::new();
        let mut i: usize = 0;
        while i < q.len()
            invariant
                w == self@,
                world_ok(w),
                q@ == within(w.orgs, x, y, radius as nat),
                forall|j: int| 0 <= j < q@.len() ==> #[trigger] q@[j] < w.orgs.len(),
                i <= q@.len(),
                r@ =~= Seq::new(i as nat, |j: int| summary_of(w.orgs[q@[j] as int])),
            decreases q@.len() - i,
        {
            let j = q[i];
            proof {
                assert(organism_ok(w.config, w.orgs[j as int]));
            }
            r.push(summarize(&self.organisms[j]));
            i += 1;
        }
        r
    }

    /// The cells of the whole grid, in row-major order.
    pub fn export_full_grid(&self) -> (r: Vec<Cell>)
        ensures
            r@ == self@.cells,
    {
        let mut r: Vec<Cell> = Vec::new();
        let mut i: usize = 0;
        while i < self.cells.len()
            invariant
                i <= self.cells@.len(),
                r@ == self.cells@.subrange(0, i as int),
            decreases self.cells@.len() - i,
        {
            r.push(self.cells[i]);
            i += 1;
        }
        assert(r@ =~= self.cells@);
        r
    }
}

} // verus!
