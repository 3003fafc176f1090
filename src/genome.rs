//! Heritable traits: an ordered sequence of genes, recombined and mutated at
//! birth.

use vstd::prelude::*;
use crate::rng::{RngKey, PER_MILLE, spec_draw, draw};

verus! {

/// Largest value a gene may hold.
pub const GENE_MAX: u32 = 1000;

/// Sub-stream of draws that decide which parent gives each gene.
pub const STREAM_CROSS: u64 = 1;

/// Sub-stream of draws that decide each gene's mutation.
pub const STREAM_MUTATE: u64 = 2;

/// One heritable trait: a stable identifier and its value in `0..=GENE_MAX`.
#[derive(Clone, Copy, Debug, PartialEq, Eq, Structural)]
pub struct Gene {
    pub trait_id: u32,
    pub value: u32,
}

#[derive(Debug)]
pub struct Genome {
    pub genes: Vec<Gene>,
}

impl View for Genome {
    type V = Seq<Gene>;

    open spec fn view(&self) -> Seq<Gene> {
        self.genes@
    }
}

/// Same gene count, and the same trait identifier at each position.
pub open spec fn same_layout(a: Seq<Gene>, b: Seq<Gene>) -> bool {
    &&& a.len() == b.len()
    &&& forall|i: int| 0 <= i < a.len() ==> #[trigger] a[i].trait_id == b[i].trait_id
}

/// Every gene value lies in `0..=GENE_MAX`.
pub open spec fn genes_in_range(a: Seq<Gene>) -> bool {
    forall|i: int| 0 <= i < a.len() ==> #[trigger] a[i].value <= GENE_MAX
}

pub open spec fn clamp_gene(n: int) -> u32 {
    if n < 0 {
        0
    } else if n > GENE_MAX {
        GENE_MAX
    } else {
        n as u32
    }
}

/// A gene hit by mutation: its value moves by a step in `-100..=100` taken
/// from the draw, and is clamped to the gene's range.
pub open spec fn perturbed(g: Gene, r: u64) -> Gene {
    Gene { trait_id: g.trait_id, value: clamp_gene(g.value + ((r / PER_MILLE) % 201) - 100) }
}

/// The gene at `i` after mutation with probability `rate` per mille.
pub open spec fn mutated_gene(g: Gene, rate: u32, key: RngKey, i: int) -> Gene {
    let r = spec_draw(key, STREAM_MUTATE, i as u64);
    if r % PER_MILLE < rate {
        perturbed(g, r)
    } else {
        g
    }
}

pub open spec fn mutated(a: Seq<Gene>, rate: u32, key: RngKey) -> Seq<Gene> {
    Seq::new(a.len(), |i: int| mutated_gene(a[i], rate, key, i))
}

/// Uniform choice per gene: the first parent gives gene `i` when the draw
/// falls below `bias` per mille, the second otherwise.
pub open spec fn recombined(a: Seq<Gene>, b: Seq<Gene>, bias: u32, key: RngKey) -> Seq<Gene> {
    Seq::new(
        a.len(),
        |i: int|
            if spec_draw(key, STREAM_CROSS, i as u64) % PER_MILLE < bias {
                a[i]
            } else {
                Gene { trait_id: a[i].trait_id, value: b[i].value }
            },
    )
}

pub fn perturb(g: Gene, r: u64) -> (out: Gene)
    ensures
        out == perturbed(g, r),
{
    let n: u64 = g.value as u64 + (r / PER_MILLE) % 201;
    let v: u32 = if n < 100 {
        0
    } else if n - 100 > GENE_MAX as u64 {
        GENE_MAX
    } else {
        (n - 100) as u32
    };
    Gene { trait_id: g.trait_id, value: v }
}

impl Genome {
    pub fn new(genes: Vec<Gene>) -> (g: Genome)
        ensures
            g@ == genes@,
    {
        Genome { genes }
    }

    pub fn len(&self) -> (n: usize)
        ensures
            n == self@.len(),
    {
        self.genes.len()
    }

    /// The value of the gene at `i`.
    pub fn value(&self, i: usize) -> (v: u32)
        requires
            i < self@.len(),
        ensures
            v == self@[i as int].value,
    {
        self.genes[i].value
    }

    /// A gene-for-gene copy.
    pub fn copy(&self) -> (g: Genome)
        ensures
            g@ == self@,
    {
        let mut out: Vec<Gene> = Vec::new();
        let mut i: usize = 0;
        while i < self.genes.len()
            invariant
                i <= self.genes@.len(),
                out@ == self.genes@.subrange(0, i as int),
            decreases self.genes@.len() - i,
        {
            out.push(self.genes[i]);
            i += 1;
        }
        assert(out@ =~= self.genes@);
        Genome { genes: out }
    }

    /// Perturbs each gene independently with probability `rate` per mille.
    /// Gene count and trait identifiers never change.
    pub fn mutate(&self, rate: u32, key: RngKey) -> (g: Genome)
        ensures
            g@ == mutated(self@, rate, key),
    {
        let mut out: Vec<Gene> = Vec::new();
        let mut i: usize = 0;
        while i < self.genes.len()
            invariant
                i <= self.genes@.len(),
                out@.len() == i,
                forall|j: int| 0 <= j < i ==> out@[j] == mutated_gene(self@[j], rate, key, j),
            decreases self.genes@.len() - i,
        {
            let g = self.genes[i];
            let r = draw(key, STREAM_MUTATE, i as u64);
            let m = if r % PER_MILLE < rate as u64 {
                perturb(g, r)
            } else {
                g
            };
            out.push(m);
            i += 1;
        }
        assert(out@ =~= mutated(self@, rate, key));
        Genome { genes: out }
    }

    /// Combines two genomes of the same layout gene by gene, then mutates the
    /// result.
    pub fn crossover(a: &Genome, b: &Genome, bias: u32, rate: u32, key: RngKey) -> (g: Genome)
        requires
            same_layout(a@, b@),
        ensures
            g@ == mutated(recombined(a@, b@, bias, key), rate, key),
    {
        let mut out: Vec<Gene> = Vec::new();
        let mut i: usize = 0;
        while i < a.genes.len()
            invariant
                i <= a@.len(),
                same_layout(a@, b@),
                out@.len() == i,
                forall|j: int| 0 <= j < i ==> out@[j] == recombined(a@, b@, bias, key)[j],
            decreases a@.len() - i,
        {
            let ga = a.genes[i];
            let gb = b.genes[i];
            let g = if draw(key, STREAM_CROSS, i as u64) % PER_MILLE < bias as u64 {
                ga
            } else {
                Gene { trait_id: ga.trait_id, value: gb.value }
            };
            out.push(g);
            i += 1;
        }
        assert(out@ =~= recombined(a@, b@, bias, key));
        let mixed = Genome { genes: out };
        mixed.mutate(rate, key)
    }
}

/// Mutation keeps the layout, and keeps every value in range.
pub proof fn lemma_mutate_invariants(a: Seq<Gene>, rate: u32, key: RngKey)
    ensures
        same_layout(mutated(a, rate, key), a),
        genes_in_range(a) ==> genes_in_range(mutated(a, rate, key)),
{
}

/// Crossover followed by mutation gives a genome with the parents' layout,
/// whose values stay in range when the parents' do.
pub proof fn lemma_crossover_invariants(a: Seq<Gene>, b: Seq<Gene>, bias: u32, rate: u32, key: RngKey)
    requires
        same_layout(a, b),
    ensures
        same_layout(mutated(recombined(a, b, bias, key), rate, key), a),
        same_layout(mutated(recombined(a, b, bias, key), rate, key), b),
        genes_in_range(a) && genes_in_range(b) ==> genes_in_range(mutated(recombined(a, b, bias, key), rate, key)),
{
}

/// With rate zero, mutation leaves a genome as it is.
pub proof fn lemma_mutate_rate_zero(a: Seq<Gene>, key: RngKey)
    ensures
        mutated(a, 0, key) == a,
{
    assert(mutated(a, 0, key) =~= a);
}

} // verus!
