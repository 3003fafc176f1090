//! Organisms: a genome together with energy, age and position.

use vstd::prelude::*;
use crate::genome::{Gene, Genome};

verus! {

/// Trait identifier of the gene that sets how much an organism eats at once.
pub const TRAIT_APPETITE: u32 = 0;

/// Trait identifier of the gene that sets, per mille, how often an organism
/// wanders instead of seeking food.
pub const TRAIT_WANDER: u32 = 1;

/// Number of genes of the species template.
pub const GENE_COUNT: usize = 2;

/// The species template: one appetite gene, then one wander gene.
pub open spec fn species_layout(g: Seq<Gene>) -> bool {
    &&& g.len() == GENE_COUNT
    &&& g[0].trait_id == TRAIT_APPETITE
    &&& g[1].trait_id == TRAIT_WANDER
}

#[derive(Clone, Copy, Debug, PartialEq, Eq, Structural)]
pub enum Status {
    Alive,
    Dead,
}

#[derive(Debug)]
pub struct Organism {
    pub id: u64,
    pub genome: Genome,
    pub energy: u64,
    pub age: u64,
    pub x: u32,
    pub y: u32,
    /// The parent's identifier, a non-owning reference; `None` for the
    /// initial population.
    pub parent: Option<u64>,
}

/// What an organism is, as a mathematical value.
pub ghost struct OrganismModel {
    pub id: u64,
    pub genes: Seq<Gene>,
    pub energy: u64,
    pub age: u64,
    pub x: u32,
    pub y: u32,
    pub parent: Option<u64>,
}

impl View for Organism {
    type V = OrganismModel;

    open spec fn view(&self) -> OrganismModel {
        OrganismModel {
            id: self.id,
            genes: self.genome@,
            energy: self.energy,
            age: self.age,
            x: self.x,
            y: self.y,
            parent: self.parent,
        }
    }
}

pub open spec fn views(s: Seq<Organism>) -> Seq<OrganismModel> {
    s.map_values(|o: Organism| o@)
}

/// Energy left after paying `cost`; it never goes below zero.
pub open spec fn energy_after(energy: u64, cost: u64) -> u64 {
    if energy <= cost {
        0
    } else {
        (energy - cost) as u64
    }
}

/// The organism after one metabolism step.
pub open spec fn metabolized(o: OrganismModel, cost: u64) -> OrganismModel {
    OrganismModel { energy: energy_after(o.energy, cost), age: (o.age + 1) as u64, ..o }
}

impl Organism {
    /// A fresh copy, genome included.
    pub fn copy(&self) -> (o: Organism)
        ensures
            o@ == self@,
    {
        Organism {
            id: self.id,
            genome: self.genome.copy(),
            energy: self.energy,
            age: self.age,
            x: self.x,
            y: self.y,
            parent: self.parent,
        }
    }

    /// Pays the upkeep `cost` and grows one tick older; the organism starves,
    /// and is `Dead`, when no energy is left.
    pub fn metabolize(&mut self, cost: u64) -> (s: Status)
        requires
            old(self).age < u64::MAX,
        ensures
            final(self)@ == metabolized(old(self)@, cost),
            s == (if final(self).energy == 0 { Status::Dead } else { Status::Alive }),
    {
        self.energy = self.energy.saturating_sub(cost);
        self.age = self.age + 1;
        if self.energy == 0 {
            Status::Dead
        } else {
            Status::Alive
        }
    }
}

} // verus!
