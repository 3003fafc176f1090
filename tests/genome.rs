use alienbio_sim::genome::{perturb, Gene, Genome, GENE_MAX};
use alienbio_sim::rng::{mix, roll, RngKey};

fn sample() -> Genome {
    Genome::new(vec![
        Gene { trait_id: 0, value: 10 },
        Gene { trait_id: 1, value: 500 },
        Gene { trait_id: 7, value: 990 },
    ])
}

fn other() -> Genome {
    Genome::new(vec![
        Gene { trait_id: 0, value: 800 },
        Gene { trait_id: 1, value: 1 },
        Gene { trait_id: 7, value: 333 },
    ])
}

fn key() -> RngKey {
    RngKey { seed: 42, tick: 3, id: 9 }
}

#[test]
fn splitmix_finalizer_known_value() {
    assert_eq!(mix(0x9e3779b97f4a7c15), 0xe220a8397b1dcdaf);
    assert_eq!(mix(0), 0);
}

#[test]
fn roll_is_per_mille_and_repeatable() {
    for i in 0..100u64 {
        let r = roll(key(), 2, i);
        assert!(r < 1000);
        assert_eq!(r, roll(key(), 2, i));
    }
}

#[test]
fn perturb_exact_values() {
    let g = Gene { trait_id: 4, value: 500 };
    assert_eq!(perturb(g, 150_000), Gene { trait_id: 4, value: 550 });
    assert_eq!(perturb(g, 0), Gene { trait_id: 4, value: 400 });
    assert_eq!(perturb(g, 100_000), g);
    assert_eq!(perturb(Gene { trait_id: 0, value: 10 }, 0).value, 0);
    assert_eq!(perturb(Gene { trait_id: 0, value: 990 }, 200_000).value, GENE_MAX);
}

#[test]
fn mutate_rate_zero_is_identity() {
    let g = sample();
    let m = g.mutate(0, key());
    assert_eq!(m.genes, g.genes);
}

#[test]
fn mutate_full_rate_keeps_layout_and_range() {
    let g = sample();
    for id in 0..50u64 {
        let m = g.mutate(1000, RngKey { seed: 1, tick: 2, id });
        assert_eq!(m.len(), g.len());
        for (a, b) in m.genes.iter().zip(g.genes.iter()) {
            assert_eq!(a.trait_id, b.trait_id);
            assert!(a.value <= GENE_MAX);
        }
    }
    let changed = (0..50u64).any(|id| g.mutate(1000, RngKey { seed: 1, tick: 2, id }).genes != g.genes);
    assert!(changed);
}

#[test]
fn crossover_bias_picks_parent() {
    let a = sample();
    let b = other();
    let all_a = Genome::crossover(&a, &b, 1000, 0, key());
    assert_eq!(all_a.genes, a.genes);
    let all_b = Genome::crossover(&a, &b, 0, 0, key());
    let values: Vec<u32> = all_b.genes.iter().map(|g| g.value).collect();
    assert_eq!(values, vec![800, 1, 333]);
    let ids: Vec<u32> = all_b.genes.iter().map(|g| g.trait_id).collect();
    assert_eq!(ids, vec![0, 1, 7]);
}

#[test]
fn crossover_then_mutation_keeps_layout() {
    let a = sample();
    let b = other();
    for id in 0..50u64 {
        let c = Genome::crossover(&a, &b, 500, 300, RngKey { seed: 5, tick: 1, id });
        assert_eq!(c.len(), 3);
        for (i, g) in c.genes.iter().enumerate() {
            assert_eq!(g.trait_id, a.genes[i].trait_id);
            assert!(g.value <= GENE_MAX);
        }
    }
}

#[test]
fn copy_and_value() {
    let g = sample();
    let c = g.copy();
    assert_eq!(c.genes, g.genes);
    assert_eq!(g.value(2), 990);
}
