use alienbio_sim::config::{Config, ConfigError, PartnerPolicy};
use alienbio_sim::genome::{Gene, Genome};
use alienbio_sim::organism::{Organism, Status};
use alienbio_sim::snapshot::{load, save};
use alienbio_sim::spatial::query_indices;
use alienbio_sim::world::World;

fn scenario() -> Config {
    Config::new(10, 10, 5, 50, 0, 42)
}

#[test]
fn config_errors_name_the_field() {
    let ok = scenario();
    assert_eq!(ok.validate(), Ok(()));
    let cases: Vec<(Config, ConfigError)> = vec![
        (Config { width: 0, ..ok }, ConfigError::ZeroWidth),
        (Config { height: 0, ..ok }, ConfigError::ZeroHeight),
        (Config { max_population: 0, ..ok }, ConfigError::ZeroMaxPopulation),
        (Config { initial_population: 51, ..ok }, ConfigError::InitialPopulationAboveMax),
        (Config { mutation_rate: 1001, ..ok }, ConfigError::MutationRateOutOfRange),
        (Config { crossover_bias: 1001, ..ok }, ConfigError::CrossoverBiasOutOfRange),
        (Config { max_age: 0, ..ok }, ConfigError::ZeroMaxAge),
        (Config { width: 0, height: 0, ..ok }, ConfigError::ZeroWidth),
    ];
    for (c, e) in cases {
        assert_eq!(c.validate(), Err(e));
        assert_eq!(World::create_world(c).err(), Some(e));
    }
    let edge = Config { mutation_rate: 1000, crossover_bias: 1000, initial_population: 50, ..ok };
    assert!(World::create_world(edge).is_ok());
}

#[test]
fn fresh_world_layout() {
    let w = World::create_world(scenario()).unwrap();
    assert_eq!(w.tick(), 0);
    assert_eq!(w.population(), 5);
    let s = w.snapshot();
    let ids: Vec<u64> = s.organisms.iter().map(|o| o.id).collect();
    assert_eq!(ids, vec![0, 1, 2, 3, 4]);
    for o in &s.organisms {
        assert!(o.x < 10 && o.y < 10);
        assert_eq!(o.energy, 40);
        assert_eq!(o.age, 0);
        assert!(o.appetite < 1000 && o.wander < 1000);
    }
    let grid = w.export_full_grid();
    assert_eq!(grid.len(), 100);
    assert!(grid.iter().all(|c| c.resource == 20 && c.capacity == 20));
    assert_eq!(s.total_resource, 2000);
}

#[test]
fn scenario_hundred_ticks_is_bounded_and_repeatable() {
    let mut a = World::create_world(scenario()).unwrap();
    let mut b = World::create_world(scenario()).unwrap();
    assert_eq!(a.step(100), Ok(()));
    assert_eq!(b.step(100), Ok(()));
    assert_eq!(a.tick(), 100);
    assert!(a.population() <= 50);
    assert_eq!(a.snapshot(), b.snapshot());
    assert_eq!(save(&a.snapshot()), save(&b.snapshot()));
}

#[test]
fn split_steps_equal_one_step() {
    let c = Config { mutation_rate: 200, ..scenario() };
    let mut a = World::create_world(c).unwrap();
    let mut b = World::create_world(c).unwrap();
    a.step(30).unwrap();
    a.step(45).unwrap();
    b.step(75).unwrap();
    assert_eq!(a.snapshot(), b.snapshot());
    assert_eq!(a.export_full_grid(), b.export_full_grid());
}

#[test]
fn step_zero_changes_nothing() {
    let mut a = World::create_world(scenario()).unwrap();
    let before = a.snapshot();
    a.step(0).unwrap();
    assert_eq!(a.snapshot(), before);
}

#[test]
fn bounds_hold_over_many_ticks() {
    let c = Config {
        max_population: 12,
        initial_population: 6,
        reproduction_threshold: 20,
        reproduction_cost: 10,
        resource_regen_rate: 50,
        resource_cap: 200,
        mutation_rate: 1000,
        partner_policy: PartnerPolicy::NearestPartner,
        ..scenario()
    };
    let mut w = World::create_world(c).unwrap();
    let mut grew = false;
    for _ in 0..40 {
        w.step(1).unwrap();
        let s = w.snapshot();
        assert!(s.organisms.len() <= 12);
        if s.organisms.len() > 6 {
            grew = true;
        }
        for o in &s.organisms {
            assert!(o.x < 10 && o.y < 10);
            assert!(o.age <= c.max_age as u64);
            assert!(o.appetite <= 1000 && o.wander <= 1000);
        }
        for pair in s.organisms.windows(2) {
            assert!(pair[0].id < pair[1].id);
        }
        assert!(w.export_full_grid().iter().all(|cell| cell.resource <= cell.capacity));
    }
    assert!(grew);
}

#[test]
fn self_crossover_policy_runs() {
    let c = Config { partner_policy: PartnerPolicy::SelfCrossover, reproduction_threshold: 10, ..scenario() };
    let mut w = World::create_world(c).unwrap();
    let mut most = 0;
    for _ in 0..20 {
        w.step(1).unwrap();
        assert!(w.population() <= 50);
        most = most.max(w.population());
    }
    assert!(most > 5);
}

#[test]
fn age_limit_removes_everyone() {
    let c = Config { max_age: 3, metabolism_cost: 0, reproduction_threshold: u64::MAX, ..scenario() };
    let mut w = World::create_world(c).unwrap();
    w.step(3).unwrap();
    assert_eq!(w.population(), 5);
    w.step(1).unwrap();
    assert_eq!(w.population(), 0);
}

#[test]
fn metabolize_to_zero_is_dead() {
    let mut o = Organism {
        id: 7,
        genome: Genome::new(vec![Gene { trait_id: 0, value: 5 }, Gene { trait_id: 1, value: 0 }]),
        energy: 3,
        age: 4,
        x: 2,
        y: 2,
        parent: None,
    };
    assert_eq!(o.metabolize(3), Status::Dead);
    assert_eq!(o.energy, 0);
    assert_eq!(o.age, 5);
    let mut p = o.copy();
    p.energy = 10;
    assert_eq!(p.metabolize(3), Status::Alive);
    assert_eq!(p.energy, 7);
}

#[test]
fn starved_organisms_vanish_and_leave_cells_alone() {
    let c = Config { metabolism_cost: 40, ..scenario() };
    let mut w = World::create_world(c).unwrap();
    let before = w.export_full_grid();
    w.step(1).unwrap();
    assert_eq!(w.population(), 0);
    assert!(w.snapshot().organisms.is_empty());
    assert_eq!(w.export_full_grid(), before);
}

#[test]
fn feeding_moves_resource_into_energy() {
    let c = Config { metabolism_cost: 1, reproduction_threshold: u64::MAX, ..scenario() };
    let mut w = World::create_world(c).unwrap();
    let full = w.snapshot().total_resource;
    let appetites: u64 = w.snapshot().organisms.iter().filter(|o| o.appetite <= 20).map(|o| o.appetite as u64).sum();
    w.step(1).unwrap();
    let s = w.snapshot();
    assert_eq!(s.total_resource, full - appetites);
}

fn organism(id: u64, x: u32, y: u32) -> Organism {
    Organism {
        id,
        genome: Genome::new(vec![Gene { trait_id: 0, value: 1 }, Gene { trait_id: 1, value: 1 }]),
        energy: 1,
        age: 0,
        x,
        y,
        parent: None,
    }
}

#[test]
fn query_orders_by_distance_then_index() {
    let orgs = vec![
        organism(1, 5, 5),
        organism(2, 3, 3),
        organism(3, 4, 5),
        organism(4, 9, 9),
        organism(5, 6, 4),
        organism(6, 4, 4),
    ];
    assert_eq!(query_indices(&orgs, 4, 4, 1), vec![5, 0, 1, 2]);
    assert_eq!(query_indices(&orgs, 4, 4, 0), vec![5]);
    assert_eq!(query_indices(&orgs, 4, 4, 2), vec![5, 0, 1, 2, 4]);
    assert_eq!(query_indices(&orgs, 4, 4, u32::MAX), vec![5, 0, 1, 2, 4, 3]);
    assert_eq!(query_indices(&Vec::new(), 0, 0, 3), Vec::<usize>::new());
}

#[test]
fn world_query_matches_snapshot_order() {
    let w = World::create_world(Config { initial_population: 20, ..scenario() }).unwrap();
    let s = w.snapshot();
    let got = w.query_radius(5, 5, 3);
    let dist = |x: u32, y: u32| (x as i64 - 5).abs().max((y as i64 - 5).abs());
    let mut want: Vec<_> = s.organisms.iter().filter(|o| dist(o.x, o.y) <= 3).copied().collect();
    want.sort_by_key(|o| (dist(o.x, o.y), o.id));
    assert_eq!(got, want);
}

#[test]
fn snapshot_round_trip_after_steps() {
    let mut w = World::create_world(Config { mutation_rate: 100, ..scenario() }).unwrap();
    for _ in 0..5 {
        w.step(7).unwrap();
        let s = w.snapshot();
        let bytes = save(&s);
        assert_eq!(bytes.len(), 32 + 56 * s.organisms.len());
        assert_eq!(load(&bytes), Ok(s));
    }
}

#[test]
fn snapshot_is_a_copy() {
    let mut w = World::create_world(scenario()).unwrap();
    let s = w.snapshot();
    let kept = save(&s);
    w.step(10).unwrap();
    assert_eq!(save(&s), kept);
    assert_eq!(s.tick, 0);
}
