use creature_sim::area::Area;
use creature_sim::behavior::Rules;
use creature_sim::consistency::validate;
use creature_sim::creature::Creature;
use creature_sim::error::SimError;
use creature_sim::population::Population;
use creature_sim::scheduler::{
    advance, place_spawned, ready, run_chunk, run_turns, split_chunks, try_advance,
};
use creature_sim::setup::{build, fill_world_population, place_population};
use creature_sim::store::{TAreas, TCreatures};
use creature_sim::world::World;
use rand::rngs::StdRng;
use rand::SeedableRng;

fn snapshot(world: &World, population: &Population) -> (Vec<Area>, Vec<(usize, Creature)>, Vec<usize>) {
    let cells = world.coords().into_iter().map(|at| world.get(at).unwrap()).collect();
    let creatures =
        population.handles().into_iter().map(|h| (h, population.get(h).unwrap())).collect();
    (cells, creatures, population.free_keys.clone())
}

#[test]
fn build_places_the_population_on_cells_of_their_own() {
    let mut rng = StdRng::seed_from_u64(2);
    let (world, population) = build(4, 3, 7, &mut rng).unwrap();
    assert_eq!(world.size_x, 4);
    assert_eq!(world.size_y, 3);
    assert_eq!(world.coords().len(), 12);
    assert_eq!(population.handles(), vec![0, 1, 2, 3, 4, 5, 6]);
    assert!(population.free_keys.is_empty());
    assert_eq!(validate(&world, &population), Ok(()));
    assert!(ready(&world, &population));
    for handle in population.handles() {
        let creature = population.get(handle).unwrap();
        assert_eq!(creature, Creature::new(creature.key_area));
        assert_eq!(
            world.get(creature.key_area),
            Ok(Area { key_creature: Some(handle), vacant: false, param: 0 })
        );
    }
    let vacant = world.coords().into_iter().filter(|c| world.get(*c) == Ok(Area::new())).count();
    assert_eq!(vacant, 5);
}

#[test]
fn build_refuses_more_creatures_than_cells() {
    let mut rng = StdRng::seed_from_u64(2);
    assert_eq!(build(2, 2, 5, &mut rng).err(), Some(SimError::PopulationExceedsCapacity));
    assert_eq!(build(0, 3, 1, &mut rng).err(), Some(SimError::PopulationExceedsCapacity));
    assert!(build(2, 2, 4, &mut rng).is_ok());
    assert!(build(0, 0, 0, &mut rng).is_ok());
}

#[test]
fn build_picks_the_cells_at_random() {
    let mut rng = StdRng::seed_from_u64(2);
    let mut off_the_front = false;
    for _ in 0..20 {
        let (world, population) = build(10, 10, 3, &mut rng).unwrap();
        let front = &world.coords()[..3];
        for handle in population.handles() {
            if !front.contains(&population.get(handle).unwrap().key_area) {
                off_the_front = true;
            }
        }
    }
    assert!(off_the_front);
}

#[test]
fn fill_world_population_fills_what_it_is_given() {
    let mut rng = StdRng::seed_from_u64(4);
    let mut world = World::new(TAreas::default());
    let mut population = Population::new(TCreatures::default());
    fill_world_population(&mut world, &mut population, (3, 2), 6, &mut rng);
    assert_eq!(world.coords(), vec![(0, 0), (0, 1), (1, 0), (1, 1), (2, 0), (2, 1)]);
    assert_eq!(population.len(), 6);
    assert_eq!(validate(&world, &population), Ok(()));
    for at in world.coords() {
        assert!(world.get(at).unwrap().key_creature.is_some());
    }
}

#[test]
fn split_chunks_deals_out_in_order() {
    assert_eq!(split_chunks(&vec![5, 6, 7, 8, 9], 2), vec![vec![5, 6], vec![7, 8], vec![9]]);
    assert_eq!(split_chunks(&vec![5, 6, 7, 8], 2), vec![vec![5, 6], vec![7, 8]]);
    assert_eq!(split_chunks(&vec![5, 6, 7], 5), vec![vec![5, 6, 7]]);
    assert_eq!(split_chunks(&vec![5, 6, 7], 1), vec![vec![5], vec![6], vec![7]]);
    assert_eq!(split_chunks(&vec![], 3), Vec::<Vec<usize>>::new());
    assert_eq!(split_chunks(&vec![1, 2], usize::MAX), vec![vec![1, 2]]);
}

#[test]
fn movement_only_tick_keeps_population_and_consistency() {
    let mut rng = StdRng::seed_from_u64(7);
    let (mut world, mut population) = build(4, 4, 5, &mut rng).unwrap();
    assert_eq!(population.len(), 5);
    assert_eq!(validate(&world, &population), Ok(()));
    let rules = Rules { removal_percent: 0, spawn_percent: 0 };
    let stats = advance(&mut world, &mut population, 2, &rules, &mut rng);
    assert_eq!(stats.removed, 0);
    assert_eq!(stats.spawned, 0);
    assert_eq!(stats.chunks, 3);
    assert_eq!(population.len(), 5);
    assert_eq!(population.handles(), vec![0, 1, 2, 3, 4]);
    assert!(population.free_keys.is_empty());
    let taken = world.coords().into_iter().filter(|c| !world.get(*c).unwrap().vacant).count();
    assert_eq!(taken, 5);
    assert_eq!(validate(&world, &population), Ok(()));
}

#[test]
fn a_lone_creature_moves_in_every_tick_it_survives() {
    let mut rng = StdRng::seed_from_u64(26);
    let (mut world, mut population) = build(3, 3, 1, &mut rng).unwrap();
    let rules = Rules { removal_percent: 0, spawn_percent: 100 };
    for _ in 0..20 {
        let was = population.get(0).unwrap().key_area;
        let stats = advance(&mut world, &mut population, 1, &rules, &mut rng);
        assert_eq!((stats.removed, stats.spawned, stats.moved, stats.chunks), (0, 0, 1, 1));
        let is = population.get(0).unwrap().key_area;
        let dx = if is.0 > was.0 { is.0 - was.0 } else { was.0 - is.0 };
        let dy = if is.1 > was.1 { is.1 - was.1 } else { was.1 - is.1 };
        assert_eq!(dx + dy, 1);
    }
}

#[test]
fn the_handles_given_out_never_become_fewer() {
    let mut rng = StdRng::seed_from_u64(27);
    let (mut world, mut population) = build(6, 6, 12, &mut rng).unwrap();
    let rules = Rules { removal_percent: 30, spawn_percent: 60 };
    for _ in 0..40 {
        let walked = population.handles();
        let free = population.free_keys.clone();
        let span = walked.len() + free.len();
        let stats = advance(&mut world, &mut population, 5, &rules, &mut rng);
        assert!(population.handles().len() + population.free_keys.len() >= span);
        let survivors: Vec<usize> =
            walked.iter().copied().filter(|h| population.handles().contains(h)).collect();
        if stats.spawned == 0 {
            assert_eq!(population.handles(), survivors);
            let dead: Vec<usize> = walked.iter().copied().filter(|h| !survivors.contains(h)).collect();
            assert_eq!(population.free_keys, [free, dead].concat());
        }
        assert!(ready(&world, &population));
    }
}

#[test]
fn run_turns_gives_every_listed_creature_one_turn() {
    let mut rng = StdRng::seed_from_u64(28);
    let (mut world, mut population) = build(5, 5, 9, &mut rng).unwrap();
    let rules = Rules { removal_percent: 100, spawn_percent: 100 };
    let keys = vec![8, 1, 4, 6, 0];
    let (pending, tally, chunks) =
        run_turns(&mut world, &mut population, &keys, 2, &rules, &mut rng);
    assert!(pending.is_empty());
    assert_eq!((tally.removed, tally.moved, chunks), (5, 0, 3));
    for handle in population.handles() {
        assert_eq!(population.get(handle).unwrap().to_remove, keys.contains(&handle));
    }
    assert_eq!(population.handles(), vec![0, 1, 2, 3, 4, 5, 6, 7, 8]);
}

#[test]
fn run_turns_moves_whoever_can() {
    let mut rng = StdRng::seed_from_u64(30);
    let (mut world, mut population) = build(3, 1, 0, &mut rng).unwrap();
    place_population(&mut world, &mut population, &vec![(0, 0), (1, 0)], 2);
    let rules = Rules { removal_percent: 0, spawn_percent: 0 };
    let (pending, tally, chunks) =
        run_turns(&mut world, &mut population, &vec![0, 1], 5, &rules, &mut rng);
    assert!(pending.is_empty());
    assert_eq!((tally.removed, tally.moved, chunks), (0, 1, 1));
    assert_eq!(population.get(0), Ok(Creature::new((0, 0))));
    assert_eq!(population.get(1), Ok(Creature::new((2, 0))));
    assert_eq!(validate(&world, &population), Ok(()));
}

#[test]
fn place_population_puts_each_creature_on_its_cell() {
    let mut rng = StdRng::seed_from_u64(32);
    let (mut world, mut population) = build(2, 2, 0, &mut rng).unwrap();
    world.set((0, 1), Area { key_creature: None, vacant: true, param: 7 }).unwrap();
    let keys = vec![(1, 1), (0, 1), (0, 0)];
    place_population(&mut world, &mut population, &keys, 2);
    assert_eq!(population.handles(), vec![0, 1]);
    assert!(population.free_keys.is_empty());
    assert_eq!(population.get(0), Ok(Creature::new((1, 1))));
    assert_eq!(population.get(1), Ok(Creature::new((0, 1))));
    assert_eq!(world.get((1, 1)), Ok(Area { key_creature: Some(0), vacant: false, param: 0 }));
    assert_eq!(world.get((0, 1)), Ok(Area { key_creature: Some(1), vacant: false, param: 7 }));
    assert_eq!(world.get((0, 0)), Ok(Area::new()));
    assert_eq!(world.get((1, 0)), Ok(Area::new()));
    assert_eq!(validate(&world, &population), Ok(()));
}

#[test]
fn an_empty_world_and_population_can_be_filled() {
    let mut rng = StdRng::seed_from_u64(34);
    let mut world = World::empty();
    let mut population = Population::empty();
    assert_eq!((world.size_x, world.size_y), (0, 0));
    assert_eq!(world.coords(), vec![]);
    assert_eq!(population.handles(), vec![]);
    assert!(population.free_keys.is_empty());
    fill_world_population(&mut world, &mut population, (2, 2), 3, &mut rng);
    assert_eq!(world.coords(), vec![(0, 0), (0, 1), (1, 0), (1, 1)]);
    assert_eq!(population.handles(), vec![0, 1, 2]);
    assert_eq!(validate(&world, &population), Ok(()));
}

#[test]
fn full_grid_without_deaths_stands_still() {
    let mut rng = StdRng::seed_from_u64(8);
    let (mut world, mut population) = build(2, 2, 4, &mut rng).unwrap();
    let before = snapshot(&world, &population);
    for spawn_percent in [0, 10, 100] {
        let rules = Rules { removal_percent: 0, spawn_percent };
        let stats = advance(&mut world, &mut population, 3, &rules, &mut rng);
        assert_eq!((stats.removed, stats.spawned, stats.moved, stats.chunks), (0, 0, 0, 2));
        assert_eq!(snapshot(&world, &population), before);
    }
}

#[test]
fn certain_death_empties_the_world() {
    let mut rng = StdRng::seed_from_u64(9);
    let (mut world, mut population) = build(3, 3, 6, &mut rng).unwrap();
    let rules = Rules { removal_percent: 100, spawn_percent: 100 };
    let stats = advance(&mut world, &mut population, 4, &rules, &mut rng);
    assert_eq!((stats.removed, stats.spawned, stats.moved, stats.chunks), (6, 0, 0, 2));
    assert_eq!(population.len(), 0);
    assert_eq!(population.free_keys, vec![0, 1, 2, 3, 4, 5]);
    for at in world.coords() {
        assert_eq!(world.get(at), Ok(Area::new()));
    }
    assert_eq!(validate(&world, &population), Ok(()));
    assert!(ready(&world, &population));
}

#[test]
fn every_tick_keeps_the_state_consistent() {
    let mut rng = StdRng::seed_from_u64(10);
    let (mut world, mut population) = build(8, 6, 20, &mut rng).unwrap();
    let rules = Rules { removal_percent: 10, spawn_percent: 60 };
    for _ in 0..60 {
        advance(&mut world, &mut population, 7, &rules, &mut rng);
        assert_eq!(validate(&world, &population), Ok(()));
        assert!(ready(&world, &population));
        let taken = world.coords().into_iter().filter(|c| !world.get(*c).unwrap().vacant).count();
        assert_eq!(taken, population.len());
    }
}

#[test]
fn population_changes_by_births_less_deaths() {
    let mut rng = StdRng::seed_from_u64(12);
    let (mut world, mut population) = build(8, 8, 30, &mut rng).unwrap();
    let rules = Rules { removal_percent: 20, spawn_percent: 70 };
    let mut births = 0;
    let mut deaths = 0;
    for _ in 0..40 {
        let before = population.len();
        let stats = advance(&mut world, &mut population, 4, &rules, &mut rng);
        assert_eq!(population.len() + stats.removed, before + stats.spawned);
        assert_eq!(stats.chunks, (before + 3) / 4);
        births += stats.spawned;
        deaths += stats.removed;
    }
    assert!(births > 0 && deaths > 0);
}

#[test]
fn no_two_creatures_share_a_cell_after_a_tick() {
    let mut rng = StdRng::seed_from_u64(14);
    let (mut world, mut population) = build(5, 5, 15, &mut rng).unwrap();
    let rules = Rules { removal_percent: 10, spawn_percent: 80 };
    for _ in 0..30 {
        advance(&mut world, &mut population, 5, &rules, &mut rng);
        let mut stood: Vec<(usize, usize)> = population
            .handles()
            .into_iter()
            .map(|h| population.get(h).unwrap().key_area)
            .collect();
        let all = stood.len();
        stood.sort();
        stood.dedup();
        assert_eq!(stood.len(), all);
        for at in stood {
            assert!(at.0 < 5 && at.1 < 5);
        }
    }
}

#[test]
fn survivors_stay_within_one_step() {
    let mut rng = StdRng::seed_from_u64(15);
    let (mut world, mut population) = build(6, 6, 12, &mut rng).unwrap();
    let rules = Rules { removal_percent: 0, spawn_percent: 30 };
    for _ in 0..30 {
        let before = snapshot(&world, &population).1;
        let stats = advance(&mut world, &mut population, 5, &rules, &mut rng);
        let mut moved = 0;
        for (handle, was) in before {
            let is = population.get(handle).unwrap();
            let dx = if is.key_area.0 > was.key_area.0 {
                is.key_area.0 - was.key_area.0
            } else {
                was.key_area.0 - is.key_area.0
            };
            let dy = if is.key_area.1 > was.key_area.1 {
                is.key_area.1 - was.key_area.1
            } else {
                was.key_area.1 - is.key_area.1
            };
            assert!(dx + dy <= 1);
            if dx + dy == 1 {
                moved += 1;
            }
        }
        assert_eq!(stats.moved, moved);
    }
}

#[test]
fn a_seed_fixes_the_whole_run() {
    let mut runs = Vec::new();
    for _ in 0..3 {
        let mut rng = StdRng::seed_from_u64(99);
        let (mut world, mut population) = build(7, 5, 14, &mut rng).unwrap();
        let rules = Rules::default();
        let stats = advance(&mut world, &mut population, 4, &rules, &mut rng);
        runs.push((stats, snapshot(&world, &population)));
    }
    assert_eq!(runs[0], runs[1]);
    assert_eq!(runs[1], runs[2]);
}

#[test]
fn run_chunk_lets_only_its_creatures_take_a_turn() {
    let mut rng = StdRng::seed_from_u64(16);
    let (mut world, mut population) = build(5, 5, 10, &mut rng).unwrap();
    let rules = Rules { removal_percent: 100, spawn_percent: 0 };
    let mut pending = Vec::new();
    let tally = run_chunk(&mut world, &mut population, &vec![2, 5, 7], &rules, &mut rng, &mut pending);
    assert_eq!(tally.removed, 3);
    assert_eq!(tally.moved, 0);
    assert!(pending.is_empty());
    for handle in population.handles() {
        assert_eq!(population.get(handle).unwrap().to_remove, [2, 5, 7].contains(&handle));
    }
}

#[test]
fn place_spawned_gives_the_newborn_handles_and_cells() {
    let mut rng = StdRng::seed_from_u64(18);
    let (mut world, mut population) = build(3, 1, 0, &mut rng).unwrap();
    for i in 0..2 {
        population.adopt(Creature { key_area: (i, 0), to_remove: i == 0, param: 0 });
    }
    world.set((1, 0), Area { key_creature: Some(1), vacant: false, param: 0 }).unwrap();
    population.remove_marked();
    world.set((0, 0), Area { key_creature: None, vacant: false, param: 3 }).unwrap();
    world.set((2, 0), Area { key_creature: None, vacant: false, param: 4 }).unwrap();
    assert_eq!(place_spawned(&mut world, &mut population, vec![(0, 0), (2, 0)]), 2);
    assert_eq!(population.handles(), vec![1, 0, 2]);
    assert_eq!(population.get(0), Ok(Creature::new((2, 0))));
    assert_eq!(population.get(2), Ok(Creature::new((0, 0))));
    assert_eq!(world.get((2, 0)), Ok(Area { key_creature: Some(0), vacant: false, param: 4 }));
    assert_eq!(world.get((0, 0)), Ok(Area { key_creature: Some(2), vacant: false, param: 3 }));
    assert_eq!(validate(&world, &population), Ok(()));
}

#[test]
fn try_advance_runs_a_tick_on_a_sound_state() {
    let mut rng = StdRng::seed_from_u64(20);
    let (mut world, mut population) = build(4, 4, 5, &mut rng).unwrap();
    let rules = Rules { removal_percent: 100, spawn_percent: 0 };
    let stats = try_advance(&mut world, &mut population, 5, &rules, &mut rng).unwrap();
    assert_eq!(stats.removed, 5);
    assert_eq!(stats.chunks, 1);
    assert_eq!(population.len(), 0);
}

#[test]
fn try_advance_refuses_a_broken_state() {
    let mut rng = StdRng::seed_from_u64(21);
    let (mut world, mut population) = build(4, 4, 5, &mut rng).unwrap();
    let rules = Rules::default();
    let at = population.get(0).unwrap().key_area;
    world.set(at, Area::new()).unwrap();
    let before = snapshot(&world, &population);
    assert!(!ready(&world, &population));
    assert_eq!(
        try_advance(&mut world, &mut population, 2, &rules, &mut rng),
        Err(SimError::InvariantBroken)
    );
    assert_eq!(snapshot(&world, &population), before);
}

#[test]
fn try_advance_refuses_bad_settings() {
    let mut rng = StdRng::seed_from_u64(22);
    let (mut world, mut population) = build(4, 4, 5, &mut rng).unwrap();
    let before = snapshot(&world, &population);
    assert_eq!(
        try_advance(&mut world, &mut population, 0, &Rules::default(), &mut rng),
        Err(SimError::InvariantBroken)
    );
    let wild = Rules { removal_percent: 101, spawn_percent: 0 };
    assert_eq!(
        try_advance(&mut world, &mut population, 2, &wild, &mut rng),
        Err(SimError::InvariantBroken)
    );
    let wilder = Rules { removal_percent: 0, spawn_percent: 200 };
    assert_eq!(
        try_advance(&mut world, &mut population, 2, &wilder, &mut rng),
        Err(SimError::InvariantBroken)
    );
    assert_eq!(snapshot(&world, &population), before);
}

#[test]
fn try_advance_refuses_a_population_with_stray_handles() {
    let mut rng = StdRng::seed_from_u64(24);
    let (mut world, _) = build(2, 2, 0, &mut rng).unwrap();
    let mut population = Population::new(TCreatures::default());
    population.insert(3, Creature::new((0, 0))).unwrap();
    world.set((0, 0), Area { key_creature: Some(3), vacant: false, param: 0 }).unwrap();
    assert_eq!(validate(&world, &population), Ok(()));
    assert!(!ready(&world, &population));
    assert_eq!(
        try_advance(&mut world, &mut population, 2, &Rules::default(), &mut rng),
        Err(SimError::InvariantBroken)
    );
}
