use creature_sim::area::Area;
use creature_sim::behavior::{
    apply_move, apply_removal, claim_for_newborn, creature_logic, move_creature, new_creature,
    remove_creature, spawn_candidates, Rules,
};
use creature_sim::consistency::validate;
use creature_sim::creature::Creature;
use creature_sim::population::Population;
use creature_sim::setup::build;
use creature_sim::world::World;
use rand::rngs::StdRng;
use rand::SeedableRng;

fn bare(width: usize, height: usize) -> (World, Population) {
    let mut rng = StdRng::seed_from_u64(1);
    build(width, height, 0, &mut rng).unwrap()
}

fn place(world: &mut World, population: &mut Population, at: (usize, usize)) -> usize {
    let handle = population.adopt(Creature::new(at));
    world.set(at, Area { key_creature: Some(handle), vacant: false, param: 0 }).unwrap();
    handle
}

fn occupied(handle: usize) -> Area {
    Area { key_creature: Some(handle), vacant: false, param: 0 }
}

#[test]
fn removal_that_hits_marks_the_creature_and_vacates_its_cell() {
    let (mut world, mut population) = bare(3, 3);
    let a = place(&mut world, &mut population, (1, 1));
    let b = place(&mut world, &mut population, (2, 1));
    assert!(apply_removal(&mut world, &mut population, a, true));
    assert_eq!(population.get(a), Ok(Creature { key_area: (1, 1), to_remove: true, param: 0 }));
    assert_eq!(world.get((1, 1)), Ok(Area::new()));
    assert_eq!(population.get(b), Ok(Creature::new((2, 1))));
    assert_eq!(world.get((2, 1)), Ok(occupied(b)));
    assert_eq!(population.len(), 2);
}

#[test]
fn removal_that_misses_changes_nothing() {
    let (mut world, mut population) = bare(3, 3);
    let a = place(&mut world, &mut population, (1, 1));
    assert!(!apply_removal(&mut world, &mut population, a, false));
    assert_eq!(population.get(a), Ok(Creature::new((1, 1))));
    assert_eq!(world.get((1, 1)), Ok(occupied(a)));
}

#[test]
fn the_dead_are_not_removed_twice() {
    let (mut world, mut population) = bare(3, 3);
    let a = place(&mut world, &mut population, (1, 1));
    assert!(apply_removal(&mut world, &mut population, a, true));
    let b = place(&mut world, &mut population, (1, 1));
    assert!(!apply_removal(&mut world, &mut population, a, true));
    assert_eq!(world.get((1, 1)), Ok(occupied(b)));
}

#[test]
fn removal_keeps_the_payload_of_the_cell() {
    let (mut world, mut population) = bare(2, 2);
    let a = population.adopt(Creature { key_area: (0, 1), to_remove: false, param: 5 });
    world.set((0, 1), Area { key_creature: Some(a), vacant: false, param: 11 }).unwrap();
    assert!(apply_removal(&mut world, &mut population, a, true));
    assert_eq!(world.get((0, 1)), Ok(Area { key_creature: None, vacant: true, param: 11 }));
    assert_eq!(population.get(a), Ok(Creature { key_area: (0, 1), to_remove: true, param: 5 }));
}

#[test]
fn remove_creature_never_hits_at_zero_and_always_at_hundred() {
    let mut rng = StdRng::seed_from_u64(3);
    let never = Rules { removal_percent: 0, spawn_percent: 0 };
    let always = Rules { removal_percent: 100, spawn_percent: 0 };
    for _ in 0..50 {
        let (mut world, mut population) = bare(2, 2);
        let a = place(&mut world, &mut population, (0, 0));
        assert!(!remove_creature(&mut world, &mut population, a, &never, &mut rng));
        assert_eq!(population.get(a), Ok(Creature::new((0, 0))));
        assert!(remove_creature(&mut world, &mut population, a, &always, &mut rng));
        assert!(population.get(a).unwrap().to_remove);
        assert_eq!(world.get((0, 0)), Ok(Area::new()));
    }
}

#[test]
fn move_takes_the_first_vacant_option() {
    let (mut world, mut population) = bare(3, 3);
    let a = place(&mut world, &mut population, (1, 1));
    let b = place(&mut world, &mut population, (0, 1));
    let options = vec![(0, 1), (1, 2), (2, 1), (1, 1), (1, 0)];
    assert!(apply_move(&mut world, &mut population, a, &options));
    assert_eq!(population.get(a), Ok(Creature::new((1, 2))));
    assert_eq!(world.get((1, 2)), Ok(occupied(a)));
    assert_eq!(world.get((1, 1)), Ok(Area::new()));
    assert_eq!(world.get((0, 1)), Ok(occupied(b)));
    assert_eq!(world.get((2, 1)), Ok(Area::new()));
    assert_eq!(validate(&world, &population), Ok(()));
}

#[test]
fn move_passes_over_the_own_cell() {
    let (mut world, mut population) = bare(3, 3);
    let a = place(&mut world, &mut population, (1, 1));
    let b = place(&mut world, &mut population, (0, 1));
    let options = vec![(0, 1), (1, 1), (1, 2), (2, 1), (1, 0)];
    assert!(apply_move(&mut world, &mut population, a, &options));
    assert_eq!(population.get(a), Ok(Creature::new((1, 2))));
    assert_eq!(world.get((1, 2)), Ok(occupied(a)));
    assert_eq!(world.get((1, 1)), Ok(Area::new()));
    assert_eq!(world.get((2, 1)), Ok(Area::new()));
    assert_eq!(world.get((0, 1)), Ok(occupied(b)));
    assert_eq!(validate(&world, &population), Ok(()));
}

#[test]
fn move_with_the_own_cell_first_still_goes() {
    let (mut world, mut population) = bare(2, 1);
    let a = place(&mut world, &mut population, (0, 0));
    assert!(apply_move(&mut world, &mut population, a, &vec![(0, 0), (1, 0)]));
    assert_eq!(population.get(a), Ok(Creature::new((1, 0))));
    assert_eq!(world.get((0, 0)), Ok(Area::new()));
    assert_eq!(world.get((1, 0)), Ok(occupied(a)));
}

#[test]
fn move_without_a_vacant_option_stays() {
    let (mut world, mut population) = bare(2, 1);
    let a = place(&mut world, &mut population, (0, 0));
    let b = place(&mut world, &mut population, (1, 0));
    assert!(!apply_move(&mut world, &mut population, a, &vec![(1, 0), (0, 0)]));
    assert!(!apply_move(&mut world, &mut population, a, &vec![(1, 0)]));
    assert!(!apply_move(&mut world, &mut population, a, &vec![]));
    assert_eq!(population.get(a), Ok(Creature::new((0, 0))));
    assert_eq!(population.get(b), Ok(Creature::new((1, 0))));
}

#[test]
fn move_skips_reserved_cells() {
    let (mut world, mut population) = bare(3, 1);
    let a = place(&mut world, &mut population, (1, 0));
    world.set((0, 0), Area { key_creature: None, vacant: false, param: 0 }).unwrap();
    assert!(apply_move(&mut world, &mut population, a, &vec![(0, 0), (2, 0), (1, 0)]));
    assert_eq!(population.get(a), Ok(Creature::new((2, 0))));
    assert_eq!(world.get((0, 0)), Ok(Area { key_creature: None, vacant: false, param: 0 }));
}

#[test]
fn the_dead_do_not_move() {
    let (mut world, mut population) = bare(3, 3);
    let a = place(&mut world, &mut population, (1, 1));
    apply_removal(&mut world, &mut population, a, true);
    assert!(!apply_move(&mut world, &mut population, a, &vec![(1, 2), (1, 1)]));
    assert_eq!(population.get(a).unwrap().key_area, (1, 1));
    assert_eq!(world.get((1, 2)), Ok(Area::new()));
    let mut rng = StdRng::seed_from_u64(5);
    assert!(!move_creature(&mut world, &mut population, a, &mut rng));
}

#[test]
fn move_keeps_the_payloads() {
    let (mut world, mut population) = bare(2, 1);
    let a = population.adopt(Creature { key_area: (0, 0), to_remove: false, param: 4 });
    world.set((0, 0), Area { key_creature: Some(a), vacant: false, param: 6 }).unwrap();
    world.set((1, 0), Area { key_creature: None, vacant: true, param: 8 }).unwrap();
    assert!(apply_move(&mut world, &mut population, a, &vec![(1, 0), (0, 0)]));
    assert_eq!(population.get(a), Ok(Creature { key_area: (1, 0), to_remove: false, param: 4 }));
    assert_eq!(world.get((0, 0)), Ok(Area { key_creature: None, vacant: true, param: 6 }));
    assert_eq!(world.get((1, 0)), Ok(Area { key_creature: Some(a), vacant: false, param: 8 }));
}

#[test]
fn move_creature_always_takes_a_vacant_neighbour() {
    let mut rng = StdRng::seed_from_u64(11);
    let mut seen = Vec::new();
    for _ in 0..200 {
        let (mut world, mut population) = bare(3, 3);
        let a = place(&mut world, &mut population, (1, 1));
        let b = place(&mut world, &mut population, (1, 0));
        assert!(move_creature(&mut world, &mut population, a, &mut rng));
        let now = population.get(a).unwrap().key_area;
        assert!([(0, 1), (2, 1), (1, 2)].contains(&now));
        assert_eq!(world.get(now), Ok(occupied(a)));
        assert_eq!(world.get((1, 1)), Ok(Area::new()));
        assert_eq!(population.get(b), Ok(Creature::new((1, 0))));
        assert_eq!(validate(&world, &population), Ok(()));
        if !seen.contains(&now) {
            seen.push(now);
        }
    }
    assert_eq!(seen.len(), 3);
}

#[test]
fn a_hemmed_in_creature_stays() {
    let mut rng = StdRng::seed_from_u64(37);
    let (mut world, mut population) = bare(3, 3);
    let a = place(&mut world, &mut population, (0, 0));
    place(&mut world, &mut population, (1, 0));
    place(&mut world, &mut population, (0, 1));
    for _ in 0..25 {
        assert!(!move_creature(&mut world, &mut population, a, &mut rng));
        assert_eq!(population.get(a), Ok(Creature::new((0, 0))));
    }
    assert_eq!(world.get((1, 1)), Ok(Area::new()));
    assert_eq!(validate(&world, &population), Ok(()));
}

#[test]
fn nobody_moves_on_a_full_grid() {
    let mut rng = StdRng::seed_from_u64(13);
    let (mut world, mut population) = build(2, 2, 4, &mut rng).unwrap();
    for _ in 0..25 {
        for handle in population.handles() {
            let before = population.get(handle).unwrap();
            assert!(!move_creature(&mut world, &mut population, handle, &mut rng));
            assert_eq!(population.get(handle), Ok(before));
        }
    }
    assert_eq!(validate(&world, &population), Ok(()));
}

#[test]
fn spawn_candidates_are_the_vacant_neighbours_of_a_creature_with_company() {
    let (mut world, mut population) = bare(3, 3);
    let a = place(&mut world, &mut population, (1, 1));
    let b = place(&mut world, &mut population, (2, 1));
    assert_eq!(spawn_candidates(&world, &population, a), vec![(0, 1), (1, 0), (1, 2)]);
    assert_eq!(spawn_candidates(&world, &population, b), vec![(2, 0), (2, 2)]);
}

#[test]
fn a_creature_alone_has_no_spawn_candidates() {
    let (mut world, mut population) = bare(3, 3);
    let a = place(&mut world, &mut population, (1, 1));
    place(&mut world, &mut population, (0, 0));
    assert_eq!(spawn_candidates(&world, &population, a), vec![]);
}

#[test]
fn a_crowded_creature_has_no_spawn_candidates() {
    let (mut world, mut population) = bare(2, 1);
    let a = place(&mut world, &mut population, (0, 0));
    place(&mut world, &mut population, (1, 0));
    assert_eq!(spawn_candidates(&world, &population, a), vec![]);
}

#[test]
fn reserved_cells_are_neither_company_nor_candidates() {
    let (mut world, mut population) = bare(3, 1);
    let a = place(&mut world, &mut population, (1, 0));
    world.set((0, 0), Area { key_creature: None, vacant: false, param: 0 }).unwrap();
    assert_eq!(spawn_candidates(&world, &population, a), vec![]);
    place(&mut world, &mut population, (2, 0));
    assert_eq!(spawn_candidates(&world, &population, a), vec![]);
}

#[test]
fn the_dead_have_no_spawn_candidates() {
    let (mut world, mut population) = bare(3, 3);
    let a = place(&mut world, &mut population, (1, 1));
    place(&mut world, &mut population, (2, 1));
    apply_removal(&mut world, &mut population, a, true);
    assert_eq!(spawn_candidates(&world, &population, a), vec![]);
}

#[test]
fn claim_takes_a_vacant_cell_on_a_hit_only() {
    let (mut world, _) = bare(2, 2);
    assert!(!claim_for_newborn(&mut world, (0, 1), false));
    assert_eq!(world.get((0, 1)), Ok(Area::new()));
    assert!(claim_for_newborn(&mut world, (0, 1), true));
    assert_eq!(world.get((0, 1)), Ok(Area { key_creature: None, vacant: false, param: 0 }));
    assert!(!claim_for_newborn(&mut world, (0, 1), true));
    assert_eq!(world.get((0, 1)), Ok(Area { key_creature: None, vacant: false, param: 0 }));
    assert_eq!(world.get((0, 0)), Ok(Area::new()));
}

#[test]
fn new_creature_reserves_a_candidate_when_the_chance_is_certain() {
    let mut rng = StdRng::seed_from_u64(17);
    let rules = Rules { removal_percent: 0, spawn_percent: 100 };
    for _ in 0..50 {
        let (mut world, mut population) = bare(3, 3);
        let a = place(&mut world, &mut population, (1, 1));
        place(&mut world, &mut population, (2, 1));
        let at = new_creature(&mut world, &population, a, &rules, &mut rng).unwrap();
        assert!([(0, 1), (1, 0), (1, 2)].contains(&at));
        assert_eq!(world.get(at), Ok(Area { key_creature: None, vacant: false, param: 0 }));
        let reserved =
            world.coords().into_iter().filter(|c| !world.get(*c).unwrap().vacant).count();
        assert_eq!(reserved, 3);
    }
}

#[test]
fn new_creature_reserves_nothing_when_the_chance_is_nil() {
    let mut rng = StdRng::seed_from_u64(19);
    let rules = Rules { removal_percent: 0, spawn_percent: 0 };
    let (mut world, mut population) = bare(3, 3);
    let a = place(&mut world, &mut population, (1, 1));
    place(&mut world, &mut population, (2, 1));
    for _ in 0..50 {
        assert_eq!(new_creature(&mut world, &population, a, &rules, &mut rng), None);
    }
    assert_eq!(validate(&world, &population), Ok(()));
}

#[test]
fn new_creature_needs_company() {
    let mut rng = StdRng::seed_from_u64(23);
    let rules = Rules { removal_percent: 0, spawn_percent: 100 };
    let (mut world, mut population) = bare(3, 3);
    let a = place(&mut world, &mut population, (1, 1));
    assert_eq!(new_creature(&mut world, &population, a, &rules, &mut rng), None);
    assert_eq!(validate(&world, &population), Ok(()));
}

#[test]
fn a_turn_with_certain_death_does_nothing_else() {
    let mut rng = StdRng::seed_from_u64(29);
    let rules = Rules { removal_percent: 100, spawn_percent: 100 };
    let (mut world, mut population) = bare(3, 3);
    let a = place(&mut world, &mut population, (1, 1));
    place(&mut world, &mut population, (2, 1));
    let turn = creature_logic(&mut world, &mut population, a, &rules, &mut rng);
    assert!(turn.removed);
    assert!(!turn.moved);
    assert_eq!(turn.spawn, None);
    assert_eq!(population.get(a), Ok(Creature { key_area: (1, 1), to_remove: true, param: 0 }));
    assert_eq!(world.get((1, 1)), Ok(Area::new()));
}

#[test]
fn a_turn_reports_what_it_did() {
    let mut rng = StdRng::seed_from_u64(31);
    let rules = Rules { removal_percent: 30, spawn_percent: 50 };
    for _ in 0..300 {
        let (mut world, mut population) = bare(3, 3);
        let a = place(&mut world, &mut population, (1, 1));
        let b = place(&mut world, &mut population, (1, 0));
        let turn = creature_logic(&mut world, &mut population, a, &rules, &mut rng);
        let now = population.get(a).unwrap();
        assert_eq!(turn.removed, now.to_remove);
        assert_eq!(turn.moved, now.key_area != (1, 1));
        assert!(!(turn.removed && (turn.moved || turn.spawn.is_some())));
        assert_eq!(population.get(b), Ok(Creature::new((1, 0))));
        if let Some(at) = turn.spawn {
            let dx = if at.0 > now.key_area.0 { at.0 - now.key_area.0 } else { now.key_area.0 - at.0 };
            let dy = if at.1 > now.key_area.1 { at.1 - now.key_area.1 } else { now.key_area.1 - at.1 };
            assert_eq!(dx + dy, 1);
            assert_eq!(world.get(at), Ok(Area { key_creature: None, vacant: false, param: 0 }));
        }
        if !turn.removed {
            assert_eq!(world.get(now.key_area), Ok(occupied(a)));
        }
    }
}
