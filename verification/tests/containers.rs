use creature_sim::area::Area;
use creature_sim::creature::Creature;
use creature_sim::error::SimError;
use creature_sim::population::Population;
use creature_sim::setup::build;
use creature_sim::store::{TAreas, TCreatures};
use creature_sim::world::World;
use rand::rngs::StdRng;
use rand::SeedableRng;

fn bare(width: usize, height: usize) -> (World, Population) {
    let mut rng = StdRng::seed_from_u64(1);
    build(width, height, 0, &mut rng).unwrap()
}

#[test]
fn world_new_has_no_extent() {
    let world = World::new(TAreas::default());
    assert_eq!(world.size_x, 0);
    assert_eq!(world.size_y, 0);
    assert_eq!(world.coords(), vec![]);
    assert!(world.well_formed());
    assert_eq!(world.get((0, 0)), Err(SimError::OutOfBounds));
}

#[test]
fn population_new_is_empty() {
    let population = Population::new(TCreatures::default());
    assert_eq!(population.len(), 0);
    assert_eq!(population.handles(), vec![]);
    assert!(population.free_keys.is_empty());
    assert!(population.well_formed());
}

#[test]
fn world_walks_its_cells_column_by_column() {
    let (world, _) = bare(2, 3);
    assert_eq!(world.coords(), vec![(0, 0), (0, 1), (0, 2), (1, 0), (1, 1), (1, 2)]);
    assert_eq!(world.size_x, 2);
    assert_eq!(world.size_y, 3);
    assert!(world.well_formed());
}

#[test]
fn world_get_reads_what_set_wrote() {
    let (mut world, _) = bare(2, 2);
    assert_eq!(world.get((1, 0)), Ok(Area::new()));
    let taken = Area { key_creature: Some(7), vacant: false, param: 3 };
    assert_eq!(world.set((1, 0), taken), Ok(()));
    assert_eq!(world.get((1, 0)), Ok(taken));
    assert_eq!(world.get((0, 0)), Ok(Area::new()));
    assert_eq!(world.coords(), vec![(0, 0), (0, 1), (1, 0), (1, 1)]);
}

#[test]
fn world_refuses_coordinates_off_the_grid() {
    let (mut world, _) = bare(2, 3);
    assert_eq!(world.get((2, 0)), Err(SimError::OutOfBounds));
    assert_eq!(world.get((0, 3)), Err(SimError::OutOfBounds));
    assert_eq!(world.set((2, 2), Area::new()), Err(SimError::OutOfBounds));
    assert_eq!(world.neighbors((5, 5)), Err(SimError::OutOfBounds));
    assert_eq!(world.coords().len(), 6);
}

#[test]
fn world_neighbors_follow_its_extent() {
    let (world, _) = bare(2, 3);
    assert_eq!(world.neighbors((1, 2)), Ok(vec![(0, 2), (1, 1)]));
    assert_eq!(world.neighbors((0, 1)), Ok(vec![(1, 1), (0, 0), (0, 2)]));
}

#[test]
fn world_with_a_missing_cell_is_not_well_formed() {
    let (built, _) = bare(2, 2);
    let mut areas = TAreas::default();
    for at in built.coords() {
        if at != (1, 1) {
            areas.insert(at, Area::new());
        }
    }
    let world = World { size_x: 2, size_y: 2, areas };
    assert!(!world.well_formed());
}

#[test]
fn world_with_a_cell_off_the_grid_is_not_well_formed() {
    let mut areas = TAreas::default();
    areas.insert((0, 0), Area::new());
    areas.insert((0, 1), Area::new());
    let world = World { size_x: 1, size_y: 1, areas };
    assert!(!world.well_formed());
}

#[test]
fn population_get_finds_what_insert_stored() {
    let mut population = Population::new(TCreatures::default());
    assert_eq!(population.insert(4, Creature::new((1, 2))), Ok(()));
    assert_eq!(population.insert(2, Creature::new((0, 0))), Ok(()));
    assert_eq!(population.get(4), Ok(Creature::new((1, 2))));
    assert_eq!(population.get(2), Ok(Creature::new((0, 0))));
    assert_eq!(population.len(), 2);
    assert_eq!(population.handles(), vec![4, 2]);
}

#[test]
fn population_get_refuses_unknown_handles() {
    let mut population = Population::new(TCreatures::default());
    assert_eq!(population.get(0), Err(SimError::UnknownHandle));
    population.insert(0, Creature::new((0, 0))).unwrap();
    assert_eq!(population.get(1), Err(SimError::UnknownHandle));
}

#[test]
fn population_insert_refuses_duplicates() {
    let mut population = Population::new(TCreatures::default());
    population.insert(3, Creature::new((0, 0))).unwrap();
    assert_eq!(population.insert(3, Creature::new((1, 1))), Err(SimError::DuplicateHandle));
    assert_eq!(population.get(3), Ok(Creature::new((0, 0))));
    assert_eq!(population.len(), 1);
}

#[test]
fn adopt_extends_when_nothing_was_given_up() {
    let mut population = Population::new(TCreatures::default());
    assert_eq!(population.adopt(Creature::new((0, 0))), 0);
    assert_eq!(population.adopt(Creature::new((0, 1))), 1);
    assert_eq!(population.adopt(Creature::new((0, 2))), 2);
    assert_eq!(population.handles(), vec![0, 1, 2]);
    assert_eq!(population.get(2), Ok(Creature::new((0, 2))));
    assert!(population.well_formed());
}

#[test]
fn remove_marked_drops_the_dead_and_keeps_the_order() {
    let mut population = Population::new(TCreatures::default());
    for i in 0..5 {
        population.adopt(Creature { key_area: (i, 0), to_remove: i == 1 || i == 3, param: i });
    }
    let freed = population.remove_marked();
    assert_eq!(freed, vec![1, 3]);
    assert_eq!(population.free_keys, vec![1, 3]);
    assert_eq!(population.handles(), vec![0, 2, 4]);
    assert_eq!(population.len(), 3);
    assert_eq!(population.get(1), Err(SimError::UnknownHandle));
    assert_eq!(population.get(4), Ok(Creature { key_area: (4, 0), to_remove: false, param: 4 }));
    assert!(population.well_formed());
}

#[test]
fn remove_marked_without_dead_changes_nothing() {
    let mut population = Population::new(TCreatures::default());
    population.adopt(Creature::new((0, 0)));
    population.adopt(Creature::new((0, 1)));
    assert_eq!(population.remove_marked(), vec![]);
    assert_eq!(population.handles(), vec![0, 1]);
    assert!(population.free_keys.is_empty());
}

#[test]
fn adopt_reuses_the_handle_given_up_last() {
    let mut population = Population::new(TCreatures::default());
    for i in 0..4 {
        population.adopt(Creature { key_area: (i, 0), to_remove: i == 0 || i == 2, param: 0 });
    }
    population.remove_marked();
    assert_eq!(population.free_keys, vec![0, 2]);
    assert_eq!(population.adopt(Creature::new((9, 9))), 2);
    assert_eq!(population.adopt(Creature::new((8, 8))), 0);
    assert_eq!(population.adopt(Creature::new((7, 7))), 4);
    assert_eq!(population.handles(), vec![1, 3, 2, 0, 4]);
    assert!(population.free_keys.is_empty());
    assert!(population.well_formed());
}

#[test]
fn population_with_a_gap_is_not_well_formed() {
    let mut population = Population::new(TCreatures::default());
    population.insert(0, Creature::new((0, 0))).unwrap();
    population.insert(2, Creature::new((0, 1))).unwrap();
    assert!(!population.well_formed());
    population.free_keys.push(1);
    assert!(population.well_formed());
}

#[test]
fn population_with_a_bad_free_list_is_not_well_formed() {
    let mut population = Population::new(TCreatures::default());
    population.insert(0, Creature::new((0, 0))).unwrap();
    population.free_keys.push(0);
    assert!(!population.well_formed());
    population.free_keys = vec![1, 1];
    assert!(!population.well_formed());
    population.free_keys = vec![5];
    assert!(!population.well_formed());
    population.free_keys = vec![1];
    assert!(population.well_formed());
}
