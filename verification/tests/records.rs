use creature_sim::area::Area;
use creature_sim::behavior::Rules;
use creature_sim::creature::Creature;
use creature_sim::grid::{move_options, neighbors};

#[test]
fn creature_new_is_alive_on_its_area() {
    let c = Creature::new((3, 4));
    assert_eq!(c.key_area, (3, 4));
    assert!(!c.to_remove);
    assert_eq!(c.param, 0);
    assert!(c.is_live());
}

#[test]
fn marked_creature_is_not_live() {
    let c = Creature { key_area: (0, 0), to_remove: true, param: 9 };
    assert!(!c.is_live());
}

#[test]
fn area_new_is_vacant() {
    let a = Area::new();
    assert_eq!(a.key_creature, None);
    assert!(a.vacant);
    assert_eq!(a.param, 0);
}

#[test]
fn default_rules_are_one_in_ten() {
    let rules = Rules::default();
    assert_eq!(rules, Rules { removal_percent: 10, spawn_percent: 10 });
}

#[test]
fn neighbors_of_an_inner_cell() {
    assert_eq!(neighbors(3, 3, (1, 1)), vec![(0, 1), (2, 1), (1, 0), (1, 2)]);
}

#[test]
fn neighbors_clip_at_the_edges() {
    assert_eq!(neighbors(3, 3, (0, 0)), vec![(1, 0), (0, 1)]);
    assert_eq!(neighbors(3, 3, (2, 2)), vec![(1, 2), (2, 1)]);
    assert_eq!(neighbors(3, 3, (0, 1)), vec![(1, 1), (0, 0), (0, 2)]);
    assert_eq!(neighbors(4, 2, (3, 0)), vec![(2, 0), (3, 1)]);
    assert_eq!(neighbors(1, 1, (0, 0)), vec![]);
}

#[test]
fn neighbors_never_leave_the_grid() {
    for x in 0..5 {
        for y in 0..4 {
            for n in neighbors(5, 4, (x, y)) {
                assert!(n.0 < 5 && n.1 < 4);
                let dx = if n.0 > x { n.0 - x } else { x - n.0 };
                let dy = if n.1 > y { n.1 - y } else { y - n.1 };
                assert_eq!(dx + dy, 1);
            }
        }
    }
}

#[test]
fn move_options_begin_with_the_own_cell() {
    assert_eq!(move_options(3, 3, (1, 0)), vec![(1, 0), (0, 0), (2, 0), (1, 1)]);
    assert_eq!(move_options(1, 1, (0, 0)), vec![(0, 0)]);
}
