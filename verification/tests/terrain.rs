use fssota::game::Game;
use fssota::objects::{Object, Tree, Water};
use fssota::terrain::{
    inner_range, next_chance, WATER_CHANCE, WATER_CHANCE_DROP, WATER_DEPTH,
};

fn count(game: &Game, wanted: fn(&Object) -> bool) -> usize {
    let mut n = 0;
    for row in game.rows() {
        for cell in row {
            if wanted(cell) {
                n += 1;
            }
        }
    }
    n
}

fn is_tile(o: &Object) -> bool {
    matches!(o, Object::Tile(_))
}

fn is_tree(o: &Object) -> bool {
    matches!(o, Object::Tree(_))
}

fn is_water(o: &Object) -> bool {
    matches!(o, Object::Water(_))
}

fn is_player(o: &Object) -> bool {
    matches!(o, Object::Player(_))
}

#[test]
fn densities_are_rounded_down() {
    assert_eq!(Game::blank(100, 100).tree_density(), 300);
    assert_eq!(Game::blank(100, 100).water_density(), 5);
    assert_eq!(Game::blank(10, 10).tree_density(), 3);
    assert_eq!(Game::blank(10, 10).water_density(), 0);
    assert_eq!(Game::blank(11, 3).tree_density(), 0);
    assert_eq!(Game::blank(17, 2).tree_density(), 1);
    assert_eq!(Game::blank(33, 2).tree_density(), 1);
    assert_eq!(Game::blank(67, 1).tree_density(), 2);
    assert_eq!(Game::blank(1999, 1).water_density(), 0);
    assert_eq!(Game::blank(2000, 1).water_density(), 1);
}

#[test]
fn generator_constants() {
    assert_eq!(WATER_CHANCE, 70);
    assert_eq!(WATER_CHANCE_DROP, 5);
    assert_eq!(WATER_DEPTH, 5);
}

#[test]
fn inner_range_keeps_the_margin_where_it_can() {
    assert_eq!(inner_range(10, 1), (1, 9));
    assert_eq!(inner_range(10, 2), (2, 8));
    assert_eq!(inner_range(3, 1), (1, 2));
    assert_eq!(inner_range(5, 2), (2, 3));
    assert_eq!(inner_range(2, 1), (0, 2));
    assert_eq!(inner_range(4, 2), (0, 4));
    assert_eq!(inner_range(1, 2), (0, 1));
    assert_eq!(inner_range(7, 0), (0, 7));
}

#[test]
fn neighbours_in_order_and_on_the_grid_only() {
    let game = Game::blank(5, 5);
    let around: Vec<Option<(usize, usize)>> = (0..9).map(|k| game.neighbor(2, 2, k)).collect();
    assert_eq!(
        around,
        vec![
            Some((3, 3)),
            Some((3, 1)),
            Some((1, 1)),
            Some((1, 3)),
            Some((2, 3)),
            Some((2, 1)),
            Some((3, 2)),
            Some((1, 2)),
            None,
        ]
    );
    let corner: Vec<Option<(usize, usize)>> = (0..8).map(|k| game.neighbor(0, 0, k)).collect();
    assert_eq!(
        corner,
        vec![Some((1, 1)), None, None, None, Some((0, 1)), None, Some((1, 0)), None]
    );
    let far: Vec<Option<(usize, usize)>> = (0..8).map(|k| game.neighbor(4, 4, k)).collect();
    assert_eq!(
        far,
        vec![None, None, Some((3, 3)), None, None, Some((4, 3)), None, Some((3, 4))]
    );
}

#[test]
fn grove_covers_the_centre_and_the_chosen_neighbours() {
    let mut game = Game::blank(5, 5);
    game.set_cell(1, 1, Object::Water(Water::new()));
    let spread = [true, false, true, false, false, true, false, false];
    game.plant_grove(2, 2, &spread);
    let trees = [(2, 2), (3, 3), (1, 1), (2, 1)];
    for y in 0..5 {
        for x in 0..5 {
            if trees.contains(&(x, y)) {
                assert_eq!(game.cell(x, y), &Object::Tree(Tree::new()));
            } else {
                assert!(is_tile(game.cell(x, y)));
            }
        }
    }
}

#[test]
fn grove_at_the_corner_skips_what_lies_off_the_grid() {
    let mut game = Game::blank(3, 3);
    game.plant_grove(0, 0, &[true; 8]);
    let trees = [(0, 0), (1, 1), (0, 1), (1, 0)];
    for y in 0..3 {
        for x in 0..3 {
            assert_eq!(is_tree(game.cell(x, y)), trees.contains(&(x, y)));
        }
    }
    let mut single = Game::blank(1, 1);
    single.plant_grove(0, 0, &[true; 8]);
    assert!(is_tree(single.cell(0, 0)));
}

#[test]
fn water_with_certain_spread_covers_all_neighbours() {
    let mut game = Game::blank(7, 7);
    let mut rng = rand::thread_rng();
    game.populate_adjacent_water(3, 3, &mut rng, 100, 1);
    for y in 0..7 {
        for x in 0..7 {
            let ring = (2..=4).contains(&x) && (2..=4).contains(&y) && (x, y) != (3, 3);
            assert_eq!(is_water(game.cell(x, y)), ring);
        }
    }
}

#[test]
fn water_without_chance_or_depth_spreads_nowhere() {
    let mut rng = rand::thread_rng();
    let mut game = Game::blank(7, 7);
    game.populate_adjacent_water(3, 3, &mut rng, 0, 5);
    assert_eq!(count(&game, is_tile), 49);
    game.populate_adjacent_water(3, 3, &mut rng, 100, 0);
    assert_eq!(count(&game, is_tile), 49);
}

#[test]
fn water_stays_within_its_depth() {
    let mut rng = rand::thread_rng();
    for _ in 0..20 {
        let mut game = Game::blank(21, 21);
        game.populate_adjacent_water(10, 10, &mut rng, 70, 3);
        for y in 0..21usize {
            for x in 0..21usize {
                let near = x.abs_diff(10) <= 3 && y.abs_diff(10) <= 3;
                if !near {
                    assert!(is_tile(game.cell(x, y)));
                } else {
                    assert!(is_tile(game.cell(x, y)) || is_water(game.cell(x, y)));
                }
            }
        }
    }
}

#[test]
fn water_at_the_edge_stays_on_the_grid() {
    let mut rng = rand::thread_rng();
    let mut game = Game::blank(3, 2);
    game.populate_adjacent_water(0, 0, &mut rng, 100, 5);
    assert!(is_water(game.cell(1, 0)));
    assert!(is_water(game.cell(0, 1)));
    assert!(is_water(game.cell(1, 1)));
    assert_eq!(count(&game, is_player), 0);
}

#[test]
fn trees_only_turn_cells_into_trees() {
    let mut game = Game::blank(20, 20);
    game.set_cell(0, 0, Object::Water(Water::new()));
    game.populate_trees();
    let trees = count(&game, is_tree);
    // twelve groves of at most nine trees, at least one tree in all
    assert!(trees >= 1);
    assert!(trees <= 12 * 9);
    assert_eq!(count(&game, is_tile) + trees + count(&game, is_water), 400);
    assert!(count(&game, is_water) <= 1);
    // grove centres keep one cell away from the edge, so trees reach the edge only as neighbours
    assert_eq!(count(&game, is_player), 0);
}

#[test]
fn small_worlds_get_no_terrain() {
    let mut game = Game::blank(5, 5);
    game.populate_trees();
    game.populate_water();
    assert_eq!(count(&game, is_tile), 25);
    let fresh = Game::new(5, 6);
    assert_eq!((fresh.width(), fresh.height()), (5, 6));
    assert_eq!(count(&fresh, is_tile), 30);
}

#[test]
fn water_only_turns_cells_into_water() {
    let mut game = Game::blank(50, 40);
    game.set_cell(7, 7, Object::Tree(Tree::new()));
    game.populate_water();
    let water = count(&game, is_water);
    assert!(water >= 1);
    assert!(count(&game, is_tree) <= 1);
    assert_eq!(count(&game, is_tile) + water + count(&game, is_tree), 2000);
}

#[test]
fn new_world_holds_terrain_and_no_players() {
    let game = Game::new(100, 100);
    assert_eq!((game.width(), game.height()), (100, 100));
    assert_eq!(game.rows().len(), 100);
    assert!(game.rows().iter().all(|row| row.len() == 100));
    assert_eq!(count(&game, is_player), 0);
    assert!(count(&game, is_water) >= 1);
    assert!(count(&game, is_tree) <= 300 * 9);
    assert_eq!(
        count(&game, is_tile) + count(&game, is_tree) + count(&game, is_water),
        10_000
    );
}

#[test]
fn narrow_worlds_are_generated_too() {
    let game = Game::new(2, 40);
    assert_eq!((game.width(), game.height()), (2, 40));
    assert_eq!(count(&game, is_player), 0);
    let game = Game::new(2500, 1);
    assert_eq!((game.width(), game.height()), (2500, 1));
    assert!(count(&game, is_water) >= 1);
}

#[test]
fn every_scatter_leaves_a_grove_centre_off_the_edge() {
    for _ in 0..20 {
        let mut game = Game::blank(12, 9);
        game.populate_trees();
        let mut inner = 0;
        for y in 1..8 {
            for x in 1..11 {
                if is_tree(game.cell(x, y)) {
                    inner += 1;
                }
            }
        }
        assert!(inner >= 1);
    }
}

#[test]
fn every_seeding_leaves_water_two_cells_off_the_edge() {
    for _ in 0..20 {
        let mut game = Game::blank(50, 40);
        game.populate_water();
        let mut inner = 0;
        for y in 2..38 {
            for x in 2..48 {
                if is_water(game.cell(x, y)) {
                    inner += 1;
                }
            }
        }
        assert!(inner >= 1);
        // one seed, and water no farther than five cells from it
        let mut low = (usize::MAX, usize::MAX);
        let mut high = (0, 0);
        for y in 0..40 {
            for x in 0..50 {
                if is_water(game.cell(x, y)) {
                    low = (low.0.min(x), low.1.min(y));
                    high = (high.0.max(x), high.1.max(y));
                }
            }
        }
        assert!(high.0 - low.0 <= 10);
        assert!(high.1 - low.1 <= 10);
    }
}

#[test]
fn chance_drops_by_five_and_stops_at_zero() {
    assert_eq!(next_chance(70), 65);
    assert_eq!(next_chance(65), 60);
    assert_eq!(next_chance(60), 55);
    assert_eq!(next_chance(55), 50);
    assert_eq!(next_chance(100), 95);
    assert_eq!(next_chance(5), 0);
    assert_eq!(next_chance(4), 0);
    assert_eq!(next_chance(0), 0);
}

#[test]
fn ring_waters_the_chosen_neighbours_and_not_the_centre() {
    let mut game = Game::blank(5, 5);
    game.set_cell(1, 1, Object::Tree(Tree::new()));
    game.set_cell(2, 2, Object::Tree(Tree::new()));
    let spread = [true, false, true, false, false, true, false, false];
    game.wet_ring(2, 2, &spread);
    let wet = [(3, 3), (1, 1), (2, 1)];
    for y in 0..5 {
        for x in 0..5 {
            if wet.contains(&(x, y)) {
                assert_eq!(game.cell(x, y), &Object::Water(Water::new()));
            } else if (x, y) == (2, 2) {
                assert_eq!(game.cell(x, y), &Object::Tree(Tree::new()));
            } else {
                assert!(is_tile(game.cell(x, y)));
            }
        }
    }
}

#[test]
fn ring_at_the_corner_skips_what_lies_off_the_grid() {
    let mut game = Game::blank(3, 3);
    game.wet_ring(0, 0, &[true; 8]);
    let wet = [(1, 1), (0, 1), (1, 0)];
    for y in 0..3 {
        for x in 0..3 {
            assert_eq!(is_water(game.cell(x, y)), wet.contains(&(x, y)));
        }
    }
    let mut untouched = Game::blank(3, 3);
    untouched.wet_ring(1, 1, &[false; 8]);
    assert_eq!(count(&untouched, is_tile), 9);
}

#[test]
fn certain_spread_of_depth_one_on_a_long_grid() {
    let mut game = Game::blank(300, 5);
    let mut rng = rand::thread_rng();
    game.populate_adjacent_water(200, 2, &mut rng, 100, 1);
    for y in 0..5usize {
        for x in 0..300usize {
            let ring = (199..=201).contains(&x) && (1..=3).contains(&y) && (x, y) != (200, 2);
            assert_eq!(is_water(game.cell(x, y)), ring);
            assert_eq!(is_tile(game.cell(x, y)), !ring);
        }
    }
}

#[test]
fn spread_of_depth_one_stays_in_the_ring() {
    let mut rng = rand::thread_rng();
    for _ in 0..50 {
        let mut game = Game::blank(9, 9);
        game.populate_adjacent_water(4, 4, &mut rng, 50, 1);
        assert!(is_tile(game.cell(4, 4)));
        for y in 0..9usize {
            for x in 0..9usize {
                if x.abs_diff(4) > 1 || y.abs_diff(4) > 1 {
                    assert!(is_tile(game.cell(x, y)));
                }
            }
        }
    }
}

#[test]
fn a_world_too_small_for_water_holds_none() {
    for _ in 0..10 {
        let game = Game::new(44, 45);
        assert_eq!(game.water_density(), 0);
        assert_eq!(count(&game, is_water), 0);
        let groves = game.tree_density() as usize;
        assert_eq!(groves, 59);
        let trees = count(&game, is_tree);
        assert!(trees >= 1);
        assert!(trees <= 9 * groves);
    }
}
