use fssota::game::{Game, VIEW_REACH_X, VIEW_REACH_Y};
use fssota::objects::{Object, Player, Tile, Tree, Water};
use fssota::utils::{Direction, Hue};

fn is_tile(object: &Object) -> bool {
    matches!(object, Object::Tile(_))
}

fn cells_holding(game: &Game, player: &Player) -> Vec<(usize, usize)> {
    let mut found = Vec::new();
    for y in 0..game.height() {
        for x in 0..game.width() {
            if game.cell(x, y) == &Object::Player(player.clone()) {
                found.push((x, y));
            }
        }
    }
    found
}

fn snapshot(game: &Game) -> Vec<Vec<Object>> {
    game.rows().clone()
}

#[test]
fn blank_world_is_open_ground() {
    let game = Game::blank(4, 3);
    assert_eq!(game.width(), 4);
    assert_eq!(game.height(), 3);
    assert_eq!(game.rows().len(), 3);
    for y in 0..3 {
        assert_eq!(game.rows()[y].len(), 4);
        for x in 0..4 {
            assert!(is_tile(game.cell(x, y)));
        }
    }
}

#[test]
fn move_north_onto_open_ground() {
    let mut game = Game::blank(10, 10);
    let mut alice = game.spawn_player_at("Alice", '@', 5, 5);
    game.move_player(&mut alice, Direction::N);
    assert_eq!((alice.x, alice.y), (5, 4));
    assert_eq!(game.cell(5, 4), &Object::Player(alice.clone()));
    assert!(is_tile(game.cell(5, 5)));
    assert_eq!(cells_holding(&game, &alice), vec![(5, 4)]);
}

#[test]
fn move_into_another_player_is_turned_down() {
    let mut game = Game::blank(10, 10);
    let bob = game.spawn_player_at("Bob", 'B', 5, 3);
    let mut alice = game.spawn_player_at("Alice", '@', 5, 4);
    let before = snapshot(&game);
    game.move_player(&mut alice, Direction::N);
    assert_eq!((alice.x, alice.y), (5, 4));
    assert_eq!(game.cell(5, 4), &Object::Player(alice.clone()));
    assert_eq!(game.cell(5, 3), &Object::Player(bob));
    assert_eq!(snapshot(&game), before);
}

#[test]
fn each_direction_steps_one_cell() {
    let cases = [
        (Direction::N, (5, 4)),
        (Direction::E, (6, 5)),
        (Direction::S, (5, 6)),
        (Direction::W, (4, 5)),
    ];
    for (direction, target) in cases {
        let mut game = Game::blank(10, 10);
        let mut player = game.spawn_player_at("P", 'p', 5, 5);
        game.move_player(&mut player, direction);
        assert_eq!((player.x, player.y), target);
        assert_eq!(cells_holding(&game, &player), vec![target]);
        assert!(is_tile(game.cell(5, 5)));
    }
}

#[test]
fn edges_turn_a_move_down() {
    let cases = [
        (Direction::N, (3, 0)),
        (Direction::W, (0, 3)),
        (Direction::S, (3, 9)),
        (Direction::E, (9, 3)),
    ];
    for (direction, (x, y)) in cases {
        let mut game = Game::blank(10, 10);
        let mut player = game.spawn_player_at("P", 'p', x, y);
        let before = snapshot(&game);
        game.move_player(&mut player, direction);
        assert_eq!((player.x, player.y), (x, y));
        assert_eq!(snapshot(&game), before);
    }
}

#[test]
fn trees_and_water_turn_a_move_down() {
    let mut game = Game::blank(10, 10);
    game.set_cell(5, 4, Object::Tree(Tree::new()));
    game.set_cell(6, 5, Object::Water(Water::new()));
    let mut player = game.spawn_player_at("P", 'p', 5, 5);
    let before = snapshot(&game);
    game.move_player(&mut player, Direction::N);
    assert_eq!((player.x, player.y), (5, 5));
    game.move_player(&mut player, Direction::E);
    assert_eq!((player.x, player.y), (5, 5));
    assert_eq!(snapshot(&game), before);
    // a move that was turned down is turned down again
    game.move_player(&mut player, Direction::N);
    assert_eq!(snapshot(&game), before);
}

#[test]
fn a_player_stays_on_exactly_one_cell_over_many_moves() {
    let mut game = Game::blank(6, 6);
    game.set_cell(2, 2, Object::Tree(Tree::new()));
    let mut player = game.spawn_player_at("P", 'p', 0, 0);
    let walk = [
        Direction::E, Direction::E, Direction::S, Direction::S, Direction::W, Direction::N,
        Direction::N, Direction::N, Direction::W, Direction::W, Direction::W, Direction::S,
    ];
    for direction in walk {
        game.move_player(&mut player, direction);
        assert_eq!(cells_holding(&game, &player), vec![(player.x, player.y)]);
    }
}

#[test]
fn disjoint_moves_give_the_same_grid_in_either_order() {
    let mut one = Game::blank(8, 8);
    let mut a1 = one.spawn_player_at("A", 'a', 1, 1);
    let mut b1 = one.spawn_player_at("B", 'b', 5, 5);
    one.move_player(&mut a1, Direction::E);
    one.move_player(&mut b1, Direction::N);

    let mut two = Game::blank(8, 8);
    let mut a2 = two.spawn_player_at("A", 'a', 1, 1);
    let mut b2 = two.spawn_player_at("B", 'b', 5, 5);
    two.move_player(&mut b2, Direction::N);
    two.move_player(&mut a2, Direction::E);

    assert_eq!(snapshot(&one), snapshot(&two));
    assert_eq!(a1, a2);
    assert_eq!(b1, b2);
    assert_eq!(cells_holding(&one, &a1), vec![(2, 1)]);
    assert_eq!(cells_holding(&one, &b1), vec![(5, 4)]);
}

#[test]
fn kill_clears_the_players_cell_only() {
    let mut game = Game::blank(10, 10);
    let bob = game.spawn_player_at("Bob", 'B', 2, 7);
    let alice = game.spawn_player_at("Alice", '@', 5, 4);
    game.set_cell(0, 0, Object::Tree(Tree::new()));
    let mut expected = snapshot(&game);
    expected[4][5] = Object::Tile(Tile::new());
    game.kill_player(alice.clone());
    assert_eq!(snapshot(&game), expected);
    assert!(cells_holding(&game, &alice).is_empty());
    assert_eq!(cells_holding(&game, &bob), vec![(2, 7)]);
}

#[test]
fn kill_of_an_absent_player_changes_nothing() {
    let mut game = Game::blank(5, 5);
    let _bob = game.spawn_player_at("Bob", 'B', 1, 1);
    let stranger = Player::new(String::from("Eve"), 1, 1, 'E');
    let before = snapshot(&game);
    game.kill_player(stranger);
    assert_eq!(snapshot(&game), before);
}

#[test]
fn kill_clears_the_first_of_two_equal_cells() {
    let mut game = Game::blank(5, 5);
    let twin = Player::new(String::from("Twin"), 3, 3, 'T');
    game.set_cell(4, 1, Object::Player(twin.clone()));
    game.set_cell(0, 2, Object::Player(twin.clone()));
    game.kill_player(twin.clone());
    assert!(is_tile(game.cell(4, 1)));
    assert_eq!(game.cell(0, 2), &Object::Player(twin));
}

#[test]
fn spawn_overwrites_whatever_the_cell_held() {
    let mut game = Game::blank(5, 5);
    game.set_cell(2, 2, Object::Water(Water::new()));
    let player = game.spawn_player_at("P", 'p', 2, 2);
    assert_eq!(player.name, "P");
    assert_eq!(player.symbol, 'p');
    assert_eq!((player.x, player.y), (2, 2));
    assert!(player.inventory.is_empty());
    assert_eq!(game.cell(2, 2), &Object::Player(player));
}

#[test]
fn random_spawn_lands_on_the_grid() {
    for _ in 0..200 {
        let mut game = Game::blank(7, 3);
        let player = game.spawn_player("P", 'p');
        assert!(player.x < 7);
        assert!(player.y < 3);
        assert_eq!(game.cell(player.x, player.y), &Object::Player(player.clone()));
        assert_eq!(cells_holding(&game, &player), vec![(player.x, player.y)]);
    }
}

#[test]
fn random_spawn_on_a_single_cell() {
    let mut game = Game::blank(1, 1);
    let player = game.spawn_player("Solo", 's');
    assert_eq!((player.x, player.y), (0, 0));
    assert_eq!(game.cell(0, 0), &Object::Player(player));
}

#[test]
fn window_at_the_corner_is_cut_on_both_sides() {
    let mut game = Game::blank(10, 10);
    game.set_cell(4, 4, Object::Tree(Tree::new()));
    game.set_cell(5, 5, Object::Water(Water::new()));
    let player = game.spawn_player_at("P", 'p', 0, 0);
    let view = game.window(&player, 5, 5);
    // the nominal window is 10 by 10; at the corner only 5 by 5 of it lies on the grid
    assert_eq!(view.width(), 5);
    assert_eq!(view.height(), 5);
    for y in 0..5 {
        for x in 0..5 {
            assert_eq!(view.cell(x, y), game.cell(x, y));
        }
    }
    assert_eq!(view.cell(0, 0), &Object::Player(player));
    assert_eq!(view.cell(4, 4), &Object::Tree(Tree::new()));
}

#[test]
fn window_in_the_middle_has_the_nominal_size() {
    let mut game = Game::blank(30, 30);
    game.set_cell(12, 13, Object::Tree(Tree::new()));
    let player = game.spawn_player_at("P", 'p', 15, 15);
    let view = game.window(&player, 3, 2);
    assert_eq!(view.width(), 6);
    assert_eq!(view.height(), 4);
    for y in 0..4 {
        for x in 0..6 {
            assert_eq!(view.cell(x, y), game.cell(12 + x, 13 + y));
        }
    }
    assert_eq!(view.cell(3, 2), &Object::Player(player));
}

#[test]
fn window_at_the_far_edge_is_cut_there_too() {
    let mut game = Game::blank(10, 10);
    let player = game.spawn_player_at("P", 'p', 9, 8);
    let view = game.window(&player, 3, 4);
    assert_eq!(view.width(), 4);
    assert_eq!(view.height(), 6);
    assert_eq!(view.cell(3, 4), &Object::Player(player));
}

#[test]
fn player_view_reaches_forty_by_twenty() {
    assert_eq!(VIEW_REACH_X, 40);
    assert_eq!(VIEW_REACH_Y, 20);
    let mut game = Game::blank(100, 100);
    let middle = game.spawn_player_at("M", 'm', 50, 50);
    let view = game.game_from_player_view(middle.clone());
    assert_eq!((view.width(), view.height()), (80, 40));
    assert_eq!(view.cell(40, 20), &Object::Player(middle));
    let corner = game.spawn_player_at("C", 'c', 0, 0);
    let view = game.game_from_player_view(corner);
    assert_eq!((view.width(), view.height()), (40, 20));
    let small = Game::blank(10, 10);
    let view = small.game_from_player_view(Player::new(String::from("S"), 3, 3, 's'));
    assert_eq!((view.width(), view.height()), (10, 10));
}

#[test]
fn rows_round_trip() {
    let mut game = Game::blank(3, 2);
    game.set_cell(1, 1, Object::Water(Water::new()));
    let copy = Game::from_rows(snapshot(&game)).unwrap();
    assert_eq!(copy.width(), 3);
    assert_eq!(copy.height(), 2);
    assert_eq!(snapshot(&copy), snapshot(&game));
}

#[test]
fn ragged_or_empty_rows_are_no_world() {
    assert!(Game::from_rows(Vec::new()).is_none());
    assert!(Game::from_rows(vec![Vec::new()]).is_none());
    let ragged = vec![
        vec![Object::Tile(Tile::new()), Object::Tile(Tile::new())],
        vec![Object::Tile(Tile::new())],
    ];
    assert!(Game::from_rows(ragged).is_none());
}

#[test]
fn objects_compare_by_value() {
    let mut a = Player::new(String::from("A"), 1, 2, 'a');
    let b = Player::new(String::from("A"), 1, 2, 'a');
    assert!(a.same_as(&b));
    assert!(Object::Player(a.clone()).same_as(&Object::Player(b.clone())));
    a.inventory.push(Object::Tree(Tree::new()));
    assert!(!a.same_as(&b));
    assert!(a.same_as(&a.clone()));
    assert!(!Object::Tree(Tree::new()).same_as(&Object::Water(Water::new())));
    assert!(Object::Tile(Tile::new()).same_as(&Object::Tile(Tile::new())));
    let c = Player::new(String::from("A"), 1, 3, 'a');
    assert!(!b.same_as(&c));
    let d = Player::new(String::from("A"), 1, 2, 'd');
    assert!(!b.same_as(&d));
    let mut nested = Player::new(String::from("N"), 0, 0, 'n');
    nested.inventory.push(Object::Player(a.clone()));
    let copy = nested.clone();
    assert_eq!(copy, nested);
    assert!(copy.same_as(&nested));
}

#[test]
fn glyphs_and_hues() {
    assert_eq!(Object::Tile(Tile::new()).glyph(), ' ');
    assert_eq!(Object::Tree(Tree::new()).glyph(), '\u{25b2}');
    assert_eq!(Object::Water(Water::new()).glyph(), '~');
    let player = Player::new(String::from("P"), 0, 0, '&');
    assert_eq!(Object::Player(player.clone()).glyph(), '&');
    assert_eq!(Object::Tile(Tile::new()).hue(), None);
    assert_eq!(Object::Tree(Tree::new()).hue(), Some(Hue::Green));
    assert_eq!(Object::Water(Water::new()).hue(), Some(Hue::Blue));
    assert_eq!(Object::Player(player).hue(), Some(Hue::Red));
}

fn four_players(game: &mut Game) -> Vec<(Player, Direction, (usize, usize))> {
    vec![
        (game.spawn_player_at("A", 'a', 1, 1), Direction::E, (2, 1)),
        (game.spawn_player_at("B", 'b', 5, 5), Direction::N, (5, 4)),
        (game.spawn_player_at("C", 'c', 3, 6), Direction::W, (2, 6)),
        (game.spawn_player_at("D", 'd', 7, 2), Direction::S, (7, 3)),
    ]
}

#[test]
fn many_disjoint_moves_end_the_same_in_every_order() {
    let orders: [[usize; 4]; 6] = [
        [0, 1, 2, 3],
        [3, 2, 1, 0],
        [1, 3, 0, 2],
        [2, 0, 3, 1],
        [0, 2, 1, 3],
        [3, 0, 2, 1],
    ];
    let mut outcomes = Vec::new();
    for order in orders {
        let mut game = Game::blank(9, 8);
        game.set_cell(0, 0, Object::Tree(Tree::new()));
        let mut players = four_players(&mut game);
        for i in order {
            let direction = players[i].1;
            game.move_player(&mut players[i].0, direction);
        }
        let mut occupants = 0;
        for row in game.rows() {
            for cell in row {
                if matches!(cell, Object::Player(_)) {
                    occupants += 1;
                }
            }
        }
        assert_eq!(occupants, 4);
        for (player, _, target) in &players {
            assert_eq!((player.x, player.y), *target);
            assert_eq!(cells_holding(&game, player), vec![*target]);
        }
        for spot in [(1, 1), (5, 5), (3, 6), (7, 2)] {
            assert!(is_tile(game.cell(spot.0, spot.1)));
        }
        assert_eq!(game.cell(0, 0), &Object::Tree(Tree::new()));
        outcomes.push(snapshot(&game));
    }
    for outcome in &outcomes {
        assert_eq!(outcome, &outcomes[0]);
    }
}
