use robot_chase::board::{Board, Sprites, HEIGHT, WIDTH};
use robot_chase::game::{Game, NUM_DEAD_ROBOTS, NUM_ROBOTS, NUM_TELEPORTS, NUM_WALLS};
use robot_chase::input::InputOptions;

fn count(game: &Game, what: Sprites) -> usize {
    let mut n = 0;
    for x in 0..=WIDTH {
        for y in 0..=HEIGHT {
            if game.sprite_at((x, y)) == what {
                n += 1;
            }
        }
    }
    n
}

fn laid_out(player: (u16, u16), robots: &[(u16, u16)], walls: &[(u16, u16)], wrecks: &[(u16, u16)]) -> Game {
    let mut board = Board::new();
    for c in walls {
        board.set(*c, Sprites::Wall);
    }
    for c in wrecks {
        board.set(*c, Sprites::DeadRobot);
    }
    for c in robots {
        board.set(*c, Sprites::Robot);
    }
    board.set(player, Sprites::Player);
    Game::with_layout(board, player, robots.to_vec(), 2, 0).expect("the layout is playable")
}

#[test]
fn new_game_holds_what_was_asked_for() {
    for seed in [0u64, 1, 7, 12345, u64::MAX] {
        let game = Game::new(seed);
        let rim = 2 * (WIDTH as usize + 1) + 2 * (HEIGHT as usize - 1);
        assert_eq!(count(&game, Sprites::Wall), rim + NUM_WALLS as usize);
        assert_eq!(count(&game, Sprites::DeadRobot), NUM_DEAD_ROBOTS as usize);
        assert_eq!(count(&game, Sprites::Robot), NUM_ROBOTS as usize);
        assert_eq!(count(&game, Sprites::Player), 1);
        assert_eq!(count(&game, Sprites::Empty), 741 - 100 - 2 - 10 - 1);
        assert_eq!(game.robots().len(), NUM_ROBOTS as usize);
        assert_eq!(game.teleports_left(), NUM_TELEPORTS);
        assert_eq!(game.sprite_at(game.player_position()), Sprites::Player);
        assert!(game.in_order());
    }
}

#[test]
fn new_game_marks_each_robot_of_the_roster() {
    let game = Game::new(99);
    let robots = game.robots().clone();
    for (i, r) in robots.iter().enumerate() {
        assert_eq!(game.sprite_at(*r), Sprites::Robot);
        for other in &robots[i + 1..] {
            assert_ne!(r, other);
        }
    }
}

#[test]
fn new_game_keeps_the_rim_walled() {
    let game = Game::new(3);
    for x in 0..=WIDTH {
        assert_eq!(game.sprite_at((x, 0)), Sprites::Wall);
        assert_eq!(game.sprite_at((x, HEIGHT)), Sprites::Wall);
    }
    for y in 0..=HEIGHT {
        assert_eq!(game.sprite_at((0, y)), Sprites::Wall);
        assert_eq!(game.sprite_at((WIDTH, y)), Sprites::Wall);
    }
}

#[test]
fn new_game_from_seed_zero_is_this_layout() {
    let game = Game::new(0);
    assert_eq!(game.player_position(), (23, 9));
    assert_eq!(
        game.robots().clone(),
        vec![(25, 5), (20, 17), (13, 14), (13, 11), (9, 19), (1, 1), (13, 3), (7, 3), (20, 6), (14, 6)]
    );
    assert_eq!(game.sprite_at((9, 12)), Sprites::Wall);
    assert_eq!(game.sprite_at((24, 14)), Sprites::Wall);
    assert_eq!(game.sprite_at((26, 18)), Sprites::Wall);
    assert_eq!(game.sprite_at((27, 1)), Sprites::DeadRobot);
    assert_eq!(game.sprite_at((28, 3)), Sprites::DeadRobot);
}

#[test]
fn new_game_from_seed_seven_is_this_layout() {
    let game = Game::new(7);
    assert_eq!(game.player_position(), (30, 7));
    assert_eq!(
        game.robots().clone(),
        vec![(10, 5), (1, 11), (29, 14), (28, 13), (7, 6), (12, 5), (24, 3), (1, 16), (4, 4), (39, 16)]
    );
    assert_eq!(game.sprite_at((27, 18)), Sprites::Wall);
    assert_eq!(game.sprite_at((15, 18)), Sprites::Wall);
    assert_eq!(game.sprite_at((6, 7)), Sprites::Wall);
    assert_eq!(game.sprite_at((7, 2)), Sprites::DeadRobot);
    assert_eq!(game.sprite_at((31, 9)), Sprites::DeadRobot);
}

#[test]
fn equal_seeds_lay_out_equal_games() {
    let a = Game::new(4242);
    let b = Game::new(4242);
    assert_eq!(a.player_position(), b.player_position());
    assert_eq!(a.robots(), b.robots());
    for x in 0..=WIDTH {
        for y in 0..=HEIGHT {
            assert_eq!(a.sprite_at((x, y)), b.sprite_at((x, y)));
        }
    }
}

#[test]
fn random_empty_space_is_the_drawn_empty_cell() {
    let mut game = laid_out((1, 1), &[], &[], &[]);
    assert_eq!(game.get_random_empty_space(), (32, 7));
    assert_eq!(game.get_random_empty_space(), (24, 14));
    assert_eq!(count(&game, Sprites::Empty), 740);
    assert_eq!(game.player_position(), (1, 1));
}

#[test]
fn random_empty_space_is_always_empty() {
    let mut game = Game::new(5);
    for _ in 0..200 {
        let c = game.get_random_empty_space();
        assert_eq!(game.sprite_at(c), Sprites::Empty);
    }
    assert!(game.in_order());
}

#[test]
fn random_empty_space_finds_the_only_empty_cell() {
    let mut board = Board::new();
    for x in 1..WIDTH {
        for y in 1..HEIGHT {
            board.set((x, y), Sprites::Wall);
        }
    }
    board.set((3, 3), Sprites::Player);
    board.set((17, 11), Sprites::Empty);
    let mut game = Game::with_layout(board, (3, 3), vec![], 0, 77).expect("the layout is playable");
    for _ in 0..10 {
        assert_eq!(game.get_random_empty_space(), (17, 11));
    }
}

#[test]
fn all_nine_moves_are_offered_in_the_open() {
    let game = laid_out((10, 10), &[], &[], &[]);
    assert_eq!(
        game.get_valid_destinations((10, 10)),
        vec![
            InputOptions::Move(-1, -1),
            InputOptions::Move(-1, 1),
            InputOptions::Move(-1, 0),
            InputOptions::Move(1, 0),
            InputOptions::Move(1, 1),
            InputOptions::Move(1, -1),
            InputOptions::Move(0, 1),
            InputOptions::Move(0, -1),
            InputOptions::Move(0, 0),
        ]
    );
}

#[test]
fn moves_into_the_rim_are_not_offered() {
    let game = laid_out((1, 1), &[], &[], &[]);
    assert_eq!(
        game.get_valid_destinations((1, 1)),
        vec![
            InputOptions::Move(1, 0),
            InputOptions::Move(1, 1),
            InputOptions::Move(0, 1),
            InputOptions::Move(0, 0),
        ]
    );
    let game = laid_out((39, 19), &[], &[], &[]);
    assert_eq!(
        game.get_valid_destinations((39, 19)),
        vec![
            InputOptions::Move(-1, -1),
            InputOptions::Move(-1, 0),
            InputOptions::Move(0, -1),
            InputOptions::Move(0, 0),
        ]
    );
}

#[test]
fn moves_onto_walls_and_robots_are_not_offered_but_onto_wrecks_are() {
    let game = laid_out((10, 10), &[(9, 9), (11, 10)], &[(10, 11)], &[(10, 9), (9, 11)]);
    assert_eq!(
        game.get_valid_destinations((10, 10)),
        vec![
            InputOptions::Move(-1, 1),
            InputOptions::Move(-1, 0),
            InputOptions::Move(1, 1),
            InputOptions::Move(1, -1),
            InputOptions::Move(0, -1),
            InputOptions::Move(0, 0),
        ]
    );
}

#[test]
fn valid_destinations_may_be_asked_of_any_inner_cell() {
    let game = laid_out((10, 10), &[(20, 10)], &[], &[]);
    assert_eq!(
        game.get_valid_destinations((20, 10)),
        vec![
            InputOptions::Move(-1, -1),
            InputOptions::Move(-1, 1),
            InputOptions::Move(-1, 0),
            InputOptions::Move(1, 0),
            InputOptions::Move(1, 1),
            InputOptions::Move(1, -1),
            InputOptions::Move(0, 1),
            InputOptions::Move(0, -1),
        ]
    );
}

#[test]
fn the_player_mark_follows_the_player() {
    let mut game = laid_out((10, 10), &[(20, 10)], &[(5, 5)], &[(11, 11)]);
    game.update_player_position((11, 11));
    assert_eq!(game.player_position(), (11, 11));
    assert_eq!(game.sprite_at((11, 11)), Sprites::Player);
    assert_eq!(game.sprite_at((10, 10)), Sprites::Empty);
    assert_eq!(count(&game, Sprites::Player), 1);
    assert_eq!(game.sprite_at((20, 10)), Sprites::Robot);
    assert_eq!(game.sprite_at((5, 5)), Sprites::Wall);
    assert_eq!(game.robots().clone(), vec![(20, 10)]);
    assert_eq!(game.teleports_left(), 2);
    assert!(game.in_order());
}

#[test]
fn staying_put_keeps_the_player_mark() {
    let mut game = laid_out((10, 10), &[], &[], &[]);
    game.update_player_position((10, 10));
    assert_eq!(game.player_position(), (10, 10));
    assert_eq!(game.sprite_at((10, 10)), Sprites::Player);
    assert_eq!(count(&game, Sprites::Player), 1);
    assert_eq!(count(&game, Sprites::Empty), 740);
}

#[test]
fn a_playable_layout_is_taken_as_it_is() {
    let mut board = Board::new();
    board.set((4, 4), Sprites::Player);
    board.set((8, 8), Sprites::Robot);
    board.set((9, 9), Sprites::Robot);
    board.set((2, 2), Sprites::Wall);
    board.set((3, 3), Sprites::DeadRobot);
    let game = Game::with_layout(board, (4, 4), vec![(9, 9), (8, 8)], 5, 1).expect("the layout is playable");
    assert_eq!(game.player_position(), (4, 4));
    assert_eq!(game.robots().clone(), vec![(9, 9), (8, 8)]);
    assert_eq!(game.teleports_left(), 5);
    assert_eq!(game.sprite_at((4, 4)), Sprites::Player);
    assert_eq!(game.sprite_at((8, 8)), Sprites::Robot);
    assert_eq!(game.sprite_at((2, 2)), Sprites::Wall);
    assert_eq!(game.sprite_at((3, 3)), Sprites::DeadRobot);
    assert!(game.in_order());
}

#[test]
fn a_layout_without_the_player_mark_is_refused() {
    let board = Board::new();
    assert!(Game::with_layout(board, (4, 4), vec![], 0, 0).is_none());
}

#[test]
fn a_layout_with_the_player_off_the_inside_is_refused() {
    for player in [(0, 4), (4, 0), (WIDTH, 4), (4, HEIGHT), (41, 4), (4, 21), (u16::MAX, u16::MAX)] {
        let mut board = Board::new();
        board.set((4, 4), Sprites::Player);
        assert!(Game::with_layout(board, player, vec![], 0, 0).is_none());
    }
}

#[test]
fn a_layout_with_a_second_player_mark_is_refused() {
    let mut board = Board::new();
    board.set((4, 4), Sprites::Player);
    board.set((5, 5), Sprites::Player);
    assert!(Game::with_layout(board, (4, 4), vec![], 0, 0).is_none());
}

#[test]
fn a_layout_with_an_unmarked_robot_is_refused() {
    let mut board = Board::new();
    board.set((4, 4), Sprites::Player);
    assert!(Game::with_layout(board, (4, 4), vec![(8, 8)], 0, 0).is_none());
}

#[test]
fn a_layout_with_a_robot_mark_off_the_roster_is_refused() {
    let mut board = Board::new();
    board.set((4, 4), Sprites::Player);
    board.set((8, 8), Sprites::Robot);
    board.set((9, 9), Sprites::Robot);
    assert!(Game::with_layout(board, (4, 4), vec![(8, 8)], 0, 0).is_none());
}

#[test]
fn a_layout_with_a_robot_off_the_inside_is_refused() {
    for robot in [(0, 8), (8, 0), (WIDTH, 8), (8, HEIGHT), (100, 100)] {
        let mut board = Board::new();
        board.set((4, 4), Sprites::Player);
        assert!(Game::with_layout(board, (4, 4), vec![robot], 0, 0).is_none());
    }
}

#[test]
fn a_roster_may_name_one_cell_twice() {
    let mut board = Board::new();
    board.set((4, 4), Sprites::Player);
    board.set((8, 8), Sprites::Robot);
    let game = Game::with_layout(board, (4, 4), vec![(8, 8), (8, 8)], 0, 0).expect("the layout is playable");
    assert_eq!(game.robots().len(), 2);
}

#[test]
fn a_player_mark_set_on_a_robot_puts_the_game_out_of_order() {
    let mut game = laid_out((10, 10), &[(11, 10)], &[], &[]);
    assert!(game.in_order());
    assert!(!game.is_open_to_player((11, 10)));
    game.update_player_position((11, 10));
    assert_eq!(game.sprite_at((11, 10)), Sprites::Player);
    assert!(!game.in_order());
}

#[test]
fn cells_open_to_the_player_hold_neither_wall_nor_robot() {
    let game = laid_out((10, 10), &[(11, 10)], &[(12, 10)], &[(13, 10)]);
    assert!(game.is_open_to_player((10, 10)));
    assert!(game.is_open_to_player((13, 10)));
    assert!(game.is_open_to_player((14, 10)));
    assert!(!game.is_open_to_player((11, 10)));
    assert!(!game.is_open_to_player((12, 10)));
    assert!(!game.is_open_to_player((0, 10)));
    assert!(!game.is_open_to_player((WIDTH, HEIGHT)));
    assert!(!game.is_open_to_player((WIDTH + 1, 5)));
    assert!(!game.is_open_to_player((5, HEIGHT + 1)));
}
