use macroquad::color::Color;
use tetris::block::Block;
use tetris::game_handler::{Game, Intent, MoveDirection, GRAVITY_INTERVAL};
use tetris::piece::{Piece, PieceEnum};

use PieceEnum::{I, J, L, O, S, T, Z};

fn cells(game: &Game) -> Vec<(i32, i32)> {
    game.inplay.shape.iter().map(|block| block.location).collect()
}

fn shifted(cells: &[(i32, i32)], dx: i32, dy: i32) -> Vec<(i32, i32)> {
    cells.iter().map(|(x, y)| (x + dx, y + dy)).collect()
}

fn landed(locations: &[(i32, i32)]) -> Piece {
    Piece {
        shape: locations.iter().map(|l| Block::new(*l)).collect(),
        center: locations[0],
        color: Color::from_rgba(1, 2, 3, 255),
        piece_enum: T,
    }
}

fn game_of(first: PieceEnum) -> Game {
    let mut bag = vec![first];
    for kind in [I, O, T, S, Z, J, L] {
        if kind != first {
            bag.push(kind);
        }
    }
    bag.push(first);
    Game::from_bag([bag[0], bag[1], bag[2], bag[3], bag[4], bag[5], bag[6], bag[7]], 0)
}

#[test]
fn move_left_shifts_every_cell() {
    let mut game = game_of(T);
    let before = cells(&game);
    assert!(!game.move_piece(MoveDirection::Left));
    assert_eq!(cells(&game), shifted(&before, -1, 0));
    assert_eq!(game.inplay.center, (4, -2));
}

#[test]
fn move_right_shifts_every_cell() {
    let mut game = game_of(T);
    let before = cells(&game);
    assert!(!game.move_piece(MoveDirection::Right));
    assert_eq!(cells(&game), shifted(&before, 1, 0));
    assert_eq!(game.inplay.center, (6, -2));
}

#[test]
fn move_down_shifts_every_cell() {
    let mut game = game_of(T);
    let before = cells(&game);
    assert!(!game.move_piece(MoveDirection::Down));
    assert_eq!(cells(&game), shifted(&before, 0, 1));
    assert_eq!(game.inplay.center, (5, -1));
}

#[test]
fn move_into_the_left_wall_is_refused() {
    let mut game = game_of(T);
    for _ in 0..4 {
        assert!(!game.move_piece(MoveDirection::Left));
    }
    let before = cells(&game);
    let center = game.inplay.center;
    assert_eq!(before, vec![(1, -2), (0, -2), (2, -2), (1, -1)]);
    assert!(game.move_piece(MoveDirection::Left));
    assert_eq!(cells(&game), before);
    assert_eq!(game.inplay.center, center);
}

#[test]
fn move_into_the_right_wall_is_refused() {
    let mut game = game_of(T);
    for _ in 0..3 {
        assert!(!game.move_piece(MoveDirection::Right));
    }
    let before = cells(&game);
    assert_eq!(before, vec![(8, -2), (7, -2), (9, -2), (8, -1)]);
    assert!(game.move_piece(MoveDirection::Right));
    assert_eq!(cells(&game), before);
    assert_eq!(game.inplay.center, (8, -2));
}

#[test]
fn move_into_the_floor_is_refused() {
    let mut game = game_of(O);
    for _ in 0..20 {
        assert!(!game.move_piece(MoveDirection::Down));
    }
    let before = cells(&game);
    assert_eq!(before, vec![(4, 18), (4, 19), (5, 18), (5, 19)]);
    assert!(game.move_piece(MoveDirection::Down));
    assert_eq!(cells(&game), before);
    assert_eq!(game.inplay.center, (4, 18));
}

#[test]
fn move_into_a_landed_cell_is_refused_as_a_whole() {
    let mut game = game_of(T);
    game.playfield.push(landed(&[(3, -2)]));
    let before = cells(&game);
    assert!(game.move_piece(MoveDirection::Left));
    assert_eq!(cells(&game), before);
    assert_eq!(game.inplay.center, (5, -2));
    assert!(!game.move_piece(MoveDirection::Right));
    assert_eq!(cells(&game), shifted(&before, 1, 0));
}

#[test]
fn a_move_is_whole_or_not_at_all() {
    for direction in [MoveDirection::Left, MoveDirection::Right, MoveDirection::Down] {
        let (dx, dy) = match direction {
            MoveDirection::Left => (-1, 0),
            MoveDirection::Right => (1, 0),
            MoveDirection::Down => (0, 1),
        };
        let mut game = game_of(L);
        game.playfield.push(landed(&[(2, -1), (7, -3), (4, 3)]));
        for _ in 0..12 {
            let before = cells(&game);
            let center = game.inplay.center;
            if game.move_piece(direction) {
                assert_eq!(cells(&game), before);
                assert_eq!(game.inplay.center, center);
            } else {
                assert_eq!(cells(&game), shifted(&before, dx, dy));
                assert_eq!(game.inplay.center, (center.0 + dx, center.1 + dy));
            }
        }
    }
}

#[test]
fn move_changes_nothing_else() {
    let mut game = game_of(S);
    game.playfield.push(landed(&[(0, 19), (1, 19)]));
    game.score = 300;
    let bag = game.bag;
    assert!(!game.move_piece(MoveDirection::Down));
    assert_eq!(game.score, 300);
    assert_eq!(game.bag, bag);
    assert_eq!(game.bag_i, 1);
    assert!(!game.lost);
    assert_eq!(game.playfield.len(), 1);
    assert_eq!(game.playfield[0].shape.len(), 2);
    assert_eq!(game.inplay.piece_enum, S);
    assert_eq!(game.inplay.color, Color::from_rgba(0, 255, 0, 255));
}

#[test]
fn rotate_t_about_its_center() {
    let mut game = game_of(T);
    game.rotate_piece();
    assert_eq!(cells(&game), vec![(5, -2), (5, -3), (5, -1), (4, -2)]);
    assert_eq!(game.inplay.center, (5, -2));
}

#[test]
fn rotate_i_about_its_center() {
    let mut game = game_of(I);
    game.rotate_piece();
    assert_eq!(cells(&game), vec![(5, -3), (6, -3), (4, -3), (3, -3)]);
    assert_eq!(game.inplay.center, (5, -3));
    game.rotate_piece();
    assert_eq!(cells(&game), vec![(5, -3), (5, -2), (5, -4), (5, -5)]);
}

#[test]
fn four_turns_give_the_first_shape() {
    for kind in [I, O, T, S, Z, J, L] {
        let mut game = game_of(kind);
        for _ in 0..3 {
            assert!(!game.move_piece(MoveDirection::Down));
        }
        let before = cells(&game);
        let center = game.inplay.center;
        for _ in 0..4 {
            game.rotate_piece();
            assert_eq!(game.inplay.center, center);
        }
        assert_eq!(cells(&game), before);
    }
}

#[test]
fn rotate_into_the_wall_is_refused() {
    let mut game = game_of(I);
    for _ in 0..5 {
        assert!(!game.move_piece(MoveDirection::Left));
    }
    let before = cells(&game);
    assert_eq!(before, vec![(0, -3), (0, -4), (0, -2), (0, -1)]);
    game.rotate_piece();
    assert_eq!(cells(&game), before);
    assert_eq!(game.inplay.center, (0, -3));
}

#[test]
fn rotate_into_a_landed_cell_is_refused() {
    let mut game = game_of(T);
    game.playfield.push(landed(&[(5, -3)]));
    let before = cells(&game);
    game.rotate_piece();
    assert_eq!(cells(&game), before);
    assert_eq!(game.inplay.center, (5, -2));
}

#[test]
fn rotate_is_refused_when_the_center_is_taken() {
    let mut game = game_of(T);
    game.playfield.push(landed(&[(5, -2)]));
    let before = cells(&game);
    game.rotate_piece();
    assert_eq!(cells(&game), before);
}

#[test]
fn hard_drop_of_o_reaches_the_floor() {
    let mut game = game_of(O);
    assert_eq!(game.hard_drop(), 20);
    assert_eq!(cells(&game), vec![(4, 18), (4, 19), (5, 18), (5, 19)]);
    assert_eq!(game.inplay.center, (4, 18));
    assert_eq!(game.hard_drop(), 0);
    assert!(game.playfield.is_empty());
}

#[test]
fn hard_drop_stops_on_landed_cells() {
    let mut game = game_of(O);
    game.playfield.push(landed(&[(5, 10)]));
    assert_eq!(game.hard_drop(), 10);
    assert_eq!(cells(&game), vec![(4, 8), (4, 9), (5, 8), (5, 9)]);
}

#[test]
fn gravity_waits_for_the_interval() {
    assert_eq!(GRAVITY_INTERVAL, 1000);
    let game = Game::from_bag([T, O, I, S, Z, J, L, T], 50);
    let before = cells(&game);
    let game = game.gravity_tick(1050);
    assert_eq!(cells(&game), before);
    assert_eq!(game.timer, 50);
    let game = game.gravity_tick(20);
    assert_eq!(cells(&game), before);
    assert_eq!(game.timer, 50);
}

#[test]
fn gravity_pulls_one_row_after_the_interval() {
    for kind in [I, O, T, S, Z, J, L] {
        let game = game_of(kind);
        let before = cells(&game);
        let center = game.inplay.center;
        let game = game.gravity_tick(1001);
        assert_eq!(cells(&game), shifted(&before, 0, 1));
        assert_eq!(game.inplay.center, (center.0, center.1 + 1));
        assert_eq!(game.timer, 1001);
        assert!(game.playfield.is_empty());
        assert_eq!(game.bag_i, 1);
        let game = game.gravity_tick(2001);
        assert_eq!(cells(&game), shifted(&before, 0, 1));
        let game = game.gravity_tick(2002);
        assert_eq!(cells(&game), shifted(&before, 0, 2));
        assert_eq!(game.timer, 2002);
    }
}

#[test]
fn gravity_locks_a_piece_that_cannot_fall() {
    let mut game = Game::from_bag([O, T, I, S, Z, J, L, O], 0);
    game.hard_drop();
    let game = game.gravity_tick(5000);
    assert_eq!(game.timer, 5000);
    assert_eq!(game.playfield.len(), 1);
    let locked: Vec<(i32, i32)> = game.playfield[0].shape.iter().map(|b| b.location).collect();
    assert_eq!(locked, vec![(4, 18), (4, 19), (5, 18), (5, 19)]);
    assert_eq!(game.inplay.piece_enum, T);
    assert_eq!(cells(&game), vec![(5, -2), (4, -2), (6, -2), (5, -1)]);
    assert_eq!(game.bag_i, 2);
    assert!(!game.lost);
    assert_eq!(game.score, 0);
}

#[test]
fn gravity_marks_the_loss_when_a_piece_locks_at_the_top() {
    let mut game = Game::from_bag([O, T, I, S, Z, J, L, O], 0);
    game.playfield.push(landed(&[(4, 0), (5, 0)]));
    let game = game.gravity_tick(1500);
    assert!(game.lost);
    assert_eq!(game.playfield.len(), 2);
    assert_eq!(game.timer, 1500);
    let before = cells(&game);
    let game = game.gravity_tick(9000);
    assert!(game.lost);
    assert_eq!(cells(&game), before);
    assert_eq!(game.timer, 1500);
    assert_eq!(game.playfield.len(), 2);
}

#[test]
fn gravity_clears_a_row_that_the_lock_fills() {
    let mut game = Game::from_bag([O, T, I, S, Z, J, L, O], 0);
    game.playfield.push(landed(&[(0, 19), (1, 19), (2, 19), (3, 19)]));
    game.playfield.push(landed(&[(6, 19), (7, 19), (8, 19), (9, 19)]));
    game.hard_drop();
    let game = game.gravity_tick(1001);
    assert_eq!(game.score, 100);
    assert_eq!(game.playfield.len(), 3);
    assert!(game.playfield[0].shape.is_empty());
    assert!(game.playfield[1].shape.is_empty());
    let rest: Vec<(i32, i32)> = game.playfield[2].shape.iter().map(|b| b.location).collect();
    assert_eq!(rest, vec![(4, 19), (5, 19)]);
    assert!(!game.lost);
}

#[test]
fn requests_move_the_piece() {
    let game = game_of(T);
    let game = game.apply(Intent::MoveLeft, 0);
    assert_eq!(cells(&game), vec![(4, -2), (3, -2), (5, -2), (4, -1)]);
    let game = game.apply(Intent::MoveRight, 0).apply(Intent::MoveRight, 0);
    assert_eq!(cells(&game), vec![(6, -2), (5, -2), (7, -2), (6, -1)]);
    let game = game.apply(Intent::MoveDown, 0);
    assert_eq!(cells(&game), vec![(6, -1), (5, -1), (7, -1), (6, 0)]);
    let game = game.apply(Intent::Rotate, 0);
    assert_eq!(cells(&game), vec![(6, -1), (6, -2), (6, 0), (5, -1)]);
    let game = game.apply(Intent::HardDrop, 0);
    assert_eq!(cells(&game), vec![(6, 18), (6, 17), (6, 19), (5, 18)]);
    assert!(game.playfield.is_empty());
    let game = game.apply(Intent::Hold, 0);
    assert_eq!(game.inplay.piece_enum, I);
    assert_eq!(game.bag[1], T);
    let game = game.apply(Intent::Quit, 0);
    assert_eq!(game.inplay.piece_enum, I);
    let game = game.apply(Intent::Restart, 77);
    assert_eq!(game.inplay.piece_enum, I);
    assert_eq!(game.timer, 0);
}

#[test]
fn a_lost_game_answers_to_restart_alone() {
    let intents = [
        Intent::MoveLeft,
        Intent::MoveRight,
        Intent::MoveDown,
        Intent::HardDrop,
        Intent::Rotate,
        Intent::Hold,
        Intent::Quit,
    ];
    for intent in intents {
        let mut game = game_of(Z);
        game.playfield.push(landed(&[(0, -1)]));
        game.lost = true;
        game.score = 700;
        let before = cells(&game);
        let bag = game.bag;
        let game = game.apply(intent, 10);
        assert!(game.lost);
        assert_eq!(cells(&game), before);
        assert_eq!(game.bag, bag);
        assert_eq!(game.score, 700);
        assert_eq!(game.playfield.len(), 1);
    }
    let mut game = game_of(Z);
    game.playfield.push(landed(&[(0, -1)]));
    game.lost = true;
    game.score = 700;
    let game = game.apply(Intent::Restart, 10);
    assert!(!game.lost);
    assert_eq!(game.score, 0);
    assert!(game.playfield.is_empty());
    assert_eq!(game.bag_i, 1);
    assert_eq!(game.inplay.piece_enum, game.bag[0]);
    assert_eq!(game.timer, 10);
}

#[test]
fn the_loss_flag_survives_every_operation() {
    let mut game = game_of(J);
    game.playfield.push(landed(&[(3, 5)]));
    game.lost = true;
    game.move_piece(MoveDirection::Left);
    assert!(game.lost);
    game.rotate_piece();
    assert!(game.lost);
    game.hard_drop();
    assert!(game.lost);
    game.next_piece();
    assert!(game.lost);
    game.check_lose();
    assert!(game.lost);
    game.check_line();
    assert!(game.lost);
    game.remove_line(5);
    assert!(game.lost);
    game.move_board_down(19);
    assert!(game.lost);
    game = game.hold_piece();
    assert!(game.lost);
    game = game.place_piece();
    assert!(game.lost);
    game = game.gravity_tick(100_000);
    assert!(game.lost);
}
