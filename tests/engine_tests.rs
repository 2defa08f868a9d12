use tetris::block::{default_blocks, i, j, l, none, o, s, t, z, Block};
use tetris::board::Board;
use tetris::game::{Action, Game};

#[test]
fn four_rotations_restore_every_catalogue_block() {
    for b in default_blocks() {
        assert_eq!(b.rotate().rotate().rotate().rotate(), b);
    }
    let odd = Block::new(3, 1, "#..".as_bytes().to_vec());
    assert_eq!(odd.rotate().rotate().rotate().rotate(), odd);
}

#[test]
fn o_block_is_unchanged_by_rotation() {
    assert_eq!(o().rotate(), o());
    assert_ne!(t().rotate(), t());
}

#[test]
fn rotation_swaps_width_and_height() {
    let r = l().rotate();
    assert_eq!(r.width(), 2);
    assert_eq!(r.height(), 3);
    assert_eq!(none().rotate(), none());
}

#[test]
fn block_cells_read_row_by_row() {
    let b = t();
    assert_eq!(b.cell(0, 0), '#');
    assert_eq!(b.cell(0, 1), '.');
    assert_eq!(b.cell(1, 1), '#');
    assert!(b.is_filled(2, 0));
    assert!(!b.is_filled(2, 1));
}

#[test]
fn new_board_is_empty() {
    let board = Board::new(3, 2);
    assert_eq!(board.width(), 3);
    assert_eq!(board.height(), 2);
    assert_eq!(board.render(), "...\n...\n");
    assert_eq!(board.anchor(), (0, 0));
    assert_eq!(board.block(), &none());
    assert_eq!(board.score(), 0);
    assert_eq!(board.cell((2, 1)), '.');
}

#[test]
fn empty_board_renders_nothing() {
    let mut board = Board::new(0, 0);
    assert_eq!(board.render(), "");
    assert_eq!(board.spawn_block(o()), Err(()));
}

#[test]
fn right_moves_stop_exactly_at_the_wall() {
    let mut board = Board::new(7, 4);
    assert_eq!(board.set_block(o()), Ok(()));
    for _ in 0..5 {
        assert_eq!(board.move_right(), Ok(()));
    }
    assert_eq!(board.anchor(), (5, 0));
    assert_eq!(board.move_right(), Err(()));
    assert_eq!(board.anchor(), (5, 0));
}

#[test]
fn left_moves_stop_exactly_at_column_zero() {
    let mut board = Board::new(7, 4);
    assert_eq!(board.spawn_block(o()), Ok(()));
    assert_eq!(board.anchor(), (3, 0));
    for _ in 0..3 {
        assert_eq!(board.move_left(), Ok(()));
    }
    assert_eq!(board.anchor(), (0, 0));
    assert_eq!(board.move_left(), Err(()));
    assert_eq!(board.anchor(), (0, 0));
}

#[test]
fn rejected_moves_change_nothing() {
    let mut board = Board::new(4, 4);
    assert_eq!(board.spawn_block(i()), Ok(()));
    let cells = board.cells().clone();
    let block = board.block().duplicate();
    let anchor = board.anchor();
    assert_eq!(board.move_down(), Err(()));
    assert_eq!(board.rotate(), Err(()));
    assert_eq!(board.land(), Err(()));
    assert_eq!(board.spawn_block(s()), Err(()));
    assert_eq!(board.set_block(z()), Err(()));
    assert_eq!(board.cells(), &cells);
    assert_eq!(board.block(), &block);
    assert_eq!(board.anchor(), anchor);
}

#[test]
fn moves_are_blocked_by_filled_cells() {
    let mut board = Board::new(5, 4);
    assert_eq!(board.spawn_block(i()), Ok(()));
    board.settle_block();
    assert_eq!(board.render(), "..#..\n..#..\n..#..\n..#..\n");
    assert_eq!(board.move_right(), Ok(()));
    assert_eq!(board.set_block(o()), Ok(()));
    assert_eq!(board.anchor(), (3, 0));
    assert_eq!(board.move_left(), Err(()));
    assert_eq!(board.anchor(), (3, 0));
    assert_eq!(board.check_collide(&o(), (0, 0)), Ok(()));
    assert_eq!(board.check_collide(&o(), (1, 2)), Err(()));
    assert_eq!(board.check_collide(&o(), (4, 0)), Err(()));
    assert_eq!(board.check_collide(&i(), (0, 1)), Err(()));
    assert_eq!(board.check_collide(&i(), (4, 0)), Ok(()));
}

#[test]
fn land_drops_to_the_lowest_free_row() {
    let mut board = Board::new(4, 6);
    assert_eq!(board.spawn_block(o()), Ok(()));
    assert_eq!(board.land(), Ok(()));
    assert_eq!(board.anchor(), (2, 4));
    assert_eq!(board.land(), Err(()));
    assert_eq!(board.anchor(), (2, 4));
}

#[test]
fn settle_fills_exactly_the_block_cells() {
    let mut board = Board::new(5, 5);
    assert_eq!(board.spawn_block(t()), Ok(()));
    assert_eq!(board.land(), Ok(()));
    assert_eq!(board.anchor(), (2, 3));
    board.settle_block();
    assert_eq!(board.render(), ".....\n.....\n.....\n..###\n...#.\n");
    assert_eq!(board.anchor(), (2, 3));
    assert_eq!(board.block(), &none());
    assert_eq!(board.cell((3, 4)), '#');
    assert_eq!(board.cell((2, 4)), '.');
}

#[test]
fn second_block_lands_on_the_first() {
    let mut board = Board::new(5, 5);
    assert_eq!(board.spawn_block(t()), Ok(()));
    assert_eq!(board.land(), Ok(()));
    board.settle_block();
    assert_eq!(board.spawn_block(o()), Ok(()));
    assert_eq!(board.land(), Ok(()));
    assert_eq!(board.anchor(), (2, 1));
    board.settle_block();
    assert_eq!(board.render(), ".....\n..##.\n..##.\n..###\n...#.\n");
    assert_eq!(board.spawn_block(z()), Err(()));
}

#[test]
fn spawn_rejects_on_a_field_too_small() {
    let mut board = Board::new(2, 2);
    assert_eq!(board.spawn_block(t()), Err(()));
    assert_eq!(board.spawn_block(i()), Err(()));
    let mut rng = rand::thread_rng();
    let mut tiny = Board::new(1, 1);
    for _ in 0..20 {
        assert_eq!(tiny.spawn_random_block(&mut rng), Err(()));
        assert_eq!(tiny.anchor(), (0, 0));
        assert_eq!(tiny.block(), &none());
    }
}

#[test]
fn random_spawn_picks_a_catalogue_block() {
    let catalogue = vec![o(), i(), s(), z(), l(), j(), t()];
    let mut rng = rand::thread_rng();
    for _ in 0..20 {
        let mut board = Board::new(10, 20);
        assert_eq!(board.spawn_random_block(&mut rng), Ok(()));
        assert_eq!(board.anchor(), (5, 0));
        assert!(catalogue.contains(board.block()));
    }
}

#[test]
fn game_applies_actions_until_stopped() {
    let mut game = Game::new(4, 3);
    assert!(!game.is_stopped());
    assert_eq!(game.handle(Action::MoveLeft), Err(()));
    assert_eq!(game.handle(Action::MoveDown), Ok(()));
    assert_eq!(game.board().anchor(), (0, 1));
    assert_eq!(game.handle(Action::MoveRight), Ok(()));
    assert_eq!(game.handle(Action::Rotate), Ok(()));
    assert_eq!(game.handle(Action::Land), Ok(()));
    assert_eq!(game.board().anchor(), (1, 3));
    assert_eq!(game.handle(Action::Land), Err(()));
    assert_eq!(game.handle(Action::Stop), Ok(()));
    assert!(game.is_stopped());
    assert_eq!(game.handle(Action::MoveLeft), Ok(()));
    assert_eq!(game.board().anchor(), (1, 3));
    assert!(game.is_stopped());
}

#[test]
fn spawned_i_block_meets_the_walls_and_floor() {
    let mut board = Board::new(3, 6);
    assert_eq!(board.spawn_block(i()), Ok(()));
    assert_eq!(board.anchor(), (1, 0));
    assert_eq!(board.move_right(), Ok(()));
    assert_eq!(board.move_right(), Err(()));
    assert_eq!(board.move_left(), Ok(()));
    assert_eq!(board.move_left(), Ok(()));
    assert_eq!(board.move_left(), Err(()));
    assert_eq!(board.anchor(), (0, 0));
    assert_eq!(board.move_down(), Ok(()));
    assert_eq!(board.move_down(), Ok(()));
    assert_eq!(board.move_down(), Err(()));
    assert_eq!(board.anchor(), (0, 2));
}

#[test]
fn rotated_t_block_is_stopped_by_the_wall() {
    let mut board = Board::new(5, 5);
    assert_eq!(board.set_block(t()), Ok(()));
    assert_eq!(board.move_right(), Ok(()));
    assert_eq!(board.move_down(), Ok(()));
    assert_eq!(board.anchor(), (1, 1));
    assert_eq!(board.rotate(), Ok(()));
    assert_eq!(board.block(), &Block::new(2, 3, "#.###.".as_bytes().to_vec()));
    assert_eq!(board.move_right(), Ok(()));
    assert_eq!(board.move_right(), Ok(()));
    assert_eq!(board.anchor(), (3, 1));
    assert_eq!(board.rotate(), Err(()));
    assert_eq!(board.anchor(), (3, 1));
    assert_eq!(board.block(), &Block::new(2, 3, "#.###.".as_bytes().to_vec()));
    assert_eq!(board.move_left(), Ok(()));
    assert_eq!(board.rotate(), Ok(()));
    assert_eq!(board.block(), &Block::new(3, 2, ".#.###".as_bytes().to_vec()));
    assert_eq!(board.move_down(), Ok(()));
    assert_eq!(board.move_down(), Ok(()));
    assert_eq!(board.anchor(), (2, 3));
    assert_eq!(board.rotate(), Err(()));
}
