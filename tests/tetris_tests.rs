use tetris::block::{i, j, l, o, s, t, z, Block};
use tetris::board::Board;

#[test]
fn tetris_test_move_block_i() {
    let mut board = Board::new(3, 6);
    assert_eq!(board.cells().len(), 3 * 6);
    assert!(board.set_block(i()).is_ok());
    assert!(board.move_right().is_ok());
    assert!(board.move_right().is_ok());
    assert!(board.move_right().is_err());
    assert!(board.move_left().is_ok());
    assert!(board.move_left().is_ok());
    assert!(board.move_left().is_err());
    assert!(board.move_down().is_ok());
    assert!(board.move_down().is_ok());
    assert!(board.move_down().is_err());
}

#[test]
fn tetris_test_move_block_o() {
    let mut board = Board::new(3, 6);
    assert_eq!(board.cells().len(), 3 * 6);
    assert!(board.set_block(o()).is_ok());
    assert!(board.move_right().is_ok());
    assert!(board.move_right().is_err());
    assert!(board.move_left().is_ok());
    assert!(board.move_left().is_err());
    assert!(board.move_down().is_ok());
    assert!(board.move_down().is_ok());
    assert!(board.move_down().is_ok());
    assert!(board.move_down().is_ok());
    assert!(board.move_down().is_err());
}

#[test]
fn tetris_test_move_block_t() {
    let mut board = Board::new(3, 6);
    assert_eq!(board.cells().len(), 3 * 6);
    assert!(board.set_block(t()).is_ok());
    assert!(board.move_right().is_err());
    assert!(board.move_left().is_err());
    assert!(board.move_down().is_ok());
    assert!(board.move_down().is_ok());
    assert!(board.move_down().is_ok());
    assert!(board.move_down().is_ok());
    assert!(board.move_down().is_err());
}

#[test]
fn tetris_test_rotate_t() {
    let mut board = Board::new(5, 5);
    assert!(board.set_block(t()).is_ok());
    assert!(board.move_right().is_ok());
    assert!(board.move_down().is_ok());
    assert!(board.rotate().is_ok());
    assert!(board.move_right().is_ok());
    assert!(board.move_right().is_ok());
    assert!(board.rotate().is_err());
    assert!(board.move_left().is_ok());
    assert!(board.rotate().is_ok());
    assert!(board.move_down().is_ok());
    assert!(board.move_down().is_ok());
    assert!(board.rotate().is_err());
}

#[test]
fn tetris_test_land() {
    let mut board = Board::new(5, 5);
    assert!(board.spawn_block(t()).is_ok());
    assert!(board.land().is_ok());
    board.settle_block();
    assert!(board.spawn_block(o()).is_ok());
    assert!(board.land().is_ok());
    board.settle_block();
    assert!(board.spawn_block(z()).is_err());
}

#[test]
fn tetris_test_rotate_block() {
    assert_eq!(o().rotate(), o());
    assert_eq!(i().rotate(), Block::new(4, 1, "####".as_bytes().to_vec()));
    assert_eq!(i().rotate().rotate(), i());
    assert_eq!(s().rotate(), Block::new(2, 3, "#.##.#".as_bytes().to_vec()));
    assert_eq!(s().rotate().rotate(), s());
    assert_eq!(z().rotate(), Block::new(2, 3, ".####.".as_bytes().to_vec()));
    assert_eq!(z().rotate().rotate(), z());
    assert_eq!(l().rotate(), Block::new(2, 3, "#.#.##".as_bytes().to_vec()));
    assert_eq!(l().rotate().rotate(), Block::new(3, 2, "..####".as_bytes().to_vec()));
    assert_eq!(l().rotate().rotate().rotate(), Block::new(2, 3, "##.#.#".as_bytes().to_vec()));
    assert_eq!(l().rotate().rotate().rotate().rotate(), l());
    assert_eq!(j().rotate(), Block::new(2, 3, "###.#.".as_bytes().to_vec()));
    assert_eq!(j().rotate().rotate(), Block::new(3, 2, "#..###".as_bytes().to_vec()));
    assert_eq!(j().rotate().rotate().rotate(), Block::new(2, 3, ".#.###".as_bytes().to_vec()));
    assert_eq!(j().rotate().rotate().rotate().rotate(), j());
    assert_eq!(t().rotate(), Block::new(2, 3, "#.###.".as_bytes().to_vec()));
    assert_eq!(t().rotate().rotate(), Block::new(3, 2, ".#.###".as_bytes().to_vec()));
    assert_eq!(t().rotate().rotate().rotate(), Block::new(2, 3, ".###.#".as_bytes().to_vec()));
    assert_eq!(t().rotate().rotate().rotate().rotate(), t());
}
