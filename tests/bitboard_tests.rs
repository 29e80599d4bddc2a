use chess::bitboard::{bitscan_forward, BitBoard};

#[test]
fn test_bitscan_forward() {
    let index = bitscan_forward(0x1000);
    assert_eq!(index, 12, "Did not correctly find index of least significant bit");
}

#[test]
fn piece_is_present() {
    let initial_bits: u64 = 0b00000001_00000001_00000001_00000001_00000001_00000001_00000001_00000001;
    let board = BitBoard::new(initial_bits);
    assert_eq!(board.clone().piece_is_present(0), true, "Does not correctly find piece in occupied square");
    assert_eq!(board.piece_is_present(2), false, "Incorrectly finds piece in empty square");
}

#[test]
fn bitboard_test_count_bits() {
    let initial_bits: u64 = 0b00000001_00000001_00000001_00000001_00000001_00000001_00000001_00000001;
    let board = BitBoard::new(initial_bits);
    assert_eq!(board.count_bits(), 8, "New matrix did not contain correct data");
    let board2 = BitBoard::new(initial_bits);
    assert_eq!(board2.count_bits(), 8, "Did not count correct number of bits");
}

#[test]
fn test_reset() {
    let initial_bits: u64 = 0b00000000_00000000_00000001_00000000_00000000_00000000_00000000_00000000;
    let mut board = BitBoard::new(initial_bits);
    board.reset();
    assert_eq!(board.board, 0, "Did not correctly reset board");
}

#[test]
fn test_set_bit() {
    let initial_bits: u64 = 0b00000000_00000000_00000001_00000000_00000000_00000000_00000000_00000000;
    let expected_board: u64 = 0b00000000_00000000_00000001_00000000_00000000_00000000_00000000_00000100;
    let mut board = BitBoard::new(initial_bits);
    board.set_bit(2);
    assert_eq!(board.clone().board, expected_board, "Does not correctly set a bit");
    board.set_bit(2);
    assert_eq!(board.board, expected_board, "Does not correctly leave a set bit set");
}

#[test]
fn test_clear_bit() {
    let initial_bits: u64 = 0b00000000_00000000_00000001_00000000_00000000_00000000_00000000_00000100;
    let expected_board: u64 = 0b00000000_00000000_00000001_00000000_00000000_00000000_00000000_00000000;
    let mut board = BitBoard::new(initial_bits);
    board.clear_bit(2);
    assert_eq!(board.clone().board, expected_board, "Does not correctly clear a bit");
    board.clear_bit(2);
    assert_eq!(board.clone().board, expected_board, "Does not correctly leave a clear bit cleared");
}

#[test]
fn test_move_bit() {
    let initial_bits: u64 = 0b00000000_00000000_00000001_00000000_00000000_00000000_00000000_00000100;
    let expected_board: u64 = 0b00000000_00000000_00000001_00000000_00000000_00000000_00000000_00001000;
    let mut board = BitBoard::new(initial_bits);
    board.move_bit(2, 3);
    assert_eq!(board.board, expected_board, "Does not correctly clear a bit");
}

#[test]
fn test_piece_is_present() {
    let initial_bits: u64 = 0b00000001_00000001_00000001_00000001_00000001_00000001_00000001_00000001;
    let board = BitBoard::new(initial_bits);
    assert_eq!(board.clone().piece_is_present(0), true, "Does not correctly find piece in occupied square");
    assert_eq!(board.piece_is_present(2), false, "Incorrectly finds piece in empty square.");
}

#[test]
fn test_pop_bit() {
    let initial_bits: u64 = 0b00000001_00000001_00000001_00000001_00000001_00000001_00000001_00100000;
    let mut board = BitBoard::new(initial_bits);
    let index = board.pop_bit();
    assert_eq!(board.count_bits(), 7, "Did not remove correct number of bits");
    assert_eq!(
        board.board,
        0b00000001_00000001_00000001_00000001_00000001_00000001_00000001_00000000,
        "Did not remove correct bit"
    );
    assert_eq!(index, 5, "Did not return correct index");
}

#[test]
fn bitscan_forward_highest_bit() {
    assert_eq!(bitscan_forward(1u64 << 63), 63);
    assert_eq!(bitscan_forward(u64::MAX), 0);
}

#[test]
fn count_bits_of_empty_and_full_masks() {
    assert_eq!(BitBoard::new(0).count_bits(), 0);
    assert_eq!(BitBoard::new(u64::MAX).count_bits(), 64);
}

#[test]
fn grid_chars_marks_set_bits() {
    let board = BitBoard::new(0x0000_0000_0000_FF01);
    let text = String::from_utf8(board.grid_chars()).unwrap();
    let lines: Vec<&str> = text.lines().collect();
    assert_eq!(lines.len(), 8);
    assert_eq!(lines[0], "x - - - - - - - ");
    assert_eq!(lines[1], "x x x x x x x x ");
    assert_eq!(lines[7], "- - - - - - - - ");
}
