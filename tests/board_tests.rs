use chess::audit::check_board;
use chess::board::Board;
use chess::fen::FenError;
use chess::gamemove::GameMove;
use chess::pieces::{
    BLACK, BLACK_S, BP, BQ_CASTLE, BR, EMPTY, WB, WHITE, WHITE_S, WK_CASTLE, WN, WP, WQ_CASTLE, WR,
};
use chess::squares::{fr2sq, A3, E3, F3, FILE_D, FILE_E, FILE_F, NO_SQ, OFFBOARD, RANK_1, RANK_2, RANK_5, RANK_6};

fn board_from(fen: &str) -> Board {
    let mut board = Board::new();
    board.parse_fen(fen).unwrap();
    board
}

#[test]
fn board_test_fr2sq() {
    let square = fr2sq(3, 5);
    assert_eq!(square, 74, "Did not convert file and rank into correct square");
}

#[test]
fn test_new_board() {
    let board = Board::new();
    assert_eq!(board.sq120_to_sq64[32], 9, "Did not correctly identify 64 square board numbers");
    assert_eq!(board.sq120_to_sq64[0], 65, "Off board values have incorrect values");
    let mut sum: i32 = 0;
    for value in board.sq120_to_sq64 {
        sum += value as i32;
    }
    assert_eq!(sum, 5656, "Sum of sq120_to_s64 contents not correct");
    assert_eq!(board.sq64_to_sq120[21], 46, "Did not correctly identify 120 square board numbers");
    sum = 0;
    for value in board.sq64_to_sq120 {
        sum += value as i32;
    }
    assert_eq!(sum, 3808, "Sum of sq64_to_s120 contents not correct");
    assert_eq!(board.files_squares[34], 3, "Did not initialize files array correctly");
    assert_eq!(board.ranks_squares[32], 1, "Did not initialize ranks array correctly");
}

#[test]
fn board_test_parse_fen() {
    let start: &str = "rnbqkbnr/pp1ppppp/8/2p5/4P3/5N2/PPPP1PPP/RNBQKB1R b KQkq e3 1 2";
    let board = board_from(start);
    assert_eq!(board.pieces[23], WB, "Did not correctly place white bishop on F1");
    assert_eq!(board.pieces[F3 as usize], WN, "Did not correctly place white knight on F3");
    assert_eq!(board.pieces[0], OFFBOARD, "Did not preserve offboard values");
    assert_eq!(board.side, 1, "Did not correctly set it as black's move");
    assert_eq!(board.castle_perm, 15, "Did not correctly set castling permission");
    assert_eq!(board.en_passant, E3 as u8, "Did not correctly set en passant square");
}

#[test]
fn test_parse_fen_castling() {
    let mut board = board_from("4k2r/8/8/8/8/8/8/4K3 w k - 0 1");
    board.update_material_list();
    assert_eq!(board.castle_perm & WK_CASTLE, 0, "Incorrectly has white king castling permission");
    assert_eq!(board.castle_perm & WQ_CASTLE, 0, "Incorrectly has white queen castling permission");
    assert_eq!(board.castle_perm & BQ_CASTLE, 0, "Incorrectly has black queen castling permission");
}

#[test]
fn test_reset_position() {
    let start: &str = "rnbqkbnr/pppppppp/8/8/8/8/PPPPPPPP/RNBQKBNR w KQkq - 0 1";
    let mut board = board_from(start);
    board.update_material_list();
    board.reset_position();
    for piece in board.pieces {
        assert!(piece == OFFBOARD || piece == EMPTY, "Did not reset all squares to offboard");
    }
    for bitboard in board.bitboards {
        assert_eq!(bitboard.board, 0, "Did not reset bitboards to 0");
    }
    assert_eq!(board.king_sq[WHITE_S], 0, "Did not reset white king square");
    assert_eq!(board.king_sq[BLACK_S], 0, "Did not reset white king square");
    assert_eq!(board.fifty_move, 0, "Did not reset fifty moves");
    assert_eq!(board.side, 2, "Did not reset side");
    assert_eq!(board.en_passant, NO_SQ, "Did not reset en_passant");
    assert_eq!(board.ply(), 0, "Did not reset ply");
    assert_eq!(board.castle_perm, 0, "Did not reset castle_perm");
}

#[test]
fn board_test_update_material_list() {
    const RANK_2_BITS: u64 = 0x0000_0000_0000_FF00;
    const RANK_7_BITS: u64 = 0x00FF_0000_0000_0000;
    let both_ranks = RANK_2_BITS | RANK_7_BITS;
    let start: &str = "rnbqkbnr/pppppppp/8/8/8/8/PPPPPPPP/RNBQKBNR w KQkq - 0 1";
    let mut board = board_from(start);
    board.update_material_list();
    assert_eq!(board.num_major_pieces[0], 4, "Did not update with correct number of white major pieces");
    assert_eq!(board.num_major_pieces[1], 4, "Did not update with correct number of black major pieces");
    assert_eq!(board.num_minor_pieces[0], 4, "Did not update with correct number of white minor pieces");
    assert_eq!(board.num_minor_pieces[1], 4, "Did not update with correct number of black minor pieces");
    assert_eq!(board.num_big_pieces[0], 8, "Did not update with correct number of white big pieces");
    assert_eq!(board.num_big_pieces[1], 8, "Did not update with correct number of black big pieces");
    assert_eq!(board.material[0], 54200, "Did not correctly set material value for white");
    assert_eq!(board.material[1], 54200, "Did not correctly set material value for black");
    assert_eq!(board.piece_list[1][4], 35, "Did not correctly set square for white pawn");
    assert_eq!(
        format!("{:b}", board.bitboards[WHITE as usize].board),
        format!("{:b}", RANK_2_BITS),
        "Did not set white bitboard correctly"
    );
    assert_eq!(
        format!("{:b}", board.bitboards[BLACK as usize].board),
        format!("{:b}", RANK_7_BITS),
        "Did not set black bitboard correctly"
    );
    assert_eq!(format!("{:b}", board.bitboards[2].board), format!("{:b}", both_ranks), "Did not set both bitboard correctly");
}

#[test]
fn test_clear_piece_rook() {
    let fen = "rnbqkbnr/pp1p1pPp/8/2p1pP2/1P1P4/3P4/P1P1P3/RNBQKBNR w KQkq e6 0 10";
    let mut board = board_from(fen);
    board.update_material_list();
    let before = board.clone();
    let sq = board.sq120(0);
    board.clear_piece(sq);
    assert_eq!(before.num_major_pieces[WHITE as usize] - 1, board.num_major_pieces[WHITE as usize]);
    assert_eq!(before.num_big_pieces[WHITE as usize] - 1, board.num_big_pieces[WHITE as usize]);
    assert_eq!(before.num_pieces[WR as usize] - 1, board.num_pieces[WR as usize]);
    assert_eq!(before.num_major_pieces[BLACK as usize], board.num_major_pieces[BLACK as usize]);
    assert_eq!(before.num_minor_pieces[WHITE as usize], board.num_minor_pieces[WHITE as usize]);
    assert_eq!(before.bitboards[WHITE as usize].board, board.bitboards[WHITE as usize].board);
    assert_eq!(before.piece_list[WR as usize][1], board.piece_list[WR as usize][0]);
}

#[test]
fn test_clear_piece_pawn() {
    let fen1 = "rnbqkbnr/pp1p1pPp/8/2p1pP2/1P1P4/3P4/P1P1P3/RNBQKBNR w KQkq e6 0 10";
    let fen2 = "rnbqkbnr/pp1p1pPp/8/2p1pP2/1P1P4/3P4/2P1P3/RNBQKBNR w KQkq e6 0 10";
    let mut board1 = board_from(fen1);
    let mut board2 = board_from(fen2);
    board1.update_material_list();
    board2.update_material_list();
    let sq = board1.sq120(8);
    board1.clear_piece(sq);
    assert_eq!(board1.bitboards, board2.bitboards, "Did not remove pawn from bitboards");
    assert_eq!(board1.num_pieces, board2.num_pieces, "Did not update number of pieces");
    assert_eq!(board1.piece_list[WP as usize], board2.piece_list[WP as usize], "Did not update piece list correctly");
}

#[test]
fn test_add_pawn() {
    let fen1 = "rnbqkbnr/pp1p1pPp/8/2p1pP2/1P1P4/3P4/P1P1P3/RNBQKBNR w KQkq e6 0 10";
    let fen2 = "rnbqkbnr/pp1p1pPp/8/2p1pP2/1P1P4/3P4/2P1P3/RNBQKBNR w KQkq e6 0 10";
    let mut board1 = board_from(fen1);
    let mut board2 = board_from(fen2);
    board1.update_material_list();
    board2.update_material_list();
    let sq = board1.sq120(8);
    board2.add_piece(sq, WP);
    assert_eq!(board1.bitboards, board2.bitboards, "Did not remove pawn from bitboards");
    assert_eq!(board1.num_pieces, board2.num_pieces, "Did not update number of pieces");
    assert_eq!(board1.piece_list[WP as usize], board2.piece_list[WP as usize], "Did not update piece list correctly");
}

#[test]
fn test_add_rook() {
    let fen1 = "rnbqkbnr/pp1p1pPp/8/2p1pP2/1P1P4/3P4/2P1P3/RNBQKBNR w KQkq e6 0 10";
    let fen2 = "1nbqkbnr/pp1p1pPp/8/2p1pP2/1P1P4/3P4/2P1P3/RNBQKBNR w KQkq e6 0 10";
    let mut board1 = board_from(fen1);
    let mut board2 = board_from(fen2);
    board1.update_material_list();
    board2.update_material_list();
    let sq = board1.sq120(56);
    board2.add_piece(sq, BR);
    assert_eq!(board1.piece_list[BR as usize], board2.piece_list[BR as usize], "Did not update piece list correctly");
    assert_eq!(board1.num_pieces, board2.num_pieces, "Did not update number of pieces");
    assert_eq!(board1.num_big_pieces, board2.num_big_pieces, "Did not update number of big pieces");
    assert_eq!(board1.num_major_pieces, board2.num_major_pieces, "Did not update number of major pieces");
    assert_eq!(board1.pieces, board2.pieces, "Did not update pieces correctly");
}

#[test]
fn test_move_rook() {
    let fen1 = "rnbqkbnr/1p1p1pPp/8/2p1pP2/1P1P4/3P4/2P1P3/RNBQKBNR w KQkq e6 0 10";
    let fen2 = "1nbqkbnr/rp1p1pPp/8/2p1pP2/1P1P4/3P4/2P1P3/RNBQKBNR w KQkq e6 0 10";
    let mut board1 = board_from(fen1);
    let mut board2 = board_from(fen2);
    board1.update_material_list();
    board2.update_material_list();
    let from = board1.sq120(56);
    let to = board1.sq120(48);
    board1.move_piece(from, to);
    assert_eq!(board1.pieces, board2.pieces, "Did not update pieces correctly");
}

#[test]
fn test_move_pawn() {
    let fen1 = "rnbqkbnr/pp1p1pPp/8/2p1pP2/1P1P4/3P4/2P1P3/RNBQKBNR w KQkq e6 0 10";
    let fen2 = "rnbqkbnr/1p1p1pPp/p7/2p1pP2/1P1P4/3P4/2P1P3/RNBQKBNR w KQkq e6 0 10";
    let mut board1 = board_from(fen1);
    let mut board2 = board_from(fen2);
    board1.update_material_list();
    board2.update_material_list();
    let from = board1.sq120(48);
    let to = board1.sq120(40);
    board1.move_piece(from, to);
    assert_eq!(board1.pieces, board2.pieces, "Did not update pieces correctly");
    assert_eq!(board1.bitboards, board2.bitboards, "Did not update bitboards correctly");
}

#[test]
fn test_en_passant_move() {
    let mut board = board_from("r3k2r/p1ppqpb1/bn2pnp1/3PN3/1p2P3/2N2Q1p/PPPBBPPP/R3K2R w KQkq - 0 1 ");
    board.update_material_list();
    let mov = GameMove::new(31, 51, 0, 0, 0x80000);
    board.make_move(mov);
    assert_eq!(board.en_passant, A3 as u8);
}

#[test]
fn test_make_move() {
    let fen1 = "rnbqkbnr/pp1p1pPp/8/2p1pP2/1P1P4/3P4/2P1P3/RNBQKBNR w KQkq e6 0 10";
    let fen2 = "rnbqkbnr/pp1p1pPp/4P3/2p5/1P1P4/3P4/2P1P3/RNBQKBNR b KQkq - 0 10";
    let mut board1 = board_from(fen1);
    let mut board2 = board_from(fen2);
    board1.update_material_list();
    board2.update_material_list();
    let from = fr2sq(FILE_F, RANK_5);
    let to = fr2sq(FILE_E, RANK_6);
    let mov = GameMove::new(from, to, 0, 0, 0x40000);
    board1.make_move(mov);
    assert_eq!(board1.pieces, board2.pieces, "Did not update pieces correctly");
    assert_eq!(board1.bitboards, board2.bitboards, "Did not update bitboards correctly");
    assert_eq!(board1.fifty_move, 0, "Did not update fifty move");
    assert_eq!(board1.side, BLACK, "Did not change side");
    assert_eq!(board1.history.pop().unwrap().game_move, mov, "Did not update move histroy");
}

#[test]
fn test_undo_move() {
    let fen1 = "rnbqkbnr/pp1p1pPp/8/2p1pP2/1P1P4/3P4/2P1P3/RNBQKBNR w KQkq e6 0 10";
    let fen2 = "rnbqkbnr/pp1p1pPp/4P3/2p5/1P1P4/3P4/2P1P3/RNBQKBNR b KQkq - 0 10";
    let mut board1 = board_from(fen1);
    let mut board2 = board_from(fen2);
    board1.update_material_list();
    board2.update_material_list();
    let from = fr2sq(FILE_F, RANK_5);
    let to = fr2sq(FILE_E, RANK_6);
    let mov = GameMove::new(from, to, 0, 0, 0x40000);
    let mut played = board1.clone();
    assert!(played.make_move(mov));
    assert_eq!(played.pieces, board2.pieces);
    played.undo_move();
    assert_eq!(board1.pieces, played.pieces, "Did not update pieces correctly");
    assert_eq!(board1.bitboards, played.bitboards, "Did not update bitboards correctly");
    assert_eq!(played.fifty_move, 0, "Did not update fifty move");
    assert_eq!(played.side, WHITE, "Did not change side");
}

#[test]
fn test_make_move_into_check() {
    let fen1 = "rnb1kbnr/pp1p1pPp/8/2p1pPq1/1P1P4/2NP4/2P1P3/R1BQKBNR w KQkq - 2 11";
    let mov = GameMove::new(fr2sq(FILE_E, RANK_1), fr2sq(FILE_D, RANK_2), 0, 0, 0);
    let mut board1 = board_from(fen1);
    let board2 = board1.clone();
    let accepted = board1.make_move(mov);
    assert!(!accepted);
    assert_eq!(board1.pieces, board2.pieces, "Changed pieces with invalid move");
    assert_eq!(board1.bitboards, board2.bitboards, "Changed bitboard with invalid move");
    assert_eq!(board1.fifty_move, 0, "Updated fifty moves with invalid move");
    assert_eq!(board1.side, WHITE, "Changed side with invalid move");
    assert_eq!(board1.history.len(), 0, "Invalid move remained in board");
}

#[test]
fn parse_fen_errors() {
    let mut board = Board::new();
    assert_eq!(board.parse_fen("rnbqkbnr/ppppxppp/8/8/8/8/PPPPPPPP/RNBQKBNR w KQkq - 0 1"), Err(FenError::BadPlacement));
    assert_eq!(board.parse_fen("rnbqkbnr/pppppppp/9/8/8/8/PPPPPPPP/RNBQKBNR w KQkq - 0 1"), Err(FenError::BadPlacement));
    assert_eq!(board.parse_fen("kk6/8/8/8/8/8/8/K7 w - - 0 1"), Err(FenError::TooManyKings));
    assert_eq!(board.parse_fen("rnbqkbnr/pppppppp/8/8/8/8/PPPPPPPP/RNBQKBNR x KQkq - 0 1"), Err(FenError::BadSide));
    assert_eq!(board.parse_fen("rnbqkbnr/pppppppp/8/8/8/8/PPPPPPPP/RNBQKBNR w KQkq z3 0 1"), Err(FenError::BadEnPassant));
    assert_eq!(board.parse_fen("rnbqkbnr/pppppppp/8/8"), Err(FenError::Truncated));
    assert_eq!(board.parse_fen("8/8/8/8/8/8/8/4K3 w - - 0 1"), Err(FenError::MissingKing));
    assert_eq!(board.side, 2);
    assert_eq!(board.history_len(), 0);
}

#[test]
fn check_board_accepts_parsed_positions() {
    let board = board_from("r3k2r/p1ppqpb1/bn2pnp1/3PN3/1p2P3/2N2Q1p/PPPBBPPP/R3K2R w KQkq - 0 1");
    assert!(check_board(&board));
    let mut broken = board.clone();
    broken.material[0] += 1;
    assert!(!check_board(&broken));
    let mut broken2 = board.clone();
    broken2.bitboards[1].board ^= 1;
    assert!(!check_board(&broken2));
    let mut broken3 = board.clone();
    broken3.piece_list[1][0] = 56;
    assert!(!check_board(&broken3));
    let mut bad_cell = board.clone();
    bad_cell.pieces[0] = 0;
    assert!(!check_board(&bad_cell));
    let mut bad_piece = board.clone();
    bad_piece.pieces[55] = 13;
    assert!(!check_board(&bad_piece));
    let mut no_side = board.clone();
    no_side.side = 2;
    assert!(!check_board(&no_side));
}

#[test]
fn board_chars_draws_the_grid() {
    let board = board_from("rnbqkbnr/pppppppp/8/8/4P3/8/PPPP1PPP/RNBQKBNR b KQkq e3 0 1");
    let text = String::from_utf8(board.board_chars()).unwrap();
    let lines: Vec<&str> = text.lines().collect();
    assert_eq!(lines.len(), 8);
    assert_eq!(lines[0], " r  n  b  q  k  b  n  r ");
    assert_eq!(lines[4], " .  .  .  .  P  .  .  . ");
    assert_eq!(lines[7], " R  N  B  Q  K  B  N  R ");
}

#[test]
fn material_counts_follow_captures_and_undo() {
    let mut board = board_from("4k3/8/8/3p4/4P3/8/8/4K3 w - - 0 1");
    assert_eq!(board.material, [50100, 50100]);
    let mov = GameMove::new(fr2sq(FILE_E, 3), fr2sq(FILE_D, 4), BP, 0, 0);
    assert!(board.make_move(mov));
    assert_eq!(board.material, [50100, 50000]);
    assert_eq!(board.fifty_move, 0);
    board.undo_move();
    assert_eq!(board.material, [50100, 50100]);
    assert!(check_board(&board));
}
