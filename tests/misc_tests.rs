use chess::board::Board;
use chess::gamemove::{GameMove, MFLAG_CA, MFLAG_EP, MFLAG_PS};
use chess::hashkeys::BoardHasher;
use chess::notation::{parse_move, text_is_correct_format, validate_move, ParseMoveError};
use chess::pieces::{
    is_black, is_bishop_or_queen, is_rook_or_queen, is_same_color, is_white, opposite_color,
    piece_is_king, piece_is_knight, piece_is_pawn, piece_slides, piece_value, BK, BN, BP, BQ, WB,
    WK, WN, WP, WQ, WR,
};
use chess::search::{is_repetition, PVTable};
use chess::squares::{
    fr2sq, init_file_rank_arrays, FILE_A, FILE_B, FILE_C, FILE_E, FILE_G, FILE_H, RANK_1, RANK_2,
    RANK_3, RANK_4, RANK_6, RANK_8,
};

const START: &str = "rnbqkbnr/pppppppp/8/8/8/8/PPPPPPPP/RNBQKBNR w KQkq - 0 1";

fn start_board() -> Board {
    let mut board = Board::new();
    board.parse_fen(START).unwrap();
    board.update_material_list();
    board
}

#[test]
fn test_generate_key() {
    let hasher = BoardHasher::new();
    let mut pieces1: [u8; 120] = [0; 120];
    let mut pieces2: [u8; 120] = [0; 120];
    pieces1[45] = 2;
    pieces1[55] = 5;
    pieces2[65] = 4;
    pieces2[34] = 7;
    let (side1, side2) = (0, 1);
    let (enpassant1, enpassant2) = (42, 0);
    let (castle1, castle2) = (3, 5);
    assert_eq!(
        hasher.generate_key(&pieces1, side1, enpassant1, castle1),
        hasher.generate_key(&pieces1, side1, enpassant1, castle1)
    );
    assert_eq!(
        hasher.generate_key(&pieces2, side2, enpassant2, castle2),
        hasher.generate_key(&pieces2, side2, enpassant2, castle2)
    );
    assert_ne!(
        hasher.generate_key(&pieces1, side1, enpassant1, castle1),
        hasher.generate_key(&pieces2, side2, enpassant2, castle2)
    );
    assert_ne!(
        hasher.generate_key(&pieces1, side1, enpassant1, castle1),
        hasher.generate_key(&pieces1, side1, enpassant1, castle2)
    );
    assert_ne!(
        hasher.generate_key(&pieces1, side1, enpassant1, castle1),
        hasher.generate_key(&pieces1, side1, enpassant2, castle1)
    );
    assert_ne!(
        hasher.generate_key(&pieces1, side1, enpassant1, castle1),
        hasher.generate_key(&pieces1, side2, enpassant1, castle1)
    );
    assert_ne!(
        hasher.generate_key(&pieces1, side1, enpassant1, castle1),
        hasher.generate_key(&pieces2, side1, enpassant1, castle1)
    );
}

#[test]
fn seeded_keys_give_exact_fingerprints() {
    let mut piece_keys = [[0u64; 128]; 13];
    piece_keys[2][45] = 0b0001;
    piece_keys[5][55] = 0b0010;
    piece_keys[0][42] = 0b0100;
    let castle_keys = [0b1000u64; 16];
    let hasher = BoardHasher::seed(piece_keys, 0b1_0000, castle_keys);
    let mut pieces: [u8; 120] = [0; 120];
    pieces[45] = 2;
    pieces[55] = 5;
    assert_eq!(hasher.generate_key(&pieces, 0, 42, 3), 0b1_1111);
    assert_eq!(hasher.generate_key(&pieces, 1, 99, 3), 0b0_1011);
}

#[test]
fn test_parse_move() {
    let from = fr2sq(FILE_A, RANK_2);
    let to = fr2sq(FILE_A, RANK_4);
    let expected_move = GameMove::new(from, to, 0, 0, 0x80000);
    let board = start_board();
    let mov = match parse_move(&board, from, to, '-') {
        Some(m) => m,
        None => panic!("Did not find it as a correct move"),
    };
    assert_eq!(mov.origin(), expected_move.origin(), "Did not give correct starting square");
    assert_eq!(mov.destination(), expected_move.destination(), "Did not give correct destination square");
    assert_eq!(mov.is_pawn_start(), expected_move.is_pawn_start(), "Did not set pawn start flag");
}

#[test]
fn parse_move_picks_the_promotion_asked_for() {
    let mut board = Board::new();
    board.parse_fen("4k3/1P6/8/8/8/8/8/4K3 w - - 0 1").unwrap();
    let from = fr2sq(FILE_B, 6);
    let to = fr2sq(FILE_B, RANK_8);
    assert_eq!(parse_move(&board, from, to, 'n').unwrap().promoted_piece(), WN);
    assert_eq!(parse_move(&board, from, to, 'r').unwrap().promoted_piece(), WR);
    assert_eq!(parse_move(&board, from, to, '-').unwrap().promoted_piece(), WQ);
    assert!(parse_move(&board, from, fr2sq(FILE_C, RANK_8), 'q').is_none());
}

#[test]
fn validate_move_reads_squares() {
    let board = start_board();
    assert_eq!(validate_move(&board, "e2e4"), Ok((35, 55, '-')));
    assert_eq!(validate_move(&board, "b7b8q"), Err(ParseMoveError));
    assert_eq!(validate_move(&board, "e2"), Err(ParseMoveError));
    assert_eq!(validate_move(&board, "e7e5"), Err(ParseMoveError));
    assert!(text_is_correct_format("a1h8"));
    assert!(!text_is_correct_format("i1h8"));
}

#[test]
fn test_piece_is_pawn() {
    assert_eq!(piece_is_pawn(WP), true, "Did not find white pawn as a pawn");
    assert_eq!(piece_is_pawn(BP), true, "Did not find black pawn as a pawn");
    assert_eq!(piece_is_pawn(WR), false, "Found a white rook as a pawn");
}

#[test]
fn test_piece_is_knight() {
    assert_eq!(piece_is_knight(WN), true, "Did not find white knight as a knight");
    assert_eq!(piece_is_knight(BN), true, "Did not find black knight as a knight");
    assert_eq!(piece_is_knight(WR), false, "Found a white rook as a knight");
}

#[test]
fn test_piece_is_king() {
    assert_eq!(piece_is_king(WK), true, "Did not find white king as a king");
    assert_eq!(piece_is_king(BK), true, "Did not find black king as a king");
    assert_eq!(piece_is_king(WR), false, "Found a white rook as a king");
}

#[test]
fn piece_attributes() {
    assert_eq!(piece_value(WQ), 1000);
    assert_eq!(piece_value(BN), 325);
    assert_eq!(piece_value(0), 0);
    assert!(is_white(WB) && !is_white(BQ) && !is_white(100));
    assert!(is_black(BQ) && !is_black(WB) && !is_black(0));
    assert!(is_same_color(WB, 0) && opposite_color(BQ, 0));
    assert!(piece_slides(WB) && !piece_slides(WN));
    assert!(is_bishop_or_queen(BQ) && is_rook_or_queen(WR) && !is_rook_or_queen(WB));
}

#[test]
fn file_and_rank_tables() {
    let (files, ranks) = init_file_rank_arrays();
    assert_eq!(files[34], 3);
    assert_eq!(ranks[32], 1);
    assert_eq!(files[0], 100);
    assert_eq!(ranks[98], 7);
}

#[test]
fn move_fields_read_back() {
    let m = GameMove::new(87, 98, 10, 5, 0);
    assert_eq!(m.move_int, 0x52b157);
    assert_eq!((m.origin(), m.destination(), m.capture(), m.promoted_piece()), (87, 98, 10, 5));
    assert!(GameMove::new(31, 51, 0, 0, MFLAG_PS).pawn_start());
    assert!(GameMove::new(66, 75, 0, 0, MFLAG_EP).is_en_passant());
    assert!(GameMove::new(25, 27, 0, 0, MFLAG_CA).is_castle_move());
}

#[test]
fn test_store() {
    let mut board = start_board();
    let mut table = PVTable::new();
    let mov = GameMove::new(fr2sq(FILE_E, RANK_2), fr2sq(FILE_E, RANK_3), 0, 0, 0);
    board.pos_key = 200000;
    table.store(&board, mov);
    assert_eq!(table.ptable[200000 % table.ptable.len()].mov.move_int, mov.move_int);
}

#[test]
fn test_probe() {
    let mut board = start_board();
    let mut table = PVTable::new();
    let length = table.ptable.len();
    let mov = GameMove::new(fr2sq(FILE_E, RANK_2), fr2sq(FILE_E, RANK_3), 0, 0, 0);
    board.pos_key = 200000;
    table.ptable[200000 % length].mov = mov;
    table.ptable[200000 % length].poskey = board.pos_key;
    let retrieved_move = table.probe(&board).unwrap();
    assert_eq!(retrieved_move.move_int, mov.move_int);
}

#[test]
fn test_get_line() {
    let mut board = start_board();
    let table = PVTable::new();
    assert_eq!(0, table.get_line(1, &mut board).len());
}

#[test]
fn get_line_follows_stored_moves_and_restores() {
    let mut board = start_board();
    let before = board.clone();
    let mut table = PVTable::new();
    let e4 = GameMove::new(fr2sq(FILE_E, RANK_2), fr2sq(FILE_E, RANK_4), 0, 0, MFLAG_PS);
    table.store(&board, e4);
    assert!(board.make_move(e4));
    let e5 = GameMove::new(fr2sq(FILE_E, 6), fr2sq(FILE_E, 4), 0, 0, MFLAG_PS);
    table.store(&board, e5);
    board.undo_move();
    let line = table.get_line(5, &mut board);
    assert_eq!(line, vec![e4, e5]);
    assert_eq!(board.pieces, before.pieces);
    assert_eq!(board.pos_key(), before.pos_key());
    assert_eq!(board.history_len(), 0);
}

#[test]
fn test_is_not_repetition() {
    let mut board = start_board();
    board.make_move(GameMove::new(fr2sq(FILE_B, RANK_1), fr2sq(FILE_C, RANK_3), 0, 0, 0));
    board.make_move(GameMove::new(fr2sq(FILE_B, RANK_8), fr2sq(FILE_C, RANK_6), 0, 0, 0));
    board.make_move(GameMove::new(fr2sq(FILE_E, RANK_2), fr2sq(FILE_E, RANK_3), 0, 0, 0));
    assert_eq!(is_repetition(&board), false);
}

#[test]
fn test_is_repetition() {
    let mut board = start_board();
    board.make_move(GameMove::new(fr2sq(FILE_B, RANK_1), fr2sq(FILE_C, RANK_3), 0, 0, 0));
    board.make_move(GameMove::new(fr2sq(FILE_B, RANK_8), fr2sq(FILE_C, RANK_6), 0, 0, 0));
    board.make_move(GameMove::new(fr2sq(FILE_G, RANK_1), fr2sq(FILE_H, RANK_3), 0, 0, 0));
    board.make_move(GameMove::new(fr2sq(FILE_G, RANK_8), fr2sq(FILE_H, RANK_6), 0, 0, 0));
    board.make_move(GameMove::new(fr2sq(FILE_H, RANK_3), fr2sq(FILE_G, RANK_1), 0, 0, 0));
    board.make_move(GameMove::new(fr2sq(FILE_H, RANK_6), fr2sq(FILE_G, RANK_8), 0, 0, 0));
    assert_eq!(is_repetition(&board), true);
}
