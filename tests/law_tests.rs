use chess::audit::check_board;
use chess::board::Board;
use chess::gamemove::GameMove;
use chess::movegen::generate_all_moves;
use chess::pieces::{BK_CASTLE, BQ_CASTLE, WK_CASTLE, WQ_CASTLE};
use chess::squares::{fr2sq, NO_SQ};

const START: &str = "rnbqkbnr/pppppppp/8/8/8/8/PPPPPPPP/RNBQKBNR w KQkq - 0 1";
const KIWIPETE: &str = "r3k2r/p1ppqpb1/bn2pnp1/3PN3/1p2P3/2N2Q1p/PPPBBPPP/R3K2R w KQkq - 0 1";

fn board_from(fen: &str) -> Board {
    let mut board = Board::new();
    board.parse_fen(fen).unwrap();
    board
}

fn perft(board: &mut Board, depth: u32) -> u64 {
    if depth == 0 {
        return 1;
    }
    let mut moves: Vec<GameMove> = Vec::new();
    generate_all_moves(board, &mut moves);
    let mut nodes = 0;
    for m in moves {
        if board.make_move(m) {
            nodes += perft(board, depth - 1);
            board.undo_move();
        }
    }
    nodes
}

#[test]
fn perft_from_start_position() {
    let mut board = board_from(START);
    assert_eq!(perft(&mut board, 1), 20);
    assert_eq!(perft(&mut board, 2), 400);
    assert_eq!(perft(&mut board, 3), 8902);
}

#[test]
fn perft_depth_four_from_start_position() {
    let mut board = board_from(START);
    assert_eq!(perft(&mut board, 4), 197281);
}

#[test]
fn perft_kiwipete() {
    let mut board = board_from(KIWIPETE);
    assert_eq!(perft(&mut board, 1), 48);
    assert_eq!(perft(&mut board, 2), 2039);
}

#[test]
fn start_position_has_twenty_quiet_moves() {
    let board = board_from(START);
    let mut moves: Vec<GameMove> = Vec::new();
    generate_all_moves(&board, &mut moves);
    assert_eq!(moves.len(), 20);
    let pawn_moves = moves.iter().filter(|m| board.pieces[m.origin() as usize] == 1).count();
    let knight_moves = moves.iter().filter(|m| board.pieces[m.origin() as usize] == 2).count();
    assert_eq!(pawn_moves, 16);
    assert_eq!(knight_moves, 4);
    assert!(moves.iter().all(|m| m.capture() == 0 && !m.is_en_passant() && !m.is_castle_move()));
}

/// Makes and unmakes every legal move, two plies deep, checking that each unmake restores the
/// position and that the fingerprint always matches the one computed from scratch.
fn round_trip_all(board: &mut Board, depth: u32) {
    let mut moves: Vec<GameMove> = Vec::new();
    generate_all_moves(board, &mut moves);
    for m in moves {
        let before = board.clone();
        if board.make_move(m) {
            assert_eq!(board.pos_key(), board.generate_key());
            assert!(check_board(board));
            if depth > 1 {
                round_trip_all(board, depth - 1);
            }
            board.undo_move();
        }
        assert_eq!(board.pieces, before.pieces);
        assert_eq!(board.piece_list, before.piece_list);
        assert_eq!(board.bitboards, before.bitboards);
        assert_eq!(board.num_pieces, before.num_pieces);
        assert_eq!(board.material, before.material);
        assert_eq!(board.king_sq, before.king_sq);
        assert_eq!(board.side, before.side);
        assert_eq!(board.castle_perm, before.castle_perm);
        assert_eq!(board.en_passant, before.en_passant);
        assert_eq!(board.fifty_move, before.fifty_move);
        assert_eq!(board.pos_key(), before.pos_key());
        assert_eq!(board.history_len(), before.history_len());
    }
}

#[test]
fn make_then_undo_restores_the_position() {
    let mut board = board_from(KIWIPETE);
    round_trip_all(&mut board, 2);
    let mut board2 = board_from("rnbqkbnr/pp1p1pPp/8/2p1pP2/1P1P4/3P4/P1P1P3/RNBQKBNR w KQkq e6 0 10");
    round_trip_all(&mut board2, 2);
}

#[test]
fn accepted_moves_never_leave_the_king_attacked() {
    let mut board = board_from("4k3/8/8/8/8/8/3q4/4K3 w - - 0 1");
    let mut moves: Vec<GameMove> = Vec::new();
    generate_all_moves(&board, &mut moves);
    let mut accepted = 0;
    for m in moves {
        if board.make_move(m) {
            accepted += 1;
            assert!(m.destination() == fr2sq(3, 1) || m.destination() == fr2sq(5, 0));
            board.undo_move();
        }
    }
    assert_eq!(accepted, 2);
}

#[test]
fn castling_rights_are_revoked_and_restored() {
    let mut board = board_from("r3k2r/8/8/8/8/8/8/R3K2R w KQkq - 0 1");
    let rook_move = GameMove::new(28, 38, 0, 0, 0);
    assert!(board.make_move(rook_move));
    assert_eq!(board.castle_perm, WQ_CASTLE | BK_CASTLE | BQ_CASTLE);
    let king_move = GameMove::new(95, 85, 0, 0, 0);
    assert!(board.make_move(king_move));
    assert_eq!(board.castle_perm, WQ_CASTLE);
    let rook_back = GameMove::new(38, 28, 0, 0, 0);
    assert!(board.make_move(rook_back));
    assert_eq!(board.castle_perm, WQ_CASTLE);
    board.undo_move();
    assert_eq!(board.castle_perm, WQ_CASTLE);
    board.undo_move();
    assert_eq!(board.castle_perm, WQ_CASTLE | BK_CASTLE | BQ_CASTLE);
    board.undo_move();
    assert_eq!(board.castle_perm, WK_CASTLE | WQ_CASTLE | BK_CASTLE | BQ_CASTLE);
}

#[test]
fn capture_on_rook_home_square_revokes_that_right() {
    let mut board = board_from("r3k2r/8/8/8/8/8/8/R3K2R w KQkq - 0 1");
    let rook_takes = GameMove::new(21, 91, 10, 0, 0);
    assert!(board.make_move(rook_takes));
    assert_eq!(board.castle_perm, WK_CASTLE | BK_CASTLE);
}

#[test]
fn en_passant_square_lives_for_one_move() {
    let mut board = board_from("4k3/8/8/8/1p6/8/P6P/4K3 w - - 0 1");
    let double = GameMove::new(31, 51, 0, 0, 0x80000);
    assert!(board.make_move(double));
    assert_eq!(board.en_passant, 41);
    assert_eq!(board.pos_key(), board.generate_key());
    let mut moves: Vec<GameMove> = Vec::new();
    generate_all_moves(&board, &mut moves);
    assert!(moves.iter().any(|m| m.is_en_passant() && m.destination() == 41));
    let king = GameMove::new(95, 96, 0, 0, 0);
    assert!(board.make_move(king));
    assert_eq!(board.en_passant, NO_SQ);
    assert_eq!(board.pos_key(), board.generate_key());
    let single = GameMove::new(38, 48, 0, 0, 0);
    assert!(board.make_move(single));
    assert_eq!(board.en_passant, NO_SQ);
}

#[test]
fn en_passant_capture_removes_the_pawn_and_undo_returns_it() {
    let mut board = board_from("4k3/8/8/1Pp5/8/8/8/4K3 w - c6 0 1");
    let before = board.clone();
    let ep = GameMove::new(62, 73, 0, 0, 0x40000);
    assert!(board.make_move(ep));
    assert_eq!(board.pieces[63], 0);
    assert_eq!(board.pieces[73], 1);
    assert_eq!(board.num_pieces[7], 0);
    board.undo_move();
    assert_eq!(board.pieces, before.pieces);
    assert_eq!(board.num_pieces, before.num_pieces);
}

#[test]
fn promotion_and_undo() {
    let mut board = board_from("1r2k3/P7/8/8/8/8/8/4K3 w - - 0 1");
    let before = board.clone();
    let promote = GameMove::new(81, 92, 10, 5, 0);
    assert!(board.make_move(promote));
    assert_eq!(board.pieces[92], 5);
    assert_eq!(board.material[0], 50000 + 1000);
    assert_eq!(board.material[1], 50000);
    board.undo_move();
    assert_eq!(board.pieces, before.pieces);
    assert_eq!(board.material, before.material);
    assert_eq!(board.pos_key(), before.pos_key());
}

#[test]
fn castling_moves_the_rook_and_undo_moves_it_back() {
    let mut board = board_from("r3k2r/8/8/8/8/8/8/R3K2R w KQkq - 0 1");
    let before = board.clone();
    let castle = GameMove::new(25, 23, 0, 0, 0x1000000);
    assert!(board.make_move(castle));
    assert_eq!(board.pieces[23], 6);
    assert_eq!(board.pieces[24], 4);
    assert_eq!(board.pieces[21], 0);
    assert_eq!(board.king_sq[0], 23);
    assert_eq!(board.castle_perm, BK_CASTLE | BQ_CASTLE);
    board.undo_move();
    assert_eq!(board.pieces, before.pieces);
    assert_eq!(board.king_sq, before.king_sq);
    assert_eq!(board.castle_perm, before.castle_perm);
}

#[test]
fn seeded_boards_fingerprint_alike() {
    let mut piece_keys = [[0u64; 128]; 13];
    for p in 0..13 {
        for s in 0..128 {
            piece_keys[p][s] = (p as u64 + 1).wrapping_mul(0x9E37_79B9_7F4A_7C15).rotate_left(s as u32);
        }
    }
    let mut castle_keys = [0u64; 16];
    for (i, k) in castle_keys.iter_mut().enumerate() {
        *k = (i as u64 + 77).wrapping_mul(0xD1B5_4A32_D192_ED03);
    }
    let hasher = chess::hashkeys::BoardHasher::seed(piece_keys, 0x1234_5678, castle_keys);
    let mut a = Board::with_hasher(hasher);
    let mut b = Board::with_hasher(hasher);
    a.parse_fen(KIWIPETE).unwrap();
    b.parse_fen(KIWIPETE).unwrap();
    assert_eq!(a.pos_key(), b.pos_key());
    let mut c = Board::with_hasher(hasher);
    c.parse_fen(START).unwrap();
    assert_ne!(a.pos_key(), c.pos_key());
    assert_eq!(c.pos_key(), c.generate_key());
}

#[test]
fn get_line_stops_where_the_table_has_no_move() {
    let mut board = board_from(START);
    let mut table = chess::search::PVTable::new();
    let e4 = GameMove::new(35, 55, 0, 0, 0x80000);
    table.store(&board, e4);
    let line = table.get_line(3, &mut board);
    assert_eq!(line, vec![e4]);
    assert_eq!(board.history_len(), 0);
}

#[test]
fn en_passant_capture_resets_the_halfmove_clock() {
    let mut board = board_from("4k3/8/8/1Pp5/8/8/8/4K3 w - c6 0 1");
    let quiet = GameMove::new(25, 26, 0, 0, 0);
    let mut b2 = board.clone();
    assert!(b2.make_move(quiet));
    assert_eq!(b2.fifty_move, 1);
    let ep = GameMove::new(62, 73, 0, 0, 0x40000);
    assert!(board.make_move(ep));
    assert_eq!(board.fifty_move, 0);
}

#[test]
fn pawn_move_resets_the_halfmove_clock() {
    let mut board = board_from("4k3/8/8/8/8/8/P7/4K3 w - - 0 1");
    let king = GameMove::new(25, 26, 0, 0, 0);
    assert!(board.make_move(king));
    assert_eq!(board.fifty_move, 1);
    let black_king = GameMove::new(95, 96, 0, 0, 0);
    assert!(board.make_move(black_king));
    assert_eq!(board.fifty_move, 2);
    let push = GameMove::new(31, 41, 0, 0, 0);
    assert!(board.make_move(push));
    assert_eq!(board.fifty_move, 0);
    board.undo_move();
    assert_eq!(board.fifty_move, 2);
}
