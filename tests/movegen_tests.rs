use chess::board::Board;
use chess::gamemove::GameMove;
use chess::movegen::{
    add_bp_capture_move, add_wp_capture_move, generate_all_moves, generate_bp_moves, generate_wp_moves,
};
use chess::pieces::{BR, WP, WR};
use chess::squares::{fr2sq, FILE_C, FILE_D, FILE_G, FILE_H, RANK_1, RANK_2, RANK_4, RANK_5, RANK_7, RANK_8};

fn board_from(fen: &str) -> Board {
    let mut board = Board::new();
    board.parse_fen(fen).unwrap();
    board.update_material_list();
    board
}

fn white_pawn_capture_promote() {
    let board = board_from("rnbqkbnr/pp1p1pPp/8/2p1pP2/1P1P4/3P4/P1P1P3/RNBQKBNR w KQkq e6 0 10");
    let mut move_list: Vec<GameMove> = Vec::new();
    add_wp_capture_move(&board, fr2sq(FILE_G, RANK_7), fr2sq(FILE_H, RANK_8), BR, &mut move_list);
    assert_eq!(move_list.len(), 4, "Did not generate correct number of moves");
    assert_eq!(move_list[0].move_int, 0x52b157, "Did not generate gxh8=Q?");
    assert_eq!(move_list[3].move_int, 0x22b157, "Did not generate gxh8=N?");
}

fn black_pawn_capture_promote() {
    let board = board_from("rnbqkbnr/ppp1p2p/3p4/3p4/2P1Pp2/8/PP1P1PpP/RNBQKBNR b KQkq e3 0 10");
    let mut move_list: Vec<GameMove> = Vec::new();
    add_bp_capture_move(&board, fr2sq(FILE_G, RANK_2), fr2sq(FILE_H, RANK_1), WR, &mut move_list);
    assert_eq!(move_list.len(), 4, "Did not generate correct number of moves");
    assert_eq!(move_list[0].move_int, 0xb10e25, "Did not generate gxh1=Q?");
    assert_eq!(move_list[3].move_int, 0x810e25, "Did not generate gxh1=N?");
}

fn black_pawn_capture() {
    let board = board_from("rnbqkbnr/ppp1p2p/3p4/3p4/2P1Pp2/8/PP1P1PpP/RNBQKBNR b KQkq e3 0 10");
    let mut move_list: Vec<GameMove> = Vec::new();
    add_bp_capture_move(&board, fr2sq(FILE_D, RANK_5), fr2sq(FILE_C, RANK_4), WP, &mut move_list);
    assert_eq!(move_list.len(), 1, "Did not generate correct number of moves");
    assert_eq!(move_list[0].move_int, 0x5ac0, "Did not generate cxb4");
}

fn wp_movegen() {
    let board = board_from("rnbqkbnr/pp1p1pPp/8/2p1pP2/1P1P4/3P4/P1P1P2P/RNBQKBNR w KQkq e6 0 10");
    let mut move_list: Vec<GameMove> = Vec::new();
    generate_wp_moves(&board, &mut move_list);
    assert_eq!(move_list.len(), 23, "Did not generate correct number of white pawn moves");
}

fn bp_movegen() {
    let board = board_from("rnbqkbnr/ppp1p2p/3p4/3p4/2P1Pp2/8/PP1P1PpP/RNBQKBNR b KQkq e3 0 10");
    let mut move_list: Vec<GameMove> = Vec::new();
    generate_bp_moves(&board, &mut move_list);
    assert_eq!(move_list.len(), 23, "Did not generate correct number of white pawn moves");
}

fn all_movegen_white() {
    let sample_moves = vec![
        GameMove { move_int: 140846, score: 0 },
        GameMove { move_int: 16780697, score: 0 },
        GameMove { move_int: 531621, score: 0 },
        GameMove { move_int: 5279, score: 0 },
        GameMove { move_int: 9536, score: 0 },
        GameMove { move_int: 6819, score: 0 },
        GameMove { move_int: 156579, score: 0 },
        GameMove { move_int: 3356, score: 0 },
        GameMove { move_int: 3115, score: 0 },
    ];
    let board = board_from("r3k2r/p1ppqpb1/bn2pnp1/3PN3/1p2P3/2N2Q1p/PPPBBPPP/R3K2R w KQkq - 0 1");
    let mut move_list: Vec<GameMove> = Vec::new();
    generate_all_moves(&board, &mut move_list);
    assert_eq!(move_list.len(), 48, "Did not generate correct number of moves for white");
    assert!(sample_moves.iter().all(|item| move_list.contains(item)));
}

fn all_movegen_black() {
    let board = board_from("r3k2r/p1ppqpb1/bn2pnp1/3PN3/1p2P3/2N2Q1p/PPPBBPPP/R3K2R b KQkq - 0 1");
    let mut move_list: Vec<GameMove> = Vec::new();
    generate_all_moves(&board, &mut move_list);
    assert_eq!(move_list.len(), 43, "Did not generate correct number of moves for black");
}

#[test]
fn generate_test_white_pawn_capture_promote() {
    white_pawn_capture_promote();
}

#[test]
fn movegen_test_white_pawn_capture_promote() {
    white_pawn_capture_promote();
}

#[test]
fn generate_test_black_pawn_capture_promote() {
    black_pawn_capture_promote();
}

#[test]
fn movegen_test_black_pawn_capture_promote() {
    black_pawn_capture_promote();
}

#[test]
fn generate_test_black_pawn_capture() {
    black_pawn_capture();
}

#[test]
fn movegen_test_black_pawn_capture() {
    black_pawn_capture();
}

#[test]
fn generate_test_wp_movegen() {
    wp_movegen();
}

#[test]
fn movegen_test_wp_movegen() {
    wp_movegen();
}

#[test]
fn generate_test_bp_movegen() {
    bp_movegen();
}

#[test]
fn movegen_test_bp_movegen() {
    bp_movegen();
}

#[test]
fn generate_test_all_movegen_white() {
    all_movegen_white();
}

#[test]
fn movegen_test_all_movegen_white() {
    all_movegen_white();
}

#[test]
fn generate_test_all_movegen_black() {
    all_movegen_black();
}

#[test]
fn movegen_test_all_movegen_black() {
    all_movegen_black();
}

#[test]
fn black_castles_from_e8() {
    let board = board_from("r3k2r/8/8/8/8/8/8/4K3 b kq - 0 1");
    let mut move_list: Vec<GameMove> = Vec::new();
    generate_all_moves(&board, &mut move_list);
    let castles: Vec<&GameMove> = move_list.iter().filter(|m| m.is_castle_move()).collect();
    assert_eq!(castles.len(), 2);
    assert!(castles.iter().all(|m| m.origin() == 95));
}

#[test]
fn no_castle_out_of_check() {
    let board = board_from("4k3/8/8/8/8/8/4r3/R3K2R w KQ - 0 1");
    let mut move_list: Vec<GameMove> = Vec::new();
    generate_all_moves(&board, &mut move_list);
    assert!(move_list.iter().all(|m| !m.is_castle_move()));
}
