use chess::attack::{
    is_bishop_or_queen_attacking, is_king_attacking, is_knight_attacking, is_pawn_attacking,
    is_rook_or_queen_attacking, is_square_attacked, sliding_piece_attacking, square_is_attacked,
};
use chess::pieces::{BB, BK, BLACK, BN, BQ, BR, EMPTY, WB, WHITE, WK, WP};
use chess::squares::{
    fr2sq, is_sq_on_board, FILE_A, FILE_B, FILE_C, FILE_D, FILE_E, FILE_F, FILE_G, FILE_H, OFFBOARD,
    RANK_1, RANK_2, RANK_3, RANK_4, RANK_5, RANK_6, RANK_7, RANK_8,
};

fn init_pces() -> [u8; 120] {
    let mut pces: [u8; 120] = [OFFBOARD; 120];
    for i in 0..120u8 {
        if is_sq_on_board(i) {
            pces[i as usize] = EMPTY;
        }
    }
    pces[fr2sq(FILE_E, RANK_3) as usize] = WK;
    pces[fr2sq(FILE_E, RANK_8) as usize] = BK;
    pces[fr2sq(FILE_B, RANK_2) as usize] = WP;
    pces[fr2sq(FILE_C, RANK_1) as usize] = BN;
    pces[fr2sq(FILE_H, RANK_2) as usize] = WB;
    pces[fr2sq(FILE_A, RANK_1) as usize] = BB;
    pces[fr2sq(FILE_E, RANK_6) as usize] = BR;
    pces[fr2sq(FILE_D, RANK_6) as usize] = BQ;
    pces
}

#[test]
fn attack_test_with_pawn_attacking() {
    let pces = init_pces();
    assert_eq!(is_pawn_attacking(fr2sq(FILE_C, RANK_3), WHITE, &pces), true);
}

#[test]
fn attack_test_without_pawn_attacking() {
    let pces = init_pces();
    assert_eq!(is_pawn_attacking(fr2sq(FILE_D, RANK_3), WHITE, &pces), false);
}

#[test]
fn attack_test_with_knight_attacking() {
    let pces = init_pces();
    assert_eq!(is_knight_attacking(fr2sq(FILE_B, RANK_3), BLACK, &pces), true);
    assert_eq!(is_knight_attacking(fr2sq(FILE_D, RANK_3), BLACK, &pces), true);
    assert_eq!(is_knight_attacking(fr2sq(FILE_E, RANK_2), BLACK, &pces), true);
    assert_eq!(is_knight_attacking(fr2sq(FILE_A, RANK_2), BLACK, &pces), true);
}

#[test]
fn attack_test_without_knight_attacking() {
    let pces = init_pces();
    assert_eq!(is_knight_attacking(fr2sq(FILE_C, RANK_3), BLACK, &pces), false);
    assert_eq!(is_knight_attacking(fr2sq(FILE_E, RANK_3), BLACK, &pces), false);
    assert_eq!(is_knight_attacking(fr2sq(FILE_F, RANK_2), BLACK, &pces), false);
    assert_eq!(is_knight_attacking(fr2sq(FILE_B, RANK_2), BLACK, &pces), false);
}

#[test]
fn test_with_bihsop_attacking() {
    let pces = init_pces();
    assert_eq!(is_bishop_or_queen_attacking(fr2sq(FILE_G, RANK_3), WHITE, &pces), true);
    assert_eq!(is_bishop_or_queen_attacking(fr2sq(FILE_F, RANK_4), WHITE, &pces), true);
    assert_eq!(is_bishop_or_queen_attacking(fr2sq(FILE_E, RANK_5), WHITE, &pces), true);
    assert_eq!(is_bishop_or_queen_attacking(fr2sq(FILE_D, RANK_6), WHITE, &pces), true);
    assert_eq!(is_bishop_or_queen_attacking(fr2sq(FILE_B, RANK_2), BLACK, &pces), true);
    assert_eq!(is_bishop_or_queen_attacking(fr2sq(FILE_B, RANK_8), BLACK, &pces), true);
    assert_eq!(is_bishop_or_queen_attacking(fr2sq(FILE_H, RANK_2), BLACK, &pces), true);
}

#[test]
fn test_without_bihsop_attacking() {
    let pces = init_pces();
    assert_eq!(is_bishop_or_queen_attacking(fr2sq(FILE_C, RANK_3), BLACK, &pces), false);
    assert_eq!(is_bishop_or_queen_attacking(fr2sq(FILE_C, RANK_7), WHITE, &pces), false);
    assert_eq!(is_bishop_or_queen_attacking(fr2sq(FILE_B, RANK_8), WHITE, &pces), false);
}

#[test]
fn attack_test_with_rook_attacking() {
    let pces = init_pces();
    assert_eq!(is_rook_or_queen_attacking(fr2sq(FILE_A, RANK_6), BLACK, &pces), true);
    assert_eq!(is_rook_or_queen_attacking(fr2sq(FILE_E, RANK_3), BLACK, &pces), true);
    assert_eq!(is_rook_or_queen_attacking(fr2sq(FILE_A, RANK_6), BLACK, &pces), true);
}

#[test]
fn attack_test_without_rook_attacking() {
    let pces = init_pces();
    assert_eq!(is_rook_or_queen_attacking(fr2sq(FILE_C, RANK_7), BLACK, &pces), false);
    assert_eq!(is_rook_or_queen_attacking(fr2sq(FILE_E, RANK_2), BLACK, &pces), false);
    assert_eq!(is_rook_or_queen_attacking(fr2sq(FILE_H, RANK_6), BLACK, &pces), true);
}

#[test]
fn attack_test_with_king_attacking() {
    let pces = init_pces();
    assert_eq!(is_king_attacking(fr2sq(FILE_E, RANK_4), WHITE, &pces), true);
    assert_eq!(is_king_attacking(fr2sq(FILE_F, RANK_7), BLACK, &pces), true);
}

#[test]
fn attack_test_without_king_attacking() {
    let pces = init_pces();
    assert_eq!(is_king_attacking(fr2sq(FILE_E, RANK_5), WHITE, &pces), false);
    assert_eq!(is_king_attacking(fr2sq(FILE_F, RANK_7), WHITE, &pces), false);
}

#[test]
fn movegen_test_with_pawn_attacking() {
    let pces = init_pces();
    assert_eq!(square_is_attacked(fr2sq(FILE_C, RANK_3), WHITE, &pces), true);
}

#[test]
fn movegen_test_without_pawn_attacking() {
    let pces = init_pces();
    assert_eq!(square_is_attacked(fr2sq(FILE_B, RANK_5), WHITE, &pces), false);
}

#[test]
fn movegen_test_with_knight_attacking() {
    let pces = init_pces();
    assert_eq!(square_is_attacked(fr2sq(FILE_B, RANK_3), BLACK, &pces), true);
    assert_eq!(square_is_attacked(fr2sq(FILE_D, RANK_3), BLACK, &pces), true);
    assert_eq!(square_is_attacked(fr2sq(FILE_E, RANK_2), BLACK, &pces), true);
    assert_eq!(square_is_attacked(fr2sq(FILE_A, RANK_2), BLACK, &pces), true);
}

#[test]
fn movegen_test_without_knight_attacking() {
    let pces = init_pces();
    assert_eq!(square_is_attacked(fr2sq(FILE_C, RANK_3), BLACK, &pces), false);
    assert_eq!(square_is_attacked(fr2sq(FILE_C, RANK_4), BLACK, &pces), false);
    assert_eq!(square_is_attacked(fr2sq(FILE_F, RANK_2), BLACK, &pces), false);
    assert_eq!(square_is_attacked(fr2sq(FILE_A, RANK_4), BLACK, &pces), false);
}

#[test]
fn test_with_bishop_attacking() {
    let pces = init_pces();
    assert_eq!(sliding_piece_attacking(fr2sq(FILE_G, RANK_3), WHITE, &pces), true);
    assert_eq!(sliding_piece_attacking(fr2sq(FILE_F, RANK_4), WHITE, &pces), true);
    assert_eq!(sliding_piece_attacking(fr2sq(FILE_E, RANK_5), WHITE, &pces), true);
    assert_eq!(sliding_piece_attacking(fr2sq(FILE_D, RANK_6), WHITE, &pces), true);
    assert_eq!(sliding_piece_attacking(fr2sq(FILE_B, RANK_2), BLACK, &pces), true);
    assert_eq!(sliding_piece_attacking(fr2sq(FILE_B, RANK_8), BLACK, &pces), true);
    assert_eq!(sliding_piece_attacking(fr2sq(FILE_H, RANK_2), BLACK, &pces), true);
}

#[test]
fn test_without_bishop_attacking() {
    let pces = init_pces();
    assert_eq!(sliding_piece_attacking(fr2sq(FILE_C, RANK_3), BLACK, &pces), false);
    assert_eq!(sliding_piece_attacking(fr2sq(FILE_C, RANK_7), WHITE, &pces), false);
    assert_eq!(sliding_piece_attacking(fr2sq(FILE_B, RANK_8), WHITE, &pces), false);
    assert_eq!(sliding_piece_attacking(fr2sq(FILE_A, RANK_5), BLACK, &pces), false);
}

#[test]
fn movegen_test_with_rook_attacking() {
    let pces = init_pces();
    assert_eq!(sliding_piece_attacking(fr2sq(FILE_A, RANK_6), BLACK, &pces), true);
    assert_eq!(sliding_piece_attacking(fr2sq(FILE_E, RANK_3), BLACK, &pces), true);
    assert_eq!(sliding_piece_attacking(fr2sq(FILE_A, RANK_6), BLACK, &pces), true);
}

#[test]
fn movegen_test_without_rook_attacking() {
    let pces = init_pces();
    assert_eq!(sliding_piece_attacking(fr2sq(FILE_G, RANK_8), BLACK, &pces), false);
    assert_eq!(sliding_piece_attacking(fr2sq(FILE_C, RANK_4), BLACK, &pces), false);
    assert_eq!(sliding_piece_attacking(fr2sq(FILE_E, RANK_2), BLACK, &pces), false);
    assert_eq!(sliding_piece_attacking(fr2sq(FILE_H, RANK_6), BLACK, &pces), true);
}

#[test]
fn movegen_test_with_king_attacking() {
    let pces = init_pces();
    assert_eq!(square_is_attacked(fr2sq(FILE_E, RANK_4), WHITE, &pces), true);
    assert_eq!(square_is_attacked(fr2sq(FILE_F, RANK_7), BLACK, &pces), true);
}

#[test]
fn movegen_test_without_king_attacking() {
    let pces = init_pces();
    assert_eq!(square_is_attacked(fr2sq(FILE_D, RANK_5), WHITE, &pces), false);
    assert_eq!(square_is_attacked(fr2sq(FILE_F, RANK_7), WHITE, &pces), false);
}

#[test]
fn is_square_attacked_agrees_with_square_is_attacked() {
    let pces = init_pces();
    for sq in 21..99u8 {
        if is_sq_on_board(sq) {
            assert_eq!(is_square_attacked(sq, WHITE, &pces), square_is_attacked(sq, WHITE, &pces));
            assert_eq!(is_square_attacked(sq, BLACK, &pces), square_is_attacked(sq, BLACK, &pces));
        }
    }
}

#[test]
fn king_scan_stops_at_first_padding_cell() {
    // From a first-rank cell the second king offset (-10) lands on padding and ends the scan, so
    // the black king on g2, reached by a later offset, is not seen.
    let mut pces = init_pces();
    pces[fr2sq(FILE_E, RANK_8) as usize] = EMPTY;
    pces[fr2sq(FILE_G, RANK_2) as usize] = BK;
    assert_eq!(is_king_attacking(fr2sq(FILE_H, RANK_1), BLACK, &pces), false);
    assert_eq!(is_king_attacking(fr2sq(FILE_G, RANK_1), BLACK, &pces), false);
    assert_eq!(is_king_attacking(fr2sq(FILE_G, RANK_3), BLACK, &pces), true);
}
