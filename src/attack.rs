//! Attack detection on a raw 120-cell board.
use vstd::prelude::*;
use crate::pieces::{
    bishop_dir, bishop_offset, is_king, is_knight, is_piece, is_queen, is_same_color, king_dir,
    king_offset, kind, knight_dir, knight_offset, piece_color, rook_dir, rook_offset, spec_color,
    BP, EMPTY, WHITE, WP,
};
use crate::squares::{on_board, OFFBOARD};

verus! {

/// A raw board: 120 cells, each playable cell empty or holding a piece, each padding cell
/// holding the sentinel.
pub open spec fn cells_ok(c: Seq<u8>) -> bool {
    &&& c.len() == 120
    &&& forall|i: int| 0 <= i < 120 && on_board(i) ==> #[trigger] c[i] <= 12
    &&& forall|i: int| 0 <= i < 120 && !on_board(i) ==> #[trigger] c[i] == OFFBOARD
}

/// A piece of the given colour whose kind is one of two kinds.
pub open spec fn is_kind_of(p: u8, side: u8, k1: u8, k2: u8) -> bool {
    is_piece(p) && spec_color(p) == side && (kind(p) == k1 || kind(p) == k2)
}

/// A pawn of `side` stands diagonally behind `sq` (seen from `side`).
pub open spec fn pawn_attacks(c: Seq<u8>, sq: int, side: u8) -> bool {
    if side == WHITE {
        c[sq - 11] == WP || c[sq - 9] == WP
    } else {
        c[sq + 11] == BP || c[sq + 9] == BP
    }
}

/// A knight of `side` stands a knight's jump away from `sq`.
pub open spec fn knight_attacks(c: Seq<u8>, sq: int, side: u8) -> bool {
    exists|i: int| 0 <= i < 8 && #[trigger] is_kind_of(c[sq + knight_dir(i)], side, 2, 2)
}

/// Walking from `t` in steps of `d`, the first cell that is not empty holds a slider of `side`
/// of kind `k` or a queen; the walk ends without a hit at the padding.
pub open spec fn ray_hits(c: Seq<u8>, t: int, d: int, side: u8, k: u8) -> bool
    decreases (if d > 0 { 120 - t } else { t + 1 }),
{
    if !(0 <= t < 120 && t < c.len()) || d == 0 {
        false
    } else if c[t] == OFFBOARD {
        false
    } else if c[t] != EMPTY {
        is_kind_of(c[t], side, k, 5)
    } else if 0 <= t + d < 120 {
        ray_hits(c, t + d, d, side, k)
    } else {
        false
    }
}

/// A bishop, rook or queen of `side` sees `sq` along an open line.
pub open spec fn slider_attacks(c: Seq<u8>, sq: int, side: u8) -> bool {
    (exists|i: int| 0 <= i < 4 && #[trigger] ray_hits(c, sq + bishop_dir(i), bishop_dir(i), side, 3))
    || (exists|i: int| 0 <= i < 4 && #[trigger] ray_hits(c, sq + rook_dir(i), rook_dir(i), side, 4))
}

/// Scanning the king offsets in order and stopping at the first padding cell, a king of `side`
/// is found next to `sq`.
pub open spec fn king_attacks(c: Seq<u8>, sq: int, side: u8) -> bool {
    exists|j: int|
        0 <= j < 8 && (forall|i: int| 0 <= i < j ==> #[trigger] c[sq + king_dir(i)] != OFFBOARD)
            && #[trigger] is_kind_of(c[sq + king_dir(j)], side, 6, 6)
}

/// Whether `side` attacks the playable cell `sq`.
pub open spec fn attacked(c: Seq<u8>, sq: int, side: u8) -> bool {
    pawn_attacks(c, sq, side) || knight_attacks(c, sq, side) || slider_attacks(c, sq, side)
        || king_attacks(c, sq, side)
}

pub fn is_pawn_attacking(sq: u8, side: u8, pces: &[u8; 120]) -> (r: bool)
    requires
        cells_ok(pces@),
        on_board(sq as int),
    ensures
        r == pawn_attacks(pces@, sq as int, side),
{
    if side == WHITE {
        pces[(sq - 11) as usize] == WP || pces[(sq - 9) as usize] == WP
    } else {
        pces[(sq + 11) as usize] == BP || pces[(sq + 9) as usize] == BP
    }
}

pub fn is_knight_attacking(sq: u8, side: u8, pces: &[u8; 120]) -> (r: bool)
    requires
        cells_ok(pces@),
        on_board(sq as int),
    ensures
        r == knight_attacks(pces@, sq as int, side),
{
    let mut i: usize = 0;
    while i < 8
        invariant
            i <= 8,
            cells_ok(pces@),
            on_board(sq as int),
            forall|j: int| 0 <= j < i ==> !is_kind_of(#[trigger] pces@[sq + knight_dir(j)], side, 2, 2),
        decreases 8 - i,
    {
        let t = (sq as i16 + knight_offset(i) as i16) as usize;
        let pce = pces[t];
        if pce != OFFBOARD && is_knight(pce) && is_same_color(pce, side) {
            assert(is_kind_of(pces@[sq + knight_dir(i as int)], side, 2, 2));
            return true;
        }
        i += 1;
    }
    assert(!knight_attacks(pces@, sq as int, side));
    false
}

/// Follows one ray from `sq`; true when its first occupied cell holds a slider of `side` of
/// kind `k` or a queen.
fn ray_attacking(sq: u8, dir: i8, side: u8, k: u8, pces: &[u8; 120]) -> (r: bool)
    requires
        cells_ok(pces@),
        on_board(sq as int),
        dir == 1 || dir == -1 || dir == 9 || dir == -9 || dir == 10 || dir == -10 || dir == 11
            || dir == -11,
    ensures
        r == ray_hits(pces@, sq + dir, dir as int, side, k),
{
    let mut t: i16 = sq as i16 + dir as i16;
    loop
        invariant
            cells_ok(pces@),
            10 <= t <= 109,
            dir == 1 || dir == -1 || dir == 9 || dir == -9 || dir == 10 || dir == -10 || dir
                == 11 || dir == -11,
            ray_hits(pces@, t as int, dir as int, side, k) == ray_hits(
                pces@,
                sq + dir,
                dir as int,
                side,
                k,
            ),
        decreases (if dir > 0 { 120 - t } else { t + 1 }),
    {
        let pce = pces[t as usize];
        if pce == OFFBOARD {
            return false;
        }
        if pce != EMPTY {
            return pce <= 12 && piece_color(pce) == side && (kind_is(pce, k) || is_queen(pce));
        }
        assert(on_board(t as int));
        t = t + dir as i16;
    }
}

/// Whether `p` is a piece of kind `k` (1 to 6).
fn kind_is(p: u8, k: u8) -> (r: bool)
    ensures
        r == (is_piece(p) && kind(p) == k),
{
    (p >= 1 && p <= 6 && p == k) || (p >= 7 && p <= 12 && p - 6 == k)
}

pub fn is_bishop_or_queen_attacking(sq: u8, side: u8, pces: &[u8; 120]) -> (r: bool)
    requires
        cells_ok(pces@),
        on_board(sq as int),
    ensures
        r == exists|i: int| 0 <= i < 4 && #[trigger] ray_hits(pces@, sq + bishop_dir(i), bishop_dir(i), side, 3),
{
    let mut i: usize = 0;
    while i < 4
        invariant
            i <= 4,
            cells_ok(pces@),
            on_board(sq as int),
            forall|j: int| 0 <= j < i ==> !#[trigger] ray_hits(pces@, sq + bishop_dir(j), bishop_dir(j), side, 3),
        decreases 4 - i,
    {
        if ray_attacking(sq, bishop_offset(i), side, 3, pces) {
            return true;
        }
        i += 1;
    }
    false
}

pub fn is_rook_or_queen_attacking(sq: u8, side: u8, pces: &[u8; 120]) -> (r: bool)
    requires
        cells_ok(pces@),
        on_board(sq as int),
    ensures
        r == exists|i: int| 0 <= i < 4 && #[trigger] ray_hits(pces@, sq + rook_dir(i), rook_dir(i), side, 4),
{
    let mut i: usize = 0;
    while i < 4
        invariant
            i <= 4,
            cells_ok(pces@),
            on_board(sq as int),
            forall|j: int| 0 <= j < i ==> !#[trigger] ray_hits(pces@, sq + rook_dir(j), rook_dir(j), side, 4),
        decreases 4 - i,
    {
        if ray_attacking(sq, rook_offset(i), side, 4, pces) {
            return true;
        }
        i += 1;
    }
    false
}

/// Whether a bishop, rook or queen of `side` attacks `sq`.
pub fn sliding_piece_attacking(sq: u8, side: u8, pces: &[u8; 120]) -> (r: bool)
    requires
        cells_ok(pces@),
        on_board(sq as int),
    ensures
        r == slider_attacks(pces@, sq as int, side),
{
    is_bishop_or_queen_attacking(sq, side, pces) || is_rook_or_queen_attacking(sq, side, pces)
}

pub fn is_king_attacking(sq: u8, side: u8, pces: &[u8; 120]) -> (r: bool)
    requires
        cells_ok(pces@),
        on_board(sq as int),
    ensures
        r == king_attacks(pces@, sq as int, side),
{
    let mut i: usize = 0;
    while i < 8
        invariant
            i <= 8,
            cells_ok(pces@),
            on_board(sq as int),
            forall|j: int| 0 <= j < i ==> #[trigger] pces@[sq + king_dir(j)] != OFFBOARD,
            forall|j: int| 0 <= j < i ==> !is_kind_of(#[trigger] pces@[sq + king_dir(j)], side, 6, 6),
        decreases 8 - i,
    {
        let t = (sq as i16 + king_offset(i) as i16) as usize;
        let pce = pces[t];
        if pce == OFFBOARD {
            assert forall|j: int| 0 <= j < 8 && (forall|m: int| 0 <= m < j ==> #[trigger] pces@[sq + king_dir(m)] != OFFBOARD)
                implies !is_kind_of(pces@[sq + king_dir(j)], side, 6, 6) by {
                if j > i {
                    assert(pces@[sq + king_dir(i as int)] != OFFBOARD);
                }
            }
            return false;
        }
        if is_king(pce) && is_same_color(pce, side) {
            assert(is_kind_of(pces@[sq + king_dir(i as int)], side, 6, 6));
            return true;
        }
        i += 1;
    }
    false
}

/// Whether `side` attacks the playable cell `sq`: by a pawn, a knight, a slider along an open
/// line, or the king.
pub fn square_is_attacked(sq: u8, side: u8, pces: &[u8; 120]) -> (r: bool)
    requires
        cells_ok(pces@),
        on_board(sq as int),
    ensures
        r == attacked(pces@, sq as int, side),
{
    is_pawn_attacking(sq, side, pces) || is_knight_attacking(sq, side, pces)
        || sliding_piece_attacking(sq, side, pces) || is_king_attacking(sq, side, pces)
}

/// Same as `square_is_attacked`.
pub fn is_square_attacked(sq: u8, side: u8, pces: &[u8; 120]) -> (r: bool)
    requires
        cells_ok(pces@),
        on_board(sq as int),
    ensures
        r == attacked(pces@, sq as int, side),
{
    square_is_attacked(sq, side, pces)
}

} // verus!
