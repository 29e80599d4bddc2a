//! The abstract position and the effect of making and unmaking a move on it.
use vstd::prelude::*;
use crate::attack::cells_ok;
use crate::gamemove::GameMove;
use crate::pieces::{is_piece, kind, piece_of, spec_color, BK, EMPTY, WHITE, WK};
use crate::squares::{on_board, NO_SQ};

verus! {

/// The state of a position that its derived bookkeeping is computed from.
pub struct Position {
    pub cells: Seq<u8>,
    pub side: u8,
    pub ep: u8,
    pub castle: u8,
    pub fifty: u64,
    pub white_king: u8,
    pub black_king: u8,
}

/// The king of a colour.
pub open spec fn king_of(col: u8) -> u8 {
    if col == WHITE {
        WK
    } else {
        BK
    }
}

/// Every king of a colour stands on that colour's king square (so there is at most one).
pub open spec fn kings_ok(c: Seq<u8>, wk: u8, bk: u8) -> bool {
    &&& wk < 120 && bk < 120
    &&& forall|s: int| 0 <= s < 120 && #[trigger] c[s] == WK ==> s == wk
    &&& forall|s: int| 0 <= s < 120 && #[trigger] c[s] == BK ==> s == bk
}

/// A position that moves can be made from.
pub open spec fn position_ok(v: Position) -> bool {
    &&& cells_ok(v.cells)
    &&& v.side <= 1
    &&& v.castle <= 15
    &&& v.ep == NO_SQ || on_board(v.ep as int)
    &&& kings_ok(v.cells, v.white_king, v.black_king)
}

/// Castling rights kept when a piece moves from or to a square: moving a rook or king from
/// its home square, or capturing on it, drops the rights that depend on it.
pub open spec fn castle_mask(sq: int) -> u8 {
    if sq == 21 {
        13
    } else if sq == 25 {
        12
    } else if sq == 28 {
        14
    } else if sq == 91 {
        7
    } else if sq == 95 {
        3
    } else if sq == 98 {
        11
    } else {
        15
    }
}

/// Home square of the rook that castles with the king going to `to`.
pub open spec fn rook_from(to: int) -> int {
    if to == 23 {
        21
    } else if to == 27 {
        28
    } else if to == 93 {
        91
    } else {
        98
    }
}

/// Square of that rook after castling.
pub open spec fn rook_to(to: int) -> int {
    if to == 23 {
        24
    } else if to == 27 {
        26
    } else if to == 93 {
        94
    } else {
        96
    }
}

/// Square of the pawn taken en passant by `side` landing on `to`.
pub open spec fn ep_victim(side: u8, to: int) -> int {
    if side == WHITE {
        to - 10
    } else {
        to + 10
    }
}

/// A move that `make_move` can apply to `v`: a piece of the side to move goes from its cell to
/// another playable cell, with fields that agree with the board.
pub open spec fn move_ok(v: Position, m: GameMove) -> bool {
    let from = m.spec_origin() as int;
    let to = m.spec_destination() as int;
    let c = v.cells;
    let p = c[from];
    let side = v.side;
    let cap = m.spec_capture();
    let prom = m.spec_promoted();
    &&& on_board(from) && on_board(to) && from != to
    &&& is_piece(p) && spec_color(p) == side
    &&& prom == EMPTY || (kind(p) == 1 && is_piece(prom) && spec_color(prom) == side && 2 <= kind(
        prom,
    ) <= 5)
    &&& m.spec_is_ps() ==> kind(p) == 1 && !m.spec_is_ep() && !m.spec_is_castle() && to == (if side
        == WHITE {
        from + 20
    } else {
        from - 20
    })
    &&& if m.spec_is_ep() {
        &&& kind(p) == 1 && !m.spec_is_castle()
        &&& c[to] == EMPTY && cap == EMPTY && prom == EMPTY
        &&& c[ep_victim(side, to)] == piece_of(1, (1 - side) as u8)
    } else if m.spec_is_castle() {
        &&& kind(p) == 6 && cap == EMPTY && prom == EMPTY
        &&& if side == WHITE {
            from == 25 && (to == 27 || to == 23)
        } else {
            from == 95 && (to == 97 || to == 93)
        }
        &&& c[rook_from(to)] == piece_of(4, side)
        &&& c[rook_to(to)] == EMPTY
        &&& c[to] == EMPTY
    } else {
        cap == c[to] && (c[to] == EMPTY || (is_piece(c[to]) && spec_color(c[to]) != side))
    }
}

/// The piece that ends on the destination.
pub open spec fn placed(v: Position, m: GameMove) -> u8 {
    if m.spec_promoted() != EMPTY {
        m.spec_promoted()
    } else {
        v.cells[m.spec_origin() as int]
    }
}

/// Cells after the captured pawn (en passant) or the castling rook is dealt with.
pub open spec fn side_effect_cells(v: Position, m: GameMove) -> Seq<u8> {
    let to = m.spec_destination() as int;
    let c = v.cells;
    if m.spec_is_ep() {
        c.update(ep_victim(v.side, to), EMPTY)
    } else if m.spec_is_castle() {
        c.update(rook_from(to), EMPTY).update(rook_to(to), c[rook_from(to)])
    } else {
        c
    }
}

/// Cells after the move.
pub open spec fn apply_cells(v: Position, m: GameMove) -> Seq<u8> {
    side_effect_cells(v, m).update(m.spec_origin() as int, EMPTY).update(
        m.spec_destination() as int,
        placed(v, m),
    )
}

/// En-passant square after the move: the square a pawn skipped on a double push.
pub open spec fn ep_after(v: Position, m: GameMove) -> u8 {
    let from = m.spec_origin() as int;
    if m.spec_is_ps() && kind(v.cells[from]) == 1 {
        (if v.side == WHITE {
            from + 10
        } else {
            from - 10
        }) as u8
    } else {
        NO_SQ
    }
}

/// The position after making `m` in `v`.
pub open spec fn apply(v: Position, m: GameMove) -> Position {
    let from = m.spec_origin() as int;
    let to = m.spec_destination() as int;
    let king_moves = kind(v.cells[from]) == 6;
    Position {
        cells: apply_cells(v, m),
        side: (1 - v.side) as u8,
        ep: ep_after(v, m),
        castle: v.castle & castle_mask(from) & castle_mask(to),
        fifty: if m.spec_capture() != EMPTY || m.spec_is_ep() || kind(v.cells[from]) == 1 {
            0
        } else {
            (v.fifty + 1) as u64
        },
        white_king: if v.side == WHITE && king_moves {
            to as u8
        } else {
            v.white_king
        },
        black_king: if v.side != WHITE && king_moves {
            to as u8
        } else {
            v.black_king
        },
    }
}

/// The position before the last move, from the position after it and what was saved when it
/// was made: the move, en-passant square, castling rights and halfmove clock.
pub open spec fn revert(cur: Position, m: GameMove, ep: u8, castle: u8, fifty: u64) -> Position {
    let from = m.spec_origin() as int;
    let to = m.spec_destination() as int;
    let side = (1 - cur.side) as u8;
    let c = cur.cells;
    let mover = if m.spec_promoted() != EMPTY {
        piece_of(1, side)
    } else {
        c[to]
    };
    let c1 = c.update(to, m.spec_capture()).update(from, mover);
    let c2 = if m.spec_is_ep() {
        c1.update(ep_victim(side, to), piece_of(1, (1 - side) as u8))
    } else if m.spec_is_castle() {
        c1.update(rook_to(to), EMPTY).update(rook_from(to), c[rook_to(to)])
    } else {
        c1
    };
    Position {
        cells: c2,
        side,
        ep,
        castle,
        fifty,
        white_king: if side == WHITE && kind(mover) == 6 {
            from as u8
        } else {
            cur.white_king
        },
        black_king: if side != WHITE && kind(mover) == 6 {
            from as u8
        } else {
            cur.black_king
        },
    }
}

/// Making a move keeps a position fit for further moves.
pub proof fn lemma_apply_ok(v: Position, m: GameMove)
    requires
        position_ok(v),
        move_ok(v, m),
    ensures
        position_ok(apply(v, m)),
{
    let a = apply(v, m);
    let from = m.spec_origin() as int;
    let to = m.spec_destination() as int;
    assert(v.cells.len() == 120);
    if m.spec_is_ep() {
        assert(is_piece(v.cells[ep_victim(v.side, to)]));
    }
    if m.spec_is_castle() {
        assert(is_piece(v.cells[rook_from(to)]));
    }
    let c0 = v.castle;
    let m1 = castle_mask(from);
    let m2 = castle_mask(to);
    assert((c0 & m1 & m2) <= 15) by (bit_vector)
        requires
            c0 <= 15,
    ;
    if kind(v.cells[from]) == 6 {
        assert(v.cells[from] == king_of(v.side));
    }
    assert(a.cells.len() == 120);
    assert(cells_ok(a.cells));
}

/// Unmaking a move restores the position it was made from, given what was saved when it was
/// made.
pub proof fn lemma_make_undo_round_trip(v: Position, m: GameMove)
    requires
        position_ok(v),
        move_ok(v, m),
    ensures
        revert(apply(v, m), m, v.ep, v.castle, v.fifty) == v,
{
    let a = apply(v, m);
    let r = revert(a, m, v.ep, v.castle, v.fifty);
    let from = m.spec_origin() as int;
    let to = m.spec_destination() as int;
    assert(v.cells.len() == 120);
    if m.spec_is_ep() {
        assert(is_piece(v.cells[ep_victim(v.side, to)]));
    }
    if m.spec_is_castle() {
        assert(is_piece(v.cells[rook_from(to)]));
    }
    assert(r.cells =~= v.cells);
    if kind(v.cells[from]) == 6 {
        assert(v.cells[from] == king_of(v.side));
    }
    assert(r.side == v.side);
}

/// Castling rights after a move are those before it minus the ones tied to the squares the
/// move leaves or lands on: a king or rook leaving its home square (or a capture landing there)
/// clears the matching rights, rights are never gained, and unmaking the move restores exactly
/// the rights held before it, so a right revoked earlier stays revoked.
pub proof fn lemma_castle_revocation(v: Position, m: GameMove)
    requires
        position_ok(v),
        move_ok(v, m),
    ensures
        ({
            let a = apply(v, m);
            let from = m.spec_origin() as int;
            let to = m.spec_destination() as int;
            &&& a.castle & !v.castle == 0
            &&& (from == 25 || to == 25) ==> a.castle & 3 == 0
            &&& (from == 28 || to == 28) ==> a.castle & 1 == 0
            &&& (from == 21 || to == 21) ==> a.castle & 2 == 0
            &&& (from == 95 || to == 95) ==> a.castle & 12 == 0
            &&& (from == 98 || to == 98) ==> a.castle & 4 == 0
            &&& (from == 91 || to == 91) ==> a.castle & 8 == 0
            &&& revert(a, m, v.ep, v.castle, v.fifty).castle == v.castle
        }),
{
    let from = m.spec_origin() as int;
    let to = m.spec_destination() as int;
    let c = v.castle;
    let m1 = castle_mask(from);
    let m2 = castle_mask(to);
    assert((c & m1 & m2) & !c == 0 && ((m1 == 12 || m2 == 12) ==> (c & m1 & m2) & 3 == 0) && ((m1
        == 14 || m2 == 14) ==> (c & m1 & m2) & 1 == 0) && ((m1 == 13 || m2 == 13) ==> (c & m1 & m2)
        & 2 == 0) && ((m1 == 3 || m2 == 3) ==> (c & m1 & m2) & 12 == 0) && ((m1 == 11 || m2 == 11)
        ==> (c & m1 & m2) & 4 == 0) && ((m1 == 7 || m2 == 7) ==> (c & m1 & m2) & 8 == 0))
        by (bit_vector);
}

/// The en-passant square after a move is set exactly when the move is a pawn double push, and
/// is then the square the pawn skipped; after any other move there is none, whether or not the
/// previous one was used.
pub proof fn lemma_en_passant_window(v: Position, m: GameMove)
    requires
        position_ok(v),
        move_ok(v, m),
    ensures
        ({
            let a = apply(v, m);
            let from = m.spec_origin() as int;
            &&& (a.ep != NO_SQ) == m.spec_is_ps()
            &&& m.spec_is_ps() ==> a.ep as int == (if v.side == WHITE { from + 10 } else { from - 10 })
            &&& m.spec_is_ps() ==> on_board(a.ep as int)
        }),
{
}

} // verus!
