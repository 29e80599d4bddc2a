//! Reading a position from its Forsyth-Edwards description.
use vstd::prelude::*;
use vstd::string::StringSliceAdditionalSpecFns;
use crate::board::Board;
use crate::pieces::{BK, BLACK, BB, BN, BP, BQ, BR, EMPTY, WB, WHITE, WK, WN, WP, WQ, WR};
use crate::position::kings_ok;
use crate::squares::{fr2sq, on_board, spec_fr2sq, NO_SQ, OFFBOARD};

verus! {

/// Why a position description was refused.
#[derive(Debug, Clone, Copy, PartialEq, Eq)]
pub enum FenError {
    /// A character that is neither a piece, a digit nor a separator, a rank that overflows, or
    /// a cell named twice.
    BadPlacement,
    /// A second king of one colour.
    TooManyKings,
    /// The side to move is neither `w` nor `b`.
    BadSide,
    /// The en-passant field is neither `-` nor a square.
    BadEnPassant,
    /// The description ends early.
    Truncated,
    /// A colour has no king.
    MissingKing,
}

/// The piece a FEN letter stands for: `PNBRQK` white, `pnbrqk` black; `EMPTY` for any other
/// byte.
pub open spec fn fen_piece(ch: u8) -> u8 {
    if ch == 80 { WP } else if ch == 78 { WN } else if ch == 66 { WB } else if ch == 82 { WR }
    else if ch == 81 { WQ } else if ch == 75 { WK } else if ch == 112 { BP } else if ch == 110 { BN }
    else if ch == 98 { BB } else if ch == 114 { BR } else if ch == 113 { BQ } else if ch == 107 { BK }
    else { EMPTY }
}

/// The piece a FEN letter stands for, `EMPTY` for any other byte.
pub fn piece_of_char(ch: u8) -> (r: u8)
    ensures
        r == fen_piece(ch),
{
    if ch == 80 { WP } else if ch == 78 { WN } else if ch == 66 { WB } else if ch == 82 { WR }
    else if ch == 81 { WQ } else if ch == 75 { WK } else if ch == 112 { BP } else if ch == 110 { BN }
    else if ch == 98 { BB } else if ch == 114 { BR } else if ch == 113 { BQ } else if ch == 107 { BK }
    else { EMPTY }
}

/// The cells of an empty board.
pub open spec fn empty_board_cells() -> Seq<u8> {
    Seq::new(120, |i: int| if on_board(i) { EMPTY } else { OFFBOARD })
}

/// Reads the placement field from byte `i` on, standing at `rank` and `file` with cells `c`:
/// `/` or a space ends the rank, a digit skips that many cells, a letter puts its piece on the
/// next cell. Gives the cells and the index after the field once the first rank is done.
pub open spec fn placement(b: Seq<u8>, i: int, rank: int, file: int, c: Seq<u8>) -> Result<(Seq<u8>, int), FenError>
    decreases b.len() - i,
{
    if rank < 0 {
        Ok((c, i))
    } else if i < 0 || i >= b.len() {
        Err(FenError::Truncated)
    } else {
        let ch = b[i];
        if ch == 47 || ch == 32 {
            placement(b, i + 1, rank - 1, 0, c)
        } else if 49 <= ch <= 56 {
            if file + (ch - 48) > 8 {
                Err(FenError::BadPlacement)
            } else {
                placement(b, i + 1, rank, file + (ch - 48), c)
            }
        } else {
            let p = fen_piece(ch);
            let sq = spec_fr2sq(file, rank);
            if p == EMPTY || file >= 8 {
                Err(FenError::BadPlacement)
            } else if c[sq] != EMPTY {
                Err(FenError::BadPlacement)
            } else if (p == WK || p == BK) && exists|s: int| 0 <= s < 120 && #[trigger] c[s] == p {
                Err(FenError::TooManyKings)
            } else {
                placement(b, i + 1, rank, file + 1, c.update(sq, p))
            }
        }
    }
}

/// Reads at most four castling letters from byte `i` on (`K`, `Q`, `k`, `q` add a right, `-`
/// clears them), stopping at a space, the end, or any other byte. Gives the rights and the
/// index where reading stopped.
pub open spec fn castle_scan(b: Seq<u8>, i: int, n: int, castle: u8) -> (u8, int)
    decreases 4 - n,
{
    if n >= 4 || i < 0 || i >= b.len() || b[i] == 32 {
        (castle, i)
    } else if b[i] == 75 {
        castle_scan(b, i + 1, n + 1, castle | 1)
    } else if b[i] == 81 {
        castle_scan(b, i + 1, n + 1, castle | 2)
    } else if b[i] == 107 {
        castle_scan(b, i + 1, n + 1, castle | 4)
    } else if b[i] == 113 {
        castle_scan(b, i + 1, n + 1, castle | 8)
    } else if b[i] == 45 {
        castle_scan(b, i + 1, n + 1, 0)
    } else {
        (castle, i)
    }
}

/// What a description stands for: cells, side to move, castling rights and en-passant square;
/// or why it is refused. After the placement come the side letter, one separator byte, the
/// castling field, one separator byte and the en-passant field. Each colour needs a king.
pub open spec fn fen_result(b: Seq<u8>) -> Result<(Seq<u8>, u8, u8, u8), FenError> {
    match placement(b, 0, 7, 0, empty_board_cells()) {
        Err(e) => Err(e),
        Ok((cells, i)) => {
            if !(exists|s: int| 0 <= s < 120 && #[trigger] cells[s] == WK) || !(exists|s: int|
                0 <= s < 120 && #[trigger] cells[s] == BK) {
                Err(FenError::MissingKing)
            } else if i >= b.len() {
                Err(FenError::Truncated)
            } else if b[i] != 119 && b[i] != 98 {
                Err(FenError::BadSide)
            } else {
                let side: u8 = if b[i] == 119 { WHITE } else { BLACK };
                let j = if i + 1 < b.len() { i + 2 } else { i + 1 };
                let (castle, k) = castle_scan(b, j, 0, 0);
                if k + 1 >= b.len() {
                    Err(FenError::Truncated)
                } else {
                    let e = k + 1;
                    if b[e] == 45 {
                        Ok((cells, side, castle, NO_SQ))
                    } else if !(97 <= b[e] <= 104) || e + 1 >= b.len() || !(49 <= b[e + 1] <= 56) {
                        Err(FenError::BadEnPassant)
                    } else {
                        Ok((cells, side, castle, spec_fr2sq(b[e] - 97, b[e + 1] - 49) as u8))
                    }
                }
            }
        }
    }
}

/// The board holds what a description stands for.
pub open spec fn holds(board: &Board, cells: Seq<u8>, side: u8, castle: u8, ep: u8) -> bool {
    &&& board.pieces@ == cells
    &&& board.side == side
    &&& board.castle_perm == castle
    &&& board.en_passant == ep
}

impl Board {
    /// Sets the board from a Forsyth-Edwards description (see `fen_result`); the clocks are not
    /// read and the history is emptied. On an error the board is left empty.
    pub fn parse_fen(&mut self, fen: &str) -> (r: Result<(), FenError>)
        requires
            old(self).tables_ok(),
        ensures
            final(self).wf(),
            final(self).hasher == old(self).hasher,
            final(self).history@.len() == 0,
            final(self).fifty_move == 0,
            match fen_result(fen.spec_bytes()) {
                Ok((cells, side, castle, ep)) => r is Ok && holds(final(self), cells, side, castle, ep),
                Err(e) => r == Err::<(), FenError>(e) && final(self).empty_position(),
            },
    {
        let b = fen.as_bytes();
        self.parse_fen_bytes(b)
    }

    /// `parse_fen` on the bytes of the description.
    #[verifier::spinoff_prover]
    #[verifier::rlimit(100)]
    pub fn parse_fen_bytes(&mut self, b: &[u8]) -> (r: Result<(), FenError>)
        requires
            old(self).tables_ok(),
        ensures
            final(self).wf(),
            final(self).hasher == old(self).hasher,
            final(self).history@.len() == 0,
            final(self).fifty_move == 0,
            match fen_result(b@) {
                Ok((cells, side, castle, ep)) => r is Ok && holds(final(self), cells, side, castle, ep),
                Err(e) => r == Err::<(), FenError>(e) && final(self).empty_position(),
            },
    {
        self.reset_position();
        proof {
            assert(self.pieces@ =~= empty_board_cells());
        }
        let len = b.len();
        let mut i: usize = 0;
        let mut rank: i8 = 7;
        let mut file: u8 = 0;
        while rank >= 0
            invariant
                self.derived_ok(),
                self.tables_ok(),
                self.hasher == old(self).hasher,
                kings_ok(self.pieces@, self.king_sq[0], self.king_sq[1]),
                self.side == 2,
                self.castle_perm == 0,
                self.en_passant == NO_SQ,
                self.fifty_move == 0,
                self.ply == 0,
                self.history_ply == 0,
                self.history@.len() == 0,
                self.prev@.len() == 0,
                i <= len,
                len == b@.len(),
                file <= 8,
                -1 <= rank <= 7,
                placement(b@, 0, 7, 0, empty_board_cells()) == placement(b@, i as int, rank as int, file as int, self.pieces@),
            decreases len - i,
        {
            if i >= len {
                self.reset_position();
                return Err(FenError::Truncated);
            }
            let ch = b[i];
            if ch == 47 || ch == 32 {
                rank = rank - 1;
                file = 0;
            } else if ch >= 49 && ch <= 56 {
                file = file + (ch - 48);
                if file > 8 {
                    self.reset_position();
                    return Err(FenError::BadPlacement);
                }
            } else {
                let piece = piece_of_char(ch);
                if piece == EMPTY || file >= 8 {
                    self.reset_position();
                    return Err(FenError::BadPlacement);
                }
                let sq = fr2sq(file, rank as u8);
                assert(on_board(sq as int));
                if self.pieces[sq as usize] != EMPTY {
                    self.reset_position();
                    return Err(FenError::BadPlacement);
                }
                if piece == WK || piece == BK {
                    proof {
                        assert(crate::board::list_ok_of(self.pieces, self.num_pieces, self.piece_list, piece as int));
                    }
                    if self.num_pieces[piece as usize] != 0 {
                        proof {
                            let s0 = self.piece_list[piece as int][0];
                            assert(self.pieces[s0 as int] == piece);
                        }
                        self.reset_position();
                        return Err(FenError::TooManyKings);
                    }
                    proof {
                        assert forall|s: int| 0 <= s < 120 implies #[trigger] self.pieces[s] != piece by {
                            if self.pieces[s] == piece {
                                let w = choose|w: int| 0 <= w < self.num_pieces[piece as int] && #[trigger] self.piece_list[piece as int][w] == s;
                            }
                        }
                    }
                    self.add_piece(sq, piece);
                    if piece == WK {
                        self.king_sq[0] = sq;
                    } else {
                        self.king_sq[1] = sq;
                    }
                } else {
                    self.add_piece(sq, piece);
                }
                file = file + 1;
            }
            i += 1;
        }
        let ghost cells = self.pieces@;
        proof {
            assert(placement(b@, 0, 7, 0, empty_board_cells()) == Ok::<(Seq<u8>, int), FenError>((cells, i as int)));
        }
        proof {
            assert(crate::board::list_ok_of(self.pieces, self.num_pieces, self.piece_list, WK as int));
            assert(crate::board::list_ok_of(self.pieces, self.num_pieces, self.piece_list, BK as int));
        }
        if self.num_pieces[WK as usize] == 0 || self.num_pieces[BK as usize] == 0 {
            proof {
                if self.num_pieces[WK as int] == 0 {
                    assert forall|s: int| 0 <= s < 120 implies #[trigger] cells[s] != WK by {
                        if cells[s] == WK {
                            let w = choose|w: int| 0 <= w < self.num_pieces[WK as int] && #[trigger] self.piece_list[WK as int][w] == s;
                        }
                    }
                } else {
                    assert forall|s: int| 0 <= s < 120 implies #[trigger] cells[s] != BK by {
                        if cells[s] == BK {
                            let w = choose|w: int| 0 <= w < self.num_pieces[BK as int] && #[trigger] self.piece_list[BK as int][w] == s;
                        }
                    }
                }
            }
            self.reset_position();
            return Err(FenError::MissingKing);
        }
        proof {
            let s0 = self.piece_list[WK as int][0];
            let s1 = self.piece_list[BK as int][0];
            assert(cells[s0 as int] == WK);
            assert(cells[s1 as int] == BK);
        }
        if i >= len {
            self.reset_position();
            return Err(FenError::Truncated);
        }
        let side: u8 = if b[i] == 119 {
            WHITE
        } else if b[i] == 98 {
            BLACK
        } else {
            self.reset_position();
            return Err(FenError::BadSide);
        };
        i = i + 1;
        if i < len {
            i = i + 1;
        }
        let ghost j = i as int;
        let mut castle: u8 = 0;
        let mut n: usize = 0;
        while n < 4
            invariant
                castle <= 15,
                len == b@.len(),
                n <= 4,
                castle_scan(b@, j, 0, 0) == castle_scan(b@, i as int, n as int, castle),
            ensures
                castle_scan(b@, j, 0, 0) == (castle, i as int),
            decreases 4 - n,
        {
            if i >= len || b[i] == 32 {
                break;
            }
            let ch = b[i];
            let before = castle;
            if ch == 75 {
                castle = castle | 1;
            } else if ch == 81 {
                castle = castle | 2;
            } else if ch == 107 {
                castle = castle | 4;
            } else if ch == 113 {
                castle = castle | 8;
            } else if ch == 45 {
                castle = 0;
            } else {
                break;
            }
            assert(castle <= 15) by {
                assert(before <= 15 ==> (before | 1) <= 15 && (before | 2) <= 15 && (before | 4) <= 15 && (before | 8) <= 15) by (bit_vector);
            }
            i = i + 1;
            n = n + 1;
        }
        if i >= len || i + 1 >= len {
            self.reset_position();
            return Err(FenError::Truncated);
        }
        i = i + 1;
        let mut ep: u8 = NO_SQ;
        if b[i] != 45 {
            let f = b[i];
            if f < 97 || f > 104 || i + 1 >= len {
                self.reset_position();
                return Err(FenError::BadEnPassant);
            }
            let rk = b[i + 1];
            if rk < 49 || rk > 56 {
                self.reset_position();
                return Err(FenError::BadEnPassant);
            }
            ep = fr2sq(f - 97, rk - 49);
            assert(on_board(ep as int));
        }
        self.side = side;
        self.castle_perm = castle;
        self.en_passant = ep;
        self.pos_key = self.hasher.generate_key(&self.pieces, self.side, self.en_passant, self.castle_perm);
        self.update_material_list();
        Ok(())
    }
}

} // verus!
