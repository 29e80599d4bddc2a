//! The position: cells, derived bookkeeping, fingerprint and the move history.
use vstd::prelude::*;
use crate::attack::{attacked, cells_ok, square_is_attacked};
use crate::bitboard::{bit_set, lemma_bit_and_not, lemma_bit_or, BitBoard};
use crate::counting::{count, lemma_count_le_len, lemma_count_update};
use crate::lists::{
    lemma_mirror_find_absent, lemma_mirror_find_present, lemma_mirror_insert, lemma_mirror_remove,
    lemma_mirror_unique, lemma_mirror_untouched, list_mirrors, row_find, row_insert, row_remove,
};
use crate::gamemove::GameMove;
use crate::hashkeys::{
    cell_key, ep_part, key_of, lemma_fold_update, pieces_fold, side_part, BoardHasher,
};
use crate::pieces::{
    is_big_piece, is_major_piece, is_piece, kind, piece_color, piece_is_king, piece_is_pawn,
    piece_value, spec_big, spec_color, spec_major, spec_minor, spec_value, BK, BP, EMPTY, WHITE, WK,
    WP,
};
use crate::position::{
    apply, apply_cells, castle_mask, ep_after, ep_victim, king_of, kings_ok, lemma_apply_ok,
    lemma_make_undo_round_trip, move_ok, position_ok, revert, rook_from, side_effect_cells, Position,
};
use crate::squares::{
    init_file_rank_arrays, is_sq_on_board, lemma_sq_roundtrip, on_board, spec_sq120, spec_sq64,
    sq120_to_64, sq64_to_120, NO_SQ, OFFBOARD,
};

verus! {

/// What `undo_move` needs to restore a position: the move and the fields it cannot recompute.
#[derive(Debug, Copy, Clone)]
pub struct PastMove {
    pub game_move: GameMove,
    pub en_passant: u8,
    pub castle_perm: u8,
    pub fifty_move: u64,
    pub pos_key: u64,
}

#[derive(Clone)]
pub struct Board {
    pub pieces: [u8; 120],
    pub bitboards: [BitBoard; 3],
    pub king_sq: [u8; 2],
    pub fifty_move: u64,
    pub side: u8,
    pub en_passant: u8,
    pub ply: u64,
    pub history_ply: u64,
    pub castle_perm: u8,
    pub pos_key: u64,
    pub num_pieces: [u8; 13],
    pub num_big_pieces: [u32; 2],
    pub num_major_pieces: [u32; 2],
    pub num_minor_pieces: [u32; 2],
    pub material: [u32; 2],
    pub history: Vec<PastMove>,
    pub sq120_to_sq64: [u8; 120],
    pub sq64_to_sq120: [u8; 64],
    pub files_squares: [u8; 120],
    pub ranks_squares: [u8; 120],
    pub piece_list: [[u8; 120]; 13],
    pub hasher: BoardHasher,
    /// The position before each move of `history`.
    pub prev: Ghost<Seq<Position>>,
}

/// Material of a colour: the piece counts of that colour weighted by the piece values.
pub open spec fn material_of(n: [u8; 13], col: int) -> int {
    let o = if col == 0 { 0int } else { 6int };
    n[o + 1] * 100 + n[o + 2] * 325 + n[o + 3] * 325 + n[o + 4] * 550 + n[o + 5] * 1000 + n[o + 6]
        * 50000
}

/// Number of pieces of a colour other than pawns.
pub open spec fn big_of(n: [u8; 13], col: int) -> int {
    let o = if col == 0 { 0int } else { 6int };
    n[o + 2] + n[o + 3] + n[o + 4] + n[o + 5] + n[o + 6]
}

/// Number of rooks, queens and kings of a colour.
pub open spec fn major_of(n: [u8; 13], col: int) -> int {
    let o = if col == 0 { 0int } else { 6int };
    n[o + 4] + n[o + 5] + n[o + 6]
}

/// Number of knights and bishops of a colour.
pub open spec fn minor_of(n: [u8; 13], col: int) -> int {
    let o = if col == 0 { 0int } else { 6int };
    n[o + 2] + n[o + 3]
}

/// The white, black and combined pawn masks mirror the pawns of the cells.
pub open spec fn pawn_bits_ok(c: Seq<u8>, bb: [BitBoard; 3]) -> bool {
    &&& forall|k: u64| k < 64 ==> #[trigger] bit_set(bb[0].board, k) == (c[spec_sq120(k as int)] == WP)
    &&& forall|k: u64| k < 64 ==> #[trigger] bit_set(bb[1].board, k) == (c[spec_sq120(k as int)] == BP)
    &&& forall|k: u64| k < 64 ==> #[trigger] bit_set(bb[2].board, k) == (c[spec_sq120(k as int)] == WP
        || c[spec_sq120(k as int)] == BP)
}

/// The piece list of `p` mirrors the cells holding `p`: its first `num[p]` entries are those
/// cells in increasing order, the rest are zero.
pub open spec fn list_ok_of(c: [u8; 120], num: [u8; 13], lists: [[u8; 120]; 13], p: int) -> bool {
    list_mirrors(c@, lists[p]@, num[p] as int, p)
}

/// Counts, lists, aggregates and pawn masks all agree with the cells.
pub open spec fn derived_of(
    c: [u8; 120],
    num: [u8; 13],
    lists: [[u8; 120]; 13],
    material: [u32; 2],
    big: [u32; 2],
    major: [u32; 2],
    minor: [u32; 2],
    bb: [BitBoard; 3],
) -> bool {
    &&& cells_ok(c@)
    &&& num[0] == 0
    &&& forall|i: int| 0 <= i < 120 ==> #[trigger] lists[0][i] == 0
    &&& forall|p: int| 1 <= p <= 12 ==> #[trigger] list_ok_of(c, num, lists, p)
    &&& forall|col: int|
        0 <= col <= 1 ==> {
            &&& #[trigger] material[col] == material_of(num, col)
            &&& big[col] == big_of(num, col)
            &&& major[col] == major_of(num, col)
            &&& minor[col] == minor_of(num, col)
        }
    &&& pawn_bits_ok(c@, bb)
}

/// The conversion tables hold the square mapping.
pub open spec fn tables_of(to64: [u8; 120], to120: [u8; 64]) -> bool {
    &&& forall|i: int|
        0 <= i < 120 ==> #[trigger] to64[i] == if on_board(i) {
            spec_sq64(i) as u8
        } else {
            65u8
        }
    &&& forall|k: int| 0 <= k < 64 ==> #[trigger] to120[k] == spec_sq120(k) as u8
}

/// Each saved position `prev[k]` is fit for moves, its move `history[k]` applies to it with
/// the fields it saved, and applying it gives the next saved position, or `cur` for the last.
pub open spec fn hist_of(history: Seq<PastMove>, prev: Seq<Position>, hasher: BoardHasher, cur: Position) -> bool {
    let n = history.len();
    &&& prev.len() == n
    &&& forall|k: int|
        0 <= k < n ==> {
            let v = #[trigger] prev[k];
            let h = history[k];
            &&& position_ok(v)
            &&& v.fifty <= k
            &&& move_ok(v, h.game_move)
            &&& h.en_passant == v.ep
            &&& h.castle_perm == v.castle
            &&& h.fifty_move == v.fifty
            &&& h.pos_key == key_of(hasher, v.cells, v.side, v.ep, v.castle)
            &&& apply(v, h.game_move) == if k + 1 < n {
                prev[k + 1]
            } else {
                cur
            }
        }
}

impl View for Board {
    type V = Position;

    open spec fn view(&self) -> Position {
        Position {
            cells: self.pieces@,
            side: self.side,
            ep: self.en_passant,
            castle: self.castle_perm,
            fifty: self.fifty_move,
            white_king: self.king_sq[0],
            black_king: self.king_sq[1],
        }
    }
}

impl Board {
    /// The piece list of `p` mirrors the cells holding `p`.
    #[verifier::inline]
    pub open spec fn list_ok(&self, p: int) -> bool {
        list_ok_of(self.pieces, self.num_pieces, self.piece_list, p)
    }

    /// Pawn masks mirror the pawns of the cells.
    #[verifier::inline]
    pub open spec fn bits_ok(&self) -> bool {
        pawn_bits_ok(self.pieces@, self.bitboards)
    }

    /// Counts, lists, aggregates and pawn masks all agree with the cells.
    #[verifier::inline]
    pub open spec fn derived_ok(&self) -> bool {
        derived_of(
            self.pieces,
            self.num_pieces,
            self.piece_list,
            self.material,
            self.num_big_pieces,
            self.num_major_pieces,
            self.num_minor_pieces,
            self.bitboards,
        )
    }

    /// The conversion tables hold the square mapping.
    #[verifier::inline]
    pub open spec fn tables_ok(&self) -> bool {
        tables_of(self.sq120_to_sq64, self.sq64_to_sq120)
    }

    /// The moves of the history, each from the position saved before it, lead to the current
    /// position.
    #[verifier::inline]
    pub open spec fn hist_ok(&self) -> bool {
        hist_of(self.history@, self.prev@, self.hasher, self@)
    }

    /// The board invariant: bookkeeping mirrors the cells, the fingerprint is the one computed
    /// from scratch, and the history leads from saved positions to this one.
    pub open spec fn wf(&self) -> bool {
        &&& self.derived_ok()
        &&& self.tables_ok()
        &&& self.side <= 2
        &&& self.castle_perm <= 15
        &&& self.en_passant == NO_SQ || on_board(self.en_passant as int)
        &&& kings_ok(self.pieces@, self.king_sq[0], self.king_sq[1])
        &&& self.pos_key == key_of(self.hasher, self.pieces@, self.side, self.en_passant, self.castle_perm)
        &&& self.ply == self.history@.len()
        &&& self.history_ply == self.ply
        &&& self.fifty_move <= self.history@.len()
        &&& self.hist_ok()
    }

    /// Fields that the piece operations leave alone.
    pub open spec fn same_meta(&self, o: &Board) -> bool {
        &&& self.side == o.side
        &&& self.en_passant == o.en_passant
        &&& self.castle_perm == o.castle_perm
        &&& self.fifty_move == o.fifty_move
        &&& self.ply == o.ply
        &&& self.history_ply == o.history_ply
        &&& self.king_sq == o.king_sq
        &&& self.history@ == o.history@
        &&& self.prev@ == o.prev@
        &&& self.hasher == o.hasher
        &&& self.sq120_to_sq64 == o.sq120_to_sq64
        &&& self.sq64_to_sq120 == o.sq64_to_sq120
        &&& self.files_squares == o.files_squares
        &&& self.ranks_squares == o.ranks_squares
    }

    /// The fingerprint minus the piece keys: what the piece operations keep.
    pub open spec fn key_rest(&self) -> u64 {
        self.pos_key ^ pieces_fold(self.hasher, self.pieces@, 120)
    }

    /// Sets bit `s64` of the white, black and combined pawn masks.
    #[verifier::spinoff_prover]
    fn update_pawn_bits(&mut self, s64: u8, white: bool, black: bool)
        requires
            s64 < 64,
        ensures
            forall|k: u64| k < 64 ==> #[trigger] bit_set(final(self).bitboards[0].board, k) == if k == s64 {
                white
            } else {
                bit_set(old(self).bitboards[0].board, k)
            },
            forall|k: u64| k < 64 ==> #[trigger] bit_set(final(self).bitboards[1].board, k) == if k == s64 {
                black
            } else {
                bit_set(old(self).bitboards[1].board, k)
            },
            forall|k: u64| k < 64 ==> #[trigger] bit_set(final(self).bitboards[2].board, k) == if k == s64 {
                white || black
            } else {
                bit_set(old(self).bitboards[2].board, k)
            },
            final(self).same_meta(old(self)),
            final(self).pieces == old(self).pieces,
            final(self).num_pieces == old(self).num_pieces,
            final(self).piece_list == old(self).piece_list,
            final(self).material == old(self).material,
            final(self).num_big_pieces == old(self).num_big_pieces,
            final(self).num_major_pieces == old(self).num_major_pieces,
            final(self).num_minor_pieces == old(self).num_minor_pieces,
            final(self).pos_key == old(self).pos_key,
    {
        let mut i: usize = 0;
        while i < 3
            invariant
                0 <= i <= 3,
                s64 < 64,
                forall|j: int, k: u64| 0 <= j < i && k < 64 ==> #[trigger] bit_set(self.bitboards[j].board, k) == if k == s64 {
                    if j == 0 { white } else if j == 1 { black } else { white || black }
                } else {
                    bit_set(old(self).bitboards[j].board, k)
                },
                forall|j: int| i <= j < 3 ==> #[trigger] self.bitboards[j] == old(self).bitboards[j],
                self.same_meta(old(self)),
                self.pieces == old(self).pieces,
                self.num_pieces == old(self).num_pieces,
                self.piece_list == old(self).piece_list,
                self.material == old(self).material,
                self.num_big_pieces == old(self).num_big_pieces,
                self.num_major_pieces == old(self).num_major_pieces,
                self.num_minor_pieces == old(self).num_minor_pieces,
                self.pos_key == old(self).pos_key,
            decreases 3 - i,
        {
            let on = if i == 0 { white } else if i == 1 { black } else { white || black };
            let mut b = self.bitboards[i];
            let ghost b0 = b.board;
            if on {
                b.set_bit(s64);
                proof {
                    assert forall|k: u64| k < 64 implies #[trigger] bit_set(b.board, k) == if k == s64 { true } else { bit_set(b0, k) } by {
                        lemma_bit_or(b0, s64 as u64, k);
                    }
                }
            } else {
                b.clear_bit(s64);
                proof {
                    assert forall|k: u64| k < 64 implies #[trigger] bit_set(b.board, k) == if k == s64 { false } else { bit_set(b0, k) } by {
                        lemma_bit_and_not(b0, s64 as u64, k);
                    }
                }
            }
            self.bitboards[i] = b;
            proof {
                assert forall|j: int, k: u64| 0 <= j < i + 1 && k < 64 implies #[trigger] bit_set(self.bitboards[j].board, k) == if k == s64 {
                    if j == 0 { white } else if j == 1 { black } else { white || black }
                } else {
                    bit_set(old(self).bitboards[j].board, k)
                } by {
                    if j == i {
                        assert(self.bitboards[j] == b);
                    }
                }
            }
            i += 1;
        }
    }
}

/// The pawn masks mirror the cells again after one cell changed and bit `spec_sq64(sq)` of
/// each mask was set to mirror the new value.
proof fn lemma_bits_one_cell(c: Seq<u8>, o: [BitBoard; 3], b: [BitBoard; 3], sq: int, v: u8)
    requires
        pawn_bits_ok(c, o),
        c.len() == 120,
        0 <= sq < 120,
        on_board(sq),
        forall|k: u64| k < 64 ==> #[trigger] bit_set(b[0].board, k) == if k == spec_sq64(sq) {
            v == WP
        } else {
            bit_set(o[0].board, k)
        },
        forall|k: u64| k < 64 ==> #[trigger] bit_set(b[1].board, k) == if k == spec_sq64(sq) {
            v == BP
        } else {
            bit_set(o[1].board, k)
        },
        forall|k: u64| k < 64 ==> #[trigger] bit_set(b[2].board, k) == if k == spec_sq64(sq) {
            v == WP || v == BP
        } else {
            bit_set(o[2].board, k)
        },
    ensures
        pawn_bits_ok(c.update(sq, v), b),
{
    let c2 = c.update(sq, v);
    assert forall|k: u64| k < 64 implies {
        &&& bit_set(b[0].board, k) == (c2[spec_sq120(k as int)] == WP)
        &&& bit_set(b[1].board, k) == (c2[spec_sq120(k as int)] == BP)
        &&& bit_set(b[2].board, k) == (c2[spec_sq120(k as int)] == WP || c2[spec_sq120(k as int)] == BP)
    } by {
        lemma_sq_roundtrip(sq, k as int);
        assert(bit_set(o[0].board, k) == (c[spec_sq120(k as int)] == WP));
        assert(bit_set(o[1].board, k) == (c[spec_sq120(k as int)] == BP));
        assert(bit_set(o[2].board, k) == (c[spec_sq120(k as int)] == WP || c[spec_sq120(k as int)] == BP));
    }
}

/// Counts of a sequence after one entry changed, for every code.
proof fn lemma_counts_one_cell(c: Seq<u8>, sq: int, v: u8)
    requires
        0 <= sq < c.len(),
    ensures
        forall|q: u8| #[trigger] count(c.update(sq, v), q) + (if c[sq] == q { 1int } else { 0int })
            == count(c, q) + (if v == q { 1int } else { 0int }),
        forall|q: u8| #[trigger] count(c.update(sq, v), q) <= c.len(),
{
    assert forall|q: u8| #[trigger] count(c.update(sq, v), q) + (if c[sq] == q { 1int } else { 0int })
        == count(c, q) + (if v == q { 1int } else { 0int }) by {
        lemma_count_update(c, sq, v, q);
    }
    assert forall|q: u8| #[trigger] count(c.update(sq, v), q) <= c.len() by {
        lemma_count_le_len(c.update(sq, v), q);
    }
}



impl Board {
    /// Removes the piece on `sq` from the cells and all bookkeeping, and its key from the
    /// fingerprint.
    #[verifier::spinoff_prover]
    #[verifier::rlimit(40)]
    pub fn clear_piece(&mut self, sq: u8)
        requires
            old(self).derived_ok(),
            on_board(sq as int),
            is_piece(old(self).pieces[sq as int]),
        ensures
            final(self).derived_ok(),
            final(self).pieces@ == old(self).pieces@.update(sq as int, EMPTY),
            final(self).same_meta(old(self)),
            final(self).key_rest() == old(self).key_rest(),
    {
        let ghost c0 = self.pieces@;
        let pce = self.pieces[sq as usize];
        let col = piece_color(pce) as usize;
        proof {
            lemma_counts_one_cell(c0, sq as int, EMPTY);
            lemma_count_le_len(c0, pce);
            lemma_fold_update(self.hasher, c0, sq as int, EMPTY, 120);
            assert(self.list_ok(pce as int));
        }
        let ghost k0 = self.pos_key;
        self.pos_key = self.pos_key ^ self.hasher.piece_keys[pce as usize][sq as usize];
        self.pieces[sq as usize] = EMPTY;
        proof {
            let a = k0;
            let b = self.hasher.piece_keys[pce as int][sq as int];
            let f = pieces_fold(self.hasher, c0, 120);
            assert(cell_key(self.hasher, c0, sq as int) == b);
            assert(cell_key(self.hasher, self.pieces@, sq as int) == 0);
            assert((a ^ b) ^ (f ^ (b ^ 0u64)) == a ^ f) by (bit_vector);
        }
        self.material[col] = self.material[col] - piece_value(pce);
        if is_big_piece(pce) {
            self.num_big_pieces[col] = self.num_big_pieces[col] - 1;
            if is_major_piece(pce) {
                self.num_major_pieces[col] = self.num_major_pieces[col] - 1;
            } else {
                self.num_minor_pieces[col] = self.num_minor_pieces[col] - 1;
            }
        }
        let s64 = sq120_to_64(sq);
        self.update_pawn_bits(s64, false, false);
        let n = self.num_pieces[pce as usize] as usize;
        let ghost l0 = self.piece_list[pce as int]@;
        let i = row_find(&self.piece_list[pce as usize], n, sq);
        proof {
            lemma_mirror_find_present(c0, l0, n as int, pce as int, sq as int, i as int);
        }
        let row = row_remove(self.piece_list[pce as usize], n, i);
        self.piece_list[pce as usize] = row;
        self.num_pieces[pce as usize] = (n - 1) as u8;
        proof {
            lemma_bits_one_cell(old(self).pieces@, old(self).bitboards, self.bitboards, sq as int, EMPTY);
            assert forall|p: int| 1 <= p <= 12 implies #[trigger] self.list_ok(p) by {
                assert(old(self).list_ok(p));
                if p != pce as int {
                    lemma_mirror_untouched(c0, self.pieces@, self.piece_list[p]@, self.num_pieces[p] as int, p);
                } else {
                    lemma_mirror_remove(c0, l0, n as int, p, sq as int, i as int, self.pieces@, self.piece_list[p]@);
                }
            }
            assert forall|q: int| 0 <= q < 13 && q != pce as int implies #[trigger] self.num_pieces[q] == old(self).num_pieces[q] by {}
            lemma_aggregates(old(self), self, pce as int, -1);
            assert(cells_ok(self.pieces@));
            assert(self.bits_ok());
            assert(self.num_pieces[0] == 0);
        }
    }
}

/// Castling rights kept when a piece moves from or to `sq`.
fn castle_mask_of(sq: u8) -> (r: u8)
    ensures
        r == castle_mask(sq as int),
{
    if sq == 21 {
        13
    } else if sq == 25 {
        12
    } else if sq == 28 {
        14
    } else if sq == 91 {
        7
    } else if sq == 95 {
        3
    } else if sq == 98 {
        11
    } else {
        15
    }
}

impl Board {
    /// Everything but the fingerprint is left as it was.
    pub open spec fn only_key_changed(&self, o: &Board) -> bool {
        &&& self.same_meta(o)
        &&& self.pieces == o.pieces
        &&& self.bitboards == o.bitboards
        &&& self.num_pieces == o.num_pieces
        &&& self.piece_list == o.piece_list
        &&& self.material == o.material
        &&& self.num_big_pieces == o.num_big_pieces
        &&& self.num_major_pieces == o.num_major_pieces
        &&& self.num_minor_pieces == o.num_minor_pieces
    }

    /// Toggles the key of `pce` on `sq` in the fingerprint.
    pub fn hash_piece(&mut self, pce: u8, sq: u8)
        requires
            pce <= 12,
            sq < 128,
        ensures
            final(self).pos_key == old(self).pos_key ^ old(self).hasher.piece_keys[pce as int][sq as int],
            final(self).only_key_changed(old(self)),
    {
        self.pos_key = self.pos_key ^ self.hasher.piece_keys[pce as usize][sq as usize];
    }

    /// Toggles the key of the current castling rights.
    pub fn hash_castle(&mut self)
        requires
            old(self).castle_perm <= 15,
        ensures
            final(self).pos_key == old(self).pos_key ^ old(self).hasher.castle_keys[old(self).castle_perm as int],
            final(self).only_key_changed(old(self)),
    {
        self.pos_key = self.pos_key ^ self.hasher.castle_keys[self.castle_perm as usize];
    }

    /// Toggles the side-to-move key.
    pub fn hash_side(&mut self)
        ensures
            final(self).pos_key == old(self).pos_key ^ old(self).hasher.side_key,
            final(self).only_key_changed(old(self)),
    {
        self.pos_key = self.pos_key ^ self.hasher.side_key;
    }

    /// Toggles the key of the current en-passant square.
    pub fn hash_en_passant(&mut self)
        requires
            old(self).en_passant < 128,
        ensures
            final(self).pos_key == old(self).pos_key ^ old(self).hasher.piece_keys[0][old(self).en_passant as int],
            final(self).only_key_changed(old(self)),
    {
        self.pos_key = self.pos_key ^ self.hasher.piece_keys[0][self.en_passant as usize];
    }

    /// Steps of making a move, up to and including the change of side: side effects of en
    /// passant and castling, rights, capture, clock, en-passant square, relocation, promotion,
    /// king square, side; the fingerprint follows each step.
    #[verifier::spinoff_prover]
    #[verifier::rlimit(80)]
    fn apply_move(&mut self, mov: GameMove)
        requires
            old(self).derived_ok(),
            position_ok(old(self)@),
            move_ok(old(self)@, mov),
            old(self).pos_key == key_of(old(self).hasher, old(self).pieces@, old(self).side, old(self).en_passant, old(self).castle_perm),
            old(self).fifty_move < 0xffff_ffff_ffff_ffff,
        ensures
            final(self).derived_ok(),
            final(self)@ == apply(old(self)@, mov),
            final(self).pos_key == key_of(final(self).hasher, final(self).pieces@, final(self).side, final(self).en_passant, final(self).castle_perm),
            final(self).hasher == old(self).hasher,
            final(self).history@ == old(self).history@,
            final(self).prev@ == old(self).prev@,
            final(self).ply == old(self).ply,
            final(self).history_ply == old(self).history_ply,
            final(self).sq120_to_sq64 == old(self).sq120_to_sq64,
            final(self).sq64_to_sq120 == old(self).sq64_to_sq120,
            final(self).files_squares == old(self).files_squares,
            final(self).ranks_squares == old(self).ranks_squares,
    {
        let ghost v = self@;
        let ghost h = self.hasher;
        let from = mov.origin();
        let to = mov.destination();
        let side = self.side;
        proof {
            assert(v.cells.len() == 120);
            let f = pieces_fold(h, v.cells, 120);
            let s0 = side_part(h, side);
            let e0 = ep_part(h, self.en_passant);
            let c0 = h.castle_keys[self.castle_perm as int];
            let k = self.pos_key;
            assert(k == ((f ^ s0) ^ e0) ^ c0 ==> k ^ f == (s0 ^ e0) ^ c0) by (bit_vector);
            if mov.spec_is_ep() {
                assert(is_piece(v.cells[ep_victim(side, to as int)]));
            }
            if mov.spec_is_castle() {
                assert(is_piece(v.cells[rook_from(to as int)]));
            }
        }
        if mov.is_en_passant() {
            if side == WHITE {
                self.clear_piece(to - 10);
            } else {
                self.clear_piece(to + 10);
            }
        } else if mov.is_castle_move() {
            if to == 23 {
                self.move_piece(21, 24);
            } else if to == 27 {
                self.move_piece(28, 26);
            } else if to == 93 {
                self.move_piece(91, 94);
            } else {
                self.move_piece(98, 96);
            }
        }
        assert(self.pieces@ =~= side_effect_cells(v, mov));
        let ghost r1 = self.key_rest();
        let ghost k1 = self.pos_key;
        assert(r1 == (side_part(h, side) ^ ep_part(h, v.ep)) ^ h.castle_keys[v.castle as int]);
        if self.en_passant != NO_SQ {
            self.hash_en_passant();
        }
        let ghost k2 = self.pos_key;
        proof {
            let s0 = side_part(h, side);
            let e0 = ep_part(h, v.ep);
            let c0 = h.castle_keys[v.castle as int];
            let f = pieces_fold(h, self.pieces@, 120);
            assert(k1 ^ f == (s0 ^ e0) ^ c0);
            if v.ep != NO_SQ {
                assert(k2 == k1 ^ e0);
                assert(k1 ^ f == (s0 ^ e0) ^ c0 ==> (k1 ^ e0) ^ f == s0 ^ c0) by (bit_vector);
            } else {
                assert(e0 == 0);
                assert(k2 == k1);
                assert(k1 ^ f == (s0 ^ e0) ^ c0 && e0 == 0 ==> k1 ^ f == s0 ^ c0) by (bit_vector);
            }
            assert(k2 ^ f == s0 ^ c0);
        }
        self.hash_castle();
        proof {
            let s0 = side_part(h, side);
            let c0 = h.castle_keys[v.castle as int];
            let f = pieces_fold(h, self.pieces@, 120);
            let k3 = self.pos_key;
            assert(k3 == k2 ^ c0);
            assert(k2 ^ f == s0 ^ c0 ==> (k2 ^ c0) ^ f == s0) by (bit_vector);
            assert(self.key_rest() == s0);
        }
        self.castle_perm = self.castle_perm & castle_mask_of(from) & castle_mask_of(to);
        self.en_passant = NO_SQ;
        proof {
            let c = self.castle_perm;
            let c0 = v.castle;
            assert(c <= 15) by (bit_vector)
                requires c == c0 & castle_mask(from as int) & castle_mask(to as int), c0 <= 15;
        }
        let ghost kb = self.pos_key;
        self.hash_castle();
        proof {
            let f = pieces_fold(h, self.pieces@, 120);
            let s0 = side_part(h, side);
            let c1 = h.castle_keys[self.castle_perm as int];
            assert(kb ^ f == s0);
            assert(self.pos_key == kb ^ c1);
            assert(kb ^ f == s0 ==> (kb ^ c1) ^ f == s0 ^ c1) by (bit_vector);
        }
        let ghost r3 = self.key_rest();
        assert(r3 == side_part(h, side) ^ h.castle_keys[self.castle_perm as int]);
        let captured = mov.capture();
        if captured != EMPTY {
            self.clear_piece(to);
        }
        assert(self.pieces[from as int] == v.cells[from as int]);
        if captured != EMPTY || mov.is_en_passant() || piece_is_pawn(self.pieces[from as usize]) {
            self.fifty_move = 0;
        } else {
            self.fifty_move = self.fifty_move + 1;
        }
        let ghost c2 = self.pieces@;
        assert(c2[from as int] == v.cells[from as int]);
        if piece_is_pawn(self.pieces[from as usize]) && mov.is_pawn_start() {
            if side == WHITE {
                self.en_passant = from + 10;
            } else {
                self.en_passant = from - 10;
            }
            let ghost kb = self.pos_key;
            self.hash_en_passant();
            proof {
                let f = pieces_fold(h, self.pieces@, 120);
                let e1 = ep_part(h, self.en_passant);
                assert(kb ^ f == r3);
                assert(self.pos_key == kb ^ e1);
                assert(kb ^ f == r3 ==> (kb ^ e1) ^ f == r3 ^ e1) by (bit_vector);
            }
        } else {
            assert(r3 == r3 ^ 0u64) by (bit_vector);
        }
        let ghost r4 = self.key_rest();
        assert(self.en_passant == ep_after(v, mov));
        assert(r4 == r3 ^ ep_part(h, self.en_passant));
        self.move_piece(from, to);
        let prom = mov.promoted_piece();
        if prom != EMPTY {
            self.clear_piece(to);
            self.add_piece(to, prom);
        }
        assert(self.pieces@ =~= apply_cells(v, mov));
        if piece_is_king(self.pieces[to as usize]) {
            self.king_sq[side as usize] = to;
        }
        let ghost k4 = self.pos_key;
        assert(self.key_rest() == r4);
        self.side = self.side ^ 1;
        self.hash_side();
        proof {
            let f = pieces_fold(h, self.pieces@, 120);
            assert(k4 ^ f == r4);
            assert(r4 == (side_part(h, side) ^ h.castle_keys[self.castle_perm as int]) ^ ep_part(h, self.en_passant));
            assert(self.pos_key == k4 ^ h.side_key);
            let kk0 = h.side_key;
            let rr = r4;
            assert(k4 ^ f == rr ==> (k4 ^ kk0) ^ f == rr ^ kk0) by (bit_vector);
            let s0 = side_part(h, side);
            let s1 = side_part(h, self.side);
            let e1 = ep_part(h, self.en_passant);
            let c1 = h.castle_keys[self.castle_perm as int];
            let kk = h.side_key;
            let k = self.pos_key;
            assert(side == 0 || side == 1);
            let ns = self.side;
            assert(ns == 1 - side) by (bit_vector)
                requires ns == side ^ 1u8, side <= 1;
            assert(s1 == s0 ^ kk) by {
                assert(0u64 ^ kk == kk) by (bit_vector);
                assert(kk ^ kk == 0u64) by (bit_vector);
            }
            assert(k == ((f ^ s1) ^ e1) ^ c1) by (bit_vector)
                requires k ^ f == ((s0 ^ c1) ^ e1) ^ kk, s1 == s0 ^ kk;
            lemma_apply_ok(v, mov);
        }
    }

    /// Makes a move. The move is taken back, and `false` returned, when it leaves the mover's
    /// king attacked; otherwise the history records it and the result is `true`.
    pub fn make_move(&mut self, mov: GameMove) -> (r: bool)
        requires
            old(self).wf(),
            old(self).side <= 1,
            old(self).pieces[old(self).king_sq[old(self).side as int] as int] == king_of(old(self).side),
            move_ok(old(self)@, mov),
            old(self).history@.len() < 0xffff_ffff_ffff_ffff,
        ensures
            final(self).wf(),
            final(self).hasher == old(self).hasher,
            ({
                let v2 = apply(old(self)@, mov);
                let ksq = if old(self).side == WHITE { v2.white_king } else { v2.black_king };
                r == !(v2.cells[ksq as int] == king_of(old(self).side) && attacked(v2.cells, ksq as int, v2.side))
            }),
            r ==> final(self)@ == apply(old(self)@, mov),
            r ==> final(self).pieces[final(self).king_sq[old(self).side as int] as int] == king_of(old(self).side)
                && !attacked(final(self).pieces@, final(self).king_sq[old(self).side as int] as int, final(self).side),
            r ==> final(self).history@ == old(self).history@.push(
                (PastMove {
                    game_move: mov,
                    en_passant: old(self).en_passant,
                    castle_perm: old(self).castle_perm,
                    fifty_move: old(self).fifty_move,
                    pos_key: old(self).pos_key,
                }),
            ),
            !r ==> final(self)@ == old(self)@,
            !r ==> final(self).history@ == old(self).history@,
            r ==> final(self).prev@ == old(self).prev@.push(old(self)@),
            !r ==> final(self).prev@ == old(self).prev@,
            !r ==> final(self).pieces == old(self).pieces && final(self).piece_list == old(self).piece_list
                && final(self).num_pieces == old(self).num_pieces && final(self).bitboards == old(self).bitboards
                && final(self).material == old(self).material && final(self).num_big_pieces == old(self).num_big_pieces
                && final(self).num_major_pieces == old(self).num_major_pieces && final(self).num_minor_pieces
                == old(self).num_minor_pieces && final(self).king_sq == old(self).king_sq && final(self).pos_key
                == old(self).pos_key && final(self).ply == old(self).ply && final(self).history_ply == old(self).history_ply,
    {
        let entry = PastMove {
            game_move: mov,
            en_passant: self.en_passant,
            castle_perm: self.castle_perm,
            fifty_move: self.fifty_move,
            pos_key: self.pos_key,
        };
        let side = self.side;
        let ghost v = self@;
        let ghost n = self.history@.len();
        self.apply_move(mov);
        self.history.push(entry);
        self.prev = Ghost(self.prev@.push(v));
        self.ply = self.ply + 1;
        self.history_ply = self.history_ply + 1;
        proof {
            lemma_apply_ok(v, mov);
            assert forall|k: int| 0 <= k < n + 1 implies {
                let pv = #[trigger] self.prev@[k];
                let h = self.history@[k];
                &&& position_ok(pv)
                &&& pv.fifty <= k
                &&& move_ok(pv, h.game_move)
                &&& h.en_passant == pv.ep
                &&& h.castle_perm == pv.castle
                &&& h.fifty_move == pv.fifty
                &&& h.pos_key == key_of(self.hasher, pv.cells, pv.side, pv.ep, pv.castle)
                &&& apply(pv, h.game_move) == if k + 1 < n + 1 {
                    self.prev@[k + 1]
                } else {
                    self@
                }
            } by {
                if k < n {
                    assert(old(self).prev@[k] == self.prev@[k]);
                }
            }
        }
        let ksq = self.king_sq[side as usize];
        let king = if side == WHITE { WK } else { BK };
        if self.pieces[ksq as usize] == king && square_is_attacked(ksq, self.side, &self.pieces) {
            self.undo_move();
            proof {
                lemma_same_position_same_state(self, old(self));
            }
            return false;
        }
        true
    }

    /// Takes back the last move of the history. The result is the position saved before that
    /// move, and any well-formed board holding that position with the same keys equals the
    /// result field for field (see `lemma_same_position_same_state`), so in particular the
    /// board as it was before the move.
    #[verifier::spinoff_prover]
    #[verifier::rlimit(80)]
    pub fn undo_move(&mut self)
        requires
            old(self).wf(),
            old(self).history@.len() > 0,
        ensures
            final(self).wf(),
            final(self).hasher == old(self).hasher,
            final(self)@ == old(self).prev@.last(),
            ({
                let e = old(self).history@.last();
                final(self)@ == revert(old(self)@, e.game_move, e.en_passant, e.castle_perm, e.fifty_move)
            }),
            final(self).history@ == old(self).history@.drop_last(),
            final(self).prev@ == old(self).prev@.drop_last(),
            final(self).pos_key == old(self).history@.last().pos_key,
            forall|b: Board|
                #[trigger] b.wf() && b@ == final(self)@ && b.hasher == final(self).hasher ==> b.pieces
                    == final(self).pieces && b.piece_list == final(self).piece_list && b.num_pieces
                    == final(self).num_pieces && b.bitboards == final(self).bitboards && b.material
                    == final(self).material && b.king_sq == final(self).king_sq && b.pos_key == final(self).pos_key,
    {
        let ghost n = self.history@.len();
        let ghost v = self.prev@[n - 1];
        let ghost cur = self@;
        let entry = match self.history.pop() {
            Some(e) => e,
            None => { return; },
        };
        self.prev = Ghost(self.prev@.drop_last());
        self.ply = self.ply - 1;
        self.history_ply = self.history_ply - 1;
        let mov = entry.game_move;
        let from = mov.origin();
        let to = mov.destination();
        proof {
            assert(old(self).prev@[n - 1] == v);
            assert(cur == apply(v, mov));
            lemma_make_undo_round_trip(v, mov);
            assert(v.cells.len() == 120);
            if mov.spec_is_ep() {
                assert(is_piece(v.cells[ep_victim(v.side, to as int)]));
            }
            if mov.spec_is_castle() {
                assert(is_piece(v.cells[rook_from(to as int)]));
            }
        }
        self.castle_perm = entry.castle_perm;
        self.fifty_move = entry.fifty_move;
        self.en_passant = entry.en_passant;
        self.side = self.side ^ 1;
        assert(self.side == v.side) by {
            let s = self.side;
            let s0 = old(self).side;
            assert(s == 1 - s0) by (bit_vector)
                requires s == s0 ^ 1u8, s0 <= 1;
        }
        if mov.is_en_passant() {
            if self.side == WHITE {
                self.add_piece(to - 10, BP);
            } else {
                self.add_piece(to + 10, WP);
            }
        } else if mov.is_castle_move() {
            if to == 23 {
                self.move_piece(24, 21);
            } else if to == 27 {
                self.move_piece(26, 28);
            } else if to == 93 {
                self.move_piece(94, 91);
            } else {
                self.move_piece(96, 98);
            }
        }
        self.move_piece(to, from);
        if piece_is_king(self.pieces[from as usize]) {
            self.king_sq[self.side as usize] = from;
        }
        let captured = mov.capture();
        if captured != EMPTY {
            self.add_piece(to, captured);
        }
        let prom = mov.promoted_piece();
        if prom != EMPTY {
            self.clear_piece(from);
            if self.side == WHITE {
                self.add_piece(from, WP);
            } else {
                self.add_piece(from, BP);
            }
        }
        self.pos_key = entry.pos_key;
        proof {
            assert(self.pieces@ =~= v.cells);
            if kind(v.cells[from as int]) == 6 {
                assert(v.cells[from as int] == king_of(v.side));
            }
            assert(self@ == v);
            assert forall|k: int| 0 <= k < n - 1 implies {
                let pv = #[trigger] self.prev@[k];
                let h = self.history@[k];
                &&& position_ok(pv)
                &&& pv.fifty <= k
                &&& move_ok(pv, h.game_move)
                &&& h.en_passant == pv.ep
                &&& h.castle_perm == pv.castle
                &&& h.fifty_move == pv.fifty
                &&& h.pos_key == key_of(self.hasher, pv.cells, pv.side, pv.ep, pv.castle)
                &&& apply(pv, h.game_move) == if k + 1 < n - 1 {
                    self.prev@[k + 1]
                } else {
                    self@
                }
            } by {
                assert(old(self).prev@[k] == self.prev@[k]);
                assert(old(self).history@[k] == self.history@[k]);
            }
            lemma_board_determined(self);
        }
    }
}

/// The 120 cells of an empty board.
fn empty_cells() -> (r: [u8; 120])
    ensures
        forall|i: int| 0 <= i < 120 ==> #[trigger] r[i] == if on_board(i) { EMPTY } else { OFFBOARD },
{
    let mut c: [u8; 120] = [OFFBOARD; 120];
    let mut i: usize = 0;
    while i < 120
        invariant
            i <= 120,
            forall|j: int| 0 <= j < i ==> #[trigger] c[j] == if on_board(j) { EMPTY } else { OFFBOARD },
        decreases 120 - i,
    {
        c[i] = if is_sq_on_board(i as u8) { EMPTY } else { OFFBOARD };
        i += 1;
    }
    c
}

/// The padded-to-dense table, 65 on padding cells.
fn build_sq120_to_sq64() -> (r: [u8; 120])
    ensures
        forall|i: int| 0 <= i < 120 ==> #[trigger] r[i] == if on_board(i) { spec_sq64(i) as u8 } else { 65u8 },
{
    let mut t: [u8; 120] = [65u8; 120];
    let mut i: usize = 0;
    while i < 120
        invariant
            i <= 120,
            forall|j: int| 0 <= j < i ==> #[trigger] t[j] == if on_board(j) { spec_sq64(j) as u8 } else { 65u8 },
        decreases 120 - i,
    {
        t[i] = if is_sq_on_board(i as u8) { sq120_to_64(i as u8) } else { 65 };
        i += 1;
    }
    t
}

/// The dense-to-padded table.
fn build_sq64_to_sq120() -> (r: [u8; 64])
    ensures
        forall|k: int| 0 <= k < 64 ==> #[trigger] r[k] == spec_sq120(k) as u8,
{
    let mut t: [u8; 64] = [0u8; 64];
    let mut k: usize = 0;
    while k < 64
        invariant
            k <= 64,
            forall|j: int| 0 <= j < k ==> #[trigger] t[j] == spec_sq120(j) as u8,
        decreases 64 - k,
    {
        t[k] = sq64_to_120(k as u8);
        k += 1;
    }
    t
}

impl Board {
    /// An empty board (no pieces, no side to move, no rights, no history) with the given tables
    /// and keys.
    fn empty(
        sq120_to_sq64: [u8; 120],
        sq64_to_sq120: [u8; 64],
        files_squares: [u8; 120],
        ranks_squares: [u8; 120],
        hasher: BoardHasher,
    ) -> (r: Board)
        requires
            tables_of(sq120_to_sq64, sq64_to_sq120),
        ensures
            r.wf(),
            r.empty_position(),
            r.sq120_to_sq64 == sq120_to_sq64,
            r.sq64_to_sq120 == sq64_to_sq120,
            r.files_squares == files_squares,
            r.ranks_squares == ranks_squares,
            r.hasher == hasher,
    {
        let pieces = empty_cells();
        let pos_key = hasher.generate_key(&pieces, 2, NO_SQ, 0);
        let b = Board {
            pieces,
            bitboards: [BitBoard::new(0); 3],
            king_sq: [0; 2],
            fifty_move: 0,
            side: 2,
            en_passant: NO_SQ,
            ply: 0,
            history_ply: 0,
            castle_perm: 0,
            pos_key,
            num_pieces: [0; 13],
            num_big_pieces: [0; 2],
            num_major_pieces: [0; 2],
            num_minor_pieces: [0; 2],
            material: [0; 2],
            history: Vec::new(),
            sq120_to_sq64,
            sq64_to_sq120,
            files_squares,
            ranks_squares,
            piece_list: [[0u8; 120]; 13],
            hasher,
            prev: Ghost(Seq::empty()),
        };
        proof {
            assert(cells_ok(b.pieces@));
            assert forall|p: int| 1 <= p <= 12 implies #[trigger] list_ok_of(b.pieces, b.num_pieces, b.piece_list, p) by {
                crate::counting::lemma_count_zero(b.pieces@, p as u8);
            }
            assert forall|k: u64| k < 64 implies !bit_set(0u64, k) by {
                assert((0u64 >> k) & 1 == 0) by (bit_vector);
            }
            assert forall|k: u64| k < 64 implies b.pieces[spec_sq120(k as int)] == EMPTY by {
                lemma_sq_roundtrip(0, k as int);
            }
        }
        b
    }

    /// No piece on the board, no side to move, no castling rights, no en-passant square, no
    /// history.
    pub open spec fn empty_position(&self) -> bool {
        &&& forall|i: int| 0 <= i < 120 ==> #[trigger] self.pieces[i] == if on_board(i) { EMPTY } else { OFFBOARD }
        &&& self.side == 2
        &&& self.castle_perm == 0
        &&& self.en_passant == NO_SQ
        &&& self.fifty_move == 0
        &&& self.king_sq[0] == 0 && self.king_sq[1] == 0
        &&& self.history@.len() == 0
    }

    /// An empty board with its square tables and freshly drawn keys.
    pub fn new() -> (r: Board)
        ensures
            r.wf(),
            r.empty_position(),
    {
        let to64 = build_sq120_to_sq64();
        let to120 = build_sq64_to_sq120();
        let (files, ranks) = init_file_rank_arrays();
        Board::empty(to64, to120, files, ranks, BoardHasher::new())
    }

    /// An empty board whose fingerprints use the given keys.
    pub fn with_hasher(hasher: BoardHasher) -> (r: Board)
        ensures
            r.wf(),
            r.empty_position(),
            r.hasher == hasher,
    {
        let to64 = build_sq120_to_sq64();
        let to120 = build_sq64_to_sq120();
        let (files, ranks) = init_file_rank_arrays();
        Board::empty(to64, to120, files, ranks, hasher)
    }

    /// Empties the board and forgets the history; the keys stay.
    pub fn reset_position(&mut self)
        requires
            old(self).tables_ok(),
        ensures
            final(self).wf(),
            final(self).empty_position(),
            final(self).hasher == old(self).hasher,
    {
        *self = Board::empty(self.sq120_to_sq64, self.sq64_to_sq120, self.files_squares, self.ranks_squares, self.hasher);
    }

    /// Dense index of a padded-board cell (65 for a padding cell).
    pub fn sq64(&self, sq120: u8) -> (r: u8)
        requires
            self.tables_ok(),
            sq120 < 120,
        ensures
            r == if on_board(sq120 as int) { spec_sq64(sq120 as int) as u8 } else { 65u8 },
    {
        self.sq120_to_sq64[sq120 as usize]
    }

    /// Padded-board index of a dense index.
    pub fn sq120(&self, sq64: u8) -> (r: u8)
        requires
            self.tables_ok(),
            sq64 < 64,
        ensures
            r == spec_sq120(sq64 as int) as u8,
    {
        self.sq64_to_sq120[sq64 as usize]
    }

    /// The fingerprint.
    pub fn pos_key(&self) -> (r: u64)
        ensures
            r == self.pos_key,
    {
        self.pos_key
    }

    /// The fingerprint of the current position computed from scratch.
    pub fn generate_key(&self) -> (r: u64)
        requires
            self.wf(),
        ensures
            r == key_of(self.hasher, self.pieces@, self.side, self.en_passant, self.castle_perm),
    {
        self.hasher.generate_key(&self.pieces, self.side, self.en_passant, self.castle_perm)
    }

    /// Number of moves made and not taken back.
    pub fn ply(&self) -> (r: u64)
        ensures
            r == self.ply,
    {
        self.ply
    }

    /// Number of entries of the history.
    pub fn history_len(&self) -> (r: usize)
        ensures
            r == self.history@.len(),
    {
        self.history.len()
    }

    /// The `i`-th entry of the history.
    pub fn history_entry(&self, i: usize) -> (r: PastMove)
        requires
            i < self.history@.len(),
        ensures
            r == self.history@[i as int],
    {
        self.history[i]
    }

    /// Recomputes piece counts, lists, aggregates and pawn masks from the cells, and the
    /// fingerprint when rights and en-passant square are in range; the cells and the rest of
    /// the state do not change, and each piece list comes out in increasing square order.
    pub fn update_material_list(&mut self)
        requires
            cells_ok(old(self).pieces@),
        ensures
            final(self).derived_ok(),
            final(self).pieces == old(self).pieces,
            final(self).same_meta(old(self)),
            forall|p: int, i: int, j: int|
                1 <= p <= 12 && 0 <= i < j < final(self).num_pieces[p] ==> #[trigger] final(self).piece_list[p][i]
                    < #[trigger] final(self).piece_list[p][j],
            old(self).castle_perm <= 15 && (old(self).en_passant == NO_SQ || old(self).en_passant < 120) ==> final(self).pos_key
                == key_of(final(self).hasher, final(self).pieces@, final(self).side, final(self).en_passant, final(self).castle_perm),
            old(self).wf() ==> final(self).wf() && final(self).pos_key == old(self).pos_key,
            final(self)@ == old(self)@,
    {
        let saved = self.pieces;
        let key0 = self.pos_key;
        let ghost o = *self;
        self.pieces = empty_cells();
        self.bitboards = [BitBoard::new(0); 3];
        self.num_pieces = [0; 13];
        self.num_big_pieces = [0; 2];
        self.num_major_pieces = [0; 2];
        self.num_minor_pieces = [0; 2];
        self.material = [0; 2];
        self.piece_list = [[0u8; 120]; 13];
        proof {
            assert(cells_ok(self.pieces@));
            assert forall|p: int| 1 <= p <= 12 implies #[trigger] list_ok_of(self.pieces, self.num_pieces, self.piece_list, p) by {
                crate::counting::lemma_count_zero(self.pieces@, p as u8);
            }
            assert forall|k: u64| k < 64 implies !bit_set(0u64, k) by {
                assert((0u64 >> k) & 1 == 0) by (bit_vector);
            }
            assert forall|k: u64| k < 64 implies self.pieces[spec_sq120(k as int)] == EMPTY by {
                lemma_sq_roundtrip(0, k as int);
            }
        }
        let mut sq: usize = 0;
        while sq < 120
            invariant
                sq <= 120,
                self.derived_ok(),
                cells_ok(saved@),
                forall|i: int| 0 <= i < 120 ==> #[trigger] self.pieces[i] == if i < sq { saved[i] } else if on_board(i) { EMPTY } else { OFFBOARD },
                self.same_meta(&o),
            decreases 120 - sq,
        {
            let p = saved[sq];
            if p >= 1 && p <= 12 {
                self.add_piece(sq as u8, p);
            }
            proof {
                assert forall|i: int| 0 <= i < 120 implies #[trigger] self.pieces[i] == if i < sq + 1 { saved[i] } else if on_board(i) { EMPTY } else { OFFBOARD } by {}
            }
            sq += 1;
        }
        if self.castle_perm <= 15 && (self.en_passant == NO_SQ || self.en_passant < 120) {
            self.pos_key = self.hasher.generate_key(&self.pieces, self.side, self.en_passant, self.castle_perm);
        } else {
            self.pos_key = key0;
        }
        proof {
            assert(self.pieces@ =~= saved@);
            assert(self.pieces =~= saved);
            assert(self@ == o@);
            assert forall|p: int, i: int, j: int|
                1 <= p <= 12 && 0 <= i < j < self.num_pieces[p] implies #[trigger] self.piece_list[p][i]
                    < #[trigger] self.piece_list[p][j] by {
                assert(list_ok_of(self.pieces, self.num_pieces, self.piece_list, p));
            }
        }
    }
}

/// Letter shown for a cell: `.` when empty, `PNBRQK` for white pieces, `pnbrqk` for black.
pub open spec fn piece_letter(p: u8) -> u8 {
    if p == 1 { 80 } else if p == 2 { 78 } else if p == 3 { 66 } else if p == 4 { 82 }
    else if p == 5 { 81 } else if p == 6 { 75 } else if p == 7 { 112 } else if p == 8 { 110 }
    else if p == 9 { 98 } else if p == 10 { 114 } else if p == 11 { 113 } else if p == 12 { 107 }
    else { 46 }
}

/// Bytes of the cell of text row `row` (rank `8 - row`) and column `col` (file `a + col`): a
/// space, the cell's letter, a space.
pub open spec fn grid_cell(out: Seq<u8>, c: Seq<u8>, row: int, col: int) -> bool {
    let i = row * 25 + col * 3;
    &&& out[i] == 32
    &&& out[i + 1] == piece_letter(c[21 + col + 10 * (7 - row)])
    &&& out[i + 2] == 32
}

fn letter_of(p: u8) -> (r: u8)
    ensures
        r == piece_letter(p),
{
    if p == 1 { 80 } else if p == 2 { 78 } else if p == 3 { 66 } else if p == 4 { 82 }
    else if p == 5 { 81 } else if p == 6 { 75 } else if p == 7 { 112 } else if p == 8 { 110 }
    else if p == 9 { 98 } else if p == 10 { 114 } else if p == 11 { 113 } else if p == 12 { 107 }
    else { 46 }
}

impl Board {
    /// The board as text bytes: eight lines of 25 bytes, rank 8 first, files a to h, each cell
    /// a space, its letter and a space, each line ended by a newline.
    pub fn board_chars(&self) -> (r: Vec<u8>)
        ensures
            r@.len() == 200,
            forall|row: int, col: int|
                0 <= row < 8 && 0 <= col < 8 ==> #[trigger] grid_cell(r@, self.pieces@, row, col),
            forall|row: int| 0 <= row < 8 ==> #[trigger] r@[row * 25 + 24] == 10,
    {
        let mut out: Vec<u8> = Vec::new();
        let mut row: usize = 0;
        while row < 8
            invariant
                row <= 8,
                out@.len() == row * 25,
                forall|r2: int, c2: int|
                    0 <= r2 < row && 0 <= c2 < 8 ==> #[trigger] grid_cell(out@, self.pieces@, r2, c2),
                forall|r2: int| 0 <= r2 < row ==> #[trigger] out@[r2 * 25 + 24] == 10,
            decreases 8 - row,
        {
            let mut col: usize = 0;
            while col < 8
                invariant
                    row < 8,
                    col <= 8,
                    out@.len() == row * 25 + col * 3,
                    forall|r2: int, c2: int|
                        (0 <= r2 < row && 0 <= c2 < 8) || (r2 == row && 0 <= c2 < col) ==> #[trigger] grid_cell(out@, self.pieces@, r2, c2),
                    forall|r2: int| 0 <= r2 < row ==> #[trigger] out@[r2 * 25 + 24] == 10,
                decreases 8 - col,
            {
                let sq = 21 + col + 10 * (7 - row);
                let ghost before = out@;
                out.push(32);
                out.push(letter_of(self.pieces[sq]));
                out.push(32);
                proof {
                    assert forall|r2: int, c2: int|
                        (0 <= r2 < row && 0 <= c2 < 8) || (r2 == row && 0 <= c2 < col + 1) implies #[trigger] grid_cell(out@, self.pieces@, r2, c2) by {
                        if !(r2 == row && c2 == col) {
                            assert(r2 * 25 + c2 * 3 + 2 < row * 25 + col * 3) by (nonlinear_arith)
                                requires
                                    (0 <= r2 < row && 0 <= c2 < 8) || (r2 == row && 0 <= c2 < col),
                                    col < 8,
                            ;
                            assert(grid_cell(before, self.pieces@, r2, c2));
                        }
                    }
                    assert forall|r2: int| 0 <= r2 < row implies #[trigger] out@[r2 * 25 + 24] == 10 by {
                        assert(r2 * 25 + 24 < row * 25) by (nonlinear_arith)
                            requires
                                0 <= r2 < row,
                        ;
                        assert(before[r2 * 25 + 24] == 10);
                    }
                }
                col += 1;
            }
            let ghost before = out@;
            out.push(10);
            proof {
                assert forall|r2: int, c2: int|
                    0 <= r2 < row + 1 && 0 <= c2 < 8 implies #[trigger] grid_cell(out@, self.pieces@, r2, c2) by {
                    assert(grid_cell(before, self.pieces@, r2, c2));
                    assert(r2 * 25 + c2 * 3 + 2 < row * 25 + 24) by (nonlinear_arith)
                        requires
                            0 <= r2 < row + 1,
                            0 <= c2 < 8,
                    ;
                }
                assert forall|r2: int| 0 <= r2 < row + 1 implies #[trigger] out@[r2 * 25 + 24] == 10 by {
                    if r2 < row {
                        assert(r2 * 25 + 24 < row * 25) by (nonlinear_arith)
                            requires
                                0 <= r2 < row,
                        ;
                        assert(before[r2 * 25 + 24] == 10);
                    }
                }
            }
            row += 1;
        }
        out
    }
}

/// On a well-formed board, which `make_move`, `undo_move` and the constructors all keep, the
/// incrementally maintained fingerprint equals the one computed from scratch.
pub proof fn lemma_hash_equivalence(b: &Board)
    requires
        b.wf(),
    ensures
        b.pos_key == key_of(b.hasher, b.pieces@, b.side, b.en_passant, b.castle_perm),
{
}

/// A well-formed board is determined, field for field, by its position and keys.
pub proof fn lemma_board_determined(a: &Board)
    requires
        a.wf(),
    ensures
        forall|b: Board|
            #[trigger] b.wf() && b@ == a@ && b.hasher == a.hasher ==> b.pieces == a.pieces && b.piece_list
                == a.piece_list && b.num_pieces == a.num_pieces && b.bitboards == a.bitboards && b.material
                == a.material && b.king_sq == a.king_sq && b.pos_key == a.pos_key,
{
    assert forall|b: Board|
        #[trigger] b.wf() && b@ == a@ && b.hasher == a.hasher implies b.pieces == a.pieces && b.piece_list
            == a.piece_list && b.num_pieces == a.num_pieces && b.bitboards == a.bitboards && b.material
            == a.material && b.king_sq == a.king_sq && b.pos_key == a.pos_key by {
        lemma_same_position_same_state(&b, a);
    }
}

/// Two well-formed boards that hold the same position with the same keys agree on all their
/// bookkeeping: cells, piece lists, pawn masks, piece counts, material, class counts, king
/// squares and fingerprint. With `lemma_make_undo_round_trip` this makes an unmade move
/// leave the board as it was before the move, field for field.
pub proof fn lemma_same_position_same_state(a: &Board, b: &Board)
    requires
        a.wf(),
        b.wf(),
        a@ == b@,
        a.hasher == b.hasher,
    ensures
        a.pieces == b.pieces,
        a.bitboards == b.bitboards,
        a.num_pieces == b.num_pieces,
        a.material == b.material,
        a.num_big_pieces == b.num_big_pieces,
        a.num_major_pieces == b.num_major_pieces,
        a.num_minor_pieces == b.num_minor_pieces,
        a.king_sq == b.king_sq,
        a.pos_key == b.pos_key,
        a.piece_list == b.piece_list,
{
    assert(a.pieces =~= b.pieces);
    assert forall|p: int| 0 <= p < 13 implies #[trigger] a.num_pieces[p] == b.num_pieces[p] by {
        if p > 0 {
            assert(list_ok_of(a.pieces, a.num_pieces, a.piece_list, p));
            assert(list_ok_of(b.pieces, b.num_pieces, b.piece_list, p));
        }
    }
    assert(a.num_pieces =~= b.num_pieces);
    assert(a.material[0] == material_of(a.num_pieces, 0) && b.material[0] == material_of(b.num_pieces, 0));
    assert(a.material[1] == material_of(a.num_pieces, 1) && b.material[1] == material_of(b.num_pieces, 1));
    assert(a.material =~= b.material);
    assert(a.num_big_pieces =~= b.num_big_pieces);
    assert(a.num_major_pieces =~= b.num_major_pieces);
    assert(a.num_minor_pieces =~= b.num_minor_pieces);
    assert(a.king_sq =~= b.king_sq);
    assert forall|i: int| 0 <= i < 3 implies #[trigger] a.bitboards[i] == b.bitboards[i] by {
        assert forall|k: u64| k < 64 implies #[trigger] bit_set(a.bitboards[i].board, k) == bit_set(b.bitboards[i].board, k) by {
            assert(bit_set(a.bitboards[0].board, k) == bit_set(b.bitboards[0].board, k));
            assert(bit_set(a.bitboards[1].board, k) == bit_set(b.bitboards[1].board, k));
            assert(bit_set(a.bitboards[2].board, k) == bit_set(b.bitboards[2].board, k));
        }
        crate::bitboard::lemma_bits_determine(a.bitboards[i].board, b.bitboards[i].board);
    }
    assert(a.bitboards =~= b.bitboards);
    assert forall|p: int| 0 <= p < 13 implies #[trigger] a.piece_list[p] == b.piece_list[p] by {
        if p > 0 {
            assert(list_ok_of(a.pieces, a.num_pieces, a.piece_list, p));
            assert(list_ok_of(b.pieces, b.num_pieces, b.piece_list, p));
            lemma_mirror_unique(a.pieces@, a.piece_list[p]@, b.piece_list[p]@, a.num_pieces[p] as int, p);
        }
        assert(a.piece_list[p] =~= b.piece_list[p]);
    }
    assert(a.piece_list =~= b.piece_list);
}



impl Board {
    /// Puts `pce` on the empty cell `sq`, with all bookkeeping and its key.
    #[verifier::spinoff_prover]
    #[verifier::rlimit(40)]
    pub fn add_piece(&mut self, sq: u8, pce: u8)
        requires
            old(self).derived_ok(),
            on_board(sq as int),
            old(self).pieces[sq as int] == EMPTY,
            is_piece(pce),
        ensures
            final(self).derived_ok(),
            final(self).pieces@ == old(self).pieces@.update(sq as int, pce),
            final(self).same_meta(old(self)),
            final(self).key_rest() == old(self).key_rest(),
    {
        let ghost c0 = self.pieces@;
        let col = piece_color(pce) as usize;
        proof {
            lemma_counts_one_cell(c0, sq as int, pce);
            assert forall|q: int| 1 <= q <= 12 implies #[trigger] self.num_pieces[q] <= 120 by {
                assert(self.list_ok(q));
                lemma_count_le_len(c0, q as u8);
            }
            assert(self.list_ok(pce as int));
            assert(count(c0.update(sq as int, pce), pce) <= 120);
            assert(count(c0.update(sq as int, pce), pce) == count(c0, pce) + 1);
            lemma_fold_update(self.hasher, c0, sq as int, pce, 120);
            assert(self.material[0] == material_of(self.num_pieces, 0));
            assert(self.material[1] == material_of(self.num_pieces, 1));
        }
        let ghost k0 = self.pos_key;
        self.pos_key = self.pos_key ^ self.hasher.piece_keys[pce as usize][sq as usize];
        self.pieces[sq as usize] = pce;
        proof {
            let a = k0;
            let b = self.hasher.piece_keys[pce as int][sq as int];
            let f = pieces_fold(self.hasher, c0, 120);
            assert(cell_key(self.hasher, c0, sq as int) == 0);
            assert(cell_key(self.hasher, self.pieces@, sq as int) == b);
            assert((a ^ b) ^ (f ^ (0u64 ^ b)) == a ^ f) by (bit_vector);
        }
        self.material[col] = self.material[col] + piece_value(pce);
        if is_big_piece(pce) {
            self.num_big_pieces[col] = self.num_big_pieces[col] + 1;
            if is_major_piece(pce) {
                self.num_major_pieces[col] = self.num_major_pieces[col] + 1;
            } else {
                self.num_minor_pieces[col] = self.num_minor_pieces[col] + 1;
            }
        }
        let s64 = sq120_to_64(sq);
        self.update_pawn_bits(s64, pce == WP, pce == BP);
        let n = self.num_pieces[pce as usize] as usize;
        let ghost l0 = self.piece_list[pce as int]@;
        let k = row_find(&self.piece_list[pce as usize], n, sq);
        proof {
            lemma_mirror_find_absent(c0, l0, n as int, pce as int, sq as int, k as int);
        }
        let row = row_insert(self.piece_list[pce as usize], n, k, sq);
        self.piece_list[pce as usize] = row;
        self.num_pieces[pce as usize] = (n + 1) as u8;
        proof {
            lemma_bits_one_cell(old(self).pieces@, old(self).bitboards, self.bitboards, sq as int, pce);
            assert forall|p: int| 1 <= p <= 12 implies #[trigger] self.list_ok(p) by {
                assert(old(self).list_ok(p));
                if p != pce as int {
                    lemma_mirror_untouched(c0, self.pieces@, self.piece_list[p]@, self.num_pieces[p] as int, p);
                } else {
                    lemma_mirror_insert(c0, l0, n as int, p, sq as int, k as int, self.pieces@, self.piece_list[p]@);
                }
            }
            assert forall|q: int| 0 <= q < 13 && q != pce as int implies #[trigger] self.num_pieces[q] == old(self).num_pieces[q] by {}
            lemma_aggregates(old(self), self, pce as int, 1);
        }
    }

    /// Moves the piece on `from` to the empty cell `to`, with all bookkeeping and its keys.
    #[verifier::spinoff_prover]
    #[verifier::rlimit(40)]
    pub fn move_piece(&mut self, from: u8, to: u8)
        requires
            old(self).derived_ok(),
            on_board(from as int),
            on_board(to as int),
            is_piece(old(self).pieces[from as int]),
            old(self).pieces[to as int] == EMPTY,
        ensures
            final(self).derived_ok(),
            final(self).pieces@ == old(self).pieces@.update(from as int, EMPTY).update(
                to as int,
                old(self).pieces[from as int],
            ),
            final(self).same_meta(old(self)),
            final(self).key_rest() == old(self).key_rest(),
            final(self).num_pieces == old(self).num_pieces,
    {
        let ghost c0 = self.pieces@;
        let pce = self.pieces[from as usize];
        let ghost c1 = c0.update(from as int, EMPTY);
        proof {
            lemma_counts_one_cell(c0, from as int, EMPTY);
            lemma_counts_one_cell(c1, to as int, pce);
            lemma_count_le_len(c0, pce);
            assert(self.list_ok(pce as int));
            lemma_fold_update(self.hasher, c0, from as int, EMPTY, 120);
            lemma_fold_update(self.hasher, c1, to as int, pce, 120);
        }
        let ghost k0 = self.pos_key;
        self.pos_key = self.pos_key ^ self.hasher.piece_keys[pce as usize][from as usize];
        self.pieces[from as usize] = EMPTY;
        self.pos_key = self.pos_key ^ self.hasher.piece_keys[pce as usize][to as usize];
        self.pieces[to as usize] = pce;
        proof {
            let a = k0;
            let b1 = self.hasher.piece_keys[pce as int][from as int];
            let b2 = self.hasher.piece_keys[pce as int][to as int];
            let f = pieces_fold(self.hasher, c0, 120);
            assert(cell_key(self.hasher, c0, from as int) == b1);
            assert(cell_key(self.hasher, c1, from as int) == 0);
            assert(cell_key(self.hasher, c1, to as int) == 0);
            assert(cell_key(self.hasher, self.pieces@, to as int) == b2);
            assert(self.pieces@ == c1.update(to as int, pce));
            assert(((a ^ b1) ^ b2) ^ ((f ^ (b1 ^ 0u64)) ^ (0u64 ^ b2)) == a ^ f) by (bit_vector);
        }
        let from64 = sq120_to_64(from);
        let to64 = sq120_to_64(to);
        self.update_pawn_bits(from64, false, false);
        let ghost bm = *self;
        self.update_pawn_bits(to64, pce == WP, pce == BP);
        let n = self.num_pieces[pce as usize] as usize;
        let ghost l0 = self.piece_list[pce as int]@;
        let i = row_find(&self.piece_list[pce as usize], n, from);
        proof {
            lemma_mirror_find_present(c0, l0, n as int, pce as int, from as int, i as int);
        }
        let row1 = row_remove(self.piece_list[pce as usize], n, i);
        proof {
            lemma_mirror_remove(c0, l0, n as int, pce as int, from as int, i as int, c1, row1@);
        }
        let k = row_find(&row1, n - 1, to);
        proof {
            lemma_mirror_find_absent(c1, row1@, n - 1, pce as int, to as int, k as int);
        }
        let row2 = row_insert(row1, n - 1, k, to);
        self.piece_list[pce as usize] = row2;
        proof {
            lemma_bits_one_cell(c0, old(self).bitboards, bm.bitboards, from as int, EMPTY);
            lemma_bits_one_cell(c1, bm.bitboards, self.bitboards, to as int, pce);
            assert forall|p: int| 1 <= p <= 12 implies #[trigger] self.list_ok(p) by {
                assert(old(self).list_ok(p));
                if p != pce as int {
                    lemma_mirror_untouched(c0, self.pieces@, self.piece_list[p]@, self.num_pieces[p] as int, p);
                } else {
                    lemma_mirror_insert(c1, row1@, n - 1, p, to as int, k as int, self.pieces@, self.piece_list[p]@);
                }
            }
            assert(self.material[0] == material_of(self.num_pieces, 0));
            assert(self.material[1] == material_of(self.num_pieces, 1));
        }
    }
}

/// Material and class counts of both colours follow the piece counts.
proof fn lemma_aggregates(o: &Board, b: &Board, p: int, d: int)
    requires
        forall|c: int|
            0 <= c <= 1 ==> {
                &&& #[trigger] o.material[c] == material_of(o.num_pieces, c)
                &&& o.num_big_pieces[c] == big_of(o.num_pieces, c)
                &&& o.num_major_pieces[c] == major_of(o.num_pieces, c)
                &&& o.num_minor_pieces[c] == minor_of(o.num_pieces, c)
            },
        1 <= p <= 12,
        d == 1 || d == -1,
        forall|q: int| 0 <= q < 13 && q != p ==> #[trigger] b.num_pieces[q] == o.num_pieces[q],
        b.num_pieces[p] == o.num_pieces[p] + d,
        ({
            let c = spec_color(p as u8) as int;
            let e = 1 - c;
            let v = spec_value(p as u8) as int;
            &&& b.material[c] == o.material[c] + if d == 1 { v } else { -v }
            &&& b.num_big_pieces[c] == o.num_big_pieces[c] + if spec_big(p as u8) { d } else { 0 }
            &&& b.num_major_pieces[c] == o.num_major_pieces[c] + if spec_major(p as u8) { d } else { 0 }
            &&& b.num_minor_pieces[c] == o.num_minor_pieces[c] + if spec_minor(p as u8) { d } else { 0 }
            &&& b.material[e] == o.material[e]
            &&& b.num_big_pieces[e] == o.num_big_pieces[e]
            &&& b.num_major_pieces[e] == o.num_major_pieces[e]
            &&& b.num_minor_pieces[e] == o.num_minor_pieces[e]
        }),
    ensures
        forall|c: int|
            0 <= c <= 1 ==> {
                &&& #[trigger] b.material[c] == material_of(b.num_pieces, c)
                &&& b.num_big_pieces[c] == big_of(b.num_pieces, c)
                &&& b.num_major_pieces[c] == major_of(b.num_pieces, c)
                &&& b.num_minor_pieces[c] == minor_of(b.num_pieces, c)
            },
{
    assert(o.material[0] == material_of(o.num_pieces, 0));
    assert(o.material[1] == material_of(o.num_pieces, 1));
    let n = b.num_pieces;
    let m = o.num_pieces;
    assert(n[1] == m[1] || p == 1);
    assert forall|q: int| 1 <= q <= 12 implies #[trigger] n[q] == m[q] + if q == p { d } else { 0 } by {}
    assert(n[1] == m[1] + if p == 1 { d } else { 0 });
    assert(n[2] == m[2] + if p == 2 { d } else { 0 });
    assert(n[3] == m[3] + if p == 3 { d } else { 0 });
    assert(n[4] == m[4] + if p == 4 { d } else { 0 });
    assert(n[5] == m[5] + if p == 5 { d } else { 0 });
    assert(n[6] == m[6] + if p == 6 { d } else { 0 });
    assert(n[7] == m[7] + if p == 7 { d } else { 0 });
    assert(n[8] == m[8] + if p == 8 { d } else { 0 });
    assert(n[9] == m[9] + if p == 9 { d } else { 0 });
    assert(n[10] == m[10] + if p == 10 { d } else { 0 });
    assert(n[11] == m[11] + if p == 11 { d } else { 0 });
    assert(n[12] == m[12] + if p == 12 { d } else { 0 });
}

} // verus!
