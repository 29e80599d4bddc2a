//! The invariant checker: recomputes the derived state of a board from its cells.
use vstd::prelude::*;
use crate::attack::cells_ok;
use crate::bitboard::bit_set;
use crate::board::{big_of, major_of, material_of, minor_of, pawn_bits_ok, Board};
use crate::counting::{count, lemma_count_take};
use crate::hashkeys::key_of;
use crate::pieces::{BK, BP, WK, WP};
use crate::position::kings_ok;
use crate::squares::{is_sq_on_board, on_board, spec_sq120, sq64_to_120, NO_SQ, OFFBOARD};

verus! {

/// Whether every playable cell is empty or holds a piece and every padding cell holds the
/// sentinel.
pub fn cells_valid(pieces: &[u8; 120]) -> (r: bool)
    ensures
        r == cells_ok(pieces@),
{
    let mut i: usize = 0;
    while i < 120
        invariant
            i <= 120,
            forall|j: int| 0 <= j < i && on_board(j) ==> #[trigger] pieces@[j] <= 12,
            forall|j: int| 0 <= j < i && !on_board(j) ==> #[trigger] pieces@[j] == OFFBOARD,
        decreases 120 - i,
    {
        let c = pieces[i];
        if is_sq_on_board(i as u8) {
            if c > 12 {
                return false;
            }
        } else if c != OFFBOARD {
            return false;
        }
        i += 1;
    }
    true
}

/// Counts each piece code over the cells.
fn count_pieces(pieces: &[u8; 120]) -> (r: [u32; 13])
    ensures
        forall|q: int| 1 <= q <= 12 ==> #[trigger] r[q] == count(pieces@, q as u8),
        forall|q: int| 1 <= q <= 12 ==> #[trigger] r[q] <= 120,
{
    let mut cnt: [u32; 13] = [0; 13];
    let mut i: usize = 0;
    while i < 120
        invariant
            i <= 120,
            forall|q: int| 1 <= q <= 12 ==> #[trigger] cnt[q] == count(pieces@.take(i as int), q as u8),
            forall|q: int| 1 <= q <= 12 ==> #[trigger] cnt[q] <= i,
        decreases 120 - i,
    {
        let p = pieces[i];
        proof {
            assert forall|q: int| 1 <= q <= 12 implies #[trigger] count(pieces@.take(i + 1), q as u8) == count(pieces@.take(i as int), q as u8) + if pieces@[i as int] == q as u8 { 1nat } else { 0nat } by {
                lemma_count_take(pieces@, i as int, q as u8);
            }
        }
        if p >= 1 && p <= 12 {
            cnt[p as usize] = cnt[p as usize] + 1;
        }
        i += 1;
    }
    assert(pieces@.take(120) =~= pieces@);
    cnt
}

/// Every piece count equals the number of cells holding that piece.
pub open spec fn counts_match(board: &Board) -> bool {
    forall|q: int| 1 <= q <= 12 ==> #[trigger] board.num_pieces[q] == count(board.pieces@, q as u8)
}

/// Every piece-list entry names a cell holding its piece.
pub open spec fn lists_sound(board: &Board) -> bool {
    forall|q: int, i: int|
        1 <= q <= 12 && 0 <= i < board.num_pieces[q] ==> #[trigger] board.piece_list[q][i] < 120
            && board.pieces[board.piece_list[q][i] as int] == q
}

/// Material and class counts of both colours follow the piece counts.
pub open spec fn aggregates_match(board: &Board) -> bool {
    forall|c: int|
        0 <= c <= 1 ==> {
            &&& #[trigger] board.material[c] == material_of(board.num_pieces, c)
            &&& board.num_big_pieces[c] == big_of(board.num_pieces, c)
            &&& board.num_major_pieces[c] == major_of(board.num_pieces, c)
            &&& board.num_minor_pieces[c] == minor_of(board.num_pieces, c)
        }
}

/// What the checker compares: valid cells (pieces on playable cells, the sentinel on the
/// padding), counts, lists, material and class counts, pawn masks, king
/// squares, a side to move, valid rights and en-passant square, and the fingerprint.
pub open spec fn audit_ok(board: &Board) -> bool {
    &&& cells_ok(board.pieces@)
    &&& counts_match(board)
    &&& lists_sound(board)
    &&& aggregates_match(board)
    &&& pawn_bits_ok(board.pieces@, board.bitboards)
    &&& kings_ok(board.pieces@, board.king_sq[0], board.king_sq[1])
    &&& board.side <= 1
    &&& board.castle_perm <= 15
    &&& (board.en_passant == NO_SQ || board.en_passant < 120)
    &&& board.pos_key == key_of(board.hasher, board.pieces@, board.side, board.en_passant, board.castle_perm)
}

/// A well-formed board with a side to move passes the checker.
pub proof fn lemma_wf_passes_audit(board: &Board)
    requires
        board.wf(),
        board.side <= 1,
    ensures
        audit_ok(board),
{
    assert forall|q: int| 1 <= q <= 12 implies #[trigger] board.num_pieces[q] == count(board.pieces@, q as u8) by {
        assert(crate::board::list_ok_of(board.pieces, board.num_pieces, board.piece_list, q));
    }
    assert forall|q: int, i: int|
        1 <= q <= 12 && 0 <= i < board.num_pieces[q] implies #[trigger] board.piece_list[q][i] < 120
            && board.pieces[board.piece_list[q][i] as int] == q by {
        assert(crate::board::list_ok_of(board.pieces, board.num_pieces, board.piece_list, q));
    }
}

/// Recomputes piece counts, material, piece-class counts, pawn masks, king squares and the
/// fingerprint from the cells and compares them with what the board holds; also checks the
/// piece-list entries, the side to move, the rights and the en-passant square. The result is
/// exactly whether all of them match (`audit_ok`); a caller treats `false` as a defect.
pub fn check_board(board: &Board) -> (r: bool)
    ensures
        r == audit_ok(board),
        board.wf() && board.side <= 1 ==> r,
{
    proof {
        if board.wf() && board.side <= 1 {
            lemma_wf_passes_audit(board);
        }
    }
    if !cells_valid(&board.pieces) {
        return false;
    }
    let cnt = count_pieces(&board.pieces);
    let mut p: usize = 1;
    while p <= 12
        invariant
            1 <= p <= 13,
            forall|q: int| 1 <= q < p ==> #[trigger] board.num_pieces[q] == count(board.pieces@, q as u8),
            forall|q: int, i: int|
                1 <= q < p && 0 <= i < board.num_pieces[q] ==> #[trigger] board.piece_list[q][i] < 120
                    && board.pieces[board.piece_list[q][i] as int] == q,
            forall|q: int| 1 <= q <= 12 ==> #[trigger] cnt[q] == count(board.pieces@, q as u8),
            forall|q: int| 1 <= q <= 12 ==> #[trigger] cnt[q] <= 120,
            board.wf() && board.side <= 1 ==> audit_ok(board),
        decreases 13 - p,
    {
        if board.num_pieces[p] as u32 != cnt[p] {
            return false;
        }
        let n = board.num_pieces[p] as usize;
        let mut i: usize = 0;
        while i < n
            invariant
                i <= n,
                1 <= p <= 12,
                n == board.num_pieces[p as int],
                n <= 120,
                board.wf() && board.side <= 1 ==> audit_ok(board),
                forall|j: int| 0 <= j < i ==> #[trigger] board.piece_list[p as int][j] < 120
                    && board.pieces[board.piece_list[p as int][j] as int] == p,
            decreases n - i,
        {
            let sq = board.piece_list[p][i];
            if sq >= 120 || board.pieces[sq as usize] as usize != p {
                return false;
            }
            i += 1;
        }
        p += 1;
    }
    let n = board.num_pieces;
    assert forall|q: int| 1 <= q <= 12 implies #[trigger] n[q] <= 120 by {
        assert(cnt[q] == count(board.pieces@, q as u8));
    }
    let mut c: usize = 0;
    while c < 2
        invariant
            c <= 2,
            n == board.num_pieces,
            forall|q: int| 1 <= q <= 12 ==> #[trigger] n[q] <= 120,
            forall|d: int|
                0 <= d < c ==> {
                    &&& #[trigger] board.material[d] == material_of(n, d)
                    &&& board.num_big_pieces[d] == big_of(n, d)
                    &&& board.num_major_pieces[d] == major_of(n, d)
                    &&& board.num_minor_pieces[d] == minor_of(n, d)
                },
        decreases 2 - c,
    {
        let o: usize = if c == 0 { 0 } else { 6 };
        let mat: u64 = n[o + 1] as u64 * 100 + n[o + 2] as u64 * 325 + n[o + 3] as u64 * 325 + n[o + 4] as u64 * 550
            + n[o + 5] as u64 * 1000 + n[o + 6] as u64 * 50000;
        let big: u64 = n[o + 2] as u64 + n[o + 3] as u64 + n[o + 4] as u64 + n[o + 5] as u64 + n[o + 6] as u64;
        let major: u64 = n[o + 4] as u64 + n[o + 5] as u64 + n[o + 6] as u64;
        let minor: u64 = n[o + 2] as u64 + n[o + 3] as u64;
        if board.material[c] as u64 != mat || board.num_big_pieces[c] as u64 != big
            || board.num_major_pieces[c] as u64 != major || board.num_minor_pieces[c] as u64 != minor {
            assert(!aggregates_match(board)) by {
                assert(!(board.material[c as int] == material_of(n, c as int)
                    && board.num_big_pieces[c as int] == big_of(n, c as int)
                    && board.num_major_pieces[c as int] == major_of(n, c as int)
                    && board.num_minor_pieces[c as int] == minor_of(n, c as int)));
            }
            return false;
        }
        assert(board.material[c as int] == material_of(n, c as int));
        assert(board.num_big_pieces[c as int] == big_of(n, c as int));
        assert(board.num_major_pieces[c as int] == major_of(n, c as int));
        assert(board.num_minor_pieces[c as int] == minor_of(n, c as int));
        c += 1;
    }
    let mut k: u8 = 0;
    while k < 64
        invariant
            k <= 64,
            forall|j: u64| j < k ==> #[trigger] bit_set(board.bitboards[0].board, j) == (board.pieces[spec_sq120(j as int)] == WP),
            forall|j: u64| j < k ==> #[trigger] bit_set(board.bitboards[1].board, j) == (board.pieces[spec_sq120(j as int)] == BP),
            forall|j: u64| j < k ==> #[trigger] bit_set(board.bitboards[2].board, j) == (board.pieces[spec_sq120(j as int)] == WP
                || board.pieces[spec_sq120(j as int)] == BP),
        decreases 64 - k,
    {
        let sq = sq64_to_120(k);
        let cell = board.pieces[sq as usize];
        if board.bitboards[0].piece_is_present(k) != (cell == WP) || board.bitboards[1].piece_is_present(k) != (cell == BP)
            || board.bitboards[2].piece_is_present(k) != (cell == WP || cell == BP) {
            assert(!pawn_bits_ok(board.pieces@, board.bitboards)) by {
                assert(bit_set(board.bitboards[0].board, k as u64) == bit_set(board.bitboards[0].board, k as u64));
                assert(bit_set(board.bitboards[1].board, k as u64) == bit_set(board.bitboards[1].board, k as u64));
                assert(bit_set(board.bitboards[2].board, k as u64) == bit_set(board.bitboards[2].board, k as u64));
            }
            return false;
        }
        k += 1;
    }
    if board.king_sq[0] >= 120 || board.king_sq[1] >= 120 {
        return false;
    }
    let mut s: usize = 0;
    while s < 120
        invariant
            s <= 120,
            board.king_sq[0] < 120 && board.king_sq[1] < 120,
            forall|t: int| 0 <= t < s && #[trigger] board.pieces[t] == WK ==> t == board.king_sq[0],
            forall|t: int| 0 <= t < s && #[trigger] board.pieces[t] == BK ==> t == board.king_sq[1],
        decreases 120 - s,
    {
        if (board.pieces[s] == WK && s != board.king_sq[0] as usize) || (board.pieces[s] == BK && s != board.king_sq[1] as usize) {
            assert(!kings_ok(board.pieces@, board.king_sq[0], board.king_sq[1])) by {
                assert(board.pieces[s as int] == board.pieces@[s as int]);
            }
            return false;
        }
        s += 1;
    }
    if board.side > 1 || board.castle_perm > 15 || (board.en_passant != NO_SQ && board.en_passant >= 120) {
        return false;
    }
    let key = board.hasher.generate_key(&board.pieces, board.side, board.en_passant, board.castle_perm);
    key == board.pos_key
}

} // verus!
