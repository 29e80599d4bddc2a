//! Pseudo-legal move generation: every move produced is one `make_move` can apply.
use vstd::prelude::*;
use crate::attack::{attacked, cells_ok, square_is_attacked};
use crate::board::Board;
use crate::gamemove::{pack, GameMove, MFLAG_CA, MFLAG_EP, MFLAG_PS};
use crate::pieces::{
    is_black, is_piece, is_white, kind, num_dir, piece_color, piece_dir, piece_of, spec_color,
    spec_dir, spec_num_dir, BB, BK, BN, BP, BQ, BR, BLACK, EMPTY, WB, WHITE, WK, WN, WP, WQ, WR,
    WK_CASTLE, WQ_CASTLE, BK_CASTLE, BQ_CASTLE,
};
use crate::position::{ep_victim, move_ok, rook_from, rook_to, Position};
use crate::squares::{is_sq_on_board, on_board, NO_SQ, OFFBOARD};

verus! {

/// `new` is `old` followed by moves that `make_move` accepts in `v`.
pub open spec fn extends_ok(v: Position, old: Seq<GameMove>, new: Seq<GameMove>) -> bool {
    &&& old.len() <= new.len()
    &&& forall|i: int| 0 <= i < old.len() ==> #[trigger] new[i] == old[i]
    &&& forall|i: int| old.len() <= i < new.len() ==> move_ok(v, #[trigger] new[i])
}

proof fn lemma_extends_trans(v: Position, a: Seq<GameMove>, b: Seq<GameMove>, c: Seq<GameMove>)
    requires
        extends_ok(v, a, b),
        extends_ok(v, b, c),
    ensures
        extends_ok(v, a, c),
{
    assert forall|i: int| a.len() <= i < c.len() implies move_ok(v, #[trigger] c[i]) by {
        if i < b.len() {
            assert(c[i] == b[i]);
        }
    }
}

/// A board that moves can be generated on.
pub open spec fn gen_ok(pos: &Board) -> bool {
    pos.wf() && pos.side <= 1
}

/// The move `GameMove::new(from, to, cap, prom, flag)` builds.
pub open spec fn mv(from: int, to: int, cap: u8, prom: u8, flag: u32) -> GameMove {
    GameMove { move_int: pack(from as u32, to as u32, cap as u32, prom as u32, flag), score: 0 }
}

/// A piece of the side opposite to `side`.
pub open spec fn is_enemy(p: u8, side: u8) -> bool {
    is_piece(p) && spec_color(p) == side ^ 1u8
}

/// The move of a knight or king from `sq` to `t`: none onto padding or an own piece, a quiet
/// move onto an empty cell, a capture onto an enemy piece.
pub open spec fn step_moves(c: Seq<u8>, side: u8, sq: int, t: int) -> Seq<GameMove> {
    if c[t] == OFFBOARD {
        seq![]
    } else if c[t] == EMPTY {
        seq![mv(sq, t, EMPTY, EMPTY, 0)]
    } else if is_enemy(c[t], side) {
        seq![mv(sq, t, c[t], EMPTY, 0)]
    } else {
        seq![]
    }
}

/// The moves of a slider from `sq` along `d`, from cell `t` on: quiet moves over empty cells,
/// then a capture if the first occupied cell holds an enemy piece.
pub open spec fn ray_moves(c: Seq<u8>, side: u8, sq: int, t: int, d: int) -> Seq<GameMove>
    decreases (if d > 0 { 120 - t } else { t + 1 }),
{
    if !(0 <= t < 120 && t < c.len()) || d == 0 {
        seq![]
    } else if c[t] == OFFBOARD {
        seq![]
    } else if c[t] == EMPTY {
        seq![mv(sq, t, EMPTY, EMPTY, 0)] + if 0 <= t + d < 120 {
            ray_moves(c, side, sq, t + d, d)
        } else {
            seq![]
        }
    } else if is_enemy(c[t], side) {
        seq![mv(sq, t, c[t], EMPTY, 0)]
    } else {
        seq![]
    }
}

/// The moves of piece `p` from `sq` in its `i`-th direction.
pub open spec fn dir_moves(c: Seq<u8>, side: u8, p: u8, sq: int, i: int) -> Seq<GameMove> {
    if kind(p) == 2 || kind(p) == 6 {
        step_moves(c, side, sq, sq + spec_dir(p, i))
    } else {
        ray_moves(c, side, sq, sq + spec_dir(p, i), spec_dir(p, i))
    }
}

/// The moves of piece `p` from `sq` in its first `n` directions, in order.
pub open spec fn piece_moves(c: Seq<u8>, side: u8, p: u8, sq: int, n: int) -> Seq<GameMove>
    decreases n,
{
    if n <= 0 {
        seq![]
    } else {
        piece_moves(c, side, p, sq, n - 1) + dir_moves(c, side, p, sq, n - 1)
    }
}

/// The moves of the first `n` pieces of the list `l` of piece `p`, in list order.
pub open spec fn list_moves(c: Seq<u8>, side: u8, p: u8, l: Seq<u8>, n: int) -> Seq<GameMove>
    decreases n,
{
    if n <= 0 {
        seq![]
    } else {
        list_moves(c, side, p, l, n - 1) + piece_moves(c, side, p, l[n - 1] as int, spec_num_dir(p))
    }
}

/// The moves of all pieces `p` of the board.
pub open spec fn kind_moves(b: Board, p: u8) -> Seq<GameMove> {
    list_moves(b.pieces@, b.side, p, b.piece_list[p as int]@, b.num_pieces[p as int] as int)
}

/// The moves of the bishops, rooks and queens (the first `j` of those kinds) of the side to
/// move.
pub open spec fn slider_moves(b: Board, j: int) -> Seq<GameMove>
    decreases j,
{
    if j <= 0 {
        seq![]
    } else {
        slider_moves(b, j - 1) + kind_moves(b, (piece_of(3, b.side) + j - 1) as u8)
    }
}

/// The moves of the knights, then the king (castling aside), of the side to move.
pub open spec fn leaper_moves(b: Board) -> Seq<GameMove> {
    kind_moves(b, piece_of(2, b.side)) + kind_moves(b, piece_of(6, b.side))
}

/// A pawn move, or one per promotion piece (queen, rook, bishop, knight) from the rank before
/// the last.
pub open spec fn promo_moves(side: u8, from: int, to: int, cap: u8) -> Seq<GameMove> {
    if (side == WHITE && from / 10 == 8) || (side == BLACK && from / 10 == 3) {
        seq![
            mv(from, to, cap, piece_of(5, side), 0),
            mv(from, to, cap, piece_of(4, side), 0),
            mv(from, to, cap, piece_of(3, side), 0),
            mv(from, to, cap, piece_of(2, side), 0),
        ]
    } else {
        seq![mv(from, to, cap, EMPTY, 0)]
    }
}

/// Cell one step forward for a pawn of `side`.
pub open spec fn forward(side: u8, sq: int, steps: int) -> int {
    if side == WHITE {
        sq + 10 * steps
    } else {
        sq - 10 * steps
    }
}

/// The diagonal capture of a pawn from `sq` onto `to`: a capture of an enemy piece, or an
/// en-passant capture onto the en-passant square with the enemy pawn behind it.
pub open spec fn pawn_capture_moves(b: Board, sq: int, to: int) -> Seq<GameMove> {
    let c = b.pieces@;
    let side = b.side;
    if is_enemy(c[to], side) {
        promo_moves(side, sq, to, c[to])
    } else if b.en_passant != NO_SQ && to == b.en_passant && c[to] == EMPTY && c[ep_victim(side, to)]
        == piece_of(1, side ^ 1u8) {
        seq![mv(sq, to, EMPTY, EMPTY, MFLAG_EP)]
    } else {
        seq![]
    }
}

/// The moves of the pawn on `sq`: push (and double push from its start rank), then the two
/// diagonal captures.
pub open spec fn pawn_moves(b: Board, sq: int) -> Seq<GameMove> {
    let c = b.pieces@;
    let side = b.side;
    let start = if side == WHITE { 3int } else { 8int };
    let pushes = if c[forward(side, sq, 1)] == EMPTY {
        promo_moves(side, sq, forward(side, sq, 1), EMPTY) + if sq / 10 == start && c[forward(side, sq, 2)] == EMPTY {
            seq![mv(sq, forward(side, sq, 2), EMPTY, EMPTY, MFLAG_PS)]
        } else {
            seq![]
        }
    } else {
        seq![]
    };
    let (d1, d2) = if side == WHITE { (9int, 11int) } else { (-9int, -11int) };
    pushes + pawn_capture_moves(b, sq, sq + d1) + pawn_capture_moves(b, sq, sq + d2)
}

/// The moves of the first `n` pawns of the side to move, in list order.
pub open spec fn pawn_list_moves(b: Board, n: int) -> Seq<GameMove>
    decreases n,
{
    if n <= 0 {
        seq![]
    } else {
        let pawn = piece_of(1, b.side);
        pawn_list_moves(b, n - 1) + pawn_moves(b, b.piece_list[pawn as int][n - 1] as int)
    }
}

/// The moves of all pawns of the side to move.
pub open spec fn all_pawn_moves(b: Board) -> Seq<GameMove> {
    pawn_list_moves(b, b.num_pieces[piece_of(1, b.side) as int] as int)
}

/// The castle of the king from `from` to `to` when the right is held, king and rook are home,
/// the cells `rook_dest`, `to` and `far` are empty and none of `from`, `rook_dest`, `to` is
/// attacked.
pub open spec fn castle_moves(b: Board, right: u8, from: int, to: int, rook: int, rook_dest: int, far: int) -> Seq<GameMove> {
    let c = b.pieces@;
    let side = b.side;
    if b.castle_perm & right != 0 && c[from] == piece_of(6, side) && c[rook] == piece_of(4, side)
        && c[rook_dest] == EMPTY && c[to] == EMPTY && c[far] == EMPTY && !attacked(c, from, side ^ 1u8)
        && !attacked(c, rook_dest, side ^ 1u8) && !attacked(c, to, side ^ 1u8) {
        seq![mv(from, to, EMPTY, EMPTY, MFLAG_CA)]
    } else {
        seq![]
    }
}

/// Every move generated for the side to move, in generation order: pawns, king-side castle,
/// queen-side castle, bishops, rooks, queens, knights, king.
pub open spec fn all_moves(b: Board) -> Seq<GameMove> {
    let castles = if b.side == WHITE {
        castle_moves(b, WK_CASTLE, 25, 27, 28, 26, 27) + castle_moves(b, WQ_CASTLE, 25, 23, 21, 24, 22)
    } else {
        castle_moves(b, BK_CASTLE, 95, 97, 98, 96, 97) + castle_moves(b, BQ_CASTLE, 95, 93, 91, 94, 92)
    };
    all_pawn_moves(b) + castles + slider_moves(b, 3) + leaper_moves(b)
}

/// Appends a move without a capture.
pub fn add_quiet_move(pos: &Board, mve: GameMove, list: &mut Vec<GameMove>)
    requires
        move_ok(pos@, mve),
    ensures
        final(list)@ == old(list)@.push(mve),
        extends_ok(pos@, old(list)@, final(list)@),
{
    list.push(mve);
}

/// Appends a capture.
pub fn add_capture_move(pos: &Board, mve: GameMove, list: &mut Vec<GameMove>)
    requires
        move_ok(pos@, mve),
    ensures
        final(list)@ == old(list)@.push(mve),
        extends_ok(pos@, old(list)@, final(list)@),
{
    list.push(mve);
}

/// The pawn move `from`-`to` of `side` capturing `cap`, or one move per promotion piece
/// (queen, rook, bishop, knight) when it reaches the last rank.
fn add_pawn_move(pos: &Board, side: u8, from: u8, to: u8, cap: u8, list: &mut Vec<GameMove>)
    requires
        gen_ok(pos),
        pos.side == side,
        on_board(from as int),
        on_board(to as int),
        from != to,
        pos.pieces[from as int] == piece_of(1, side),
        cap == pos.pieces[to as int],
        cap == EMPTY || (is_piece(cap) && spec_color(cap) != side),
    ensures
        extends_ok(pos@, old(list)@, final(list)@),
        final(list)@ == old(list)@ + promo_moves(side, from as int, to as int, cap),
{
    let last = if side == WHITE { from / 10 == 8 } else { from / 10 == 3 };
    if last {
        let (q, r, b, n) = if side == WHITE { (WQ, WR, WB, WN) } else { (BQ, BR, BB, BN) };
        let ghost l0 = list@;
        list.push(GameMove::new(from, to, cap, q, 0));
        list.push(GameMove::new(from, to, cap, r, 0));
        list.push(GameMove::new(from, to, cap, b, 0));
        list.push(GameMove::new(from, to, cap, n, 0));
        assert(list@ =~= l0 + promo_moves(side, from as int, to as int, cap));
    } else {
        list.push(GameMove::new(from, to, cap, EMPTY, 0));
        assert(list@ =~= old(list)@ + promo_moves(side, from as int, to as int, cap));
    }
}

/// A white pawn capture, promoting when it starts on the seventh rank.
pub fn add_wp_capture_move(pos: &Board, from: u8, to: u8, cap: u8, list: &mut Vec<GameMove>)
    requires
        gen_ok(pos),
        pos.side == WHITE,
        on_board(from as int),
        on_board(to as int),
        from != to,
        pos.pieces[from as int] == WP,
        cap == pos.pieces[to as int],
        7 <= cap <= 12,
    ensures
        extends_ok(pos@, old(list)@, final(list)@),
        final(list)@ == old(list)@ + promo_moves(WHITE, from as int, to as int, cap),
{
    add_pawn_move(pos, WHITE, from, to, cap, list);
}

/// A white pawn push by one square, promoting when it starts on the seventh rank.
pub fn add_wp_move(pos: &Board, from: u8, to: u8, list: &mut Vec<GameMove>)
    requires
        gen_ok(pos),
        pos.side == WHITE,
        on_board(from as int),
        on_board(to as int),
        from != to,
        pos.pieces[from as int] == WP,
        pos.pieces[to as int] == EMPTY,
    ensures
        extends_ok(pos@, old(list)@, final(list)@),
        final(list)@ == old(list)@ + promo_moves(WHITE, from as int, to as int, EMPTY),
{
    add_pawn_move(pos, WHITE, from, to, EMPTY, list);
}

/// A black pawn capture, promoting when it starts on the second rank.
pub fn add_bp_capture_move(pos: &Board, from: u8, to: u8, cap: u8, list: &mut Vec<GameMove>)
    requires
        gen_ok(pos),
        pos.side == BLACK,
        on_board(from as int),
        on_board(to as int),
        from != to,
        pos.pieces[from as int] == BP,
        cap == pos.pieces[to as int],
        1 <= cap <= 6,
    ensures
        extends_ok(pos@, old(list)@, final(list)@),
        final(list)@ == old(list)@ + promo_moves(BLACK, from as int, to as int, cap),
{
    add_pawn_move(pos, BLACK, from, to, cap, list);
}

/// A black pawn push by one square, promoting when it starts on the second rank.
pub fn add_bp_move(pos: &Board, from: u8, to: u8, list: &mut Vec<GameMove>)
    requires
        gen_ok(pos),
        pos.side == BLACK,
        on_board(from as int),
        on_board(to as int),
        from != to,
        pos.pieces[from as int] == BP,
        pos.pieces[to as int] == EMPTY,
    ensures
        extends_ok(pos@, old(list)@, final(list)@),
        final(list)@ == old(list)@ + promo_moves(BLACK, from as int, to as int, EMPTY),
{
    add_pawn_move(pos, BLACK, from, to, EMPTY, list);
}

/// The two diagonal captures of the pawn on `sq`, `k` being 0 or 1.
fn generate_pawn_capture(pos: &Board, sq: u8, to: u8, list: &mut Vec<GameMove>)
    requires
        gen_ok(pos),
        on_board(sq as int),
        pos.pieces[sq as int] == piece_of(1, pos.side),
        to as int == sq + (if pos.side == WHITE { 9int } else { -9int }) || to as int == sq + (if pos.side == WHITE { 11int } else { -11int }),
    ensures
        extends_ok(pos@, old(list)@, final(list)@),
        final(list)@ == old(list)@ + pawn_capture_moves(*pos, sq as int, to as int),
{
    let side = pos.side;
    let target = pos.pieces[to as usize];
    let enemy = if side == WHITE { is_black(target) } else { is_white(target) };
    assert(enemy == is_enemy(target, side)) by {
        assert(side ^ 1u8 == 1 - side) by (bit_vector)
            requires side <= 1;
    }
    if enemy {
        add_pawn_move(pos, side, sq, to, target, list);
    } else if pos.en_passant != NO_SQ && to == pos.en_passant && target == EMPTY {
        let victim = if side == WHITE { to - 10 } else { to + 10 };
        let their_pawn = if side == WHITE { BP } else { WP };
        assert(their_pawn == piece_of(1, side ^ 1u8)) by {
            assert(side ^ 1u8 == 1 - side) by (bit_vector)
                requires side <= 1;
        }
        if pos.pieces[victim as usize] == their_pawn {
            add_capture_move(pos, GameMove::new(sq, to, EMPTY, EMPTY, MFLAG_EP), list);
            assert(list@ =~= old(list)@ + pawn_capture_moves(*pos, sq as int, to as int));
        } else {
            assert(list@ =~= old(list)@ + pawn_capture_moves(*pos, sq as int, to as int));
        }
    } else {
        assert(list@ =~= old(list)@ + pawn_capture_moves(*pos, sq as int, to as int));
    }
}

/// Push, double push and captures of the pawn on `sq`.
#[verifier::spinoff_prover]
#[verifier::rlimit(100)]
fn generate_one_pawn(pos: &Board, sq: u8, list: &mut Vec<GameMove>)
    requires
        gen_ok(pos),
        on_board(sq as int),
        pos.pieces[sq as int] == piece_of(1, pos.side),
    ensures
        extends_ok(pos@, old(list)@, final(list)@),
        final(list)@ == old(list)@ + pawn_moves(*pos, sq as int),
{
    let side = pos.side;
    let (one, two, start_rank): (u8, u8, u8) = if side == WHITE { (sq + 10, sq + 20, 3) } else { (sq - 10, sq - 20, 8) };
    let ghost l0 = list@;
    if pos.pieces[one as usize] == EMPTY {
        add_pawn_move(pos, side, sq, one, EMPTY, list);
        if sq / 10 == start_rank && pos.pieces[two as usize] == EMPTY {
            let ghost l1 = list@;
            add_quiet_move(pos, GameMove::new(sq, two, EMPTY, EMPTY, MFLAG_PS), list);
            proof { lemma_extends_trans(pos@, l0, l1, list@); }
        }
    }
    let ghost l2 = list@;
    let (d1, d2): (u8, u8) = if side == WHITE { (sq + 9, sq + 11) } else { (sq - 9, sq - 11) };
    generate_pawn_capture(pos, sq, d1, list);
    let ghost l3 = list@;
    generate_pawn_capture(pos, sq, d2, list);
    proof {
        lemma_extends_trans(pos@, l0, l2, l3);
        lemma_extends_trans(pos@, l0, l3, list@);
        let c = pos.pieces@;
        let pushes = if c[forward(side, sq as int, 1)] == EMPTY {
            promo_moves(side, sq as int, forward(side, sq as int, 1), EMPTY) + if sq / 10 == start_rank && c[forward(side, sq as int, 2)] == EMPTY {
                seq![mv(sq as int, forward(side, sq as int, 2), EMPTY, EMPTY, MFLAG_PS)]
            } else {
                seq![]
            }
        } else {
            seq![]
        };
        assert(l2 =~= l0 + pushes);
        assert(list@ =~= l0 + pawn_moves(*pos, sq as int));
    }
}

/// Moves of the pawns of the side to move.
fn generate_pawn_moves(pos: &Board, side: u8, list: &mut Vec<GameMove>)
    requires
        gen_ok(pos),
        pos.side == side,
    ensures
        extends_ok(pos@, old(list)@, final(list)@),
        final(list)@ == old(list)@ + all_pawn_moves(*pos),
{
    let pawn = if side == WHITE { WP } else { BP };
    let n = pos.num_pieces[pawn as usize] as usize;
    proof {
        assert(pos.list_ok(pawn as int));
        crate::counting::lemma_count_le_len(pos.pieces@, pawn);
    }
    let mut i: usize = 0;
    while i < n
        invariant
            gen_ok(pos),
            pos.side == side,
            pawn == piece_of(1, side),
            n == pos.num_pieces[pawn as int],
            n <= 120,
            pos.list_ok(pawn as int),
            i <= n,
            extends_ok(pos@, old(list)@, list@),
            list@ == old(list)@ + pawn_list_moves(*pos, i as int),
        decreases n - i,
    {
        let sq = pos.piece_list[pawn as usize][i];
        let ghost l0 = list@;
        proof {
            assert(on_board(sq as int) && pos.pieces[sq as int] == pawn);
        }
        generate_one_pawn(pos, sq, list);
        proof {
            lemma_extends_trans(pos@, old(list)@, l0, list@);
            assert(list@ =~= old(list)@ + pawn_list_moves(*pos, i + 1));
        }
        i += 1;
    }
}

/// Moves of the white pawns.
pub fn generate_wp_moves(pos: &Board, list: &mut Vec<GameMove>)
    requires
        gen_ok(pos),
        pos.side == WHITE,
    ensures
        extends_ok(pos@, old(list)@, final(list)@),
        final(list)@ == old(list)@ + all_pawn_moves(*pos),
{
    generate_pawn_moves(pos, WHITE, list);
}

/// Moves of the black pawns.
pub fn generate_bp_moves(pos: &Board, list: &mut Vec<GameMove>)
    requires
        gen_ok(pos),
        pos.side == BLACK,
    ensures
        extends_ok(pos@, old(list)@, final(list)@),
        final(list)@ == old(list)@ + all_pawn_moves(*pos),
{
    generate_pawn_moves(pos, BLACK, list);
}

/// Moves of the piece on `sq` along direction `dir`: quiet moves over empty cells, then a
/// capture if the first occupied cell holds an enemy piece.
fn generate_ray_moves(pos: &Board, sq: u8, dir: i8, list: &mut Vec<GameMove>)
    requires
        gen_ok(pos),
        on_board(sq as int),
        is_piece(pos.pieces[sq as int]),
        spec_color(pos.pieces[sq as int]) == pos.side,
        dir == 1 || dir == -1 || dir == 9 || dir == -9 || dir == 10 || dir == -10 || dir == 11
            || dir == -11,
    ensures
        extends_ok(pos@, old(list)@, final(list)@),
        final(list)@ == old(list)@ + ray_moves(pos.pieces@, pos.side, sq as int, sq + dir, dir as int),
{
    let side = pos.side;
    let ghost c = pos.pieces@;
    let mut t: i16 = sq as i16 + dir as i16;
    loop
        invariant_except_break
            old(list)@ + ray_moves(c, side, sq as int, sq + dir, dir as int) == list@ + ray_moves(c, side, sq as int, t as int, dir as int),
        invariant
            gen_ok(pos),
            side == pos.side,
            c == pos.pieces@,
            on_board(sq as int),
            is_piece(pos.pieces[sq as int]),
            spec_color(pos.pieces[sq as int]) == pos.side,
            10 <= t <= 109,
            t != sq,
            dir == 1 || dir == -1 || dir == 9 || dir == -9 || dir == 10 || dir == -10 || dir
                == 11 || dir == -11,
            dir > 0 ==> t > sq,
            dir < 0 ==> t < sq,
            extends_ok(pos@, old(list)@, list@),
        ensures
            list@ == old(list)@ + ray_moves(c, side, sq as int, sq + dir, dir as int),
        decreases (if dir > 0 { 120 - t } else { t + 1 }),
    {
        let target = pos.pieces[t as usize];
        if target == OFFBOARD {
            assert(list@ + ray_moves(c, side, sq as int, t as int, dir as int) =~= list@);
            break;
        }
        assert(on_board(t as int));
        let ghost l0 = list@;
        if target == EMPTY {
            add_quiet_move(pos, GameMove::new(sq, t as u8, EMPTY, EMPTY, 0), list);
            proof {
                lemma_extends_trans(pos@, old(list)@, l0, list@);
                let rest = ray_moves(c, side, sq as int, t + dir, dir as int);
                assert(ray_moves(c, side, sq as int, t as int, dir as int) == seq![mv(sq as int, t as int, EMPTY, EMPTY, 0)] + rest);
                assert(l0 + (seq![mv(sq as int, t as int, EMPTY, EMPTY, 0)] + rest) =~= list@ + rest);
            }
        } else {
            if piece_color(target) == side ^ 1 {
                assert(spec_color(target) != side) by {
                    assert(side ^ 1u8 != side) by (bit_vector);
                }
                add_capture_move(pos, GameMove::new(sq, t as u8, target, EMPTY, 0), list);
                proof {
                    lemma_extends_trans(pos@, old(list)@, l0, list@);
                    assert(l0 + ray_moves(c, side, sq as int, t as int, dir as int) =~= list@);
                }
            } else {
                assert(l0 + ray_moves(c, side, sq as int, t as int, dir as int) =~= list@);
            }
            break;
        }
        t = t + dir as i16;
    }
}

/// The move of a knight or king on `sq` onto `sq + dir`, if any.
fn generate_step_move(pos: &Board, sq: u8, dir: i8, list: &mut Vec<GameMove>)
    requires
        gen_ok(pos),
        on_board(sq as int),
        is_piece(pos.pieces[sq as int]),
        spec_color(pos.pieces[sq as int]) == pos.side,
        -21 <= dir <= 21,
    ensures
        extends_ok(pos@, old(list)@, final(list)@),
        final(list)@ == old(list)@ + step_moves(pos.pieces@, pos.side, sq as int, sq + dir),
{
    let side = pos.side;
    let t = (sq as i16 + dir as i16) as u8;
    let target = pos.pieces[t as usize];
    if target != OFFBOARD {
        assert(on_board(t as int));
        if target == EMPTY {
            add_quiet_move(pos, GameMove::new(sq, t, EMPTY, EMPTY, 0), list);
        } else if piece_color(target) == side ^ 1 {
            assert(spec_color(target) != side) by {
                assert(side ^ 1u8 != side) by (bit_vector);
            }
            add_capture_move(pos, GameMove::new(sq, t, target, EMPTY, 0), list);
        } else {
            assert(list@ =~= old(list)@ + step_moves(pos.pieces@, pos.side, sq as int, sq + dir));
        }
    } else {
        assert(list@ =~= old(list)@ + step_moves(pos.pieces@, pos.side, sq as int, sq + dir));
    }
}

/// The moves of the piece `piece` on `sq` in all its directions.
fn generate_piece_moves(pos: &Board, piece: u8, sq: u8, list: &mut Vec<GameMove>)
    requires
        gen_ok(pos),
        on_board(sq as int),
        pos.pieces[sq as int] == piece,
        is_piece(piece),
        spec_color(piece) == pos.side,
        2 <= kind(piece) <= 6,
    ensures
        extends_ok(pos@, old(list)@, final(list)@),
        final(list)@ == old(list)@ + piece_moves(pos.pieces@, pos.side, piece, sq as int, spec_num_dir(piece)),
{
    let nd = num_dir(piece);
    let leaps = kind_is_leaper(piece);
    let mut d: usize = 0;
    while d < nd
        invariant
            gen_ok(pos),
            on_board(sq as int),
            pos.pieces[sq as int] == piece,
            is_piece(piece),
            spec_color(piece) == pos.side,
            2 <= kind(piece) <= 6,
            leaps == (kind(piece) == 2 || kind(piece) == 6),
            nd as int == spec_num_dir(piece),
            d <= nd,
            extends_ok(pos@, old(list)@, list@),
            list@ == old(list)@ + piece_moves(pos.pieces@, pos.side, piece, sq as int, d as int),
        decreases nd - d,
    {
        let dir = piece_dir(piece, d);
        let ghost l0 = list@;
        if leaps {
            generate_step_move(pos, sq, dir, list);
        } else {
            generate_ray_moves(pos, sq, dir, list);
        }
        proof {
            lemma_extends_trans(pos@, old(list)@, l0, list@);
            assert(list@ =~= old(list)@ + piece_moves(pos.pieces@, pos.side, piece, sq as int, d + 1));
        }
        d += 1;
    }
}

/// Knights and kings move by single steps.
fn kind_is_leaper(p: u8) -> (r: bool)
    ensures
        r == (kind(p) == 2 || kind(p) == 6),
{
    p == WN || p == BN || p == WK || p == BK
}

/// The moves of every piece `piece` of the side to move, in list order.
fn generate_kind_moves(pos: &Board, piece: u8, list: &mut Vec<GameMove>)
    requires
        gen_ok(pos),
        is_piece(piece),
        spec_color(piece) == pos.side,
        2 <= kind(piece) <= 6,
    ensures
        extends_ok(pos@, old(list)@, final(list)@),
        final(list)@ == old(list)@ + kind_moves(*pos, piece),
{
    let n = pos.num_pieces[piece as usize] as usize;
    proof {
        assert(pos.list_ok(piece as int));
        crate::counting::lemma_count_le_len(pos.pieces@, piece);
    }
    let mut i: usize = 0;
    while i < n
        invariant
            gen_ok(pos),
            is_piece(piece),
            spec_color(piece) == pos.side,
            2 <= kind(piece) <= 6,
            n == pos.num_pieces[piece as int],
            n <= 120,
            pos.list_ok(piece as int),
            i <= n,
            extends_ok(pos@, old(list)@, list@),
            list@ == old(list)@ + list_moves(pos.pieces@, pos.side, piece, pos.piece_list[piece as int]@, i as int),
        decreases n - i,
    {
        let sq = pos.piece_list[piece as usize][i];
        assert(on_board(sq as int) && pos.pieces[sq as int] == piece);
        let ghost l0 = list@;
        generate_piece_moves(pos, piece, sq, list);
        proof {
            lemma_extends_trans(pos@, old(list)@, l0, list@);
            assert(list@ =~= old(list)@ + list_moves(pos.pieces@, pos.side, piece, pos.piece_list[piece as int]@, i + 1));
        }
        i += 1;
    }
}

/// Moves of the bishops, rooks and queens of `side`, the side to move.
pub fn generate_sliding_moves(pos: &Board, list: &mut Vec<GameMove>, side: u8)
    requires
        gen_ok(pos),
        pos.side == side,
    ensures
        extends_ok(pos@, old(list)@, final(list)@),
        final(list)@ == old(list)@ + slider_moves(*pos, 3),
{
    let first: u8 = if side == WHITE { WB } else { BB };
    let mut j: u8 = 0;
    while j < 3
        invariant
            gen_ok(pos),
            pos.side == side,
            first == piece_of(3, side),
            j <= 3,
            extends_ok(pos@, old(list)@, list@),
            list@ == old(list)@ + slider_moves(*pos, j as int),
        decreases 3 - j,
    {
        let ghost l0 = list@;
        generate_kind_moves(pos, first + j, list);
        proof {
            lemma_extends_trans(pos@, old(list)@, l0, list@);
            assert(list@ =~= old(list)@ + slider_moves(*pos, j + 1));
        }
        j += 1;
    }
}

/// Moves of the knights and the king of `side`, the side to move, castling aside.
pub fn generate_nonsliding_moves(pos: &Board, list: &mut Vec<GameMove>, side: u8)
    requires
        gen_ok(pos),
        pos.side == side,
    ensures
        extends_ok(pos@, old(list)@, final(list)@),
        final(list)@ == old(list)@ + leaper_moves(*pos),
{
    let (knight, king) = if side == WHITE { (WN, WK) } else { (BN, BK) };
    generate_kind_moves(pos, knight, list);
    let ghost l0 = list@;
    generate_kind_moves(pos, king, list);
    proof {
        lemma_extends_trans(pos@, old(list)@, l0, list@);
        assert(list@ =~= old(list)@ + leaper_moves(*pos));
    }
}

/// Whether all the given cells are empty.
fn squares_are_empty(pos: &Board, a: u8, b: u8, c: u8) -> (r: bool)
    requires
        a < 120 && b < 120 && c < 120,
    ensures
        r == (pos.pieces[a as int] == EMPTY && pos.pieces[b as int] == EMPTY && pos.pieces[c as int] == EMPTY),
{
    pos.pieces[a as usize] == EMPTY && pos.pieces[b as usize] == EMPTY && pos.pieces[c as usize] == EMPTY
}

/// Whether `side` attacks any of the given playable cells.
fn squares_are_attacked(pos: &Board, a: u8, b: u8, c: u8, side: u8) -> (r: bool)
    requires
        cells_ok(pos.pieces@),
        on_board(a as int) && on_board(b as int) && on_board(c as int),
    ensures
        r == (attacked(pos.pieces@, a as int, side) || attacked(pos.pieces@, b as int, side)
            || attacked(pos.pieces@, c as int, side)),
{
    square_is_attacked(a, side, &pos.pieces) || square_is_attacked(b, side, &pos.pieces)
        || square_is_attacked(c, side, &pos.pieces)
}

/// Adds the castle of the king from `from` to `to` (rook from `rook` to `rook_dest`) when the
/// right is held, king and rook stand at home, the cells between them are empty and the king's
/// cell, the cell it crosses and its destination are not attacked.
fn generate_castle_move(pos: &Board, right: u8, from: u8, to: u8, rook: u8, rook_dest: u8, far: u8, list: &mut Vec<GameMove>)
    requires
        gen_ok(pos),
        (pos.side == WHITE && from == 25 && ((to == 27 && rook == 28 && rook_dest == 26 && far == 27) || (to == 23 && rook == 21 && rook_dest == 24 && far == 22)))
        || (pos.side == BLACK && from == 95 && ((to == 97 && rook == 98 && rook_dest == 96 && far == 97) || (to == 93 && rook == 91 && rook_dest == 94 && far == 92))),
    ensures
        extends_ok(pos@, old(list)@, final(list)@),
        final(list)@ == old(list)@ + castle_moves(*pos, right, from as int, to as int, rook as int, rook_dest as int, far as int),
{
    let side = pos.side;
    let king = if side == WHITE { WK } else { BK };
    let own_rook = if side == WHITE { WR } else { BR };
    if pos.castle_perm & right != 0 && pos.pieces[from as usize] == king && pos.pieces[rook as usize] == own_rook
        && squares_are_empty(pos, rook_dest, to, far)
        && !squares_are_attacked(pos, from, rook_dest, to, side ^ 1) {
        assert(rook_from(to as int) == rook as int && rook_to(to as int) == rook_dest as int);
        add_quiet_move(pos, GameMove::new(from, to, EMPTY, EMPTY, MFLAG_CA), list);
    } else {
        assert(list@ =~= old(list)@ + castle_moves(*pos, right, from as int, to as int, rook as int, rook_dest as int, far as int));
    }
}

/// All pseudo-legal moves of the side to move, appended in generation order: pawns, castles,
/// bishops, rooks, queens, knights, king. Each is a move `make_move` accepts as input.
pub fn generate_all_moves(pos: &Board, list: &mut Vec<GameMove>)
    requires
        gen_ok(pos),
    ensures
        extends_ok(pos@, old(list)@, final(list)@),
        final(list)@ == old(list)@ + all_moves(*pos),
{
    let ghost l0 = list@;
    if pos.side == WHITE {
        generate_wp_moves(pos, list);
        let ghost l1 = list@;
        generate_castle_move(pos, WK_CASTLE, 25, 27, 28, 26, 27, list);
        let ghost l2 = list@;
        generate_castle_move(pos, WQ_CASTLE, 25, 23, 21, 24, 22, list);
        let ghost l3 = list@;
        generate_sliding_moves(pos, list, WHITE);
        let ghost l4 = list@;
        generate_nonsliding_moves(pos, list, WHITE);
        proof {
            lemma_extends_trans(pos@, l0, l1, l2);
            lemma_extends_trans(pos@, l0, l2, l3);
            lemma_extends_trans(pos@, l0, l3, l4);
            lemma_extends_trans(pos@, l0, l4, list@);
            assert(list@ =~= l0 + all_moves(*pos));
        }
    } else {
        generate_bp_moves(pos, list);
        let ghost l1 = list@;
        generate_castle_move(pos, BK_CASTLE, 95, 97, 98, 96, 97, list);
        let ghost l2 = list@;
        generate_castle_move(pos, BQ_CASTLE, 95, 93, 91, 94, 92, list);
        let ghost l3 = list@;
        generate_sliding_moves(pos, list, BLACK);
        let ghost l4 = list@;
        generate_nonsliding_moves(pos, list, BLACK);
        proof {
            lemma_extends_trans(pos@, l0, l1, l2);
            lemma_extends_trans(pos@, l0, l2, l3);
            lemma_extends_trans(pos@, l0, l3, l4);
            lemma_extends_trans(pos@, l0, l4, list@);
            assert(list@ =~= l0 + all_moves(*pos));
        }
    }
}

} // verus!

verus! {

/// Whether `make_move` accepts `m` as input in the current position (`move_ok`).
pub fn is_move_valid(pos: &Board, m: GameMove) -> (r: bool)
    requires
        gen_ok(pos),
    ensures
        r == move_ok(pos@, m),
{
    let side = pos.side;
    let from = m.origin();
    let to = m.destination();
    let cap = m.capture();
    let prom = m.promoted_piece();
    let ep = m.is_en_passant();
    let castle = m.is_castle_move();
    let ps = m.pawn_start();
    if !is_sq_on_board(from) || !is_sq_on_board(to) || from == to {
        return false;
    }
    let p = pos.pieces[from as usize];
    if !(p >= 1 && p <= 12) || piece_color(p) != side {
        return false;
    }
    let pawn = p == WP || p == BP;
    if prom != EMPTY {
        let pk = if prom > 6 { prom - 6 } else { prom };
        if !pawn || !(prom >= 1 && prom <= 12) || piece_color(prom) != side || pk < 2 || pk > 5 {
            return false;
        }
    }
    if ps {
        let dest: i16 = if side == WHITE { from as i16 + 20 } else { from as i16 - 20 };
        if !pawn || ep || castle || to as i16 != dest {
            return false;
        }
    }
    let target = pos.pieces[to as usize];
    if ep {
        let victim = if side == WHITE { to - 10 } else { to + 10 };
        let their_pawn = if side == WHITE { BP } else { WP };
        assert(their_pawn == piece_of(1, (1 - side) as u8));
        pawn && !castle && target == EMPTY && cap == EMPTY && prom == EMPTY && pos.pieces[victim as usize] == their_pawn
    } else if castle {
        let king = if side == WHITE { WK } else { BK };
        let rook = if side == WHITE { WR } else { BR };
        let squares_ok = if side == WHITE { from == 25 && (to == 27 || to == 23) } else { from == 95 && (to == 97 || to == 93) };
        if !(p == king && cap == EMPTY && prom == EMPTY && squares_ok) {
            return false;
        }
        let (rf, rt): (u8, u8) = if to == 23 { (21, 24) } else if to == 27 { (28, 26) } else if to == 93 { (91, 94) } else { (98, 96) };
        assert(rf as int == rook_from(to as int) && rt as int == rook_to(to as int));
        pos.pieces[rf as usize] == rook && pos.pieces[rt as usize] == EMPTY && target == EMPTY
    } else {
        cap == target && (target == EMPTY || (target >= 1 && target <= 12 && piece_color(target) != side))
    }
}

} // verus!
