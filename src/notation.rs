//! Move text such as `e2e4` or `e7e8q`, resolved against the generated moves.
use vstd::prelude::*;
use vstd::string::StringSliceAdditionalSpecFns;
use crate::board::Board;
use crate::gamemove::GameMove;
use crate::movegen::{all_moves, extends_ok, generate_all_moves};
use crate::pieces::{kind, piece_color, spec_color, EMPTY};
use crate::position::move_ok;
use crate::squares::{fr2sq, spec_fr2sq};

verus! {

/// The move text was refused.
#[derive(Debug, Clone, Copy, PartialEq, Eq)]
pub struct ParseMoveError;

/// A file letter `a`-`h`.
pub open spec fn is_file_byte(c: u8) -> bool {
    97 <= c <= 104
}

/// A rank digit `1`-`8`.
pub open spec fn is_rank_byte(c: u8) -> bool {
    49 <= c <= 56
}

/// Text that starts with two squares.
pub open spec fn move_text_ok(t: Seq<u8>) -> bool {
    t.len() >= 4 && is_file_byte(t[0]) && is_rank_byte(t[1]) && is_file_byte(t[2]) && is_rank_byte(t[3])
}

/// Padded-board index named by a file letter and a rank digit.
pub open spec fn square_of(f: u8, r: u8) -> int {
    spec_fr2sq(f - 97, r - 49)
}

/// Whether the text starts with two squares (file letter and rank digit each).
pub fn text_is_correct_format(text: &str) -> (r: bool)
    ensures
        r == move_text_ok(text.spec_bytes()),
{
    let b = text.as_bytes();
    b.len() >= 4 && b[0] >= 97 && b[0] <= 104 && b[1] >= 49 && b[1] <= 56 && b[2] >= 97 && b[2] <= 104
        && b[3] >= 49 && b[3] <= 56
}

/// Padded-board index of a file letter and a rank digit.
fn get_square(f: u8, r: u8) -> (s: u8)
    requires
        is_file_byte(f),
        is_rank_byte(r),
    ensures
        s as int == square_of(f, r),
{
    fr2sq(f - 97, r - 49)
}

/// Reads origin, destination and promotion letter (`-` when absent) from move text; refused
/// when the text does not start with two squares or the origin holds no piece of the side to
/// move.
pub fn validate_move(pos: &Board, text: &str) -> (r: Result<(u8, u8, char), ParseMoveError>)
    requires
        pos.wf(),
    ensures
        ({
            let t = text.spec_bytes();
            match r {
                Ok((from, to, p)) => move_text_ok(t) && from as int == square_of(t[0], t[1]) && to as int
                    == square_of(t[2], t[3]) && spec_color(pos.pieces[from as int]) == pos.side && p == if t.len() > 4
                    && t[4] < 128 {
                    t[4] as char
                } else {
                    '-'
                },
                Err(_) => !move_text_ok(t) || spec_color(pos.pieces[square_of(t[0], t[1])]) != pos.side,
            }
        }),
{
    if !text_is_correct_format(text) {
        return Err(ParseMoveError);
    }
    let b = text.as_bytes();
    let from = get_square(b[0], b[1]);
    if piece_color(pos.pieces[from as usize]) != pos.side {
        return Err(ParseMoveError);
    }
    let to = get_square(b[2], b[3]);
    let prom_char = if b.len() > 4 && b[4] < 128 { b[4] as char } else { '-' };
    Ok((from, to, prom_char))
}

/// The promotion letter of a piece kind (queen `q`, rook `r`, bishop `b`, knight `n`).
pub open spec fn promotion_letter(k: u8) -> char {
    if k == 5 { 'q' } else if k == 4 { 'r' } else if k == 3 { 'b' } else { 'n' }
}

/// Whether a generated move answers the text: same squares, and for a promotion the letter
/// asked for (a queen when no letter is given).
pub open spec fn answers(m: GameMove, from: u8, to: u8, prom_char: char) -> bool {
    m.spec_origin() == from && m.spec_destination() == to && (m.spec_promoted() == EMPTY
        || promotion_letter(kind(m.spec_promoted())) == prom_char || (kind(m.spec_promoted()) == 5
        && prom_char != 'r' && prom_char != 'b' && prom_char != 'n'))
}

/// The first generated move of the side to move that answers the text, if any.
pub fn parse_move(pos: &Board, from: u8, to: u8, prom_char: char) -> (r: Option<GameMove>)
    requires
        pos.wf(),
        pos.side <= 1,
    ensures
        r matches Some(m) ==> move_ok(pos@, m) && exists|i: int|
            0 <= i < all_moves(*pos).len() && all_moves(*pos)[i] == m && answers(m, from, to, prom_char)
                && forall|j: int| 0 <= j < i ==> !answers(#[trigger] all_moves(*pos)[j], from, to, prom_char),
        r is None ==> forall|i: int|
            0 <= i < all_moves(*pos).len() ==> !answers(#[trigger] all_moves(*pos)[i], from, to, prom_char),
{
    let mut list: Vec<GameMove> = Vec::new();
    generate_all_moves(pos, &mut list);
    let mut i: usize = 0;
    assert(list@ =~= all_moves(*pos));
    while i < list.len()
        invariant
            i <= list@.len(),
            extends_ok(pos@, Seq::<GameMove>::empty(), list@),
            list@ == all_moves(*pos),
            forall|j: int| 0 <= j < i ==> !answers(#[trigger] list@[j], from, to, prom_char),
        decreases list@.len() - i,
    {
        let mov = list[i];
        assert(move_ok(pos@, list@[i as int]));
        if mov.origin() == from && mov.destination() == to {
            let prom = mov.promoted_piece();
            if prom == EMPTY {
                return Some(mov);
            }
            let k = if prom > 6 { prom - 6 } else { prom };
            let letter = if k == 5 { 'q' } else if k == 4 { 'r' } else if k == 3 { 'b' } else { 'n' };
            if letter == prom_char || (k == 5 && prom_char != 'r' && prom_char != 'b' && prom_char != 'n') {
                return Some(mov);
            }
        }
        i += 1;
    }
    None
}

} // verus!
