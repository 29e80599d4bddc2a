//! Piece codes, their colours, material values, classes and movement offsets.
use vstd::prelude::*;

verus! {

pub const WHITE: u8 = 0;
pub const BLACK: u8 = 1;
pub const BOTH: u8 = 2;
pub const EMPTY: u8 = 0;

pub const WP: u8 = 1;
pub const WN: u8 = 2;
pub const WB: u8 = 3;
pub const WR: u8 = 4;
pub const WQ: u8 = 5;
pub const WK: u8 = 6;
pub const BP: u8 = 7;
pub const BN: u8 = 8;
pub const BB: u8 = 9;
pub const BR: u8 = 10;
pub const BQ: u8 = 11;
pub const BK: u8 = 12;

pub const WHITE_S: usize = 0;
pub const BLACK_S: usize = 1;
pub const BOTH_S: usize = 2;

/// Castling-right bits: white king side, white queen side, black king side, black queen side.
pub const WK_CASTLE: u8 = 1;
pub const WQ_CASTLE: u8 = 2;
pub const BK_CASTLE: u8 = 4;
pub const BQ_CASTLE: u8 = 8;

/// A code of one of the twelve pieces (not the empty code).
pub open spec fn is_piece(p: u8) -> bool {
    1 <= p <= 12
}

/// Colour of a piece: `WHITE`, `BLACK`, or `BOTH` for the empty code.
pub open spec fn spec_color(p: u8) -> u8 {
    if p == 0 {
        BOTH
    } else if p <= 6 {
        WHITE
    } else {
        BLACK
    }
}

/// Kind of a piece, 1 (pawn) to 6 (king), 0 for the empty code.
pub open spec fn kind(p: u8) -> u8 {
    if 1 <= p <= 6 {
        p
    } else if 7 <= p <= 12 {
        (p - 6) as u8
    } else {
        0
    }
}

/// The piece of a kind (1 to 6) and colour.
pub open spec fn piece_of(k: u8, c: u8) -> u8 {
    if c == WHITE {
        k
    } else {
        (k + 6) as u8
    }
}

pub open spec fn spec_value(p: u8) -> u32 {
    if kind(p) == 1 {
        100
    } else if kind(p) == 2 || kind(p) == 3 {
        325
    } else if kind(p) == 4 {
        550
    } else if kind(p) == 5 {
        1000
    } else if kind(p) == 6 {
        50000
    } else {
        0
    }
}

/// Every piece but the pawns.
pub open spec fn spec_big(p: u8) -> bool {
    is_piece(p) && kind(p) != 1
}

/// Rooks, queens and kings.
pub open spec fn spec_major(p: u8) -> bool {
    is_piece(p) && kind(p) >= 4
}

/// Knights and bishops.
pub open spec fn spec_minor(p: u8) -> bool {
    kind(p) == 2 || kind(p) == 3
}

/// Material value of a piece; zero for the empty code.
pub fn piece_value(p: u8) -> (r: u32)
    requires
        p <= 12,
    ensures
        r == spec_value(p),
{
    let k = if p > 6 { p - 6 } else { p };
    if k == 1 {
        100
    } else if k == 2 || k == 3 {
        325
    } else if k == 4 {
        550
    } else if k == 5 {
        1000
    } else if k == 6 {
        50000
    } else {
        0
    }
}

/// Colour of a piece code; `BOTH` for the empty code.
pub fn piece_color(p: u8) -> (r: u8)
    requires
        p <= 12,
    ensures
        r == spec_color(p),
{
    if p == 0 {
        BOTH
    } else if p <= 6 {
        WHITE
    } else {
        BLACK
    }
}

pub fn is_big_piece(p: u8) -> (r: bool)
    ensures
        r == spec_big(p),
{
    p >= 1 && p <= 12 && p != WP && p != BP
}

pub fn is_major_piece(p: u8) -> (r: bool)
    ensures
        r == spec_major(p),
{
    (p >= WR && p <= WK) || (p >= BR && p <= BK)
}

pub fn is_minor_piece(p: u8) -> (r: bool)
    ensures
        r == spec_minor(p),
{
    p == WN || p == WB || p == BN || p == BB
}

pub fn piece_is_pawn(p: u8) -> (r: bool)
    ensures
        r == (kind(p) == 1),
{
    p == WP || p == BP
}

pub fn piece_is_knight(p: u8) -> (r: bool)
    ensures
        r == (kind(p) == 2),
{
    p == WN || p == BN
}

pub fn piece_is_king(p: u8) -> (r: bool)
    ensures
        r == (kind(p) == 6),
{
    p == WK || p == BK
}

pub fn is_knight(p: u8) -> (r: bool)
    ensures
        r == (kind(p) == 2),
{
    piece_is_knight(p)
}

pub fn is_king(p: u8) -> (r: bool)
    ensures
        r == (kind(p) == 6),
{
    piece_is_king(p)
}

pub fn is_queen(p: u8) -> (r: bool)
    ensures
        r == (kind(p) == 5),
{
    p == WQ || p == BQ
}

pub fn is_bishop_or_queen(p: u8) -> (r: bool)
    ensures
        r == (kind(p) == 3 || kind(p) == 5),
{
    p == WB || p == BB || p == WQ || p == BQ
}

pub fn is_rook_or_queen(p: u8) -> (r: bool)
    ensures
        r == (kind(p) == 4 || kind(p) == 5),
{
    p == WR || p == BR || p == WQ || p == BQ
}

/// Bishops, rooks and queens.
pub fn piece_slides(p: u8) -> (r: bool)
    ensures
        r == (kind(p) == 3 || kind(p) == 4 || kind(p) == 5),
{
    is_bishop_or_queen(p) || p == WR || p == BR
}

/// Whether a piece code has the given colour (the empty code has colour `BOTH`).
pub fn is_same_color(p: u8, color: u8) -> (r: bool)
    requires
        p <= 12,
    ensures
        r == (spec_color(p) == color),
{
    piece_color(p) == color
}

/// Whether a piece code has the colour opposite to `color`.
pub fn opposite_color(p: u8, color: u8) -> (r: bool)
    requires
        p <= 12,
    ensures
        r == (spec_color(p) as int == (color ^ 1u8) as int),
{
    piece_color(p) == color ^ 1
}

/// A white piece; false for the empty code and the padding sentinel.
pub fn is_white(p: u8) -> (r: bool)
    ensures
        r == (1 <= p <= 6),
{
    p >= WP && p <= WK
}

/// A black piece; false for the empty code and the padding sentinel.
pub fn is_black(p: u8) -> (r: bool)
    ensures
        r == (7 <= p <= 12),
{
    p >= BP && p <= BK
}

/// Knight offsets on the padded board.
pub open spec fn knight_dir(i: int) -> int {
    if i == 0 { -8 } else if i == 1 { -19 } else if i == 2 { -21 } else if i == 3 { -12 }
    else if i == 4 { 8 } else if i == 5 { 19 } else if i == 6 { 21 } else { 12 }
}

/// Orthogonal offsets.
pub open spec fn rook_dir(i: int) -> int {
    if i == 0 { -1 } else if i == 1 { -10 } else if i == 2 { 1 } else { 10 }
}

/// Diagonal offsets.
pub open spec fn bishop_dir(i: int) -> int {
    if i == 0 { -9 } else if i == 1 { -11 } else if i == 2 { 11 } else { 9 }
}

/// King (and queen) offsets: the orthogonal ones, then the diagonal ones.
pub open spec fn king_dir(i: int) -> int {
    if i < 4 { rook_dir(i) } else { bishop_dir(i - 4) }
}

/// Number of movement directions of a piece.
pub open spec fn spec_num_dir(p: u8) -> int {
    if kind(p) == 2 || kind(p) == 5 || kind(p) == 6 { 8 }
    else if kind(p) == 3 || kind(p) == 4 { 4 }
    else { 0 }
}

/// The `i`-th movement offset of a piece.
pub open spec fn spec_dir(p: u8, i: int) -> int {
    if kind(p) == 2 { knight_dir(i) }
    else if kind(p) == 3 { bishop_dir(i) }
    else if kind(p) == 4 { rook_dir(i) }
    else { king_dir(i) }
}

pub fn knight_offset(i: usize) -> (r: i8)
    requires
        i < 8,
    ensures
        r as int == knight_dir(i as int),
{
    if i == 0 { -8 } else if i == 1 { -19 } else if i == 2 { -21 } else if i == 3 { -12 }
    else if i == 4 { 8 } else if i == 5 { 19 } else if i == 6 { 21 } else { 12 }
}

pub fn rook_offset(i: usize) -> (r: i8)
    requires
        i < 4,
    ensures
        r as int == rook_dir(i as int),
{
    if i == 0 { -1 } else if i == 1 { -10 } else if i == 2 { 1 } else { 10 }
}

pub fn bishop_offset(i: usize) -> (r: i8)
    requires
        i < 4,
    ensures
        r as int == bishop_dir(i as int),
{
    if i == 0 { -9 } else if i == 1 { -11 } else if i == 2 { 11 } else { 9 }
}

pub fn king_offset(i: usize) -> (r: i8)
    requires
        i < 8,
    ensures
        r as int == king_dir(i as int),
{
    if i < 4 { rook_offset(i) } else { bishop_offset(i - 4) }
}

/// Number of movement directions of a piece.
pub fn num_dir(p: u8) -> (r: usize)
    ensures
        r as int == spec_num_dir(p),
{
    let k = if p >= 7 && p <= 12 { p - 6 } else if p <= 6 { p } else { 0 };
    if k == 2 || k == 5 || k == 6 { 8 } else if k == 3 || k == 4 { 4 } else { 0 }
}

/// The `i`-th movement offset of a knight, bishop, rook, queen or king.
pub fn piece_dir(p: u8, i: usize) -> (r: i8)
    requires
        (i as int) < spec_num_dir(p),
    ensures
        r as int == spec_dir(p, i as int),
{
    if p == WN || p == BN {
        knight_offset(i)
    } else if p == WB || p == BB {
        bishop_offset(i)
    } else if p == WR || p == BR {
        rook_offset(i)
    } else {
        king_offset(i)
    }
}

} // verus!
