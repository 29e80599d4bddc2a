//! Square numbering: a padded 10x12 board and the dense 8x8 board.
use vstd::prelude::*;

verus! {

pub const FILE_A: u8 = 0;
pub const FILE_B: u8 = 1;
pub const FILE_C: u8 = 2;
pub const FILE_D: u8 = 3;
pub const FILE_E: u8 = 4;
pub const FILE_F: u8 = 5;
pub const FILE_G: u8 = 6;
pub const FILE_H: u8 = 7;
pub const FILE_NONE: u8 = 8;

pub const RANK_1: u8 = 0;
pub const RANK_2: u8 = 1;
pub const RANK_3: u8 = 2;
pub const RANK_4: u8 = 3;
pub const RANK_5: u8 = 4;
pub const RANK_6: u8 = 5;
pub const RANK_7: u8 = 6;
pub const RANK_8: u8 = 7;
pub const RANK_NONE: u8 = 8;

/// Padded-board indices of the playable cells.
pub const A1: u8 = 21;
pub const B1: u8 = 22;
pub const C1: u8 = 23;
pub const D1: u8 = 24;
pub const E1: u8 = 25;
pub const F1: u8 = 26;
pub const G1: u8 = 27;
pub const H1: u8 = 28;
pub const A2: u8 = 31;
pub const B2: u8 = 32;
pub const C2: u8 = 33;
pub const D2: u8 = 34;
pub const E2: u8 = 35;
pub const F2: u8 = 36;
pub const G2: u8 = 37;
pub const H2: u8 = 38;
pub const A3: u8 = 41;
pub const B3: u8 = 42;
pub const C3: u8 = 43;
pub const D3: u8 = 44;
pub const E3: u8 = 45;
pub const F3: u8 = 46;
pub const G3: u8 = 47;
pub const H3: u8 = 48;
pub const A4: u8 = 51;
pub const B4: u8 = 52;
pub const C4: u8 = 53;
pub const D4: u8 = 54;
pub const E4: u8 = 55;
pub const F4: u8 = 56;
pub const G4: u8 = 57;
pub const H4: u8 = 58;
pub const A5: u8 = 61;
pub const B5: u8 = 62;
pub const C5: u8 = 63;
pub const D5: u8 = 64;
pub const E5: u8 = 65;
pub const F5: u8 = 66;
pub const G5: u8 = 67;
pub const H5: u8 = 68;
pub const A6: u8 = 71;
pub const B6: u8 = 72;
pub const C6: u8 = 73;
pub const D6: u8 = 74;
pub const E6: u8 = 75;
pub const F6: u8 = 76;
pub const G6: u8 = 77;
pub const H6: u8 = 78;
pub const A7: u8 = 81;
pub const B7: u8 = 82;
pub const C7: u8 = 83;
pub const D7: u8 = 84;
pub const E7: u8 = 85;
pub const F7: u8 = 86;
pub const G7: u8 = 87;
pub const H7: u8 = 88;
pub const A8: u8 = 91;
pub const B8: u8 = 92;
pub const C8: u8 = 93;
pub const D8: u8 = 94;
pub const E8: u8 = 95;
pub const F8: u8 = 96;
pub const G8: u8 = 97;
pub const H8: u8 = 98;

/// Marks "no en-passant square".
pub const NO_SQ: u8 = 99;
/// Sentinel held by every padding cell of the 120-cell board.
pub const OFFBOARD: u8 = 100;

/// Padded-board index of a (file, rank) pair.
pub open spec fn spec_fr2sq(file: int, rank: int) -> int {
    21 + file + 10 * rank
}

/// A padded-board index that names one of the 64 playable cells.
pub open spec fn on_board(sq: int) -> bool {
    21 <= sq <= 98 && 1 <= sq % 10 <= 8
}

/// Dense index of a playable padded-board cell.
pub open spec fn spec_sq64(sq: int) -> int {
    (sq / 10 - 2) * 8 + (sq % 10 - 1)
}

/// Padded-board index of a dense index.
pub open spec fn spec_sq120(s64: int) -> int {
    21 + s64 % 8 + 10 * (s64 / 8)
}

/// Converts a file and rank to the padded-board index.
pub fn fr2sq(file: u8, rank: u8) -> (r: u8)
    requires
        file <= 8,
        rank <= 8,
    ensures
        r as int == spec_fr2sq(file as int, rank as int),
{
    (21 + file) + (rank * 10)
}

} // verus!

verus! {

/// Whether a padded-board index names a playable cell; total over every byte.
pub fn is_sq_on_board(sq: u8) -> (r: bool)
    ensures
        r == on_board(sq as int),
{
    sq >= 21 && sq <= 98 && sq % 10 >= 1 && sq % 10 <= 8
}

/// Dense index of a playable padded-board cell.
pub fn sq120_to_64(sq: u8) -> (r: u8)
    requires
        on_board(sq as int),
    ensures
        r as int == spec_sq64(sq as int),
        r < 64,
{
    (sq / 10 - 2) * 8 + (sq % 10 - 1)
}

/// Padded-board index of a dense index.
pub fn sq64_to_120(s64: u8) -> (r: u8)
    requires
        s64 < 64,
    ensures
        r as int == spec_sq120(s64 as int),
        on_board(r as int),
{
    21 + s64 % 8 + 10 * (s64 / 8)
}

/// The two conversions are inverse to each other on the playable cells.
pub proof fn lemma_sq_roundtrip(sq: int, s64: int)
    ensures
        on_board(sq) ==> 0 <= spec_sq64(sq) < 64 && spec_sq120(spec_sq64(sq)) == sq,
        0 <= s64 < 64 ==> on_board(spec_sq120(s64)) && spec_sq64(spec_sq120(s64)) == s64,
{
}

/// Builds the table of files and the table of ranks of the 120 padded cells; padding cells
/// hold `OFFBOARD` in both.
pub fn init_file_rank_arrays() -> (r: ([u8; 120], [u8; 120]))
    ensures
        forall|i: int|
            0 <= i < 120 ==> #[trigger] r.0[i] == (if on_board(i) {
                (i % 10 - 1) as u8
            } else {
                OFFBOARD
            }),
        forall|i: int|
            0 <= i < 120 ==> #[trigger] r.1[i] == (if on_board(i) {
                (i / 10 - 2) as u8
            } else {
                OFFBOARD
            }),
{
    let mut files: [u8; 120] = [OFFBOARD; 120];
    let mut ranks: [u8; 120] = [OFFBOARD; 120];
    let mut i: usize = 0;
    while i < 120
        invariant
            i <= 120,
            forall|j: int|
                0 <= j < i ==> #[trigger] files[j] == (if on_board(j) {
                    (j % 10 - 1) as u8
                } else {
                    OFFBOARD
                }),
            forall|j: int|
                0 <= j < i ==> #[trigger] ranks[j] == (if on_board(j) {
                    (j / 10 - 2) as u8
                } else {
                    OFFBOARD
                }),
        decreases 120 - i,
    {
        let sq = i as u8;
        if is_sq_on_board(sq) {
            files[i] = sq % 10 - 1;
            ranks[i] = sq / 10 - 2;
        } else {
            files[i] = OFFBOARD;
            ranks[i] = OFFBOARD;
        }
        i += 1;
    }
    (files, ranks)
}

} // verus!
