//! A 64-bit occupancy mask, one bit per dense square.
use vstd::prelude::*;

verus! {

/// Whether bit `k` of `x` is set.
pub open spec fn bit_set(x: u64, k: u64) -> bool {
    (x >> k) & 1 == 1
}

/// Number of set bits of `x` among the bits below `k`.
pub open spec fn ones_below(x: u64, k: nat) -> nat
    decreases k,
{
    if k == 0 {
        0
    } else {
        ones_below(x, (k - 1) as nat) + if bit_set(x, (k - 1) as u64) {
            1nat
        } else {
            0nat
        }
    }
}

pub proof fn lemma_bit_or(x: u64, j: u64, k: u64)
    requires
        j < 64,
        k < 64,
    ensures
        bit_set(x | (1u64 << j), k) == (k == j || bit_set(x, k)),
{
    assert(((x | (1u64 << j)) >> k) & 1 == 1 <==> (k == j || (x >> k) & 1 == 1)) by (bit_vector)
        requires
            j < 64,
            k < 64,
    ;
}

pub proof fn lemma_bit_and_not(x: u64, j: u64, k: u64)
    requires
        j < 64,
        k < 64,
    ensures
        bit_set(x & !(1u64 << j), k) == (k != j && bit_set(x, k)),
{
    assert(((x & !(1u64 << j)) >> k) & 1 == 1 <==> (k != j && (x >> k) & 1 == 1)) by (bit_vector)
        requires
            j < 64,
            k < 64,
    ;
}

/// A mask is determined by its 64 bits.
pub proof fn lemma_bits_determine(x: u64, y: u64)
    requires
        forall|k: u64| k < 64 ==> #[trigger] bit_set(x, k) == bit_set(y, k),
    ensures
        x == y,
{
    assert forall|k: u64| k < 64 implies #[trigger] ((x >> k) & 1) == ((y >> k) & 1) by {
        assert(bit_set(x, k) == bit_set(y, k));
        assert((x >> k) & 1 == 0 || (x >> k) & 1 == 1) by (bit_vector);
        assert((y >> k) & 1 == 0 || (y >> k) & 1 == 1) by (bit_vector);
    }
    assert((x >> 0u64) & 1 == (y >> 0u64) & 1);
    assert((x >> 1u64) & 1 == (y >> 1u64) & 1);
    assert((x >> 2u64) & 1 == (y >> 2u64) & 1);
    assert((x >> 3u64) & 1 == (y >> 3u64) & 1);
    assert((x >> 4u64) & 1 == (y >> 4u64) & 1);
    assert((x >> 5u64) & 1 == (y >> 5u64) & 1);
    assert((x >> 6u64) & 1 == (y >> 6u64) & 1);
    assert((x >> 7u64) & 1 == (y >> 7u64) & 1);
    assert((x >> 8u64) & 1 == (y >> 8u64) & 1);
    assert((x >> 9u64) & 1 == (y >> 9u64) & 1);
    assert((x >> 10u64) & 1 == (y >> 10u64) & 1);
    assert((x >> 11u64) & 1 == (y >> 11u64) & 1);
    assert((x >> 12u64) & 1 == (y >> 12u64) & 1);
    assert((x >> 13u64) & 1 == (y >> 13u64) & 1);
    assert((x >> 14u64) & 1 == (y >> 14u64) & 1);
    assert((x >> 15u64) & 1 == (y >> 15u64) & 1);
    assert((x >> 16u64) & 1 == (y >> 16u64) & 1);
    assert((x >> 17u64) & 1 == (y >> 17u64) & 1);
    assert((x >> 18u64) & 1 == (y >> 18u64) & 1);
    assert((x >> 19u64) & 1 == (y >> 19u64) & 1);
    assert((x >> 20u64) & 1 == (y >> 20u64) & 1);
    assert((x >> 21u64) & 1 == (y >> 21u64) & 1);
    assert((x >> 22u64) & 1 == (y >> 22u64) & 1);
    assert((x >> 23u64) & 1 == (y >> 23u64) & 1);
    assert((x >> 24u64) & 1 == (y >> 24u64) & 1);
    assert((x >> 25u64) & 1 == (y >> 25u64) & 1);
    assert((x >> 26u64) & 1 == (y >> 26u64) & 1);
    assert((x >> 27u64) & 1 == (y >> 27u64) & 1);
    assert((x >> 28u64) & 1 == (y >> 28u64) & 1);
    assert((x >> 29u64) & 1 == (y >> 29u64) & 1);
    assert((x >> 30u64) & 1 == (y >> 30u64) & 1);
    assert((x >> 31u64) & 1 == (y >> 31u64) & 1);
    assert((x >> 32u64) & 1 == (y >> 32u64) & 1);
    assert((x >> 33u64) & 1 == (y >> 33u64) & 1);
    assert((x >> 34u64) & 1 == (y >> 34u64) & 1);
    assert((x >> 35u64) & 1 == (y >> 35u64) & 1);
    assert((x >> 36u64) & 1 == (y >> 36u64) & 1);
    assert((x >> 37u64) & 1 == (y >> 37u64) & 1);
    assert((x >> 38u64) & 1 == (y >> 38u64) & 1);
    assert((x >> 39u64) & 1 == (y >> 39u64) & 1);
    assert((x >> 40u64) & 1 == (y >> 40u64) & 1);
    assert((x >> 41u64) & 1 == (y >> 41u64) & 1);
    assert((x >> 42u64) & 1 == (y >> 42u64) & 1);
    assert((x >> 43u64) & 1 == (y >> 43u64) & 1);
    assert((x >> 44u64) & 1 == (y >> 44u64) & 1);
    assert((x >> 45u64) & 1 == (y >> 45u64) & 1);
    assert((x >> 46u64) & 1 == (y >> 46u64) & 1);
    assert((x >> 47u64) & 1 == (y >> 47u64) & 1);
    assert((x >> 48u64) & 1 == (y >> 48u64) & 1);
    assert((x >> 49u64) & 1 == (y >> 49u64) & 1);
    assert((x >> 50u64) & 1 == (y >> 50u64) & 1);
    assert((x >> 51u64) & 1 == (y >> 51u64) & 1);
    assert((x >> 52u64) & 1 == (y >> 52u64) & 1);
    assert((x >> 53u64) & 1 == (y >> 53u64) & 1);
    assert((x >> 54u64) & 1 == (y >> 54u64) & 1);
    assert((x >> 55u64) & 1 == (y >> 55u64) & 1);
    assert((x >> 56u64) & 1 == (y >> 56u64) & 1);
    assert((x >> 57u64) & 1 == (y >> 57u64) & 1);
    assert((x >> 58u64) & 1 == (y >> 58u64) & 1);
    assert((x >> 59u64) & 1 == (y >> 59u64) & 1);
    assert((x >> 60u64) & 1 == (y >> 60u64) & 1);
    assert((x >> 61u64) & 1 == (y >> 61u64) & 1);
    assert((x >> 62u64) & 1 == (y >> 62u64) & 1);
    assert((x >> 63u64) & 1 == (y >> 63u64) & 1);
    assert((x >> 0u64) & 1 == (y >> 0u64) & 1 && (x >> 1u64) & 1 == (y >> 1u64) & 1 && (x >> 2u64) & 1 == (y >> 2u64) & 1 && (x >> 3u64) & 1 == (y >> 3u64) & 1 && (x >> 4u64) & 1 == (y >> 4u64) & 1 && (x >> 5u64) & 1 == (y >> 5u64) & 1 && (x >> 6u64) & 1 == (y >> 6u64) & 1 && (x >> 7u64) & 1 == (y >> 7u64) & 1 && (x >> 8u64) & 1 == (y >> 8u64) & 1 && (x >> 9u64) & 1 == (y >> 9u64) & 1 && (x >> 10u64) & 1 == (y >> 10u64) & 1 && (x >> 11u64) & 1 == (y >> 11u64) & 1 && (x >> 12u64) & 1 == (y >> 12u64) & 1 && (x >> 13u64) & 1 == (y >> 13u64) & 1 && (x >> 14u64) & 1 == (y >> 14u64) & 1 && (x >> 15u64) & 1 == (y >> 15u64) & 1 && (x >> 16u64) & 1 == (y >> 16u64) & 1 && (x >> 17u64) & 1 == (y >> 17u64) & 1 && (x >> 18u64) & 1 == (y >> 18u64) & 1 && (x >> 19u64) & 1 == (y >> 19u64) & 1 && (x >> 20u64) & 1 == (y >> 20u64) & 1 && (x >> 21u64) & 1 == (y >> 21u64) & 1 && (x >> 22u64) & 1 == (y >> 22u64) & 1 && (x >> 23u64) & 1 == (y >> 23u64) & 1 && (x >> 24u64) & 1 == (y >> 24u64) & 1 && (x >> 25u64) & 1 == (y >> 25u64) & 1 && (x >> 26u64) & 1 == (y >> 26u64) & 1 && (x >> 27u64) & 1 == (y >> 27u64) & 1 && (x >> 28u64) & 1 == (y >> 28u64) & 1 && (x >> 29u64) & 1 == (y >> 29u64) & 1 && (x >> 30u64) & 1 == (y >> 30u64) & 1 && (x >> 31u64) & 1 == (y >> 31u64) & 1 && (x >> 32u64) & 1 == (y >> 32u64) & 1 && (x >> 33u64) & 1 == (y >> 33u64) & 1 && (x >> 34u64) & 1 == (y >> 34u64) & 1 && (x >> 35u64) & 1 == (y >> 35u64) & 1 && (x >> 36u64) & 1 == (y >> 36u64) & 1 && (x >> 37u64) & 1 == (y >> 37u64) & 1 && (x >> 38u64) & 1 == (y >> 38u64) & 1 && (x >> 39u64) & 1 == (y >> 39u64) & 1 && (x >> 40u64) & 1 == (y >> 40u64) & 1 && (x >> 41u64) & 1 == (y >> 41u64) & 1 && (x >> 42u64) & 1 == (y >> 42u64) & 1 && (x >> 43u64) & 1 == (y >> 43u64) & 1 && (x >> 44u64) & 1 == (y >> 44u64) & 1 && (x >> 45u64) & 1 == (y >> 45u64) & 1 && (x >> 46u64) & 1 == (y >> 46u64) & 1 && (x >> 47u64) & 1 == (y >> 47u64) & 1 && (x >> 48u64) & 1 == (y >> 48u64) & 1 && (x >> 49u64) & 1 == (y >> 49u64) & 1 && (x >> 50u64) & 1 == (y >> 50u64) & 1 && (x >> 51u64) & 1 == (y >> 51u64) & 1 && (x >> 52u64) & 1 == (y >> 52u64) & 1 && (x >> 53u64) & 1 == (y >> 53u64) & 1 && (x >> 54u64) & 1 == (y >> 54u64) & 1 && (x >> 55u64) & 1 == (y >> 55u64) & 1 && (x >> 56u64) & 1 == (y >> 56u64) & 1 && (x >> 57u64) & 1 == (y >> 57u64) & 1 && (x >> 58u64) & 1 == (y >> 58u64) & 1 && (x >> 59u64) & 1 == (y >> 59u64) & 1 && (x >> 60u64) & 1 == (y >> 60u64) & 1 && (x >> 61u64) & 1 == (y >> 61u64) & 1 && (x >> 62u64) & 1 == (y >> 62u64) & 1 && (x >> 63u64) & 1 == (y >> 63u64) & 1 ==> x == y) by (bit_vector);
}

/// Index of the lowest set bit of a non-zero mask, in constant time.
pub fn bitscan_forward(x: u64) -> (r: u8)
    requires
        x != 0,
    ensures
        r < 64,
        bit_set(x, r as u64),
        forall|k: u64| k < r ==> !bit_set(x, k),
{
    let t = x.trailing_zeros();
    proof {
        vstd::std_specs::bits::axiom_u64_trailing_zeros(x);
        assert forall|k: u64| k < t implies !bit_set(x, k) by {
            assert((x >> k) & 1u64 == 0u64);
        }
    }
    t as u8
}

/// Bytes of text row `row` (rank `row + 1`), column `col` (file `a + col`) of a mask's grid:
/// `x` when the bit is set, `-` otherwise, then a space.
pub open spec fn mask_cell(out: Seq<u8>, board: u64, row: int, col: int) -> bool {
    let i = row * 17 + col * 2;
    &&& out[i] == if bit_set(board, (row * 8 + col) as u64) { 120u8 } else { 45u8 }
    &&& out[i + 1] == 32
}

#[derive(Debug, Copy, Clone, PartialEq, Eq, Structural)]
pub struct BitBoard {
    pub board: u64,
}

impl BitBoard {
    pub fn new(board: u64) -> (r: BitBoard)
        ensures
            r.board == board,
    {
        BitBoard { board }
    }

    pub fn reset(&mut self)
        ensures
            final(self).board == 0,
    {
        self.board = 0;
    }

    /// Sets the bit of a dense square.
    pub fn set_bit(&mut self, sq: u8)
        requires
            sq < 64,
        ensures
            final(self).board == old(self).board | (1u64 << sq as u64),
    {
        self.board = self.board | (1u64 << sq as u64);
    }

    /// Clears the bit of a dense square.
    pub fn clear_bit(&mut self, sq: u8)
        requires
            sq < 64,
        ensures
            final(self).board == old(self).board & !(1u64 << sq as u64),
    {
        self.board = self.board & !(1u64 << sq as u64);
    }

    /// Toggles the bits of two dense squares with one XOR; moves a bit when `from` is set and
    /// `to` is clear.
    pub fn move_bit(&mut self, from: u8, to: u8)
        requires
            from < 64,
            to < 64,
        ensures
            final(self).board == old(self).board ^ ((1u64 << to as u64) | (1u64 << from as u64)),
    {
        self.board = self.board ^ ((1u64 << to as u64) | (1u64 << from as u64));
    }

    /// Clears the lowest set bit and returns its index.
    pub fn pop_bit(&mut self) -> (r: u8)
        requires
            old(self).board != 0,
        ensures
            r < 64,
            bit_set(old(self).board, r as u64),
            forall|k: u64| k < r ==> !bit_set(old(self).board, k),
            final(self).board == old(self).board ^ (1u64 << r as u64),
    {
        let index = bitscan_forward(self.board);
        self.board = self.board ^ (1u64 << index as u64);
        index
    }

    /// Number of set bits.
    pub fn count_bits(&self) -> (r: u8)
        ensures
            r as nat == ones_below(self.board, 64),
    {
        let mut n: u8 = 0;
        let mut i: u64 = 0;
        while i < 64
            invariant
                i <= 64,
                n as nat == ones_below(self.board, i as nat),
                n <= i,
            decreases 64 - i,
        {
            if (self.board >> i) & 1 == 1 {
                n = n + 1;
            }
            i = i + 1;
        }
        n
    }

    /// Whether the bit of a dense square is set.
    pub fn piece_is_present(self, sq64: u8) -> (r: bool)
        requires
            sq64 < 64,
        ensures
            r == bit_set(self.board, sq64 as u64),
    {
        let b = self.board;
        let r = (1u64 << sq64 as u64) & b > 0;
        assert(((1u64 << sq64 as u64) & b > 0) == ((b >> sq64 as u64) & 1 == 1))
            by (bit_vector)
            requires
                sq64 < 64,
        ;
        r
    }

    /// The mask as text bytes: eight lines of 17 bytes, rank 1 first, files a to h, each cell
    /// `x` (bit set) or `-` followed by a space, each line ended by a newline.
    pub fn grid_chars(&self) -> (r: Vec<u8>)
        ensures
            r@.len() == 136,
            forall|row: int, col: int|
                0 <= row < 8 && 0 <= col < 8 ==> #[trigger] mask_cell(r@, self.board, row, col),
            forall|row: int| 0 <= row < 8 ==> #[trigger] r@[row * 17 + 16] == 10,
    {
        let mut out: Vec<u8> = Vec::new();
        let mut row: u64 = 0;
        while row < 8
            invariant
                row <= 8,
                out@.len() == row * 17,
                forall|r2: int, c2: int|
                    0 <= r2 < row && 0 <= c2 < 8 ==> #[trigger] mask_cell(out@, self.board, r2, c2),
                forall|r2: int| 0 <= r2 < row ==> #[trigger] out@[r2 * 17 + 16] == 10,
            decreases 8 - row,
        {
            let mut col: u64 = 0;
            while col < 8
                invariant
                    row < 8,
                    col <= 8,
                    out@.len() == row * 17 + col * 2,
                    forall|r2: int, c2: int|
                        (0 <= r2 < row && 0 <= c2 < 8) || (r2 == row && 0 <= c2 < col) ==> #[trigger] mask_cell(out@, self.board, r2, c2),
                    forall|r2: int| 0 <= r2 < row ==> #[trigger] out@[r2 * 17 + 16] == 10,
                decreases 8 - col,
            {
                let k = row * 8 + col;
                let set = (self.board >> k) & 1 == 1;
                let ghost before = out@;
                out.push(if set { 120 } else { 45 });
                out.push(32);
                proof {
                    assert forall|r2: int, c2: int|
                        (0 <= r2 < row && 0 <= c2 < 8) || (r2 == row && 0 <= c2 < col + 1) implies #[trigger] mask_cell(out@, self.board, r2, c2) by {
                        if !(r2 == row && c2 == col) {
                            assert(r2 * 17 + c2 * 2 + 1 < row * 17 + col * 2) by (nonlinear_arith)
                                requires
                                    (0 <= r2 < row && 0 <= c2 < 8) || (r2 == row && 0 <= c2 < col),
                                    col < 8,
                            ;
                            assert(mask_cell(before, self.board, r2, c2));
                        }
                    }
                    assert forall|r2: int| 0 <= r2 < row implies #[trigger] out@[r2 * 17 + 16] == 10 by {
                        assert(r2 * 17 + 16 < row * 17) by (nonlinear_arith)
                            requires
                                0 <= r2 < row,
                        ;
                        assert(before[r2 * 17 + 16] == 10);
                    }
                }
                col += 1;
            }
            let ghost before = out@;
            out.push(10);
            proof {
                assert forall|r2: int, c2: int|
                    0 <= r2 < row + 1 && 0 <= c2 < 8 implies #[trigger] mask_cell(out@, self.board, r2, c2) by {
                    assert(mask_cell(before, self.board, r2, c2));
                    assert(r2 * 17 + c2 * 2 + 1 < row * 17 + 16) by (nonlinear_arith)
                        requires
                            0 <= r2 < row + 1,
                            0 <= c2 < 8,
                    ;
                }
                assert forall|r2: int| 0 <= r2 < row + 1 implies #[trigger] out@[r2 * 17 + 16] == 10 by {
                    if r2 < row {
                        assert(r2 * 17 + 16 < row * 17) by (nonlinear_arith)
                            requires
                                0 <= r2 < row,
                        ;
                        assert(before[r2 * 17 + 16] == 10);
                    }
                }
            }
            row += 1;
        }
        out
    }
}

} // verus!
