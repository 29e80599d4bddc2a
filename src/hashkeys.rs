//! Position fingerprints: XOR of random keys for each (piece, square), the side to move, the
//! en-passant square and the castling rights.
use vstd::prelude::*;
use crate::pieces::{is_piece, WHITE};
use crate::squares::NO_SQ;

verus! {

/// Relies on rand::random (rand 0.8): a value drawn from the thread-local generator. Nothing is
/// promised of the value.
pub assume_specification<T>[ rand::random::<T> ]() -> (r: T)
    where
        rand::distributions::Standard: rand::distributions::Distribution<T>,
;

/// The random keys. `piece_keys[EMPTY]` is used for the en-passant square.
#[derive(Debug, Copy, Clone)]
pub struct BoardHasher {
    pub piece_keys: [[u64; 128]; 13],
    pub side_key: u64,
    pub castle_keys: [u64; 16],
}

/// Key contributed by cell `i`: its piece's key on that square, nothing for an empty or
/// padding cell.
pub open spec fn cell_key(h: BoardHasher, c: Seq<u8>, i: int) -> u64 {
    if is_piece(c[i]) {
        h.piece_keys[c[i] as int][i]
    } else {
        0
    }
}

/// XOR of the keys of the first `n` cells.
pub open spec fn pieces_fold(h: BoardHasher, c: Seq<u8>, n: nat) -> u64
    decreases n,
{
    if n == 0 {
        0
    } else {
        pieces_fold(h, c, (n - 1) as nat) ^ cell_key(h, c, n - 1)
    }
}

/// Key of the side to move: present when white is to move.
pub open spec fn side_part(h: BoardHasher, side: u8) -> u64 {
    if side == WHITE {
        h.side_key
    } else {
        0
    }
}

/// Key of the en-passant square, when there is one.
pub open spec fn ep_part(h: BoardHasher, ep: u8) -> u64 {
    if ep != NO_SQ {
        h.piece_keys[0][ep as int]
    } else {
        0
    }
}

/// The fingerprint of a position computed from scratch.
pub open spec fn key_of(h: BoardHasher, c: Seq<u8>, side: u8, ep: u8, castle: u8) -> u64 {
    pieces_fold(h, c, 120) ^ side_part(h, side) ^ ep_part(h, ep) ^ h.castle_keys[castle as int]
}

/// Changing one cell changes the fold by the old and the new key of that cell.
pub proof fn lemma_fold_update(h: BoardHasher, c: Seq<u8>, i: int, v: u8, n: nat)
    requires
        0 <= i < c.len(),
        n <= c.len(),
    ensures
        pieces_fold(h, c.update(i, v), n) == if i < n {
            pieces_fold(h, c, n) ^ (cell_key(h, c, i) ^ cell_key(h, c.update(i, v), i))
        } else {
            pieces_fold(h, c, n)
        },
    decreases n,
{
    let c2 = c.update(i, v);
    if n > 0 {
        let m = (n - 1) as nat;
        lemma_fold_update(h, c, i, v, m);
        let a = pieces_fold(h, c, m);
        let b = cell_key(h, c, i);
        let d = cell_key(h, c2, i);
        if m as int == i {
            assert((a ^ b) ^ (b ^ d) == a ^ d) by (bit_vector);
        } else {
            let e = cell_key(h, c, m as int);
            assert(cell_key(h, c2, m as int) == e);
            if i < m {
                assert((a ^ (b ^ d)) ^ e == (a ^ e) ^ (b ^ d)) by (bit_vector);
            }
        }
    }
}

impl BoardHasher {
    /// Draws every key from the thread-local random generator. Like running out of memory, a
    /// failure of the operating system's entropy source makes the generator panic; nothing a
    /// caller passes can rule that out.
    pub fn new() -> (r: BoardHasher) {
        let mut piece_keys: [[u64; 128]; 13] = [[0u64; 128]; 13];
        let mut p: usize = 0;
        while p < 13
            invariant
                p <= 13,
            decreases 13 - p,
        {
            let mut row: [u64; 128] = [0u64; 128];
            let mut i: usize = 0;
            while i < 128
                invariant
                    i <= 128,
                decreases 128 - i,
            {
                row[i] = rand::random::<u64>();
                i += 1;
            }
            piece_keys[p] = row;
            p += 1;
        }
        let side_key: u64 = rand::random::<u64>();
        let mut castle_keys: [u64; 16] = [0u64; 16];
        let mut i: usize = 0;
        while i < 16
            invariant
                i <= 16,
            decreases 16 - i,
        {
            castle_keys[i] = rand::random::<u64>();
            i += 1;
        }
        BoardHasher { piece_keys, side_key, castle_keys }
    }

    /// A hasher with the given keys, for reproducible fingerprints.
    pub fn seed(piece_keys: [[u64; 128]; 13], side_key: u64, castle_keys: [u64; 16]) -> (r:
        BoardHasher)
        ensures
            r.piece_keys == piece_keys,
            r.side_key == side_key,
            r.castle_keys == castle_keys,
    {
        BoardHasher { piece_keys, side_key, castle_keys }
    }

    /// Computes the fingerprint of a position from scratch.
    pub fn generate_key(&self, pieces: &[u8; 120], side: u8, en_passant: u8, castle_perm: u8) -> (r:
        u64)
        requires
            en_passant == NO_SQ || en_passant < 120,
            castle_perm <= 15,
        ensures
            r == key_of(*self, pieces@, side, en_passant, castle_perm),
    {
        let mut final_key: u64 = 0;
        let mut sq: usize = 0;
        while sq < 120
            invariant
                sq <= 120,
                final_key == pieces_fold(*self, pieces@, sq as nat),
            decreases 120 - sq,
        {
            let piece = pieces[sq];
            if piece >= 1 && piece <= 12 {
                final_key = final_key ^ self.piece_keys[piece as usize][sq];
            } else {
                assert(final_key ^ 0u64 == final_key) by (bit_vector);
            }
            sq += 1;
        }
        if side == WHITE {
            final_key = final_key ^ self.side_key;
        } else {
            assert(final_key ^ 0u64 == final_key) by (bit_vector);
        }
        if en_passant != NO_SQ {
            final_key = final_key ^ self.piece_keys[0][en_passant as usize];
        } else {
            assert(final_key ^ 0u64 == final_key) by (bit_vector);
        }
        final_key = final_key ^ self.castle_keys[castle_perm as usize];
        final_key
    }
}

} // verus!
