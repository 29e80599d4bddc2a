//! A move packed into one integer: origin (bits 0-6), destination (bits 7-13), captured piece
//! (bits 14-17), en-passant flag (bit 18), pawn double-push flag (bit 19), promoted piece
//! (bits 20-23) and castle flag (bit 24).
use vstd::prelude::*;

verus! {

/// En-passant capture.
pub const MFLAG_EP: u32 = 0x40000;
/// Pawn double push.
pub const MFLAG_PS: u32 = 0x80000;
/// Castle.
pub const MFLAG_CA: u32 = 0x1000000;
/// Any capture: the captured-piece field or the en-passant flag.
pub const MFLAG_CAP: u32 = 0x7C000;
/// Promotion field.
pub const MFLAG_PROM: u32 = 0xF00000;

/// The flag values a move can be built with.
pub open spec fn valid_flag(flag: u32) -> bool {
    flag == 0 || flag == MFLAG_EP || flag == MFLAG_PS || flag == MFLAG_CA
}

/// The packed integer of a move.
pub open spec fn pack(from: u32, to: u32, cap: u32, prom: u32, flag: u32) -> u32 {
    from | (to << 7u32) | (cap << 14u32) | (prom << 20u32) | flag
}

/// A move; `score` is a ranking slot for a search and takes no part in the move itself.
#[derive(Debug, Copy, Clone, PartialEq, Eq, Structural)]
pub struct GameMove {
    pub move_int: u32,
    pub score: u8,
}

impl GameMove {
    pub open spec fn spec_origin(self) -> u8 {
        (self.move_int & 0x7F) as u8
    }

    pub open spec fn spec_destination(self) -> u8 {
        ((self.move_int >> 7u32) & 0x7F) as u8
    }

    pub open spec fn spec_capture(self) -> u8 {
        ((self.move_int >> 14u32) & 0xF) as u8
    }

    pub open spec fn spec_promoted(self) -> u8 {
        ((self.move_int >> 20u32) & 0xF) as u8
    }

    pub open spec fn spec_is_ep(self) -> bool {
        self.move_int & MFLAG_EP != 0
    }

    pub open spec fn spec_is_ps(self) -> bool {
        self.move_int & MFLAG_PS != 0
    }

    pub open spec fn spec_is_castle(self) -> bool {
        self.move_int & MFLAG_CA != 0
    }

    /// Packs a move; each field reads back as it was given.
    pub fn new(from: u8, to: u8, cap: u8, prom: u8, flag: u32) -> (r: GameMove)
        requires
            from < 128,
            to < 128,
            cap < 16,
            prom < 16,
            valid_flag(flag),
        ensures
            r.move_int == pack(from as u32, to as u32, cap as u32, prom as u32, flag),
            r.score == 0,
            r.spec_origin() == from,
            r.spec_destination() == to,
            r.spec_capture() == cap,
            r.spec_promoted() == prom,
            r.spec_is_ep() == (flag == MFLAG_EP),
            r.spec_is_ps() == (flag == MFLAG_PS),
            r.spec_is_castle() == (flag == MFLAG_CA),
    {
        let f = from as u32;
        let t = to as u32;
        let c = cap as u32;
        let p = prom as u32;
        let v = f | (t << 7u32) | (c << 14u32) | (p << 20u32) | flag;
        assert((v & 0x7F) == f && ((v >> 7u32) & 0x7F) == t && ((v >> 14u32) & 0xF) == c && ((v
            >> 20u32) & 0xF) == p && ((v & 0x40000u32 != 0) == (flag == 0x40000u32)) && ((v
            & 0x80000u32 != 0) == (flag == 0x80000u32)) && ((v & 0x1000000u32 != 0) == (flag
            == 0x1000000u32))) by (bit_vector)
            requires
                f < 128,
                t < 128,
                c < 16,
                p < 16,
                flag == 0 || flag == 0x40000u32 || flag == 0x80000u32 || flag == 0x1000000u32,
                v == f | (t << 7u32) | (c << 14u32) | (p << 20u32) | flag,
        ;
        GameMove { move_int: v, score: 0 }
    }

    pub fn origin(self) -> (r: u8)
        ensures
            r == self.spec_origin(),
            r < 128,
    {
        let v = self.move_int;
        assert(v & 0x7F < 128) by (bit_vector);
        (v & 0x7F) as u8
    }

    pub fn destination(self) -> (r: u8)
        ensures
            r == self.spec_destination(),
            r < 128,
    {
        let v = self.move_int;
        assert((v >> 7u32) & 0x7F < 128) by (bit_vector);
        ((v >> 7u32) & 0x7F) as u8
    }

    /// The captured piece, or `EMPTY`.
    pub fn capture(self) -> (r: u8)
        ensures
            r == self.spec_capture(),
            r < 16,
    {
        let v = self.move_int;
        assert((v >> 14u32) & 0xF < 16) by (bit_vector);
        ((v >> 14u32) & 0xF) as u8
    }

    /// The piece promoted to, or `EMPTY`.
    pub fn promoted_piece(self) -> (r: u8)
        ensures
            r == self.spec_promoted(),
            r < 16,
    {
        let v = self.move_int;
        assert((v >> 20u32) & 0xF < 16) by (bit_vector);
        ((v >> 20u32) & 0xF) as u8
    }

    pub fn pawn_start(&self) -> (r: bool)
        ensures
            r == self.spec_is_ps(),
    {
        self.move_int & MFLAG_PS != 0
    }

    pub fn is_pawn_start(&self) -> (r: bool)
        ensures
            r == self.spec_is_ps(),
    {
        self.move_int & MFLAG_PS != 0
    }

    pub fn is_en_passant(&self) -> (r: bool)
        ensures
            r == self.spec_is_ep(),
    {
        self.move_int & MFLAG_EP != 0
    }

    pub fn is_castle_move(&self) -> (r: bool)
        ensures
            r == self.spec_is_castle(),
    {
        self.move_int & MFLAG_CA != 0
    }
}

} // verus!
