//! Helpers for a search built on the board: repetition detection and a table of best moves.
use vstd::prelude::*;
use crate::board::Board;
use crate::gamemove::GameMove;
use crate::movegen::is_move_valid;
use crate::attack::attacked;
use crate::pieces::{BK, WHITE, WK};
use crate::hashkeys::{key_of, BoardHasher};
use crate::position::{apply, king_of, move_ok, Position};

verus! {

/// Whether the fingerprint of the current position equals one saved in the history since the
/// last capture (the entries `ply - fifty` up to, but not including, the last one).
pub fn is_repetition(pos: &Board) -> (r: bool)
    requires
        pos.wf(),
    ensures
        r == exists|i: int|
            pos.history@.len() - pos.fifty_move <= i < pos.history@.len() - 1
                && #[trigger] pos.history@[i].pos_key == pos.pos_key,
{
    let n = pos.history_len();
    if n == 0 {
        return false;
    }
    let start = n - pos.fifty_move as usize;
    let mut i: usize = start;
    while i < n - 1
        invariant
            start <= i,
            n == pos.history@.len(),
            n >= 1,
            start as int == n - pos.fifty_move,
            forall|j: int| start <= j < i ==> #[trigger] pos.history@[j].pos_key != pos.pos_key,
        decreases n - i,
    {
        if pos.history_entry(i).pos_key == pos.pos_key() {
            return true;
        }
        i += 1;
    }
    false
}

/// A best move recorded for a fingerprint.
#[derive(Debug, Clone, Copy)]
pub struct PVEntry {
    pub poskey: u64,
    pub mov: GameMove,
}

/// Best moves indexed by fingerprint modulo the table size.
#[derive(Debug, Clone)]
pub struct PVTable {
    pub ptable: Vec<PVEntry>,
}

/// Slot of a fingerprint in a table of `len` entries.
pub open spec fn slot(key: u64, len: nat) -> int {
    (key as nat % len) as int
}

fn slot_of(key: u64, len: usize) -> (r: usize)
    requires
        len > 0,
    ensures
        r as int == slot(key, len as nat),
        r < len,
{
    (key % (len as u64)) as usize
}

/// The position reached from `v` by the first `k` moves of `line`.
pub open spec fn after_moves(v: Position, line: Seq<GameMove>, k: int) -> Position
    decreases k,
{
    if k <= 0 {
        v
    } else {
        apply(after_moves(v, line, k - 1), line[k - 1])
    }
}

/// Following a line stops at `v` when the table holds no move for it, the side to move has no
/// king, the stored move is not one `make_move` takes, or making it leaves the mover's king
/// attacked.
pub open spec fn line_stops(table: Seq<PVEntry>, h: BoardHasher, v: Position) -> bool {
    let key = key_of(h, v.cells, v.side, v.ep, v.castle);
    let e = table[slot(key, table.len())];
    let ksq = if v.side == WHITE { v.white_king } else { v.black_king };
    e.poskey != key || v.cells[ksq as int] != king_of(v.side) || !move_ok(v, e.mov) || {
        let v2 = apply(v, e.mov);
        let k2 = if v.side == WHITE { v2.white_king } else { v2.black_king };
        v2.cells[k2 as int] == king_of(v.side) && attacked(v2.cells, k2 as int, v2.side)
    }
}

/// The positions along a line depend only on its moves so far.
proof fn lemma_after_moves_prefix(v: Position, a: Seq<GameMove>, b: Seq<GameMove>, k: int)
    requires
        0 <= k <= a.len(),
        k <= b.len(),
        forall|i: int| 0 <= i < k ==> #[trigger] a[i] == b[i],
    ensures
        after_moves(v, a, k) == after_moves(v, b, k),
    decreases k,
{
    if k > 0 {
        lemma_after_moves_prefix(v, a, b, k - 1);
    }
}

/// The table holds `m` for the fingerprint of `v` under keys `h`.
pub open spec fn stored_for(table: Seq<PVEntry>, h: BoardHasher, v: Position, m: GameMove) -> bool {
    let key = key_of(h, v.cells, v.side, v.ep, v.castle);
    let e = table[slot(key, table.len())];
    e.poskey == key && e.mov == m
}

impl PVTable {
    /// A table of 100000 empty entries.
    pub fn new() -> (r: PVTable)
        ensures
            r.ptable@.len() == 100000,
    {
        let empty = PVEntry { poskey: 0, mov: GameMove { move_int: 0, score: 0 } };
        let table = vec![empty; 100000];
        PVTable { ptable: table }
    }

    /// Records `mov` for the current position, replacing what its slot held.
    pub fn store(&mut self, pos: &Board, mov: GameMove)
        requires
            old(self).ptable@.len() > 0,
        ensures
            final(self).ptable@ == old(self).ptable@.update(
                slot(pos.pos_key, old(self).ptable@.len()),
                (PVEntry { poskey: pos.pos_key, mov }),
            ),
    {
        let index = slot_of(pos.pos_key(), self.ptable.len());
        self.ptable.set(index, PVEntry { poskey: pos.pos_key(), mov });
    }

    /// The move recorded for the current position, if its slot holds its fingerprint.
    pub fn probe(&self, pos: &Board) -> (r: Option<GameMove>)
        requires
            self.ptable@.len() > 0,
        ensures
            ({
                let e = self.ptable@[slot(pos.pos_key, self.ptable@.len())];
                r == if e.poskey == pos.pos_key { Some(e.mov) } else { None::<GameMove> }
            }),
    {
        let index = slot_of(pos.pos_key(), self.ptable.len());
        if self.ptable[index].poskey == pos.pos_key() {
            return Some(self.ptable[index].mov);
        }
        None
    }

    /// Follows the recorded moves from the current position, at most `depth` of them: each is
    /// the move stored for the position reached so far and is accepted there. It stops early
    /// only when the table holds no move for the position, the mover has no king, or the
    /// stored move is not accepted. Returns the moves followed and leaves the position as it
    /// was.
    pub fn get_line(&self, depth: u8, pos: &mut Board) -> (r: Vec<GameMove>)
        requires
            old(pos).wf(),
            old(pos).side <= 1,
            self.ptable@.len() > 0,
            old(pos).history@.len() + 256 < 0xffff_ffff_ffff_ffff,
        ensures
            final(pos).wf(),
            final(pos)@ == old(pos)@,
            final(pos).history@ == old(pos).history@,
            r@.len() <= depth,
            forall|k: int|
                0 <= k < r@.len() ==> {
                    let v = after_moves(old(pos)@, r@, k);
                    &&& stored_for(self.ptable@, old(pos).hasher, v, #[trigger] r@[k])
                    &&& move_ok(v, r@[k])
                },
            r@.len() < depth ==> line_stops(self.ptable@, old(pos).hasher, after_moves(old(pos)@, r@, r@.len() as int)),
    {
        let ghost h0 = pos.history@.len();
        let ghost v0 = pos@;
        let ghost p0 = pos.prev@;
        let ghost hist0 = pos.history@;
        let mut line: Vec<GameMove> = Vec::new();
        let mut count: u8 = 0;
        let mut stopped = false;
        while count < depth && !stopped
            invariant
                pos.wf(),
                self.ptable@.len() > 0,
                count <= depth,
                line@.len() == count,
                pos.history@.len() == h0 + count,
                pos.prev@.len() == h0 + count,
                h0 + 256 < 0xffff_ffff_ffff_ffff,
                pos.history@.subrange(0, h0 as int) == hist0,
                pos.prev@.subrange(0, h0 as int) == p0,
                count == 0 ==> pos@ == v0,
                count > 0 ==> pos.prev@[h0 as int] == v0,
                pos.side <= 1,
                pos.hasher == old(pos).hasher,
                pos@ == after_moves(v0, line@, count as int),
                stopped ==> line_stops(self.ptable@, old(pos).hasher, pos@),
                forall|k: int|
                    0 <= k < line@.len() ==> {
                        let v = after_moves(v0, line@, k);
                        &&& stored_for(self.ptable@, old(pos).hasher, v, #[trigger] line@[k])
                        &&& move_ok(v, line@[k])
                    },
            decreases depth - count, (if stopped { 0int } else { 1int }),
        {
            let found = self.probe(pos);
            match found {
                None => {
                    stopped = true;
                },
                Some(m) => {
                    let side = pos.side;
                    let ksq = pos.king_sq[side as usize];
                    let king = if side == WHITE { WK } else { BK };
                    if pos.pieces[ksq as usize] != king {
                        stopped = true;
                    } else if !is_move_valid(pos, m) {
                        stopped = true;
                    } else {
                        let ghost before = pos.prev@;
                        let ghost hb = pos.history@;
                        let ghost vb = pos@;
                        let ghost lb = line@;
                        if !pos.make_move(m) {
                            stopped = true;
                        } else {
                            line.push(m);
                            proof {
                                assert(pos.prev@.subrange(0, h0 as int) =~= before.subrange(0, h0 as int));
                                assert(pos.history@.subrange(0, h0 as int) =~= hb.subrange(0, h0 as int));
                                if count == 0 {
                                    assert(pos.prev@[h0 as int] == v0);
                                } else {
                                    assert(pos.prev@[h0 as int] == before[h0 as int]);
                                }
                                assert(line@.drop_last() == lb);
                                assert forall|k: int| 0 <= k <= lb.len() implies #[trigger] after_moves(v0, line@, k) == after_moves(v0, lb, k) by {
                                    lemma_after_moves_prefix(v0, lb, line@, k);
                                }
                                assert(after_moves(v0, line@, lb.len() + 1int) == apply(after_moves(v0, line@, lb.len() as int), m));
                                assert(vb == after_moves(v0, lb, lb.len() as int));
                            }
                            count += 1;
                        }
                    }
                },
            }
        }
        assert(line@.len() < depth ==> line_stops(self.ptable@, old(pos).hasher, after_moves(v0, line@, line@.len() as int)));
        while count > 0
            invariant
                pos.wf(),
                pos.history@.len() == h0 + count,
                pos.prev@.len() == h0 + count,
                pos.history@.subrange(0, h0 as int) == hist0,
                pos.prev@.subrange(0, h0 as int) == p0,
                count == 0 ==> pos@ == v0,
                count > 0 ==> pos.prev@[h0 as int] == v0,
            decreases count,
        {
            let ghost before = pos.prev@;
            let ghost hb = pos.history@;
            pos.undo_move();
            proof {
                assert(pos.prev@.subrange(0, h0 as int) =~= before.subrange(0, h0 as int));
                assert(pos.history@.subrange(0, h0 as int) =~= hb.subrange(0, h0 as int));
                if count == 1 {
                    assert(pos@ == before.last());
                }
            }
            count -= 1;
        }
        proof {
            assert(pos.history@ =~= pos.history@.subrange(0, h0 as int));
        }
        line
    }
}

} // verus!
