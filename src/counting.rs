//! Counting the cells of a board that hold a given code.
use vstd::prelude::*;

verus! {

/// Number of entries of `c` equal to `p`.
pub open spec fn count(c: Seq<u8>, p: u8) -> nat
    decreases c.len(),
{
    if c.len() == 0 {
        0
    } else {
        count(c.drop_last(), p) + if c.last() == p {
            1nat
        } else {
            0nat
        }
    }
}

/// Overwriting one entry changes each count by the old and the new entry alone.
pub proof fn lemma_count_update(c: Seq<u8>, i: int, v: u8, p: u8)
    requires
        0 <= i < c.len(),
    ensures
        count(c.update(i, v), p) + (if c[i] == p {
            1int
        } else {
            0int
        }) == count(c, p) + (if v == p {
            1int
        } else {
            0int
        }),
    decreases c.len(),
{
    let c2 = c.update(i, v);
    if i < c.len() - 1 {
        assert(c2.drop_last() =~= c.drop_last().update(i, v));
        lemma_count_update(c.drop_last(), i, v, p);
    } else {
        assert(c2.drop_last() =~= c.drop_last());
    }
}

pub proof fn lemma_count_le_len(c: Seq<u8>, p: u8)
    ensures
        count(c, p) <= c.len(),
    decreases c.len(),
{
    if c.len() > 0 {
        lemma_count_le_len(c.drop_last(), p);
    }
}

} // verus!

verus! {

/// A code that no entry holds is counted zero times.
pub proof fn lemma_count_zero(c: Seq<u8>, p: u8)
    requires
        forall|i: int| 0 <= i < c.len() ==> c[i] != p,
    ensures
        count(c, p) == 0,
    decreases c.len(),
{
    if c.len() > 0 {
        lemma_count_zero(c.drop_last(), p);
    }
}

/// Counting one more entry.
pub proof fn lemma_count_take(c: Seq<u8>, i: int, p: u8)
    requires
        0 <= i < c.len(),
    ensures
        count(c.take(i + 1), p) == count(c.take(i), p) + if c[i] == p { 1nat } else { 0nat },
{
    assert(c.take(i + 1).drop_last() =~= c.take(i));
}

} // verus!
