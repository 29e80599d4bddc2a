//! Piece lists: for each piece, the squares holding it in increasing order, padded with zeros.
use vstd::prelude::*;
use crate::counting::count;
use crate::pieces::EMPTY;
use crate::squares::on_board;

verus! {

/// The first `n` entries of `l` are, in increasing order, exactly the cells of `c` holding `p`
/// (all playable); the other entries are zero.
pub open spec fn list_mirrors(c: Seq<u8>, l: Seq<u8>, n: int, p: int) -> bool {
    &&& l.len() == 120
    &&& 0 <= n <= 120
    &&& n == count(c, p as u8)
    &&& forall|i: int| 0 <= i < n ==> on_board(#[trigger] l[i] as int) && c[l[i] as int] == p
    &&& forall|i: int, j: int| 0 <= i < j < n ==> #[trigger] l[i] < #[trigger] l[j]
    &&& forall|i: int| n <= i < 120 ==> #[trigger] l[i] == 0
    &&& forall|sq: int| 0 <= sq < 120 && #[trigger] c[sq] == p ==> exists|i: int| 0 <= i < n && #[trigger] l[i] == sq
}

/// Position of `v` in a sorted row of `n` entries: the entries before it are smaller.
pub fn row_find(row: &[u8; 120], n: usize, v: u8) -> (k: usize)
    requires
        n <= 120,
    ensures
        k <= n,
        forall|j: int| 0 <= j < k ==> #[trigger] row[j] < v,
        k < n ==> row[k as int] >= v,
{
    let mut k: usize = 0;
    while k < n && row[k] < v
        invariant
            k <= n,
            n <= 120,
            forall|j: int| 0 <= j < k ==> #[trigger] row[j] < v,
        decreases n - k,
    {
        k += 1;
    }
    k
}

/// Removes entry `i` of the first `n`, shifting the later ones down and zeroing slot `n - 1`.
pub fn row_remove(row: [u8; 120], n: usize, i: usize) -> (r: [u8; 120])
    requires
        i < n <= 120,
    ensures
        forall|j: int| 0 <= j < i ==> #[trigger] r[j] == row[j],
        forall|j: int| i <= j < n - 1 ==> #[trigger] r[j] == row[j + 1],
        r[n - 1] == 0,
        forall|j: int| n <= j < 120 ==> #[trigger] r[j] == row[j],
{
    let mut r = row;
    let mut j: usize = i;
    while j + 1 < n
        invariant
            i <= j < n,
            n <= 120,
            forall|t: int| 0 <= t < i ==> #[trigger] r[t] == row[t],
            forall|t: int| i <= t < j ==> #[trigger] r[t] == row[t + 1],
            forall|t: int| j <= t < 120 ==> #[trigger] r[t] == row[t],
        decreases n - j,
    {
        r[j] = row[j + 1];
        j += 1;
    }
    r[n - 1] = 0;
    r
}

/// Inserts `v` at position `k` of the first `n`, shifting the later ones up.
pub fn row_insert(row: [u8; 120], n: usize, k: usize, v: u8) -> (r: [u8; 120])
    requires
        k <= n < 120,
    ensures
        forall|j: int| 0 <= j < k ==> #[trigger] r[j] == row[j],
        r[k as int] == v,
        forall|j: int| k < j <= n ==> #[trigger] r[j] == row[j - 1],
        forall|j: int| n < j < 120 ==> #[trigger] r[j] == row[j],
{
    let mut r = row;
    let mut j: usize = n;
    while j > k
        invariant
            k <= j <= n,
            n < 120,
            forall|t: int| 0 <= t <= j ==> #[trigger] r[t] == row[t],
            forall|t: int| j < t <= n ==> #[trigger] r[t] == row[t - 1],
            forall|t: int| n < t < 120 ==> #[trigger] r[t] == row[t],
        decreases j,
    {
        r[j] = row[j - 1];
        j -= 1;
    }
    r[k] = v;
    r
}

/// The list stays a mirror when the cells change but not in which of them hold `p`.
pub proof fn lemma_mirror_untouched(c1: Seq<u8>, c2: Seq<u8>, l: Seq<u8>, n: int, p: int)
    requires
        list_mirrors(c1, l, n, p),
        c1.len() == 120,
        c2.len() == 120,
        forall|s: int| 0 <= s < 120 ==> (#[trigger] c2[s] == p <==> c1[s] == p),
        count(c2, p as u8) == count(c1, p as u8),
    ensures
        list_mirrors(c2, l, n, p),
{
    assert forall|i: int| 0 <= i < n implies on_board(#[trigger] l[i] as int) && c2[l[i] as int] == p by {
        assert(c1[l[i] as int] == p);
    }
    assert forall|s: int| 0 <= s < 120 && #[trigger] c2[s] == p implies exists|i: int| 0 <= i < n && #[trigger] l[i] == s by {
        assert(c1[s] == p);
    }
}

/// Removing the entry of a cell that no longer holds `p` keeps the list a mirror.
pub proof fn lemma_mirror_remove(c1: Seq<u8>, l1: Seq<u8>, n: int, p: int, sq: int, i: int, c2: Seq<u8>, l2: Seq<u8>)
    requires
        list_mirrors(c1, l1, n, p),
        1 <= p <= 12,
        0 <= sq < 120,
        c1.len() == 120,
        c1[sq] == p,
        c2 == c1.update(sq, EMPTY),
        0 <= i < n,
        l1[i] == sq,
        l2.len() == 120,
        forall|j: int| 0 <= j < i ==> #[trigger] l2[j] == l1[j],
        forall|j: int| i <= j < n - 1 ==> #[trigger] l2[j] == l1[j + 1],
        l2[n - 1] == 0,
        forall|j: int| n <= j < 120 ==> #[trigger] l2[j] == l1[j],
        count(c2, p as u8) == n - 1,
    ensures
        list_mirrors(c2, l2, n - 1, p),
{
    assert forall|j: int| 0 <= j < n - 1 implies on_board(#[trigger] l2[j] as int) && c2[l2[j] as int] == p by {
        if j < i {
            assert(l1[j] < l1[i]);
        } else {
            assert(l1[i] < l1[j + 1]);
        }
    }
    assert forall|a: int, b: int| 0 <= a < b < n - 1 implies #[trigger] l2[a] < #[trigger] l2[b] by {
        if b < i {
            assert(l1[a] < l1[b]);
        } else if a < i {
            assert(l1[a] < l1[i] && l1[i] < l1[b + 1]);
        } else {
            assert(l1[a + 1] < l1[b + 1]);
        }
    }
    assert forall|j: int| n - 1 <= j < 120 implies #[trigger] l2[j] == 0 by {
        if j >= n {
            assert(l1[j] == 0);
        }
    }
    assert forall|s: int| 0 <= s < 120 && #[trigger] c2[s] == p implies exists|j: int| 0 <= j < n - 1 && #[trigger] l2[j] == s by {
        assert(c1[s] == p);
        let w = choose|w: int| 0 <= w < n && #[trigger] l1[w] == s;
        if w < i {
            assert(l2[w] == s);
        } else {
            assert(w != i);
            assert(l2[w - 1] == s);
        }
    }
}

/// Inserting a cell that now holds `p` at its sorted position keeps the list a mirror.
pub proof fn lemma_mirror_insert(c1: Seq<u8>, l1: Seq<u8>, n: int, p: int, sq: int, k: int, c2: Seq<u8>, l2: Seq<u8>)
    requires
        list_mirrors(c1, l1, n, p),
        1 <= p <= 12,
        0 <= sq < 120,
        on_board(sq),
        c1.len() == 120,
        c1[sq] == EMPTY,
        c2 == c1.update(sq, p as u8),
        0 <= k <= n < 120,
        forall|j: int| 0 <= j < k ==> #[trigger] l1[j] < sq,
        k < n ==> l1[k] > sq,
        l2.len() == 120,
        forall|j: int| 0 <= j < k ==> #[trigger] l2[j] == l1[j],
        l2[k] == sq,
        forall|j: int| k < j <= n ==> #[trigger] l2[j] == l1[j - 1],
        forall|j: int| n < j < 120 ==> #[trigger] l2[j] == l1[j],
        count(c2, p as u8) == n + 1,
    ensures
        list_mirrors(c2, l2, n + 1, p),
{
    crate::counting::lemma_count_le_len(c2, p as u8);
    assert forall|j: int| 0 <= j < n + 1 implies on_board(#[trigger] l2[j] as int) && c2[l2[j] as int] == p by {
        if j < k {
            assert(c1[l1[j] as int] == p);
        } else if j > k {
            assert(c1[l1[j - 1] as int] == p);
        }
    }
    assert forall|a: int, b: int| 0 <= a < b < n + 1 implies #[trigger] l2[a] < #[trigger] l2[b] by {
        if b < k {
            assert(l1[a] < l1[b]);
        } else if b == k {
            assert(l1[a] < sq);
        } else if a < k {
            assert(l1[a] < sq);
            assert(l1[k] <= l1[b - 1]) by {
                if k < b - 1 {
                    assert(l1[k] < l1[b - 1]);
                }
            }
        } else if a == k {
            assert(l1[k] <= l1[b - 1]) by {
                if k < b - 1 {
                    assert(l1[k] < l1[b - 1]);
                }
            }
        } else {
            assert(l1[a - 1] < l1[b - 1]);
        }
    }
    assert forall|s: int| 0 <= s < 120 && #[trigger] c2[s] == p implies exists|j: int| 0 <= j < n + 1 && #[trigger] l2[j] == s by {
        if s == sq {
            assert(l2[k] == s);
        } else {
            assert(c1[s] == p);
            let w = choose|w: int| 0 <= w < n && #[trigger] l1[w] == s;
            if w < k {
                assert(l2[w] == s);
            } else {
                assert(l2[w + 1] == s);
            }
        }
    }
}

/// A cell holding `p` sits, in a mirror list, at the position `row_find` gives.
pub proof fn lemma_mirror_find_present(c: Seq<u8>, l: Seq<u8>, n: int, p: int, sq: int, k: int)
    requires
        list_mirrors(c, l, n, p),
        0 <= sq < 120,
        c[sq] == p,
        0 <= k <= n,
        forall|j: int| 0 <= j < k ==> #[trigger] l[j] < sq,
        k < n ==> l[k] >= sq,
    ensures
        k < n,
        l[k] == sq,
{
    let w = choose|w: int| 0 <= w < n && #[trigger] l[w] == sq;
    if w < k {
        assert(l[w] < sq);
    } else if w > k {
        assert(l[k] < l[w]);
    }
}

/// A cell not holding `p` is absent from a mirror list, so every entry from `row_find`'s
/// position on is larger.
pub proof fn lemma_mirror_find_absent(c: Seq<u8>, l: Seq<u8>, n: int, p: int, sq: int, k: int)
    requires
        list_mirrors(c, l, n, p),
        0 <= sq < 120,
        c[sq] != p,
        0 <= k <= n,
        k < n ==> l[k] >= sq,
    ensures
        k < n ==> l[k] > sq,
{
    if k < n {
        assert(c[l[k] as int] == p);
    }
}

/// The mirror list of a piece is determined by the cells.
pub proof fn lemma_mirror_unique(c: Seq<u8>, l1: Seq<u8>, l2: Seq<u8>, n: int, p: int)
    requires
        list_mirrors(c, l1, n, p),
        list_mirrors(c, l2, n, p),
    ensures
        l1 == l2,
{
    assert forall|i: int| 0 <= i < 120 implies #[trigger] l1[i] == l2[i] by {
        if i < n {
            lemma_mirror_unique_at(c, l1, l2, n, p, i);
            assert(l1[i] == l2[i]);
        }
    }
    assert(l1 =~= l2);
}

proof fn lemma_mirror_unique_at(c: Seq<u8>, l1: Seq<u8>, l2: Seq<u8>, n: int, p: int, i: int)
    requires
        list_mirrors(c, l1, n, p),
        list_mirrors(c, l2, n, p),
        0 <= i < n,
    ensures
        forall|j: int| 0 <= j <= i ==> #[trigger] l1[j] == l2[j],
    decreases i,
{
    if i > 0 {
        lemma_mirror_unique_at(c, l1, l2, n, p, i - 1);
    }
    let a = l1[i] as int;
    let b = l2[i] as int;
    assert(c[a] == p);
    assert(c[b] == p);
    let ka = choose|k: int| 0 <= k < n && #[trigger] l2[k] == a;
    let kb = choose|k: int| 0 <= k < n && #[trigger] l1[k] == b;
    if ka < i {
        assert(l1[ka] == l2[ka]);
        assert(l1[ka] < l1[i]);
    }
    if kb < i {
        assert(l2[kb] == l1[kb]);
        assert(l2[kb] < l2[i]);
    }
    if a < b {
        if ka > i {
            assert(l2[i] < l2[ka]);
        }
    } else if b < a {
        if kb > i {
            assert(l1[i] < l1[kb]);
        }
    }
}

} // verus!
