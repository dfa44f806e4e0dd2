//! The mathematical model of a puzzle board: a sequence of nine tile values
//! that form a permutation of `0..=8`, with `0` standing for the blank.

use vstd::prelude::*;

verus! {

/// The canonical solved layout: tiles `1..=8` in order, blank last.
pub open spec fn solved_seq() -> Seq<u8> {
    seq![1u8, 2u8, 3u8, 4u8, 5u8, 6u8, 7u8, 8u8, 0u8]
}

/// The value `v` occurs somewhere in `s`.
pub open spec fn appears(s: Seq<u8>, v: u8) -> bool {
    exists|i: int| 0 <= i < s.len() && s[i] == v
}

/// `s` is a permutation of `0..=8`: nine cells, each value below nine,
/// no value twice, every value present.
pub open spec fn is_permutation(s: Seq<u8>) -> bool {
    &&& s.len() == 9
    &&& forall|i: int| 0 <= i < 9 ==> #[trigger] s[i] < 9
    &&& forall|i: int, j: int| 0 <= i < 9 && 0 <= j < 9 && i != j ==> s[i] != s[j]
    &&& forall|v: u8| v < 9 ==> #[trigger] appears(s, v)
}

/// The index of the blank (the cell holding `0`) in `s`.
pub open spec fn blank_of(s: Seq<u8>) -> int {
    choose|i: int| 0 <= i < s.len() && s[i] == 0
}

/// `s` with the cells at `i` and `j` exchanged.
pub open spec fn swap_seq(s: Seq<u8>, i: int, j: int) -> Seq<u8>
    recommends
        0 <= i < s.len(),
        0 <= j < s.len(),
{
    s.update(i, s[j]).update(j, s[i])
}

/// The solved layout is a permutation of `0..=8`.
pub proof fn lemma_solved_is_permutation()
    ensures
        is_permutation(solved_seq()),
{
    let s = solved_seq();
    assert(s[0] == 1);
    assert(s[1] == 2);
    assert(s[2] == 3);
    assert(s[3] == 4);
    assert(s[4] == 5);
    assert(s[5] == 6);
    assert(s[6] == 7);
    assert(s[7] == 8);
    assert(s[8] == 0);
    assert forall|v: u8| v < 9 implies #[trigger] appears(s, v) by {
        if v == 0 {
            assert(s[8] == v);
        } else {
            assert(s[v - 1] == v);
        }
    }
}

/// On a permutation, `blank_of` is the one index that holds `0`.
pub proof fn lemma_blank_of_valid(s: Seq<u8>)
    requires
        is_permutation(s),
    ensures
        0 <= blank_of(s) < 9,
        s[blank_of(s)] == 0,
        forall|j: int| 0 <= j < 9 && s[j] == 0 ==> j == blank_of(s),
{
    assert(appears(s, 0u8));
    let b = blank_of(s);
    assert(0 <= b < s.len() && s[b] == 0);
}

/// Exchanging two cells keeps a permutation a permutation.
pub proof fn lemma_swap_preserves_permutation(s: Seq<u8>, a: int, b: int)
    requires
        is_permutation(s),
        0 <= a < 9,
        0 <= b < 9,
    ensures
        is_permutation(swap_seq(s, a, b)),
{
    let t = swap_seq(s, a, b);
    assert(t.len() == 9);
    assert forall|v: u8| v < 9 implies #[trigger] appears(t, v) by {
        assert(appears(s, v));
        let i = choose|i: int| 0 <= i < s.len() && s[i] == v;
        if i == b {
            assert(t[a] == v);
        } else if i == a {
            assert(t[b] == v);
        } else {
            assert(t[i] == v);
        }
    }
}

} // verus!
