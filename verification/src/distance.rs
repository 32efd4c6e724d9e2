//! Character-level edit distance: insertions, deletions and substitutions at
//! unit cost, computed by the usual dynamic program and specified by the
//! standard prefix recurrence.

use vstd::prelude::*;
use crate::text::chars_of;

verus! {

/// The smaller of two naturals.
pub open spec fn nat_min(a: nat, b: nat) -> nat {
    if a <= b {
        a
    } else {
        b
    }
}

/// The edit distance between the length-`i` prefix of `a` and the length-`j`
/// prefix of `b`, by the standard recurrence: unit-cost insertions, deletions
/// and substitutions.
pub open spec fn edit_dist_prefix(a: Seq<char>, b: Seq<char>, i: nat, j: nat) -> nat
    recommends
        i <= a.len(),
        j <= b.len(),
    decreases i + j,
{
    if i == 0 {
        j
    } else if j == 0 {
        i
    } else {
        let del = edit_dist_prefix(a, b, (i - 1) as nat, j) + 1;
        let ins = edit_dist_prefix(a, b, i, (j - 1) as nat) + 1;
        let keep: nat = if a[i as int - 1] == b[j as int - 1] {
            0
        } else {
            1
        };
        let sub = edit_dist_prefix(a, b, (i - 1) as nat, (j - 1) as nat) + keep;
        nat_min(nat_min(del, ins), sub)
    }
}

/// The edit distance between `a` and `b`.
pub open spec fn edit_dist(a: Seq<char>, b: Seq<char>) -> nat {
    edit_dist_prefix(a, b, a.len(), b.len())
}

/// The distance between prefixes never exceeds the longer prefix's length.
pub proof fn lemma_edit_dist_prefix_bound(a: Seq<char>, b: Seq<char>, i: nat, j: nat)
    ensures
        edit_dist_prefix(a, b, i, j) <= i || edit_dist_prefix(a, b, i, j) <= j,
        edit_dist_prefix(a, b, i, j) <= i + j,
    decreases i + j,
{
    if i == 0 || j == 0 {
    } else {
        lemma_edit_dist_prefix_bound(a, b, (i - 1) as nat, (j - 1) as nat);
    }
}

/// A prefix pair has distance zero exactly when the prefixes are equal.
pub proof fn lemma_edit_dist_prefix_zero(a: Seq<char>, b: Seq<char>, i: nat, j: nat)
    requires
        i <= a.len(),
        j <= b.len(),
    ensures
        (edit_dist_prefix(a, b, i, j) == 0) <==> (i == j && a.subrange(0, i as int) == b.subrange(
            0,
            j as int,
        )),
    decreases i + j,
{
    if i == 0 {
        if j == 0 {
            assert(a.subrange(0, 0) =~= b.subrange(0, 0));
        }
    } else if j == 0 {
    } else {
        lemma_edit_dist_prefix_zero(a, b, (i - 1) as nat, (j - 1) as nat);
        let pa = a.subrange(0, i as int);
        let pb = b.subrange(0, j as int);
        if edit_dist_prefix(a, b, i, j) == 0 {
            assert(a[i as int - 1] == b[j as int - 1]);
            assert(a.subrange(0, i as int - 1) == b.subrange(0, j as int - 1));
            assert forall|k: int| 0 <= k < i implies pa[k] == pb[k] by {
                if k < i - 1 {
                    assert(a.subrange(0, i as int - 1)[k] == a[k]);
                    assert(b.subrange(0, j as int - 1)[k] == b[k]);
                }
            }
            assert(pa =~= pb);
        }
        if i == j && pa == pb {
            assert(a[i as int - 1] == pa[i as int - 1]);
            assert(b[j as int - 1] == pb[j as int - 1]);
            assert forall|k: int| 0 <= k < i - 1 implies #[trigger] a.subrange(0, i as int - 1)[k]
                == b.subrange(0, j as int - 1)[k] by {
                assert(pa[k] == a[k]);
                assert(pb[k] == b[k]);
            }
            assert(a.subrange(0, i as int - 1) =~= b.subrange(0, j as int - 1));
            assert(edit_dist_prefix(a, b, (i - 1) as nat, (j - 1) as nat) == 0);
        }
    }
}

/// Distance zero exactly when the two texts are equal.
pub proof fn lemma_edit_dist_zero(a: Seq<char>, b: Seq<char>)
    ensures
        (edit_dist(a, b) == 0) <==> (a == b),
{
    lemma_edit_dist_prefix_zero(a, b, a.len(), b.len());
    assert(a.subrange(0, a.len() as int) =~= a);
    assert(b.subrange(0, b.len() as int) =~= b);
}

/// Computes `edit_dist` over two character vectors by the dynamic program
/// over the prefix table.
pub fn edit_distance_chars(a: &Vec<char>, b: &Vec<char>) -> (r: usize)
    requires
        a@.len() < usize::MAX,
        b@.len() < usize::MAX,
    ensures
        r == edit_dist(a@, b@),
{
    let len1 = a.len();
    let len2 = b.len();
    let mut matrix: Vec<Vec<usize>> = Vec::new();
    let mut i: usize = 0;
    while i <= len1
        invariant
            i <= len1 + 1,
            len1 == a@.len(),
            len2 == b@.len(),
            len1 < usize::MAX,
            len2 < usize::MAX,
            matrix@.len() == i,
            forall|p: int| 0 <= p < i ==> (#[trigger] matrix@[p])@.len() == len2 + 1,
            forall|p: int, q: int|
                0 <= p < i && 0 <= q <= len2 ==> #[trigger] matrix@[p]@[q] == edit_dist_prefix(
                    a@,
                    b@,
                    p as nat,
                    q as nat,
                ),
        decreases len1 + 1 - i,
    {
        let mut row: Vec<usize> = Vec::new();
        if i == 0 {
            let mut j: usize = 0;
            while j <= len2
                invariant
                    j <= len2 + 1,
                    len2 < usize::MAX,
                    row@.len() == j,
                    forall|q: int| 0 <= q < j ==> #[trigger] row@[q] == q,
                decreases len2 + 1 - j,
            {
                row.push(j);
                j = j + 1;
            }
            proof {
                assert(forall|q: int|
                    0 <= q <= len2 ==> #[trigger] row@[q] == edit_dist_prefix(
                        a@,
                        b@,
                        0,
                        q as nat,
                    ));
            }
        } else {
            row.push(i);
            assert(row@[0] == edit_dist_prefix(a@, b@, i as nat, 0));
            let mut j: usize = 1;
            while j <= len2
                invariant
                    1 <= j <= len2 + 1,
                    1 <= i <= len1,
                    len1 == a@.len(),
                    len2 == b@.len(),
                    len1 < usize::MAX,
                    len2 < usize::MAX,
                    matrix@.len() == i,
                    forall|p: int| 0 <= p < i ==> (#[trigger] matrix@[p])@.len() == len2 + 1,
                    forall|p: int, q: int|
                        0 <= p < i && 0 <= q <= len2 ==> #[trigger] matrix@[p]@[q]
                            == edit_dist_prefix(a@, b@, p as nat, q as nat),
                    row@.len() == j,
                    forall|q: int|
                        0 <= q < j ==> #[trigger] row@[q] == edit_dist_prefix(
                            a@,
                            b@,
                            i as nat,
                            q as nat,
                        ),
                decreases len2 + 1 - j,
            {
                proof {
                    lemma_edit_dist_prefix_bound(a@, b@, (i - 1) as nat, j as nat);
                    lemma_edit_dist_prefix_bound(a@, b@, i as nat, (j - 1) as nat);
                    lemma_edit_dist_prefix_bound(a@, b@, (i - 1) as nat, (j - 1) as nat);
                }
                let cost: usize = if a[i - 1] == b[j - 1] {
                    0
                } else {
                    1
                };
                let del = matrix[i - 1][j] + 1;
                let ins = row[j - 1] + 1;
                let sub = matrix[i - 1][j - 1] + cost;
                let mut best = if del <= ins {
                    del
                } else {
                    ins
                };
                if sub < best {
                    best = sub;
                }
                row.push(best);
                j = j + 1;
            }
        }
        matrix.push(row);
        i = i + 1;
    }
    matrix[len1][len2]
}

/// The character-level edit distance between two strings, counted over
/// Unicode scalar values.
pub fn levenshtein_distance(s1: &str, s2: &str) -> (r: usize)
    requires
        s1@.len() < usize::MAX,
        s2@.len() < usize::MAX,
    ensures
        r == edit_dist(s1@, s2@),
{
    let a = chars_of(s1);
    let b = chars_of(s2);
    edit_distance_chars(&a, &b)
}

} // verus!
