//! Levenshtein edit distance over Unicode code points.

use vstd::prelude::*;
use vstd::string::StrSliceExecFns;

verus! {

/// Minimum of three natural numbers.
pub open spec fn min3(a: nat, b: nat, c: nat) -> nat {
    if a <= b && a <= c {
        a
    } else if b <= c {
        b
    } else {
        c
    }
}

/// Levenshtein edit distance between two character sequences: the least
/// number of single-character insertions, deletions, or substitutions
/// needed to transform `a` into `b`.
pub open spec fn edit_dist(a: Seq<char>, b: Seq<char>) -> nat
    decreases a.len(), b.len(),
{
    if a.len() == 0 {
        b.len()
    } else if b.len() == 0 {
        a.len()
    } else {
        let cost: nat = if a.last() == b.last() {
            0
        } else {
            1
        };
        min3(
            (edit_dist(a.drop_last(), b) + 1) as nat,
            (edit_dist(a, b.drop_last()) + 1) as nat,
            (edit_dist(a.drop_last(), b.drop_last()) + cost) as nat,
        )
    }
}

/// The distance from a sequence to itself is zero.
pub proof fn lemma_edit_dist_self(s: Seq<char>)
    ensures
        edit_dist(s, s) == 0,
    decreases s.len(),
{
    if s.len() > 0 {
        lemma_edit_dist_self(s.drop_last());
    }
}

/// Edit distance is symmetric.
pub proof fn lemma_edit_dist_symmetric(a: Seq<char>, b: Seq<char>)
    ensures
        edit_dist(a, b) == edit_dist(b, a),
    decreases a.len() + b.len(),
{
    if a.len() > 0 && b.len() > 0 {
        lemma_edit_dist_symmetric(a.drop_last(), b);
        lemma_edit_dist_symmetric(a, b.drop_last());
        lemma_edit_dist_symmetric(a.drop_last(), b.drop_last());
    }
}

/// The distance between the empty sequence and `s` is the length of `s`.
pub proof fn lemma_edit_dist_empty(s: Seq<char>)
    ensures
        edit_dist(Seq::<char>::empty(), s) == s.len(),
        edit_dist(s, Seq::<char>::empty()) == s.len(),
{
}

/// Edit distance never exceeds the length of the longer sequence.
pub proof fn lemma_edit_dist_le_max(a: Seq<char>, b: Seq<char>)
    ensures
        edit_dist(a, b) <= if a.len() >= b.len() {
            a.len()
        } else {
            b.len()
        },
    decreases a.len() + b.len(),
{
    if a.len() > 0 && b.len() > 0 {
        lemma_edit_dist_le_max(a.drop_last(), b.drop_last());
    }
}

/// Distance between prefixes, as tabulated by the dynamic program.
pub open spec fn prefix_dist(a: Seq<char>, b: Seq<char>, i: int, j: int) -> nat {
    edit_dist(a.subrange(0, i), b.subrange(0, j))
}

/// The recurrence satisfied by a non-border cell of the table.
proof fn lemma_edit_dist_step(a: Seq<char>, b: Seq<char>, i: int, j: int)
    requires
        1 <= i <= a.len(),
        1 <= j <= b.len(),
    ensures
        prefix_dist(a, b, i, j) == min3(
            (prefix_dist(a, b, i - 1, j) + 1) as nat,
            (prefix_dist(a, b, i, j - 1) + 1) as nat,
            (prefix_dist(a, b, i - 1, j - 1) + (if a[i - 1] == b[j - 1] {
                0nat
            } else {
                1nat
            })) as nat,
        ),
{
    let pa = a.subrange(0, i);
    let pb = b.subrange(0, j);
    assert(pa.drop_last() =~= a.subrange(0, i - 1));
    assert(pb.drop_last() =~= b.subrange(0, j - 1));
    assert(pa.last() == a[i - 1]);
    assert(pb.last() == b[j - 1]);
}

/// Collects the characters of a string slice into a vector.
fn chars_of(s: &str) -> (v: Vec<char>)
    ensures
        v@ == s@,
{
    let n = s.unicode_len();
    let mut v: Vec<char> = Vec::new();
    let mut i: usize = 0;
    while i < n
        invariant
            n == s@.len(),
            i <= n,
            v@ =~= s@.subrange(0, i as int),
        decreases n - i,
    {
        let c = s.get_char(i);
        v.push(c);
        i = i + 1;
        assert(v@ =~= s@.subrange(0, i as int));
    }
    assert(v@ =~= s@);
    v
}

/// Classic Levenshtein distance over code points, computed with a
/// dynamic-programming table of size `(len1 + 1) x (len2 + 1)`: row 0 and
/// column 0 hold the index values, and every other cell is the minimum of
/// the deletion, insertion, and substitution costs.
pub fn levenshtein_distance(s1: &str, s2: &str) -> (d: usize)
    requires
        s1@.len() < usize::MAX,
        s2@.len() < usize::MAX,
    ensures
        d == edit_dist(s1@, s2@),
{
    let a = chars_of(s1);
    let b = chars_of(s2);
    let len1 = a.len();
    let len2 = b.len();
    let mut matrix: Vec<Vec<usize>> = Vec::new();
    let mut i: usize = 0;
    while i < len1 + 1
        invariant
            a@ == s1@,
            b@ == s2@,
            len1 == a@.len() < usize::MAX,
            len2 == b@.len() < usize::MAX,
            i <= len1 + 1,
            matrix@.len() == i,
            forall|r: int| 0 <= r < i ==> (#[trigger] matrix@[r])@.len() == len2 + 1,
            forall|r: int, c: int|
                0 <= r < i && 0 <= c <= len2 ==> #[trigger] matrix@[r]@[c] == prefix_dist(
                    a@,
                    b@,
                    r,
                    c,
                ),
        decreases len1 + 1 - i,
    {
        let mut row: Vec<usize> = Vec::new();
        let mut j: usize = 0;
        while j < len2 + 1
            invariant
                a@ == s1@,
                b@ == s2@,
                len1 == a@.len() < usize::MAX,
                len2 == b@.len() < usize::MAX,
                i <= len1,
                j <= len2 + 1,
                matrix@.len() == i,
                forall|r: int| 0 <= r < i ==> (#[trigger] matrix@[r])@.len() == len2 + 1,
                forall|r: int, c: int|
                    0 <= r < i && 0 <= c <= len2 ==> #[trigger] matrix@[r]@[c] == prefix_dist(
                        a@,
                        b@,
                        r,
                        c,
                    ),
                row@.len() == j,
                forall|c: int| 0 <= c < j ==> #[trigger] row@[c] == prefix_dist(a@, b@, i as int, c),
            decreases len2 + 1 - j,
        {
            let cell: usize;
            if i == 0 {
                cell = j;
                proof {
                    assert(a@.subrange(0, 0).len() == 0);
                    assert(b@.subrange(0, j as int).len() == j);
                }
            } else if j == 0 {
                cell = i;
                proof {
                    assert(b@.subrange(0, 0).len() == 0);
                    assert(a@.subrange(0, i as int).len() == i);
                }
            } else {
                proof {
                    lemma_edit_dist_le_max(a@.subrange(0, i as int - 1), b@.subrange(0, j as int));
                    lemma_edit_dist_le_max(a@.subrange(0, i as int), b@.subrange(0, j as int - 1));
                    lemma_edit_dist_le_max(
                        a@.subrange(0, i as int - 1),
                        b@.subrange(0, j as int - 1),
                    );
                }
                let del = matrix[i - 1][j] + 1;
                let ins = row[j - 1] + 1;
                let cost: usize = if a[i - 1] == b[j - 1] {
                    0
                } else {
                    1
                };
                let sub = matrix[i - 1][j - 1] + cost;
                cell = if del <= ins && del <= sub {
                    del
                } else if ins <= sub {
                    ins
                } else {
                    sub
                };
                proof {
                    lemma_edit_dist_step(a@, b@, i as int, j as int);
                }
            }
            row.push(cell);
            j = j + 1;
        }
        matrix.push(row);
        i = i + 1;
    }
    let d = matrix[len1][len2];
    proof {
        assert(a@.subrange(0, len1 as int) =~= a@);
        assert(b@.subrange(0, len2 as int) =~= b@);
    }
    d
}

} // verus!
