//! Bounded Damerau–Levenshtein edit distance (the optimal-string-alignment
//! variant), short-circuiting as soon as the budget is known to be exceeded.

use vstd::prelude::*;

use crate::text::chars_of;

verus! {

/// The cost of aligning two characters: free when equal, one edit otherwise.
pub open spec fn sub_cost(x: char, y: char) -> nat {
    if x == y {
        0
    } else {
        1
    }
}

pub open spec fn min_nat(x: nat, y: nat) -> nat {
    if x <= y {
        x
    } else {
        y
    }
}

/// Whether the last two characters of `a[..i]` and `b[..j]` are an adjacent
/// transposition of each other.
pub open spec fn transposed(a: Seq<char>, b: Seq<char>, i: nat, j: nat) -> bool {
    &&& i > 1
    &&& j > 1
    &&& a[i - 1] == b[j - 2]
    &&& a[i - 2] == b[j - 1]
}

/// The optimal-string-alignment distance between the prefixes `a[..i]` and
/// `b[..j]`: insertions, deletions, substitutions and adjacent transpositions
/// each cost one edit, and no substring is edited twice.
pub open spec fn osa(a: Seq<char>, b: Seq<char>, i: nat, j: nat) -> nat
    decreases i + j,
{
    if i == 0 {
        j
    } else if j == 0 {
        i
    } else {
        let del = osa(a, b, (i - 1) as nat, j) + 1;
        let ins = osa(a, b, i, (j - 1) as nat) + 1;
        let sub = osa(a, b, (i - 1) as nat, (j - 1) as nat) + sub_cost(a[i - 1], b[j - 1]);
        let m = min_nat(min_nat(del, ins), sub);
        if transposed(a, b, i, j) {
            min_nat(m, osa(a, b, (i - 2) as nat, (j - 2) as nat) + 1)
        } else {
            m
        }
    }
}

/// The full optimal-string-alignment distance between two character sequences.
pub open spec fn osa_distance(a: Seq<char>, b: Seq<char>) -> nat {
    osa(a, b, a.len(), b.len())
}

/// What [`damerau_levenshtein_bounded`] answers: the distance when it is within
/// `max`, `None` otherwise.
pub open spec fn bounded_distance(a: Seq<char>, b: Seq<char>, max: u32) -> Option<u32> {
    if osa_distance(a, b) <= max {
        Some(osa_distance(a, b) as u32)
    } else {
        None
    }
}

pub open spec fn abs_diff(i: nat, j: nat) -> nat {
    if i >= j {
        (i - j) as nat
    } else {
        (j - i) as nat
    }
}

/// The length gap is a lower bound on the distance, and `i + j` an upper bound.
pub proof fn lemma_osa_bounds(a: Seq<char>, b: Seq<char>, i: nat, j: nat)
    ensures
        abs_diff(i, j) <= osa(a, b, i, j) <= i + j,
    decreases i + j,
{
    if i != 0 && j != 0 {
        lemma_osa_bounds(a, b, (i - 1) as nat, j);
        lemma_osa_bounds(a, b, i, (j - 1) as nat);
        lemma_osa_bounds(a, b, (i - 1) as nat, (j - 1) as nat);
        if transposed(a, b, i, j) {
            lemma_osa_bounds(a, b, (i - 2) as nat, (j - 2) as nat);
        }
    }
}

/// Every entry of row `i + 1` is at least any lower bound of row `i`: the row
/// minima never decrease, which is what makes the early exit sound.
proof fn lemma_next_row_at_least(a: Seq<char>, b: Seq<char>, i: nat, k: nat, m: nat)
    requires
        forall|x: nat| x <= k ==> m <= #[trigger] osa(a, b, i, x),
    ensures
        m <= osa(a, b, i + 1, k),
    decreases k,
{
    assert(m <= osa(a, b, i, 0));
    if k > 0 {
        lemma_next_row_at_least(a, b, i, (k - 1) as nat, m);
        assert(m <= osa(a, b, i, k));
        assert(m <= osa(a, b, i, (k - 1) as nat));
        if transposed(a, b, i + 1, k) {
            // The transposition reaches back two rows, but the diagonal step of
            // row `i` already costs no more than it.
            assert(osa(a, b, i, (k - 1) as nat) <= osa(a, b, (i - 1) as nat, (k - 2) as nat) + 1);
        }
    }
}

/// If every entry of row `i` (up to column `lb`) is at least `m`, so is every
/// entry of every later row.
proof fn lemma_rows_stay_at_least(a: Seq<char>, b: Seq<char>, i: nat, i2: nat, lb: nat, m: nat)
    requires
        i <= i2,
        forall|x: nat| x <= lb ==> m <= #[trigger] osa(a, b, i, x),
    ensures
        forall|x: nat| x <= lb ==> m <= #[trigger] osa(a, b, i2, x),
    decreases i2 - i,
{
    if i < i2 {
        lemma_rows_stay_at_least(a, b, i, (i2 - 1) as nat, lb, m);
        assert forall|x: nat| x <= lb implies m <= #[trigger] osa(a, b, i2, x) by {
            lemma_next_row_at_least(a, b, (i2 - 1) as nat, x, m);
        }
    }
}

/// A string is at distance zero from itself.
pub proof fn law_distance_to_self_is_zero(a: Seq<char>)
    ensures
        osa_distance(a, a) == 0,
{
    lemma_diagonal_is_zero(a, a.len());
}

proof fn lemma_diagonal_is_zero(a: Seq<char>, i: nat)
    requires
        i <= a.len(),
    ensures
        osa(a, a, i, i) == 0,
    decreases i,
{
    if i > 0 {
        lemma_diagonal_is_zero(a, (i - 1) as nat);
    }
}

/// The distance does not depend on which string is the typo: swapping the
/// arguments gives the same number of edits.
pub proof fn law_distance_is_symmetric(a: Seq<char>, b: Seq<char>)
    ensures
        osa_distance(a, b) == osa_distance(b, a),
{
    lemma_osa_symmetric(a, b, a.len(), b.len());
}

proof fn lemma_osa_symmetric(a: Seq<char>, b: Seq<char>, i: nat, j: nat)
    ensures
        osa(a, b, i, j) == osa(b, a, j, i),
    decreases i + j,
{
    if i != 0 && j != 0 {
        lemma_osa_symmetric(a, b, (i - 1) as nat, j);
        lemma_osa_symmetric(a, b, i, (j - 1) as nat);
        lemma_osa_symmetric(a, b, (i - 1) as nat, (j - 1) as nat);
        if transposed(a, b, i, j) {
            lemma_osa_symmetric(a, b, (i - 2) as nat, (j - 2) as nat);
        }
    }
}

/// The difference in length is a lower bound on the distance: every character
/// one string has beyond the other costs at least one edit.
pub proof fn law_length_gap_is_a_lower_bound(a: Seq<char>, b: Seq<char>)
    ensures
        abs_diff(a.len(), b.len()) <= osa_distance(a, b),
{
    lemma_osa_bounds(a, b, a.len(), b.len());
}

/// Optimal-string-alignment Damerau–Levenshtein distance between `a` and `b`,
/// returning `None` as soon as it is known to exceed `max` (so callers pay only
/// for near matches). Counts a single adjacent transposition as one edit.
pub fn damerau_levenshtein_bounded(a: &str, b: &str, max: u32) -> (r: Option<u32>)
    requires
        a@.len() + b@.len() < u32::MAX,
    ensures
        r == bounded_distance(a@, b@, max),
{
    let ac = chars_of(a);
    let bc = chars_of(b);
    let la = ac.len();
    let lb = bc.len();
    let ghost sa = ac@;
    let ghost sb = bc@;

    // The length gap is a lower bound on the distance.
    let gap: u32 = if la >= lb {
        (la - lb) as u32
    } else {
        (lb - la) as u32
    };
    if gap > max {
        proof {
            lemma_osa_bounds(sa, sb, la as nat, lb as nat);
        }
        return None;
    }
    // `prev2` = row i-2 (for transposition), `prev` = row i-1, `cur` = row i.

    let mut prev2: Vec<u32> = Vec::new();
    let mut prev: Vec<u32> = Vec::new();
    let mut cur: Vec<u32> = Vec::new();
    let mut k: usize = 0;
    while k <= lb
        invariant
            k <= lb + 1,
            lb + la < u32::MAX,
            lb == sb.len(),
            prev2@.len() == k,
            prev@.len() == k,
            cur@.len() == k,
            forall|x: int| 0 <= x < k ==> prev@[x] == osa(sa, sb, 0, x as nat),
        decreases lb + 1 - k,
    {
        prev2.push(0);
        prev.push(k as u32);
        cur.push(0);
        k += 1;
    }

    let mut i: usize = 1;
    while i <= la
        invariant
            1 <= i <= la + 1,
            la == sa.len(),
            lb == sb.len(),
            ac@ == sa,
            sa == a@,
            bc@ == sb,
            sb == b@,
            la + lb < u32::MAX,
            prev2@.len() == lb + 1,
            prev@.len() == lb + 1,
            cur@.len() == lb + 1,
            forall|x: int| 0 <= x <= lb ==> prev@[x] == osa(sa, sb, (i - 1) as nat, x as nat),
            i >= 2 ==> forall|x: int| 0 <= x <= lb ==> prev2@[x] == osa(sa, sb, (i - 2) as nat, x as nat),
        decreases la + 1 - i,
    {
        cur.set(0, i as u32);
        let mut row_min: u32 = i as u32;
        let mut j: usize = 1;
        while j <= lb
            invariant
                1 <= i <= la,
                1 <= j <= lb + 1,
                la == sa.len(),
                lb == sb.len(),
                ac@ == sa,
            sa == a@,
                bc@ == sb,
            sb == b@,
                la + lb < u32::MAX,
                prev2@.len() == lb + 1,
                prev@.len() == lb + 1,
                cur@.len() == lb + 1,
                forall|x: int| 0 <= x <= lb ==> prev@[x] == osa(sa, sb, (i - 1) as nat, x as nat),
                i >= 2 ==> forall|x: int| 0 <= x <= lb ==> prev2@[x] == osa(sa, sb, (i - 2) as nat, x as nat),
                forall|x: int| 0 <= x < j ==> cur@[x] == osa(sa, sb, i as nat, x as nat),
                forall|x: int| 0 <= x < j ==> row_min <= cur@[x],
            decreases lb + 1 - j,
        {
            proof {
                lemma_osa_bounds(sa, sb, (i - 1) as nat, j as nat);
                lemma_osa_bounds(sa, sb, i as nat, (j - 1) as nat);
                lemma_osa_bounds(sa, sb, (i - 1) as nat, (j - 1) as nat);
                lemma_osa_bounds(sa, sb, i as nat, j as nat);
            }
            let cost: u32 = if ac[i - 1] == bc[j - 1] {
                0
            } else {
                1
            };
            let del = prev[j] + 1;
            let ins = cur[j - 1] + 1;
            let sub = prev[j - 1] + cost;
            let mut v = if del <= ins {
                del
            } else {
                ins
            };
            if sub < v {
                v = sub;
            }
            // Adjacent transposition (OSA).
            if i > 1 && j > 1 && ac[i - 1] == bc[j - 2] && ac[i - 2] == bc[j - 1] {
                proof {
                    lemma_osa_bounds(sa, sb, (i - 2) as nat, (j - 2) as nat);
                }
                let t = prev2[j - 2] + 1;
                if t < v {
                    v = t;
                }
            }
            assert(v == osa(sa, sb, i as nat, j as nat));
            cur.set(j, v);
            if v < row_min {
                row_min = v;
            }
            j += 1;
        }
        // Whole row already worse than the budget — no later row can recover.
        if row_min > max {
            proof {
                assert forall|x: nat| x <= lb implies (max + 1) as nat <= #[trigger] osa(sa, sb, i as nat, x) by {
                    assert(row_min <= cur@[x as int]);
                }
                lemma_rows_stay_at_least(sa, sb, i as nat, la as nat, lb as nat, (max + 1) as nat);
                assert((max + 1) as nat <= osa(sa, sb, la as nat, lb as nat));
            }
            return None;
        }
        std::mem::swap(&mut prev2, &mut prev);
        std::mem::swap(&mut prev, &mut cur);
        i += 1;
    }

    let d = prev[lb];
    if d <= max {
        Some(d)
    } else {
        None
    }
}

} // verus!
