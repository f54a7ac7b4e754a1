//! Spaced-repetition interval arithmetic: normalizing an interval ladder and
//! computing the next review date from a base time and a position in the
//! ladder.

use vstd::prelude::*;
use crate::DAY_SECONDS;

verus! {

/// Largest interval, in days, that a stored ladder may carry.  Keeping every
/// interval under this bound guarantees that date arithmetic on valid
/// timestamps never overflows an `i64`.
pub const MAX_INTERVAL_DAYS: i64 = 3_650_000;

/// Latest timestamp (seconds since the Unix epoch) the engine works with;
/// this is the last second of year 9999.
pub const MAX_TIMESTAMP: i64 = 253_402_300_799;

/// A timestamp the engine accepts: seconds since the Unix epoch, within the
/// representable calendar range.
pub open spec fn valid_time(t: i64) -> bool {
    0 <= t <= MAX_TIMESTAMP
}

/// The sequence is strictly increasing, hence sorted and duplicate-free.
pub open spec fn strictly_increasing(s: Seq<i64>) -> bool {
    forall|i: int, j: int| 0 <= i < j < s.len() ==> s[i] < s[j]
}

/// Every value of the sequence lies in `(0, MAX_INTERVAL_DAYS]`.
pub open spec fn intervals_bounded(s: Seq<i64>) -> bool {
    forall|i: int| 0 <= i < s.len() ==> 0 < #[trigger] s[i] <= MAX_INTERVAL_DAYS
}

/// `out` is the normalization of `input`: exactly the positive values of
/// `input`, each once, in strictly increasing order — or `[1]` when `input`
/// has no positive value at all.
pub open spec fn is_normalization(input: Seq<i64>, out: Seq<i64>) -> bool {
    &&& strictly_increasing(out)
    &&& out.len() >= 1
    &&& (forall|k: int| 0 <= k < out.len() ==> #[trigger] out[k] > 0)
    &&& if exists|i: int| 0 <= i < input.len() && #[trigger] input[i] > 0 {
        forall|v: i64| #[trigger] out.contains(v) <==> (input.contains(v) && v > 0)
    } else {
        out =~= seq![1i64]
    }
}

/// Index into a ladder of length `len`, clamped into `[0, len - 1]`.
pub open spec fn clamp_index(idx: int, len: int) -> int
    recommends
        len >= 1,
{
    if idx < 0 {
        0
    } else if idx > len - 1 {
        len - 1
    } else {
        idx
    }
}

/// The review date that follows `base` for position `idx` of the ladder:
/// `base` plus the clamped ladder entry, in days.
pub open spec fn next_review_at(base: int, intervals: Seq<i64>, idx: int) -> int
    recommends
        intervals.len() >= 1,
{
    base + intervals[clamp_index(idx, intervals.len() as int)] * DAY_SECONDS
}

/// The ladder position after one review: one step forward, saturating at the
/// last entry.
pub open spec fn advance_index(idx: int, len: int) -> int
    recommends
        len >= 1,
{
    if idx + 1 < len {
        idx + 1
    } else {
        len - 1
    }
}

/// Advancing never leaves the ladder, and once the ladder's end is reached
/// further advances leave the position unchanged (the ladder saturates at its
/// longest interval; it never cycles or resets).
pub proof fn lemma_advance_index_saturates(idx: int, len: int)
    requires
        len >= 1,
        0 <= idx < len,
    ensures
        0 <= advance_index(idx, len) < len,
        idx == len - 1 ==> advance_index(idx, len) == idx,
        advance_index(advance_index(idx, len), len) == len - 1 || advance_index(
            advance_index(idx, len),
            len,
        ) == advance_index(idx, len) + 1,
{
}

/// Inserts `v` into the strictly increasing vector `r`, keeping it strictly
/// increasing; a value already present is left alone.
fn insert_sorted(r: &mut Vec<i64>, v: i64)
    requires
        strictly_increasing(old(r)@),
    ensures
        strictly_increasing(final(r)@),
        forall|x: i64| final(r)@.contains(x) <==> (old(r)@.contains(x) || x == v),
{
    let mut i: usize = 0;
    while i < r.len() && r[i] < v
        invariant
            i <= r@.len(),
            r@ == old(r)@,
            forall|k: int| 0 <= k < i ==> #[trigger] r@[k] < v,
        decreases r@.len() - i,
    {
        i += 1;
    }
    if i < r.len() && r[i] == v {
        proof {
            assert(old(r)@.contains(v)) by {
                assert(old(r)@[i as int] == v);
            }
            assert(forall|x: i64| r@.contains(x) <==> (old(r)@.contains(x) || x == v));
        }
        return ;
    }
    let ghost prior = r@;
    r.insert(i, v);
    proof {
        lemma_insert_keeps_order(prior, i as int, v);
        assert(r@ == prior.insert(i as int, v));
        assert(forall|x: i64| #[trigger] r@.contains(x) <==> (prior.contains(x) || x == v));
    }
}

/// After inserting `v` at position `i` of a strictly increasing sequence —
/// where everything before `i` is below `v` and everything from `i` on is
/// above it — the sequence is still strictly increasing and its members are
/// the old members plus `v`.
proof fn lemma_insert_keeps_order(s: Seq<i64>, i: int, v: i64)
    requires
        strictly_increasing(s),
        0 <= i <= s.len(),
        forall|k: int| 0 <= k < i ==> #[trigger] s[k] < v,
        i < s.len() ==> s[i] > v,
    ensures
        strictly_increasing(s.insert(i, v)),
        forall|x: i64| s.insert(i, v).contains(x) <==> (s.contains(x) || x == v),
{
    let t = s.insert(i, v);
    assert forall|a: int, b: int| 0 <= a < b < t.len() implies t[a] < t[b] by {
        if a < i && b < i {
            assert(t[a] == s[a] && t[b] == s[b]);
        } else if a < i && b == i {
            assert(t[a] == s[a] && t[b] == v);
        } else if a < i && b > i {
            assert(t[a] == s[a] && t[b] == s[b - 1]);
            if b - 1 > i - 1 && b - 1 >= i {
                if i < s.len() {
                    if b - 1 == i {
                        assert(s[b - 1] > v);
                    } else {
                        assert(s[i] < s[b - 1]);
                    }
                }
            }
        } else if a == i && b > i {
            assert(t[a] == v && t[b] == s[b - 1]);
            assert(b - 1 >= i);
            if b - 1 == i {
                assert(s[b - 1] > v);
            } else {
                assert(s[i] < s[b - 1]);
            }
        } else {
            assert(a > i && b > i);
            assert(t[a] == s[a - 1] && t[b] == s[b - 1]);
        }
    }
    assert forall|x: i64| t.contains(x) implies (s.contains(x) || x == v) by {
        let k = choose|k: int| 0 <= k < t.len() && t[k] == x;
        if k < i {
            assert(s[k] == x);
        } else if k == i {
        } else {
            assert(s[k - 1] == x);
        }
    }
    assert forall|x: i64| (s.contains(x) || x == v) implies t.contains(x) by {
        if x == v {
            assert(t[i] == v);
        } else {
            let k = choose|k: int| 0 <= k < s.len() && s[k] == x;
            if k < i {
                assert(t[k] == x);
            } else {
                assert(t[k + 1] == x);
            }
        }
    }
}

/// Normalizes an interval ladder: keeps the strictly positive values, sorts
/// them ascending, removes duplicates, and falls back to `[1]` when nothing
/// remains.
pub fn normalize_intervals(intervals: &Vec<i64>) -> (r: Vec<i64>)
    ensures
        is_normalization(intervals@, r@),
{
    let mut r: Vec<i64> = Vec::new();
    let mut i: usize = 0;
    while i < intervals.len()
        invariant
            i <= intervals@.len(),
            strictly_increasing(r@),
            forall|x: i64| #[trigger]
                r@.contains(x) <==> intervals@.subrange(0, i as int).contains(x) && x > 0,
        decreases intervals@.len() - i,
    {
        let v = intervals[i];
        let ghost pre = r@;
        if v > 0 {
            insert_sorted(&mut r, v);
        }
        proof {
            let sub_next = intervals@.subrange(0, i + 1);
            let sub = intervals@.subrange(0, i as int);
            assert(sub_next.drop_last() =~= sub);
            assert(sub_next.last() == intervals@[i as int]);
            assert forall|x: i64| #[trigger] r@.contains(x) implies (sub_next.contains(x) && x > 0) by {
                if pre.contains(x) {
                    let k = choose|k: int| 0 <= k < sub.len() && sub[k] == x;
                    assert(sub_next[k] == x);
                } else {
                    assert(x == v && v > 0);
                    assert(sub_next[i as int] == v);
                }
            }
            assert forall|x: i64| sub_next.contains(x) && x > 0 implies #[trigger] r@.contains(x) by {
                let k = choose|k: int| 0 <= k < sub_next.len() && sub_next[k] == x;
                if k < i {
                    assert(sub[k] == x);
                } else {
                    assert(x == v);
                }
            }
        }
        i += 1;
    }
    proof {
        assert(intervals@.subrange(0, intervals@.len() as int) =~= intervals@);
    }
    if r.len() == 0 {
        let ghost empty_r = r@;
        r.push(1);
        proof {
            assert forall|j: int| 0 <= j < intervals@.len() implies !(#[trigger] intervals@[j]
                > 0) by {
                if intervals@[j] > 0 {
                    assert(intervals@.contains(intervals@[j]));
                    assert(!empty_r.contains(intervals@[j]));
                }
            }
            assert(r@ =~= seq![1i64]);
        }
        return r;
    }
    proof {
        let w = r@[0];
        assert(r@.contains(w));
        assert(exists|j: int| 0 <= j < intervals@.len() && #[trigger] intervals@[j] > 0) by {
            let k = choose|k: int| 0 <= k < intervals@.len() && intervals@[k] == w;
            assert(intervals@[k] > 0);
        }
    }
    r
}

/// Computes the next review date: the base time (the last review when one is
/// recorded, the current time otherwise) plus the ladder entry at the clamped
/// index, in days.
pub fn compute_next_review_date(
    last_reviewed_at: Option<i64>,
    intervals: &Vec<i64>,
    interval_index: i64,
    now: i64,
) -> (r: i64)
    requires
        intervals@.len() >= 1,
        intervals_bounded(intervals@),
        valid_time(now),
        last_reviewed_at is Some ==> valid_time(last_reviewed_at->0),
    ensures
        r == next_review_at(
            if last_reviewed_at is Some {
                last_reviewed_at->0 as int
            } else {
                now as int
            },
            intervals@,
            interval_index as int,
        ),
{
    let base = match last_reviewed_at {
        Some(t) => t,
        None => now,
    };
    let len = intervals.len();
    let idx: usize = if interval_index <= 0 {
        0
    } else if interval_index as u64 >= len as u64 {
        len - 1
    } else {
        interval_index as usize
    };
    let days = intervals[idx];
    base + days * DAY_SECONDS
}

/// Two normalizations of the same ladder are the same sequence: a strictly
/// increasing sequence is determined by its set of members.
pub proof fn lemma_normalization_unique(input: Seq<i64>, a: Seq<i64>, b: Seq<i64>)
    requires
        is_normalization(input, a),
        is_normalization(input, b),
    ensures
        a == b,
{
    if exists|i: int| 0 <= i < input.len() && #[trigger] input[i] > 0 {
        assert(forall|v: i64| a.contains(v) <==> b.contains(v));
        lemma_strictly_increasing_same_members(a, b);
    } else {
        assert(a =~= seq![1i64]);
        assert(b =~= seq![1i64]);
    }
}

/// Strictly increasing sequences with the same members are equal.
pub proof fn lemma_strictly_increasing_same_members(a: Seq<i64>, b: Seq<i64>)
    requires
        strictly_increasing(a),
        strictly_increasing(b),
        forall|v: i64|
            #![trigger a.contains(v)]
            #![trigger b.contains(v)]
            a.contains(v) <==> b.contains(v),
    ensures
        a == b,
    decreases a.len(),
{
    if a.len() == 0 {
        if b.len() > 0 {
            assert(b.contains(b[0]));
            assert(false);
        }
        assert(a =~= b);
    } else {
        assert(a.contains(a.last())) by {
            assert(a[a.len() - 1] == a.last());
        }
        if b.len() == 0 {
            assert(false);
        }
        assert(b.contains(b.last())) by {
            assert(b[b.len() - 1] == b.last());
        }
        // The last element of each is its maximum, so the two agree.
        let bk = choose|k: int| 0 <= k < b.len() && b[k] == a.last();
        assert(b[bk] <= b.last());
        let ak = choose|k: int| 0 <= k < a.len() && a[k] == b.last();
        assert(a[ak] <= a.last());
        assert(a.last() == b.last());
        let a0 = a.drop_last();
        let b0 = b.drop_last();
        assert forall|v: i64|
            #![trigger a0.contains(v)]
            #![trigger b0.contains(v)]
            a0.contains(v) <==> b0.contains(v) by {
            lemma_drop_last_members(a, v);
            lemma_drop_last_members(b, v);
        }
        lemma_strictly_increasing_same_members(a0, b0);
        assert(a =~= b) by {
            assert(a0 =~= b0);
            assert(a.len() == b.len());
            assert(forall|i: int| 0 <= i < a.len() - 1 ==> a[i] == a0[i] && b[i] == b0[i]);
        }
    }
}

/// In a strictly increasing sequence, a member of the prefix without the last
/// element is exactly a member that is below the last element.
proof fn lemma_drop_last_members(s: Seq<i64>, v: i64)
    requires
        strictly_increasing(s),
        s.len() >= 1,
    ensures
        s.drop_last().contains(v) <==> (s.contains(v) && v < s.last()),
{
    let s0 = s.drop_last();
    if s0.contains(v) {
        let k = choose|k: int| 0 <= k < s0.len() && s0[k] == v;
        assert(s[k] == v);
        assert(s[k] < s[s.len() - 1]);
    }
    if s.contains(v) && v < s.last() {
        let k = choose|k: int| 0 <= k < s.len() && s[k] == v;
        if k == s.len() - 1 {
            assert(false);
        } else {
            assert(s0[k] == v);
        }
    }
}

} // verus!
