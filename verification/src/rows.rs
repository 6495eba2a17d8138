//! Row selections behind the shape-preserving column operations: calendar
//! shifts, thinning, observation shifts that skip masked rows, and the
//! weekday mask. Each output row names the input row it takes its value from,
//! or `None` for NA.

use vstd::prelude::*;
use crate::align::{IndexColumn, col_keys, col_tag};
use crate::mask::ActiveMask;

verus! {

/// The unmasked rows among the first `n`, in order.
pub open spec fn spec_eligible(bits: Seq<bool>, n: nat) -> Seq<nat>
    decreases n,
{
    if n == 0 {
        Seq::empty()
    } else if !bits[n - 1] {
        spec_eligible(bits, (n - 1) as nat).push((n - 1) as nat)
    } else {
        spec_eligible(bits, (n - 1) as nat)
    }
}

/// How many unmasked rows come before row `t`.
pub open spec fn rank(bits: Seq<bool>, t: nat) -> nat {
    spec_eligible(bits, t).len()
}

/// Calendar shift by `k`: row `i` takes row `i - k`, the first `k` rows are NA.
pub open spec fn spec_shift(n: nat, k: nat) -> Seq<Option<nat>> {
    Seq::new(n, |i: int| if i >= k { Some((i - k) as nat) } else { None })
}

/// Shift by `k` observations: an unmasked row takes the unmasked row `k`
/// places before it among the unmasked rows; masked rows, and rows with fewer
/// than `k` unmasked rows before them, are NA.
pub open spec fn spec_shift_obs(bits: Seq<bool>, n: nat, k: nat) -> Seq<Option<nat>> {
    Seq::new(
        n,
        |t: int|
            if bits[t] || rank(bits, t as nat) < k {
                None
            } else {
                Some(spec_eligible(bits, n)[rank(bits, t as nat) - k])
            },
    )
}

pub proof fn lemma_eligible(bits: Seq<bool>, n: nat)
    requires
        n <= bits.len(),
    ensures
        spec_eligible(bits, n).len() <= n,
        forall|p: int| 0 <= p < spec_eligible(bits, n).len() ==> {
            let r = #[trigger] spec_eligible(bits, n)[p];
            &&& r < n
            &&& !bits[r as int]
            &&& rank(bits, r) == p
        },
        forall|p: int, q: int|
            0 <= p < q < spec_eligible(bits, n).len() ==> #[trigger] spec_eligible(bits, n)[p]
                < #[trigger] spec_eligible(bits, n)[q],
    decreases n,
{
    if n > 0 {
        lemma_eligible(bits, (n - 1) as nat);
    }
}

/// A prefix of the eligible rows is the eligible rows of the prefix.
pub proof fn lemma_eligible_prefix(bits: Seq<bool>, t: nat, n: nat)
    requires
        t <= n <= bits.len(),
    ensures
        spec_eligible(bits, t).len() <= spec_eligible(bits, n).len(),
        forall|p: int| 0 <= p < spec_eligible(bits, t).len() ==> #[trigger] spec_eligible(bits, n)[p]
            == spec_eligible(bits, t)[p],
    decreases n - t,
{
    if t < n {
        lemma_eligible_prefix(bits, t, (n - 1) as nat);
    }
}

/// Helper: compute the unmasked rows, and each row's position among them
/// (-1 for a masked row).
pub fn eligible_rows(mask: &ActiveMask, nrows: usize) -> (r: (Vec<usize>, Vec<i32>))
    requires
        nrows <= mask.bits().len(),
        nrows <= i32::MAX + 1,
    ensures
        r.0@.len() == spec_eligible(mask.bits(), nrows as nat).len(),
        forall|p: int| 0 <= p < r.0@.len() ==> #[trigger] r.0@[p] == spec_eligible(mask.bits(), nrows as nat)[p],
        r.1@.len() == nrows,
        forall|t: int| 0 <= t < nrows ==> #[trigger] r.1@[t] == if mask.bits()[t] {
            -1
        } else {
            rank(mask.bits(), t as nat) as int
        },
{
    let ghost bits = mask.bits();
    let mut eligible: Vec<usize> = Vec::new();
    let mut pos: Vec<i32> = Vec::new();
    let mut i: usize = 0;
    while i < nrows
        invariant
            i <= nrows,
            nrows <= bits.len(),
            nrows <= i32::MAX + 1,
            bits == mask.bits(),
            eligible@.len() == spec_eligible(bits, i as nat).len(),
            forall|p: int| 0 <= p < eligible@.len() ==> #[trigger] eligible@[p] == spec_eligible(bits, i as nat)[p],
            pos@.len() == i,
            forall|t: int| 0 <= t < i ==> #[trigger] pos@[t] == if bits[t] {
                -1
            } else {
                rank(bits, t as nat) as int
            },
        decreases nrows - i,
    {
        proof {
            lemma_eligible(bits, i as nat);
        }
        if mask.is_masked(i) {
            pos.push(-1);
        } else {
            let p = eligible.len();
            pos.push(p as i32);
            eligible.push(i);
        }
        i += 1;
    }
    (eligible, pos)
}

/// Calendar shift (positional) by `k` rows.
pub fn shift_rows(nrows: usize, k: usize) -> (rows: Vec<Option<usize>>)
    ensures
        crate::align::rows_view(rows@) == spec_shift(nrows as nat, k as nat),
{
    let mut rows: Vec<Option<usize>> = Vec::new();
    let mut i: usize = 0;
    while i < nrows
        invariant
            i <= nrows,
            rows@.len() == i,
            forall|j: int| 0 <= j < i ==> #[trigger] crate::align::row_view(rows@[j]) == spec_shift(
                nrows as nat,
                k as nat,
            )[j],
        decreases nrows - i,
    {
        if i >= k {
            rows.push(Some(i - k));
        } else {
            rows.push(None);
        }
        i += 1;
    }
    assert(crate::align::rows_view(rows@) =~= spec_shift(nrows as nat, k as nat));
    rows
}

/// Keep every `k`-th row (rows whose number is a multiple of `k`); the others
/// are NA.
pub fn keep_rows(nrows: usize, k: usize) -> (rows: Vec<Option<usize>>)
    requires
        k > 0,
    ensures
        rows@.len() == nrows,
        forall|i: int| 0 <= i < nrows ==> #[trigger] rows@[i] == if i % (k as int) == 0 {
            Some(i as usize)
        } else {
            None
        },
{
    let mut rows: Vec<Option<usize>> = Vec::new();
    let mut i: usize = 0;
    while i < nrows
        invariant
            i <= nrows,
            k > 0,
            rows@.len() == i,
            forall|j: int| 0 <= j < i ==> #[trigger] rows@[j] == if j % (k as int) == 0 {
                Some(j as usize)
            } else {
                None
            },
        decreases nrows - i,
    {
        if i % k == 0 {
            rows.push(Some(i));
        } else {
            rows.push(None);
        }
        i += 1;
    }
    rows
}

/// Mask-aware shift by `k` observations: masked rows are skipped (not NA
/// values), and are NA themselves.
pub fn shift_obs_rows(mask: &ActiveMask, k: usize, nrows: usize) -> (rows: Vec<Option<usize>>)
    requires
        nrows <= mask.bits().len(),
        nrows <= i32::MAX + 1,
        k <= i32::MAX,
    ensures
        crate::align::rows_view(rows@) == spec_shift_obs(mask.bits(), nrows as nat, k as nat),
{
    let ghost bits = mask.bits();
    let (eligible, pos_in_eligible) = eligible_rows(mask, nrows);
    proof {
        lemma_eligible(bits, nrows as nat);
    }
    let mut rows: Vec<Option<usize>> = Vec::new();
    let mut t: usize = 0;
    while t < nrows
        invariant
            t <= nrows,
            nrows <= bits.len(),
            nrows <= i32::MAX + 1,
            k <= i32::MAX,
            bits == mask.bits(),
            eligible@.len() == spec_eligible(bits, nrows as nat).len(),
            forall|p: int| 0 <= p < eligible@.len() ==> #[trigger] eligible@[p] == spec_eligible(bits, nrows as nat)[p],
            pos_in_eligible@.len() == nrows,
            forall|u: int| 0 <= u < nrows ==> #[trigger] pos_in_eligible@[u] == if bits[u] {
                -1
            } else {
                rank(bits, u as nat) as int
            },
            rows@.len() == t,
            forall|j: int| 0 <= j < t ==> #[trigger] crate::align::row_view(rows@[j]) == spec_shift_obs(
                bits,
                nrows as nat,
                k as nat,
            )[j],
        decreases nrows - t,
    {
        if mask.is_masked(t) {
            rows.push(None);
        } else {
            let p = pos_in_eligible[t];
            proof {
                lemma_eligible_prefix(bits, t as nat, nrows as nat);
                lemma_eligible(bits, (t + 1) as nat);
                assert(spec_eligible(bits, (t + 1) as nat).len() == rank(bits, t as nat) + 1);
                lemma_eligible_prefix(bits, (t + 1) as nat, nrows as nat);
            }
            if p < 0 {
                rows.push(None);
            } else {
                let src_p = p - (k as i32);
                if src_p < 0 {
                    rows.push(None);
                } else {
                    let src_row = eligible[src_p as usize];
                    rows.push(Some(src_row));
                }
            }
        }
        t += 1;
    }
    assert(crate::align::rows_view(rows@) =~= spec_shift_obs(bits, nrows as nat, k as nat));
    rows
}

/// Euclidean remainder by 7 (`rem_euclid`).
fn rem7(x: i32) -> (r: i32)
    ensures
        r == x % 7,
{
    let r = x % 7;
    if r < 0 {
        r + 7
    } else {
        r
    }
}

/// Day of the week (0 = Sunday .. 6 = Saturday) of a day count since
/// 1970-01-01, a Thursday.
pub open spec fn day_of_week(days: int) -> int {
    (4 + days) % 7
}

/// Nanoseconds in a day.
pub open spec fn nanos_per_day() -> int {
    86_400_000_000_000
}

/// The day (since 1970-01-01) of a timestamp in nanoseconds since the epoch:
/// the quotient rounded down, so instants before the epoch fall on earlier
/// days.
pub open spec fn timestamp_days(ts: i64) -> int {
    (ts as int) / nanos_per_day()
}

/// The day of a timestamp, computed.
fn day_of_timestamp(ts: i64) -> (d: i32)
    ensures
        d == timestamp_days(ts),
{
    let n: i64 = 86_400_000_000_000;
    if ts >= 0 {
        let q = ts / n;
        assert(q == (ts as int) / nanos_per_day());
        assert(q <= 106752) by (nonlinear_arith)
            requires q == (ts as int) / 86_400_000_000_000int, ts <= i64::MAX, ts >= 0;
        q as i32
    } else {
        let m = -(ts + 1);
        let q = m / n;
        assert(q <= 106752) by (nonlinear_arith)
            requires q == (m as int) / 86_400_000_000_000int, m <= i64::MAX, m >= 0;
        assert(-q - 1 == (ts as int) / 86_400_000_000_000int) by (nonlinear_arith)
            requires q == (m as int) / 86_400_000_000_000int, m == -(ts + 1), ts < 0;
        (-q - 1) as i32
    }
}

/// Whether each row of the index falls on a Saturday or Sunday (the weekday
/// mask `wkd`). A string index has no calendar.
pub fn weekend_rows(index: &IndexColumn) -> (r: Result<Vec<bool>, String>)
    requires
        col_tag(*index) == 0 ==> forall|i: int|
            0 <= i < col_keys(*index).len() ==> (#[trigger] col_keys(*index)[i] matches crate::align::KeyV::Int(d) && d <= i32::MAX - 4),
    ensures
        col_tag(*index) == 2 <==> r is Err,
        r matches Err(e) ==> e@ == "wkd requires Date or Timestamp index, got String"@,
        r matches Ok(w) ==> w@.len() == col_keys(*index).len() && match *index {
            IndexColumn::Date(v) => forall|i: int|
                0 <= i < v@.len() ==> #[trigger] w@[i] == (day_of_week(v@[i] as int) == 0
                    || day_of_week(v@[i] as int) == 6),
            IndexColumn::Timestamp(v) => forall|i: int|
                0 <= i < v@.len() ==> #[trigger] w@[i] == (day_of_week(timestamp_days(v@[i]))
                    == 0 || day_of_week(timestamp_days(v@[i])) == 6),
            IndexColumn::String(_) => true,
        },
{
    let mut w: Vec<bool> = Vec::new();
    match index {
        IndexColumn::Date(v) => {
            let n = v.len();
            proof {
                assert forall|j: int| 0 <= j < n implies #[trigger] v@[j] <= i32::MAX - 4 by {
                    assert(col_keys(*index)[j] == crate::align::KeyV::Int(v@[j] as int));
                }
            }
            let mut i: usize = 0;
            while i < n
                invariant
                    i <= n,
                    n == v@.len(),
                    *index == IndexColumn::Date(*v),
                    forall|j: int| 0 <= j < n ==> #[trigger] v@[j] <= i32::MAX - 4,
                    w@.len() == i,
                    forall|j: int| 0 <= j < i ==> #[trigger] w@[j] == (day_of_week(v@[j] as int) == 0
                        || day_of_week(v@[j] as int) == 6),
                decreases n - i,
            {
                proof {
                    assert(col_keys(*index)[i as int] == crate::align::KeyV::Int(v@[i as int] as int));
                }
                let dow = rem7(4 + v[i]);
                w.push(dow == 0 || dow == 6);
                i += 1;
            }
            Ok(w)
        },
        IndexColumn::Timestamp(v) => {
            let n = v.len();
            let mut i: usize = 0;
            while i < n
                invariant
                    i <= n,
                    n == v@.len(),
                    w@.len() == i,
                    forall|j: int| 0 <= j < i ==> #[trigger] w@[j] == (day_of_week(timestamp_days(v@[j]))
                        == 0 || day_of_week(timestamp_days(v@[j])) == 6),
                decreases n - i,
            {
                let ts = v[i];
                let days = day_of_timestamp(ts);
                proof {
                    assert(-106753 <= timestamp_days(ts) <= 106752) by (nonlinear_arith)
                        requires i64::MIN <= ts <= i64::MAX;
                }
                let dow = rem7(4 + days);
                w.push(dow == 0 || dow == 6);
                i += 1;
            }
            Ok(w)
        },
        IndexColumn::String(_) => Err(String::from_str("wkd requires Date or Timestamp index, got String")),
    }
}

// ─── Laws ───────────────────────────────────────────────────────────────────

/// An observation shift never reads a masked row or a later row, and the row
/// it reads is exactly `k` unmasked rows back (the row itself when `k` is 0).
pub proof fn law_shift_obs_skips_masked(bits: Seq<bool>, n: nat, k: nat, t: int)
    requires
        n <= bits.len(),
        0 <= t < n,
        spec_shift_obs(bits, n, k)[t] is Some,
    ensures
        ({
            let r = spec_shift_obs(bits, n, k)[t]->0;
            &&& r <= t
            &&& (k > 0 ==> r < t)
            &&& !bits[r as int]
            &&& !bits[t]
            &&& rank(bits, t as nat) - rank(bits, r) == k
        }),
{
    let e = spec_eligible(bits, n);
    let pt = rank(bits, t as nat) as int;
    lemma_eligible(bits, n);
    lemma_eligible_prefix(bits, (t + 1) as nat, n);
    assert(spec_eligible(bits, (t + 1) as nat) == spec_eligible(bits, t as nat).push(t as nat));
    assert(spec_eligible(bits, (t + 1) as nat)[pt] == t);
    assert(e[pt] == t);
    let p = pt - k;
    if k > 0 {
        assert(e[p] < e[pt]);
    }
}

/// On rows none of which is masked, the observation shift is the calendar
/// shift.
pub proof fn law_shift_obs_without_masks_is_shift(bits: Seq<bool>, n: nat, k: nat)
    requires
        n <= bits.len(),
        forall|i: int| 0 <= i < n ==> !#[trigger] bits[i],
    ensures
        spec_shift_obs(bits, n, k) == spec_shift(n, k),
{
    lemma_eligible_all(bits, n);
    assert forall|t: int| 0 <= t < n implies #[trigger] spec_shift_obs(bits, n, k)[t] == spec_shift(n, k)[t] by {
        lemma_eligible_all(bits, t as nat);
    }
    assert(spec_shift_obs(bits, n, k) =~= spec_shift(n, k));
}

/// With no masked row, the eligible rows are all rows.
proof fn lemma_eligible_all(bits: Seq<bool>, n: nat)
    requires
        n <= bits.len(),
        forall|i: int| 0 <= i < n ==> !#[trigger] bits[i],
    ensures
        spec_eligible(bits, n) == Seq::new(n, |i: int| i as nat),
    decreases n,
{
    if n > 0 {
        lemma_eligible_all(bits, (n - 1) as nat);
        assert(spec_eligible(bits, n) =~= Seq::new(n, |i: int| i as nat));
    } else {
        assert(spec_eligible(bits, n) =~= Seq::new(n, |i: int| i as nat));
    }
}

} // verus!
