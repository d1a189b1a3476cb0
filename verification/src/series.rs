//! The weekly value series drawn for each lot, and the trailing-year
//! comparison read off it. Which weeks carry an estimate and when they fall
//! are decided here; the estimates themselves are drawn elsewhere.
use vstd::prelude::*;

verus! {

/// One week, in seconds.
pub const WEEK: i64 = 604800;

/// One year of 365 days, in seconds.
pub const YEAR: i64 = 31536000;

/// Weeks of estimates tracked before the anchor.
pub const LEAD_WEEKS: i64 = 8;

/// Weeks of estimates a series spans; the walk behind it has one more point.
pub const SPAN_WEEKS: i64 = 30;

/// The earliest Unix second a timestamp can hold.
pub const TS_MIN: i64 = -377705023201;

/// The latest Unix second a timestamp can hold.
pub const TS_MAX: i64 = 253402207200;

/// Roughly one week in eight carries no estimate, at positions fixed by the
/// seed: a genuine gap the chart's line spans.
pub open spec fn week_kept(seed: u64, i: int) -> bool {
    (seed + 7 * i) % 8 != 0
}

/// The kept weeks among the first `n` walk points, each as its walk index and
/// its instant, up to `now`.
pub open spec fn series_points(seed: u64, start: int, now: int, n: nat) -> Seq<(usize, i64)>
    decreases n,
{
    if n == 0 {
        Seq::empty()
    } else {
        let i = n - 1;
        let t = start + i * WEEK;
        let prev = series_points(seed, start, now, (n - 1) as nat);
        if week_kept(seed, i) && t <= now {
            prev.push((i as usize, t as i64))
        } else {
            prev
        }
    }
}

/// Where a lot's series is anchored: its purchase instant, or a trailing
/// window ending now for a lot that is not ours.
pub fn series_anchor(purchased_at: Option<i64>, now: i64) -> (r: i64)
    requires
        TS_MIN <= now <= TS_MAX,
        TS_MIN <= now - SPAN_WEEKS * WEEK,
    ensures
        r == match purchased_at {
            Some(t) => t as int,
            None => now - SPAN_WEEKS * WEEK,
        },
{
    match purchased_at {
        Some(t) => t,
        None => now - SPAN_WEEKS * WEEK,
    }
}

/// The weeks of a lot's series: walk point `i` falls `i` weeks after a start
/// eight weeks before the anchor, the seed's gap weeks are dropped, and
/// nothing later than `now` is drawn. Each week comes with the walk index
/// whose estimate it shows.
pub fn series_weeks(seed: u64, anchor: i64, now: i64) -> (r: Vec<(usize, i64)>)
    requires
        TS_MIN <= anchor - LEAD_WEEKS * WEEK,
        anchor <= TS_MAX,
        TS_MIN <= now <= TS_MAX,
    ensures
        r@ == series_points(seed, anchor - LEAD_WEEKS * WEEK, now as int, (SPAN_WEEKS + 1) as nat),
{
    let start: i64 = anchor - LEAD_WEEKS * WEEK;
    let mut out: Vec<(usize, i64)> = Vec::new();
    let mut i: usize = 0;
    while i < 31
        invariant
            start == anchor - LEAD_WEEKS * WEEK,
            TS_MIN <= start,
            start + LEAD_WEEKS * WEEK <= TS_MAX,
            i <= 31,
            out@ == series_points(seed, start as int, now as int, i as nat),
        decreases 31 - i,
    {
        let t: i64 = start + (i as i64) * WEEK;
        let kept = (seed % 8 + (i as u64 * 7) % 8) % 8 != 0;
        proof {
            assert((seed % 8 + (i as u64 * 7) % 8) % 8 == (seed + 7 * i) % 8) by (nonlinear_arith);
        }
        if kept && t <= now {
            out.push((i, t));
        }
        i = i + 1;
    }
    out
}

/// How far an instant lies from a target, in seconds.
pub open spec fn dist(a: i64, b: int) -> int {
    if a - b >= 0 {
        a - b
    } else {
        b - a
    }
}

/// The trailing-year comparison over a building's weekly buckets (their
/// start instants, oldest first): `None` unless they span at least a year;
/// else the bucket nearest one year before the last (the first such on a
/// tie), and the last.
pub open spec fn spec_yoy_pair(weeks: Seq<i64>, r: Option<(usize, usize)>) -> bool {
    if weeks.len() == 0 || weeks.last() - weeks[0] < YEAR {
        r is None
    } else {
        let target = weeks.last() - YEAR;
        r matches Some((k, l)) && l == weeks.len() - 1 && k < weeks.len() && (forall|j: int|
            0 <= j < weeks.len() ==> dist(weeks[k as int], target) <= dist(#[trigger] weeks[j], target)) && (
        forall|j: int| 0 <= j < k ==> dist(weeks[k as int], target) < dist(#[trigger] weeks[j], target))
    }
}

/// Picks the buckets a trailing-year appreciation compares.
pub fn yoy_pair(weeks: &Vec<i64>) -> (r: Option<(usize, usize)>)
    ensures
        spec_yoy_pair(weeks@, r),
{
    let n = weeks.len();
    if n == 0 {
        return None;
    }
    let first = weeks[0] as i128;
    let last = weeks[n - 1] as i128;
    if last - first < YEAR as i128 {
        return None;
    }
    let target: i128 = last - YEAR as i128;
    let mut best: usize = 0;
    let mut best_d: i128 = if weeks[0] as i128 - target >= 0 {
        weeks[0] as i128 - target
    } else {
        target - weeks[0] as i128
    };
    let mut j: usize = 1;
    while j < n
        invariant
            n == weeks@.len(),
            n > 0,
            1 <= j <= n,
            target == weeks@.last() - YEAR,
            best < j,
            best_d == dist(weeks@[best as int], target as int),
            forall|q: int| 0 <= q < j ==> best_d <= dist(#[trigger] weeks@[q], target as int),
            forall|q: int| 0 <= q < best ==> best_d < dist(#[trigger] weeks@[q], target as int),
        decreases n - j,
    {
        let w = weeks[j] as i128;
        let d: i128 = if w - target >= 0 {
            w - target
        } else {
            target - w
        };
        if d < best_d {
            best = j;
            best_d = d;
        }
        j = j + 1;
    }
    Some((best, n - 1))
}

} // verus!
