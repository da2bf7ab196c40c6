//! How session lengths are spread.

use crate::arith;
use crate::arith::trunc_div;
use crate::db::Database;
use crate::order;
use crate::order::sort_keys;
use crate::stats;
use crate::stats::{human_readable_time, select_rows, Need, Ratio, Row, StatsError};
use vstd::prelude::*;

verus! {

/// The sessions whose length falls into one range.
#[derive(Debug)]
pub struct SessionBucket {
    pub label: String,
    pub count: i64,
    pub pct: Ratio,
}

/// The lengths of a set of sessions.
#[derive(Debug)]
pub struct SessionDistribution {
    pub max_seconds: i64,
    pub min_seconds: i64,
    pub median_seconds: i64,
    pub mean_seconds: i64,
    pub total_sessions: i64,
    pub max_seconds_hr: String,
    pub min_seconds_hr: String,
    pub median_seconds_hr: String,
    pub mean_seconds_hr: String,
    pub buckets: Vec<SessionBucket>,
}

/// A bucket, by value.
#[verifier::ext_equal]
pub struct BucketView {
    pub label: Seq<char>,
    pub count: int,
    pub pct: (int, int),
}

/// A distribution, by value.
#[verifier::ext_equal]
pub struct DistributionView {
    pub max_seconds: int,
    pub min_seconds: int,
    pub median_seconds: int,
    pub mean_seconds: int,
    pub total_sessions: int,
    pub max_seconds_hr: Seq<char>,
    pub min_seconds_hr: Seq<char>,
    pub median_seconds_hr: Seq<char>,
    pub mean_seconds_hr: Seq<char>,
    pub buckets: Seq<BucketView>,
}

impl View for SessionBucket {
    type V = BucketView;

    open spec fn view(&self) -> BucketView {
        BucketView { label: self.label@, count: self.count as int, pct: self.pct@ }
    }
}

/// The values of a list of buckets.
pub open spec fn bucket_views(s: Seq<SessionBucket>) -> Seq<BucketView> {
    s.map_values(|b: SessionBucket| b@)
}

impl View for SessionDistribution {
    type V = DistributionView;

    open spec fn view(&self) -> DistributionView {
        DistributionView {
            max_seconds: self.max_seconds as int,
            min_seconds: self.min_seconds as int,
            median_seconds: self.median_seconds as int,
            mean_seconds: self.mean_seconds as int,
            total_sessions: self.total_sessions as int,
            max_seconds_hr: self.max_seconds_hr@,
            min_seconds_hr: self.min_seconds_hr@,
            median_seconds_hr: self.median_seconds_hr@,
            mean_seconds_hr: self.mean_seconds_hr@,
            buckets: bucket_views(self.buckets@),
        }
    }
}

/// The lengths of rows, from the shortest to the longest.
pub open spec fn lengths(rows: Seq<Row>) -> Seq<i64> {
    let all = rows.map_values(|r: Row| r.seconds);
    order::sorted(all, all, false)
}

/// Lengths as numbers.
pub open spec fn numbers(s: Seq<i64>) -> Seq<int> {
    s.map_values(|n: i64| n as int)
}

/// How many of the numbers are at least `lo` and below `hi`.
pub open spec fn count_within(s: Seq<i64>, lo: int, hi: int) -> int
    decreases s.len(),
{
    if s.len() == 0 {
        0
    } else {
        count_within(s.drop_last(), lo, hi) + (if lo <= s.last() && s.last() < hi {
            1int
        } else {
            0
        })
    }
}

/// The middle one of sorted numbers, or the mean of the middle two, rounded towards zero.
pub open spec fn median(s: Seq<i64>) -> int {
    if s.len() % 2 == 1 {
        s[(s.len() - 1) / 2] as int
    } else {
        arith::div_trunc(s[s.len() / 2 - 1] + s[s.len() as int / 2], 2)
    }
}

/// Whether the median can be computed within `i64`.
pub open spec fn median_fits(s: Seq<i64>) -> bool {
    s.len() % 2 == 0 ==> arith::fits(s[s.len() / 2 - 1] + s[s.len() as int / 2])
}

/// One bucket of the distribution of sorted lengths.
pub open spec fn bucket_of(s: Seq<i64>, lo: int, hi: int, label: Seq<char>) -> BucketView {
    BucketView {
        label,
        count: count_within(s, lo, hi),
        pct: (count_within(s, lo, hi), s.len() as int),
    }
}

/// The buckets of the distribution.
pub open spec fn buckets_of(s: Seq<i64>) -> Seq<BucketView> {
    seq![
        bucket_of(s, 0, 300, "<5 min"@),
        bucket_of(s, 300, 900, "5–15 min"@),
        bucket_of(s, 900, 1800, "15–30 min"@),
        bucket_of(s, 1800, 3600, "30–60 min"@),
        bucket_of(s, 3600, 7200, "1–2 h"@),
        bucket_of(s, 7200, 14400, "2–4 h"@),
        bucket_of(s, 14400, i64::MAX as int, ">4 h"@),
    ]
}

/// The distribution of sorted lengths, or `None` where a sum does not fit in `i64`.
pub open spec fn distribution_of(s: Seq<i64>) -> Option<DistributionView> {
    if s.len() == 0 {
        Some(
            DistributionView {
                max_seconds: 0,
                min_seconds: 0,
                median_seconds: 0,
                mean_seconds: 0,
                total_sessions: 0,
                max_seconds_hr: stats::duration_text(0),
                min_seconds_hr: stats::duration_text(0),
                median_seconds_hr: stats::duration_text(0),
                mean_seconds_hr: stats::duration_text(0),
                buckets: Seq::empty(),
            },
        )
    } else if arith::sum_fits(numbers(s)) && median_fits(s) {
        let average = arith::div_trunc(arith::sum(numbers(s)), s.len() as int);
        Some(
            DistributionView {
                max_seconds: s.last() as int,
                min_seconds: s[0] as int,
                median_seconds: median(s),
                mean_seconds: average,
                total_sessions: s.len() as int,
                max_seconds_hr: stats::duration_text(s.last() as int),
                min_seconds_hr: stats::duration_text(s[0] as int),
                median_seconds_hr: stats::duration_text(median(s)),
                mean_seconds_hr: stats::duration_text(average),
                buckets: buckets_of(s),
            },
        )
    } else {
        None
    }
}

fn sort_lengths(rows: &Vec<Row>) -> (r: Vec<i64>)
    ensures
        r@ == lengths(rows@),
        r@.len() == rows@.len(),
{
    let mut all: Vec<i64> = Vec::new();
    for i in 0..rows.len()
        invariant
            all@.len() == i,
            forall|k: int| 0 <= k < i ==> #[trigger] all@[k] == rows@[k].seconds,
    {
        all.push(rows[i].seconds);
    }
    assert(all@ =~= rows@.map_values(|r: Row| r.seconds));
    let sorted = sort_keys(&all, false);
    let mut r: Vec<i64> = Vec::new();
    for i in 0..sorted.len()
        invariant
            order::arranged(all@, false, 0, all@.len() as int, order::positions(sorted@)),
            r@.len() == i,
            forall|k: int| 0 <= k < i ==> #[trigger] r@[k] == all@[sorted@[k] as int],
    {
        assert(order::positions(sorted@)[i as int] == sorted@[i as int]);
        r.push(all[sorted[i]]);
    }
    proof {
        assert forall|k: int| 0 <= k < r@.len() implies #[trigger] r@[k] == all@[order::order(
            all@,
            false,
        )[k]] by {
            assert(order::positions(sorted@)[k] == sorted@[k]);
        }
        assert(r@ =~= order::sorted(all@, all@, false));
    }
    r
}

fn add_up(s: &Vec<i64>) -> (r: Option<i64>)
    ensures
        r is Some == arith::sum_fits(numbers(s@)),
        r is Some ==> r->0 == arith::sum(numbers(s@)),
{
    let ghost all = numbers(s@);
    let mut total: i64 = 0;
    for i in 0..s.len()
        invariant
            all == numbers(s@),
            total == arith::sum(all.take(i as int)),
            forall|k: int| 0 <= k <= i ==> arith::fits(arith::sum(#[trigger] all.take(k))),
    {
        proof {
            arith::lemma_sum_step(all, i as int);
        }
        match total.checked_add(s[i]) {
            Some(t) => {
                total = t;
            },
            None => {
                assert(!arith::fits(arith::sum(all.take(i + 1))));
                return None;
            },
        }
    }
    assert(all.take(all.len() as int) =~= all);
    Some(total)
}

fn bucket(s: &Vec<i64>, lo: i64, hi: i64, label: String) -> (r: SessionBucket)
    requires
        s@.len() <= i64::MAX,
    ensures
        r@ == bucket_of(s@, lo as int, hi as int, label@),
{
    let mut count: i64 = 0;
    assert(s@.take(0) =~= Seq::<i64>::empty());
    for i in 0..s.len()
        invariant
            s@.len() <= i64::MAX,
            count == count_within(s@.take(i as int), lo as int, hi as int),
            0 <= count <= i,
    {
        assert(s@.take(i + 1).drop_last() =~= s@.take(i as int));
        if s[i] >= lo && s[i] < hi {
            count = count + 1;
        }
    }
    assert(s@.take(s@.len() as int) =~= s@);
    SessionBucket { label, count, pct: Ratio { value: count, total: s.len() as i64 } }
}

fn all_buckets(s: &Vec<i64>) -> (r: Vec<SessionBucket>)
    requires
        s@.len() <= i64::MAX,
    ensures
        bucket_views(r@) == buckets_of(s@),
{
    let mut r: Vec<SessionBucket> = Vec::new();
    r.push(bucket(s, 0, 300, "<5 min".to_owned()));
    r.push(bucket(s, 300, 900, "5–15 min".to_owned()));
    r.push(bucket(s, 900, 1800, "15–30 min".to_owned()));
    r.push(bucket(s, 1800, 3600, "30–60 min".to_owned()));
    r.push(bucket(s, 3600, 7200, "1–2 h".to_owned()));
    r.push(bucket(s, 7200, 14400, "2–4 h".to_owned()));
    r.push(bucket(s, 14400, i64::MAX, ">4 h".to_owned()));
    assert(bucket_views(r@) =~= buckets_of(s@));
    r
}

/// The distribution of sorted lengths.
pub fn distribute(s: &Vec<i64>) -> (r: Result<SessionDistribution, StatsError>)
    requires
        s@.len() <= i64::MAX,
    ensures
        match r {
            Ok(d) => distribution_of(s@) == Some(d@),
            Err(e) => e == StatsError::Overflow && distribution_of(s@) is None,
        },
{
    let n: usize = s.len();
    if n == 0 {
        let r = SessionDistribution {
            max_seconds: 0,
            min_seconds: 0,
            median_seconds: 0,
            mean_seconds: 0,
            total_sessions: 0,
            max_seconds_hr: human_readable_time(0),
            min_seconds_hr: human_readable_time(0),
            median_seconds_hr: human_readable_time(0),
            mean_seconds_hr: human_readable_time(0),
            buckets: Vec::new(),
        };
        assert(r@.buckets =~= Seq::<BucketView>::empty());
        return Ok(r);
    }
    let total: i64 = n as i64;
    let sum: i64 = match add_up(s) {
        Some(t) => t,
        None => {
            return Err(StatsError::Overflow);
        },
    };
    let mean_seconds: i64 = trunc_div(sum, total);
    let median_seconds: i64 = if n % 2 == 1 {
        s[(n - 1) / 2]
    } else {
        match s[n / 2 - 1].checked_add(s[n / 2]) {
            Some(t) => trunc_div(t, 2),
            None => {
                return Err(StatsError::Overflow);
            },
        }
    };
    let max_seconds: i64 = s[n - 1];
    let min_seconds: i64 = s[0];
    Ok(
        SessionDistribution {
            max_seconds,
            min_seconds,
            median_seconds,
            mean_seconds,
            total_sessions: total,
            max_seconds_hr: human_readable_time(max_seconds),
            min_seconds_hr: human_readable_time(min_seconds),
            median_seconds_hr: human_readable_time(median_seconds),
            mean_seconds_hr: human_readable_time(mean_seconds),
            buckets: all_buckets(s),
        },
    )
}

/// How the lengths of the wanted sessions are spread.
pub fn compute_session_distribution(
    db: &Database,
    client_id: &str,
    alias: &str,
    command: &str,
) -> (r: Result<SessionDistribution, StatsError>)
    requires
        db.wf(),
    ensures
        match r {
            Ok(d) => !stats::refused(db@.records, client_id@, alias@, command@, Need::Known) && distribution_of(
                lengths(
                    stats::wanted_rows(db@.records, client_id@, alias@, command@, Need::Known),
                ),
            ) == Some(d@),
            Err(e) => if stats::refused(db@.records, client_id@, alias@, command@, Need::Known) {
                e == StatsError::PatternTooLong
            } else {
                e == StatsError::Overflow && distribution_of(
                    lengths(
                        stats::wanted_rows(db@.records, client_id@, alias@, command@, Need::Known),
                    ),
                ) is None
            },
        },
{
    proof {
        db.lemma_wf();
        stats::lemma_row_count(db@, client_id@, alias@, command@, Need::Known);
    }
    let rows = match select_rows(db, client_id, alias, command, Need::Known) {
        Ok(rows) => rows,
        Err(e) => {
            return Err(e);
        },
    };
    let sorted = sort_lengths(&rows);
    distribute(&sorted)
}

} // verus!
