//! What the server answers, as the terminal interface holds it. Shares are texts with one digit
//! after the point.

pub use crate::breakdown::{AliasStat, ClientStat, CommandStat};
pub use crate::db::ApiToken;
pub use crate::rhythm::StreakStats;
pub use crate::server::{
    CreateTokenReq, CreateTokenResp, EndSessionResp, OrphanedSession, RecordPageItem,
    RecordsPageResp,
};
pub use crate::stats::{human_readable_time, IntervalStats};
use vstd::prelude::*;

verus! {

/// The figures over all time.
#[derive(Debug)]
pub struct TotalStats {
    pub total_days: i64,
    pub active_days: i64,
    pub total_seconds: i64,
    pub total_times: i64,
    pub mean_usage: i64,
    pub total_ratio: String,
    pub total_day_ratio: String,
    pub from_date: String,
    pub total_duration_hr: String,
    pub total_seconds_hr: String,
    pub mean_usage_hr: String,
}

/// The figures of a recent period.
#[derive(Debug)]
pub struct PastNStat {
    pub name: String,
    pub seconds: i64,
    pub ratio: String,
    pub times: i64,
    pub day_ratio: String,
    pub days: i64,
    pub mean_usage: i64,
}

/// The summary.
#[derive(Debug)]
pub struct Stats {
    pub total: TotalStats,
    pub past_n: Vec<PastNStat>,
    pub interval: IntervalStats,
}

/// A range of durations and the sessions in it.
#[derive(Debug)]
pub struct SessionBucket {
    pub label: String,
    pub count: i64,
    pub pct: String,
}

/// How long the sessions were.
#[derive(Debug)]
pub struct SessionDistribution {
    pub max_seconds: i64,
    pub min_seconds: i64,
    pub median_seconds: i64,
    pub mean_seconds: i64,
    pub total_sessions: i64,
    pub max_seconds_hr: String,
    pub min_seconds_hr: String,
    pub median_seconds_hr: String,
    pub mean_seconds_hr: String,
    pub buckets: Vec<SessionBucket>,
}

} // verus!
