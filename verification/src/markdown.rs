//! The summary as a Markdown report.

use crate::encoding;
use crate::encoding::base64_of;
use crate::stats;
use crate::stats::{PastNStat, Stats};
use crate::svg_calendar;
use crate::text;
use crate::text::int_text;
use vstd::prelude::*;

verus! {

/// The shares of one period as text, in percent with two decimals.
pub struct PeriodShares {
    pub ratio: String,
    pub day_ratio: String,
}

/// The shares of a summary as text, in percent with two decimals.
pub struct Shares {
    pub total_ratio: String,
    pub total_day_ratio: String,
    pub past_n: Vec<PeriodShares>,
}

/// The first section: totals.
pub open spec fn total_section(t: stats::TotalView, ratio: Seq<char>, day_ratio: Seq<char>) -> Seq<
    char,
> {
    "# Total\n\n"@ + t.total_duration_hr + " FROM "@ + t.from_date + "\n\n"@ + text::dec(
        t.total_seconds,
    ) + " seconds ("@ + ratio + " %), as "@ + t.total_seconds_hr + "\n\n"@ + text::dec(
        t.total_times,
    ) + " times ("@ + day_ratio + " % of days), "@ + text::dec(t.mean_usage)
        + " seconds every time\n\n"@
}

/// One period.
pub open spec fn period_line(p: stats::PeriodView, ratio: Seq<char>, day_ratio: Seq<char>) -> Seq<
    char,
> {
    "- "@ + p.name + ": "@ + text::dec(p.seconds) + " seconds ("@ + ratio + " %) = "@ + text::dec(
        p.times,
    ) + " times ("@ + day_ratio + " % of days) * "@ + text::dec(p.mean_usage)
        + " seconds every time\n\n"@
}

/// The first `n` periods.
pub open spec fn period_lines(
    past_n: Seq<stats::PeriodView>,
    shares: Seq<PeriodShares>,
    n: int,
) -> Seq<char>
    decreases n,
{
    if n <= 0 {
        Seq::empty()
    } else {
        period_lines(past_n, shares, n - 1) + period_line(
            past_n[n - 1],
            shares[n - 1].ratio@,
            shares[n - 1].day_ratio@,
        )
    }
}

/// The intervals.
pub open spec fn interval_section(i: stats::IntervalView) -> Seq<char> {
    "# Interval\n\n- day "@ + text::dec(i.current_interval) + "!\n- Max: "@ + text::dec(
        i.max_interval,
    ) + "\n- Mean: "@ + text::dec(i.mean_interval) + " s, "@ + i.mean_interval_hr + "\n\n"@
}

/// A drawing under a heading, embedded as data.
pub open spec fn graph(name: Seq<char>, svg: Seq<char>) -> Seq<char> {
    "## "@ + name + "\n\n!["@ + name + "](data:image/svg+xml;base64,"@ + encoding::base64_text(
        encoding::bytes_of(svg),
    ) + ")\n\n"@
}

/// The first `n` named drawings.
pub open spec fn graphs(svgs: Seq<(Seq<char>, Seq<char>)>, n: int) -> Seq<char>
    decreases n,
{
    if n <= 0 {
        Seq::empty()
    } else {
        graphs(svgs, n - 1) + graph(svgs[n - 1].0, svgs[n - 1].1)
    }
}

/// The whole report.
pub open spec fn report(
    s: stats::StatsView,
    shares: Shares,
    all_svg: Seq<char>,
    years: Seq<(Seq<char>, Seq<char>)>,
) -> Seq<char> {
    total_section(s.total, shares.total_ratio@, shares.total_day_ratio@) + "# Past N Stats\n\n"@
        + period_lines(s.past_n, shares.past_n@, s.past_n.len() as int) + interval_section(
        s.interval,
    ) + "# Activity Graph\n\n"@ + graph("all"@, all_svg) + graphs(years, years.len() as int)
}

fn total_string(s: &Stats, shares: &Shares) -> (r: String)
    ensures
        r@ == total_section(s@.total, shares.total_ratio@, shares.total_day_ratio@),
{
    let mut r = "# Total\n\n".to_owned();
    r.append(s.total.total_duration_hr.as_str());
    r.append(" FROM ");
    r.append(s.total.from_date.as_str());
    r.append("\n\n");
    r.append(int_text(s.total.total_seconds).as_str());
    r.append(" seconds (");
    r.append(shares.total_ratio.as_str());
    r.append(" %), as ");
    r.append(s.total.total_seconds_hr.as_str());
    r.append("\n\n");
    r.append(int_text(s.total.total_times).as_str());
    r.append(" times (");
    r.append(shares.total_day_ratio.as_str());
    r.append(" % of days), ");
    r.append(int_text(s.total.mean_usage).as_str());
    r.append(" seconds every time\n\n");
    r
}

fn period_string(p: &PastNStat, shares: &PeriodShares) -> (r: String)
    ensures
        r@ == period_line(p@, shares.ratio@, shares.day_ratio@),
{
    let mut r = "- ".to_owned();
    r.append(p.name.as_str());
    r.append(": ");
    r.append(int_text(p.seconds).as_str());
    r.append(" seconds (");
    r.append(shares.ratio.as_str());
    r.append(" %) = ");
    r.append(int_text(p.times).as_str());
    r.append(" times (");
    r.append(shares.day_ratio.as_str());
    r.append(" % of days) * ");
    r.append(int_text(p.mean_usage).as_str());
    r.append(" seconds every time\n\n");
    r
}

fn interval_string(s: &Stats) -> (r: String)
    ensures
        r@ == interval_section(s@.interval),
{
    let mut r = "# Interval\n\n- day ".to_owned();
    r.append(int_text(s.interval.current_interval).as_str());
    r.append("!\n- Max: ");
    r.append(int_text(s.interval.max_interval).as_str());
    r.append("\n- Mean: ");
    r.append(int_text(s.interval.mean_interval).as_str());
    r.append(" s, ");
    r.append(s.interval.mean_interval_hr.as_str());
    r.append("\n\n");
    r
}

fn graph_string(name: &str, svg: &str) -> (r: String)
    ensures
        r@ == graph(name@, svg@),
{
    let mut r = "## ".to_owned();
    r.append(name);
    r.append("\n\n![");
    r.append(name);
    r.append("](data:image/svg+xml;base64,");
    r.append(base64_of(svg).as_str());
    r.append(")\n\n");
    r
}

/// The report of a summary with its calendars. The shares of the summary come as text.
pub fn generate_markdown_report(
    stats: &Stats,
    shares: &Shares,
    all_svg: &str,
    year_svgs: &[(String, String)],
) -> (r: String)
    requires
        shares.past_n@.len() == stats.past_n@.len(),
    ensures
        r@ == report(stats@, *shares, all_svg@, svg_calendar::named(year_svgs@)),
{
    let mut periods = String::new();
    assert(periods@ =~= period_lines(stats@.past_n, shares.past_n@, 0));
    for i in 0..stats.past_n.len()
        invariant
            shares.past_n@.len() == stats.past_n@.len(),
            periods@ == period_lines(stats@.past_n, shares.past_n@, i as int),
    {
        assert(stats@.past_n[i as int] == stats.past_n@[i as int]@);
        periods.append(period_string(&stats.past_n[i], &shares.past_n[i]).as_str());
    }
    let ghost years = svg_calendar::named(year_svgs@);
    let mut drawn = String::new();
    assert(drawn@ =~= graphs(years, 0));
    for i in 0..year_svgs.len()
        invariant
            years == svg_calendar::named(year_svgs@),
            drawn@ == graphs(years, i as int),
    {
        let entry = &year_svgs[i];
        assert(years[i as int] == (entry.0@, entry.1@));
        drawn.append(graph_string(entry.0.as_str(), entry.1.as_str()).as_str());
    }
    let mut r = total_string(stats, shares);
    r.append("# Past N Stats\n\n");
    r.append(periods.as_str());
    r.append(interval_string(stats).as_str());
    r.append("# Activity Graph\n\n");
    r.append(graph_string("all", all_svg).as_str());
    r.append(drawn.as_str());
    r
}

} // verus!
