//! What the breakdowns and the distribution of lengths tell of the stored records.

use crate::arith;
use crate::breakdown;
use crate::breakdown::{Grouping, LineView};
use crate::db::{RecordView, Status};
use crate::distribution;
use crate::distribution::DistributionView;
use crate::order;
use crate::rhythm_laws;
use crate::stats;
use crate::stats::{Need, Row};
use crate::summary_laws;
use crate::summary_laws::{counted, is_mean, lemma_counted, lemma_mean, took};
use crate::sums;
use crate::tally;
use crate::text;
use crate::tokens;
use crate::words;
use vstd::prelude::*;

verus! {

// ---------------------------------------------------------------------------------------------
// Breakdowns
// ---------------------------------------------------------------------------------------------

/// What a completed session of the client (of any for `__global__`) is grouped under: its client, its
/// alias or its command where there is one, or the first words of its command. Others under nothing.
pub open spec fn group_of(r: RecordView, client: Seq<char>, by: Grouping) -> Option<Seq<char>> {
    if r.status != Status::Completed || (client != "__global__"@ && r.client_id != client) {
        None
    } else {
        match by {
            Grouping::Client => Some(r.client_id),
            Grouping::Alias => if r.alias is Some && r.alias->0 != ""@ {
                r.alias
            } else {
                None
            },
            Grouping::Command => if r.command is Some && r.command->0 != ""@ {
                r.command
            } else {
                None
            },
            Grouping::Words(depth) => if r.command_tokens is Some {
                breakdown::first_words(r.command_tokens->0, depth as int)
            } else {
                None
            },
        }
    }
}

proof fn lemma_group(r: RecordView, client: Seq<char>, by: Grouping)
    ensures
        breakdown::grouped(client, by)(r) && breakdown::key_of(r, by) is Some ==> group_of(
            r,
            client,
            by,
        ) == breakdown::key_of(r, by),
        group_of(r, client, by) is Some ==> breakdown::grouped(client, by)(r)
            && breakdown::key_of(r, by) == group_of(r, client, by),
{
    reveal_strlit("");
    if r.alias is Some && r.alias->0.len() == 0 {
        assert(r.alias->0 =~= ""@);
    }
    if r.command is Some && r.command->0.len() == 0 {
        assert(r.command->0 =~= ""@);
    }
}

proof fn lemma_items(s: Seq<RecordView>, by: Grouping, items: Seq<tally::Item>, f: spec_fn(tally::Item) -> int)
    requires
        breakdown::items_of(s, by) == Some(items),
    ensures
        items.len() == s.len(),
        forall|i: int|
            0 <= i < s.len() ==> breakdown::key_of(#[trigger] s[i], by) is Some && items[i]
                == breakdown::item_of(s[i], by),
        sums::over(items, f) == sums::over(s, |r: RecordView| f(breakdown::item_of(r, by))),
    decreases s.len(),
{
    let g = |r: RecordView| f(breakdown::item_of(r, by));
    if s.len() > 0 {
        let before = breakdown::items_of(s.drop_last(), by)->0;
        lemma_items(s.drop_last(), by, before, f);
        assert(items == before.push(breakdown::item_of(s.last(), by)));
        sums::law_sum_grows_by_each_item(before, f, breakdown::item_of(s.last(), by));
        sums::lemma_over_last(s, g);
        assert forall|i: int| 0 <= i < s.len() implies breakdown::key_of(
            #[trigger] s[i],
            by,
        ) is Some && items[i] == breakdown::item_of(s[i], by) by {
            if i < s.len() - 1 {
                assert(s.drop_last()[i] == s[i]);
            }
        }
    } else {
        assert(items.map_values(f) =~= s.map_values(g));
    }
}

/// Whether a line tells the sessions of a group: their time, their number, their mean, and these in
/// words.
pub open spec fn tells_group(
    records: Seq<RecordView>,
    client: Seq<char>,
    by: Grouping,
    line: LineView,
) -> bool {
    &&& line.total_seconds == sums::over(
        records,
        |r: RecordView|
            if group_of(r, client, by) == Some(line.key) {
                took(r)
            } else {
                0
            },
    )
    &&& line.total_times == sums::over(
        records,
        |r: RecordView|
            if group_of(r, client, by) == Some(line.key) {
                1int
            } else {
                0
            },
    )
    &&& line.total_times > 0
    &&& is_mean(line.mean_seconds, line.total_seconds, line.total_times)
    &&& line.total_seconds_hr == stats::duration_text(line.total_seconds)
    &&& line.mean_seconds_hr == stats::duration_text(line.mean_seconds)
}

/// A breakdown has a line for each group that has a session, with its sessions' figures, the largest
/// time first; no two lines are of one group.
pub proof fn law_breakdown_tells_its_groups(
    records: Seq<RecordView>,
    client: Seq<char>,
    by: Grouping,
    lines: Seq<LineView>,
)
    requires
        records.len() <= i64::MAX,
        breakdown::breakdown_by(records, client, by) == Ok::<Seq<LineView>, stats::StatsError>(
            lines,
        ),
    ensures
        forall|k: int|
            0 <= k < lines.len() ==> tells_group(records, client, by, #[trigger] lines[k]),
        forall|a: int, b: int|
            0 <= a < b < lines.len() ==> (#[trigger] lines[a]).total_seconds >= (
            #[trigger] lines[b]).total_seconds && lines[a].key != lines[b].key,
        forall|i: int|
            0 <= i < records.len() && group_of(#[trigger] records[i], client, by) is Some
                ==> exists|k: int|
                0 <= k < lines.len() && group_of(records[i], client, by) == Some(
                    (#[trigger] lines[k]).key,
                ),
{
    let wanted = breakdown::grouped(client, by);
    let kept = order::kept(records, wanted);
    let items = breakdown::items_of(kept, by)->0;
    let groups = tally::tally(items)->0;
    let keys = breakdown::group_seconds(groups);
    let sorted = order::sorted(groups, keys, true);
    order::lemma_kept_len(records, wanted);
    order::lemma_kept_member(records, wanted);
    lemma_items(kept, by, items, |x: tally::Item| 0int);
    tally::lemma_tally_totals(items);
    order::lemma_sorted_len(groups, keys, true);
    order::lemma_sorted_member(groups, keys, true);
    let p = order::order(keys, true);
    assert forall|k: int| 0 <= k < lines.len() implies #[trigger] lines[k] == breakdown::line_of(
        groups[p[k]],
    ) by {
        assert(sorted[k] == groups[p[k]]);
    }
    assert forall|k: int| 0 <= k < lines.len() implies tells_group(
        records,
        client,
        by,
        #[trigger] lines[k],
    ) by {
        lemma_line(records, client, by, kept, items, groups, p[k]);
    }
    assert forall|a: int, b: int| 0 <= a < b < lines.len() implies (#[trigger] lines[a]).total_seconds
        >= (#[trigger] lines[b]).total_seconds && lines[a].key != lines[b].key by {
        assert(order::precedes(keys, true, p[a], p[b]));
        assert(lines[a] == breakdown::line_of(groups[p[a]]));
        assert(lines[b] == breakdown::line_of(groups[p[b]]));
        text::lemma_before_total(groups[p[a]].key, groups[p[b]].key);
        if p[a] < p[b] {
            assert(text::before(groups[p[a]].key, groups[p[b]].key));
        } else {
            assert(text::before(groups[p[b]].key, groups[p[a]].key));
        }
    }
    assert forall|i: int|
        0 <= i < records.len() && group_of(
            #[trigger] records[i],
            client,
            by,
        ) is Some implies exists|k: int|
        0 <= k < lines.len() && group_of(records[i], client, by) == Some(
            (#[trigger] lines[k]).key,
        ) by {
        lemma_group(records[i], client, by);
        summary_laws::lemma_kept_holds(records, wanted, i);
        let j = choose|j: int| 0 <= j < kept.len() && kept[j] == records[i];
        assert(items[j] == breakdown::item_of(kept[j], by));
        tally::lemma_value_present(items, j);
        let g = choose|g: int| 0 <= g < groups.len() && #[trigger] groups[g].key == items[j].key;
        assert(groups.contains(groups[g]));
        assert(sorted.contains(groups[g]));
        let k = choose|k: int| 0 <= k < sorted.len() && sorted[k] == groups[g];
        assert(lines[k].key == groups[g].key);
    }
}

proof fn lemma_line(
    records: Seq<RecordView>,
    client: Seq<char>,
    by: Grouping,
    kept: Seq<RecordView>,
    items: Seq<tally::Item>,
    groups: Seq<tally::GroupView>,
    g: int,
)
    requires
        kept == order::kept(records, breakdown::grouped(client, by)),
        breakdown::items_of(kept, by) == Some(items),
        tally::totals(items, groups),
        0 <= g < groups.len(),
    ensures
        tells_group(records, client, by, breakdown::line_of(groups[g])),
{
    let wanted = breakdown::grouped(client, by);
    let key = groups[g].key;
    let line = breakdown::line_of(groups[g]);
    rhythm_laws::lemma_values_over(items, key);
    lemma_mean(line.total_seconds, line.total_times);
    let long = |x: tally::Item|
        if x.key == key {
            x.seconds as int
        } else {
            0
        };
    let one = |x: tally::Item|
        if x.key == key {
            1int
        } else {
            0
        };
    lemma_items(kept, by, items, long);
    lemma_items(kept, by, items, one);
    let long_r = |r: RecordView| long(breakdown::item_of(r, by));
    let one_r = |r: RecordView| one(breakdown::item_of(r, by));
    sums::lemma_over_kept(records, wanted, long_r);
    sums::lemma_over_kept(records, wanted, one_r);
    assert forall|i: int| 0 <= i < records.len() && wanted(#[trigger] records[i]) implies group_of(
        records[i],
        client,
        by,
    ) == breakdown::key_of(records[i], by) && breakdown::key_of(records[i], by) is Some by {
        summary_laws::lemma_kept_holds(records, wanted, i);
        let j = choose|j: int| 0 <= j < kept.len() && kept[j] == records[i];
        assert(breakdown::key_of(kept[j], by) is Some);
        lemma_group(records[i], client, by);
    }
    assert forall|i: int| 0 <= i < records.len() && !wanted(#[trigger] records[i]) implies group_of(
        records[i],
        client,
        by,
    ) is None by {
        lemma_group(records[i], client, by);
    }
    sums::lemma_over_same(
        records,
        |r: RecordView|
            if wanted(r) {
                long_r(r)
            } else {
                0
            },
        |r: RecordView|
            if group_of(r, client, by) == Some(line.key) {
                took(r)
            } else {
                0
            },
    );
    sums::lemma_over_same(
        records,
        |r: RecordView|
            if wanted(r) {
                one_r(r)
            } else {
                0
            },
        |r: RecordView|
            if group_of(r, client, by) == Some(line.key) {
                1int
            } else {
                0
            },
    );
}

/// Commands are told apart as a whole at depth 0, else by their first words: as many as the depth says,
/// but no more than the limit.
pub proof fn law_depth_is_bounded(depth: usize, limit: usize)
    ensures
        depth == 0 || limit == 0 ==> breakdown::command_grouping(depth, limit) == Grouping::Command,
        0 < depth <= limit ==> breakdown::command_grouping(depth, limit) == Grouping::Words(depth),
        0 < limit < depth ==> breakdown::command_grouping(depth, limit) == Grouping::Words(limit),
{
}

/// The first words of a command are its words up to the depth, with a space between them; all of them
/// where it has no more.
pub proof fn law_first_words(stored: Seq<char>, w: Seq<Seq<char>>, depth: int)
    requires
        tokens::json_strings(stored) == Some(w),
        w.len() > 0,
        depth >= 1,
    ensures
        breakdown::first_words(stored, 1) == Some(w[0]),
        depth >= w.len() ==> breakdown::first_words(stored, depth) == breakdown::first_words(
            stored,
            w.len() as int,
        ),
        1 < depth <= w.len() ==> breakdown::first_words(stored, depth) == Some(
            breakdown::first_words(stored, depth - 1)->0 + " "@ + w[depth - 1],
        ),
{
    lemma_join_step(w, 1);
    assert(w.take(1) =~= seq![w[0]]);
    if 1 < depth <= w.len() {
        lemma_join_step(w, depth);
    }
}

proof fn lemma_join_step(w: Seq<Seq<char>>, n: int)
    requires
        1 <= n <= w.len(),
    ensures
        n == 1 ==> words::join(w.take(n), " "@) == w[0],
        n > 1 ==> words::join(w.take(n), " "@) == words::join(w.take(n - 1), " "@) + " "@ + w[n - 1],
{
    let t = w.take(n);
    assert(t.drop_last() =~= w.take(n - 1));
    assert(t.last() == w[n - 1]);
    if n == 1 {
        assert(words::join(t, " "@) =~= w[0]);
    }
}

// ---------------------------------------------------------------------------------------------
// The distribution
// ---------------------------------------------------------------------------------------------

/// Whether a session has a known length and passes the filters.
pub open spec fn measured(
    r: RecordView,
    client: Seq<char>,
    alias: Seq<char>,
    command: Seq<char>,
) -> bool {
    counted(r, client, alias, command) && r.duration_seconds is Some
}

/// How many measured sessions meet a condition on their length.
pub open spec fn how_many(
    records: Seq<RecordView>,
    client: Seq<char>,
    alias: Seq<char>,
    command: Seq<char>,
    p: spec_fn(int) -> bool,
) -> int {
    sums::over(
        records,
        |r: RecordView|
            if measured(r, client, alias, command) && p(took(r)) {
                1int
            } else {
                0
            },
    )
}

/// Whether a length comes at place `k`, from 0 on, of the lengths of the measured sessions from the
/// shortest to the longest.
pub open spec fn at_place(
    records: Seq<RecordView>,
    client: Seq<char>,
    alias: Seq<char>,
    command: Seq<char>,
    v: int,
    k: int,
) -> bool {
    how_many(records, client, alias, command, |n: int| n < v) <= k < how_many(
        records,
        client,
        alias,
        command,
        |n: int| n <= v,
    )
}

proof fn lemma_lengths_over(
    records: Seq<RecordView>,
    client: Seq<char>,
    alias: Seq<char>,
    command: Seq<char>,
    g: spec_fn(int) -> int,
)
    ensures
        sums::over(
            distribution::lengths(
                stats::wanted_rows(records, client, alias, command, Need::Known),
            ),
            |n: i64| g(n as int),
        ) == sums::over(
            records,
            |r: RecordView|
                if measured(r, client, alias, command) {
                    g(took(r))
                } else {
                    0
                },
        ),
{
    let wanted = stats::wants(client, alias, command, Need::Known);
    let kept = order::kept(records, wanted);
    let rows = stats::rows_of(kept);
    let len = |r: Row| r.seconds;
    let all = rows.map_values(len);
    let h = |n: i64| g(n as int);
    assert(all =~= rows.map_values(|r: Row| r.seconds));
    sums::lemma_over_sorted(all, all, false, h);
    sums::lemma_over_map(rows, len, h);
    let row = |r: RecordView| stats::row_of(r);
    let hr = |x: Row| h(len(x));
    sums::lemma_over_map(kept, row, hr);
    assert(rows =~= kept.map_values(row));
    let hk = |r: RecordView| hr(row(r));
    sums::lemma_over_kept(records, wanted, hk);
    let a = |r: RecordView|
        if wanted(r) {
            hk(r)
        } else {
            0
        };
    let b = |r: RecordView|
        if measured(r, client, alias, command) {
            g(took(r))
        } else {
            0
        };
    assert forall|i: int| 0 <= i < records.len() implies a(#[trigger] records[i]) == b(records[i]) by {
        lemma_counted(records[i], client, alias, command);
    }
    sums::lemma_over_same(records, a, b);
}

proof fn lemma_lengths_count(
    records: Seq<RecordView>,
    client: Seq<char>,
    alias: Seq<char>,
    command: Seq<char>,
    p: spec_fn(int) -> bool,
)
    ensures
        sums::over(
            distribution::lengths(
                stats::wanted_rows(records, client, alias, command, Need::Known),
            ),
            |n: i64|
                if p(n as int) {
                    1int
                } else {
                    0
                },
        ) == how_many(records, client, alias, command, p),
{
    let g = |n: int|
        if p(n) {
            1int
        } else {
            0
        };
    let s = distribution::lengths(stats::wanted_rows(records, client, alias, command, Need::Known));
    lemma_lengths_over(records, client, alias, command, g);
    sums::lemma_over_same(
        s,
        |n: i64| g(n as int),
        |n: i64|
            if p(n as int) {
                1int
            } else {
                0
            },
    );
    sums::lemma_over_same(
        records,
        |r: RecordView|
            if measured(r, client, alias, command) {
                g(took(r))
            } else {
                0
            },
        |r: RecordView|
            if measured(r, client, alias, command) && p(took(r)) {
                1int
            } else {
                0
            },
    );
}

proof fn lemma_few(s: Seq<i64>, p: spec_fn(int) -> bool, k: int)
    requires
        0 <= k <= s.len(),
    ensures
        (forall|i: int| k <= i < s.len() ==> !p(#[trigger] s[i] as int)) ==> sums::over(
            s,
            |n: i64|
                if p(n as int) {
                    1int
                } else {
                    0
                },
        ) <= k,
        (forall|i: int| 0 <= i < k ==> p(#[trigger] s[i] as int)) ==> sums::over(
            s,
            |n: i64|
                if p(n as int) {
                    1int
                } else {
                    0
                },
        ) >= k,
    decreases s.len(),
{
    let f = |n: i64|
        if p(n as int) {
            1int
        } else {
            0
        };
    if s.len() > 0 {
        sums::lemma_over_last(s, f);
        let rest = s.drop_last();
        assert(s[s.len() - 1] == s.last());
        assert(forall|i: int| 0 <= i < rest.len() ==> rest[i] == s[i]);
        if k <= rest.len() {
            lemma_few(rest, p, k);
        } else {
            lemma_few(rest, p, k - 1);
        }
    }
}

proof fn lemma_lengths_sorted(rows: Seq<Row>)
    ensures
        forall|a: int, b: int|
            0 <= a <= b < distribution::lengths(rows).len() ==> #[trigger] distribution::lengths(
                rows,
            )[a] <= #[trigger] distribution::lengths(rows)[b],
        distribution::lengths(rows).len() == rows.len(),
{
    let all = rows.map_values(|r: Row| r.seconds);
    let s = distribution::lengths(rows);
    order::lemma_sorted_len(all, all, false);
    let p = order::order(all, false);
    assert forall|a: int, b: int| 0 <= a <= b < s.len() implies #[trigger] s[a]
        <= #[trigger] s[b] by {
        assert(s[a] == all[p[a]]);
        assert(s[b] == all[p[b]]);
        if a < b {
            assert(order::precedes(all, false, p[a], p[b]));
        }
    }
}

proof fn lemma_place(
    records: Seq<RecordView>,
    client: Seq<char>,
    alias: Seq<char>,
    command: Seq<char>,
    s: Seq<i64>,
    k: int,
)
    requires
        s == distribution::lengths(
            stats::wanted_rows(records, client, alias, command, Need::Known),
        ),
        0 <= k < s.len(),
    ensures
        at_place(records, client, alias, command, s[k] as int, k),
{
    let v = s[k] as int;
    let less = |n: int| n < v;
    let upto = |n: int| n <= v;
    lemma_lengths_sorted(stats::wanted_rows(records, client, alias, command, Need::Known));
    lemma_lengths_count(records, client, alias, command, less);
    lemma_lengths_count(records, client, alias, command, upto);
    assert forall|i: int| k <= i < s.len() implies !less(#[trigger] s[i] as int) by {
        assert(s[k] <= s[i]);
    }
    assert forall|i: int| 0 <= i < k + 1 implies upto(#[trigger] s[i] as int) by {
        assert(s[i] <= s[k]);
    }
    lemma_few(s, less, k);
    lemma_few(s, upto, k + 1);
}

proof fn lemma_within(s: Seq<i64>, lo: int, hi: int)
    ensures
        distribution::count_within(s, lo, hi) == sums::over(
            s,
            |n: i64|
                if (|m: int| lo <= m < hi)(n as int) {
                    1int
                } else {
                    0
                },
        ),
    decreases s.len(),
{
    let f = |n: i64|
        if (|m: int| lo <= m < hi)(n as int) {
            1int
        } else {
            0
        };
    if s.len() > 0 {
        sums::lemma_over_last(s, f);
        lemma_within(s.drop_last(), lo, hi);
    }
}

/// The figures of a distribution: the number of the measured sessions, the shortest and the longest
/// length, the mean, and the median, which is the length in the middle, or the mean of the two in the
/// middle, and these in words.
pub proof fn law_distribution_tells_the_lengths(
    records: Seq<RecordView>,
    client: Seq<char>,
    alias: Seq<char>,
    command: Seq<char>,
    d: DistributionView,
)
    requires
        distribution::distribution_of(
            distribution::lengths(
                stats::wanted_rows(records, client, alias, command, Need::Known),
            ),
        ) == Some(d),
    ensures
        d.total_sessions == how_many(records, client, alias, command, |n: int| true),
        d.total_sessions > 0 ==> {
            &&& at_place(records, client, alias, command, d.min_seconds, 0)
            &&& at_place(records, client, alias, command, d.max_seconds, d.total_sessions - 1)
            &&& is_mean(
                d.mean_seconds,
                sums::over(
                    records,
                    |r: RecordView|
                        if measured(r, client, alias, command) {
                            took(r)
                        } else {
                            0
                        },
                ),
                d.total_sessions,
            )
            &&& d.total_sessions % 2 == 1 ==> at_place(
                records,
                client,
                alias,
                command,
                d.median_seconds,
                (d.total_sessions - 1) / 2,
            )
            &&& d.total_sessions % 2 == 0 ==> exists|a: int, b: int|
                {
                    &&& #[trigger] at_place(
                        records,
                        client,
                        alias,
                        command,
                        a,
                        d.total_sessions / 2 - 1,
                    )
                    &&& #[trigger] at_place(
                        records,
                        client,
                        alias,
                        command,
                        b,
                        d.total_sessions / 2,
                    )
                    &&& is_mean(d.median_seconds, a + b, 2)
                }
        },
        d.total_sessions == 0 ==> d.min_seconds == 0 && d.max_seconds == 0 && d.median_seconds == 0
            && d.mean_seconds == 0 && d.buckets.len() == 0,
        d.max_seconds_hr == stats::duration_text(d.max_seconds),
        d.min_seconds_hr == stats::duration_text(d.min_seconds),
        d.median_seconds_hr == stats::duration_text(d.median_seconds),
        d.mean_seconds_hr == stats::duration_text(d.mean_seconds),
{
    let s = distribution::lengths(stats::wanted_rows(records, client, alias, command, Need::Known));
    let any = |n: int| true;
    lemma_lengths_count(records, client, alias, command, any);
    lemma_few(s, any, s.len() as int);
    assert(how_many(records, client, alias, command, any) == s.len()) by {
        assert(forall|i: int| s.len() <= i < s.len() ==> !any(#[trigger] s[i] as int));
    }
    sums::lemma_over_same(
        records,
        |r: RecordView|
            if measured(r, client, alias, command) && any(took(r)) {
                1int
            } else {
                0
            },
        |r: RecordView|
            if measured(r, client, alias, command) && (|n: int| true)(took(r)) {
                1int
            } else {
                0
            },
    );
    if s.len() > 0 {
        let n = s.len() as int;
        lemma_place(records, client, alias, command, s, 0);
        lemma_place(records, client, alias, command, s, n - 1);
        let id = |n: int| n;
        lemma_lengths_over(records, client, alias, command, id);
        assert(distribution::numbers(s) =~= s.map_values(|n: i64| id(n as int)));
        sums::lemma_over_same(
            records,
            |r: RecordView|
                if measured(r, client, alias, command) {
                    id(took(r))
                } else {
                    0
                },
            |r: RecordView|
                if measured(r, client, alias, command) {
                    took(r)
                } else {
                    0
                },
        );
        lemma_mean(arith::sum(distribution::numbers(s)), n);
        if n % 2 == 1 {
            lemma_place(records, client, alias, command, s, (n - 1) / 2);
        } else {
            lemma_place(records, client, alias, command, s, n / 2 - 1);
            lemma_place(records, client, alias, command, s, n / 2);
            lemma_mean(s[n / 2 - 1] + s[n / 2], 2);
        }
    }
}

/// The ranges of a distribution: up to 5, 15, 30 and 60 minutes, 2 and 4 hours, and more. Each tells
/// how many measured sessions have a length in it, and of how many that is a share.
pub proof fn law_ranges_tell_their_sessions(
    records: Seq<RecordView>,
    client: Seq<char>,
    alias: Seq<char>,
    command: Seq<char>,
    d: DistributionView,
)
    requires
        distribution::distribution_of(
            distribution::lengths(
                stats::wanted_rows(records, client, alias, command, Need::Known),
            ),
        ) == Some(d),
        d.total_sessions > 0,
    ensures
        d.buckets.len() == 7,
        d.buckets[0].label == "<5 min"@ && d.buckets[0].count == how_many(
            records,
            client,
            alias,
            command,
            |n: int| 0 <= n < 300,
        ),
        d.buckets[1].label == "5–15 min"@ && d.buckets[1].count == how_many(
            records,
            client,
            alias,
            command,
            |n: int| 300 <= n < 900,
        ),
        d.buckets[2].label == "15–30 min"@ && d.buckets[2].count == how_many(
            records,
            client,
            alias,
            command,
            |n: int| 900 <= n < 1800,
        ),
        d.buckets[3].label == "30–60 min"@ && d.buckets[3].count == how_many(
            records,
            client,
            alias,
            command,
            |n: int| 1800 <= n < 3600,
        ),
        d.buckets[4].label == "1–2 h"@ && d.buckets[4].count == how_many(
            records,
            client,
            alias,
            command,
            |n: int| 3600 <= n < 7200,
        ),
        d.buckets[5].label == "2–4 h"@ && d.buckets[5].count == how_many(
            records,
            client,
            alias,
            command,
            |n: int| 7200 <= n < 14400,
        ),
        d.buckets[6].label == ">4 h"@ && d.buckets[6].count == how_many(
            records,
            client,
            alias,
            command,
            |n: int| 14400 <= n < i64::MAX,
        ),
        forall|k: int|
            0 <= k < 7 ==> (#[trigger] d.buckets[k]).pct == (d.buckets[k].count, d.total_sessions),
{
    lemma_range(records, client, alias, command, 0, 300, |n: int| 0 <= n < 300);
    lemma_range(records, client, alias, command, 300, 900, |n: int| 300 <= n < 900);
    lemma_range(records, client, alias, command, 900, 1800, |n: int| 900 <= n < 1800);
    lemma_range(records, client, alias, command, 1800, 3600, |n: int| 1800 <= n < 3600);
    lemma_range(records, client, alias, command, 3600, 7200, |n: int| 3600 <= n < 7200);
    lemma_range(records, client, alias, command, 7200, 14400, |n: int| 7200 <= n < 14400);
    lemma_range(
        records,
        client,
        alias,
        command,
        14400,
        i64::MAX as int,
        |n: int| 14400 <= n < i64::MAX,
    );
}

proof fn lemma_range(
    records: Seq<RecordView>,
    client: Seq<char>,
    alias: Seq<char>,
    command: Seq<char>,
    lo: int,
    hi: int,
    p: spec_fn(int) -> bool,
)
    requires
        forall|n: int| #[trigger] p(n) == (lo <= n < hi),
    ensures
        distribution::count_within(
            distribution::lengths(
                stats::wanted_rows(records, client, alias, command, Need::Known),
            ),
            lo,
            hi,
        ) == how_many(records, client, alias, command, p),
{
    let s = distribution::lengths(stats::wanted_rows(records, client, alias, command, Need::Known));
    lemma_within(s, lo, hi);
    lemma_lengths_count(records, client, alias, command, p);
    sums::lemma_over_same(
        s,
        |n: i64|
            if (|m: int| lo <= m < hi)(n as int) {
                1int
            } else {
                0
            },
        |n: i64|
            if p(n as int) {
                1int
            } else {
                0
            },
    );
}

} // verus!
