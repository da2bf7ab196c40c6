//! What an import makes of files, and what the report, the administration page and the backups show.

use crate::backup;
use crate::db;
use crate::db::{DbView, ListedView, Status, TokenView};
use crate::encoding;
use crate::html;
use crate::importer;
use crate::importer::ImportFile;
use crate::markdown;
use crate::markdown::Shares;
use crate::order;
use crate::stats::StatsView;
use crate::sums;
use crate::svg_laws;
use crate::svg_laws::holds;
use crate::text;
use crate::words;
use vstd::prelude::*;

verus! {

// ---------------------------------------------------------------------------------------------
// Import
// ---------------------------------------------------------------------------------------------

/// A file that can be read, with a point in time as its name, and a number of seconds on its second
/// line, becomes one more completed session of the client: it starts at that time, takes so many
/// seconds, and has the command that is given, or else that of the first line where there is one, and
/// the alias that is given. What was stored stays.
pub proof fn law_file_becomes_a_session(
    store: DbView,
    client: Seq<char>,
    files: Seq<ImportFile>,
    command: Option<Seq<char>>,
    alias: Option<Seq<char>>,
    now: i64,
    n: int,
    c: Seq<char>,
    start: i64,
    seconds: i64,
)
    requires
        0 <= n < files.len(),
        importer::content_view(files[n].content) == Ok::<Seq<char>, Seq<char>>(c),
        importer::stamp_of(files[n].stem@) == Ok::<int, Seq<char>>(start as int),
        words::split(words::trim(c), '\n').len() >= 2,
        importer::number_value(words::trim(words::split(words::trim(c), '\n')[1])) == Some(
            seconds as int,
        ),
        i64::MIN <= start + seconds <= i64::MAX,
        importer::imported(store, client, files, command, alias, now, n).store.last_id < i64::MAX,
    ensures
        ({
            let before = importer::imported(store, client, files, command, alias, now, n);
            let after = importer::imported(store, client, files, command, alias, now, n + 1);
            let r = after.store.records.last();
            let first = words::trim(words::split(words::trim(c), '\n')[0]);
            &&& after.imported == before.imported + 1
            &&& after.errors == before.errors
            &&& after.store.records.len() == before.store.records.len() + 1
            &&& after.store.records.drop_last() == before.store.records
            &&& r.client_id == client
            &&& r.start_time == start
            &&& r.duration_seconds == Some(seconds)
            &&& r.end_time == Some((start + seconds) as i64)
            &&& r.status == Status::Completed
            &&& r.alias == alias
            &&& command is Some ==> r.command == command
            &&& command is None && first.len() > 0 ==> r.command == Some(first)
            &&& command is None && first.len() == 0 ==> r.command is None
            &&& r.id == before.store.last_id + 1
            &&& r.command_tokens == db::words_of(r.command)
            &&& r.process_id is None
            &&& r.created_at == start
        }),
{
    let before = importer::imported(store, client, files, command, alias, now, n);
    let after = importer::imported(store, client, files, command, alias, now, n + 1);
    assert(after.store.records.drop_last() =~= before.store.records);
}

/// A file that cannot be read, has fewer than two lines, a name that is no point in time, or no number
/// of seconds is reported under its name, and the store stays as it is.
pub proof fn law_bad_file_is_reported(
    store: DbView,
    client: Seq<char>,
    files: Seq<ImportFile>,
    command: Option<Seq<char>>,
    alias: Option<Seq<char>>,
    now: i64,
    n: int,
)
    requires
        0 <= n < files.len(),
        ({
            let content = importer::content_view(files[n].content);
            ||| content is Err
            ||| words::split(words::trim(content->Ok_0), '\n').len() < 2
            ||| importer::stamp_of(files[n].stem@) is Err
            ||| importer::number_value(
                words::trim(words::split(words::trim(content->Ok_0), '\n')[1]),
            ) is None
        }),
    ensures
        ({
            let before = importer::imported(store, client, files, command, alias, now, n);
            let after = importer::imported(store, client, files, command, alias, now, n + 1);
            &&& after.imported == before.imported
            &&& after.store == before.store
            &&& after.errors.len() == before.errors.len() + 1
            &&& after.errors.drop_last() == before.errors
            &&& text::starts_with(after.errors.last(), files[n].stem@ + ": "@)
        }),
{
    let before = importer::imported(store, client, files, command, alias, now, n);
    let after = importer::imported(store, client, files, command, alias, now, n + 1);
    let stem = files[n].stem@;
    let e = after.errors.last();
    assert(after.errors.drop_last() =~= before.errors);
    reveal_strlit(": ");
    reveal_strlit(": read error ");
    reveal_strlit(": insufficient lines");
    reveal_strlit(": parse filename datetime error ");
    reveal_strlit(": parse duration error ");
    assert(e.take((stem + ": "@).len() as int) =~= stem + ": "@);
}

// ---------------------------------------------------------------------------------------------
// The report
// ---------------------------------------------------------------------------------------------

proof fn lemma_period_lines(
    past_n: Seq<crate::stats::PeriodView>,
    shares: Seq<markdown::PeriodShares>,
    n: int,
    k: int,
)
    requires
        0 <= k < n,
    ensures
        holds(
            markdown::period_lines(past_n, shares, n),
            markdown::period_line(past_n[k], shares[k].ratio@, shares[k].day_ratio@),
        ),
    decreases n,
{
    let line = markdown::period_line(past_n[k], shares[k].ratio@, shares[k].day_ratio@);
    let before = markdown::period_lines(past_n, shares, n - 1);
    let last = markdown::period_line(past_n[n - 1], shares[n - 1].ratio@, shares[n - 1].day_ratio@);
    if k == n - 1 {
        svg_laws::lemma_holds_self(line);
        svg_laws::lemma_holds_right(before, last, line);
    } else {
        lemma_period_lines(past_n, shares, n - 1, k);
        svg_laws::lemma_holds_left(before, last, line);
    }
}

proof fn lemma_graphs(svgs: Seq<(Seq<char>, Seq<char>)>, n: int, k: int)
    requires
        0 <= k < n,
    ensures
        holds(markdown::graphs(svgs, n), markdown::graph(svgs[k].0, svgs[k].1)),
    decreases n,
{
    let part = markdown::graph(svgs[k].0, svgs[k].1);
    let before = markdown::graphs(svgs, n - 1);
    let last = markdown::graph(svgs[n - 1].0, svgs[n - 1].1);
    if k == n - 1 {
        svg_laws::lemma_holds_self(part);
        svg_laws::lemma_holds_right(before, last, part);
    } else {
        lemma_graphs(svgs, n - 1, k);
        svg_laws::lemma_holds_left(before, last, part);
    }
}

/// The parts of the report are in it.
proof fn lemma_report_parts(
    s: StatsView,
    shares: Shares,
    all_svg: Seq<char>,
    years: Seq<(Seq<char>, Seq<char>)>,
    part: Seq<char>,
)
    ensures
        ({
            let whole = markdown::report(s, shares, all_svg, years);
            &&& holds(
                markdown::total_section(s.total, shares.total_ratio@, shares.total_day_ratio@),
                part,
            ) ==> holds(whole, part)
            &&& holds(
                markdown::period_lines(s.past_n, shares.past_n@, s.past_n.len() as int),
                part,
            ) ==> holds(whole, part)
            &&& holds(markdown::interval_section(s.interval), part) ==> holds(whole, part)
            &&& holds(markdown::graph("all"@, all_svg), part) ==> holds(whole, part)
            &&& holds(markdown::graphs(years, years.len() as int), part) ==> holds(whole, part)
        }),
{
    let a = markdown::total_section(s.total, shares.total_ratio@, shares.total_day_ratio@);
    let b = "# Past N Stats\n\n"@;
    let c = markdown::period_lines(s.past_n, shares.past_n@, s.past_n.len() as int);
    let d = markdown::interval_section(s.interval);
    let e = "# Activity Graph\n\n"@;
    let f = markdown::graph("all"@, all_svg);
    let g = markdown::graphs(years, years.len() as int);
    if holds(a, part) {
        svg_laws::lemma_holds_left(a, b, part);
        svg_laws::lemma_holds_left(a + b, c, part);
        svg_laws::lemma_holds_left(a + b + c, d, part);
        svg_laws::lemma_holds_left(a + b + c + d, e, part);
        svg_laws::lemma_holds_left(a + b + c + d + e, f, part);
        svg_laws::lemma_holds_left(a + b + c + d + e + f, g, part);
    }
    if holds(c, part) {
        svg_laws::lemma_holds_right(a + b, c, part);
        svg_laws::lemma_holds_left(a + b + c, d, part);
        svg_laws::lemma_holds_left(a + b + c + d, e, part);
        svg_laws::lemma_holds_left(a + b + c + d + e, f, part);
        svg_laws::lemma_holds_left(a + b + c + d + e + f, g, part);
    }
    if holds(d, part) {
        svg_laws::lemma_holds_right(a + b + c, d, part);
        svg_laws::lemma_holds_left(a + b + c + d, e, part);
        svg_laws::lemma_holds_left(a + b + c + d + e, f, part);
        svg_laws::lemma_holds_left(a + b + c + d + e + f, g, part);
    }
    if holds(f, part) {
        svg_laws::lemma_holds_right(a + b + c + d + e, f, part);
        svg_laws::lemma_holds_left(a + b + c + d + e + f, g, part);
    }
    if holds(g, part) {
        svg_laws::lemma_holds_right(a + b + c + d + e + f, g, part);
    }
}

/// The report tells the totals: since when, the seconds with their share and in words, and the times
/// with their share of the days and the mean.
pub proof fn law_report_tells_the_totals(
    s: StatsView,
    shares: Shares,
    all_svg: Seq<char>,
    years: Seq<(Seq<char>, Seq<char>)>,
)
    ensures
        holds(
            markdown::report(s, shares, all_svg, years),
            "# Total\n\n"@ + s.total.total_duration_hr + " FROM "@ + s.total.from_date + "\n\n"@
                + text::dec(s.total.total_seconds) + " seconds ("@ + shares.total_ratio@
                + " %), as "@ + s.total.total_seconds_hr + "\n\n"@ + text::dec(s.total.total_times)
                + " times ("@ + shares.total_day_ratio@ + " % of days), "@ + text::dec(
                s.total.mean_usage,
            ) + " seconds every time\n\n"@,
        ),
{
    let part = markdown::total_section(s.total, shares.total_ratio@, shares.total_day_ratio@);
    svg_laws::lemma_holds_self(part);
    lemma_report_parts(s, shares, all_svg, years, part);
}

/// The report has a line for each period: its name, its seconds with their share, its times with
/// their share of the days, and the mean.
pub proof fn law_report_tells_each_period(
    s: StatsView,
    shares: Shares,
    all_svg: Seq<char>,
    years: Seq<(Seq<char>, Seq<char>)>,
    k: int,
)
    requires
        0 <= k < s.past_n.len(),
        shares.past_n@.len() == s.past_n.len(),
    ensures
        holds(
            markdown::report(s, shares, all_svg, years),
            "- "@ + s.past_n[k].name + ": "@ + text::dec(s.past_n[k].seconds) + " seconds ("@
                + shares.past_n@[k].ratio@ + " %) = "@ + text::dec(s.past_n[k].times) + " times ("@
                + shares.past_n@[k].day_ratio@ + " % of days) * "@ + text::dec(
                s.past_n[k].mean_usage,
            ) + " seconds every time\n\n"@,
        ),
{
    lemma_period_lines(s.past_n, shares.past_n@, s.past_n.len() as int, k);
    lemma_report_parts(
        s,
        shares,
        all_svg,
        years,
        markdown::period_line(
            s.past_n[k],
            shares.past_n@[k].ratio@,
            shares.past_n@[k].day_ratio@,
        ),
    );
}

/// The report tells the intervals.
pub proof fn law_report_tells_the_intervals(
    s: StatsView,
    shares: Shares,
    all_svg: Seq<char>,
    years: Seq<(Seq<char>, Seq<char>)>,
)
    ensures
        holds(
            markdown::report(s, shares, all_svg, years),
            "# Interval\n\n- day "@ + text::dec(s.interval.current_interval) + "!\n- Max: "@
                + text::dec(s.interval.max_interval) + "\n- Mean: "@ + text::dec(
                s.interval.mean_interval,
            ) + " s, "@ + s.interval.mean_interval_hr + "\n\n"@,
        ),
{
    let part = markdown::interval_section(s.interval);
    svg_laws::lemma_holds_self(part);
    lemma_report_parts(s, shares, all_svg, years, part);
}

/// The report embeds the calendar of all time and that of each year, under its name.
pub proof fn law_report_embeds_the_calendars(
    s: StatsView,
    shares: Shares,
    all_svg: Seq<char>,
    years: Seq<(Seq<char>, Seq<char>)>,
    k: int,
)
    ensures
        holds(markdown::report(s, shares, all_svg, years), embedded("all"@, all_svg)),
        0 <= k < years.len() ==> holds(
            markdown::report(s, shares, all_svg, years),
            embedded(years[k].0, years[k].1),
        ),
{
    let part = embedded("all"@, all_svg);
    svg_laws::lemma_holds_self(part);
    lemma_report_parts(s, shares, all_svg, years, part);
    if 0 <= k < years.len() {
        lemma_graphs(years, years.len() as int, k);
        lemma_report_parts(s, shares, all_svg, years, embedded(years[k].0, years[k].1));
    }
}

/// A drawing under its name, embedded as base64 data.
pub open spec fn embedded(name: Seq<char>, svg: Seq<char>) -> Seq<char> {
    "## "@ + name + "\n\n!["@ + name + "](data:image/svg+xml;base64,"@ + encoding::base64_text(
        encoding::bytes_of(svg),
    ) + ")\n\n"@
}

// ---------------------------------------------------------------------------------------------
// The administration page
// ---------------------------------------------------------------------------------------------

proof fn lemma_session_rows(s: Seq<ListedView>, now: int, n: int, k: int)
    requires
        0 <= k < n,
    ensures
        holds(html::session_rows(s, now, n), html::session_row(s[k], now)),
    decreases n,
{
    let part = html::session_row(s[k], now);
    let before = html::session_rows(s, now, n - 1);
    let last = html::session_row(s[n - 1], now);
    if k == n - 1 {
        svg_laws::lemma_holds_self(part);
        svg_laws::lemma_holds_right(before, last, part);
    } else {
        lemma_session_rows(s, now, n - 1, k);
        svg_laws::lemma_holds_left(before, last, part);
    }
}

proof fn lemma_token_rows(s: Seq<TokenView>, n: int, k: int)
    requires
        0 <= k < n,
    ensures
        holds(html::token_rows(s, n), html::token_row(s[k])),
    decreases n,
{
    let part = html::token_row(s[k]);
    let before = html::token_rows(s, n - 1);
    let last = html::token_row(s[n - 1]);
    if k == n - 1 {
        svg_laws::lemma_holds_self(part);
        svg_laws::lemma_holds_right(before, last, part);
    } else {
        lemma_token_rows(s, n - 1, k);
        svg_laws::lemma_holds_left(before, last, part);
    }
}

/// A text that is there, or a dash.
pub open spec fn shown(t: Option<Seq<char>>) -> Seq<char> {
    if t is Some {
        t->0
    } else {
        "-"@
    }
}

/// The page has a row for each running session: its number, its client, its alias, its command with
/// the markup taken out, its process, its start, the seconds since then, and the buttons that end and
/// discard it.
pub proof fn law_page_shows_each_running_session(
    sessions: Seq<ListedView>,
    tokens: Seq<TokenView>,
    now: int,
    k: int,
)
    requires
        0 <= k < sessions.len(),
    ensures
        ({
            let r = sessions[k];
            holds(
                html::admin_page(sessions, tokens, now),
                "<tr><td>"@ + text::dec(r.id as int) + "</td><td>"@ + r.client_id + "</td><td>"@
                    + shown(r.alias) + "</td><td class=\"code\">"@ + html::escaped(shown(r.command))
                    + "</td><td>"@ + (if r.process_id is Some {
                    text::dec(r.process_id->0 as int)
                } else {
                    "-"@
                }) + "</td><td>"@ + html::stamp_text(r.start_time as int) + "</td><td>"@ + text::dec(
                    now - r.start_time,
                )
                    + "s</td>\n                <td><button class=\"btn btn-end\" onclick=\"endSession("@
                    + text::dec(r.id as int)
                    + ")\">End</button>\n                <button class=\"btn btn-discard\" onclick=\"discardSession("@
                    + text::dec(r.id as int) + ")\">Discard</button></td></tr>"@,
            )
        }),
{
    let part = html::session_row(sessions[k], now);
    let rows = html::session_rows(sessions, now, sessions.len() as int);
    lemma_session_rows(sessions, now, sessions.len() as int, k);
    let top =
        "<table><tr><th>ID</th><th>Client</th><th>Alias</th><th>Command</th><th>PID</th><th>Start</th><th>Running</th><th>Action</th></tr>"@;
    svg_laws::lemma_holds_right(top, rows, part);
    svg_laws::lemma_holds_left(top + rows, "</table>"@, part);
    let list = html::sessions_part(sessions, now);
    let head = html::PAGE_HEAD@;
    svg_laws::lemma_holds_right(head, list, part);
    svg_laws::lemma_holds_left(head + list, html::PAGE_MIDDLE@, part);
    svg_laws::lemma_holds_left(head + list + html::PAGE_MIDDLE@, html::tokens_part(tokens), part);
    svg_laws::lemma_holds_left(
        head + list + html::PAGE_MIDDLE@ + html::tokens_part(tokens),
        html::PAGE_END@,
        part,
    );
}

/// The page has a row for each token: what may be shown of it, its description, when it was made, and
/// the button that revokes it.
pub proof fn law_page_shows_each_token(
    sessions: Seq<ListedView>,
    tokens: Seq<TokenView>,
    now: int,
    k: int,
)
    requires
        0 <= k < tokens.len(),
    ensures
        ({
            let t = tokens[k];
            holds(
                html::admin_page(sessions, tokens, now),
                "<tr><td class=\"token-preview\">"@ + html::preview(t.token) + "</td><td>"@ + shown(
                    t.description,
                ) + "</td><td>"@ + html::stamp_text(t.created_at as int)
                    + "</td>\n                <td><button class=\"btn btn-discard\" onclick=\"revokeToken('"@
                    + html::escaped(t.token) + "')\">Revoke</button></td></tr>"@,
            )
        }),
{
    let part = html::token_row(tokens[k]);
    let rows = html::token_rows(tokens, tokens.len() as int);
    lemma_token_rows(tokens, tokens.len() as int, k);
    let top = "<table><tr><th>Token</th><th>Description</th><th>Created</th><th>Action</th></tr>"@;
    svg_laws::lemma_holds_right(top, rows, part);
    svg_laws::lemma_holds_left(top + rows, "</table>"@, part);
    let list = html::tokens_part(tokens);
    let front = html::PAGE_HEAD@ + html::sessions_part(sessions, now) + html::PAGE_MIDDLE@;
    svg_laws::lemma_holds_right(front, list, part);
    svg_laws::lemma_holds_left(front + list, html::PAGE_END@, part);
}

/// Where no session runs or there is no token, the page says so.
pub proof fn law_page_says_what_is_missing(
    sessions: Seq<ListedView>,
    tokens: Seq<TokenView>,
    now: int,
)
    ensures
        sessions.len() == 0 ==> holds(
            html::admin_page(sessions, tokens, now),
            "<p>No orphaned sessions.</p>"@,
        ),
        tokens.len() == 0 ==> holds(
            html::admin_page(sessions, tokens, now),
            "<p>No tokens.</p>"@,
        ),
{
    let head = html::PAGE_HEAD@;
    let a = html::sessions_part(sessions, now);
    let mid = html::PAGE_MIDDLE@;
    let b = html::tokens_part(tokens);
    let end = html::PAGE_END@;
    svg_laws::lemma_holds_self(a);
    svg_laws::lemma_holds_self(b);
    svg_laws::lemma_holds_right(head, a, a);
    svg_laws::lemma_holds_left(head + a, mid, a);
    svg_laws::lemma_holds_left(head + a + mid, b, a);
    svg_laws::lemma_holds_left(head + a + mid + b, end, a);
    svg_laws::lemma_holds_right(head + a + mid, b, b);
    svg_laws::lemma_holds_left(head + a + mid + b, end, b);
}

// ---------------------------------------------------------------------------------------------
// Backups
// ---------------------------------------------------------------------------------------------

/// A backup goes into a directory under a name with the time, and else where it was told.
pub proof fn law_backup_goes_where_it_is_told(output: Seq<char>, local: int)
    ensures
        backup::output_path(output.push('/'), true, local) == output.push('/') + "tspan-backup-"@
            + backup::stamp(local) + ".db"@,
        backup::output_path(output.push('/'), false, local) == output.push('/') + "tspan-backup-"@
            + backup::stamp(local) + ".db"@,
        output.len() == 0 || output.last() != '/' ==> backup::output_path(output, true, local)
            == output + "/"@ + "tspan-backup-"@ + backup::stamp(local) + ".db"@,
        output.len() == 0 || output.last() != '/' ==> backup::output_path(output, false, local)
            == output,
        backup::is_backup(backup::name_at(local)),
{
    reveal_strlit("/");
    let with = output.push('/');
    assert(with.skip(with.len() - 1) =~= "/"@);
    assert(with + backup::name_at(local) =~= with + "tspan-backup-"@ + backup::stamp(local)
        + ".db"@);
    if backup::ends_with(output, "/"@) {
        assert(output.skip(output.len() - 1)[0] == output.last());
    }
    assert(output + "/"@ + backup::name_at(local) =~= output + "/"@ + "tspan-backup-"@
        + backup::stamp(local) + ".db"@);
    let name = backup::name_at(local);
    assert(name.take("tspan-backup-"@.len() as int) =~= "tspan-backup-"@);
    assert(name.skip(name.len() - ".db"@.len()) =~= ".db"@);
}

/// Backups are known by both ends of their name; no other file is taken for one.
pub proof fn law_backups_are_known_by_their_name(middle: Seq<char>, name: Seq<char>)
    ensures
        backup::is_backup("tspan-backup-"@ + middle + ".db"@),
        backup::is_backup(name) ==> name.len() >= 13 && name.take(13) == "tspan-backup-"@,
        backup::is_backup(name) ==> name[name.len() - 3] == '.' && name[name.len() - 2] == 'd'
            && name[name.len() - 1] == 'b',
{
    reveal_strlit("tspan-backup-");
    reveal_strlit(".db");
    let whole = "tspan-backup-"@ + middle + ".db"@;
    assert(whole.take(13) =~= "tspan-backup-"@);
    assert(whole.skip(whole.len() - 3) =~= ".db"@);
    if backup::is_backup(name) {
        let tail = name.skip(name.len() - 3);
        assert(tail[0] == '.' && tail[1] == 'd' && tail[2] == 'b');
    }
}

/// A clean-up that is to keep none keeps all; else it removes as many backups as there are more than
/// it keeps.
pub proof fn law_cleanup_removes_the_surplus(entries: Seq<backup::Entry>, keep: usize)
    ensures
        keep == 0 ==> backup::outdated(entries, keep).len() == 0,
        ({
            let backups = sums::over(
                entries,
                |e: backup::Entry|
                    if backup::is_backup(e.name@) {
                        1int
                    } else {
                        0
                    },
            );
            keep > 0 ==> backup::outdated(entries, keep).len() == (if backups > keep {
                backups - keep
            } else {
                0
            })
        }),
{
    let wanted = backup::backups_only();
    let found = order::kept(entries, wanted);
    sums::lemma_kept_count(entries, wanted);
    sums::lemma_over_same(
        entries,
        |e: backup::Entry|
            if wanted(e) {
                1int
            } else {
                0
            },
        |e: backup::Entry|
            if backup::is_backup(e.name@) {
                1int
            } else {
                0
            },
    );
    order::lemma_sorted_len(found, found.map_values(|e: backup::Entry| backup::age_key(e)), true);
}

} // verus!
