//! What the filters let through and what a summary tells of it, said of the stored records.

use crate::arith;
use crate::calendar;
use crate::db::{RecordView, Status};
use crate::order;
use crate::pattern;
use crate::stats;
use crate::stats::{Need, PeriodView, Row, Span, StatsView};
use crate::sums;
use crate::text;
use crate::zone;
use vstd::prelude::*;

verus! {

// ---------------------------------------------------------------------------------------------
// Filters
// ---------------------------------------------------------------------------------------------

/// Whether a record is a completed session of the client (of any where none or `__global__` is
/// named), with the alias and with a command that contains the text, as far as these are given.
pub open spec fn counted(
    r: RecordView,
    client: Seq<char>,
    alias: Seq<char>,
    command: Seq<char>,
) -> bool {
    &&& r.status == Status::Completed
    &&& client.len() == 0 || client == "__global__"@ || r.client_id == client
    &&& alias.len() == 0 || (r.alias is Some && r.alias->0 == alias)
    &&& command.len() == 0 || (r.command is Some && pattern::contains_like(r.command->0, command))
}

/// How long a session took; an unknown duration counts as none.
pub open spec fn took(r: RecordView) -> int {
    match r.duration_seconds {
        Some(d) => d as int,
        None => 0,
    }
}

/// A statistic takes in exactly the completed sessions that pass each filter that is given: the
/// client is the one named, the alias is the one named, the command is there and contains the text.
pub proof fn law_filters_decide(
    r: RecordView,
    client: Seq<char>,
    alias: Seq<char>,
    command: Seq<char>,
)
    ensures
        stats::wants(client, alias, command, Need::Nothing)(r) <==> {
            &&& r.status == Status::Completed
            &&& client == ""@ || client == "__global__"@ || r.client_id == client
            &&& alias == ""@ || r.alias == Some(alias)
            &&& command == ""@ || (r.command is Some && pattern::contains_like(
                r.command->0,
                command,
            ))
        },
        stats::wants(client, alias, command, Need::Known)(r) <==> stats::wants(
            client,
            alias,
            command,
            Need::Nothing,
        )(r) && r.duration_seconds is Some,
        stats::wants(client, alias, command, Need::Positive)(r) <==> stats::wants(
            client,
            alias,
            command,
            Need::Known,
        )(r) && r.duration_seconds->0 > 0,
{
    reveal_strlit("");
    assert(client.len() == 0 ==> client =~= ""@);
    assert(alias.len() == 0 ==> alias =~= ""@);
    assert(command.len() == 0 ==> command =~= ""@);
}

/// A completed session is found by its own client, its own alias and its own command, also all of
/// them together.
pub proof fn law_session_is_found_by_its_own(r: RecordView)
    requires
        r.status == Status::Completed,
        r.alias is Some,
        r.command is Some,
    ensures
        stats::wants(""@, ""@, ""@, Need::Nothing)(r),
        stats::wants("__global__"@, ""@, ""@, Need::Nothing)(r),
        stats::wants(r.client_id, ""@, ""@, Need::Nothing)(r),
        stats::wants(""@, r.alias->0, ""@, Need::Nothing)(r),
        stats::wants(""@, ""@, r.command->0, Need::Nothing)(r),
        stats::wants(r.client_id, r.alias->0, r.command->0, Need::Nothing)(r),
{
    law_text_contains_itself(r.command->0);
    law_filters_decide(r, ""@, ""@, ""@);
    law_filters_decide(r, "__global__"@, ""@, ""@);
    law_filters_decide(r, r.client_id, ""@, ""@);
    law_filters_decide(r, ""@, r.alias->0, ""@);
    law_filters_decide(r, ""@, ""@, r.command->0);
    law_filters_decide(r, r.client_id, r.alias->0, r.command->0);
}

/// A session of another client or under another alias is not counted, nor one without a command
/// where a command is asked for, nor one that does not contain the text asked for.
pub proof fn law_other_sessions_are_left_out(
    r: RecordView,
    client: Seq<char>,
    alias: Seq<char>,
    command: Seq<char>,
    need: Need,
)
    ensures
        client != ""@ && client != "__global__"@ && r.client_id != client ==> !stats::wants(
            client,
            alias,
            command,
            need,
        )(r),
        alias != ""@ && r.alias != Some(alias) ==> !stats::wants(client, alias, command, need)(r),
        command != ""@ && r.command is None ==> !stats::wants(client, alias, command, need)(r),
        command != ""@ && r.command is Some && !pattern::contains_like(r.command->0, command)
            ==> !stats::wants(client, alias, command, need)(r),
        r.status != Status::Completed ==> !stats::wants(client, alias, command, need)(r),
{
    reveal_strlit("");
    assert(client.len() == 0 ==> client =~= ""@);
    assert(alias.len() == 0 ==> alias =~= ""@);
    assert(command.len() == 0 ==> command =~= ""@);
}

// ---------------------------------------------------------------------------------------------
// Text in text
// ---------------------------------------------------------------------------------------------

proof fn lemma_like_any(t: Seq<char>)
    ensures
        pattern::like(seq!['%'], t),
    decreases t.len(),
{
    let p = seq!['%'];
    assert(p.drop_first() =~= Seq::<char>::empty());
    if t.len() > 0 {
        lemma_like_any(t.drop_first());
    } else {
        assert(pattern::like(p.drop_first(), t));
    }
}

proof fn lemma_like_self(w: Seq<char>, tail: Seq<char>)
    requires
        tail == seq!['%'] || tail == Seq::<char>::empty(),
    ensures
        pattern::like(w + tail, w),
    decreases w.len(),
{
    if w.len() == 0 {
        assert(w + tail =~= tail);
        if tail.len() > 0 {
            lemma_like_any(w);
        }
    } else {
        lemma_like_self(w.drop_first(), tail);
        assert((w + tail).drop_first() =~= w.drop_first() + tail);
        if w[0] == '%' {
            assert(pattern::like((w + tail).drop_first(), w.drop_first()));
            let p = w + tail;
            let t = w.drop_first();
            // The sign stands for any run of characters, also for this one alone.
            assert(pattern::like(p, t));
            assert(pattern::like(p, w));
        }
    }
}

proof fn lemma_upto(s: Seq<char>)
    ensures
        pattern::upto_nul(s).len() <= s.len(),
        pattern::upto_nul(s) == s.take(pattern::upto_nul(s).len() as int),
        !pattern::upto_nul(s).contains('\0'),
        !s.contains('\0') ==> pattern::upto_nul(s) == s,
        pattern::upto_nul(s).len() < s.len() ==> s[pattern::upto_nul(s).len() as int] == '\0',
    decreases s.len(),
{
    if s.len() > 0 && s[0] != '\0' {
        let rest = s.drop_first();
        lemma_upto(rest);
        let u = pattern::upto_nul(s);
        assert(u =~= s.take(u.len() as int)) by {
            assert forall|i: int| 0 < i < u.len() implies u[i] == s[i] by {
                assert(u[i] == pattern::upto_nul(rest)[i - 1]);
                assert(rest.take(pattern::upto_nul(rest).len() as int)[i - 1] == rest[i - 1]);
            }
        }
        assert(!u.contains('\0')) by {
            if u.contains('\0') {
                let i = choose|i: int| 0 <= i < u.len() && u[i] == '\0';
                assert(pattern::upto_nul(rest)[i - 1] == '\0');
                assert(pattern::upto_nul(rest).contains('\0'));
            }
        }
        if !s.contains('\0') {
            assert(!rest.contains('\0')) by {
                if rest.contains('\0') {
                    let i = choose|i: int| 0 <= i < rest.len() && rest[i] == '\0';
                    assert(s[i + 1] == '\0');
                }
            }
            assert(u =~= s);
        }
        if u.len() < s.len() {
            assert(rest[pattern::upto_nul(rest).len() as int] == s[u.len() as int]);
        }
    } else if s.len() > 0 {
        assert(s.contains(s[0]));
        assert(pattern::upto_nul(s) =~= s.take(0));
    } else {
        assert(pattern::upto_nul(s) =~= s);
    }
}

/// A text contains itself.
pub proof fn law_text_contains_itself(w: Seq<char>)
    ensures
        pattern::contains_like(w, w),
{
    let whole = seq!['%'] + w + seq!['%'];
    let u = pattern::upto_nul(w);
    let p = pattern::upto_nul(whole);
    lemma_upto(w);
    lemma_upto(whole);
    let tail = if w.contains('\0') {
        Seq::<char>::empty()
    } else {
        seq!['%']
    };
    assert(p =~= seq!['%'] + (u + tail)) by {
        if w.contains('\0') {
            let k = u.len() as int;
            assert(u.len() < w.len()) by {
                if u.len() == w.len() {
                    assert(w.take(w.len() as int) =~= w);
                }
            }
            assert(whole[k + 1] == '\0');
            if p.len() > k + 1 {
                assert(p[k + 1] == whole[k + 1]);
                assert(p.contains('\0'));
            }
            if p.len() < k + 1 {
                let n = p.len() as int;
                assert(whole[n] == '\0');
                if n > 0 {
                    assert(u[n - 1] == w[n - 1]);
                    assert(whole[n] == w[n - 1]);
                    assert(u.contains('\0'));
                }
            }
            assert forall|i: int| 0 <= i < p.len() implies p[i] == (seq!['%'] + (u + tail))[i] by {
                assert(p[i] == whole[i]);
                if i > 0 {
                    assert(u[i - 1] == w[i - 1]);
                }
            }
        } else {
            assert(!whole.contains('\0')) by {
                if whole.contains('\0') {
                    let i = choose|i: int| 0 <= i < whole.len() && whole[i] == '\0';
                    assert(w[i - 1] == '\0');
                }
            }
        }
    }
    lemma_like_self(u, tail);
    assert(p.drop_first() =~= u + tail);
    assert(pattern::like(p.drop_first(), u));
}

/// Whether two characters are the same, or the same ASCII letter in upper and lower case.
pub open spec fn same_letter(a: char, b: char) -> bool {
    ||| a == b
    ||| 'A' <= a && a <= 'Z' && b as int == a as int + 32
    ||| 'A' <= b && b <= 'Z' && a as int == b as int + 32
}

proof fn lemma_fold(a: char, b: char)
    ensures
        pattern::fold(a) == pattern::fold(b) <==> same_letter(a, b),
{
}

/// Whether `part` stands in `whole` from place `k` on, letter by letter, in either case.
pub open spec fn stands_at(whole: Seq<char>, part: Seq<char>, k: int) -> bool {
    &&& 0 <= k <= whole.len() - part.len()
    &&& forall|i: int| 0 <= i < part.len() ==> same_letter(whole[k + i], #[trigger] part[i])
}

/// Whether a text has neither a sign with a meaning of its own nor a NUL.
pub open spec fn plain(s: Seq<char>) -> bool {
    forall|i: int|
        0 <= i < s.len() ==> #[trigger] s[i] != '%' && s[i] != '_' && s[i] != '\0'
}

proof fn lemma_like_plain(part: Seq<char>, t: Seq<char>)
    requires
        plain(part),
    ensures
        pattern::like(part + seq!['%'], t) <==> stands_at(t, part, 0),
    decreases part.len(),
{
    let p = part + seq!['%'];
    if part.len() == 0 {
        assert(p =~= seq!['%']);
        lemma_like_any(t);
    } else {
        assert(p[0] == part[0]);
        assert(p.drop_first() =~= part.drop_first() + seq!['%']);
        assert forall|i: int| 0 <= i < part.drop_first().len() implies #[trigger] part.drop_first()[i]
            != '%' && part.drop_first()[i] != '_' && part.drop_first()[i] != '\0' by {
            assert(part.drop_first()[i] == part[i + 1]);
        }
        if t.len() > 0 {
            lemma_like_plain(part.drop_first(), t.drop_first());
            lemma_fold(p[0], t[0]);
            if stands_at(t, part, 0) {
                assert forall|i: int| 0 <= i < part.drop_first().len() implies same_letter(
                    t.drop_first()[0 + i],
                    #[trigger] part.drop_first()[i],
                ) by {
                    assert(same_letter(t[0 + (i + 1)], part[i + 1]));
                }
                assert(same_letter(t[0int + 0], part[0]));
            }
            if pattern::like(p, t) {
                assert(stands_at(t.drop_first(), part.drop_first(), 0));
                assert forall|i: int| 0 <= i < part.len() implies same_letter(
                    t[0 + i],
                    #[trigger] part[i],
                ) by {
                    if i > 0 {
                        assert(same_letter(
                            t.drop_first()[0 + (i - 1)],
                            part.drop_first()[i - 1],
                        ));
                    }
                }
            }
        }
    }
}

proof fn lemma_like_found(part: Seq<char>, t: Seq<char>)
    requires
        plain(part),
    ensures
        pattern::like(seq!['%'] + (part + seq!['%']), t) <==> exists|k: int| stands_at(t, part, k),
    decreases t.len(),
{
    let p = seq!['%'] + (part + seq!['%']);
    assert(p.drop_first() =~= part + seq!['%']);
    lemma_like_plain(part, t);
    if t.len() > 0 {
        let rest = t.drop_first();
        lemma_like_found(part, rest);
        if exists|k: int| stands_at(t, part, k) {
            let k = choose|k: int| stands_at(t, part, k);
            if k > 0 {
                assert(stands_at(rest, part, k - 1)) by {
                    assert forall|i: int| 0 <= i < part.len() implies same_letter(
                        rest[k - 1 + i],
                        #[trigger] part[i],
                    ) by {
                        assert(same_letter(t[k + i], part[i]));
                    }
                }
            }
        }
        if exists|k: int| stands_at(rest, part, k) {
            let k = choose|k: int| stands_at(rest, part, k);
            assert(stands_at(t, part, k + 1)) by {
                assert forall|i: int| 0 <= i < part.len() implies same_letter(
                    t[k + 1 + i],
                    #[trigger] part[i],
                ) by {
                    assert(same_letter(rest[k + i], part[i]));
                }
            }
        }
    } else {
        if exists|k: int| stands_at(t, part, k) {
            let k = choose|k: int| stands_at(t, part, k);
            assert(k == 0);
        }
    }
}

/// A plain text is contained in another one exactly where it stands in it somewhere, ASCII letters
/// in either case.
pub proof fn law_plain_text_is_contained_where_it_stands(whole: Seq<char>, part: Seq<char>)
    requires
        plain(part),
        !whole.contains('\0'),
    ensures
        pattern::contains_like(whole, part) <==> exists|k: int| stands_at(whole, part, k),
{
    let p = seq!['%'] + part + seq!['%'];
    lemma_upto(whole);
    lemma_upto(p);
    assert(!p.contains('\0')) by {
        if p.contains('\0') {
            let i = choose|i: int| 0 <= i < p.len() && p[i] == '\0';
            assert(part[i - 1] == '\0');
        }
    }
    assert(p =~= seq!['%'] + (part + seq!['%']));
    lemma_like_found(part, whole);
}

// ---------------------------------------------------------------------------------------------
// Rows and records
// ---------------------------------------------------------------------------------------------

/// What is summed over the rows of a statistic is summed over the records that pass the filters.
pub proof fn lemma_rows_over(
    records: Seq<RecordView>,
    client: Seq<char>,
    alias: Seq<char>,
    command: Seq<char>,
    g: spec_fn(Row) -> int,
)
    ensures
        sums::over(stats::wanted_rows(records, client, alias, command, Need::Nothing), g)
            == sums::over(
            records,
            |r: RecordView|
                if counted(r, client, alias, command) {
                    g(Row { start: r.start_time, seconds: took(r) as i64 })
                } else {
                    0
                },
        ),
        sums::over(
            stats::by_start(stats::wanted_rows(records, client, alias, command, Need::Nothing)),
            g,
        ) == sums::over(stats::wanted_rows(records, client, alias, command, Need::Nothing), g),
{
    let wanted = stats::wants(client, alias, command, Need::Nothing);
    let kept = order::kept(records, wanted);
    let rows = stats::rows_of(kept);
    let row = |r: RecordView| stats::row_of(r);
    sums::lemma_over_map(kept, row, g);
    sums::lemma_over_kept(records, wanted, |r: RecordView| g(row(r)));
    let a = |r: RecordView|
        if wanted(r) {
            (|r: RecordView| g(row(r)))(r)
        } else {
            0
        };
    let b = |r: RecordView|
        if counted(r, client, alias, command) {
            g(Row { start: r.start_time, seconds: took(r) as i64 })
        } else {
            0
        };
    assert forall|i: int| 0 <= i < records.len() implies a(#[trigger] records[i]) == b(records[i]) by {
        lemma_counted(records[i], client, alias, command);
    }
    sums::lemma_over_same(records, a, b);
    assert(rows =~= kept.map_values(row));
    sums::lemma_over_sorted(rows, stats::row_starts(rows), false, g);
}

/// The filters of a statistic are those said of the records.
pub proof fn lemma_counted(r: RecordView, client: Seq<char>, alias: Seq<char>, command: Seq<char>)
    ensures
        stats::wants(client, alias, command, Need::Nothing)(r) == counted(r, client, alias, command),
{
    reveal_strlit("");
    assert(client.len() == 0 ==> client =~= ""@);
    assert(alias.len() == 0 ==> alias =~= ""@);
    assert(command.len() == 0 ==> command =~= ""@);
}

/// What meets the condition is kept.
pub proof fn lemma_kept_holds<T>(s: Seq<T>, wanted: spec_fn(T) -> bool, i: int)
    requires
        0 <= i < s.len(),
        wanted(s[i]),
    ensures
        order::kept(s, wanted).contains(s[i]),
    decreases s.len(),
{
    let before = order::kept(s.drop_last(), wanted);
    if i == s.len() - 1 {
        assert(order::kept(s, wanted)[before.len() as int] == s[i]);
    } else {
        lemma_kept_holds(s.drop_last(), wanted, i);
        assert(before.contains(s.drop_last()[i]));
        let k = choose|k: int| 0 <= k < before.len() && before[k] == s[i];
        assert(order::kept(s, wanted)[k] == s[i]);
    }
}

/// Whether a row is that of a counted record.
pub open spec fn comes_from(
    records: Seq<RecordView>,
    client: Seq<char>,
    alias: Seq<char>,
    command: Seq<char>,
    row: Row,
) -> bool {
    exists|i: int|
        0 <= i < records.len() && counted(#[trigger] records[i], client, alias, command) && row
            == (Row { start: records[i].start_time, seconds: took(records[i]) as i64 })
}

/// The rows of a statistic are those of the counted records, in the order of their start.
pub proof fn lemma_rows_members(
    records: Seq<RecordView>,
    client: Seq<char>,
    alias: Seq<char>,
    command: Seq<char>,
    rows: Seq<Row>,
)
    requires
        rows == stats::by_start(
            stats::wanted_rows(records, client, alias, command, Need::Nothing),
        ),
    ensures
        forall|k: int|
            0 <= k < rows.len() ==> comes_from(records, client, alias, command, #[trigger] rows[k]),
        forall|i: int|
            0 <= i < records.len() && counted(#[trigger] records[i], client, alias, command)
                ==> rows.contains(
                Row { start: records[i].start_time, seconds: took(records[i]) as i64 },
            ),
        forall|a: int, b: int|
            0 <= a <= b < rows.len() ==> (#[trigger] rows[a]).start <= (#[trigger] rows[b]).start,
{
    let wanted = stats::wants(client, alias, command, Need::Nothing);
    let kept = order::kept(records, wanted);
    let plain_rows = stats::rows_of(kept);
    let keys = stats::row_starts(plain_rows);
    order::lemma_kept_member(records, wanted);
    order::lemma_sorted_member(plain_rows, keys, false);
    order::lemma_sorted_len(plain_rows, keys, false);
    assert forall|k: int| 0 <= k < rows.len() implies comes_from(
        records,
        client,
        alias,
        command,
        #[trigger] rows[k],
    ) by {
        assert(plain_rows.contains(rows[k]));
        let j = choose|j: int| 0 <= j < plain_rows.len() && plain_rows[j] == rows[k];
        assert(records.contains(kept[j]));
        let i = choose|i: int| 0 <= i < records.len() && records[i] == kept[j];
        lemma_counted(records[i], client, alias, command);
        assert(plain_rows[j] == stats::row_of(kept[j]));
    }
    assert forall|i: int|
        0 <= i < records.len() && counted(
            #[trigger] records[i],
            client,
            alias,
            command,
        ) implies rows.contains(
        Row { start: records[i].start_time, seconds: took(records[i]) as i64 },
    ) by {
        lemma_counted(records[i], client, alias, command);
        lemma_kept_holds(records, wanted, i);
        let j = choose|j: int| 0 <= j < kept.len() && kept[j] == records[i];
        assert(plain_rows[j] == stats::row_of(kept[j]));
        assert(plain_rows.contains(plain_rows[j]));
    }
    let p = order::order(keys, false);
    assert forall|a: int, b: int| 0 <= a <= b < rows.len() implies (#[trigger] rows[a]).start <= (
    #[trigger] rows[b]).start by {
        assert(rows[a] == plain_rows[p[a]]);
        assert(rows[b] == plain_rows[p[b]]);
        if a < b {
            assert(order::precedes(keys, false, p[a], p[b]));
        }
    }
}

// ---------------------------------------------------------------------------------------------
// The summary
// ---------------------------------------------------------------------------------------------

/// Whether `m` is the mean of a total over so many, rounded towards zero; 0 over none.
pub open spec fn is_mean(m: int, total: int, times: int) -> bool {
    if times <= 0 {
        m == 0
    } else if total >= 0 {
        m * times <= total < (m + 1) * times
    } else {
        (m - 1) * times < total <= m * times
    }
}

pub proof fn lemma_mean(total: int, times: int)
    ensures
        is_mean(stats::mean(total, times), total, times),
{
    if times > 0 {
        let m = stats::mean(total, times);
        if total >= 0 {
            assert(m * times <= total < (m + 1) * times) by (nonlinear_arith)
                requires
                    m == total / times,
                    times > 0,
            ;
        } else {
            let q = (-total) / times;
            assert(q * times <= -total < (q + 1) * times) by (nonlinear_arith)
                requires
                    q == (-total) / times,
                    times > 0,
            ;
            assert(m == -q);
            assert((m - 1) * times < total <= m * times) by (nonlinear_arith)
                requires
                    q * times <= -total < (q + 1) * times,
                    m == -q,
            ;
        }
    }
}

/// Whether `first` is the earliest start of a counted session.
pub open spec fn is_earliest(
    records: Seq<RecordView>,
    client: Seq<char>,
    alias: Seq<char>,
    command: Seq<char>,
    first: i64,
) -> bool {
    &&& exists|i: int|
        0 <= i < records.len() && counted(#[trigger] records[i], client, alias, command)
            && records[i].start_time == first
    &&& forall|i: int|
        0 <= i < records.len() && counted(#[trigger] records[i], client, alias, command) ==> first
            <= records[i].start_time
}

/// Whether `last` is the latest start of a counted session.
pub open spec fn is_latest(
    records: Seq<RecordView>,
    client: Seq<char>,
    alias: Seq<char>,
    command: Seq<char>,
    last: i64,
) -> bool {
    &&& exists|i: int|
        0 <= i < records.len() && counted(#[trigger] records[i], client, alias, command)
            && records[i].start_time == last
    &&& forall|i: int|
        0 <= i < records.len() && counted(#[trigger] records[i], client, alias, command) ==> records[i].start_time
            <= last
}

/// The local dates on which counted sessions start after an instant.
pub open spec fn active_dates(
    records: Seq<RecordView>,
    client: Seq<char>,
    alias: Seq<char>,
    command: Seq<char>,
    zone_name: Seq<char>,
    after: int,
) -> Set<i64> {
    Set::new(
        |d: i64|
            exists|i: int|
                0 <= i < records.len() && counted(#[trigger] records[i], client, alias, command)
                    && records[i].start_time > after && d == zone::date_at(
                    zone_name,
                    records[i].start_time as int,
                ) as i64,
    )
}

proof fn lemma_dates_after_members(zone_name: Seq<char>, rows: Seq<Row>, cutoff: int, d: i64)
    ensures
        stats::dates_after(zone_name, rows, cutoff).contains(d) <==> exists|k: int|
            0 <= k < rows.len() && (#[trigger] rows[k]).start > cutoff && d == zone::date_at(
                zone_name,
                rows[k].start as int,
            ) as i64,
    decreases rows.len(),
{
    if rows.len() > 0 {
        let rest = rows.drop_last();
        lemma_dates_after_members(zone_name, rest, cutoff, d);
        if exists|k: int|
            0 <= k < rest.len() && (#[trigger] rest[k]).start > cutoff && d == zone::date_at(
                zone_name,
                rest[k].start as int,
            ) as i64 {
            let k = choose|k: int|
                0 <= k < rest.len() && (#[trigger] rest[k]).start > cutoff && d == zone::date_at(
                    zone_name,
                    rest[k].start as int,
                ) as i64;
            assert(rows[k] == rest[k]);
        }
        if exists|k: int|
            0 <= k < rows.len() && (#[trigger] rows[k]).start > cutoff && d == zone::date_at(
                zone_name,
                rows[k].start as int,
            ) as i64 {
            let k = choose|k: int|
                0 <= k < rows.len() && (#[trigger] rows[k]).start > cutoff && d == zone::date_at(
                    zone_name,
                    rows[k].start as int,
                ) as i64;
            if k < rows.len() - 1 {
                assert(rest[k] == rows[k]);
            }
        }
        assert(rows[rows.len() - 1] == rows.last());
    }
}

/// With a cutoff before every start, all dates are those after it.
proof fn lemma_all_dates(zone_name: Seq<char>, rows: Seq<Row>, cutoff: int)
    requires
        forall|k: int| 0 <= k < rows.len() ==> (#[trigger] rows[k]).start > cutoff,
    ensures
        stats::dates(zone_name, rows) == stats::dates_after(zone_name, rows, cutoff),
    decreases rows.len(),
{
    if rows.len() > 0 {
        assert(rows[rows.len() - 1] == rows.last());
        assert forall|k: int| 0 <= k < rows.drop_last().len() implies (#[trigger] rows.drop_last()[k]).start
            > cutoff by {
            assert(rows.drop_last()[k] == rows[k]);
        }
        lemma_all_dates(zone_name, rows.drop_last(), cutoff);
    }
}

proof fn lemma_active(
    records: Seq<RecordView>,
    client: Seq<char>,
    alias: Seq<char>,
    command: Seq<char>,
    rows: Seq<Row>,
    zone_name: Seq<char>,
    after: int,
)
    requires
        rows == stats::by_start(
            stats::wanted_rows(records, client, alias, command, Need::Nothing),
        ),
    ensures
        stats::dates_after(zone_name, rows, after) == active_dates(
            records,
            client,
            alias,
            command,
            zone_name,
            after,
        ),
{
    lemma_rows_members(records, client, alias, command, rows);
    let a = stats::dates_after(zone_name, rows, after);
    let b = active_dates(records, client, alias, command, zone_name, after);
    assert forall|d: i64| a.contains(d) == b.contains(d) by {
        lemma_dates_after_members(zone_name, rows, after, d);
        if a.contains(d) {
            let k = choose|k: int|
                0 <= k < rows.len() && (#[trigger] rows[k]).start > after && d == zone::date_at(
                    zone_name,
                    rows[k].start as int,
                ) as i64;
            assert(comes_from(records, client, alias, command, rows[k]));
        }
        if b.contains(d) {
            let i = choose|i: int|
                0 <= i < records.len() && counted(#[trigger] records[i], client, alias, command)
                    && records[i].start_time > after && d == zone::date_at(
                    zone_name,
                    records[i].start_time as int,
                ) as i64;
            let row = Row { start: records[i].start_time, seconds: took(records[i]) as i64 };
            assert(rows.contains(row));
            let k = choose|k: int| 0 <= k < rows.len() && rows[k] == row;
            assert(rows[k].start > after);
        }
    }
    assert(a =~= b);
}

/// The totals of a summary: the number of the counted sessions, the time they took, their mean, the
/// dates on which they start, the days since the first of them, and these figures in words.
pub proof fn law_totals_of_the_counted(
    records: Seq<RecordView>,
    client: Seq<char>,
    alias: Seq<char>,
    command: Seq<char>,
    zone_name: Seq<char>,
    now: int,
    s: StatsView,
)
    requires
        stats::stats_of(
            zone_name,
            stats::by_start(stats::wanted_rows(records, client, alias, command, Need::Nothing)),
            now,
        ) == Some(s),
    ensures
        s.total.total_times == sums::over(
            records,
            |r: RecordView|
                if counted(r, client, alias, command) {
                    1int
                } else {
                    0
                },
        ),
        s.total.total_seconds == sums::over(
            records,
            |r: RecordView|
                if counted(r, client, alias, command) {
                    took(r)
                } else {
                    0
                },
        ),
        is_mean(s.total.mean_usage, s.total.total_seconds, s.total.total_times),
        s.total.active_days == active_dates(
            records,
            client,
            alias,
            command,
            zone_name,
            i64::MIN - 1,
        ).len(),
        s.total.total_times > 0 ==> exists|first: i64| #[trigger]
            is_earliest(records, client, alias, command, first) && s.total.total_days
                == zone::date_at(zone_name, now) - zone::date_at(zone_name, first as int)
                && s.total.from_date == calendar::date_text(
                zone::date_at(zone_name, first as int),
            ),
        s.total.total_times == 0 ==> s.total.total_days == 0 && s.total.from_date
            == calendar::date_text(zone::date_at(zone_name, now)) && s.past_n.len() == 0,
        s.total.total_times > 0 ==> s.total.total_ratio == (
            s.total.total_seconds,
            s.total.total_days * 86400,
        ),
        s.total.total_times > 0 ==> s.total.total_day_ratio.0 == s.total.active_days
            && s.total.total_day_ratio.1 >= 1 && s.total.total_day_ratio.1 >= s.total.total_days
            && (s.total.total_day_ratio.1 == 1 || s.total.total_day_ratio.1 == s.total.total_days),
        s.total.total_duration_hr == stats::duration_text(s.total.total_days * 86400),
        s.total.total_seconds_hr == stats::duration_text(s.total.total_seconds),
        s.total.mean_usage_hr == stats::duration_text(s.total.mean_usage),
{
    let plain_rows = stats::wanted_rows(records, client, alias, command, Need::Nothing);
    let rows = stats::by_start(plain_rows);
    lemma_rows_members(records, client, alias, command, rows);
    let one = |r: Row| 1int;
    let long = |r: Row| r.seconds as int;
    lemma_rows_over(records, client, alias, command, one);
    lemma_rows_over(records, client, alias, command, long);
    sums::lemma_over_ones(rows);
    sums::lemma_over_same(rows, one, |x: Row| 1int);
    assert(stats::durations(rows) =~= rows.map_values(long));
    lemma_mean(s.total.total_seconds, s.total.total_times);
    sums::lemma_over_same(
        records,
        |r: RecordView|
            if counted(r, client, alias, command) {
                one(Row { start: r.start_time, seconds: took(r) as i64 })
            } else {
                0
            },
        |r: RecordView|
            if counted(r, client, alias, command) {
                1int
            } else {
                0
            },
    );
    sums::lemma_over_same(
        records,
        |r: RecordView|
            if counted(r, client, alias, command) {
                long(Row { start: r.start_time, seconds: took(r) as i64 })
            } else {
                0
            },
        |r: RecordView|
            if counted(r, client, alias, command) {
                took(r)
            } else {
                0
            },
    );
    lemma_all_dates(zone_name, rows, i64::MIN - 1);
    lemma_active(records, client, alias, command, rows, zone_name, i64::MIN - 1);
    assert(sums::over(rows, long) == arith::sum(stats::durations(rows)));
    if rows.len() > 0 {
        lemma_ends(records, client, alias, command, rows);
    } else {
        assert(rows.map_values(long) =~= Seq::<int>::empty());
        assert(stats::dates(zone_name, rows) =~= Set::<i64>::empty());
    }
}

proof fn lemma_ends(
    records: Seq<RecordView>,
    client: Seq<char>,
    alias: Seq<char>,
    command: Seq<char>,
    rows: Seq<Row>,
)
    requires
        rows == stats::by_start(
            stats::wanted_rows(records, client, alias, command, Need::Nothing),
        ),
        rows.len() > 0,
    ensures
        is_earliest(records, client, alias, command, rows[0].start),
        is_latest(records, client, alias, command, rows.last().start),
{
    lemma_rows_members(records, client, alias, command, rows);
    assert(comes_from(records, client, alias, command, rows[0]));
    assert(comes_from(records, client, alias, command, rows[rows.len() - 1]));
    assert forall|i: int|
        0 <= i < records.len() && counted(
            #[trigger] records[i],
            client,
            alias,
            command,
        ) implies rows[0].start <= records[i].start_time && records[i].start_time
        <= rows.last().start by {
        let row = Row { start: records[i].start_time, seconds: took(records[i]) as i64 };
        assert(rows.contains(row));
        let k = choose|k: int| 0 <= k < rows.len() && rows[k] == row;
        assert(rows[0].start <= rows[k].start);
        assert(rows[k].start <= rows[rows.len() - 1].start);
    }
}

// ---------------------------------------------------------------------------------------------
// Periods
// ---------------------------------------------------------------------------------------------

/// How many days a period goes back: its share is taken of so many days of 86400 seconds.
pub open spec fn days_back(p: PeriodView) -> int {
    p.ratio.1 / 86400
}

proof fn lemma_after_over(rows: Seq<Row>, cutoff: int)
    ensures
        arith::sum(stats::durations_after(rows, cutoff)) == sums::over(
            rows,
            |r: Row|
                if r.start > cutoff {
                    r.seconds as int
                } else {
                    0
                },
        ),
        stats::durations_after(rows, cutoff).len() == sums::over(
            rows,
            |r: Row|
                if r.start > cutoff {
                    1int
                } else {
                    0
                },
        ),
    decreases rows.len(),
{
    let long = |r: Row|
        if r.start > cutoff {
            r.seconds as int
        } else {
            0
        };
    let one = |r: Row|
        if r.start > cutoff {
            1int
        } else {
            0
        };
    if rows.len() > 0 {
        lemma_after_over(rows.drop_last(), cutoff);
        sums::lemma_over_last(rows, long);
        sums::lemma_over_last(rows, one);
        let before = stats::durations_after(rows.drop_last(), cutoff);
        assert(before.push(rows.last().seconds as int).drop_last() =~= before);
    }
}

proof fn lemma_periods(
    zone_name: Seq<char>,
    rows: Seq<Row>,
    today: int,
    list: Seq<Span>,
    found: Seq<PeriodView>,
)
    requires
        stats::periods_of(zone_name, rows, today, list) == Some(found),
    ensures
        found.len() == list.len(),
        forall|k: int|
            0 <= k < list.len() ==> stats::period_of(zone_name, rows, today, list[k]) == Some(
                #[trigger] found[k],
            ),
    decreases list.len(),
{
    if list.len() > 0 {
        let before = stats::periods_of(zone_name, rows, today, list.drop_last())->0;
        lemma_periods(zone_name, rows, today, list.drop_last(), before);
        assert forall|k: int| 0 <= k < list.len() implies stats::period_of(
            zone_name,
            rows,
            today,
            list[k],
        ) == Some(#[trigger] found[k]) by {
            if k < list.len() - 1 {
                assert(found[k] == before[k]);
                assert(list.drop_last()[k] == list[k]);
            }
        }
    }
}

/// A period counts exactly the sessions, among those that pass the filters, that start after the
/// beginning of the local date so many days before today: their number, the time they took, the
/// dates on which they start, and the mean and the shares of these.
pub proof fn law_period_counts_what_started_in_it(
    records: Seq<RecordView>,
    client: Seq<char>,
    alias: Seq<char>,
    command: Seq<char>,
    zone_name: Seq<char>,
    now: int,
    s: StatsView,
    k: int,
)
    requires
        stats::stats_of(
            zone_name,
            stats::by_start(stats::wanted_rows(records, client, alias, command, Need::Nothing)),
            now,
        ) == Some(s),
        0 <= k < s.past_n.len(),
    ensures
        s.past_n[k].ratio.1 == days_back(s.past_n[k]) * 86400,
        ({
            let p = s.past_n[k];
            let since = zone::date_start(zone_name, zone::date_at(zone_name, now) - days_back(p));
            &&& p.times == sums::over(
                records,
                |r: RecordView|
                    if counted(r, client, alias, command) && r.start_time > since {
                        1int
                    } else {
                        0
                    },
            )
            &&& p.seconds == sums::over(
                records,
                |r: RecordView|
                    if counted(r, client, alias, command) && r.start_time > since {
                        took(r)
                    } else {
                        0
                    },
            )
            &&& p.days == active_dates(records, client, alias, command, zone_name, since).len()
            &&& is_mean(p.mean_usage, p.seconds, p.times)
            &&& p.ratio.0 == p.seconds
            &&& p.day_ratio.0 == p.days
            &&& p.day_ratio.1 == (if days_back(p) > 1 {
                days_back(p)
            } else {
                1
            })
        }),
{
    let rows = stats::by_start(stats::wanted_rows(records, client, alias, command, Need::Nothing));
    let today = zone::date_at(zone_name, now);
    let p = s.past_n[k];
    assert(rows.len() > 0);
    let total = today - zone::date_at(zone_name, rows[0].start as int);
    lemma_periods(zone_name, rows, today, stats::spans(total), s.past_n);
    let span = stats::spans(total)[k];
    assert(stats::period_of(zone_name, rows, today, span) == Some(p));
    assert(days_back(p) == span.days) by (nonlinear_arith)
        requires
            days_back(p) == span.days * 86400 / 86400,
    ;
    let since = zone::date_start(zone_name, today - span.days);
    lemma_after_over(rows, since);
    let long = |r: Row|
        if r.start > since {
            r.seconds as int
        } else {
            0
        };
    let one = |r: Row|
        if r.start > since {
            1int
        } else {
            0
        };
    lemma_rows_over(records, client, alias, command, one);
    lemma_rows_over(records, client, alias, command, long);
    lemma_mean(p.seconds, p.times);
    sums::lemma_over_same(
        records,
        |r: RecordView|
            if counted(r, client, alias, command) {
                one(Row { start: r.start_time, seconds: took(r) as i64 })
            } else {
                0
            },
        |r: RecordView|
            if counted(r, client, alias, command) && r.start_time > since {
                1int
            } else {
                0
            },
    );
    sums::lemma_over_same(
        records,
        |r: RecordView|
            if counted(r, client, alias, command) {
                long(Row { start: r.start_time, seconds: took(r) as i64 })
            } else {
                0
            },
        |r: RecordView|
            if counted(r, client, alias, command) && r.start_time > since {
                took(r)
            } else {
                0
            },
    );
    lemma_active(records, client, alias, command, rows, zone_name, since);
}

proof fn lemma_year_spans(total: int, years: int)
    requires
        years > 0,
    ensures
        ({
            let list = stats::year_spans(total, years);
            &&& forall|j: int|
                0 <= j < list.len() ==> (#[trigger] list[j]).days <= total && list[j].days % 365
                    == 0 && list[j].name == text::dec_nat((list[j].days / 365) as nat) + " years"@
            &&& list.len() > 0 <==> total >= years * 365
            &&& list.len() > 0 ==> list[0].days == years * 365
            &&& forall|j: int|
                0 < j < list.len() ==> (#[trigger] list[j]).days == 2 * list[j - 1].days
            &&& list.len() > 0 ==> total < 2 * list.last().days
        }),
    decreases
            if total >= years * 365 {
                total - years * 365 + 1
            } else {
                0
            },
{
    if total >= years * 365 {
        lemma_year_spans(total, 2 * years);
        let list = stats::year_spans(total, years);
        let rest = stats::year_spans(total, 2 * years);
        assert forall|j: int| 0 <= j < list.len() implies (#[trigger] list[j]).days <= total
            && list[j].days % 365 == 0 && list[j].name == text::dec_nat(
            (list[j].days / 365) as nat,
        ) + " years"@ by {
            if j > 0 {
                assert(list[j] == rest[j - 1]);
            } else {
                assert(list[0].days / 365 == years);
            }
        }
        assert forall|j: int| 0 < j < list.len() implies (#[trigger] list[j]).days == 2 * list[j
            - 1].days by {
            assert(list[j] == rest[j - 1]);
            if j > 1 {
                assert(list[j - 1] == rest[j - 2]);
            }
        }
        if rest.len() > 0 {
            assert(list.last() == rest.last());
        } else {
            assert(list.last() == list[0]);
        }
    }
}

/// The periods of a summary: a week, two weeks and a month always; three months, six months and a
/// year once the record is as long; then two years and on, each twice the one before, as far as it
/// reaches; and all of it last.
#[verifier::spinoff_prover]
#[verifier::rlimit(60)]
pub proof fn law_periods_of_a_summary(
    zone_name: Seq<char>,
    rows: Seq<Row>,
    now: int,
    s: StatsView,
)
    requires
        stats::stats_of(zone_name, rows, now) == Some(s),
        rows.len() > 0,
    ensures
        s.past_n.len() >= 4,
        s.past_n[0].name == "1 week"@ && days_back(s.past_n[0]) == 7,
        s.past_n[1].name == "2 weeks"@ && days_back(s.past_n[1]) == 14,
        s.past_n[2].name == "1 month"@ && days_back(s.past_n[2]) == 30,
        s.total.total_days >= 90 ==> s.past_n.len() >= 5 && s.past_n[3].name == "3 months"@
            && days_back(s.past_n[3]) == 90,
        s.total.total_days >= 180 ==> s.past_n.len() >= 6 && s.past_n[4].name == "6 months"@
            && days_back(s.past_n[4]) == 180,
        s.total.total_days >= 365 ==> s.past_n.len() >= 7 && s.past_n[5].name == "1 year"@
            && days_back(s.past_n[5]) == 365,
        s.total.total_days < 90 ==> s.past_n.len() == 4,
        90 <= s.total.total_days < 180 ==> s.past_n.len() == 5,
        180 <= s.total.total_days < 365 ==> s.past_n.len() == 6,
        365 <= s.total.total_days < 730 ==> s.past_n.len() == 7,
        forall|j: int|
            6 <= j < s.past_n.len() - 1 ==> {
                &&& days_back(#[trigger] s.past_n[j]) == 2 * days_back(s.past_n[j - 1])
                &&& days_back(s.past_n[j]) <= s.total.total_days
                &&& s.past_n[j].name == text::dec_nat(
                    (days_back(s.past_n[j]) / 365) as nat,
                ) + " years"@
            },
        s.past_n.len() > 7 ==> s.total.total_days < 2 * days_back(s.past_n[s.past_n.len() - 2]),
        days_back(s.past_n.last()) == s.total.total_days,
        s.past_n.last().name == stats::all_time_name(s.total.total_days),
{
    let today = zone::date_at(zone_name, now);
    let total = today - zone::date_at(zone_name, rows[0].start as int);
    let list = stats::spans(total);
    lemma_periods(zone_name, rows, today, list, s.past_n);
    let years = stats::year_spans(total, 2);
    lemma_year_spans(total, 2);
    assert forall|k: int| 0 <= k < list.len() implies days_back(#[trigger] s.past_n[k])
        == list[k].days && s.past_n[k].name == list[k].name by {
        let days = list[k].days;
        assert(days * 86400 / 86400 == days) by (nonlinear_arith);
    }
    assert(s.past_n.last() == s.past_n[list.len() - 1]);
    if total >= 365 {
        assert(list.len() == 7 + years.len());
        assert forall|j: int| 6 <= j < list.len() - 1 implies #[trigger] list[j] == years[j - 6] by {}
        assert forall|j: int| 6 <= j < s.past_n.len() - 1 implies {
            &&& days_back(#[trigger] s.past_n[j]) == 2 * days_back(s.past_n[j - 1])
            &&& days_back(s.past_n[j]) <= s.total.total_days
            &&& s.past_n[j].name == text::dec_nat(
                (days_back(s.past_n[j]) / 365) as nat,
            ) + " years"@
        } by {
            assert(list[j] == years[j - 6]);
            if j > 6 {
                assert(list[j - 1] == years[j - 7]);
            }
        }
        if years.len() > 0 {
            assert(list[list.len() - 2] == years.last());
        }
    } else {
        assert(years.len() == 0);
    }
}

/// A longer period counts every session that a shorter one counts, as long as it does not begin
/// later.
pub proof fn law_longer_periods_count_more(
    records: Seq<RecordView>,
    client: Seq<char>,
    alias: Seq<char>,
    command: Seq<char>,
    zone_name: Seq<char>,
    now: int,
    s: StatsView,
    a: int,
    b: int,
)
    requires
        stats::stats_of(
            zone_name,
            stats::by_start(stats::wanted_rows(records, client, alias, command, Need::Nothing)),
            now,
        ) == Some(s),
        0 <= a < s.past_n.len(),
        0 <= b < s.past_n.len(),
        zone::date_start(zone_name, zone::date_at(zone_name, now) - days_back(s.past_n[b]))
            <= zone::date_start(zone_name, zone::date_at(zone_name, now) - days_back(s.past_n[a])),
        forall|i: int|
            0 <= i < records.len() && counted(#[trigger] records[i], client, alias, command)
                ==> took(records[i]) >= 0,
    ensures
        0 <= s.past_n[a].times <= s.past_n[b].times <= s.total.total_times,
        0 <= s.past_n[a].seconds <= s.past_n[b].seconds <= s.total.total_seconds,
{
    law_period_counts_what_started_in_it(records, client, alias, command, zone_name, now, s, a);
    law_period_counts_what_started_in_it(records, client, alias, command, zone_name, now, s, b);
    law_totals_of_the_counted(records, client, alias, command, zone_name, now, s);
    let today = zone::date_at(zone_name, now);
    let late = zone::date_start(zone_name, today - days_back(s.past_n[a]));
    let early = zone::date_start(zone_name, today - days_back(s.past_n[b]));
    sums::lemma_over_between(
        records,
        |r: RecordView|
            if counted(r, client, alias, command) && r.start_time > late {
                1int
            } else {
                0
            },
        |r: RecordView|
            if counted(r, client, alias, command) && r.start_time > early {
                1int
            } else {
                0
            },
    );
    sums::lemma_over_between(
        records,
        |r: RecordView|
            if counted(r, client, alias, command) && r.start_time > early {
                1int
            } else {
                0
            },
        |r: RecordView|
            if counted(r, client, alias, command) {
                1int
            } else {
                0
            },
    );
    sums::lemma_over_between(
        records,
        |r: RecordView|
            if counted(r, client, alias, command) && r.start_time > late {
                took(r)
            } else {
                0
            },
        |r: RecordView|
            if counted(r, client, alias, command) && r.start_time > early {
                took(r)
            } else {
                0
            },
    );
    sums::lemma_over_between(
        records,
        |r: RecordView|
            if counted(r, client, alias, command) && r.start_time > early {
                took(r)
            } else {
                0
            },
        |r: RecordView|
            if counted(r, client, alias, command) {
                took(r)
            } else {
                0
            },
    );
}

/// A zone whose clock always differs from UTC by the same time.
pub open spec fn steady(zone_name: Seq<char>, offset: int) -> bool {
    &&& -86400 < offset < 86400
    &&& forall|t: int| #[trigger] zone::zone_offset(zone_name, t) == offset
    &&& forall|local: int| #[trigger]
        zone::local_instants(zone_name, local) == seq![local - offset]
}

/// Where the clock is steady, a date begins when the clock shows its midnight, and an instant lies on
/// a date from there up to the midnight of the next one.
pub proof fn law_steady_dates(zone_name: Seq<char>, offset: int, day: int, t: int)
    requires
        steady(zone_name, offset),
        calendar::representable(t),
        calendar::representable(t + offset),
    ensures
        zone::date_start(zone_name, day) == (day - calendar::EPOCH_DAY) * 86400 - offset,
        zone::date_at(zone_name, t) == day <==> zone::date_start(zone_name, day) <= t
            < zone::date_start(zone_name, day + 1),
        zone::date_start(zone_name, day) < zone::date_start(zone_name, day + 1),
{
    reveal_with_fuel(zone::first_shown, 2);
    assert(zone::local_instants(zone_name, zone::reading(day, 0)).len() == 1);
    assert(zone::local_instants(zone_name, zone::reading(day + 1, 0)).len() == 1);
    assert(zone::first_shown(zone_name, day, 0) == 0);
    assert(zone::first_shown(zone_name, day + 1, 0) == 0);
    assert(zone::zone_offset(zone_name, t) == offset);
}

proof fn lemma_date_begins_before(zone_name: Seq<char>, offset: int, day: int, t: int)
    requires
        steady(zone_name, offset),
        calendar::representable(t),
        calendar::representable(t + offset),
        day < zone::date_at(zone_name, t),
    ensures
        zone::date_start(zone_name, day) < t,
{
    law_steady_dates(zone_name, offset, zone::date_at(zone_name, t), t);
    law_steady_dates(zone_name, offset, day, t);
}

proof fn lemma_all_active(
    records: Seq<RecordView>,
    client: Seq<char>,
    alias: Seq<char>,
    command: Seq<char>,
    zone_name: Seq<char>,
    since: int,
)
    requires
        forall|i: int|
            0 <= i < records.len() && counted(#[trigger] records[i], client, alias, command)
                ==> records[i].start_time > since,
    ensures
        active_dates(records, client, alias, command, zone_name, since) == active_dates(
            records,
            client,
            alias,
            command,
            zone_name,
            i64::MIN - 1,
        ),
{
    let a = active_dates(records, client, alias, command, zone_name, since);
    let b = active_dates(records, client, alias, command, zone_name, i64::MIN - 1);
    assert forall|d: i64| a.contains(d) == b.contains(d) by {}
    assert(a =~= b);
}

/// A total has one mean.
pub proof fn lemma_mean_unique(a: int, b: int, total: int, times: int)
    requires
        is_mean(a, total, times),
        is_mean(b, total, times),
    ensures
        a == b,
{
    if times > 0 {
        if a < b {
            assert((a + 1) * times <= b * times) by (nonlinear_arith)
                requires
                    a + 1 <= b,
                    times > 0,
            ;
            assert(a * times <= (b - 1) * times) by (nonlinear_arith)
                requires
                    a <= b - 1,
                    times > 0,
            ;
        }
        if b < a {
            assert((b + 1) * times <= a * times) by (nonlinear_arith)
                requires
                    b + 1 <= a,
                    times > 0,
            ;
            assert(b * times <= (a - 1) * times) by (nonlinear_arith)
                requires
                    b <= a - 1,
                    times > 0,
            ;
        }
    }
}

proof fn lemma_week_is_all(
    records: Seq<RecordView>,
    client: Seq<char>,
    alias: Seq<char>,
    command: Seq<char>,
    zone_name: Seq<char>,
    now: int,
    s: StatsView,
    since: int,
)
    requires
        stats::stats_of(
            zone_name,
            stats::by_start(stats::wanted_rows(records, client, alias, command, Need::Nothing)),
            now,
        ) == Some(s),
        s.total.total_times > 0,
        since == zone::date_start(zone_name, zone::date_at(zone_name, now) - 7),
        forall|i: int|
            0 <= i < records.len() && counted(#[trigger] records[i], client, alias, command)
                ==> records[i].start_time > since,
    ensures
        s.past_n[0].name == "1 week"@,
        s.past_n[0].times == s.total.total_times,
        s.past_n[0].seconds == s.total.total_seconds,
        s.past_n[0].days == s.total.active_days,
        s.past_n[0].mean_usage == s.total.mean_usage,
{
    let rows = stats::by_start(stats::wanted_rows(records, client, alias, command, Need::Nothing));
    let all_times = sums::over(
        records,
        |r: RecordView|
            if counted(r, client, alias, command) {
                1int
            } else {
                0
            },
    );
    let all_seconds = sums::over(
        records,
        |r: RecordView|
            if counted(r, client, alias, command) {
                took(r)
            } else {
                0
            },
    );
    sums::lemma_over_same(
        records,
        |r: RecordView|
            if counted(r, client, alias, command) && r.start_time > since {
                1int
            } else {
                0
            },
        |r: RecordView|
            if counted(r, client, alias, command) {
                1int
            } else {
                0
            },
    );
    sums::lemma_over_same(
        records,
        |r: RecordView|
            if counted(r, client, alias, command) && r.start_time > since {
                took(r)
            } else {
                0
            },
        |r: RecordView|
            if counted(r, client, alias, command) {
                took(r)
            } else {
                0
            },
    );
    assert(s.total.total_times == all_times && s.total.total_seconds == all_seconds && is_mean(
        s.total.mean_usage,
        s.total.total_seconds,
        s.total.total_times,
    ) && s.total.active_days == active_dates(
        records,
        client,
        alias,
        command,
        zone_name,
        i64::MIN - 1,
    ).len()) by {
        law_totals_of_the_counted(records, client, alias, command, zone_name, now, s);
    }
    assert(s.past_n.len() > 0 && s.past_n[0].name == "1 week"@ && days_back(s.past_n[0]) == 7) by {
        assert(rows.len() > 0);
        law_periods_of_a_summary(zone_name, rows, now, s);
    }
    assert(s.past_n[0].times == all_times && s.past_n[0].seconds == all_seconds && is_mean(
        s.past_n[0].mean_usage,
        s.past_n[0].seconds,
        s.past_n[0].times,
    ) && s.past_n[0].days == active_dates(
        records,
        client,
        alias,
        command,
        zone_name,
        since,
    ).len()) by {
        law_period_counts_what_started_in_it(records, client, alias, command, zone_name, now, s, 0);
    }
    lemma_all_active(records, client, alias, command, zone_name, since);
    lemma_mean_unique(
        s.past_n[0].mean_usage,
        s.total.mean_usage,
        s.total.total_seconds,
        s.total.total_times,
    );
}

/// Where the clock is steady, a period of `n` days counts a session that starts on any of the last
/// `n` dates, today among them. So a week counts all sessions where all start within six days before
/// today.
pub proof fn law_recent_sessions_are_in_the_week(
    records: Seq<RecordView>,
    client: Seq<char>,
    alias: Seq<char>,
    command: Seq<char>,
    zone_name: Seq<char>,
    offset: int,
    now: int,
    s: StatsView,
)
    requires
        stats::stats_of(
            zone_name,
            stats::by_start(stats::wanted_rows(records, client, alias, command, Need::Nothing)),
            now,
        ) == Some(s),
        steady(zone_name, offset),
        s.total.total_times > 0,
        forall|i: int|
            0 <= i < records.len() && counted(#[trigger] records[i], client, alias, command) ==> {
                &&& calendar::representable(records[i].start_time as int)
                &&& calendar::representable(records[i].start_time + offset)
                &&& zone::date_at(zone_name, now) - 6 <= zone::date_at(
                    zone_name,
                    records[i].start_time as int,
                )
            },
    ensures
        s.past_n[0].name == "1 week"@,
        s.past_n[0].times == s.total.total_times,
        s.past_n[0].seconds == s.total.total_seconds,
        s.past_n[0].days == s.total.active_days,
        s.past_n[0].mean_usage == s.total.mean_usage,
{
    let today = zone::date_at(zone_name, now);
    let since = zone::date_start(zone_name, today - 7);
    assert forall|i: int|
        0 <= i < records.len() && counted(
            #[trigger] records[i],
            client,
            alias,
            command,
        ) implies records[i].start_time > since by {
        lemma_date_begins_before(zone_name, offset, today - 7, records[i].start_time as int);
    }
    lemma_week_is_all(records, client, alias, command, zone_name, now, s, since);
}

// ---------------------------------------------------------------------------------------------
// Intervals
// ---------------------------------------------------------------------------------------------

/// Whether two counted sessions start one after the other, with none that starts between them.
pub open spec fn neighbours(
    records: Seq<RecordView>,
    client: Seq<char>,
    alias: Seq<char>,
    command: Seq<char>,
    i: int,
    j: int,
) -> bool {
    &&& 0 <= i < records.len() && counted(records[i], client, alias, command)
    &&& 0 <= j < records.len() && counted(records[j], client, alias, command)
    &&& records[i].start_time < records[j].start_time
    &&& forall|k: int|
        0 <= k < records.len() && counted(#[trigger] records[k], client, alias, command)
            ==> records[k].start_time <= records[i].start_time || records[j].start_time
            <= records[k].start_time
}

proof fn lemma_max_gap(rows: Seq<Row>)
    requires
        forall|a: int, b: int|
            0 <= a <= b < rows.len() ==> (#[trigger] rows[a]).start <= (#[trigger] rows[b]).start,
    ensures
        stats::max_gap(rows) >= 0,
        forall|k: int|
            0 < k < rows.len() ==> (#[trigger] rows[k]).start - rows[k - 1].start <= stats::max_gap(
                rows,
            ),
        stats::max_gap(rows) > 0 ==> exists|k: int|
            0 < k < rows.len() && (#[trigger] rows[k]).start - rows[k - 1].start == stats::max_gap(
                rows,
            ),
    decreases rows.len(),
{
    if rows.len() >= 2 {
        let rest = rows.drop_last();
        assert forall|a: int, b: int| 0 <= a <= b < rest.len() implies (#[trigger] rest[a]).start
            <= (#[trigger] rest[b]).start by {
            assert(rest[a] == rows[a]);
            assert(rest[b] == rows[b]);
        }
        lemma_max_gap(rest);
        let n = rows.len() - 1;
        assert(rows[n - 1].start <= rows[n].start);
        assert forall|k: int| 0 < k < rows.len() implies (#[trigger] rows[k]).start - rows[k
            - 1].start <= stats::max_gap(rows) by {
            if k < n {
                assert(rest[k] == rows[k]);
                assert(rest[k - 1] == rows[k - 1]);
            }
        }
        if stats::max_gap(rows) > 0 {
            if stats::max_gap(rows) == rows[n].start - rows[n - 1].start {
            } else {
                let k = choose|k: int|
                    0 < k < rest.len() && (#[trigger] rest[k]).start - rest[k - 1].start
                        == stats::max_gap(rest);
                assert(rows[k].start - rows[k - 1].start == stats::max_gap(rows));
            }
        }
    }
}

/// The intervals of a summary: the present one runs from the latest start, the longest one is the
/// longest time between two starts with none between them, and the mean one is that of the days
/// since the first start over the number of sessions.
#[verifier::spinoff_prover]
#[verifier::rlimit(60)]
pub proof fn law_intervals_between_starts(
    records: Seq<RecordView>,
    client: Seq<char>,
    alias: Seq<char>,
    command: Seq<char>,
    zone_name: Seq<char>,
    now: int,
    s: StatsView,
)
    requires
        stats::stats_of(
            zone_name,
            stats::by_start(stats::wanted_rows(records, client, alias, command, Need::Nothing)),
            now,
        ) == Some(s),
    ensures
        s.total.total_times > 0 ==> exists|last: i64| #[trigger]
            is_latest(records, client, alias, command, last) && s.interval.current_interval == now
                - last,
        forall|i: int, j: int| #[trigger]
            neighbours(records, client, alias, command, i, j) ==> records[j].start_time
                - records[i].start_time <= s.interval.max_interval,
        s.interval.max_interval > 0 ==> exists|i: int, j: int| #[trigger]
            neighbours(records, client, alias, command, i, j) && records[j].start_time
                - records[i].start_time == s.interval.max_interval,
        s.interval.max_interval >= 0,
        is_mean(s.interval.mean_interval, s.total.total_days * 86400, s.total.total_times),
        s.interval.current_interval_hr == stats::duration_text(s.interval.current_interval),
        s.interval.max_interval_hr == stats::duration_text(s.interval.max_interval),
        s.interval.mean_interval_hr == stats::duration_text(s.interval.mean_interval),
        s.total.total_times == 0 ==> s.interval.current_interval == 0,
{
    let rows = stats::by_start(stats::wanted_rows(records, client, alias, command, Need::Nothing));
    lemma_rows_members(records, client, alias, command, rows);
    lemma_max_gap(rows);
    if rows.len() > 0 {
        lemma_ends(records, client, alias, command, rows);
        lemma_mean(s.total.total_days * 86400, s.total.total_times);
    }
    assert forall|i: int, j: int| #[trigger]
        neighbours(records, client, alias, command, i, j) implies records[j].start_time
        - records[i].start_time <= s.interval.max_interval by {
        let a = Row { start: records[i].start_time, seconds: took(records[i]) as i64 };
        let b = Row { start: records[j].start_time, seconds: took(records[j]) as i64 };
        assert(rows.contains(a));
        assert(rows.contains(b));
        let ka = choose|k: int| 0 <= k < rows.len() && rows[k] == a;
        let kb = choose|k: int| 0 <= k < rows.len() && rows[k] == b;
        assert(ka < kb) by {
            if kb <= ka {
                assert(rows[kb].start <= rows[ka].start);
            }
        }
        let m = lemma_crossing(rows, a.start, ka, kb);
        assert(comes_from(records, client, alias, command, rows[m]));
        assert(rows[m].start <= rows[kb].start);
        assert(rows[m].start - rows[m - 1].start <= stats::max_gap(rows));
    }
    if s.interval.max_interval > 0 {
        let k = choose|k: int|
            0 < k < rows.len() && (#[trigger] rows[k]).start - rows[k - 1].start
                == stats::max_gap(rows);
        assert(comes_from(records, client, alias, command, rows[k]));
        assert(comes_from(records, client, alias, command, rows[k - 1]));
        let j = choose|j: int|
            0 <= j < records.len() && counted(#[trigger] records[j], client, alias, command)
                && rows[k] == (Row {
                start: records[j].start_time,
                seconds: took(records[j]) as i64,
            });
        let i = choose|i: int|
            0 <= i < records.len() && counted(#[trigger] records[i], client, alias, command)
                && rows[k - 1] == (Row {
                start: records[i].start_time,
                seconds: took(records[i]) as i64,
            });
        assert(neighbours(records, client, alias, command, i, j)) by {
            assert forall|n: int|
                0 <= n < records.len() && counted(
                    #[trigger] records[n],
                    client,
                    alias,
                    command,
                ) implies records[n].start_time <= records[i].start_time || records[j].start_time
                <= records[n].start_time by {
                let row = Row { start: records[n].start_time, seconds: took(records[n]) as i64 };
                assert(rows.contains(row));
                let q = choose|q: int| 0 <= q < rows.len() && rows[q] == row;
                if q < k {
                    assert(rows[q].start <= rows[k - 1].start);
                } else {
                    assert(rows[k].start <= rows[q].start);
                }
            }
        }
    }
}

/// Between a row and a later one with a greater start lies the first row with a greater start.
proof fn lemma_crossing(rows: Seq<Row>, start: i64, a: int, b: int) -> (m: int)
    requires
        0 <= a < b < rows.len(),
        rows[a].start == start,
        rows[b].start > start,
        forall|x: int, y: int|
            0 <= x <= y < rows.len() ==> (#[trigger] rows[x]).start <= (#[trigger] rows[y]).start,
    ensures
        a < m <= b,
        rows[m].start > start,
        rows[m - 1].start == start,
    decreases b - a,
{
    assert(rows[a].start <= rows[b - 1].start);
    if rows[b - 1].start == start {
        b
    } else {
        lemma_crossing(rows, start, a, b - 1)
    }
}

} // verus!
