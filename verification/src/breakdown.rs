//! Completed sessions broken down by client, by alias and by command.

use crate::arith::trunc_div;
use crate::db;
use crate::db::{Database, Status};
use crate::order;
use crate::order::sort_keys;
use crate::stats;
use crate::stats::{human_readable_time, StatsError};
use crate::tally;
use crate::tally::{Group, Tally};
use crate::text;
use crate::text::same_text;
use crate::tokens;
use crate::tokens::from_json;
use crate::words;
use crate::words::join_first;
use vstd::prelude::*;

verus! {

/// The sessions of one client.
#[derive(Debug)]
pub struct ClientStat {
    pub client_id: String,
    pub total_seconds: i64,
    pub total_times: i64,
    pub mean_seconds: i64,
    pub total_seconds_hr: String,
    pub mean_seconds_hr: String,
}

/// The sessions under one alias.
#[derive(Debug)]
pub struct AliasStat {
    pub alias: String,
    pub total_seconds: i64,
    pub total_times: i64,
    pub mean_seconds: i64,
    pub total_seconds_hr: String,
    pub mean_seconds_hr: String,
}

/// The sessions of one command.
#[derive(Debug)]
pub struct CommandStat {
    pub command: String,
    pub total_seconds: i64,
    pub total_times: i64,
    pub mean_seconds: i64,
    pub total_seconds_hr: String,
    pub mean_seconds_hr: String,
}

/// The figures of one line of a breakdown.
#[verifier::ext_equal]
pub struct LineView {
    pub key: Seq<char>,
    pub total_seconds: int,
    pub total_times: int,
    pub mean_seconds: int,
    pub total_seconds_hr: Seq<char>,
    pub mean_seconds_hr: Seq<char>,
}

impl View for ClientStat {
    type V = LineView;

    open spec fn view(&self) -> LineView {
        LineView {
            key: self.client_id@,
            total_seconds: self.total_seconds as int,
            total_times: self.total_times as int,
            mean_seconds: self.mean_seconds as int,
            total_seconds_hr: self.total_seconds_hr@,
            mean_seconds_hr: self.mean_seconds_hr@,
        }
    }
}

impl View for AliasStat {
    type V = LineView;

    open spec fn view(&self) -> LineView {
        LineView {
            key: self.alias@,
            total_seconds: self.total_seconds as int,
            total_times: self.total_times as int,
            mean_seconds: self.mean_seconds as int,
            total_seconds_hr: self.total_seconds_hr@,
            mean_seconds_hr: self.mean_seconds_hr@,
        }
    }
}

impl View for CommandStat {
    type V = LineView;

    open spec fn view(&self) -> LineView {
        LineView {
            key: self.command@,
            total_seconds: self.total_seconds as int,
            total_times: self.total_times as int,
            mean_seconds: self.mean_seconds as int,
            total_seconds_hr: self.total_seconds_hr@,
            mean_seconds_hr: self.mean_seconds_hr@,
        }
    }
}

/// The values of client lines.
pub open spec fn client_lines(s: Seq<ClientStat>) -> Seq<LineView> {
    s.map_values(|c: ClientStat| c@)
}

/// The values of alias lines.
pub open spec fn alias_lines(s: Seq<AliasStat>) -> Seq<LineView> {
    s.map_values(|a: AliasStat| a@)
}

/// The values of command lines.
pub open spec fn command_lines(s: Seq<CommandStat>) -> Seq<LineView> {
    s.map_values(|c: CommandStat| c@)
}

/// The line of a group.
pub open spec fn line_of(g: tally::GroupView) -> LineView {
    let average = stats::mean(g.seconds as int, g.times as int);
    LineView {
        key: g.key,
        total_seconds: g.seconds as int,
        total_times: g.times as int,
        mean_seconds: average,
        total_seconds_hr: stats::duration_text(g.seconds as int),
        mean_seconds_hr: stats::duration_text(average),
    }
}

/// The totals of groups.
pub open spec fn group_seconds(groups: Seq<tally::GroupView>) -> Seq<i64> {
    groups.map_values(|g: tally::GroupView| g.seconds)
}

/// The lines of groups, the largest total first, equal totals in key order.
pub open spec fn largest_first(groups: Seq<tally::GroupView>) -> Seq<LineView> {
    order::sorted(groups, group_seconds(groups), true).map_values(
        |g: tally::GroupView| line_of(g),
    )
}

/// The breakdown of keyed durations, or `None` where a total does not fit.
pub open spec fn breakdown(items: Seq<tally::Item>) -> Option<Seq<LineView>> {
    match tally::tally(items) {
        Some(groups) => Some(largest_first(groups)),
        None => None,
    }
}

/// The completed sessions of a client, or of all where the client is `__global__`.
pub open spec fn of_client(client: Seq<char>, r: db::RecordView) -> bool {
    r.status == Status::Completed && (client != "__global__"@ ==> r.client_id == client)
}

/// Whether a text is there and not empty.
pub open spec fn filled(t: Option<Seq<char>>) -> bool {
    t is Some && t->0.len() > 0
}

/// What the sessions are grouped by.
pub enum Grouping {
    Client,
    Alias,
    Command,
    /// The first words of the command, at most so many.
    Words(usize),
}

/// The records that a breakdown takes in.
pub open spec fn grouped(client: Seq<char>, by: Grouping) -> spec_fn(db::RecordView) -> bool {
    |r: db::RecordView|
        of_client(client, r) && match by {
            Grouping::Client => true,
            Grouping::Alias => filled(r.alias),
            Grouping::Command => filled(r.command),
            Grouping::Words(depth) => r.command_tokens is Some,
        }
}

/// The first words of stored command words, joined; `None` where they cannot be read or there are
/// none.
pub open spec fn first_words(stored: Seq<char>, depth: int) -> Option<Seq<char>> {
    match tokens::json_strings(stored) {
        Some(w) => if w.len() == 0 {
            None
        } else {
            Some(
                words::join(
                    w.take(
                        if depth < w.len() {
                            depth
                        } else {
                            w.len() as int
                        },
                    ),
                    " "@,
                ),
            )
        },
        None => None,
    }
}

/// The key of a record in a breakdown.
pub open spec fn key_of(r: db::RecordView, by: Grouping) -> Option<Seq<char>> {
    match by {
        Grouping::Client => Some(r.client_id),
        Grouping::Alias => r.alias,
        Grouping::Command => r.command,
        Grouping::Words(depth) => first_words(r.command_tokens->0, depth as int),
    }
}

/// The keyed duration of a record.
pub open spec fn item_of(r: db::RecordView, by: Grouping) -> tally::Item {
    tally::Item { key: key_of(r, by)->0, seconds: stats::row_of(r).seconds }
}

/// The keyed durations of a list of records, or `None` where one of them has no key.
pub open spec fn items_of(s: Seq<db::RecordView>, by: Grouping) -> Option<Seq<tally::Item>>
    decreases s.len(),
{
    if s.len() == 0 {
        Some(Seq::empty())
    } else {
        match items_of(s.drop_last(), by) {
            Some(before) => if key_of(s.last(), by) is Some {
                Some(before.push(item_of(s.last(), by)))
            } else {
                None
            },
            None => None,
        }
    }
}

/// The breakdown of a client's completed sessions, or the error that stands in its place.
pub open spec fn breakdown_by(
    records: Seq<db::RecordView>,
    client: Seq<char>,
    by: Grouping,
) -> Result<Seq<LineView>, StatsError> {
    match items_of(order::kept(records, grouped(client, by)), by) {
        Some(items) => match breakdown(items) {
            Some(lines) => Ok(lines),
            None => Err(StatsError::Overflow),
        },
        None => Err(StatsError::NoWords),
    }
}

/// One line of a breakdown.
struct Line {
    key: String,
    total_seconds: i64,
    total_times: i64,
    mean_seconds: i64,
    total_seconds_hr: String,
    mean_seconds_hr: String,
}

impl View for Line {
    type V = LineView;

    closed spec fn view(&self) -> LineView {
        LineView {
            key: self.key@,
            total_seconds: self.total_seconds as int,
            total_times: self.total_times as int,
            mean_seconds: self.mean_seconds as int,
            total_seconds_hr: self.total_seconds_hr@,
            mean_seconds_hr: self.mean_seconds_hr@,
        }
    }
}

spec fn line_views(s: Seq<Line>) -> Seq<LineView> {
    s.map_values(|l: Line| l@)
}

/// A keyed duration.
struct Keyed {
    key: String,
    seconds: i64,
}

spec fn keyed_items(s: Seq<Keyed>) -> Seq<tally::Item> {
    s.map_values(|k: Keyed| tally::Item { key: k.key@, seconds: k.seconds })
}

fn to_line(g: &Group) -> (r: Line)
    ensures
        r@ == line_of(g@),
{
    let mean_seconds: i64 = if g.times > 0 {
        trunc_div(g.seconds, g.times)
    } else {
        0
    };
    Line {
        key: g.key.clone(),
        total_seconds: g.seconds,
        total_times: g.times,
        mean_seconds,
        total_seconds_hr: human_readable_time(g.seconds),
        mean_seconds_hr: human_readable_time(mean_seconds),
    }
}

fn break_down(items: &Vec<Keyed>) -> (r: Option<Vec<Line>>)
    requires
        items@.len() <= i64::MAX,
    ensures
        r is Some == (breakdown(keyed_items(items@)) is Some),
        r is Some ==> breakdown(keyed_items(items@)) == Some(line_views(r->0@)),
{
    let ghost all = keyed_items(items@);
    let mut t = Tally::new();
    assert(all.take(0) =~= Seq::<tally::Item>::empty());
    for i in 0..items.len()
        invariant
            items@.len() <= i64::MAX,
            all == keyed_items(items@),
            t.wf(),
            t.items() == all.take(i as int),
    {
        assert(all.take(i as int).push(all[i as int]) =~= all.take(i + 1));
        if !t.enter(items[i].key.as_str(), items[i].seconds) {
            proof {
                tally::lemma_tally_prefix(all, i + 1);
            }
            return None;
        }
    }
    assert(all.take(all.len() as int) =~= all);
    let groups = t.into_groups();
    let ghost views = tally::group_views(groups@);
    let mut keys: Vec<i64> = Vec::new();
    for i in 0..groups.len()
        invariant
            keys@.len() == i,
            forall|k: int| 0 <= k < i ==> #[trigger] keys@[k] == groups@[k].seconds,
    {
        keys.push(groups[i].seconds);
    }
    assert(keys@ =~= group_seconds(views));
    let sorted = sort_keys(&keys, true);
    let mut r: Vec<Line> = Vec::new();
    for i in 0..sorted.len()
        invariant
            order::arranged(keys@, true, 0, keys@.len() as int, order::positions(sorted@)),
            keys@.len() == groups@.len(),
            r@.len() == i,
            forall|k: int| 0 <= k < i ==> #[trigger] r@[k]@ == line_of(groups@[sorted@[k] as int]@),
    {
        assert(order::positions(sorted@)[i as int] == sorted@[i as int]);
        r.push(to_line(&groups[sorted[i]]));
    }
    proof {
        assert forall|k: int| 0 <= k < r@.len() implies #[trigger] line_views(r@)[k] == line_of(
            views[order::order(keys@, true)[k]],
        ) by {
            assert(order::positions(sorted@)[k] == sorted@[k]);
        }
        assert(line_views(r@) =~= largest_first(views));
    }
    Some(r)
}

fn is_filled(t: &Option<String>) -> (r: bool)
    ensures
        r == filled(text::opt_text(*t)),
{
    match t {
        Some(s) => !s.as_str().is_empty(),
        None => false,
    }
}

fn has_key(record: &db::StoredRecord, by: &Grouping) -> (r: bool)
    ensures
        r == match *by {
            Grouping::Client => true,
            Grouping::Alias => filled(record@.alias),
            Grouping::Command => filled(record@.command),
            Grouping::Words(depth) => record@.command_tokens is Some,
        },
{
    match by {
        Grouping::Client => true,
        Grouping::Alias => is_filled(&record.alias),
        Grouping::Command => is_filled(&record.command),
        Grouping::Words(_depth) => record.command_tokens.is_some(),
    }
}

fn leading_words(stored: &str, depth: usize) -> (r: Option<String>)
    ensures
        text::opt_text(r) == first_words(stored@, depth as int),
{
    match from_json(stored) {
        Some(w) => {
            if w.len() == 0 {
                None
            } else {
                let n: usize = if depth < w.len() {
                    depth
                } else {
                    w.len()
                };
                Some(join_first(&w, n, " "))
            }
        },
        None => None,
    }
}

fn key_text(record: &db::StoredRecord, by: &Grouping) -> (r: Option<String>)
    requires
        *by is Words ==> record.command_tokens is Some,
    ensures
        text::opt_text(r) == key_of(record@, *by),
{
    match by {
        Grouping::Client => Some(record.client_id.clone()),
        Grouping::Alias => text::copy_opt(&record.alias),
        Grouping::Command => text::copy_opt(&record.command),
        Grouping::Words(depth) => match &record.command_tokens {
            Some(t) => leading_words(t.as_str(), *depth),
            None => None,
        },
    }
}

/// Where one record has no key, the longer lists have none either.
proof fn lemma_items_prefix(s: Seq<db::RecordView>, by: Grouping, k: int)
    requires
        0 <= k <= s.len(),
        items_of(s.take(k), by) is None,
    ensures
        items_of(s, by) is None,
    decreases s.len(),
{
    if k == s.len() {
        assert(s.take(k) =~= s);
    } else {
        assert(s.drop_last().take(k) =~= s.take(k));
        lemma_items_prefix(s.drop_last(), by, k);
    }
}

/// The records kept of a prefix are a prefix of those kept of the whole.
proof fn lemma_kept_prefix(
    s: Seq<db::RecordView>,
    wanted: spec_fn(db::RecordView) -> bool,
    k: int,
)
    requires
        0 <= k <= s.len(),
    ensures
        order::kept(s.take(k), wanted).len() <= order::kept(s, wanted).len(),
        order::kept(s.take(k), wanted) == order::kept(s, wanted).take(
            order::kept(s.take(k), wanted).len() as int,
        ),
    decreases s.len(),
{
    if k == s.len() {
        assert(s.take(k) =~= s);
        let all = order::kept(s, wanted);
        assert(all.take(all.len() as int) =~= all);
    } else {
        lemma_kept_prefix(s.drop_last(), wanted, k);
        assert(s.drop_last().take(k) =~= s.take(k));
        let part = order::kept(s.take(k), wanted);
        assert(part =~= order::kept(s, wanted).take(part.len() as int));
    }
}

fn keyed_records(db: &Database, client: &str, by: &Grouping) -> (r: Option<Vec<Keyed>>)
    ensures
        r is Some == (items_of(order::kept(db@.records, grouped(client@, *by)), *by) is Some),
        r is Some ==> items_of(order::kept(db@.records, grouped(client@, *by)), *by) == Some(
            keyed_items(r->0@),
        ),
{
    let records = db.records();
    let global: bool = same_text(client, "__global__");
    let ghost all = db@.records;
    let ghost wanted = grouped(client@, *by);
    let mut r: Vec<Keyed> = Vec::new();
    proof {
        assert(all.take(0) =~= Seq::<db::RecordView>::empty());
        assert(keyed_items(r@) =~= Seq::<tally::Item>::empty());
        assert(forall|k: int| 0 <= k < records@.len() ==> all[k] == #[trigger] records@[k]@);
    }
    for i in 0..records.len()
        invariant
            global == (client@ == "__global__"@),
            wanted == grouped(client@, *by),
            all.len() == records@.len(),
            forall|k: int| 0 <= k < records@.len() ==> all[k] == #[trigger] records@[k]@,
            all == db@.records,
            items_of(order::kept(all.take(i as int), wanted), *by) == Some(keyed_items(r@)),
    {
        proof {
            order::lemma_kept_step(all, wanted, i as int);
        }
        let record = &records[i];
        let ours: bool = record.status == Status::Completed && (global || same_text(
            record.client_id.as_str(),
            client,
        ));
        let taken: bool = ours && has_key(record, by);
        assert(record@ == all[i as int]);
        assert(ours == of_client(client@, record@));
        assert(taken == wanted(record@));
        if taken {
            let ghost before = order::kept(all.take(i as int), wanted);
            assert(before.push(all[i as int]).drop_last() =~= before);
            match key_text(record, by) {
                Some(key) => {
                    let seconds: i64 = match record.duration_seconds {
                        Some(d) => d,
                        None => 0,
                    };
                    let ghost old_r = r@;
                    let ghost item = tally::Item { key: key@, seconds };
                    r.push(Keyed { key, seconds });
                    assert(keyed_items(r@) =~= keyed_items(old_r).push(item));
                    assert(item == item_of(all[i as int], *by));
                },
                None => {
                    proof {
                        lemma_kept_prefix(all, wanted, i + 1);
                        lemma_items_prefix(
                            order::kept(all, wanted),
                            *by,
                            order::kept(all.take(i + 1), wanted).len() as int,
                        );
                    }
                    return None;
                },
            }
        }
    }
    assert(all.take(all.len() as int) =~= all);
    Some(r)
}

fn lines_by(db: &Database, client: &str, by: &Grouping) -> (r: Result<Vec<Line>, StatsError>)
    requires
        db.wf(),
    ensures
        match r {
            Ok(lines) => breakdown_by(db@.records, client@, *by) == Ok::<Seq<LineView>, StatsError>(
                line_views(lines@),
            ),
            Err(e) => breakdown_by(db@.records, client@, *by) == Err::<Seq<LineView>, StatsError>(
                e,
            ),
        },
{
    match keyed_records(db, client, by) {
        Some(items) => {
            proof {
                db.lemma_wf();
                db::lemma_record_count(db@);
                order::lemma_kept_len(db@.records, grouped(client@, *by));
                lemma_items_len(order::kept(db@.records, grouped(client@, *by)), *by);
                assert(keyed_items(items@).len() == items@.len());
            }
            match break_down(&items) {
                Some(lines) => Ok(lines),
                None => Err(StatsError::Overflow),
            }
        },
        None => Err(StatsError::NoWords),
    }
}

proof fn lemma_items_len(s: Seq<db::RecordView>, by: Grouping)
    ensures
        items_of(s, by) is Some ==> items_of(s, by)->0.len() == s.len(),
    decreases s.len(),
{
    if s.len() > 0 {
        lemma_items_len(s.drop_last(), by);
    }
}

/// Without words to read, every record has a key.
proof fn lemma_items_some(
    records: Seq<db::RecordView>,
    client: Seq<char>,
    by: Grouping,
)
    requires
        !(by is Words),
    ensures
        items_of(order::kept(records, grouped(client, by)), by) is Some,
    decreases records.len(),
{
    let wanted = grouped(client, by);
    if records.len() > 0 {
        lemma_items_some(records.drop_last(), client, by);
        let before = order::kept(records.drop_last(), wanted);
        if wanted(records.last()) {
            assert(before.push(records.last()).drop_last() =~= before);
        }
    }
}

/// A client's completed sessions by client, the largest total first. `__global__` takes in all.
pub fn compute_stats_by_client(db: &Database, client_id: &str) -> (r: Result<
    Vec<ClientStat>,
    StatsError,
>)
    requires
        db.wf(),
    ensures
        match r {
            Ok(lines) => breakdown_by(db@.records, client_id@, Grouping::Client) == Ok::<
                Seq<LineView>,
                StatsError,
            >(client_lines(lines@)),
            Err(e) => e == StatsError::Overflow && breakdown_by(
                db@.records,
                client_id@,
                Grouping::Client,
            ) == Err::<Seq<LineView>, StatsError>(StatsError::Overflow),
        },
{
    proof {
        lemma_items_some(db@.records, client_id@, Grouping::Client);
    }
    let lines = match lines_by(db, client_id, &Grouping::Client) {
        Ok(lines) => lines,
        Err(e) => {
            return Err(e);
        },
    };
    let mut r: Vec<ClientStat> = Vec::new();
    for i in 0..lines.len()
        invariant
            r@.len() == i,
            forall|k: int| 0 <= k < i ==> #[trigger] r@[k]@ == lines@[k]@,
    {
        let l = &lines[i];
        r.push(
            ClientStat {
                client_id: l.key.clone(),
                total_seconds: l.total_seconds,
                total_times: l.total_times,
                mean_seconds: l.mean_seconds,
                total_seconds_hr: l.total_seconds_hr.clone(),
                mean_seconds_hr: l.mean_seconds_hr.clone(),
            },
        );
    }
    assert(client_lines(r@) =~= line_views(lines@));
    Ok(r)
}

/// A client's completed sessions by alias, the largest total first. Sessions without an alias are
/// left out. `__global__` takes in all clients.
pub fn compute_stats_by_alias(db: &Database, client_id: &str) -> (r: Result<
    Vec<AliasStat>,
    StatsError,
>)
    requires
        db.wf(),
    ensures
        match r {
            Ok(lines) => breakdown_by(db@.records, client_id@, Grouping::Alias) == Ok::<
                Seq<LineView>,
                StatsError,
            >(alias_lines(lines@)),
            Err(e) => e == StatsError::Overflow && breakdown_by(
                db@.records,
                client_id@,
                Grouping::Alias,
            ) == Err::<Seq<LineView>, StatsError>(StatsError::Overflow),
        },
{
    proof {
        lemma_items_some(db@.records, client_id@, Grouping::Alias);
    }
    let lines = match lines_by(db, client_id, &Grouping::Alias) {
        Ok(lines) => lines,
        Err(e) => {
            return Err(e);
        },
    };
    let mut r: Vec<AliasStat> = Vec::new();
    for i in 0..lines.len()
        invariant
            r@.len() == i,
            forall|k: int| 0 <= k < i ==> #[trigger] r@[k]@ == lines@[k]@,
    {
        let l = &lines[i];
        r.push(
            AliasStat {
                alias: l.key.clone(),
                total_seconds: l.total_seconds,
                total_times: l.total_times,
                mean_seconds: l.mean_seconds,
                total_seconds_hr: l.total_seconds_hr.clone(),
                mean_seconds_hr: l.mean_seconds_hr.clone(),
            },
        );
    }
    assert(alias_lines(r@) =~= line_views(lines@));
    Ok(r)
}

/// What a breakdown by command groups by: whole commands at depth 0, else the first words, at
/// most `token_limit` of them.
pub open spec fn command_grouping(depth: usize, token_limit: usize) -> Grouping {
    if depth == 0 || token_limit == 0 {
        Grouping::Command
    } else if depth < token_limit {
        Grouping::Words(depth)
    } else {
        Grouping::Words(token_limit)
    }
}

/// A client's completed sessions by command, the largest total first. At depth 0 whole commands
/// are told apart, else their first `depth` words, at most `token_limit` of them. `__global__`
/// takes in all clients.
pub fn compute_stats_by_command(
    db: &Database,
    client_id: &str,
    depth: usize,
    token_limit: usize,
) -> (r: Result<Vec<CommandStat>, StatsError>)
    requires
        db.wf(),
    ensures
        match r {
            Ok(lines) => breakdown_by(
                db@.records,
                client_id@,
                command_grouping(depth, token_limit),
            ) == Ok::<Seq<LineView>, StatsError>(command_lines(lines@)),
            Err(e) => breakdown_by(db@.records, client_id@, command_grouping(depth, token_limit))
                == Err::<Seq<LineView>, StatsError>(e),
        },
{
    let by = if depth == 0 || token_limit == 0 {
        Grouping::Command
    } else if depth < token_limit {
        Grouping::Words(depth)
    } else {
        Grouping::Words(token_limit)
    };
    let lines = match lines_by(db, client_id, &by) {
        Ok(lines) => lines,
        Err(e) => {
            return Err(e);
        },
    };
    let mut r: Vec<CommandStat> = Vec::new();
    for i in 0..lines.len()
        invariant
            r@.len() == i,
            forall|k: int| 0 <= k < i ==> #[trigger] r@[k]@ == lines@[k]@,
    {
        let l = &lines[i];
        r.push(
            CommandStat {
                command: l.key.clone(),
                total_seconds: l.total_seconds,
                total_times: l.total_times,
                mean_seconds: l.mean_seconds,
                total_seconds_hr: l.total_seconds_hr.clone(),
                mean_seconds_hr: l.mean_seconds_hr.clone(),
            },
        );
    }
    assert(command_lines(r@) =~= line_views(lines@));
    Ok(r)
}

} // verus!
