//! Past sessions kept as text files: the file's name tells the start, its second line the
//! duration and its first line the command.

use crate::arith;
use crate::calendar;
use crate::calendar::{utc_now, MAX_TIME};
use crate::db;
use crate::db::{import_record_at, Database, DbError};
use crate::tally;
use crate::tally::Tally;
use crate::text;
use crate::text::{chars_of, own_opt, same_text, string_of};
use crate::words;
use crate::words::{split_on, trimmed};
use vstd::prelude::*;

verus! {

/// What came of an import.
pub struct ImportResult {
    pub imported: usize,
    pub failed: usize,
    pub errors: Vec<String>,
}

/// A file: its name without the extension, and its text or the error met in reading it.
pub struct ImportFile {
    pub stem: String,
    pub content: Result<String, String>,
}

/// What `chrono::NaiveDateTime::parse_from_str` reads in a text by the format `%Y%m%d%H%M%S`, as
/// an instant in UTC, or the text of its error.
pub uninterp spec fn stamp_of(text: Seq<char>) -> Result<int, Seq<char>>;

/// The text of the error that `str::parse` for `i64` reports on a text that is no such number.
pub uninterp spec fn number_error(text: Seq<char>) -> Seq<char>;

/// `chrono::NaiveDateTime::parse_from_str` with the format `%Y%m%d%H%M%S`, taken as UTC. It is a
/// function of the text, and so is the text of its error.
#[verifier::external_body]
fn parse_stamp(s: &str) -> (r: Result<i64, String>)
    ensures
        match r {
            Ok(t) => stamp_of(s@) == Ok::<int, Seq<char>>(t as int) && calendar::representable(
                t as int,
            ),
            Err(e) => stamp_of(s@) == Err::<int, Seq<char>>(e@),
        },
{
    chrono::NaiveDateTime::parse_from_str(s, "%Y%m%d%H%M%S")
        .map(|t| t.and_utc().timestamp())
        .map_err(|e| e.to_string())
}

/// Whether every character is a decimal digit and there is at least one.
pub open spec fn all_digits(s: Seq<char>) -> bool {
    s.len() > 0 && forall|i: int| 0 <= i < s.len() ==> '0' <= #[trigger] s[i] && s[i] <= '9'
}

/// The number that decimal digits stand for.
pub open spec fn digits_value(s: Seq<char>) -> int
    decreases s.len(),
{
    if s.len() == 0 {
        0
    } else {
        digits_value(s.drop_last()) * 10 + (s.last() as int - 48)
    }
}

/// The number of a text that is a sign, which may be left out, and decimal digits.
pub open spec fn number_value(s: Seq<char>) -> Option<int> {
    if s.len() > 0 && s[0] == '-' {
        if all_digits(s.drop_first()) {
            Some(-digits_value(s.drop_first()))
        } else {
            None
        }
    } else {
        let digits = if s.len() > 0 && s[0] == '+' {
            s.drop_first()
        } else {
            s
        };
        if all_digits(digits) {
            Some(digits_value(digits))
        } else {
            None
        }
    }
}

/// `str::parse` for `i64`: the number of an optional sign followed by digits, where it fits, or
/// the text of the error.
#[verifier::external_body]
fn parse_number(s: &str) -> (r: Result<i64, String>)
    ensures
        match r {
            Ok(n) => number_value(s@) == Some(n as int),
            Err(e) => (number_value(s@) is None || !arith::fits(number_value(s@)->0)) && e@
                == number_error(s@),
        },
{
    s.parse::<i64>().map_err(|e| e.to_string())
}

/// What a file tells: start, duration and command.
#[verifier::ext_equal]
pub struct Entry {
    pub start: int,
    pub seconds: int,
    pub command: Seq<char>,
}

/// What a file tells, or the line that reports why it tells nothing. The name must be a point in
/// time, there must be two lines, the second one a number of seconds that keeps the session
/// within the range of times.
pub open spec fn entry_of(stem: Seq<char>, content: Result<Seq<char>, Seq<char>>) -> Result<
    Entry,
    Seq<char>,
> {
    match content {
        Err(e) => Err(stem + ": read error "@ + e),
        Ok(c) => {
            let lines = words::split(words::trim(c), '\n');
            if lines.len() < 2 {
                Err(stem + ": insufficient lines"@)
            } else {
                match stamp_of(stem) {
                    Err(e) => Err(stem + ": parse filename datetime error "@ + e),
                    Ok(start) => {
                        let number = words::trim(lines[1]);
                        match number_value(number) {
                            Some(n) => if !arith::fits(n) {
                                Err(stem + ": parse duration error "@ + number_error(number))
                            } else if !arith::fits(start + n) {
                                Err(stem + ": duration out of range"@)
                            } else {
                                Ok(
                                    Entry {
                                        start,
                                        seconds: n,
                                        command: words::trim(lines[0]),
                                    },
                                )
                            },
                            None => Err(
                                stem + ": parse duration error "@ + number_error(number),
                            ),
                        }
                    },
                }
            }
        },
    }
}

/// A file's text or error, by value.
pub open spec fn content_view(c: Result<String, String>) -> Result<Seq<char>, Seq<char>> {
    match c {
        Ok(s) => Ok(s@),
        Err(e) => Err(e@),
    }
}

/// What one file tells.
struct Told {
    start: i64,
    seconds: i64,
    command: String,
}

fn message(stem: &str, middle: &str, end: &str) -> (r: String)
    ensures
        r@ == stem@ + middle@ + end@,
{
    let mut r = stem.to_owned();
    r.append(middle);
    r.append(end);
    r
}

fn read_entry(file: &ImportFile) -> (r: Result<Told, String>)
    ensures
        match r {
            Ok(t) => entry_of(file.stem@, content_view(file.content)) == Ok::<Entry, Seq<char>>(
                Entry {
                    start: t.start as int,
                    seconds: t.seconds as int,
                    command: t.command@,
                },
            ) && arith::fits(t.start + t.seconds),
            Err(e) => entry_of(file.stem@, content_view(file.content)) == Err::<Entry, Seq<char>>(
                e@,
            ),
        },
{
    let stem = file.stem.as_str();
    let content = match &file.content {
        Ok(c) => c,
        Err(e) => {
            return Err(message(stem, ": read error ", e.as_str()));
        },
    };
    let whole = trimmed(content.as_str());
    let lines = split_on(whole.as_str(), '\n');
    let ghost views = text::texts(lines@);
    if lines.len() < 2 {
        let mut e = stem.to_owned();
        e.append(": insufficient lines");
        return Err(e);
    }
    let start: i64 = match parse_stamp(stem) {
        Ok(t) => t,
        Err(e) => {
            return Err(message(stem, ": parse filename datetime error ", e.as_str()));
        },
    };
    assert(views[1] == lines@[1]@);
    assert(views[0] == lines@[0]@);
    let number = trimmed(lines[1].as_str());
    let seconds: i64 = match parse_number(number.as_str()) {
        Ok(n) => n,
        Err(e) => {
            return Err(message(stem, ": parse duration error ", e.as_str()));
        },
    };
    match start.checked_add(seconds) {
        Some(_end) => Ok(Told { start, seconds, command: trimmed(lines[0].as_str()) }),
        None => {
            let mut e = stem.to_owned();
            e.append(": duration out of range");
            Err(e)
        },
    }
}

/// The command of an imported session: the given one, or that of the file where it names one.
pub open spec fn chosen_command(given: Option<Seq<char>>, told: Seq<char>) -> Option<Seq<char>> {
    match given {
        Some(c) => Some(c),
        None => if told.len() == 0 {
            None
        } else {
            Some(told)
        },
    }
}

/// The store, and the errors reported so far, of an import.
#[verifier::ext_equal]
pub struct Progress {
    pub store: db::DbView,
    pub imported: int,
    pub errors: Seq<Seq<char>>,
}

/// The text of a refusal by the store.
pub open spec fn refusal_text(e: DbError) -> Seq<char> {
    match e {
        DbError::Full => "database or disk is full"@,
        DbError::DuplicateToken => "UNIQUE constraint failed: api_tokens.token"@,
        DbError::PatternTooLong => "LIKE or GLOB pattern too complex"@,
    }
}

/// The import of one more file, with the clock at `now`.
pub open spec fn step(
    before: Progress,
    client: Seq<char>,
    stem: Seq<char>,
    content: Result<Seq<char>, Seq<char>>,
    command: Option<Seq<char>>,
    alias: Option<Seq<char>>,
    now: i64,
) -> Progress {
    match entry_of(stem, content) {
        Err(e) => Progress { errors: before.errors.push(e), ..before },
        Ok(told) => {
            let noted = before.store.seen(client, now);
            if before.store.last_id == i64::MAX {
                Progress {
                    store: noted,
                    errors: before.errors.push(
                        stem + ": db error "@ + refusal_text(DbError::Full),
                    ),
                    ..before
                }
            } else {
                Progress {
                    store: noted.appended(
                        db::past_session(
                            (before.store.last_id + 1) as i64,
                            client,
                            told.start as i64,
                            (told.start + told.seconds) as i64,
                            told.seconds as i64,
                            chosen_command(command, told.command),
                            alias,
                        ),
                    ),
                    imported: before.imported + 1,
                    ..before
                }
            }
        },
    }
}

/// The import of the first `n` files, with the clock at `now`.
pub open spec fn imported(
    store: db::DbView,
    client: Seq<char>,
    files: Seq<ImportFile>,
    command: Option<Seq<char>>,
    alias: Option<Seq<char>>,
    now: i64,
    n: int,
) -> Progress
    decreases n,
{
    if n <= 0 {
        Progress { store, imported: 0, errors: Seq::empty() }
    } else {
        step(
            imported(store, client, files, command, alias, now, n - 1),
            client,
            files[n - 1].stem@,
            content_view(files[n - 1].content),
            command,
            alias,
            now,
        )
    }
}

/// Every file counts once: it is imported, which adds one record, or it is reported.
pub proof fn law_every_file_counts(
    store: db::DbView,
    client: Seq<char>,
    files: Seq<ImportFile>,
    command: Option<Seq<char>>,
    alias: Option<Seq<char>>,
    now: i64,
    n: int,
)
    requires
        0 <= n <= files.len(),
    ensures
        ({
            let p = imported(store, client, files, command, alias, now, n);
            &&& p.imported >= 0
            &&& p.imported + p.errors.len() == n
            &&& p.store.records.len() == store.records.len() + p.imported
            &&& p.store.records.take(store.records.len() as int) == store.records
        }),
    decreases n,
{
    let p = imported(store, client, files, command, alias, now, n);
    if n > 0 {
        law_every_file_counts(store, client, files, command, alias, now, n - 1);
        let q = imported(store, client, files, command, alias, now, n - 1);
        assert(p.store.records.take(store.records.len() as int) =~= q.store.records.take(
            store.records.len() as int,
        ));
    } else {
        assert(store.records.take(store.records.len() as int) =~= store.records);
    }
}

/// Imports files one by one with the clock at `now`: each either becomes a record of the client
/// or is reported.
pub fn import_from_directory_at(
    db: &mut Database,
    client_id: &str,
    files: &Vec<ImportFile>,
    command: Option<&str>,
    alias: Option<&str>,
    now: i64,
) -> (r: ImportResult)
    requires
        old(db).wf(),
    ensures
        final(db).wf(),
        ({
            let p = imported(
                old(db)@,
                client_id@,
                files@,
                text::opt_str(command),
                text::opt_str(alias),
                now,
                files@.len() as int,
            );
            &&& final(db)@ == p.store
            &&& r.imported == p.imported
            &&& text::texts(r.errors@) == p.errors
            &&& r.failed == p.errors.len()
            &&& r.imported + r.failed == files@.len()
        }),
{
    let ghost start = db@;
    let mut done: usize = 0;
    let mut errors: Vec<String> = Vec::new();
    assert(text::texts(errors@) =~= Seq::<Seq<char>>::empty());
    for i in 0..files.len()
        invariant
            start == old(db)@,
            db.wf(),
            done + errors@.len() == i,
            ({
                let p = imported(
                    start,
                    client_id@,
                    files@,
                    text::opt_str(command),
                    text::opt_str(alias),
                    now,
                    i as int,
                );
                &&& db@ == p.store
                &&& done == p.imported
                &&& text::texts(errors@) == p.errors
            }),
    {
        let file = &files[i];
        let ghost before = errors@;
        match read_entry(file) {
            Ok(told) => {
                let mut chosen = own_opt(command);
                if chosen.is_none() && !told.command.as_str().is_empty() {
                    chosen = Some(told.command.clone());
                }
                assert(text::opt_text(chosen) == chosen_command(
                    text::opt_str(command),
                    told.command@,
                ));
                let wanted: Option<&str> = match &chosen {
                    Some(c) => Some(c.as_str()),
                    None => None,
                };
                assert(text::opt_str(wanted) == text::opt_text(chosen));
                let stored = import_record_at(
                    db,
                    client_id,
                    told.start,
                    told.start + told.seconds,
                    told.seconds,
                    wanted,
                    alias,
                    now,
                );
                match stored {
                    Ok(_) => {
                        done = done + 1;
                    },
                    Err(_e) => {
                        let m = message(
                            file.stem.as_str(),
                            ": db error ",
                            "database or disk is full",
                        );
                        let ghost line = m@;
                        errors.push(m);
                        assert(text::texts(errors@) =~= text::texts(before).push(line));
                    },
                }
            },
            Err(e) => {
                let ghost line = e@;
                errors.push(e);
                assert(text::texts(errors@) =~= text::texts(before).push(line));
            },
        }
    }
    let failed: usize = errors.len();
    ImportResult { imported: done, failed, errors }
}

/// Imports files one by one now.
pub fn import_from_directory(
    db: &mut Database,
    client_id: &str,
    files: &Vec<ImportFile>,
    command: Option<&str>,
    alias: Option<&str>,
) -> (r: ImportResult)
    requires
        old(db).wf(),
    ensures
        final(db).wf(),
        exists|now: i64|
            {
                let p = #[trigger] imported(
                    old(db)@,
                    client_id@,
                    files@,
                    text::opt_str(command),
                    text::opt_str(alias),
                    now,
                    files@.len() as int,
                );
                &&& 0 <= now <= MAX_TIME
                &&& final(db)@ == p.store
                &&& r.imported == p.imported
                &&& text::texts(r.errors@) == p.errors
                &&& r.failed == p.errors.len()
                &&& r.imported + r.failed == files@.len()
            },
{
    let now: i64 = utc_now();
    import_from_directory_at(db, client_id, files, command, alias, now)
}

/// Whether a file of this name holds a session: its extension is `txt`.
pub open spec fn is_record_file(name: Seq<char>) -> bool {
    name.len() > 4 && name.skip(name.len() - 4) == ".txt"@
}

/// The name of a session file without its extension; `None` for other files.
pub fn record_stem(name: &str) -> (r: Option<String>)
    ensures
        r is Some == is_record_file(name@),
        r is Some ==> r->0@ == name@.take(name@.len() - 4),
{
    let v = chars_of(name);
    let n: usize = v.len();
    if n <= 4 {
        return None;
    }
    let tail = string_of(&v, n - 4, n);
    assert(tail@ =~= name@.skip(n - 4));
    if same_text(tail.as_str(), ".txt") {
        let r = string_of(&v, 0, n - 4);
        assert(r@ =~= name@.take(n - 4));
        Some(r)
    } else {
        None
    }
}

/// The names of the session files among the files of a directory, in text order.
pub fn record_files(names: &Vec<String>) -> (r: Vec<String>)
    requires
        names@.len() <= i64::MAX,
    ensures
        forall|i: int, j: int|
            0 <= i < j < r@.len() ==> text::before(#[trigger] r@[i]@, #[trigger] r@[j]@),
        forall|n: Seq<char>| #[trigger]
            text::texts(r@).contains(n) <==> text::texts(names@).contains(n) && is_record_file(n),
{
    let ghost all = text::texts(names@);
    let mut t = Tally::new();
    for i in 0..names.len()
        invariant
            names@.len() <= i64::MAX,
            all == text::texts(names@),
            t.wf(),
            t.items().len() <= i,
            forall|k: int| 0 <= k < t.items().len() ==> (#[trigger] t.items()[k]).seconds == 0,
            forall|k: int|
                0 <= k < t.items().len() ==> all.contains((#[trigger] t.items()[k]).key)
                    && is_record_file(t.items()[k].key),
            forall|k: int|
                0 <= k < i && is_record_file(#[trigger] all[k]) ==> exists|j: int|
                    0 <= j < t.items().len() && (#[trigger] t.items()[j]).key == all[k],
    {
        assert(all[i as int] == names@[i as int]@);
        let wanted: bool = record_stem(names[i].as_str()).is_some();
        if wanted {
            let ghost before = t.items();
            let ghost item = tally::Item { key: all[i as int], seconds: 0 };
            proof {
                tally::lemma_zero_tally(before.push(item));
            }
            let fitted = t.enter(names[i].as_str(), 0);
            assert(fitted);
            proof {
                let after = t.items();
                assert(after == before.push(item));
                assert(after[after.len() - 1].key == all[i as int]);
                assert forall|k: int| 0 <= k < i + 1 && is_record_file(
                    #[trigger] all[k],
                ) implies exists|j: int|
                    0 <= j < after.len() && (#[trigger] after[j]).key == all[k] by {
                    if k < i {
                        let j = choose|j: int|
                            0 <= j < before.len() && (#[trigger] before[j]).key == all[k];
                        assert(after[j].key == all[k]);
                    }
                }
            }
        }
    }
    let ghost items = t.items();
    let groups = t.into_groups();
    let ghost views = tally::group_views(groups@);
    let mut r: Vec<String> = Vec::new();
    for i in 0..groups.len()
        invariant
            r@.len() == i,
            forall|k: int| 0 <= k < i ==> #[trigger] r@[k]@ == groups@[k].key@,
    {
        r.push(groups[i].key.clone());
    }
    proof {
        let list = text::texts(r@);
        assert forall|i: int, j: int| 0 <= i < j < r@.len() implies text::before(
            #[trigger] r@[i]@,
            #[trigger] r@[j]@,
        ) by {
            assert(text::before(views[i].key, views[j].key));
        }
        assert forall|n: Seq<char>| #[trigger] list.contains(n) <==> all.contains(n)
            && is_record_file(n) by {
            if list.contains(n) {
                let i = choose|i: int| 0 <= i < list.len() && list[i] == n;
                assert(views[i].key == n);
                let k = tally::lemma_value_origin(items, n);
                assert(items[k].key == n);
            }
            if all.contains(n) && is_record_file(n) {
                let k = choose|k: int| 0 <= k < all.len() && all[k] == n;
                let j = choose|j: int| 0 <= j < items.len() && (#[trigger] items[j]).key == all[k];
                tally::lemma_value_present(items, j);
                assert(tally::values_of(items, n).len() > 0);
                let i = choose|i: int| 0 <= i < views.len() && #[trigger] views[i].key == n;
                assert(list[i] == n);
            }
        }
    }
    r
}

} // verus!
