//! Where a downloaded backup goes and which old ones leave.

use crate::arith::floor_mod;
use crate::calendar;
use crate::calendar::{civil_of, local_day, year_string};
use crate::order;
use crate::order::sort_keys;
use crate::text;
use crate::text::{chars_of, int_text, padded_text, strip_prefix};
use vstd::prelude::*;

verus! {

/// `YYYYMMDD-HHMMSS` of a wall-clock reading.
pub open spec fn stamp(local: int) -> Seq<char> {
    let date = calendar::civil(calendar::day_of(local));
    calendar::year_text(date.0) + text::padded(date.1 as nat, 2) + text::padded(date.2 as nat, 2)
        + "-"@ + text::padded(calendar::hour_of(local) as nat, 2) + text::padded(
        calendar::minute_of(local) as nat,
        2,
    ) + text::padded((local % 60) as nat, 2)
}

/// The name of a backup that was made when the wall clock showed `local`.
pub open spec fn name_at(local: int) -> Seq<char> {
    "tspan-backup-"@ + stamp(local) + ".db"@
}

/// The name of a backup that was made when the wall clock showed `local`.
pub fn backup_name(local: i64) -> (r: String)
    requires
        calendar::representable(local as int),
    ensures
        r@ == name_at(local as int),
{
    let (y, m, d) = civil_of(local_day(local));
    let mut r = "tspan-backup-".to_owned();
    r.append(year_string(y).as_str());
    r.append(padded_text(m as u64, 2).as_str());
    r.append(padded_text(d as u64, 2).as_str());
    r.append("-");
    r.append(padded_text((floor_mod(local, 86400) / 3600) as u64, 2).as_str());
    r.append(padded_text((floor_mod(local, 3600) / 60) as u64, 2).as_str());
    r.append(padded_text(floor_mod(local, 60) as u64, 2).as_str());
    r.append(".db");
    assert(r@ =~= name_at(local as int));
    r
}

/// Whether a text ends with another.
pub open spec fn ends_with(s: Seq<char>, tail: Seq<char>) -> bool {
    tail.len() <= s.len() && s.skip(s.len() - tail.len()) == tail
}

fn has_tail(s: &str, tail: &str) -> (r: bool)
    ensures
        r == ends_with(s@, tail@),
{
    let v = chars_of(s);
    let t = chars_of(tail);
    let n: usize = v.len();
    let m: usize = t.len();
    if m > n {
        return false;
    }
    for i in 0..m
        invariant
            v@ == s@,
            t@ == tail@,
            n == v@.len(),
            m == t@.len(),
            m <= n,
            forall|k: int| 0 <= k < i ==> #[trigger] t@[k] == v@[n - m + k],
    {
        if v[n - m + i] != t[i] {
            assert(s@.skip(n - m)[i as int] != tail@[i as int]);
            return false;
        }
    }
    assert(s@.skip(n - m) =~= tail@);
    true
}

/// Where a backup goes: under a name of its own where a directory is named, else where it was
/// told.
pub open spec fn output_path(output: Seq<char>, is_directory: bool, local: int) -> Seq<char> {
    if ends_with(output, "/"@) {
        output + name_at(local)
    } else if is_directory {
        output + "/"@ + name_at(local)
    } else {
        output
    }
}

/// Where a backup goes.
pub fn resolve_output_path(output: &str, is_directory: bool, local: i64) -> (r: String)
    requires
        calendar::representable(local as int),
    ensures
        r@ == output_path(output@, is_directory, local as int),
{
    let mut r = output.to_owned();
    if has_tail(output, "/") {
        r.append(backup_name(local).as_str());
    } else if is_directory {
        r.append("/");
        r.append(backup_name(local).as_str());
    }
    r
}

/// The message on an answer that is no backup; none for one that is.
pub fn refusal(status: u16) -> (r: Option<String>)
    ensures
        text::opt_text(r) == if status == 200 {
            None
        } else {
            Some("Backup request failed with status "@ + text::dec(status as int))
        },
{
    if status == 200 {
        return None;
    }
    let mut message = "Backup request failed with status ".to_owned();
    message.append(int_text(status as i64).as_str());
    Some(message)
}

/// A file in the directory of the backups, with the time of its last change in nanoseconds since
/// the epoch where that is known.
#[derive(Debug)]
pub struct Entry {
    pub name: String,
    pub modified: Option<i64>,
}

/// Whether a file is a backup.
pub open spec fn is_backup(name: Seq<char>) -> bool {
    text::starts_with(name, "tspan-backup-"@) && ends_with(name, ".db"@)
}

/// The condition that a file is a backup.
pub open spec fn backups_only() -> spec_fn(Entry) -> bool {
    |e: Entry| is_backup(e.name@)
}

/// The time by which files are told older from newer: one of unknown time is the oldest.
pub open spec fn age_key(e: Entry) -> i64 {
    match e.modified {
        Some(t) => t,
        None => i64::MIN,
    }
}

/// The backups in a directory, the newest first.
pub open spec fn newest_first(entries: Seq<Entry>) -> Seq<Entry> {
    let found = order::kept(entries, backups_only());
    order::sorted(found, found.map_values(|e: Entry| age_key(e)), true)
}

/// The names of the backups that leave: all but the newest `keep`, where `keep` of zero keeps all.
pub open spec fn outdated(entries: Seq<Entry>, keep: usize) -> Seq<Seq<char>> {
    let sorted = newest_first(entries);
    if keep == 0 || sorted.len() <= keep {
        Seq::empty()
    } else {
        sorted.skip(keep as int).map_values(|e: Entry| e.name@)
    }
}

/// The names of the backups that leave.
pub fn cleanup_old_backups(entries: &Vec<Entry>, keep: usize) -> (r: Vec<String>)
    ensures
        text::texts(r@) == outdated(entries@, keep),
{
    let n: usize = entries.len();
    let mut found: Vec<usize> = Vec::new();
    let mut keys: Vec<i64> = Vec::new();
    let ghost wanted = backups_only();
    proof {
        if n > 0 {
            order::lemma_kept_step(entries@, wanted, 0);
        } else {
            assert(entries@.take(0) =~= entries@);
        }
    }
    for i in 0..n
        invariant
            n == entries@.len(),
            wanted == backups_only(),
            found@.len() == keys@.len() == order::kept(entries@.take(i as int), wanted).len(),
            found@.len() <= i,
            forall|k: int| 0 <= k < found@.len() ==> (#[trigger] found@[k]) < n,
            forall|k: int|
                0 <= k < found@.len() ==> entries@[(#[trigger] found@[k]) as int] == order::kept(
                    entries@.take(i as int),
                    wanted,
                )[k],
            forall|k: int|
                0 <= k < keys@.len() ==> #[trigger] keys@[k] == age_key(
                    entries@[found@[k] as int],
                ),
    {
        proof {
            order::lemma_kept_step(entries@, wanted, i as int);
        }
        let name = entries[i].name.as_str();
        let backup = strip_prefix(name, "tspan-backup-").is_some() && has_tail(name, ".db");
        if backup {
            found.push(i);
            keys.push(
                match entries[i].modified {
                    Some(t) => t,
                    None => i64::MIN,
                },
            );
        }
    }
    let ghost all = order::kept(entries@, wanted);
    assert(entries@.take(n as int) =~= entries@);
    assert(keys@ =~= all.map_values(|e: Entry| age_key(e)));
    let ranks = sort_keys(&keys, true);
    let ghost places = order::positions(ranks@);
    let ghost sorted = newest_first(entries@);
    let count: usize = ranks.len();
    assert(places.len() == count);
    assert(sorted.len() == count);
    let mut r: Vec<String> = Vec::new();
    if keep == 0 || count <= keep {
        assert(text::texts(r@) =~= Seq::<Seq<char>>::empty());
        return r;
    }
    for i in keep..count
        invariant
            0 < keep < count,
            count == ranks@.len() == sorted.len(),
            sorted == order::sorted(all, keys@, true),
            places == order::positions(ranks@),
            places == order::order(keys@, true),
            order::arranged(keys@, true, 0, keys@.len() as int, places),
            found@.len() == keys@.len() == all.len(),
            n == entries@.len(),
            forall|k: int| 0 <= k < found@.len() ==> (#[trigger] found@[k]) < n,
            forall|k: int|
                0 <= k < found@.len() ==> entries@[(#[trigger] found@[k]) as int] == all[k],
            r@.len() == i - keep,
            forall|k: int| 0 <= k < r@.len() ==> (#[trigger] r@[k])@ == sorted[keep + k].name@,
    {
        assert(places[i as int] == ranks@[i as int]);
        let at: usize = found[ranks[i]];
        assert(sorted[i as int] == all[places[i as int]]);
        r.push(entries[at].name.clone());
    }
    assert(text::texts(r@) =~= outdated(entries@, keep));
    r
}

/// A clean-up removes backups only, keeps `keep` of them where there are as many, and every
/// backup that it keeps is at least as new as every one that it removes.
pub proof fn law_newest_backups_stay(entries: Seq<Entry>, keep: usize, i: int, j: int)
    requires
        keep > 0,
        0 <= i < keep <= j < newest_first(entries).len(),
    ensures
        age_key(newest_first(entries)[i]) >= age_key(newest_first(entries)[j]),
        outdated(entries, keep)[j - keep] == newest_first(entries)[j].name@,
        outdated(entries, keep).len() == newest_first(entries).len() - keep,
        is_backup(outdated(entries, keep)[j - keep]),
        entries.contains(newest_first(entries)[j]),
{
    let wanted = backups_only();
    let found = order::kept(entries, wanted);
    let keys = found.map_values(|e: Entry| age_key(e));
    order::lemma_sorted_len(found, keys, true);
    let places = order::order(keys, true);
    assert(order::precedes(keys, true, places[i], places[j]));
    order::lemma_kept_member(entries, wanted);
    assert(wanted(found[places[j]]));
}

} // verus!
