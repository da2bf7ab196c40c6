//! The selected row of a table, page counts and short forms of what the terminal interface shows.

use crate::calendar;
use crate::calendar::{clock_string, date_string, instant, local_day};
use crate::text::{chars_of, string_of};
use crate::zone;
use crate::zone::Tz;
use vstd::prelude::*;

verus! {

/// Which row of a table is selected.
#[derive(Debug, Clone, Copy, PartialEq, Eq, Structural)]
pub struct TableState {
    pub row: Option<usize>,
}

impl Default for TableState {
    /// No row is selected.
    fn default() -> (r: TableState)
        ensures
            r.row is None,
    {
        TableState { row: None }
    }
}

impl TableState {
    /// The selected row.
    pub fn selected(&self) -> (r: Option<usize>)
        ensures
            r == self.row,
    {
        self.row
    }

    /// Selects a row or none.
    pub fn select(&mut self, row: Option<usize>)
        ensures
            final(self).row == row,
    {
        self.row = row;
    }
}

/// The row nearest to a preferred one in a table of `len` rows.
pub open spec fn clamped(preferred: usize, len: usize) -> Option<usize> {
    if len == 0 {
        None
    } else if preferred < len {
        Some(preferred)
    } else {
        Some((len - 1) as usize)
    }
}

/// The first row.
pub open spec fn first_row(len: usize) -> Option<usize> {
    if len == 0 {
        None
    } else {
        Some(0usize)
    }
}

/// The last row.
pub open spec fn last_row(len: usize) -> Option<usize> {
    if len == 0 {
        None
    } else {
        Some((len - 1) as usize)
    }
}

/// The row after the selected one, the first after the last or where none is selected.
pub open spec fn row_after(row: Option<usize>, len: usize) -> Option<usize> {
    if len == 0 {
        None
    } else {
        match row {
            Some(i) => if i + 1 < len {
                Some((i + 1) as usize)
            } else {
                Some(0usize)
            },
            None => Some(0usize),
        }
    }
}

/// The row before the selected one, the last before the first or where none is selected.
pub open spec fn row_before(row: Option<usize>, len: usize) -> Option<usize> {
    if len == 0 {
        None
    } else {
        match row {
            Some(i) => if i == 0 {
                Some((len - 1) as usize)
            } else {
                Some((i - 1) as usize)
            },
            None => Some((len - 1) as usize),
        }
    }
}

/// Selects the row nearest to a preferred one.
pub fn select_clamped(state: &mut TableState, preferred: usize, len: usize)
    ensures
        final(state).row == clamped(preferred, len),
{
    state.select(
        if len > 0 {
            Some(
                if preferred < len {
                    preferred
                } else {
                    len - 1
                },
            )
        } else {
            None
        },
    );
}

/// Selects the first row.
pub fn select_first(state: &mut TableState, len: usize)
    ensures
        final(state).row == first_row(len),
{
    state.select(
        if len > 0 {
            Some(0)
        } else {
            None
        },
    );
}

/// Selects the last row.
pub fn select_last(state: &mut TableState, len: usize)
    ensures
        final(state).row == last_row(len),
{
    state.select(
        if len > 0 {
            Some(len - 1)
        } else {
            None
        },
    );
}

/// Selects the row after the selected one.
pub fn select_next(state: &mut TableState, len: usize)
    ensures
        final(state).row == row_after(old(state).row, len),
{
    if len == 0 {
        state.select(None);
        return ;
    }
    match state.selected() {
        Some(index) => {
            if index < len - 1 {
                state.select(Some(index + 1));
            } else {
                state.select(Some(0));
            }
        },
        None => {
            state.select(Some(0));
        },
    }
}

/// Selects the row before the selected one.
pub fn select_previous(state: &mut TableState, len: usize)
    ensures
        final(state).row == row_before(old(state).row, len),
{
    if len == 0 {
        state.select(None);
        return ;
    }
    match state.selected() {
        Some(index) => {
            if index == 0 {
                state.select(Some(len - 1));
            } else {
                state.select(Some(index - 1));
            }
        },
        None => {
            state.select(Some(len - 1));
        },
    }
}

/// Whether a selection names a row of a table, or none of an empty one.
pub open spec fn points_into(row: Option<usize>, len: usize) -> bool {
    match row {
        Some(i) => i < len,
        None => len == 0,
    }
}

/// A selection that was clamped, or moved from a row of the table, names a row of the table
/// whenever it has one.
pub proof fn law_selection_stays_inside(row: Option<usize>, preferred: usize, len: usize)
    requires
        row is Some ==> row->0 < len,
    ensures
        points_into(clamped(preferred, len), len),
        points_into(first_row(len), len),
        points_into(last_row(len), len),
        points_into(row_after(row, len), len),
        points_into(row_before(row, len), len),
{
}

/// Moving on and back, in either order, leads to the same row; past either end the selection
/// wraps around.
pub proof fn law_selection_wraps(i: usize, len: usize)
    requires
        i < len,
    ensures
        row_before(row_after(Some(i), len), len) == Some(i),
        row_after(row_before(Some(i), len), len) == Some(i),
        row_after(last_row(len), len) == first_row(len),
        row_before(first_row(len), len) == last_row(len),
{
}

/// How many pages hold `total` items; one where there are none.
pub open spec fn pages(total: int, page_size: int) -> int {
    if total <= 0 {
        1
    } else {
        (total + page_size - 1) / page_size
    }
}

/// How many pages hold `total` items.
pub fn total_pages(total: i64, page_size: i64) -> (r: i64)
    requires
        page_size > 0,
    ensures
        r == pages(total as int, page_size as int),
        r >= 1,
{
    if total <= 0 {
        return 1;
    }
    proof {
        vstd::arithmetic::div_mod::lemma_div_plus_one(total - 1, page_size as int);
        vstd::arithmetic::div_mod::lemma_div_pos_is_pos(total - 1, page_size as int);
        vstd::arithmetic::div_mod::lemma_div_is_ordered_by_denominator(
            total - 1,
            1,
            page_size as int,
        );
        vstd::arithmetic::div_mod::lemma_div_basics_2(total - 1);
    }
    (total - 1) / page_size + 1
}

/// There is always a page, all items have a place on the pages, and the last page is not empty.
pub proof fn law_pages_hold_all(total: int, page_size: int)
    requires
        total >= 0,
        page_size > 0,
    ensures
        pages(total, page_size) >= 1,
        total <= pages(total, page_size) * page_size,
        total > 0 ==> (pages(total, page_size) - 1) * page_size < total,
{
    let n = pages(total, page_size);
    if total > 0 {
        let q = total + page_size - 1;
        assert(n >= 1 && total <= n * page_size && (n - 1) * page_size < total)
            by (nonlinear_arith)
            requires
                total > 0,
                page_size > 0,
                q == total + page_size - 1,
                n == q / page_size,
        {
            vstd::arithmetic::div_mod::lemma_fundamental_div_mod(q, page_size);
        }
    }
}

/// The short form of a token: its first ten and last four characters; a token of at most
/// fourteen characters is shown whole.
pub open spec fn redacted(token: Seq<char>) -> Seq<char> {
    if token.len() <= 14 {
        token
    } else {
        token.take(10).push('\u{2026}') + token.skip(token.len() - 4)
    }
}

/// The short form of a token.
pub fn redact_token(token: &str) -> (r: String)
    ensures
        r@ == redacted(token@),
{
    let v = chars_of(token);
    let n: usize = v.len();
    if n <= 14 {
        return token.to_owned();
    }
    let mut r = string_of(&v, 0, 10);
    r.push('\u{2026}');
    let tail = string_of(&v, n - 4, n);
    r.append(tail.as_str());
    assert(r@ =~= redacted(token@));
    r
}

/// `YYYY-MM-DD HH:MM` on a zone's wall clock, or a remark where the timestamp is not an instant.
pub open spec fn shown_time(ts: int, zone: Seq<char>) -> Seq<char> {
    if calendar::representable(ts) {
        let local = zone::local_time(zone, ts);
        calendar::date_text(calendar::day_of(local)).push(' ') + calendar::clock_text(local)
    } else {
        "invalid timestamp"@
    }
}

/// `YYYY-MM-DD HH:MM` on a zone's wall clock.
pub fn format_timestamp(timestamp: i64, timezone: &Tz) -> (r: String)
    ensures
        r@ == shown_time(timestamp as int, timezone@),
{
    match instant(timestamp) {
        Some(t) => {
            let local = timezone.local(t);
            let mut r = date_string(local_day(local));
            r.push(' ');
            r.append(clock_string(local).as_str());
            r
        },
        None => "invalid timestamp".to_owned(),
    }
}

} // verus!
