//! What a calendar shows of the data.

use crate::calendar;
use crate::stats;
use crate::svg_calendar;
use crate::svg_calendar::Layout;
use crate::text;
use vstd::prelude::*;

verus! {

// ---------------------------------------------------------------------------------------------
// Parts of a text
// ---------------------------------------------------------------------------------------------

/// Whether a text is made of a part with something before and something behind it.
pub open spec fn made_of(whole: Seq<char>, a: Seq<char>, part: Seq<char>, b: Seq<char>) -> bool {
    whole == a + part + b
}

/// Whether a text holds a part somewhere.
#[verifier::opaque]
pub open spec fn holds(whole: Seq<char>, part: Seq<char>) -> bool {
    exists|a: Seq<char>, b: Seq<char>| made_of(whole, a, part, b)
}

pub proof fn lemma_holds_self(x: Seq<char>)
    ensures
        holds(x, x),
{
    reveal(holds);
    assert(x =~= Seq::<char>::empty() + x + Seq::<char>::empty());
    assert(made_of(x, Seq::empty(), x, Seq::empty()));
}

pub proof fn lemma_holds_left(x: Seq<char>, y: Seq<char>, part: Seq<char>)
    requires
        holds(x, part),
    ensures
        holds(x + y, part),
{
    reveal(holds);
    let (a, b) = choose|a: Seq<char>, b: Seq<char>| made_of(x, a, part, b);
    assert(x + y =~= a + part + (b + y));
    assert(made_of(x + y, a, part, b + y));
}

pub proof fn lemma_holds_right(x: Seq<char>, y: Seq<char>, part: Seq<char>)
    requires
        holds(y, part),
    ensures
        holds(x + y, part),
{
    reveal(holds);
    let (a, b) = choose|a: Seq<char>, b: Seq<char>| made_of(y, a, part, b);
    assert(x + y =~= (x + a) + part + b);
    assert(made_of(x + y, x + a, part, b));
}

// ---------------------------------------------------------------------------------------------
// Squares
// ---------------------------------------------------------------------------------------------

/// The colour of a day by the time spent on it: none, under half an hour, under an hour, more.
pub open spec fn shade(seconds: int) -> Seq<char> {
    if seconds == 0 {
        "#f6f8fa"@
    } else if seconds < 1800 {
        "#9be9a8"@
    } else if seconds < 3600 {
        "#f9d71c"@
    } else {
        "#e5534b"@
    }
}

/// A rectangle up to its fill.
pub open spec fn box_start(x: int, y: int, w: int, h: int, fill: Seq<char>) -> Seq<char> {
    "<rect x=\""@ + text::dec(x) + "\" y=\""@ + text::dec(y) + "\" width=\""@ + text::dec(w)
        + "\" height=\""@ + text::dec(h) + "\" fill=\""@ + fill
}

/// The square of a day: its place, its colour, and a tooltip with the date, the seconds, and these
/// in words.
pub open spec fn day_square(x: int, y: int, day: int, seconds: int) -> Seq<char> {
    box_start(x, y, 15, 15, shade(seconds)) + "\"><title>"@ + (calendar::date_text(day) + ": "@
        + text::dec(seconds) + "s ("@ + stats::duration_text(seconds) + ")"@)
        + "</title></rect>"@
}

/// Whether the data tell so many seconds for a date: the last entry of the date does, or there is
/// none and it is no time.
pub open spec fn told(data: Seq<(Seq<char>, i64)>, date: Seq<char>, seconds: i64) -> bool {
    ||| exists|k: int|
        {
            &&& 0 <= k < data.len()
            &&& #[trigger] data[k] == (date, seconds)
            &&& forall|j: int| k < j < data.len() ==> (#[trigger] data[j]).0 != date
        }
    ||| seconds == 0 && forall|j: int| 0 <= j < data.len() ==> (#[trigger] data[j]).0 != date
}

/// What is drawn for a date is what the last entry of the date tells; no time where there is none.
pub proof fn law_last_entry_of_a_date_counts(data: Seq<(Seq<char>, i64)>, date: Seq<char>, seconds: i64)
    requires
        told(data, date, seconds),
    ensures
        svg_calendar::seconds_on(data, date) == seconds,
    decreases data.len(),
{
    if data.len() > 0 {
        let n = data.len() - 1;
        assert(data[n] == data.last());
        if data[n].0 != date {
            let rest = data.drop_last();
            assert(told(rest, date, seconds)) by {
                if exists|k: int|
                    {
                        &&& 0 <= k < data.len()
                        &&& #[trigger] data[k] == (date, seconds)
                        &&& forall|j: int| k < j < data.len() ==> (#[trigger] data[j]).0 != date
                    } {
                    let k = choose|k: int|
                        {
                            &&& 0 <= k < data.len()
                            &&& #[trigger] data[k] == (date, seconds)
                            &&& forall|j: int| k < j < data.len() ==> (#[trigger] data[j]).0 != date
                        };
                    assert(rest[k] == (date, seconds));
                    assert forall|j: int| k < j < rest.len() implies (#[trigger] rest[j]).0
                        != date by {
                        assert(rest[j] == data[j]);
                    }
                } else {
                    assert forall|j: int| 0 <= j < rest.len() implies (#[trigger] rest[j]).0
                        != date by {
                        assert(rest[j] == data[j]);
                    }
                }
            }
            law_last_entry_of_a_date_counts(rest, date, seconds);
        }
    }
}

/// The four colours differ, so days of different levels have squares of different colours.
pub proof fn law_colours_differ(a: int, b: int)
    ensures
        shade(a) == shade(b) <==> ((a == 0 <==> b == 0) && (a < 1800 <==> b < 1800) && (a < 3600
            <==> b < 3600)),
        svg_calendar::level_color(svg_calendar::level(a)) == shade(a),
        0 <= svg_calendar::level(a) <= 3,
{
    reveal_strlit("#f6f8fa");
    reveal_strlit("#9be9a8");
    reveal_strlit("#f9d71c");
    reveal_strlit("#e5534b");
    assert("#f6f8fa"@[1] == 'f' && "#f6f8fa"@[2] == '6');
    assert("#9be9a8"@[1] == '9');
    assert("#f9d71c"@[1] == 'f' && "#f9d71c"@[2] == '9');
    assert("#e5534b"@[1] == 'e');
}

proof fn lemma_column_holds(l: Layout, secs: Seq<i64>, col: int, row: int, n: int)
    requires
        0 <= row < n,
        l.shows(col, row),
    ensures
        holds(
            svg_calendar::column_text(l, secs, col, n),
            svg_calendar::cell_text(l, secs, col, row),
        ),
    decreases n,
{
    let cell = svg_calendar::cell_text(l, secs, col, row);
    let before = svg_calendar::column_text(l, secs, col, n - 1);
    if row == n - 1 {
        lemma_holds_self(cell);
        lemma_holds_right(before, cell, cell);
    } else {
        lemma_column_holds(l, secs, col, row, n - 1);
        if l.shows(col, n - 1) {
            lemma_holds_left(before, svg_calendar::cell_text(l, secs, col, n - 1), cell);
        }
    }
}

proof fn lemma_grid_holds(l: Layout, secs: Seq<i64>, col: int, n: int, part: Seq<char>)
    requires
        0 <= col < n,
        holds(svg_calendar::column_text(l, secs, col, l.rows as int), part),
    ensures
        holds(svg_calendar::grid_text(l, secs, n), part),
    decreases n,
{
    let before = svg_calendar::grid_text(l, secs, n - 1);
    let last = svg_calendar::column_text(l, secs, n - 1, l.rows as int);
    if col == n - 1 {
        lemma_holds_right(before, last, part);
    } else {
        lemma_grid_holds(l, secs, col, n - 1, part);
        lemma_holds_left(before, last, part);
    }
}

proof fn lemma_transitive(whole: Seq<char>, middle: Seq<char>, part: Seq<char>)
    requires
        holds(whole, middle),
        holds(middle, part),
    ensures
        holds(whole, part),
{
    reveal(holds);
    let (a, b) = choose|a: Seq<char>, b: Seq<char>| made_of(whole, a, middle, b);
    lemma_holds_right(a, middle, part);
    lemma_holds_left(a + middle, b, part);
}

/// The five parts of a drawing are in it.
proof fn lemma_drawing_holds(l: Layout, secs: Seq<i64>, title: Seq<char>)
    ensures
        holds(
            svg_calendar::drawing(l, secs, title),
            svg_calendar::grid_text(l, secs, l.cols as int),
        ),
        holds(svg_calendar::drawing(l, secs, title), svg_calendar::head_text(l, title)),
        holds(svg_calendar::drawing(l, secs, title), svg_calendar::counts_text(l, secs)),
        exists|y: int|
            holds(svg_calendar::drawing(l, secs, title), #[trigger] svg_calendar::legend_text(y)),
{
    let legend_y = if l.yearly {
        svg_calendar::MARGIN_TOP + l.rows * svg_calendar::STRIDE + 32
    } else {
        svg_calendar::height(l) - 20
    };
    let head = svg_calendar::head_text(l, title);
    let grid = svg_calendar::grid_text(l, secs, l.cols as int);
    let counts = svg_calendar::counts_text(l, secs);
    let legend = svg_calendar::legend_text(legend_y);
    lemma_holds_self(head);
    lemma_holds_self(grid);
    lemma_holds_self(counts);
    lemma_holds_self(legend);
    lemma_holds_left(head, grid, head);
    lemma_holds_left(head + grid, counts, head);
    lemma_holds_left(head + grid + counts, legend, head);
    lemma_holds_left(head + grid + counts + legend, "</svg>"@, head);
    lemma_holds_right(head, grid, grid);
    lemma_holds_left(head + grid, counts, grid);
    lemma_holds_left(head + grid + counts, legend, grid);
    lemma_holds_left(head + grid + counts + legend, "</svg>"@, grid);
    lemma_holds_right(head + grid, counts, counts);
    lemma_holds_left(head + grid + counts, legend, counts);
    lemma_holds_left(head + grid + counts + legend, "</svg>"@, counts);
    lemma_holds_right(head + grid + counts, legend, legend);
    lemma_holds_left(head + grid + counts + legend, "</svg>"@, legend);
}

/// What a cell holds is in the drawing.
proof fn lemma_cell_in_drawing(
    l: Layout,
    secs: Seq<i64>,
    title: Seq<char>,
    col: int,
    row: int,
    part: Seq<char>,
)
    requires
        l.shows(col, row),
        holds(svg_calendar::cell_text(l, secs, col, row), part),
    ensures
        holds(svg_calendar::drawing(l, secs, title), part),
{
    lemma_column_holds(l, secs, col, row, l.rows as int);
    lemma_transitive(
        svg_calendar::column_text(l, secs, col, l.rows as int),
        svg_calendar::cell_text(l, secs, col, row),
        part,
    );
    lemma_grid_holds(l, secs, col, l.cols as int, part);
    lemma_drawing_holds(l, secs, title);
    lemma_transitive(
        svg_calendar::drawing(l, secs, title),
        svg_calendar::grid_text(l, secs, l.cols as int),
        part,
    );
}

/// A rectangle without a tooltip.
pub open spec fn plain_box(x: int, y: int, w: int, h: int, fill: Seq<char>) -> Seq<char> {
    box_start(x, y, w, h, fill) + "\"/>"@
}

/// The parts of a cell: the square, the four borders and the four corners.
proof fn lemma_cell_parts(l: Layout, secs: Seq<i64>, col: int, row: int)
    requires
        l.shows(col, row),
    ensures
        ({
            let cell = svg_calendar::cell_text(l, secs, col, row);
            let i = l.index(col, row);
            let x = 40 + col * 29;
            let y = 30 + row * 29;
            &&& holds(cell, day_square(x + 5, y + 5, l.start + i, secs[i] as int))
            &&& holds(
                cell,
                plain_box(x + 5, y, 15, 5, svg_calendar::edge(l, secs, col, row, 0, -1)),
            )
            &&& holds(
                cell,
                plain_box(x + 20, y + 5, 5, 15, svg_calendar::edge(l, secs, col, row, 1, 0)),
            )
            &&& holds(
                cell,
                plain_box(x + 5, y + 20, 15, 5, svg_calendar::edge(l, secs, col, row, 0, 1)),
            )
            &&& holds(
                cell,
                plain_box(x, y + 5, 5, 15, svg_calendar::edge(l, secs, col, row, -1, 0)),
            )
            &&& holds(
                cell,
                plain_box(x, y, 5, 5, svg_calendar::corner(l, secs, col, row, -1, -1)),
            )
            &&& holds(
                cell,
                plain_box(x + 20, y, 5, 5, svg_calendar::corner(l, secs, col, row, 1, -1)),
            )
            &&& holds(
                cell,
                plain_box(x + 20, y + 20, 5, 5, svg_calendar::corner(l, secs, col, row, 1, 1)),
            )
            &&& holds(
                cell,
                plain_box(x, y + 20, 5, 5, svg_calendar::corner(l, secs, col, row, -1, 1)),
            )
            &&& holds(cell, svg_calendar::month_mark(l, col, row))
        }),
{
    let i = l.index(col, row);
    let x = 40 + col * 29;
    let y = 30 + row * 29;
    law_colours_differ(secs[i] as int, 0);
    let m = svg_calendar::month_mark(l, col, row);
    let p0 = day_square(x + 5, y + 5, l.start + i, secs[i] as int);
    let p1 = plain_box(x + 5, y, 15, 5, svg_calendar::edge(l, secs, col, row, 0, -1));
    let p2 = plain_box(x + 20, y + 5, 5, 15, svg_calendar::edge(l, secs, col, row, 1, 0));
    let p3 = plain_box(x + 5, y + 20, 15, 5, svg_calendar::edge(l, secs, col, row, 0, 1));
    let p4 = plain_box(x, y + 5, 5, 15, svg_calendar::edge(l, secs, col, row, -1, 0));
    let p5 = plain_box(x, y, 5, 5, svg_calendar::corner(l, secs, col, row, -1, -1));
    let p6 = plain_box(x + 20, y, 5, 5, svg_calendar::corner(l, secs, col, row, 1, -1));
    let p7 = plain_box(x + 20, y + 20, 5, 5, svg_calendar::corner(l, secs, col, row, 1, 1));
    let p8 = plain_box(x, y + 20, 5, 5, svg_calendar::corner(l, secs, col, row, -1, 1));
    assert(svg_calendar::cell_text(l, secs, col, row) == m + p0 + p1 + p2 + p3 + p4 + p5 + p6 + p7
        + p8);
    lemma_nine(m, p0, p1, p2, p3, p4, p5, p6, p7, p8);
}

/// Texts put together are in the whole.
proof fn lemma_nine(
    m: Seq<char>,
    p0: Seq<char>,
    p1: Seq<char>,
    p2: Seq<char>,
    p3: Seq<char>,
    p4: Seq<char>,
    p5: Seq<char>,
    p6: Seq<char>,
    p7: Seq<char>,
    p8: Seq<char>,
)
    ensures
        ({
            let whole = m + p0 + p1 + p2 + p3 + p4 + p5 + p6 + p7 + p8;
            &&& holds(whole, m)
            &&& holds(whole, p0)
            &&& holds(whole, p1)
            &&& holds(whole, p2)
            &&& holds(whole, p3)
            &&& holds(whole, p4)
            &&& holds(whole, p5)
            &&& holds(whole, p6)
            &&& holds(whole, p7)
            &&& holds(whole, p8)
        }),
{
    let s0 = m + p0;
    let s1 = s0 + p1;
    let s2 = s1 + p2;
    let s3 = s2 + p3;
    let s4 = s3 + p4;
    let s5 = s4 + p5;
    let s6 = s5 + p6;
    let s7 = s6 + p7;
    let s8 = s7 + p8;
    lemma_pair(m, p0);
    lemma_pair(s0, p1);
    lemma_pair(s1, p2);
    lemma_pair(s2, p3);
    lemma_pair(s3, p4);
    lemma_pair(s4, p5);
    lemma_pair(s5, p6);
    lemma_pair(s6, p7);
    lemma_pair(s7, p8);
    lemma_transitive(s8, s7, p7);
    lemma_transitive(s8, s7, s6);
    lemma_transitive(s8, s6, p6);
    lemma_transitive(s8, s6, s5);
    lemma_transitive(s8, s5, p5);
    lemma_transitive(s8, s5, s4);
    lemma_transitive(s8, s4, p4);
    lemma_transitive(s8, s4, s3);
    lemma_transitive(s8, s3, p3);
    lemma_transitive(s8, s3, s2);
    lemma_transitive(s8, s2, p2);
    lemma_transitive(s8, s2, s1);
    lemma_transitive(s8, s1, p1);
    lemma_transitive(s8, s1, s0);
    lemma_transitive(s8, s0, p0);
    lemma_transitive(s8, s0, m);
}

proof fn lemma_pair(x: Seq<char>, y: Seq<char>)
    ensures
        holds(x + y, x),
        holds(x + y, y),
{
    lemma_holds_self(x);
    lemma_holds_self(y);
    lemma_holds_left(x, y, x);
    lemma_holds_right(x, y, y);
}

// ---------------------------------------------------------------------------------------------
// A year
// ---------------------------------------------------------------------------------------------

/// The last day that the calendar of a year shows: today in the present year, else December 31.
pub open spec fn shown_to(year: int, today: int) -> int {
    if calendar::civil(today).0 == year {
        today
    } else {
        calendar::day_number(year, 12, 31)
    }
}

proof fn lemma_months_bound(y: int, m: int)
    requires
        m <= 12,
    ensures
        0 <= calendar::days_before_month(y, m),
        m >= 1 ==> calendar::days_before_month(y, m) <= 31 * (m - 1),
    decreases m,
{
    if m > 1 {
        lemma_months_bound(y, m - 1);
    }
}

/// The days of the years in range have small numbers.
proof fn lemma_year_bounds(y: int)
    requires
        -262143 <= y <= 262142,
    ensures
        -97000000 <= calendar::day_number(y, 1, 1) <= 97000000,
        -97000000 <= calendar::day_number(y, 12, 31) <= 97000000,
{
    lemma_months_bound(y, 1);
    lemma_months_bound(y, 12);
}

proof fn lemma_layout(first: int, end: int, day: int)
    requires
        -97000000 <= first <= day <= end <= 97000000,
    ensures
        ({
            let l = Layout::year(first, end);
            let offset = calendar::weekday(first);
            let col = (day - first + offset) / 7;
            let row = calendar::weekday(day);
            &&& l.yearly
            &&& l.rows == 7
            &&& l.start == first
            &&& l.total == end - first + 1
            &&& l.offset == offset
            &&& l.cols == (l.total + offset + 6) / 7
            &&& l.shows(col, row)
            &&& l.index(col, row) == day - first
        }),
{
    let offset = calendar::weekday(first);
    let n = day - first + offset;
    assert(n % 7 == calendar::weekday(day));
    assert(n == n / 7 * 7 + n % 7);
}

/// The layout of a year has the numbers that it is made of, and a day stands in the column of its
/// week and the row of its day of the week.
proof fn lemma_year_layout(y: int, today: int, day: int)
    requires
        -262143 <= y <= 262142,
        calendar::day_in_range(today),
        calendar::day_number(y, 1, 1) <= day <= shown_to(y, today),
    ensures
        ({
            let first = calendar::day_number(y, 1, 1);
            let l = Layout::year(first, shown_to(y, today));
            let offset = calendar::weekday(first);
            let col = (day - first + offset) / 7;
            let row = calendar::weekday(day);
            &&& l.yearly
            &&& l.rows == 7
            &&& l.start == first
            &&& l.total == shown_to(y, today) - first + 1
            &&& l.offset == offset
            &&& l.cols == (l.total + offset + 6) / 7
            &&& l.shows(col, row)
            &&& l.index(col, row) == day - first
        }),
{
    lemma_year_bounds(y);
    lemma_layout(calendar::day_number(y, 1, 1), shown_to(y, today), day);
}

/// In the calendar of a year each day up to the last one shown has a square, in the column of its
/// week and the row of its day of the week, with the colour of the time that the data tell for it
/// and a tooltip that tells it.
pub proof fn law_day_of_a_year_has_its_colour(
    data: Seq<(Seq<char>, i64)>,
    y: i32,
    today: int,
    day: int,
    seconds: i64,
)
    requires
        data.len() > 0,
        -262143 <= y <= 262142,
        calendar::day_in_range(today),
        calendar::day_number(y as int, 1, 1) <= day <= shown_to(y as int, today),
        told(data, calendar::date_text(day), seconds),
    ensures
        ({
            let first = calendar::day_number(y as int, 1, 1);
            let col = (day - first + calendar::weekday(first)) / 7;
            let row = calendar::weekday(day);
            holds(
                svg_calendar::calendar_of(data, Some(y), today),
                day_square(40 + col * 29 + 5, 30 + row * 29 + 5, day, seconds as int),
            )
        }),
{
    let first = calendar::day_number(y as int, 1, 1);
    let col = (day - first + calendar::weekday(first)) / 7;
    let row = calendar::weekday(day);
    lemma_year_layout(y as int, today, day);
    let l = Layout::year(first, shown_to(y as int, today));
    let secs = svg_calendar::seconds_by_day(data, l.start as int, l.total as int);
    law_last_entry_of_a_date_counts(data, calendar::date_text(day), seconds);
    assert(secs[day - first] == seconds);
    lemma_cell_parts(l, secs, col, row);
    lemma_cell_in_drawing(
        l,
        secs,
        text::dec(y as int),
        col,
        row,
        day_square(40 + col * 29 + 5, 30 + row * 29 + 5, day, seconds as int),
    );
}

/// The colour of a border between a day and another one: that of the day where the other one is
/// shown and of its level, else a dark one.
pub open spec fn seam(
    data: Seq<(Seq<char>, i64)>,
    first: int,
    end: int,
    day: int,
    other: int,
) -> Seq<char> {
    let own = svg_calendar::seconds_on(data, calendar::date_text(day));
    let there = svg_calendar::seconds_on(data, calendar::date_text(other));
    if first <= other <= end && shade(there as int) == shade(own as int) {
        shade(own as int)
    } else {
        "#1f2328"@
    }
}

proof fn lemma_alike(l: Layout, secs: Seq<i64>, col: int, row: int, dc: int, dr: int)
    requires
        l.shows(col, row),
    ensures
        svg_calendar::alike(l, secs, col, row, dc, dr) <==> l.shows(col + dc, row + dr) && shade(
            secs[l.index(col + dc, row + dr)] as int,
        ) == shade(secs[l.index(col, row)] as int),
{
    let a = secs[l.index(col + dc, row + dr)] as int;
    let b = secs[l.index(col, row)] as int;
    law_colours_differ(a, b);
    law_colours_differ(b, a);
}

/// Whether a neighbour within the week is shown.
proof fn lemma_shown_beside(first: int, end: int, day: int, dc: int, dr: int)
    requires
        -97000000 <= first <= day <= end <= 97000000,
        -1 <= dc <= 1,
        -1 <= dr <= 1,
    ensures
        ({
            let l = Layout::year(first, end);
            let col = (day - first + calendar::weekday(first)) / 7;
            let row = calendar::weekday(day);
            &&& l.shows(col + dc, row + dr) <==> 0 <= row + dr < 7 && first <= day + 7 * dc + dr
                <= end
            &&& l.index(col + dc, row + dr) == day - first + 7 * dc + dr
        }),
{
    lemma_layout(first, end, day);
}

/// In the calendar of a year a border between two days of one level has their colour, else it is dark:
/// above and below it the day before and the day after in the same week, to the left and right the
/// same day of the week before and of the week after.
pub proof fn law_borders_join_days_of_one_level(
    data: Seq<(Seq<char>, i64)>,
    y: i32,
    today: int,
    day: int,
)
    requires
        data.len() > 0,
        -262143 <= y <= 262142,
        calendar::day_in_range(today),
        calendar::day_number(y as int, 1, 1) <= day <= shown_to(y as int, today),
    ensures
        ({
            let first = calendar::day_number(y as int, 1, 1);
            let end = shown_to(y as int, today);
            let col = (day - first + calendar::weekday(first)) / 7;
            let row = calendar::weekday(day);
            let x = 40 + col * 29;
            let top = 30 + row * 29;
            let svg = svg_calendar::calendar_of(data, Some(y), today);
            &&& holds(
                svg,
                plain_box(x + 5, top, 15, 5, if row > 0 {
                    seam(data, first, end, day, day - 1)
                } else {
                    "#1f2328"@
                }),
            )
            &&& holds(
                svg,
                plain_box(x + 5, top + 20, 15, 5, if row < 6 {
                    seam(data, first, end, day, day + 1)
                } else {
                    "#1f2328"@
                }),
            )
            &&& holds(
                svg,
                plain_box(x, top + 5, 5, 15, seam(data, first, end, day, day - 7)),
            )
            &&& holds(
                svg,
                plain_box(x + 20, top + 5, 5, 15, seam(data, first, end, day, day + 7)),
            )
        }),
{
    lemma_border(data, y, today, day, 0, -1);
    lemma_border(data, y, today, day, 0, 1);
    lemma_border(data, y, today, day, -1, 0);
    lemma_border(data, y, today, day, 1, 0);
}

/// What the cell of a day of a year holds is in the calendar.
proof fn lemma_cell_in_year(
    data: Seq<(Seq<char>, i64)>,
    y: i32,
    today: int,
    day: int,
    part: Seq<char>,
)
    requires
        data.len() > 0,
        -262143 <= y <= 262142,
        calendar::day_in_range(today),
        calendar::day_number(y as int, 1, 1) <= day <= shown_to(y as int, today),
        ({
            let first = calendar::day_number(y as int, 1, 1);
            let l = Layout::year(first, shown_to(y as int, today));
            holds(
                svg_calendar::cell_text(
                    l,
                    svg_calendar::seconds_by_day(data, l.start as int, l.total as int),
                    (day - first + calendar::weekday(first)) / 7,
                    calendar::weekday(day),
                ),
                part,
            )
        }),
    ensures
        holds(svg_calendar::calendar_of(data, Some(y), today), part),
{
    let first = calendar::day_number(y as int, 1, 1);
    let col = (day - first + calendar::weekday(first)) / 7;
    let row = calendar::weekday(day);
    lemma_year_layout(y as int, today, day);
    let l = Layout::year(first, shown_to(y as int, today));
    let secs = svg_calendar::seconds_by_day(data, l.start as int, l.total as int);
    lemma_cell_in_drawing(l, secs, text::dec(y as int), col, row, part);
}

/// The place of a border of a cell.
spec fn border_box(x: int, y: int, dc: int, dr: int, fill: Seq<char>) -> Seq<char> {
    if dr == -1 {
        plain_box(x + 5, y, 15, 5, fill)
    } else if dr == 1 {
        plain_box(x + 5, y + 20, 15, 5, fill)
    } else if dc == -1 {
        plain_box(x, y + 5, 5, 15, fill)
    } else {
        plain_box(x + 20, y + 5, 5, 15, fill)
    }
}

proof fn lemma_border(
    data: Seq<(Seq<char>, i64)>,
    y: i32,
    today: int,
    day: int,
    dc: int,
    dr: int,
)
    requires
        data.len() > 0,
        -262143 <= y <= 262142,
        calendar::day_in_range(today),
        calendar::day_number(y as int, 1, 1) <= day <= shown_to(y as int, today),
        (dc == 0 && (dr == -1 || dr == 1)) || (dr == 0 && (dc == -1 || dc == 1)),
    ensures
        ({
            let first = calendar::day_number(y as int, 1, 1);
            let end = shown_to(y as int, today);
            let col = (day - first + calendar::weekday(first)) / 7;
            let row = calendar::weekday(day);
            holds(
                svg_calendar::calendar_of(data, Some(y), today),
                border_box(40 + col * 29, 30 + row * 29, dc, dr, if 0 <= row + dr < 7 {
                    seam(data, first, end, day, day + 7 * dc + dr)
                } else {
                    "#1f2328"@
                }),
            )
        }),
{
    let first = calendar::day_number(y as int, 1, 1);
    let end = shown_to(y as int, today);
    let col = (day - first + calendar::weekday(first)) / 7;
    let row = calendar::weekday(day);
    lemma_year_bounds(y as int);
    lemma_year_layout(y as int, today, day);
    let l = Layout::year(first, end);
    let secs = svg_calendar::seconds_by_day(data, l.start as int, l.total as int);
    let fill = svg_calendar::edge(l, secs, col, row, dc, dr);
    let part = border_box(40 + col * 29, 30 + row * 29, dc, dr, fill);
    assert(holds(svg_calendar::cell_text(l, secs, col, row), part)) by {
        lemma_cell_parts(l, secs, col, row);
    }
    lemma_side_seam(data, first, end, day, secs, dc, dr);
    lemma_cell_in_year(data, y, today, day, part);
}

proof fn lemma_side_seam(
    data: Seq<(Seq<char>, i64)>,
    first: int,
    end: int,
    day: int,
    secs: Seq<i64>,
    dc: int,
    dr: int,
)
    requires
        -97000000 <= first <= day <= end <= 97000000,
        -1 <= dc <= 1,
        -1 <= dr <= 1,
        secs == svg_calendar::seconds_by_day(data, first, end - first + 1),
    ensures
        svg_calendar::edge(
            Layout::year(first, end),
            secs,
            (day - first + calendar::weekday(first)) / 7,
            calendar::weekday(day),
            dc,
            dr,
        ) == (if 0 <= calendar::weekday(day) + dr < 7 {
            seam(data, first, end, day, day + 7 * dc + dr)
        } else {
            "#1f2328"@
        }),
{
    let l = Layout::year(first, end);
    let col = (day - first + calendar::weekday(first)) / 7;
    let row = calendar::weekday(day);
    lemma_layout(first, end, day);
    lemma_shown_beside(first, end, day, dc, dr);
    lemma_alike(l, secs, col, row, dc, dr);
    let other = day + 7 * dc + dr;
    let own = svg_calendar::seconds_on(data, calendar::date_text(day));
    law_colours_differ(own as int, 0);
    assert(secs[day - first] == own);
    if first <= other <= end {
        assert(secs[other - first] == svg_calendar::seconds_on(data, calendar::date_text(other)));
    }
}

/// The heading of a calendar is the year, or `All Time`; without data it says so.
pub proof fn law_calendar_has_its_title(data: Seq<(Seq<char>, i64)>, y: i32, today: int)
    ensures
        data.len() > 0 ==> holds(
            svg_calendar::calendar_of(data, Some(y), today),
            ">"@ + text::dec(y as int) + "</text>"@,
        ),
        data.len() > 0 ==> holds(
            svg_calendar::calendar_of(data, None, today),
            ">"@ + "All Time"@ + "</text>"@,
        ),
        data.len() == 0 ==> holds(svg_calendar::calendar_of(data, Some(y), today), "No data"@)
            && svg_calendar::calendar_of(data, None, today) == svg_calendar::calendar_of(
            data,
            Some(y),
            today,
        ),
{
    if data.len() > 0 {
        let l = Layout::year(
            calendar::day_number(y as int, 1, 1),
            svg_calendar::year_end(y as int, today),
        );
        let secs = svg_calendar::seconds_by_day(data, l.start as int, l.total as int);
        lemma_title(l, secs, text::dec(y as int));
        let all = Layout::all_time(
            svg_calendar::first_day(data),
            svg_calendar::last_day(data, today),
        );
        let all_secs = svg_calendar::seconds_by_day(data, all.start as int, all.total as int);
        lemma_title(all, all_secs, "All Time"@);
    } else {
        lemma_no_data();
    }
}

proof fn lemma_no_data()
    ensures
        holds(svg_calendar::no_data(), "No data"@),
{
    reveal(holds);
    reveal_strlit(
        "<svg width=\"100\" height=\"50\" xmlns=\"http://www.w3.org/2000/svg\"><text x=\"10\" y=\"30\" font-size=\"12\" fill=\"#666\">No data</text></svg>",
    );
    reveal_strlit("No data");
    let whole = svg_calendar::no_data();
    assert(whole.len() == 131);
    let a = whole.take(111);
    let b = whole.skip(118);
    assert(whole =~= a + "No data"@ + b);
    assert(made_of(whole, a, "No data"@, b));
}

proof fn lemma_title(l: Layout, secs: Seq<i64>, title: Seq<char>)
    ensures
        holds(svg_calendar::drawing(l, secs, title), ">"@ + title + "</text>"@),
{
    reveal(holds);
    let width = svg_calendar::MARGIN_LEFT + l.cols * svg_calendar::STRIDE - svg_calendar::PADDING
        + (if l.yearly {
        40int
    } else {
        20
    });
    let front = "<svg width=\""@ + text::dec(width) + "\" height=\""@ + text::dec(
        svg_calendar::height(l),
    ) + "\" xmlns=\"http://www.w3.org/2000/svg\">"@;
    let opening =
        "<text x=\"5\" y=\"18\" font-size=\"18\" font-weight=\"bold\" fill=\"#333333\">"@;
    let part = ">"@ + title + "</text>"@;
    let s3 = front + opening + title + "</text>"@;
    reveal_strlit(">");
    reveal_strlit(
        "<text x=\"5\" y=\"18\" font-size=\"18\" font-weight=\"bold\" fill=\"#333333\">",
    );
    let short = opening.take(opening.len() - 1);
    assert(opening =~= short + ">"@);
    assert(s3 =~= (front + short) + part + Seq::<char>::empty());
    assert(made_of(s3, front + short, part, Seq::empty()));
    let a = svg_calendar::label(5, 46, svg_calendar::weekday_name(0));
    let b = svg_calendar::label(5, 104, svg_calendar::weekday_name(2));
    let c = svg_calendar::label(5, 162, svg_calendar::weekday_name(4));
    let d = svg_calendar::label(5, 220, svg_calendar::weekday_name(6));
    lemma_holds_left(s3, a, part);
    lemma_holds_left(s3 + a, b, part);
    lemma_holds_left(s3 + a + b, c, part);
    lemma_holds_left(s3 + a + b + c, d, part);
    assert(svg_calendar::head_text(l, title) == s3 + a + b + c + d);
    lemma_drawing_holds(l, secs, title);
    lemma_transitive(
        svg_calendar::drawing(l, secs, title),
        svg_calendar::head_text(l, title),
        part,
    );
}

/// Whether a drawing explains the four colours at the height `y`.
pub open spec fn explained(svg: Seq<char>, y: int) -> bool {
    &&& holds(svg, legend_line(0, y, shade(0), "0s"@))
    &&& holds(svg, legend_line(1, y, shade(1), "<30m"@))
    &&& holds(svg, legend_line(2, y, shade(1800), "30-60m"@))
    &&& holds(svg, legend_line(3, y, shade(3600), ">60m"@))
}

/// The legend of a calendar gives each colour with the time that it stands for.
pub proof fn law_legend_explains_the_colours(
    data: Seq<(Seq<char>, i64)>,
    year: Option<i32>,
    today: int,
)
    requires
        data.len() > 0,
    ensures
        ({
            let svg = svg_calendar::calendar_of(data, year, today);
            exists|y: int| #[trigger] explained(svg, y)
        }),
{
    let l = match year {
        Some(y) => Layout::year(
            calendar::day_number(y as int, 1, 1),
            svg_calendar::year_end(y as int, today),
        ),
        None => Layout::all_time(svg_calendar::first_day(data), svg_calendar::last_day(data, today)),
    };
    let title = match year {
        Some(y) => text::dec(y as int),
        None => "All Time"@,
    };
    let secs = svg_calendar::seconds_by_day(data, l.start as int, l.total as int);
    let svg = svg_calendar::drawing(l, secs, title);
    lemma_drawing_holds(l, secs, title);
    let y = choose|y: int| holds(svg, #[trigger] svg_calendar::legend_text(y));
    let a = legend_line(0, y, shade(0), "0s"@);
    let b = legend_line(1, y, shade(1), "<30m"@);
    let c = legend_line(2, y, shade(1800), "30-60m"@);
    let d = legend_line(3, y, shade(3600), ">60m"@);
    let whole = svg_calendar::legend_text(y);
    assert(whole == a + b + c + d);
    lemma_pair(a, b);
    lemma_pair(a + b, c);
    lemma_pair(a + b + c, d);
    lemma_transitive(whole, a + b + c, c);
    lemma_transitive(whole, a + b + c, a + b);
    lemma_transitive(whole, a + b, a);
    lemma_transitive(whole, a + b, b);
    lemma_transitive(svg, whole, a);
    lemma_transitive(svg, whole, b);
    lemma_transitive(svg, whole, c);
    lemma_transitive(svg, whole, d);
    assert(svg == svg_calendar::calendar_of(data, year, today));
    assert(explained(svg, y));
}

/// One entry of the legend: a small square of a colour and words beside it.
pub open spec fn legend_line(i: int, y: int, color: Seq<char>, words: Seq<char>) -> Seq<char> {
    "<rect x=\""@ + text::dec(40 + i * 60) + "\" y=\""@ + text::dec(y)
        + "\" width=\"10\" height=\"10\" rx=\"2\" fill=\""@ + color + "\"/><text x=\""@
        + text::dec(40 + i * 60 + 14) + "\" y=\""@ + text::dec(y + 9)
        + "\" font-size=\"11\" fill=\"#666666\">"@ + words + "</text>"@
}

/// The short English name of a month: a part of three letters out of all of them.
pub open spec fn name_of_month(month: int) -> Seq<char> {
    "JanFebMarAprMayJunJulAugSepOctNovDec"@.subrange(3 * month - 3, 3 * month)
}

proof fn lemma_month_names(month: int)
    requires
        1 <= month <= 12,
    ensures
        svg_calendar::month_name(month) == name_of_month(month),
{
    reveal_strlit("JanFebMarAprMayJunJulAugSepOctNovDec");
    reveal_strlit("Jan");
    reveal_strlit("Feb");
    reveal_strlit("Mar");
    reveal_strlit("Apr");
    reveal_strlit("May");
    reveal_strlit("Jun");
    reveal_strlit("Jul");
    reveal_strlit("Aug");
    reveal_strlit("Sep");
    reveal_strlit("Oct");
    reveal_strlit("Nov");
    reveal_strlit("Dec");
    assert(svg_calendar::month_name(month) =~= name_of_month(month));
}

proof fn lemma_month_mark(l: Layout, col: int, row: int, y: int, month: int)
    requires
        l.yearly,
        1 <= month <= 12,
        l.start + l.index(col, row) == calendar::day_number(y, month, 1),
    ensures
        svg_calendar::month_mark(l, col, row) == "<text x=\""@ + text::dec(40 + col * 29 + 5)
            + "\" y=\""@ + text::dec(26) + "\" font-size=\"12\" fill=\"#666666\">"@
            + name_of_month(month) + "</text>"@,
{
    calendar::lemma_civil(y, month, 1);
    lemma_month_names(month);
}

/// Over the first day of each month the calendar of a year names the month.
#[verifier::spinoff_prover]
pub proof fn law_months_are_named(
    data: Seq<(Seq<char>, i64)>,
    y: i32,
    today: int,
    month: int,
)
    requires
        data.len() > 0,
        -262143 <= y <= 262142,
        calendar::day_in_range(today),
        1 <= month <= 12,
        calendar::day_number(y as int, 1, 1) <= calendar::day_number(y as int, month, 1)
            <= shown_to(y as int, today),
    ensures
        ({
            let first = calendar::day_number(y as int, 1, 1);
            let day = calendar::day_number(y as int, month, 1);
            let col = (day - first + calendar::weekday(first)) / 7;
            holds(
                svg_calendar::calendar_of(data, Some(y), today),
                "<text x=\""@ + text::dec(40 + col * 29 + 5) + "\" y=\""@ + text::dec(26)
                    + "\" font-size=\"12\" fill=\"#666666\">"@ + name_of_month(month) + "</text>"@,
            )
        }),
{
    let first = calendar::day_number(y as int, 1, 1);
    let day = calendar::day_number(y as int, month, 1);
    let col = (day - first + calendar::weekday(first)) / 7;
    let row = calendar::weekday(day);
    lemma_year_layout(y as int, today, day);
    let l = Layout::year(first, shown_to(y as int, today));
    let secs = svg_calendar::seconds_by_day(data, l.start as int, l.total as int);
    let part = svg_calendar::month_mark(l, col, row);
    assert(part == "<text x=\""@ + text::dec(40 + col * 29 + 5) + "\" y=\""@ + text::dec(26)
        + "\" font-size=\"12\" fill=\"#666666\">"@ + name_of_month(month) + "</text>"@) by {
        lemma_month_mark(l, col, row, y as int, month);
    }
    assert(holds(svg_calendar::cell_text(l, secs, col, row), part)) by {
        lemma_cell_parts(l, secs, col, row);
    }
    lemma_cell_in_year(data, y, today, day, part);
}

// ---------------------------------------------------------------------------------------------
// All time
// ---------------------------------------------------------------------------------------------

proof fn lemma_square_side(n: int, r: int)
    requires
        r >= 7,
    ensures
        ({
            let side = svg_calendar::square_side(n, r);
            &&& side >= r
            &&& side * side >= n
            &&& side > r ==> (side - 1) * (side - 1) < n
        }),
    decreases n - r,
{
    if r * r >= n || r >= n {
        assert(r * r >= r) by (nonlinear_arith)
            requires
                r >= 7,
        ;
    } else {
        lemma_square_side(n, r + 1);
    }
}

/// The calendar of all time shows the days from the first date of the data to today, or to the last
/// date of the data where that is later, row by row in about a square of at least seven rows. Each
/// day has a square with the colour of the time that the data tell for it and a tooltip that tells
/// it.
pub proof fn law_day_of_all_time_has_its_colour(
    data: Seq<(Seq<char>, i64)>,
    today: int,
    first: int,
    last: int,
    day: int,
    seconds: i64,
)
    requires
        data.len() > 0,
        calendar::parsed_date(data[0].0) == Some(first),
        calendar::parsed_date(data.last().0) == Some(last),
        calendar::day_in_range(first),
        calendar::day_in_range(last),
        calendar::day_in_range(today),
        first <= day,
        day <= today || day <= last,
        told(data, calendar::date_text(day), seconds),
    ensures
        exists|rows: int, cols: int|
            {
                let total = (if last > today {
                    last
                } else {
                    today
                }) - first + 1;
                &&& rows >= 7
                &&& rows * rows >= total
                &&& rows > 7 ==> (rows - 1) * (rows - 1) < total
                &&& cols > 0
                &&& (cols - 1) * rows < total <= #[trigger] (cols * rows)
                &&& holds(
                    svg_calendar::calendar_of(data, None, today),
                    day_square(
                        40 + (day - first) % cols * 29 + 5,
                        30 + (day - first) / cols * 29 + 5,
                        day,
                        seconds as int,
                    ),
                )
            },
{
    let end = if last > today {
        last
    } else {
        today
    };
    let total = end - first + 1;
    let rows = svg_calendar::square_side(total, 7);
    lemma_square_side(total, 7);
    lemma_side_small(total, 7);
    let cols = (total + rows - 1) / rows;
    let l = Layout::all_time(first, end);
    assert(rows <= 200000000);
    assert(0 < cols && (cols - 1) * rows < total <= cols * rows) by (nonlinear_arith)
        requires
            cols == (total + rows - 1) / rows,
            rows >= 7,
            total >= 1,
    ;
    assert(cols <= total) by (nonlinear_arith)
        requires
            (cols - 1) * rows < total,
            rows >= 7,
            cols > 0,
    ;
    let i = day - first;
    let col = i % cols;
    let row = i / cols;
    assert(0 <= col < cols && 0 <= row < rows && col + row * cols == i) by (nonlinear_arith)
        requires
            col == i % cols,
            row == i / cols,
            0 <= i < total,
            total <= cols * rows,
            cols > 0,
            rows >= 7,
    ;
    assert(l.rows == rows && l.cols == cols && l.total == total && l.start == first && !l.yearly);
    assert(l.index(col, row) == i);
    assert(l.shows(col, row));
    let secs = svg_calendar::seconds_by_day(data, l.start as int, l.total as int);
    law_last_entry_of_a_date_counts(data, calendar::date_text(day), seconds);
    assert(secs[i] == seconds);
    lemma_cell_parts(l, secs, col, row);
    let part = day_square(40 + col * 29 + 5, 30 + row * 29 + 5, day, seconds as int);
    lemma_cell_in_drawing(l, secs, "All Time"@, col, row, part);
    assert(svg_calendar::calendar_of(data, None, today) == svg_calendar::drawing(
        l,
        secs,
        "All Time"@,
    ));
    assert(cols * rows >= total);
}

proof fn lemma_side_small(n: int, r: int)
    requires
        r >= 7,
    ensures
        svg_calendar::square_side(n, r) <= (if n > r {
            n
        } else {
            r
        }),
    decreases n - r,
{
    if !(r * r >= n || r >= n) {
        lemma_side_small(n, r + 1);
    }
}

/// Whether a drawing is the calendar of the entries of a year, which are given.
pub open spec fn draws(
    data: Seq<(Seq<char>, i64)>,
    year: int,
    today: int,
    svg: Seq<char>,
    entries: Seq<(Seq<char>, i64)>,
) -> bool {
    &&& svg == svg_calendar::calendar_of(entries, Some(year as i32), today)
    &&& entries.len() > 0
    &&& forall|e: (Seq<char>, i64)| #[trigger]
        entries.contains(e) <==> data.contains(e) && calendar::parsed_date(e.0) is Some
            && calendar::civil(calendar::parsed_date(e.0)->0).0 == year
}

/// Whether a drawing is the calendar of a year, made of the entries of the year.
pub open spec fn drawn_from(
    data: Seq<(Seq<char>, i64)>,
    year: int,
    today: int,
    svg: Seq<char>,
) -> bool {
    exists|entries: Seq<(Seq<char>, i64)>| #[trigger] draws(data, year, today, svg, entries)
}

/// The calendars by year are those of the years in which the data have an entry, the latest first,
/// each under its number and drawn from the entries of its year.
pub proof fn law_calendars_by_year(
    data: Seq<(Seq<char>, i64)>,
    years: Seq<int>,
    today: int,
    made: Seq<(Seq<char>, Seq<char>)>,
)
    requires
        svg_calendar::are_years(data, years),
        made == svg_calendar::year_calendars(data, years, today),
    ensures
        made.len() == years.len(),
        forall|i: int, j: int| 0 <= i < j < years.len() ==> years[i] > years[j],
        forall|k: int|
            0 <= k < years.len() ==> {
                &&& (#[trigger] made[k]).0 == text::dec(years[k])
                &&& drawn_from(data, years[k], today, made[k].1)
            },
        forall|i: int|
            0 <= i < data.len() && calendar::parsed_date((#[trigger] data[i]).0) is Some
                ==> years.contains(calendar::civil(calendar::parsed_date(data[i].0)->0).0),
{
    assert forall|k: int| 0 <= k < years.len() implies {
        &&& (#[trigger] made[k]).0 == text::dec(years[k])
        &&& drawn_from(data, years[k], today, made[k].1)
    } by {
        let y = years[k];
        let entries = svg_calendar::entries_of(data, y);
        assert(made[k].1 == svg_calendar::calendar_of(entries, Some(y as i32), today));
        assert forall|e: (Seq<char>, i64)| #[trigger]
            entries.contains(e) <==> data.contains(e) && calendar::parsed_date(e.0) is Some
                && calendar::civil(calendar::parsed_date(e.0)->0).0 == y by {
            lemma_entries(data, y, e);
        }
        assert(years.contains(y));
        assert(svg_calendar::has_year(data, y));
        let j = choose|j: int|
            0 <= j < data.len() && svg_calendar::entry_year((#[trigger] data[j]).0) == Some(y);
        assert(data.contains(data[j]));
        assert(entries.contains(data[j]));
        assert(draws(data, y, today, made[k].1, entries));
    }
    assert forall|i: int|
        0 <= i < data.len() && calendar::parsed_date(
            (#[trigger] data[i]).0,
        ) is Some implies years.contains(
        calendar::civil(calendar::parsed_date(data[i].0)->0).0,
    ) by {
        let y = calendar::civil(calendar::parsed_date(data[i].0)->0).0;
        assert(svg_calendar::entry_year(data[i].0) == Some(y));
        assert(svg_calendar::has_year(data, y));
    }
}

proof fn lemma_entries(data: Seq<(Seq<char>, i64)>, y: int, e: (Seq<char>, i64))
    ensures
        svg_calendar::entries_of(data, y).contains(e) <==> data.contains(e)
            && svg_calendar::entry_year(e.0) == Some(y),
    decreases data.len(),
{
    if data.len() > 0 {
        let rest = data.drop_last();
        let before = svg_calendar::entries_of(rest, y);
        lemma_entries(rest, y, e);
        assert(data =~= rest.push(data.last()));
        if before.contains(e) {
            let k = choose|k: int| 0 <= k < before.len() && before[k] == e;
            assert(before.push(data.last())[k] == e);
        }
        if rest.contains(e) {
            let k = choose|k: int| 0 <= k < rest.len() && rest[k] == e;
            assert(data[k] == e);
        }
        if data.contains(e) {
            let k = choose|k: int| 0 <= k < data.len() && data[k] == e;
            if k < rest.len() {
                assert(rest[k] == e);
            } else {
                assert(before.push(data.last())[before.len() as int] == e);
            }
        }
        let after = svg_calendar::entries_of(data, y);
        if after.contains(e) {
            let k = choose|k: int| 0 <= k < after.len() && after[k] == e;
            if k < before.len() {
                assert(before[k] == e);
            } else {
                assert(data[data.len() - 1] == e);
            }
        }
    }
}

} // verus!
