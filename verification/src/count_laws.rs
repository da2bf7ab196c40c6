//! What the numbers and corners of a calendar tell.

use crate::calendar;
use crate::svg_calendar;
use crate::svg_calendar::Layout;
use crate::svg_laws::{holds, lemma_holds_left, lemma_holds_right, lemma_holds_self, shade};
use crate::text;
use vstd::prelude::*;

verus! {

/// One more day with time adds one to the number of its weekday and to that of its week, and nothing
/// to any other number of a calendar of a year.
pub proof fn law_busy_day_counts_once(
    l: Layout,
    secs: Seq<i64>,
    day: int,
    seconds: i64,
    row: int,
    col: int,
)
    requires
        l.yearly,
        l.rows == 7,
        0 <= l.offset < 7,
        0 <= l.total <= secs.len(),
        l.total + l.offset <= l.cols * 7,
        0 <= day < l.total,
        secs[day] == 0,
        seconds > 0,
        0 <= row < 7,
        0 <= col < l.cols,
    ensures
        svg_calendar::row_count(l, secs.update(day, seconds), row, l.cols as int)
            == svg_calendar::row_count(l, secs, row, l.cols as int) + (if (day + l.offset) % 7
            == row {
            1int
        } else {
            0
        }),
        svg_calendar::column_count(l, secs.update(day, seconds), col, l.rows as int)
            == svg_calendar::column_count(l, secs, col, l.rows as int) + (if (day + l.offset) / 7
            == col {
            1int
        } else {
            0
        }),
{
    lemma_row_count(l, secs, day, seconds, row, l.cols as int);
    lemma_column_count(l, secs, day, seconds, col, 7);
}

/// Where no day has time, every number is zero.
pub proof fn law_idle_days_count_nothing(l: Layout, secs: Seq<i64>, at: int, n: int)
    requires
        l.total <= secs.len(),
        forall|i: int| 0 <= i < secs.len() ==> secs[i] <= 0,
    ensures
        svg_calendar::row_count(l, secs, at, n) == 0,
        svg_calendar::column_count(l, secs, at, n) == 0,
    decreases n,
{
    if n > 0 {
        law_idle_days_count_nothing(l, secs, at, n - 1);
    }
}

proof fn lemma_row_count(l: Layout, secs: Seq<i64>, day: int, seconds: i64, row: int, n: int)
    requires
        l.yearly,
        l.rows == 7,
        0 <= l.offset < 7,
        0 <= l.total <= secs.len(),
        0 <= day < l.total,
        secs[day] == 0,
        seconds > 0,
        0 <= row < 7,
        0 <= n <= l.cols,
    ensures
        svg_calendar::row_count(l, secs.update(day, seconds), row, n) == svg_calendar::row_count(
            l,
            secs,
            row,
            n,
        ) + (if (day + l.offset) % 7 == row && (day + l.offset) / 7 < n {
            1int
        } else {
            0
        }),
    decreases n,
{
    if n > 0 {
        lemma_row_count(l, secs, day, seconds, row, n - 1);
        lemma_place_of_a_day(l, day, n - 1, row);
    }
}

proof fn lemma_column_count(l: Layout, secs: Seq<i64>, day: int, seconds: i64, col: int, n: int)
    requires
        l.yearly,
        l.rows == 7,
        0 <= l.offset < 7,
        0 <= l.total <= secs.len(),
        0 <= day < l.total,
        secs[day] == 0,
        seconds > 0,
        0 <= col < l.cols,
        0 <= n <= 7,
    ensures
        svg_calendar::column_count(l, secs.update(day, seconds), col, n)
            == svg_calendar::column_count(l, secs, col, n) + (if (day + l.offset) / 7 == col && (day
            + l.offset) % 7 < n {
            1int
        } else {
            0
        }),
    decreases n,
{
    if n > 0 {
        lemma_column_count(l, secs, day, seconds, col, n - 1);
        lemma_place_of_a_day(l, day, col, n - 1);
    }
}

proof fn lemma_place_of_a_day(l: Layout, day: int, col: int, row: int)
    requires
        l.yearly,
        0 <= row < 7,
    ensures
        l.index(col, row) == day <==> (day + l.offset) / 7 == col && (day + l.offset) % 7 == row,
{
}

/// A calendar of a year shows the number of its days with time of each weekday behind the row, and
/// of each week below the column.
pub proof fn law_numbers_are_shown(l: Layout, secs: Seq<i64>, title: Seq<char>, row: int, col: int)
    requires
        l.yearly,
        l.rows == 7,
        0 <= row < 7,
        0 <= col < l.cols,
    ensures
        holds(
            svg_calendar::drawing(l, secs, title),
            svg_calendar::number_text(
                svg_calendar::row_count(l, secs, row, l.cols as int),
                40 + l.cols * 29 + 2,
                30 + row * 29 + 7,
                3,
                2,
                "#1f2328"@,
            ),
        ),
        ({
            let count = svg_calendar::column_count(l, secs, col, 7);
            holds(
                svg_calendar::drawing(l, secs, title),
                svg_calendar::number_text(
                    count,
                    40 + col * 29 + (if count >= 10 {
                        -4int
                    } else {
                        5
                    }),
                    239,
                    3,
                    2,
                    "#1f2328"@,
                ),
            )
        }),
{
    let rows = svg_calendar::row_numbers(l, secs, 7);
    let cols = svg_calendar::column_numbers(l, secs, l.cols as int);
    let front = svg_calendar::head_text(l, title) + svg_calendar::grid_text(l, secs, l.cols as int);
    let legend = svg_calendar::legend_text(265);
    let a = svg_calendar::number_text(
        svg_calendar::row_count(l, secs, row, l.cols as int),
        40 + l.cols * 29 + 2,
        30 + row * 29 + 7,
        3,
        2,
        "#1f2328"@,
    );
    let count = svg_calendar::column_count(l, secs, col, 7);
    let b = svg_calendar::number_text(
        count,
        40 + col * 29 + (if count >= 10 {
            -4int
        } else {
            5
        }),
        239,
        3,
        2,
        "#1f2328"@,
    );
    lemma_row_number(l, secs, row, 7);
    lemma_column_number(l, secs, col, l.cols as int);
    lemma_holds_left(rows, cols, a);
    lemma_holds_right(rows, cols, b);
    assert(svg_calendar::drawing(l, secs, title) == front + (rows + cols) + legend + "</svg>"@);
    lemma_holds_right(front, rows + cols, a);
    lemma_holds_right(front, rows + cols, b);
    lemma_holds_left(front + (rows + cols), legend, a);
    lemma_holds_left(front + (rows + cols), legend, b);
    lemma_holds_left(front + (rows + cols) + legend, "</svg>"@, a);
    lemma_holds_left(front + (rows + cols) + legend, "</svg>"@, b);
}

proof fn lemma_row_number(l: Layout, secs: Seq<i64>, row: int, n: int)
    requires
        0 <= row < n,
    ensures
        holds(
            svg_calendar::row_numbers(l, secs, n),
            svg_calendar::number_text(
                svg_calendar::row_count(l, secs, row, l.cols as int),
                40 + l.cols * 29 + 2,
                30 + row * 29 + 7,
                3,
                2,
                "#1f2328"@,
            ),
        ),
    decreases n,
{
    let part = svg_calendar::number_text(
        svg_calendar::row_count(l, secs, row, l.cols as int),
        40 + l.cols * 29 + 2,
        30 + row * 29 + 7,
        3,
        2,
        "#1f2328"@,
    );
    let before = svg_calendar::row_numbers(l, secs, n - 1);
    let last = svg_calendar::number_text(
        svg_calendar::row_count(l, secs, n - 1, l.cols as int),
        40 + l.cols * 29 + 2,
        30 + (n - 1) * 29 + 7,
        3,
        2,
        "#1f2328"@,
    );
    assert(svg_calendar::row_numbers(l, secs, n) == before + last);
    if row == n - 1 {
        lemma_holds_self(part);
        lemma_holds_right(before, last, part);
    } else {
        lemma_row_number(l, secs, row, n - 1);
        lemma_holds_left(before, last, part);
    }
}

proof fn lemma_column_number(l: Layout, secs: Seq<i64>, col: int, n: int)
    requires
        l.rows == 7,
        0 <= col < n,
    ensures
        ({
            let count = svg_calendar::column_count(l, secs, col, 7);
            holds(
                svg_calendar::column_numbers(l, secs, n),
                svg_calendar::number_text(
                    count,
                    40 + col * 29 + (if count >= 10 {
                        -4int
                    } else {
                        5
                    }),
                    239,
                    3,
                    2,
                    "#1f2328"@,
                ),
            )
        }),
    decreases n,
{
    let count = svg_calendar::column_count(l, secs, col, 7);
    let part = svg_calendar::number_text(
        count,
        40 + col * 29 + (if count >= 10 {
            -4int
        } else {
            5
        }),
        239,
        3,
        2,
        "#1f2328"@,
    );
    let before = svg_calendar::column_numbers(l, secs, n - 1);
    let other = svg_calendar::column_count(l, secs, n - 1, 7);
    let last = svg_calendar::number_text(
        other,
        40 + (n - 1) * 29 + (if other >= 10 {
            -4int
        } else {
            5
        }),
        239,
        3,
        2,
        "#1f2328"@,
    );
    assert(svg_calendar::column_numbers(l, secs, n) == before + last);
    if col == n - 1 {
        lemma_holds_self(part);
        lemma_holds_right(before, last, part);
    } else {
        lemma_column_number(l, secs, col, n - 1);
        lemma_holds_left(before, last, part);
    }
}

/// No two digits have the same dots.
pub proof fn law_digits_differ(a: int, b: int)
    requires
        0 <= a < b <= 9,
    ensures
        exists|row: int|
            0 <= row < 5 && #[trigger] svg_calendar::digit_row(a, row) != svg_calendar::digit_row(
                b,
                row,
            ),
{
    if svg_calendar::digit_row(a, 0) != svg_calendar::digit_row(b, 0) {
    } else if svg_calendar::digit_row(a, 1) != svg_calendar::digit_row(b, 1) {
    } else if svg_calendar::digit_row(a, 2) != svg_calendar::digit_row(b, 2) {
    } else if svg_calendar::digit_row(a, 3) != svg_calendar::digit_row(b, 3) {
    } else {
        assert(svg_calendar::digit_row(a, 4) != svg_calendar::digit_row(b, 4));
    }
}

/// A corner has the colour of its day where the three days around it are of its level, and is a dark
/// line where one of them is not.
pub proof fn law_corners_join_four_days(
    l: Layout,
    secs: Seq<i64>,
    col: int,
    row: int,
    dc: int,
    dr: int,
)
    requires
        l.shows(col, row),
        l.shows(col + dc, row),
        l.shows(col, row + dr),
        l.shows(col + dc, row + dr),
        secs.len() == l.total,
        forall|i: int| 0 <= i < secs.len() ==> secs[i] >= 0,
    ensures
        ({
            let own = shade(secs[l.index(col, row)] as int);
            svg_calendar::corner(l, secs, col, row, dc, dr) == (if shade(
                secs[l.index(col + dc, row)] as int,
            ) == own && shade(secs[l.index(col, row + dr)] as int) == own && shade(
                secs[l.index(col + dc, row + dr)] as int,
            ) == own {
                own
            } else {
                "#1f2328"@
            })
        }),
{
    lemma_shades(secs[l.index(col, row)] as int, secs[l.index(col + dc, row)] as int);
    lemma_shades(secs[l.index(col, row)] as int, secs[l.index(col, row + dr)] as int);
    lemma_shades(secs[l.index(col, row)] as int, secs[l.index(col + dc, row + dr)] as int);
}

proof fn lemma_shades(a: int, b: int)
    requires
        0 <= a,
        0 <= b,
    ensures
        svg_calendar::level_color(svg_calendar::level(a)) == shade(a),
        shade(a) == shade(b) <==> svg_calendar::level(a) == svg_calendar::level(b),
{
    reveal_strlit("#f6f8fa");
    reveal_strlit("#9be9a8");
    reveal_strlit("#f9d71c");
    reveal_strlit("#e5534b");
    assert("#f6f8fa"@[1] == 'f' && "#9be9a8"@[1] == '9' && "#f9d71c"@[1] == 'f' && "#e5534b"@[1]
        == 'e');
    assert("#f6f8fa"@[2] == '6' && "#f9d71c"@[2] == '9');
}

/// A calendar names the first, third, fifth and seventh row after the days of the week, and is as wide
/// and as high as its squares, numbers and legend take.
pub proof fn law_rows_are_named(l: Layout, title: Seq<char>)
    ensures
        holds(svg_calendar::head_text(l, title), svg_calendar::label(5, 46, "Mon"@)),
        holds(svg_calendar::head_text(l, title), svg_calendar::label(5, 104, "Wed"@)),
        holds(svg_calendar::head_text(l, title), svg_calendar::label(5, 162, "Fri"@)),
        holds(svg_calendar::head_text(l, title), svg_calendar::label(5, 220, "Sun"@)),
        l.yearly && l.rows == 7 ==> holds(
            svg_calendar::head_text(l, title),
            "<svg width=\""@ + text::dec(l.cols * 29 + 76) + "\" height=\""@ + text::dec(277) + "\""@,
        ),
{
    let width = 40 + l.cols * 29 - 4 + (if l.yearly {
        40int
    } else {
        20
    });
    let front = "<svg width=\""@ + text::dec(width) + "\" height=\""@ + text::dec(
        svg_calendar::height(l),
    );
    let named = "<text x=\"5\" y=\"18\" font-size=\"18\" font-weight=\"bold\" fill=\"#333333\">"@;
    let top = front + "\" xmlns=\"http://www.w3.org/2000/svg\">"@ + named + title + "</text>"@;
    let a = svg_calendar::label(5, 46, "Mon"@);
    let b = svg_calendar::label(5, 104, "Wed"@);
    let c = svg_calendar::label(5, 162, "Fri"@);
    let d = svg_calendar::label(5, 220, "Sun"@);
    assert(svg_calendar::head_text(l, title) == top + a + b + c + d);
    lemma_holds_self(a);
    lemma_holds_self(b);
    lemma_holds_self(c);
    lemma_holds_self(d);
    lemma_holds_right(top, a, a);
    lemma_holds_left(top + a, b, a);
    lemma_holds_left(top + a + b, c, a);
    lemma_holds_left(top + a + b + c, d, a);
    lemma_holds_right(top + a, b, b);
    lemma_holds_left(top + a + b, c, b);
    lemma_holds_left(top + a + b + c, d, b);
    lemma_holds_right(top + a + b, c, c);
    lemma_holds_left(top + a + b + c, d, c);
    lemma_holds_right(top + a + b + c, d, d);
    if l.yearly && l.rows == 7 {
        reveal_strlit("\" xmlns=\"http://www.w3.org/2000/svg\">");
        reveal_strlit("\"");
        let rest = "\" xmlns=\"http://www.w3.org/2000/svg\">"@.skip(1);
        let size = front + "\""@;
        assert("\" xmlns=\"http://www.w3.org/2000/svg\">"@ =~= "\""@ + rest);
        assert(front + "\" xmlns=\"http://www.w3.org/2000/svg\">"@ =~= size + rest);
        lemma_holds_self(size);
        lemma_holds_left(size, rest, size);
        lemma_holds_left(size + rest, named, size);
        lemma_holds_left(size + rest + named, title, size);
        lemma_holds_left(size + rest + named + title, "</text>"@, size);
        lemma_holds_left(top, a, size);
        lemma_holds_left(top + a, b, size);
        lemma_holds_left(top + a + b, c, size);
        lemma_holds_left(top + a + b + c, d, size);
    }
}

/// Rows of a calendar of a year are days of the week: the first shows Mondays.
pub proof fn law_rows_are_weekdays(start: int, end: int, col: int, row: int)
    requires
        i64::MIN <= start <= i64::MAX,
        0 <= row < 7,
        Layout::year(start, end).shows(col, row),
    ensures
        calendar::weekday(start + Layout::year(start, end).index(col, row)) == row,
{
}

} // verus!
