//! Calendars of activity, drawn as SVG.

use crate::calendar;
use crate::calendar::{
    civil_of, date_string, from_ymd, local_today, parse_date, weekday_of, MIN_DAY,
};
use crate::rhythm;
use crate::stats;
use crate::stats::human_readable_time;
use crate::text;
use crate::text::{chars_of, int_text, same_text};
use vstd::prelude::*;

verus! {

/// Side of a cell's inner square.
pub const INNER: i64 = 15;

/// Width of a cell's border.
pub const BORDER: i64 = 5;

/// Space between cells.
pub const PADDING: i64 = 4;

/// Distance from one cell to the next.
pub const STRIDE: i64 = 29;

/// Space left of the grid.
pub const MARGIN_LEFT: i64 = 40;

/// Space above the grid.
pub const MARGIN_TOP: i64 = 30;

// ---------------------------------------------------------------------------------------------
// Colours and labels
// ---------------------------------------------------------------------------------------------

/// The activity level of a day: none, under half an hour, under an hour, more.
pub open spec fn level(seconds: int) -> int {
    if seconds == 0 {
        0
    } else if seconds < 1800 {
        1
    } else if seconds < 3600 {
        2
    } else {
        3
    }
}

/// The colour of a level.
pub open spec fn level_color(l: int) -> Seq<char> {
    if l == 0 {
        "#f6f8fa"@
    } else if l == 1 {
        "#9be9a8"@
    } else if l == 2 {
        "#f9d71c"@
    } else {
        "#e5534b"@
    }
}

/// The colour of a day.
pub fn color_for_seconds(seconds: i64) -> (r: &'static str)
    ensures
        r@ == level_color(level(seconds as int)),
{
    if seconds == 0 {
        "#f6f8fa"
    } else if seconds < 1800 {
        "#9be9a8"
    } else if seconds < 3600 {
        "#f9d71c"
    } else {
        "#e5534b"
    }
}

/// The activity level of a day.
pub fn color_idx_for_seconds(seconds: i64) -> (r: i32)
    ensures
        r == level(seconds as int),
{
    if seconds == 0 {
        0
    } else if seconds < 1800 {
        1
    } else if seconds < 3600 {
        2
    } else {
        3
    }
}

/// The short name of a month; empty where there is no such month.
pub open spec fn month_name(month: int) -> Seq<char> {
    if month == 1 {
        "Jan"@
    } else if month == 2 {
        "Feb"@
    } else if month == 3 {
        "Mar"@
    } else if month == 4 {
        "Apr"@
    } else if month == 5 {
        "May"@
    } else if month == 6 {
        "Jun"@
    } else if month == 7 {
        "Jul"@
    } else if month == 8 {
        "Aug"@
    } else if month == 9 {
        "Sep"@
    } else if month == 10 {
        "Oct"@
    } else if month == 11 {
        "Nov"@
    } else if month == 12 {
        "Dec"@
    } else {
        ""@
    }
}

/// The short name of a month.
pub fn month_label(month: u32) -> (r: &'static str)
    ensures
        r@ == month_name(month as int),
{
    match month {
        1 => "Jan",
        2 => "Feb",
        3 => "Mar",
        4 => "Apr",
        5 => "May",
        6 => "Jun",
        7 => "Jul",
        8 => "Aug",
        9 => "Sep",
        10 => "Oct",
        11 => "Nov",
        12 => "Dec",
        _ => "",
    }
}

/// The short name of a day of the week.
pub open spec fn weekday_name(i: int) -> Seq<char> {
    if i == 0 {
        "Mon"@
    } else if i == 1 {
        "Tue"@
    } else if i == 2 {
        "Wed"@
    } else if i == 3 {
        "Thu"@
    } else if i == 4 {
        "Fri"@
    } else if i == 5 {
        "Sat"@
    } else {
        "Sun"@
    }
}

// ---------------------------------------------------------------------------------------------
// Shapes
// ---------------------------------------------------------------------------------------------

/// The start of a rectangle, up to its fill.
pub open spec fn rect_head(x: int, y: int, w: int, h: int, fill: Seq<char>) -> Seq<char> {
    "<rect x=\""@ + text::dec(x) + "\" y=\""@ + text::dec(y) + "\" width=\""@ + text::dec(w)
        + "\" height=\""@ + text::dec(h) + "\" fill=\""@ + fill
}

/// A rectangle.
pub open spec fn rect(x: int, y: int, w: int, h: int, fill: Seq<char>) -> Seq<char> {
    rect_head(x, y, w, h, fill) + "\"/>"@
}

/// A rectangle with a tooltip.
pub open spec fn titled_rect(
    x: int,
    y: int,
    w: int,
    h: int,
    fill: Seq<char>,
    title: Seq<char>,
) -> Seq<char> {
    rect_head(x, y, w, h, fill) + "\"><title>"@ + title + "</title></rect>"@
}

/// A small grey label.
pub open spec fn label(x: int, y: int, words: Seq<char>) -> Seq<char> {
    "<text x=\""@ + text::dec(x) + "\" y=\""@ + text::dec(y)
        + "\" font-size=\"12\" fill=\"#666666\">"@ + words + "</text>"@
}

fn rect_start(x: i64, y: i64, w: i64, h: i64, fill: &str) -> (r: String)
    ensures
        r@ == rect_head(x as int, y as int, w as int, h as int, fill@),
{
    let mut s = "<rect x=\"".to_owned();
    s.append(int_text(x).as_str());
    s.append("\" y=\"");
    s.append(int_text(y).as_str());
    s.append("\" width=\"");
    s.append(int_text(w).as_str());
    s.append("\" height=\"");
    s.append(int_text(h).as_str());
    s.append("\" fill=\"");
    s.append(fill);
    s
}

fn push_rect(svg: &mut String, x: i64, y: i64, w: i64, h: i64, fill: &str)
    ensures
        final(svg)@ == old(svg)@ + rect(x as int, y as int, w as int, h as int, fill@),
{
    let mut s = rect_start(x, y, w, h, fill);
    s.append("\"/>");
    svg.append(s.as_str());
}

fn push_titled_rect(svg: &mut String, x: i64, y: i64, w: i64, h: i64, fill: &str, title: &str)
    ensures
        final(svg)@ == old(svg)@ + titled_rect(
            x as int,
            y as int,
            w as int,
            h as int,
            fill@,
            title@,
        ),
{
    let mut s = rect_start(x, y, w, h, fill);
    s.append("\"><title>");
    s.append(title);
    s.append("</title></rect>");
    svg.append(s.as_str());
}

fn push_label(svg: &mut String, x: i64, y: i64, words: &str)
    ensures
        final(svg)@ == old(svg)@ + label(x as int, y as int, words@),
{
    let mut s = "<text x=\"".to_owned();
    s.append(int_text(x).as_str());
    s.append("\" y=\"");
    s.append(int_text(y).as_str());
    s.append("\" font-size=\"12\" fill=\"#666666\">");
    s.append(words);
    s.append("</text>");
    svg.append(s.as_str());
}

// ---------------------------------------------------------------------------------------------
// Dot-matrix digits
// ---------------------------------------------------------------------------------------------

/// The dots of one row of a digit, as five bits from left to right.
pub open spec fn digit_row(digit: int, row: int) -> u8 {
    if digit == 0 {
        if row == 0 || row == 4 {
            0b11111
        } else {
            0b10001
        }
    } else if digit == 1 {
        0b00100
    } else if digit == 2 {
        if row == 1 {
            0b00001
        } else if row == 3 {
            0b10000
        } else {
            0b11111
        }
    } else if digit == 3 {
        if row == 1 || row == 3 {
            0b00001
        } else {
            0b11111
        }
    } else if digit == 4 {
        if row == 0 || row == 1 {
            0b10001
        } else if row == 2 {
            0b11111
        } else {
            0b00001
        }
    } else if digit == 5 {
        if row == 1 {
            0b10000
        } else if row == 3 {
            0b00001
        } else {
            0b11111
        }
    } else if digit == 6 {
        if row == 1 {
            0b10000
        } else if row == 3 {
            0b10001
        } else {
            0b11111
        }
    } else if digit == 7 {
        if row == 0 {
            0b11111
        } else {
            0b00001
        }
    } else if digit == 8 {
        if row == 1 || row == 3 {
            0b10001
        } else {
            0b11111
        }
    } else {
        if row == 1 {
            0b10001
        } else if row == 3 {
            0b00001
        } else {
            0b11111
        }
    }
}

fn pattern_row(digit: i32, row: i64) -> (r: u8)
    requires
        0 <= digit <= 9,
        0 <= row <= 4,
    ensures
        r == digit_row(digit as int, row as int),
{
    match digit {
        0 => if row == 0 || row == 4 {
            0b11111
        } else {
            0b10001
        },
        1 => 0b00100,
        2 => if row == 1 {
            0b00001
        } else if row == 3 {
            0b10000
        } else {
            0b11111
        },
        3 => if row == 1 || row == 3 {
            0b00001
        } else {
            0b11111
        },
        4 => if row == 0 || row == 1 {
            0b10001
        } else if row == 2 {
            0b11111
        } else {
            0b00001
        },
        5 => if row == 1 {
            0b10000
        } else if row == 3 {
            0b00001
        } else {
            0b11111
        },
        6 => if row == 1 {
            0b10000
        } else if row == 3 {
            0b10001
        } else {
            0b11111
        },
        7 => if row == 0 {
            0b11111
        } else {
            0b00001
        },
        8 => if row == 1 || row == 3 {
            0b10001
        } else {
            0b11111
        },
        _ => if row == 1 {
            0b10001
        } else if row == 3 {
            0b00001
        } else {
            0b11111
        },
    }
}

/// Whether the dot at a row and column of a digit is set.
pub open spec fn dot(digit: int, row: int, col: int) -> bool {
    (digit_row(digit, row) >> ((4 - col) as u8)) & 1 == 1
}

/// The set dots among the first `n` of a digit's 25, row by row.
pub open spec fn digit_dots(
    digit: int,
    x: int,
    y: int,
    pixel: int,
    color: Seq<char>,
    n: int,
) -> Seq<char>
    decreases n,
{
    if n <= 0 {
        Seq::empty()
    } else {
        let row = (n - 1) / 5;
        let col = (n - 1) % 5;
        let before = digit_dots(digit, x, y, pixel, color, n - 1);
        if dot(digit, row, col) {
            before + rect(x + col * pixel, y + row * pixel, pixel, pixel, color)
        } else {
            before
        }
    }
}

fn draw_digit(svg: &mut String, digit: i32, x: i64, y: i64, pixel: i64, color: &str)
    requires
        0 <= digit <= 9,
        -0x1_0000_0000_0000 <= x <= 0x1_0000_0000_0000,
        -0x1_0000_0000_0000 <= y <= 0x1_0000_0000_0000,
        -0x8000_0000 <= pixel <= 0x8000_0000,
    ensures
        final(svg)@ == old(svg)@ + digit_dots(
            digit as int,
            x as int,
            y as int,
            pixel as int,
            color@,
            25,
        ),
{
    let ghost before = svg@;
    let mut n: i64 = 0;
    assert(svg@ =~= before + digit_dots(digit as int, x as int, y as int, pixel as int, color@, 0));
    while n < 25
        invariant
            0 <= digit <= 9,
            -0x1_0000_0000_0000 <= x <= 0x1_0000_0000_0000,
            -0x1_0000_0000_0000 <= y <= 0x1_0000_0000_0000,
            -0x8000_0000 <= pixel <= 0x8000_0000,
            0 <= n <= 25,
            svg@ == before + digit_dots(
                digit as int,
                x as int,
                y as int,
                pixel as int,
                color@,
                n as int,
            ),
        decreases 25 - n,
    {
        let row: i64 = n / 5;
        let col: i64 = n % 5;
        let shift: u8 = (4 - col) as u8;
        let ghost drawn = svg@;
        if (pattern_row(digit, row) >> shift) & 1 == 1 {
            proof {
                assert(-0x8000_0000 * 4 <= col * pixel <= 0x8000_0000 * 4) by (nonlinear_arith)
                    requires
                        0 <= col <= 4,
                        -0x8000_0000 <= pixel <= 0x8000_0000,
                ;
                assert(-0x8000_0000 * 4 <= row * pixel <= 0x8000_0000 * 4) by (nonlinear_arith)
                    requires
                        0 <= row <= 4,
                        -0x8000_0000 <= pixel <= 0x8000_0000,
                ;
            }
            push_rect(svg, x + col * pixel, y + row * pixel, pixel, pixel, color);
            assert(svg@ =~= before + digit_dots(
                digit as int,
                x as int,
                y as int,
                pixel as int,
                color@,
                n + 1,
            ));
        }
        n = n + 1;
    }
}

/// Draws a digit with its top left corner at `x`, `y`.
pub fn draw_dot_matrix_digit(
    svg: &mut String,
    digit: i32,
    x: i32,
    y: i32,
    pixel: i32,
    color: &str,
)
    requires
        0 <= digit <= 9,
    ensures
        final(svg)@ == old(svg)@ + digit_dots(
            digit as int,
            x as int,
            y as int,
            pixel as int,
            color@,
            25,
        ),
{
    draw_digit(svg, digit, x as i64, y as i64, pixel as i64, color)
}

/// The value of a digit character; 0 for any other character.
pub open spec fn digit_value(c: char) -> int {
    if '0' <= c && c <= '9' {
        c as int - 48
    } else {
        0
    }
}

/// The first `n` characters of a numeral, each drawn as a digit beside the one before it.
pub open spec fn number_dots(
    numeral: Seq<char>,
    x: int,
    y: int,
    pixel: int,
    gap: int,
    color: Seq<char>,
    n: int,
) -> Seq<char>
    decreases n,
{
    if n <= 0 {
        Seq::empty()
    } else {
        number_dots(numeral, x, y, pixel, gap, color, n - 1) + digit_dots(
            digit_value(numeral[n - 1]),
            x + (n - 1) * (5 * pixel + gap),
            y,
            pixel,
            color,
            25,
        )
    }
}

/// A number drawn in dots.
pub open spec fn number_text(number: int, x: int, y: int, pixel: int, gap: int, color: Seq<char>) -> Seq<
    char,
> {
    let numeral = text::dec(number);
    number_dots(numeral, x, y, pixel, gap, color, numeral.len() as int)
}

proof fn lemma_numeral_len(n: nat)
    requires
        n < 10_000_000_000,
    ensures
        1 <= text::dec_nat(n).len() <= 10,
{
    reveal_with_fuel(text::dec_nat, 11);
}

fn draw_number(svg: &mut String, number: i32, x: i64, y: i64, pixel: i64, gap: i64, color: &str)
    requires
        -0x100_0000_0000 <= x <= 0x100_0000_0000,
        -0x100_0000_0000 <= y <= 0x100_0000_0000,
        -0x8000_0000 <= pixel <= 0x8000_0000,
        -0x8000_0000 <= gap <= 0x8000_0000,
    ensures
        final(svg)@ == old(svg)@ + number_text(
            number as int,
            x as int,
            y as int,
            pixel as int,
            gap as int,
            color@,
        ),
{
    let numeral = chars_of(int_text(number as i64).as_str());
    proof {
        if number < 0 {
            lemma_numeral_len((-number) as nat);
        } else {
            lemma_numeral_len(number as nat);
        }
    }
    let ghost before = svg@;
    let step: i64 = 5 * pixel + gap;
    assert(svg@ =~= before + number_dots(
        numeral@,
        x as int,
        y as int,
        pixel as int,
        gap as int,
        color@,
        0,
    ));
    for i in 0..numeral.len()
        invariant
            numeral@.len() <= 11,
            -0x100_0000_0000 <= x <= 0x100_0000_0000,
            -0x100_0000_0000 <= y <= 0x100_0000_0000,
            -0x8000_0000 <= pixel <= 0x8000_0000,
            -0x8000_0000 <= gap <= 0x8000_0000,
            step == 5 * pixel + gap,
            svg@ == before + number_dots(
                numeral@,
                x as int,
                y as int,
                pixel as int,
                gap as int,
                color@,
                i as int,
            ),
    {
        let c: char = numeral[i];
        let d: i32 = if '0' <= c && c <= '9' {
            (c as u8 - 48) as i32
        } else {
            0
        };
        proof {
            assert(-0x8_0000_0000 * 11 <= i * step <= 0x8_0000_0000 * 11) by (nonlinear_arith)
                requires
                    0 <= i <= 11,
                    -0x8_0000_0000 <= step <= 0x8_0000_0000,
            ;
        }
        let ghost drawn = svg@;
        draw_digit(svg, d, x + i as i64 * step, y, pixel, color);
        assert(svg@ =~= before + number_dots(
            numeral@,
            x as int,
            y as int,
            pixel as int,
            gap as int,
            color@,
            i + 1,
        ));
    }
}

/// Draws a number with its top left corner at `x`, `y`. A character that is no digit, such as a
/// minus sign, is drawn as a zero.
pub fn draw_dot_matrix_number(
    svg: &mut String,
    number: i32,
    x: i32,
    y: i32,
    pixel: i32,
    gap: i32,
    color: &str,
)
    ensures
        final(svg)@ == old(svg)@ + number_text(
            number as int,
            x as int,
            y as int,
            pixel as int,
            gap as int,
            color@,
        ),
{
    draw_number(svg, number, x as i64, y as i64, pixel as i64, gap as i64, color)
}

// ---------------------------------------------------------------------------------------------
// The grid
// ---------------------------------------------------------------------------------------------

/// How days are laid out: `total` days from `start` on, in `cols` columns of `rows` cells. A year
/// runs down the columns, a week to each, the first one `offset` cells down; all time runs along
/// the rows.
#[derive(Debug, Clone, Copy, PartialEq, Eq, Structural)]
pub struct Layout {
    pub yearly: bool,
    pub start: i64,
    pub total: i64,
    pub cols: i64,
    pub rows: i64,
    pub offset: i64,
}

/// The least side, from `r` on, of a square with room for `n`.
pub open spec fn square_side(n: int, r: int) -> int
    decreases n - r,
    when r >= 1
{
    if r * r >= n || r >= n {
        r
    } else {
        square_side(n, r + 1)
    }
}

impl Layout {
    /// The layout of a year that starts on day `start` and is shown to day `end`.
    pub open spec fn year(start: int, end: int) -> Layout {
        let total = end - start + 1;
        let offset = calendar::weekday(start);
        Layout {
            yearly: true,
            start: start as i64,
            total: total as i64,
            cols: ((total + offset + 6) / 7) as i64,
            rows: 7,
            offset: offset as i64,
        }
    }

    /// The layout of all time from day `start` to day `end`: about square, at least 7 rows.
    pub open spec fn all_time(start: int, end: int) -> Layout {
        let total = end - start + 1;
        let rows = square_side(total, 7);
        Layout {
            yearly: false,
            start: start as i64,
            total: total as i64,
            cols: if total > 0 {
                ((total + rows - 1) / rows) as i64
            } else {
                0
            },
            rows: rows as i64,
            offset: 0,
        }
    }

    /// The number, from 0 on, of the day in a cell; it may lie outside the layout.
    pub open spec fn index(self, col: int, row: int) -> int {
        if self.yearly {
            col * 7 + row - self.offset
        } else {
            col + row * self.cols
        }
    }

    /// Whether there is such a cell and it shows a day.
    pub open spec fn shows(self, col: int, row: int) -> bool {
        0 <= col < self.cols && 0 <= row < self.rows && 0 <= self.index(col, row) < self.total
    }

    /// Bounds that keep every coordinate small.
    pub open spec fn small(self) -> bool {
        &&& 0 <= self.cols <= 200000000
        &&& 7 <= self.rows <= 200000000
        &&& 0 <= self.offset < 7
        &&& -200000000 <= self.total <= 200000000
        &&& calendar::day_in_range(self.start as int)
        &&& self.total > 0 ==> calendar::day_in_range(self.start + self.total - 1)
        &&& self.cols > 0 ==> self.total > 0
        &&& self.yearly ==> self.rows == 7
    }
}

/// What is drawn of a cell that shows a day: in a year the name of the month over its first day,
/// then the inner square with a tooltip, the borders, which take the colour of the cell where the
/// neighbour has the same level, and the corners.
pub open spec fn cell_text(l: Layout, secs: Seq<i64>, col: int, row: int) -> Seq<char> {
    let i = l.index(col, row);
    let x = MARGIN_LEFT + col * STRIDE;
    let y = MARGIN_TOP + row * STRIDE;
    let fill = level_color(level(secs[i] as int));
    month_mark(l, col, row) + titled_rect(
        x + BORDER,
        y + BORDER,
        INNER as int,
        INNER as int,
        fill,
        tooltip(l.start + i, secs[i] as int),
    ) + rect(x + BORDER, y, INNER as int, BORDER as int, edge(l, secs, col, row, 0, -1)) + rect(
        x + BORDER + INNER,
        y + BORDER,
        BORDER as int,
        INNER as int,
        edge(l, secs, col, row, 1, 0),
    ) + rect(
        x + BORDER,
        y + BORDER + INNER,
        INNER as int,
        BORDER as int,
        edge(l, secs, col, row, 0, 1),
    ) + rect(x, y + BORDER, BORDER as int, INNER as int, edge(l, secs, col, row, -1, 0)) + rect(
        x,
        y,
        BORDER as int,
        BORDER as int,
        corner(l, secs, col, row, -1, -1),
    ) + rect(
        x + BORDER + INNER,
        y,
        BORDER as int,
        BORDER as int,
        corner(l, secs, col, row, 1, -1),
    ) + rect(
        x + BORDER + INNER,
        y + BORDER + INNER,
        BORDER as int,
        BORDER as int,
        corner(l, secs, col, row, 1, 1),
    ) + rect(
        x,
        y + BORDER + INNER,
        BORDER as int,
        BORDER as int,
        corner(l, secs, col, row, -1, 1),
    )
}

/// The name of a month over its first day, in a year.
pub open spec fn month_mark(l: Layout, col: int, row: int) -> Seq<char> {
    let day = l.start + l.index(col, row);
    if l.yearly && calendar::civil(day).2 == 1 {
        label(
            MARGIN_LEFT + col * STRIDE + BORDER,
            MARGIN_TOP - 4,
            month_name(calendar::civil(day).1),
        )
    } else {
        Seq::empty()
    }
}

/// The tooltip of a day.
pub open spec fn tooltip(day: int, seconds: int) -> Seq<char> {
    calendar::date_text(day) + ": "@ + text::dec(seconds) + "s ("@ + stats::duration_text(seconds)
        + ")"@
}

/// Whether the cell beside this one shows a day of the same level.
pub open spec fn alike(l: Layout, secs: Seq<i64>, col: int, row: int, dc: int, dr: int) -> bool {
    l.shows(col + dc, row + dr) && level(secs[l.index(col + dc, row + dr)] as int) == level(
        secs[l.index(col, row)] as int,
    )
}

/// The colour of a cell's border on one side.
pub open spec fn edge(l: Layout, secs: Seq<i64>, col: int, row: int, dc: int, dr: int) -> Seq<
    char,
> {
    if alike(l, secs, col, row, dc, dr) {
        level_color(level(secs[l.index(col, row)] as int))
    } else {
        "#1f2328"@
    }
}

/// The colour of a cell's corner: that of the cell where all three neighbours there are alike.
pub open spec fn corner(l: Layout, secs: Seq<i64>, col: int, row: int, dc: int, dr: int) -> Seq<
    char,
> {
    if alike(l, secs, col, row, 0, dr) && alike(l, secs, col, row, dc, 0) && alike(
        l,
        secs,
        col,
        row,
        dc,
        dr,
    ) {
        level_color(level(secs[l.index(col, row)] as int))
    } else {
        "#1f2328"@
    }
}

/// The first `n` cells of a column.
pub open spec fn column_text(l: Layout, secs: Seq<i64>, col: int, n: int) -> Seq<char>
    decreases n,
{
    if n <= 0 {
        Seq::empty()
    } else if l.shows(col, n - 1) {
        column_text(l, secs, col, n - 1) + cell_text(l, secs, col, n - 1)
    } else {
        column_text(l, secs, col, n - 1)
    }
}

/// The first `n` columns.
pub open spec fn grid_text(l: Layout, secs: Seq<i64>, n: int) -> Seq<char>
    decreases n,
{
    if n <= 0 {
        Seq::empty()
    } else {
        grid_text(l, secs, n - 1) + column_text(l, secs, n - 1, l.rows as int)
    }
}

/// Whether a cell shows a day with activity.
pub open spec fn busy(l: Layout, secs: Seq<i64>, col: int, row: int) -> bool {
    l.shows(col, row) && secs[l.index(col, row)] > 0
}

/// How many of the first `n` cells of a column are busy.
pub open spec fn column_count(l: Layout, secs: Seq<i64>, col: int, n: int) -> int
    decreases n,
{
    if n <= 0 {
        0
    } else {
        column_count(l, secs, col, n - 1) + (if busy(l, secs, col, n - 1) {
            1int
        } else {
            0
        })
    }
}

/// How many of the first `n` cells of a row are busy.
pub open spec fn row_count(l: Layout, secs: Seq<i64>, row: int, n: int) -> int
    decreases n,
{
    if n <= 0 {
        0
    } else {
        row_count(l, secs, row, n - 1) + (if busy(l, secs, n - 1, row) {
            1int
        } else {
            0
        })
    }
}

/// The counts of busy days beside the first `n` rows.
pub open spec fn row_numbers(l: Layout, secs: Seq<i64>, n: int) -> Seq<char>
    decreases n,
{
    if n <= 0 {
        Seq::empty()
    } else {
        row_numbers(l, secs, n - 1) + number_text(
            row_count(l, secs, n - 1, l.cols as int),
            MARGIN_LEFT + l.cols * STRIDE + 2,
            MARGIN_TOP + (n - 1) * STRIDE + 14 - 7,
            3,
            2,
            "#1f2328"@,
        )
    }
}

/// The counts of busy days under the first `n` columns, centred.
pub open spec fn column_numbers(l: Layout, secs: Seq<i64>, n: int) -> Seq<char>
    decreases n,
{
    if n <= 0 {
        Seq::empty()
    } else {
        let count = column_count(l, secs, n - 1, l.rows as int);
        let half = if count >= 10 {
            16int
        } else {
            7
        };
        column_numbers(l, secs, n - 1) + number_text(
            count,
            MARGIN_LEFT + (n - 1) * STRIDE + BORDER + 7 - half,
            MARGIN_TOP + l.rows * STRIDE + 6,
            3,
            2,
            "#1f2328"@,
        )
    }
}

/// The counts of busy days of a year.
pub open spec fn counts_text(l: Layout, secs: Seq<i64>) -> Seq<char> {
    if l.yearly {
        row_numbers(l, secs, l.rows as int) + column_numbers(l, secs, l.cols as int)
    } else {
        Seq::empty()
    }
}

/// One entry of the legend.
pub open spec fn legend_entry(i: int, y: int, color: Seq<char>, words: Seq<char>) -> Seq<char> {
    let x = MARGIN_LEFT + i * 60;
    "<rect x=\""@ + text::dec(x) + "\" y=\""@ + text::dec(y)
        + "\" width=\"10\" height=\"10\" rx=\"2\" fill=\""@ + color + "\"/><text x=\""@ + text::dec(
        x + 14,
    ) + "\" y=\""@ + text::dec(y + 9) + "\" font-size=\"11\" fill=\"#666666\">"@ + words
        + "</text>"@
}

/// The legend.
pub open spec fn legend_text(y: int) -> Seq<char> {
    legend_entry(0, y, level_color(0), "0s"@) + legend_entry(1, y, level_color(1), "<30m"@)
        + legend_entry(2, y, level_color(2), "30-60m"@) + legend_entry(
        3,
        y,
        level_color(3),
        ">60m"@,
    )
}

/// The height of the drawing.
pub open spec fn height(l: Layout) -> int {
    MARGIN_TOP + l.rows * STRIDE - PADDING + (if l.yearly {
        48int
    } else {
        30
    })
}

/// The start of the drawing: its size, its title and the names of every other day of the week.
pub open spec fn head_text(l: Layout, title: Seq<char>) -> Seq<char> {
    let width = MARGIN_LEFT + l.cols * STRIDE - PADDING + (if l.yearly {
        40int
    } else {
        20
    });
    "<svg width=\""@ + text::dec(width) + "\" height=\""@ + text::dec(height(l))
        + "\" xmlns=\"http://www.w3.org/2000/svg\">"@
        + "<text x=\"5\" y=\"18\" font-size=\"18\" font-weight=\"bold\" fill=\"#333333\">"@ + title
        + "</text>"@ + label(5, 46, weekday_name(0)) + label(5, 104, weekday_name(2)) + label(
        5,
        162,
        weekday_name(4),
    ) + label(5, 220, weekday_name(6))
}

/// The whole drawing of days with these durations.
pub open spec fn drawing(l: Layout, secs: Seq<i64>, title: Seq<char>) -> Seq<char> {
    let legend_y = if l.yearly {
        MARGIN_TOP + l.rows * STRIDE + 32
    } else {
        height(l) - 20
    };
    head_text(l, title) + grid_text(l, secs, l.cols as int) + counts_text(l, secs) + legend_text(
        legend_y,
    ) + "</svg>"@
}

impl Layout {
    fn index_of(&self, col: i64, row: i64) -> (r: i64)
        requires
            self.small(),
            -1 <= col <= self.cols,
            -1 <= row <= self.rows,
        ensures
            r == self.index(col as int, row as int),
    {
        if self.yearly {
            col * 7 + row - self.offset
        } else {
            proof {
                assert(-200000001 * 200000001 <= row * self.cols <= 200000001 * 200000001)
                    by (nonlinear_arith)
                    requires
                        -1 <= row <= 200000001,
                        0 <= self.cols <= 200000001,
                ;
            }
            col + row * self.cols
        }
    }

    fn has(&self, col: i64, row: i64) -> (r: bool)
        requires
            self.small(),
            -1 <= col <= self.cols,
            -1 <= row <= self.rows,
        ensures
            r == self.shows(col as int, row as int),
    {
        if col < 0 || col >= self.cols || row < 0 || row >= self.rows {
            return false;
        }
        let i: i64 = self.index_of(col, row);
        0 <= i && i < self.total
    }
}

fn is_alike(l: &Layout, secs: &Vec<i64>, col: i64, row: i64, dc: i64, dr: i64) -> (r: bool)
    requires
        l.small(),
        l.shows(col as int, row as int),
        secs@.len() == l.total,
        -1 <= dc <= 1,
        -1 <= dr <= 1,
    ensures
        r == alike(*l, secs@, col as int, row as int, dc as int, dr as int),
{
    if !l.has(col + dc, row + dr) {
        return false;
    }
    let there: usize = l.index_of(col + dc, row + dr) as usize;
    let here: usize = l.index_of(col, row) as usize;
    color_idx_for_seconds(secs[there]) == color_idx_for_seconds(secs[here])
}

fn tooltip_string(day: i64, seconds: i64) -> (r: String)
    requires
        calendar::day_in_range(day as int),
    ensures
        r@ == tooltip(day as int, seconds as int),
{
    let mut r = date_string(day);
    r.append(": ");
    r.append(int_text(seconds).as_str());
    r.append("s (");
    r.append(human_readable_time(seconds).as_str());
    r.append(")");
    r
}

fn cell_string(l: &Layout, secs: &Vec<i64>, col: i64, row: i64) -> (r: String)
    requires
        l.small(),
        l.shows(col as int, row as int),
        secs@.len() == l.total,
    ensures
        r@ == cell_text(*l, secs@, col as int, row as int),
{
    let base = "#1f2328";
    let i: i64 = l.index_of(col, row);
    let day: i64 = l.start + i;
    let seconds: i64 = secs[i as usize];
    let fill = color_for_seconds(seconds);
    let x: i64 = MARGIN_LEFT + col * STRIDE;
    let y: i64 = MARGIN_TOP + row * STRIDE;
    let mut r = String::new();
    if l.yearly {
        let (_y, m, d) = civil_of(day);
        if d == 1 {
            push_label(&mut r, x + BORDER, MARGIN_TOP - 4, month_label(m));
        }
    }
    assert(r@ =~= month_mark(*l, col as int, row as int));
    let up: bool = is_alike(l, secs, col, row, 0, -1);
    let right: bool = is_alike(l, secs, col, row, 1, 0);
    let down: bool = is_alike(l, secs, col, row, 0, 1);
    let left: bool = is_alike(l, secs, col, row, -1, 0);
    let tip = tooltip_string(day, seconds);
    push_titled_rect(&mut r, x + BORDER, y + BORDER, INNER, INNER, fill, tip.as_str());
    push_rect(&mut r, x + BORDER, y, INNER, BORDER, if up { fill } else { base });
    push_rect(
        &mut r,
        x + BORDER + INNER,
        y + BORDER,
        BORDER,
        INNER,
        if right { fill } else { base },
    );
    push_rect(
        &mut r,
        x + BORDER,
        y + BORDER + INNER,
        INNER,
        BORDER,
        if down { fill } else { base },
    );
    push_rect(&mut r, x, y + BORDER, BORDER, INNER, if left { fill } else { base });
    let c0: bool = up && left && is_alike(l, secs, col, row, -1, -1);
    let c1: bool = up && right && is_alike(l, secs, col, row, 1, -1);
    let c2: bool = right && down && is_alike(l, secs, col, row, 1, 1);
    let c3: bool = down && left && is_alike(l, secs, col, row, -1, 1);
    push_rect(&mut r, x, y, BORDER, BORDER, if c0 { fill } else { base });
    push_rect(&mut r, x + BORDER + INNER, y, BORDER, BORDER, if c1 { fill } else { base });
    push_rect(
        &mut r,
        x + BORDER + INNER,
        y + BORDER + INNER,
        BORDER,
        BORDER,
        if c2 { fill } else { base },
    );
    push_rect(&mut r, x, y + BORDER + INNER, BORDER, BORDER, if c3 { fill } else { base });
    r
}

fn draw_grid(svg: &mut String, l: &Layout, secs: &Vec<i64>)
    requires
        l.small(),
        l.total > 0 ==> secs@.len() == l.total,
    ensures
        final(svg)@ == old(svg)@ + grid_text(*l, secs@, l.cols as int),
{
    let ghost before = svg@;
    assert(svg@ =~= before + grid_text(*l, secs@, 0));
    let mut col: i64 = 0;
    while col < l.cols
        invariant
            l.small(),
            l.total > 0 ==> secs@.len() == l.total,
            0 <= col <= l.cols,
            svg@ == before + grid_text(*l, secs@, col as int),
        decreases l.cols - col,
    {
        let mut part = String::new();
        assert(part@ =~= column_text(*l, secs@, col as int, 0));
        let mut row: i64 = 0;
        while row < l.rows
            invariant
                l.small(),
                l.total > 0 ==> secs@.len() == l.total,
                0 <= col < l.cols,
                0 <= row <= l.rows,
                part@ == column_text(*l, secs@, col as int, row as int),
            decreases l.rows - row,
        {
            if l.has(col, row) {
                let cell = cell_string(l, secs, col, row);
                part.append(cell.as_str());
            }
            row = row + 1;
        }
        svg.append(part.as_str());
        assert(svg@ =~= before + grid_text(*l, secs@, col + 1));
        col = col + 1;
    }
}

fn is_busy(l: &Layout, secs: &Vec<i64>, col: i64, row: i64) -> (r: bool)
    requires
        l.small(),
        l.total > 0 ==> secs@.len() == l.total,
        0 <= col < l.cols,
        0 <= row < l.rows,
    ensures
        r == busy(*l, secs@, col as int, row as int),
{
    l.has(col, row) && secs[l.index_of(col, row) as usize] > 0
}

fn count_column(l: &Layout, secs: &Vec<i64>, col: i64) -> (r: i32)
    requires
        l.small(),
        l.total > 0 ==> secs@.len() == l.total,
        0 <= col < l.cols,
    ensures
        r == column_count(*l, secs@, col as int, l.rows as int),
{
    let mut count: i32 = 0;
    let mut row: i64 = 0;
    while row < l.rows
        invariant
            l.small(),
            l.total > 0 ==> secs@.len() == l.total,
            0 <= col < l.cols,
            0 <= row <= l.rows,
            0 <= count <= row,
            count == column_count(*l, secs@, col as int, row as int),
        decreases l.rows - row,
    {
        if is_busy(l, secs, col, row) {
            count = count + 1;
        }
        row = row + 1;
    }
    count
}

fn count_row(l: &Layout, secs: &Vec<i64>, row: i64) -> (r: i32)
    requires
        l.small(),
        l.total > 0 ==> secs@.len() == l.total,
        0 <= row < l.rows,
    ensures
        r == row_count(*l, secs@, row as int, l.cols as int),
{
    let mut count: i32 = 0;
    let mut col: i64 = 0;
    while col < l.cols
        invariant
            l.small(),
            l.total > 0 ==> secs@.len() == l.total,
            0 <= row < l.rows,
            0 <= col <= l.cols,
            0 <= count <= col,
            count == row_count(*l, secs@, row as int, col as int),
        decreases l.cols - col,
    {
        if is_busy(l, secs, col, row) {
            count = count + 1;
        }
        col = col + 1;
    }
    count
}

fn draw_counts(svg: &mut String, l: &Layout, secs: &Vec<i64>)
    requires
        l.small(),
        l.total > 0 ==> secs@.len() == l.total,
    ensures
        final(svg)@ == old(svg)@ + counts_text(*l, secs@),
{
    if !l.yearly {
        assert(svg@ + Seq::<char>::empty() =~= svg@);
        return;
    }
    let ghost before = svg@;
    assert(svg@ =~= before + row_numbers(*l, secs@, 0));
    let mut row: i64 = 0;
    while row < l.rows
        invariant
            l.small(),
            l.total > 0 ==> secs@.len() == l.total,
            0 <= row <= l.rows,
            svg@ == before + row_numbers(*l, secs@, row as int),
        decreases l.rows - row,
    {
        let count: i32 = count_row(l, secs, row);
        draw_number(
            svg,
            count,
            MARGIN_LEFT + l.cols * STRIDE + 2,
            MARGIN_TOP + row * STRIDE + 14 - 7,
            3,
            2,
            "#1f2328",
        );
        assert(svg@ =~= before + row_numbers(*l, secs@, row + 1));
        row = row + 1;
    }
    let ghost middle = svg@;
    assert(svg@ =~= middle + column_numbers(*l, secs@, 0));
    let mut col: i64 = 0;
    while col < l.cols
        invariant
            l.small(),
            l.total > 0 ==> secs@.len() == l.total,
            0 <= col <= l.cols,
            svg@ == middle + column_numbers(*l, secs@, col as int),
        decreases l.cols - col,
    {
        let count: i32 = count_column(l, secs, col);
        let half: i64 = if count >= 10 {
            16
        } else {
            7
        };
        draw_number(
            svg,
            count,
            MARGIN_LEFT + col * STRIDE + BORDER + 7 - half,
            MARGIN_TOP + l.rows * STRIDE + 6,
            3,
            2,
            "#1f2328",
        );
        assert(svg@ =~= middle + column_numbers(*l, secs@, col + 1));
        col = col + 1;
    }
    assert(svg@ =~= before + counts_text(*l, secs@));
}

fn push_legend_entry(svg: &mut String, i: i64, y: i64, color: &str, words: &str)
    requires
        0 <= i < 4,
        -0x100_0000_0000 <= y <= 0x100_0000_0000,
    ensures
        final(svg)@ == old(svg)@ + legend_entry(i as int, y as int, color@, words@),
{
    let x: i64 = MARGIN_LEFT + i * 60;
    let mut s = "<rect x=\"".to_owned();
    s.append(int_text(x).as_str());
    s.append("\" y=\"");
    s.append(int_text(y).as_str());
    s.append("\" width=\"10\" height=\"10\" rx=\"2\" fill=\"");
    s.append(color);
    s.append("\"/><text x=\"");
    s.append(int_text(x + 14).as_str());
    s.append("\" y=\"");
    s.append(int_text(y + 9).as_str());
    s.append("\" font-size=\"11\" fill=\"#666666\">");
    s.append(words);
    s.append("</text>");
    svg.append(s.as_str());
}

fn legend_string(y: i64) -> (r: String)
    requires
        -0x100_0000_0000 <= y <= 0x100_0000_0000,
    ensures
        r@ == legend_text(y as int),
{
    let mut r = String::new();
    push_legend_entry(&mut r, 0, y, color_for_seconds(0), "0s");
    assert(r@ =~= legend_entry(0, y as int, level_color(0), "0s"@));
    push_legend_entry(&mut r, 1, y, color_for_seconds(1), "<30m");
    push_legend_entry(&mut r, 2, y, color_for_seconds(1800), "30-60m");
    push_legend_entry(&mut r, 3, y, color_for_seconds(3600), ">60m");
    r
}

fn head_string(l: &Layout, title: &str) -> (r: String)
    requires
        l.small(),
    ensures
        r@ == head_text(*l, title@),
{
    let width: i64 = MARGIN_LEFT + l.cols * STRIDE - PADDING + if l.yearly {
        40
    } else {
        20
    };
    let tall: i64 = MARGIN_TOP + l.rows * STRIDE - PADDING + if l.yearly {
        48
    } else {
        30
    };
    let mut r = "<svg width=\"".to_owned();
    r.append(int_text(width).as_str());
    r.append("\" height=\"");
    r.append(int_text(tall).as_str());
    r.append("\" xmlns=\"http://www.w3.org/2000/svg\">");
    r.append("<text x=\"5\" y=\"18\" font-size=\"18\" font-weight=\"bold\" fill=\"#333333\">");
    r.append(title);
    r.append("</text>");
    push_label(&mut r, 5, 46, "Mon");
    push_label(&mut r, 5, 104, "Wed");
    push_label(&mut r, 5, 162, "Fri");
    push_label(&mut r, 5, 220, "Sun");
    r
}

/// Draws days with these durations.
pub fn draw(l: &Layout, secs: &Vec<i64>, title: &str) -> (r: String)
    requires
        l.small(),
        l.total > 0 ==> secs@.len() == l.total,
    ensures
        r@ == drawing(*l, secs@, title@),
{
    let mut r = head_string(l, title);
    draw_grid(&mut r, l, secs);
    draw_counts(&mut r, l, secs);
    let legend_y: i64 = if l.yearly {
        MARGIN_TOP + l.rows * STRIDE + 32
    } else {
        MARGIN_TOP + l.rows * STRIDE - PADDING + 30 - 20
    };
    r.append(legend_string(legend_y).as_str());
    r.append("</svg>");
    r
}

// ---------------------------------------------------------------------------------------------
// Calendars
// ---------------------------------------------------------------------------------------------

/// What the data say of a date: the value of its last entry, 0 where there is none.
pub open spec fn seconds_on(data: Seq<(Seq<char>, i64)>, date: Seq<char>) -> i64
    decreases data.len(),
{
    if data.len() == 0 {
        0
    } else if data.last().0 == date {
        data.last().1
    } else {
        seconds_on(data.drop_last(), date)
    }
}

/// The durations of `total` days from `start` on.
pub open spec fn seconds_by_day(data: Seq<(Seq<char>, i64)>, start: int, total: int) -> Seq<i64> {
    Seq::new(
        if total > 0 {
            total as nat
        } else {
            0
        },
        |i: int| seconds_on(data, calendar::date_text(start + i)),
    )
}

/// The drawing that stands for no data.
pub open spec fn no_data() -> Seq<char> {
    "<svg width=\"100\" height=\"50\" xmlns=\"http://www.w3.org/2000/svg\"><text x=\"10\" y=\"30\" font-size=\"12\" fill=\"#666\">No data</text></svg>"@
}

/// The last day shown of a year: today in the present year, else December 31.
pub open spec fn year_end(year: int, today: int) -> int {
    if calendar::civil(today).0 == year {
        today
    } else {
        calendar::day_number(year, 12, 31)
    }
}

/// The first date of the data.
pub open spec fn first_day(data: Seq<(Seq<char>, i64)>) -> int {
    calendar::parsed_date(data[0].0)->0
}

/// The last day shown of all time: today, or the last date of the data where that is later.
pub open spec fn last_day(data: Seq<(Seq<char>, i64)>, today: int) -> int {
    let last = calendar::parsed_date(data.last().0)->0;
    if last > today {
        last
    } else {
        today
    }
}

/// Whether the data can be drawn: the year is one of the calendar, or the first and the last entry
/// are dates and the first does not lie two weeks after the last day shown.
pub open spec fn drawable(data: Seq<(Seq<char>, i64)>, year: Option<i32>, today: int) -> bool {
    data.len() == 0 || match year {
        Some(y) => -262143 <= y <= 262142,
        None => {
            &&& calendar::parsed_date(data[0].0) is Some
            &&& calendar::parsed_date(data.last().0) is Some
            &&& last_day(data, today) - first_day(data) + 1 > -13
        },
    }
}

/// The calendar of the data, of one year or of all time, as of the date `today`.
pub open spec fn calendar_of(data: Seq<(Seq<char>, i64)>, year: Option<i32>, today: int) -> Seq<
    char,
> {
    if data.len() == 0 {
        no_data()
    } else {
        match year {
            Some(y) => {
                let l = Layout::year(
                    calendar::day_number(y as int, 1, 1),
                    year_end(y as int, today),
                );
                drawing(l, seconds_by_day(data, l.start as int, l.total as int), text::dec(y as int))
            },
            None => {
                let l = Layout::all_time(first_day(data), last_day(data, today));
                drawing(l, seconds_by_day(data, l.start as int, l.total as int), "All Time"@)
            },
        }
    }
}

fn read_days(data: &[(String, i64)], start: i64, total: i64) -> (r: Vec<i64>)
    requires
        calendar::day_in_range(start as int),
        -200000000 <= total <= 200000000,
        total > 0 ==> calendar::day_in_range(start + total - 1),
    ensures
        r@ == seconds_by_day(rhythm::day_views(data@), start as int, total as int),
{
    let ghost all = rhythm::day_views(data@);
    let mut r: Vec<i64> = Vec::new();
    let n: i64 = if total > 0 {
        total
    } else {
        0
    };
    let mut k: i64 = 0;
    while k < n
        invariant
            0 <= k <= n,
            r@.len() == k,
            forall|i: int| 0 <= i < k ==> #[trigger] r@[i] == 0,
        decreases n - k,
    {
        r.push(0);
        k = k + 1;
    }
    assert(all.take(0) =~= Seq::<(Seq<char>, i64)>::empty());
    assert(r@ =~= seconds_by_day(all.take(0), start as int, total as int));
    for j in 0..data.len()
        invariant
            calendar::day_in_range(start as int),
            n == (if total > 0 {
                total
            } else {
                0
            }),
            0 <= n <= 200000000,
            total > 0 ==> calendar::day_in_range(start + total - 1),
            all == rhythm::day_views(data@),
            r@ == seconds_by_day(all.take(j as int), start as int, total as int),
    {
        let entry = &data[j];
        let ghost now = all.take(j + 1);
        assert(now.drop_last() =~= all.take(j as int));
        assert(now.last() == (entry.0@, entry.1));
        let ghost before = r@;
        let mut hit: Option<i64> = None;
        if let Some(day) = parse_date(entry.0.as_str()) {
            if start <= day && day - start < n && same_text(
                date_string(day).as_str(),
                entry.0.as_str(),
            ) {
                hit = Some(day - start);
            }
            assert forall|i: int| 0 <= i < n implies (#[trigger] calendar::date_text(start + i)
                == entry.0@) == (hit == Some(i as i64)) by {
                assert(calendar::day_in_range(start + i));
            }
        } else {
            assert forall|i: int| 0 <= i < n implies (#[trigger] calendar::date_text(start + i))
                != entry.0@ by {
                assert(calendar::day_in_range(start + i));
            }
        }
        if let Some(i) = hit {
            r.set(i as usize, entry.1);
        }
        assert(r@ =~= seconds_by_day(now, start as int, total as int));
    }
    assert(all.take(all.len() as int) =~= all);
    r
}

proof fn lemma_side(n: int, r: int)
    requires
        r >= 7,
    ensures
        r <= square_side(n, r),
        square_side(n, r) <= (if n > r {
            n
        } else {
            r
        }),
    decreases n - r,
{
    if !(r * r >= n || r >= n) {
        lemma_side(n, r + 1);
    }
}

fn side_of(n: i64) -> (r: i64)
    requires
        n <= 200000000,
    ensures
        r == square_side(n as int, 7),
        7 <= r,
        r <= 7 || r <= n,
{
    proof {
        lemma_side(n as int, 7);
    }
    let mut r: i64 = 7;
    while r < n && r * r < n
        invariant
            n <= 200000000,
            7 <= r,
            r <= 7 || r <= n,
            r * r <= 200000000 * 200000000,
            square_side(n as int, r as int) == square_side(n as int, 7),
        decreases n - r,
    {
        r = r + 1;
        proof {
            assert(r * r <= 200000000 * 200000000) by (nonlinear_arith)
                requires
                    7 <= r <= 200000000,
            ;
        }
    }
    r
}

fn year_layout(start: i64, end: i64) -> (r: Layout)
    requires
        calendar::day_in_range(start as int),
        calendar::day_in_range(end as int),
        start <= end,
    ensures
        r == Layout::year(start as int, end as int),
        r.small(),
{
    let total: i64 = end - start + 1;
    let offset: i64 = weekday_of(start);
    Layout { yearly: true, start, total, cols: (total + offset + 6) / 7, rows: 7, offset }
}

fn all_time_layout(start: i64, end: i64) -> (r: Layout)
    requires
        calendar::day_in_range(start as int),
        calendar::day_in_range(end as int),
    ensures
        r == Layout::all_time(start as int, end as int),
        r.small(),
{
    let total: i64 = end - start + 1;
    let rows: i64 = side_of(total);
    let cols: i64 = if total > 0 {
        proof {
            assert(0 <= (total + rows - 1) as int / rows as int <= total) by (nonlinear_arith)
                requires
                    total > 0,
                    rows >= 7,
            ;
        }
        (total + rows - 1) / rows
    } else {
        0
    };
    Layout { yearly: false, start, total, cols, rows, offset: 0 }
}

/// The first and the last day of a year that the calendar shows are in order.
proof fn lemma_year_span(y: int, today: int)
    requires
        -262143 <= y <= 262142,
    ensures
        calendar::is_date(y, 1, 1),
        calendar::is_date(y, 12, 31),
        calendar::day_number(y, 1, 1) <= calendar::day_number(y, 12, 31),
{
    reveal_with_fuel(calendar::days_before_month, 13);
}

/// The calendar of the data, as of the date `today`.
pub fn generate_svg_calendar_on(
    data: &[(String, i64)],
    year: Option<i32>,
    today: i64,
) -> (r: String)
    requires
        calendar::day_in_range(today as int),
        drawable(rhythm::day_views(data@), year, today as int),
    ensures
        r@ == calendar_of(rhythm::day_views(data@), year, today as int),
{
    let ghost all = rhythm::day_views(data@);
    if data.len() == 0 {
        return "<svg width=\"100\" height=\"50\" xmlns=\"http://www.w3.org/2000/svg\"><text x=\"10\" y=\"30\" font-size=\"12\" fill=\"#666\">No data</text></svg>".to_owned();
    }
    match year {
        Some(y) => {
            proof {
                lemma_year_span(y as int, today as int);
            }
            let start: i64 = match from_ymd(y, 1, 1) {
                Some(d) => d,
                None => 0,
            };
            let (now_year, _m, _d) = civil_of(today);
            let end: i64 = if now_year == y {
                proof {
                    calendar::lemma_year_start(today as int);
                }
                today
            } else {
                match from_ymd(y, 12, 31) {
                    Some(d) => d,
                    None => 0,
                }
            };
            let l = year_layout(start, end);
            let secs = read_days(data, l.start, l.total);
            draw(&l, &secs, int_text(y as i64).as_str())
        },
        None => {
            assert(all[0] == (data@[0].0@, data@[0].1));
            assert(all.last() == (data@.last().0@, data@.last().1));
            let first: i64 = match parse_date(data[0].0.as_str()) {
                Some(d) => d,
                None => 0,
            };
            let last: i64 = match parse_date(data[data.len() - 1].0.as_str()) {
                Some(d) => d,
                None => 0,
            };
            let end: i64 = if last > today {
                last
            } else {
                today
            };
            let l = all_time_layout(first, end);
            let secs = read_days(data, l.start, l.total);
            draw(&l, &secs, "All Time")
        },
    }
}

/// The calendar of the data, of one year or of all time, as of the present date on this machine.
pub fn generate_svg_calendar(data: &[(String, i64)], year: Option<i32>) -> (r: String)
    requires
        forall|today: int| #[trigger]
            calendar::day_in_range(today) ==> drawable(rhythm::day_views(data@), year, today),
    ensures
        exists|today: int| #[trigger]
            calendar::day_in_range(today) && r@ == calendar_of(
                rhythm::day_views(data@),
                year,
                today,
            ),
{
    let today: i64 = local_today();
    assert(calendar::day_in_range(today as int));
    generate_svg_calendar_on(data, year, today)
}

/// The calendar of the data as of the date `today`, or `None` where it cannot be drawn.
pub fn try_generate_svg_calendar_on(
    data: &[(String, i64)],
    year: Option<i32>,
    today: i64,
) -> (r: Option<String>)
    requires
        calendar::day_in_range(today as int),
    ensures
        r is Some == drawable(rhythm::day_views(data@), year, today as int),
        r is Some ==> r->0@ == calendar_of(rhythm::day_views(data@), year, today as int),
{
    let ghost all = rhythm::day_views(data@);
    if data.len() > 0 {
        match year {
            Some(y) => {
                if y < -262143 || y > 262142 {
                    return None;
                }
            },
            None => {
                assert(all[0] == (data@[0].0@, data@[0].1));
                assert(all.last() == (data@.last().0@, data@.last().1));
                match (
                    parse_date(data[0].0.as_str()),
                    parse_date(data[data.len() - 1].0.as_str()),
                ) {
                    (Some(first), Some(last)) => {
                        let end: i64 = if last > today {
                            last
                        } else {
                            today
                        };
                        if end - first + 1 <= -13 {
                            return None;
                        }
                    },
                    _ => {
                        return None;
                    },
                }
            },
        }
    }
    Some(generate_svg_calendar_on(data, year, today))
}

/// The calendar of the data as of the present date, or `None` where there is a date as of which it
/// cannot be drawn.
pub fn try_generate_svg_calendar(data: &[(String, i64)], year: Option<i32>) -> (r: Option<String>)
    ensures
        r is Some == (forall|today: int| #[trigger]
            calendar::day_in_range(today) ==> drawable(rhythm::day_views(data@), year, today)),
        r is Some ==> exists|today: int| #[trigger]
            calendar::day_in_range(today) && r->0@ == calendar_of(
                rhythm::day_views(data@),
                year,
                today,
            ),
{
    let ghost all = rhythm::day_views(data@);
    proof {
        assert(calendar::day_in_range(MIN_DAY as int));
    }
    if data.len() > 0 {
        match year {
            Some(y) => {
                if y < -262143 || y > 262142 {
                    return None;
                }
            },
            None => {
                assert(all[0] == (data@[0].0@, data@[0].1));
                assert(all.last() == (data@.last().0@, data@.last().1));
                match (
                    parse_date(data[0].0.as_str()),
                    parse_date(data[data.len() - 1].0.as_str()),
                ) {
                    (Some(first), Some(last)) => {
                        if last - first + 1 <= -13 {
                            return None;
                        }
                    },
                    _ => {
                        return None;
                    },
                }
            },
        }
    }
    Some(generate_svg_calendar(data, year))
}

/// The year of a text, where it is a date.
pub open spec fn entry_year(date: Seq<char>) -> Option<int> {
    match calendar::parsed_date(date) {
        Some(day) => Some(calendar::civil(day).0),
        None => None,
    }
}

/// The entries of a year.
pub open spec fn entries_of(data: Seq<(Seq<char>, i64)>, year: int) -> Seq<(Seq<char>, i64)>
    decreases data.len(),
{
    if data.len() == 0 {
        Seq::empty()
    } else if entry_year(data.last().0) == Some(year) {
        entries_of(data.drop_last(), year).push(data.last())
    } else {
        entries_of(data.drop_last(), year)
    }
}

/// Whether the data have an entry of a year.
pub open spec fn has_year(data: Seq<(Seq<char>, i64)>, year: int) -> bool {
    exists|k: int| 0 <= k < data.len() && entry_year((#[trigger] data[k]).0) == Some(year)
}

/// Whether `years` are the years that occur in the data, the latest first.
pub open spec fn are_years(data: Seq<(Seq<char>, i64)>, years: Seq<int>) -> bool {
    &&& falling(years)
    &&& forall|y: int| #[trigger] years.contains(y) <==> has_year(data, y)
}

/// Whether numbers fall along a list.
pub open spec fn falling(s: Seq<int>) -> bool {
    forall|i: int, j: int| 0 <= i < j < s.len() ==> s[i] > s[j]
}

/// The value of a list of named drawings.
pub open spec fn named(s: Seq<(String, String)>) -> Seq<(Seq<char>, Seq<char>)> {
    s.map_values(|p: (String, String)| (p.0@, p.1@))
}

/// The calendars of the given years, each under its number.
pub open spec fn year_calendars(
    data: Seq<(Seq<char>, i64)>,
    years: Seq<int>,
    today: int,
) -> Seq<(Seq<char>, Seq<char>)> {
    years.map_values(
        |y: int|
            (text::dec(y), calendar_of(entries_of(data, y), Some(y as i32), today)),
    )
}

fn year_of_entry(date: &str) -> (r: Option<i32>)
    ensures
        match r {
            Some(y) => entry_year(date@) == Some(y as int) && -262143 <= y <= 262142,
            None => entry_year(date@) is None,
        },
{
    match parse_date(date) {
        Some(day) => {
            let (y, _m, _d) = civil_of(day);
            Some(y)
        },
        None => None,
    }
}

/// Years as numbers.
pub open spec fn numbers(s: Seq<i32>) -> Seq<int> {
    s.map_values(|y: i32| y as int)
}

proof fn lemma_has_year_step(data: Seq<(Seq<char>, i64)>, j: int)
    requires
        0 <= j < data.len(),
    ensures
        forall|y: int| #[trigger]
            has_year(data.take(j + 1), y) <==> has_year(data.take(j), y) || entry_year(data[j].0)
                == Some(y),
{
    let before = data.take(j);
    let now = data.take(j + 1);
    assert forall|y: int| #[trigger] has_year(now, y) <==> has_year(before, y) || entry_year(
        data[j].0,
    ) == Some(y) by {
        if has_year(now, y) {
            let k = choose|k: int| 0 <= k < now.len() && entry_year((#[trigger] now[k]).0) == Some(y);
            if k < j {
                assert(before[k] == now[k]);
            }
        }
        if has_year(before, y) {
            let k = choose|k: int|
                0 <= k < before.len() && entry_year((#[trigger] before[k]).0) == Some(y);
            assert(now[k] == before[k]);
        }
        if entry_year(data[j].0) == Some(y) {
            assert(now[j] == data[j]);
        }
    }
}

/// Enters a year into a falling list of years.
fn enter_year(r: &mut Vec<i32>, y: i32)
    requires
        falling(numbers(old(r)@)),
        forall|i: int| 0 <= i < old(r)@.len() ==> -262143 <= #[trigger] old(r)@[i] <= 262142,
        -262143 <= y <= 262142,
    ensures
        falling(numbers(final(r)@)),
        forall|i: int| 0 <= i < final(r)@.len() ==> -262143 <= #[trigger] final(r)@[i] <= 262142,
        forall|z: int| #[trigger]
            numbers(final(r)@).contains(z) <==> numbers(old(r)@).contains(z) || z == y,
{
    let ghost before = numbers(r@);
    let n: usize = r.len();
    let mut at: usize = 0;
    while at < n && r[at] > y
        invariant
            at <= n == r@.len(),
            forall|i: int| 0 <= i < at ==> #[trigger] r@[i] > y,
        decreases n - at,
    {
        at = at + 1;
    }
    if at < n && r[at] == y {
        assert(before[at as int] == y);
        return;
    }
    let ghost held = r@;
    r.insert(at, y);
    proof {
        let after = numbers(r@);
        assert(after =~= before.insert(at as int, y as int));
        assert forall|i: int, j: int| 0 <= i < j < after.len() implies after[i] > after[j] by {
            if i < at && j < at {
                assert(before[i] > before[j]);
            } else if i < at && j == at {
                assert(held[i] > y);
            } else if i < at {
                assert(before[i] > before[j - 1]);
            } else if i == at {
                assert(before[at as int] < y);
                if j - 1 > at {
                    assert(before[at as int] > before[j - 1]);
                }
            } else {
                assert(before[i - 1] > before[j - 1]);
            }
        }
        assert forall|z: int| #[trigger] after.contains(z) <==> before.contains(z) || z == y by {
            if after.contains(z) {
                let i = choose|i: int| 0 <= i < after.len() && after[i] == z;
                if i < at {
                    assert(before[i] == z);
                } else if i > at {
                    assert(before[i - 1] == z);
                }
            }
            if before.contains(z) {
                let i = choose|i: int| 0 <= i < before.len() && before[i] == z;
                assert(after[if i < at { i } else { i + 1 }] == z);
            }
            assert(after[at as int] == y);
        }
    }
}

/// The years of the data, the latest first.
fn years_of(data: &[(String, i64)]) -> (r: Vec<i32>)
    ensures
        are_years(rhythm::day_views(data@), numbers(r@)),
        forall|i: int| 0 <= i < r@.len() ==> -262143 <= #[trigger] r@[i] <= 262142,
{
    let ghost all = rhythm::day_views(data@);
    let mut r: Vec<i32> = Vec::new();
    for j in 0..data.len()
        invariant
            all == rhythm::day_views(data@),
            falling(numbers(r@)),
            forall|i: int| 0 <= i < r@.len() ==> -262143 <= #[trigger] r@[i] <= 262142,
            forall|y: int| #[trigger]
                numbers(r@).contains(y) <==> has_year(all.take(j as int), y),
    {
        assert(all[j as int] == (data@[j as int].0@, data@[j as int].1));
        proof {
            lemma_has_year_step(all, j as int);
        }
        if let Some(y) = year_of_entry(data[j].0.as_str()) {
            enter_year(&mut r, y);
        }
    }
    assert(all.take(all.len() as int) =~= all);
    r
}

fn select_year(data: &[(String, i64)], year: i32) -> (r: Vec<(String, i64)>)
    ensures
        rhythm::day_views(r@) == entries_of(rhythm::day_views(data@), year as int),
{
    let ghost all = rhythm::day_views(data@);
    let mut r: Vec<(String, i64)> = Vec::new();
    assert(all.take(0) =~= Seq::<(Seq<char>, i64)>::empty());
    assert(rhythm::day_views(r@) =~= entries_of(all.take(0), year as int));
    for j in 0..data.len()
        invariant
            all == rhythm::day_views(data@),
            rhythm::day_views(r@) == entries_of(all.take(j as int), year as int),
    {
        let ghost now = all.take(j + 1);
        assert(now.drop_last() =~= all.take(j as int));
        assert(now.last() == (data@[j as int].0@, data@[j as int].1));
        let wanted: bool = match year_of_entry(data[j].0.as_str()) {
            Some(y) => y == year,
            None => false,
        };
        if wanted {
            let ghost before = r@;
            r.push((data[j].0.clone(), data[j].1));
            assert(rhythm::day_views(r@) =~= rhythm::day_views(before).push(now.last()));
        }
    }
    assert(all.take(all.len() as int) =~= all);
    r
}

/// The calendars of all years of the data, the latest first, as of the date `today`. Entries that
/// are no dates are left out.
pub fn generate_all_years_svgs_on(data: &[(String, i64)], today: i64) -> (r: Vec<(String, String)>)
    requires
        calendar::day_in_range(today as int),
    ensures
        exists|years: Seq<int>| #[trigger]
            are_years(rhythm::day_views(data@), years) && named(r@) == year_calendars(
                rhythm::day_views(data@),
                years,
                today as int,
            ),
{
    let ghost all = rhythm::day_views(data@);
    let years = years_of(data);
    let ghost list = numbers(years@);
    let mut r: Vec<(String, String)> = Vec::new();
    for i in 0..years.len()
        invariant
            calendar::day_in_range(today as int),
            all == rhythm::day_views(data@),
            forall|k: int| 0 <= k < years@.len() ==> -262143 <= #[trigger] years@[k] <= 262142,
            r@.len() == i,
            forall|k: int|
                0 <= k < i ==> (#[trigger] r@[k]).0@ == text::dec(years@[k] as int) && r@[k].1@
                    == calendar_of(
                    entries_of(all, years@[k] as int),
                    Some(years@[k]),
                    today as int,
                ),
    {
        let y: i32 = years[i];
        let part = select_year(data, y);
        let svg = generate_svg_calendar_on(part.as_slice(), Some(y), today);
        r.push((int_text(y as i64), svg));
    }
    assert(are_years(all, list));
    assert(named(r@) =~= year_calendars(all, list, today as int)) by {
        assert forall|k: int| 0 <= k < r@.len() implies #[trigger] named(r@)[k] == year_calendars(
            all,
            list,
            today as int,
        )[k] by {
            assert(list[k] == years@[k]);
            assert(list[k] as i32 == years@[k]);
        }
    }
    r
}

/// The calendars of all years of the data, the latest first, as of the present date on this
/// machine.
pub fn generate_all_years_svgs(data: &[(String, i64)]) -> (r: Vec<(String, String)>)
    ensures
        exists|today: int, years: Seq<int>|
            {
                &&& #[trigger] calendar::day_in_range(today)
                &&& #[trigger] are_years(rhythm::day_views(data@), years)
                &&& named(r@) == year_calendars(rhythm::day_views(data@), years, today)
            },
{
    let today: i64 = local_today();
    let r = generate_all_years_svgs_on(data, today);
    proof {
        assert(calendar::day_in_range(today as int));
    }
    r
}

} // verus!
