//! What the terminal interface shows, as texts, tables and colours.

use crate::api_types::{
    human_readable_time, AliasStat, ApiToken, ClientStat, CommandStat, OrphanedSession, PastNStat,
    RecordPageItem, SessionBucket,
};
use crate::app;
use crate::app::{AdminAction, App, Overlay, OverviewData, TokenField};
use crate::selection;
use crate::selection::{format_timestamp, total_pages};
use crate::stats;
use crate::tabs;
use crate::tabs::BreakdownKind;
use crate::text;
use crate::text::int_text;
use crate::zone::Tz;
use vstd::prelude::*;

verus! {

// ---------------------------------------------------------------------------------------------
// Parts of a picture
// ---------------------------------------------------------------------------------------------

/// A colour.
#[derive(Debug, Clone, Copy, PartialEq, Eq, Structural)]
pub enum Color {
    Plain,
    Cyan,
    Green,
    Yellow,
    Magenta,
    Gray,
    Red,
}

/// A piece of a line.
#[derive(Debug)]
pub struct Span {
    pub text: String,
    pub color: Color,
    pub bold: bool,
}

/// The view of a piece of a line.
#[verifier::ext_equal]
pub struct SpanView {
    pub text: Seq<char>,
    pub color: Color,
    pub bold: bool,
}

impl View for Span {
    type V = SpanView;

    open spec fn view(&self) -> SpanView {
        SpanView { text: self.text@, color: self.color, bold: self.bold }
    }
}

/// The view of a line.
pub open spec fn line_view(line: Seq<Span>) -> Seq<SpanView> {
    line.map_values(|s: Span| s@)
}

/// The view of lines.
pub open spec fn lines_view(lines: Seq<Vec<Span>>) -> Seq<Seq<SpanView>> {
    lines.map_values(|l: Vec<Span>| line_view(l@))
}

/// A figure in a box.
#[derive(Debug)]
pub struct Card {
    pub title: String,
    pub value: String,
    pub color: Color,
}

/// The view of a figure in a box.
#[verifier::ext_equal]
pub struct CardView {
    pub title: Seq<char>,
    pub value: Seq<char>,
    pub color: Color,
}

impl View for Card {
    type V = CardView;

    open spec fn view(&self) -> CardView {
        CardView { title: self.title@, value: self.value@, color: self.color }
    }
}

/// The views of cards.
pub open spec fn cards_view(cards: Seq<Card>) -> Seq<CardView> {
    cards.map_values(|c: Card| c@)
}

/// A table.
#[derive(Debug)]
pub struct Sheet {
    pub title: String,
    pub header: Vec<String>,
    pub rows: Vec<Vec<String>>,
}

/// The view of a table.
#[verifier::ext_equal]
pub struct SheetView {
    pub title: Seq<char>,
    pub header: Seq<Seq<char>>,
    pub rows: Seq<Seq<Seq<char>>>,
}

/// The views of rows.
pub open spec fn grid(rows: Seq<Vec<String>>) -> Seq<Seq<Seq<char>>> {
    rows.map_values(|row: Vec<String>| text::texts(row@))
}

impl View for Sheet {
    type V = SheetView;

    open spec fn view(&self) -> SheetView {
        SheetView {
            title: self.title@,
            header: text::texts(self.header@),
            rows: grid(self.rows@),
        }
    }
}

/// A row of tabs.
#[derive(Debug)]
pub struct Strip {
    pub title: String,
    pub tabs: Vec<String>,
    pub selected: usize,
}

/// The view of a row of tabs.
#[verifier::ext_equal]
pub struct StripView {
    pub title: Seq<char>,
    pub tabs: Seq<Seq<char>>,
    pub selected: int,
}

impl View for Strip {
    type V = StripView;

    open spec fn view(&self) -> StripView {
        StripView {
            title: self.title@,
            tabs: text::texts(self.tabs@),
            selected: self.selected as int,
        }
    }
}

/// What the middle of the screen shows.
#[derive(Debug)]
pub enum Body {
    /// A remark.
    Remark(String),
    /// Figures, a line of details, the recent periods and the commands with the most time.
    Figures { cards: Vec<Card>, detail: String, recent: Sheet, commands: Sheet },
    /// A table under tabs.
    Tabbed { strip: Strip, sheet: Sheet },
    /// A table with a selected row.
    List { sheet: Sheet, selected: Option<usize> },
}

/// The view of what the middle of the screen shows.
#[verifier::ext_equal]
pub enum BodyView {
    Remark(Seq<char>),
    Figures {
        cards: Seq<CardView>,
        detail: Seq<char>,
        recent: SheetView,
        commands: SheetView,
    },
    Tabbed { strip: StripView, sheet: SheetView },
    List { sheet: SheetView, selected: Option<usize> },
}

impl View for Body {
    type V = BodyView;

    open spec fn view(&self) -> BodyView {
        match *self {
            Body::Remark(text) => BodyView::Remark(text@),
            Body::Figures { cards, detail, recent, commands } => BodyView::Figures {
                cards: cards_view(cards@),
                detail: detail@,
                recent: recent@,
                commands: commands@,
            },
            Body::Tabbed { strip, sheet } => BodyView::Tabbed { strip: strip@, sheet: sheet@ },
            Body::List { sheet, selected } => BodyView::List { sheet: sheet@, selected },
        }
    }
}

/// A box in the middle of the screen.
#[derive(Debug)]
pub struct Popup {
    pub width_percent: u16,
    pub height_percent: u16,
    pub title: String,
    pub border: Color,
    pub centered: bool,
    /// Whether white space at the start of a wrapped line is left out.
    pub trimmed: bool,
    pub lines: Vec<Vec<Span>>,
}

/// The view of a box in the middle of the screen.
#[verifier::ext_equal]
pub struct PopupView {
    pub width_percent: u16,
    pub height_percent: u16,
    pub title: Seq<char>,
    pub border: Color,
    pub centered: bool,
    pub trimmed: bool,
    pub lines: Seq<Seq<SpanView>>,
}

impl View for Popup {
    type V = PopupView;

    open spec fn view(&self) -> PopupView {
        PopupView {
            width_percent: self.width_percent,
            height_percent: self.height_percent,
            title: self.title@,
            border: self.border,
            centered: self.centered,
            trimmed: self.trimmed,
            lines: lines_view(self.lines@),
        }
    }
}

/// What the terminal shows.
#[derive(Debug)]
pub enum Picture {
    /// A remark in a box with a title, where the terminal is too small.
    Small { title: String, remark: String },
    /// Tabs above, a view in the middle, the keys and the line for the user below, and a box over
    /// it where there is one.
    Full { header: Strip, body: Body, help: String, notice: Span, popup: Option<Popup> },
}

/// The view of what the terminal shows.
#[verifier::ext_equal]
pub enum PictureView {
    Small { title: Seq<char>, remark: Seq<char> },
    Full {
        header: StripView,
        body: BodyView,
        help: Seq<char>,
        notice: SpanView,
        popup: Option<PopupView>,
    },
}

impl View for Picture {
    type V = PictureView;

    open spec fn view(&self) -> PictureView {
        match *self {
            Picture::Small { title, remark } => PictureView::Small {
                title: title@,
                remark: remark@,
            },
            Picture::Full { header, body, help, notice, popup } => PictureView::Full {
                header: header@,
                body: body@,
                help: help@,
                notice: notice@,
                popup: opt_popup(popup),
            },
        }
    }
}

/// The view of an optional box.
pub open spec fn opt_popup(popup: Option<Popup>) -> Option<PopupView> {
    match popup {
        Some(p) => Some(p@),
        None => None,
    }
}

// ---------------------------------------------------------------------------------------------
// Helpers
// ---------------------------------------------------------------------------------------------

/// An optional text; empty where there is none.
pub open spec fn or_empty(o: Option<String>) -> Seq<char> {
    match o {
        Some(s) => s@,
        None => Seq::empty(),
    }
}

fn text_or_empty(o: &Option<String>) -> (r: String)
    ensures
        r@ == or_empty(*o),
{
    match o {
        Some(s) => s.clone(),
        None => String::new(),
    }
}

/// Something that is a row of a table.
pub trait Cells {
    /// The texts in the row, in a time zone and at a time.
    spec fn cells(&self, zone: Seq<char>, now: int) -> Seq<Seq<char>>;

    /// The texts in the row.
    fn row(&self, zone: &Tz, now: i64) -> (r: Vec<String>)
        ensures
            text::texts(r@) == self.cells(zone@, now as int),
    ;
}

/// The rows of a list.
pub open spec fn rows_of<T: Cells>(items: Seq<T>, zone: Seq<char>, now: int) -> Seq<
    Seq<Seq<char>>,
> {
    items.map_values(|item: T| item.cells(zone, now))
}

/// The rows of a list without the first `from`.
fn rows_from<T: Cells>(items: &Vec<T>, from: usize, zone: &Tz, now: i64) -> (r: Vec<Vec<String>>)
    ensures
        grid(r@) == rows_of(items@, zone@, now as int).skip(
            if from < items@.len() {
                from as int
            } else {
                items@.len() as int
            },
        ),
{
    let n: usize = items.len();
    let start: usize = if from < n {
        from
    } else {
        n
    };
    let mut r: Vec<Vec<String>> = Vec::new();
    for i in start..n
        invariant
            start <= n == items@.len(),
            r@.len() == i - start,
            forall|k: int|
                0 <= k < r@.len() ==> text::texts((#[trigger] r@[k])@) == items@[start
                    + k].cells(zone@, now as int),
    {
        r.push(items[i].row(zone, now));
    }
    assert(grid(r@) =~= rows_of(items@, zone@, now as int).skip(start as int));
    r
}

impl Cells for PastNStat {
    open spec fn cells(&self, zone: Seq<char>, now: int) -> Seq<Seq<char>> {
        seq![
            self.name@,
            stats::duration_text(self.seconds as int),
            text::dec(self.times as int),
            self.day_ratio@ + "%"@,
        ]
    }

    fn row(&self, zone: &Tz, now: i64) -> (r: Vec<String>) {
        let r = vec![
            self.name.clone(),
            human_readable_time(self.seconds),
            int_text(self.times),
            percent(self.day_ratio.as_str()),
        ];
        assert(text::texts(r@) =~= self.cells(zone@, now as int));
        r
    }
}

/// A share with its sign.
fn percent(share: &str) -> (r: String)
    ensures
        r@ == share@ + "%"@,
{
    let mut r = share.to_owned();
    r.append("%");
    r
}

impl Cells for ClientStat {
    open spec fn cells(&self, zone: Seq<char>, now: int) -> Seq<Seq<char>> {
        seq![
            self.client_id@,
            self.total_seconds_hr@,
            text::dec(self.total_times as int),
            self.mean_seconds_hr@,
        ]
    }

    fn row(&self, zone: &Tz, now: i64) -> (r: Vec<String>) {
        let r = vec![
            self.client_id.clone(),
            self.total_seconds_hr.clone(),
            int_text(self.total_times),
            self.mean_seconds_hr.clone(),
        ];
        assert(text::texts(r@) =~= self.cells(zone@, now as int));
        r
    }
}

impl Cells for AliasStat {
    open spec fn cells(&self, zone: Seq<char>, now: int) -> Seq<Seq<char>> {
        seq![
            self.alias@,
            self.total_seconds_hr@,
            text::dec(self.total_times as int),
            self.mean_seconds_hr@,
        ]
    }

    fn row(&self, zone: &Tz, now: i64) -> (r: Vec<String>) {
        let r = vec![
            self.alias.clone(),
            self.total_seconds_hr.clone(),
            int_text(self.total_times),
            self.mean_seconds_hr.clone(),
        ];
        assert(text::texts(r@) =~= self.cells(zone@, now as int));
        r
    }
}

impl Cells for CommandStat {
    open spec fn cells(&self, zone: Seq<char>, now: int) -> Seq<Seq<char>> {
        seq![
            self.command@,
            self.total_seconds_hr@,
            text::dec(self.total_times as int),
            self.mean_seconds_hr@,
        ]
    }

    fn row(&self, zone: &Tz, now: i64) -> (r: Vec<String>) {
        let r = vec![
            self.command.clone(),
            self.total_seconds_hr.clone(),
            int_text(self.total_times),
            self.mean_seconds_hr.clone(),
        ];
        assert(text::texts(r@) =~= self.cells(zone@, now as int));
        r
    }
}

impl Cells for SessionBucket {
    open spec fn cells(&self, zone: Seq<char>, now: int) -> Seq<Seq<char>> {
        seq![self.label@, text::dec(self.count as int), self.pct@ + "%"@]
    }

    fn row(&self, zone: &Tz, now: i64) -> (r: Vec<String>) {
        let r = vec![self.label.clone(), int_text(self.count), percent(self.pct.as_str())];
        assert(text::texts(r@) =~= self.cells(zone@, now as int));
        r
    }
}

/// A duration, none counted as zero.
pub open spec fn or_zero(o: Option<i64>) -> int {
    match o {
        Some(n) => n as int,
        None => 0,
    }
}

impl Cells for RecordPageItem {
    open spec fn cells(&self, zone: Seq<char>, now: int) -> Seq<Seq<char>> {
        seq![
            text::dec(self.id as int),
            selection::shown_time(self.start_time as int, zone),
            self.client_id@,
            stats::duration_text(or_zero(self.duration_seconds)),
            or_empty(self.alias),
            or_empty(self.command),
            self.status@,
        ]
    }

    fn row(&self, zone: &Tz, now: i64) -> (r: Vec<String>) {
        let seconds: i64 = match self.duration_seconds {
            Some(n) => n,
            None => 0,
        };
        let r = vec![
            int_text(self.id),
            format_timestamp(self.start_time, zone),
            self.client_id.clone(),
            human_readable_time(seconds),
            text_or_empty(&self.alias),
            text_or_empty(&self.command),
            self.status.clone(),
        ];
        assert(text::texts(r@) =~= self.cells(zone@, now as int));
        r
    }
}

/// The time since a start, kept within the numbers there are.
pub open spec fn elapsed(now: int, start: int) -> int {
    if now - start > i64::MAX {
        i64::MAX as int
    } else if now - start < i64::MIN {
        i64::MIN as int
    } else {
        now - start
    }
}

impl Cells for OrphanedSession {
    open spec fn cells(&self, zone: Seq<char>, now: int) -> Seq<Seq<char>> {
        seq![
            text::dec(self.id as int),
            selection::shown_time(self.start_time as int, zone),
            self.client_id@,
            stats::duration_text(elapsed(now, self.start_time as int)),
            or_empty(self.alias),
            or_empty(self.command),
        ]
    }

    fn row(&self, zone: &Tz, now: i64) -> (r: Vec<String>) {
        let wide: i128 = now as i128 - self.start_time as i128;
        let seconds: i64 = if wide > i64::MAX as i128 {
            i64::MAX
        } else if wide < i64::MIN as i128 {
            i64::MIN
        } else {
            wide as i64
        };
        let r = vec![
            int_text(self.id),
            format_timestamp(self.start_time, zone),
            self.client_id.clone(),
            human_readable_time(seconds),
            text_or_empty(&self.alias),
            text_or_empty(&self.command),
        ];
        assert(text::texts(r@) =~= self.cells(zone@, now as int));
        r
    }
}

impl Cells for ApiToken {
    open spec fn cells(&self, zone: Seq<char>, now: int) -> Seq<Seq<char>> {
        seq![
            self.token@,
            self.client_id@,
            or_empty(self.description),
            selection::shown_time(self.created_at as int, zone),
        ]
    }

    fn row(&self, zone: &Tz, now: i64) -> (r: Vec<String>) {
        let r = vec![
            self.token.clone(),
            self.client_id.clone(),
            text_or_empty(&self.description),
            format_timestamp(self.created_at, zone),
        ];
        assert(text::texts(r@) =~= self.cells(zone@, now as int));
        r
    }
}

// ---------------------------------------------------------------------------------------------
// Header and footer
// ---------------------------------------------------------------------------------------------

/// The text on a view's tab.
pub open spec fn tab_text(i: int) -> Seq<char> {
    " "@ + text::dec(i + 1) + " "@ + tabs::View::order()[i].name() + " "@
}

/// The tabs of the views.
pub open spec fn header_view(a: app::AppView) -> StripView {
    StripView {
        title: " TSPAN Admin · "@ + a.api.base_url@ + " · "@ + a.client_label() + " · "@
            + a.timezone@ + " "@,
        tabs: Seq::new(5, |i: int| tab_text(i)),
        selected: a.view.place(),
    }
}

/// The keys that mean something in a view.
pub open spec fn help_text(view: tabs::View) -> Seq<char> {
    match view {
        tabs::View::Overview => "[ ] client  r refresh  Tab view  ? help  q quit"@,
        tabs::View::Breakdown =>
            "←/→ category  ↑/↓ scroll  [ ] client  r refresh  Tab view  ? help  q quit"@,
        tabs::View::Records =>
            "↑/↓ select  ←/→ page  d delete  [ ] client  r refresh  Tab view  ? help  q quit"@,
        tabs::View::Active =>
            "↑/↓ select  e end  d discard  [ ] client  r refresh  Tab view  ? help  q quit"@,
        tabs::View::Tokens =>
            "↑/↓ select  n new  d revoke  [ ] client  r refresh  Tab view  ? help  q quit"@,
    }
}

/// The line for the user, in red where it tells of an error.
pub open spec fn notice_view(notice: Option<app::NoticeView>) -> SpanView {
    match notice {
        Some(n) => SpanView {
            text: n.text,
            color: if n.is_error {
                Color::Red
            } else {
                Color::Green
            },
            bold: false,
        },
        None => SpanView { text: Seq::empty(), color: Color::Green, bold: false },
    }
}

impl App {
    /// The tabs of the views.
    pub fn draw_header(&self) -> (r: Strip)
        ensures
            r@ == header_view(self@),
    {
        let all = tabs::View::all();
        let mut names: Vec<String> = Vec::new();
        for i in 0..all.len()
            invariant
                all@ == tabs::View::order(),
                names@.len() == i,
                forall|k: int| 0 <= k < i ==> #[trigger] names@[k]@ == tab_text(k),
        {
            let mut name = " ".to_owned();
            name.append(int_text(i as i64 + 1).as_str());
            name.append(" ");
            name.append(all[i].title());
            name.append(" ");
            names.push(name);
        }
        let mut title = " TSPAN Admin · ".to_owned();
        title.append(self.api.label());
        title.append(" · ");
        title.append(self.current_client_label());
        title.append(" · ");
        title.append(self.timezone.name());
        title.append(" ");
        let r = Strip { title, tabs: names, selected: self.view.index() };
        assert(r@.tabs =~= header_view(self@).tabs);
        r
    }

    /// The keys that mean something in the shown view, and the line for the user.
    pub fn draw_footer(&self) -> (r: (String, Span))
        ensures
            r.0@ == help_text(self@.view),
            r.1@ == notice_view(self@.notice),
    {
        let help = match self.view {
            tabs::View::Overview => "[ ] client  r refresh  Tab view  ? help  q quit",
            tabs::View::Breakdown =>
                "←/→ category  ↑/↓ scroll  [ ] client  r refresh  Tab view  ? help  q quit",
            tabs::View::Records =>
                "↑/↓ select  ←/→ page  d delete  [ ] client  r refresh  Tab view  ? help  q quit",
            tabs::View::Active =>
                "↑/↓ select  e end  d discard  [ ] client  r refresh  Tab view  ? help  q quit",
            tabs::View::Tokens =>
                "↑/↓ select  n new  d revoke  [ ] client  r refresh  Tab view  ? help  q quit",
        };
        let span = match &self.notice {
            Some(notice) => Span {
                text: notice.text.clone(),
                color: if notice.is_error {
                    Color::Red
                } else {
                    Color::Green
                },
                bold: false,
            },
            None => Span { text: String::new(), color: Color::Green, bold: false },
        };
        assert(span@ =~= notice_view(self@.notice));
        (help.to_owned(), span)
    }
}

// ---------------------------------------------------------------------------------------------
// Overview
// ---------------------------------------------------------------------------------------------

/// The figures of the overview.
pub open spec fn cards_of(data: OverviewData) -> Seq<CardView> {
    seq![
        CardView {
            title: " Tracked time "@,
            value: data.stats.total.total_seconds_hr@,
            color: Color::Cyan,
        },
        CardView {
            title: " Sessions "@,
            value: text::dec(data.stats.total.total_times as int),
            color: Color::Green,
        },
        CardView {
            title: " Active days "@,
            value: text::dec(data.stats.total.active_days as int) + " ("@
                + data.stats.total.total_day_ratio@ + "%)"@,
            color: Color::Yellow,
        },
        CardView {
            title: " Current streak "@,
            value: text::dec(data.streaks.current_streak as int) + " days"@,
            color: Color::Magenta,
        },
    ]
}

/// The line of details.
pub open spec fn detail_of(data: OverviewData) -> Seq<char> {
    " Since "@ + data.stats.total.from_date@ + "  ·  Mean "@ + data.stats.total.mean_usage_hr@
        + "  ·  Median "@ + data.distribution.median_seconds_hr@ + "  ·  Last active "@
        + data.streaks.last_active_time_hr@ + " "@
}

/// The cells of a command among those with the most time.
pub open spec fn top_cells(command: CommandStat) -> Seq<Seq<char>> {
    seq![command.command@, command.total_seconds_hr@, text::dec(command.total_times as int)]
}

/// How many commands the overview shows at most.
pub const TOP_COMMANDS: usize = 12;

/// The first commands, at most as many as the overview shows.
pub open spec fn top_rows(commands: Seq<CommandStat>) -> Seq<Seq<Seq<char>>> {
    commands.take(
        if commands.len() < TOP_COMMANDS {
            commands.len() as int
        } else {
            TOP_COMMANDS as int
        },
    ).map_values(|c: CommandStat| top_cells(c))
}

/// The overview.
pub open spec fn overview_view(a: app::AppView, now: int) -> BodyView {
    match a.overview {
        None => BodyView::Remark("No statistics loaded"@),
        Some(data) => BodyView::Figures {
            cards: cards_of(data),
            detail: detail_of(data),
            recent: SheetView {
                title: " Recent activity "@,
                header: seq!["Period"@, "Time"@, "Sessions"@, "Active days"@],
                rows: rows_of(data.stats.past_n@, a.timezone@, now),
            },
            commands: SheetView {
                title: " Top commands "@,
                header: seq!["Top command"@, "Time"@, "Sessions"@],
                rows: top_rows(data.by_command@),
            },
        },
    }
}

fn draw_cards(data: &OverviewData) -> (r: Vec<Card>)
    ensures
        cards_view(r@) == cards_of(*data),
{
    let mut days = int_text(data.stats.total.active_days);
    days.append(" (");
    days.append(data.stats.total.total_day_ratio.as_str());
    days.append("%)");
    let mut streak = int_text(data.streaks.current_streak);
    streak.append(" days");
    let r = vec![
        Card {
            title: " Tracked time ".to_owned(),
            value: data.stats.total.total_seconds_hr.clone(),
            color: Color::Cyan,
        },
        Card {
            title: " Sessions ".to_owned(),
            value: int_text(data.stats.total.total_times),
            color: Color::Green,
        },
        Card { title: " Active days ".to_owned(), value: days, color: Color::Yellow },
        Card { title: " Current streak ".to_owned(), value: streak, color: Color::Magenta },
    ];
    assert(cards_view(r@) =~= cards_of(*data));
    r
}

fn draw_detail(data: &OverviewData) -> (r: String)
    ensures
        r@ == detail_of(*data),
{
    let mut r = " Since ".to_owned();
    r.append(data.stats.total.from_date.as_str());
    r.append("  ·  Mean ");
    r.append(data.stats.total.mean_usage_hr.as_str());
    r.append("  ·  Median ");
    r.append(data.distribution.median_seconds_hr.as_str());
    r.append("  ·  Last active ");
    r.append(data.streaks.last_active_time_hr.as_str());
    r.append(" ");
    r
}

fn draw_top(commands: &Vec<CommandStat>) -> (r: Vec<Vec<String>>)
    ensures
        grid(r@) == top_rows(commands@),
{
    let n: usize = if commands.len() < TOP_COMMANDS {
        commands.len()
    } else {
        TOP_COMMANDS
    };
    let mut r: Vec<Vec<String>> = Vec::new();
    for i in 0..n
        invariant
            n <= commands@.len(),
            r@.len() == i,
            forall|k: int|
                0 <= k < i ==> text::texts((#[trigger] r@[k])@) == top_cells(commands@[k]),
    {
        let row = vec![
            commands[i].command.clone(),
            commands[i].total_seconds_hr.clone(),
            int_text(commands[i].total_times),
        ];
        assert(text::texts(row@) =~= top_cells(commands@[i as int]));
        r.push(row);
    }
    assert(grid(r@) =~= top_rows(commands@));
    r
}

/// The heads of a table's columns.
fn table_header(a: &str, b: &str, c: &str, d: &str) -> (r: Vec<String>)
    ensures
        text::texts(r@) == seq![a@, b@, c@, d@],
{
    let r = vec![a.to_owned(), b.to_owned(), c.to_owned(), d.to_owned()];
    assert(text::texts(r@) =~= seq![a@, b@, c@, d@]);
    r
}

fn short_header(a: &str, b: &str, c: &str) -> (r: Vec<String>)
    ensures
        text::texts(r@) == seq![a@, b@, c@],
{
    let r = vec![a.to_owned(), b.to_owned(), c.to_owned()];
    assert(text::texts(r@) =~= seq![a@, b@, c@]);
    r
}

impl App {
    /// The overview.
    pub fn draw_overview(&self, now: i64) -> (r: Body)
        ensures
            r@ == overview_view(self@, now as int),
    {
        let data = match &self.overview {
            Some(data) => data,
            None => {
                return Body::Remark("No statistics loaded".to_owned());
            },
        };
        let rows = rows_from(&data.stats.past_n, 0, &self.timezone, now);
        assert(grid(rows@) =~= rows_of(data.stats.past_n@, self.timezone@, now as int));
        let recent = Sheet {
            title: " Recent activity ".to_owned(),
            header: table_header("Period", "Time", "Sessions", "Active days"),
            rows,
        };
        let commands = Sheet {
            title: " Top commands ".to_owned(),
            header: short_header("Top command", "Time", "Sessions"),
            rows: draw_top(&data.by_command),
        };
        Body::Figures { cards: draw_cards(data), detail: draw_detail(data), recent, commands }
    }
}

// ---------------------------------------------------------------------------------------------
// Breakdown
// ---------------------------------------------------------------------------------------------

/// The rows from an offset on.
pub open spec fn scrolled(rows: Seq<Seq<Seq<char>>>, offset: usize) -> Seq<Seq<Seq<char>>> {
    rows.skip(
        if offset < rows.len() {
            offset as int
        } else {
            rows.len() as int
        },
    )
}

/// A table of a breakdown.
pub open spec fn breakdown_sheet(
    title: Seq<char>,
    first: Seq<char>,
    rows: Seq<Seq<Seq<char>>>,
) -> SheetView {
    SheetView { title, header: seq![first, "Total time"@, "Sessions"@, "Mean time"@], rows }
}

/// The table of the chosen category.
pub open spec fn sheet_of(a: app::AppView, data: OverviewData, now: int) -> SheetView {
    let zone = a.timezone@;
    let offset = a.breakdown_offset;
    match a.breakdown_kind {
        BreakdownKind::Clients => breakdown_sheet(
            " By client "@,
            "Client"@,
            scrolled(rows_of(data.by_client@, zone, now), offset),
        ),
        BreakdownKind::Aliases => breakdown_sheet(
            " By alias "@,
            "Alias"@,
            scrolled(rows_of(data.by_alias@, zone, now), offset),
        ),
        BreakdownKind::Commands => breakdown_sheet(
            " By command "@,
            "Command"@,
            scrolled(rows_of(data.by_command@, zone, now), offset),
        ),
        BreakdownKind::Distribution => SheetView {
            title: " Durations · min "@ + data.distribution.min_seconds_hr@ + " · median "@
                + data.distribution.median_seconds_hr@ + " · mean "@
                + data.distribution.mean_seconds_hr@ + " · max "@
                + data.distribution.max_seconds_hr@ + " "@,
            header: seq!["Duration"@, "Sessions"@, "Share"@],
            rows: scrolled(rows_of(data.distribution.buckets@, zone, now), offset),
        },
    }
}

/// The text on a category's tab.
pub open spec fn category_text(i: int) -> Seq<char> {
    " "@ + BreakdownKind::order()[i].name() + " "@
}

/// The breakdown.
pub open spec fn breakdown_view(a: app::AppView, now: int) -> BodyView {
    match a.overview {
        None => BodyView::Remark("No statistics loaded"@),
        Some(data) => BodyView::Tabbed {
            strip: StripView {
                title: " Statistics breakdown "@,
                tabs: Seq::new(4, |i: int| category_text(i)),
                selected: a.breakdown_kind.place(),
            },
            sheet: sheet_of(a, data, now),
        },
    }
}

fn breakdown_table(title: &str, first: &str, rows: Vec<Vec<String>>) -> (r: Sheet)
    ensures
        r@ == breakdown_sheet(title@, first@, grid(rows@)),
{
    Sheet {
        title: title.to_owned(),
        header: table_header(first, "Total time", "Sessions", "Mean time"),
        rows,
    }
}

impl App {
    /// The table of the chosen category.
    fn draw_sheet(&self, data: &OverviewData, now: i64) -> (r: Sheet)
        ensures
            r@ == sheet_of(self@, *data, now as int),
    {
        let offset: usize = self.breakdown_offset;
        let zone = &self.timezone;
        match self.breakdown_kind {
            BreakdownKind::Clients => breakdown_table(
                " By client ",
                "Client",
                rows_from(&data.by_client, offset, zone, now),
            ),
            BreakdownKind::Aliases => breakdown_table(
                " By alias ",
                "Alias",
                rows_from(&data.by_alias, offset, zone, now),
            ),
            BreakdownKind::Commands => breakdown_table(
                " By command ",
                "Command",
                rows_from(&data.by_command, offset, zone, now),
            ),
            BreakdownKind::Distribution => {
                let mut title = " Durations · min ".to_owned();
                title.append(data.distribution.min_seconds_hr.as_str());
                title.append(" · median ");
                title.append(data.distribution.median_seconds_hr.as_str());
                title.append(" · mean ");
                title.append(data.distribution.mean_seconds_hr.as_str());
                title.append(" · max ");
                title.append(data.distribution.max_seconds_hr.as_str());
                title.append(" ");
                Sheet {
                    title,
                    header: short_header("Duration", "Sessions", "Share"),
                    rows: rows_from(&data.distribution.buckets, offset, zone, now),
                }
            },
        }
    }

    /// The breakdown.
    pub fn draw_breakdown(&self, now: i64) -> (r: Body)
        ensures
            r@ == breakdown_view(self@, now as int),
    {
        let data = match &self.overview {
            Some(data) => data,
            None => {
                return Body::Remark("No statistics loaded".to_owned());
            },
        };
        let all = BreakdownKind::all();
        let mut names: Vec<String> = Vec::new();
        for i in 0..all.len()
            invariant
                all@ == BreakdownKind::order(),
                names@.len() == i,
                forall|k: int| 0 <= k < i ==> #[trigger] names@[k]@ == category_text(k),
        {
            let mut name = " ".to_owned();
            name.append(all[i].title());
            name.append(" ");
            names.push(name);
        }
        let strip = Strip {
            title: " Statistics breakdown ".to_owned(),
            tabs: names,
            selected: self.breakdown_kind.index(),
        };
        assert(strip@.tabs =~= Seq::new(4, |i: int| category_text(i)));
        Body::Tabbed { strip, sheet: self.draw_sheet(data, now) }
    }
}

// ---------------------------------------------------------------------------------------------
// Records, running sessions and tokens
// ---------------------------------------------------------------------------------------------

/// The records.
pub open spec fn records_view(a: app::AppView, now: int) -> BodyView {
    BodyView::List {
        sheet: SheetView {
            title: " Records · page "@ + text::dec(a.records_page as int) + "/"@ + text::dec(
                selection::pages(a.records_total as int, a.page_size as int),
            ) + " · "@ + text::dec(a.records_total as int) + " total "@,
            header: seq![
                "ID"@,
                "Started"@,
                "Client"@,
                "Duration"@,
                "Alias"@,
                "Command"@,
                "Status"@,
            ],
            rows: rows_of(a.records, a.timezone@, now),
        },
        selected: a.records_row,
    }
}

/// The running sessions.
pub open spec fn active_view(a: app::AppView, now: int) -> BodyView {
    BodyView::List {
        sheet: SheetView {
            title: " Active sessions · "@ + text::dec(a.active.len() as int) + " "@,
            header: seq!["ID"@, "Started"@, "Client"@, "Elapsed"@, "Alias"@, "Command"@],
            rows: rows_of(a.active, a.timezone@, now),
        },
        selected: a.active_row,
    }
}

/// The tokens.
pub open spec fn tokens_view(a: app::AppView, now: int) -> BodyView {
    BodyView::List {
        sheet: SheetView {
            title: " API tokens · "@ + text::dec(a.tokens.len() as int) + " "@,
            header: seq!["Token"@, "Client"@, "Description"@, "Created"@],
            rows: rows_of(a.tokens, a.timezone@, now),
        },
        selected: a.tokens_row,
    }
}

/// A number of things, in words.
fn count_text(n: usize) -> (r: String)
    ensures
        r@ == text::dec(n as int),
{
    text::nat_text(n as u64)
}

impl App {
    /// The records.
    pub fn draw_records(&self, now: i64) -> (r: Body)
        requires
            self@.wf(),
        ensures
            r@ == records_view(self@, now as int),
    {
        let rows = rows_from(&self.records, 0, &self.timezone, now);
        assert(grid(rows@) =~= rows_of(self.records@, self.timezone@, now as int));
        let pages = total_pages(self.records_total, self.page_size);
        let mut title = " Records · page ".to_owned();
        title.append(int_text(self.records_page).as_str());
        title.append("/");
        title.append(int_text(pages).as_str());
        title.append(" · ");
        title.append(int_text(self.records_total).as_str());
        title.append(" total ");
        let header = vec![
            "ID".to_owned(),
            "Started".to_owned(),
            "Client".to_owned(),
            "Duration".to_owned(),
            "Alias".to_owned(),
            "Command".to_owned(),
            "Status".to_owned(),
        ];
        assert(text::texts(header@) =~= seq![
            "ID"@,
            "Started"@,
            "Client"@,
            "Duration"@,
            "Alias"@,
            "Command"@,
            "Status"@,
        ]);
        Body::List {
            sheet: Sheet { title, header, rows },
            selected: self.records_state.selected(),
        }
    }

    /// The running sessions.
    pub fn draw_active(&self, now: i64) -> (r: Body)
        ensures
            r@ == active_view(self@, now as int),
    {
        let rows = rows_from(&self.active, 0, &self.timezone, now);
        assert(grid(rows@) =~= rows_of(self.active@, self.timezone@, now as int));
        let mut title = " Active sessions · ".to_owned();
        title.append(count_text(self.active.len()).as_str());
        title.append(" ");
        let header = vec![
            "ID".to_owned(),
            "Started".to_owned(),
            "Client".to_owned(),
            "Elapsed".to_owned(),
            "Alias".to_owned(),
            "Command".to_owned(),
        ];
        assert(text::texts(header@) =~= seq![
            "ID"@,
            "Started"@,
            "Client"@,
            "Elapsed"@,
            "Alias"@,
            "Command"@,
        ]);
        Body::List { sheet: Sheet { title, header, rows }, selected: self.active_state.selected() }
    }

    /// The tokens.
    pub fn draw_tokens(&self, now: i64) -> (r: Body)
        ensures
            r@ == tokens_view(self@, now as int),
    {
        let rows = rows_from(&self.tokens, 0, &self.timezone, now);
        assert(grid(rows@) =~= rows_of(self.tokens@, self.timezone@, now as int));
        let mut title = " API tokens · ".to_owned();
        title.append(count_text(self.tokens.len()).as_str());
        title.append(" ");
        Body::List {
            sheet: Sheet {
                title,
                header: table_header("Token", "Client", "Description", "Created"),
                rows,
            },
            selected: self.tokens_state.selected(),
        }
    }
}

// ---------------------------------------------------------------------------------------------
// What lies over the view
// ---------------------------------------------------------------------------------------------

/// A piece of a line without colour.
pub open spec fn plain(text: Seq<char>) -> SpanView {
    SpanView { text, color: Color::Plain, bold: false }
}

/// Lines without colour.
pub open spec fn plain_lines(lines: Seq<Seq<char>>) -> Seq<Seq<SpanView>> {
    lines.map_values(|line: Seq<char>| seq![plain(line)])
}

/// The lines of the help.
pub open spec fn help_lines() -> Seq<Seq<char>> {
    seq![
        "Navigation"@,
        "  1–5 / Tab   switch views"@,
        "  ↑/↓ / j/k   select or scroll"@,
        "  [ / ]       change client filter"@,
        "  r           refresh (automatic every 10s)"@,
        "  q / Ctrl-C  quit"@,
        "View actions"@,
        "  Breakdown   ←/→ category"@,
        "  Records     ←/→ page · d delete"@,
        "  Active      e end · d discard"@,
        "  Tokens      n new · d revoke"@,
        "Esc / Enter / ? closes this help."@,
    ]
}

/// A field of the form: its name, which stands out where the field is being filled in, its text,
/// and the cursor.
pub open spec fn field_line(name: Seq<char>, value: Seq<char>, active: bool) -> Seq<SpanView> {
    seq![
        if active {
            SpanView { text: name, color: Color::Cyan, bold: true }
        } else {
            SpanView { text: name, color: Color::Gray, bold: false }
        },
        plain(value),
        SpanView {
            text: if active {
                "█"@
            } else {
                ""@
            },
            color: Color::Cyan,
            bold: true,
        },
    ]
}

/// What lies over the view.
pub open spec fn overlay_view(overlay: app::OverlayView) -> PopupView {
    match overlay {
        app::OverlayView::Help => PopupView {
            width_percent: 82,
            height_percent: 92,
            title: " Keyboard help "@,
            border: Color::Cyan,
            centered: false,
            trimmed: false,
            lines: plain_lines(help_lines()),
        },
        app::OverlayView::Confirm(action) => PopupView {
            width_percent: 68,
            height_percent: 50,
            title: " Confirm admin action "@,
            border: Color::Red,
            centered: true,
            trimmed: true,
            lines: seq![
                seq![plain(""@)],
                seq![plain(app::question(action))],
                seq![plain(""@)],
                seq![
                    SpanView { text: " y / Enter "@, color: Color::Red, bold: false },
                    plain("confirm    "@),
                    SpanView { text: " n / Esc "@, color: Color::Green, bold: false },
                    plain("cancel"@),
                ],
            ],
        },
        app::OverlayView::TokenForm { field, client_id, description } => PopupView {
            width_percent: 74,
            height_percent: 65,
            title: " Generate API token "@,
            border: Color::Cyan,
            centered: false,
            trimmed: false,
            lines: seq![
                seq![plain(""@)],
                field_line(" Client ID   "@, client_id, field == TokenField::ClientId),
                seq![plain(""@)],
                field_line(" Description "@, description, field == TokenField::Description),
                seq![plain(""@)],
                seq![
                    plain(
                        "Tab changes field · Ctrl-U clears · Enter advances/creates · Esc cancels"@,
                    ),
                ],
            ],
        },
        app::OverlayView::TokenCreated(token) => PopupView {
            width_percent: 80,
            height_percent: 50,
            title: " API token created "@,
            border: Color::Green,
            centered: true,
            trimmed: false,
            lines: seq![
                seq![plain(""@)],
                seq![plain("Token generated. Save it now:"@)],
                seq![plain(""@)],
                seq![SpanView { text: token, color: Color::Green, bold: true }],
                seq![plain(""@)],
                seq![plain("Press Enter or Esc to close."@)],
            ],
        },
    }
}

fn span(text: &str, color: Color, bold: bool) -> (r: Span)
    ensures
        r@ == (SpanView { text: text@, color, bold }),
{
    Span { text: text.to_owned(), color, bold }
}

fn raw(text: &str) -> (r: Span)
    ensures
        r@ == plain(text@),
{
    span(text, Color::Plain, false)
}

/// Appends a line of one piece.
fn add_span(lines: &mut Vec<Vec<Span>>, piece: Span)
    ensures
        lines_view(final(lines)@) == lines_view(old(lines)@).push(seq![piece@]),
{
    let ghost before = lines@;
    let mut line: Vec<Span> = Vec::new();
    line.push(piece);
    assert(line_view(line@) =~= seq![piece@]);
    lines.push(line);
    assert(lines_view(lines@) =~= lines_view(before).push(seq![piece@]));
}

/// Appends a line without colour.
fn add_text(lines: &mut Vec<Vec<Span>>, text: &str)
    ensures
        lines_view(final(lines)@) == lines_view(old(lines)@).push(seq![plain(text@)]),
{
    add_span(lines, raw(text));
}

/// Appends a field of the form.
fn add_field(lines: &mut Vec<Vec<Span>>, name: &str, value: &str, active: bool)
    ensures
        lines_view(final(lines)@) == lines_view(old(lines)@).push(
            field_line(name@, value@, active),
        ),
{
    let ghost before = lines@;
    let line = vec![
        if active {
            span(name, Color::Cyan, true)
        } else {
            span(name, Color::Gray, false)
        },
        raw(value),
        span(
            if active {
                "█"
            } else {
                ""
            },
            Color::Cyan,
            true,
        ),
    ];
    assert(line_view(line@) =~= field_line(name@, value@, active));
    lines.push(line);
    assert(lines_view(lines@) =~= lines_view(before).push(field_line(name@, value@, active)));
}

fn draw_help() -> (r: Vec<Vec<Span>>)
    ensures
        lines_view(r@) == plain_lines(help_lines()),
{
    let mut lines: Vec<Vec<Span>> = Vec::new();
    add_text(&mut lines, "Navigation");
    add_text(&mut lines, "  1–5 / Tab   switch views");
    add_text(&mut lines, "  ↑/↓ / j/k   select or scroll");
    add_text(&mut lines, "  [ / ]       change client filter");
    add_text(&mut lines, "  r           refresh (automatic every 10s)");
    add_text(&mut lines, "  q / Ctrl-C  quit");
    add_text(&mut lines, "View actions");
    add_text(&mut lines, "  Breakdown   ←/→ category");
    add_text(&mut lines, "  Records     ←/→ page · d delete");
    add_text(&mut lines, "  Active      e end · d discard");
    add_text(&mut lines, "  Tokens      n new · d revoke");
    add_text(&mut lines, "Esc / Enter / ? closes this help.");
    assert(lines_view(lines@) =~= plain_lines(help_lines()));
    lines
}

fn draw_confirm(action: &AdminAction) -> (r: Popup)
    ensures
        r@ == overlay_view(app::OverlayView::Confirm(action@)),
{
    let mut lines: Vec<Vec<Span>> = Vec::new();
    add_text(&mut lines, "");
    add_text(&mut lines, action.prompt().as_str());
    add_text(&mut lines, "");
    let ghost before = lines@;
    let keys = vec![
        span(" y / Enter ", Color::Red, false),
        raw("confirm    "),
        span(" n / Esc ", Color::Green, false),
        raw("cancel"),
    ];
    let ghost shown = seq![
        SpanView { text: " y / Enter "@, color: Color::Red, bold: false },
        plain("confirm    "@),
        SpanView { text: " n / Esc "@, color: Color::Green, bold: false },
        plain("cancel"@),
    ];
    assert(line_view(keys@) =~= shown);
    lines.push(keys);
    assert(lines_view(lines@) =~= lines_view(before).push(shown));
    let r = Popup {
        width_percent: 68,
        height_percent: 50,
        title: " Confirm admin action ".to_owned(),
        border: Color::Red,
        centered: true,
        trimmed: true,
        lines,
    };
    assert(r@.lines =~= overlay_view(app::OverlayView::Confirm(action@)).lines);
    r
}

fn draw_form(field: TokenField, client_id: &str, description: &str) -> (r: Popup)
    ensures
        r@ == overlay_view(
            (app::OverlayView::TokenForm {
                field,
                client_id: client_id@,
                description: description@,
            }),
        ),
{
    let mut lines: Vec<Vec<Span>> = Vec::new();
    add_text(&mut lines, "");
    add_field(&mut lines, " Client ID   ", client_id, field == TokenField::ClientId);
    add_text(&mut lines, "");
    add_field(&mut lines, " Description ", description, field == TokenField::Description);
    add_text(&mut lines, "");
    add_text(
        &mut lines,
        "Tab changes field · Ctrl-U clears · Enter advances/creates · Esc cancels",
    );
    let r = Popup {
        width_percent: 74,
        height_percent: 65,
        title: " Generate API token ".to_owned(),
        border: Color::Cyan,
        centered: false,
        trimmed: false,
        lines,
    };
    let ghost whole = overlay_view(
        app::OverlayView::TokenForm { field, client_id: client_id@, description: description@ },
    );
    assert(r@.lines =~= whole.lines);
    r
}

fn draw_created(token: &str) -> (r: Popup)
    ensures
        r@ == overlay_view(app::OverlayView::TokenCreated(token@)),
{
    let mut lines: Vec<Vec<Span>> = Vec::new();
    add_text(&mut lines, "");
    add_text(&mut lines, "Token generated. Save it now:");
    add_text(&mut lines, "");
    add_span(&mut lines, span(token, Color::Green, true));
    add_text(&mut lines, "");
    add_text(&mut lines, "Press Enter or Esc to close.");
    let r = Popup {
        width_percent: 80,
        height_percent: 50,
        title: " API token created ".to_owned(),
        border: Color::Green,
        centered: true,
        trimmed: false,
        lines,
    };
    assert(r@.lines =~= overlay_view(app::OverlayView::TokenCreated(token@)).lines);
    r
}

// ---------------------------------------------------------------------------------------------
// The whole
// ---------------------------------------------------------------------------------------------

/// The remark on a terminal that is too small.
pub open spec fn small_text(width: int, height: int) -> Seq<char> {
    "Terminal is too small ("@ + text::dec(width) + "x"@ + text::dec(height)
        + ").\nResize to at least 60x16.\n\nPress q to quit."@
}

/// What the terminal shows.
pub open spec fn picture(a: app::AppView, width: u16, height: u16, now: int) -> PictureView {
    if width < 60 || height < 16 {
        PictureView::Small {
            title: " TSPAN Admin "@,
            remark: small_text(width as int, height as int),
        }
    } else {
        PictureView::Full {
            header: header_view(a),
            body: match a.view {
                tabs::View::Overview => overview_view(a, now),
                tabs::View::Breakdown => breakdown_view(a, now),
                tabs::View::Records => records_view(a, now),
                tabs::View::Active => active_view(a, now),
                tabs::View::Tokens => tokens_view(a, now),
            },
            help: help_text(a.view),
            notice: notice_view(a.notice),
            popup: match a.overlay {
                Some(overlay) => Some(overlay_view(overlay)),
                None => None,
            },
        }
    }
}

impl App {
    /// What lies over the view.
    pub fn draw_overlay(&self) -> (r: Option<Popup>)
        ensures
            opt_popup(r) == match self@.overlay {
                Some(overlay) => Some(overlay_view(overlay)),
                None => None,
            },
    {
        match &self.overlay {
            Some(Overlay::Help) => Some(
                Popup {
                    width_percent: 82,
                    height_percent: 92,
                    title: " Keyboard help ".to_owned(),
                    border: Color::Cyan,
                    centered: false,
                    trimmed: false,
                    lines: draw_help(),
                },
            ),
            Some(Overlay::Confirm(action)) => Some(draw_confirm(action)),
            Some(Overlay::TokenForm { field, client_id, description }) => Some(
                draw_form(*field, client_id.as_str(), description.as_str()),
            ),
            Some(Overlay::TokenCreated(token)) => Some(draw_created(token.as_str())),
            None => None,
        }
    }

    /// What a terminal of the given size shows.
    pub fn draw(&self, width: u16, height: u16, now: i64) -> (r: Picture)
        requires
            self@.wf(),
        ensures
            r@ == picture(self@, width, height, now as int),
    {
        if width < 60 || height < 16 {
            let mut remark = "Terminal is too small (".to_owned();
            remark.append(int_text(width as i64).as_str());
            remark.append("x");
            remark.append(int_text(height as i64).as_str());
            remark.append(").\nResize to at least 60x16.\n\nPress q to quit.");
            return Picture::Small { title: " TSPAN Admin ".to_owned(), remark };
        }
        let body = match self.view {
            tabs::View::Overview => self.draw_overview(now),
            tabs::View::Breakdown => self.draw_breakdown(now),
            tabs::View::Records => self.draw_records(now),
            tabs::View::Active => self.draw_active(now),
            tabs::View::Tokens => self.draw_tokens(now),
        };
        let (help, notice) = self.draw_footer();
        Picture::Full {
            header: self.draw_header(),
            body,
            help,
            notice,
            popup: self.draw_overlay(),
        }
    }
}

} // verus!
