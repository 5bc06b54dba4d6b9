use vstd::prelude::*;

use crate::calendar::{
    buttons_bounded, calendar_buttons, calendar_draw_ops, calendar_resting, calendar_selected_at,
    get_weekdays, lemma_calendar_buttons_wf, lemma_select_from_selected, lemma_unselect_rests,
    move_target, select_ops, select_state, unselect_ops, unselect_state, Calendar, CalendarView,
};
use crate::config::{Config, Key};
use crate::date::{
    add_days, day_index, day_number, day_text, day_text_of, lemma_max_day_index,
    lemma_month_floor, lemma_month_pred_index, lemma_month_succ_index, max_date, min_date,
    month_add, month_index, month_length, month_pred_spec, month_succ_spec, sub_days, today,
    valid_date, Date, MAX_YEAR, MIN_YEAR,
};
use crate::position::{Direction, Position};
use crate::terminal::{Color, Formatter, OpView};

verus! {

/// Whether a screen point falls inside the rectangle spanned by the two
/// corners, borders included.
pub open spec fn point_in_rect(p: Position, start: Position, end: Position) -> bool {
    &&& p.x >= start.x
    &&& p.y >= start.y
    &&& p.x <= end.x
    &&& p.y <= end.y
}

/// A rectangular screen element that can be hit-tested.
pub trait Widget {
    spec fn start_spec(&self) -> Position;

    spec fn end_spec(&self) -> Position;

    fn get_start(&self) -> (r: Position)
        ensures
            r == self.start_spec(),
    ;

    fn get_end(&self) -> (r: Position)
        ensures
            r == self.end_spec(),
    ;

    fn is_hovered(&self, position: Position) -> (r: bool)
        ensures
            r == point_in_rect(position, self.start_spec(), self.end_spec()),
    {
        position.get_x() >= self.get_start().get_x() && position.get_y()
            >= self.get_start().get_y() && position.get_x() <= self.get_end().get_x()
            && position.get_y() <= self.get_end().get_y()
    }
}

/// A button's payload: a month-header text or a single day of a month.
pub enum ButtonType {
    TextButton(String),
    CalanderDate(Date),
}

pub enum ButtonTypeView {
    TextButton(Seq<char>),
    CalanderDate(Date),
}

impl View for ButtonType {
    type V = ButtonTypeView;

    open spec fn view(&self) -> ButtonTypeView {
        match self {
            ButtonType::TextButton(t) => ButtonTypeView::TextButton(t@),
            ButtonType::CalanderDate(d) => ButtonTypeView::CalanderDate(*d),
        }
    }
}

/// A rectangle with a payload and its two current colors. The colors are
/// the only mutable part: the selection router swaps them to show or hide
/// the highlight.
pub struct Button {
    pub button_data: ButtonType,
    pub start_position: Position,
    pub end_position: Position,
    pub bg_color: Color,
    pub fg_color: Color,
}

pub struct ButtonView {
    pub button_data: ButtonTypeView,
    pub start_position: Position,
    pub end_position: Position,
    pub bg_color: Color,
    pub fg_color: Color,
}

impl View for Button {
    type V = ButtonView;

    open spec fn view(&self) -> ButtonView {
        ButtonView {
            button_data: self.button_data@,
            start_position: self.start_position,
            end_position: self.end_position,
            bg_color: self.bg_color,
            fg_color: self.fg_color,
        }
    }
}

/// The draw primitives of a header button: its filled box, then its text
/// centered on the box.
pub open spec fn text_button_ops(b: ButtonView, text: Seq<char>) -> Seq<OpView> {
    let mid_x = (b.end_position.x + b.start_position.x) as int / 2;
    let half = text.len() as int / 2;
    let cx = if mid_x >= half {
        mid_x - half
    } else {
        mid_x
    };
    let cy = (b.end_position.y + b.start_position.y) as int / 2;
    seq![
        OpView::FillRect(b.start_position, b.end_position, b.bg_color),
        OpView::MoveTo(Position { x: cx as u16, y: cy as u16 }),
        OpView::Bg(b.bg_color),
        OpView::Fg(b.fg_color),
        OpView::Text(text),
    ]
}

/// The draw primitives of a day button: its two-cell day number at its
/// position, in its colors.
pub open spec fn calendar_date_ops(b: ButtonView, d: Date) -> Seq<OpView> {
    seq![
        OpView::MoveTo(b.start_position),
        OpView::Bg(b.bg_color),
        OpView::Fg(b.fg_color),
        OpView::Text(day_text(d.day as int)),
    ]
}

pub open spec fn button_ops(b: ButtonView) -> Seq<OpView> {
    match b.button_data {
        ButtonTypeView::TextButton(t) => text_button_ops(b, t),
        ButtonTypeView::CalanderDate(d) => calendar_date_ops(b, d),
    }
}

impl Widget for Button {
    open spec fn start_spec(&self) -> Position {
        self.start_position
    }

    open spec fn end_spec(&self) -> Position {
        self.end_position
    }

    fn get_start(&self) -> (r: Position)
        ensures
            r == self.start_spec(),
    {
        self.start_position
    }

    fn get_end(&self) -> (r: Position)
        ensures
            r == self.end_spec(),
    {
        self.end_position
    }
}

impl Button {
    fn draw_text_button(&self, text: &String) -> (r: Formatter)
        requires
            self.button_data@ == ButtonTypeView::TextButton(text@),
        ensures
            r@ == button_ops(self@),
    {
        let mid_x: u32 = (self.end_position.x as u32 + self.start_position.x as u32) / 2;
        let half: usize = text.as_str().unicode_len() / 2;
        let cx: u32 = if mid_x as u64 >= half as u64 {
            mid_x - half as u32
        } else {
            mid_x
        };
        let cy: u32 = (self.end_position.y as u32 + self.start_position.y as u32) / 2;
        let r = Formatter::new().create_box(
            &self.start_position,
            &self.end_position,
            &self.bg_color,
        ).go_to(Position::new(cx as u16, cy as u16)).bg_color(&self.bg_color).fg_color(
            &self.fg_color,
        ).text(text.clone());
        proof {
            assert(r@ =~= button_ops(self@));
        }
        r
    }

    fn draw_calendar_date(&self, date: &Date) -> (r: Formatter)
        requires
            self.button_data@ == ButtonTypeView::CalanderDate(*date),
            date.day <= 31,
        ensures
            r@ == button_ops(self@),
    {
        let r = Formatter::new().go_to(self.start_position).bg_color(&self.bg_color).fg_color(
            &self.fg_color,
        ).text(day_text_of(date.day));
        proof {
            assert(r@ =~= button_ops(self@));
        }
        r
    }

    /// The draw primitives that paint this button as it currently looks.
    pub fn draw_format(&self) -> (r: Formatter)
        requires
            button_day_bounded(self@),
        ensures
            r@ == button_ops(self@),
    {
        match &self.button_data {
            ButtonType::TextButton(text) => {
                let t = text.clone();
                self.draw_text_button(&t)
            },
            ButtonType::CalanderDate(date) => {
                let d = *date;
                self.draw_calendar_date(&d)
            },
        }
    }
}

/// A day payload fits in its two text cells.
pub open spec fn button_day_bounded(b: ButtonView) -> bool {
    match b.button_data {
        ButtonTypeView::CalanderDate(d) => d.day <= 31,
        ButtonTypeView::TextButton(t) => true,
    }
}

/// A fixed line of text at a position, in one color.
pub struct TextBox {
    pub text: String,
    pub position: Position,
    pub color: Color,
}

pub open spec fn text_box_ops(text: Seq<char>, position: Position, color: Color) -> Seq<OpView> {
    seq![OpView::MoveTo(position), OpView::Bg(color), OpView::Text(text)]
}

impl TextBox {
    pub fn new(text: String, position: Position, color: Color) -> (r: Self)
        ensures
            r.text@ == text@,
            r.position == position,
            r.color == color,
    {
        TextBox { text, position, color }
    }

    pub fn draw_format(&self) -> (r: Formatter)
        ensures
            r@ == text_box_ops(self.text@, self.position, self.color),
    {
        let r = Formatter::new().go_to(self.position).bg_color(&self.color).text(
            self.text.clone(),
        );
        proof {
            assert(r@ =~= text_box_ops(self.text@, self.position, self.color));
        }
        r
    }
}

// ---------------------------------------------------------------------------
// Layout planner
// ---------------------------------------------------------------------------
/// How many tile columns fit: each tile with its gutter strides 24 cells.
pub open spec fn grid_cols(bounds: Position) -> int {
    bounds.x as int / 24
}

/// How many tile rows fit: each tile with its gutter strides 14 cells.
pub open spec fn grid_rows(bounds: Position) -> int {
    bounds.y as int / 14
}

/// The top-left cell of slot `k` in a row-major grid with `columns` tile
/// columns.
pub open spec fn slot_pos(columns: int, k: int) -> Position {
    Position { x: (1 + 24 * (k % columns)) as u16, y: (1 + 14 * (k / columns)) as u16 }
}

/// One month tile per 24x14 cell block: the tile count in each axis is
/// maximal, and zero when the terminal is smaller than one tile.
pub fn get_columns(bounds: &Position) -> (r: usize)
    ensures
        24 * r <= bounds.x,
        24 * (r + 1) > bounds.x,
        r == grid_cols(*bounds),
{
    let mut count: usize = 0;
    let mut x: u32 = 1;
    while x + 23 <= bounds.x as u32
        invariant
            x == 24 * count + 1,
            x <= bounds.x + 1,
        decreases bounds.x + 1 - x,
    {
        count = count + 1;
        x = x + 24;
    }
    proof {
        assert(count == bounds.x as int / 24) by (nonlinear_arith)
            requires
                24 * count <= bounds.x,
                24 * (count + 1) > bounds.x,
                0 <= count,
        ;
    }
    count
}

pub fn get_rows(bounds: &Position) -> (r: usize)
    ensures
        14 * r <= bounds.y,
        14 * (r + 1) > bounds.y,
        r == grid_rows(*bounds),
{
    let mut count: usize = 0;
    let mut y: u32 = 1;
    while y + 13 <= bounds.y as u32
        invariant
            y == 14 * count + 1,
            y <= bounds.y + 1,
        decreases bounds.y + 1 - y,
    {
        count = count + 1;
        y = y + 14;
    }
    proof {
        assert(count == bounds.y as int / 14) by (nonlinear_arith)
            requires
                14 * count <= bounds.y,
                14 * (count + 1) > bounds.y,
                0 <= count,
        ;
    }
    count
}

/// The bounded worker pool size: the configured cap, or the larger grid
/// axis when that is smaller.
pub fn worker_count(config: &Config, rows: usize, columns: usize) -> (r: usize)
    ensures
        r == (if rows > config.max_threads || columns > config.max_threads {
            config.max_threads as int
        } else if rows >= columns {
            rows as int
        } else {
            columns as int
        }),
{
    let threads = config.max_threads;
    if rows > threads || columns > threads {
        threads
    } else if rows >= columns {
        rows
    } else {
        columns
    }
}

// ---------------------------------------------------------------------------
// Concurrent builder: the claim-ticket cursor
// ---------------------------------------------------------------------------
/// The shared build cursor. A worker holds the lock only long enough to
/// claim the next (month, position, slot) ticket and advance the cursor;
/// it builds the claimed tile outside the lock.
pub struct BuildCursor {
    pub date: Date,
    pub position: Position,
    pub index: usize,
}

/// The cursor after one claim: the next month, the position one tile
/// stride to the right - or at the start of the next tile row when the
/// claimed slot closed a row - and the next slot index.
pub open spec fn cursor_next(c: BuildCursor, columns: int) -> BuildCursor {
    BuildCursor {
        date: month_succ_spec(c.date),
        position: if columns > 0 && ((c.index + 1) as int % columns == 0) {
            Position { x: 1, y: (c.position.y + 14) as u16 }
        } else {
            Position { x: (c.position.x + 24) as u16, y: c.position.y }
        },
        index: (c.index + 1) as usize,
    }
}

/// The cursor after `k` claims.
pub open spec fn cursor_iter(c: BuildCursor, columns: int, k: int) -> BuildCursor
    decreases k,
{
    if k <= 0 {
        c
    } else {
        cursor_next(cursor_iter(c, columns, k - 1), columns)
    }
}

pub open spec fn initial_cursor(anchor: Date) -> BuildCursor {
    BuildCursor { date: anchor, position: Position { x: 1, y: 1 }, index: 0 }
}

impl BuildCursor {
    pub fn new(anchor: Date) -> (r: Self)
        ensures
            r == initial_cursor(anchor),
    {
        BuildCursor { date: anchor, position: Position { x: 1, y: 1 }, index: 0 }
    }

    /// Claim the next ticket and advance the cursor; this is the step a
    /// worker performs under the lock. Tickets are issued in slot order,
    /// whichever worker asks.
    pub fn claim(&mut self, columns: usize) -> (ticket: (Date, Position, usize))
        requires
            valid_date(old(self).date),
            !(old(self).date.year == MAX_YEAR && old(self).date.month == 12),
            columns >= 1,
            old(self).index < usize::MAX,
            ((old(self).index + 1) as int % (columns as int) == 0) ==> old(self).position.y + 14
                <= u16::MAX,
            ((old(self).index + 1) as int % (columns as int) != 0) ==> old(self).position.x + 24
                <= u16::MAX,
        ensures
            ticket.0 == old(self).date,
            ticket.1 == old(self).position,
            ticket.2 == old(self).index,
            *final(self) == cursor_next(*old(self), columns as int),
    {
        let date = self.date;
        let position = self.position;
        let index = self.index;
        self.date = crate::date::month_succ(&self.date);
        self.index = index + 1;
        if columns > 0 && self.index % columns == 0 {
            self.position = Position::new(1, position.get_y() + 14);
        } else {
            self.position = Position::new(position.get_x() + 24, position.get_y());
        }
        (date, position, index)
    }
}

/// The scheduling-independence of the claim protocol: whatever the worker
/// interleaving, the `k`-th ticket issued is the `k`-th month after the
/// anchor, at the row-major position of slot `k`, for slot `k`.
pub proof fn lemma_ticket_deterministic(anchor: Date, columns: int, k: int)
    requires
        valid_date(anchor),
        anchor.day == 1,
        0 <= k,
        columns >= 1,
        month_index(anchor) + k <= month_index(Date { year: MAX_YEAR, month: 12, day: 1 }),
        1 + 24 * (columns - 1) + 24 <= u16::MAX,
        1 + 14 * (k / columns) + 14 <= u16::MAX,
    ensures
        cursor_iter(initial_cursor(anchor), columns, k).date == month_add(anchor, k),
        cursor_iter(initial_cursor(anchor), columns, k).position == slot_pos(columns, k),
        cursor_iter(initial_cursor(anchor), columns, k).index == k,
    decreases k,
{
    lemma_month_add_valid(anchor, k);
    if k > 0 {
        assert(1 + 14 * ((k - 1) / columns) + 14 <= u16::MAX) by (nonlinear_arith)
            requires
                columns >= 1,
                0 <= k - 1,
                1 + 14 * (k / columns) + 14 <= u16::MAX,
        ;
        lemma_ticket_deterministic(anchor, columns, k - 1);
        let prev = cursor_iter(initial_cursor(anchor), columns, k - 1);
        assert(prev.index == k - 1);
        assert(prev.position == slot_pos(columns, k - 1));
        if k as int % columns == 0 {
            assert(slot_pos(columns, k).x == 1 && slot_pos(columns, k).y == 1 + 14 * (k
                / columns)) by (nonlinear_arith)
                requires
                    columns >= 1,
                    k >= 1,
                    k % columns == 0,
                    1 + 14 * (k / columns) + 14 <= u16::MAX,
                    1 + 24 * (columns - 1) + 24 <= u16::MAX,
            ;
            assert((k - 1) / columns == k / columns - 1 && (k - 1) % columns == columns - 1)
                by (nonlinear_arith)
                requires
                    columns >= 1,
                    k >= 1,
                    k % columns == 0,
            ;
        } else {
            assert((k - 1) / columns == k / columns && (k - 1) % columns == k % columns - 1)
                by (nonlinear_arith)
                requires
                    columns >= 1,
                    k >= 1,
                    k % columns != 0,
            ;
        }
        assert(0 <= (k - 1) % columns < columns && 0 <= k % columns < columns) by (nonlinear_arith)
            requires
                columns >= 1,
                k >= 1,
        ;
    }
}

/// Month stepping stays inside the supported range while index headroom
/// remains.
pub proof fn lemma_month_add_valid(anchor: Date, k: int)
    requires
        valid_date(anchor),
        anchor.day == 1,
        0 <= k,
        month_index(anchor) + k <= month_index(Date { year: MAX_YEAR, month: 12, day: 1 }),
    ensures
        valid_date(month_add(anchor, k)),
        month_add(anchor, k).day == 1,
        month_index(month_add(anchor, k)) == month_index(anchor) + k,
        k > 0 ==> month_add(anchor, k) == month_succ_spec(month_add(anchor, k - 1)),
    decreases k,
{
    if k > 0 {
        lemma_month_add_valid(anchor, k - 1);
    }
}

// ---------------------------------------------------------------------------
// Orchestrator state
// ---------------------------------------------------------------------------
/// The orchestrator's state: terminal bounds, configuration, the tile grid
/// and the one weekday strip shared by every tile.
pub struct Tui {
    pub bounds: Position,
    pub config: Config,
    pub calendars: Vec<Calendar>,
    pub weekdays: TextBox,
    pub quit: bool,
}

pub open spec fn grid(t: Tui) -> Seq<CalendarView> {
    t.calendars@.map_values(|c: Calendar| c@)
}

/// A tile the router may work on: a valid month-start date, at least the
/// header button, a cursor inside the button list, day payloads in range,
/// and room under the header for the weekday strip.
pub open spec fn cal_wf(c: CalendarView) -> bool {
    &&& valid_date(c.start_date)
    &&& c.start_date.day == 1
    &&& c.buttons.len() >= 1
    &&& 0 <= c.cursor < c.buttons.len()
    &&& buttons_bounded(c)
    &&& c.start.y + 1 <= u16::MAX
}

/// The grid invariant: one tile per planner slot, each well formed.
pub open spec fn tui_wf(t: Tui) -> bool {
    &&& grid(t).len() == grid_rows(t.bounds) * grid_cols(t.bounds)
    &&& forall|k: int| 0 <= k < grid(t).len() ==> cal_wf(#[trigger] grid(t)[k])
}

/// The tile a finished build leaves in slot `k`: the `k`-th month after
/// the anchor, at the row-major slot position, fully built and resting.
pub open spec fn built_calendar(config: Config, anchor: Date, columns: int, k: int) -> CalendarView {
    let pos = slot_pos(columns, k);
    CalendarView {
        start_date: month_add(anchor, k),
        start: pos,
        end: Position { x: (pos.x + 21) as u16, y: (pos.y + 12) as u16 },
        buttons: calendar_buttons(config, month_add(anchor, k), pos),
        cursor: 0,
        bg_color: config.calendar_bg_color,
    }
}

impl Tui {
    /// A fresh orchestrator with an empty grid; the first build fills it.
    pub fn new(bounds: Position, config: Config) -> (r: Tui)
        ensures
            r.bounds == bounds,
            r.config == config,
            grid(r).len() == 0,
            r.quit == false,
            r.weekdays.text@ == "SunMonTueWedThuFriSat "@,
            r.weekdays.color == config.weekday_bg_color,
            r.weekdays.position == (Position { x: bounds.x / 2, y: bounds.y / 2 }),
    {
        let weekdays = TextBox::new(
            get_weekdays(),
            Position::new_center(&bounds),
            config.weekday_bg_color,
        );
        let r = Tui { bounds, config, calendars: Vec::new(), weekdays, quit: false };
        proof {
            assert(grid(r) =~= Seq::<CalendarView>::empty());
        }
        r
    }

    /// The full-frame background fill.
    pub fn draw_background(&self) -> (r: Formatter)
        ensures
            r@ == seq![
                OpView::FillRect(
                    Position { x: 1, y: 1 },
                    Position { x: self.bounds.x, y: self.bounds.y },
                    self.config.bg_color,
                ),
            ],
    {
        let origin = Position::new_origin();
        let corner = Position::new(self.bounds.get_x(), self.bounds.get_y());
        let r = Formatter::new().create_box(&origin, &corner, &self.config.bg_color);
        proof {
            assert(r@ =~= seq![
                OpView::FillRect(
                    Position { x: 1, y: 1 },
                    Position { x: self.bounds.x, y: self.bounds.y },
                    self.config.bg_color,
                ),
            ]);
        }
        r
    }

    /// Fill every grid slot, one month per slot in row-major order, by
    /// claiming tickets from the build cursor and building the claimed
    /// tile. The result depends only on the anchor month and the bounds.
    #[verifier::rlimit(100)]
    pub fn create_calendars(&mut self, date: Date)
        requires
            valid_date(date),
            date.day == 1,
            month_index(date) + grid_rows(old(self).bounds) * grid_cols(old(self).bounds)
                <= month_index(Date { year: MAX_YEAR, month: 12, day: 1 }),
        ensures
            final(self).bounds == old(self).bounds,
            final(self).config == old(self).config,
            final(self).weekdays == old(self).weekdays,
            final(self).quit == old(self).quit,
            grid(*final(self)).len() == grid_rows(old(self).bounds) * grid_cols(old(self).bounds),
            forall|k: int|
                0 <= k < grid(*final(self)).len() ==> grid(*final(self))[k] == built_calendar(
                    old(self).config,
                    date,
                    grid_cols(old(self).bounds),
                    k,
                ),
            tui_wf(*final(self)),
    {
        let columns = get_columns(&self.bounds);
        let rows = get_rows(&self.bounds);
        proof {
            assert(columns <= 2730 && rows <= 4681);
            assert(rows * columns <= 12_800_000) by (nonlinear_arith)
                requires
                    0 <= rows <= 4681,
                    0 <= columns <= 2730,
            ;
            assert(rows * columns > 0 ==> columns >= 1 && rows >= 1) by (nonlinear_arith);
        }
        let max = rows * columns;
        let mut cursor = BuildCursor::new(date);
        let mut vec: Vec<Calendar> = Vec::new();
        let mut k: usize = 0;
        while k < max
            invariant
                valid_date(date),
                date.day == 1,
                columns == grid_cols(self.bounds),
                rows == grid_rows(self.bounds),
                max == rows * columns,
                max <= 12_800_000,
                columns <= 2730,
                rows <= 4681,
                max > 0 ==> columns >= 1 && rows >= 1,
                month_index(date) + max <= month_index(Date { year: MAX_YEAR, month: 12, day: 1 }),
                k <= max,
                cursor == cursor_iter(initial_cursor(date), columns as int, k as int),
                vec@.map_values(|c: Calendar| c@) == Seq::new(
                    k as nat,
                    |i: int| built_calendar(self.config, date, columns as int, i),
                ),
                self == old(self),
            decreases max - k,
        {
            proof {
                assert(k as int / (columns as int) <= rows - 1) by (nonlinear_arith)
                    requires
                        0 <= k < rows * columns,
                        columns >= 1,
                ;
                assert(0 <= k as int % (columns as int) < columns) by (nonlinear_arith)
                    requires
                        0 <= k,
                        columns >= 1,
                ;
                lemma_ticket_deterministic(date, columns as int, k as int);
                lemma_month_add_valid(date, k as int);
                if (k + 1) as int % (columns as int) != 0 {
                    assert(k as int % (columns as int) <= columns - 2) by (nonlinear_arith)
                        requires
                            columns >= 1,
                            0 <= k,
                            (k + 1) as int % (columns as int) != 0,
                    ;
                }
            }
            let (d, pos, idx) = cursor.claim(columns);
            proof {
                assert(d == month_add(date, k as int));
                assert(pos == slot_pos(columns as int, k as int));
            }
            let ghost prev_map = vec@.map_values(|c: Calendar| c@);
            let cal = Calendar::new(d, pos, &self.config);
            proof {
                assert(cal@ == built_calendar(self.config, date, columns as int, k as int));
            }
            vec.push(cal);
            k = k + 1;
            proof {
                assert(vec@.map_values(|c: Calendar| c@) =~= prev_map.push(cal@));
                assert(vec@.map_values(|c: Calendar| c@) =~= Seq::new(
                    k as nat,
                    |i: int| built_calendar(self.config, date, columns as int, i),
                ));
            }
        }
        self.calendars = vec;
        proof {
            assert(grid(*self) =~= Seq::new(
                max as nat,
                |i: int| built_calendar(self.config, date, columns as int, i),
            ));
            assert forall|j: int| 0 <= j < grid(*self).len() implies cal_wf(
                #[trigger] grid(*self)[j],
            ) by {
                lemma_month_add_valid(date, j);
                lemma_calendar_buttons_wf(
                    self.config,
                    month_add(date, j),
                    slot_pos(columns as int, j),
                );
                assert(j as int / (columns as int) <= rows - 1) by (nonlinear_arith)
                    requires
                        0 <= j < rows * columns,
                        columns >= 1,
                ;
            }
        }
    }

    /// The draw primitives of one whole frame: the background, then every
    /// tile in slot order. Per-tile buffers merged in slot order equal this
    /// single pass.
    pub fn draw_calendars(&self) -> (r: Formatter)
        requires
            forall|k: int| 0 <= k < grid(*self).len() ==> cal_wf(#[trigger] grid(*self)[k]),
        ensures
            r@ == seq![
                OpView::FillRect(
                    Position { x: 1, y: 1 },
                    Position { x: self.bounds.x, y: self.bounds.y },
                    self.config.bg_color,
                ),
            ] + grid_ops(grid(*self), self.weekdays.text@, self.weekdays.color),
    {
        let mut format = self.draw_background();
        let n = self.calendars.len();
        let mut i: usize = 0;
        proof {
            assert(grid_ops(grid(*self).take(0), self.weekdays.text@, self.weekdays.color)
                =~= Seq::<OpView>::empty());
        }
        while i < n
            invariant
                n == self.calendars.len(),
                i <= n,
                forall|k: int| 0 <= k < grid(*self).len() ==> cal_wf(#[trigger] grid(*self)[k]),
                format@ == seq![
                    OpView::FillRect(
                        Position { x: 1, y: 1 },
                        Position { x: self.bounds.x, y: self.bounds.y },
                        self.config.bg_color,
                    ),
                ] + grid_ops(grid(*self).take(i as int), self.weekdays.text@, self.weekdays.color),
            decreases n - i,
        {
            proof {
                assert(cal_wf(grid(*self)[i as int]));
            }
            let tile = self.calendars[i].draw_format(&self.weekdays);
            format.append(&tile);
            i = i + 1;
            proof {
                assert(grid(*self).take(i as int).drop_last() =~= grid(*self).take(i as int - 1));
                assert(grid(*self).take(i as int).last() == grid(*self)[i - 1]);
            }
        }
        proof {
            assert(grid(*self).take(n as int) =~= grid(*self));
        }
        format
    }
}

/// The draw primitives of a tile sequence, in slot order.
pub open spec fn grid_ops(cals: Seq<CalendarView>, wd_text: Seq<char>, wd_color: Color) -> Seq<
    OpView,
>
    decreases cals.len(),
{
    if cals.len() == 0 {
        Seq::empty()
    } else {
        grid_ops(cals.drop_last(), wd_text, wd_color) + calendar_draw_ops(
            cals.last(),
            wd_text,
            wd_color,
        )
    }
}

// ---------------------------------------------------------------------------
// Selection across tiles
// ---------------------------------------------------------------------------
/// A tile change stopped at the grid edge: such a request is a no-op.
pub open spec fn mc_blocked(len: int, cols: int, idx: int, direction: Direction) -> bool {
    match direction {
        Direction::Up => idx == 0 || idx < cols,
        Direction::Down => idx + cols >= len,
        Direction::Left => idx == 0,
        Direction::Right => idx + 1 >= len,
    }
}

/// The slot a tile change lands on: one slot sideways, one full row up or
/// down.
pub open spec fn mc_dest(cols: int, idx: int, direction: Direction) -> int {
    match direction {
        Direction::Up => idx - cols,
        Direction::Down => idx + cols,
        Direction::Left => idx - 1,
        Direction::Right => idx + 1,
    }
}

/// Whether leaving a tile repaints its highlighted button to rest.
pub open spec fn mc_unselects(config: Config) -> bool {
    config.unselect_change_calendar_cursor || config.change_calendar_reset_cursor
}

/// The outgoing tile after a change: unselected when either flag asks for
/// it, its stored cursor zeroed when the reset flag asks for it.
pub open spec fn mc_outgoing(c: CalendarView, config: Config) -> CalendarView {
    let c1 = if mc_unselects(config) {
        unselect_state(c, config)
    } else {
        c
    };
    if config.change_calendar_reset_cursor {
        CalendarView { cursor: 0, ..c1 }
    } else {
        c1
    }
}

pub open spec fn mc_outgoing_ops(c: CalendarView, config: Config) -> Seq<OpView> {
    if mc_unselects(config) {
        unselect_ops(c, config)
    } else {
        Seq::empty()
    }
}

/// The grid after a tile change: the outgoing tile put to rest, the
/// destination tile highlighted at its stored cursor.
pub open spec fn mc_grid(
    cals: Seq<CalendarView>,
    config: Config,
    cols: int,
    idx: int,
    direction: Direction,
) -> Seq<CalendarView> {
    if mc_blocked(cals.len() as int, cols, idx, direction) {
        cals
    } else {
        let dst = mc_dest(cols, idx, direction);
        let cs1 = cals.update(idx, mc_outgoing(cals[idx], config));
        cs1.update(dst, select_state(cs1[dst], config, cs1[dst].cursor))
    }
}

pub open spec fn mc_ops(
    cals: Seq<CalendarView>,
    config: Config,
    cols: int,
    idx: int,
    direction: Direction,
) -> Seq<OpView> {
    if mc_blocked(cals.len() as int, cols, idx, direction) {
        Seq::empty()
    } else {
        let dst = mc_dest(cols, idx, direction);
        let cs1 = cals.update(idx, mc_outgoing(cals[idx], config));
        mc_outgoing_ops(cals[idx], config) + select_ops(cs1[dst], config, cs1[dst].cursor)
    }
}

pub open spec fn mc_index(len: int, cols: int, idx: int, direction: Direction) -> int {
    if mc_blocked(len, cols, idx, direction) {
        idx
    } else {
        mc_dest(cols, idx, direction)
    }
}

impl Tui {
    /// Move the selection one tile over: left and right by one slot, up
    /// and down by a full row. A request past the grid edge changes
    /// nothing. On a change, the outgoing tile is put to rest and possibly
    /// reset as the configuration asks, and the destination tile's stored
    /// cursor is highlighted.
    #[verifier::rlimit(100)]
    pub fn move_calendar(&mut self, index: &mut usize, direction: Direction) -> (r: Formatter)
        requires
            tui_wf(*old(self)),
            *old(index) < grid(*old(self)).len() || *old(index) == 0,
        ensures
            final(self).bounds == old(self).bounds,
            final(self).config == old(self).config,
            final(self).weekdays == old(self).weekdays,
            final(self).quit == old(self).quit,
            grid(*final(self)) == mc_grid(
                grid(*old(self)),
                old(self).config,
                grid_cols(old(self).bounds),
                *old(index) as int,
                direction,
            ),
            r@ == mc_ops(
                grid(*old(self)),
                old(self).config,
                grid_cols(old(self).bounds),
                *old(index) as int,
                direction,
            ),
            *final(index) == mc_index(
                grid(*old(self)).len() as int,
                grid_cols(old(self).bounds),
                *old(index) as int,
                direction,
            ),
            tui_wf(*final(self)),
            *final(index) < grid(*final(self)).len() || *final(index) == 0,
    {
        let format = Formatter::new();
        let len = self.calendars.len();
        proof {
            assert(grid_rows(self.bounds) <= 4681 && grid_cols(self.bounds) <= 2730);
            assert(grid_rows(self.bounds) * grid_cols(self.bounds) <= 12_800_000)
                by (nonlinear_arith)
                requires
                    0 <= grid_rows(self.bounds) <= 4681,
                    0 <= grid_cols(self.bounds) <= 2730,
            ;
            assert(len > 0 ==> grid_cols(self.bounds) >= 1) by (nonlinear_arith)
                requires
                    len == grid_rows(self.bounds) * grid_cols(self.bounds),
            ;
        }
        let change: usize;
        match direction {
            Direction::Up | Direction::Down => {
                let x = get_columns(&self.bounds);
                if matches!(direction, Direction::Up) {
                    if *index == 0 || *index < x {
                        return format;
                    }
                } else if *index + x >= len {
                    return format;
                }
                change = x;
            },
            _ => {
                if matches!(direction, Direction::Left) {
                    if *index == 0 {
                        return format;
                    }
                } else if *index + 1 >= len {
                    return format;
                }
                change = 1;
            },
        }
        self.move_calendar_go(index, change, direction)
    }

    /// The unblocked part of a tile change.
    #[verifier::rlimit(100)]
    fn move_calendar_go(&mut self, index: &mut usize, change: usize, direction: Direction) -> (r:
        Formatter)
        requires
            tui_wf(*old(self)),
            *old(index) < grid(*old(self)).len(),
            grid_cols(old(self).bounds) >= 1,
            !mc_blocked(
                grid(*old(self)).len() as int,
                grid_cols(old(self).bounds),
                *old(index) as int,
                direction,
            ),
            change == (match direction {
                Direction::Up | Direction::Down => grid_cols(old(self).bounds),
                _ => 1int,
            }),
            0 <= mc_dest(grid_cols(old(self).bounds), *old(index) as int, direction) < grid(
                *old(self),
            ).len(),
        ensures
            final(self).bounds == old(self).bounds,
            final(self).config == old(self).config,
            final(self).weekdays == old(self).weekdays,
            final(self).quit == old(self).quit,
            grid(*final(self)) == mc_grid(
                grid(*old(self)),
                old(self).config,
                grid_cols(old(self).bounds),
                *old(index) as int,
                direction,
            ),
            r@ == mc_ops(
                grid(*old(self)),
                old(self).config,
                grid_cols(old(self).bounds),
                *old(index) as int,
                direction,
            ),
            *final(index) == mc_dest(
                grid_cols(old(self).bounds),
                *old(index) as int,
                direction,
            ),
            tui_wf(*final(self)),
    {
        let mut format = Formatter::new();
        let idx = *index;
        let cfg = self.config;
        let len0 = self.calendars.len();
        proof {
            assert(grid(*self).len() == len0);
        }
        let ghost cals0 = grid(*self);
        let mut src = self.calendars.remove(idx);
        if cfg.unselect_change_calendar_cursor || cfg.change_calendar_reset_cursor {
            let un = src.unselect_button(&cfg);
            format.append(&un);
        }
        proof {
            if direction is Down || direction is Right {
                assert(*index as int + change as int == mc_dest(
                    grid_cols(self.bounds),
                    *index as int,
                    direction,
                ));
            } else {
                assert(*index as int - change as int == mc_dest(
                    grid_cols(self.bounds),
                    *index as int,
                    direction,
                ));
            }
        }
        if matches!(direction, Direction::Down) || matches!(direction, Direction::Right) {
            *index = *index + change;
        } else {
            *index = *index - change;
        }
        if cfg.change_calendar_reset_cursor {
            src.cursor = 0;
        }
        self.calendars.insert(idx, src);
        proof {
            assert(grid(*self) =~= cals0.update(idx as int, mc_outgoing(cals0[idx as int], cfg)));
        }
        let dst = *index;
        let ghost cs1 = grid(*self);
        let mut dstc = self.calendars.remove(dst);
        proof {
            assert(dst != idx);
            assert(dstc@ == cals0[dst as int]);
            assert(cal_wf(cals0[dst as int]));
            assert(buttons_bounded(dstc@));
        }
        let cur = dstc.cursor;
        let sel = dstc.select_button(&cfg, cur);
        format.append(&sel);
        self.calendars.insert(dst, dstc);
        proof {
            assert(grid(*self) =~= cs1.update(
                dst as int,
                select_state(cs1[dst as int], cfg, cs1[dst as int].cursor),
            ));
            assert(format@ =~= mc_ops(
                cals0,
                cfg,
                grid_cols(self.bounds),
                idx as int,
                direction,
            ));
            assert forall|k: int| 0 <= k < grid(*self).len() implies cal_wf(
                #[trigger] grid(*self)[k],
            ) by {
                assert(cal_wf(cals0[k]));
                if k == dst as int {
                    assert(cs1[k].buttons.len() == cals0[k].buttons.len());
                } else if k == idx as int {
                }
            }
        }
        format
    }
}

// ---------------------------------------------------------------------------
// Time travel
// ---------------------------------------------------------------------------
/// What a time-travel request returns, over the first and last visible
/// month starts. Up and down move one month from the first tile; right
/// moves to the month after the last tile; left lands on the month that
/// contains the mirror of the last tile (five days in) around the first.
/// A step that would leave the supported date range is refused with no
/// result: range exhaustion is fatal for the operation, never a silent
/// clamp. An empty grid travels to the current month.
pub open spec fn travel_post(cals: Seq<CalendarView>, direction: Direction, r: Option<Date>) -> bool {
    if cals.len() == 0 {
        r matches Some(d) && valid_date(d) && d.day == 1
    } else {
        let first = cals[0].start_date;
        let last = cals[cals.len() - 1].start_date;
        match direction {
            Direction::Up => if first.year == MAX_YEAR && first.month == 12 {
                r is None
            } else {
                r == Some(month_succ_spec(first))
            },
            Direction::Down => if first.year == MIN_YEAR && first.month == 1 {
                r is None
            } else {
                r == Some(month_pred_spec(first))
            },
            Direction::Right => if last.year == MAX_YEAR && last.month == 12 {
                r is None
            } else {
                r == Some(month_succ_spec(last))
            },
            Direction::Left => {
                let t5 = day_index(last) + 5;
                let back = 2 * day_index(first) - t5;
                if t5 > day_index(max_date()) || back < 0 || back > day_index(max_date()) {
                    r is None
                } else {
                    r matches Some(d) && valid_date(d) && d.day == 1 && day_index(d) <= back
                        < day_index(d) + month_length(d.year as int, d.month as int)
                }
            },
        }
    }
}

impl Tui {
    /// The anchor month a time-travel request jumps to, computed from the
    /// first and last visible month starts; nothing when the step would
    /// leave the supported date range, which is fatal for the operation.
    #[verifier::rlimit(100)]
    pub fn time_travel(&self, direction: Direction) -> (r: Option<Date>)
        requires
            tui_wf(*self),
        ensures
            travel_post(grid(*self), direction, r),
            r matches Some(d) ==> valid_date(d) && d.day == 1,
    {
        let len = self.calendars.len();
        if len == 0 {
            let t = today();
            return Some(t.first_of_month());
        }
        proof {
            assert(cal_wf(grid(*self)[0]));
            assert(cal_wf(grid(*self)[len - 1]));
        }
        let date = self.calendars[0].get_start_date();
        let other_date = self.calendars[len - 1].get_start_date();
        match direction {
            Direction::Left => {
                proof {
                    lemma_max_day_index(other_date);
                    lemma_max_day_index(date);
                }
                let max_n = day_number(&Date::max());
                let b0 = day_number(&other_date);
                if max_n - b0 < 5 {
                    return None;
                }
                let other5 = add_days(&other_date, 5);
                let a = day_number(&date);
                let b = day_number(&other5);
                if b >= a {
                    let diff = b - a;
                    if diff > a {
                        return None;
                    }
                    let r0 = sub_days(&date, diff);
                    let r = r0.first_of_month();
                    proof {
                        lemma_max_day_index(r0);
                    }
                    Some(r)
                } else {
                    let diff = a - b;
                    if max_n - a < diff {
                        return None;
                    }
                    let r0 = add_days(&date, diff);
                    let r = r0.first_of_month();
                    proof {
                        lemma_max_day_index(r0);
                    }
                    Some(r)
                }
            },
            Direction::Right => {
                if other_date.year == MAX_YEAR && other_date.month == 12 {
                    return None;
                }
                let r0 = add_days(&other_date, 32);
                let r = r0.first_of_month();
                proof {
                    lemma_travel_forward(other_date, r0, r);
                }
                Some(r)
            },
            Direction::Up => {
                if date.year == MAX_YEAR && date.month == 12 {
                    return None;
                }
                let r0 = add_days(&date, 32);
                let r = r0.first_of_month();
                proof {
                    lemma_travel_forward(date, r0, r);
                }
                Some(r)
            },
            Direction::Down => {
                if date.year == MIN_YEAR && date.month == 1 {
                    return None;
                }
                let r0 = sub_days(&date, 5);
                let r = r0.first_of_month();
                proof {
                    lemma_travel_backward(date, r0, r);
                }
                Some(r)
            },
        }
    }
}

/// Thirty-two days past a month start, floored to its month start, is the
/// next month start.
proof fn lemma_travel_forward(d: Date, r0: Date, r: Date)
    requires
        valid_date(d),
        d.day == 1,
        !(d.year == MAX_YEAR && d.month == 12),
        valid_date(r0),
        day_index(d) + 32 <= day_index(max_date()) ==> day_index(r0) == day_index(d) + 32,
        day_index(d) + 32 > day_index(max_date()) ==> r0 == max_date(),
        r == (Date { year: r0.year, month: r0.month, day: 1 }),
    ensures
        r == month_succ_spec(d),
{
    lemma_month_succ_index(d);
    let m2 = month_succ_spec(d);
    let last2 = Date {
        year: m2.year,
        month: m2.month,
        day: month_length(m2.year as int, m2.month as int) as u8,
    };
    assert(valid_date(last2));
    lemma_max_day_index(last2);
    assert(day_index(d) + 32 <= day_index(max_date()));
    lemma_month_floor(m2, r0);
}

/// Five days before a month start, floored to its month start, is the
/// previous month start.
proof fn lemma_travel_backward(d: Date, r0: Date, r: Date)
    requires
        valid_date(d),
        d.day == 1,
        !(d.year == MIN_YEAR && d.month == 1),
        valid_date(r0),
        day_index(d) - 5 >= 0 ==> day_index(r0) == day_index(d) - 5,
        day_index(d) - 5 < 0 ==> r0 == min_date(),
        r == (Date { year: r0.year, month: r0.month, day: 1 }),
    ensures
        r == month_pred_spec(d),
{
    lemma_month_pred_index(d);
    lemma_max_day_index(month_pred_spec(d));
    lemma_month_floor(month_pred_spec(d), r0);
}

// ---------------------------------------------------------------------------
// Mouse routing
// ---------------------------------------------------------------------------
/// The first button of a tile that contains the point, or -1.
pub open spec fn first_hit_spec(bs: Seq<ButtonView>, p: Position) -> int
    decreases bs.len(),
{
    if bs.len() == 0 {
        -1
    } else if point_in_rect(p, bs[0].start_position, bs[0].end_position) {
        0
    } else {
        let r = first_hit_spec(bs.drop_first(), p);
        if r == -1 {
            -1
        } else {
            r + 1
        }
    }
}

proof fn lemma_first_hit_prefix(bs: Seq<ButtonView>, p: Position, i: int)
    requires
        0 <= i <= bs.len(),
        forall|j: int|
            0 <= j < i ==> !point_in_rect(
                p,
                (#[trigger] bs[j]).start_position,
                bs[j].end_position,
            ),
    ensures
        i < bs.len() && point_in_rect(p, bs[i].start_position, bs[i].end_position)
            ==> first_hit_spec(bs, p) == i,
        i == bs.len() ==> first_hit_spec(bs, p) == -1,
    decreases i,
{
    if i > 0 {
        let rest = bs.drop_first();
        assert(forall|j: int| 0 <= j < i - 1 ==> #[trigger] rest[j] == bs[j + 1]);
        lemma_first_hit_prefix(rest, p, i - 1);
        if i < bs.len() && point_in_rect(p, bs[i].start_position, bs[i].end_position) {
            assert(rest[i - 1] == bs[i]);
        }
    }
}

/// The first button of the tile under the point, hit-testing the buttons
/// in order.
fn first_hit(c: &Calendar, p: Position) -> (r: Option<usize>)
    ensures
        match r {
            Some(i) => first_hit_spec(c@.buttons, p) == i && i < c@.buttons.len(),
            None => first_hit_spec(c@.buttons, p) == -1,
        },
{
    let n = c.buttons.len();
    let mut i: usize = 0;
    while i < n
        invariant
            n == c.buttons@.len(),
            i <= n,
            forall|j: int|
                0 <= j < i ==> !point_in_rect(
                    p,
                    (#[trigger] c@.buttons[j]).start_position,
                    c@.buttons[j].end_position,
                ),
        decreases n - i,
    {
        if c.buttons[i].is_hovered(p) {
            proof {
                lemma_first_hit_prefix(c@.buttons, p, i as int);
            }
            return Some(i);
        }
        i = i + 1;
    }
    proof {
        lemma_first_hit_prefix(c@.buttons, p, n as int);
    }
    None
}

/// The scan over the first `k` tiles: each tile under the point has its
/// first hit button selected; the scan remembers whether a tile other than
/// the active one was hit, and which.
pub open spec fn mouse_scan(
    cals: Seq<CalendarView>,
    config: Config,
    p: Position,
    active: int,
    k: int,
) -> (Seq<CalendarView>, Seq<OpView>, bool, int)
    decreases k,
{
    if k <= 0 {
        (cals, Seq::<OpView>::empty(), false, 0)
    } else {
        let step = mouse_scan(cals, config, p, active, k - 1);
        let ci = k - 1;
        let c = step.0[ci];
        if point_in_rect(p, c.start, c.end) && first_hit_spec(c.buttons, p) >= 0 {
            let bi = first_hit_spec(c.buttons, p);
            (
                step.0.update(ci, select_state(c, config, bi)),
                step.1 + select_ops(c, config, bi),
                step.2 || active != ci,
                if active != ci {
                    ci
                } else {
                    step.3
                },
            )
        } else {
            step
        }
    }
}

/// The grid after a left press at the point: every hit tile shows its hit
/// button selected; when the hit tile was not the active one, the active
/// tile is put to rest and possibly reset, as on a tile change.
pub open spec fn mouse_grid(cals: Seq<CalendarView>, config: Config, p: Position, active: int) -> Seq<
    CalendarView,
> {
    let scan = mouse_scan(cals, config, p, active, cals.len() as int);
    if scan.2 {
        let last = scan.0[active];
        let l1 = if mc_unselects(config) {
            unselect_state(last, config)
        } else {
            last
        };
        let l2 = if config.change_calendar_reset_cursor {
            CalendarView { cursor: 0, ..l1 }
        } else {
            l1
        };
        scan.0.update(active, l2)
    } else {
        scan.0
    }
}

pub open spec fn mouse_ops(cals: Seq<CalendarView>, config: Config, p: Position, active: int) -> Seq<
    OpView,
> {
    let scan = mouse_scan(cals, config, p, active, cals.len() as int);
    if scan.2 {
        scan.1 + (if mc_unselects(config) {
            unselect_ops(scan.0[active], config)
        } else {
            Seq::<OpView>::empty()
        })
    } else {
        scan.1
    }
}

pub open spec fn mouse_index(cals: Seq<CalendarView>, config: Config, p: Position, active: int) -> int {
    let scan = mouse_scan(cals, config, p, active, cals.len() as int);
    if scan.2 {
        scan.3
    } else {
        active
    }
}

impl Tui {
    /// Route a left mouse press at the given cell: hit-test every tile and
    /// within a hit tile every button in order; select the hit button, and
    /// when the hit tile differs from the active one, change tiles as a
    /// keyboard tile change would.
    #[verifier::rlimit(100)]
    pub fn handle_mouse(&mut self, x: u16, y: u16, index: &mut usize) -> (r: Formatter)
        requires
            tui_wf(*old(self)),
            *old(index) < grid(*old(self)).len() || *old(index) == 0,
        ensures
            final(self).bounds == old(self).bounds,
            final(self).config == old(self).config,
            final(self).weekdays == old(self).weekdays,
            final(self).quit == old(self).quit,
            grid(*final(self)) == mouse_grid(
                grid(*old(self)),
                old(self).config,
                Position { x, y },
                *old(index) as int,
            ),
            r@ == mouse_ops(
                grid(*old(self)),
                old(self).config,
                Position { x, y },
                *old(index) as int,
            ),
            *final(index) == mouse_index(
                grid(*old(self)),
                old(self).config,
                Position { x, y },
                *old(index) as int,
            ),
            tui_wf(*final(self)),
            *final(index) < grid(*final(self)).len() || *final(index) == 0,
    {
        let mouse_pos = Position::new(x, y);
        let cfg = self.config;
        let mut calendar_change = false;
        let mut future_index: usize = 0;
        let mut format = Formatter::new();
        let len = self.calendars.len();
        let mut ci: usize = 0;
        while ci < len
            invariant
                len == self.calendars@.len(),
                ci <= len,
                cfg == old(self).config,
                mouse_pos == (Position { x, y }),
                self.bounds == old(self).bounds,
                self.config == old(self).config,
                self.weekdays == old(self).weekdays,
                self.quit == old(self).quit,
                tui_wf(*old(self)),
                *old(index) < len || *old(index) == 0,
                *index == *old(index),
                forall|k: int| 0 <= k < grid(*self).len() ==> cal_wf(#[trigger] grid(*self)[k]),
                grid(*self).len() == len,
                grid_rows(self.bounds) * grid_cols(self.bounds) == len,
                grid(*self) == mouse_scan(
                    grid(*old(self)),
                    cfg,
                    mouse_pos,
                    *old(index) as int,
                    ci as int,
                ).0,
                format@ == mouse_scan(
                    grid(*old(self)),
                    cfg,
                    mouse_pos,
                    *old(index) as int,
                    ci as int,
                ).1,
                calendar_change == mouse_scan(
                    grid(*old(self)),
                    cfg,
                    mouse_pos,
                    *old(index) as int,
                    ci as int,
                ).2,
                future_index as int == mouse_scan(
                    grid(*old(self)),
                    cfg,
                    mouse_pos,
                    *old(index) as int,
                    ci as int,
                ).3,
                calendar_change ==> future_index < len,
            decreases len - ci,
        {
            let ghost pre = grid(*self);
            let hovered = self.calendars[ci].is_hovered(mouse_pos);
            if hovered {
                let hit = first_hit(&self.calendars[ci], mouse_pos);
                if let Some(bi) = hit {
                    if *index != ci {
                        calendar_change = true;
                        future_index = ci;
                    }
                    let mut c = self.calendars.remove(ci);
                    proof {
                        assert(cal_wf(pre[ci as int]));
                        assert(buttons_bounded(c@));
                    }
                    let sel = c.select_button(&cfg, bi);
                    format.append(&sel);
                    self.calendars.insert(ci, c);
                    proof {
                        assert(grid(*self) =~= pre.update(
                            ci as int,
                            select_state(pre[ci as int], cfg, bi as int),
                        ));
                        assert forall|k: int| 0 <= k < grid(*self).len() implies cal_wf(
                            #[trigger] grid(*self)[k],
                        ) by {
                            assert(cal_wf(pre[k]));
                            if k == ci as int {
                                assert(grid(*self)[k].buttons.len() == pre[k].buttons.len());
                            }
                        }
                    }
                }
            }
            ci = ci + 1;
        }
        if calendar_change {
            let idx = *index;
            let ghost cs = grid(*self);
            proof {
                assert(len > 0);
                assert(idx < len);
                assert(cal_wf(cs[idx as int]));
            }
            let mut last = self.calendars.remove(idx);
            if cfg.unselect_change_calendar_cursor || cfg.change_calendar_reset_cursor {
                let un = last.unselect_button(&cfg);
                format.append(&un);
            }
            if cfg.change_calendar_reset_cursor {
                last.cursor = 0;
            }
            self.calendars.insert(idx, last);
            *index = future_index;
            proof {
                assert(grid(*self) =~= mouse_grid(
                    grid(*old(self)),
                    cfg,
                    mouse_pos,
                    idx as int,
                ));
                assert forall|k: int| 0 <= k < grid(*self).len() implies cal_wf(
                    #[trigger] grid(*self)[k],
                ) by {
                    assert(cal_wf(cs[k]));
                    if k == idx as int {
                        assert(grid(*self)[k].buttons.len() == cs[k].buttons.len());
                    }
                }
            }
        }
        format
    }
}


/// The scan over tiles none of which contains the point changes nothing.
proof fn lemma_mouse_scan_misses(
    cals: Seq<CalendarView>,
    config: Config,
    p: Position,
    active: int,
    k: int,
)
    requires
        0 <= k <= cals.len(),
        forall|j: int|
            0 <= j < k ==> !point_in_rect(p, (#[trigger] cals[j]).start, cals[j].end),
    ensures
        mouse_scan(cals, config, p, active, k) == (cals, Seq::<OpView>::empty(), false, 0int),
    decreases k,
{
    if k > 0 {
        lemma_mouse_scan_misses(cals, config, p, active, k - 1);
    }
}

/// When exactly one tile contains the point and one of its buttons is
/// under it, the scan selects in that tile alone, and remembers it as the
/// future active tile exactly when it differs from the current one.
pub proof fn lemma_mouse_scan_unique(
    cals: Seq<CalendarView>,
    config: Config,
    p: Position,
    active: int,
    ci: int,
    k: int,
)
    requires
        0 <= ci < k <= cals.len(),
        point_in_rect(p, cals[ci].start, cals[ci].end),
        first_hit_spec(cals[ci].buttons, p) >= 0,
        forall|j: int|
            0 <= j < cals.len() && j != ci ==> !point_in_rect(
                p,
                (#[trigger] cals[j]).start,
                cals[j].end,
            ),
    ensures
        mouse_scan(cals, config, p, active, k).0 == cals.update(
            ci,
            select_state(cals[ci], config, first_hit_spec(cals[ci].buttons, p)),
        ),
        mouse_scan(cals, config, p, active, k).1 == select_ops(
            cals[ci],
            config,
            first_hit_spec(cals[ci].buttons, p),
        ),
        mouse_scan(cals, config, p, active, k).2 == (active != ci),
        mouse_scan(cals, config, p, active, k).3 == (if active != ci {
            ci
        } else {
            0int
        }),
    decreases k,
{
    let bi = first_hit_spec(cals[ci].buttons, p);
    if k - 1 == ci {
        lemma_mouse_scan_misses(cals, config, p, active, k - 1);
        assert(Seq::<OpView>::empty() + select_ops(cals[ci], config, bi) =~= select_ops(
            cals[ci],
            config,
            bi,
        ));
    } else {
        lemma_mouse_scan_unique(cals, config, p, active, ci, k - 1);
        assert(mouse_scan(cals, config, p, active, k - 1).0[k - 1] == cals[k - 1]);
    }
}

/// The click scenario in full: with exactly one tile under the click and a
/// button under it there, the click selects that button in that tile; when
/// that tile is not the active one, the selection moves there and the
/// outgoing tile is put to rest and reset as the configuration's two flags
/// ask, just as on a keyboard tile change.
pub proof fn lemma_mouse_click_selects(
    cals: Seq<CalendarView>,
    config: Config,
    p: Position,
    active: int,
    ci: int,
)
    requires
        0 <= ci < cals.len(),
        0 <= active < cals.len(),
        active != ci,
        point_in_rect(p, cals[ci].start, cals[ci].end),
        first_hit_spec(cals[ci].buttons, p) >= 0,
        forall|j: int|
            0 <= j < cals.len() && j != ci ==> !point_in_rect(
                p,
                (#[trigger] cals[j]).start,
                cals[j].end,
            ),
    ensures
        mouse_grid(cals, config, p, active) == cals.update(
            ci,
            select_state(cals[ci], config, first_hit_spec(cals[ci].buttons, p)),
        ).update(active, mc_outgoing(cals[active], config)),
        mouse_index(cals, config, p, active) == ci,
        mouse_ops(cals, config, p, active) == select_ops(
            cals[ci],
            config,
            first_hit_spec(cals[ci].buttons, p),
        ) + mc_outgoing_ops(cals[active], config),
{
    lemma_mouse_scan_unique(cals, config, p, active, ci, cals.len() as int);
}

/// A click inside the active tile only moves that tile's selection.
pub proof fn lemma_mouse_click_same_tile(
    cals: Seq<CalendarView>,
    config: Config,
    p: Position,
    active: int,
)
    requires
        0 <= active < cals.len(),
        point_in_rect(p, cals[active].start, cals[active].end),
        first_hit_spec(cals[active].buttons, p) >= 0,
        forall|j: int|
            0 <= j < cals.len() && j != active ==> !point_in_rect(
                p,
                (#[trigger] cals[j]).start,
                cals[j].end,
            ),
    ensures
        mouse_grid(cals, config, p, active) == cals.update(
            active,
            select_state(cals[active], config, first_hit_spec(cals[active].buttons, p)),
        ),
        mouse_index(cals, config, p, active) == active,
        mouse_ops(cals, config, p, active) == select_ops(
            cals[active],
            config,
            first_hit_spec(cals[active].buttons, p),
        ),
{
    lemma_mouse_scan_unique(cals, config, p, active, active, cals.len() as int);
}

/// Planner tiles never overlap: a screen point inside one built tile's
/// rectangle lies inside no other built tile's rectangle, so the hit
/// assumptions of the click lemmas hold of every grid the builder leaves.
pub proof fn lemma_built_tiles_disjoint(
    config: Config,
    anchor: Date,
    bounds: Position,
    k: int,
    l: int,
    p: Position,
)
    requires
        0 <= k < grid_rows(bounds) * grid_cols(bounds),
        0 <= l < grid_rows(bounds) * grid_cols(bounds),
        k != l,
        point_in_rect(
            p,
            built_calendar(config, anchor, grid_cols(bounds), k).start,
            built_calendar(config, anchor, grid_cols(bounds), k).end,
        ),
    ensures
        !point_in_rect(
            p,
            built_calendar(config, anchor, grid_cols(bounds), l).start,
            built_calendar(config, anchor, grid_cols(bounds), l).end,
        ),
{
    let c = grid_cols(bounds);
    let r = grid_rows(bounds);
    assert(0 <= c && 0 <= r);
    assert(c >= 1 && r >= 1) by (nonlinear_arith)
        requires
            0 <= k < r * c,
            0 <= c,
            0 <= r,
    ;
    assert(c <= 2730 && r <= 4681);
    assert(0 <= k % c < c && 0 <= l % c < c && 0 <= k / c <= r - 1 && 0 <= l / c <= r - 1)
        by (nonlinear_arith)
        requires
            0 <= k < r * c,
            0 <= l < r * c,
            c >= 1,
    ;
    if k / c == l / c {
        assert(k % c != l % c) by (nonlinear_arith)
            requires
                k != l,
                c >= 1,
                k / c == l / c,
                0 <= k,
                0 <= l,
        ;
    }
}

// ---------------------------------------------------------------------------
// Keyboard routing
// ---------------------------------------------------------------------------
/// What the orchestrator asks its caller to do after a key: stop, rebuild
/// the grid at a new anchor month, write a draw buffer, or nothing. A
/// travel step that would leave the supported date range is reported as
/// exhaustion, which is fatal for the operation.
pub enum KeyOutcome {
    Quit,
    Travel(Date),
    RangeExhausted,
    Draw(Formatter),
    Idle,
}

/// A travel key's outcome: the anchor the travel computed, or exhaustion
/// exactly when the step would leave the supported date range.
pub open spec fn travel_outcome(cals: Seq<CalendarView>, direction: Direction, r: KeyOutcome) -> bool {
    match r {
        KeyOutcome::Travel(d) => travel_post(cals, direction, Some(d)) && valid_date(d) && d.day
            == 1,
        KeyOutcome::RangeExhausted => travel_post(cals, direction, None::<Date>),
        _ => false,
    }
}

/// What a key is bound to, first binding in the chain wins.
pub enum KeyRole {
    Quit,
    BackTime,
    ForwardTime,
    BackCal,
    ForwardCal,
    MoveLeft,
    MoveRight,
    MoveUp,
    MoveDown,
    CalLeft,
    CalRight,
    CalUp,
    CalDown,
    Other,
}

pub open spec fn key_role(c: Config, key: Key) -> KeyRole {
    if key == c.quit {
        KeyRole::Quit
    } else if key == c.go_back_time {
        KeyRole::BackTime
    } else if key == c.go_forward_time {
        KeyRole::ForwardTime
    } else if key == c.go_back_calendar {
        KeyRole::BackCal
    } else if key == c.go_forward_calendar {
        KeyRole::ForwardCal
    } else if key == c.left {
        KeyRole::MoveLeft
    } else if key == c.right {
        KeyRole::MoveRight
    } else if key == c.up {
        KeyRole::MoveUp
    } else if key == c.down {
        KeyRole::MoveDown
    } else if key == c.calendar_left {
        KeyRole::CalLeft
    } else if key == c.calendar_right {
        KeyRole::CalRight
    } else if key == c.calendar_up {
        KeyRole::CalUp
    } else if key == c.calendar_down {
        KeyRole::CalDown
    } else {
        KeyRole::Other
    }
}

/// The movement direction of an in-tile movement key.
pub open spec fn in_tile_direction(role: KeyRole) -> Direction {
    match role {
        KeyRole::MoveLeft => Direction::Left,
        KeyRole::MoveRight => Direction::Right,
        KeyRole::MoveUp => Direction::Up,
        _ => Direction::Down,
    }
}

/// The grid after the active tile's cursor moves one step.
pub open spec fn in_tile_grid(
    cals: Seq<CalendarView>,
    config: Config,
    idx: int,
    direction: Direction,
) -> Seq<CalendarView> {
    let c = cals[idx];
    cals.update(
        idx,
        select_state(c, config, move_target(c.cursor, c.buttons.len() as int, direction)),
    )
}

pub open spec fn in_tile_ops(
    cals: Seq<CalendarView>,
    config: Config,
    idx: int,
    direction: Direction,
) -> Seq<OpView> {
    let c = cals[idx];
    select_ops(c, config, move_target(c.cursor, c.buttons.len() as int, direction))
}

impl Tui {
    /// Move the active tile's cursor one step.
    fn move_in_tile(&mut self, idx: usize, direction: Direction) -> (r: Formatter)
        requires
            tui_wf(*old(self)),
            idx < grid(*old(self)).len(),
        ensures
            final(self).bounds == old(self).bounds,
            final(self).config == old(self).config,
            final(self).weekdays == old(self).weekdays,
            final(self).quit == old(self).quit,
            grid(*final(self)) == in_tile_grid(
                grid(*old(self)),
                old(self).config,
                idx as int,
                direction,
            ),
            r@ == in_tile_ops(grid(*old(self)), old(self).config, idx as int, direction),
            tui_wf(*final(self)),
    {
        let cfg = self.config;
        let ghost cals0 = grid(*self);
        let mut c = self.calendars.remove(idx);
        proof {
            assert(cal_wf(cals0[idx as int]));
        }
        let f = c.move_cursor(&cfg, direction);
        self.calendars.insert(idx, c);
        proof {
            assert(grid(*self) =~= in_tile_grid(cals0, cfg, idx as int, direction));
            assert forall|k: int| 0 <= k < grid(*self).len() implies cal_wf(
                #[trigger] grid(*self)[k],
            ) by {
                assert(cal_wf(cals0[k]));
                if k == idx as int {
                    assert(grid(*self)[k].buttons.len() == cals0[k].buttons.len());
                }
            }
        }
        f
    }

    /// Route one key press: quit, a time-travel request handed back to the
    /// caller, an in-tile cursor move, a tile change, or nothing. Movement
    /// keys on an empty grid do nothing.
    pub fn handle_key(&mut self, key: Key, index: &mut usize) -> (r: KeyOutcome)
        requires
            tui_wf(*old(self)),
            *old(index) < grid(*old(self)).len() || *old(index) == 0,
        ensures
            final(self).bounds == old(self).bounds,
            final(self).config == old(self).config,
            final(self).weekdays == old(self).weekdays,
            tui_wf(*final(self)),
            *final(index) < grid(*final(self)).len() || *final(index) == 0,
            key_role(old(self).config, key) is Quit ==> r is Quit && final(self).quit && grid(
                *final(self),
            ) == grid(*old(self)) && *final(index) == *old(index),
            !(key_role(old(self).config, key) is Quit) ==> final(self).quit == old(self).quit,
            key_role(old(self).config, key) is BackTime ==> travel_outcome(
                grid(*old(self)),
                Direction::Left,
                r,
            ) && grid(*final(self)) == grid(*old(self)) && *final(index) == *old(index),
            key_role(old(self).config, key) is ForwardTime ==> travel_outcome(
                grid(*old(self)),
                Direction::Right,
                r,
            ) && grid(*final(self)) == grid(*old(self)) && *final(index) == *old(index),
            key_role(old(self).config, key) is BackCal ==> travel_outcome(
                grid(*old(self)),
                Direction::Down,
                r,
            ) && grid(*final(self)) == grid(*old(self)) && *final(index) == *old(index),
            key_role(old(self).config, key) is ForwardCal ==> travel_outcome(
                grid(*old(self)),
                Direction::Up,
                r,
            ) && grid(*final(self)) == grid(*old(self)) && *final(index) == *old(index),
            (key_role(old(self).config, key) is MoveLeft || key_role(old(self).config, key)
                is MoveRight || key_role(old(self).config, key) is MoveUp || key_role(
                old(self).config,
                key,
            ) is MoveDown) && grid(*old(self)).len() > 0 ==> (r matches KeyOutcome::Draw(f) && f@
                == in_tile_ops(
                grid(*old(self)),
                old(self).config,
                *old(index) as int,
                in_tile_direction(key_role(old(self).config, key)),
            )) && grid(*final(self)) == in_tile_grid(
                grid(*old(self)),
                old(self).config,
                *old(index) as int,
                in_tile_direction(key_role(old(self).config, key)),
            ) && *final(index) == *old(index),
            (key_role(old(self).config, key) is MoveLeft || key_role(old(self).config, key)
                is MoveRight || key_role(old(self).config, key) is MoveUp || key_role(
                old(self).config,
                key,
            ) is MoveDown) && grid(*old(self)).len() == 0 ==> r is Idle && grid(*final(self))
                == grid(*old(self)) && *final(index) == *old(index),
            key_role(old(self).config, key) is CalLeft ==> mc_post(
                *old(self),
                *final(self),
                *old(index) as int,
                *final(index) as int,
                r,
                Direction::Left,
            ),
            key_role(old(self).config, key) is CalRight ==> mc_post(
                *old(self),
                *final(self),
                *old(index) as int,
                *final(index) as int,
                r,
                Direction::Right,
            ),
            key_role(old(self).config, key) is CalUp ==> mc_post(
                *old(self),
                *final(self),
                *old(index) as int,
                *final(index) as int,
                r,
                Direction::Up,
            ),
            key_role(old(self).config, key) is CalDown ==> mc_post(
                *old(self),
                *final(self),
                *old(index) as int,
                *final(index) as int,
                r,
                Direction::Down,
            ),
            key_role(old(self).config, key) is Other ==> r is Idle && grid(*final(self)) == grid(
                *old(self),
            ) && *final(index) == *old(index),
    {
        let config = self.config;
        if key == config.quit {
            self.quit = true;
            KeyOutcome::Quit
        } else if key == config.go_back_time {
            match self.time_travel(Direction::Left) {
                Some(d) => KeyOutcome::Travel(d),
                None => KeyOutcome::RangeExhausted,
            }
        } else if key == config.go_forward_time {
            match self.time_travel(Direction::Right) {
                Some(d) => KeyOutcome::Travel(d),
                None => KeyOutcome::RangeExhausted,
            }
        } else if key == config.go_back_calendar {
            match self.time_travel(Direction::Down) {
                Some(d) => KeyOutcome::Travel(d),
                None => KeyOutcome::RangeExhausted,
            }
        } else if key == config.go_forward_calendar {
            match self.time_travel(Direction::Up) {
                Some(d) => KeyOutcome::Travel(d),
                None => KeyOutcome::RangeExhausted,
            }
        } else if key == config.left {
            if self.calendars.len() == 0 {
                KeyOutcome::Idle
            } else {
                KeyOutcome::Draw(self.move_in_tile(*index, Direction::Left))
            }
        } else if key == config.right {
            if self.calendars.len() == 0 {
                KeyOutcome::Idle
            } else {
                KeyOutcome::Draw(self.move_in_tile(*index, Direction::Right))
            }
        } else if key == config.up {
            if self.calendars.len() == 0 {
                KeyOutcome::Idle
            } else {
                KeyOutcome::Draw(self.move_in_tile(*index, Direction::Up))
            }
        } else if key == config.down {
            if self.calendars.len() == 0 {
                KeyOutcome::Idle
            } else {
                KeyOutcome::Draw(self.move_in_tile(*index, Direction::Down))
            }
        } else if key == config.calendar_left {
            KeyOutcome::Draw(self.move_calendar(index, Direction::Left))
        } else if key == config.calendar_right {
            KeyOutcome::Draw(self.move_calendar(index, Direction::Right))
        } else if key == config.calendar_up {
            KeyOutcome::Draw(self.move_calendar(index, Direction::Up))
        } else if key == config.calendar_down {
            KeyOutcome::Draw(self.move_calendar(index, Direction::Down))
        } else {
            KeyOutcome::Idle
        }
    }
}

/// A tile-change key did to the state what a tile change does, and handed
/// back its draw buffer.
pub open spec fn mc_post(
    pre: Tui,
    post: Tui,
    idx: int,
    idx2: int,
    r: KeyOutcome,
    direction: Direction,
) -> bool {
    &&& grid(post) == mc_grid(grid(pre), pre.config, grid_cols(pre.bounds), idx, direction)
    &&& (r matches KeyOutcome::Draw(f) && f@ == mc_ops(
        grid(pre),
        pre.config,
        grid_cols(pre.bounds),
        idx,
        direction,
    ))
    &&& idx2 == mc_index(grid(pre).len() as int, grid_cols(pre.bounds), idx, direction)
}

impl Tui {
    /// Rebuild everything for a new anchor month, terminal size and
    /// configuration, and hand back the full frame to draw. Refused - with
    /// nothing changed - when the grid would run past the last supported
    /// month.
    pub fn reset(&mut self, date: Date, bounds: Position, config: Config) -> (r: Option<
        Formatter,
    >)
        requires
            valid_date(date),
            date.day == 1,
        ensures
            r is None <==> month_index(date) + grid_rows(bounds) * grid_cols(bounds)
                > month_index(Date { year: MAX_YEAR, month: 12, day: 1 }),
            r is None ==> *final(self) == *old(self),
            r is Some ==> final(self).bounds == bounds && final(self).config == config,
            r is Some ==> final(self).quit == old(self).quit,
            r is Some ==> final(self).weekdays.text@ == "SunMonTueWedThuFriSat "@,
            r is Some ==> final(self).weekdays.color == config.weekday_bg_color,
            r is Some ==> tui_wf(*final(self)),
            r is Some ==> grid(*final(self)).len() == grid_rows(bounds) * grid_cols(bounds),
            r is Some ==> forall|k: int|
                0 <= k < grid(*final(self)).len() ==> grid(*final(self))[k] == built_calendar(
                    config,
                    date,
                    grid_cols(bounds),
                    k,
                ),
            r matches Some(f) ==> f@ == seq![
                OpView::FillRect(
                    Position { x: 1, y: 1 },
                    Position { x: bounds.x, y: bounds.y },
                    config.bg_color,
                ),
            ] + grid_ops(
                grid(*final(self)),
                "SunMonTueWedThuFriSat "@,
                config.weekday_bg_color,
            ),
    {
        let rows = get_rows(&bounds);
        let columns = get_columns(&bounds);
        proof {
            assert(rows * columns <= 12_800_000) by (nonlinear_arith)
                requires
                    0 <= rows <= 4681,
                    0 <= columns <= 2730,
            ;
        }
        let need = rows * columns;
        let have: u64 = 12 * (MAX_YEAR as u64 - date.year as u64) + (12 - date.month as u64);
        if need as u64 > have {
            return None;
        }
        self.bounds = bounds;
        self.config = config;
        self.weekdays = TextBox::new(
            get_weekdays(),
            Position::new_center(&bounds),
            config.weekday_bg_color,
        );
        self.create_calendars(date);
        Some(self.draw_calendars())
    }
}

// ---------------------------------------------------------------------------
// The single-highlight invariant
// ---------------------------------------------------------------------------
/// Exactly one button of the whole grid shows the highlight: the active
/// tile's cursor button; every other button rests.
pub open spec fn grid_selected_at(cals: Seq<CalendarView>, config: Config, idx: int) -> bool {
    &&& forall|k: int|
        0 <= k < cals.len() && k != idx ==> calendar_resting(#[trigger] cals[k], config)
    &&& 0 <= idx < cals.len()
    &&& calendar_selected_at(cals[idx], config, cals[idx].cursor)
}

/// An in-tile cursor move keeps exactly one button highlighted.
pub proof fn lemma_in_tile_single_highlight(
    cals: Seq<CalendarView>,
    config: Config,
    idx: int,
    direction: Direction,
)
    requires
        0 <= idx < cals.len(),
        0 <= cals[idx].cursor < cals[idx].buttons.len(),
        grid_selected_at(cals, config, idx),
    ensures
        grid_selected_at(in_tile_grid(cals, config, idx, direction), config, idx),
{
    let c = cals[idx];
    let target = move_target(c.cursor, c.buttons.len() as int, direction);
    lemma_select_from_selected(c, config, target);
}

/// A tile change with the unselect-on-change behaviour keeps exactly one
/// button highlighted: the destination tile's cursor button. Without
/// either flag the outgoing tile's button keeps its paint, so the claim
/// needs the flags.
pub proof fn lemma_move_calendar_single_highlight(
    cals: Seq<CalendarView>,
    config: Config,
    cols: int,
    idx: int,
    direction: Direction,
)
    requires
        mc_unselects(config),
        grid_selected_at(cals, config, idx),
        0 <= cals[idx].cursor < cals[idx].buttons.len(),
        !mc_blocked(cals.len() as int, cols, idx, direction),
        0 <= mc_dest(cols, idx, direction) < cals.len(),
        mc_dest(cols, idx, direction) != idx,
        0 <= cals[mc_dest(cols, idx, direction)].cursor < cals[mc_dest(
            cols,
            idx,
            direction,
        )].buttons.len(),
    ensures
        grid_selected_at(
            mc_grid(cals, config, cols, idx, direction),
            config,
            mc_dest(cols, idx, direction),
        ),
{
    let dst = mc_dest(cols, idx, direction);
    lemma_unselect_rests(cals[idx], config);
    let cs1 = cals.update(idx, mc_outgoing(cals[idx], config));
    assert(calendar_resting(cs1[idx], config));
    assert(cs1[dst] == cals[dst]);
    crate::calendar::lemma_select_highlights(cs1[dst], config, cs1[dst].cursor);
}

/// A blocked tile change leaves the selection exactly where it was.
pub proof fn lemma_move_calendar_blocked(
    cals: Seq<CalendarView>,
    config: Config,
    cols: int,
    idx: int,
    direction: Direction,
)
    requires
        mc_blocked(cals.len() as int, cols, idx, direction),
    ensures
        mc_grid(cals, config, cols, idx, direction) == cals,
        mc_index(cals.len() as int, cols, idx, direction) == idx,
        mc_ops(cals, config, cols, idx, direction) == Seq::<OpView>::empty(),
{
}

} // verus!
