use vstd::prelude::*;

use crate::config::Config;
use crate::date::{
    month_length, month_year_of, month_year_text, today, valid_date, weekday, weekday_from_sunday,
    Date,
};
use crate::position::{Direction, Position};
use crate::terminal::{Color, Formatter, OpView};
use crate::tui::{
    button_day_bounded, button_ops, text_box_ops, Button, ButtonType, ButtonTypeView, ButtonView,
    TextBox, Widget,
};

verus! {

/// One month tile: a header button, one button per day, and a cursor into
/// that button list.
pub struct Calendar {
    pub start_date: Date,
    pub start: Position,
    pub end: Position,
    pub buttons: Vec<Button>,
    pub cursor: usize,
    pub bg_color: Color,
}

pub struct CalendarView {
    pub start_date: Date,
    pub start: Position,
    pub end: Position,
    pub buttons: Seq<ButtonView>,
    pub cursor: int,
    pub bg_color: Color,
}

impl View for Calendar {
    type V = CalendarView;

    open spec fn view(&self) -> CalendarView {
        CalendarView {
            start_date: self.start_date,
            start: self.start,
            end: self.end,
            buttons: self.buttons@.map_values(|b: Button| b@),
            cursor: self.cursor as int,
            bg_color: self.bg_color,
        }
    }
}

/// The whole tile, 22 cells wide and 13 tall, stays inside the coordinate
/// space.
pub open spec fn tile_fits(start: Position) -> bool {
    &&& 1 <= start.x
    &&& 1 <= start.y
    &&& start.x + 21 <= u16::MAX
    &&& start.y + 12 <= u16::MAX
}

/// The resting background of a button, by its kind: headers and days rest
/// on different colors.
pub open spec fn resting_bg(config: Config, kind: ButtonTypeView) -> Color {
    match kind {
        ButtonTypeView::TextButton(_) => config.text_button_bg_color,
        ButtonTypeView::CalanderDate(_) => config.date_bg_color,
    }
}

/// The highlight background of a button, by its kind.
pub open spec fn select_bg(config: Config, kind: ButtonTypeView) -> Color {
    match kind {
        ButtonTypeView::TextButton(_) => config.select_bg_text_button_color,
        ButtonTypeView::CalanderDate(_) => config.select_bg_date_color,
    }
}

pub open spec fn header_button(config: Config, d: Date, start: Position) -> ButtonView {
    ButtonView {
        button_data: ButtonTypeView::TextButton(month_year_text(d)),
        start_position: start,
        end_position: Position { x: (start.x + 21) as u16, y: start.y },
        bg_color: config.text_button_bg_color,
        fg_color: config.month_text_color,
    }
}

/// Where the day button `i` days after the tile's first rendered day sits:
/// three cells per weekday column, two rows per week.
pub open spec fn day_button_pos(start: Position, w: int, i: int) -> Position {
    Position {
        x: (start.x + 1 + 3 * ((w + i) % 7)) as u16,
        y: (start.y + 2 + 2 * ((w + i) / 7)) as u16,
    }
}

pub open spec fn day_button(config: Config, d: Date, pos: Position) -> ButtonView {
    ButtonView {
        button_data: ButtonTypeView::CalanderDate(d),
        start_position: pos,
        end_position: Position { x: (pos.x + 1) as u16, y: pos.y },
        bg_color: config.date_bg_color,
        fg_color: config.date_num_color,
    }
}

/// How many days the tile renders: from its start date to the end of that
/// month.
pub open spec fn days_in_rest(d: Date) -> int {
    month_length(d.year as int, d.month as int) - d.day + 1
}

/// The full button list of a tile: the header, then one button per day in
/// date order, each at its weekday column and week row.
pub open spec fn calendar_buttons(config: Config, d: Date, start: Position) -> Seq<ButtonView> {
    seq![header_button(config, d, start)] + Seq::new(
        days_in_rest(d) as nat,
        |i: int|
            day_button(
                config,
                Date { year: d.year, month: d.month, day: (d.day + i) as u8 },
                day_button_pos(start, weekday_from_sunday(d), i),
            ),
    )
}

/// Every day button's payload fits its two text cells.
pub open spec fn buttons_bounded(c: CalendarView) -> bool {
    forall|j: int| 0 <= j < c.buttons.len() ==> button_day_bounded(#[trigger] c.buttons[j])
}

fn dup_button_data(data: &ButtonType) -> (r: ButtonType)
    ensures
        r@ == data@,
{
    match data {
        ButtonType::TextButton(t) => ButtonType::TextButton(t.clone()),
        ButtonType::CalanderDate(d) => ButtonType::CalanderDate(*d),
    }
}

/// The state after the cursor's button is repainted to its resting color.
pub open spec fn unselect_state(c: CalendarView, config: Config) -> CalendarView {
    if 0 <= c.cursor < c.buttons.len() {
        let b = c.buttons[c.cursor];
        let b2 = ButtonView { bg_color: resting_bg(config, b.button_data), ..b };
        CalendarView { buttons: c.buttons.update(c.cursor, b2), ..c }
    } else {
        c
    }
}

/// What unselecting draws: the repainted button, or nothing.
pub open spec fn unselect_ops(c: CalendarView, config: Config) -> Seq<OpView> {
    if 0 <= c.cursor < c.buttons.len() {
        let b = c.buttons[c.cursor];
        let b2 = ButtonView { bg_color: resting_bg(config, b.button_data), ..b };
        button_ops(b2)
    } else {
        Seq::empty()
    }
}

/// The state after the selection moves to `index_to`: the old cursor's
/// button rests, the new one is highlighted, and the cursor follows. An
/// index outside the list changes nothing.
pub open spec fn select_state(c: CalendarView, config: Config, index_to: int) -> CalendarView {
    if !(0 <= index_to < c.buttons.len()) {
        c
    } else {
        let c1 = if c.cursor != index_to {
            unselect_state(c, config)
        } else {
            c
        };
        let b = c1.buttons[index_to];
        let b2 = ButtonView { bg_color: select_bg(config, b.button_data), ..b };
        CalendarView { buttons: c1.buttons.update(index_to, b2), cursor: index_to, ..c1 }
    }
}

pub open spec fn select_ops(c: CalendarView, config: Config, index_to: int) -> Seq<OpView> {
    if !(0 <= index_to < c.buttons.len()) {
        Seq::empty()
    } else {
        let c1 = if c.cursor != index_to {
            unselect_state(c, config)
        } else {
            c
        };
        let f1 = if c.cursor != index_to {
            unselect_ops(c, config)
        } else {
            Seq::empty()
        };
        let b = c1.buttons[index_to];
        let b2 = ButtonView { bg_color: select_bg(config, b.button_data), ..b };
        f1 + button_ops(b2)
    }
}

/// Where a cursor movement lands: up and down jump a week, left and right
/// one day, all clamped to the button list.
pub open spec fn move_target(cursor: int, len: int, direction: Direction) -> int {
    match direction {
        Direction::Up => if cursor <= 7 {
            0
        } else {
            cursor - 7
        },
        Direction::Down => if cursor + 7 >= len {
            len - 1
        } else {
            cursor + 7
        },
        Direction::Left => if cursor == 0 {
            0
        } else {
            cursor - 1
        },
        Direction::Right => if cursor + 1 >= len {
            len - 1
        } else {
            cursor + 1
        },
    }
}

impl Widget for Calendar {
    open spec fn start_spec(&self) -> Position {
        self.start
    }

    open spec fn end_spec(&self) -> Position {
        self.end
    }

    fn get_start(&self) -> (r: Position)
        ensures
            r == self.start_spec(),
    {
        self.start
    }

    fn get_end(&self) -> (r: Position)
        ensures
            r == self.end_spec(),
    {
        self.end
    }
}

impl Calendar {
    /// Build the tile for the month of `start_date` with its top-left cell
    /// at `start`.
    pub fn new(start_date: Date, start: Position, config: &Config) -> (r: Self)
        requires
            valid_date(start_date),
            tile_fits(start),
        ensures
            r@.start_date == start_date,
            r@.start == start,
            r@.end == (Position { x: (start.x + 21) as u16, y: (start.y + 12) as u16 }),
            r@.cursor == 0,
            r@.bg_color == config.calendar_bg_color,
            r@.buttons == calendar_buttons(*config, start_date, start),
    {
        let mut calendar = Calendar {
            start_date,
            start,
            end: Position::new(start.get_x() + 21, start.get_y() + 12),
            buttons: Vec::new(),
            cursor: 0,
            bg_color: config.calendar_bg_color,
        };
        calendar.setup(config);
        calendar
    }

    /// A placeholder tile; the builder overwrites every one before the grid
    /// is used.
    pub fn dummy(config: &Config) -> (r: Self)
        ensures
            r@.buttons.len() == 0,
            r@.cursor == 0,
            valid_date(r@.start_date),
            r@.bg_color == config.calendar_bg_color,
            r@.start == (Position { x: 1, y: 1 }),
            r@.end == (Position { x: 1, y: 1 }),
    {
        Calendar {
            start_date: today(),
            start: Position::new_origin(),
            end: Position::new_origin(),
            buttons: Vec::new(),
            cursor: 0,
            bg_color: config.calendar_bg_color,
        }
    }

    fn setup(&mut self, config: &Config)
        requires
            old(self).buttons@.len() == 0,
            valid_date(old(self).start_date),
            tile_fits(old(self).start),
        ensures
            final(self)@.buttons == calendar_buttons(*config, old(self).start_date, old(
                self,
            ).start),
            final(self).start_date == old(self).start_date,
            final(self).start == old(self).start,
            final(self).end == old(self).end,
            final(self).cursor == old(self).cursor,
            final(self).bg_color == old(self).bg_color,
    {
        let d = self.start_date;
        let ghost all = calendar_buttons(*config, d, self.start);
        let header = Button {
            button_data: ButtonType::TextButton(month_year_of(&d)),
            start_position: self.start,
            end_position: Position::new(self.start.get_x() + 21, self.start.get_y()),
            bg_color: config.text_button_bg_color,
            fg_color: config.month_text_color,
        };
        self.buttons.push(header);
        proof {
            assert(self@.buttons =~= all.take(1));
        }
        let w = weekday(&d);
        let ml = crate::date::month_length_of(d.year, d.month);
        let days: u8 = ml - d.day + 1;
        let mut i: u8 = 0;
        while i < days
            invariant
                valid_date(d),
                tile_fits(self.start),
                d == self.start_date,
                w == weekday_from_sunday(d),
                w < 7,
                days == days_in_rest(d),
                d.day + days == month_length(d.year as int, d.month as int) + 1,
                i <= days,
                all == calendar_buttons(*config, d, self.start),
                self@.buttons == all.take(1 + i as int),
                self.start == old(self).start,
                self.start_date == old(self).start_date,
                self.end == old(self).end,
                self.cursor == old(self).cursor,
                self.bg_color == old(self).bg_color,
            decreases days - i,
        {
            let ghost prev = self@.buttons;
            let wi: u8 = (w + i) % 7;
            let row: u8 = (w + i) / 7;
            let x: u16 = self.start.get_x() + 1 + 3 * (wi as u16);
            let y: u16 = self.start.get_y() + 2 + 2 * (row as u16);
            let date_i = Date { year: d.year, month: d.month, day: d.day + i };
            let button = Button {
                button_data: ButtonType::CalanderDate(date_i),
                start_position: Position::new(x, y),
                end_position: Position::new(x + 1, y),
                bg_color: config.date_bg_color,
                fg_color: config.date_num_color,
            };
            self.buttons.push(button);
            i = i + 1;
            proof {
                assert(all[i as int] == day_button(
                    *config,
                    date_i,
                    day_button_pos(self.start, w as int, i - 1),
                ));
                assert(self@.buttons =~= prev.push(all[i as int]));
                assert(all.take(1 + i as int) =~= all.take(i as int).push(all[i as int]));
            }
        }
        proof {
            assert(all.take(1 + days as int) =~= all);
        }
    }

    /// Move the in-tile cursor one step and repaint the highlight; the
    /// cursor never leaves the button list.
    pub fn move_cursor(&mut self, config: &Config, direction: Direction) -> (r: Formatter)
        requires
            old(self)@.buttons.len() >= 1,
            old(self)@.cursor < old(self)@.buttons.len(),
            buttons_bounded(old(self)@),
        ensures
            final(self)@ == select_state(
                old(self)@,
                *config,
                move_target(old(self)@.cursor, old(self)@.buttons.len() as int, direction),
            ),
            r@ == select_ops(
                old(self)@,
                *config,
                move_target(old(self)@.cursor, old(self)@.buttons.len() as int, direction),
            ),
            0 <= final(self)@.cursor < old(self)@.buttons.len(),
    {
        let len = self.buttons.len();
        let index_to: usize = match direction {
            Direction::Up => if self.cursor <= 7 {
                0
            } else {
                self.cursor - 7
            },
            Direction::Down => if len - self.cursor <= 7 {
                len - 1
            } else {
                self.cursor + 7
            },
            Direction::Left => if self.cursor == 0 {
                0
            } else {
                self.cursor - 1
            },
            Direction::Right => if len - self.cursor <= 1 {
                len - 1
            } else {
                self.cursor + 1
            },
        };
        self.select_button(config, index_to)
    }

    /// Move the highlight to the given button: repaint the old cursor's
    /// button to its resting color, the new one to its highlight color.
    pub fn select_button(&mut self, config: &Config, index_to: usize) -> (r: Formatter)
        requires
            buttons_bounded(old(self)@),
        ensures
            final(self)@ == select_state(old(self)@, *config, index_to as int),
            r@ == select_ops(old(self)@, *config, index_to as int),
    {
        let mut format = Formatter::new();
        if index_to >= self.buttons.len() {
            return format;
        }
        if self.cursor != index_to {
            let un = self.unselect_button(config);
            format.append(&un);
            proof {
                assert(self@.buttons.len() == old(self)@.buttons.len());
                assert forall|j: int| 0 <= j < self@.buttons.len() implies button_day_bounded(
                    #[trigger] self@.buttons[j],
                ) by {
                    if j != old(self)@.cursor {
                        assert(self@.buttons[j] == old(self)@.buttons[j]);
                    }
                }
            }
        }
        let b = &self.buttons[index_to];
        let new_bg = match &b.button_data {
            ButtonType::TextButton(_) => config.select_bg_text_button_color,
            ButtonType::CalanderDate(_) => config.select_bg_date_color,
        };
        let nb = Button {
            button_data: dup_button_data(&b.button_data),
            start_position: b.start_position,
            end_position: b.end_position,
            bg_color: new_bg,
            fg_color: b.fg_color,
        };
        let ghost before = self@.buttons;
        proof {
            assert(button_day_bounded(self@.buttons[index_to as int]));
            assert(button_day_bounded(nb@));
        }
        let draw = nb.draw_format();
        format.append(&draw);
        self.buttons.set(index_to, nb);
        self.cursor = index_to;
        proof {
            assert(self@.buttons =~= before.update(index_to as int, nb@));
            assert(format@ =~= select_ops(old(self)@, *config, index_to as int));
        }
        format
    }

    /// Repaint the cursor's button back to its resting color; unselecting a
    /// button that is not highlighted repaints it with the color it already
    /// shows.
    pub fn unselect_button(&mut self, config: &Config) -> (r: Formatter)
        requires
            buttons_bounded(old(self)@),
        ensures
            final(self)@ == unselect_state(old(self)@, *config),
            r@ == unselect_ops(old(self)@, *config),
    {
        let mut format = Formatter::new();
        if self.cursor < self.buttons.len() {
            let idx = self.cursor;
            let b = &self.buttons[idx];
            let new_bg = match &b.button_data {
                ButtonType::TextButton(_) => config.text_button_bg_color,
                ButtonType::CalanderDate(_) => config.date_bg_color,
            };
            let nb = Button {
                button_data: dup_button_data(&b.button_data),
                start_position: b.start_position,
                end_position: b.end_position,
                bg_color: new_bg,
                fg_color: b.fg_color,
            };
            let ghost before = self@.buttons;
            let draw = nb.draw_format();
            format.append(&draw);
            self.buttons.set(idx, nb);
            proof {
                assert(self@.buttons =~= before.update(idx as int, nb@));
            }
        }
        format
    }

    pub fn get_start_date(&self) -> (r: Date)
        ensures
            r == self.start_date,
    {
        self.start_date
    }

    /// The draw primitives of the whole tile: its background box, every
    /// button, then the weekday strip under the header.
    pub fn draw_format(&self, weekdays: &TextBox) -> (r: Formatter)
        requires
            buttons_bounded(self@),
            self.start.y + 1 <= u16::MAX,
        ensures
            r@ == calendar_draw_ops(self@, weekdays.text@, weekdays.color),
    {
        let mut format = Formatter::new().create_box(&self.start, &self.end, &self.bg_color);
        let n = self.buttons.len();
        let mut i: usize = 0;
        proof {
            assert(format@ =~= seq![OpView::FillRect(self.start, self.end, self.bg_color)]
                + concat_ops(self@.buttons.take(0)));
        }
        while i < n
            invariant
                n == self.buttons.len(),
                i <= n,
                buttons_bounded(self@),
                format@ == seq![OpView::FillRect(self.start, self.end, self.bg_color)]
                    + concat_ops(self@.buttons.take(i as int)),
            decreases n - i,
        {
            proof {
                assert(button_day_bounded(self@.buttons[i as int]));
            }
            let draw = self.buttons[i].draw_format();
            format.append(&draw);
            i = i + 1;
            proof {
                assert(self@.buttons.take(i as int).drop_last() =~= self@.buttons.take(
                    i as int - 1,
                ));
                assert(self@.buttons.take(i as int).last() == self@.buttons[i - 1]);
            }
        }
        proof {
            assert(self@.buttons.take(n as int) =~= self@.buttons);
        }
        let strip = TextBox::new(
            weekdays.text.clone(),
            Position::new(self.start.get_x(), self.start.get_y() + 1),
            weekdays.color,
        );
        let strip_draw = strip.draw_format();
        format.append(&strip_draw);
        proof {
            assert(format@ =~= calendar_draw_ops(self@, weekdays.text@, weekdays.color));
        }
        format
    }
}

/// The draw primitives of a button list, in order.
pub open spec fn concat_ops(bs: Seq<ButtonView>) -> Seq<OpView>
    decreases bs.len(),
{
    if bs.len() == 0 {
        Seq::empty()
    } else {
        concat_ops(bs.drop_last()) + button_ops(bs.last())
    }
}

pub open spec fn calendar_draw_ops(c: CalendarView, wd_text: Seq<char>, wd_color: Color) -> Seq<
    OpView,
> {
    seq![OpView::FillRect(c.start, c.end, c.bg_color)] + concat_ops(c.buttons) + text_box_ops(
        wd_text,
        Position { x: c.start.x, y: (c.start.y + 1) as u16 },
        wd_color,
    )
}

/// The weekday strip text, one three-letter name per column.
pub fn get_weekdays() -> (r: String)
    ensures
        r@ == "SunMonTueWedThuFriSat "@,
{
    String::from_str("SunMonTueWedThuFriSat ")
}


/// The buttons a tile build produces are well formed: one header and one
/// button per remaining day, each day payload within its month.
pub proof fn lemma_calendar_buttons_wf(config: Config, d: Date, start: Position)
    requires
        valid_date(d),
    ensures
        calendar_buttons(config, d, start).len() == 1 + days_in_rest(d),
        1 <= days_in_rest(d) <= 31,
        forall|j: int|
            0 <= j < calendar_buttons(config, d, start).len() ==> button_day_bounded(
                #[trigger] calendar_buttons(config, d, start)[j],
            ),
        forall|j: int|
            0 <= j < calendar_buttons(config, d, start).len() ==> (
            #[trigger] calendar_buttons(config, d, start)[j]).bg_color == resting_bg(
                config,
                calendar_buttons(config, d, start)[j].button_data,
            ),
{
    let bs = calendar_buttons(config, d, start);
    assert forall|j: int| 0 <= j < bs.len() implies button_day_bounded(#[trigger] bs[j])
        && bs[j].bg_color == resting_bg(config, bs[j].button_data) by {
        if j == 0 {
            assert(bs[j] == header_button(config, d, start));
        } else {
            assert(bs[j] == day_button(
                config,
                Date { year: d.year, month: d.month, day: (d.day + j - 1) as u8 },
                day_button_pos(start, weekday_from_sunday(d), j - 1),
            ));
        }
    }
}

/// The shape a tile build guarantees: one header then one button per day;
/// day `i` carries the `i`-th calendar day after the start date and sits
/// three cells per weekday column right of the tile edge, two rows per
/// week below the weekday strip.
pub proof fn lemma_calendar_buttons_shape(config: Config, d: Date, start: Position, i: int)
    requires
        valid_date(d),
        tile_fits(start),
        0 <= i < days_in_rest(d),
    ensures
        calendar_buttons(config, d, start).len() == 1 + days_in_rest(d),
        calendar_buttons(config, d, start)[0] == header_button(config, d, start),
        calendar_buttons(config, d, start)[1 + i].button_data == ButtonTypeView::CalanderDate(
            Date { year: d.year, month: d.month, day: (d.day + i) as u8 },
        ),
        calendar_buttons(config, d, start)[1 + i].start_position.x == start.x + 1 + 3 * ((
        weekday_from_sunday(d) + i) % 7),
        calendar_buttons(config, d, start)[1 + i].start_position.y == start.y + 2 + 2 * ((
        weekday_from_sunday(d) + i) / 7),
    decreases 0int,
{
    let bs = calendar_buttons(config, d, start);
    crate::date::lemma_max_day_index(d);
    assert(0 <= weekday_from_sunday(d) < 7);
    assert(bs[1 + i] == day_button(
        config,
        Date { year: d.year, month: d.month, day: (d.day + i) as u8 },
        day_button_pos(start, weekday_from_sunday(d), i),
    ));
}

/// Unselecting a tile whose cursor button is the only highlighted one
/// puts the whole tile to rest.
pub proof fn lemma_unselect_rests(c: CalendarView, config: Config)
    requires
        0 <= c.cursor < c.buttons.len(),
        calendar_selected_at(c, config, c.cursor),
    ensures
        calendar_resting(unselect_state(c, config), config),
{
}

/// Selecting in a tile whose cursor button is the only highlighted one
/// moves the highlight: afterwards exactly the chosen button shows it.
pub proof fn lemma_select_from_selected(c: CalendarView, config: Config, i: int)
    requires
        0 <= c.cursor < c.buttons.len(),
        calendar_selected_at(c, config, c.cursor),
        0 <= i < c.buttons.len(),
    ensures
        calendar_selected_at(select_state(c, config, i), config, i),
        select_state(c, config, i).cursor == i,
{
    if c.cursor != i {
        lemma_unselect_rests(c, config);
        lemma_select_highlights(unselect_state(c, config), config, i);
    }
}

/// Every button shows its resting colors.
pub open spec fn calendar_resting(c: CalendarView, config: Config) -> bool {
    forall|j: int|
        0 <= j < c.buttons.len() ==> (#[trigger] c.buttons[j]).bg_color == resting_bg(
            config,
            c.buttons[j].button_data,
        )
}

/// Every button rests except the one at `i`, which shows its highlight
/// color.
pub open spec fn calendar_selected_at(c: CalendarView, config: Config, i: int) -> bool {
    &&& forall|j: int|
        0 <= j < c.buttons.len() && j != i ==> (#[trigger] c.buttons[j]).bg_color == resting_bg(
            config,
            c.buttons[j].button_data,
        )
    &&& 0 <= i < c.buttons.len() ==> c.buttons[i].bg_color == select_bg(
        config,
        c.buttons[i].button_data,
    )
}

/// Selecting a button in a resting tile highlights exactly that button.
pub proof fn lemma_select_highlights(c: CalendarView, config: Config, i: int)
    requires
        calendar_resting(c, config),
        0 <= i < c.buttons.len(),
    ensures
        calendar_selected_at(select_state(c, config, i), config, i),
        select_state(c, config, i).cursor == i,
{
}

/// Unselecting after selecting restores every button of a resting tile,
/// headers to the header resting color and days to the day resting color.
pub proof fn lemma_select_unselect_roundtrip(c: CalendarView, config: Config, i: int)
    requires
        calendar_resting(c, config),
        0 <= i < c.buttons.len(),
    ensures
        unselect_state(select_state(c, config, i), config).buttons =~= c.buttons,
        unselect_state(select_state(c, config, i), config).cursor == i,
{
    let c1 = select_state(c, config, i);
    let c2 = unselect_state(c1, config);
    assert forall|j: int| 0 <= j < c.buttons.len() implies c2.buttons[j] == c.buttons[j] by {
        if j == i {
        } else if j == c.cursor {
        }
    }
}

} // verus!
