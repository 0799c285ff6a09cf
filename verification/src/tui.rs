//! The dashboard's state: the day selected in the calendar, the application
//! list with at most one application expanded into its pages, and what each
//! key does to them.
use vstd::prelude::*;
use crate::calendar::{
    date_add_days, date_from_ymd, date_sub_days, date_with_day, day_number, days_in_month,
    last_day_of, lemma_day_number_injective, max_date, max_year, min_date, valid_date,
    weekday_from_monday, weekday_index, Date,
};

verus! {

/// Which pane the arrow keys drive.
#[derive(Debug, Clone, Copy, PartialEq, Eq)]
pub enum Focus {
    Calendar,
    Detail,
}

// ---------------------------------------------------------------------------
// The calendar cursor
// ---------------------------------------------------------------------------

/// The month shown (as its first day) and the day selected in it.
#[derive(Debug, Clone, Copy, PartialEq, Eq)]
pub struct CalendarCursor {
    pub cal_month: Date,
    pub cal_day: u32,
}

impl CalendarCursor {
    pub open spec fn selected(&self) -> Date {
        Date { year: self.cal_month.year, month: self.cal_month.month, day: self.cal_day }
    }

    pub open spec fn well_formed(&self) -> bool {
        &&& valid_date(self.cal_month)
        &&& self.cal_month.day == 1
        &&& valid_date(self.selected())
    }

    /// The cursor on `today`, showing its month.
    pub fn at(today: &Date) -> (c: CalendarCursor)
        requires
            valid_date(*today),
        ensures
            c.well_formed(),
            c.selected() == *today,
    {
        let first = date_with_day(today, 1).unwrap();
        CalendarCursor { cal_month: first, cal_day: today.day }
    }

    /// The selected date.
    pub fn selected_date(&self) -> (d: Date)
        requires
            self.well_formed(),
        ensures
            d == self.selected(),
    {
        date_with_day(&self.cal_month, self.cal_day).unwrap()
    }

    /// The cursor `delta_days` days later (earlier when negative), and whether
    /// the shown month changed; `None` when that day is outside chrono's range.
    pub fn moved(&self, delta_days: i64) -> (r: Option<(CalendarCursor, bool)>)
        requires
            self.well_formed(),
            delta_days > i64::MIN,
        ensures
            r is Some <==> day_number(min_date()) <= day_number(self.selected()) + delta_days
                <= day_number(max_date()),
            r matches Some((c, changed)) ==> {
                &&& c.well_formed()
                &&& day_number(c.selected()) == day_number(self.selected()) + delta_days
                &&& changed == (c.cal_month != self.cal_month)
            },
    {
        let current = self.selected_date();
        let new = if delta_days >= 0 {
            date_add_days(&current, delta_days as u64)
        } else {
            date_sub_days(&current, (-delta_days) as u64)
        };
        match new {
            Some(new) => {
                let changed_month = new.month != self.cal_month.month || new.year
                    != self.cal_month.year;
                if changed_month {
                    let first = date_from_ymd(new.year, new.month, 1).unwrap();
                    Some((CalendarCursor { cal_month: first, cal_day: new.day }, true))
                } else {
                    Some((CalendarCursor { cal_month: self.cal_month, cal_day: new.day }, false))
                }
            },
            None => None,
        }
    }
}

/// Moving the selection and moving it back returns to the same day and month:
/// a step to the next day undoes a step to the previous one, and so on.
pub proof fn law_move_and_back(c: CalendarCursor, there: CalendarCursor, back: CalendarCursor, delta: int)
    requires
        c.well_formed(),
        there.well_formed(),
        back.well_formed(),
        day_number(there.selected()) == day_number(c.selected()) + delta,
        day_number(back.selected()) == day_number(there.selected()) - delta,
    ensures
        back == c,
{
    lemma_day_number_injective(back.selected(), c.selected());
    assert(back.cal_month == c.cal_month);
}

// ---------------------------------------------------------------------------
// The application list
// ---------------------------------------------------------------------------

/// The application table: `n_apps` applications, the one at `expanded_app`
/// followed by its `n_pages` pages, the row `selected`, the first row shown
/// `scroll`.
#[derive(Debug, Clone, Copy, PartialEq, Eq)]
pub struct TableState {
    pub focus: Focus,
    pub selected: usize,
    pub scroll: usize,
    pub expanded_app: Option<usize>,
    pub n_apps: usize,
    pub n_pages: usize,
}

/// A key, as far as the dashboard tells keys apart.
#[derive(Debug, Clone, Copy, PartialEq, Eq)]
pub enum Key {
    Char(char),
    Esc,
    Left,
    Right,
    Up,
    Down,
    Enter,
    Tab,
    Other,
}

/// What the dashboard does after a key, besides the table changes made by
/// `TableState::on_key`.
#[derive(Debug, Clone, Copy, PartialEq, Eq)]
pub enum KeyAction {
    Nothing,
    Quit,
    /// Move the selected day by this many days.
    MoveDays(i64),
    /// Expand or collapse the pages of this application.
    Toggle(usize),
}

impl TableState {
    pub open spec fn well_formed(&self) -> bool {
        &&& self.expanded_app matches Some(e) ==> e < self.n_apps
        &&& self.expanded_app is None ==> self.n_pages == 0
        &&& self.n_apps + self.n_pages <= usize::MAX
    }

    pub open spec fn rows(&self) -> int {
        self.n_apps + self.n_pages
    }

    /// The application shown on `row`, or `None` for a page row.
    pub open spec fn app_of_row(&self, row: int) -> Option<int> {
        match self.expanded_app {
            Some(e) => if row < e + 1 {
                Some(row)
            } else if row < e + 1 + self.n_pages {
                None
            } else {
                Some(row - self.n_pages)
            },
            None => Some(row),
        }
    }

    /// The row on which application `a` is shown.
    pub open spec fn row_of_app(&self, a: int) -> int {
        match self.expanded_app {
            Some(e) => if a <= e {
                a
            } else {
                a + self.n_pages
            },
            None => a,
        }
    }

    /// The table after a refresh: `n_apps` applications, none expanded, the
    /// first row selected and shown; the focus stays where it was.
    pub fn reset(focus: Focus, n_apps: usize) -> (t: TableState)
        ensures
            t.well_formed(),
            t == (TableState {
                focus,
                selected: 0,
                scroll: 0,
                expanded_app: None,
                n_apps,
                n_pages: 0,
            }),
    {
        TableState { focus, selected: 0, scroll: 0, expanded_app: None, n_apps, n_pages: 0 }
    }

    /// The number of rows: the applications and the pages of the expanded one.
    pub fn row_count(&self) -> (r: usize)
        requires
            self.well_formed(),
        ensures
            r == self.rows(),
    {
        let base = self.n_apps;
        if self.expanded_app.is_some() {
            base + self.n_pages
        } else {
            base
        }
    }

    /// The application shown on `row`, or `None` for a page row.
    pub fn row_to_app_idx(&self, row: usize) -> (r: Option<usize>)
        requires
            self.well_formed(),
        ensures
            match self.app_of_row(row as int) {
                Some(a) => r == Some(a as usize),
                None => r is None,
            },
    {
        match self.expanded_app {
            Some(exp) => {
                if row < exp + 1 {
                    Some(row)
                } else if row - (exp + 1) < self.n_pages {
                    None
                } else {
                    Some(row - self.n_pages)
                }
            },
            None => Some(row),
        }
    }

    /// Whether toggling application `app_idx` expands it (and so needs its pages).
    pub fn wants_pages_for(&self, app_idx: usize) -> (r: bool)
        ensures
            r == (self.expanded_app != Some(app_idx)),
    {
        match self.expanded_app {
            Some(e) => e != app_idx,
            None => true,
        }
    }

    /// Collapses application `app_idx` when it is the expanded one, else
    /// expands it with its `n_pages` pages.
    pub fn toggle_expand(&mut self, app_idx: usize, n_pages: usize)
        requires
            old(self).well_formed(),
            app_idx < old(self).n_apps,
            old(self).n_apps + n_pages <= usize::MAX,
        ensures
            final(self).well_formed(),
            old(self).expanded_app == Some(app_idx) ==> *final(self) == (TableState {
                expanded_app: None,
                n_pages: 0,
                ..*old(self)
            }),
            old(self).expanded_app != Some(app_idx) ==> *final(self) == (TableState {
                expanded_app: Some(app_idx),
                n_pages,
                ..*old(self)
            }),
    {
        if self.expanded_app == Some(app_idx) {
            self.expanded_app = None;
            self.n_pages = 0;
        } else {
            self.n_pages = n_pages;
            self.expanded_app = Some(app_idx);
        }
    }

    /// Applies `key`; `visible_rows` rows of the table fit on screen.
    pub fn on_key(&mut self, key: Key, visible_rows: usize) -> (act: KeyAction)
        requires
            old(self).well_formed(),
        ensures
            final(self).well_formed(),
            final(self).n_apps == old(self).n_apps && final(self).n_pages == old(self).n_pages
                && final(self).expanded_app == old(self).expanded_app,
            (*final(self), act) == key_effect(*old(self), key, visible_rows),
            old(self).focus == Focus::Calendar && (key == Key::Left || key == Key::Char('h'))
                ==> act == KeyAction::MoveDays(-1i64) && *final(self) == *old(self),
            old(self).focus == Focus::Calendar && (key == Key::Right || key == Key::Char('l'))
                ==> act == KeyAction::MoveDays(1i64) && *final(self) == *old(self),
            old(self).focus == Focus::Calendar && (key == Key::Up || key == Key::Char('k'))
                ==> act == KeyAction::MoveDays(-7i64) && *final(self) == *old(self),
            old(self).focus == Focus::Calendar && (key == Key::Down || key == Key::Char('j'))
                ==> act == KeyAction::MoveDays(7i64) && *final(self) == *old(self),
    {
        let cal = match self.focus {
            Focus::Calendar => true,
            Focus::Detail => false,
        };
        let (left, right, up, down, enter, esc, quit) = match key {
            Key::Char('q') => (false, false, false, false, false, false, true),
            Key::Esc => (false, false, false, false, false, true, false),
            Key::Left | Key::Char('h') => (true, false, false, false, false, false, false),
            Key::Right | Key::Char('l') => (false, true, false, false, false, false, false),
            Key::Up | Key::Char('k') => (false, false, true, false, false, false, false),
            Key::Down | Key::Char('j') => (false, false, false, true, false, false, false),
            Key::Enter | Key::Tab => (false, false, false, false, true, false, false),
            _ => (false, false, false, false, false, false, false),
        };
        if quit {
            KeyAction::Quit
        } else if esc {
            if !cal {
                self.focus = Focus::Calendar;
                KeyAction::Nothing
            } else {
                KeyAction::Quit
            }
        } else if cal && left {
            KeyAction::MoveDays(-1)
        } else if cal && right {
            KeyAction::MoveDays(1)
        } else if cal && up {
            KeyAction::MoveDays(-7)
        } else if cal && down {
            KeyAction::MoveDays(7)
        } else if enter {
            if cal {
                self.focus = Focus::Detail;
                self.selected = 0;
                KeyAction::Nothing
            } else {
                match self.row_to_app_idx(self.selected) {
                    Some(app_idx) => {
                        if app_idx < self.n_apps {
                            KeyAction::Toggle(app_idx)
                        } else {
                            KeyAction::Nothing
                        }
                    },
                    None => KeyAction::Nothing,
                }
            }
        } else if up {
            if self.selected > 0 {
                self.selected -= 1;
                if self.selected < self.scroll {
                    self.scroll = self.scroll.saturating_sub(1);
                }
            }
            KeyAction::Nothing
        } else if down {
            let max = self.row_count().saturating_sub(1);
            if self.selected < max {
                self.selected += 1;
                if self.selected >= self.scroll && self.selected - self.scroll >= visible_rows {
                    self.scroll += 1;
                }
            }
            KeyAction::Nothing
        } else {
            KeyAction::Nothing
        }
    }
}

pub open spec fn is_key(key: Key, a: Key, c: char) -> bool {
    key == a || key == Key::Char(c)
}

/// What a key does: `q` quits; `Esc` leaves the list, or quits from the
/// calendar; in the calendar the arrows (or `h`/`l`/`k`/`j`) move the day by
/// one or by a week and `Enter`/`Tab` moves into the list; in the list the
/// arrows move the selection (scrolling to keep it on screen) and
/// `Enter`/`Tab` toggles the selected application.
pub open spec fn key_effect(t: TableState, key: Key, visible: usize) -> (TableState, KeyAction) {
    let cal = t.focus == Focus::Calendar;
    if key == Key::Char('q') {
        (t, KeyAction::Quit)
    } else if key == Key::Esc {
        if t.focus == Focus::Detail {
            (TableState { focus: Focus::Calendar, ..t }, KeyAction::Nothing)
        } else {
            (t, KeyAction::Quit)
        }
    } else if cal && is_key(key, Key::Left, 'h') {
        (t, KeyAction::MoveDays(-1i64))
    } else if cal && is_key(key, Key::Right, 'l') {
        (t, KeyAction::MoveDays(1i64))
    } else if cal && is_key(key, Key::Up, 'k') {
        (t, KeyAction::MoveDays(-7i64))
    } else if cal && is_key(key, Key::Down, 'j') {
        (t, KeyAction::MoveDays(7i64))
    } else if key == Key::Enter || key == Key::Tab {
        if cal {
            (TableState { focus: Focus::Detail, selected: 0, ..t }, KeyAction::Nothing)
        } else {
            match t.app_of_row(t.selected as int) {
                Some(a) => if a < t.n_apps {
                    (t, KeyAction::Toggle(a as usize))
                } else {
                    (t, KeyAction::Nothing)
                },
                None => (t, KeyAction::Nothing),
            }
        }
    } else if is_key(key, Key::Up, 'k') {
        if t.selected > 0 {
            let sel = (t.selected - 1) as usize;
            (
                TableState {
                    selected: sel,
                    scroll: if sel < t.scroll {
                        (t.scroll - 1) as usize
                    } else {
                        t.scroll
                    },
                    ..t
                },
                KeyAction::Nothing,
            )
        } else {
            (t, KeyAction::Nothing)
        }
    } else if is_key(key, Key::Down, 'j') {
        let max = if t.rows() >= 1 {
            t.rows() - 1
        } else {
            0
        };
        if t.selected < max {
            let sel = (t.selected + 1) as usize;
            (
                TableState {
                    selected: sel,
                    scroll: if sel >= t.scroll + visible {
                        (t.scroll + 1) as usize
                    } else {
                        t.scroll
                    },
                    ..t
                },
                KeyAction::Nothing,
            )
        } else {
            (t, KeyAction::Nothing)
        }
    } else {
        (t, KeyAction::Nothing)
    }
}

/// Every application is shown on exactly one row, and that row leads back to
/// it: the rows of the list are the applications, with the pages of the
/// expanded one right below it.
pub proof fn law_rows_show_each_app_once(t: TableState, a: int, row: int)
    requires
        t.well_formed(),
        0 <= a < t.n_apps,
        0 <= row < t.rows(),
    ensures
        0 <= t.row_of_app(a) < t.rows(),
        t.app_of_row(t.row_of_app(a)) == Some(a),
        t.app_of_row(row) matches Some(b) ==> 0 <= b < t.n_apps && t.row_of_app(b) == row,
{
}

/// In the calendar the arrows and `h`/`l`/`k`/`j` move the selected day and
/// change nothing in the table: left and `h` one day back, right and `l` one
/// day on, up and `k` one week back, down and `j` one week on.
pub proof fn law_calendar_keys_move_days(t: TableState, visible: usize)
    requires
        t.focus == Focus::Calendar,
    ensures
        key_effect(t, Key::Left, visible) == (t, KeyAction::MoveDays(-1i64)),
        key_effect(t, Key::Char('h'), visible) == (t, KeyAction::MoveDays(-1i64)),
        key_effect(t, Key::Right, visible) == (t, KeyAction::MoveDays(1i64)),
        key_effect(t, Key::Char('l'), visible) == (t, KeyAction::MoveDays(1i64)),
        key_effect(t, Key::Up, visible) == (t, KeyAction::MoveDays(-7i64)),
        key_effect(t, Key::Char('k'), visible) == (t, KeyAction::MoveDays(-7i64)),
        key_effect(t, Key::Down, visible) == (t, KeyAction::MoveDays(7i64)),
        key_effect(t, Key::Char('j'), visible) == (t, KeyAction::MoveDays(7i64)),
{
}

/// Moving down never selects a row past the last, and the selected row stays
/// on screen when it was.
pub proof fn law_down_stays_in_table(t: TableState, visible: usize)
    requires
        t.well_formed(),
        t.focus == Focus::Detail,
        t.selected < t.rows() || t.selected == 0,
        visible >= 1,
        t.scroll <= t.selected < t.scroll + visible,
    ensures
        ({
            let t2 = key_effect(t, Key::Down, visible).0;
            &&& t2.selected < t2.rows() || t2.selected == 0
            &&& t2.scroll <= t2.selected < t2.scroll + visible
        }),
{
}

// ---------------------------------------------------------------------------
// Layout
// ---------------------------------------------------------------------------

/// The table rows that fit below the calendar in a terminal `height` rows
/// tall (at least one).
pub fn visible_rows_for(height: u16) -> (r: usize)
    ensures
        r == if height > 15 {
            (height - 14) as usize
        } else {
            1usize
        },
{
    let h = height.saturating_sub(14);
    if h > 1 {
        h as usize
    } else {
        1
    }
}

/// The rows of the table drawn in a frame with room for `visible` of
/// `total` rows, scrolled to `scroll` but never past the end: `[start, end)`.
pub fn table_window(total: usize, visible: usize, scroll: usize) -> (r: (usize, usize))
    ensures
        r.0 == if scroll <= total - visible {
            scroll as int
        } else if total >= visible {
            total - visible
        } else {
            0
        },
        r.1 == if r.0 + visible <= total {
            r.0 + visible
        } else {
            total as int
        },
        r.0 <= r.1 <= total,
{
    let max_scroll = total.saturating_sub(visible);
    let start = if scroll < max_scroll { scroll } else { max_scroll };
    let end = if visible <= total - start { start + visible } else { total };
    (start, end)
}

/// The day shown in each cell of the month grid, week by week from Monday;
/// 0 marks an empty cell. `first_weekday` is the weekday of the first day
/// (0 for Monday) and `days` the length of the month.
pub open spec fn grid_cell(first_weekday: int, days: int, week: int, col: int) -> int {
    let d = week * 7 + col - first_weekday + 1;
    if 1 <= d <= days {
        d
    } else {
        0
    }
}

/// The day that the grid has reached at cell `k` (counting cells from the
/// first week's Monday): clamped to `[1, days + 1]`.
spec fn day_reached(first_weekday: int, days: int, k: int) -> int {
    let d = k - first_weekday + 1;
    if d < 1 {
        1
    } else if d > days + 1 {
        days + 1
    } else {
        d
    }
}

pub fn calendar_weeks(first_weekday: u32, days: u32) -> (r: Vec<Vec<u32>>)
    requires
        first_weekday < 7,
        1 <= days <= 31,
    ensures
        r@.len() == (first_weekday + days + 6) / 7,
        forall|w: int|
            0 <= w < r@.len() ==> (#[trigger] r@[w])@.len() == 7 && forall|c: int|
                0 <= c < 7 ==> r@[w]@[c] == grid_cell(first_weekday as int, days as int, w, c),
{
    let ghost fw = first_weekday as int;
    let ghost n = days as int;
    let mut weeks: Vec<Vec<u32>> = Vec::new();
    let mut day: u32 = 1;
    loop
        invariant
            first_weekday < 7,
            1 <= days <= 31,
            fw == first_weekday,
            n == days,
            weeks@.len() * 7 < fw + n,
            day == day_reached(fw, n, (weeks@.len() * 7) as int),
            forall|w: int|
                0 <= w < weeks@.len() ==> (#[trigger] weeks@[w])@.len() == 7 && forall|c: int|
                    0 <= c < 7 ==> weeks@[w]@[c] == grid_cell(fw, n, w, c),
        decreases fw + n - weeks@.len() * 7,
    {
        let week = weeks.len();
        let mut cells: Vec<u32> = Vec::new();
        let mut c: u32 = 0;
        while c < 7
            invariant
                first_weekday < 7,
                1 <= days <= 31,
                fw == first_weekday,
                n == days,
                c <= 7,
                cells@.len() == c,
                week == weeks@.len(),
                week * 7 < fw + n,
                day == day_reached(fw, n, (week * 7 + c) as int),
                forall|k: int| 0 <= k < c ==> cells@[k] == grid_cell(fw, n, week as int, k),
            decreases 7 - c,
        {
            if (day == 1 && c < first_weekday) || day > days {
                cells.push(0);
            } else {
                cells.push(day);
                day += 1;
            }
            c += 1;
        }
        let ghost before = weeks@;
        weeks.push(cells);
        assert forall|w: int|
            0 <= w < weeks@.len() implies (#[trigger] weeks@[w])@.len() == 7 && forall|c: int|
                0 <= c < 7 ==> weeks@[w]@[c] == grid_cell(fw, n, w, c) by {
            if w < before.len() {
                assert(weeks@[w] == before[w]);
            }
        }
        if day > days {
            return weeks;
        }
    }
}

/// The grid of the month whose first day is `first`: its weeks from Monday,
/// each day in the column of its weekday, 0 in the empty cells.
pub fn month_grid(first: &Date) -> (r: Vec<Vec<u32>>)
    requires
        valid_date(*first),
        first.day == 1,
        !(first.month == 12 && first.year == max_year()),
    ensures
        r@.len() == (weekday_index(*first) + days_in_month(first.year as int, first.month as int)
            + 6) / 7,
        forall|w: int|
            0 <= w < r@.len() ==> (#[trigger] r@[w])@.len() == 7 && forall|c: int|
                0 <= c < 7 ==> r@[w]@[c] == grid_cell(
                    weekday_index(*first),
                    days_in_month(first.year as int, first.month as int),
                    w,
                    c,
                ),
{
    let days = last_day_of(first.year, first.month);
    let first_weekday = weekday_from_monday(first);
    calendar_weeks(first_weekday, days)
}

} // verus!
