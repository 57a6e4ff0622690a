//! The state of the terminal console: which approval is selected, which log
//! lines are shown, the horizontal scroll and the mouse selection of log
//! lines, and what each key or mouse event does to it.

use vstd::prelude::*;

verus! {

/// A rectangle of terminal cells.
#[derive(Debug, Clone, Copy, PartialEq, Eq, Structural)]
pub struct Area {
    pub x: u16,
    pub y: u16,
    pub width: u16,
    pub height: u16,
}

/// `a - b`, or 0 where that is negative.
pub open spec fn sat_sub(a: int, b: int) -> int {
    if a > b {
        a - b
    } else {
        0
    }
}

/// The smaller of two numbers.
pub open spec fn min_of(a: int, b: int) -> int {
    if a < b {
        a
    } else {
        b
    }
}

/// `x`, or 1 where `x` is 0.
pub open spec fn at_least_one(x: int) -> int {
    if x < 1 {
        1
    } else {
        x
    }
}

/// Whether the cell at `column`, `row` lies in `area` (its right and bottom
/// edges computed without going past the largest cell index).
pub open spec fn area_contains(area: Area, column: u16, row: u16) -> bool {
    let right = min_of(area.x + area.width, u16::MAX as int);
    let bottom = min_of(area.y + area.height, u16::MAX as int);
    column >= area.x && column < right && row >= area.y && row < bottom
}

/// Whether the cell at `column`, `row` lies in `area`.
pub fn rect_contains(area: Area, column: u16, row: u16) -> (b: bool)
    ensures
        b == area_contains(area, column, row),
{
    let right = area.x.saturating_add(area.width);
    let bottom = area.y.saturating_add(area.height);
    column >= area.x && column < right && row >= area.y && row < bottom
}

/// A selection of log lines: where the mouse went down and where it is now.
#[derive(Debug, Clone, Copy, PartialEq, Eq, Structural)]
pub struct LogSelection {
    pub anchor_line: usize,
    pub focus_line: usize,
}

/// The console's view state.
#[derive(Debug, Clone, Copy, PartialEq, Eq, Structural)]
pub struct TuiState {
    pub selected_approval_index: usize,
    pub log_start_index: usize,
    pub log_page_size: usize,
    pub log_horizontal_offset: usize,
    pub max_log_horizontal_offset: usize,
    pub follow_logs: bool,
    pub last_pending_count: usize,
    pub logs_area: Option<Area>,
    pub log_scroll_area: Option<Area>,
    pub visible_log_start: usize,
    pub visible_log_count: usize,
    pub active_log_selection: Option<LogSelection>,
}

impl Default for TuiState {
    fn default() -> (s: Self)
        ensures
            s == TuiState::initial(),
    {
        TuiState {
            selected_approval_index: 0,
            log_start_index: 0,
            log_page_size: 0,
            log_horizontal_offset: 0,
            max_log_horizontal_offset: 0,
            follow_logs: false,
            last_pending_count: 0,
            logs_area: None,
            log_scroll_area: None,
            visible_log_start: 0,
            visible_log_count: 0,
            active_log_selection: None,
        }
    }
}

impl TuiState {
    /// The state before anything is shown.
    pub open spec fn initial() -> TuiState {
        TuiState {
            selected_approval_index: 0,
            log_start_index: 0,
            log_page_size: 0,
            log_horizontal_offset: 0,
            max_log_horizontal_offset: 0,
            follow_logs: false,
            last_pending_count: 0,
            logs_area: None,
            log_scroll_area: None,
            visible_log_start: 0,
            visible_log_count: 0,
            active_log_selection: None,
        }
    }

    /// The first log line shown when `total` lines exist and `visible_height`
    /// fit: the last page when following, else the chosen start, kept within
    /// the last page.
    pub open spec fn log_start_spec(self, total: usize, visible_height: usize) -> int {
        let max_start = sat_sub(total as int, visible_height as int);
        if self.follow_logs {
            max_start
        } else {
            min_of(self.log_start_index as int, max_start)
        }
    }

    /// The first log line shown with a page of the current size.
    pub open spec fn current_start_spec(self, total: usize) -> int {
        self.log_start_spec(total, at_least_one(self.log_page_size as int) as usize)
    }

    /// The log line under the cell at `column`, `row`, if one is shown there.
    pub open spec fn log_index_spec(self, column: u16, row: u16) -> Option<int> {
        match self.logs_area {
            None => None,
            Some(area) => if area.width == 0 || area.height == 0 || !area_contains(area, column, row) {
                None
            } else {
                let relative_row = sat_sub(row as int, area.y as int);
                if relative_row >= self.visible_log_count {
                    None
                } else {
                    Some(self.visible_log_start + relative_row)
                }
            },
        }
    }

    /// The state with the selection kept within `pending_count` approvals.
    pub open spec fn synced(self, pending_count: usize) -> TuiState {
        TuiState {
            selected_approval_index: if pending_count == 0 {
                0
            } else {
                min_of(self.selected_approval_index as int, pending_count - 1) as usize
            },
            ..self
        }
    }

    /// The state with the previous of `approval_count` approvals selected.
    pub open spec fn previous_selected(self, approval_count: usize) -> TuiState {
        if approval_count == 0 {
            self
        } else {
            TuiState { selected_approval_index: sat_sub(self.selected_approval_index as int, 1) as usize, ..self }
        }
    }

    /// The state with the next of `approval_count` approvals selected.
    pub open spec fn next_selected(self, approval_count: usize) -> TuiState {
        if approval_count == 0 {
            self
        } else {
            TuiState {
                selected_approval_index: min_of(self.selected_approval_index + 1, approval_count - 1) as usize,
                ..self
            }
        }
    }

    /// The state with the logs scrolled up by `lines` (at least one) of
    /// `total`, no longer following.
    pub open spec fn scrolled_up(self, total: usize, lines: int) -> TuiState {
        TuiState {
            follow_logs: false,
            log_start_index: sat_sub(self.current_start_spec(total), at_least_one(lines)) as usize,
            ..self
        }
    }

    /// The state with the logs scrolled down by `lines` (at least one) of
    /// `total`, no further than the last page, following once there.
    pub open spec fn scrolled_down(self, total: usize, lines: int) -> TuiState {
        let max_start = sat_sub(total as int, at_least_one(self.log_page_size as int));
        let next = min_of(self.current_start_spec(total) + at_least_one(lines), max_start);
        TuiState { log_start_index: next as usize, follow_logs: next >= max_start, ..self }
    }

    /// The state scrolled left by `columns` (at least one).
    pub open spec fn scrolled_left(self, columns: usize) -> TuiState {
        TuiState {
            log_horizontal_offset: sat_sub(self.log_horizontal_offset as int, at_least_one(columns as int)) as usize,
            ..self
        }
    }

    /// The state scrolled right by `columns` (at least one), within bounds.
    pub open spec fn scrolled_right(self, columns: usize) -> TuiState {
        TuiState {
            log_horizontal_offset: min_of(
                self.log_horizontal_offset + at_least_one(columns as int),
                self.max_log_horizontal_offset as int,
            ) as usize,
            ..self
        }
    }

    /// The state with a selection begun at the line under the mouse.
    pub open spec fn selection_begun(self, column: u16, row: u16) -> TuiState {
        TuiState {
            active_log_selection: match self.log_index_spec(column, row) {
                Some(i) => Some(LogSelection { anchor_line: i as usize, focus_line: i as usize }),
                None => None,
            },
            ..self
        }
    }

    /// The state with the selection's end moved to the line under the mouse.
    pub open spec fn selection_extended(self, column: u16, row: u16) -> TuiState {
        match (self.log_index_spec(column, row), self.active_log_selection) {
            (Some(i), Some(sel)) => TuiState {
                active_log_selection: Some(LogSelection { focus_line: i as usize, ..sel }),
                ..self
            },
            _ => self,
        }
    }

    /// The state once `count` log lines from `start` are shown in `area`, the
    /// widest `max_line_width` characters.
    pub open spec fn with_visible_logs(self, area: Area, start: usize, count: usize, max_line_width: usize) -> TuiState {
        if count == 0 {
            TuiState {
                logs_area: Some(area),
                visible_log_start: start,
                visible_log_count: count,
                active_log_selection: None,
                log_horizontal_offset: 0,
                max_log_horizontal_offset: 0,
                ..self
            }
        } else {
            TuiState {
                logs_area: Some(area),
                visible_log_start: start,
                visible_log_count: count,
                max_log_horizontal_offset: sat_sub(max_line_width as int, area.width as int) as usize,
                log_horizontal_offset: min_of(
                    self.log_horizontal_offset as int,
                    sat_sub(max_line_width as int, area.width as int),
                ) as usize,
                ..self
            }
        }
    }

    /// The state without a selection.
    pub open spec fn selection_cleared(self) -> TuiState {
        TuiState { active_log_selection: None, ..self }
    }

    /// Keeps the selected approval within the `pending_count` pending ones.
    pub fn sync(&mut self, pending_count: usize)
        ensures
            *final(self) == old(self).synced(pending_count),
    {
        if pending_count == 0 {
            self.selected_approval_index = 0;
        } else if self.selected_approval_index > pending_count - 1 {
            self.selected_approval_index = pending_count - 1;
        }
    }

    /// Records how many approvals are pending; true when more are than before.
    pub fn note_pending_count(&mut self, pending_count: usize) -> (more: bool)
        ensures
            more == (pending_count > old(self).last_pending_count),
            *final(self) == (TuiState { last_pending_count: pending_count, ..*old(self) }),
    {
        let more = pending_count > self.last_pending_count;
        self.last_pending_count = pending_count;
        more
    }

    /// Selects the previous approval, if there are any.
    pub fn select_previous(&mut self, approval_count: usize)
        ensures
            *final(self) == old(self).previous_selected(approval_count),
    {
        if approval_count == 0 {
            return;
        }
        self.selected_approval_index = self.selected_approval_index.saturating_sub(1);
    }

    /// Selects the next approval, stopping at the last one.
    pub fn select_next(&mut self, approval_count: usize)
        ensures
            *final(self) == old(self).next_selected(approval_count),
    {
        if approval_count == 0 {
            return;
        }
        if self.selected_approval_index >= approval_count - 1 {
            self.selected_approval_index = approval_count - 1;
        } else {
            self.selected_approval_index = self.selected_approval_index + 1;
        }
    }

    /// The index of the selected approval among `approval_count` pending ones,
    /// if it names one.
    pub fn selected_approval(&self, approval_count: usize) -> (r: Option<usize>)
        ensures
            r == if self.selected_approval_index < approval_count {
                Some(self.selected_approval_index)
            } else {
                None::<usize>
            },
    {
        if self.selected_approval_index < approval_count {
            Some(self.selected_approval_index)
        } else {
            None
        }
    }

    /// Sets how many log lines a page holds (at least one).
    pub fn set_log_page_size(&mut self, page_size: usize)
        ensures
            *final(self) == (TuiState {
                log_page_size: at_least_one(page_size as int) as usize,
                ..*old(self)
            }),
    {
        self.log_page_size = if page_size == 0 {
            1
        } else {
            page_size
        };
    }

    /// Sets the area whose wheel events scroll the logs.
    pub fn set_log_scroll_area(&mut self, area: Area)
        ensures
            *final(self) == (TuiState { log_scroll_area: Some(area), ..*old(self) }),
    {
        self.log_scroll_area = Some(area);
    }

    /// Records which log lines are shown where: `count` lines from `start` in
    /// `area`, the widest `max_line_width` characters; keeps the horizontal
    /// scroll within what can be scrolled, and drops the selection and the
    /// scroll when nothing is shown.
    pub fn set_visible_logs(&mut self, area: Area, start: usize, count: usize, max_line_width: usize)
        ensures
            *final(self) == old(self).with_visible_logs(area, start, count, max_line_width),
    {
        self.logs_area = Some(area);
        self.visible_log_start = start;
        self.visible_log_count = count;
        if count == 0 {
            self.active_log_selection = None;
            self.log_horizontal_offset = 0;
            self.max_log_horizontal_offset = 0;
            return;
        }
        self.max_log_horizontal_offset = max_line_width.saturating_sub(area.width as usize);
        if self.log_horizontal_offset > self.max_log_horizontal_offset {
            self.log_horizontal_offset = self.max_log_horizontal_offset;
        }
    }

    /// The first log line shown when `total` lines exist and `visible_height`
    /// fit.
    pub fn log_start(&self, total: usize, visible_height: usize) -> (s: usize)
        ensures
            s == self.log_start_spec(total, visible_height),
    {
        let max_start = total.saturating_sub(visible_height);
        if self.follow_logs {
            max_start
        } else if self.log_start_index < max_start {
            self.log_start_index
        } else {
            max_start
        }
    }

    fn current_log_start(&self, total: usize) -> (s: usize)
        ensures
            s == self.current_start_spec(total),
    {
        let page = if self.log_page_size == 0 {
            1
        } else {
            self.log_page_size
        };
        self.log_start(total, page)
    }

    /// Scrolls the logs up by `lines` (at least one) and stops following.
    pub fn scroll_up(&mut self, total: usize, lines: usize)
        ensures
            *final(self) == old(self).scrolled_up(total, lines as int),
    {
        let current = self.current_log_start(total);
        let step = if lines == 0 {
            1
        } else {
            lines
        };
        self.follow_logs = false;
        self.log_start_index = current.saturating_sub(step);
    }

    /// Scrolls the logs down by `lines` (at least one), no further than the
    /// last page; following resumes once the last page is reached.
    pub fn scroll_down(&mut self, total: usize, lines: usize)
        ensures
            *final(self) == old(self).scrolled_down(total, lines as int),
    {
        let page = if self.log_page_size == 0 {
            1
        } else {
            self.log_page_size
        };
        let max_start = total.saturating_sub(page);
        let current = self.current_log_start(total);
        let step = if lines == 0 {
            1
        } else {
            lines
        };
        let advanced = current.saturating_add(step);
        let next = if advanced < max_start {
            advanced
        } else {
            max_start
        };
        self.log_start_index = next;
        self.follow_logs = next >= max_start;
    }

    /// The lines a page key moves: one less than a page, at least one.
    pub open spec fn page_step(self) -> int {
        at_least_one(sat_sub(self.log_page_size as int, 1))
    }

    /// Moves the logs one page up.
    pub fn page_up(&mut self, total: usize)
        ensures
            *final(self) == old(self).scrolled_up(total, old(self).page_step()),
    {
        let step = if self.log_page_size <= 1 {
            1
        } else {
            self.log_page_size - 1
        };
        self.scroll_up(total, step);
    }

    /// Moves the logs one page down.
    pub fn page_down(&mut self, total: usize)
        ensures
            *final(self) == old(self).scrolled_down(total, old(self).page_step()),
    {
        let step = if self.log_page_size <= 1 {
            1
        } else {
            self.log_page_size - 1
        };
        self.scroll_down(total, step);
    }

    /// Shows the oldest log lines and stops following.
    pub fn jump_head(&mut self)
        ensures
            *final(self) == (TuiState { follow_logs: false, log_start_index: 0, ..*old(self) }),
    {
        self.follow_logs = false;
        self.log_start_index = 0;
    }

    /// Follows the newest log lines.
    pub fn follow_tail(&mut self)
        ensures
            *final(self) == (TuiState { follow_logs: true, ..*old(self) }),
    {
        self.follow_logs = true;
    }

    /// Scrolls the logs left by `columns` (at least one).
    pub fn scroll_logs_left(&mut self, columns: usize)
        ensures
            *final(self) == old(self).scrolled_left(columns),
    {
        let step = if columns == 0 {
            1
        } else {
            columns
        };
        self.log_horizontal_offset = self.log_horizontal_offset.saturating_sub(step);
    }

    /// Scrolls the logs right by `columns` (at least one), no further than
    /// the widest line allows.
    pub fn scroll_logs_right(&mut self, columns: usize)
        ensures
            *final(self) == old(self).scrolled_right(columns),
    {
        let step = if columns == 0 {
            1
        } else {
            columns
        };
        let advanced = self.log_horizontal_offset.saturating_add(step);
        self.log_horizontal_offset = if advanced < self.max_log_horizontal_offset {
            advanced
        } else {
            self.max_log_horizontal_offset
        };
    }

    /// The horizontal scroll in cells, as far as a cell index reaches.
    pub fn log_horizontal_offset(&self) -> (o: u16)
        ensures
            o == min_of(self.log_horizontal_offset as int, u16::MAX as int),
    {
        if self.log_horizontal_offset > 65535 {
            65535
        } else {
            self.log_horizontal_offset as u16
        }
    }

    /// The horizontal scroll in columns.
    pub fn log_horizontal_offset_columns(&self) -> (o: usize)
        ensures
            o == self.log_horizontal_offset,
    {
        self.log_horizontal_offset
    }

    /// Whether a wheel event at `column`, `row` scrolls the logs.
    pub fn is_log_scroll_hit(&self, column: u16, row: u16) -> (b: bool)
        ensures
            b == match self.log_scroll_area {
                Some(area) => area_contains(area, column, row),
                None => false,
            },
    {
        match self.log_scroll_area {
            Some(area) => rect_contains(area, column, row),
            None => false,
        }
    }

    /// The log line under the cell at `column`, `row`, if one is shown there.
    pub fn log_index_at(&self, column: u16, row: u16) -> (r: Option<usize>)
        requires
            self.visible_log_start + self.visible_log_count <= usize::MAX + 1,
        ensures
            r == match self.log_index_spec(column, row) {
                Some(i) => Some(i as usize),
                None => None::<usize>,
            },
    {
        let area = match self.logs_area {
            Some(a) => a,
            None => return None,
        };
        if area.width == 0 || area.height == 0 || !rect_contains(area, column, row) {
            return None;
        }
        let relative_row = row.saturating_sub(area.y) as usize;
        if relative_row >= self.visible_log_count {
            return None;
        }
        Some(self.visible_log_start + relative_row)
    }

    /// Starts a selection at the log line under the mouse, or clears it when
    /// no line is there.
    pub fn begin_log_selection(&mut self, column: u16, row: u16)
        requires
            old(self).visible_log_start + old(self).visible_log_count <= usize::MAX + 1,
        ensures
            *final(self) == old(self).selection_begun(column, row),
    {
        self.active_log_selection = match self.log_index_at(column, row) {
            Some(line) => Some(LogSelection { anchor_line: line, focus_line: line }),
            None => None,
        };
    }

    /// Moves the end of the selection to the log line under the mouse, if
    /// there is a selection and a line there.
    pub fn extend_log_selection(&mut self, column: u16, row: u16)
        requires
            old(self).visible_log_start + old(self).visible_log_count <= usize::MAX + 1,
        ensures
            *final(self) == old(self).selection_extended(column, row),
    {
        let line = match self.log_index_at(column, row) {
            Some(l) => l,
            None => return,
        };
        match self.active_log_selection {
            Some(sel) => {
                self.active_log_selection = Some(LogSelection { anchor_line: sel.anchor_line, focus_line: line });
            },
            None => {},
        }
    }

    /// Drops the selection.
    pub fn clear_log_selection(&mut self)
        ensures
            *final(self) == old(self).selection_cleared(),
    {
        self.active_log_selection = None;
    }

    /// The first and last selected log lines.
    pub open spec fn selected_range_spec(self) -> Option<(usize, usize)> {
        match self.active_log_selection {
            None => None,
            Some(sel) => Some(
                if sel.anchor_line <= sel.focus_line {
                    (sel.anchor_line, sel.focus_line)
                } else {
                    (sel.focus_line, sel.anchor_line)
                },
            ),
        }
    }

    /// The first and last selected log lines, if lines are selected.
    pub fn selected_log_range(&self) -> (r: Option<(usize, usize)>)
        ensures
            r == self.selected_range_spec(),
    {
        match self.active_log_selection {
            None => None,
            Some(sel) => if sel.anchor_line <= sel.focus_line {
                Some((sel.anchor_line, sel.focus_line))
            } else {
                Some((sel.focus_line, sel.anchor_line))
            },
        }
    }

    /// Whether log line `line_index` is selected.
    pub fn is_log_line_selected(&self, line_index: usize) -> (b: bool)
        ensures
            b == match self.selected_range_spec() {
                Some((start, end)) => start <= line_index <= end,
                None => false,
            },
    {
        match self.selected_log_range() {
            Some((start, end)) => start <= line_index && line_index <= end,
            None => false,
        }
    }
}



/// A key, as the console reads it.
#[derive(Debug, Clone, Copy, PartialEq, Eq, Structural)]
pub enum TuiKey {
    Char(char),
    Up,
    Down,
    PageUp,
    PageDown,
    Home,
    End,
    Left,
    Right,
    Other,
}

/// A terminal event, as the console reads it.
#[derive(Debug, Clone, Copy, PartialEq, Eq, Structural)]
pub enum TuiInput {
    /// A key event: the key, whether it was a press, and whether a modifier
    /// key was held.
    Key { code: TuiKey, press: bool, modified: bool },
    MouseDown { column: u16, row: u16 },
    MouseDrag { column: u16, row: u16 },
    MouseUp { column: u16, row: u16 },
    ScrollUp,
    ScrollDown,
    Other,
}

/// What the console is to do after an event.
#[derive(Debug, Clone, Copy, PartialEq, Eq, Structural)]
pub enum TuiAction {
    Nothing,
    /// Ask the server to shut down, and stop if it was not already asked.
    Shutdown,
    /// Approve the pending approval at this index.
    Approve(usize),
    /// Reject the pending approval at this index.
    Reject(usize),
    /// Copy the log lines from `start` to `end`, both included.
    CopyLogs { start: usize, end: usize },
}

/// The columns a left or right key scrolls.
pub const HORIZONTAL_STEP: usize = 8;

/// The lines a wheel step scrolls.
pub const WHEEL_STEP: usize = 3;

/// Whether a key press asks to quit: `q` in either case, with no modifier.
pub open spec fn is_quit_key(code: TuiKey, modified: bool) -> bool {
    !modified && (code == TuiKey::Char('q') || code == TuiKey::Char('Q'))
}

/// The state after an event, and what the console is to do, with
/// `pending_count` approvals pending and `total` log lines.
pub open spec fn after_input(s: TuiState, input: TuiInput, pending_count: usize, total: usize) -> (TuiState, TuiAction) {
    match input {
        TuiInput::Key { code, press, modified } => if !press {
            (s, TuiAction::Nothing)
        } else if is_quit_key(code, modified) {
            (s, TuiAction::Shutdown)
        } else {
            match code {
                TuiKey::Up => (s.previous_selected(pending_count), TuiAction::Nothing),
                TuiKey::Down => (s.next_selected(pending_count), TuiAction::Nothing),
                TuiKey::PageUp => (s.scrolled_up(total, s.page_step()), TuiAction::Nothing),
                TuiKey::PageDown => (s.scrolled_down(total, s.page_step()), TuiAction::Nothing),
                TuiKey::Home => (TuiState { follow_logs: false, log_start_index: 0, ..s }, TuiAction::Nothing),
                TuiKey::End => (TuiState { follow_logs: true, ..s }, TuiAction::Nothing),
                TuiKey::Left => (s.scrolled_left(HORIZONTAL_STEP).selection_cleared(), TuiAction::Nothing),
                TuiKey::Right => (s.scrolled_right(HORIZONTAL_STEP).selection_cleared(), TuiAction::Nothing),
                TuiKey::Char(c) => if c == 'a' && s.selected_approval_index < pending_count {
                    (s, TuiAction::Approve(s.selected_approval_index))
                } else if c == 'r' && s.selected_approval_index < pending_count {
                    (s, TuiAction::Reject(s.selected_approval_index))
                } else {
                    (s, TuiAction::Nothing)
                },
                TuiKey::Other => (s, TuiAction::Nothing),
            }
        },
        TuiInput::MouseDown { column, row } => (s.selection_begun(column, row), TuiAction::Nothing),
        TuiInput::MouseDrag { column, row } => (s.selection_extended(column, row), TuiAction::Nothing),
        TuiInput::MouseUp { column, row } => {
            let e = s.selection_extended(column, row);
            (
                e.selection_cleared(),
                match e.selected_range_spec() {
                    Some((start, end)) => TuiAction::CopyLogs { start, end },
                    None => TuiAction::Nothing,
                },
            )
        },
        TuiInput::ScrollUp => (s.scrolled_up(total, WHEEL_STEP as int).selection_cleared(), TuiAction::Nothing),
        TuiInput::ScrollDown => (s.scrolled_down(total, WHEEL_STEP as int).selection_cleared(), TuiAction::Nothing),
        TuiInput::Other => (s, TuiAction::Nothing),
    }
}

impl TuiState {
    /// Applies one event with `pending_count` approvals pending and `total`
    /// log lines, and says what the console is to do.
    pub fn handle_input(&mut self, input: TuiInput, pending_count: usize, total: usize) -> (action: TuiAction)
        requires
            old(self).visible_log_start + old(self).visible_log_count <= usize::MAX + 1,
        ensures
            (*final(self), action) == after_input(*old(self), input, pending_count, total),
    {
        match input {
            TuiInput::Key { code, press, modified } => {
                if !press {
                    return TuiAction::Nothing;
                }
                let quit = !modified && match code {
                    TuiKey::Char(c) => c == 'q' || c == 'Q',
                    _ => false,
                };
                if quit {
                    return TuiAction::Shutdown;
                }
                match code {
                    TuiKey::Up => {
                        self.select_previous(pending_count);
                        TuiAction::Nothing
                    },
                    TuiKey::Down => {
                        self.select_next(pending_count);
                        TuiAction::Nothing
                    },
                    TuiKey::PageUp => {
                        self.page_up(total);
                        TuiAction::Nothing
                    },
                    TuiKey::PageDown => {
                        self.page_down(total);
                        TuiAction::Nothing
                    },
                    TuiKey::Home => {
                        self.jump_head();
                        TuiAction::Nothing
                    },
                    TuiKey::End => {
                        self.follow_tail();
                        TuiAction::Nothing
                    },
                    TuiKey::Left => {
                        self.scroll_logs_left(HORIZONTAL_STEP);
                        self.clear_log_selection();
                        TuiAction::Nothing
                    },
                    TuiKey::Right => {
                        self.scroll_logs_right(HORIZONTAL_STEP);
                        self.clear_log_selection();
                        TuiAction::Nothing
                    },
                    TuiKey::Char(c) => {
                        if c == 'a' {
                            match self.selected_approval(pending_count) {
                                Some(i) => TuiAction::Approve(i),
                                None => TuiAction::Nothing,
                            }
                        } else if c == 'r' {
                            match self.selected_approval(pending_count) {
                                Some(i) => TuiAction::Reject(i),
                                None => TuiAction::Nothing,
                            }
                        } else {
                            TuiAction::Nothing
                        }
                    },
                    TuiKey::Other => TuiAction::Nothing,
                }
            },
            TuiInput::MouseDown { column, row } => {
                self.begin_log_selection(column, row);
                TuiAction::Nothing
            },
            TuiInput::MouseDrag { column, row } => {
                self.extend_log_selection(column, row);
                TuiAction::Nothing
            },
            TuiInput::MouseUp { column, row } => {
                self.extend_log_selection(column, row);
                let action = match self.selected_log_range() {
                    Some((start, end)) => TuiAction::CopyLogs { start, end },
                    None => TuiAction::Nothing,
                };
                self.clear_log_selection();
                action
            },
            TuiInput::ScrollUp => {
                self.scroll_up(total, WHEEL_STEP);
                self.clear_log_selection();
                TuiAction::Nothing
            },
            TuiInput::ScrollDown => {
                self.scroll_down(total, WHEEL_STEP);
                self.clear_log_selection();
                TuiAction::Nothing
            },
            TuiInput::Other => TuiAction::Nothing,
        }
    }
}

/// Showing log lines leaves the horizontal scroll within what the widest
/// line allows, whatever it was before.
pub proof fn lemma_visible_logs_bound_scroll(s: TuiState, area: Area, start: usize, count: usize, max_line_width: usize)
    ensures
        s.with_visible_logs(area, start, count, max_line_width).log_horizontal_offset
            <= s.with_visible_logs(area, start, count, max_line_width).max_log_horizontal_offset,
{
}

/// No event takes the horizontal scroll past what the widest line allows.
pub proof fn lemma_input_keeps_scroll_bound(s: TuiState, input: TuiInput, pending_count: usize, total: usize)
    requires
        s.log_horizontal_offset <= s.max_log_horizontal_offset,
    ensures
        after_input(s, input, pending_count, total).0.log_horizontal_offset <= after_input(
            s,
            input,
            pending_count,
            total,
        ).0.max_log_horizontal_offset,
{
}

/// Scrolling down never passes the last page, and follows the newest lines
/// exactly when it reaches it.
pub proof fn lemma_scroll_down_follows_at_tail(s: TuiState, total: usize, lines: int)
    ensures
        ({
            let t = s.scrolled_down(total, lines);
            let max_start = sat_sub(total as int, at_least_one(s.log_page_size as int));
            &&& t.log_start_index <= max_start
            &&& t.follow_logs <==> t.log_start_index == max_start
        }),
{
}

/// A selection always runs from its smaller end to its larger one.
pub proof fn lemma_selected_range_ordered(s: TuiState)
    ensures
        s.selected_range_spec() matches Some((start, end)) ==> start <= end,
{
}
} // verus!
