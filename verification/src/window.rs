//! A viewport: the cursor and the scroll position of one pane on one buffer,
//! and the motions that move them.

use vstd::prelude::*;
use crate::buffer::Buffer;
use crate::cell::Cell;

verus! {

/// The view that one pane has of a buffer.
#[derive(Debug)]
pub struct Viewport {
    /// Which buffer the pane shows.
    pub buffer_id: usize,
    pub cursor_line: i32,
    pub cursor_col: i32,
    /// The column that the cursor returns to when it moves onto a line that is
    /// long enough.
    pub preferred_col: i32,
    /// The first line that the pane shows.
    pub scroll_top: i32,
    pub mode: String,
    /// Whether the pane has the focus.
    pub active: bool,
}

/// A [`Viewport`] as mathematical values.
pub struct ViewportView {
    pub buffer_id: int,
    pub cursor_line: int,
    pub cursor_col: int,
    pub preferred_col: int,
    pub scroll_top: int,
    pub mode: Seq<char>,
    pub active: bool,
}

impl View for Viewport {
    type V = ViewportView;

    open spec fn view(&self) -> ViewportView {
        ViewportView {
            buffer_id: self.buffer_id as int,
            cursor_line: self.cursor_line as int,
            cursor_col: self.cursor_col as int,
            preferred_col: self.preferred_col as int,
            scroll_top: self.scroll_top as int,
            mode: self.mode@,
            active: self.active,
        }
    }
}

impl Clone for Viewport {
    fn clone(&self) -> (copy: Viewport)
        ensures
            copy@ == self@,
    {
        Viewport {
            buffer_id: self.buffer_id,
            cursor_line: self.cursor_line,
            cursor_col: self.cursor_col,
            preferred_col: self.preferred_col,
            scroll_top: self.scroll_top,
            mode: self.mode.clone(),
            active: self.active,
        }
    }
}

/// `value`, or the nearer end of the range from `low` to `high` where it lies
/// outside.
pub open spec fn clamp(value: int, low: int, high: int) -> int {
    if value < low {
        low
    } else if value > high {
        high
    } else {
        value
    }
}

/// The number of lines that a page motion moves by in a pane of `height` lines.
pub open spec fn page(height: int) -> nat {
    if height > 0 {
        height as nat
    } else {
        0
    }
}

/// The last line that the cursor can stand on: the last line of the buffer, and
/// line 0 in a buffer without lines.
pub open spec fn last_line(rows: Seq<Seq<Cell>>) -> int {
    if rows.len() == 0 {
        0
    } else {
        rows.len() - 1
    }
}

/// The last column of `line` that the cursor can stand on: the column of its
/// last character, and column 0 where the line is empty or does not exist.
pub open spec fn last_col(rows: Seq<Seq<Cell>>, line: int) -> int {
    if 0 <= line < rows.len() && rows[line].len() > 0 {
        rows[line].len() - 1
    } else {
        0
    }
}

impl ViewportView {
    /// The viewport with its cursor on `line`, in the column nearest to
    /// `column` that the line has.
    pub open spec fn placed(self, rows: Seq<Seq<Cell>>, line: int, column: int) -> ViewportView {
        let line = clamp(line, 0, last_line(rows));
        ViewportView { cursor_line: line, cursor_col: clamp(column, 0, last_col(rows, line)), ..self }
    }

    /// The viewport with the column of its cursor as its preferred column.
    pub open spec fn remembering(self) -> ViewportView {
        ViewportView { preferred_col: self.cursor_col, ..self }
    }

    /// One column to the left.
    pub open spec fn left(self, rows: Seq<Seq<Cell>>) -> ViewportView {
        self.placed(rows, self.cursor_line, self.cursor_col - 1).remembering()
    }

    /// One column to the right.
    pub open spec fn right(self, rows: Seq<Seq<Cell>>) -> ViewportView {
        self.placed(rows, self.cursor_line, self.cursor_col + 1).remembering()
    }

    /// To the beginning of the line.
    pub open spec fn bol(self, rows: Seq<Seq<Cell>>) -> ViewportView {
        self.placed(rows, self.cursor_line, 0).remembering()
    }

    /// To the last character of the line.
    pub open spec fn eol(self, rows: Seq<Seq<Cell>>) -> ViewportView {
        let line = clamp(self.cursor_line, 0, last_line(rows));
        self.placed(rows, line, last_col(rows, line)).remembering()
    }

    /// One line up, to the preferred column. Where the cursor leaves the pane
    /// at its top, the pane scrolls up by one line.
    pub open spec fn up(self, rows: Seq<Seq<Cell>>) -> ViewportView {
        let moved = self.placed(rows, self.cursor_line - 1, self.preferred_col);
        if moved.cursor_line < self.scroll_top {
            ViewportView { scroll_top: self.scroll_top - 1, ..moved }
        } else {
            moved
        }
    }

    /// One line down, to the preferred column. Where the cursor goes beyond
    /// line `scroll_top + height - 2`, the pane scrolls down by one line.
    pub open spec fn down(self, rows: Seq<Seq<Cell>>, height: int) -> ViewportView {
        let moved = self.placed(rows, self.cursor_line + 1, self.preferred_col);
        if moved.cursor_line > self.scroll_top + height - 2 {
            ViewportView { scroll_top: self.scroll_top + 1, ..moved }
        } else {
            moved
        }
    }

    /// `count` times one line up.
    pub open spec fn up_by(self, rows: Seq<Seq<Cell>>, count: nat) -> ViewportView
        decreases count,
    {
        if count == 0 {
            self
        } else {
            self.up_by(rows, (count - 1) as nat).up(rows)
        }
    }

    /// `count` times one line down.
    pub open spec fn down_by(self, rows: Seq<Seq<Cell>>, height: int, count: nat) -> ViewportView
        decreases count,
    {
        if count == 0 {
            self
        } else {
            self.down_by(rows, height, (count - 1) as nat).down(rows, height)
        }
    }

    /// One page up: as many lines up as the pane is high.
    pub open spec fn page_up(self, rows: Seq<Seq<Cell>>, height: int) -> ViewportView {
        self.up_by(rows, page(height))
    }

    /// One page down: as many lines down as the pane is high.
    pub open spec fn page_down(self, rows: Seq<Seq<Cell>>, height: int) -> ViewportView {
        self.down_by(rows, height, page(height))
    }

    /// To the last line, one line down at a time.
    pub open spec fn eof(self, rows: Seq<Seq<Cell>>, height: int) -> ViewportView {
        let line = clamp(self.cursor_line, 0, last_line(rows));
        self.down_by(rows, height, (last_line(rows) - line) as nat)
    }
}

/// A downward motion from the last line that the pane shows, `scroll_top +
/// height - 2`, moves the cursor down by one line, scrolls the pane by exactly
/// one line and so leaves the cursor on the line that is then the last one
/// shown. Buffer, mode and focus stay. The buffer has a line below the cursor
/// to move to, and the cursor does not stand before line -1, from where a
/// motion brings it to line 0.
pub proof fn lemma_scroll_boundary(viewport: ViewportView, rows: Seq<Seq<Cell>>, height: int)
    requires
        viewport.cursor_line == viewport.scroll_top + height - 2,
        -1 <= viewport.cursor_line < last_line(rows),
    ensures
        viewport.down(rows, height).cursor_line == viewport.cursor_line + 1,
        viewport.down(rows, height).scroll_top == viewport.scroll_top + 1,
        viewport.down(rows, height).cursor_line == viewport.down(rows, height).scroll_top + height
            - 2,
        viewport.down(rows, height).buffer_id == viewport.buffer_id,
        viewport.down(rows, height).mode == viewport.mode,
        viewport.down(rows, height).active == viewport.active,
{
}

/// Whether the cursor of `viewport` stands on a line of the buffer, or on line
/// 0 of a buffer without lines, and on a column of that line.
pub open spec fn in_bounds(viewport: ViewportView, rows: Seq<Seq<Cell>>) -> bool {
    &&& 0 <= viewport.cursor_line <= last_line(rows)
    &&& 0 <= viewport.cursor_col <= last_col(rows, viewport.cursor_line)
}

/// Every motion leaves the cursor on a line and a column of the buffer,
/// wherever it stood before.
pub proof fn lemma_motions_in_bounds(viewport: ViewportView, rows: Seq<Seq<Cell>>, height: int)
    ensures
        in_bounds(viewport.left(rows), rows),
        in_bounds(viewport.right(rows), rows),
        in_bounds(viewport.bol(rows), rows),
        in_bounds(viewport.eol(rows), rows),
        in_bounds(viewport.up(rows), rows),
        in_bounds(viewport.down(rows, height), rows),
{
}

/// The horizontal motions make the column that they reach the preferred
/// column; the vertical motions leave the preferred column as it is.
pub proof fn lemma_preferred_col(viewport: ViewportView, rows: Seq<Seq<Cell>>, height: int)
    ensures
        viewport.left(rows).preferred_col == viewport.left(rows).cursor_col,
        viewport.right(rows).preferred_col == viewport.right(rows).cursor_col,
        viewport.bol(rows).preferred_col == 0,
        viewport.eol(rows).preferred_col == viewport.eol(rows).cursor_col,
        viewport.up(rows).preferred_col == viewport.preferred_col,
        viewport.down(rows, height).preferred_col == viewport.preferred_col,
{
}

fn clamp_to(value: i64, low: i32, high: i32) -> (clamped: i32)
    requires
        low <= high,
    ensures
        clamped == clamp(value as int, low as int, high as int),
{
    if value < low as i64 {
        low
    } else if value > high as i64 {
        high
    } else {
        value as i32
    }
}

fn last_line_of(buffer: &Buffer) -> (line: i32)
    requires
        buffer.wf(),
    ensures
        line == last_line(buffer.rows()),
{
    if buffer.lines.len() == 0 {
        0
    } else {
        (buffer.lines.len() - 1) as i32
    }
}

fn last_col_of(buffer: &Buffer, line: i32) -> (column: i32)
    requires
        buffer.wf(),
    ensures
        column == last_col(buffer.rows(), line as int),
{
    if 0 <= line && (line as usize) < buffer.lines.len() && buffer.lines[line as usize].len() > 0 {
        (buffer.lines[line as usize].len() - 1) as i32
    } else {
        0
    }
}

impl Viewport {
    /// A viewport on buffer `buffer_id` with its cursor at the beginning of the
    /// first line, in mode `mode`, without the focus.
    pub fn new(buffer_id: usize, mode: String) -> (viewport: Viewport)
        ensures
            viewport@ == (ViewportView {
                buffer_id: buffer_id as int,
                cursor_line: 0,
                cursor_col: 0,
                preferred_col: 0,
                scroll_top: 0,
                mode: mode@,
                active: false,
            }),
    {
        Viewport {
            buffer_id,
            cursor_line: 0,
            cursor_col: 0,
            preferred_col: 0,
            scroll_top: 0,
            mode,
            active: false,
        }
    }

    fn place(&mut self, buffer: &Buffer, line: i64, column: i64)
        requires
            buffer.wf(),
        ensures
            final(self)@ == old(self)@.placed(buffer.rows(), line as int, column as int),
    {
        let line = clamp_to(line, 0, last_line_of(buffer));
        self.cursor_line = line;
        self.cursor_col = clamp_to(column, 0, last_col_of(buffer, line));
    }

    /// Moves the cursor one column to the left.
    pub fn left(&mut self, buffer: &Buffer)
        requires
            buffer.wf(),
        ensures
            final(self)@ == old(self)@.left(buffer.rows()),
    {
        self.place(buffer, self.cursor_line as i64, self.cursor_col as i64 - 1);
        self.preferred_col = self.cursor_col;
    }

    /// Moves the cursor one column to the right.
    pub fn right(&mut self, buffer: &Buffer)
        requires
            buffer.wf(),
        ensures
            final(self)@ == old(self)@.right(buffer.rows()),
    {
        self.place(buffer, self.cursor_line as i64, self.cursor_col as i64 + 1);
        self.preferred_col = self.cursor_col;
    }

    /// Moves the cursor to the beginning of its line.
    pub fn bol(&mut self, buffer: &Buffer)
        requires
            buffer.wf(),
        ensures
            final(self)@ == old(self)@.bol(buffer.rows()),
    {
        self.place(buffer, self.cursor_line as i64, 0);
        self.preferred_col = self.cursor_col;
    }

    /// Moves the cursor to the last character of its line.
    pub fn eol(&mut self, buffer: &Buffer)
        requires
            buffer.wf(),
        ensures
            final(self)@ == old(self)@.eol(buffer.rows()),
    {
        let line = clamp_to(self.cursor_line as i64, 0, last_line_of(buffer));
        self.place(buffer, line as i64, last_col_of(buffer, line) as i64);
        self.preferred_col = self.cursor_col;
    }

    /// Moves the cursor one line up.
    pub fn up(&mut self, buffer: &Buffer)
        requires
            buffer.wf(),
        ensures
            final(self)@ == old(self)@.up(buffer.rows()),
    {
        self.place(buffer, self.cursor_line as i64 - 1, self.preferred_col as i64);
        if self.cursor_line < self.scroll_top {
            self.scroll_top = self.scroll_top - 1;
        }
    }

    /// Moves the cursor one line down in a pane that is `height` lines high.
    pub fn down(&mut self, buffer: &Buffer, height: i32)
        requires
            buffer.wf(),
            old(self).scroll_top < i32::MAX,
        ensures
            final(self)@ == old(self)@.down(buffer.rows(), height as int),
    {
        self.place(buffer, self.cursor_line as i64 + 1, self.preferred_col as i64);
        if self.cursor_line as i64 > self.scroll_top as i64 + height as i64 - 2 {
            self.scroll_top = self.scroll_top + 1;
        }
    }

    /// Moves the cursor up by as many lines as the pane is high.
    pub fn page_up(&mut self, buffer: &Buffer, height: i32)
        requires
            buffer.wf(),
        ensures
            final(self)@ == old(self)@.page_up(buffer.rows(), height as int),
    {
        let steps: i32 = if height > 0 { height } else { 0 };
        let mut done: i32 = 0;
        while done < steps
            invariant
                buffer.wf(),
                0 <= done <= steps,
                self@ == old(self)@.up_by(buffer.rows(), done as nat),
            decreases steps - done,
        {
            self.up(buffer);
            done = done + 1;
        }
    }

    /// Moves the cursor down by as many lines as the pane is high.
    pub fn page_down(&mut self, buffer: &Buffer, height: i32)
        requires
            buffer.wf(),
            old(self).scroll_top + height <= i32::MAX,
        ensures
            final(self)@ == old(self)@.page_down(buffer.rows(), height as int),
    {
        let steps: i32 = if height > 0 { height } else { 0 };
        let mut done: i32 = 0;
        while done < steps
            invariant
                buffer.wf(),
                0 <= done <= steps,
                self.scroll_top <= old(self).scroll_top + done,
                old(self).scroll_top + steps <= i32::MAX,
                self@ == old(self)@.down_by(buffer.rows(), height as int, done as nat),
            decreases steps - done,
        {
            self.down(buffer, height);
            done = done + 1;
        }
    }

    /// Moves the cursor to the last line of the buffer.
    pub fn eof(&mut self, buffer: &Buffer, height: i32)
        requires
            buffer.wf(),
            old(self).scroll_top + buffer.rows().len() <= i32::MAX,
        ensures
            final(self)@ == old(self)@.eof(buffer.rows(), height as int),
    {
        let last = last_line_of(buffer);
        let first = clamp_to(self.cursor_line as i64, 0, last);
        let steps: i32 = last - first;
        let mut done: i32 = 0;
        while done < steps
            invariant
                buffer.wf(),
                0 <= done <= steps,
                steps <= buffer.rows().len(),
                self.scroll_top <= old(self).scroll_top + done,
                old(self).scroll_top + buffer.rows().len() <= i32::MAX,
                self@ == old(self)@.down_by(buffer.rows(), height as int, done as nat),
            decreases steps - done,
        {
            self.down(buffer, height);
            done = done + 1;
        }
    }
}

} // verus!
