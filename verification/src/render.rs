//! What is drawn in a pane: the commands for its drawing surface, in order.

use vstd::prelude::*;
use std::path::Path;
use crate::buffer::Buffer;
use crate::cell::{Cell, DEFAULT_COLOR};
use crate::layout::Rect;
use crate::text::chars_of;
use crate::tree_model::TreeView;
use crate::window::{Viewport, ViewportView};

verus! {

/// A command for the drawing surface of a pane. Rows and columns count from
/// the top left corner of the surface.
#[derive(Clone, Copy, Debug, PartialEq, Eq)]
pub enum DrawOp {
    /// Give the surface this size.
    Resize { width: i32, height: i32 },
    /// Put the top left corner of the surface at this place on the screen.
    MoveTo { x: i32, y: i32 },
    /// Draw a border of one cell along the edges of the surface, over what
    /// stands there.
    Border { highlighted: bool },
    /// Clear a row.
    ClearRow { row: i32 },
    /// Write a character in a palette colour.
    WriteCell { row: i32, col: i32, ch: char, color: u8 },
}

/// The command that writes `ch` in `color` at `(row, col)`.
pub open spec fn write_cell(row: int, col: int, ch: char, color: u8) -> DrawOp {
    DrawOp::WriteCell { row: row as i32, col: col as i32, ch, color }
}

/// The commands that write `cells` into `row`, the first at column `col`.
pub open spec fn cell_ops(cells: Seq<Cell>, row: int, col: int) -> Seq<DrawOp> {
    Seq::new(cells.len(), |k: int| write_cell(row, col + k, cells[k].ch, cells[k].fg))
}

/// The commands that write `text` in `color` into `row`, the first character
/// at column `col`.
pub open spec fn text_ops(text: Seq<char>, row: int, col: int, color: u8) -> Seq<DrawOp> {
    Seq::new(text.len(), |k: int| write_cell(row, col + k, text[k], color))
}

/// The commands for one row of a pane: clear it, then write line `line` of the
/// buffer into it from column 1 on, if the buffer has that line.
pub open spec fn row_ops(rows: Seq<Seq<Cell>>, line: int, row: int) -> Seq<DrawOp> {
    if 0 <= line < rows.len() {
        seq![DrawOp::ClearRow { row: row as i32 }] + cell_ops(rows[line], row, 1)
    } else {
        seq![DrawOp::ClearRow { row: row as i32 }]
    }
}

/// The commands for the first `count` rows of a pane that shows the buffer
/// from line `top` on: row 1 shows line `top`, row 2 the next, and so on.
pub open spec fn rows_ops(rows: Seq<Seq<Cell>>, top: int, count: int) -> Seq<DrawOp>
    decreases count,
{
    if count <= 0 {
        Seq::empty()
    } else {
        rows_ops(rows, top, count - 1) + row_ops(rows, top + count - 1, count)
    }
}

/// The character for the digit `d`.
pub open spec fn digit(d: int) -> char {
    (48u8 + d) as char
}

/// The decimal digits of `n`.
pub open spec fn digits(n: nat) -> Seq<char>
    decreases n,
{
    if n < 10 {
        seq![digit(n as int)]
    } else {
        digits(n / 10).push(digit((n % 10) as int))
    }
}

/// `n` written in decimal, with a minus sign if it is negative.
pub open spec fn decimal(n: int) -> Seq<char> {
    if n < 0 {
        seq!['-'] + digits((-n) as nat)
    } else {
        digits(n as nat)
    }
}

/// The label that shows where the cursor is: `(line,col)`.
pub open spec fn position_label(line: int, col: int) -> Seq<char> {
    seq!['('] + decimal(line) + seq![','] + decimal(col) + seq![')']
}

/// The file name of the path `path`: its last component, as `Path::file_name`
/// of std finds it on the platform that the library is built for. `None` where
/// the path has none.
pub uninterp spec fn path_file_name(path: Seq<char>) -> Option<Seq<char>>;

/// The colour of the labels of a pane: the default colour in the pane with the
/// focus, colour 0 elsewhere.
pub open spec fn label_color(active: bool) -> u8 {
    if active {
        DEFAULT_COLOR
    } else {
        0
    }
}

/// The column of the position label in a pane whose file name has `name`
/// characters.
pub open spec fn position_col(name: int) -> int {
    4 + name + 4
}

/// The commands for the labels in the last row of a pane: the file name from
/// column 4, the cursor position four columns after its end, the mode ending
/// four columns before the right edge. A label that the width of the pane has
/// no room for is left out.
pub open spec fn label_ops(viewport: ViewportView, geometry: Rect, name: Seq<char>) -> Seq<
    DrawOp,
> {
    let row = geometry.height - 1;
    let color = label_color(viewport.active);
    let position = position_label(viewport.cursor_line, viewport.cursor_col);
    let name_ops = if geometry.width >= name.len() + 4 {
        text_ops(name, row, 4, color)
    } else {
        Seq::empty()
    };
    let position_ops = if geometry.width >= position_col(name.len() as int) + position.len() {
        text_ops(position, row, position_col(name.len() as int), color)
    } else {
        Seq::empty()
    };
    let mode_ops = if geometry.width >= viewport.mode.len() + 4 {
        text_ops(viewport.mode, row, geometry.width - 4 - viewport.mode.len(), color)
    } else {
        Seq::empty()
    };
    name_ops + position_ops + mode_ops
}

/// The commands that draw a pane: size and place of the surface, one row for
/// each line of the height with the lines of the buffer from `scroll_top` on,
/// over them the border, highlighted in the pane with the focus, and on the
/// border the labels.
pub open spec fn pane_ops(
    viewport: ViewportView,
    geometry: Rect,
    rows: Seq<Seq<Cell>>,
    name: Seq<char>,
) -> Seq<DrawOp> {
    seq![
        DrawOp::Resize { width: geometry.width, height: geometry.height },
        DrawOp::MoveTo { x: geometry.x, y: geometry.y },
    ] + rows_ops(rows, viewport.scroll_top, geometry.height as int) + seq![
        DrawOp::Border { highlighted: viewport.active },
    ] + label_ops(viewport, geometry, name)
}

fn push_cells_ops(ops: &mut Vec<DrawOp>, cells: &Vec<Cell>, row: i32)
    requires
        cells@.len() <= i32::MAX,
    ensures
        final(ops)@ == old(ops)@ + cell_ops(cells@, row as int, 1),
{
    let ghost before = ops@;
    let mut k: usize = 0;
    while k < cells.len()
        invariant
            k <= cells@.len() <= i32::MAX,
            ops@.len() == before.len() + k,
            forall|j: int| 0 <= j < before.len() ==> #[trigger] ops@[j] == before[j],
            forall|j: int|
                before.len() <= j < ops@.len() ==> #[trigger] ops@[j] == write_cell(
                    row as int,
                    1 + (j - before.len()),
                    cells@[j - before.len()].ch,
                    cells@[j - before.len()].fg,
                ),
        decreases cells.len() - k,
    {
        let cell = cells[k];
        ops.push(DrawOp::WriteCell { row, col: 1 + k as i32, ch: cell.ch, color: cell.fg });
        k += 1;
    }
    assert(ops@ =~= before + cell_ops(cells@, row as int, 1));
}

fn push_text_ops(ops: &mut Vec<DrawOp>, label: &Vec<char>, row: i32, col: i32, color: u8)
    requires
        col + label@.len() <= i32::MAX,
        0 <= col,
    ensures
        final(ops)@ == old(ops)@ + text_ops(label@, row as int, col as int, color),
{
    let ghost before = ops@;
    let mut k: usize = 0;
    while k < label.len()
        invariant
            0 <= col,
            k <= label@.len(),
            col + label@.len() <= i32::MAX,
            ops@.len() == before.len() + k,
            forall|j: int| 0 <= j < before.len() ==> #[trigger] ops@[j] == before[j],
            forall|j: int|
                before.len() <= j < ops@.len() ==> #[trigger] ops@[j] == write_cell(
                    row as int,
                    col + (j - before.len()),
                    label@[j - before.len()],
                    color,
                ),
        decreases label.len() - k,
    {
        let ch = label[k];
        let at: i32 = col + k as i32;
        let ghost earlier = ops@;
        ops.push(DrawOp::WriteCell { row, col: at, ch, color });
        assert(ops@ == earlier.push(write_cell(row as int, col + k, ch, color)));
        k += 1;
    }
    assert(ops@ =~= before + text_ops(label@, row as int, col as int, color));
}

fn push_digits(out: &mut Vec<char>, n: u32)
    ensures
        final(out)@ == old(out)@ + digits(n as nat),
    decreases n,
{
    if n < 10 {
        out.push((48u8 + n as u8) as char);
        assert(out@ =~= old(out)@ + digits(n as nat));
    } else {
        push_digits(out, n / 10);
        out.push((48u8 + (n % 10) as u8) as char);
        assert(out@ =~= old(out)@ + digits(n as nat));
    }
}

fn push_decimal(out: &mut Vec<char>, n: i32)
    ensures
        final(out)@ == old(out)@ + decimal(n as int),
{
    if n < 0 {
        out.push('-');
        let size: u32 = if n == i32::MIN { 2147483648u32 } else { (-n) as u32 };
        push_digits(out, size);
        assert(out@ =~= old(out)@ + decimal(n as int));
    } else {
        push_digits(out, n as u32);
    }
}

/// The label that shows the cursor at line `line`, column `col`.
pub fn position_text(line: i32, col: i32) -> (label: Vec<char>)
    ensures
        label@ == position_label(line as int, col as int),
{
    let mut label: Vec<char> = Vec::new();
    label.push('(');
    push_decimal(&mut label, line);
    label.push(',');
    push_decimal(&mut label, col);
    label.push(')');
    assert(label@ =~= position_label(line as int, col as int));
    label
}

/// `Path::file_name` of std: the last component of the path `path`, which is
/// the name of the file or directory that it leads to. `None` where the path
/// has no such component, as where it ends in two dots. The component is part
/// of the text of `path` and depends on that text alone.
#[verifier::external_body]
pub(crate) fn file_name_of(path: &str) -> (name: Option<String>)
    ensures
        match name {
            Some(text) => path_file_name(path@) == Some(text@),
            None => path_file_name(path@) is None,
        },
{
    Path::new(path).file_name().and_then(|name| name.to_str()).map(|name| name.to_string())
}

fn push_rows(ops: &mut Vec<DrawOp>, buffer: &Buffer, top: i32, height: i32)
    requires
        buffer.wf(),
    ensures
        final(ops)@ == old(ops)@ + rows_ops(buffer.rows(), top as int, height as int),
{
    let count: i32 = if height > 0 { height } else { 0 };
    let mut done: i32 = 0;
    assert(ops@ =~= old(ops)@ + rows_ops(buffer.rows(), top as int, 0));
    while done < count
        invariant
            buffer.wf(),
            0 <= done <= count,
            ops@ == old(ops)@ + rows_ops(buffer.rows(), top as int, done as int),
        decreases count - done,
    {
        let ghost before = ops@;
        let row: i32 = done + 1;
        let line: i64 = top as i64 + done as i64;
        ops.push(DrawOp::ClearRow { row });
        if 0 <= line && line < buffer.lines.len() as i64 {
            assert(buffer.rows()[line as int] == buffer.lines@[line as int]@);
            push_cells_ops(ops, &buffer.lines[line as usize], row);
        }
        assert(ops@ =~= before + row_ops(buffer.rows(), top + done, row as int));
        done = done + 1;
    }
    assert(rows_ops(buffer.rows(), top as int, count as int) == rows_ops(
        buffer.rows(),
        top as int,
        height as int,
    ));
}

fn push_label(ops: &mut Vec<DrawOp>, text: &Vec<char>, row: i32, col: i64, width: i32, color: u8)
    requires
        0 <= col <= u32::MAX,
    ensures
        final(ops)@ == old(ops)@ + if width >= col + text@.len() {
            text_ops(text@, row as int, col as int, color)
        } else {
            Seq::empty()
        },
{
    if text.len() <= i32::MAX as usize && col + text.len() as i64 <= width as i64 {
        push_text_ops(ops, text, row, col as i32, color);
    } else {
        assert(ops@ =~= old(ops)@ + Seq::<DrawOp>::empty());
    }
}

fn push_labels(ops: &mut Vec<DrawOp>, viewport: &Viewport, geometry: Rect, label: &Vec<char>)
    requires
        geometry.wf(),
    ensures
        final(ops)@ == old(ops)@ + label_ops(viewport@, geometry, label@),
{
    let row: i32 = geometry.height - 1;
    let color: u8 = if viewport.active { DEFAULT_COLOR } else { 0 };
    let position = position_text(viewport.cursor_line, viewport.cursor_col);
    let mode = chars_of(viewport.mode.as_str());
    push_label(ops, label, row, 4, geometry.width, color);
    let ghost named = ops@;
    if label.len() <= i32::MAX as usize {
        push_label(ops, &position, row, 8 + label.len() as i64, geometry.width, color);
    }
    let ghost placed = ops@;
    if mode.len() <= i32::MAX as usize && mode.len() as i64 + 4 <= geometry.width as i64 {
        push_label(
            ops,
            &mode,
            row,
            geometry.width as i64 - 4 - mode.len() as i64,
            geometry.width,
            color,
        );
    }
    proof {
        let width = geometry.width as int;
        let line = (geometry.height - 1) as int;
        let name_ops = if width >= label@.len() + 4 {
            text_ops(label@, line, 4, color)
        } else {
            Seq::empty()
        };
        let position_ops = if width >= position_col(label@.len() as int) + position@.len() {
            text_ops(position@, line, position_col(label@.len() as int), color)
        } else {
            Seq::empty()
        };
        let mode_ops = if width >= mode@.len() + 4 {
            text_ops(mode@, line, width - 4 - mode@.len(), color)
        } else {
            Seq::empty()
        };
        assert(named == old(ops)@ + name_ops);
        assert(placed =~= named + position_ops);
        assert(ops@ =~= placed + mode_ops);
        assert(ops@ =~= old(ops)@ + (name_ops + position_ops + mode_ops));
    }
}

/// The commands that draw the pane of `viewport` on `buffer` in the rectangle
/// `geometry`, with `name` as the name of the file.
pub fn render_pane(viewport: &Viewport, geometry: Rect, buffer: &Buffer, name: &str) -> (ops: Vec<
    DrawOp,
>)
    requires
        buffer.wf(),
        geometry.wf(),
    ensures
        ops@ == pane_ops(viewport@, geometry, buffer.rows(), name@),
{
    let mut ops: Vec<DrawOp> = Vec::new();
    ops.push(DrawOp::Resize { width: geometry.width, height: geometry.height });
    ops.push(DrawOp::MoveTo { x: geometry.x, y: geometry.y });
    push_rows(&mut ops, buffer, viewport.scroll_top, geometry.height);
    ops.push(DrawOp::Border { highlighted: viewport.active });
    let label = chars_of(name);
    push_labels(&mut ops, viewport, geometry, &label);
    assert(ops@ =~= pane_ops(viewport@, geometry, buffer.rows(), name@));
    ops
}

/// The commands that draw one pane of a window tree.
#[derive(Debug)]
pub struct Frame {
    /// The index of the pane in the tree.
    pub pane: usize,
    pub ops: Vec<DrawOp>,
}

/// A [`Frame`] as mathematical values.
pub struct FrameView {
    pub pane: int,
    pub ops: Seq<DrawOp>,
}

impl View for Frame {
    type V = FrameView;

    open spec fn view(&self) -> FrameView {
        FrameView { pane: self.pane as int, ops: self.ops@ }
    }
}

/// The frame of pane `i` of `tree`, which shows one of `buffers`.
pub open spec fn frame_of(tree: TreeView, buffers: Seq<Buffer>, i: int) -> FrameView {
    let viewport = tree.viewport(i);
    let buffer = buffers[viewport.buffer_id];
    FrameView {
        pane: i,
        ops: pane_ops(
            viewport,
            tree.geometry(i),
            buffer.rows(),
            path_file_name(buffer.path@)->0,
        ),
    }
}

/// The frames of the panes among the first `count` nodes of `tree`, in the
/// order of the arena.
pub open spec fn frames(tree: TreeView, buffers: Seq<Buffer>, count: int) -> Seq<FrameView>
    decreases count,
{
    if count <= 0 {
        Seq::empty()
    } else if tree.is_leaf(count - 1) {
        frames(tree, buffers, count - 1).push(frame_of(tree, buffers, count - 1))
    } else {
        frames(tree, buffers, count - 1)
    }
}

/// Whether every pane of `tree` shows one of the first `count` buffers.
pub open spec fn shows_buffers(tree: TreeView, count: int) -> bool {
    forall|i: int| #[trigger] tree.is_leaf(i) ==> tree.viewport(i).buffer_id < count
}

/// Whether the path of every buffer that a pane of `tree` shows has a file
/// name.
pub open spec fn shows_named(tree: TreeView, buffers: Seq<Buffer>) -> bool {
    forall|i: int| #[trigger]
        tree.is_leaf(i) ==> path_file_name(buffers[tree.viewport(i).buffer_id].path@) is Some
}

/// Whether every buffer is well formed.
pub open spec fn all_wf(buffers: Seq<Buffer>) -> bool {
    forall|j: int| 0 <= j < buffers.len() ==> (#[trigger] buffers[j]).wf()
}

} // verus!
