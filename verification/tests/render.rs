use editor_core::buffer::Buffer;
use editor_core::layout::Rect;
use editor_core::render::{position_text, render_pane, DrawOp};
use editor_core::window::Viewport;
use editor_core::window_tree::WindowTree;

fn buffer_of(path: &str, lines: &[&str]) -> Buffer {
    let mut buffer = Buffer::new(String::from(path), None, None);
    for line in lines {
        buffer.append_line(line);
    }
    buffer
}

fn written(ops: &[DrawOp], row: i32) -> Vec<(i32, char, u8)> {
    ops.iter()
        .filter_map(|op| match *op {
            DrawOp::WriteCell { row: at, col, ch, color } if at == row => Some((col, ch, color)),
            _ => None,
        })
        .collect()
}

/// What stands in `count` columns of `row` from `col` on after all commands.
fn text_at(ops: &[DrawOp], row: i32, col: i32, count: usize) -> String {
    let cells = written(ops, row);
    (0..count as i32)
        .map(|k| {
            cells.iter().rev().find(|(at, _, _)| *at == col + k).map(|(_, ch, _)| *ch).unwrap_or(' ')
        })
        .collect()
}

/// The file name that the panes are drawn with.
const NAME: &str = "notes.txt";

fn string(chars: Vec<char>) -> String {
    chars.into_iter().collect()
}

#[test]
fn the_position_label_shows_line_and_column() {
    assert_eq!(string(position_text(0, 0)), "(0,0)");
    assert_eq!(string(position_text(12, 345)), "(12,345)");
    assert_eq!(string(position_text(-7, 10)), "(-7,10)");
    assert_eq!(string(position_text(i32::MAX, i32::MIN)), "(2147483647,-2147483648)");
}

/// The name label that `draw` puts into the one pane of a tree on a buffer
/// at `path`, if it draws.
fn name_label(path: &str) -> Option<String> {
    let buffers = vec![buffer_of(path, &[])];
    let mut tree = WindowTree::new(Viewport::new(0, String::new()));
    let frames = tree.try_draw(&buffers, 200, 3, 0, 0)?;
    let cells = written(&frames[0].ops, 2);
    let position = cells.iter().position(|(_, ch, _)| *ch == '(').unwrap();
    Some(cells[..position].iter().map(|(_, ch, _)| *ch).collect())
}

#[test]
fn the_file_name_is_the_last_component_of_the_path() {
    assert_eq!(name_label("/home/user/notes.txt").unwrap(), "notes.txt");
    assert_eq!(name_label("notes.txt").unwrap(), "notes.txt");
    assert_eq!(name_label("a/b/c").unwrap(), "c");
    assert_eq!(name_label("/usr/bin/").unwrap(), "bin");
    assert_eq!(name_label("foo.txt/.").unwrap(), "foo.txt");
    assert_eq!(name_label("a/.hidden").unwrap(), ".hidden");
}

#[test]
fn a_buffer_without_a_file_name_is_not_drawn() {
    for path in ["", "/", "..", "foo.txt/.."] {
        assert_eq!(name_label(path), None, "{:?}", path);
    }
    let buffers = vec![buffer_of("..", &["x"])];
    let mut tree = WindowTree::new(Viewport::new(0, String::new()));
    tree.layout(10, 5, 0, 0);
    assert!(tree.try_draw(&buffers, 80, 24, 0, 0).is_none());
    assert_eq!(tree.geometry(0), Rect { x: 0, y: 0, width: 10, height: 5 });
}

#[test]
fn try_draw_draws_what_draw_draws() {
    let buffers = vec![buffer_of("a/left.txt", &["l"])];
    let mut tree = WindowTree::new(Viewport::new(0, String::from("normal")));
    tree.split_vertically(0);
    let mut other = WindowTree::new(Viewport::new(0, String::from("normal")));
    other.split_vertically(0);
    let drawn = tree.try_draw(&buffers, 40, 11, 1, 2).unwrap();
    let expected = other.draw(&buffers, 40, 11, 1, 2);
    assert_eq!(drawn.len(), 2);
    for (frame, wanted) in drawn.iter().zip(expected.iter()) {
        assert_eq!(frame.pane, wanted.pane);
        assert_eq!(frame.ops, wanted.ops);
    }
    assert_eq!(tree.geometry(2), Rect { x: 1, y: 7, width: 40, height: 6 });
}

#[test]
fn a_pane_is_sized_and_placed_first_and_framed_over_its_rows() {
    let buffer = buffer_of("a.txt", &["x"]);
    let mut viewport = Viewport::new(0, String::from("normal"));
    viewport.active = true;
    let geometry = Rect { x: 3, y: 2, width: 40, height: 5 };
    let ops = render_pane(&viewport, geometry, &buffer, NAME);
    assert_eq!(ops[..2], [DrawOp::Resize { width: 40, height: 5 }, DrawOp::MoveTo { x: 3, y: 2 }]);
    // Five rows, the first with one cell, then the border, then the labels.
    assert_eq!(ops[2..4], [DrawOp::ClearRow { row: 1 }, DrawOp::WriteCell { row: 1, col: 1, ch: 'x', color: 1 }]);
    assert_eq!(ops[8], DrawOp::Border { highlighted: true });
    assert_eq!(ops.iter().filter(|op| matches!(op, DrawOp::Border { .. })).count(), 1);
    assert!(ops[9..].iter().all(|op| matches!(op, DrawOp::WriteCell { row: 4, .. })));
    viewport.active = false;
    let ops = render_pane(&viewport, geometry, &buffer, NAME);
    assert_eq!(ops[8], DrawOp::Border { highlighted: false });
}

#[test]
fn the_rows_show_the_buffer_from_the_scroll_position() {
    let buffer = buffer_of("a.txt", &["zero", "one", "two", "three"]);
    let mut viewport = Viewport::new(0, String::from("normal"));
    viewport.scroll_top = 2;
    let geometry = Rect { x: 0, y: 0, width: 2, height: 3 };
    let ops = render_pane(&viewport, geometry, &buffer, NAME);
    assert_eq!(
        ops[2..],
        [
            DrawOp::ClearRow { row: 1 },
            DrawOp::WriteCell { row: 1, col: 1, ch: 't', color: 1 },
            DrawOp::WriteCell { row: 1, col: 2, ch: 'w', color: 1 },
            DrawOp::WriteCell { row: 1, col: 3, ch: 'o', color: 1 },
            DrawOp::ClearRow { row: 2 },
            DrawOp::WriteCell { row: 2, col: 1, ch: 't', color: 1 },
            DrawOp::WriteCell { row: 2, col: 2, ch: 'h', color: 1 },
            DrawOp::WriteCell { row: 2, col: 3, ch: 'r', color: 1 },
            DrawOp::WriteCell { row: 2, col: 4, ch: 'e', color: 1 },
            DrawOp::WriteCell { row: 2, col: 5, ch: 'e', color: 1 },
            DrawOp::ClearRow { row: 3 },
            DrawOp::Border { highlighted: false },
        ]
    );
}

#[test]
fn cells_are_written_in_their_colours() {
    let mut buffer = buffer_of("a.txt", &["ab"]);
    buffer.lines[0][1].fg = 208;
    let viewport = Viewport::new(0, String::from(""));
    let ops = render_pane(&viewport, Rect { x: 0, y: 0, width: 0, height: 1 }, &buffer, NAME);
    assert_eq!(written(&ops, 1), [(1, 'a', 1), (2, 'b', 208)]);
}

#[test]
fn the_labels_stand_in_the_last_row() {
    let buffer = buffer_of("/tmp/notes.txt", &["hello"]);
    let mut viewport = Viewport::new(0, String::from("normal"));
    viewport.cursor_line = 12;
    viewport.cursor_col = 3;
    viewport.active = true;
    let geometry = Rect { x: 0, y: 0, width: 40, height: 20 };
    let ops = render_pane(&viewport, geometry, &buffer, NAME);
    let row = 19;
    assert_eq!(text_at(&ops, row, 4, 9), "notes.txt");
    assert_eq!(text_at(&ops, row, 17, 6), "(12,3)");
    assert_eq!(text_at(&ops, row, 30, 6), "normal");
    assert_eq!(written(&ops, row).len(), 9 + 6 + 6);
    assert!(written(&ops, row).iter().all(|(_, _, color)| *color == 1));
}

#[test]
fn labels_in_a_pane_without_focus_have_no_colour() {
    let buffer = buffer_of("notes.txt", &[]);
    let viewport = Viewport::new(0, String::from("normal"));
    let ops = render_pane(&viewport, Rect { x: 0, y: 0, width: 40, height: 3 }, &buffer, NAME);
    assert!(!written(&ops, 2).is_empty());
    assert!(written(&ops, 2).iter().all(|(_, _, color)| *color == 0));
}

#[test]
fn a_label_without_room_is_left_out_whole() {
    let buffer = buffer_of("notes.txt", &[]);
    let viewport = Viewport::new(0, String::from("normal"));
    // The name needs 9 + 4 columns, the position 17 + 5, the mode 6 + 4.
    let at = |width: i32| {
        let ops = render_pane(&viewport, Rect { x: 0, y: 0, width, height: 1 }, &buffer, NAME);
        let cells = written(&ops, 0);
        (
            cells.iter().any(|(col, ch, _)| (*col, *ch) == (4, 'n')),
            cells.iter().any(|(_, ch, _)| *ch == '('),
            cells.iter().any(|(col, ch, _)| (*col, *ch) == (width - 4 - 1, 'l')),
            cells.len(),
        )
    };
    assert_eq!(at(9), (false, false, false, 0));
    assert_eq!(at(10), (false, false, true, 6));
    assert_eq!(at(12), (false, false, true, 6));
    assert_eq!(at(13), (true, false, true, 15));
    assert_eq!(at(21), (true, false, true, 15));
    assert_eq!(at(22), (true, true, true, 20));
}

#[test]
fn draw_gives_one_frame_for_each_pane() {
    let buffers = vec![buffer_of("left.txt", &["l"]), buffer_of("right.txt", &["r"])];
    let mut tree = WindowTree::new(Viewport::new(0, String::from("normal")));
    tree.split_horizontally(0);
    tree.focus(3);
    tree.update_active_window(Viewport::new(1, String::from("insert")));
    let frames = tree.draw(&buffers, 60, 10, 0, 0);
    assert_eq!(frames.len(), 2);
    assert_eq!((frames[0].pane, frames[1].pane), (1, 2));
    assert_eq!(
        frames[0].ops[..2],
        [DrawOp::Resize { width: 30, height: 10 }, DrawOp::MoveTo { x: 0, y: 0 }]
    );
    assert_eq!(
        frames[1].ops[..2],
        [DrawOp::Resize { width: 30, height: 10 }, DrawOp::MoveTo { x: 30, y: 0 }]
    );
    assert!(frames[0].ops.contains(&DrawOp::Border { highlighted: false }));
    assert!(frames[1].ops.contains(&DrawOp::Border { highlighted: true }));
    assert_eq!(written(&frames[0].ops, 1), [(1, 'l', 1)]);
    assert_eq!(written(&frames[1].ops, 1), [(1, 'r', 1)]);
    assert_eq!(text_at(&frames[0].ops, 9, 4, 8), "left.txt");
    assert_eq!(text_at(&frames[1].ops, 9, 4, 9), "right.txt");
    assert_eq!(text_at(&frames[1].ops, 9, 20, 6), "insert");
    assert_eq!(tree.geometry(2), Rect { x: 30, y: 0, width: 30, height: 10 });
    for (frame, ops) in frames.iter().map(|frame| (frame, &frame.ops)) {
        let shown = tree.viewport(frame.pane);
        assert_eq!(*ops, render_pane(
                shown,
                tree.geometry(frame.pane),
                &buffers[shown.buffer_id],
                &buffers[shown.buffer_id].path
            ));
    }
}
