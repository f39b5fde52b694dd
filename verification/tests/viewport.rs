use editor_core::buffer::Buffer;
use editor_core::window::Viewport;

fn buffer_of(lines: &[&str]) -> Buffer {
    let mut buffer = Buffer::new(String::from("notes.txt"), None, None);
    for line in lines {
        buffer.append_line(line);
    }
    buffer
}

fn numbered(count: usize) -> Buffer {
    let mut buffer = Buffer::new(String::from("numbers.txt"), None, None);
    for line in 0..count {
        buffer.append_line(&format!("line {}", line));
    }
    buffer
}

fn viewport() -> Viewport {
    Viewport::new(0, String::from("normal"))
}

fn place(viewport: &Viewport) -> (i32, i32, i32, i32) {
    (viewport.cursor_line, viewport.cursor_col, viewport.preferred_col, viewport.scroll_top)
}

#[test]
fn a_new_viewport_stands_at_the_origin() {
    let viewport = Viewport::new(3, String::from("insert"));
    assert_eq!(viewport.buffer_id, 3);
    assert_eq!(place(&viewport), (0, 0, 0, 0));
    assert_eq!(viewport.mode, "insert");
    assert!(!viewport.active);
}

#[test]
fn down_at_the_last_shown_line_scrolls_by_one() {
    let buffer = numbered(100);
    let height = 10;
    let mut viewport = viewport();
    viewport.scroll_top = 5;
    viewport.cursor_line = viewport.scroll_top + height - 2;
    viewport.down(&buffer, height);
    assert_eq!(viewport.scroll_top, 6);
    assert_eq!(viewport.cursor_line, viewport.scroll_top + height - 2);
    assert_eq!(viewport.cursor_line, 14);
}

#[test]
fn down_within_the_pane_does_not_scroll() {
    let buffer = numbered(100);
    let mut viewport = viewport();
    for line in 1..=8 {
        viewport.down(&buffer, 10);
        assert_eq!(place(&viewport), (line, 0, 0, 0));
    }
    viewport.down(&buffer, 10);
    assert_eq!(place(&viewport), (9, 0, 0, 1));
}

#[test]
fn down_stops_at_the_last_line() {
    let buffer = numbered(3);
    let mut viewport = viewport();
    viewport.down(&buffer, 10);
    viewport.down(&buffer, 10);
    assert_eq!(viewport.cursor_line, 2);
    viewport.down(&buffer, 10);
    assert_eq!(place(&viewport), (2, 0, 0, 0));
}

#[test]
fn up_at_the_first_shown_line_scrolls_by_one() {
    let buffer = numbered(100);
    let mut viewport = viewport();
    viewport.scroll_top = 5;
    viewport.cursor_line = 5;
    viewport.up(&buffer);
    assert_eq!(place(&viewport), (4, 0, 0, 4));
    viewport.cursor_line = 7;
    viewport.up(&buffer);
    assert_eq!(place(&viewport), (6, 0, 0, 4));
}

#[test]
fn up_stops_at_the_first_line() {
    let buffer = numbered(3);
    let mut viewport = viewport();
    viewport.up(&buffer);
    assert_eq!(place(&viewport), (0, 0, 0, 0));
}

#[test]
fn left_and_right_stay_on_the_line() {
    let buffer = buffer_of(&["abc"]);
    let mut viewport = viewport();
    viewport.left(&buffer);
    assert_eq!(place(&viewport), (0, 0, 0, 0));
    viewport.right(&buffer);
    viewport.right(&buffer);
    assert_eq!(place(&viewport), (0, 2, 2, 0));
    viewport.right(&buffer);
    assert_eq!(place(&viewport), (0, 2, 2, 0));
    viewport.left(&buffer);
    assert_eq!(place(&viewport), (0, 1, 1, 0));
}

#[test]
fn vertical_moves_return_to_the_preferred_column() {
    let buffer = buffer_of(&["a long line", "ab", "", "another long line"]);
    let mut viewport = viewport();
    viewport.eol(&buffer);
    assert_eq!(place(&viewport), (0, 10, 10, 0));
    viewport.down(&buffer, 24);
    assert_eq!(place(&viewport), (1, 1, 10, 0));
    viewport.down(&buffer, 24);
    assert_eq!(place(&viewport), (2, 0, 10, 0));
    viewport.down(&buffer, 24);
    assert_eq!(place(&viewport), (3, 10, 10, 0));
    viewport.up(&buffer);
    viewport.up(&buffer);
    viewport.up(&buffer);
    assert_eq!(place(&viewport), (0, 10, 10, 0));
}

#[test]
fn bol_and_eol_set_the_preferred_column() {
    let buffer = buffer_of(&["hello", ""]);
    let mut viewport = viewport();
    viewport.eol(&buffer);
    assert_eq!(place(&viewport), (0, 4, 4, 0));
    viewport.bol(&buffer);
    assert_eq!(place(&viewport), (0, 0, 0, 0));
    viewport.cursor_line = 1;
    viewport.eol(&buffer);
    assert_eq!(place(&viewport), (1, 0, 0, 0));
}

#[test]
fn motions_bring_a_stray_cursor_back() {
    let buffer = buffer_of(&["abc", "de"]);
    let mut viewport = viewport();
    viewport.cursor_line = 40;
    viewport.cursor_col = 40;
    viewport.left(&buffer);
    assert_eq!(place(&viewport), (1, 1, 1, 0));
    viewport.cursor_line = -3;
    viewport.cursor_col = -3;
    viewport.right(&buffer);
    assert_eq!(place(&viewport), (0, 0, 0, 0));
}

#[test]
fn motions_in_a_buffer_without_lines_stay_at_the_origin() {
    let buffer = buffer_of(&[]);
    let mut viewport = viewport();
    viewport.down(&buffer, 10);
    viewport.right(&buffer);
    viewport.eol(&buffer);
    viewport.eof(&buffer, 10);
    viewport.page_down(&buffer, 10);
    assert_eq!(place(&viewport), (0, 0, 0, 0));
}

#[test]
fn page_down_moves_by_the_height_and_scrolls_line_by_line() {
    let buffer = numbered(100);
    let mut viewport = viewport();
    viewport.page_down(&buffer, 10);
    assert_eq!(place(&viewport), (10, 0, 0, 2));
    viewport.page_down(&buffer, 10);
    assert_eq!(place(&viewport), (20, 0, 0, 12));
}

#[test]
fn page_up_moves_by_the_height_and_scrolls_line_by_line() {
    let buffer = numbered(100);
    let mut viewport = viewport();
    viewport.cursor_line = 30;
    viewport.scroll_top = 25;
    viewport.page_up(&buffer, 10);
    assert_eq!(place(&viewport), (20, 0, 0, 20));
    viewport.page_up(&buffer, 10);
    viewport.page_up(&buffer, 10);
    viewport.page_up(&buffer, 10);
    assert_eq!(place(&viewport), (0, 0, 0, 0));
}

#[test]
fn a_page_in_a_pane_without_height_does_not_move() {
    let buffer = numbered(100);
    let mut viewport = viewport();
    viewport.cursor_line = 30;
    viewport.scroll_top = 25;
    viewport.page_up(&buffer, 0);
    viewport.page_down(&buffer, -4);
    assert_eq!(place(&viewport), (30, 0, 0, 25));
}

#[test]
fn eof_goes_to_the_last_line() {
    let buffer = numbered(50);
    let mut viewport = viewport();
    viewport.eof(&buffer, 10);
    assert_eq!(place(&viewport), (49, 0, 0, 41));
    assert_eq!(viewport.cursor_line, viewport.scroll_top + 10 - 2);
    viewport.eof(&buffer, 10);
    assert_eq!(place(&viewport), (49, 0, 0, 41));
}

#[test]
fn the_clone_of_a_viewport_is_equal_to_it() {
    let mut viewport = Viewport::new(2, String::from("visual"));
    viewport.cursor_line = 4;
    viewport.cursor_col = 5;
    viewport.preferred_col = 6;
    viewport.scroll_top = 3;
    viewport.active = true;
    let copy = viewport.clone();
    assert_eq!(copy.buffer_id, 2);
    assert_eq!(place(&copy), (4, 5, 6, 3));
    assert_eq!(copy.mode, "visual");
    assert!(copy.active);
}
