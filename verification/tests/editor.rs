use editor_core::cell::DEFAULT_COLOR;
use editor_core::editor::Editor;

#[test]
fn a_new_editor_has_no_buffers() {
    assert!(Editor::new().buffers.is_empty());
}

#[test]
fn open_fills_a_buffer_with_the_lines() {
    let mut editor = Editor::new();
    let lines = vec![String::from("fn main() {"), String::from("\tprintln!();"), String::from("}")];
    let id = editor.open(String::from("src/main.rs"), &lines);
    assert_eq!(id, 0);
    assert_eq!(editor.buffers.len(), 1);
    let buffer = &editor.buffers[0];
    assert_eq!(buffer.path, "src/main.rs");
    assert_eq!(buffer.eof(), 3);
    assert_eq!(buffer.contents(), "fn main() {\n    println!();\n}");
    assert!(buffer.lines.iter().flatten().all(|cell| cell.fg == DEFAULT_COLOR));
    assert!(buffer.transactions.is_empty());
    assert!(buffer.highlighter.is_none() && buffer.ts.is_none());
}

#[test]
fn open_gives_each_buffer_the_next_index() {
    let mut editor = Editor::new();
    assert_eq!(editor.open(String::from("a"), &vec![String::from("1")]), 0);
    assert_eq!(editor.open(String::from("b"), &Vec::new()), 1);
    assert_eq!(editor.open(String::from("c"), &vec![String::from("3")]), 2);
    assert_eq!(editor.buffers[0].contents(), "1");
    assert_eq!(editor.buffers[1].eof(), 0);
    assert_eq!(editor.buffers[2].path, "c");
}
