use editor_core::drawer::{compare, compute_ngram_tokens, Drawer};

fn drawer(names: &[&str], active: i32) -> Drawer {
    Drawer {
        prompt: String::from("Find files: "),
        value: String::from("/tmp/"),
        lines: names.iter().map(|name| String::from(*name)).collect(),
        active_line_index: active,
    }
}

#[test]
fn tokens_are_the_windows_of_a_text() {
    assert_eq!(compute_ngram_tokens("hello", 2), ["he", "el", "ll", "lo"]);
    assert_eq!(compute_ngram_tokens("hello", 5), ["hello"]);
    assert_eq!(compute_ngram_tokens("ab", 1), ["a", "b"]);
}

#[test]
fn a_short_text_gives_one_padded_token() {
    assert_eq!(compute_ngram_tokens("ab", 4), ["ab  "]);
    assert_eq!(compute_ngram_tokens("", 2), ["  "]);
}

#[test]
fn tokens_of_size_zero_are_empty() {
    assert_eq!(compute_ngram_tokens("ab", 0), ["", "", ""]);
    assert_eq!(compute_ngram_tokens("", 0), [""]);
}

#[test]
fn equal_texts_have_everything_in_common() {
    assert_eq!(compare("main.rs", "main.rs", 3), (1, 1));
    assert_eq!(compare("", "", 0), (1, 1));
}

#[test]
fn compare_counts_shared_tokens() {
    // "night": ni ig gh ht; "nacht": na ac ch ht. One of four is shared.
    assert_eq!(compare("night", "nacht", 2), (1, 4 + 3));
    // "aaa": aa aa, one different token; "aab": aa ab.
    assert_eq!(compare("aaa", "aab", 2), (1, 1 + 1));
    assert_eq!(compare("abc", "xyz", 1), (0, 3 + 3));
    assert_eq!(compare("abab", "ab", 2), (1, 2));
}

#[test]
fn next_item_moves_towards_the_first_and_wraps() {
    let mut picker = drawer(&["a", "b", "c"], 2);
    picker.next_item();
    assert_eq!(picker.active_line_index, 1);
    picker.next_item();
    assert_eq!(picker.active_line_index, 0);
    picker.next_item();
    assert_eq!(picker.active_line_index, 2);
    picker.active_line_index = -5;
    picker.next_item();
    assert_eq!(picker.active_line_index, 0);
}

#[test]
fn prev_item_moves_towards_the_last_and_wraps() {
    let mut picker = drawer(&["a", "b", "c"], 0);
    picker.prev_item();
    assert_eq!(picker.active_line_index, 1);
    picker.prev_item();
    assert_eq!(picker.active_line_index, 2);
    picker.prev_item();
    assert_eq!(picker.active_line_index, 0);
    picker.active_line_index = 9;
    picker.prev_item();
    assert_eq!(picker.active_line_index, 2);
}

#[test]
fn the_items_of_an_empty_list() {
    let mut picker = drawer(&[], -1);
    picker.prev_item();
    assert_eq!(picker.active_line_index, 0);
    picker.next_item();
    assert_eq!(picker.active_line_index, -1);
}

#[test]
fn update_list_keeps_the_names_that_are_similar() {
    let mut picker = drawer(&["old"], 0);
    let entries: Vec<String> =
        ["main.rs", "lib.rs", "Makefile", "ma", "x"].iter().map(|name| String::from(*name)).collect();
    picker.update_list(&entries, "ma");
    // Pieces of two characters: "ma" is in "main.rs" and is "ma", not in the others.
    // "x" is compared by pieces of one character and shares none with "ma".
    assert_eq!(picker.lines, ["main.rs", "ma"]);
    assert_eq!(picker.active_line_index, 1);
    assert_eq!(picker.value, "/tmp/");
    assert_eq!(picker.prompt, "Find files: ");
    picker.update_list(&entries, "zzz");
    assert!(picker.lines.is_empty());
    assert_eq!(picker.active_line_index, -1);
}
