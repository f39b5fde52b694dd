use editor_core::util::{entry, parse_rgb, resolve, rgb_to_short};

/// The 256 colours of the terminal, each as red, green, blue.
const TABLE: [[u8; 3]; 256] = [
    [0x00, 0x00, 0x00], [0x80, 0x00, 0x00], [0x00, 0x80, 0x00], [0x80, 0x80, 0x00],
    [0x00, 0x00, 0x80], [0x80, 0x00, 0x80], [0x00, 0x80, 0x80], [0xc0, 0xc0, 0xc0],
    [0x80, 0x80, 0x80], [0xff, 0x00, 0x00], [0x00, 0xff, 0x00], [0xff, 0xff, 0x00],
    [0x00, 0x00, 0xff], [0xff, 0x00, 0xff], [0x00, 0xff, 0xff], [0xff, 0xff, 0xff],
    [0x00, 0x00, 0x00], [0x00, 0x00, 0x5f], [0x00, 0x00, 0x87], [0x00, 0x00, 0xaf],
    [0x00, 0x00, 0xd7], [0x00, 0x00, 0xff], [0x00, 0x5f, 0x00], [0x00, 0x5f, 0x5f],
    [0x00, 0x5f, 0x87], [0x00, 0x5f, 0xaf], [0x00, 0x5f, 0xd7], [0x00, 0x5f, 0xff],
    [0x00, 0x87, 0x00], [0x00, 0x87, 0x5f], [0x00, 0x87, 0x87], [0x00, 0x87, 0xaf],
    [0x00, 0x87, 0xd7], [0x00, 0x87, 0xff], [0x00, 0xaf, 0x00], [0x00, 0xaf, 0x5f],
    [0x00, 0xaf, 0x87], [0x00, 0xaf, 0xaf], [0x00, 0xaf, 0xd7], [0x00, 0xaf, 0xff],
    [0x00, 0xd7, 0x00], [0x00, 0xd7, 0x5f], [0x00, 0xd7, 0x87], [0x00, 0xd7, 0xaf],
    [0x00, 0xd7, 0xd7], [0x00, 0xd7, 0xff], [0x00, 0xff, 0x00], [0x00, 0xff, 0x5f],
    [0x00, 0xff, 0x87], [0x00, 0xff, 0xaf], [0x00, 0xff, 0xd7], [0x00, 0xff, 0xff],
    [0x5f, 0x00, 0x00], [0x5f, 0x00, 0x5f], [0x5f, 0x00, 0x87], [0x5f, 0x00, 0xaf],
    [0x5f, 0x00, 0xd7], [0x5f, 0x00, 0xff], [0x5f, 0x5f, 0x00], [0x5f, 0x5f, 0x5f],
    [0x5f, 0x5f, 0x87], [0x5f, 0x5f, 0xaf], [0x5f, 0x5f, 0xd7], [0x5f, 0x5f, 0xff],
    [0x5f, 0x87, 0x00], [0x5f, 0x87, 0x5f], [0x5f, 0x87, 0x87], [0x5f, 0x87, 0xaf],
    [0x5f, 0x87, 0xd7], [0x5f, 0x87, 0xff], [0x5f, 0xaf, 0x00], [0x5f, 0xaf, 0x5f],
    [0x5f, 0xaf, 0x87], [0x5f, 0xaf, 0xaf], [0x5f, 0xaf, 0xd7], [0x5f, 0xaf, 0xff],
    [0x5f, 0xd7, 0x00], [0x5f, 0xd7, 0x5f], [0x5f, 0xd7, 0x87], [0x5f, 0xd7, 0xaf],
    [0x5f, 0xd7, 0xd7], [0x5f, 0xd7, 0xff], [0x5f, 0xff, 0x00], [0x5f, 0xff, 0x5f],
    [0x5f, 0xff, 0x87], [0x5f, 0xff, 0xaf], [0x5f, 0xff, 0xd7], [0x5f, 0xff, 0xff],
    [0x87, 0x00, 0x00], [0x87, 0x00, 0x5f], [0x87, 0x00, 0x87], [0x87, 0x00, 0xaf],
    [0x87, 0x00, 0xd7], [0x87, 0x00, 0xff], [0x87, 0x5f, 0x00], [0x87, 0x5f, 0x5f],
    [0x87, 0x5f, 0x87], [0x87, 0x5f, 0xaf], [0x87, 0x5f, 0xd7], [0x87, 0x5f, 0xff],
    [0x87, 0x87, 0x00], [0x87, 0x87, 0x5f], [0x87, 0x87, 0x87], [0x87, 0x87, 0xaf],
    [0x87, 0x87, 0xd7], [0x87, 0x87, 0xff], [0x87, 0xaf, 0x00], [0x87, 0xaf, 0x5f],
    [0x87, 0xaf, 0x87], [0x87, 0xaf, 0xaf], [0x87, 0xaf, 0xd7], [0x87, 0xaf, 0xff],
    [0x87, 0xd7, 0x00], [0x87, 0xd7, 0x5f], [0x87, 0xd7, 0x87], [0x87, 0xd7, 0xaf],
    [0x87, 0xd7, 0xd7], [0x87, 0xd7, 0xff], [0x87, 0xff, 0x00], [0x87, 0xff, 0x5f],
    [0x87, 0xff, 0x87], [0x87, 0xff, 0xaf], [0x87, 0xff, 0xd7], [0x87, 0xff, 0xff],
    [0xaf, 0x00, 0x00], [0xaf, 0x00, 0x5f], [0xaf, 0x00, 0x87], [0xaf, 0x00, 0xaf],
    [0xaf, 0x00, 0xd7], [0xaf, 0x00, 0xff], [0xaf, 0x5f, 0x00], [0xaf, 0x5f, 0x5f],
    [0xaf, 0x5f, 0x87], [0xaf, 0x5f, 0xaf], [0xaf, 0x5f, 0xd7], [0xaf, 0x5f, 0xff],
    [0xaf, 0x87, 0x00], [0xaf, 0x87, 0x5f], [0xaf, 0x87, 0x87], [0xaf, 0x87, 0xaf],
    [0xaf, 0x87, 0xd7], [0xaf, 0x87, 0xff], [0xaf, 0xaf, 0x00], [0xaf, 0xaf, 0x5f],
    [0xaf, 0xaf, 0x87], [0xaf, 0xaf, 0xaf], [0xaf, 0xaf, 0xd7], [0xaf, 0xaf, 0xff],
    [0xaf, 0xd7, 0x00], [0xaf, 0xd7, 0x5f], [0xaf, 0xd7, 0x87], [0xaf, 0xd7, 0xaf],
    [0xaf, 0xd7, 0xd7], [0xaf, 0xd7, 0xff], [0xaf, 0xff, 0x00], [0xaf, 0xff, 0x5f],
    [0xaf, 0xff, 0x87], [0xaf, 0xff, 0xaf], [0xaf, 0xff, 0xd7], [0xaf, 0xff, 0xff],
    [0xd7, 0x00, 0x00], [0xd7, 0x00, 0x5f], [0xd7, 0x00, 0x87], [0xd7, 0x00, 0xaf],
    [0xd7, 0x00, 0xd7], [0xd7, 0x00, 0xff], [0xd7, 0x5f, 0x00], [0xd7, 0x5f, 0x5f],
    [0xd7, 0x5f, 0x87], [0xd7, 0x5f, 0xaf], [0xd7, 0x5f, 0xd7], [0xd7, 0x5f, 0xff],
    [0xd7, 0x87, 0x00], [0xd7, 0x87, 0x5f], [0xd7, 0x87, 0x87], [0xd7, 0x87, 0xaf],
    [0xd7, 0x87, 0xd7], [0xd7, 0x87, 0xff], [0xd7, 0xaf, 0x00], [0xd7, 0xaf, 0x5f],
    [0xd7, 0xaf, 0x87], [0xd7, 0xaf, 0xaf], [0xd7, 0xaf, 0xd7], [0xd7, 0xaf, 0xff],
    [0xd7, 0xd7, 0x00], [0xd7, 0xd7, 0x5f], [0xd7, 0xd7, 0x87], [0xd7, 0xd7, 0xaf],
    [0xd7, 0xd7, 0xd7], [0xd7, 0xd7, 0xff], [0xd7, 0xff, 0x00], [0xd7, 0xff, 0x5f],
    [0xd7, 0xff, 0x87], [0xd7, 0xff, 0xaf], [0xd7, 0xff, 0xd7], [0xd7, 0xff, 0xff],
    [0xff, 0x00, 0x00], [0xff, 0x00, 0x5f], [0xff, 0x00, 0x87], [0xff, 0x00, 0xaf],
    [0xff, 0x00, 0xd7], [0xff, 0x00, 0xff], [0xff, 0x5f, 0x00], [0xff, 0x5f, 0x5f],
    [0xff, 0x5f, 0x87], [0xff, 0x5f, 0xaf], [0xff, 0x5f, 0xd7], [0xff, 0x5f, 0xff],
    [0xff, 0x87, 0x00], [0xff, 0x87, 0x5f], [0xff, 0x87, 0x87], [0xff, 0x87, 0xaf],
    [0xff, 0x87, 0xd7], [0xff, 0x87, 0xff], [0xff, 0xaf, 0x00], [0xff, 0xaf, 0x5f],
    [0xff, 0xaf, 0x87], [0xff, 0xaf, 0xaf], [0xff, 0xaf, 0xd7], [0xff, 0xaf, 0xff],
    [0xff, 0xd7, 0x00], [0xff, 0xd7, 0x5f], [0xff, 0xd7, 0x87], [0xff, 0xd7, 0xaf],
    [0xff, 0xd7, 0xd7], [0xff, 0xd7, 0xff], [0xff, 0xff, 0x00], [0xff, 0xff, 0x5f],
    [0xff, 0xff, 0x87], [0xff, 0xff, 0xaf], [0xff, 0xff, 0xd7], [0xff, 0xff, 0xff],
    [0x08, 0x08, 0x08], [0x12, 0x12, 0x12], [0x1c, 0x1c, 0x1c], [0x26, 0x26, 0x26],
    [0x30, 0x30, 0x30], [0x3a, 0x3a, 0x3a], [0x44, 0x44, 0x44], [0x4e, 0x4e, 0x4e],
    [0x58, 0x58, 0x58], [0x60, 0x60, 0x60], [0x66, 0x66, 0x66], [0x76, 0x76, 0x76],
    [0x80, 0x80, 0x80], [0x8a, 0x8a, 0x8a], [0x94, 0x94, 0x94], [0x9e, 0x9e, 0x9e],
    [0xa8, 0xa8, 0xa8], [0xb2, 0xb2, 0xb2], [0xbc, 0xbc, 0xbc], [0xc6, 0xc6, 0xc6],
    [0xd0, 0xd0, 0xd0], [0xda, 0xda, 0xda], [0xe4, 0xe4, 0xe4], [0xee, 0xee, 0xee],
];

fn distance(index: usize, r: u8, g: u8, b: u8) -> i32 {
    let [pr, pg, pb] = TABLE[index];
    let (dr, dg, db) = (pr as i32 - r as i32, pg as i32 - g as i32, pb as i32 - b as i32);
    dr * dr + dg * dg + db * db
}

#[test]
fn black_resolves_to_the_first_entry_of_the_cube() {
    assert_eq!(resolve(0, 0, 0), 16);
    assert_eq!(rgb_to_short("000000"), 16);
}

#[test]
fn white_resolves_to_the_last_entry_of_the_cube() {
    assert_eq!(resolve(255, 255, 255), 231);
    assert_eq!(rgb_to_short("ffffff"), 231);
}

#[test]
fn the_palette_is_the_terminal_table() {
    for index in 0..256usize {
        let [r, g, b] = TABLE[index];
        assert_eq!(entry(index), (r, g, b));
    }
    assert_eq!(entry(16), (0, 0, 0));
    assert_eq!(entry(208), (0xff, 0x87, 0x00));
    assert_eq!(entry(241), (0x60, 0x60, 0x60));
    assert_eq!(entry(255), (0xee, 0xee, 0xee));
}

#[test]
fn every_entry_resolves_to_itself() {
    for index in 16..=255usize {
        let (r, g, b) = entry(index);
        assert_eq!(resolve(r, g, b), index);
    }
}

#[test]
fn the_last_entry_is_within_reach() {
    assert_eq!(resolve(0xee, 0xee, 0xee), 255);
    assert_eq!(resolve(0xf0, 0xf0, 0xf0), 255);
}

#[test]
fn the_first_sixteen_entries_are_never_chosen() {
    // (0x80, 0, 0) is entry 1; the nearest entry from 16 on is (0x87, 0, 0).
    assert_eq!(resolve(0x80, 0, 0), 88);
    assert_eq!(resolve(0xc0, 0xc0, 0xc0), 250);
}

#[test]
fn resolve_finds_the_nearest_entry_and_the_first_of_equals() {
    let samples: [(u8, u8, u8); 6] =
        [(1, 2, 3), (200, 100, 50), (95, 0, 0), (47, 47, 47), (128, 128, 128), (254, 1, 127)];
    for (r, g, b) in samples {
        let best = resolve(r, g, b);
        assert!((16..=255).contains(&best));
        for index in 16..=255usize {
            assert!(distance(best, r, g, b) <= distance(index, r, g, b));
            if index < best {
                assert!(distance(best, r, g, b) < distance(index, r, g, b));
            }
        }
    }
}

#[test]
fn a_tie_goes_to_the_lower_index() {
    // (115, 0, 0) is as far from entry 52 (0x5f, 0, 0) as from entry 88 (0x87, 0, 0).
    assert_eq!(distance(52, 115, 0, 0), distance(88, 115, 0, 0));
    assert_eq!(resolve(115, 0, 0), 52);
    // (12, 0, 0) is as far from entry 16 (0, 0, 0) as from entry 232 (8, 8, 8).
    assert_eq!(distance(16, 12, 0, 0), distance(232, 12, 0, 0));
    assert_eq!(resolve(12, 0, 0), 16);
}

#[test]
fn parse_reads_three_pairs() {
    assert_eq!(parse_rgb("ff8700"), Some((0xff, 0x87, 0x00)));
    assert_eq!(parse_rgb("FF8700"), Some((0xff, 0x87, 0x00)));
    assert_eq!(parse_rgb("0a0B0c"), Some((10, 11, 12)));
}

#[test]
fn parse_rejects_what_is_no_colour() {
    assert_eq!(parse_rgb(""), None);
    assert_eq!(parse_rgb("12345"), None);
    assert_eq!(parse_rgb("zz0000"), None);
    assert_eq!(parse_rgb("00 000"), None);
    assert_eq!(parse_rgb("-10000"), None);
}

#[test]
fn parse_reads_the_first_six_characters_without_a_line_feed() {
    assert_eq!(parse_rgb("ff8700ff"), Some((0xff, 0x87, 0x00)));
    assert_eq!(parse_rgb("ab\n102030"), Some((0x10, 0x20, 0x30)));
    assert_eq!(parse_rgb("12345\n"), None);
    assert_eq!(parse_rgb("\u{e9}\u{e9}0000"), None);
}

#[test]
fn parse_takes_a_plus_sign_before_one_digit() {
    assert_eq!(parse_rgb("+f+0+a"), Some((15, 0, 10)));
    assert_eq!(parse_rgb("f+0000"), None);
}

#[test]
fn rgb_to_short_resolves_the_parsed_colour() {
    assert_eq!(rgb_to_short("ff8700"), resolve(0xff, 0x87, 0x00));
    assert_eq!(rgb_to_short("ff8700"), 208);
    assert_eq!(rgb_to_short("5f5f5f"), 59);
}
