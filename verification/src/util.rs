//! The terminal palette and the mapping from RGB colours onto it.

use vstd::prelude::*;
use crate::text::chars_of;

verus! {

/// The sixteen named colours, which have the palette indices 0 to 15.
pub const NAMED: [[u8; 3]; 16] = [
    [0x00, 0x00, 0x00], [0x80, 0x00, 0x00], [0x00, 0x80, 0x00], [0x80, 0x80, 0x00],
    [0x00, 0x00, 0x80], [0x80, 0x00, 0x80], [0x00, 0x80, 0x80], [0xc0, 0xc0, 0xc0],
    [0x80, 0x80, 0x80], [0xff, 0x00, 0x00], [0x00, 0xff, 0x00], [0xff, 0xff, 0x00],
    [0x00, 0x00, 0xff], [0xff, 0x00, 0xff], [0x00, 0xff, 0xff], [0xff, 0xff, 0xff],
];

/// The six levels that red, green and blue take in the colour cube, which has
/// the palette indices 16 to 231.
pub const LEVELS: [u8; 6] = [0x00, 0x5f, 0x87, 0xaf, 0xd7, 0xff];

/// The shades of grey, which have the palette indices 232 to 255.
pub const GREYS: [u8; 24] = [
    0x08, 0x12, 0x1c, 0x26, 0x30, 0x3a, 0x44, 0x4e, 0x58, 0x60, 0x66, 0x76,
    0x80, 0x8a, 0x94, 0x9e, 0xa8, 0xb2, 0xbc, 0xc6, 0xd0, 0xda, 0xe4, 0xee,
];

/// First palette index that `resolve` considers.
pub const FIRST_INDEX: usize = 16;

/// Last palette index that `resolve` considers.
pub const LAST_INDEX: usize = 255;

/// Red, green and blue of palette entry `i`: a named colour, then the cube in
/// the order of red, green, blue, then the greys.
pub open spec fn palette(i: int) -> (u8, u8, u8) {
    if i < 16 {
        (NAMED[i][0], NAMED[i][1], NAMED[i][2])
    } else if i < 232 {
        (LEVELS[(i - 16) / 36], LEVELS[(i - 16) / 6 % 6], LEVELS[(i - 16) % 6])
    } else {
        (GREYS[i - 232], GREYS[i - 232], GREYS[i - 232])
    }
}

/// Squared Euclidean distance between palette entry `i` and the colour `(r, g, b)`.
pub open spec fn distance(i: int, r: u8, g: u8, b: u8) -> int {
    let dr = palette(i).0 as int - r as int;
    let dg = palette(i).1 as int - g as int;
    let db = palette(i).2 as int - b as int;
    dr * dr + dg * dg + db * db
}

/// `best` is the nearest palette entry to `(r, g, b)` among the indices 16 to 255,
/// and the lowest such index where several entries are equally near.
pub open spec fn is_nearest(best: int, r: u8, g: u8, b: u8) -> bool {
    &&& FIRST_INDEX <= best <= LAST_INDEX
    &&& forall|j: int| FIRST_INDEX <= j <= LAST_INDEX ==> distance(best, r, g, b) <= #[trigger] distance(j, r, g, b)
    &&& forall|j: int| FIRST_INDEX <= j < best ==> distance(best, r, g, b) < #[trigger] distance(j, r, g, b)
}

/// The palette index that stands for the colour `(r, g, b)`: the nearest entry
/// among the indices 16 to 255, the lowest index winning a tie.
pub open spec fn nearest(r: u8, g: u8, b: u8) -> int {
    choose|best: int| is_nearest(best, r, g, b)
}

/// At most one index is the nearest entry of a colour, so `resolve` has one
/// possible result for each colour.
pub proof fn lemma_nearest_unique(first: int, second: int, r: u8, g: u8, b: u8)
    requires
        is_nearest(first, r, g, b),
        is_nearest(second, r, g, b),
    ensures
        first == second,
        first == nearest(r, g, b),
{
    if first < second {
        assert(distance(second, r, g, b) < distance(first, r, g, b));
    } else if second < first {
        assert(distance(first, r, g, b) < distance(second, r, g, b));
    }
    let chosen = nearest(r, g, b);
    if chosen < first {
        assert(distance(first, r, g, b) < distance(chosen, r, g, b));
    } else if first < chosen {
        assert(distance(chosen, r, g, b) < distance(first, r, g, b));
    }
}

/// The nearest entry to `(r, g, b)` among the indices from 16 to `last`, the
/// lowest index winning a tie.
spec fn nearest_upto(r: u8, g: u8, b: u8, last: int) -> int
    decreases last,
{
    if last <= FIRST_INDEX {
        FIRST_INDEX as int
    } else if distance(last, r, g, b) < distance(nearest_upto(r, g, b, last - 1), r, g, b) {
        last
    } else {
        nearest_upto(r, g, b, last - 1)
    }
}

proof fn lemma_nearest_upto(r: u8, g: u8, b: u8, last: int)
    requires
        FIRST_INDEX <= last,
    ensures
        FIRST_INDEX <= nearest_upto(r, g, b, last) <= last,
        forall|j: int|
            FIRST_INDEX <= j <= last ==> distance(nearest_upto(r, g, b, last), r, g, b)
                <= #[trigger] distance(j, r, g, b),
        forall|j: int|
            FIRST_INDEX <= j < nearest_upto(r, g, b, last) ==> distance(
                nearest_upto(r, g, b, last),
                r,
                g,
                b,
            ) < #[trigger] distance(j, r, g, b),
    decreases last,
{
    if last > FIRST_INDEX {
        lemma_nearest_upto(r, g, b, last - 1);
    }
}

/// Every colour has a nearest entry: `nearest(r, g, b)` is an index from 16 to
/// 255 that is the nearest entry of the colour.
pub proof fn lemma_nearest_exists(r: u8, g: u8, b: u8)
    ensures
        is_nearest(nearest(r, g, b), r, g, b),
        FIRST_INDEX <= nearest(r, g, b) <= LAST_INDEX,
{
    lemma_nearest_upto(r, g, b, LAST_INDEX as int);
    let found = nearest_upto(r, g, b, LAST_INDEX as int);
    assert(is_nearest(found, r, g, b));
    lemma_nearest_unique(found, found, r, g, b);
}

/// No two entries from index 16 on hold the same colour.
pub proof fn lemma_entries_differ(i: int, j: int)
    requires
        FIRST_INDEX <= i <= LAST_INDEX,
        FIRST_INDEX <= j <= LAST_INDEX,
        palette(i) == palette(j),
    ensures
        i == j,
{
    if i < 232 && j < 232 {
        lemma_levels_differ((i - 16) / 36, (j - 16) / 36);
        lemma_levels_differ((i - 16) / 6 % 6, (j - 16) / 6 % 6);
        lemma_levels_differ((i - 16) % 6, (j - 16) % 6);
    } else if i >= 232 && j >= 232 {
        lemma_greys_differ(i - 232, j - 232);
    } else if i < 232 {
        lemma_grey_is_no_level((i - 16) % 6, j - 232);
    } else {
        lemma_grey_is_no_level((j - 16) % 6, i - 232);
    }
}

proof fn lemma_levels_differ(a: int, b: int)
    requires
        0 <= a < 6,
        0 <= b < 6,
        LEVELS[a] == LEVELS[b],
    ensures
        a == b,
{
}

proof fn lemma_greys_differ(a: int, b: int)
    requires
        0 <= a < 24,
        0 <= b < 24,
        GREYS[a] == GREYS[b],
    ensures
        a == b,
{
    lemma_greys_rise(a);
    lemma_greys_rise(b);
}

/// The shades of grey get lighter by at least 6 from one to the next.
proof fn lemma_greys_rise(a: int)
    requires
        0 <= a < 24,
    ensures
        8 + 6 * a <= GREYS[a] <= 8 + 10 * a,
{
}

proof fn lemma_grey_is_no_level(level: int, grey: int)
    requires
        0 <= level < 6,
        0 <= grey < 24,
    ensures
        LEVELS[level] != GREYS[grey],
{
}

/// A colour that is itself the palette entry `i` resolves to `i`.
pub proof fn lemma_exact_entry(i: int)
    requires
        FIRST_INDEX <= i <= LAST_INDEX,
    ensures
        nearest(palette(i).0, palette(i).1, palette(i).2) == i,
        is_nearest(i, palette(i).0, palette(i).1, palette(i).2),
{
    let (r, g, b) = palette(i);
    assert(distance(i, r, g, b) == 0);
    assert forall|j: int| FIRST_INDEX <= j <= LAST_INDEX implies 0 <= #[trigger] distance(
        j,
        r,
        g,
        b,
    ) && (distance(j, r, g, b) == 0 ==> j == i) by {
        let dr = palette(j).0 as int - r as int;
        let dg = palette(j).1 as int - g as int;
        let db = palette(j).2 as int - b as int;
        assert(dr * dr >= 0 && dg * dg >= 0 && db * db >= 0) by (nonlinear_arith);
        if distance(j, r, g, b) == 0 {
            assert(dr == 0 && dg == 0 && db == 0) by (nonlinear_arith)
                requires
                    dr * dr + dg * dg + db * db == 0,
            ;
            lemma_entries_differ(i, j);
        }
    }
    assert(is_nearest(i, r, g, b));
    lemma_nearest_unique(i, i, r, g, b);
}

/// Red, green and blue of palette entry `i`.
pub fn entry(i: usize) -> (color: (u8, u8, u8))
    requires
        i < 256,
    ensures
        color == palette(i as int),
{
    if i < 16 {
        (NAMED[i][0], NAMED[i][1], NAMED[i][2])
    } else if i < 232 {
        (LEVELS[(i - 16) / 36], LEVELS[(i - 16) / 6 % 6], LEVELS[(i - 16) % 6])
    } else {
        (GREYS[i - 232], GREYS[i - 232], GREYS[i - 232])
    }
}

/// Maps a colour to the index of the nearest palette entry.
pub fn resolve(r: u8, g: u8, b: u8) -> (best: usize)
    ensures
        is_nearest(best as int, r, g, b),
        best == nearest(r, g, b),
{
    let mut best: usize = FIRST_INDEX;
    let mut best_distance: u32 = entry_distance(FIRST_INDEX, r, g, b);
    let mut i: usize = FIRST_INDEX + 1;
    while i <= LAST_INDEX
        invariant
            FIRST_INDEX <= best < i <= LAST_INDEX + 1,
            best_distance == distance(best as int, r, g, b),
            forall|j: int| FIRST_INDEX <= j < i ==> best_distance <= #[trigger] distance(j, r, g, b),
            forall|j: int| FIRST_INDEX <= j < best ==> best_distance < #[trigger] distance(j, r, g, b),
        decreases LAST_INDEX + 1 - i,
    {
        let d = entry_distance(i, r, g, b);
        if d < best_distance {
            best_distance = d;
            best = i;
        }
        i += 1;
    }
    proof {
        lemma_nearest_unique(best as int, best as int, r, g, b);
    }
    best
}

fn entry_distance(i: usize, r: u8, g: u8, b: u8) -> (d: u32)
    requires
        i < 256,
    ensures
        d == distance(i as int, r, g, b),
        d <= 3 * 255 * 255,
{
    let color = entry(i);
    let dr = channel_distance(color.0, r);
    let dg = channel_distance(color.1, g);
    let db = channel_distance(color.2, b);
    dr + dg + db
}

fn channel_distance(a: u8, b: u8) -> (d: u32)
    ensures
        d == (a as int - b as int) * (a as int - b as int),
        d <= 255 * 255,
{
    let diff: u32 = if a >= b { (a - b) as u32 } else { (b - a) as u32 };
    assert(diff * diff <= 255 * 255) by (nonlinear_arith)
        requires
            diff <= 255,
    ;
    assert(diff * diff == (a as int - b as int) * (a as int - b as int)) by (nonlinear_arith)
        requires
            diff == a as int - b as int || diff == b as int - a as int,
    ;
    diff * diff
}

/// The value of `c` read as a hexadecimal digit, if it is one.
pub open spec fn hex_value(c: char) -> Option<u8> {
    if '0' <= c <= '9' {
        Some((c as u32 - '0' as u32) as u8)
    } else if 'a' <= c <= 'f' {
        Some((c as u32 - 'a' as u32 + 10) as u8)
    } else if 'A' <= c <= 'F' {
        Some((c as u32 - 'A' as u32 + 10) as u8)
    } else {
        None
    }
}

/// The value of two characters read as a hexadecimal number: two digits, or a
/// plus sign before one digit.
pub open spec fn hex_pair(high: char, low: char) -> Option<u8> {
    match (hex_value(high), hex_value(low)) {
        (Some(h), Some(l)) => Some((16 * h + l) as u8),
        (None, Some(l)) => if high == '+' {
            Some(l)
        } else {
            None
        },
        _ => None,
    }
}

/// Whether six characters that hold no line feed start at position `at` of `text`.
pub open spec fn is_window(text: Seq<char>, at: int) -> bool {
    &&& 0 <= at
    &&& at + 6 <= text.len()
    &&& text[at] != '\n'
    &&& text[at + 1] != '\n'
    &&& text[at + 2] != '\n'
    &&& text[at + 3] != '\n'
    &&& text[at + 4] != '\n'
    &&& text[at + 5] != '\n'
}

/// Whether `at` is the first position of `text` where six characters without a
/// line feed start.
pub open spec fn is_first_window(text: Seq<char>, at: int) -> bool {
    &&& is_window(text, at)
    &&& forall|earlier: int| 0 <= earlier < at ==> !is_window(text, earlier)
}

/// The colour that a run of six characters spells, pair by pair, as red, green
/// and blue.
pub open spec fn window_color(text: Seq<char>, at: int) -> Option<(u8, u8, u8)> {
    match (
        hex_pair(text[at], text[at + 1]),
        hex_pair(text[at + 2], text[at + 3]),
        hex_pair(text[at + 4], text[at + 5]),
    ) {
        (Some(r), Some(g), Some(b)) => Some((r, g, b)),
        _ => None,
    }
}

/// The colour written in `text`: its first six characters in a row that hold
/// no line feed, read as three hexadecimal pairs. `None` where `text` has no
/// such run or one of the pairs is no number.
pub open spec fn parsed_color(text: Seq<char>) -> Option<(u8, u8, u8)> {
    if exists|at: int| is_first_window(text, at) {
        window_color(text, choose|at: int| is_first_window(text, at))
    } else {
        None
    }
}

fn hex_digit(c: char) -> (value: Option<u8>)
    ensures
        value == hex_value(c),
        value matches Some(v) ==> v < 16,
{
    if '0' <= c && c <= '9' {
        Some((c as u32 - '0' as u32) as u8)
    } else if 'a' <= c && c <= 'f' {
        Some((c as u32 - 'a' as u32 + 10) as u8)
    } else if 'A' <= c && c <= 'F' {
        Some((c as u32 - 'A' as u32 + 10) as u8)
    } else {
        None
    }
}

fn read_pair(high: char, low: char) -> (value: Option<u8>)
    ensures
        value == hex_pair(high, low),
{
    match (hex_digit(high), hex_digit(low)) {
        (Some(h), Some(l)) => Some(16 * h + l),
        (None, Some(l)) => if high == '+' {
            Some(l)
        } else {
            None
        },
        _ => None,
    }
}

/// Finds the first six characters in a row that hold no line feed.
fn find_window(chars: &Vec<char>) -> (found: Option<usize>)
    ensures
        match found {
            Some(at) => is_first_window(chars@, at as int),
            None => forall|at: int| !is_window(chars@, at),
        },
{
    if chars.len() < 6 {
        return None;
    }
    let last: usize = chars.len() - 6;
    let mut at: usize = 0;
    while at <= last
        invariant
            last == chars.len() - 6,
            forall|earlier: int| 0 <= earlier < at ==> !is_window(chars@, earlier),
        decreases last + 1 - at,
    {
        if chars[at] != '\n' && chars[at + 1] != '\n' && chars[at + 2] != '\n' && chars[at + 3]
            != '\n' && chars[at + 4] != '\n' && chars[at + 5] != '\n' {
            return Some(at);
        }
        at += 1;
    }
    None
}

/// Reads the colour written in `rgb`.
pub fn parse_rgb(rgb: &str) -> (color: Option<(u8, u8, u8)>)
    ensures
        color == parsed_color(rgb@),
{
    let chars = chars_of(rgb);
    match find_window(&chars) {
        Some(at) => {
            proof {
                lemma_first_window_unique(chars@, at as int);
                assert(is_window(chars@, at as int));
                assert(at + 6 <= chars.len());
            }
            match (
                read_pair(chars[at], chars[at + 1]),
                read_pair(chars[at + 2], chars[at + 3]),
                read_pair(chars[at + 4], chars[at + 5]),
            ) {
                (Some(r), Some(g), Some(b)) => Some((r, g, b)),
                _ => None,
            }
        },
        None => None,
    }
}

proof fn lemma_first_window_unique(text: Seq<char>, at: int)
    requires
        is_first_window(text, at),
    ensures
        exists|first: int| is_first_window(text, first),
        (choose|first: int| is_first_window(text, first)) == at,
{
    let chosen = choose|first: int| is_first_window(text, first);
    assert(is_first_window(text, chosen));
    if chosen < at {
        assert(!is_window(text, chosen));
    } else if at < chosen {
        assert(!is_window(text, at));
    }
}

/// Maps a colour written as three hexadecimal pairs, such as `"ff8700"`, to the
/// index of the nearest palette entry.
pub fn rgb_to_short(rgb: &str) -> (best: usize)
    requires
        parsed_color(rgb@) is Some,
    ensures
        parsed_color(rgb@) matches Some(color) && best == nearest(color.0, color.1, color.2),
        FIRST_INDEX <= best <= LAST_INDEX,
{
    match parse_rgb(rgb) {
        Some((r, g, b)) => resolve(r, g, b),
        None => vstd::pervasive::unreached(),
    }
}

} // verus!
