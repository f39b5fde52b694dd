//! A buffer: lines of coloured cells, the edits that change them, and the log
//! of those edits.

use vstd::prelude::*;
use syntect::highlighting::ThemeSet;
use crate::cell::{cells_of, push_cells, push_text, text_of, text_of_rows, Cell, DEFAULT_COLOR};
use crate::highlight::{
    classify, highlighted, lemma_restyled_keeps_text, restyle, restyled, views, Highlighter,
    StyleSpanView, THEME,
};
use crate::text::{chars_of, push_char, string_of};
use crate::transaction::{cut, splice, EditRecord, EditRecordView};

verus! {

/// The lines of one file, with the classifier that colours them and the log of
/// the edits made to them.
pub struct Buffer {
    pub lines: Vec<Vec<Cell>>,
    pub path: String,
    pub highlighter: Option<Highlighter>,
    pub ts: Option<ThemeSet>,
    pub transactions: Vec<EditRecord>,
}

/// `text` with every tab replaced by four spaces.
pub open spec fn expand_tabs(text: Seq<char>) -> Seq<char>
    decreases text.len(),
{
    if text.len() == 0 {
        Seq::empty()
    } else if text.last() == '\t' {
        expand_tabs(text.drop_last()) + seq![' ', ' ', ' ', ' ']
    } else {
        expand_tabs(text.drop_last()).push(text.last())
    }
}

/// The lines of `text` with a line feed between each two.
pub open spec fn joined(text: Seq<Seq<char>>) -> Seq<char>
    decreases text.len(),
{
    if text.len() == 0 {
        Seq::empty()
    } else if text.len() == 1 {
        text[0]
    } else {
        joined(text.drop_last()).push('\n') + text.last()
    }
}

impl Buffer {
    /// The cells of every line.
    pub open spec fn rows(&self) -> Seq<Seq<Cell>> {
        self.lines@.map_values(|line: Vec<Cell>| line@)
    }

    /// The characters of every line.
    pub open spec fn text(&self) -> Seq<Seq<char>> {
        text_of_rows(self.rows())
    }

    /// The logged edits, oldest first.
    pub open spec fn log(&self) -> Seq<EditRecordView> {
        self.transactions@.map_values(|record: EditRecord| record@)
    }

    /// Whether a style classifier is attached: a syntax and a set of themes.
    pub open spec fn has_classifier(&self) -> bool {
        self.highlighter is Some && self.ts is Some
    }

    /// What the classifier answers for a line that reads `line`: the styled
    /// pieces that syntect gives for it under the syntax of the buffer. `None`
    /// where no classifier is attached or syntect gives none.
    pub open spec fn classified(&self, line: Seq<char>) -> Option<Seq<StyleSpanView>> {
        match (self.highlighter, self.ts) {
            (Some(highlighter), Some(themes)) => highlighted(
                highlighter.syntaxes(),
                highlighter.syntax(),
                themes,
                THEME@,
                line,
            ),
            _ => None,
        }
    }

    /// `row` as the classifier colours it: rebuilt from the pieces that the
    /// classifier answers for its text, and as it is where there is no answer.
    pub open spec fn recolored(&self, row: Seq<Cell>) -> Seq<Cell> {
        match self.classified(text_of(row)) {
            Some(spans) => restyled(row, spans),
            None => row,
        }
    }

    /// The number of lines and the length of each line fit in an `i32`.
    pub open spec fn wf(&self) -> bool {
        &&& self.rows().len() <= i32::MAX
        &&& forall|y: int| 0 <= y < self.rows().len() ==> (#[trigger] self.rows()[y]).len() <= i32::MAX
    }

    /// Whether the two buffers are for the same file and have the same
    /// classifier.
    pub open spec fn same_setup(&self, other: &Buffer) -> bool {
        &&& self.path == other.path
        &&& self.highlighter == other.highlighter
        &&& self.ts == other.ts
    }

    /// An empty buffer for the file at `path`.
    pub fn new(path: String, highlighter: Option<Highlighter>, ts: Option<ThemeSet>) -> (buffer:
        Buffer)
        ensures
            buffer.wf(),
            buffer.rows() == Seq::<Seq<Cell>>::empty(),
            buffer.log() == Seq::<EditRecordView>::empty(),
            buffer.path == path,
            buffer.highlighter == highlighter,
            buffer.ts == ts,
    {
        let buffer = Buffer {
            lines: Vec::new(),
            path,
            highlighter,
            ts,
            transactions: Vec::new(),
        };
        assert(buffer.rows() =~= Seq::<Seq<Cell>>::empty());
        assert(buffer.log() =~= Seq::<EditRecordView>::empty());
        buffer
    }

    /// The number of lines.
    pub fn eof(&self) -> (count: i32)
        requires
            self.wf(),
        ensures
            count == self.rows().len(),
    {
        self.lines.len() as i32
    }

    /// The last column of line `y` that the cursor can stand on: the column of
    /// its last character, and 0 on an empty line.
    pub fn eol(&self, y: i32) -> (column: i32)
        requires
            self.wf(),
            0 <= y < self.rows().len(),
        ensures
            column == if self.rows()[y as int].len() == 0 {
                0
            } else {
                self.rows()[y as int].len() - 1
            },
    {
        let length = self.lines[y as usize].len();
        if length == 0 {
            0
        } else {
            (length - 1) as i32
        }
    }

    /// The character at column `x` of line `y`, if the line is that long.
    pub fn char_at(&self, x: i32, y: i32) -> (found: Option<char>)
        requires
            0 <= y < self.rows().len(),
        ensures
            found == if 0 <= x < self.rows()[y as int].len() {
                Some(self.rows()[y as int][x as int].ch)
            } else {
                None
            },
    {
        let line = &self.lines[y as usize];
        if 0 <= x && (x as usize) < line.len() {
            Some(line[x as usize].ch)
        } else {
            None
        }
    }

    fn set_row(&mut self, y: usize, row: Vec<Cell>)
        requires
            y < old(self).rows().len(),
        ensures
            final(self).rows() == old(self).rows().update(y as int, row@),
            final(self).text() == old(self).text().update(y as int, text_of(row@)),
            final(self).transactions == old(self).transactions,
            final(self).same_setup(old(self)),
    {
        self.lines[y] = row;
        assert(self.rows() =~= old(self).rows().update(y as int, row@));
        assert(self.text() =~= old(self).text().update(y as int, text_of(row@)));
    }

    /// Lets the style classifier, if one is attached, colour line `y` anew:
    /// the line is rebuilt from the pieces that the classifier answers for its
    /// text. The text of the line stays as it is.
    pub fn highlight_line(&mut self, y: i32)
        requires
            0 <= y < old(self).rows().len(),
        ensures
            final(self).rows() == old(self).rows().update(
                y as int,
                old(self).recolored(old(self).rows()[y as int]),
            ),
            !old(self).has_classifier() ==> final(self).rows() == old(self).rows(),
            final(self).text() == old(self).text(),
            final(self).transactions == old(self).transactions,
            final(self).same_setup(old(self)),
            old(self).wf() ==> final(self).wf(),
    {
        let ghost before = self.rows()[y as int];
        let answer = match (&self.highlighter, &self.ts) {
            (Some(highlighter), Some(themes)) => {
                let line = text_of_line(&self.lines[y as usize]);
                classify(highlighter, themes, THEME, line.as_str())
            },
            _ => None,
        };
        match answer {
            Some(spans) => {
                let row = restyle(&self.lines[y as usize], &spans);
                proof {
                    lemma_restyled_keeps_text(before, views(spans@));
                }
                self.set_row(y as usize, row);
                assert(self.text() =~= old(self).text());
            },
            None => {
                assert(self.rows() =~= old(self).rows().update(y as int, before));
            },
        }
    }

    /// Puts `c` into line `y` before column `x`, lets the classifier colour the
    /// line anew, and logs the edit if `t` is set.
    pub fn insert(&mut self, c: &str, x: i32, y: i32, t: bool)
        requires
            old(self).wf(),
            0 <= y < old(self).rows().len(),
            0 <= x <= old(self).rows()[y as int].len(),
            old(self).rows()[y as int].len() + c@.len() <= i32::MAX,
        ensures
            final(self).wf(),
            final(self).rows().len() == old(self).rows().len(),
            forall|j: int|
                0 <= j < old(self).rows().len() && j != y ==> final(self).rows()[j] == old(
                    self,
                ).rows()[j],
            final(self).rows()[y as int] == old(self).recolored(
                splice(old(self).rows()[y as int], x as int, cells_of(c@, DEFAULT_COLOR)),
            ),
            !old(self).has_classifier() ==> final(self).rows()[y as int] == splice(
                old(self).rows()[y as int],
                x as int,
                cells_of(c@, DEFAULT_COLOR),
            ),
            final(self).text() == old(self).text().update(
                y as int,
                splice(old(self).text()[y as int], x as int, c@),
            ),
            final(self).log() == if t {
                old(self).log().push(insertion(x, y, c@))
            } else {
                old(self).log()
            },
            t ==> insertion(x, y, c@).applies_to(old(self).text()) && final(self).text()
                == insertion(x, y, c@).apply(old(self).text()),
            final(self).same_setup(old(self)),
    {
        let chars = chars_of(c);
        let line = &self.lines[y as usize];
        let mut row: Vec<Cell> = Vec::new();
        push_cells(&mut row, line, 0, x as usize);
        push_text(&mut row, &chars, DEFAULT_COLOR);
        push_cells(&mut row, line, x as usize, line.len());
        let ghost spliced = splice(old(self).rows()[y as int], x as int, cells_of(c@, DEFAULT_COLOR));
        assert(row@ =~= spliced);
        assert(text_of(spliced) =~= splice(old(self).text()[y as int], x as int, c@));
        self.set_row(y as usize, row);
        self.highlight_line(y);
        proof {
            assert(self.text() =~= old(self).text().update(
                y as int,
                splice(old(self).text()[y as int], x as int, c@),
            ));
        }
        if t {
            let record = EditRecord { line: y, column: x, is_insertion: true, text: string_of(&chars) };
            self.transactions.push(record);
            assert(self.log() =~= old(self).log().push(insertion(x, y, c@)));
        } else {
            assert(self.log() =~= old(self).log());
        }
    }

    /// Takes the character at column `x` out of line `y`. With `x` at -1, or
    /// on an empty line, joins line `y` onto the end of the line before it
    /// instead. The classifier colours the changed line anew. A character
    /// that was taken out is logged if `t` is set.
    pub fn remove(&mut self, x: i32, y: i32, t: bool)
        requires
            old(self).wf(),
            0 <= y < old(self).rows().len(),
            joins(x, old(self).rows()[y as int]) ==> y >= 1 && old(self).rows()[y - 1].len() + old(
                self,
            ).rows()[y as int].len() <= i32::MAX,
            !joins(x, old(self).rows()[y as int]) ==> 0 <= x < old(self).rows()[y as int].len(),
        ensures
            final(self).wf(),
            final(self).same_setup(old(self)),
            joins(x, old(self).rows()[y as int]) ==> {
                &&& final(self).rows().len() == old(self).rows().len() - 1
                &&& forall|j: int| 0 <= j < y - 1 ==> final(self).rows()[j] == old(self).rows()[j]
                &&& forall|j: int|
                    y <= j < final(self).rows().len() ==> final(self).rows()[j] == old(
                        self,
                    ).rows()[j + 1]
                &&& final(self).rows()[y - 1] == old(self).recolored(
                    old(self).rows()[y - 1] + old(self).rows()[y as int],
                )
                &&& !old(self).has_classifier() ==> final(self).rows()[y - 1] == old(
                    self,
                ).rows()[y - 1] + old(self).rows()[y as int]
                &&& final(self).text() == old(self).text().update(
                    y - 1,
                    old(self).text()[y - 1] + old(self).text()[y as int],
                ).remove(y as int)
                &&& final(self).log() == old(self).log()
            },
            !joins(x, old(self).rows()[y as int]) ==> {
                &&& final(self).rows().len() == old(self).rows().len()
                &&& forall|j: int|
                    0 <= j < old(self).rows().len() && j != y ==> final(self).rows()[j] == old(
                        self,
                    ).rows()[j]
                &&& final(self).rows()[y as int] == old(self).recolored(
                    cut(old(self).rows()[y as int], x as int, 1),
                )
                &&& !old(self).has_classifier() ==> final(self).rows()[y as int] == cut(
                    old(self).rows()[y as int],
                    x as int,
                    1,
                )
                &&& final(self).text() == old(self).text().update(
                    y as int,
                    cut(old(self).text()[y as int], x as int, 1),
                )
                &&& final(self).log() == if t {
                    old(self).log().push(deletion(x, y, seq![old(self).text()[y as int][x as int]]))
                } else {
                    old(self).log()
                }
                &&& t ==> deletion(x, y, seq![old(self).text()[y as int][x as int]]).applies_to(
                    old(self).text(),
                ) && final(self).text() == deletion(
                    x,
                    y,
                    seq![old(self).text()[y as int][x as int]],
                ).apply(old(self).text())
            },
    {
        let length = self.lines[y as usize].len();
        if x == -1 || length == 0 {
            let ghost upper = self.rows()[y - 1];
            let ghost lower = self.rows()[y as int];
            let mut row: Vec<Cell> = Vec::new();
            push_cells(&mut row, &self.lines[(y - 1) as usize], 0, self.lines[(y - 1) as usize].len());
            push_cells(&mut row, &self.lines[y as usize], 0, length);
            assert(row@ =~= upper + lower);
            assert(text_of(upper + lower) =~= text_of(upper) + text_of(lower));
            self.set_row((y - 1) as usize, row);
            self.remove_line(y as usize);
            self.highlight_line(y - 1);
            proof {
                assert(self.text() =~= old(self).text().update(
                    y - 1,
                    old(self).text()[y - 1] + old(self).text()[y as int],
                ).remove(y as int));
                assert(self.log() =~= old(self).log());
            }
        } else {
            let taken = self.lines[y as usize][x as usize].ch;
            let ghost before = self.rows()[y as int];
            let mut row: Vec<Cell> = Vec::new();
            push_cells(&mut row, &self.lines[y as usize], 0, x as usize);
            push_cells(&mut row, &self.lines[y as usize], (x + 1) as usize, length);
            assert(row@ =~= cut(before, x as int, 1));
            assert(text_of(cut(before, x as int, 1)) =~= cut(text_of(before), x as int, 1));
            self.set_row(y as usize, row);
            self.highlight_line(y);
            proof {
                assert(self.text() =~= old(self).text().update(
                    y as int,
                    cut(old(self).text()[y as int], x as int, 1),
                ));
            }
            if t {
                let mut text = String::new();
                push_char(&mut text, taken);
                let record = EditRecord { line: y, column: x, is_insertion: false, text };
                self.transactions.push(record);
                proof {
                    let logged = deletion(x, y, seq![old(self).text()[y as int][x as int]]);
                    assert(text@ =~= seq![taken]);
                    assert(self.log() =~= old(self).log().push(logged));
                    assert(old(self).text()[y as int].subrange(x as int, x + 1) =~= seq![taken]);
                }
            } else {
                assert(self.log() =~= old(self).log());
            }
        }
    }

    /// Breaks line `y` before column `x`: the line keeps what stood before the
    /// column, and what stood from it on becomes a new line after it.
    pub fn insert_newline(&mut self, x: i32, y: i32)
        requires
            old(self).wf(),
            0 <= y < old(self).rows().len(),
            0 <= x <= old(self).rows()[y as int].len(),
            old(self).rows().len() < i32::MAX,
        ensures
            final(self).wf(),
            final(self).rows() == old(self).rows().update(
                y as int,
                old(self).rows()[y as int].subrange(0, x as int),
            ).insert(
                y + 1,
                old(self).rows()[y as int].subrange(
                    x as int,
                    old(self).rows()[y as int].len() as int,
                ),
            ),
            final(self).transactions == old(self).transactions,
            final(self).same_setup(old(self)),
    {
        let length = self.lines[y as usize].len();
        let mut left: Vec<Cell> = Vec::new();
        push_cells(&mut left, &self.lines[y as usize], 0, x as usize);
        let mut right: Vec<Cell> = Vec::new();
        push_cells(&mut right, &self.lines[y as usize], x as usize, length);
        let ghost row = self.rows()[y as int];
        assert(left@ =~= row.subrange(0, x as int));
        assert(right@ =~= row.subrange(x as int, row.len() as int));
        self.set_row(y as usize, left);
        self.lines.insert((y + 1) as usize, right);
        assert(self.rows() =~= old(self).rows().update(y as int, row.subrange(0, x as int)).insert(
            y + 1,
            row.subrange(x as int, row.len() as int),
        ));
    }

    /// Takes line `index` out of the buffer.
    pub fn remove_line(&mut self, index: usize)
        requires
            index < old(self).rows().len(),
        ensures
            final(self).rows() == old(self).rows().remove(index as int),
            final(self).text() == old(self).text().remove(index as int),
            final(self).transactions == old(self).transactions,
            final(self).same_setup(old(self)),
            old(self).wf() ==> final(self).wf(),
    {
        self.lines.remove(index);
        assert(self.rows() =~= old(self).rows().remove(index as int));
        assert(self.text() =~= old(self).text().remove(index as int));
    }

    /// Adds `text` as a new last line, every tab in it as four spaces.
    pub fn append_line(&mut self, text: &str)
        requires
            old(self).wf(),
            old(self).rows().len() < i32::MAX,
            expand_tabs(text@).len() <= i32::MAX,
        ensures
            final(self).wf(),
            final(self).rows() == old(self).rows().push(
                cells_of(expand_tabs(text@), DEFAULT_COLOR),
            ),
            final(self).transactions == old(self).transactions,
            final(self).same_setup(old(self)),
    {
        let chars = chars_of(text);
        let mut row: Vec<Cell> = Vec::new();
        let mut i: usize = 0;
        while i < chars.len()
            invariant
                i <= chars.len(),
                row@ == cells_of(expand_tabs(chars@.take(i as int)), DEFAULT_COLOR),
            decreases chars.len() - i,
        {
            let ghost done = expand_tabs(chars@.take(i as int));
            proof {
                assert(chars@.take(i + 1).drop_last() == chars@.take(i as int));
            }
            if chars[i] == '\t' {
                row.push(Cell::new(' ', DEFAULT_COLOR));
                row.push(Cell::new(' ', DEFAULT_COLOR));
                row.push(Cell::new(' ', DEFAULT_COLOR));
                row.push(Cell::new(' ', DEFAULT_COLOR));
                assert(row@ =~= cells_of(done + seq![' ', ' ', ' ', ' '], DEFAULT_COLOR));
            } else {
                row.push(Cell::new(chars[i], DEFAULT_COLOR));
                assert(row@ =~= cells_of(done.push(chars@[i as int]), DEFAULT_COLOR));
            }
            i += 1;
        }
        assert(chars@.take(chars.len() as int) == chars@);
        self.lines.push(row);
        assert(self.rows() =~= old(self).rows().push(cells_of(expand_tabs(text@), DEFAULT_COLOR)));
    }

    /// The text of the buffer as it is written to its file: the lines with a
    /// line feed between each two.
    pub fn contents(&self) -> (text: String)
        ensures
            text@ == joined(self.text()),
    {
        let mut text = String::new();
        let mut y: usize = 0;
        while y < self.lines.len()
            invariant
                y <= self.lines.len(),
                text@ == joined(self.text().take(y as int)),
            decreases self.lines.len() - y,
        {
            if y > 0 {
                push_char(&mut text, '\n');
            }
            let line = &self.lines[y];
            let ghost start = text@;
            let mut x: usize = 0;
            while x < line.len()
                invariant
                    x <= line.len(),
                    text@ == start + text_of(line@).take(x as int),
                decreases line.len() - x,
            {
                push_char(&mut text, line[x].ch);
                assert(text_of(line@).take(x + 1) =~= text_of(line@).take(x as int).push(
                    line@[x as int].ch,
                ));
                x += 1;
            }
            proof {
                assert(text_of(line@).take(line.len() as int) =~= text_of(line@));
                let upto = self.text().take(y + 1);
                assert(upto.drop_last() =~= self.text().take(y as int));
                assert(upto.last() == text_of(line@));
                if y == 0 {
                    assert(text@ =~= upto[0]);
                }
            }
            y += 1;
        }
        assert(self.text().take(self.lines.len() as int) =~= self.text());
        text
    }
}

/// Whether `remove` at column `x` of `row` joins the row onto the one before
/// it: the column is -1, or the row is empty.
pub open spec fn joins(x: i32, row: Seq<Cell>) -> bool {
    x == -1 || row.len() == 0
}

/// The record of putting `text` into line `y` before column `x`.
pub open spec fn insertion(x: i32, y: i32, text: Seq<char>) -> EditRecordView {
    EditRecordView { line: y, column: x, is_insertion: true, text }
}

/// The record of taking `text` out of line `y` at column `x`.
pub open spec fn deletion(x: i32, y: i32, text: Seq<char>) -> EditRecordView {
    EditRecordView { line: y, column: x, is_insertion: false, text }
}

/// The characters of a row of cells, as a string.
pub fn text_of_line(row: &Vec<Cell>) -> (line: String)
    ensures
        line@ == text_of(row@),
{
    let mut line = String::new();
    let mut i: usize = 0;
    while i < row.len()
        invariant
            i <= row.len(),
            line@ == text_of(row@.take(i as int)),
        decreases row.len() - i,
    {
        push_char(&mut line, row[i].ch);
        assert(text_of(row@.take(i + 1)) =~= text_of(row@.take(i as int)).push(row@[i as int].ch));
        i += 1;
    }
    assert(row@.take(row.len() as int) == row@);
    line
}

} // verus!
