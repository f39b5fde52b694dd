//! Records of the edits made to a buffer, from which earlier contents can be
//! rebuilt.

use vstd::prelude::*;

verus! {

/// One logged edit: the text inserted at, or deleted from, `(line, column)`.
#[derive(Debug)]
pub struct EditRecord {
    pub line: i32,
    pub column: i32,
    pub is_insertion: bool,
    pub text: String,
}

/// An [`EditRecord`] with its text as a sequence of characters.
pub struct EditRecordView {
    pub line: i32,
    pub column: i32,
    pub is_insertion: bool,
    pub text: Seq<char>,
}

impl View for EditRecord {
    type V = EditRecordView;

    open spec fn view(&self) -> EditRecordView {
        EditRecordView {
            line: self.line,
            column: self.column,
            is_insertion: self.is_insertion,
            text: self.text@,
        }
    }
}

impl Clone for EditRecord {
    fn clone(&self) -> (copy: EditRecord)
        ensures
            copy@ == self@,
    {
        EditRecord {
            line: self.line,
            column: self.column,
            is_insertion: self.is_insertion,
            text: self.text.clone(),
        }
    }
}

/// `row` with `piece` spliced in before position `at`.
pub open spec fn splice<A>(row: Seq<A>, at: int, piece: Seq<A>) -> Seq<A> {
    row.subrange(0, at) + piece + row.subrange(at, row.len() as int)
}

/// `row` without the `count` items that start at position `at`.
pub open spec fn cut<A>(row: Seq<A>, at: int, count: int) -> Seq<A> {
    row.subrange(0, at) + row.subrange(at + count, row.len() as int)
}

impl EditRecordView {
    /// The record of the edit that undoes this one.
    pub open spec fn inverse(self) -> EditRecordView {
        EditRecordView { is_insertion: !self.is_insertion, ..self }
    }

    /// Whether the edit can be made on `text`: an insertion needs a position on
    /// one of its lines, a deletion needs the recorded text to stand there.
    pub open spec fn applies_to(self, text: Seq<Seq<char>>) -> bool {
        &&& 0 <= self.line < text.len()
        &&& 0 <= self.column <= text[self.line as int].len()
        &&& !self.is_insertion ==> {
            &&& self.column + self.text.len() <= text[self.line as int].len()
            &&& text[self.line as int].subrange(
                self.column as int,
                self.column + self.text.len(),
            ) == self.text
        }
    }

    /// `text` after the edit.
    pub open spec fn apply(self, text: Seq<Seq<char>>) -> Seq<Seq<char>> {
        let row = text[self.line as int];
        if self.is_insertion {
            text.update(self.line as int, splice(row, self.column as int, self.text))
        } else {
            text.update(self.line as int, cut(row, self.column as int, self.text.len() as int))
        }
    }
}

/// Undoing an edit restores the text it was made on: the inverse of a record
/// can be applied to the text after the edit, and gives the text before it.
pub proof fn lemma_inverse_restores(record: EditRecordView, text: Seq<Seq<char>>)
    requires
        record.applies_to(text),
    ensures
        record.inverse().applies_to(record.apply(text)),
        record.inverse().apply(record.apply(text)) == text,
{
    let line = record.line as int;
    let column = record.column as int;
    let count = record.text.len() as int;
    let row = text[line];
    let after = record.apply(text);
    if record.is_insertion {
        let spliced = splice(row, column, record.text);
        assert(after[line] == spliced);
        assert(spliced.subrange(column, column + count) =~= record.text);
        assert(cut(spliced, column, count) =~= row);
        assert(record.inverse().apply(after) =~= text);
    } else {
        let shortened = cut(row, column, count);
        assert(after[line] == shortened);
        assert(splice(shortened, column, record.text) =~= row);
        assert(record.inverse().apply(after) =~= text);
    }
}

} // verus!
