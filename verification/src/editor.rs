//! The open buffers.

use vstd::prelude::*;
use crate::buffer::{expand_tabs, Buffer};
use crate::cell::{cells_of, Cell, DEFAULT_COLOR};

verus! {

/// The buffers that are open, each known by its index.
pub struct Editor {
    pub buffers: Vec<Buffer>,
}

/// The rows that the lines of a file make: the cells of each line, its tabs as
/// four spaces, in the default colour.
pub open spec fn opened_rows(lines: Seq<String>) -> Seq<Seq<Cell>> {
    Seq::new(lines.len(), |y: int| cells_of(expand_tabs(lines[y]@), DEFAULT_COLOR))
}

/// Whether a file of these lines fits in a buffer: the number of lines and the
/// length of each line with its tabs expanded fit in an `i32`.
pub open spec fn fits(lines: Seq<String>) -> bool {
    &&& lines.len() <= i32::MAX
    &&& forall|y: int| 0 <= y < lines.len() ==> expand_tabs((#[trigger] lines[y])@).len() <= i32::MAX
}

impl Editor {
    /// An editor without buffers.
    pub fn new() -> (editor: Editor)
        ensures
            editor.buffers@.len() == 0,
    {
        Editor { buffers: Vec::new() }
    }

    /// Opens a buffer for the file at `path` that holds `lines`, and gives its
    /// index.
    pub fn open(&mut self, path: String, lines: &Vec<String>) -> (id: usize)
        requires
            fits(lines@),
        ensures
            id == old(self).buffers@.len(),
            final(self).buffers@.len() == old(self).buffers@.len() + 1,
            forall|j: int|
                0 <= j < old(self).buffers@.len() ==> final(self).buffers@[j] == old(
                    self,
                ).buffers@[j],
            final(self).buffers@[id as int].wf(),
            final(self).buffers@[id as int].rows() == opened_rows(lines@),
            final(self).buffers@[id as int].path == path,
            final(self).buffers@[id as int].log().len() == 0,
            !final(self).buffers@[id as int].has_classifier(),
    {
        let mut buffer = Buffer::new(path, None, None);
        let mut y: usize = 0;
        while y < lines.len()
            invariant
                y <= lines@.len(),
                fits(lines@),
                buffer.wf(),
                buffer.rows() == opened_rows(lines@.take(y as int)),
                buffer.path == path,
                buffer.log().len() == 0,
                !buffer.has_classifier(),
            decreases lines.len() - y,
        {
            let ghost before = buffer.rows();
            buffer.append_line(lines[y].as_str());
            assert(buffer.rows() =~= opened_rows(lines@.take(y + 1))) by {
                assert(lines@.take(y + 1)[y as int] == lines@[y as int]);
                assert forall|k: int| 0 <= k < y implies opened_rows(lines@.take(y + 1))[k]
                    == before[k] by {
                    assert(lines@.take(y + 1)[k] == lines@.take(y as int)[k]);
                }
            }
            y += 1;
        }
        assert(lines@.take(lines.len() as int) =~= lines@);
        let id = self.buffers.len();
        self.buffers.push(buffer);
        id
    }
}

} // verus!
