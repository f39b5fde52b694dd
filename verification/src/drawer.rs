//! The file picker: a list of names to choose from, narrowed down by how much
//! a name has in common with what was typed.

use vstd::prelude::*;
use crate::text::{chars_of, string_of};

verus! {

/// The picker: a prompt, what was typed after it, the names on offer and the
/// index of the chosen one.
pub struct Drawer {
    pub prompt: String,
    pub value: String,
    pub lines: Vec<String>,
    pub active_line_index: i32,
}

/// `text` followed by as many spaces as it lacks to be `size` characters long.
pub open spec fn padded(text: Seq<char>, size: int) -> Seq<char> {
    text + Seq::new((size - text.len()) as nat, |i: int| ' ')
}

/// The pieces of `size` characters of `text`, one starting at every position
/// that leaves room for it. A text too short for one gives a single piece: the
/// text padded with spaces.
pub open spec fn ngrams(text: Seq<char>, size: int) -> Seq<Seq<char>> {
    if text.len() < size {
        seq![padded(text, size)]
    } else {
        Seq::new((text.len() - size + 1) as nat, |i: int| text.subrange(i, i + size))
    }
}

/// How many of the pieces `second`, counted as often as they occur, are among
/// the pieces `first`.
pub open spec fn hits(first: Seq<Seq<char>>, second: Seq<Seq<char>>) -> nat
    decreases second.len(),
{
    if second.len() == 0 {
        0
    } else if first.contains(second.last()) {
        hits(first, second.drop_last()) + 1
    } else {
        hits(first, second.drop_last())
    }
}

/// How much two texts have in common, as a fraction: of the pieces of `b`, the
/// number found among the pieces of `a`, over the number of different pieces
/// of `a` plus the number of pieces of `b` not found. Equal texts have 1 over
/// 1.
pub open spec fn similarity(a: Seq<char>, b: Seq<char>, size: int) -> (nat, nat) {
    if a == b {
        (1, 1)
    } else {
        let first = ngrams(a, size);
        let second = ngrams(b, size);
        let found = hits(first, second);
        (found, (first.to_set().len() + second.len() - found) as nat)
    }
}

/// Whether the picker offers the name `entry` when `file` was typed: the two
/// have something in common, counted in pieces as long as the shorter of them.
pub open spec fn offers(entry: Seq<char>, file: Seq<char>) -> bool {
    similarity(
        entry,
        file,
        if entry.len() <= file.len() {
            entry.len() as int
        } else {
            file.len() as int
        },
    ).0 > 0
}

/// The names among `entries` that the picker offers when `file` was typed, in
/// their order.
pub open spec fn offered(entries: Seq<Seq<char>>, file: Seq<char>) -> Seq<Seq<char>>
    decreases entries.len(),
{
    if entries.len() == 0 {
        Seq::empty()
    } else if offers(entries.last(), file) {
        offered(entries.drop_last(), file).push(entries.last())
    } else {
        offered(entries.drop_last(), file)
    }
}

/// The texts of a list of strings.
pub open spec fn texts(strings: Seq<String>) -> Seq<Seq<char>> {
    strings.map_values(|s: String| s@)
}

/// The character sequences of a list of vectors.
pub open spec fn pieces(tokens: Seq<Vec<char>>) -> Seq<Seq<char>> {
    tokens.map_values(|token: Vec<char>| token@)
}

fn same_chars(a: &Vec<char>, b: &Vec<char>) -> (same: bool)
    ensures
        same == (a@ == b@),
{
    if a.len() != b.len() {
        return false;
    }
    let mut i: usize = 0;
    while i < a.len()
        invariant
            a@.len() == b@.len(),
            i <= a@.len(),
            forall|k: int| 0 <= k < i ==> a@[k] == b@[k],
        decreases a.len() - i,
    {
        if a[i] != b[i] {
            return false;
        }
        i += 1;
    }
    assert(a@ =~= b@);
    true
}

fn holds(tokens: &Vec<Vec<char>>, token: &Vec<char>) -> (found: bool)
    ensures
        found == pieces(tokens@).contains(token@),
{
    let mut i: usize = 0;
    while i < tokens.len()
        invariant
            i <= tokens@.len(),
            forall|k: int| 0 <= k < i ==> pieces(tokens@)[k] != token@,
        decreases tokens.len() - i,
    {
        if same_chars(&tokens[i], token) {
            assert(pieces(tokens@)[i as int] == token@);
            return true;
        }
        i += 1;
    }
    false
}

fn tokens_of(text: &Vec<char>, size: usize) -> (tokens: Vec<Vec<char>>)
    ensures
        pieces(tokens@) == ngrams(text@, size as int),
{
    let mut tokens: Vec<Vec<char>> = Vec::new();
    if text.len() < size {
        let mut token: Vec<char> = Vec::new();
        let mut i: usize = 0;
        while i < size
            invariant
                text@.len() < size,
                i <= size,
                token@.len() == i,
                forall|k: int| 0 <= k < i ==> token@[k] == padded(text@, size as int)[k],
            decreases size - i,
        {
            if i < text.len() {
                token.push(text[i]);
            } else {
                token.push(' ');
            }
            i += 1;
        }
        assert(token@ =~= padded(text@, size as int));
        tokens.push(token);
        assert(pieces(tokens@) =~= ngrams(text@, size as int));
    } else {
        let last: usize = text.len() - size;
        let mut start: usize = 0;
        let mut done = false;
        while !done
            invariant
                size <= text.len(),
                last == text.len() - size,
                start <= last,
                done ==> start == last,
                tokens@.len() == if done {
                    start + 1
                } else {
                    start as int
                },
                forall|k: int|
                    0 <= k < tokens@.len() ==> (#[trigger] tokens@[k])@ == text@.subrange(
                        k,
                        k + size,
                    ),
            decreases last - start + if done { 0int } else { 1int },
        {
            let mut token: Vec<char> = Vec::new();
            let mut i: usize = 0;
            while i < size
                invariant
                    start + size <= text.len(),
                    i <= size,
                    token@ == text@.subrange(start as int, start + i),
                decreases size - i,
            {
                token.push(text[start + i]);
                assert(text@.subrange(start as int, start + i + 1) =~= text@.subrange(
                    start as int,
                    start + i,
                ).push(text@[start + i]));
                i += 1;
            }
            tokens.push(token);
            if start == last {
                done = true;
            } else {
                start += 1;
            }
        }
        assert(pieces(tokens@) =~= ngrams(text@, size as int));
    }
    tokens
}

/// The pieces of `size` characters of `s`.
pub fn compute_ngram_tokens(s: &str, size: usize) -> (tokens: Vec<String>)
    ensures
        texts(tokens@) == ngrams(s@, size as int),
{
    let found = tokens_of(&chars_of(s), size);
    let mut tokens: Vec<String> = Vec::new();
    let mut i: usize = 0;
    while i < found.len()
        invariant
            i <= found@.len(),
            tokens@.len() == i,
            forall|k: int| 0 <= k < i ==> (#[trigger] tokens@[k])@ == found@[k]@,
        decreases found.len() - i,
    {
        tokens.push(string_of(&found[i]));
        i += 1;
    }
    assert(texts(tokens@) =~= pieces(found@));
    tokens
}

/// How much `a` and `b` have in common, counted in pieces of `size`
/// characters, as the two terms of a fraction.
pub fn compare(a: &str, b: &str, size: usize) -> (fraction: (usize, usize))
    requires
        a@.len() + b@.len() + 2 <= usize::MAX,
    ensures
        fraction.0 == similarity(a@, b@, size as int).0,
        fraction.1 == similarity(a@, b@, size as int).1,
{
    weigh(&chars_of(a), &chars_of(b), size)
}

fn weigh(left: &Vec<char>, right: &Vec<char>, size: usize) -> (fraction: (usize, usize))
    requires
        left@.len() + right@.len() + 2 <= usize::MAX,
    ensures
        fraction.0 == similarity(left@, right@, size as int).0,
        fraction.1 == similarity(left@, right@, size as int).1,
{
    if same_chars(left, right) {
        return (1, 1);
    }
    let first = tokens_of(left, size);
    let second = tokens_of(right, size);
    let mut different: Vec<Vec<char>> = Vec::new();
    let mut i: usize = 0;
    while i < first.len()
        invariant
            i <= first@.len(),
            different@.len() <= i,
            pieces(different@).no_duplicates(),
            pieces(different@).to_set() == pieces(first@).take(i as int).to_set(),
        decreases first.len() - i,
    {
        let ghost seen = pieces(different@);
        let ghost upto = pieces(first@).take(i as int);
        proof {
            assert(pieces(first@).take(i + 1) =~= upto.push(first@[i as int]@));
            upto.lemma_push_to_set_commute(first@[i as int]@);
        }
        if !holds(&different, &first[i]) {
            let token = copy_of(&first[i]);
            different.push(token);
            proof {
                assert(pieces(different@) =~= seen.push(first@[i as int]@));
                seen.lemma_push_to_set_commute(first@[i as int]@);
            }
        } else {
            proof {
                assert(seen.to_set().contains(first@[i as int]@));
                assert(seen.to_set().insert(first@[i as int]@) =~= seen.to_set());
            }
        }
        i += 1;
    }
    proof {
        assert(pieces(first@).take(first@.len() as int) =~= pieces(first@));
        pieces(different@).unique_seq_to_set();
        assert forall|token: Seq<char>| pieces(different@).contains(token) == pieces(
            first@,
        ).contains(token) by {
            assert(pieces(different@).to_set().contains(token) == pieces(first@).to_set().contains(
                token,
            ));
        }
    }
    let mut found: usize = 0;
    let mut missed: usize = 0;
    let mut j: usize = 0;
    while j < second.len()
        invariant
            j <= second@.len(),
            found + missed == j,
            found == hits(pieces(first@), pieces(second@).take(j as int)),
            forall|token: Seq<char>|
                pieces(different@).contains(token) == pieces(first@).contains(token),
        decreases second.len() - j,
    {
        proof {
            assert(pieces(second@).take(j + 1).drop_last() =~= pieces(second@).take(j as int));
            assert(pieces(second@).take(j + 1).last() == second@[j as int]@);
        }
        if holds(&different, &second[j]) {
            found += 1;
        } else {
            missed += 1;
        }
        j += 1;
    }
    proof {
        assert(pieces(second@).take(second@.len() as int) =~= pieces(second@));
        assert(pieces(first@).len() <= left@.len() + 1);
        assert(pieces(second@).len() <= right@.len() + 1);
    }
    (found, different.len() + missed)
}

fn copy_of(token: &Vec<char>) -> (copy: Vec<char>)
    ensures
        copy@ == token@,
{
    let mut copy: Vec<char> = Vec::new();
    let mut i: usize = 0;
    while i < token.len()
        invariant
            i <= token@.len(),
            copy@ == token@.take(i as int),
        decreases token.len() - i,
    {
        copy.push(token[i]);
        assert(token@.take(i + 1) =~= token@.take(i as int).push(token@[i as int]));
        i += 1;
    }
    assert(token@.take(token@.len() as int) =~= token@);
    copy
}

impl Drawer {
    /// Offers those of the names `entries` that have something in common with
    /// `file`, and chooses the last of them.
    pub fn update_list(&mut self, entries: &Vec<String>, file: &str)
        requires
            entries@.len() <= i32::MAX,
            forall|k: int|
                0 <= k < entries@.len() ==> (#[trigger] entries@[k])@.len() + file@.len() + 2
                    <= usize::MAX,
        ensures
            texts(final(self).lines@) == offered(texts(entries@), file@),
            final(self).active_line_index == final(self).lines@.len() - 1,
            final(self).value == old(self).value,
            final(self).prompt == old(self).prompt,
    {
        let typed = chars_of(file);
        let mut lines: Vec<String> = Vec::new();
        let mut i: usize = 0;
        while i < entries.len()
            invariant
                i <= entries@.len() <= i32::MAX,
                typed@ == file@,
                lines@.len() <= i,
                forall|k: int|
                    0 <= k < entries@.len() ==> (#[trigger] entries@[k])@.len() + file@.len() + 2
                        <= usize::MAX,
                texts(lines@) == offered(texts(entries@).take(i as int), file@),
            decreases entries.len() - i,
        {
            let entry = chars_of(entries[i].as_str());
            let size = if entry.len() <= typed.len() { entry.len() } else { typed.len() };
            proof {
                assert(texts(entries@).take(i + 1).drop_last() =~= texts(entries@).take(i as int));
                assert(texts(entries@).take(i + 1).last() == entries@[i as int]@);
            }
            let ghost before = texts(lines@);
            if weigh(&entry, &typed, size).0 > 0 {
                lines.push(string_of(&entry));
                assert(texts(lines@) =~= before.push(entries@[i as int]@));
            }
            i += 1;
        }
        assert(texts(entries@).take(entries@.len() as int) =~= texts(entries@));
        self.active_line_index = lines.len() as i32 - 1;
        self.lines = lines;
    }

    /// Moves the choice one name towards the first, and from the first to the
    /// last.
    pub fn next_item(&mut self)
        requires
            old(self).lines@.len() <= i32::MAX,
        ensures
            final(self).active_line_index == if old(self).active_line_index == 0 {
                old(self).lines@.len() - 1
            } else if old(self).active_line_index > 0 {
                old(self).active_line_index - 1
            } else {
                0
            },
            final(self).lines == old(self).lines,
            final(self).value == old(self).value,
            final(self).prompt == old(self).prompt,
    {
        if self.active_line_index == 0 {
            self.active_line_index = self.lines.len() as i32 - 1;
        } else if self.active_line_index > 0 {
            self.active_line_index = self.active_line_index - 1;
        } else {
            self.active_line_index = 0;
        }
    }

    /// Moves the choice one name towards the last, and from the last to the
    /// first.
    pub fn prev_item(&mut self)
        requires
            old(self).lines@.len() <= i32::MAX,
            old(self).lines@.len() > 0 || old(self).active_line_index == -1,
        ensures
            final(self).active_line_index == if old(self).active_line_index == old(
                self,
            ).lines@.len() - 1 {
                0
            } else if old(self).active_line_index < old(self).lines@.len() - 1 {
                old(self).active_line_index + 1
            } else {
                old(self).lines@.len() - 1
            },
            final(self).lines == old(self).lines,
            final(self).value == old(self).value,
            final(self).prompt == old(self).prompt,
    {
        let last: i32 = self.lines.len() as i32 - 1;
        if self.active_line_index == last {
            self.active_line_index = 0;
        } else if self.active_line_index < last {
            self.active_line_index = self.active_line_index + 1;
        } else {
            self.active_line_index = last;
        }
    }
}

} // verus!
