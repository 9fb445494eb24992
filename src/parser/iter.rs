//! The line source: the logical lines of a document with their physical line index.
use vstd::prelude::*;

use crate::parser::utils::{chars_of, clean, clean_chars, copy_range, string_of};

verus! {

/// The index of the `\n` that ends the line starting at `pos`, or the length of `text`.
pub open spec fn line_end(text: Seq<char>, pos: int) -> int
    decreases text.len() - pos,
{
    if pos >= text.len() {
        text.len() as int
    } else if text[pos] == '\n' {
        pos
    } else {
        line_end(text, pos + 1)
    }
}

/// The logical lines of `text` from position `pos` on, where `pos` starts the
/// physical line numbered `index`: each physical line is cleaned (comment
/// removed, blanks trimmed) and kept, with its index, only if something is left.
pub open spec fn logical_lines(text: Seq<char>, pos: int, index: int) -> Seq<(int, Seq<char>)>
    decreases text.len() + 1 - pos,
{
    if pos < 0 || pos >= text.len() {
        Seq::empty()
    } else {
        proof {
            lemma_line_end_bounds(text, pos);
        }
        let e = line_end(text, pos);
        let content = clean(text.subrange(pos, e));
        let rest = logical_lines(text, e + 1, index + 1);
        if content.len() > 0 {
            seq![(index, content)] + rest
        } else {
            rest
        }
    }
}

/// The logical lines of a whole document.
pub open spec fn document_lines(text: Seq<char>) -> Seq<(int, Seq<char>)> {
    logical_lines(text, 0, 0)
}

pub proof fn lemma_line_end_bounds(text: Seq<char>, pos: int)
    requires
        0 <= pos <= text.len(),
    ensures
        pos <= line_end(text, pos) <= text.len(),
    decreases text.len() - pos,
{
    if pos < text.len() && text[pos] != '\n' {
        lemma_line_end_bounds(text, pos + 1);
    }
}

/// Every logical line has content, and its index lies between the index it
/// was counted from and the length of the text.
pub proof fn lemma_logical_lines(text: Seq<char>, pos: int, index: int)
    requires
        0 <= index <= pos <= text.len(),
    ensures
        forall|k: int|
            0 <= k < logical_lines(text, pos, index).len() ==> {
                let l = #[trigger] logical_lines(text, pos, index)[k];
                &&& index <= l.0 < text.len()
                &&& l.1.len() > 0
            },
    decreases text.len() - pos,
{
    if pos < text.len() {
        lemma_line_end_bounds(text, pos);
        let e = line_end(text, pos);
        let rest = logical_lines(text, e + 1, index + 1);
        if e + 1 <= text.len() {
            lemma_logical_lines(text, e + 1, index + 1);
        } else {
            assert(rest.len() == 0);
        }
        let content = clean(text.subrange(pos, e));
        let all = logical_lines(text, pos, index);
        if content.len() > 0 {
            assert(all == seq![(index, content)] + rest);
            assert forall|k: int| 0 <= k < all.len() implies {
                let l = #[trigger] all[k];
                &&& index <= l.0 < text.len()
                &&& l.1.len() > 0
            } by {
                if k > 0 {
                    assert(all[k] == rest[k - 1]);
                }
            }
        } else {
            assert(all == rest);
        }
    }
}

/// The logical lines of a document, read one at a time.
pub struct OffLines {
    text: Vec<char>,
    pos: usize,
    index: usize,
}

impl View for OffLines {
    type V = Seq<(int, Seq<char>)>;

    /// The logical lines not read yet.
    closed spec fn view(&self) -> Seq<(int, Seq<char>)> {
        logical_lines(self.text@, self.pos as int, self.index as int)
    }
}

impl OffLines {
    /// The reader's own consistency: it stands at the start of a physical line.
    pub closed spec fn wf(&self) -> bool {
        self.index <= self.pos <= self.text.len()
    }

    /// Every line index still to come is below this bound.
    pub closed spec fn index_bound(&self) -> int {
        self.text.len() as int
    }

    /// A reader over the logical lines of `s`.
    pub fn new(s: &str) -> (r: OffLines)
        ensures
            r.wf(),
            r@ == document_lines(s@),
    {
        OffLines { text: chars_of(s), pos: 0, index: 0 }
    }

    /// What holds of the lines still to come: each has content and an index
    /// below `index_bound`, which stays below `usize::MAX`.
    pub proof fn lemma_remaining(&self)
        requires
            self.wf(),
        ensures
            self.index_bound() <= usize::MAX,
            forall|k: int|
                0 <= k < self@.len() ==> {
                    let l = #[trigger] self@[k];
                    &&& 0 <= l.0 < self.index_bound()
                    &&& l.1.len() > 0
                },
    {
        lemma_logical_lines(self.text@, self.pos as int, self.index as int);
    }

    /// The next logical line, as characters.
    pub fn next_chars(&mut self) -> (r: Option<(usize, Vec<char>)>)
        requires
            old(self).wf(),
        ensures
            final(self).wf(),
            final(self).index_bound() == old(self).index_bound(),
            old(self)@.len() == 0 ==> r is None && final(self)@ == old(self)@,
            old(self)@.len() > 0 ==> {
                &&& r matches Some((idx, line)) && idx as int == old(self)@[0].0 && line@ == old(
                    self,
                )@[0].1
                &&& final(self)@ == old(self)@.drop_first()
            },
    {
        let n = self.text.len();
        while self.pos < n
            invariant
                self.wf(),
                n == self.text.len(),
                self.text == old(self).text,
                self@ == old(self)@,
            decreases n - self.pos,
        {
            let start = self.pos;
            let mut e: usize = start;
            while e < n && self.text[e] != '\n'
                invariant
                    start <= e <= n == self.text.len(),
                    line_end(self.text@, e as int) == line_end(self.text@, start as int),
                decreases n - e,
            {
                e = e + 1;
            }
            let line = copy_range(&self.text, start, e);
            let content = clean_chars(&line);
            let idx = self.index;
            proof {
                lemma_line_end_bounds(self.text@, start as int);
            }
            let ghost rest = logical_lines(self.text@, e + 1, idx + 1);
            self.index = self.index + 1;
            self.pos = if e < n { e + 1 } else { n };
            assert(self@ == rest) by {
                if e >= n {
                    assert(rest.len() == 0);
                }
            }
            if content.len() > 0 {
                return Some((idx, content));
            }
        }
        None
    }

    /// The next logical line with its zero-based physical line index.
    pub fn next(&mut self) -> (r: Option<(usize, String)>)
        requires
            old(self).wf(),
        ensures
            final(self).wf(),
            final(self).index_bound() == old(self).index_bound(),
            old(self)@.len() == 0 ==> r is None && final(self)@ == old(self)@,
            old(self)@.len() > 0 ==> {
                &&& r matches Some((idx, line)) && idx as int == old(self)@[0].0 && line@ == old(
                    self,
                )@[0].1
                &&& final(self)@ == old(self)@.drop_first()
            },
    {
        match self.next_chars() {
            Some((idx, chars)) => Some((idx, string_of(chars.as_slice()))),
            None => None,
        }
    }
}

} // verus!
