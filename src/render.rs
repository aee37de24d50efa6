use vstd::prelude::*;

use crate::format::{format_chars, format_mark, format_text};
use crate::span::Span;
use crate::text::string_from_chars;

verus! {

/// How many spaces blank out what a line of `prev` characters leaves beyond
/// one of `len` characters.
pub open spec fn padding(prev: nat, len: nat) -> nat {
    if prev > len { (prev - len) as nat } else { 0 }
}

/// What overwrites a previous line of `prev` characters with `text`: a
/// carriage return, the text, then spaces over the rest of the previous line.
pub open spec fn overwrite_text(text: Seq<char>, prev: nat) -> Seq<char> {
    seq!['\r'].add(text).add(Seq::new(padding(prev, text.len()), |i: int| ' '))
}

/// The state of a terminal line that is rewritten on each tick: the length of
/// the text written last, and the most fractional digits shown so far.
#[derive(Clone, Copy, Debug, PartialEq, Eq)]
pub struct Printer {
    pub prev_line: usize,
    pub max_decimals: usize,
}

impl Printer {
    /// The state before any line is written.
    pub open spec fn new_spec() -> Printer {
        Printer { prev_line: 0, max_decimals: 0 }
    }

    /// A printer that has written nothing yet.
    pub fn new() -> (r: Printer)
        ensures
            r == Printer::new_spec(),
    {
        Printer { prev_line: 0, max_decimals: 0 }
    }

    /// The line that shows `text` over the previous one; `text` becomes the previous line.
    pub fn overwrite(&mut self, text: &Vec<char>) -> (line: String)
        ensures
            line@ == overwrite_text(text@, old(self).prev_line as nat),
            final(self).prev_line == text@.len(),
            final(self).max_decimals == old(self).max_decimals,
    {
        let mut out: Vec<char> = Vec::new();
        out.push('\r');
        let mut i: usize = 0;
        while i < text.len()
            invariant
                i <= text@.len(),
                out@ == seq!['\r'].add(text@.take(i as int)),
            decreases text@.len() - i,
        {
            out.push(text[i]);
            i = i + 1;
            assert(out@ =~= seq!['\r'].add(text@.take(i as int)));
        }
        assert(text@.take(i as int) =~= text@);
        let pad: usize = if self.prev_line > text.len() { self.prev_line - text.len() } else { 0 };
        let mut j: usize = 0;
        while j < pad
            invariant
                j <= pad,
                out@ == seq!['\r'].add(text@).add(Seq::new(j as nat, |i: int| ' ')),
            decreases pad - j,
        {
            out.push(' ');
            j = j + 1;
            assert(out@ =~= seq!['\r'].add(text@).add(Seq::new(j as nat, |i: int| ' ')));
        }
        self.prev_line = text.len();
        string_from_chars(&out)
    }

    /// The line that shows `remaining` over the previous one. The fractional
    /// digits shown never fall below the most shown before.
    pub fn render(&mut self, remaining: &Span) -> (line: String)
        requires
            remaining.wf(),
        ensures
            line@ == overwrite_text(
                format_text(remaining@, old(self).max_decimals as nat),
                old(self).prev_line as nat,
            ),
            final(self).prev_line == format_text(remaining@, old(self).max_decimals as nat).len(),
            final(self).max_decimals == format_mark(remaining@, old(self).max_decimals as nat),
    {
        let (text, next) = format_chars(remaining, self.max_decimals);
        let line = self.overwrite(&text);
        self.max_decimals = next;
        line
    }
}

} // verus!
