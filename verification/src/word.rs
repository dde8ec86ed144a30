//! Words: the unit of layout. A word carries its text, its style, the node of
//! the document it came from, and the widths that wrapping reads.

use vstd::prelude::*;
use crate::style::{TextStyle, plain_style};

verus! {

/// The node index given to words that carry no document text: padding,
/// prefixes, borders and rules.
pub const NO_NODE: usize = usize::MAX;

/// A word of a rendered line.
#[derive(Debug)]
pub struct Word {
    /// The document node the word came from, or `NO_NODE`.
    pub index: usize,
    pub content: String,
    pub style: TextStyle,
    /// Columns the word itself takes.
    pub width: usize,
    /// Columns of the space that follows the word within a line.
    pub whitespace_width: usize,
    /// Columns added when the word ends a line.
    pub penalty_width: usize,
}

/// A word as a mathematical value.
pub struct WordView {
    pub index: usize,
    pub content: Seq<char>,
    pub style: TextStyle,
    pub width: usize,
    pub whitespace_width: usize,
    pub penalty_width: usize,
}

impl DeepView for Word {
    type V = WordView;

    open spec fn deep_view(&self) -> WordView {
        WordView {
            index: self.index,
            content: self.content@,
            style: self.style,
            width: self.width,
            whitespace_width: self.whitespace_width,
            penalty_width: self.penalty_width,
        }
    }
}

impl Clone for Word {
    fn clone(&self) -> (w: Word)
        ensures
            w == *self,
    {
        Word {
            index: self.index,
            content: self.content.clone(),
            style: self.style,
            width: self.width,
            whitespace_width: self.whitespace_width,
            penalty_width: self.penalty_width,
        }
    }
}

/// A word of `n` columns of blank space that belongs to no node.
pub open spec fn blank_word(n: usize) -> WordView {
    WordView {
        index: NO_NODE,
        content: Seq::empty(),
        style: plain_style(),
        width: 0,
        whitespace_width: n,
        penalty_width: 0,
    }
}

/// The one-character word that starts each line under a prefix, followed by
/// one column of space.
pub open spec fn prefix_word(c: char) -> WordView {
    WordView {
        index: NO_NODE,
        content: seq![c],
        style: plain_style(),
        width: 1,
        whitespace_width: 1,
        penalty_width: 0,
    }
}

/// Columns that a sequence of words takes on one line: each word with the
/// space that follows it.
pub open spec fn line_width(line: Seq<WordView>) -> nat
    decreases line.len(),
{
    if line.len() == 0 {
        0
    } else {
        line_width(line.drop_last()) + (line.last().width as nat) + (line.last().whitespace_width as nat)
    }
}

/// A string made of one character.
pub(crate) fn char_to_string(c: char) -> (s: String)
    ensures
        s@ == seq![c],
{
    let mut s = String::new();
    push_char(&mut s, c);
    assert(s@ =~= seq![c]);
    s
}

/// Appends a character to a string with `String::push`, which the contract
/// trusts to add exactly that character at the end.
#[verifier::external_body]
pub(crate) fn push_char(s: &mut String, c: char)
    ensures
        final(s)@ == old(s)@.push(c),
{
    s.push(c)
}

/// Builds the word of `n` columns of blank space.
pub fn new_blank_word(n: usize) -> (w: Word)
    ensures
        w.deep_view() == blank_word(n),
{
    Word {
        index: NO_NODE,
        content: String::new(),
        style: TextStyle::plain(),
        width: 0,
        whitespace_width: n,
        penalty_width: 0,
    }
}

/// Builds the prefix word for `c`.
pub fn new_prefix_word(c: char) -> (w: Word)
    ensures
        w.deep_view() == prefix_word(c),
{
    Word {
        index: NO_NODE,
        content: char_to_string(c),
        style: TextStyle::plain(),
        width: 1,
        whitespace_width: 1,
        penalty_width: 0,
    }
}

/// Pushing onto a vector pushes the deep view of the new element onto its
/// deep view.
pub proof fn lemma_deep_view_push<T: DeepView>(v: Vec<T>, x: T, w: Vec<T>)
    requires
        w@ == v@.push(x),
    ensures
        w.deep_view() == v.deep_view().push(x.deep_view()),
{
    assert(w.deep_view() =~= v.deep_view().push(x.deep_view()));
}

/// The deep view of a concatenation is the concatenation of deep views.
pub proof fn lemma_deep_view_add<T: DeepView>(a: Vec<T>, b: Vec<T>, w: Vec<T>)
    requires
        w@ == a@ + b@,
    ensures
        w.deep_view() == a.deep_view() + b.deep_view(),
{
    assert(w.deep_view() =~= a.deep_view() + b.deep_view());
}

/// Appends a word to a line.
pub fn push_word(line: &mut Vec<Word>, w: Word)
    ensures
        final(line).deep_view() == old(line).deep_view().push(w.deep_view()),
{
    let ghost v = *line;
    line.push(w);
    proof {
        lemma_deep_view_push(v, w, *line);
    }
}

/// Appends a line to a sequence of lines.
pub fn push_line(lines: &mut Vec<Vec<Word>>, l: Vec<Word>)
    ensures
        final(lines).deep_view() == old(lines).deep_view().push(l.deep_view()),
{
    let ghost v = *lines;
    lines.push(l);
    proof {
        lemma_deep_view_push(v, l, *lines);
    }
}

} // verus!
