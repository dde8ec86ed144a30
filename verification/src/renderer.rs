//! The renderer: it walks a document and lays its text out into lines of
//! words no wider than a target width, keeping a left padding, an optional
//! line prefix and the current text style as it goes.

use vstd::prelude::*;
use crate::style::{Color, TextStyle, style_with_modifier, style_without_modifier, style_with_fg, style_without_fg};
use crate::word::{Word, WordView, NO_NODE, blank_word, prefix_word, line_width, new_blank_word, new_prefix_word, push_word, push_line, lemma_deep_view_add, push_char};
use crate::laws::{text_of, text_words, lemma_prepared_text, lemma_laid_out_text, lemma_appended_shape};
use crate::text_law::lemma_string_text;
use crate::text::{is_blank, all_white_space, words_of, chars_of, string_of, split_words, lemma_char_vec_deep_view};
use crate::wrap::{optimal_fit_line_lengths, optimal_fit_lengths, split_by_lengths, covering};

mod nodes;
mod table;

pub use nodes::{RenderedDocument, render_document};

verus! {

/// The renderer's state as a mathematical value: the finished lines, the
/// links found so far as `(line, node)`, the line being filled, the target
/// width, the current style, the left padding and the line prefix.
pub struct RenderState {
    pub lines: Seq<Seq<WordView>>,
    pub links: Seq<(usize, usize)>,
    pub current: Seq<WordView>,
    pub width: u16,
    pub style: TextStyle,
    pub padding: u8,
    pub prefix: Option<char>,
}

/// The fragments that wrapping sees: each word's width, whitespace width and
/// penalty width.
pub open spec fn fragments(words: Seq<WordView>) -> Seq<(usize, usize, usize)> {
    words.map_values(|w: WordView| (w.width, w.whitespace_width, w.penalty_width))
}

/// A wrapped line as it is placed below the first: the padding, then the
/// prefix if there is one, then the words.
pub open spec fn indented(line: Seq<WordView>, padding: u8, prefix: Option<char>) -> Seq<WordView> {
    match prefix {
        Some(p) => seq![blank_word(padding as usize), prefix_word(p)] + line,
        None => seq![blank_word(padding as usize)] + line,
    }
}

/// The characters of a horizontal rule `n` columns wide.
pub open spec fn rule_chars(n: nat) -> Seq<char> {
    Seq::new(n, |i: int| '─')
}

/// The punctuation that attaches to the word before it.
pub open spec fn is_special(c: char) -> bool {
    c == ',' || c == '.' || c == ':' || c == ';' || c == '"' || c == '\'' || c == '!' || c == '@' || c == '%'
}

/// Whether text starts with punctuation that attaches to the word before.
pub open spec fn starts_special(content: Seq<char>) -> bool {
    content.len() > 0 && is_special(content[0])
}

/// The words of `content`, one per run of non-white-space characters, each
/// as wide as its characters and followed by one column of space, except
/// the last when the text does not end in a space.
pub open spec fn string_words(content: Seq<char>, index: usize, style: TextStyle) -> Seq<WordView> {
    let base = words_of(content).map_values(
        |w: Seq<char>|
            WordView { index, content: w, style, width: w.len() as usize, whitespace_width: 1, penalty_width: 0 },
    );
    if !(content.len() > 0 && content.last() == ' ') && base.len() > 0 {
        base.update(base.len() - 1, WordView { whitespace_width: 0, ..base.last() })
    } else {
        base
    }
}

/// A whitespace word: blank space that belongs to no node.
pub open spec fn is_whitespace_word(w: WordView) -> bool {
    w.index == NO_NODE && w.width == 0 && all_white_space(w.content)
}

impl RenderState {
    /// The state a renderer starts in.
    pub open spec fn initial(width: u16, style: TextStyle) -> RenderState {
        RenderState {
            lines: seq![],
            links: seq![],
            current: seq![],
            width,
            style,
            padding: 0,
            prefix: None,
        }
    }

    /// Whether the current line ends in a whitespace: a word of no node,
    /// no width and nothing but white space (or nothing) to show.
    pub open spec fn last_is_whitespace(self) -> bool {
        self.current.len() > 0 && is_whitespace_word(self.current.last())
    }

    /// Whether the current line is empty and the last finished line is an
    /// empty one.
    pub open spec fn last_is_empty(self) -> bool {
        self.current.len() == 0 && self.lines.len() > 0 && self.lines.last().len() == 0
    }

    /// One column of space added at the end of the current line, unless it
    /// already ends in a word that belongs to no node.
    pub open spec fn with_whitespace(self) -> RenderState {
        if self.last_is_whitespace() {
            self
        } else {
            RenderState { current: self.current.push(blank_word(1)), ..self }
        }
    }

    /// The current line finished, if it holds anything.
    pub open spec fn cleared(self) -> RenderState {
        if self.current.len() == 0 {
            self
        } else {
            RenderState { lines: self.lines.push(self.current), current: seq![], ..self }
        }
    }

    /// The current line finished, then an empty line added.
    pub open spec fn with_empty_line(self) -> RenderState {
        let s = self.cleared();
        RenderState { lines: s.lines.push(seq![]), ..s }
    }

    /// An empty line added unless the last line already is one.
    pub open spec fn with_empty_line_ensured(self) -> RenderState {
        if self.last_is_empty() {
            self
        } else {
            self.with_empty_line()
        }
    }

    /// The columns the current line takes, at most `usize::MAX`.
    pub open spec fn current_width(self) -> nat {
        let w = line_width(self.current);
        if w <= usize::MAX { w } else { usize::MAX as nat }
    }

    /// The style changed to `s`.
    pub open spec fn with_style(self, s: TextStyle) -> RenderState {
        RenderState { style: s, ..self }
    }

    /// The left padding grown by `n`, at most 255.
    pub open spec fn with_padding_added(self, n: u8) -> RenderState {
        RenderState { padding: if self.padding + n <= u8::MAX { (self.padding + n) as u8 } else { u8::MAX }, ..self }
    }

    /// The left padding shrunk by `n`, at least 0.
    pub open spec fn with_padding_removed(self, n: u8) -> RenderState {
        RenderState { padding: if self.padding >= n { (self.padding - n) as u8 } else { 0 }, ..self }
    }

    /// The line prefix changed to `p`.
    pub open spec fn with_prefix(self, p: Option<char>) -> RenderState {
        RenderState { prefix: p, ..self }
    }

    /// A rule filling the rest of the current line in the current style,
    /// then the line finished.
    pub open spec fn with_horizontal_line(self) -> RenderState {
        let n = (self.width - self.current_width()) as nat;
        let rule = WordView {
            index: NO_NODE,
            content: rule_chars(n),
            style: self.style,
            width: n as usize,
            whitespace_width: 0,
            penalty_width: 0,
        };
        RenderState { current: self.current.push(rule), ..self }.cleared()
    }

    /// The state before wrapping `words`, and the width left on the first
    /// line: the current line is finished first when the first word does
    /// not fit in what is left of it, and an empty line gets the padding and
    /// the prefix.
    pub open spec fn prepared(self, first_width: usize) -> (RenderState, int) {
        let left = self.width - self.current_width();
        let (s1, r1) = if first_width > left {
            (self.cleared(), self.width as int)
        } else {
            (self, left)
        };
        if s1.current.len() == 0 {
            let c = s1.current.push(blank_word(s1.padding as usize));
            match s1.prefix {
                Some(p) => (RenderState { current: c.push(prefix_word(p)), ..s1 }, r1 - s1.padding - 2),
                None => (RenderState { current: c, ..s1 }, r1 - s1.padding),
            }
        } else {
            (s1, r1)
        }
    }

    /// `words` broken into lines of the given lengths and placed: the first
    /// line continues the current one, each further line is indented, and
    /// the last becomes the new current line.
    pub open spec fn laid_out(self, words: Seq<WordView>, lens: Seq<usize>) -> RenderState {
        let wrapped = split_by_lengths(words, lens);
        let s = RenderState { current: self.current + wrapped[0], ..self };
        let rest = wrapped.drop_first().map_values(|l: Seq<WordView>| indented(l, self.padding, self.prefix));
        if rest.len() == 0 {
            s
        } else {
            let c = s.cleared();
            RenderState { lines: c.lines + rest.drop_last(), current: rest.last(), ..c }
        }
    }

    /// `content` rendered as words of node `index`: a leading punctuation
    /// mark first takes back a trailing whitespace, then the words are
    /// wrapped and appended.
    pub open spec fn with_string(self, content: Seq<char>, index: usize) -> RenderState {
        let s = if starts_special(content) && self.last_is_whitespace() {
            RenderState { current: self.current.drop_last(), ..self }
        } else {
            self
        };
        s.appended(string_words(content, index, self.style))
    }

    /// `words` wrapped and appended: the first line gets the width left on
    /// the current line (a width below zero counts as zero, which the
    /// optimal fit treats like one column), the others the full width; the
    /// lines are those of the optimal fit, which cover the words.
    pub open spec fn appended(self, words: Seq<WordView>) -> RenderState {
        if words.len() == 0 {
            self
        } else {
            let (s, left) = self.prepared(words[0].width);
            let first = if left < 0 { 0usize } else { left as usize };
            s.laid_out(
                words,
                covering(optimal_fit_line_lengths(fragments(words), seq![first, self.width as usize]), words.len()),
            )
        }
    }
}

/// A renderer: finished lines, links, the line being filled, and the layout
/// settings that apply to new words.
pub struct Renderer {
    rendered_lines: Vec<Vec<Word>>,
    links: Vec<(usize, usize)>,
    current_line: Vec<Word>,
    width: u16,
    text_style: TextStyle,
    left_padding: u8,
    prefix: Option<char>,
}

impl View for Renderer {
    type V = RenderState;

    closed spec fn view(&self) -> RenderState {
        RenderState {
            lines: self.rendered_lines.deep_view(),
            links: self.links@,
            current: self.current_line.deep_view(),
            width: self.width,
            style: self.text_style,
            padding: self.left_padding,
            prefix: self.prefix,
        }
    }
}

impl Renderer {
    /// A renderer for lines `width` columns wide that starts in style
    /// `style`.
    pub fn new(width: u16, style: TextStyle) -> (r: Renderer)
        ensures
            r@ == RenderState::initial(width, style),
    {
        let r = Renderer {
            rendered_lines: Vec::new(),
            links: Vec::new(),
            current_line: Vec::new(),
            width,
            text_style: style,
            left_padding: 0,
            prefix: None,
        };
        assert(r@.lines =~= seq![]);
        assert(r@.current =~= seq![]);
        r
    }

    /// The finished lines
    pub fn lines(&self) -> (l: &Vec<Vec<Word>>)
        ensures
            l.deep_view() == self@.lines,
    {
        &self.rendered_lines
    }

    /// The line being filled
    pub fn current(&self) -> (l: &Vec<Word>)
        ensures
            l.deep_view() == self@.current,
    {
        &self.current_line
    }

    /// The links found so far, as `(line, node)`
    pub fn links(&self) -> (l: &Vec<(usize, usize)>)
        ensures
            l@ == self@.links,
    {
        &self.links
    }

    /// The current left padding
    pub fn padding(&self) -> (p: u8)
        ensures
            p == self@.padding,
    {
        self.left_padding
    }

    /// The current line prefix
    pub fn prefix(&self) -> (p: Option<char>)
        ensures
            p == self@.prefix,
    {
        self.prefix
    }

    /// The current text style
    pub fn style(&self) -> (s: TextStyle)
        ensures
            s == self@.style,
    {
        self.text_style
    }

    /// Returns whether the last word of the current line is a whitespace:
    /// blank, of width 0 and belonging to no node
    pub fn is_last_whitespace(&self) -> (b: bool)
        ensures
            b == self@.last_is_whitespace(),
    {
        let n = self.current_line.len();
        if n == 0 {
            return false;
        }
        let last = &self.current_line[n - 1];
        assert(self@.current.last() == last.deep_view());
        last.index == NO_NODE && last.width == 0 && is_blank(last.content.as_str())
    }

    /// Returns whether the last rendered line is an empty one
    ///
    /// When the current line is not empty, this will return false
    pub fn is_last_empty(&self) -> (b: bool)
        ensures
            b == self@.last_is_empty(),
    {
        if self.current_line.len() != 0 {
            false
        } else {
            let n = self.rendered_lines.len();
            n > 0 && self.rendered_lines[n - 1].len() == 0
        }
    }

    /// Adds a whitespace to the end of the current line
    ///
    /// The whitespace word has an index of `usize::MAX` and a width of `0` to
    /// not interfere with text wrapping. If there already is a whitespace at
    /// the end of the current line, no whitespace will be added.
    pub fn add_whitespace(&mut self)
        ensures
            final(self)@ == old(self)@.with_whitespace(),
    {
        if self.is_last_whitespace() {
            return;
        }
        let w = self.n_whitespace(1);
        push_word(&mut self.current_line, w);
    }

    /// Returns a Word containing n amount of whitespace
    pub fn n_whitespace(&self, n: u8) -> (w: Word)
        ensures
            w.deep_view() == blank_word(n as usize),
    {
        new_blank_word(n as usize)
    }

    /// Clears the current line
    ///
    /// When the current line is not empty already, it adds it to the rendered
    /// lines
    pub fn clear_line(&mut self)
        ensures
            final(self)@ == old(self)@.cleared(),
    {
        if self.current_line.len() == 0 {
            return;
        }
        let mut line: Vec<Word> = Vec::new();
        std::mem::swap(&mut line, &mut self.current_line);
        push_line(&mut self.rendered_lines, line);
        assert(self@.current =~= seq![]);
    }

    /// Adds an empty line to the finished lines
    ///
    /// Clears the current line before adding the empty one
    pub fn add_empty_line(&mut self)
        ensures
            final(self)@ == old(self)@.with_empty_line(),
    {
        self.clear_line();
        let empty: Vec<Word> = Vec::new();
        assert(empty.deep_view() =~= seq![]);
        push_line(&mut self.rendered_lines, empty);
    }

    /// The columns the current line takes: each word with the space that
    /// follows it, at most `usize::MAX`.
    pub fn current_width(&self) -> (w: usize)
        ensures
            w == self@.current_width(),
    {
        let mut total: usize = 0;
        let n = self.current_line.len();
        let mut i: usize = 0;
        while i < n
            invariant
                n == self.current_line.len(),
                i <= n,
                total == (if line_width(self@.current.take(i as int)) <= usize::MAX {
                    line_width(self@.current.take(i as int))
                } else {
                    usize::MAX as nat
                }),
            decreases n - i,
        {
            let w = &self.current_line[i];
            assert(self@.current.take(i + 1).drop_last() =~= self@.current.take(i as int));
            assert(self@.current[i as int] == w.deep_view());
            total = total.saturating_add(w.width).saturating_add(w.whitespace_width);
            i = i + 1;
        }
        assert(self@.current.take(n as int) =~= self@.current);
        total
    }

    /// Adds an empty line only if the last line is not empty
    pub fn ensure_empty_line(&mut self)
        ensures
            final(self)@ == old(self)@.with_empty_line_ensured(),
    {
        if !self.is_last_empty() {
            self.add_empty_line();
        }
    }

    /// Adds a modifier to the current text style
    pub fn add_modifier(&mut self, modifier: u16)
        ensures
            final(self)@ == old(self)@.with_style(style_with_modifier(old(self)@.style, modifier)),
    {
        self.text_style = self.text_style.add_modifier(modifier);
    }

    /// Removes a modifier from the current text style
    pub fn remove_modifier(&mut self, modifier: u16)
        ensures
            final(self)@ == old(self)@.with_style(style_without_modifier(old(self)@.style, modifier)),
    {
        self.text_style = self.text_style.remove_modifier(modifier);
    }

    /// Changes the foreground color of the text style
    pub fn set_text_fg(&mut self, color: Color)
        ensures
            final(self)@ == old(self)@.with_style(style_with_fg(old(self)@.style, color)),
    {
        self.text_style = self.text_style.fg(color);
    }

    /// Resets the foreground color of the text style
    pub fn reset_text_fg(&mut self)
        ensures
            final(self)@ == old(self)@.with_style(style_without_fg(old(self)@.style)),
    {
        self.text_style = self.text_style.reset_fg();
    }

    /// Adds n spaces to the left padding
    pub fn add_n_padding(&mut self, n: u8)
        ensures
            final(self)@ == old(self)@.with_padding_added(n),
    {
        self.left_padding = self.left_padding.saturating_add(n);
    }

    /// Removes n spaces from the left padding
    pub fn remove_n_padding(&mut self, n: u8)
        ensures
            final(self)@ == old(self)@.with_padding_removed(n),
    {
        self.left_padding = self.left_padding.saturating_sub(n);
    }

    /// Sets the prefix to a given value
    pub fn set_prefix(&mut self, prefix: char)
        ensures
            final(self)@ == old(self)@.with_prefix(Some(prefix)),
    {
        self.prefix = Some(prefix);
    }

    /// Resets the prefix
    pub fn reset_prefix(&mut self)
        ensures
            final(self)@ == old(self)@.with_prefix(None),
    {
        self.prefix = None;
    }

    /// Draws a horizontal rule to the end of the current line and finishes
    /// the line
    pub fn add_horizontal_line(&mut self)
        requires
            old(self)@.current_width() <= old(self)@.width,
        ensures
            final(self)@ == old(self)@.with_horizontal_line(),
    {
        let remaining: usize = (self.width as usize) - self.current_width();
        let mut content = String::new();
        let mut i: usize = 0;
        while i < remaining
            invariant
                i <= remaining,
                content@ == rule_chars(i as nat),
            decreases remaining - i,
        {
            push_char(&mut content, '─');
            i = i + 1;
            assert(content@ =~= rule_chars(i as nat));
        }
        let line = Word {
            index: NO_NODE,
            content,
            style: self.text_style,
            width: remaining,
            whitespace_width: 0,
            penalty_width: 0,
        };
        push_word(&mut self.current_line, line);
        self.clear_line();
    }

    /// The widths that wrapping reads from each word.
    fn fragments_of(words: &Vec<Word>) -> (f: Vec<(usize, usize, usize)>)
        ensures
            f@ == fragments(words.deep_view()),
    {
        let mut f: Vec<(usize, usize, usize)> = Vec::new();
        let n = words.len();
        let mut i: usize = 0;
        while i < n
            invariant
                n == words.len(),
                i <= n,
                f@ == fragments(words.deep_view().take(i as int)),
            decreases n - i,
        {
            let w = &words[i];
            f.push((w.width, w.whitespace_width, w.penalty_width));
            i = i + 1;
            assert(f@ =~= fragments(words.deep_view().take(i as int)));
        }
        assert(words.deep_view().take(n as int) =~= words.deep_view());
        f
    }

    /// A wrapped line as it is placed below the first: padding, prefix,
    /// words.
    fn indent_line(&self, line: &Vec<Word>) -> (r: Vec<Word>)
        ensures
            r.deep_view() == indented(line.deep_view(), self@.padding, self@.prefix),
    {
        let mut r: Vec<Word> = Vec::new();
        let pad = self.n_whitespace(self.left_padding);
        push_word(&mut r, pad);
        match self.prefix {
            Some(p) => push_word(&mut r, new_prefix_word(p)),
            None => {},
        }
        let ghost head = r.deep_view();
        let n = line.len();
        let mut i: usize = 0;
        while i < n
            invariant
                n == line.len(),
                i <= n,
                r.deep_view() == head + line.deep_view().take(i as int),
            decreases n - i,
        {
            push_word(&mut r, line[i].clone());
            i = i + 1;
            assert(r.deep_view() =~= head + line.deep_view().take(i as int));
        }
        assert(line.deep_view().take(n as int) =~= line.deep_view());
        assert(r.deep_view() =~= indented(line.deep_view(), self@.padding, self@.prefix));
        r
    }

    /// Places `words`, broken into lines of the given lengths: the first
    /// line continues the current one, the others are indented, and the last
    /// becomes the new current line.
    #[verifier::spinoff_prover]
    pub fn lay_out(&mut self, words: Vec<Word>, lens: &Vec<usize>)
        requires
            lens@.len() >= 1,
        ensures
            final(self)@ == old(self)@.laid_out(words.deep_view(), lens@),
    {
        let ghost wv = words.deep_view();
        let ghost start = self@;
        let n = words.len();
        let mut wrapped: Vec<Vec<Word>> = Vec::new();
        let mut p: usize = 0;
        let mut k: usize = 0;
        assert(wv.skip(0) =~= wv);
        assert(lens@.skip(0) =~= lens@);
        assert(wrapped.deep_view() + split_by_lengths(wv, lens@) =~= split_by_lengths(wv, lens@));
        while k < lens.len()
            invariant
                n == words.len(),
                wv == words.deep_view(),
                p <= n,
                k <= lens.len(),
                wrapped.len() == k,
                wrapped.deep_view() + split_by_lengths(wv.skip(p as int), lens@.skip(k as int))
                    == split_by_lengths(wv, lens@),
            decreases lens.len() - k,
        {
            let take = if lens[k] <= n - p { lens[k] } else { n - p };
            let mut line: Vec<Word> = Vec::new();
            let mut j: usize = 0;
            while j < take
                invariant
                    n == words.len(),
                    wv == words.deep_view(),
                    p + take <= n,
                    j <= take,
                    line.deep_view() == wv.skip(p as int).take(j as int),
                decreases take - j,
            {
                push_word(&mut line, words[p + j].clone());
                j = j + 1;
                assert(line.deep_view() =~= wv.skip(p as int).take(j as int));
            }
            let ghost before = wrapped.deep_view();
            push_line(&mut wrapped, line);
            proof {
                let rest = split_by_lengths(wv.skip(p as int), lens@.skip(k as int));
                assert(lens@.skip(k as int)[0] == lens[k as int]);
                assert(lens@.skip(k as int).drop_first() =~= lens@.skip(k + 1));
                assert(wv.skip(p as int).skip(take as int) =~= wv.skip(p + take));
                assert(rest == seq![wv.skip(p as int).take(take as int)] + split_by_lengths(
                    wv.skip(p + take),
                    lens@.skip(k + 1),
                ));
                assert(wrapped.deep_view() + split_by_lengths(wv.skip(p + take), lens@.skip(k + 1))
                    =~= before + rest);
            }
            p = p + take;
            k = k + 1;
        }
        proof {
            assert(lens@.skip(k as int) =~= seq![]);
            assert(wrapped.deep_view() =~= split_by_lengths(wv, lens@));
        }
        let ghost wrapped_view = wrapped.deep_view();
        let ghost all = wrapped;
        assert(wrapped.len() == lens.len());
        let mut first = wrapped.remove(0);
        assert(wrapped@ =~= all@.drop_first());
        let ghost cur = self.current_line;
        self.current_line.append(&mut first);
        proof {
            lemma_deep_view_add(cur, all@[0], self.current_line);
        }
        let mut rest: Vec<Vec<Word>> = Vec::new();
        let m = wrapped.len();
        let mut i: usize = 0;
        while i < m
            invariant
                m == wrapped.len(),
                i <= m,
                all@.len() == m + 1,
                wrapped@ == all@.drop_first(),
                wrapped_view == all.deep_view(),
                self.left_padding == start.padding,
                self.prefix == start.prefix,
                rest.deep_view() == wrapped_view.drop_first().take(i as int).map_values(
                    |l: Seq<WordView>| indented(l, start.padding, start.prefix),
                ),
            decreases m - i,
        {
            let line = self.indent_line(&wrapped[i]);
            proof {
                assert(wrapped[i as int].deep_view() == wrapped_view[i + 1]);
            }
            push_line(&mut rest, line);
            i = i + 1;
            assert(rest.deep_view() =~= wrapped_view.drop_first().take(i as int).map_values(
                |l: Seq<WordView>| indented(l, start.padding, start.prefix),
            ));
        }
        assert(wrapped_view.drop_first().take(m as int) =~= wrapped_view.drop_first());
        if rest.len() > 0 {
            let ghost rv = rest.deep_view();
            let ghost rest0 = rest;
            let last = rest.pop().unwrap();
            proof {
                assert(rest@ == rest0@.drop_last());
                assert(last.deep_view() == rv.last());
            }
            self.clear_line();
            self.current_line = last;
            let ghost lines = self.rendered_lines;
            let ghost remaining = rest;
            self.rendered_lines.append(&mut rest);
            proof {
                lemma_deep_view_add(lines, remaining, self.rendered_lines);
                assert(remaining.deep_view() =~= rv.drop_last());
            }
        }
    }

    /// Wraps and appends words
    ///
    /// This fills up the current line with words and wraps the remaining
    /// words into lines, appending them to the finished lines. Note: this
    /// leaves the current line empty, except when there are not enough words
    /// to fill it up completely
    #[verifier::spinoff_prover]
    pub fn wrap_append(&mut self, words: Vec<Word>)
        requires
            forall|i: int| 0 <= i < words.len() ==> #[trigger] words[i].whitespace_width <= u8::MAX
                && words[i].penalty_width <= u8::MAX,
        ensures
            final(self)@ == old(self)@.appended(words.deep_view()),
            text_of(final(self)@) == text_of(old(self)@) + text_words(words.deep_view()),
            words.len() > 0 ==> final(self)@.current.len() > 0 && final(self)@.current.last()
                == words.deep_view().last(),
            words.len() > 0 && old(self)@.current.len() > 0 ==> ((final(self)@.lines.len() > old(self)@.lines.len()
                && final(self)@.lines[old(self)@.lines.len() as int] == old(self)@.current)
                <==> words.deep_view()[0].width > old(self)@.width - old(self)@.current_width()),
    {
        proof {
            if words.len() > 0 {
                lemma_appended_shape(self@, words.deep_view());
            }
        }
        if words.len() == 0 {
            assert(text_words(words.deep_view()) =~= seq![]);
            assert(text_of(self@) + seq![] =~= text_of(self@));
            return;
        }
        let ghost start = self@;
        let current_width = self.current_width();
        let mut remaining: i128 = self.width as i128 - current_width as i128;
        assert(words.deep_view()[0].width == words[0].width);
        if words[0].width as i128 > remaining {
            remaining = self.width as i128;
            self.clear_line();
        }
        if self.current_line.len() == 0 {
            remaining = remaining - self.left_padding as i128;
            let pad = self.n_whitespace(self.left_padding);
            push_word(&mut self.current_line, pad);
            match self.prefix {
                Some(p) => {
                    push_word(&mut self.current_line, new_prefix_word(p));
                    remaining = remaining - 2;
                },
                None => {},
            }
        }
        assert((self@, remaining as int) == start.prepared(words.deep_view()[0].width));
        let first: usize = if remaining < 0 { 0 } else { remaining as usize };
        let line_widths: Vec<usize> = vec![first, self.width as usize];
        assert(line_widths@ =~= seq![first, start.width as usize]);
        let fragments = Self::fragments_of(&words);
        let lens = optimal_fit_lengths(&fragments, &line_widths);
        proof {
            assert(fragments@.len() == words.deep_view().len());
            assert(covering(lens@, words.deep_view().len()) == lens@);
            lemma_prepared_text(start, words.deep_view()[0].width);
            lemma_laid_out_text(self@, words.deep_view(), lens@);
        }
        self.lay_out(words, &lens);
    }

    /// Whether `c` attaches to the word before it.
    fn special(c: char) -> (b: bool)
        ensures
            b == is_special(c),
            b <==> (c == ',' || c == '.' || c == ':' || c == ';' || c == '"' || c == '\'' || c == '!' || c == '@'
                || c == '%'),
    {
        c == ',' || c == '.' || c == ':' || c == ';' || c == '"' || c == '\'' || c == '!' || c == '@' || c == '%'
    }

    /// Splits text into words of node `index` and wraps them onto the lines
    #[verifier::spinoff_prover]
    pub fn render_string(&mut self, content: &str, index: usize)
        ensures
            final(self)@ == old(self)@.with_string(content@, index),
            index != NO_NODE ==> text_of(final(self)@) == text_of(old(self)@) + string_words(
                content@,
                index,
                old(self)@.style,
            ),
    {
        proof {
            if index != NO_NODE {
                lemma_string_text(self@, content@, index);
            }
        }
        let chars = chars_of(content);
        let n = chars.len();
        if n > 0 && Self::special(chars[0]) && self.is_last_whitespace() {
            let ghost line = self.current_line;
            let _ = self.current_line.pop();
            proof {
                assert(self.current_line.deep_view() =~= line.deep_view().drop_last());
            }
        }
        let has_trailing_whitespace = n > 0 && chars[n - 1] == ' ';
        let pieces = split_words(&chars);
        let ghost pv = pieces.deep_view();
        let m = pieces.len();
        let mut words: Vec<Word> = Vec::new();
        let mut i: usize = 0;
        while i < m
            invariant
                m == pieces.len(),
                i <= m,
                pv == pieces.deep_view(),
                pv == words_of(content@),
                chars@ == content@,
                words.deep_view() == words_of(content@).map_values(
                    |w: Seq<char>| WordView {
                        index,
                        content: w,
                        style: self@.style,
                        width: w.len() as usize,
                        whitespace_width: 1,
                        penalty_width: 0,
                    },
                ).take(i as int),
            decreases m - i,
        {
            let piece = &pieces[i];
            proof {
                lemma_char_vec_deep_view(*piece);
                assert(pv[i as int] == piece@);
            }
            let w = Word {
                index,
                content: string_of(piece),
                style: self.text_style,
                width: piece.len(),
                whitespace_width: 1,
                penalty_width: 0,
            };
            push_word(&mut words, w);
            i = i + 1;
            assert(words.deep_view() =~= words_of(content@).map_values(
                |w: Seq<char>| WordView {
                    index,
                    content: w,
                    style: self@.style,
                    width: w.len() as usize,
                    whitespace_width: 1,
                    penalty_width: 0,
                },
            ).take(i as int));
        }
        let ghost base = words.deep_view();
        assert(base =~= words_of(content@).map_values(
            |w: Seq<char>| WordView {
                index,
                content: w,
                style: self@.style,
                width: w.len() as usize,
                whitespace_width: 1,
                penalty_width: 0,
            },
        ));
        if !has_trailing_whitespace && words.len() > 0 {
            let mut last = words.pop().unwrap();
            last.whitespace_width = 0;
            push_word(&mut words, last);
            assert(words.deep_view() =~= base.update(base.len() - 1, WordView { whitespace_width: 0, ..base.last() }));
        }
        assert(words.deep_view() == string_words(content@, index, self@.style));
        assert forall|k: int| 0 <= k < words.len() implies #[trigger] words[k].whitespace_width <= u8::MAX
            && words[k].penalty_width <= u8::MAX by {
            assert(words.deep_view()[k].whitespace_width == words[k].whitespace_width);
        }
        self.wrap_append(words);
    }
}

} // verus!
