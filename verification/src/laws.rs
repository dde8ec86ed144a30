//! Laws of the renderer's operations: what each keeps, what repeating one
//! does, and that laying out words keeps their text in order.

use vstd::prelude::*;
use crate::renderer::{RenderState, indented};
use crate::word::{WordView, NO_NODE, blank_word};
use crate::wrap::{split_by_lengths, total_length};

verus! {

/// The words of a line that carry document text, in order.
pub open spec fn text_words(line: Seq<WordView>) -> Seq<WordView>
    decreases line.len(),
{
    if line.len() == 0 {
        seq![]
    } else if line.last().index != NO_NODE {
        text_words(line.drop_last()).push(line.last())
    } else {
        text_words(line.drop_last())
    }
}

/// The words of a sequence of lines that carry document text, in order.
pub open spec fn text_of_lines(lines: Seq<Seq<WordView>>) -> Seq<WordView>
    decreases lines.len(),
{
    if lines.len() == 0 {
        seq![]
    } else {
        text_of_lines(lines.drop_last()) + text_words(lines.last())
    }
}

/// The text words of a renderer's output so far, the current line included.
pub open spec fn text_of(st: RenderState) -> Seq<WordView> {
    text_of_lines(st.lines) + text_words(st.current)
}

/// Text words of a concatenation.
pub proof fn lemma_text_words_add(a: Seq<WordView>, b: Seq<WordView>)
    ensures
        text_words(a + b) == text_words(a) + text_words(b),
    decreases b.len(),
{
    if b.len() == 0 {
        assert(a + b =~= a);
        assert(text_words(a) + text_words(b) =~= text_words(a));
    } else {
        lemma_text_words_add(a, b.drop_last());
        assert((a + b).drop_last() =~= a + b.drop_last());
        assert((a + b).last() == b.last());
        if b.last().index != NO_NODE {
            assert(text_words(a) + text_words(b) =~= (text_words(a) + text_words(b.drop_last())).push(b.last()));
        }
    }
}

/// Text of a concatenation of line sequences.
pub proof fn lemma_text_of_lines_add(a: Seq<Seq<WordView>>, b: Seq<Seq<WordView>>)
    ensures
        text_of_lines(a + b) == text_of_lines(a) + text_of_lines(b),
    decreases b.len(),
{
    if b.len() == 0 {
        assert(a + b =~= a);
        assert(text_of_lines(a) + text_of_lines(b) =~= text_of_lines(a));
    } else {
        lemma_text_of_lines_add(a, b.drop_last());
        assert((a + b).drop_last() =~= a + b.drop_last());
        assert((a + b).last() == b.last());
        assert(text_of_lines(a) + text_of_lines(b) =~= text_of_lines(a) + text_of_lines(b.drop_last())
            + text_words(b.last()));
    }
}

/// A line made only of text words is its own text.
pub proof fn lemma_text_words_all_text(line: Seq<WordView>)
    requires
        forall|i: int| 0 <= i < line.len() ==> (#[trigger] line[i]).index != NO_NODE,
    ensures
        text_words(line) == line,
    decreases line.len(),
{
    if line.len() > 0 {
        lemma_text_words_all_text(line.drop_last());
        assert(line.drop_last().push(line.last()) =~= line);
    }
}

/// Indenting a line adds no text.
pub proof fn lemma_indented_text(line: Seq<WordView>, padding: u8, prefix: Option<char>)
    ensures
        text_words(indented(line, padding, prefix)) == text_words(line),
{
    let head = match prefix {
        Some(p) => seq![blank_word(padding as usize), crate::word::prefix_word(p)],
        None => seq![blank_word(padding as usize)],
    };
    assert(indented(line, padding, prefix) == head + line);
    lemma_text_words_add(head, line);
    reveal_with_fuel(text_words, 3);
    assert(text_words(head) =~= seq![]);
    assert(seq![] + text_words(line) =~= text_words(line));
}

/// Indenting every line of a sequence adds no text.
pub proof fn lemma_indented_lines_text(lines: Seq<Seq<WordView>>, padding: u8, prefix: Option<char>)
    ensures
        text_of_lines(lines.map_values(|l: Seq<WordView>| indented(l, padding, prefix)))
            == text_of_lines(lines),
    decreases lines.len(),
{
    let f = |l: Seq<WordView>| indented(l, padding, prefix);
    if lines.len() > 0 {
        lemma_indented_lines_text(lines.drop_last(), padding, prefix);
        assert(lines.map_values(f).drop_last() =~= lines.drop_last().map_values(f));
        lemma_indented_text(lines.last(), padding, prefix);
    }
}

/// The text of a single line.
pub proof fn lemma_text_of_single(line: Seq<WordView>)
    ensures
        text_of_lines(seq![line]) == text_words(line),
{
    let l = seq![line];
    assert(l.drop_last() =~= seq![]);
    assert(l.last() == line);
    assert(text_of_lines(l.drop_last()) == Seq::<WordView>::empty());
    assert(text_of_lines(l) == text_of_lines(l.drop_last()) + text_words(line));
    assert(Seq::<WordView>::empty() + text_words(line) =~= text_words(line));
}

/// Breaking words into runs whose lengths add up to the number of words
/// keeps their text.
pub proof fn lemma_split_text(words: Seq<WordView>, lens: Seq<usize>)
    requires
        total_length(lens) == words.len(),
    ensures
        text_of_lines(split_by_lengths(words, lens)) == text_words(words),
    decreases lens.len(),
{
    if lens.len() == 0 {
        assert(words =~= seq![]);
    } else {
        let k = lens[0] as int;
        let rest = split_by_lengths(words.skip(k), lens.drop_first());
        lemma_split_text(words.skip(k), lens.drop_first());
        assert(split_by_lengths(words, lens) == seq![words.take(k)] + rest);
        lemma_text_of_lines_add(seq![words.take(k)], rest);
        lemma_text_of_single(words.take(k));
        lemma_text_words_add(words.take(k), words.skip(k));
        assert(words.take(k) + words.skip(k) =~= words);
    }
}

/// Finishing the current line keeps the text.
pub proof fn lemma_cleared_text(st: RenderState)
    ensures
        text_of(st.cleared()) == text_of(st),
{
    if st.current.len() > 0 {
        assert(st.lines.push(st.current).drop_last() =~= st.lines);
        assert(text_words(seq![]) =~= seq![]);
        assert(text_of(st.cleared()) =~= text_of(st));
    }
}

/// Placing words broken into runs that cover them keeps all earlier text
/// and adds theirs after it.
#[verifier::spinoff_prover]
pub proof fn lemma_laid_out_text(st: RenderState, words: Seq<WordView>, lens: Seq<usize>)
    requires
        total_length(lens) == words.len(),
        lens.len() >= 1,
    ensures
        text_of(st.laid_out(words, lens)) == text_of(st) + text_words(words),
{
    let wrapped = split_by_lengths(words, lens);
    lemma_split_text(words, lens);
    assert(wrapped.len() == lens.len()) by {
        lemma_split_len(words, lens);
    }
    assert(wrapped =~= seq![wrapped[0]] + wrapped.drop_first());
    lemma_text_of_lines_add(seq![wrapped[0]], wrapped.drop_first());
    lemma_text_of_single(wrapped[0]);
    let s = RenderState { current: st.current + wrapped[0], ..st };
    lemma_text_words_add(st.current, wrapped[0]);
    let rest = wrapped.drop_first().map_values(|l: Seq<WordView>| indented(l, st.padding, st.prefix));
    lemma_indented_lines_text(wrapped.drop_first(), st.padding, st.prefix);
    if rest.len() == 0 {
        assert(wrapped.drop_first() =~= seq![]);
        assert(text_of(s) =~= text_of(st) + text_words(words));
    } else {
        let c = s.cleared();
        lemma_cleared_text(s);
        assert(c.current.len() == 0);
        assert(text_words(c.current) =~= seq![]);
        let fin = RenderState { lines: c.lines + rest.drop_last(), current: rest.last(), ..c };
        lemma_text_of_lines_add(c.lines, rest.drop_last());
        assert(rest.drop_last().push(rest.last()) =~= rest);
        assert(text_of_lines(rest) == text_of_lines(rest.drop_last()) + text_words(rest.last()));
        assert(text_of(fin) =~= text_of(st) + text_words(words));
    }
}

/// Appending words leaves the last of them at the end of the line being
/// filled; and the line being filled, if it holds anything, is finished as
/// it was exactly when the first word does not fit in what is left of it
/// (otherwise the first words continue it).
pub proof fn lemma_appended_shape(st: RenderState, words: Seq<WordView>)
    requires
        words.len() > 0,
    ensures
        st.appended(words).current.len() > 0,
        st.appended(words).current.last() == words.last(),
        st.current.len() > 0 ==> ((st.appended(words).lines.len() > st.lines.len() && st.appended(words).lines[st.lines.len() as int]
            == st.current) <==> words[0].width > st.width - st.current_width()),
{
    let (s, left) = st.prepared(words[0].width);
    let first = if left < 0 { 0usize } else { left as usize };
    let lens = crate::wrap::covering(
        crate::wrap::optimal_fit_line_lengths(crate::renderer::fragments(words), seq![first, st.width as usize]),
        words.len(),
    );
    crate::wrap::lemma_covering(
        crate::wrap::optimal_fit_line_lengths(crate::renderer::fragments(words), seq![first, st.width as usize]),
        words.len(),
    );
    crate::wrap::lemma_split_shape(words, lens);
    let wrapped = split_by_lengths(words, lens);
    let fin = st.appended(words);
    assert(fin == s.laid_out(words, lens));
    let s2 = RenderState { current: s.current + wrapped[0], ..s };
    let rest = wrapped.drop_first().map_values(|l: Seq<WordView>| indented(l, s.padding, s.prefix));
    if rest.len() == 0 {
        assert(wrapped.len() == 1);
        assert(fin == s2);
        assert(fin.current.last() == wrapped[0].last());
    } else {
        assert(fin.current == rest.last());
        assert(rest.last() == indented(wrapped.last(), s.padding, s.prefix));
        assert(fin.current.last() == wrapped.last().last());
        assert(fin.lines == s2.cleared().lines + rest.drop_last());
    }
    if st.current.len() > 0 {
        let n = st.lines.len() as int;
        let left0 = st.width - st.current_width();
        if words[0].width > left0 {
            assert(s.lines == st.lines.push(st.current));
            assert(s2.lines == s.lines);
            assert(fin.lines[n] == st.current);
        } else {
            assert(s == st);
            assert(wrapped[0].len() >= 1);
            if rest.len() > 0 {
                assert(s2.cleared().lines == st.lines.push(st.current + wrapped[0]));
                assert(fin.lines[n] == st.current + wrapped[0]);
                assert((st.current + wrapped[0]).len() != st.current.len());
            } else {
                assert(fin.lines == st.lines);
            }
        }
    }
}

/// Splitting gives one run per length.
pub proof fn lemma_split_len<A>(words: Seq<A>, lens: Seq<usize>)
    ensures
        split_by_lengths(words, lens).len() == lens.len(),
    decreases lens.len(),
{
    if lens.len() > 0 {
        let k = if lens[0] <= words.len() { lens[0] as int } else { words.len() as int };
        lemma_split_len(words.skip(k), lens.drop_first());
    }
}

/// Getting ready to wrap only adds padding and a prefix: the text stays.
pub proof fn lemma_prepared_text(st: RenderState, first_width: usize)
    ensures
        text_of(st.prepared(first_width).0) == text_of(st),
{
    let left = st.width - st.current_width();
    let s1 = if first_width > left { st.cleared() } else { st };
    lemma_cleared_text(st);
    if s1.current.len() == 0 {
        reveal_with_fuel(text_words, 3);
        assert(text_words(s1.current.push(blank_word(s1.padding as usize))) =~= seq![]);
        match s1.prefix {
            Some(p) => {
                let c = s1.current.push(blank_word(s1.padding as usize)).push(crate::word::prefix_word(p));
                assert(c.drop_last() =~= s1.current.push(blank_word(s1.padding as usize)));
                assert(text_words(c) =~= seq![]);
                assert(text_of(st.prepared(first_width).0) =~= text_of(s1));
            },
            None => {
                assert(text_of(st.prepared(first_width).0) =~= text_of(s1));
            },
        }
    }
}

/// Adding a whitespace twice is adding it once.
pub proof fn lemma_whitespace_idempotent(st: RenderState)
    ensures
        st.with_whitespace().with_whitespace() == st.with_whitespace(),
        st.with_whitespace().last_is_whitespace(),
{
}

/// Finishing the current line leaves it empty, and finishing it again
/// changes nothing.
pub proof fn lemma_cleared_idempotent(st: RenderState)
    ensures
        st.cleared().current.len() == 0,
        st.cleared().cleared() == st.cleared(),
        st.cleared().lines.len() >= st.lines.len(),
{
}

/// After making sure of an empty line, the last line is empty, and making
/// sure again changes nothing.
pub proof fn lemma_empty_line_ensured(st: RenderState)
    ensures
        st.with_empty_line_ensured().last_is_empty(),
        st.with_empty_line_ensured().with_empty_line_ensured() == st.with_empty_line_ensured(),
{
    assert(st.with_empty_line().lines.last() =~= seq![]);
}

/// Removing the padding that was added gives the padding back, when adding
/// did not saturate.
pub proof fn lemma_padding_round_trip(st: RenderState, n: u8)
    requires
        st.padding + n <= u8::MAX,
    ensures
        st.with_padding_added(n).with_padding_removed(n) == st,
{
}

/// Setting and then clearing the prefix leaves no prefix.
pub proof fn lemma_prefix_reset(st: RenderState, c: char)
    ensures
        st.with_prefix(Some(c)).with_prefix(None).prefix is None,
{
}

/// The width of a concatenation of words.
pub proof fn lemma_line_width_add(a: Seq<WordView>, b: Seq<WordView>)
    ensures
        crate::word::line_width(a + b) == crate::word::line_width(a) + crate::word::line_width(b),
    decreases b.len(),
{
    if b.len() > 0 {
        lemma_line_width_add(a, b.drop_last());
        assert((a + b).drop_last() =~= a + b.drop_last());
    } else {
        assert(a + b =~= a);
    }
}

/// A cell whose line `i` fits it: the words take no more than the cell's
/// width and leave at most 255 columns, the width is computed without
/// wrapping, and the cell spans at least one column.
pub open spec fn cell_fits(cell: (Seq<Seq<WordView>>, usize), col_width: u16, i: int) -> bool {
    let words = if 0 <= i < cell.0.len() { cell.0[i] } else { seq![] };
    let width = col_width * cell.1 + cell.1 - 1;
    &&& 1 <= cell.1 <= u16::MAX
    &&& width <= u16::MAX
    &&& crate::word::line_width(words) <= width <= crate::word::line_width(words) + 255
}

/// A line of a table row is as wide as the row's borders when each cell's
/// line fits its cell: a bar, then for each cell its columns and a bar.
pub proof fn lemma_row_line_width(cells: Seq<(Seq<Seq<WordView>>, usize)>, col_width: u16, i: int)
    requires
        forall|k: int| 0 <= k < cells.len() ==> cell_fits(#[trigger] cells[k], col_width, i),
    ensures
        crate::word::line_width(crate::layout::row_line(cells, col_width, i)) == 1 + (col_width + 1)
            * crate::layout::spans_sum(cells),
{
    lemma_cells_line_width(cells, col_width, i, cells.len() as int);
    assert(cells.take(cells.len() as int) =~= cells);
    let bar = seq![crate::layout::bar_word()];
    lemma_line_width_add(bar, crate::layout::cells_line(cells, col_width, i, cells.len() as int));
    reveal_with_fuel(crate::word::line_width, 2);
    assert(bar.drop_last() =~= seq![]);
}

/// The first `k` cells of a row line take their columns and a bar each.
#[verifier::spinoff_prover]
pub proof fn lemma_cells_line_width(cells: Seq<(Seq<Seq<WordView>>, usize)>, col_width: u16, i: int, k: int)
    requires
        0 <= k <= cells.len(),
        forall|j: int| 0 <= j < cells.len() ==> cell_fits(#[trigger] cells[j], col_width, i),
    ensures
        crate::word::line_width(crate::layout::cells_line(cells, col_width, i, k)) == (col_width + 1)
            * crate::layout::spans_sum(cells.take(k)),
    decreases k,
{
    if k == 0 {
        assert(cells.take(0) =~= seq![]);
        assert((col_width + 1) * crate::layout::spans_sum(cells.take(0)) == 0) by (nonlinear_arith)
            requires
                crate::layout::spans_sum(cells.take(0)) == 0,
        ;
    } else {
        lemma_cells_line_width(cells, col_width, i, k - 1);
        let cell = cells[k - 1];
        assert(cell_fits(cell, col_width, i));
        let words = if 0 <= i < cell.0.len() { cell.0[i] } else { seq![] };
        let span = cell.1;
        assert(span >= 1);
        let exact = col_width * span + span - 1;
        assert(exact <= u16::MAX);
        let width = crate::layout::cell_width(col_width, span);
        assert(width == exact) by {
            assert((span as u16) == span);
            assert(col_width * (span as u16) <= u16::MAX) by (nonlinear_arith)
                requires
                    col_width * span + span - 1 <= u16::MAX,
                    span >= 1,
                    (span as u16) == span,
            ;
        }
        let used = crate::word::line_width(words);
        assert(crate::layout::used_width(words) == used);
        let pad = (width - used) as u8;
        let tail = seq![crate::word::blank_word(pad as usize), crate::layout::bar_word()];
        assert(crate::layout::cell_line(cell, col_width, i) == words + tail);
        lemma_line_width_add(words, tail);
        reveal_with_fuel(crate::word::line_width, 3);
        assert(tail.drop_last() =~= seq![crate::word::blank_word(pad as usize)]);
        assert(tail.drop_last().drop_last() =~= seq![]);
        assert(crate::word::line_width(tail) == pad + 1);
        lemma_line_width_add(crate::layout::cells_line(cells, col_width, i, k - 1), crate::layout::cell_line(cell, col_width, i));
        assert(cells.take(k).drop_last() =~= cells.take(k - 1));
        assert(cells.take(k).last() == cell);
        assert(crate::layout::spans_sum(cells.take(k)) == crate::layout::spans_sum(cells.take(k - 1)) + span);
        assert((col_width + 1) * crate::layout::spans_sum(cells.take(k)) == (col_width + 1)
            * crate::layout::spans_sum(cells.take(k - 1)) + col_width * span + span) by (nonlinear_arith)
            requires
                crate::layout::spans_sum(cells.take(k)) == crate::layout::spans_sum(cells.take(k - 1)) + span,
        ;
    }
}

/// A border is one corner, then for each column its fill and one more
/// character.
pub proof fn lemma_border_width(count: nat, col_width: u16, pos: crate::layout::BorderPos)
    ensures
        crate::layout::border_line(count, col_width, pos).len() == 1 + (col_width + 1) * count,
{
    lemma_border_columns_len(count, col_width, pos, count);
}

/// The border after the corner, for `k` columns.
pub proof fn lemma_border_columns_len(count: nat, col_width: u16, pos: crate::layout::BorderPos, k: nat)
    ensures
        crate::layout::border_columns(count, col_width, pos, k).len() == (col_width + 1) * k,
    decreases k,
{
    if k > 0 {
        lemma_border_columns_len(count, col_width, pos, (k - 1) as nat);
        let (left, fill, sep, right) = crate::layout::border_glyphs(pos);
        assert(crate::layout::border_columns(count, col_width, pos, k) == crate::layout::border_columns(
            count,
            col_width,
            pos,
            (k - 1) as nat,
        ) + Seq::new(col_width as nat, |i: int| fill) + seq![if k < count { sep } else { right }]);
        assert((col_width + 1) * k == (col_width + 1) * (k - 1) + col_width + 1) by (nonlinear_arith)
            requires
                k > 0,
        ;
    } else {
        assert((col_width + 1) * k == 0) by (nonlinear_arith)
            requires
                k == 0,
        ;
    }
}

/// Rendering the cells of a row keeps their spans.
pub proof fn lemma_rendered_cells_spans(
    nodes: Seq<crate::document::DocNode>,
    t: usize,
    cells: Seq<usize>,
    col_width: u16,
    k: int,
)
    requires
        t < nodes.len(),
        0 <= k <= cells.len(),
        forall|j: int| 0 <= j < cells.len() ==> t < #[trigger] cells[j] < nodes.len(),
    ensures
        crate::layout::spans_sum(crate::layout::rendered_cells(nodes, t, cells, col_width, k))
            == crate::layout::span_total(nodes, cells.take(k)),
    decreases k,
{
    if k == 0 {
        assert(cells.take(0) =~= seq![]);
    } else {
        lemma_rendered_cells_spans(nodes, t, cells, col_width, k - 1);
        assert(cells.take(k).drop_last() =~= cells.take(k - 1));
        assert(cells.take(k).last() == cells[k - 1]);
        let r = crate::layout::rendered_cells(nodes, t, cells, col_width, k);
        assert(r.drop_last() =~= crate::layout::rendered_cells(nodes, t, cells, col_width, k - 1));
    }
}

/// In a rendered table row whose cells each fit on line `i`, that line is
/// exactly as wide as the table's borders.
pub proof fn lemma_row_matches_border(
    nodes: Seq<crate::document::DocNode>,
    t: usize,
    cells: Seq<usize>,
    count: nat,
    col_width: u16,
    i: int,
    pos: crate::layout::BorderPos,
)
    requires
        t < nodes.len(),
        forall|j: int| 0 <= j < cells.len() ==> t < #[trigger] cells[j] < nodes.len(),
        crate::layout::span_total(nodes, cells) <= count <= usize::MAX,
        forall|k: int|
            0 <= k < crate::layout::merged_cells(crate::layout::row_cells(nodes, t, cells, count, col_width)).len()
                ==> cell_fits(
                #[trigger] crate::layout::merged_cells(crate::layout::row_cells(nodes, t, cells, count, col_width))[k],
                col_width,
                i,
            ),
    ensures
        crate::word::line_width(
            crate::layout::row_line(
                crate::layout::merged_cells(crate::layout::row_cells(nodes, t, cells, count, col_width)),
                col_width,
                i,
            ),
        ) == crate::layout::border_line(count, col_width, pos).len(),
{
    let own = crate::layout::rendered_cells(nodes, t, cells, col_width, cells.len() as int);
    let covered = crate::layout::span_total(nodes, cells);
    let all = crate::layout::row_cells(nodes, t, cells, count, col_width);
    lemma_rendered_cells_spans(nodes, t, cells, col_width, cells.len() as int);
    assert(cells.take(cells.len() as int) =~= cells);
    if covered < count {
        assert(all.drop_last() =~= own);
    }
    assert(crate::layout::spans_sum(all) == count);
    crate::layout::lemma_merged_spans(all);
    lemma_row_line_width(crate::layout::merged_cells(all), col_width, i);
    lemma_border_width(count, col_width, pos);
}

} // verus!
