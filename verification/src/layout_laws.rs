//! Laws of how rendering shapes lines: punctuation takes back the space
//! before it, a line break finishes the line, a table row is as high as its
//! tallest cell, and wrapping from an empty line leaves room for the
//! padding and prefix it starts with.

use vstd::prelude::*;
use crate::document::DocNode;
use crate::growth::{grows, lemma_all_children_grow};
use crate::layout::{all_children, merged_cells, rendered_node, rendered_row, row_cells, row_height, row_line};
use crate::renderer::{RenderState, string_words};
use crate::word::{WordView, blank_word, prefix_word, line_width};

verus! {

/// The nine characters that attach to the word before them.
pub open spec fn is_attaching_punctuation(c: char) -> bool {
    c == ',' || c == '.' || c == ':' || c == ';' || c == '"' || c == '\'' || c == '!' || c == '@' || c == '%'
}

/// The state with the last word of the line being filled taken away.
pub open spec fn without_last(st: RenderState) -> RenderState {
    RenderState { current: st.current.drop_last(), ..st }
}

/// Text that starts with one of `, . : ; " ' ! @ %` after a whitespace word
/// takes that whitespace back: its words are wrapped and appended after the
/// line without it. Text that starts with anything else leaves the line as
/// it is and its words follow the whitespace.
pub proof fn lemma_punctuation_takes_back(st: RenderState, content: Seq<char>, index: usize)
    requires
        content.len() > 0,
        st.last_is_whitespace(),
    ensures
        is_attaching_punctuation(content[0]) ==> st.with_string(content, index) == without_last(st).appended(
            string_words(content, index, st.style),
        ),
        !is_attaching_punctuation(content[0]) ==> st.with_string(content, index) == st.appended(
            string_words(content, index, st.style),
        ),
{
}

/// A line break finishes the line being filled, as it is, before anything
/// of its own: the finished lines so far, then that line, stay in front of
/// whatever follows.
pub proof fn lemma_linebreak_finishes_line(st: RenderState, nodes: Seq<DocNode>, n: usize)
    requires
        n < nodes.len(),
        nodes[n as int].data is Linebreak,
    ensures
        st.current.len() > 0 ==> (rendered_node(st, nodes, n).lines.len() > st.lines.len()
            && rendered_node(st, nodes, n).lines[st.lines.len() as int] == st.current),
        st.lines.is_prefix_of(rendered_node(st, nodes, n).lines),
{
    let s0 = st.cleared();
    lemma_all_children_grow(s0, nodes, n);
    assert(rendered_node(st, nodes, n) == all_children(s0, nodes, n));
    let r = all_children(s0, nodes, n);
    assert(grows(s0, r));
    if st.current.len() > 0 {
        assert(s0.lines == st.lines.push(st.current));
        assert(r.lines[st.lines.len() as int] == s0.lines[st.lines.len() as int]);
    }
    assert forall|i: int| 0 <= i < st.lines.len() implies st.lines[i] == r.lines[i] by {
        assert(s0.lines[i] == st.lines[i]);
    }
}

/// The height of a row is at least one and at least that of each cell, and
/// is one or the height of some cell.
pub proof fn lemma_row_height_bounds(cells: Seq<(Seq<Seq<WordView>>, usize)>)
    ensures
        row_height(cells) >= 1,
        forall|i: int| 0 <= i < cells.len() ==> row_height(cells) >= (#[trigger] cells[i]).0.len(),
        row_height(cells) == 1 || exists|i: int| 0 <= i < cells.len() && row_height(cells) == (#[trigger] cells[i]).0.len(),
    decreases cells.len(),
{
    if cells.len() > 0 {
        let before = cells.drop_last();
        lemma_row_height_bounds(before);
        assert forall|i: int| 0 <= i < cells.len() implies row_height(cells) >= (#[trigger] cells[i]).0.len() by {
            if i < before.len() {
                assert(cells[i] == before[i]);
            }
        }
        if row_height(cells) != 1 {
            if row_height(cells) == cells.last().0.len() {
                assert(cells[cells.len() - 1] == cells.last());
            } else {
                let j = choose|j: int| 0 <= j < before.len() && row_height(before) == (#[trigger] before[j]).0.len();
                assert(cells[j] == before[j]);
            }
        }
    }
}

/// The lines of a row, drawn one after another: each is a line of its own,
/// after the line being filled is finished.
pub proof fn lemma_row_lines_drawn(st: RenderState, cells: Seq<(Seq<Seq<WordView>>, usize)>, col_width: u16, k: nat)
    requires
        k >= 1,
    ensures
        st.with_row_lines(cells, col_width, k).lines == st.cleared().lines + Seq::new(
            k,
            |j: int| row_line(cells, col_width, j),
        ),
        st.with_row_lines(cells, col_width, k).current.len() == 0,
    decreases k,
{
    let s = st.with_row_lines(cells, col_width, (k - 1) as nat).cleared();
    if k == 1 {
        assert(s == st.cleared().cleared());
        assert(st.cleared().cleared() == st.cleared());
    } else {
        lemma_row_lines_drawn(st, cells, col_width, (k - 1) as nat);
        assert(s == st.with_row_lines(cells, col_width, (k - 1) as nat));
    }
    assert(s.current.len() == 0);
    let line = row_line(cells, col_width, k - 1);
    assert(line.len() > 0);
    assert(s.current + line =~= line);
    assert(s.lines.push(line) =~= st.cleared().lines + Seq::new(k, |j: int| row_line(cells, col_width, j)));
}

/// A table row is as high as its tallest cell, and at least one line: the
/// finished lines get one line per row line, at least as many as each
/// (merged) cell has, and line `j` of the row shows line `j` of every cell.
pub proof fn lemma_row_as_high_as_tallest_cell(
    st: RenderState,
    nodes: Seq<DocNode>,
    t: usize,
    cells: Seq<usize>,
    count: nat,
    col_width: u16,
)
    requires
        t < nodes.len(),
    ensures
        ({
            let merged = merged_cells(row_cells(nodes, t, cells, count, col_width));
            let r = rendered_row(st, nodes, t, cells, count, col_width);
            let base = st.cleared().lines.len();
            &&& r.current.len() == 0
            &&& st.cleared().lines.is_prefix_of(r.lines)
            &&& r.lines.len() >= base + 1
            &&& forall|i: int| 0 <= i < merged.len() ==> r.lines.len() >= base + (#[trigger] merged[i]).0.len()
            &&& (r.lines.len() == base + 1 || exists|i: int|
                0 <= i < merged.len() && r.lines.len() == base + (#[trigger] merged[i]).0.len())
            &&& forall|j: int| 0 <= j < r.lines.len() - base ==> #[trigger] r.lines[base + j] == row_line(merged, col_width, j)
        }),
{
    let merged = merged_cells(row_cells(nodes, t, cells, count, col_width));
    let h = row_height(merged);
    lemma_row_height_bounds(merged);
    lemma_row_lines_drawn(st, merged, col_width, h);
    let r = rendered_row(st, nodes, t, cells, count, col_width);
    assert(r == st.with_row_lines(merged, col_width, h));
    let base = st.cleared().lines.len();
    assert(r.lines.len() == base + h);
    assert(st.cleared().lines =~= r.lines.subrange(0, base as int));
    if h != 1 {
        let i = choose|i: int| 0 <= i < merged.len() && h == (#[trigger] merged[i]).0.len();
        assert(r.lines.len() == base + merged[i].0.len());
    }
}

/// The words a wrapped line starts with on an empty line: the padding, then
/// the prefix if there is one.
pub open spec fn line_lead(st: RenderState) -> Seq<WordView> {
    match st.prefix {
        Some(p) => seq![blank_word(st.padding as usize), prefix_word(p)],
        None => seq![blank_word(st.padding as usize)],
    }
}

/// The state with the line being filled holding the padding and prefix.
pub open spec fn lead_state(st: RenderState) -> RenderState {
    RenderState { current: line_lead(st), ..st }
}

/// Wrapping from an empty line is wrapping after the padding and prefix it
/// starts with: the first line's words get only the width left beside
/// them, when the first word fits there.
pub proof fn lemma_wrap_from_empty_line(st: RenderState, words: Seq<WordView>)
    requires
        st.current.len() == 0,
        words.len() > 0,
        words[0].width + line_width(line_lead(st)) <= st.width,
    ensures
        st.appended(words) == lead_state(st).appended(words),
{
    let lead = line_lead(st);
    let b = lead_state(st);
    reveal_with_fuel(line_width, 3);
    assert(lead.drop_last().drop_last() =~= Seq::<WordView>::empty() || lead.drop_last() =~= Seq::<WordView>::empty());
    match st.prefix {
        Some(p) => {
            assert(lead.drop_last() =~= seq![blank_word(st.padding as usize)]);
            assert(seq![blank_word(st.padding as usize)].drop_last() =~= Seq::<WordView>::empty());
            assert(line_width(lead) == st.padding + 2);
            assert(st.current.push(blank_word(st.padding as usize)).push(prefix_word(p)) =~= lead);
        },
        None => {
            assert(lead.drop_last() =~= Seq::<WordView>::empty());
            assert(line_width(lead) == st.padding as nat);
            assert(st.current.push(blank_word(st.padding as usize)) =~= lead);
        },
    }
    assert(b.current_width() == line_width(lead));
    assert(st.current_width() == 0);
    assert(st.prepared(words[0].width) == b.prepared(words[0].width));
}

} // verus!
