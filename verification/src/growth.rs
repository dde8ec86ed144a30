//! Rendering only ever adds: finished lines and recorded links stay as they
//! were and new ones come after them, the target width never changes, and
//! every recorded link points at a finished line or at the line being
//! filled.

use vstd::prelude::*;
use crate::document::{Data, DocNode, Link};
use crate::layout::{
    BorderPos, all_children, below, children_of, document_rendering, rendered_block, rendered_children,
    rendered_node, rendered_row, rendered_rows, rendered_styled, rendered_table, row_line,
};
use crate::renderer::RenderState;
use crate::style::Color;
use crate::word::WordView;

verus! {

/// Every recorded link names a line that is finished or being filled.
pub open spec fn links_in_range(st: RenderState) -> bool {
    forall|i: int| 0 <= i < st.links.len() ==> (#[trigger] st.links[i]).0 <= st.lines.len()
}

/// `b` is `a` with possibly more finished lines and links after the old
/// ones, at the same width; links that pointed into range still do.
pub open spec fn grows(a: RenderState, b: RenderState) -> bool {
    &&& a.lines.is_prefix_of(b.lines)
    &&& a.links.is_prefix_of(b.links)
    &&& a.width == b.width
    &&& links_in_range(a) ==> links_in_range(b)
}

/// Growing is reflexive.
pub proof fn lemma_grows_refl(a: RenderState)
    ensures
        grows(a, a),
{
    assert(a.lines =~= a.lines.subrange(0, a.lines.len() as int));
    assert(a.links =~= a.links.subrange(0, a.links.len() as int));
}

/// Growing is transitive.
pub proof fn lemma_grows_trans(a: RenderState, b: RenderState, c: RenderState)
    requires
        grows(a, b),
        grows(b, c),
    ensures
        grows(a, c),
{
    assert(a.lines =~= c.lines.subrange(0, a.lines.len() as int)) by {
        assert forall|i: int| 0 <= i < a.lines.len() implies a.lines[i] == c.lines[i] by {
            assert(a.lines[i] == b.lines[i]);
            assert(b.lines[i] == c.lines[i]);
        }
    }
    assert(a.links =~= c.links.subrange(0, a.links.len() as int)) by {
        assert forall|i: int| 0 <= i < a.links.len() implies a.links[i] == c.links[i] by {
            assert(a.links[i] == b.links[i]);
            assert(b.links[i] == c.links[i]);
        }
    }
}

/// A state that keeps lines and links and only changes what is being
/// filled or the settings grows.
pub proof fn lemma_grows_same_output(a: RenderState, b: RenderState)
    requires
        b.lines == a.lines,
        b.links == a.links,
        b.width == a.width,
    ensures
        grows(a, b),
{
    lemma_grows_refl(a);
}

/// Adding finished lines grows.
pub proof fn lemma_grows_more_lines(a: RenderState, b: RenderState, more: Seq<Seq<WordView>>)
    requires
        b.lines == a.lines + more,
        b.links == a.links,
        b.width == a.width,
    ensures
        grows(a, b),
{
    assert(a.lines =~= b.lines.subrange(0, a.lines.len() as int));
    assert(a.links =~= b.links.subrange(0, a.links.len() as int));
}

/// Finishing the current line grows.
pub proof fn lemma_cleared_grows(a: RenderState)
    ensures
        grows(a, a.cleared()),
{
    if a.current.len() == 0 {
        lemma_grows_refl(a);
    } else {
        assert(a.lines.push(a.current) =~= a.lines + seq![a.current]);
        lemma_grows_more_lines(a, a.cleared(), seq![a.current]);
    }
}

/// Adding an empty line grows.
pub proof fn lemma_empty_line_grows(a: RenderState)
    ensures
        grows(a, a.with_empty_line()),
        grows(a, a.with_empty_line_ensured()),
{
    lemma_cleared_grows(a);
    let c = a.cleared();
    assert(c.lines.push(seq![]) =~= c.lines + seq![seq![]]);
    lemma_grows_more_lines(c, a.with_empty_line(), seq![seq![]]);
    lemma_grows_trans(a, c, a.with_empty_line());
    lemma_grows_refl(a);
}

/// Changing what is being filled or the settings grows.
pub proof fn lemma_settings_grow(a: RenderState)
    ensures
        grows(a, a.with_whitespace()),
        forall|s: crate::style::TextStyle| grows(a, #[trigger] a.with_style(s)),
        forall|n: u8| grows(a, #[trigger] a.with_padding_added(n)),
        forall|n: u8| grows(a, #[trigger] a.with_padding_removed(n)),
        forall|p: Option<char>| grows(a, #[trigger] a.with_prefix(p)),
{
    lemma_grows_refl(a);
}

/// Drawing a rule grows.
pub proof fn lemma_rule_grows(a: RenderState)
    ensures
        grows(a, a.with_horizontal_line()),
{
    let n = (a.width - a.current_width()) as nat;
    lemma_grows_refl(a);
    let rule = WordView {
        index: crate::word::NO_NODE,
        content: crate::renderer::rule_chars(n),
        style: a.style,
        width: n as usize,
        whitespace_width: 0,
        penalty_width: 0,
    };
    let m = RenderState { current: a.current.push(rule), ..a };
    lemma_grows_same_output(a, m);
    lemma_cleared_grows(m);
    lemma_grows_trans(a, m, m.cleared());
}

/// Drawing a border grows.
pub proof fn lemma_border_grows(a: RenderState, count: nat, col_width: u16, pos: BorderPos)
    ensures
        grows(a, a.with_border(count, col_width, pos)),
{
    let s = a.cleared();
    lemma_cleared_grows(a);
    let line = crate::layout::border_line(count, col_width, pos);
    let word = WordView {
        index: crate::word::NO_NODE,
        content: line,
        style: crate::layout::border_style(),
        width: line.len() as usize,
        whitespace_width: 0,
        penalty_width: 0,
    };
    let m = RenderState { current: s.current.push(word), ..s };
    lemma_grows_same_output(s, m);
    lemma_cleared_grows(m);
    lemma_grows_trans(s, m, m.cleared());
    lemma_grows_trans(a, s, m.cleared());
}

/// Placing wrapped words grows.
pub proof fn lemma_laid_out_grows(a: RenderState, words: Seq<WordView>, lens: Seq<usize>)
    ensures
        grows(a, a.laid_out(words, lens)),
{
    let wrapped = crate::wrap::split_by_lengths(words, lens);
    let s = RenderState { current: a.current + wrapped[0], ..a };
    lemma_grows_same_output(a, s);
    let rest = wrapped.drop_first().map_values(|l: Seq<WordView>| crate::renderer::indented(l, a.padding, a.prefix));
    if rest.len() > 0 {
        let c = s.cleared();
        lemma_cleared_grows(s);
        lemma_grows_trans(a, s, c);
        let fin = RenderState { lines: c.lines + rest.drop_last(), current: rest.last(), ..c };
        lemma_grows_more_lines(c, fin, rest.drop_last());
        lemma_grows_trans(a, c, fin);
    }
}

/// Wrapping and appending words grows.
pub proof fn lemma_appended_grows(a: RenderState, words: Seq<WordView>)
    ensures
        grows(a, a.appended(words)),
{
    if words.len() == 0 {
        lemma_grows_refl(a);
    } else {
        let first_width = words[0].width;
        let left = a.width - a.current_width();
        let s1 = if first_width > left { a.cleared() } else { a };
        lemma_cleared_grows(a);
        lemma_grows_refl(a);
        let (s, _) = a.prepared(first_width);
        lemma_grows_same_output(s1, s);
        lemma_grows_trans(a, s1, s);
        let lens = crate::wrap::covering(
            crate::wrap::optimal_fit_line_lengths(
                crate::renderer::fragments(words),
                seq![if a.prepared(first_width).1 < 0 { 0usize } else { a.prepared(first_width).1 as usize }, a.width as usize],
            ),
            words.len(),
        );
        lemma_laid_out_grows(s, words, lens);
        lemma_grows_trans(a, s, s.laid_out(words, lens));
    }
}

/// Rendering a string grows.
pub proof fn lemma_string_grows(a: RenderState, content: Seq<char>, index: usize)
    ensures
        grows(a, a.with_string(content, index)),
{
    let s = if crate::renderer::starts_special(content) && a.last_is_whitespace() {
        RenderState { current: a.current.drop_last(), ..a }
    } else {
        a
    };
    lemma_grows_same_output(a, s);
    lemma_appended_grows(s, crate::renderer::string_words(content, index, a.style));
    lemma_grows_trans(a, s, a.with_string(content, index));
}

/// The lines of a table row grow.
pub proof fn lemma_row_lines_grow(a: RenderState, cells: Seq<(Seq<Seq<WordView>>, usize)>, col_width: u16, k: nat)
    ensures
        grows(a, a.with_row_lines(cells, col_width, k)),
    decreases k,
{
    if k == 0 {
        lemma_grows_refl(a);
    } else {
        let p = a.with_row_lines(cells, col_width, (k - 1) as nat);
        lemma_row_lines_grow(a, cells, col_width, (k - 1) as nat);
        let s = p.cleared();
        lemma_cleared_grows(p);
        lemma_grows_trans(a, p, s);
        let m = RenderState { current: s.current + row_line(cells, col_width, k - 1), ..s };
        lemma_grows_same_output(s, m);
        lemma_grows_trans(a, s, m);
        lemma_cleared_grows(m);
        lemma_grows_trans(a, m, m.cleared());
    }
}

/// A table row grows.
pub proof fn lemma_row_grows(a: RenderState, nodes: Seq<DocNode>, t: usize, cells: Seq<usize>, count: nat, col_width: u16)
    ensures
        grows(a, rendered_row(a, nodes, t, cells, count, col_width)),
{
    if t >= nodes.len() {
        lemma_grows_refl(a);
    } else {
        let own = crate::layout::rendered_cells(nodes, t, cells, col_width, cells.len() as int);
        let covered = crate::layout::span_total(nodes, cells);
        let all = if covered < count { own.push((seq![], (count - covered) as usize)) } else { own };
        let merged = crate::layout::merged_cells(all);
        lemma_row_lines_grow(a, merged, col_width, crate::layout::row_height(merged));
    }
}

/// The rows of a table grow.
pub proof fn lemma_rows_grow(a: RenderState, nodes: Seq<DocNode>, t: usize, rows: Seq<Seq<usize>>, count: nat, col_width: u16, k: int)
    ensures
        grows(a, rendered_rows(a, nodes, t, rows, count, col_width, k)),
    decreases k,
{
    if t >= nodes.len() || k <= 0 || k > rows.len() {
        lemma_grows_refl(a);
    } else {
        let p = rendered_rows(a, nodes, t, rows, count, col_width, k - 1);
        lemma_rows_grow(a, nodes, t, rows, count, col_width, k - 1);
        let s = rendered_row(p, nodes, t, rows[k - 1], count, col_width);
        lemma_row_grows(p, nodes, t, rows[k - 1], count, col_width);
        lemma_grows_trans(a, p, s);
        if k < rows.len() {
            lemma_border_grows(s, count, col_width, BorderPos::Middle);
            lemma_grows_trans(a, s, s.with_border(count, col_width, BorderPos::Middle));
        }
    }
}

/// A table grows.
pub proof fn lemma_table_grows(a: RenderState, nodes: Seq<DocNode>, t: usize)
    ensures
        grows(a, rendered_table(a, nodes, t)),
{
    let s0 = a.with_empty_line_ensured();
    lemma_empty_line_grows(a);
    lemma_empty_line_grows(s0);
    lemma_grows_trans(a, s0, s0.with_empty_line_ensured());
    let rows = crate::layout::rows_below(nodes, t);
    let count = crate::layout::column_count(nodes, rows);
    if !(t >= nodes.len() || count == 0) {
        let border_chars = (count as u16).wrapping_add(1);
        let available = a.width.saturating_sub(border_chars);
        let per_col = (available / (count as u16)) as u16;
        let col_width = if per_col >= 3 { per_col } else { 3u16 };
        let s1 = s0.with_border(count, col_width, BorderPos::Top);
        lemma_border_grows(s0, count, col_width, BorderPos::Top);
        lemma_grows_trans(a, s0, s1);
        let s2 = rendered_rows(s1, nodes, t, rows, count, col_width, rows.len() as int);
        lemma_rows_grow(s1, nodes, t, rows, count, col_width, rows.len() as int);
        lemma_grows_trans(a, s1, s2);
        let s3 = s2.with_border(count, col_width, BorderPos::Bottom);
        lemma_border_grows(s2, count, col_width, BorderPos::Bottom);
        lemma_grows_trans(a, s2, s3);
        lemma_empty_line_grows(s3);
        lemma_grows_trans(a, s3, s3.with_empty_line_ensured());
    }
}

/// An unsupported element's placeholder grows.
pub proof fn lemma_unsupported_grows(a: RenderState, inline: bool, e: crate::document::UnsupportedElement, index: usize)
    ensures
        grows(a, a.with_unsupported(inline, e, index)),
{
    if inline {
        let s0 = a.with_style(crate::style::style_with_modifier(a.style, crate::style::ITALIC));
        let s1 = s0.with_whitespace();
        lemma_settings_grow(a);
        lemma_settings_grow(s0);
        lemma_grows_trans(a, s0, s1);
        let s1b = s1.with_style(crate::style::style_with_fg(s1.style, Color::DarkGray));
        lemma_settings_grow(s1);
        lemma_grows_trans(a, s1, s1b);
        let s2 = s1b.with_string("[x]"@, index);
        lemma_string_grows(s1b, "[x]"@, index);
        lemma_grows_trans(a, s1b, s2);
        let s2b = s2.with_style(crate::style::style_without_fg(s2.style));
        lemma_settings_grow(s2);
        lemma_grows_trans(a, s2, s2b);
        let s3 = s2b.with_whitespace();
        lemma_settings_grow(s2b);
        lemma_grows_trans(a, s2b, s3);
        lemma_settings_grow(s3);
        lemma_grows_trans(a, s3, s3.with_style(crate::style::style_without_modifier(s3.style, crate::style::ITALIC)));
    } else {
        let s0 = a.with_empty_line_ensured();
        lemma_empty_line_grows(a);
        let s0b = s0.with_style(crate::style::style_with_modifier(s0.style, crate::style::ITALIC));
        lemma_settings_grow(s0);
        lemma_grows_trans(a, s0, s0b);
        let s1 = s0b.with_string(crate::layout::unsupported_message(e), index);
        lemma_string_grows(s0b, crate::layout::unsupported_message(e), index);
        lemma_grows_trans(a, s0b, s1);
        let s1b = s1.with_style(crate::style::style_without_modifier(s1.style, crate::style::ITALIC));
        lemma_settings_grow(s1);
        lemma_grows_trans(a, s1, s1b);
        lemma_empty_line_grows(s1b);
        lemma_grows_trans(a, s1b, s1b.with_empty_line());
    }
}

/// Rendering the first `k` children of a node grows.
pub proof fn lemma_children_grow(a: RenderState, nodes: Seq<DocNode>, n: usize, k: int)
    ensures
        grows(a, rendered_children(a, nodes, n, k)),
    decreases nodes.len() - n, 0int, k,
{
    if n >= nodes.len() || k <= 0 || k > children_of(nodes, n).len() {
        lemma_grows_refl(a);
    } else {
        let s = rendered_children(a, nodes, n, k - 1);
        lemma_children_grow(a, nodes, n, k - 1);
        let c = children_of(nodes, n)[k - 1];
        if below(nodes, n, c) {
            lemma_node_grows(s, nodes, c);
            lemma_grows_trans(a, s, rendered_node(s, nodes, c));
        }
    }
}

/// Rendering all children of a node grows.
pub proof fn lemma_all_children_grow(a: RenderState, nodes: Seq<DocNode>, n: usize)
    ensures
        grows(a, all_children(a, nodes, n)),
    decreases nodes.len() - n, 1int, 0int,
{
    if n >= nodes.len() {
        lemma_grows_refl(a);
    } else {
        lemma_children_grow(a, nodes, n, children_of(nodes, n).len() as int);
    }
}

/// Rendering a block grows.
pub proof fn lemma_block_grows(a: RenderState, nodes: Seq<DocNode>, n: usize)
    ensures
        grows(a, rendered_block(a, nodes, n)),
    decreases nodes.len() - n, 5int, 0int,
{
    let s0 = a.with_empty_line_ensured();
    lemma_empty_line_grows(a);
    let s1 = all_children(s0, nodes, n);
    lemma_all_children_grow(s0, nodes, n);
    lemma_grows_trans(a, s0, s1);
    lemma_empty_line_grows(s1);
    lemma_grows_trans(a, s1, s1.with_empty_line_ensured());
}

/// Rendering children in a style grows.
pub proof fn lemma_styled_grows(a: RenderState, nodes: Seq<DocNode>, n: usize, modifier: u16, color: Option<Color>)
    ensures
        grows(a, rendered_styled(a, nodes, n, modifier, color)),
    decreases nodes.len() - n, 5int, 0int,
{
    let s1 = a.with_style(crate::style::style_with_modifier(a.style, modifier));
    lemma_settings_grow(a);
    let s2 = match color {
        Some(c) => s1.with_style(crate::style::style_with_fg(s1.style, c)),
        None => s1,
    };
    lemma_settings_grow(s1);
    lemma_grows_refl(s1);
    lemma_grows_trans(a, s1, s2);
    let s3 = all_children(s2, nodes, n);
    lemma_all_children_grow(s2, nodes, n);
    lemma_grows_trans(a, s2, s3);
    let s4 = match color {
        Some(c) => s3.with_style(crate::style::style_without_fg(s3.style)),
        None => s3,
    };
    lemma_settings_grow(s3);
    lemma_grows_refl(s3);
    lemma_grows_trans(a, s3, s4);
    let s5 = s4.with_style(crate::style::style_without_modifier(s4.style, modifier));
    lemma_settings_grow(s4);
    lemma_grows_trans(a, s4, s5);
    lemma_settings_grow(s5);
    lemma_grows_trans(a, s5, s5.with_whitespace());
}

/// Rendering any node grows: its rendering only adds finished lines and
/// links after the old ones, keeps the width, and keeps links in range.
#[verifier::spinoff_prover]
#[verifier::rlimit(60)]
pub proof fn lemma_node_grows(a: RenderState, nodes: Seq<DocNode>, n: usize)
    ensures
        grows(a, rendered_node(a, nodes, n)),
    decreases nodes.len() - n, 6int, 0int,
{
    if n >= nodes.len() {
        lemma_grows_refl(a);
    } else {
        let r = rendered_node(a, nodes, n);
        match nodes[n as int].data {
            Data::Section { .. } => lemma_block_grows(a, nodes, n),
            Data::Header { kind, .. } => {
                let s0 = a.with_empty_line_ensured();
                lemma_empty_line_grows(a);
                let s1 = if !crate::layout::is_major(kind) { s0.with_style(crate::style::style_with_modifier(s0.style, crate::style::BOLD)) } else { s0 };
                lemma_settings_grow(s0);
                lemma_grows_refl(s0);
                lemma_grows_trans(a, s0, s1);
                let s2 = s1.with_style(crate::style::style_with_fg(s1.style, Color::Red));
                lemma_settings_grow(s1);
                lemma_grows_trans(a, s1, s2);
                let s3 = all_children(s2, nodes, n);
                lemma_all_children_grow(s2, nodes, n);
                lemma_grows_trans(a, s2, s3);
                let s4 = if !crate::layout::is_major(kind) { s3.with_style(crate::style::style_without_modifier(s3.style, crate::style::BOLD)) } else { s3 };
                lemma_settings_grow(s3);
                lemma_grows_refl(s3);
                lemma_grows_trans(a, s3, s4);
                let s5 = s4.with_style(crate::style::style_without_fg(s4.style));
                lemma_settings_grow(s4);
                lemma_grows_trans(a, s4, s5);
                let s6 = if crate::layout::is_major(kind) { s5.cleared().with_horizontal_line() } else { s5 };
                lemma_cleared_grows(s5);
                lemma_rule_grows(s5.cleared());
                lemma_grows_trans(s5, s5.cleared(), s5.cleared().with_horizontal_line());
                lemma_grows_refl(s5);
                lemma_grows_trans(a, s5, s6);
                lemma_empty_line_grows(s6);
                lemma_grows_trans(a, s6, s6.with_empty_line_ensured());
            },
            Data::Text { contents } => {
                let s = a.with_string(contents@, n);
                lemma_string_grows(a, contents@, n);
                lemma_all_children_grow(s, nodes, n);
                lemma_grows_trans(a, s, all_children(s, nodes, n));
            },
            Data::Division | Data::Paragraph | Data::Hatnote | Data::RedirectMessage | Data::DescriptionList => {
                lemma_block_grows(a, nodes, n)
            },
            Data::Span => {
                let s = all_children(a, nodes, n);
                lemma_all_children_grow(a, nodes, n);
                lemma_settings_grow(s);
                lemma_grows_trans(a, s, s.with_whitespace());
            },
            Data::Reflink => lemma_styled_grows(a, nodes, n, crate::style::ITALIC, Some(Color::Gray)),
            Data::Disambiguation => {
                let s0 = a.with_empty_line_ensured();
                lemma_empty_line_grows(a);
                let t1 = s0.with_style(crate::style::style_with_modifier(s0.style, crate::style::ITALIC));
                lemma_settings_grow(s0);
                let t2 = t1.with_padding_added(crate::layout::DISAMBIGUATION_PADDING);
                lemma_settings_grow(t1);
                let s1 = t2.with_prefix(Some(crate::layout::DISAMBIGUATION_PREFIX));
                lemma_settings_grow(t2);
                lemma_grows_trans(a, s0, t1);
                lemma_grows_trans(a, t1, t2);
                lemma_grows_trans(a, t2, s1);
                let s2 = all_children(s1, nodes, n);
                lemma_all_children_grow(s1, nodes, n);
                lemma_grows_trans(a, s1, s2);
                let t3 = s2.with_prefix(None);
                lemma_settings_grow(s2);
                let s3 = t3.with_padding_removed(crate::layout::DISAMBIGUATION_PADDING);
                lemma_settings_grow(t3);
                lemma_grows_trans(a, s2, t3);
                lemma_grows_trans(a, t3, s3);
                let s4 = s3.with_style(crate::style::style_without_modifier(s3.style, crate::style::ITALIC));
                lemma_settings_grow(s3);
                lemma_grows_trans(a, s3, s4);
                lemma_empty_line_grows(s4);
                lemma_grows_trans(a, s4, s4.with_empty_line_ensured());
            },
            Data::Blockquote => {
                let s0 = a.with_padding_added(crate::layout::BLOCKQUOTE_PADDING);
                lemma_settings_grow(a);
                let s1 = rendered_block(s0, nodes, n);
                lemma_block_grows(s0, nodes, n);
                lemma_grows_trans(a, s0, s1);
                lemma_settings_grow(s1);
                lemma_grows_trans(a, s1, s1.with_padding_removed(crate::layout::BLOCKQUOTE_PADDING));
            },
            Data::OrderedList | Data::UnorderedList => {
                let s0 = a.with_empty_line_ensured();
                lemma_empty_line_grows(a);
                let s1 = s0.with_padding_added(crate::layout::LIST_PADDING);
                lemma_settings_grow(s0);
                lemma_grows_trans(a, s0, s1);
                let s2 = all_children(s1, nodes, n);
                lemma_all_children_grow(s1, nodes, n);
                lemma_grows_trans(a, s1, s2);
                let s3 = s2.with_padding_removed(crate::layout::LIST_PADDING);
                lemma_settings_grow(s2);
                lemma_grows_trans(a, s2, s3);
                lemma_empty_line_grows(s3);
                lemma_grows_trans(a, s3, s3.with_empty_line_ensured());
            },
            Data::ListItem => {
                let s0 = a.cleared();
                lemma_cleared_grows(a);
                let m = RenderState { current: s0.current.push(crate::layout::bullet_word(s0.padding)), ..s0 };
                lemma_grows_same_output(s0, m);
                lemma_grows_trans(a, s0, m);
                let s1 = m.with_padding_added(2);
                lemma_settings_grow(m);
                lemma_grows_trans(a, m, s1);
                let s2 = all_children(s1, nodes, n);
                lemma_all_children_grow(s1, nodes, n);
                lemma_grows_trans(a, s1, s2);
                let s3 = s2.with_padding_removed(2);
                lemma_settings_grow(s2);
                lemma_grows_trans(a, s2, s3);
                lemma_cleared_grows(s3);
                lemma_grows_trans(a, s3, s3.cleared());
            },
            Data::DescriptionListTerm | Data::DerscriptionListDescription => {
                let s0 = a.cleared();
                lemma_cleared_grows(a);
                let s1 = all_children(s0, nodes, n);
                lemma_all_children_grow(s0, nodes, n);
                lemma_grows_trans(a, s0, s1);
                lemma_cleared_grows(s1);
                lemma_grows_trans(a, s1, s1.cleared());
            },
            Data::Bold => {
                let s1 = a.with_style(crate::style::style_with_modifier(a.style, crate::style::BOLD));
                lemma_settings_grow(a);
                let s2 = all_children(s1, nodes, n);
                lemma_all_children_grow(s1, nodes, n);
                lemma_grows_trans(a, s1, s2);
                let s3 = s2.with_style(crate::style::style_without_modifier(s2.style, crate::style::BOLD));
                lemma_settings_grow(s2);
                lemma_grows_trans(a, s2, s3);
                lemma_settings_grow(s3);
                lemma_grows_trans(a, s3, s3.with_whitespace());
            },
            Data::Italic => lemma_styled_grows(a, nodes, n, crate::style::ITALIC, Some(Color::Blue)),
            Data::Linebreak => {
                let s0 = a.cleared();
                lemma_cleared_grows(a);
                lemma_all_children_grow(s0, nodes, n);
                lemma_grows_trans(a, s0, all_children(s0, nodes, n));
            },
            Data::Link(link) => {
                let s = RenderState { links: a.links.push((a.lines.len() as usize, n)), ..a };
                assert(a.lines =~= s.lines.subrange(0, a.lines.len() as int));
                assert(a.links =~= s.links.subrange(0, a.links.len() as int));
                assert(grows(a, s));
                match link {
                    Link::Internal | Link::Anchor => {
                        let s1 = s.with_style(crate::style::style_with_fg(s.style, Color::Blue));
                        lemma_settings_grow(s);
                        lemma_grows_trans(a, s, s1);
                        let s2 = all_children(s1, nodes, n);
                        lemma_all_children_grow(s1, nodes, n);
                        lemma_grows_trans(a, s1, s2);
                        let s3 = s2.with_style(crate::style::style_without_fg(s2.style));
                        lemma_settings_grow(s2);
                        lemma_grows_trans(a, s2, s3);
                        lemma_settings_grow(s3);
                        lemma_grows_trans(a, s3, s3.with_whitespace());
                    },
                    Link::RedLink => {
                        lemma_styled_grows(s, nodes, n, crate::style::ITALIC, Some(Color::Red));
                        lemma_grows_trans(a, s, r);
                    },
                    Link::MediaLink => {
                        lemma_styled_grows(s, nodes, n, crate::style::ITALIC, Some(Color::Blue));
                        lemma_grows_trans(a, s, r);
                    },
                    Link::External | Link::ExternalToInternal => {
                        lemma_styled_grows(s, nodes, n, crate::style::ITALIC, None);
                        lemma_grows_trans(a, s, r);
                    },
                }
            },
            Data::Unknown | Data::TableRow | Data::TableCell { .. } => lemma_all_children_grow(a, nodes, n),
            Data::Image(image) => {
                let s0 = a.with_empty_line_ensured();
                lemma_empty_line_grows(a);
                let s1 = s0.with_style(crate::style::style_with_modifier(s0.style, crate::style::ITALIC | crate::style::UNDERLINED));
                lemma_settings_grow(s0);
                lemma_grows_trans(a, s0, s1);
                let s2 = s1.with_style(crate::style::style_with_fg(s1.style, Color::Blue));
                lemma_settings_grow(s1);
                lemma_grows_trans(a, s1, s2);
                let s3 = s2.with_string(crate::layout::image_label(image.alt@), n);
                lemma_string_grows(s2, crate::layout::image_label(image.alt@), n);
                lemma_grows_trans(a, s2, s3);
                let s4 = s3.with_style(crate::style::style_without_fg(s3.style));
                lemma_settings_grow(s3);
                lemma_grows_trans(a, s3, s4);
                let s5 = s4.with_style(crate::style::style_without_modifier(s4.style, crate::style::ITALIC | crate::style::UNDERLINED));
                lemma_settings_grow(s4);
                lemma_grows_trans(a, s4, s5);
                lemma_empty_line_grows(s5);
                lemma_grows_trans(a, s5, s5.with_empty_line_ensured());
            },
            Data::Table => lemma_table_grows(a, nodes, n),
            Data::Unsupported(e) => lemma_unsupported_grows(a, false, e, n),
            Data::UnsupportedInline(e) => lemma_unsupported_grows(a, true, e, n),
        }
    }
}

/// Every link of a rendered document names one of its lines, or the line
/// that was still being filled at the end.
pub proof fn lemma_document_links_in_range(nodes: Seq<DocNode>, width: u16)
    ensures
        links_in_range(document_rendering(nodes, width)),
{
    let start = RenderState::initial(width, crate::style::plain_style());
    if nodes.len() > 0 {
        lemma_node_grows(start, nodes, 0);
    }
}

} // verus!
