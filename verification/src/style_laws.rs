//! Italic text is italic: every word of text shown under an italic node
//! carries the italic modifier, as long as nothing below it takes italics
//! off again or is rendered apart.

use vstd::prelude::*;
use crate::document::{Data, DocNode, Link};
use crate::laws::text_of;
use crate::layout::{all_children, below, children_of, rendered_block, rendered_children, rendered_node};
use crate::renderer::{RenderState, string_words};
use crate::style::{Color, BOLD, ITALIC, style_with_modifier, style_without_modifier, style_with_fg, style_without_fg};
use crate::text_law::{lemma_quiet_ops, lemma_string_text};
use crate::word::WordView;

verus! {

/// Nodes that take italics off when they end (or, tables, render their
/// cells apart in a fresh style).
pub open spec fn takes_italic_off(d: Data) -> bool {
    match d {
        Data::Italic | Data::Reflink | Data::Disambiguation | Data::Image(_) | Data::Table | Data::Unsupported(_)
        | Data::UnsupportedInline(_) => true,
        Data::Link(link) => !(link is Internal || link is Anchor),
        _ => false,
    }
}

/// Whether node `n` and the nodes below it leave italics on.
pub open spec fn keeps_italic(nodes: Seq<DocNode>, n: usize) -> bool
    decreases nodes.len() - n, 1int, 0int,
{
    n < nodes.len() && !takes_italic_off(nodes[n as int].data) && children_keep_italic(
        nodes,
        n,
        children_of(nodes, n).len() as int,
    )
}

/// Whether the first `k` children of node `n`, and the nodes below them,
/// leave italics on.
pub open spec fn children_keep_italic(nodes: Seq<DocNode>, n: usize, k: int) -> bool
    decreases nodes.len() - n, 0int, k,
{
    if n >= nodes.len() || k <= 0 || k > children_of(nodes, n).len() {
        true
    } else {
        let c = children_of(nodes, n)[k - 1];
        children_keep_italic(nodes, n, k - 1) && (below(nodes, n, c) ==> keeps_italic(nodes, c))
    }
}

/// `b` shows all the text `a` shows, then only words that carry the
/// modifiers `m`.
pub open spec fn adds_marked(a: RenderState, b: RenderState, m: u16) -> bool {
    &&& text_of(a).len() <= text_of(b).len()
    &&& text_of(b).take(text_of(a).len() as int) == text_of(a)
    &&& forall|i: int| text_of(a).len() <= i < text_of(b).len() ==> #[trigger] text_of(b)[i].style.add_modifier & m == m
}

proof fn lemma_bits_or_keeps(a: u16, x: u16, m: u16)
    by (bit_vector)
    requires
        a & m == m,
    ensures
        (a | x) & m == m,
{
}

proof fn lemma_bits_or_adds(a: u16, m: u16)
    by (bit_vector)
    ensures
        (a | m) & m == m,
{
}

proof fn lemma_bits_andnot_keeps(a: u16, x: u16, m: u16)
    by (bit_vector)
    requires
        a & m == m,
        x & m == 0,
    ensures
        (a & !x) & m == m,
{
}

proof fn lemma_bits_italic(m: u16)
    by (bit_vector)
    requires
        m == ITALIC,
    ensures
        m & m == m,
        BOLD & m == 0,
{
}

/// Showing the same text adds nothing.
proof fn lemma_marked_same(a: RenderState, b: RenderState, m: u16)
    requires
        text_of(a) == text_of(b),
    ensures
        adds_marked(a, b, m),
{
    assert(text_of(b).take(text_of(a).len() as int) =~= text_of(a));
}

/// Adding marked words is transitive.
proof fn lemma_marked_trans(a: RenderState, b: RenderState, c: RenderState, m: u16)
    requires
        adds_marked(a, b, m),
        adds_marked(b, c, m),
    ensures
        adds_marked(a, c, m),
{
    let ta = text_of(a);
    let tb = text_of(b);
    let tc = text_of(c);
    assert(tc.take(ta.len() as int) =~= ta) by {
        assert forall|i: int| 0 <= i < ta.len() implies tc[i] == ta[i] by {
            assert(tb[i] == ta[i]);
            assert(tc[i] == tb[i]);
        }
    }
    assert forall|i: int| ta.len() <= i < tc.len() implies #[trigger] tc[i].style.add_modifier & m == m by {
        if i < tb.len() {
            assert(tc[i] == tb[i]);
        }
    }
}

/// Rendering a string adds words in the current style.
proof fn lemma_string_marked(st: RenderState, content: Seq<char>, n: usize, m: u16)
    requires
        n != crate::word::NO_NODE,
        st.style.add_modifier & m == m,
    ensures
        adds_marked(st, st.with_string(content, n), m),
{
    lemma_string_text(st, content, n);
    let w = string_words(content, n, st.style);
    let t = text_of(st.with_string(content, n));
    assert(t.take(text_of(st).len() as int) =~= text_of(st));
    assert forall|i: int| text_of(st).len() <= i < t.len() implies #[trigger] t[i].style.add_modifier & m == m by {
        assert(t[i] == w[i - text_of(st).len()]);
    }
}

/// Children rendered between settings changes that keep the text and the
/// modifiers `m` add only words carrying `m`.
proof fn lemma_around(a: RenderState, inner: RenderState, inner_end: RenderState, out: RenderState, m: u16)
    requires
        text_of(inner) == text_of(a),
        adds_marked(inner, inner_end, m),
        text_of(out) == text_of(inner_end),
    ensures
        adds_marked(a, out, m),
{
    lemma_marked_same(a, inner, m);
    lemma_marked_trans(a, inner, inner_end, m);
    lemma_marked_same(inner_end, out, m);
    lemma_marked_trans(a, inner_end, out, m);
}

/// Rendering the first `k` children of a node that leave italics on, in
/// italics, adds only italic words and leaves italics on.
proof fn lemma_children_italic(st: RenderState, nodes: Seq<DocNode>, n: usize, k: int)
    requires
        nodes.len() <= usize::MAX,
        n < nodes.len(),
        k <= children_of(nodes, n).len(),
        children_keep_italic(nodes, n, children_of(nodes, n).len() as int),
        st.style.add_modifier & ITALIC == ITALIC,
    ensures
        adds_marked(st, rendered_children(st, nodes, n, k), ITALIC),
        rendered_children(st, nodes, n, k).style.add_modifier & ITALIC == ITALIC,
    decreases nodes.len() - n, 0int, k,
{
    if k <= 0 {
        lemma_marked_same(st, st, ITALIC);
    } else {
        lemma_children_keep_prefix(nodes, n, children_of(nodes, n).len() as int, k);
        lemma_children_italic(st, nodes, n, k - 1);
        let s = rendered_children(st, nodes, n, k - 1);
        let c = children_of(nodes, n)[k - 1];
        if below(nodes, n, c) {
            lemma_node_italic(s, nodes, c);
            lemma_marked_trans(st, s, rendered_node(s, nodes, c), ITALIC);
        }
    }
}

/// A prefix of children that leave italics on leaves them on.
proof fn lemma_children_keep_prefix(nodes: Seq<DocNode>, n: usize, k: int, j: int)
    requires
        children_keep_italic(nodes, n, k),
        0 < j <= k <= children_of(nodes, n).len(),
        n < nodes.len(),
    ensures
        children_keep_italic(nodes, n, j),
        below(nodes, n, children_of(nodes, n)[j - 1]) ==> keeps_italic(nodes, children_of(nodes, n)[j - 1]),
    decreases k,
{
    if j < k {
        lemma_children_keep_prefix(nodes, n, k - 1, j);
    }
}

/// All children of such a node, rendered in italics.
proof fn lemma_all_children_italic(st: RenderState, nodes: Seq<DocNode>, n: usize)
    requires
        nodes.len() <= usize::MAX,
        n < nodes.len(),
        children_keep_italic(nodes, n, children_of(nodes, n).len() as int),
        st.style.add_modifier & ITALIC == ITALIC,
    ensures
        adds_marked(st, all_children(st, nodes, n), ITALIC),
        all_children(st, nodes, n).style.add_modifier & ITALIC == ITALIC,
    decreases nodes.len() - n, 1int, 0int,
{
    lemma_children_italic(st, nodes, n, children_of(nodes, n).len() as int);
}

/// A block whose children leave italics on, rendered in italics.
proof fn lemma_block_italic(st: RenderState, nodes: Seq<DocNode>, n: usize)
    requires
        nodes.len() <= usize::MAX,
        n < nodes.len(),
        children_keep_italic(nodes, n, children_of(nodes, n).len() as int),
        st.style.add_modifier & ITALIC == ITALIC,
    ensures
        adds_marked(st, rendered_block(st, nodes, n), ITALIC),
        rendered_block(st, nodes, n).style.add_modifier & ITALIC == ITALIC,
    decreases nodes.len() - n, 5int, 0int,
{
    let s0 = st.with_empty_line_ensured();
    lemma_quiet_ops(st);
    let s1 = all_children(s0, nodes, n);
    lemma_all_children_italic(s0, nodes, n);
    lemma_quiet_ops(s1);
    lemma_around(st, s0, s1, s1.with_empty_line_ensured(), ITALIC);
}

/// Rendering in italics a node that leaves italics on adds only italic
/// words, and italics stay on.
#[verifier::spinoff_prover]
#[verifier::rlimit(60)]
proof fn lemma_node_italic(st: RenderState, nodes: Seq<DocNode>, n: usize)
    requires
        nodes.len() <= usize::MAX,
        keeps_italic(nodes, n),
        st.style.add_modifier & ITALIC == ITALIC,
    ensures
        adds_marked(st, rendered_node(st, nodes, n), ITALIC),
        rendered_node(st, nodes, n).style.add_modifier & ITALIC == ITALIC,
    decreases nodes.len() - n, 7int, 0int,
{
    let a = st.style.add_modifier;
    lemma_bits_italic(ITALIC);
    match nodes[n as int].data {
        Data::Section { .. } | Data::Division | Data::Paragraph | Data::Hatnote | Data::RedirectMessage
        | Data::DescriptionList => lemma_block_italic(st, nodes, n),
        Data::Header { kind, .. } => {
            let major = crate::layout::is_major(kind);
            let s0 = st.with_empty_line_ensured();
            lemma_quiet_ops(st);
            let s1 = if !major { s0.with_style(style_with_modifier(s0.style, BOLD)) } else { s0 };
            lemma_quiet_ops(s0);
            lemma_bits_or_keeps(a, BOLD, ITALIC);
            let s2 = s1.with_style(style_with_fg(s1.style, Color::Red));
            lemma_quiet_ops(s1);
            let s3 = all_children(s2, nodes, n);
            lemma_all_children_italic(s2, nodes, n);
            let s4 = if !major { s3.with_style(style_without_modifier(s3.style, BOLD)) } else { s3 };
            lemma_quiet_ops(s3);
            lemma_bits_andnot_keeps(s3.style.add_modifier, BOLD, ITALIC);
            let s5 = s4.with_style(style_without_fg(s4.style));
            lemma_quiet_ops(s4);
            lemma_quiet_ops(s5);
            lemma_quiet_ops(s5.cleared());
            let s6 = if major { s5.cleared().with_horizontal_line() } else { s5 };
            lemma_quiet_ops(s6);
            lemma_around(st, s2, s3, s6.with_empty_line_ensured(), ITALIC);
        },
        Data::Text { contents } => {
            let s = st.with_string(contents@, n);
            lemma_string_marked(st, contents@, n, ITALIC);
            lemma_all_children_italic(s, nodes, n);
            lemma_marked_trans(st, s, all_children(s, nodes, n), ITALIC);
        },
        Data::Span => {
            let s = all_children(st, nodes, n);
            lemma_all_children_italic(st, nodes, n);
            lemma_quiet_ops(s);
            lemma_around(st, st, s, s.with_whitespace(), ITALIC);
        },
        Data::Blockquote => {
            let s0 = st.with_padding_added(crate::layout::BLOCKQUOTE_PADDING);
            lemma_quiet_ops(st);
            let s1 = rendered_block(s0, nodes, n);
            lemma_block_italic(s0, nodes, n);
            lemma_quiet_ops(s1);
            lemma_around(st, s0, s1, s1.with_padding_removed(crate::layout::BLOCKQUOTE_PADDING), ITALIC);
        },
        Data::OrderedList | Data::UnorderedList => {
            let s0 = st.with_empty_line_ensured();
            lemma_quiet_ops(st);
            let s1 = s0.with_padding_added(crate::layout::LIST_PADDING);
            lemma_quiet_ops(s0);
            let s2 = all_children(s1, nodes, n);
            lemma_all_children_italic(s1, nodes, n);
            let s3 = s2.with_padding_removed(crate::layout::LIST_PADDING);
            lemma_quiet_ops(s2);
            lemma_quiet_ops(s3);
            lemma_around(st, s1, s2, s3.with_empty_line_ensured(), ITALIC);
        },
        Data::ListItem => {
            let s0 = st.cleared();
            lemma_quiet_ops(st);
            let mid = RenderState { current: s0.current.push(crate::layout::bullet_word(s0.padding)), ..s0 };
            assert(mid.current.drop_last() =~= s0.current);
            assert(text_of(mid) == text_of(s0));
            let s1 = mid.with_padding_added(2);
            lemma_quiet_ops(mid);
            let s2 = all_children(s1, nodes, n);
            lemma_all_children_italic(s1, nodes, n);
            let s3 = s2.with_padding_removed(2);
            lemma_quiet_ops(s2);
            lemma_quiet_ops(s3);
            lemma_around(st, s1, s2, s3.cleared(), ITALIC);
        },
        Data::DescriptionListTerm | Data::DerscriptionListDescription => {
            let s0 = st.cleared();
            lemma_quiet_ops(st);
            let s1 = all_children(s0, nodes, n);
            lemma_all_children_italic(s0, nodes, n);
            lemma_quiet_ops(s1);
            lemma_around(st, s0, s1, s1.cleared(), ITALIC);
        },
        Data::Bold => {
            let s1 = st.with_style(style_with_modifier(st.style, BOLD));
            lemma_quiet_ops(st);
            lemma_bits_or_keeps(a, BOLD, ITALIC);
            let s2 = all_children(s1, nodes, n);
            lemma_all_children_italic(s1, nodes, n);
            let s3 = s2.with_style(style_without_modifier(s2.style, BOLD));
            lemma_quiet_ops(s2);
            lemma_bits_andnot_keeps(s2.style.add_modifier, BOLD, ITALIC);
            lemma_quiet_ops(s3);
            lemma_around(st, s1, s2, s3.with_whitespace(), ITALIC);
        },
        Data::Linebreak => {
            let s0 = st.cleared();
            lemma_quiet_ops(st);
            let s1 = all_children(s0, nodes, n);
            lemma_all_children_italic(s0, nodes, n);
            lemma_around(st, s0, s1, s1, ITALIC);
        },
        Data::Link(link) => {
            let s = RenderState { links: st.links.push((st.lines.len() as usize, n)), ..st };
            assert(text_of(s) == text_of(st));
            let s1 = s.with_style(style_with_fg(s.style, Color::Blue));
            lemma_quiet_ops(s);
            let s2 = all_children(s1, nodes, n);
            lemma_all_children_italic(s1, nodes, n);
            let s3 = s2.with_style(style_without_fg(s2.style));
            lemma_quiet_ops(s2);
            lemma_quiet_ops(s3);
            lemma_around(st, s1, s2, s3.with_whitespace(), ITALIC);
        },
        Data::Unknown | Data::TableRow | Data::TableCell { .. } => lemma_all_children_italic(st, nodes, n),
        _ => {},
    }
}

/// Italic text is italic: every word of text that an italic node shows
/// carries the italic modifier, whatever style it starts from, when no node
/// below it takes italics off again (another italic part, a reference or
/// styled link, a disambiguation note, an image, a placeholder) or renders
/// apart (a table).
pub proof fn lemma_italic_words(st: RenderState, nodes: Seq<DocNode>, n: usize)
    requires
        nodes.len() <= usize::MAX,
        n < nodes.len(),
        nodes[n as int].data is Italic,
        children_keep_italic(nodes, n, children_of(nodes, n).len() as int),
    ensures
        adds_marked(st, rendered_node(st, nodes, n), ITALIC),
{
    lemma_bits_italic(ITALIC);
    let s1 = st.with_style(style_with_modifier(st.style, ITALIC));
    lemma_quiet_ops(st);
    lemma_bits_or_adds(st.style.add_modifier, ITALIC);
    let s2 = s1.with_style(style_with_fg(s1.style, Color::Blue));
    lemma_quiet_ops(s1);
    let s3 = all_children(s2, nodes, n);
    lemma_all_children_italic(s2, nodes, n);
    let s4 = s3.with_style(style_without_fg(s3.style));
    lemma_quiet_ops(s3);
    let s5 = s4.with_style(style_without_modifier(s4.style, ITALIC));
    lemma_quiet_ops(s4);
    lemma_quiet_ops(s5);
    lemma_around(st, s2, s3, s5.with_whitespace(), ITALIC);
}

} // verus!
