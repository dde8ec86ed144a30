//! Rendering keeps the text: laid out, a part of a document without tables
//! shows every word of its text, its image labels and its placeholders,
//! each with the node it came from, in document order, after everything
//! shown before.

use vstd::prelude::*;
use crate::document::{Data, DocNode, Link};
use crate::laws::{
    text_of, text_words, lemma_text_words_add, lemma_cleared_text, lemma_prepared_text, lemma_laid_out_text,
    lemma_text_words_all_text,
};
use crate::layout::{
    all_children, below, children_of, image_label, rendered_block, rendered_children, rendered_node,
    rendered_styled, unsupported_message,
};
use crate::renderer::{RenderState, string_words, fragments};
use crate::style::Color;
use crate::text::words_of;
use crate::word::{WordView, NO_NODE, blank_word};
use crate::wrap::{optimal_fit_line_lengths, covering, lemma_covering};

verus! {

/// A word as the reader sees it: the node it shows and its characters.
pub open spec fn shown(words: Seq<WordView>) -> Seq<(usize, Seq<char>)> {
    words.map_values(|w: WordView| (w.index, w.content))
}

/// The words of `content`, each with node `n`.
pub open spec fn words_of_node(content: Seq<char>, n: usize) -> Seq<(usize, Seq<char>)> {
    words_of(content).map_values(|w: Seq<char>| (n, w))
}

/// Whether no table is at or below node `n`.
pub open spec fn table_free(nodes: Seq<DocNode>, n: usize) -> bool
    decreases nodes.len() - n, 1int, 0int,
{
    n < nodes.len() && !(nodes[n as int].data is Table) && children_table_free(
        nodes,
        n,
        children_of(nodes, n).len() as int,
    )
}

/// Whether no table is at or below the first `k` children of node `n`.
pub open spec fn children_table_free(nodes: Seq<DocNode>, n: usize, k: int) -> bool
    decreases nodes.len() - n, 0int, k,
{
    if n >= nodes.len() || k <= 0 || k > children_of(nodes, n).len() {
        true
    } else {
        let c = children_of(nodes, n)[k - 1];
        children_table_free(nodes, n, k - 1) && (below(nodes, n, c) ==> table_free(nodes, c))
    }
}

/// The text that node `n` shows: its own words, then its children's.
pub open spec fn node_text(nodes: Seq<DocNode>, n: usize) -> Seq<(usize, Seq<char>)>
    decreases nodes.len() - n, 1int, 0int,
{
    if n >= nodes.len() {
        seq![]
    } else {
        let children = children_text(nodes, n, children_of(nodes, n).len() as int);
        match nodes[n as int].data {
            Data::Text { contents } => words_of_node(contents@, n) + children,
            Data::Image(image) => words_of_node(image_label(image.alt@), n),
            Data::Unsupported(e) => words_of_node(unsupported_message(e), n),
            Data::UnsupportedInline(_) => words_of_node("[x]"@, n),
            Data::Table => seq![],
            _ => children,
        }
    }
}

/// The text that the first `k` children of node `n` show.
pub open spec fn children_text(nodes: Seq<DocNode>, n: usize, k: int) -> Seq<(usize, Seq<char>)>
    decreases nodes.len() - n, 0int, k,
{
    if n >= nodes.len() || k <= 0 || k > children_of(nodes, n).len() {
        seq![]
    } else {
        let c = children_of(nodes, n)[k - 1];
        let before = children_text(nodes, n, k - 1);
        if below(nodes, n, c) {
            before + node_text(nodes, c)
        } else {
            before
        }
    }
}

/// Shown words of a concatenation.
pub proof fn lemma_shown_add(a: Seq<WordView>, b: Seq<WordView>)
    ensures
        shown(a + b) == shown(a) + shown(b),
{
    assert(shown(a + b) =~= shown(a) + shown(b));
}

/// The words of a string, as shown: its words with their node.
pub proof fn lemma_string_words_shown(content: Seq<char>, n: usize, style: crate::style::TextStyle)
    ensures
        shown(string_words(content, n, style)) == words_of_node(content, n),
        forall|i: int| 0 <= i < string_words(content, n, style).len() ==> {
            &&& (#[trigger] string_words(content, n, style)[i]).index == n
            &&& string_words(content, n, style)[i].whitespace_width <= 1
            &&& string_words(content, n, style)[i].penalty_width == 0
        },
{
    assert(shown(string_words(content, n, style)) =~= words_of_node(content, n));
}

/// Wrapping and appending words shows their text after the earlier text.
pub proof fn lemma_appended_text(st: RenderState, words: Seq<WordView>)
    ensures
        text_of(st.appended(words)) == text_of(st) + text_words(words),
{
    if words.len() == 0 {
        assert(text_words(words) =~= seq![]);
        assert(text_of(st) + seq![] =~= text_of(st));
    } else {
        let (s, left) = st.prepared(words[0].width);
        let first = if left < 0 { 0usize } else { left as usize };
        let f = fragments(words);
        let w = seq![first, st.width as usize];
        let lens = covering(optimal_fit_line_lengths(f, w), words.len());
        lemma_covering(optimal_fit_line_lengths(f, w), words.len());
        lemma_prepared_text(st, words[0].width);
        lemma_laid_out_text(s, words, lens);
    }
}

/// Rendering a string of node `n` adds its words, as `string_words` makes
/// them, after the earlier text.
pub proof fn lemma_string_text(st: RenderState, content: Seq<char>, n: usize)
    requires
        n != NO_NODE,
    ensures
        text_of(st.with_string(content, n)) == text_of(st) + string_words(content, n, st.style),
        shown(text_of(st.with_string(content, n))) == shown(text_of(st)) + words_of_node(content, n),
{
    let s = if crate::renderer::starts_special(content) && st.last_is_whitespace() {
        RenderState { current: st.current.drop_last(), ..st }
    } else {
        st
    };
    assert(text_of(s) == text_of(st));
    let words = string_words(content, n, st.style);
    lemma_string_words_shown(content, n, st.style);
    lemma_appended_text(s, words);
    lemma_text_words_all_text(words);
    lemma_shown_add(text_of(s), words);
}

/// Operations that add no text words keep the text.
pub proof fn lemma_quiet_ops(st: RenderState)
    ensures
        text_of(st.with_whitespace()) == text_of(st),
        text_of(st.cleared()) == text_of(st),
        text_of(st.with_empty_line()) == text_of(st),
        text_of(st.with_empty_line_ensured()) == text_of(st),
        text_of(st.with_horizontal_line()) == text_of(st),
        forall|s: crate::style::TextStyle| #[trigger] text_of(st.with_style(s)) == text_of(st),
        forall|p: u8| #[trigger] text_of(st.with_padding_added(p)) == text_of(st),
        forall|p: u8| #[trigger] text_of(st.with_padding_removed(p)) == text_of(st),
        forall|p: Option<char>| #[trigger] text_of(st.with_prefix(p)) == text_of(st),
{
    lemma_cleared_text(st);
    if !st.last_is_whitespace() {
        assert(st.current.push(blank_word(1)).drop_last() =~= st.current);
    }
    let c = st.cleared();
    assert(c.lines.push(seq![]).drop_last() =~= c.lines);
    assert(text_words(seq![]) =~= seq![]);
    assert(text_of(st.with_empty_line()) =~= text_of(c));
    let n = (st.width - st.current_width()) as nat;
    let rule = WordView {
        index: NO_NODE,
        content: crate::renderer::rule_chars(n),
        style: st.style,
        width: n as usize,
        whitespace_width: 0,
        penalty_width: 0,
    };
    let m = RenderState { current: st.current.push(rule), ..st };
    assert(m.current.drop_last() =~= st.current);
    lemma_cleared_text(m);
}

/// Rendering all children of a table-free node shows their text.
pub proof fn lemma_all_children_text(st: RenderState, nodes: Seq<DocNode>, n: usize)
    requires
        nodes.len() <= usize::MAX,
        table_free(nodes, n),
    ensures
        shown(text_of(all_children(st, nodes, n))) == shown(text_of(st)) + children_text(
            nodes,
            n,
            children_of(nodes, n).len() as int,
        ),
    decreases nodes.len() - n, 1int, 0int,
{
    lemma_children_text(st, nodes, n, children_of(nodes, n).len() as int);
}

/// Rendering the first `k` children of a table-free node shows their text.
pub proof fn lemma_children_text(st: RenderState, nodes: Seq<DocNode>, n: usize, k: int)
    requires
        nodes.len() <= usize::MAX,
        n < nodes.len(),
        k <= children_of(nodes, n).len(),
        children_table_free(nodes, n, children_of(nodes, n).len() as int),
    ensures
        shown(text_of(rendered_children(st, nodes, n, k))) == shown(text_of(st)) + children_text(nodes, n, k),
    decreases nodes.len() - n, 0int, k,
{
    if k <= 0 {
        assert(shown(text_of(st)) + seq![] =~= shown(text_of(st)));
    } else {
        lemma_children_table_free_prefix(nodes, n, children_of(nodes, n).len() as int, k);
        lemma_children_text(st, nodes, n, k - 1);
        let s = rendered_children(st, nodes, n, k - 1);
        let c = children_of(nodes, n)[k - 1];
        if below(nodes, n, c) {
            lemma_node_text(s, nodes, c);
            assert(shown(text_of(st)) + children_text(nodes, n, k - 1) + node_text(nodes, c) =~= shown(
                text_of(st),
            ) + children_text(nodes, n, k));
        }
    }
}

/// A prefix of table-free children is table-free.
pub proof fn lemma_children_table_free_prefix(nodes: Seq<DocNode>, n: usize, k: int, j: int)
    requires
        children_table_free(nodes, n, k),
        0 < j <= k <= children_of(nodes, n).len(),
        n < nodes.len(),
    ensures
        children_table_free(nodes, n, j),
        below(nodes, n, children_of(nodes, n)[j - 1]) ==> table_free(nodes, children_of(nodes, n)[j - 1]),
    decreases k,
{
    if j < k {
        lemma_children_table_free_prefix(nodes, n, k - 1, j);
    }
}

/// A block element shows its children's text.
pub proof fn lemma_block_text(st: RenderState, nodes: Seq<DocNode>, n: usize)
    requires
        nodes.len() <= usize::MAX,
        table_free(nodes, n),
    ensures
        shown(text_of(rendered_block(st, nodes, n))) == shown(text_of(st)) + children_text(
            nodes,
            n,
            children_of(nodes, n).len() as int,
        ),
    decreases nodes.len() - n, 5int, 0int,
{
    let s0 = st.with_empty_line_ensured();
    lemma_quiet_ops(st);
    lemma_all_children_text(s0, nodes, n);
    lemma_quiet_ops(all_children(s0, nodes, n));
}

/// Children rendered in a style show their text.
pub proof fn lemma_styled_text(st: RenderState, nodes: Seq<DocNode>, n: usize, modifier: u16, color: Option<Color>)
    requires
        nodes.len() <= usize::MAX,
        table_free(nodes, n),
    ensures
        shown(text_of(rendered_styled(st, nodes, n, modifier, color))) == shown(text_of(st)) + children_text(
            nodes,
            n,
            children_of(nodes, n).len() as int,
        ),
    decreases nodes.len() - n, 5int, 0int,
{
    let s1 = st.with_style(crate::style::style_with_modifier(st.style, modifier));
    lemma_quiet_ops(st);
    let s2 = match color {
        Some(c) => s1.with_style(crate::style::style_with_fg(s1.style, c)),
        None => s1,
    };
    lemma_quiet_ops(s1);
    let s3 = all_children(s2, nodes, n);
    lemma_all_children_text(s2, nodes, n);
    let s4 = match color {
        Some(c) => s3.with_style(crate::style::style_without_fg(s3.style)),
        None => s3,
    };
    lemma_quiet_ops(s3);
    let s5 = s4.with_style(crate::style::style_without_modifier(s4.style, modifier));
    lemma_quiet_ops(s4);
    lemma_quiet_ops(s5);
}

/// An image shows its label, with the node, after the earlier text.
pub proof fn lemma_image_text(st: RenderState, nodes: Seq<DocNode>, n: usize)
    requires
        n < nodes.len(),
        nodes.len() <= usize::MAX,
        nodes[n as int].data is Image,
    ensures
        shown(text_of(rendered_node(st, nodes, n))) == shown(text_of(st)) + node_text(nodes, n),
{
    let image = nodes[n as int].data->Image_0;
    let s0 = st.with_empty_line_ensured();
    lemma_quiet_ops(st);
    let s1 = s0.with_style(crate::style::style_with_modifier(s0.style, crate::style::ITALIC | crate::style::UNDERLINED));
    lemma_quiet_ops(s0);
    let s2 = s1.with_style(crate::style::style_with_fg(s1.style, Color::Blue));
    lemma_quiet_ops(s1);
    let s3 = s2.with_string(image_label(image.alt@), n);
    lemma_string_text(s2, image_label(image.alt@), n);
    let s4 = s3.with_style(crate::style::style_without_fg(s3.style));
    lemma_quiet_ops(s3);
    let s5 = s4.with_style(crate::style::style_without_modifier(s4.style, crate::style::ITALIC | crate::style::UNDERLINED));
    lemma_quiet_ops(s4);
    lemma_quiet_ops(s5);
}

/// A placeholder for an unsupported element shows its message, with the
/// node, after the earlier text: `[x]` inline, otherwise the element's
/// message.
pub proof fn lemma_unsupported_text(st: RenderState, inline: bool, e: crate::document::UnsupportedElement, n: usize)
    requires
        n != NO_NODE,
    ensures
        shown(text_of(st.with_unsupported(inline, e, n))) == shown(text_of(st)) + words_of_node(
            if inline { "[x]"@ } else { unsupported_message(e) },
            n,
        ),
{
    if inline {
        let s0 = st.with_style(crate::style::style_with_modifier(st.style, crate::style::ITALIC));
        lemma_quiet_ops(st);
        let s1 = s0.with_whitespace();
        lemma_quiet_ops(s0);
        let s1b = s1.with_style(crate::style::style_with_fg(s1.style, Color::DarkGray));
        lemma_quiet_ops(s1);
        let s2 = s1b.with_string("[x]"@, n);
        lemma_string_text(s1b, "[x]"@, n);
        let s2b = s2.with_style(crate::style::style_without_fg(s2.style));
        lemma_quiet_ops(s2);
        let s3 = s2b.with_whitespace();
        lemma_quiet_ops(s2b);
        lemma_quiet_ops(s3);
    } else {
        let s0 = st.with_empty_line_ensured();
        lemma_quiet_ops(st);
        let s0b = s0.with_style(crate::style::style_with_modifier(s0.style, crate::style::ITALIC));
        lemma_quiet_ops(s0);
        let s1 = s0b.with_string(unsupported_message(e), n);
        lemma_string_text(s0b, unsupported_message(e), n);
        let s1b = s1.with_style(crate::style::style_without_modifier(s1.style, crate::style::ITALIC));
        lemma_quiet_ops(s1);
        lemma_quiet_ops(s1b);
    }
}

/// Rendering a table-free node shows its text after everything shown
/// before: the words of its text, image label or placeholder, each with
/// the node, then its children's, in document order.
#[verifier::spinoff_prover]
#[verifier::rlimit(60)]
pub proof fn lemma_node_text(st: RenderState, nodes: Seq<DocNode>, n: usize)
    requires
        nodes.len() <= usize::MAX,
        table_free(nodes, n),
    ensures
        shown(text_of(rendered_node(st, nodes, n))) == shown(text_of(st)) + node_text(nodes, n),
    decreases nodes.len() - n, 7int, 0int,
{
    let kids = children_text(nodes, n, children_of(nodes, n).len() as int);
    match nodes[n as int].data {
        Data::Section { .. } | Data::Division | Data::Paragraph | Data::Hatnote | Data::RedirectMessage
        | Data::DescriptionList => {
            lemma_block_text(st, nodes, n);
        },
        Data::Header { kind, .. } => {
            let s0 = st.with_empty_line_ensured();
            lemma_quiet_ops(st);
            let s1 = if !crate::layout::is_major(kind) { s0.with_style(crate::style::style_with_modifier(s0.style, crate::style::BOLD)) } else { s0 };
            lemma_quiet_ops(s0);
            let s2 = s1.with_style(crate::style::style_with_fg(s1.style, Color::Red));
            lemma_quiet_ops(s1);
            let s3 = all_children(s2, nodes, n);
            lemma_all_children_text(s2, nodes, n);
            let s4 = if !crate::layout::is_major(kind) { s3.with_style(crate::style::style_without_modifier(s3.style, crate::style::BOLD)) } else { s3 };
            lemma_quiet_ops(s3);
            let s5 = s4.with_style(crate::style::style_without_fg(s4.style));
            lemma_quiet_ops(s4);
            lemma_quiet_ops(s5);
            lemma_quiet_ops(s5.cleared());
            let s6 = if crate::layout::is_major(kind) { s5.cleared().with_horizontal_line() } else { s5 };
            lemma_quiet_ops(s6);
        },
        Data::Text { contents } => {
            let s = st.with_string(contents@, n);
            lemma_string_text(st, contents@, n);
            lemma_all_children_text(s, nodes, n);
            assert(shown(text_of(st)) + words_of_node(contents@, n) + kids =~= shown(text_of(st)) + (
            words_of_node(contents@, n) + kids));
        },
        Data::Span => {
            lemma_all_children_text(st, nodes, n);
            lemma_quiet_ops(all_children(st, nodes, n));
        },
        Data::Reflink => lemma_styled_text(st, nodes, n, crate::style::ITALIC, Some(Color::Gray)),
        Data::Disambiguation => {
            let s0 = st.with_empty_line_ensured();
            lemma_quiet_ops(st);
            let t1 = s0.with_style(crate::style::style_with_modifier(s0.style, crate::style::ITALIC));
            lemma_quiet_ops(s0);
            let t2 = t1.with_padding_added(crate::layout::DISAMBIGUATION_PADDING);
            lemma_quiet_ops(t1);
            let s1 = t2.with_prefix(Some(crate::layout::DISAMBIGUATION_PREFIX));
            lemma_quiet_ops(t2);
            let s2 = all_children(s1, nodes, n);
            lemma_all_children_text(s1, nodes, n);
            let t3 = s2.with_prefix(None);
            lemma_quiet_ops(s2);
            let s3 = t3.with_padding_removed(crate::layout::DISAMBIGUATION_PADDING);
            lemma_quiet_ops(t3);
            let s4 = s3.with_style(crate::style::style_without_modifier(s3.style, crate::style::ITALIC));
            lemma_quiet_ops(s3);
            lemma_quiet_ops(s4);
        },
        Data::Blockquote => {
            let s0 = st.with_padding_added(crate::layout::BLOCKQUOTE_PADDING);
            lemma_quiet_ops(st);
            lemma_block_text(s0, nodes, n);
            lemma_quiet_ops(rendered_block(s0, nodes, n));
        },
        Data::OrderedList | Data::UnorderedList => {
            let s0 = st.with_empty_line_ensured();
            lemma_quiet_ops(st);
            let s1 = s0.with_padding_added(crate::layout::LIST_PADDING);
            lemma_quiet_ops(s0);
            let s2 = all_children(s1, nodes, n);
            lemma_all_children_text(s1, nodes, n);
            let s3 = s2.with_padding_removed(crate::layout::LIST_PADDING);
            lemma_quiet_ops(s2);
            lemma_quiet_ops(s3);
        },
        Data::ListItem => {
            let s0 = st.cleared();
            lemma_quiet_ops(st);
            let m = RenderState { current: s0.current.push(crate::layout::bullet_word(s0.padding)), ..s0 };
            assert(m.current.drop_last() =~= s0.current);
            assert(text_of(m) == text_of(s0));
            let s1 = m.with_padding_added(2);
            lemma_quiet_ops(m);
            let s2 = all_children(s1, nodes, n);
            lemma_all_children_text(s1, nodes, n);
            let s3 = s2.with_padding_removed(2);
            lemma_quiet_ops(s2);
            lemma_quiet_ops(s3);
        },
        Data::DescriptionListTerm | Data::DerscriptionListDescription => {
            let s0 = st.cleared();
            lemma_quiet_ops(st);
            lemma_all_children_text(s0, nodes, n);
            lemma_quiet_ops(all_children(s0, nodes, n));
        },
        Data::Bold => {
            let s1 = st.with_style(crate::style::style_with_modifier(st.style, crate::style::BOLD));
            lemma_quiet_ops(st);
            let s2 = all_children(s1, nodes, n);
            lemma_all_children_text(s1, nodes, n);
            let s3 = s2.with_style(crate::style::style_without_modifier(s2.style, crate::style::BOLD));
            lemma_quiet_ops(s2);
            lemma_quiet_ops(s3);
        },
        Data::Italic => lemma_styled_text(st, nodes, n, crate::style::ITALIC, Some(Color::Blue)),
        Data::Linebreak => {
            let s0 = st.cleared();
            lemma_quiet_ops(st);
            lemma_all_children_text(s0, nodes, n);
        },
        Data::Link(link) => {
            let s = RenderState { links: st.links.push((st.lines.len() as usize, n)), ..st };
            assert(text_of(s) == text_of(st));
            match link {
                Link::Internal | Link::Anchor => {
                    let s1 = s.with_style(crate::style::style_with_fg(s.style, Color::Blue));
                    lemma_quiet_ops(s);
                    let s2 = all_children(s1, nodes, n);
                    lemma_all_children_text(s1, nodes, n);
                    let s3 = s2.with_style(crate::style::style_without_fg(s2.style));
                    lemma_quiet_ops(s2);
                    lemma_quiet_ops(s3);
                },
                Link::RedLink => lemma_styled_text(s, nodes, n, crate::style::ITALIC, Some(Color::Red)),
                Link::MediaLink => lemma_styled_text(s, nodes, n, crate::style::ITALIC, Some(Color::Blue)),
                Link::External | Link::ExternalToInternal => lemma_styled_text(s, nodes, n, crate::style::ITALIC, None),
            }
        },
        Data::Unknown | Data::TableRow | Data::TableCell { .. } => lemma_all_children_text(st, nodes, n),
        Data::Image(_) => lemma_image_text(st, nodes, n),
        Data::Table => {},
        Data::Unsupported(e) => lemma_unsupported_text(st, false, e, n),
        Data::UnsupportedInline(e) => lemma_unsupported_text(st, true, e, n),
    }
}

/// A rendered document without tables shows all the text of its root, in
/// order, on its finished lines and the line still being filled.
pub proof fn lemma_document_text(nodes: Seq<DocNode>, width: u16)
    requires
        nodes.len() <= usize::MAX,
        nodes.len() > 0,
        table_free(nodes, 0),
    ensures
        shown(text_of(crate::layout::document_rendering(nodes, width))) == node_text(nodes, 0),
{
    let start = RenderState::initial(width, crate::style::plain_style());
    lemma_node_text(start, nodes, 0);
    assert(text_of(start) =~= seq![]);
    assert(shown(text_of(start)) =~= seq![]);
    assert(seq![] + node_text(nodes, 0) =~= node_text(nodes, 0));
}

} // verus!
