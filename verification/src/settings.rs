//! Rendering a node hands its settings back: whatever padding, prefix,
//! colour and text modifiers a node sets for its children are taken back
//! before the next node comes, so the padding and width are as before, the
//! foreground colour and prefix are as before or gone, and no text modifier
//! is left on that was not on before.

use vstd::prelude::*;
use crate::document::{Data, DocNode, Link};
use crate::layout::{
    BorderPos, all_children, below, children_of, rendered_block, rendered_children, rendered_node, rendered_row,
    rendered_rows, rendered_styled, rendered_table, bullet_word, DISAMBIGUATION_PADDING, DISAMBIGUATION_PREFIX,
    BLOCKQUOTE_PADDING, LIST_PADDING,
};
use crate::renderer::RenderState;
use crate::style::{Color, BOLD, ITALIC, UNDERLINED, style_with_modifier, style_without_modifier, style_with_fg, style_without_fg};
use crate::word::WordView;

verus! {

/// `b` has `a`'s settings or fewer: the same width, padding and background
/// colour, the foreground colour and the line prefix kept or gone, and no
/// added text modifier that `a` did not add.
pub open spec fn keeps_settings(a: RenderState, b: RenderState) -> bool {
    &&& b.width == a.width
    &&& b.padding == a.padding
    &&& b.style.bg == a.style.bg
    &&& (b.style.fg == a.style.fg || b.style.fg is None)
    &&& (b.prefix == a.prefix || b.prefix is None)
    &&& b.style.add_modifier & !a.style.add_modifier == 0
}

/// `b` has exactly `a`'s settings.
pub open spec fn same_settings(a: RenderState, b: RenderState) -> bool {
    &&& b.width == a.width
    &&& b.style == a.style
    &&& b.padding == a.padding
    &&& b.prefix == a.prefix
}

/// The padding a node adds for its own children.
pub open spec fn own_padding(d: Data) -> nat {
    match d {
        Data::Disambiguation => DISAMBIGUATION_PADDING as nat,
        Data::Blockquote => BLOCKQUOTE_PADDING as nat,
        Data::OrderedList | Data::UnorderedList => LIST_PADDING as nat,
        Data::ListItem => 2,
        _ => 0,
    }
}

/// Whether a node renders its children into the same state: all but
/// tables (whose cells are rendered apart), images and placeholders.
pub open spec fn renders_children(d: Data) -> bool {
    !(d is Table || d is Image || d is Unsupported || d is UnsupportedInline)
}

/// The most padding that node `n` and the nodes below it add along any
/// path down the tree.
pub open spec fn padding_depth(nodes: Seq<DocNode>, n: usize) -> nat
    decreases nodes.len() - n, 1int, 0int,
{
    if n >= nodes.len() {
        0
    } else {
        let d = nodes[n as int].data;
        own_padding(d) + if renders_children(d) {
            children_depth(nodes, n, children_of(nodes, n).len() as int)
        } else {
            0
        }
    }
}

/// The most padding that the first `k` children of node `n` add.
pub open spec fn children_depth(nodes: Seq<DocNode>, n: usize, k: int) -> nat
    decreases nodes.len() - n, 0int, k,
{
    if n >= nodes.len() || k <= 0 || k > children_of(nodes, n).len() {
        0
    } else {
        let c = children_of(nodes, n)[k - 1];
        let before = children_depth(nodes, n, k - 1);
        let here = if below(nodes, n, c) { padding_depth(nodes, c) } else { 0 };
        if before >= here { before } else { here }
    }
}

proof fn lemma_bits_refl(x: u16)
    by (bit_vector)
    ensures
        x & !x == 0,
{
}

proof fn lemma_bits_trans(a: u16, b: u16, c: u16)
    by (bit_vector)
    requires
        c & !b == 0,
        b & !a == 0,
    ensures
        c & !a == 0,
{
}

proof fn lemma_bits_round(a: u16, m: u16, s: u16)
    by (bit_vector)
    requires
        s & !(a | m) == 0,
    ensures
        (s & !m) & !a == 0,
{
}

proof fn lemma_bits_zero(x: u16)
    by (bit_vector)
    ensures
        x | 0 == x,
        x & !0u16 == x,
{
}

proof fn lemma_bits_none(x: u16)
    by (bit_vector)
    requires
        x & !0u16 == 0,
    ensures
        x == 0,
{
}

/// Keeping settings is reflexive.
pub proof fn lemma_keeps_refl(a: RenderState)
    ensures
        keeps_settings(a, a),
{
    lemma_bits_refl(a.style.add_modifier);
}

/// Keeping settings is transitive.
pub proof fn lemma_keeps_trans(a: RenderState, b: RenderState, c: RenderState)
    requires
        keeps_settings(a, b),
        keeps_settings(b, c),
    ensures
        keeps_settings(a, c),
{
    lemma_bits_trans(a.style.add_modifier, b.style.add_modifier, c.style.add_modifier);
}

/// The same settings are kept settings.
proof fn lemma_same_keeps(a: RenderState, b: RenderState)
    requires
        same_settings(a, b),
    ensures
        keeps_settings(a, b),
{
    lemma_bits_refl(a.style.add_modifier);
}

/// Kept settings followed by the same settings are kept settings.
proof fn lemma_keeps_same(a: RenderState, b: RenderState, c: RenderState)
    requires
        keeps_settings(a, b),
        same_settings(b, c),
    ensures
        keeps_settings(a, c),
{
}

/// Children rendered with a modifier `m` and possibly a foreground colour
/// put on, then the colour (if put on) and the modifier taken off, leave
/// `a`'s settings or fewer.
proof fn lemma_style_round(a: RenderState, s: RenderState, m: u16, colored: bool, t: RenderState)
    requires
        s.width == a.width,
        s.padding == a.padding,
        s.style.bg == a.style.bg,
        s.prefix == a.prefix || s.prefix is None,
        colored || s.style.fg == a.style.fg || s.style.fg is None,
        s.style.add_modifier & !(a.style.add_modifier | m) == 0,
        t == ({
            let s1 = if colored { s.with_style(style_without_fg(s.style)) } else { s };
            s1.with_style(style_without_modifier(s1.style, m))
        }),
    ensures
        keeps_settings(a, t),
{
    lemma_bits_round(a.style.add_modifier, m, s.style.add_modifier);
}

/// What only lays words and lines out keeps the settings as they are.
proof fn lemma_layout_same(a: RenderState)
    ensures
        same_settings(a, a.with_whitespace()),
        same_settings(a, a.cleared()),
        same_settings(a, a.with_empty_line()),
        same_settings(a, a.with_empty_line_ensured()),
        same_settings(a, a.with_horizontal_line()),
        forall|content: Seq<char>, index: usize| #[trigger] same_settings(a, a.with_string(content, index)),
        forall|count: nat, col_width: u16, pos: BorderPos| #[trigger] same_settings(
            a,
            a.with_border(count, col_width, pos),
        ),
{
}

/// The lines of a table row keep the settings.
proof fn lemma_row_lines_same(a: RenderState, cells: Seq<(Seq<Seq<WordView>>, usize)>, col_width: u16, k: nat)
    ensures
        same_settings(a, a.with_row_lines(cells, col_width, k)),
    decreases k,
{
    if k > 0 {
        lemma_row_lines_same(a, cells, col_width, (k - 1) as nat);
    }
}

/// The first `k` rows of a table keep the settings.
proof fn lemma_rows_same(a: RenderState, nodes: Seq<DocNode>, t: usize, rows: Seq<Seq<usize>>, count: nat, col_width: u16, k: int)
    ensures
        same_settings(a, rendered_rows(a, nodes, t, rows, count, col_width, k)),
    decreases k,
{
    if !(t >= nodes.len() || k <= 0 || k > rows.len()) {
        lemma_rows_same(a, nodes, t, rows, count, col_width, k - 1);
        let s = rendered_rows(a, nodes, t, rows, count, col_width, k - 1);
        let cells = crate::layout::merged_cells(crate::layout::row_cells(nodes, t, rows[k - 1], count, col_width));
        lemma_row_lines_same(s, cells, col_width, crate::layout::row_height(cells));
        let r = rendered_row(s, nodes, t, rows[k - 1], count, col_width);
        lemma_layout_same(r);
    }
}

/// A table keeps the settings: its cells are rendered apart.
proof fn lemma_table_same(a: RenderState, nodes: Seq<DocNode>, t: usize)
    ensures
        same_settings(a, rendered_table(a, nodes, t)),
{
    let s0 = a.with_empty_line_ensured();
    lemma_layout_same(a);
    lemma_layout_same(s0);
    let rows = crate::layout::rows_below(nodes, t);
    let count = crate::layout::column_count(nodes, rows);
    if !(t >= nodes.len() || count == 0) {
        let border_chars = (count as u16).wrapping_add(1);
        let available = a.width.saturating_sub(border_chars);
        let per_col = (available / (count as u16)) as u16;
        let col_width = if per_col >= 3 { per_col } else { 3u16 };
        let s1 = s0.with_border(count, col_width, BorderPos::Top);
        let s2 = rendered_rows(s1, nodes, t, rows, count, col_width, rows.len() as int);
        lemma_rows_same(s1, nodes, t, rows, count, col_width, rows.len() as int);
        let s3 = s2.with_border(count, col_width, BorderPos::Bottom);
        lemma_layout_same(s2);
        lemma_layout_same(s3);
    }
}

/// A placeholder for an unsupported element leaves the settings it found
/// or fewer.
proof fn lemma_unsupported_keeps(a: RenderState, inline: bool, e: crate::document::UnsupportedElement, index: usize)
    ensures
        keeps_settings(a, a.with_unsupported(inline, e, index)),
{
    if inline {
        let s0 = a.with_style(style_with_modifier(a.style, ITALIC));
        let s1 = s0.with_whitespace();
        lemma_layout_same(s0);
        let s1b = s1.with_style(style_with_fg(s1.style, Color::DarkGray));
        let s2 = s1b.with_string("[x]"@, index);
        lemma_layout_same(s1b);
        let s2b = s2.with_style(style_without_fg(s2.style));
        let s3 = s2b.with_whitespace();
        lemma_layout_same(s2b);
        lemma_bits_refl(s0.style.add_modifier);
        let t = s2b.with_style(style_without_modifier(s2b.style, ITALIC));
        lemma_style_round(a, s2, ITALIC, true, t);
        lemma_keeps_same(a, t, s3.with_style(style_without_modifier(s3.style, ITALIC)));
    } else {
        let s0 = a.with_empty_line_ensured();
        lemma_layout_same(a);
        let s0b = s0.with_style(style_with_modifier(s0.style, ITALIC));
        let s1 = s0b.with_string(crate::layout::unsupported_message(e), index);
        lemma_layout_same(s0b);
        lemma_bits_refl(s0b.style.add_modifier);
        let s1b = s1.with_style(style_without_modifier(s1.style, ITALIC));
        lemma_style_round(a, s1, ITALIC, false, s1b);
        lemma_layout_same(s1b);
        lemma_keeps_same(a, s1b, s1b.with_empty_line());
    }
}

/// Rendering the first `k` children of node `n` leaves the settings it
/// found or fewer, when their padding fits.
pub proof fn lemma_children_keep(a: RenderState, nodes: Seq<DocNode>, n: usize, k: int)
    requires
        a.padding + children_depth(nodes, n, k) <= u8::MAX,
    ensures
        keeps_settings(a, rendered_children(a, nodes, n, k)),
    decreases nodes.len() - n, 0int, k,
{
    if n >= nodes.len() || k <= 0 || k > children_of(nodes, n).len() {
        lemma_keeps_refl(a);
    } else {
        let s = rendered_children(a, nodes, n, k - 1);
        lemma_children_keep(a, nodes, n, k - 1);
        let c = children_of(nodes, n)[k - 1];
        if below(nodes, n, c) {
            lemma_node_keeps(s, nodes, c);
            lemma_keeps_trans(a, s, rendered_node(s, nodes, c));
        }
    }
}

/// Rendering all children of node `n` leaves the settings it found or
/// fewer, when their padding fits.
pub proof fn lemma_all_children_keep(a: RenderState, nodes: Seq<DocNode>, n: usize)
    requires
        n < nodes.len() ==> a.padding + children_depth(nodes, n, children_of(nodes, n).len() as int) <= u8::MAX,
    ensures
        keeps_settings(a, all_children(a, nodes, n)),
    decreases nodes.len() - n, 1int, 0int,
{
    if n >= nodes.len() {
        lemma_keeps_refl(a);
    } else {
        lemma_children_keep(a, nodes, n, children_of(nodes, n).len() as int);
    }
}

/// Children rendered with a modifier and possibly a colour put on, taken
/// off again afterwards, leave the settings found or fewer.
proof fn lemma_styled_keeps(a: RenderState, nodes: Seq<DocNode>, n: usize, modifier: u16, color: Option<Color>)
    requires
        n < nodes.len() ==> a.padding + children_depth(nodes, n, children_of(nodes, n).len() as int) <= u8::MAX,
    ensures
        keeps_settings(a, rendered_styled(a, nodes, n, modifier, color)),
    decreases nodes.len() - n, 5int, 0int,
{
    let s1 = a.with_style(style_with_modifier(a.style, modifier));
    let s2 = match color {
        Some(c) => s1.with_style(style_with_fg(s1.style, c)),
        None => s1,
    };
    let s3 = all_children(s2, nodes, n);
    lemma_all_children_keep(s2, nodes, n);
    lemma_bits_refl(s2.style.add_modifier);
    lemma_bits_trans(a.style.add_modifier | modifier, s2.style.add_modifier, s3.style.add_modifier);
    let s4 = match color {
        Some(c) => s3.with_style(style_without_fg(s3.style)),
        None => s3,
    };
    let s5 = s4.with_style(style_without_modifier(s4.style, modifier));
    lemma_style_round(a, s3, modifier, color is Some, s5);
    lemma_layout_same(s5);
    lemma_keeps_same(a, s5, s5.with_whitespace());
}

/// A block leaves the settings it found or fewer.
proof fn lemma_block_keeps(a: RenderState, nodes: Seq<DocNode>, n: usize)
    requires
        n < nodes.len() ==> a.padding + children_depth(nodes, n, children_of(nodes, n).len() as int) <= u8::MAX,
    ensures
        keeps_settings(a, rendered_block(a, nodes, n)),
    decreases nodes.len() - n, 5int, 0int,
{
    let s0 = a.with_empty_line_ensured();
    lemma_layout_same(a);
    lemma_same_keeps(a, s0);
    let s1 = all_children(s0, nodes, n);
    lemma_all_children_keep(s0, nodes, n);
    lemma_keeps_trans(a, s0, s1);
    lemma_layout_same(s1);
    lemma_keeps_same(a, s1, s1.with_empty_line_ensured());
}

/// A heading leaves the settings it found or fewer.
proof fn lemma_header_keeps(a: RenderState, nodes: Seq<DocNode>, n: usize)
    requires
        n < nodes.len(),
        nodes[n as int].data is Header,
        a.padding + padding_depth(nodes, n) <= u8::MAX,
    ensures
        keeps_settings(a, rendered_node(a, nodes, n)),
    decreases nodes.len() - n, 6int, 0int,
{
    let kind = nodes[n as int].data->kind;
    let major = crate::layout::is_major(kind);
    let s0 = a.with_empty_line_ensured();
    lemma_layout_same(a);
    let s1 = if !major { s0.with_style(style_with_modifier(s0.style, BOLD)) } else { s0 };
    let s2 = s1.with_style(style_with_fg(s1.style, Color::Red));
    let s3 = all_children(s2, nodes, n);
    lemma_all_children_keep(s2, nodes, n);
    let m: u16 = if major { 0 } else { BOLD };
    assert(s2.style.add_modifier & !(a.style.add_modifier | m) == 0) by {
        if major {
            lemma_bits_zero(a.style.add_modifier);
            lemma_bits_refl(a.style.add_modifier);
        } else {
            lemma_bits_refl(a.style.add_modifier | BOLD);
        }
    }
    lemma_bits_trans(a.style.add_modifier | m, s2.style.add_modifier, s3.style.add_modifier);
    let s4 = if !major { s3.with_style(style_without_modifier(s3.style, BOLD)) } else { s3 };
    let s5 = s4.with_style(style_without_fg(s4.style));
    if major {
        assert(s3.style.add_modifier & !(a.style.add_modifier | 0) == 0);
        lemma_bits_zero(a.style.add_modifier);
        lemma_bits_refl(a.style.add_modifier);
        assert(keeps_settings(a, s5));
    } else {
        let t = s3.with_style(style_without_fg(s3.style)).with_style(
            style_without_modifier(style_without_fg(s3.style), BOLD),
        );
        lemma_style_round(a, s3, BOLD, true, t);
        lemma_keeps_same(a, t, s5);
    }
    let s6 = if major { s5.cleared().with_horizontal_line() } else { s5 };
    lemma_layout_same(s5);
    lemma_layout_same(s5.cleared());
    lemma_keeps_same(a, s5, s6);
    lemma_layout_same(s6);
    lemma_keeps_same(a, s6, s6.with_empty_line_ensured());
}

/// A disambiguation note leaves the settings it found or fewer.
proof fn lemma_disambiguation_keeps(a: RenderState, nodes: Seq<DocNode>, n: usize)
    requires
        n < nodes.len(),
        nodes[n as int].data is Disambiguation,
        a.padding + padding_depth(nodes, n) <= u8::MAX,
    ensures
        keeps_settings(a, rendered_node(a, nodes, n)),
    decreases nodes.len() - n, 6int, 0int,
{
    let s0 = a.with_empty_line_ensured();
    lemma_layout_same(a);
    let s1 = s0.with_style(style_with_modifier(s0.style, ITALIC)).with_padding_added(
        DISAMBIGUATION_PADDING,
    ).with_prefix(Some(DISAMBIGUATION_PREFIX));
    assert(s1.padding == a.padding + DISAMBIGUATION_PADDING);
    let s2 = all_children(s1, nodes, n);
    lemma_all_children_keep(s1, nodes, n);
    lemma_bits_refl(s1.style.add_modifier);
    lemma_bits_trans(a.style.add_modifier | ITALIC, s1.style.add_modifier, s2.style.add_modifier);
    let s3 = s2.with_prefix(None).with_padding_removed(DISAMBIGUATION_PADDING);
    let s4 = s3.with_style(style_without_modifier(s3.style, ITALIC));
    lemma_style_round(a, s3, ITALIC, false, s4);
    lemma_layout_same(s4);
    lemma_keeps_same(a, s4, s4.with_empty_line_ensured());
}

/// A list item leaves the settings it found or fewer.
proof fn lemma_list_item_keeps(a: RenderState, nodes: Seq<DocNode>, n: usize)
    requires
        n < nodes.len(),
        nodes[n as int].data is ListItem,
        a.padding + padding_depth(nodes, n) <= u8::MAX,
    ensures
        keeps_settings(a, rendered_node(a, nodes, n)),
    decreases nodes.len() - n, 6int, 0int,
{
    let s0 = a.cleared();
    lemma_layout_same(a);
    let s1 = RenderState { current: s0.current.push(bullet_word(s0.padding)), ..s0 }.with_padding_added(2);
    let s2 = all_children(s1, nodes, n);
    lemma_all_children_keep(s1, nodes, n);
    let s3 = s2.with_padding_removed(2);
    lemma_bits_refl(a.style.add_modifier);
    lemma_bits_trans(a.style.add_modifier, s1.style.add_modifier, s2.style.add_modifier);
    assert(keeps_settings(a, s3));
    lemma_layout_same(s3);
    lemma_keeps_same(a, s3, s3.cleared());
}

/// A link's children, in the link's colour and style, leave the settings
/// found or fewer.
proof fn lemma_link_keeps(s: RenderState, nodes: Seq<DocNode>, n: usize, link: Link)
    requires
        n < nodes.len(),
        s.padding + children_depth(nodes, n, children_of(nodes, n).len() as int) <= u8::MAX,
    ensures
        keeps_settings(
            s,
            match link {
                Link::Internal | Link::Anchor => {
                    let s1 = s.with_style(style_with_fg(s.style, Color::Blue));
                    let s2 = all_children(s1, nodes, n);
                    s2.with_style(style_without_fg(s2.style)).with_whitespace()
                },
                Link::RedLink => rendered_styled(s, nodes, n, ITALIC, Some(Color::Red)),
                Link::MediaLink => rendered_styled(s, nodes, n, ITALIC, Some(Color::Blue)),
                Link::External | Link::ExternalToInternal => rendered_styled(s, nodes, n, ITALIC, None),
            },
        ),
    decreases nodes.len() - n, 6int, 0int,
{
    match link {
        Link::Internal | Link::Anchor => {
            let s1 = s.with_style(style_with_fg(s.style, Color::Blue));
            let s2 = all_children(s1, nodes, n);
            lemma_all_children_keep(s1, nodes, n);
            let s3 = s2.with_style(style_without_fg(s2.style));
            assert(keeps_settings(s, s3));
            lemma_layout_same(s3);
            lemma_keeps_same(s, s3, s3.with_whitespace());
        },
        Link::RedLink => lemma_styled_keeps(s, nodes, n, ITALIC, Some(Color::Red)),
        Link::MediaLink => lemma_styled_keeps(s, nodes, n, ITALIC, Some(Color::Blue)),
        Link::External | Link::ExternalToInternal => lemma_styled_keeps(s, nodes, n, ITALIC, None),
    }
}

/// An image leaves the settings it found or fewer.
proof fn lemma_image_keeps(a: RenderState, nodes: Seq<DocNode>, n: usize)
    requires
        n < nodes.len(),
        nodes[n as int].data is Image,
        a.padding + padding_depth(nodes, n) <= u8::MAX,
    ensures
        keeps_settings(a, rendered_node(a, nodes, n)),
    decreases nodes.len() - n, 6int, 0int,
{
    let image = nodes[n as int].data->Image_0;
    let s0 = a.with_empty_line_ensured();
    lemma_layout_same(a);
    let s1 = s0.with_style(style_with_modifier(s0.style, ITALIC | UNDERLINED));
    let s2 = s1.with_style(style_with_fg(s1.style, Color::Blue));
    let s3 = s2.with_string(crate::layout::image_label(image.alt@), n);
    lemma_layout_same(s2);
    lemma_bits_refl(s1.style.add_modifier);
    let s4 = s3.with_style(style_without_fg(s3.style));
    let s5 = s4.with_style(style_without_modifier(s4.style, ITALIC | UNDERLINED));
    lemma_style_round(a, s3, ITALIC | UNDERLINED, true, s5);
    lemma_layout_same(s5);
    lemma_keeps_same(a, s5, s5.with_empty_line_ensured());
}

/// A list leaves the settings it found or fewer.
proof fn lemma_list_keeps(a: RenderState, nodes: Seq<DocNode>, n: usize)
    requires
        n < nodes.len(),
        nodes[n as int].data is OrderedList || nodes[n as int].data is UnorderedList,
        a.padding + padding_depth(nodes, n) <= u8::MAX,
    ensures
        keeps_settings(a, rendered_node(a, nodes, n)),
    decreases nodes.len() - n, 6int, 0int,
{
    let s0 = a.with_empty_line_ensured();
    lemma_layout_same(a);
    let s1 = s0.with_padding_added(LIST_PADDING);
    let s2 = all_children(s1, nodes, n);
    lemma_all_children_keep(s1, nodes, n);
    let s3 = s2.with_padding_removed(LIST_PADDING);
    assert(keeps_settings(a, s3));
    lemma_layout_same(s3);
    lemma_keeps_same(a, s3, s3.with_empty_line_ensured());
}

/// Rendering node `n` hands back the settings it found, or fewer: the same
/// width, padding and background, the foreground colour and line prefix as
/// they were or gone, and no text modifier added that was not before. This
/// holds when the padding that `n` and the nodes below it add along any
/// path fits next to the padding found, so that none of it is cut at 255.
#[verifier::spinoff_prover]
#[verifier::rlimit(60)]
pub proof fn lemma_node_keeps(a: RenderState, nodes: Seq<DocNode>, n: usize)
    requires
        a.padding + padding_depth(nodes, n) <= u8::MAX,
    ensures
        keeps_settings(a, rendered_node(a, nodes, n)),
    decreases nodes.len() - n, 7int, 0int,
{
    if n >= nodes.len() {
        lemma_keeps_refl(a);
    } else {
        let kids = children_depth(nodes, n, children_of(nodes, n).len() as int);
        match nodes[n as int].data {
            Data::Section { .. } | Data::Division | Data::Paragraph | Data::Hatnote | Data::RedirectMessage
            | Data::DescriptionList => lemma_block_keeps(a, nodes, n),
            Data::Header { kind, .. } => lemma_header_keeps(a, nodes, n),
            Data::Text { contents } => {
                let s = a.with_string(contents@, n);
                lemma_layout_same(a);
                lemma_same_keeps(a, s);
                lemma_all_children_keep(s, nodes, n);
                lemma_keeps_trans(a, s, all_children(s, nodes, n));
            },
            Data::Span => {
                let s = all_children(a, nodes, n);
                lemma_all_children_keep(a, nodes, n);
                lemma_layout_same(s);
                lemma_keeps_same(a, s, s.with_whitespace());
            },
            Data::Reflink => lemma_styled_keeps(a, nodes, n, ITALIC, Some(Color::Gray)),
            Data::Disambiguation => lemma_disambiguation_keeps(a, nodes, n),
            Data::Blockquote => {
                let s0 = a.with_padding_added(BLOCKQUOTE_PADDING);
                let s1 = rendered_block(s0, nodes, n);
                lemma_block_keeps(s0, nodes, n);
                assert(keeps_settings(a, s1.with_padding_removed(BLOCKQUOTE_PADDING)));
            },
            Data::OrderedList | Data::UnorderedList => lemma_list_keeps(a, nodes, n),
            Data::ListItem => lemma_list_item_keeps(a, nodes, n),
            Data::DescriptionListTerm | Data::DerscriptionListDescription => {
                let s0 = a.cleared();
                lemma_layout_same(a);
                lemma_same_keeps(a, s0);
                let s1 = all_children(s0, nodes, n);
                lemma_all_children_keep(s0, nodes, n);
                lemma_keeps_trans(a, s0, s1);
                lemma_layout_same(s1);
                lemma_keeps_same(a, s1, s1.cleared());
            },
            Data::Bold => {
                let s1 = a.with_style(style_with_modifier(a.style, BOLD));
                let s2 = all_children(s1, nodes, n);
                lemma_all_children_keep(s1, nodes, n);
                lemma_bits_refl(s1.style.add_modifier);
                lemma_bits_trans(a.style.add_modifier | BOLD, s1.style.add_modifier, s2.style.add_modifier);
                let s3 = s2.with_style(style_without_modifier(s2.style, BOLD));
                lemma_style_round(a, s2, BOLD, false, s3);
                lemma_layout_same(s3);
                lemma_keeps_same(a, s3, s3.with_whitespace());
            },
            Data::Italic => lemma_styled_keeps(a, nodes, n, ITALIC, Some(Color::Blue)),
            Data::Linebreak => {
                let s0 = a.cleared();
                lemma_layout_same(a);
                lemma_same_keeps(a, s0);
                lemma_all_children_keep(s0, nodes, n);
                lemma_keeps_trans(a, s0, all_children(s0, nodes, n));
            },
            Data::Link(link) => {
                let s = RenderState { links: a.links.push((a.lines.len() as usize, n)), ..a };
                lemma_same_keeps(a, s);
                lemma_link_keeps(s, nodes, n, link);
                lemma_keeps_trans(a, s, rendered_node(a, nodes, n));
            },
            Data::Unknown | Data::TableRow | Data::TableCell { .. } => lemma_all_children_keep(a, nodes, n),
            Data::Image(image) => lemma_image_keeps(a, nodes, n),
            Data::Table => {
                lemma_table_same(a, nodes, n);
                lemma_same_keeps(a, rendered_table(a, nodes, n));
            },
            Data::Unsupported(e) => lemma_unsupported_keeps(a, false, e, n),
            Data::UnsupportedInline(e) => lemma_unsupported_keeps(a, true, e, n),
        }
    }
}

/// Rendering a node from a state with no colour, no text modifier and no
/// line prefix comes back to that: no colour, no modifier, no prefix, and
/// the padding it started with, when the padding the node and the nodes
/// below it add along any path fits next to it.
pub proof fn lemma_node_restores(st: RenderState, nodes: Seq<DocNode>, n: usize)
    requires
        st.style.fg is None,
        st.style.add_modifier == 0,
        st.prefix is None,
        st.padding + padding_depth(nodes, n) <= u8::MAX,
    ensures
        rendered_node(st, nodes, n).style.fg is None,
        rendered_node(st, nodes, n).style.add_modifier == 0,
        rendered_node(st, nodes, n).prefix is None,
        rendered_node(st, nodes, n).padding == st.padding,
        rendered_node(st, nodes, n).width == st.width,
{
    lemma_node_keeps(st, nodes, n);
    lemma_bits_none(rendered_node(st, nodes, n).style.add_modifier);
}

} // verus!
