//! What rendering a document node does to the renderer's state, stated as
//! recursive functions over the node tree.

use vstd::prelude::*;
use crate::document::{Data, DocNode, HeaderKind, Link, UnsupportedElement, tree_ordered};
use crate::renderer::RenderState;
use crate::style::{
    Color, TextStyle, plain_style, style_with_modifier, style_without_modifier, style_with_fg,
    style_without_fg, BOLD, ITALIC, UNDERLINED,
};
use crate::text::all_white_space;
use crate::word::{WordView, NO_NODE, blank_word, line_width};

verus! {

/// Left padding added inside a disambiguation note.
pub const DISAMBIGUATION_PADDING: u8 = 1;
/// Prefix of the lines of a disambiguation note.
pub const DISAMBIGUATION_PREFIX: char = '|';
/// Left padding added inside a block quote.
pub const BLOCKQUOTE_PADDING: u8 = 4;
/// Left padding added inside a list.
pub const LIST_PADDING: u8 = 1;
/// The bullet of a list item.
pub const LIST_PREFIX: char = '-';

/// Where a table border is drawn.
#[derive(Clone, Copy, Debug, PartialEq, Eq, Structural)]
pub enum BorderPos {
    Top,
    Middle,
    Bottom,
}

/// The style of table borders.
pub open spec fn border_style() -> TextStyle {
    style_with_fg(plain_style(), Color::DarkGray)
}

/// The word that starts a list item: as many spaces as the padding, then
/// the bullet.
pub open spec fn bullet_word(padding: u8) -> WordView {
    WordView {
        index: NO_NODE,
        content: Seq::new(padding as nat, |i: int| ' ').push(LIST_PREFIX),
        style: plain_style(),
        width: 1,
        whitespace_width: 1,
        penalty_width: 0,
    }
}

/// The vertical bar between table cells.
pub open spec fn bar_word() -> WordView {
    WordView { index: NO_NODE, content: seq!['|'], style: border_style(), width: 1, whitespace_width: 0, penalty_width: 0 }
}

/// The text shown for an image.
pub open spec fn image_label(alt: Seq<char>) -> Seq<char> {
    if all_white_space(alt) {
        "[img]"@
    } else {
        "[img] "@ + alt
    }
}

/// The text shown for an element that is not supported.
pub open spec fn unsupported_message(e: UnsupportedElement) -> Seq<char> {
    match e {
        UnsupportedElement::Figure => "<Unsupported Element 'Figure'>"@,
        UnsupportedElement::MathElement => "<Unsupported Element 'Math Element'>"@,
        UnsupportedElement::PreformattedText => "<Unsupported Element 'PreformattedText'>"@,
    }
}

/// Whether a heading is a main or sub heading, which get a rule below.
pub open spec fn is_major(kind: HeaderKind) -> bool {
    kind == HeaderKind::Main || kind == HeaderKind::Sub
}

/// The children of node `n`.
pub open spec fn children_of(nodes: Seq<DocNode>, n: usize) -> Seq<usize> {
    nodes[n as int].children@
}

/// Whether `c` can be rendered below `n`: a later node of the document.
pub open spec fn below(nodes: Seq<DocNode>, n: usize, c: usize) -> bool {
    n < c < nodes.len()
}

// ---------------------------------------------------------------------------
// Tables

/// The number of columns a cell takes.
pub open spec fn colspan(d: Data) -> usize {
    match d {
        Data::TableCell { colspan, .. } => if colspan >= 1 { colspan } else { 1 },
        _ => 1,
    }
}

/// Whether a cell is a header cell, rendered in bold.
pub open spec fn is_header_cell(d: Data) -> bool {
    d matches Data::TableCell { header: true, .. }
}

/// The cells among the first `k` children of row `r`.
pub open spec fn cells_from(nodes: Seq<DocNode>, r: usize, k: int) -> Seq<usize>
    decreases k,
{
    if k <= 0 || r >= nodes.len() || k > children_of(nodes, r).len() {
        seq![]
    } else {
        let c = children_of(nodes, r)[k - 1];
        let before = cells_from(nodes, r, k - 1);
        if c < nodes.len() && nodes[c as int].data is TableCell {
            before.push(c)
        } else {
            before
        }
    }
}

/// The cells of row `r`: its children that are table cells.
pub open spec fn cells_of(nodes: Seq<DocNode>, r: usize) -> Seq<usize> {
    if r < nodes.len() {
        cells_from(nodes, r, children_of(nodes, r).len() as int)
    } else {
        seq![]
    }
}

/// The rows below node `n`, in document order, each given by its cells.
pub open spec fn rows_below(nodes: Seq<DocNode>, n: usize) -> Seq<Seq<usize>>
    decreases nodes.len() - n, 1int,
{
    if n >= nodes.len() {
        seq![]
    } else {
        rows_below_from(nodes, n, children_of(nodes, n).len() as int)
    }
}

/// The rows below the first `k` children of node `n`, each child followed
/// by the rows below it.
pub open spec fn rows_below_from(nodes: Seq<DocNode>, n: usize, k: int) -> Seq<Seq<usize>>
    decreases nodes.len() - n, 0int, k,
{
    if n >= nodes.len() || k <= 0 || k > children_of(nodes, n).len() {
        seq![]
    } else {
        let c = children_of(nodes, n)[k - 1];
        let before = rows_below_from(nodes, n, k - 1);
        if below(nodes, n, c) {
            let own = if nodes[c as int].data is TableRow { seq![cells_of(nodes, c)] } else { seq![] };
            before + own + rows_below(nodes, c)
        } else {
            before
        }
    }
}

/// The sum of the spans of some cells.
pub open spec fn span_total(nodes: Seq<DocNode>, cells: Seq<usize>) -> nat
    decreases cells.len(),
{
    if cells.len() == 0 {
        0
    } else {
        span_total(nodes, cells.drop_last()) + (colspan(nodes[cells.last() as int].data) as nat)
    }
}

/// The widest of some rows, in columns.
pub open spec fn column_count(nodes: Seq<DocNode>, rows: Seq<Seq<usize>>) -> nat
    decreases rows.len(),
{
    if rows.len() == 0 {
        0
    } else {
        let before = column_count(nodes, rows.drop_last());
        let last = span_total(nodes, rows.last());
        if last > before { last } else { before }
    }
}

/// The width of a cell that spans `span` columns of `col_width` each, the
/// borders between them included; the arithmetic is on `u16` and wraps.
pub open spec fn cell_width(col_width: u16, span: usize) -> u16 {
    col_width.wrapping_mul(span as u16).wrapping_add((span as u16).saturating_sub(1))
}

/// The border characters of a table.
pub open spec fn border_glyphs(pos: BorderPos) -> (char, char, char, char) {
    match pos {
        BorderPos::Top => ('┌', '─', '┬', '┐'),
        BorderPos::Middle => ('├', '─', '┼', '┤'),
        BorderPos::Bottom => ('└', '─', '┴', '┘'),
    }
}

/// The border after the left corner, for the first `k` of `count` columns.
pub open spec fn border_columns(count: nat, col_width: u16, pos: BorderPos, k: nat) -> Seq<char>
    decreases k,
{
    if k == 0 {
        seq![]
    } else {
        let (left, fill, sep, right) = border_glyphs(pos);
        border_columns(count, col_width, pos, (k - 1) as nat) + Seq::new(col_width as nat, |i: int| fill)
            + seq![if k < count { sep } else { right }]
    }
}

/// The characters of a table border of `count` columns.
pub open spec fn border_line(count: nat, col_width: u16, pos: BorderPos) -> Seq<char> {
    seq![border_glyphs(pos).0] + border_columns(count, col_width, pos, count)
}

impl RenderState {
    /// A table border on a line of its own.
    pub open spec fn with_border(self, count: nat, col_width: u16, pos: BorderPos) -> RenderState {
        let line = border_line(count, col_width, pos);
        let word = WordView {
            index: NO_NODE,
            content: line,
            style: border_style(),
            width: line.len() as usize,
            whitespace_width: 0,
            penalty_width: 0,
        };
        let s = self.cleared();
        RenderState { current: s.current.push(word), ..s }.cleared()
    }
}

/// Whether a rendered cell shows nothing but white space.
pub open spec fn cell_is_empty(lines: Seq<Seq<WordView>>) -> bool {
    forall|i: int, j: int| 0 <= i < lines.len() && 0 <= j < lines[i].len() ==> all_white_space(#[trigger] lines[i][j].content)
}

/// Rendered cells with each run of empty cells merged into one that spans
/// them all.
pub open spec fn merged_cells(cells: Seq<(Seq<Seq<WordView>>, usize)>) -> Seq<(Seq<Seq<WordView>>, usize)>
    decreases cells.len(),
{
    if cells.len() == 0 {
        seq![]
    } else {
        let m = merged_cells(cells.drop_last());
        let (lines, span) = cells.last();
        if cell_is_empty(lines) && m.len() > 0 && cell_is_empty(m.last().0) {
            m.update(m.len() - 1, (m.last().0, (m.last().1 + span) as usize))
        } else {
            m.push((lines, span))
        }
    }
}

/// The number of lines a row takes: its tallest cell, at least one.
pub open spec fn row_height(cells: Seq<(Seq<Seq<WordView>>, usize)>) -> nat
    decreases cells.len(),
{
    if cells.len() == 0 {
        1
    } else {
        let before = row_height(cells.drop_last());
        if cells.last().0.len() > before { cells.last().0.len() } else { before }
    }
}

/// The columns the words of a line take, at most `usize::MAX`.
pub open spec fn used_width(words: Seq<WordView>) -> nat {
    if line_width(words) <= usize::MAX { line_width(words) } else { usize::MAX as nat }
}

/// Line `i` of a cell: its words, blank space up to the cell's width (at
/// most 255 columns), and a bar.
pub open spec fn cell_line(cell: (Seq<Seq<WordView>>, usize), col_width: u16, i: int) -> Seq<WordView> {
    let words = if 0 <= i < cell.0.len() { cell.0[i] } else { seq![] };
    let width = cell_width(col_width, cell.1) as nat;
    let gap = if width >= used_width(words) { (width - used_width(words)) as nat } else { 0 };
    let pad = if gap <= 255 { gap as u8 } else { 255u8 };
    words + seq![blank_word(pad as usize), bar_word()]
}

/// Line `i` of the first `k` cells of a row.
pub open spec fn cells_line(cells: Seq<(Seq<Seq<WordView>>, usize)>, col_width: u16, i: int, k: int) -> Seq<WordView>
    decreases k,
{
    if k <= 0 || k > cells.len() {
        seq![]
    } else {
        cells_line(cells, col_width, i, k - 1) + cell_line(cells[k - 1], col_width, i)
    }
}

/// Line `i` of a row: a bar, then each cell's line.
pub open spec fn row_line(cells: Seq<(Seq<Seq<WordView>>, usize)>, col_width: u16, i: int) -> Seq<WordView> {
    seq![bar_word()] + cells_line(cells, col_width, i, cells.len() as int)
}

impl RenderState {
    /// The first `k` lines of a row, each on a line of its own.
    pub open spec fn with_row_lines(self, cells: Seq<(Seq<Seq<WordView>>, usize)>, col_width: u16, k: nat) -> RenderState
        decreases k,
    {
        if k == 0 {
            self
        } else {
            let s = self.with_row_lines(cells, col_width, (k - 1) as nat).cleared();
            RenderState { current: s.current + row_line(cells, col_width, k - 1), ..s }.cleared()
        }
    }
}

/// The plan of a row: each cell with its span, and an empty filler for the
/// columns the row leaves uncovered.
pub open spec fn row_spans(nodes: Seq<DocNode>, cells: Seq<usize>, count: nat) -> Seq<usize> {
    let spans = cells.map_values(|c: usize| colspan(nodes[c as int].data));
    let covered = span_total(nodes, cells);
    if covered < count {
        spans.push((count - covered) as usize)
    } else {
        spans
    }
}

// ---------------------------------------------------------------------------
// Nodes

/// The lines that the children of `n` give when rendered on their own,
/// `width` columns wide, in bold or not.
pub open spec fn subtree_lines(nodes: Seq<DocNode>, n: usize, width: u16, bold: bool) -> Seq<Seq<WordView>>
    decreases nodes.len() - n, 1int, 0int,
{
    if n >= nodes.len() {
        seq![]
    } else {
        let style = if bold { style_with_modifier(plain_style(), BOLD) } else { plain_style() };
        rendered_children(RenderState::initial(width, style), nodes, n, children_of(nodes, n).len() as int).cleared().lines
    }
}

/// The first `k` cells of a row rendered, with their spans.
pub open spec fn rendered_cells(nodes: Seq<DocNode>, t: usize, cells: Seq<usize>, col_width: u16, k: int) -> Seq<(Seq<Seq<WordView>>, usize)>
    decreases nodes.len() - t, 2int, k,
{
    if t >= nodes.len() || k <= 0 || k > cells.len() {
        seq![]
    } else {
        let c = cells[k - 1];
        let before = rendered_cells(nodes, t, cells, col_width, k - 1);
        if below(nodes, t, c) {
            let span = colspan(nodes[c as int].data);
            before.push((subtree_lines(nodes, c, cell_width(col_width, span), is_header_cell(nodes[c as int].data)), span))
        } else {
            before
        }
    }
}

/// One row of table `t` rendered: its cells side by side, line by line.
pub open spec fn rendered_row(st: RenderState, nodes: Seq<DocNode>, t: usize, cells: Seq<usize>, count: nat, col_width: u16) -> RenderState
    decreases nodes.len() - t, 4int, 0int,
{
    if t >= nodes.len() {
        st
    } else {
        let merged = merged_cells(row_cells(nodes, t, cells, count, col_width));
        st.with_row_lines(merged, col_width, row_height(merged))
    }
}

/// The rendered cells of a row of table `t`, with an empty filler for the
/// columns the row leaves uncovered.
pub open spec fn row_cells(nodes: Seq<DocNode>, t: usize, cells: Seq<usize>, count: nat, col_width: u16) -> Seq<(Seq<Seq<WordView>>, usize)>
    decreases nodes.len() - t, 3int, 0int,
{
    let own = rendered_cells(nodes, t, cells, col_width, cells.len() as int);
    let covered = span_total(nodes, cells);
    if covered < count { own.push((seq![], (count - covered) as usize)) } else { own }
}

/// The first `k` rows of table `t` rendered, with a border between rows.
pub open spec fn rendered_rows(st: RenderState, nodes: Seq<DocNode>, t: usize, rows: Seq<Seq<usize>>, count: nat, col_width: u16, k: int) -> RenderState
    decreases nodes.len() - t, 5int, k,
{
    if t >= nodes.len() || k <= 0 || k > rows.len() {
        st
    } else {
        let s = rendered_row(rendered_rows(st, nodes, t, rows, count, col_width, k - 1), nodes, t, rows[k - 1], count, col_width);
        if k < rows.len() { s.with_border(count, col_width, BorderPos::Middle) } else { s }
    }
}

/// Table `t` rendered: a border above, below and between its rows, which
/// share columns of equal width.
pub open spec fn rendered_table(st: RenderState, nodes: Seq<DocNode>, t: usize) -> RenderState
    decreases nodes.len() - t, 6int, 0int,
{
    let s0 = st.with_empty_line_ensured();
    let rows = rows_below(nodes, t);
    let count = column_count(nodes, rows);
    if t >= nodes.len() || count == 0 {
        s0.with_empty_line_ensured()
    } else {
        let border_chars = (count as u16).wrapping_add(1);
        let available = st.width.saturating_sub(border_chars);
        let per_col = (available / (count as u16)) as u16;
        let col_width = if per_col >= 3 { per_col } else { 3u16 };
        let s1 = s0.with_border(count, col_width, BorderPos::Top);
        let s2 = rendered_rows(s1, nodes, t, rows, count, col_width, rows.len() as int);
        s2.with_border(count, col_width, BorderPos::Bottom).with_empty_line_ensured()
    }
}

/// The first `k` children of node `n` rendered in order.
pub open spec fn rendered_children(st: RenderState, nodes: Seq<DocNode>, n: usize, k: int) -> RenderState
    decreases nodes.len() - n, 0int, k,
{
    if n >= nodes.len() || k <= 0 || k > children_of(nodes, n).len() {
        st
    } else {
        let s = rendered_children(st, nodes, n, k - 1);
        let c = children_of(nodes, n)[k - 1];
        if below(nodes, n, c) {
            rendered_node(s, nodes, c)
        } else {
            s
        }
    }
}

/// All children of node `n` rendered in order.
pub open spec fn all_children(st: RenderState, nodes: Seq<DocNode>, n: usize) -> RenderState
    decreases nodes.len() - n, 1int, 0int,
{
    if n >= nodes.len() {
        st
    } else {
        rendered_children(st, nodes, n, children_of(nodes, n).len() as int)
    }
}

/// A block element: its children between empty lines.
pub open spec fn rendered_block(st: RenderState, nodes: Seq<DocNode>, n: usize) -> RenderState
    decreases nodes.len() - n, 5int, 0int,
{
    all_children(st.with_empty_line_ensured(), nodes, n).with_empty_line_ensured()
}

/// The children of `n` rendered with a modifier and optionally a colour
/// added, both taken back afterwards, then a whitespace.
pub open spec fn rendered_styled(st: RenderState, nodes: Seq<DocNode>, n: usize, modifier: u16, color: Option<Color>) -> RenderState
    decreases nodes.len() - n, 5int, 0int,
{
    let s1 = st.with_style(style_with_modifier(st.style, modifier));
    let s2 = match color {
        Some(c) => s1.with_style(style_with_fg(s1.style, c)),
        None => s1,
    };
    let s3 = all_children(s2, nodes, n);
    let s4 = match color {
        Some(c) => s3.with_style(style_without_fg(s3.style)),
        None => s3,
    };
    s4.with_style(style_without_modifier(s4.style, modifier)).with_whitespace()
}

/// Node `n` rendered according to what it is.
pub open spec fn rendered_node(st: RenderState, nodes: Seq<DocNode>, n: usize) -> RenderState
    decreases nodes.len() - n, 7int, 0int,
{
    if n >= nodes.len() {
        st
    } else {
        match nodes[n as int].data {
            Data::Section { .. } => rendered_block(st, nodes, n),
            Data::Header { kind, .. } => {
                let s0 = st.with_empty_line_ensured();
                let s1 = if !is_major(kind) { s0.with_style(style_with_modifier(s0.style, BOLD)) } else { s0 };
                let s2 = s1.with_style(style_with_fg(s1.style, Color::Red));
                let s3 = all_children(s2, nodes, n);
                let s4 = if !is_major(kind) { s3.with_style(style_without_modifier(s3.style, BOLD)) } else { s3 };
                let s5 = s4.with_style(style_without_fg(s4.style));
                let s6 = if is_major(kind) { s5.cleared().with_horizontal_line() } else { s5 };
                s6.with_empty_line_ensured()
            },
            Data::Text { contents } => all_children(st.with_string(contents@, n), nodes, n),
            Data::Division | Data::Paragraph | Data::Hatnote | Data::RedirectMessage | Data::DescriptionList => {
                rendered_block(st, nodes, n)
            },
            Data::Span => all_children(st, nodes, n).with_whitespace(),
            Data::Reflink => rendered_styled(st, nodes, n, ITALIC, Some(Color::Gray)),
            Data::Disambiguation => {
                let s0 = st.with_empty_line_ensured();
                let s1 = s0.with_style(style_with_modifier(s0.style, ITALIC)).with_padding_added(
                    DISAMBIGUATION_PADDING,
                ).with_prefix(Some(DISAMBIGUATION_PREFIX));
                let s2 = all_children(s1, nodes, n);
                let s3 = s2.with_prefix(None).with_padding_removed(DISAMBIGUATION_PADDING);
                s3.with_style(style_without_modifier(s3.style, ITALIC)).with_empty_line_ensured()
            },
            Data::Blockquote => rendered_block(st.with_padding_added(BLOCKQUOTE_PADDING), nodes, n).with_padding_removed(
                BLOCKQUOTE_PADDING,
            ),
            Data::OrderedList | Data::UnorderedList => {
                let s1 = st.with_empty_line_ensured().with_padding_added(LIST_PADDING);
                all_children(s1, nodes, n).with_padding_removed(LIST_PADDING).with_empty_line_ensured()
            },
            Data::ListItem => {
                let s0 = st.cleared();
                let s1 = RenderState { current: s0.current.push(bullet_word(s0.padding)), ..s0 }.with_padding_added(2);
                all_children(s1, nodes, n).with_padding_removed(2).cleared()
            },
            Data::DescriptionListTerm | Data::DerscriptionListDescription => all_children(st.cleared(), nodes, n).cleared(),
            Data::Bold => {
                let s1 = st.with_style(style_with_modifier(st.style, BOLD));
                let s2 = all_children(s1, nodes, n);
                s2.with_style(style_without_modifier(s2.style, BOLD)).with_whitespace()
            },
            Data::Italic => rendered_styled(st, nodes, n, ITALIC, Some(Color::Blue)),
            Data::Linebreak => all_children(st.cleared(), nodes, n),
            Data::Link(link) => {
                let s = RenderState { links: st.links.push((st.lines.len() as usize, n)), ..st };
                match link {
                    Link::Internal | Link::Anchor => {
                        let s1 = s.with_style(style_with_fg(s.style, Color::Blue));
                        let s2 = all_children(s1, nodes, n);
                        s2.with_style(style_without_fg(s2.style)).with_whitespace()
                    },
                    Link::RedLink => rendered_styled(s, nodes, n, ITALIC, Some(Color::Red)),
                    Link::MediaLink => rendered_styled(s, nodes, n, ITALIC, Some(Color::Blue)),
                    Link::External | Link::ExternalToInternal => rendered_styled(s, nodes, n, ITALIC, None),
                }
            },
            Data::Unknown | Data::TableRow | Data::TableCell { .. } => all_children(st, nodes, n),
            Data::Image(image) => {
                let s0 = st.with_empty_line_ensured();
                let s1 = s0.with_style(style_with_modifier(s0.style, ITALIC | UNDERLINED));
                let s2 = s1.with_style(style_with_fg(s1.style, Color::Blue));
                let s3 = s2.with_string(image_label(image.alt@), n);
                let s4 = s3.with_style(style_without_fg(s3.style));
                s4.with_style(style_without_modifier(s4.style, ITALIC | UNDERLINED)).with_empty_line_ensured()
            },
            Data::Table => rendered_table(st, nodes, n),
            Data::Unsupported(e) => st.with_unsupported(false, e, n),
            Data::UnsupportedInline(e) => st.with_unsupported(true, e, n),
        }
    }
}

impl RenderState {
    /// A placeholder for an unsupported element: inline, an italic grey
    /// `[x]` between whitespaces; otherwise an italic message on lines of
    /// its own.
    pub open spec fn with_unsupported(self, inline: bool, e: UnsupportedElement, index: usize) -> RenderState {
        if inline {
            let s1 = self.with_style(style_with_modifier(self.style, ITALIC)).with_whitespace();
            let s2 = s1.with_style(style_with_fg(s1.style, Color::DarkGray)).with_string("[x]"@, index);
            let s3 = s2.with_style(style_without_fg(s2.style)).with_whitespace();
            s3.with_style(style_without_modifier(s3.style, ITALIC))
        } else {
            let s0 = self.with_empty_line_ensured();
            let s1 = s0.with_style(style_with_modifier(s0.style, ITALIC)).with_string(unsupported_message(e), index);
            s1.with_style(style_without_modifier(s1.style, ITALIC)).with_empty_line()
        }
    }
}


/// The state after rendering a whole document `width` columns wide: its
/// first node, the root, rendered from an empty state in the plain style.
pub open spec fn document_rendering(nodes: Seq<DocNode>, width: u16) -> RenderState {
    let start = RenderState::initial(width, plain_style());
    if nodes.len() == 0 {
        start
    } else {
        rendered_node(start, nodes, 0)
    }
}

// ---------------------------------------------------------------------------
// What tables need

/// A table whose rows' spans add up within `usize` and whose column count,
/// taken as a `u16`, is not zero (it divides the width).
pub open spec fn table_fits(nodes: Seq<DocNode>, t: usize) -> bool {
    let rows = rows_below(nodes, t);
    &&& forall|i: int| 0 <= i < rows.len() ==> span_total(nodes, #[trigger] rows[i]) <= usize::MAX
    &&& column_count(nodes, rows) == 0 || (column_count(nodes, rows) as u16) != 0
}

/// Whether every table at or below node `n` fits.
pub open spec fn tables_fit(nodes: Seq<DocNode>, n: usize) -> bool
    decreases nodes.len() - n, 1int, 0int,
{
    n >= nodes.len() || ((nodes[n as int].data is Table ==> table_fits(nodes, n)) && children_fit(
        nodes,
        n,
        children_of(nodes, n).len() as int,
    ))
}

/// Whether every table at or below the first `k` children of node `n`
/// fits.
pub open spec fn children_fit(nodes: Seq<DocNode>, n: usize, k: int) -> bool
    decreases nodes.len() - n, 0int, k,
{
    if n >= nodes.len() || k <= 0 || k > children_of(nodes, n).len() {
        true
    } else {
        let c = children_of(nodes, n)[k - 1];
        children_fit(nodes, n, k - 1) && (below(nodes, n, c) ==> tables_fit(nodes, c))
    }
}

/// The tables below a child fit when those below all children do.
pub proof fn lemma_child_fits(nodes: Seq<DocNode>, n: usize, k: int, j: int)
    requires
        n < nodes.len(),
        children_fit(nodes, n, k),
        0 < j <= k <= children_of(nodes, n).len(),
    ensures
        children_fit(nodes, n, j),
        below(nodes, n, children_of(nodes, n)[j - 1]) ==> tables_fit(nodes, children_of(nodes, n)[j - 1]),
    decreases k,
{
    if j < k {
        lemma_child_fits(nodes, n, k - 1, j);
    }
}

/// The tables below each cell of a row fit when those below the row do.
pub proof fn lemma_cells_fit(nodes: Seq<DocNode>, r: usize, k: int)
    requires
        tree_ordered(nodes),
        r < nodes.len(),
        k <= children_of(nodes, r).len(),
        children_fit(nodes, r, k),
    ensures
        forall|j: int| 0 <= j < cells_from(nodes, r, k).len() ==> tables_fit(nodes, #[trigger] cells_from(nodes, r, k)[j]),
    decreases k,
{
    if k > 0 {
        lemma_child_fits(nodes, r, k, k);
        lemma_cells_fit(nodes, r, k - 1);
        let c = children_of(nodes, r)[k - 1];
        assert(nodes[r as int].children@[k - 1] == c);
        let before = cells_from(nodes, r, k - 1);
        assert forall|j: int| 0 <= j < cells_from(nodes, r, k).len() implies tables_fit(
            nodes,
            #[trigger] cells_from(nodes, r, k)[j],
        ) by {
            if j < before.len() {
                assert(cells_from(nodes, r, k)[j] == before[j]);
            }
        }
    }
}

/// The tables below each cell of the rows below a node fit when those below
/// the node do.
pub proof fn lemma_rows_fit(nodes: Seq<DocNode>, n: usize)
    requires
        tree_ordered(nodes),
        n < nodes.len(),
        tables_fit(nodes, n),
    ensures
        forall|i: int, j: int|
            0 <= i < rows_below(nodes, n).len() && 0 <= j < rows_below(nodes, n)[i].len() ==> tables_fit(
                nodes,
                #[trigger] rows_below(nodes, n)[i][j],
            ),
    decreases nodes.len() - n, 1int, 0int,
{
    lemma_rows_from_fit(nodes, n, children_of(nodes, n).len() as int);
    assert(rows_below(nodes, n) == rows_below_from(nodes, n, children_of(nodes, n).len() as int));
}

/// The tables below each cell of the rows below the first `k` children of a
/// node fit when those below the children do.
pub proof fn lemma_rows_from_fit(nodes: Seq<DocNode>, n: usize, k: int)
    requires
        tree_ordered(nodes),
        n < nodes.len(),
        k <= children_of(nodes, n).len(),
        children_fit(nodes, n, k),
    ensures
        forall|i: int, j: int|
            0 <= i < rows_below_from(nodes, n, k).len() && 0 <= j < rows_below_from(nodes, n, k)[i].len()
                ==> tables_fit(nodes, #[trigger] rows_below_from(nodes, n, k)[i][j]),
    decreases nodes.len() - n, 0int, k,
{
    if k > 0 {
        let c = children_of(nodes, n)[k - 1];
        assert(nodes[n as int].children@[k - 1] == c);
        assert(n < c < nodes.len());
        lemma_child_fits(nodes, n, k, k);
        lemma_rows_from_fit(nodes, n, k - 1);
        lemma_rows_fit(nodes, c);
        lemma_cells_fit(nodes, c, children_of(nodes, c).len() as int);
        let before = rows_below_from(nodes, n, k - 1);
        let own = if nodes[c as int].data is TableRow { seq![cells_of(nodes, c)] } else { seq![] };
        let after = rows_below(nodes, c);
        assert(rows_below_from(nodes, n, k) == before + own + after);
        assert forall|i: int, j: int|
            0 <= i < rows_below_from(nodes, n, k).len() && 0 <= j < rows_below_from(nodes, n, k)[i].len()
                implies tables_fit(nodes, #[trigger] rows_below_from(nodes, n, k)[i][j]) by {
            let all = rows_below_from(nodes, n, k);
            if i < before.len() {
                assert(all[i] == before[i]);
            } else if i < before.len() + own.len() {
                assert(all[i] == own[i - before.len()]);
            } else {
                assert(all[i] == after[i - before.len() - own.len()]);
            }
        }
    }
}

/// The cells of a row are later nodes than the row.
pub proof fn lemma_cells_later(nodes: Seq<DocNode>, r: usize, k: int)
    requires
        tree_ordered(nodes),
        r < nodes.len(),
        k <= children_of(nodes, r).len(),
    ensures
        forall|j: int| 0 <= j < cells_from(nodes, r, k).len() ==> r < #[trigger] cells_from(nodes, r, k)[j] < nodes.len(),
    decreases k,
{
    if k > 0 {
        lemma_cells_later(nodes, r, k - 1);
        let c = children_of(nodes, r)[k - 1];
        assert(nodes[r as int].children@[k - 1] == c);
        assert(r < c < nodes.len());
        let before = cells_from(nodes, r, k - 1);
        assert forall|j: int| 0 <= j < cells_from(nodes, r, k).len() implies r < #[trigger] cells_from(
            nodes,
            r,
            k,
        )[j] < nodes.len() by {
            if j < before.len() {
                assert(cells_from(nodes, r, k)[j] == before[j]);
            }
        }
    }
}

/// The rows below a node, and their cells, are later nodes than it.
pub proof fn lemma_rows_later(nodes: Seq<DocNode>, n: usize)
    requires
        tree_ordered(nodes),
        n < nodes.len(),
    ensures
        forall|i: int, j: int|
            0 <= i < rows_below(nodes, n).len() && 0 <= j < rows_below(nodes, n)[i].len() ==> n
                < #[trigger] rows_below(nodes, n)[i][j] < nodes.len(),
    decreases nodes.len() - n, 1int, 0int,
{
    lemma_rows_from_later(nodes, n, children_of(nodes, n).len() as int);
    assert(rows_below(nodes, n) == rows_below_from(nodes, n, children_of(nodes, n).len() as int));
}

/// The rows below the first `k` children of a node are later nodes.
pub proof fn lemma_rows_from_later(nodes: Seq<DocNode>, n: usize, k: int)
    requires
        tree_ordered(nodes),
        n < nodes.len(),
        k <= children_of(nodes, n).len(),
    ensures
        forall|i: int, j: int|
            0 <= i < rows_below_from(nodes, n, k).len() && 0 <= j < rows_below_from(nodes, n, k)[i].len()
                ==> n < #[trigger] rows_below_from(nodes, n, k)[i][j] < nodes.len(),
    decreases nodes.len() - n, 0int, k,
{
    if k > 0 {
        let c = children_of(nodes, n)[k - 1];
        assert(nodes[n as int].children@[k - 1] == c);
        assert(n < c < nodes.len());
        lemma_rows_from_later(nodes, n, k - 1);
        lemma_rows_later(nodes, c);
        lemma_cells_later(nodes, c, children_of(nodes, c).len() as int);
        let before = rows_below_from(nodes, n, k - 1);
        let own = if nodes[c as int].data is TableRow { seq![cells_of(nodes, c)] } else { seq![] };
        let after = rows_below(nodes, c);
        assert(rows_below_from(nodes, n, k) == before + own + after);
        assert forall|i: int, j: int|
            0 <= i < rows_below_from(nodes, n, k).len() && 0 <= j < rows_below_from(nodes, n, k)[i].len()
                implies n < #[trigger] rows_below_from(nodes, n, k)[i][j] < nodes.len() by {
            let all = rows_below_from(nodes, n, k);
            if i < before.len() {
                assert(all[i] == before[i]);
            } else if i < before.len() + own.len() {
                assert(all[i] == own[i - before.len()]);
            } else {
                assert(all[i] == after[i - before.len() - own.len()]);
            }
        }
    }
}

/// A row is no wider than the table's column count.
pub proof fn lemma_row_within_count(nodes: Seq<DocNode>, rows: Seq<Seq<usize>>, i: int)
    requires
        0 <= i < rows.len(),
    ensures
        span_total(nodes, rows[i]) <= column_count(nodes, rows),
    decreases rows.len(),
{
    if i < rows.len() - 1 {
        lemma_row_within_count(nodes, rows.drop_last(), i);
    }
}

/// A prefix of some cells spans no more than all of them.
pub proof fn lemma_span_prefix(nodes: Seq<DocNode>, cells: Seq<usize>, k: int)
    requires
        0 <= k <= cells.len(),
    ensures
        span_total(nodes, cells.take(k)) <= span_total(nodes, cells),
    decreases cells.len(),
{
    if k < cells.len() {
        lemma_span_prefix(nodes, cells.drop_last(), k);
        assert(cells.drop_last().take(k) =~= cells.take(k));
    } else {
        assert(cells.take(k) =~= cells);
    }
}

/// The sum of the spans of some rendered cells.
pub open spec fn spans_sum(cells: Seq<(Seq<Seq<WordView>>, usize)>) -> nat
    decreases cells.len(),
{
    if cells.len() == 0 {
        0
    } else {
        spans_sum(cells.drop_last()) + (cells.last().1 as nat)
    }
}

/// Merging cells keeps the sum of their spans, when it fits.
pub proof fn lemma_merged_spans(cells: Seq<(Seq<Seq<WordView>>, usize)>)
    requires
        spans_sum(cells) <= usize::MAX,
    ensures
        spans_sum(merged_cells(cells)) == spans_sum(cells),
    decreases cells.len(),
{
    if cells.len() > 0 {
        lemma_merged_spans(cells.drop_last());
        let m = merged_cells(cells.drop_last());
        let (lines, span) = cells.last();
        if cell_is_empty(lines) && m.len() > 0 && cell_is_empty(m.last().0) {
            let u = m.update(m.len() - 1, (m.last().0, (m.last().1 + span) as usize));
            assert(u.drop_last() =~= m.drop_last());
            assert(spans_sum(m) == spans_sum(m.drop_last()) + m.last().1);
        } else {
            assert(m.push((lines, span)).drop_last() =~= m);
        }
    }
}

} // verus!
