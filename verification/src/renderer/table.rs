//! Rendering tables: rows of cells side by side, framed by borders.

use vstd::prelude::*;
use crate::document::{Data, Document, tree_ordered, lemma_document_len};
use crate::laws::{text_of, text_of_lines, text_words};
use crate::text_law::{shown, children_table_free, children_text, lemma_children_text, lemma_quiet_ops};
use crate::layout::{
    BorderPos, bar_word, border_columns, border_glyphs, border_line, cell_is_empty,
    cell_line, cells_from, cells_line, cells_of, children_of, colspan, column_count, is_header_cell,
    lemma_merged_spans, lemma_row_within_count, lemma_rows_later, lemma_span_prefix,
    merged_cells, rendered_cells, below, rendered_row, rendered_rows, rendered_table, row_height,
    row_line, rows_below, rows_below_from, span_total, spans_sum, subtree_lines, table_fits, tables_fit, lemma_rows_fit,
    used_width};
use crate::renderer::{RenderState, Renderer};
use crate::style::{Color, TextStyle, BOLD};
use crate::text::{chars_of, white_space, all_white_space, is_white_space};
use crate::word::{Word, WordView, NO_NODE, line_width, push_word, push_char, char_to_string, lemma_deep_view_add};

verus! {

/// The spans of a prefix of cells sum to no more than all of them.
proof fn lemma_spans_prefix(cells: Seq<(Seq<Seq<WordView>>, usize)>, k: int)
    requires
        0 <= k <= cells.len(),
    ensures
        spans_sum(cells.take(k)) <= spans_sum(cells),
    decreases cells.len(),
{
    if k < cells.len() {
        lemma_spans_prefix(cells.drop_last(), k);
        assert(cells.drop_last().take(k) =~= cells.take(k));
    } else {
        assert(cells.take(k) =~= cells);
    }
}

/// The last span is part of the sum.
proof fn lemma_spans_last(cells: Seq<(Seq<Seq<WordView>>, usize)>)
    requires
        cells.len() > 0,
    ensures
        spans_sum(cells) == spans_sum(cells.drop_last()) + cells.last().1,
{
}

/// The deep view of a vector of indices is its view.
proof fn lemma_index_vec_deep_view(v: Vec<usize>)
    ensures
        v.deep_view() == v@,
{
    assert(v.deep_view() =~= v@);
}

impl Renderer {
    /// The number of columns a cell takes: its colspan, at least one
    pub fn cell_colspan(doc: &Document, cell: usize) -> (span: usize)
        requires
            cell < doc@.len(),
        ensures
            span == colspan(doc@[cell as int].data),
    {
        match doc.data(cell) {
            Data::TableCell { colspan, .. } => if *colspan >= 1 { *colspan } else { 1 },
            _ => 1,
        }
    }

    /// The children of a row that are table cells
    fn row_cells(doc: &Document, row: usize) -> (cells: Vec<usize>)
        requires
            row < doc@.len(),
        ensures
            cells@ == cells_of(doc@, row),
    {
        let children = doc.children(row);
        let n = children.len();
        let mut cells: Vec<usize> = Vec::new();
        let mut k: usize = 0;
        while k < n
            invariant
                row < doc@.len(),
                *children == doc@[row as int].children,
                n == children.len(),
                k <= n,
                cells@ == cells_from(doc@, row, k as int),
            decreases n - k,
        {
            let c = children[k];
            assert(children_of(doc@, row)[k as int] == c);
            if c < doc.len() {
                match doc.data(c) {
                    Data::TableCell { .. } => cells.push(c),
                    _ => {},
                }
            }
            k = k + 1;
        }
        cells
    }

    /// Appends the rows below `node`, in document order, each as its cells
    #[verifier::spinoff_prover]
    fn collect_rows(doc: &Document, node: usize, rows: &mut Vec<Vec<usize>>)
        requires
            tree_ordered(doc@),
            node < doc@.len(),
        ensures
            final(rows).deep_view() == old(rows).deep_view() + rows_below(doc@, node),
        decreases doc@.len() - node,
    {
        let ghost start = rows.deep_view();
        let children = doc.children(node);
        let n = children.len();
        let mut k: usize = 0;
        assert(start + rows_below_from(doc@, node, 0) =~= start);
        while k < n
            invariant
                tree_ordered(doc@),
                node < doc@.len(),
                *children == doc@[node as int].children,
                n == children.len(),
                k <= n,
                rows.deep_view() == start + rows_below_from(doc@, node, k as int),
            decreases n - k,
        {
            let c = children[k];
            assert(children_of(doc@, node)[k as int] == c);
            assert(doc@[node as int].children@[k as int] == c);
            let ghost before = rows.deep_view();
            match doc.data(c) {
                Data::TableRow => {
                    let cells = Self::row_cells(doc, c);
                    proof {
                        lemma_index_vec_deep_view(cells);
                    }
                    let ghost r0 = *rows;
                    rows.push(cells);
                    proof {
                        crate::word::lemma_deep_view_push(r0, cells, *rows);
                    }
                },
                _ => {},
            }
            let ghost mid = rows.deep_view();
            Self::collect_rows(doc, c, rows);
            k = k + 1;
            assert(rows.deep_view() =~= start + rows_below_from(doc@, node, k as int));
        }
        assert(rows_below(doc@, node) == rows_below_from(doc@, node, n as int));
    }

    /// The sum of the spans of a row's cells
    fn row_span(doc: &Document, cells: &Vec<usize>) -> (total: usize)
        requires
            forall|j: int| 0 <= j < cells.len() ==> #[trigger] cells[j] < doc@.len(),
            span_total(doc@, cells@) <= usize::MAX,
        ensures
            total == span_total(doc@, cells@),
    {
        let n = cells.len();
        let mut total: usize = 0;
        let mut k: usize = 0;
        while k < n
            invariant
                n == cells.len(),
                k <= n,
                forall|j: int| 0 <= j < cells.len() ==> #[trigger] cells[j] < doc@.len(),
                span_total(doc@, cells@) <= usize::MAX,
                total == span_total(doc@, cells@.take(k as int)),
            decreases n - k,
        {
            assert(cells@.take(k + 1).drop_last() =~= cells@.take(k as int));
            proof {
                lemma_span_prefix(doc@, cells@, k + 1);
            }
            total = total + Self::cell_colspan(doc, cells[k]);
            k = k + 1;
        }
        assert(cells@.take(n as int) =~= cells@);
        total
    }

    /// Whether a rendered cell shows nothing but white space
    #[verifier::spinoff_prover]
    pub fn cell_is_empty(lines: &Vec<Vec<Word>>) -> (b: bool)
        ensures
            b == cell_is_empty(lines.deep_view()),
    {
        let n = lines.len();
        let mut i: usize = 0;
        while i < n
            invariant
                n == lines.len(),
                i <= n,
                forall|a: int, b: int|
                    0 <= a < i && 0 <= b < lines.deep_view()[a].len() ==> all_white_space(
                        #[trigger] lines.deep_view()[a][b].content,
                    ),
            decreases n - i,
        {
            let line = &lines[i];
            let m = line.len();
            let mut j: usize = 0;
            while j < m
                invariant
                    n == lines.len(),
                    i < n,
                    *line == lines@[i as int],
                    m == line.len(),
                    j <= m,
                    forall|b: int| 0 <= b < j ==> all_white_space(#[trigger] lines.deep_view()[i as int][b].content),
                decreases m - j,
            {
                let chars = chars_of(line[j].content.as_str());
                let k_n = chars.len();
                let mut k: usize = 0;
                while k < k_n
                    invariant
                        k_n == chars.len(),
                        k <= k_n,
                        n == lines.len(),
                        i < n,
                        *line == lines@[i as int],
                        m == line.len(),
                        j < m,
                        chars@ == line@[j as int].content@,
                        forall|c: int| 0 <= c < k ==> is_white_space(#[trigger] chars@[c]),
                    decreases k_n - k,
                {
                    if !white_space(chars[k]) {
                        assert(lines.deep_view()[i as int] == line.deep_view());
                        assert(lines.deep_view()[i as int][j as int].content == chars@);
                        assert(!all_white_space(lines.deep_view()[i as int][j as int].content));
                        return false;
                    }
                    k = k + 1;
                }
                assert(lines.deep_view()[i as int] == line.deep_view());
                assert(lines.deep_view()[i as int][j as int].content == chars@);
                j = j + 1;
            }
            i = i + 1;
        }
        true
    }

    /// The columns a line of words takes, at most `usize::MAX`
    fn used_width(words: &Vec<Word>) -> (w: usize)
        ensures
            w == used_width(words.deep_view()),
    {
        let mut total: usize = 0;
        let n = words.len();
        let mut i: usize = 0;
        while i < n
            invariant
                n == words.len(),
                i <= n,
                total == (if line_width(words.deep_view().take(i as int)) <= usize::MAX {
                    line_width(words.deep_view().take(i as int))
                } else {
                    usize::MAX as nat
                }),
            decreases n - i,
        {
            let w = &words[i];
            assert(words.deep_view().take(i + 1).drop_last() =~= words.deep_view().take(i as int));
            assert(words.deep_view()[i as int] == w.deep_view());
            total = total.saturating_add(w.width).saturating_add(w.whitespace_width);
            i = i + 1;
        }
        assert(words.deep_view().take(n as int) =~= words.deep_view());
        total
    }

    /// Renders the children of a node on their own, `width` columns wide and
    /// in bold or not, and returns the lines
    pub fn render_subtree(doc: &Document, node: usize, width: u16, bold: bool) -> (lines: Vec<Vec<Word>>)
        requires
            tree_ordered(doc@),
            tables_fit(doc@, node),
            node < doc@.len(),
        ensures
            lines.deep_view() == subtree_lines(doc@, node, width, bold),
            children_table_free(doc@, node, children_of(doc@, node).len() as int) ==> shown(
                text_of_lines(lines.deep_view()),
            ) == children_text(doc@, node, children_of(doc@, node).len() as int),
        decreases doc@.len() - node, 3int, 0int,
    {
        let style = if bold { TextStyle::plain().add_modifier(BOLD) } else { TextStyle::plain() };
        let mut sub = Renderer::new(width, style);
        let ghost start = sub@;
        sub.render_children(doc, node);
        let ghost filled = sub@;
        sub.clear_line();
        proof {
            let k = children_of(doc@, node).len() as int;
            if children_table_free(doc@, node, k) {
                lemma_document_len(doc);
                lemma_children_text(start, doc@, node, k);
                lemma_quiet_ops(filled);
                assert(text_of(start) =~= seq![]);
                assert(shown(Seq::<WordView>::empty()) =~= seq![]);
                assert(sub@.current =~= seq![]);
                assert(text_words(sub@.current) =~= seq![]);
                assert(text_of(sub@) =~= text_of_lines(sub@.lines));
                assert(shown(text_of(start)) + children_text(doc@, node, k) =~= children_text(doc@, node, k));
            }
        }
        sub.rendered_lines
    }

    /// A table border, `col_count` columns of `col_width` wide, on a line of
    /// its own
    pub fn render_table_border(&mut self, col_count: usize, col_width: u16, pos: BorderPos)
        ensures
            final(self)@ == old(self)@.with_border(col_count as nat, col_width, pos),
    {
        let (left, fill, sep, right) = match pos {
            BorderPos::Top => ('┌', '─', '┬', '┐'),
            BorderPos::Middle => ('├', '─', '┼', '┤'),
            BorderPos::Bottom => ('└', '─', '┴', '┘'),
        };
        assert((left, fill, sep, right) == border_glyphs(pos));
        let mut line = String::new();
        push_char(&mut line, left);
        let mut i: usize = 0;
        while i < col_count
            invariant
                i <= col_count,
                (left, fill, sep, right) == border_glyphs(pos),
                line@ == seq![left] + border_columns(col_count as nat, col_width, pos, i as nat),
            decreases col_count - i,
        {
            let ghost before = line@;
            let mut j: u16 = 0;
            while j < col_width
                invariant
                    j <= col_width,
                    line@ == before + Seq::new(j as nat, |x: int| fill),
                decreases col_width - j,
            {
                push_char(&mut line, fill);
                j = j + 1;
                assert(line@ =~= before + Seq::new(j as nat, |x: int| fill));
            }
            push_char(&mut line, if i + 1 < col_count { sep } else { right });
            i = i + 1;
            assert(line@ =~= seq![left] + border_columns(col_count as nat, col_width, pos, i as nat));
        }
        self.clear_line();
        let width = line.as_str().unicode_len();
        let word = Word {
            index: NO_NODE,
            content: line,
            style: TextStyle::plain().fg(Color::DarkGray),
            width,
            whitespace_width: 0,
            penalty_width: 0,
        };
        assert(word.deep_view().content == border_line(col_count as nat, col_width, pos));
        push_word(&mut self.current_line, word);
        self.clear_line();
    }

    /// The widest row of a table, in columns
    fn table_column_count(doc: &Document, rows: &Vec<Vec<usize>>, Ghost(node): Ghost<usize>) -> (count: usize)
        requires
            tree_ordered(doc@),
            node < doc@.len(),
            rows.deep_view() == rows_below(doc@, node),
            table_fits(doc@, node),
        ensures
            count == column_count(doc@, rows_below(doc@, node)),
    {
        let ghost nodes = doc@;
        let ghost rv = rows_below(nodes, node);
        proof {
            lemma_rows_later(nodes, node);
        }
        let n = rows.len();
        let mut col_count: usize = 0;
        let mut i: usize = 0;
        while i < n
            invariant
                n == rows.len(),
                i <= n,
                rows.deep_view() == rv,
                nodes == doc@,
                table_fits(nodes, node),
                rv == rows_below(nodes, node),
                forall|a: int, b: int| 0 <= a < rv.len() && 0 <= b < rv[a].len() ==> node < #[trigger] rv[a][b] < nodes.len(),
                col_count == column_count(nodes, rv.take(i as int)),
            decreases n - i,
        {
            proof {
                lemma_index_vec_deep_view(rows[i as int]);
                assert(rows[i as int]@ == rv[i as int]);
                assert(rv.take(i + 1).drop_last() =~= rv.take(i as int));
                assert(rv.take(i + 1).last() == rv[i as int]);
            }
            let s = Self::row_span(doc, &rows[i]);
            if s > col_count {
                col_count = s;
            }
            i = i + 1;
        }
        assert(rv.take(n as int) =~= rv);
        col_count
    }

    /// Renders the rows of a table with a border between each two
    fn render_table_rows(&mut self, doc: &Document, rows: &Vec<Vec<usize>>, col_count: usize, col_width: u16, Ghost(node): Ghost<usize>)
        requires
            tree_ordered(doc@),
            forall|a: int, b: int|
                0 <= a < rows_below(doc@, node).len() && 0 <= b < rows_below(doc@, node)[a].len() ==> tables_fit(
                    doc@,
                    #[trigger] rows_below(doc@, node)[a][b],
                ),
            node < doc@.len(),
            rows.deep_view() == rows_below(doc@, node),
            col_count == column_count(doc@, rows_below(doc@, node)),
        ensures
            final(self)@ == rendered_rows(old(self)@, doc@, node, rows_below(doc@, node), col_count as nat, col_width, rows.len() as int),
        decreases doc@.len() - node, 5int, 0int,
    {
        let ghost nodes = doc@;
        let ghost rv = rows_below(nodes, node);
        let ghost s1 = self@;
        proof {
            lemma_rows_later(nodes, node);
        }
        let n = rows.len();
        let mut i: usize = 0;
        while i < n
            invariant
                n == rows.len(),
                i <= n,
                rows.deep_view() == rv,
                rv == rows_below(nodes, node),
                nodes == doc@,
                tree_ordered(doc@),
                forall|a: int, b: int| 0 <= a < rv.len() && 0 <= b < rv[a].len() ==> tables_fit(nodes, #[trigger] rv[a][b]),
                node < doc@.len(),
                forall|a: int, b: int| 0 <= a < rv.len() && 0 <= b < rv[a].len() ==> node < #[trigger] rv[a][b] < nodes.len(),
                col_count == column_count(nodes, rv),
                self@ == rendered_rows(s1, nodes, node, rv, col_count as nat, col_width, i as int),
            decreases n - i,
        {
            proof {
                lemma_index_vec_deep_view(rows[i as int]);
                assert(rows[i as int]@ == rv[i as int]);
                lemma_row_within_count(nodes, rv, i as int);
            }
            self.render_table_row(doc, &rows[i], col_count, col_width, Ghost(node));
            if i + 1 < n {
                self.render_table_border(col_count, col_width, BorderPos::Middle);
            }
            i = i + 1;
        }
    }

    /// Renders a table: its rows share columns of equal width, with borders
    /// above, below and between them
    #[verifier::spinoff_prover]
    pub fn render_table(&mut self, doc: &Document, node: usize)
        requires
            tree_ordered(doc@),
            tables_fit(doc@, node),
            node < doc@.len(),
            doc@[node as int].data is Table,
        ensures
            final(self)@ == rendered_table(old(self)@, doc@, node),
        decreases doc@.len() - node, 6int, 0int,
    {
        let ghost nodes = doc@;
        assert(table_fits(nodes, node));
        proof {
            lemma_rows_fit(nodes, node);
        }
        self.ensure_empty_line();
        let mut rows: Vec<Vec<usize>> = Vec::new();
        Self::collect_rows(doc, node, &mut rows);
        assert(rows.deep_view() =~= rows_below(nodes, node));
        let col_count = Self::table_column_count(doc, &rows, Ghost(node));
        if col_count == 0 {
            self.ensure_empty_line();
            return;
        }
        let border_chars: u16 = (col_count as u16).wrapping_add(1);
        let available: u16 = self.width.saturating_sub(border_chars);
        let per_col: u16 = available / (col_count as u16);
        let col_width: u16 = if per_col >= 3 { per_col } else { 3 };
        self.render_table_border(col_count, col_width, BorderPos::Top);
        self.render_table_rows(doc, &rows, col_count, col_width, Ghost(node));
        self.render_table_border(col_count, col_width, BorderPos::Bottom);
        self.ensure_empty_line();
    }

    /// Renders each cell of a row on its own, with its span
    #[verifier::rlimit(40)]
    fn render_cells(doc: &Document, cells: &Vec<usize>, col_width: u16, table: Ghost<usize>) -> (rendered: Vec<(Vec<Vec<Word>>, usize)>)
        requires
            tree_ordered(doc@),
            forall|j: int| 0 <= j < cells.len() ==> tables_fit(doc@, #[trigger] cells[j]),
            table@ < doc@.len(),
            forall|j: int| 0 <= j < cells.len() ==> table@ < #[trigger] cells[j] < doc@.len(),
        ensures
            rendered.deep_view() == rendered_cells(doc@, table@, cells@, col_width, cells.len() as int),
            spans_sum(rendered.deep_view()) == span_total(doc@, cells@),
        decreases doc@.len() - table@, 3int, 0int,
    {
        let ghost nodes = doc@;
        let ghost t = table@;
        let n = cells.len();
        let mut rendered: Vec<(Vec<Vec<Word>>, usize)> = Vec::new();
        let mut k: usize = 0;
        while k < n
            invariant
                tree_ordered(doc@),
                forall|j: int| 0 <= j < cells.len() ==> tables_fit(nodes, #[trigger] cells[j]),
                nodes == doc@,
                t == table@,
                t < nodes.len(),
                n == cells.len(),
                k <= n,
                forall|j: int| 0 <= j < cells.len() ==> t < #[trigger] cells[j] < nodes.len(),
                rendered.deep_view() == rendered_cells(nodes, t, cells@, col_width, k as int),
                spans_sum(rendered.deep_view()) == span_total(nodes, cells@.take(k as int)),
            decreases n - k,
        {
            let c = cells[k];
            let span = Self::cell_colspan(doc, c);
            let header = match doc.data(c) {
                Data::TableCell { header, .. } => *header,
                _ => false,
            };
            assert(header == is_header_cell(nodes[c as int].data));
            let width = col_width.wrapping_mul(span as u16).wrapping_add((span as u16).saturating_sub(1));
            let lines = Self::render_subtree(doc, c, width, header);
            let ghost r0 = rendered;
            rendered.push((lines, span));
            proof {
                crate::word::lemma_deep_view_push(r0, (lines, span), rendered);
                assert(cells@.take(k + 1).drop_last() =~= cells@.take(k as int));
                assert(cells@.take(k + 1).last() == c);
                assert(rendered.deep_view().drop_last() =~= r0.deep_view());
                assert(below(nodes, t, c));
                assert(rendered_cells(nodes, t, cells@, col_width, k + 1) == rendered_cells(nodes, t, cells@, col_width, k as int).push(
                    (subtree_lines(nodes, c, width, header), span),
                ));
            }
            k = k + 1;
        }
        assert(cells@.take(n as int) =~= cells@);
        rendered
    }

    /// Renders one row of a table: each cell on its own, `col_width` columns
    /// per spanned column, then the cells side by side line by line, empty
    /// neighbouring cells merged into one
    #[verifier::spinoff_prover]
    pub fn render_table_row(&mut self, doc: &Document, cells: &Vec<usize>, col_count: usize, col_width: u16, table: Ghost<usize>)
        requires
            tree_ordered(doc@),
            forall|j: int| 0 <= j < cells.len() ==> tables_fit(doc@, #[trigger] cells[j]),
            table@ < doc@.len(),
            forall|j: int| 0 <= j < cells.len() ==> table@ < #[trigger] cells[j] < doc@.len(),
            span_total(doc@, cells@) <= col_count,
        ensures
            final(self)@ == rendered_row(old(self)@, doc@, table@, cells@, col_count as nat, col_width),
        decreases doc@.len() - table@, 4int, 0int,
    {
        let ghost nodes = doc@;
        let ghost t = table@;
        let n = cells.len();
        let covered = Self::row_span(doc, cells);
        let mut rendered = Self::render_cells(doc, cells, col_width, Ghost(t));
        let ghost own = rendered.deep_view();
        if covered < col_count {
            let ghost r0 = rendered;
            let filler: Vec<Vec<Word>> = Vec::new();
            rendered.push((filler, col_count - covered));
            proof {
                crate::word::lemma_deep_view_push(r0, (filler, (col_count - covered) as usize), rendered);
                assert(filler.deep_view() =~= seq![]);
                assert(rendered.deep_view().drop_last() =~= r0.deep_view());
            }
        }
        let ghost all = rendered.deep_view();
        assert(spans_sum(all) <= col_count);
        let total = rendered.len();
        let mut merged: Vec<(Vec<Vec<Word>>, usize)> = Vec::new();
        let mut idx: usize = 0;
        while idx < total
            invariant
                total == all.len(),
                idx <= total,
                rendered.len() == total - idx,
                rendered.deep_view() == all.skip(idx as int),
                merged.deep_view() == merged_cells(all.take(idx as int)),
                spans_sum(all) <= col_count,
            decreases total - idx,
        {
            let ghost r0 = rendered;
            let (lines, span) = rendered.remove(0);
            proof {
                assert(rendered@ =~= r0@.drop_first());
                assert(rendered.deep_view() =~= r0.deep_view().drop_first());
                assert(r0.deep_view().drop_first() =~= all.skip(idx + 1));
                assert(r0.deep_view()[0] == (lines.deep_view(), span));
                assert(all.skip(idx as int)[0] == all[idx as int]);
                assert(all[idx as int] == (lines.deep_view(), span));
                assert(all.take(idx + 1).drop_last() =~= all.take(idx as int));
                lemma_spans_prefix(all, idx + 1);
                lemma_merged_spans(all.take(idx as int));
            }
            let empty = Self::cell_is_empty(&lines);
            let mut joined = false;
            if empty && merged.len() > 0 {
                let last = merged.len() - 1;
                if Self::cell_is_empty(&merged[last].0) {
                    let ghost m0 = merged;
                    let (l, s) = merged.pop().unwrap();
                    proof {
                        assert(m0.deep_view().last() == (l.deep_view(), s));
                        lemma_spans_last(m0.deep_view());
                    }
                    let ghost m1 = merged;
                    merged.push((l, s + span));
                    proof {
                        crate::word::lemma_deep_view_push(m1, (l, (s + span) as usize), merged);
                        assert(m1@ =~= m0@.drop_last());
                        assert(m1.deep_view() =~= m0.deep_view().drop_last());
                        assert(merged.deep_view() =~= merged_cells(all.take(idx + 1)));
                    }
                    joined = true;
                }
            }
            if !joined {
                let ghost m0 = merged;
                merged.push((lines, span));
                proof {
                    crate::word::lemma_deep_view_push(m0, (lines, span), merged);
                    assert(merged.deep_view() =~= merged_cells(all.take(idx + 1)));
                }
            }
            idx = idx + 1;
        }
        assert(all.take(total as int) =~= all);
        let ghost mv = merged.deep_view();
        let m = merged.len();
        let mut height: usize = 1;
        let mut j: usize = 0;
        while j < m
            invariant
                m == merged.len(),
                j <= m,
                mv == merged.deep_view(),
                height == row_height(mv.take(j as int)),
            decreases m - j,
        {
            assert(mv.take(j + 1).drop_last() =~= mv.take(j as int));
            assert(mv[j as int].0.len() == merged[j as int].0.len());
            if merged[j].0.len() > height {
                height = merged[j].0.len();
            }
            j = j + 1;
        }
        assert(mv.take(m as int) =~= mv);
        let ghost start = self@;
        let mut line_idx: usize = 0;
        while line_idx < height
            invariant
                m == merged.len(),
                mv == merged.deep_view(),
                line_idx <= height,
                self@ == start.with_row_lines(mv, col_width, line_idx as nat),
            decreases height - line_idx,
        {
            self.clear_line();
            let ghost cleared = self@;
            let bar = Word {
                index: NO_NODE,
                content: char_to_string('|'),
                style: TextStyle::plain().fg(Color::DarkGray),
                width: 1,
                whitespace_width: 0,
                penalty_width: 0,
            };
            push_word(&mut self.current_line, bar);
            assert(self@.current =~= seq![bar_word()] + cells_line(mv, col_width, line_idx as int, 0));
            let mut j: usize = 0;
            while j < m
                invariant
                    m == merged.len(),
                    mv == merged.deep_view(),
                    j <= m,
                    cleared.current.len() == 0,
                    self@ == (RenderState {
                        current: seq![bar_word()] + cells_line(mv, col_width, line_idx as int, j as int),
                        ..cleared
                    }),
                decreases m - j,
            {
                let span = merged[j].1;
                let width = col_width.wrapping_mul(span as u16).wrapping_add((span as u16).saturating_sub(1));
                let lines = &merged[j].0;
                let mut words: Vec<Word> = Vec::new();
                if line_idx < lines.len() {
                    let line = &lines[line_idx];
                    let w_n = line.len();
                    let mut w: usize = 0;
                    while w < w_n
                        invariant
                            w_n == line.len(),
                            w <= w_n,
                            words.deep_view() == line.deep_view().take(w as int),
                        decreases w_n - w,
                    {
                        push_word(&mut words, line[w].clone());
                        w = w + 1;
                        assert(words.deep_view() =~= line.deep_view().take(w as int));
                    }
                    assert(line.deep_view().take(w_n as int) =~= line.deep_view());
                } else {
                    assert(words.deep_view() =~= seq![]);
                }
                assert(mv[j as int] == (lines.deep_view(), span));
                let used = Self::used_width(&words);
                let gap = (width as usize).saturating_sub(used);
                let pad: u8 = if gap <= 255 { gap as u8 } else { 255 };
                let ghost cur = self.current_line;
                let ghost wv = words.deep_view();
                let ghost words0 = words;
                self.current_line.append(&mut words);
                proof {
                    lemma_deep_view_add(cur, words0, self.current_line);
                }
                let blank = self.n_whitespace(pad);
                push_word(&mut self.current_line, blank);
                let bar = Word {
                    index: NO_NODE,
                    content: char_to_string('|'),
                    style: TextStyle::plain().fg(Color::DarkGray),
                    width: 1,
                    whitespace_width: 0,
                    penalty_width: 0,
                };
                push_word(&mut self.current_line, bar);
                proof {
                    let c = cell_line(mv[j as int], col_width, line_idx as int);
                    assert(c == wv + seq![crate::word::blank_word(pad as usize), bar_word()]);
                    assert(cells_line(mv, col_width, line_idx as int, j + 1) == cells_line(
                        mv,
                        col_width,
                        line_idx as int,
                        j as int,
                    ) + c);
                    assert(self@.current =~= seq![bar_word()] + cells_line(mv, col_width, line_idx as int, j + 1));
                }
                j = j + 1;
            }
            proof {
                assert(row_line(mv, col_width, line_idx as int) == seq![bar_word()] + cells_line(
                    mv,
                    col_width,
                    line_idx as int,
                    m as int,
                ));
                assert(cleared == start.with_row_lines(mv, col_width, line_idx as nat).cleared());
                assert(cleared.current + row_line(mv, col_width, line_idx as int) =~= self@.current);
            }
            self.clear_line();
            line_idx = line_idx + 1;
        }
    }
}

} // verus!
