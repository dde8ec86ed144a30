//! Rendering each kind of document node.

use vstd::prelude::*;
use crate::document::{Data, Document, HeaderKind, Link, UnsupportedElement, tree_ordered, lemma_document_ordered, lemma_document_len};
use crate::layout::{all_children, rendered_children, rendered_node, rendered_block, rendered_styled, children_of, below, bullet_word, image_label, unsupported_message, DISAMBIGUATION_PADDING, DISAMBIGUATION_PREFIX, BLOCKQUOTE_PADDING, LIST_PADDING, LIST_PREFIX, tables_fit, lemma_child_fits, document_rendering};
use crate::renderer::Renderer;
use crate::style::{Color, BOLD, ITALIC, UNDERLINED};
use crate::text::is_blank;
use crate::word::{Word, NO_NODE, push_word, push_char};
use crate::laws::{text_of, text_of_lines, text_words};
use crate::text_law::{
    shown, words_of_node, node_text, table_free, lemma_shown_add, lemma_image_text, lemma_unsupported_text,
    lemma_node_text, lemma_document_text,
};

verus! {

/// Renders a document `width` columns wide
pub fn render_document(document: &Document, width: u16) -> (r: RenderedDocument)
    requires
        tables_fit(document@, 0),
    ensures
        r.lines.deep_view() == document_rendering(document@, width).lines,
        r.links@ == document_rendering(document@, width).links,
        document@.len() > 0 && table_free(document@, 0) ==> shown(text_of_lines(r.lines.deep_view())) + shown(
            text_words(document_rendering(document@, width).current),
        ) == node_text(document@, 0),
{
    Renderer::render_document(document, width)
}

/// A rendered document: its lines, and its links as `(line, node)`.
pub struct RenderedDocument {
    pub lines: Vec<Vec<Word>>,
    pub links: Vec<(usize, usize)>,
}

impl Renderer {
    /// Renders a document `width` columns wide, starting at its root; the
    /// line still being filled at the end is not part of the result
    pub fn render_document(document: &Document, width: u16) -> (r: RenderedDocument)
        requires
            tables_fit(document@, 0),
        ensures
            r.lines.deep_view() == document_rendering(document@, width).lines,
            r.links@ == document_rendering(document@, width).links,
            document@.len() > 0 && table_free(document@, 0) ==> shown(text_of_lines(r.lines.deep_view())) + shown(
                text_words(document_rendering(document@, width).current),
            ) == node_text(document@, 0),
    {
        proof {
            use_type_invariant(document);
            lemma_document_ordered(document);
            lemma_document_len(document);
            if document@.len() > 0 && table_free(document@, 0) {
                lemma_document_text(document@, width);
                let fin = document_rendering(document@, width);
                lemma_shown_add(text_of_lines(fin.lines), text_words(fin.current));
            }
        }
        if document.is_empty() {
            let lines: Vec<Vec<Word>> = Vec::new();
            assert(lines.deep_view() =~= seq![]);
            return RenderedDocument { lines, links: Vec::new() };
        }
        let mut renderer = Renderer::new(width, crate::style::TextStyle::plain());
        renderer.render_node(document, 0);
        RenderedDocument { lines: renderer.rendered_lines, links: renderer.links }
    }

    /// Renders every child of `node`, in order
    pub fn render_children(&mut self, doc: &Document, node: usize)
        requires
            tree_ordered(doc@),
            tables_fit(doc@, node),
            node < doc@.len(),
        ensures
            final(self)@ == all_children(old(self)@, doc@, node),
        decreases doc@.len() - node, 1int, 0int,
    {
        let ghost start = self@;
        let children = doc.children(node);
        let n = children.len();
        let mut i: usize = 0;
        while i < n
            invariant
                tree_ordered(doc@),
                tables_fit(doc@, node),
                node < doc@.len(),
                *children == doc@[node as int].children,
                n == children.len(),
                i <= n,
                self@ == rendered_children(start, doc@, node, i as int),
            decreases n - i,
        {
            let c = children[i];
            assert(children_of(doc@, node)[i as int] == c);
            assert(below(doc@, node, c));
            proof {
                lemma_child_fits(doc@, node, n as int, i + 1);
            }
            self.render_node(doc, c);
            i = i + 1;
        }
    }

    /// Renders a node according to what it is
    #[verifier::spinoff_prover]
    pub fn render_node(&mut self, doc: &Document, node: usize)
        requires
            tree_ordered(doc@),
            tables_fit(doc@, node),
            node < doc@.len(),
        ensures
            final(self)@ == rendered_node(old(self)@, doc@, node),
            table_free(doc@, node) ==> shown(text_of(final(self)@)) == shown(text_of(old(self)@)) + node_text(
                doc@,
                node,
            ),
        decreases doc@.len() - node, 7int, 0int,
    {
        proof {
            lemma_document_len(doc);
            if table_free(doc@, node) {
                lemma_node_text(self@, doc@, node);
            }
        }
        match doc.data(node) {
            Data::Section { .. } => self.render_section(doc, node),
            Data::Header { .. } => self.render_header(doc, node),
            Data::Text { .. } => self.render_text(doc, node),
            Data::Division => self.render_block_element(doc, node),
            Data::Paragraph => self.render_block_element(doc, node),
            Data::Span => self.render_span(doc, node),
            Data::Reflink => self.render_reflink(doc, node),
            Data::Hatnote => self.render_block_element(doc, node),
            Data::RedirectMessage => self.render_block_element(doc, node),
            Data::Disambiguation => self.render_disambiguation(doc, node),
            Data::Blockquote => self.render_block_quote(doc, node),
            Data::OrderedList => self.render_list(doc, node),
            Data::UnorderedList => self.render_list(doc, node),
            Data::ListItem => self.render_list_item(doc, node),
            Data::DescriptionList => self.render_block_element(doc, node),
            Data::DescriptionListTerm => self.render_description_list_term(doc, node),
            Data::DerscriptionListDescription => self.render_description_list_description(doc, node),
            Data::Bold => self.render_bold(doc, node),
            Data::Italic => self.render_italic(doc, node),
            Data::Linebreak => self.render_linebreak(doc, node),
            Data::Link(link) => self.render_link(doc, node, *link),
            Data::Unknown => self.render_children(doc, node),
            Data::Image(_) => self.render_image(doc, node),
            Data::Table => self.render_table(doc, node),
            Data::TableRow => self.render_children(doc, node),
            Data::TableCell { .. } => self.render_children(doc, node),
            Data::Unsupported(element) => self.render_unsupported_element(false, *element, node),
            Data::UnsupportedInline(element) => self.render_unsupported_element(true, *element, node),
        }
    }

    /// Renders a section between empty lines
    pub fn render_section(&mut self, doc: &Document, node: usize)
        requires
            tree_ordered(doc@),
            tables_fit(doc@, node),
            node < doc@.len(),
            doc@[node as int].data is Section,
        ensures
            final(self)@ == rendered_node(old(self)@, doc@, node),
        decreases doc@.len() - node, 6int, 0int,
    {
        self.render_block_element(doc, node);
    }

    /// Renders a heading in red: bold unless it is a main or sub heading,
    /// which get a horizontal rule below instead
    #[verifier::spinoff_prover]
    pub fn render_header(&mut self, doc: &Document, node: usize)
        requires
            tree_ordered(doc@),
            tables_fit(doc@, node),
            node < doc@.len(),
            doc@[node as int].data is Header,
        ensures
            final(self)@ == rendered_node(old(self)@, doc@, node),
        decreases doc@.len() - node, 6int, 0int,
    {
        let kind = match doc.data(node) {
            Data::Header { kind, .. } => *kind,
            _ => {
                return;
            },
        };
        let major = match kind {
            HeaderKind::Main | HeaderKind::Sub => true,
            _ => false,
        };
        self.ensure_empty_line();
        if !major {
            self.add_modifier(BOLD);
        }
        self.set_text_fg(Color::Red);
        self.render_children(doc, node);
        if !major {
            self.remove_modifier(BOLD);
        }
        self.reset_text_fg();
        if major {
            self.clear_line();
            self.add_horizontal_line();
        }
        self.ensure_empty_line();
    }

    /// Renders a text node's contents, then its children
    pub fn render_text(&mut self, doc: &Document, node: usize)
        requires
            tree_ordered(doc@),
            tables_fit(doc@, node),
            node < doc@.len(),
            doc@[node as int].data is Text,
        ensures
            final(self)@ == rendered_node(old(self)@, doc@, node),
        decreases doc@.len() - node, 6int, 0int,
    {
        match doc.data(node) {
            Data::Text { contents } => self.render_string(contents.as_str(), node),
            _ => {
                return;
            },
        }
        self.render_children(doc, node);
    }

    /// Renders a block's children between empty lines
    pub fn render_block_element(&mut self, doc: &Document, node: usize)
        requires
            tree_ordered(doc@),
            tables_fit(doc@, node),
            node < doc@.len(),
        ensures
            final(self)@ == rendered_block(old(self)@, doc@, node),
        decreases doc@.len() - node, 5int, 0int,
    {
        self.ensure_empty_line();
        self.render_children(doc, node);
        self.ensure_empty_line();
    }

    /// Renders a span's children, then a whitespace
    pub fn render_span(&mut self, doc: &Document, node: usize)
        requires
            tree_ordered(doc@),
            tables_fit(doc@, node),
            node < doc@.len(),
            doc@[node as int].data is Span,
        ensures
            final(self)@ == rendered_node(old(self)@, doc@, node),
        decreases doc@.len() - node, 6int, 0int,
    {
        self.render_children(doc, node);
        self.add_whitespace();
    }

    /// Renders children with a modifier and optionally a colour, then a
    /// whitespace
    fn render_styled(&mut self, doc: &Document, node: usize, modifier: u16, color: Option<Color>)
        requires
            tree_ordered(doc@),
            tables_fit(doc@, node),
            node < doc@.len(),
        ensures
            final(self)@ == rendered_styled(old(self)@, doc@, node, modifier, color),
        decreases doc@.len() - node, 4int, 0int,
    {
        self.add_modifier(modifier);
        match color {
            Some(c) => self.set_text_fg(c),
            None => {},
        }
        self.render_children(doc, node);
        match color {
            Some(_) => self.reset_text_fg(),
            None => {},
        }
        self.remove_modifier(modifier);
        self.add_whitespace();
    }

    /// Renders a reference link in grey italics
    pub fn render_reflink(&mut self, doc: &Document, node: usize)
        requires
            tree_ordered(doc@),
            tables_fit(doc@, node),
            node < doc@.len(),
            doc@[node as int].data is Reflink,
        ensures
            final(self)@ == rendered_node(old(self)@, doc@, node),
        decreases doc@.len() - node, 6int, 0int,
    {
        self.render_styled(doc, node, ITALIC, Some(Color::Gray));
    }

    /// Renders a disambiguation note: italic, padded and prefixed
    pub fn render_disambiguation(&mut self, doc: &Document, node: usize)
        requires
            tree_ordered(doc@),
            tables_fit(doc@, node),
            node < doc@.len(),
            doc@[node as int].data is Disambiguation,
        ensures
            final(self)@ == rendered_node(old(self)@, doc@, node),
        decreases doc@.len() - node, 6int, 0int,
    {
        self.ensure_empty_line();
        self.add_modifier(ITALIC);
        self.add_n_padding(DISAMBIGUATION_PADDING);
        self.set_prefix(DISAMBIGUATION_PREFIX);
        self.render_children(doc, node);
        self.reset_prefix();
        self.remove_n_padding(DISAMBIGUATION_PADDING);
        self.remove_modifier(ITALIC);
        self.ensure_empty_line();
    }

    /// Renders a block quote with extra padding
    pub fn render_block_quote(&mut self, doc: &Document, node: usize)
        requires
            tree_ordered(doc@),
            tables_fit(doc@, node),
            node < doc@.len(),
            doc@[node as int].data is Blockquote,
        ensures
            final(self)@ == rendered_node(old(self)@, doc@, node),
        decreases doc@.len() - node, 6int, 0int,
    {
        self.add_n_padding(BLOCKQUOTE_PADDING);
        self.render_block_element(doc, node);
        self.remove_n_padding(BLOCKQUOTE_PADDING);
    }

    /// Renders a list with extra padding, between empty lines
    pub fn render_list(&mut self, doc: &Document, node: usize)
        requires
            tree_ordered(doc@),
            tables_fit(doc@, node),
            node < doc@.len(),
            doc@[node as int].data is OrderedList || doc@[node as int].data is UnorderedList,
        ensures
            final(self)@ == rendered_node(old(self)@, doc@, node),
        decreases doc@.len() - node, 6int, 0int,
    {
        self.ensure_empty_line();
        self.add_n_padding(LIST_PADDING);
        self.render_children(doc, node);
        self.remove_n_padding(LIST_PADDING);
        self.ensure_empty_line();
    }

    /// Renders a list item on lines of its own, after a bullet
    pub fn render_list_item(&mut self, doc: &Document, node: usize)
        requires
            tree_ordered(doc@),
            tables_fit(doc@, node),
            node < doc@.len(),
            doc@[node as int].data is ListItem,
        ensures
            final(self)@ == rendered_node(old(self)@, doc@, node),
        decreases doc@.len() - node, 6int, 0int,
    {
        self.clear_line();
        let mut content = String::new();
        let mut i: u8 = 0;
        while i < self.left_padding
            invariant
                i <= self.left_padding,
                content@ == Seq::new(i as nat, |k: int| ' '),
            decreases self.left_padding - i,
        {
            push_char(&mut content, ' ');
            i = i + 1;
            assert(content@ =~= Seq::new(i as nat, |k: int| ' '));
        }
        push_char(&mut content, LIST_PREFIX);
        let bullet = Word {
            index: NO_NODE,
            content,
            style: crate::style::TextStyle::plain(),
            width: 1,
            whitespace_width: 1,
            penalty_width: 0,
        };
        assert(bullet.deep_view() == bullet_word(self@.padding));
        push_word(&mut self.current_line, bullet);
        self.add_n_padding(2);
        self.render_children(doc, node);
        self.remove_n_padding(2);
        self.clear_line();
    }

    /// Renders a description list term on lines of its own
    pub fn render_description_list_term(&mut self, doc: &Document, node: usize)
        requires
            tree_ordered(doc@),
            tables_fit(doc@, node),
            node < doc@.len(),
            doc@[node as int].data is DescriptionListTerm,
        ensures
            final(self)@ == rendered_node(old(self)@, doc@, node),
        decreases doc@.len() - node, 6int, 0int,
    {
        self.clear_line();
        self.render_children(doc, node);
        self.clear_line();
    }

    /// Renders a description list description on lines of its own
    pub fn render_description_list_description(&mut self, doc: &Document, node: usize)
        requires
            tree_ordered(doc@),
            tables_fit(doc@, node),
            node < doc@.len(),
            doc@[node as int].data is DerscriptionListDescription,
        ensures
            final(self)@ == rendered_node(old(self)@, doc@, node),
        decreases doc@.len() - node, 6int, 0int,
    {
        self.clear_line();
        self.render_children(doc, node);
        self.clear_line();
    }

    /// Renders children in bold, then a whitespace
    pub fn render_bold(&mut self, doc: &Document, node: usize)
        requires
            tree_ordered(doc@),
            tables_fit(doc@, node),
            node < doc@.len(),
            doc@[node as int].data is Bold,
        ensures
            final(self)@ == rendered_node(old(self)@, doc@, node),
        decreases doc@.len() - node, 6int, 0int,
    {
        self.add_modifier(BOLD);
        self.render_children(doc, node);
        self.remove_modifier(BOLD);
        self.add_whitespace();
    }

    /// Renders children in blue italics, then a whitespace
    pub fn render_italic(&mut self, doc: &Document, node: usize)
        requires
            tree_ordered(doc@),
            tables_fit(doc@, node),
            node < doc@.len(),
            doc@[node as int].data is Italic,
        ensures
            final(self)@ == rendered_node(old(self)@, doc@, node),
        decreases doc@.len() - node, 6int, 0int,
    {
        self.render_styled(doc, node, ITALIC, Some(Color::Blue));
    }

    /// Starts a new line, then renders the children
    pub fn render_linebreak(&mut self, doc: &Document, node: usize)
        requires
            tree_ordered(doc@),
            tables_fit(doc@, node),
            node < doc@.len(),
            doc@[node as int].data is Linebreak,
        ensures
            final(self)@ == rendered_node(old(self)@, doc@, node),
        decreases doc@.len() - node, 6int, 0int,
    {
        self.clear_line();
        self.render_children(doc, node);
    }

    /// Records the link with the line it starts on, then renders it in the
    /// style of its kind
    pub fn render_link(&mut self, doc: &Document, node: usize, link: Link)
        requires
            tree_ordered(doc@),
            tables_fit(doc@, node),
            node < doc@.len(),
            doc@[node as int].data == Data::Link(link),
        ensures
            final(self)@ == rendered_node(old(self)@, doc@, node),
        decreases doc@.len() - node, 6int, 0int,
    {
        let line = self.rendered_lines.len();
        self.links.push((line, node));
        match link {
            Link::Internal => self.render_wiki_link(doc, node),
            Link::Anchor => self.render_wiki_link(doc, node),
            Link::RedLink => self.render_red_link(doc, node),
            Link::MediaLink => self.render_media_link(doc, node),
            Link::External => self.render_external_link(doc, node),
            Link::ExternalToInternal => self.render_external_link(doc, node),
        }
    }

    /// Renders a link to another article in blue
    pub fn render_wiki_link(&mut self, doc: &Document, node: usize)
        requires
            tree_ordered(doc@),
            tables_fit(doc@, node),
            node < doc@.len(),
        ensures
            final(self)@ == ({
                let s1 = old(self)@.with_style(crate::style::style_with_fg(old(self)@.style, Color::Blue));
                let s2 = all_children(s1, doc@, node);
                s2.with_style(crate::style::style_without_fg(s2.style)).with_whitespace()
            }),
        decreases doc@.len() - node, 5int, 0int,
    {
        self.set_text_fg(Color::Blue);
        self.render_children(doc, node);
        self.reset_text_fg();
        self.add_whitespace();
    }

    /// Renders a link to a missing article in red italics
    pub fn render_red_link(&mut self, doc: &Document, node: usize)
        requires
            tree_ordered(doc@),
            tables_fit(doc@, node),
            node < doc@.len(),
        ensures
            final(self)@ == rendered_styled(old(self)@, doc@, node, ITALIC, Some(Color::Red)),
        decreases doc@.len() - node, 5int, 0int,
    {
        self.render_styled(doc, node, ITALIC, Some(Color::Red));
    }

    /// Renders a link to a media file in blue italics
    pub fn render_media_link(&mut self, doc: &Document, node: usize)
        requires
            tree_ordered(doc@),
            tables_fit(doc@, node),
            node < doc@.len(),
        ensures
            final(self)@ == rendered_styled(old(self)@, doc@, node, ITALIC, Some(Color::Blue)),
        decreases doc@.len() - node, 5int, 0int,
    {
        self.render_styled(doc, node, ITALIC, Some(Color::Blue));
    }

    /// Renders an external link in italics
    pub fn render_external_link(&mut self, doc: &Document, node: usize)
        requires
            tree_ordered(doc@),
            tables_fit(doc@, node),
            node < doc@.len(),
        ensures
            final(self)@ == rendered_styled(old(self)@, doc@, node, ITALIC, None),
        decreases doc@.len() - node, 5int, 0int,
    {
        self.render_styled(doc, node, ITALIC, None);
    }

    /// Renders an image as its label in blue, underlined italics, between
    /// empty lines
    #[verifier::spinoff_prover]
    pub fn render_image(&mut self, doc: &Document, node: usize)
        requires
            tree_ordered(doc@),
            tables_fit(doc@, node),
            node < doc@.len(),
            doc@[node as int].data is Image,
        ensures
            final(self)@ == rendered_node(old(self)@, doc@, node),
            shown(text_of(final(self)@)) == shown(text_of(old(self)@)) + node_text(doc@, node),
    {
        proof {
            lemma_document_len(doc);
            lemma_image_text(self@, doc@, node);
        }
        let image = match doc.data(node) {
            Data::Image(image) => image,
            _ => {
                return;
            },
        };
        self.ensure_empty_line();
        self.add_modifier(ITALIC | UNDERLINED);
        self.set_text_fg(Color::Blue);
        let mut label = String::from_str("[img]");
        if !is_blank(image.alt.as_str()) {
            label = String::from_str("[img] ");
            label.append(image.alt.as_str());
        }
        proof {
            reveal_strlit("[img]");
            reveal_strlit("[img] ");
        }
        assert(label@ == image_label(image.alt@));
        self.render_string(label.as_str(), node);
        self.reset_text_fg();
        self.remove_modifier(ITALIC | UNDERLINED);
        self.ensure_empty_line();
    }

    /// Renders a placeholder for an element that is not supported
    pub fn render_unsupported_element(&mut self, inline: bool, element: UnsupportedElement, index: usize)
        ensures
            final(self)@ == old(self)@.with_unsupported(inline, element, index),
            index != NO_NODE ==> shown(text_of(final(self)@)) == shown(text_of(old(self)@)) + words_of_node(
                if inline { "[x]"@ } else { unsupported_message(element) },
                index,
            ),
    {
        proof {
            if index != NO_NODE {
                lemma_unsupported_text(self@, inline, element, index);
            }
        }
        if inline {
            self.add_modifier(ITALIC);
            self.add_whitespace();
            self.set_text_fg(Color::DarkGray);
            self.render_string("[x]", index);
            self.reset_text_fg();
            self.add_whitespace();
            self.remove_modifier(ITALIC);
            return;
        }
        self.ensure_empty_line();
        self.add_modifier(ITALIC);
        let message = match element {
            UnsupportedElement::Figure => "<Unsupported Element 'Figure'>",
            UnsupportedElement::MathElement => "<Unsupported Element 'Math Element'>",
            UnsupportedElement::PreformattedText => "<Unsupported Element 'PreformattedText'>",
        };
        self.render_string(message, index);
        self.remove_modifier(ITALIC);
        self.add_empty_line();
    }
}

} // verus!
