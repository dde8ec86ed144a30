use wiki_tui::document::{Data, Document, HeaderKind, ImageData, Link, UnsupportedElement};
use wiki_tui::render_document;
use wiki_tui::style::{Color, BOLD, ITALIC, UNDERLINED};
use wiki_tui::word::{Word, NO_NODE};

fn contents(line: &[Word]) -> Vec<String> {
    line.iter().map(|w| w.content.clone()).collect()
}

fn text_doc(container: Data, text: &str) -> Document {
    let mut doc = Document::new();
    let root = doc.add_node(container).unwrap();
    doc.add_child(root, Data::Text { contents: text.to_string() }).unwrap();
    doc
}

#[test]
fn empty_document_renders_nothing() {
    let doc = Document::new();
    let r = render_document(&doc, 40);
    assert!(r.lines.is_empty());
    assert!(r.links.is_empty());
}

#[test]
fn paragraph_sits_between_empty_lines() {
    let doc = text_doc(Data::Paragraph, "Hello world");
    let r = render_document(&doc, 20);
    assert_eq!(r.lines.len(), 3);
    assert!(r.lines[0].is_empty());
    assert_eq!(contents(&r.lines[1]), vec!["", "Hello", "world"]);
    assert!(r.lines[2].is_empty());
    let hello = &r.lines[1][1];
    assert_eq!(hello.index, 1);
    assert_eq!(hello.width, 5);
    assert_eq!(hello.whitespace_width, 1);
    let world = &r.lines[1][2];
    assert_eq!(world.whitespace_width, 0);
    assert_eq!(r.lines[1][0].index, NO_NODE);
}

#[test]
fn trailing_space_keeps_the_last_whitespace() {
    let doc = text_doc(Data::Paragraph, "Hello world ");
    let r = render_document(&doc, 20);
    assert_eq!(r.lines[1][2].whitespace_width, 1);
}

#[test]
fn long_text_wraps_to_the_width() {
    let doc = text_doc(Data::Paragraph, "aaa bbb ccc ddd");
    let r = render_document(&doc, 10);
    assert_eq!(r.lines.len(), 4);
    assert_eq!(contents(&r.lines[1]), vec!["", "aaa", "bbb"]);
    assert_eq!(contents(&r.lines[2]), vec!["", "ccc", "ddd"]);
    assert!(r.lines[3].is_empty());
}

#[test]
fn wrapped_text_keeps_every_word_in_order() {
    let text = "the quick brown fox jumps over the lazy dog and keeps on running far away";
    let doc = text_doc(Data::Paragraph, text);
    let r = render_document(&doc, 16);
    let words: Vec<String> = r
        .lines
        .iter()
        .flat_map(|l| l.iter())
        .filter(|w| w.index != NO_NODE)
        .map(|w| w.content.clone())
        .collect();
    let expected: Vec<String> = text.split_whitespace().map(|s| s.to_string()).collect();
    assert_eq!(words, expected);
}

#[test]
fn bold_text_is_bold_and_followed_by_a_space() {
    let mut doc = Document::new();
    let root = doc.add_node(Data::Paragraph).unwrap();
    let bold = doc.add_child(root, Data::Bold).unwrap();
    doc.add_child(bold, Data::Text { contents: "hi".to_string() }).unwrap();
    let r = render_document(&doc, 20);
    let line = &r.lines[1];
    assert_eq!(contents(line), vec!["", "hi", ""]);
    assert_eq!(line[1].style.add_modifier & BOLD, BOLD);
    assert_eq!(line[2].index, NO_NODE);
    assert_eq!(line[2].whitespace_width, 1);
}

#[test]
fn links_record_the_line_they_start_on() {
    let mut doc = Document::new();
    let root = doc.add_node(Data::Paragraph).unwrap();
    let link = doc.add_child(root, Data::Link(Link::Internal)).unwrap();
    doc.add_child(link, Data::Text { contents: "x".to_string() }).unwrap();
    let r = render_document(&doc, 20);
    assert_eq!(r.links, vec![(1, 1)]);
    assert_eq!(r.lines[1][1].style.fg, Some(Color::Blue));
}

#[test]
fn main_header_gets_a_rule() {
    let doc = text_doc(Data::Header { id: "h".to_string(), kind: HeaderKind::Main }, "Title");
    let r = render_document(&doc, 12);
    assert_eq!(r.lines.len(), 4);
    assert_eq!(contents(&r.lines[1]), vec!["", "Title"]);
    assert_eq!(r.lines[1][1].style.fg, Some(Color::Red));
    assert_eq!(r.lines[1][1].style.add_modifier & BOLD, 0);
    let rule = &r.lines[2][0];
    assert_eq!(rule.width, 12);
    assert_eq!(rule.content, "─".repeat(12));
    assert!(r.lines[3].is_empty());
}

#[test]
fn minor_header_is_bold() {
    let doc = text_doc(Data::Header { id: "h".to_string(), kind: HeaderKind::Minor }, "Small");
    let r = render_document(&doc, 12);
    assert_eq!(r.lines.len(), 3);
    assert_eq!(r.lines[1][1].style.add_modifier & BOLD, BOLD);
}

#[test]
fn punctuation_takes_back_the_space_before_it() {
    let mut doc = Document::new();
    let root = doc.add_node(Data::Paragraph).unwrap();
    let span = doc.add_child(root, Data::Span).unwrap();
    doc.add_child(span, Data::Text { contents: "word".to_string() }).unwrap();
    doc.add_child(root, Data::Text { contents: ", more".to_string() }).unwrap();
    let r = render_document(&doc, 40);
    assert_eq!(contents(&r.lines[1]), vec!["", "word", ",", "more"]);
}

#[test]
fn list_items_get_a_bullet_and_padding() {
    let mut doc = Document::new();
    let list = doc.add_node(Data::UnorderedList).unwrap();
    let item = doc.add_child(list, Data::ListItem).unwrap();
    doc.add_child(item, Data::Text { contents: "one".to_string() }).unwrap();
    let r = render_document(&doc, 20);
    assert_eq!(contents(&r.lines[1]), vec![" -", "one"]);
    assert_eq!(r.lines[1][0].width, 1);
}

#[test]
fn disambiguation_lines_get_a_prefix() {
    let doc = text_doc(Data::Disambiguation, "see also");
    let r = render_document(&doc, 40);
    assert_eq!(contents(&r.lines[1]), vec!["", "|", "see", "also"]);
    assert_eq!(r.lines[1][0].whitespace_width, 1);
    assert_eq!(r.lines[1][2].style.add_modifier & ITALIC, ITALIC);
}

#[test]
fn image_shows_its_label() {
    let mut doc = Document::new();
    doc.add_node(Data::Image(ImageData { alt: "a cat".to_string() })).unwrap();
    let r = render_document(&doc, 40);
    assert_eq!(contents(&r.lines[1]), vec!["", "[img]", "a", "cat"]);
    assert_eq!(r.lines[1][1].style.add_modifier & (ITALIC | UNDERLINED), ITALIC | UNDERLINED);
    let mut doc = Document::new();
    doc.add_node(Data::Image(ImageData { alt: "  ".to_string() })).unwrap();
    let r = render_document(&doc, 40);
    assert_eq!(contents(&r.lines[1]), vec!["", "[img]"]);
}

#[test]
fn unsupported_elements_show_a_message() {
    let mut doc = Document::new();
    doc.add_node(Data::Unsupported(UnsupportedElement::Figure)).unwrap();
    let r = render_document(&doc, 80);
    assert_eq!(contents(&r.lines[1]), vec!["", "<Unsupported", "Element", "'Figure'>"]);
    assert!(r.lines[2].is_empty());
    assert_eq!(r.lines.len(), 3);
}

#[test]
fn inline_unsupported_elements_show_a_mark() {
    let mut doc = Document::new();
    let root = doc.add_node(Data::Paragraph).unwrap();
    doc.add_child(root, Data::UnsupportedInline(UnsupportedElement::MathElement)).unwrap();
    let r = render_document(&doc, 80);
    assert_eq!(contents(&r.lines[1]), vec!["", "[x]", ""]);
    assert_eq!(r.lines[1][0].whitespace_width, 1);
    assert_eq!(r.lines[1][1].style.fg, Some(Color::DarkGray));
    assert_eq!(r.lines[1][1].style.add_modifier & ITALIC, ITALIC);
}

#[test]
fn table_cells_sit_between_borders() {
    let mut doc = Document::new();
    let table = doc.add_node(Data::Table).unwrap();
    let row = doc.add_child(table, Data::TableRow).unwrap();
    let a = doc.add_child(row, Data::TableCell { colspan: 1, header: false }).unwrap();
    doc.add_child(a, Data::Text { contents: "a".to_string() }).unwrap();
    let b = doc.add_child(row, Data::TableCell { colspan: 1, header: true }).unwrap();
    doc.add_child(b, Data::Text { contents: "b".to_string() }).unwrap();
    let r = render_document(&doc, 20);
    assert_eq!(r.lines.len(), 5);
    assert!(r.lines[0].is_empty());
    assert_eq!(contents(&r.lines[1]), vec!["┌────────┬────────┐"]);
    assert_eq!(r.lines[1][0].width, 19);
    assert_eq!(contents(&r.lines[2]), vec!["|", "", "a", "", "|", "", "b", "", "|"]);
    assert_eq!(r.lines[2][3].whitespace_width, 7);
    assert_eq!(r.lines[2][6].style.add_modifier & BOLD, BOLD);
    assert_eq!(contents(&r.lines[3]), vec!["└────────┴────────┘"]);
    assert!(r.lines[4].is_empty());
    let row_width: usize = r.lines[2].iter().map(|w| w.width + w.whitespace_width).sum();
    assert_eq!(row_width, r.lines[1][0].width);
}

#[test]
fn empty_cells_merge_and_short_rows_are_filled() {
    let mut doc = Document::new();
    let table = doc.add_node(Data::Table).unwrap();
    let row1 = doc.add_child(table, Data::TableRow).unwrap();
    for _ in 0..3 {
        doc.add_child(row1, Data::TableCell { colspan: 1, header: false }).unwrap();
    }
    let row2 = doc.add_child(table, Data::TableRow).unwrap();
    let c = doc.add_child(row2, Data::TableCell { colspan: 0, header: false }).unwrap();
    doc.add_child(c, Data::Text { contents: "x".to_string() }).unwrap();
    let r = render_document(&doc, 16);
    assert_eq!(contents(&r.lines[1]), vec!["┌────┬────┬────┐"]);
    assert_eq!(contents(&r.lines[2]), vec!["|", "", "|"]);
    assert_eq!(r.lines[2][1].whitespace_width, 14);
    assert_eq!(contents(&r.lines[3]), vec!["├────┼────┼────┤"]);
    assert_eq!(contents(&r.lines[4]), vec!["|", "", "x", "", "|", "", "|"]);
    assert_eq!(r.lines[4][3].whitespace_width, 3);
    assert_eq!(r.lines[4][5].whitespace_width, 9);
    assert_eq!(contents(&r.lines[5]), vec!["└────┴────┴────┘"]);
}

#[test]
fn table_without_cells_is_just_an_empty_line() {
    let mut doc = Document::new();
    let table = doc.add_node(Data::Table).unwrap();
    doc.add_child(table, Data::TableRow).unwrap();
    let r = render_document(&doc, 16);
    assert_eq!(r.lines.len(), 1);
    assert!(r.lines[0].is_empty());
}

#[test]
fn block_quotes_are_padded() {
    let doc = text_doc(Data::Blockquote, "quoted");
    let r = render_document(&doc, 40);
    assert_eq!(contents(&r.lines[1]), vec!["", "quoted"]);
    assert_eq!(r.lines[1][0].whitespace_width, 4);
}

#[test]
fn last_unfinished_line_is_not_returned() {
    let doc = text_doc(Data::Span, "dangling");
    let r = render_document(&doc, 40);
    assert!(r.lines.is_empty());
}

#[test]
fn add_child_refuses_missing_parents() {
    let mut doc = Document::new();
    assert_eq!(doc.add_child(0, Data::Unknown), None);
    let root = doc.add_node(Data::Unknown).unwrap();
    assert_eq!(root, 0);
    assert_eq!(doc.add_child(5, Data::Unknown), None);
    assert_eq!(doc.add_child(root, Data::Unknown), Some(1));
    assert_eq!(doc.children(0), &vec![1]);
    assert_eq!(doc.len(), 2);
}

#[test]
fn every_link_points_at_a_line() {
    let mut doc = Document::new();
    let root = doc.add_node(Data::Section { id: "s".to_string() }).unwrap();
    for i in 0..4 {
        let p = doc.add_child(root, Data::Paragraph).unwrap();
        let l = doc.add_child(p, Data::Link(if i % 2 == 0 { Link::External } else { Link::RedLink })).unwrap();
        doc.add_child(l, Data::Text { contents: format!("link number {i}") }).unwrap();
    }
    let r = render_document(&doc, 12);
    assert_eq!(r.links.len(), 4);
    let mut last = 0;
    for (line, node) in &r.links {
        assert!(*line <= r.lines.len());
        assert!(*line >= last);
        last = *line;
        assert!(matches!(doc.data(*node), Data::Link(_)));
    }
    assert_eq!(r.links[0], (1, 2));
}

#[test]
fn punctuation_does_not_take_back_a_bullet() {
    let mut doc = Document::new();
    let list = doc.add_node(Data::UnorderedList).unwrap();
    let item = doc.add_child(list, Data::ListItem).unwrap();
    doc.add_child(item, Data::Text { contents: ", then".to_string() }).unwrap();
    let r = render_document(&doc, 20);
    assert_eq!(contents(&r.lines[1]), vec![" -", ",", "then"]);
}

#[test]
fn nested_text_keeps_every_word_in_order() {
    let mut doc = Document::new();
    let root = doc.add_node(Data::Section { id: "s".to_string() }).unwrap();
    let p = doc.add_child(root, Data::Paragraph).unwrap();
    doc.add_child(p, Data::Text { contents: "one two".to_string() }).unwrap();
    let b = doc.add_child(p, Data::Bold).unwrap();
    doc.add_child(b, Data::Text { contents: "three".to_string() }).unwrap();
    let l = doc.add_child(p, Data::Link(Link::Internal)).unwrap();
    doc.add_child(l, Data::Text { contents: "four five six".to_string() }).unwrap();
    let r = render_document(&doc, 9);
    let words: Vec<(usize, String)> = r
        .lines
        .iter()
        .flat_map(|line| line.iter())
        .filter(|w| w.index != NO_NODE)
        .map(|w| (w.index, w.content.clone()))
        .collect();
    let expected: Vec<(usize, String)> = vec![
        (2, "one".to_string()),
        (2, "two".to_string()),
        (4, "three".to_string()),
        (6, "four".to_string()),
        (6, "five".to_string()),
        (6, "six".to_string()),
    ];
    assert_eq!(words, expected);
}
