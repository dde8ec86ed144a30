use wiki_tui::document::{Data, Document};
use wiki_tui::layout::BorderPos;
use wiki_tui::renderer::Renderer;
use wiki_tui::style::{Color, TextStyle, BOLD, ITALIC};
use wiki_tui::text::split_words;
use wiki_tui::word::{Word, NO_NODE};

fn word(index: usize, text: &str, whitespace: usize) -> Word {
    Word {
        index,
        content: text.to_string(),
        style: TextStyle::plain(),
        width: text.chars().count(),
        whitespace_width: whitespace,
        penalty_width: 0,
    }
}

fn contents(line: &[Word]) -> Vec<String> {
    line.iter().map(|w| w.content.clone()).collect()
}

#[test]
fn add_whitespace_adds_at_most_one() {
    let mut r = Renderer::new(20, TextStyle::plain());
    r.add_whitespace();
    r.add_whitespace();
    assert_eq!(r.current().len(), 1);
    assert!(r.is_last_whitespace());
    let w = &r.current()[0];
    assert_eq!((w.index, w.width, w.whitespace_width), (NO_NODE, 0, 1));
}

#[test]
fn n_whitespace_is_blank_space() {
    let r = Renderer::new(20, TextStyle::plain());
    let w = r.n_whitespace(7);
    assert_eq!(w.index, NO_NODE);
    assert_eq!(w.content, "");
    assert_eq!(w.width, 0);
    assert_eq!(w.whitespace_width, 7);
    assert_eq!(w.penalty_width, 0);
}

#[test]
fn clear_line_moves_only_a_non_empty_line() {
    let mut r = Renderer::new(20, TextStyle::plain());
    r.clear_line();
    assert!(r.lines().is_empty());
    r.add_whitespace();
    r.clear_line();
    assert_eq!(r.lines().len(), 1);
    assert!(r.current().is_empty());
    r.clear_line();
    assert_eq!(r.lines().len(), 1);
}

#[test]
fn ensure_empty_line_adds_one_empty_line() {
    let mut r = Renderer::new(20, TextStyle::plain());
    assert!(!r.is_last_empty());
    r.ensure_empty_line();
    r.ensure_empty_line();
    assert_eq!(r.lines().len(), 1);
    assert!(r.is_last_empty());
    r.add_whitespace();
    assert!(!r.is_last_empty());
    r.add_empty_line();
    assert_eq!(r.lines().len(), 3);
    assert!(r.lines()[2].is_empty());
}

#[test]
fn padding_saturates() {
    let mut r = Renderer::new(20, TextStyle::plain());
    r.add_n_padding(250);
    r.add_n_padding(10);
    assert_eq!(r.padding(), 255);
    r.remove_n_padding(255);
    r.remove_n_padding(3);
    assert_eq!(r.padding(), 0);
    r.add_n_padding(4);
    r.remove_n_padding(4);
    assert_eq!(r.padding(), 0);
}

#[test]
fn prefix_is_set_and_reset() {
    let mut r = Renderer::new(20, TextStyle::plain());
    r.set_prefix('|');
    assert_eq!(r.prefix(), Some('|'));
    r.reset_prefix();
    assert_eq!(r.prefix(), None);
}

#[test]
fn style_changes_apply_to_the_text_style() {
    let mut r = Renderer::new(20, TextStyle::plain());
    r.add_modifier(BOLD | ITALIC);
    r.set_text_fg(Color::Red);
    assert_eq!(r.style().add_modifier, BOLD | ITALIC);
    assert_eq!(r.style().fg, Some(Color::Red));
    r.remove_modifier(BOLD);
    r.reset_text_fg();
    assert_eq!(r.style().add_modifier, ITALIC);
    assert_eq!(r.style().sub_modifier, BOLD);
    assert_eq!(r.style().fg, None);
}

#[test]
fn current_width_counts_words_and_spaces() {
    let mut r = Renderer::new(40, TextStyle::plain());
    r.wrap_append(vec![word(1, "abc", 1), word(1, "de", 0)]);
    assert_eq!(r.current_width(), 6);
}

#[test]
fn wrap_append_of_nothing_changes_nothing() {
    let mut r = Renderer::new(40, TextStyle::plain());
    r.wrap_append(Vec::new());
    assert!(r.current().is_empty());
    assert!(r.lines().is_empty());
}

#[test]
fn lay_out_places_runs_of_the_given_lengths() {
    let mut r = Renderer::new(40, TextStyle::plain());
    r.add_n_padding(2);
    r.set_prefix('>');
    r.lay_out(vec![word(1, "a", 1), word(1, "b", 1), word(1, "c", 0)], &vec![1, 2]);
    assert_eq!(r.lines().len(), 1);
    assert_eq!(contents(&r.lines()[0]), vec!["a"]);
    assert_eq!(contents(r.current()), vec!["", ">", "b", "c"]);
    assert_eq!(r.current()[0].whitespace_width, 2);
}

#[test]
fn wrap_append_starts_an_overfull_line_anew() {
    let mut r = Renderer::new(10, TextStyle::plain());
    r.wrap_append(vec![word(1, "abcdefgh", 1)]);
    r.wrap_append(vec![word(2, "ijklmnop", 0)]);
    assert_eq!(r.lines().len(), 1);
    assert_eq!(contents(&r.lines()[0]), vec!["", "abcdefgh"]);
    assert_eq!(contents(r.current()), vec!["", "ijklmnop"]);
}

#[test]
fn horizontal_line_fills_the_rest() {
    let mut r = Renderer::new(6, TextStyle::plain().fg(Color::Red));
    r.add_horizontal_line();
    assert_eq!(r.lines().len(), 1);
    assert_eq!(r.lines()[0][0].content, "──────");
    assert_eq!(r.lines()[0][0].width, 6);
    assert_eq!(r.lines()[0][0].style.fg, Some(Color::Red));
}

#[test]
fn render_string_splits_on_white_space() {
    let mut r = Renderer::new(80, TextStyle::plain());
    r.render_string("  one\ttwo  three", 4);
    assert_eq!(contents(r.current()), vec!["", "one", "two", "three"]);
    assert_eq!(r.current()[3].whitespace_width, 0);
    assert_eq!(r.current()[1].index, 4);
}

#[test]
fn table_border_middle() {
    let mut r = Renderer::new(40, TextStyle::plain());
    r.render_table_border(3, 2, BorderPos::Middle);
    assert_eq!(contents(&r.lines()[0]), vec!["├──┼──┼──┤"]);
    assert_eq!(r.lines()[0][0].width, 10);
    assert_eq!(r.lines()[0][0].style.fg, Some(Color::DarkGray));
}

#[test]
fn cell_emptiness_looks_at_content() {
    let blank = vec![vec![word(NO_NODE, " \t", 0), word(NO_NODE, "", 3)]];
    assert!(Renderer::cell_is_empty(&blank));
    let full = vec![vec![], vec![word(1, "x", 0)]];
    assert!(!Renderer::cell_is_empty(&full));
    assert!(Renderer::cell_is_empty(&Vec::new()));
}

#[test]
fn colspan_is_at_least_one() {
    let mut doc = Document::new();
    let a = doc.add_node(Data::TableCell { colspan: 0, header: false }).unwrap();
    let b = doc.add_node(Data::TableCell { colspan: 3, header: false }).unwrap();
    let c = doc.add_node(Data::Paragraph).unwrap();
    assert_eq!(Renderer::cell_colspan(&doc, a), 1);
    assert_eq!(Renderer::cell_colspan(&doc, b), 3);
    assert_eq!(Renderer::cell_colspan(&doc, c), 1);
}

#[test]
fn split_words_drops_white_space() {
    let text: Vec<char> = "  a  bc\td \u{3000}e".chars().collect();
    let words = split_words(&text);
    let words: Vec<String> = words.iter().map(|w| w.iter().collect()).collect();
    assert_eq!(words, vec!["a", "bc", "d", "e"]);
    assert!(split_words(&Vec::new()).is_empty());
}

#[test]
fn subtree_renders_on_its_own() {
    let mut doc = Document::new();
    let cell = doc.add_node(Data::TableCell { colspan: 1, header: true }).unwrap();
    doc.add_child(cell, Data::Text { contents: "one two three".to_string() }).unwrap();
    let lines = Renderer::render_subtree(&doc, cell, 8, true);
    assert_eq!(lines.len(), 2);
    assert_eq!(contents(&lines[0]), vec!["", "one", "two"]);
    assert_eq!(contents(&lines[1]), vec!["", "three"]);
    assert_eq!(lines[1][1].style.add_modifier & BOLD, BOLD);
}

#[test]
fn adding_a_modifier_twice_is_adding_it_once() {
    let once = TextStyle::plain().remove_modifier(BOLD).add_modifier(BOLD);
    let twice = once.add_modifier(BOLD);
    assert_eq!(once, twice);
    assert_eq!(once.sub_modifier, 0);
    let gone = twice.remove_modifier(BOLD);
    assert_eq!(gone.add_modifier, 0);
    assert_eq!(gone.sub_modifier, BOLD);
    assert_eq!(TextStyle::plain().fg(Color::Blue).reset_fg(), TextStyle::plain());
}

#[test]
fn wrap_append_continues_a_line_when_the_first_word_fits() {
    let mut r = Renderer::new(20, TextStyle::plain());
    r.wrap_append(vec![word(1, "abc", 1)]);
    r.wrap_append(vec![word(2, "de", 1), word(2, "fg", 0)]);
    assert!(r.lines().is_empty());
    assert_eq!(contents(r.current()), vec!["", "abc", "de", "fg"]);
    assert_eq!(r.current().last().unwrap().content, "fg");
}

#[test]
fn rendering_a_node_restores_the_settings() {
    let mut doc = Document::new();
    let root = doc.add_node(Data::Blockquote).unwrap();
    let list = doc.add_child(root, Data::UnorderedList).unwrap();
    let item = doc.add_child(list, Data::ListItem).unwrap();
    let bold = doc.add_child(item, Data::Bold).unwrap();
    doc.add_child(bold, Data::Text { contents: "deep".to_string() }).unwrap();
    let dis = doc.add_child(root, Data::Disambiguation).unwrap();
    doc.add_child(dis, Data::Text { contents: "see also".to_string() }).unwrap();
    let mut r = Renderer::new(30, TextStyle::plain());
    r.render_node(&doc, root);
    assert_eq!(r.padding(), 0);
    assert_eq!(r.prefix(), None);
    assert_eq!(r.style().fg, None);
    assert_eq!(r.style().add_modifier, 0);
}
