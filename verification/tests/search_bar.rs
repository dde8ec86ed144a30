use wiki_tui::search_bar::{Action, ActionResult, Area, EditRequest, Position, SearchAction, SearchBarComponent};

#[test]
fn a_new_bar_is_empty() {
    let bar = SearchBarComponent::new();
    assert_eq!(bar.value, "");
    assert_eq!(bar.cursor, 0);
    assert!(!bar.is_focussed);
    assert!(!bar.show_hint);
}

#[test]
fn submit_searches_for_the_text() {
    let mut bar = SearchBarComponent::new();
    bar.value = "rust".to_string();
    bar.cursor = 4;
    match bar.submit() {
        Action::Search(SearchAction::StartSearch(s)) => assert_eq!(s, "rust"),
        other => panic!("unexpected action {:?}", other),
    }
}

#[test]
fn clear_empties_the_bar() {
    let mut bar = SearchBarComponent::new();
    bar.value = "rust".to_string();
    bar.cursor = 2;
    bar.is_focussed = true;
    bar.clear();
    assert_eq!(bar.value, "");
    assert_eq!(bar.cursor, 0);
    assert!(bar.is_focussed);
}

#[test]
fn keys_are_typed_or_turned_into_actions() {
    let mut bar = SearchBarComponent::new();
    let r = bar.handle_key_events(false, false, Some(EditRequest::InsertChar('a')));
    assert!(matches!(r, ActionResult::Consumed));
    let r = bar.handle_key_events(false, false, Some(EditRequest::InsertChar('b')));
    assert!(matches!(r, ActionResult::Consumed));
    assert_eq!(bar.value, "ab");
    assert_eq!(bar.cursor, 2);
    bar.handle_key_events(false, false, Some(EditRequest::GoToStart));
    bar.handle_key_events(false, false, Some(EditRequest::InsertChar('x')));
    assert_eq!(bar.value, "xab");
    assert_eq!(bar.cursor, 1);
    let r = bar.handle_key_events(true, true, Some(EditRequest::DeleteLine));
    assert!(matches!(r, ActionResult::Action(Action::SubmitSearchBar)));
    assert_eq!(bar.value, "xab");
    let r = bar.handle_key_events(false, true, Some(EditRequest::DeleteLine));
    assert!(matches!(r, ActionResult::Action(Action::ExitSearchBar)));
    assert_eq!(bar.value, "xab");
    let r = bar.handle_key_events(false, false, None);
    assert!(matches!(r, ActionResult::Consumed));
    assert_eq!(bar.value, "xab");
}

#[test]
fn layout_places_hint_and_cursor() {
    let mut bar = SearchBarComponent::new();
    bar.value = "abc".to_string();
    bar.cursor = 3;
    bar.is_focussed = true;
    bar.show_hint = true;
    let area = Area { x: 0, y: 0, width: 100, height: 3 };
    let split = (Area { x: 0, y: 0, width: 90, height: 3 }, Area { x: 90, y: 0, width: 10, height: 3 });
    let l = bar.layout_from(area, split, 3, 0);
    assert_eq!(l.input_area, split.0);
    assert_eq!(l.hint_area, Some(Area { x: 90, y: 1, width: 10, height: 1 }));
    assert_eq!(l.cursor, Some(Position { x: 4, y: 1 }));
    assert!(!l.show_prompt);
    let l = bar.layout_from(area, split, 12, 5);
    assert_eq!(l.cursor, Some(Position { x: 8, y: 1 }));
    assert_eq!(l.scroll, 5);
}

#[test]
fn layout_without_hint_or_focus() {
    let bar = SearchBarComponent::new();
    let area = Area { x: 2, y: 3, width: 40, height: 3 };
    let l = bar.layout(area);
    assert_eq!(l.input_area, area);
    assert_eq!(l.hint_area, None);
    assert_eq!(l.cursor, None);
    assert!(l.show_prompt);
    assert_eq!(l.scroll, 0);
}

#[test]
fn layout_scrolls_long_text() {
    let mut bar = SearchBarComponent::new();
    bar.value = "abcdefghij".to_string();
    bar.cursor = 10;
    bar.is_focussed = true;
    let area = Area { x: 0, y: 0, width: 4, height: 3 };
    let l = bar.layout(area);
    assert_eq!(l.scroll, 6);
    assert_eq!(l.cursor, Some(Position { x: 5, y: 1 }));
}

#[test]
fn layout_splits_for_the_hint() {
    let mut bar = SearchBarComponent::new();
    bar.show_hint = true;
    let area = Area { x: 0, y: 0, width: 100, height: 3 };
    let l = bar.layout(area);
    assert_eq!(l.input_area, Area { x: 0, y: 0, width: 90, height: 3 });
    assert_eq!(l.hint_area, Some(Area { x: 90, y: 1, width: 10, height: 1 }));
}

#[test]
fn the_default_bar_is_empty() {
    let bar = SearchBarComponent::default();
    assert_eq!(bar.value, "");
    assert_eq!(bar.cursor, 0);
    assert!(!bar.is_focussed && !bar.show_hint);
    match bar.submit() {
        Action::Search(SearchAction::StartSearch(s)) => assert!(s.is_empty()),
        other => panic!("unexpected action {:?}", other),
    }
}

#[test]
fn edits_follow_the_cursor() {
    let mut bar = SearchBarComponent::new();
    bar.value = "abc".to_string();
    bar.cursor = 1;
    bar.handle_key_events(false, false, Some(EditRequest::DeleteNextChar));
    assert_eq!(bar.value, "ac");
    assert_eq!(bar.cursor, 1);
    bar.handle_key_events(false, false, Some(EditRequest::DeletePrevChar));
    assert_eq!(bar.value, "c");
    assert_eq!(bar.cursor, 0);
    bar.handle_key_events(false, false, Some(EditRequest::DeletePrevChar));
    assert_eq!(bar.value, "c");
    assert_eq!(bar.cursor, 0);
    bar.handle_key_events(false, false, Some(EditRequest::GoToEnd));
    assert_eq!(bar.cursor, 1);
    bar.handle_key_events(false, false, Some(EditRequest::SetCursor(9)));
    assert_eq!(bar.cursor, 1);
    bar.handle_key_events(false, false, Some(EditRequest::GoToPrevChar));
    assert_eq!(bar.cursor, 0);
    bar.handle_key_events(false, false, Some(EditRequest::DeleteTillEnd));
    assert_eq!(bar.value, "");
    bar.value = "one two".to_string();
    bar.cursor = 7;
    bar.handle_key_events(false, false, Some(EditRequest::DeletePrevWord));
    assert_eq!(bar.value, "one ");
    assert_eq!(bar.cursor, 4);
    bar.handle_key_events(false, false, Some(EditRequest::GoToPrevWord));
    assert_eq!(bar.value, "one ");
    assert_eq!(bar.cursor, 0);
    bar.handle_key_events(false, false, Some(EditRequest::DeleteLine));
    assert_eq!(bar.value, "");
    assert_eq!(bar.cursor, 0);
}
