use todo_outline::document::Document;
use todo_outline::session::{Action, App, Key};

fn app(text: &str) -> App {
    App::new(Document::from_text("p".to_string(), "n".to_string(), text))
}

fn flags(a: &App) -> Vec<bool> {
    a.document.items.iter().map(|r| r.completed).collect()
}

#[test]
fn new_selects_first_todo() {
    assert_eq!(app("= H\ntext\n* [ ] a\n* [ ] b\n").selected, 2);
    assert_eq!(app("= H\ntext\n").selected, 0);
    assert_eq!(app("").selected, 0);
}

#[test]
fn next_skips_non_todos_and_wraps() {
    let mut a = app("* [ ] a\n= H\n* [x] b\ntext\n");
    a.next();
    assert_eq!(a.selected, 2);
    a.next();
    assert_eq!(a.selected, 0);
}

#[test]
fn previous_skips_non_todos_and_wraps() {
    let mut a = app("* [ ] a\n= H\n* [x] b\ntext\n");
    a.previous();
    assert_eq!(a.selected, 2);
    a.previous();
    assert_eq!(a.selected, 0);
}

#[test]
fn single_todo_stays_selected() {
    let mut a = app("= H\n* [ ] only\ntext\n");
    a.next();
    assert_eq!(a.selected, 1);
    a.previous();
    assert_eq!(a.selected, 1);
}

#[test]
fn next_len_times_returns_to_start() {
    let mut a = app("* [ ] a\n* [ ] b\n* [x] c\n");
    a.next();
    let start = a.selected;
    let mut seen = Vec::new();
    for _ in 0..a.document.items.len() {
        a.next();
        seen.push(a.selected);
    }
    assert_eq!(a.selected, start);
    assert_eq!(seen, vec![2, 0, 1]);
}

#[test]
fn next_visits_only_todos() {
    let mut a = app("* [ ] a\n= H\n* [ ] b\n\n* [x] c\ntext\n");
    for _ in 0..12 {
        a.next();
        assert!(matches!(a.selected, 0 | 2 | 4));
    }
}

#[test]
fn navigation_without_todos_stays_in_range() {
    let mut a = app("= H\ntext\n* bullet\n");
    a.next();
    assert_eq!(a.selected, 0);
    a.previous();
    assert_eq!(a.selected, 0);
    a.goto_bottom();
    assert_eq!(a.selected, 2);
    a.next();
    assert_eq!(a.selected, 2);
    a.goto_top();
    assert_eq!(a.selected, 0);
}

#[test]
fn navigation_on_empty_document() {
    let mut a = app("");
    a.next();
    a.previous();
    a.goto_top();
    a.goto_bottom();
    a.toggle_current();
    assert_eq!(a.selected, 0);
    assert!(a.document.items.is_empty());
}

#[test]
fn goto_top_and_bottom() {
    let mut a = app("text\n* [ ] a\n* [ ] b\n= H\n");
    a.goto_bottom();
    assert_eq!(a.selected, 2);
    a.goto_top();
    assert_eq!(a.selected, 1);
}

#[test]
fn toggle_twice_restores() {
    let mut a = app("* [ ] a\n* [x] b\n");
    let before = a.document.items.clone();
    a.toggle_current();
    assert_eq!(flags(&a), vec![true, true]);
    a.toggle_current();
    assert_eq!(a.document.items, before);
}

#[test]
fn toggle_on_non_todo_does_nothing() {
    let mut a = app("= H\ntext\n");
    a.toggle_current();
    assert_eq!(flags(&a), vec![false, false]);
}

#[test]
fn count_todos_counts_each_state() {
    let a = app("* [ ] a\n* [x] b\n* [X] c\n= H\n* d\n");
    assert_eq!(a.count_todos(), (1, 2));
    assert_eq!(app("").count_todos(), (0, 0));
}

#[test]
fn completing_single_todo_celebrates_once() {
    let mut a = app("= H\n* [ ] only\n");
    assert_eq!(a.handle_key(Key::Toggle), Action::SaveAndCelebrate);
    assert_eq!(a.handle_key(Key::Toggle), Action::Continue);
    assert_eq!(a.handle_key(Key::Toggle), Action::SaveAndCelebrate);
}

#[test]
fn no_celebration_while_others_remain() {
    let mut a = app("* [ ] a\n* [ ] b\n");
    assert_eq!(a.handle_key(Key::Toggle), Action::Continue);
    assert_eq!(a.handle_key(Key::Down), Action::Continue);
    assert_eq!(a.selected, 1);
    assert_eq!(a.handle_key(Key::Toggle), Action::SaveAndCelebrate);
}

#[test]
fn unchecking_never_celebrates() {
    let mut a = app("* [x] a\n* [x] b\n");
    assert_eq!(a.handle_key(Key::Toggle), Action::Continue);
    assert_eq!(flags(&a), vec![false, true]);
}

#[test]
fn keys_map_to_actions() {
    let mut a = app("* [ ] a\n= H\n* [ ] b\n");
    assert_eq!(a.handle_key(Key::Bottom), Action::Continue);
    assert_eq!(a.selected, 2);
    assert_eq!(a.handle_key(Key::Top), Action::Continue);
    assert_eq!(a.selected, 0);
    assert_eq!(a.handle_key(Key::Up), Action::Continue);
    assert_eq!(a.selected, 2);
    assert_eq!(a.handle_key(Key::Other), Action::Continue);
    assert_eq!(a.selected, 2);
    assert_eq!(a.handle_key(Key::Quit), Action::SaveAndQuit);
    assert_eq!(flags(&a), vec![false, false, false]);
}
