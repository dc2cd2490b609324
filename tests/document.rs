use todo_outline::document::{parse, serialize, Document};
use todo_outline::line::{classify_line, render_line, LineKind, LineRecord};

fn rec(kind: LineKind, completed: bool, text: &str) -> LineRecord {
    LineRecord { text: text.to_string(), kind, completed }
}

#[test]
fn classify_open_todo() {
    assert_eq!(classify_line("* [ ] buy milk"), rec(LineKind::Todo, false, "buy milk"));
}

#[test]
fn classify_checked_todo_either_case() {
    assert_eq!(classify_line("* [x] pay rent"), rec(LineKind::Todo, true, "pay rent"));
    assert_eq!(classify_line("* [X] pay rent"), rec(LineKind::Todo, true, "pay rent"));
}

#[test]
fn classify_strips_whitespace_around_todo_text() {
    assert_eq!(classify_line("   * [ ]    spaced out  \t"), rec(LineKind::Todo, false, "spaced out"));
    assert_eq!(classify_line("* [ ]"), rec(LineKind::Todo, false, ""));
    assert_eq!(classify_line("* [x]done"), rec(LineKind::Todo, true, "done"));
}

#[test]
fn classify_headers() {
    assert_eq!(classify_line("= Title"), rec(LineKind::Header1, false, "Title"));
    assert_eq!(classify_line("== Section"), rec(LineKind::Header2, false, "Section"));
    assert_eq!(classify_line("=== Sub"), rec(LineKind::Header3, false, "Sub"));
    assert_eq!(classify_line("==  Wide"), rec(LineKind::Header2, false, " Wide"));
    assert_eq!(classify_line("==NoSpace"), rec(LineKind::FreeText, false, "==NoSpace"));
}

#[test]
fn classify_bullets() {
    assert_eq!(classify_line("* eggs"), rec(LineKind::Bullet, false, "eggs"));
    assert_eq!(classify_line("* [maybe] later"), rec(LineKind::Bullet, false, "[maybe] later"));
}

#[test]
fn classify_lone_star_is_free_text() {
    assert_eq!(classify_line("*"), rec(LineKind::FreeText, false, "*"));
    assert_eq!(classify_line("  *  "), rec(LineKind::FreeText, false, "*"));
}

#[test]
fn classify_blank_and_free_text() {
    assert_eq!(classify_line(""), rec(LineKind::Blank, false, ""));
    assert_eq!(classify_line(" \t\u{3000} "), rec(LineKind::Blank, false, ""));
    assert_eq!(classify_line("  note to self "), rec(LineKind::FreeText, false, "note to self"));
}

#[test]
fn render_each_kind() {
    assert_eq!(render_line(&rec(LineKind::Todo, false, "a")), "* [ ] a");
    assert_eq!(render_line(&rec(LineKind::Todo, true, "a")), "* [x] a");
    assert_eq!(render_line(&rec(LineKind::Header1, false, "h")), "= h");
    assert_eq!(render_line(&rec(LineKind::Header2, false, "h")), "== h");
    assert_eq!(render_line(&rec(LineKind::Header3, false, "h")), "=== h");
    assert_eq!(render_line(&rec(LineKind::Bullet, false, "b")), "* b");
    assert_eq!(render_line(&rec(LineKind::FreeText, false, "free")), "free");
    assert_eq!(render_line(&rec(LineKind::Blank, false, "")), "");
}

#[test]
fn parse_and_serialize_example_document() {
    let input = "* [ ] buy milk\n* [x] pay rent\n== Shopping\n* eggs\n\nnote to self";
    let items = parse(input);
    assert_eq!(
        items,
        vec![
            rec(LineKind::Todo, false, "buy milk"),
            rec(LineKind::Todo, true, "pay rent"),
            rec(LineKind::Header2, false, "Shopping"),
            rec(LineKind::Bullet, false, "eggs"),
            rec(LineKind::Blank, false, ""),
            rec(LineKind::FreeText, false, "note to self"),
        ]
    );
    // Every record ends with a line break, so the last line gains one.
    assert_eq!(serialize(&items), format!("{}\n", input));
    let terminated = format!("{}\n", input);
    assert_eq!(serialize(&parse(&terminated)), terminated);
}

#[test]
fn parse_empty_and_line_breaks() {
    assert!(parse("").is_empty());
    assert_eq!(parse("\n"), vec![rec(LineKind::Blank, false, "")]);
    assert_eq!(parse("a\n"), vec![rec(LineKind::FreeText, false, "a")]);
    assert_eq!(parse("a\r\nb"), vec![rec(LineKind::FreeText, false, "a"), rec(LineKind::FreeText, false, "b")]);
    assert_eq!(parse("\n\n").len(), 2);
}

#[test]
fn serialize_empty_is_empty() {
    assert_eq!(serialize(&Vec::new()), "");
}

#[test]
fn round_trip_is_idempotent_after_one_pass() {
    let messy = "  * [X]   done  \n==  Wide header\n\t* bullet  \n   \n*\n* [ ]\nfree   text  ";
    let once = serialize(&parse(messy));
    assert_eq!(once, "* [x] done\n==  Wide header\n* bullet\n\n*\n* [ ] \nfree   text\n");
    let twice = serialize(&parse(&once));
    assert_eq!(twice, once);
}

#[test]
fn document_from_text_and_append() {
    let mut doc = Document::from_text("/tmp/l.adoc".to_string(), "l.adoc".to_string(), "= T\n");
    doc.append_todo("new thing".to_string());
    assert_eq!(doc.items.len(), 2);
    assert_eq!(doc.items[1], rec(LineKind::Todo, false, "new thing"));
    assert_eq!(doc.to_text(), "= T\n* [ ] new thing\n");
    assert_eq!(doc.list_path, "/tmp/l.adoc");
    assert_eq!(doc.list_name, "l.adoc");
}
