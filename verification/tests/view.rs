use titan::command::Command;
use titan::protocol::{Document, Line};
use titan::view::{Color, Event, Key, Repaint, View, ViewEffect};

fn numbered_doc(n: usize) -> Document {
    Document::new((0..n).map(|i| Line::Text(format!("line {}", i))).collect())
}

fn check_invariants(v: &View) {
    let len = v.doc.0.len();
    if len == 0 {
        assert_eq!(v.yscroll, 0);
        assert_eq!(v.ycursor, 0);
    } else {
        assert!(v.yscroll <= v.ycursor);
        assert!(v.ycursor < len);
        assert!(v.ycursor - v.yscroll < v.height as usize);
    }
}

#[test]
fn navigation_keeps_invariants() {
    // Arbitrary runs of down and up never break the scroll and cursor
    // bounds.
    let mut v = View::new(numbered_doc(25), 20, 10);
    check_invariants(&v);
    let moves = [
        1, 1, 1, 1, 1, 1, 1, 1, 1, 1, 0, 0, 1, 0, 1, 1, 1, 1, 1, 1, 1, 1, 1, 1, 1, 1, 1, 1, 0, 0,
        0, 0, 0, 0, 0, 0, 0, 0, 0, 0, 0, 0, 0, 0, 0,
    ];
    for m in moves {
        if m == 1 {
            v.down();
        } else {
            v.up();
        }
        check_invariants(&v);
    }
}

#[test]
fn down_scrolls_at_window_edge() {
    // Height is 10 - 2 = 8: the first seven steps only move the cursor,
    // the eighth drags the window.
    let mut v = View::new(numbered_doc(25), 20, 10);
    for i in 0..7 {
        assert_eq!(v.down(), Repaint::Rows(i, i + 1));
        assert_eq!(v.yscroll, 0);
    }
    assert_eq!(v.down(), Repaint::Full);
    assert_eq!(v.yscroll, 1);
    assert_eq!(v.ycursor, 8);
}

#[test]
fn down_stops_at_bottom() {
    let mut v = View::new(numbered_doc(2), 20, 10);
    assert_eq!(v.down(), Repaint::Rows(0, 1));
    assert_eq!(v.down(), Repaint::Skip);
    assert_eq!(v.ycursor, 1);
}

#[test]
fn up_stops_at_top() {
    let mut v = View::new(numbered_doc(5), 20, 10);
    assert_eq!(v.up(), Repaint::Skip);
    v.down();
    assert_eq!(v.up(), Repaint::Rows(1, 0));
}

#[test]
fn empty_document_navigation() {
    let mut v = View::new(Document::new(vec![]), 20, 10);
    assert_eq!(v.down(), Repaint::Skip);
    assert_eq!(v.up(), Repaint::Skip);
    check_invariants(&v);
}

#[test]
fn resize_keeps_fractional_scroll() {
    // Scroll halfway down, then halve the width: the fractional position
    // survives to within one screen line.
    let mut v = View::new(numbered_doc(100), 40, 12);
    for _ in 0..60 {
        v.down();
    }
    let old_len = v.doc.0.len();
    let old_scroll = v.yscroll;
    v.resize(20, 12);
    let new_len = v.doc.0.len();
    let lhs = v.yscroll as i64 * old_len as i64;
    let target = old_scroll as i64 * new_len as i64;
    assert!(lhs <= target);
    assert!(target < lhs + old_len as i64);
    check_invariants(&v);
}

#[test]
fn resize_rewraps_to_new_width() {
    let doc = Document::new(vec![Line::Text("one two three four five six".to_string())]);
    let mut v = View::new(doc, 40, 10);
    assert_eq!(v.doc.0.len(), 1);
    v.resize(12, 10);
    assert!(v.doc.0.len() > 1);
    check_invariants(&v);
}

#[test]
fn enter_on_link_emits_try_load() {
    let doc = Document::new(vec![
        Line::Text("plain".to_string()),
        Line::BareLink("gemini://a/".to_string()),
        Line::NamedLink { url: "gemini://b/".to_string(), name: "b".to_string() },
    ]);
    let mut v = View::new(doc, 30, 10);
    // Cursor on the text row: Enter is a no-op.
    let a = v.event(Event::Key(Key::Enter));
    assert!(matches!(a.effect, ViewEffect::Nothing));
    // Bare link row.
    v.down();
    let a = v.event(Event::Key(Key::Enter));
    match a.effect {
        ViewEffect::Emit(Command::TryLoad(url)) => assert_eq!(url, "gemini://a/"),
        _ => panic!("expected TryLoad"),
    }
    // Named link row: the url is emitted, not the label.
    v.down();
    let a = v.event(Event::Key(Key::Enter));
    match a.effect {
        ViewEffect::Emit(Command::TryLoad(url)) => assert_eq!(url, "gemini://b/"),
        _ => panic!("expected TryLoad"),
    }
}

#[test]
fn exit_keys() {
    let mut v = View::new(numbered_doc(3), 20, 10);
    let a = v.event(Event::Key(Key::Ctrl('c')));
    assert!(matches!(a.effect, ViewEffect::Emit(Command::Exit)));
    let a = v.event(Event::Key(Key::Char('q')));
    assert!(matches!(a.effect, ViewEffect::Emit(Command::Exit)));
}

#[test]
fn colon_opens_prompt_and_errors_clear_on_keypress() {
    let mut v = View::new(numbered_doc(3), 20, 10);
    let a = v.event(Event::Key(Key::Char(':')));
    assert!(matches!(a.effect, ViewEffect::OpenPrompt));
    // A bad command raises the error flag...
    let out = v.on_command(Some("bogus".to_string()));
    assert!(matches!(out, titan::view::PromptOutcome::ShowError(_)));
    assert!(v.cmd_error);
    // ...and the next keypress clears it before acting.
    let a = v.event(Event::Key(Key::Char('j')));
    assert!(a.cleared_error);
    assert!(!v.cmd_error);
}

#[test]
fn scroll_events_move_cursor() {
    let mut v = View::new(numbered_doc(5), 20, 10);
    let a = v.event(Event::ScrollDown);
    assert!(matches!(a.effect, ViewEffect::Paint(Repaint::Rows(0, 1))));
    let a = v.event(Event::ScrollUp);
    assert!(matches!(a.effect, ViewEffect::Paint(Repaint::Rows(1, 0))));
}

#[test]
fn row_markup_table() {
    let h1 = Line::H1("t".to_string());
    assert_eq!(titan::view::row_markup(&h1, true), ("# ".to_string(), Color::Red));
    assert_eq!(titan::view::row_markup(&h1, false), ("  ".to_string(), Color::Red));
    let h2 = Line::H2("t".to_string());
    assert_eq!(titan::view::row_markup(&h2, true), ("## ".to_string(), Color::Yellow));
    let h3 = Line::H3("t".to_string());
    assert_eq!(titan::view::row_markup(&h3, true), ("### ".to_string(), Color::Cyan));
    assert_eq!(titan::view::row_markup(&h3, false), ("    ".to_string(), Color::Cyan));
    let list = Line::List("t".to_string());
    assert_eq!(titan::view::row_markup(&list, true), ("\u{2022} ".to_string(), Color::Default));
    let quote = Line::Quote("t".to_string());
    assert_eq!(titan::view::row_markup(&quote, true), ("> ".to_string(), Color::White));
    assert_eq!(titan::view::row_markup(&quote, false), ("> ".to_string(), Color::White));
    let link = Line::NamedLink { url: "u".to_string(), name: "n".to_string() };
    assert_eq!(titan::view::row_markup(&link, true), ("\u{2192} ".to_string(), Color::Magenta));
    assert_eq!(titan::view::row_markup(&link, false), ("  ".to_string(), Color::Magenta));
    let bare = Line::BareLink("u".to_string());
    assert_eq!(titan::view::row_markup(&bare, true), ("\u{2192} ".to_string(), Color::Magenta));
    let pre = Line::Pre { alt: None, text: "t".to_string() };
    assert_eq!(titan::view::row_markup(&pre, true), ("".to_string(), Color::Red));
    let text = Line::Text("t".to_string());
    assert_eq!(titan::view::row_markup(&text, true), ("".to_string(), Color::Default));
}
