use titan::protocol::{Document, Line, WrappedDocument};

fn rows(doc: &WrappedDocument) -> Vec<(String, bool)> {
    doc.0
        .iter()
        .map(|(line, first)| (titan::view::row_payload(line).clone(), *first))
        .collect()
}

#[test]
fn wrap_list_item() {
    // Width 8 leaves 6 columns after the bullet prefix; each word packs
    // greedily and none of the two-word spans fit.
    let doc = Document::new(vec![Line::List("alpha beta gamma".to_string())]);
    let wrapped = doc.word_wrap(8);
    assert_eq!(
        rows(&wrapped),
        vec![
            ("alpha".to_string(), true),
            ("beta".to_string(), false),
            ("gamma".to_string(), false),
        ]
    );
}

#[test]
fn wrap_greedy_packing() {
    let doc = Document::new(vec![Line::Text("aa bb cc ddd".to_string())]);
    let wrapped = doc.word_wrap(5);
    assert_eq!(
        rows(&wrapped),
        vec![("aa bb".to_string(), true), ("cc".to_string(), false), ("ddd".to_string(), false)]
    );
}

#[test]
fn wrap_empty_text_is_one_row() {
    let doc = Document::new(vec![Line::Text("".to_string())]);
    let wrapped = doc.word_wrap(10);
    assert_eq!(rows(&wrapped), vec![("".to_string(), true)]);
}

#[test]
fn wrap_overlong_word_stands_alone() {
    let doc = Document::new(vec![Line::Text("a verylongunbreakableword b".to_string())]);
    let wrapped = doc.word_wrap(6);
    assert_eq!(
        rows(&wrapped),
        vec![
            ("a".to_string(), true),
            ("verylongunbreakableword".to_string(), false),
            ("b".to_string(), false),
        ]
    );
}

#[test]
fn wrap_first_flags_per_block() {
    let doc = Document::new(vec![
        Line::Text("one two three four".to_string()),
        Line::Text("five".to_string()),
    ]);
    let wrapped = doc.word_wrap(8);
    let flags: Vec<bool> = wrapped.0.iter().map(|(_, f)| *f).collect();
    // Exactly one `first` per source block, and it leads the block.
    assert_eq!(flags.iter().filter(|f| **f).count(), 2);
    assert!(flags[0]);
    let second_block = flags.iter().skip(1).position(|f| *f).unwrap() + 1;
    assert!(flags[second_block]);
    assert!(flags[1..second_block].iter().all(|f| !*f));
}

#[test]
fn wrap_payloads_are_slices_of_source() {
    let source = "words of some length scattered about the line";
    let doc = Document::new(vec![Line::Text(source.to_string())]);
    let wrapped = doc.word_wrap(12);
    for (payload, _) in rows(&wrapped) {
        assert!(source.contains(&payload));
        assert!(payload.len() <= 12);
    }
}

#[test]
fn wrap_effective_widths() {
    // The H3 prefix is four columns wide, so payloads fit in width - 4.
    let doc = Document::new(vec![Line::H3("aaa bbb ccc".to_string())]);
    let wrapped = doc.word_wrap(8);
    for (payload, _) in rows(&wrapped) {
        assert!(payload.len() <= 4);
    }
    // A named link wraps its name at width - 3.
    let doc = Document::new(vec![Line::NamedLink {
        url: "gemini://x/".to_string(),
        name: "some quite long label".to_string(),
    }]);
    let wrapped = doc.word_wrap(10);
    for (line, _) in &wrapped.0 {
        match line {
            Line::NamedLink { url, name } => {
                assert_eq!(url, "gemini://x/");
                assert!(name.len() <= 7);
            }
            other => panic!("unexpected row {:?}", other),
        }
    }
}

#[test]
fn wrap_bare_link_single_row() {
    let doc = Document::new(vec![Line::BareLink("gemini://example.com/very/long/path".to_string())]);
    let wrapped = doc.word_wrap(5);
    assert_eq!(wrapped.0.len(), 1);
    assert!(wrapped.0[0].1);
}

#[test]
fn wrap_pre_one_row_per_line() {
    let doc = Document::new(vec![Line::Pre {
        alt: Some("py".to_string()),
        text: "first line\nsecond line that is quite long".to_string(),
    }]);
    let wrapped = doc.word_wrap(4);
    assert_eq!(
        rows(&wrapped),
        vec![
            ("first line".to_string(), true),
            ("second line that is quite long".to_string(), false),
        ]
    );
}

#[test]
fn dummy_wrap_marks_every_row_first() {
    let doc = Document::new(vec![
        Line::Text("a".to_string()),
        Line::Quote("b".to_string()),
    ]);
    let wrapped = doc.dummy_wrap();
    assert_eq!(wrapped.0.len(), 2);
    assert!(wrapped.0.iter().all(|(_, f)| *f));
}
