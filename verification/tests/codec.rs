use titan::codec::serialize_doc;
use titan::parser::parse_text_gemini;
use titan::protocol::{Document, Line};

fn reparses(input: &str) {
    let doc = parse_text_gemini(input);
    let rendered = serialize_doc(&doc);
    let again = parse_text_gemini(rendered.as_str());
    assert_eq!(again, doc);
}

#[test]
fn round_trip_simple() {
    reparses("# h1\ntext\n=> url name\n* item\n> quote\n### deep\n");
}

#[test]
fn round_trip_preformatted() {
    reparses("```py\nfor i in range(10):\n    print(i)\n```\ntail");
    reparses("```\n\n\n```\n");
    reparses("```unclosed\nrest");
}

#[test]
fn round_trip_blank_lines_one_for_one() {
    // Runs of consecutive blank text lines survive exactly.
    let doc = parse_text_gemini("a\n\n\n\nb\n");
    assert_eq!(
        doc,
        Document::new(vec![
            Line::Text("a".to_string()),
            Line::Text("".to_string()),
            Line::Text("".to_string()),
            Line::Text("".to_string()),
            Line::Text("b".to_string()),
        ])
    );
    let rendered = serialize_doc(&doc);
    assert_eq!(parse_text_gemini(rendered.as_str()), doc);
}

#[test]
fn round_trip_odd_shapes() {
    reparses("#no space\n##  two spaces\n=>bare\n=> a\tb\n>\n* \n");
    reparses("");
    reparses("\n\n");
    reparses("text with trailing newline absent");
}

#[test]
fn canonical_form_of_links() {
    let doc = parse_text_gemini("=>   url   name here\n");
    let rendered = serialize_doc(&doc);
    assert_eq!(rendered, "=> url name here\n");
}
