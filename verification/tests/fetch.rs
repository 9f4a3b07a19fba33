use titan::error::Error;
use titan::fetch::{FetchMachine, FetchStep};
use titan::protocol::{Line, Status};

fn started(url: &str) -> (FetchMachine, FetchStep) {
    FetchMachine::start_str(url).expect("absolute URL")
}

#[test]
fn request_line_and_default_port() {
    let (_m, step) = started("gemini://example.com/page");
    match step {
        FetchStep::Request { host, port, request } => {
            assert_eq!(host, "example.com");
            assert_eq!(port, 1965);
            assert_eq!(request, "gemini://example.com/page\r\n");
        }
        _ => panic!("expected a request"),
    }
}

#[test]
fn explicit_port_is_kept() {
    let (_m, step) = started("gemini://example.com:1966/");
    match step {
        FetchStep::Request { port, .. } => assert_eq!(port, 1966),
        _ => panic!("expected a request"),
    }
}

#[test]
fn non_gemini_scheme_fails() {
    let (_m, step) = started("https://example.com/");
    match step {
        FetchStep::Failed(Error::InvalidURLScheme(s)) => assert_eq!(s, "https"),
        _ => panic!("expected a scheme failure"),
    }
}

#[test]
fn success_parses_document() {
    let (mut m, _step) = started("gemini://example.com/");
    let step = m.on_response(b"20 text/gemini\r\n# Hello\nworld\n");
    match step {
        FetchStep::Done(d) => {
            assert_eq!(d.status, Status::Success);
            assert_eq!(d.meta, "text/gemini");
            let doc = d.doc.expect("a parsed document");
            assert_eq!(
                doc.0,
                vec![Line::H1("Hello".to_string()), Line::Text("world".to_string())]
            );
        }
        _ => panic!("expected a document"),
    }
}

#[test]
fn other_text_types_become_one_pre_block() {
    let (mut m, _step) = started("gemini://example.com/");
    let step = m.on_response(b"20 text/plain\r\nraw\nstuff");
    match step {
        FetchStep::Done(d) => {
            let doc = d.doc.expect("a wrapped body");
            assert_eq!(
                doc.0,
                vec![Line::Pre { alt: None, text: "raw\nstuff".to_string() }]
            );
        }
        _ => panic!("expected a document"),
    }
}

#[test]
fn unknown_meta_fails() {
    let (mut m, _step) = started("gemini://example.com/");
    let step = m.on_response(b"20 image/png\r\n\x89PNG");
    match step {
        FetchStep::Failed(Error::UnknownMeta(meta)) => assert_eq!(meta, "image/png"),
        _ => panic!("expected UnknownMeta"),
    }
}

#[test]
fn invalid_utf8_body_fails() {
    let (mut m, _step) = started("gemini://example.com/");
    let step = m.on_response(b"20 text/gemini\r\n\xff\xfe");
    assert!(matches!(step, FetchStep::Failed(Error::Utf8Error)));
}

#[test]
fn non_success_statuses_surface_header() {
    let (mut m, _step) = started("gemini://example.com/");
    let step = m.on_response(b"51 not found\r\n");
    match step {
        FetchStep::Done(d) => {
            assert_eq!(d.status, Status::NotFound);
            assert_eq!(d.meta, "not found");
            assert!(d.doc.is_none());
        }
        _ => panic!("expected a banner"),
    }
}

#[test]
fn redirect_is_followed() {
    let (mut m, _step) = started("gemini://a/");
    let step = m.on_response(b"31 gemini://b/\r\n");
    match step {
        FetchStep::Request { host, request, .. } => {
            assert_eq!(host, "b");
            assert_eq!(request, "gemini://b/\r\n");
        }
        _ => panic!("expected the redirect to be requested"),
    }
    let step = m.on_response(b"20 text/gemini\r\nok\n");
    match step {
        FetchStep::Done(d) => {
            assert_eq!(d.doc.unwrap().0, vec![Line::Text("ok".to_string())]);
        }
        _ => panic!("expected a document"),
    }
}

#[test]
fn relative_redirect_resolves_against_current_url() {
    let (mut m, _step) = started("gemini://host/dir/page");
    let step = m.on_response(b"30 other\r\n");
    match step {
        FetchStep::Request { request, .. } => {
            assert_eq!(request, "gemini://host/dir/other\r\n");
        }
        _ => panic!("expected a request"),
    }
}

#[test]
fn empty_redirect_target_is_a_parse_error() {
    let (mut m, _step) = started("gemini://host/");
    let step = m.on_response(b"30 \r\n");
    assert!(matches!(step, FetchStep::Failed(Error::UrlParseError)));
}

#[test]
fn six_hop_redirect_chain_fails() {
    let (mut m, _step) = started("gemini://h0/");
    for i in 1..5 {
        let header = format!("31 gemini://h{}/\r\n", i);
        let step = m.on_response(header.as_bytes());
        assert!(matches!(step, FetchStep::Request { .. }), "hop {} should request", i);
    }
    let step = m.on_response(b"31 gemini://h5/\r\n");
    assert!(matches!(step, FetchStep::Failed(Error::TooManyRedirects)));
}

#[test]
fn input_prompt_round_trip() {
    // S3: a 10 response prompts, the answer becomes the percent-encoded
    // query, and the fetch follows through to success.
    let (mut m, _step) = started("gemini://q");
    let step = m.on_response(b"10 Query?\r\n");
    match step {
        FetchStep::NeedInput { prompt, sensitive } => {
            assert_eq!(prompt, "Query?");
            assert!(!sensitive);
        }
        _ => panic!("expected an input prompt"),
    }
    let step = m.on_input(Some("hello world"));
    match step {
        FetchStep::Request { request, .. } => {
            assert_eq!(request, "gemini://q?hello%20world\r\n");
        }
        _ => panic!("expected the query to be requested"),
    }
    let step = m.on_response(b"20 text/gemini\r\nok\n");
    assert!(matches!(step, FetchStep::Done(_)));
}

#[test]
fn sensitive_input_flag() {
    let (mut m, _step) = started("gemini://q");
    let step = m.on_response(b"11 Secret?\r\n");
    match step {
        FetchStep::NeedInput { sensitive, .. } => assert!(sensitive),
        _ => panic!("expected an input prompt"),
    }
}

#[test]
fn cancelled_input_aborts() {
    let (mut m, _step) = started("gemini://q");
    let _ = m.on_response(b"10 Query?\r\n");
    let step = m.on_input(None);
    assert!(matches!(step, FetchStep::Failed(Error::InputCancelled)));
}

#[test]
fn malformed_header_fails_fetch() {
    let (mut m, _step) = started("gemini://h/");
    let step = m.on_response(b"garbage");
    assert!(matches!(step, FetchStep::Failed(Error::ParseError)));
    let step = m.on_response(b"99 nope\r\n");
    assert!(matches!(step, FetchStep::Failed(Error::InvalidStatusCode(99))));
}

#[test]
fn success_page_renders_hello_world() {
    let (mut m, _step) = started("gemini://example.com/");
    let step = m.on_response(b"20 text/gemini\r\n# Hello\nworld\n");
    let doc = match step {
        FetchStep::Done(d) => d.doc.unwrap(),
        _ => panic!("expected a document"),
    };
    let v = titan::view::View::new(doc, 20, 10);
    assert_eq!(v.ycursor, 0);
    assert_eq!(v.doc.0.len(), 2);
    let (l0, f0) = v.row(0);
    assert_eq!(
        titan::view::row_markup(l0, f0),
        ("# ".to_string(), titan::view::Color::Red)
    );
    assert_eq!(titan::view::row_payload(l0), "Hello");
    let (l1, f1) = v.row(1);
    assert_eq!(
        titan::view::row_markup(l1, f1),
        ("".to_string(), titan::view::Color::Default)
    );
    assert_eq!(titan::view::row_payload(l1), "world");
}
