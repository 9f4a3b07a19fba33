use titan::error::Error;
use titan::parser::{parse_line, parse_response, parse_response_status, parse_text_gemini};
use titan::protocol::{Document, Line, Status};

fn text(s: &str) -> Line {
    Line::Text(s.to_string())
}

#[test]
pub fn test_parse_text_gemini() {
    let r = parse_text_gemini(
        "# h1
> quote
## h2

```py
for i in range(10):
    print(i)
```
hi there",
    );
    assert_eq!(
        r,
        Document::new(vec![
            Line::H1("h1".to_string()),
            Line::Quote("quote".to_string()),
            Line::H2("h2".to_string()),
            Line::Text("".to_string()),
            Line::Pre {
                alt: Some("py".to_string()),
                text: "for i in range(10):\n    print(i)".to_string()
            },
            Line::Text("hi there".to_string()),
        ])
    );
}

#[test]
pub fn test_parse_line() {
    let r = parse_line("=> hello.com world");
    assert_eq!(
        r.1,
        Line::NamedLink { url: "hello.com".to_string(), name: "world".to_string() }
    );

    let r = parse_line("=> hello.com ");
    assert_eq!(r.1, Line::BareLink("hello.com".to_string()));

    let r = parse_line("#header");
    assert_eq!(r.1, Line::H1("header".to_string()));

    let r = parse_line("#  header");
    assert_eq!(r.1, Line::H1("header".to_string()));

    let r = parse_line("> quote");
    assert_eq!(r.1, Line::Quote("quote".to_string()));
}

#[test]
fn header_every_known_status() {
    let cases: Vec<(u32, Status)> = vec![
        (10, Status::Input),
        (11, Status::SensitiveInput),
        (20, Status::Success),
        (30, Status::RedirectTemporary),
        (31, Status::RedirectPermanent),
        (40, Status::TemporaryFailure),
        (41, Status::ServerUnavailable),
        (42, Status::CGIError),
        (43, Status::ProxyError),
        (44, Status::SlowDown),
        (50, Status::PermanentFailure),
        (51, Status::NotFound),
        (52, Status::Gone),
        (53, Status::ProxyRequestRefused),
        (59, Status::BadRequest),
        (60, Status::ClientCertificateRequired),
        (61, Status::CertificateNotAuthorized),
        (62, Status::CertificateNotValid),
    ];
    for (code, status) in cases {
        let header = format!("{} meta\r\n", code);
        let resp = parse_response(header.as_bytes()).unwrap();
        assert_eq!(resp.status, status);
        assert_eq!(resp.meta, "meta");
        assert_eq!(resp.body, Vec::<u8>::new());
    }
}

#[test]
fn header_unknown_two_digit_codes_fail() {
    for code in 10u32..100 {
        let known = matches!(
            code,
            10 | 11 | 20 | 30 | 31 | 40 | 41 | 42 | 43 | 44 | 50 | 51 | 52 | 53 | 59 | 60 | 61
                | 62
        );
        let header = format!("{} meta\r\n", code);
        let r = parse_response(header.as_bytes());
        if known {
            assert!(r.is_ok());
        } else {
            assert_eq!(r.unwrap_err(), Error::InvalidStatusCode(code));
        }
    }
}

#[test]
fn header_structural_failures() {
    assert_eq!(parse_response(b"2"), Err(Error::ParseError));
    assert_eq!(parse_response(b"2x text\r\n"), Err(Error::ParseError));
    assert_eq!(parse_response(b"20text\r\n"), Err(Error::ParseError));
    assert_eq!(parse_response(b"20 text"), Err(Error::ParseError));
    assert_eq!(parse_response(b"20 text\rrest"), Err(Error::ParseError));
    // Meta longer than 1024 bytes is refused.
    let long = format!("20 {}\r\n", "a".repeat(1025));
    assert_eq!(parse_response(long.as_bytes()), Err(Error::ParseError));
    let ok = format!("20 {}\r\n", "a".repeat(1024));
    assert!(parse_response(ok.as_bytes()).is_ok());
}

#[test]
fn header_body_is_untouched_tail() {
    let resp = parse_response(b"20 text/gemini\r\nhello\nworld").unwrap();
    assert_eq!(resp.status, Status::Success);
    assert_eq!(resp.meta, "text/gemini");
    assert_eq!(resp.body, b"hello\nworld".to_vec());
}

#[test]
fn parse_response_status_cases() {
    assert_eq!(parse_response_status(b"20"), Ok(Status::Success));
    assert_eq!(parse_response_status(b"62"), Ok(Status::CertificateNotValid));
    assert_eq!(parse_response_status(b"99"), Err(Error::InvalidStatusCode(99)));
    assert_eq!(parse_response_status(b"2x"), Err(Error::ParseError));
}

#[test]
fn body_parse_is_total() {
    // Anything parses to a document: stray carriage returns, unclosed
    // fences, bare prefixes.
    let inputs = [
        "",
        "\r",
        "\r\n",
        "lone\rcarriage",
        "```\nnever closed",
        "```",
        "#",
        "=>",
        "* ",
        ">",
        "normal text\nmore",
    ];
    for input in inputs {
        let _doc = parse_text_gemini(input);
    }
    assert_eq!(parse_text_gemini(""), Document::new(vec![]));
    assert_eq!(
        parse_text_gemini("lone\rcarriage"),
        Document::new(vec![text("lone"), text("carriage")])
    );
}

#[test]
fn link_forms() {
    // `=> url name` names the link; trailing spaces only leave it bare.
    let r = parse_line("=> url name");
    assert_eq!(
        r.1,
        Line::NamedLink { url: "url".to_string(), name: "name".to_string() }
    );
    let r = parse_line("=> url    ");
    assert_eq!(r.1, Line::BareLink("url".to_string()));
    let r = parse_line("=>url name with spaces");
    assert_eq!(
        r.1,
        Line::NamedLink { url: "url".to_string(), name: "name with spaces".to_string() }
    );
}

#[test]
fn preformatted_blocks_are_verbatim() {
    // The alt tag and every interior byte survive: no trimming, no
    // wrapping, indentation kept.
    let doc = parse_text_gemini("```py\nfor i in x:\n  print(i)\n```\nafter");
    assert_eq!(
        doc,
        Document::new(vec![
            Line::Pre {
                alt: Some("py".to_string()),
                text: "for i in x:\n  print(i)".to_string()
            },
            text("after"),
        ])
    );
    // Leading/trailing spaces inside the block are kept exactly.
    let doc = parse_text_gemini("```\n   spaced   \n```\n");
    assert_eq!(
        doc,
        Document::new(vec![Line::Pre { alt: None, text: "   spaced   ".to_string() }])
    );
    // An unclosed block runs to the end of input.
    let doc = parse_text_gemini("```alt\nrest of\nthe file");
    assert_eq!(
        doc,
        Document::new(vec![Line::Pre {
            alt: Some("alt".to_string()),
            text: "rest of\nthe file".to_string()
        }])
    );
}

#[test]
fn empty_pre_block() {
    let doc = parse_text_gemini("```\n```\n");
    assert_eq!(doc, Document::new(vec![Line::Pre { alt: None, text: "".to_string() }]));
}
