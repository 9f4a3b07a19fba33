use titan::command::{resolve_target, Command};
use titan::fetch::FetchMachine;

#[test]
fn quit_command() {
    assert!(matches!(Command::parse("q".to_string()), Ok(Command::Exit)));
    assert!(matches!(Command::parse("  q  ".to_string()), Ok(Command::Exit)));
}

#[test]
fn go_command_absolute() {
    match Command::parse("g gemini://example.com/".to_string()) {
        Ok(Command::Load(u)) => {
            assert_eq!(u.scheme().as_str(), "gemini");
            assert_eq!(u.host_str().unwrap().as_str(), "example.com");
            assert_eq!(u.as_str(), "gemini://example.com/");
        }
        _ => panic!("expected Load"),
    }
}

#[test]
fn go_command_bare_name_gets_gemini_scheme() {
    match Command::parse("g example.com".to_string()) {
        Ok(Command::Load(u)) => {
            assert_eq!(u.scheme().as_str(), "gemini");
            assert_eq!(u.host_str().unwrap().as_str(), "example.com");
        }
        _ => panic!("expected Load"),
    }
}

#[test]
fn go_command_failures() {
    assert!(Command::parse("g".to_string()).is_err());
    assert!(Command::parse("g :::".to_string()).is_err());
}

#[test]
fn unknown_commands_fail() {
    assert!(Command::parse("".to_string()).is_err());
    assert!(Command::parse("   ".to_string()).is_err());
    assert!(Command::parse("x whatever".to_string()).is_err());
    assert!(Command::parse("quit".to_string()).is_err());
}

#[test]
fn try_load_resolution() {
    let (m, _) = FetchMachine::start_str("gemini://host/dir/page").unwrap();
    // An absolute target stands as it is.
    let u = resolve_target(&m.url, "gemini://other/x").unwrap();
    assert_eq!(u.as_str(), "gemini://other/x");
    // A relative target resolves against the current page.
    let u = resolve_target(&m.url, "sibling").unwrap();
    assert_eq!(u.as_str(), "gemini://host/dir/sibling");
    let u = resolve_target(&m.url, "/rooted").unwrap();
    assert_eq!(u.as_str(), "gemini://host/rooted");
}

#[test]
fn url_components_come_from_the_parse() {
    let (m, _) = FetchMachine::start_str("gemini://example.com:1966/a?q=1").unwrap();
    assert_eq!(m.url.scheme().as_str(), "gemini");
    assert_eq!(m.url.host_str().unwrap().as_str(), "example.com");
    assert_eq!(m.url.port(), Some(1966));
    assert_eq!(m.url.as_str(), "gemini://example.com:1966/a?q=1");
    let copy = m.url.duplicate();
    assert_eq!(copy.as_str(), m.url.as_str());
}
