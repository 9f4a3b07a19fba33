use titan::input::{Input, InputAction};
use titan::view::Key;

#[test]
fn typing_builds_the_buffer() {
    let mut input = Input::new();
    assert_eq!(input.text(), "");
    assert_eq!(input.key(Key::Char('h')), InputAction::Echo('h'));
    assert_eq!(input.key(Key::Char('i')), InputAction::Echo('i'));
    assert_eq!(input.text(), "hi");
}

#[test]
fn backspace_erases_one_character() {
    let mut input = Input::new();
    input.key(Key::Char('a'));
    input.key(Key::Char('b'));
    assert_eq!(input.key(Key::Backspace), InputAction::Erase);
    assert_eq!(input.text(), "a");
    assert_eq!(input.key(Key::Backspace), InputAction::Erase);
    // An empty buffer has nothing to erase.
    assert_eq!(input.key(Key::Backspace), InputAction::Ignore);
    assert_eq!(input.text(), "");
}

#[test]
fn cancel_keys() {
    let mut input = Input::new();
    input.key(Key::Char('x'));
    assert_eq!(input.key(Key::Esc), InputAction::Cancel);
    assert_eq!(input.key(Key::Ctrl('c')), InputAction::Cancel);
    // Cancelling leaves the buffer alone; the caller discards it.
    assert_eq!(input.text(), "x");
}

#[test]
fn other_keys_are_ignored() {
    let mut input = Input::new();
    assert_eq!(input.key(Key::Enter), InputAction::Ignore);
    assert_eq!(input.key(Key::Other), InputAction::Ignore);
    assert_eq!(input.key(Key::Ctrl('x')), InputAction::Ignore);
    assert_eq!(input.text(), "");
}
