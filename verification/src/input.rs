//! The editable one-line input buffer behind the command and query
//! prompts.

use vstd::prelude::*;

use crate::view::Key;

verus! {

/// Relies on String::push: appends one character.
#[verifier::external_body]
fn push_char(s: &mut String, c: char)
    ensures
        final (s)@ == old(s)@.push(c),
{
    s.push(c);
}

/// Relies on String::pop: removes and returns the last character.
#[verifier::external_body]
fn pop_char(s: &mut String) -> (r: Option<char>)
    ensures
        match r {
            Some(c) => old(s)@.len() > 0 && c == old(s)@.last() && final (s)@ == old(
                s,
            )@.drop_last(),
            None => old(s)@.len() == 0 && final (s)@ == old(s)@,
        },
{
    s.pop()
}

/// What one key press did to the buffer, and what the caller must draw.
#[derive(Clone, Copy, Debug, PartialEq, Eq)]
pub enum InputAction {
    Cancel,
    Echo(char),
    Erase,
    Ignore,
}

/// The input line being edited.
pub struct Input(String);

impl View for Input {
    type V = Seq<char>;

    closed spec fn view(&self) -> Seq<char> {
        self.0@
    }
}

impl Input {
    pub fn new() -> (r: Input)
        ensures
            r@ == Seq::<char>::empty(),
    {
        Input(String::new())
    }

    /// The buffered line as typed so far.
    pub fn text(&self) -> (r: String)
        ensures
            r@ == self@,
    {
        self.0.clone()
    }

    /// Apply one key press: control-C and escape cancel the edit;
    /// backspace erases the last character if there is one; a printable
    /// character is appended and echoed; anything else is ignored.
    pub fn key(&mut self, k: Key) -> (r: InputAction)
        ensures
            match k {
                Key::Ctrl(c) => if c == 'c' {
                    r == InputAction::Cancel && final (self)@ == old(self)@
                } else {
                    r == InputAction::Ignore && final (self)@ == old(self)@
                },
                Key::Esc => r == InputAction::Cancel && final (self)@ == old(self)@,
                Key::Backspace => if old(self)@.len() > 0 {
                    r == InputAction::Erase && final (self)@ == old(self)@.drop_last()
                } else {
                    r == InputAction::Ignore && final (self)@ == old(self)@
                },
                Key::Char(c) => r == InputAction::Echo(c) && final (self)@ == old(self)@.push(c),
                _ => r == InputAction::Ignore && final (self)@ == old(self)@,
            },
    {
        match k {
            Key::Ctrl(c) => {
                if c == 'c' {
                    InputAction::Cancel
                } else {
                    InputAction::Ignore
                }
            },
            Key::Esc => InputAction::Cancel,
            Key::Backspace => {
                match pop_char(&mut self.0) {
                    Some(_) => InputAction::Erase,
                    None => InputAction::Ignore,
                }
            },
            Key::Char(c) => {
                push_char(&mut self.0, c);
                InputAction::Echo(c)
            },
            _ => InputAction::Ignore,
        }
    }
}

} // verus!
