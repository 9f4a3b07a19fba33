//! A verified core for a Gemini protocol terminal client.
//!
//! The crate models the three load-bearing subsystems of such a client:
//! the response and `text/gemini` parser, the word-wrapping pass that
//! turns a document into screen lines, and the viewport state machine
//! that tracks scroll and cursor positions and reduces terminal events
//! to navigation commands.  Around them stand the fetch engine's
//! status dispatch and the trust-on-first-use certificate policy.
//!
//! Network and terminal I/O live outside this crate; the functions here
//! take plain values (bytes, strings, events) and return plain values
//! (documents, actions, commands), each with a contract.

pub mod protocol;
pub mod error;
pub mod text;
pub mod parser;
pub mod codec;
pub mod document;
pub mod urls;
pub mod command;
pub mod view;
pub mod fetch;
pub mod tofu;
pub mod input;
