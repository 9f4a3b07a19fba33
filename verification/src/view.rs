//! The viewport: scroll and cursor state over a wrapped document,
//! repaint decisions, and the reduction of terminal events to commands.
//!
//! The invariants: `yscroll <= ycursor < len` and
//! `ycursor - yscroll < height` whenever the wrapped document is
//! nonempty; both indices are zero when it is empty.  Every mutating
//! method states and preserves them.

use vstd::prelude::*;
use vstd::view::View as _;

use crate::command::Command;
use crate::document::spec_word_wrap;
use crate::protocol::{Document, Line, LineView, WrappedDocument};

verus! {

/// A key press, with the control modifier folded in.
#[derive(Clone, Copy, Debug, PartialEq, Eq)]
pub enum Key {
    Char(char),
    Ctrl(char),
    Enter,
    Backspace,
    Esc,
    Other,
}

/// A terminal event as the viewport sees it.
#[derive(Clone, Copy, Debug, PartialEq, Eq)]
pub enum Event {
    Key(Key),
    ScrollUp,
    ScrollDown,
    Resize(u16, u16),
    Other,
}

/// The foreground styles the renderer uses.
#[derive(Clone, Copy, Debug, PartialEq, Eq)]
pub enum Color {
    Default,
    Red,
    Yellow,
    Cyan,
    White,
    Magenta,
}

/// How much of the screen a state change dirtied: nothing, everything
/// (the scroll position moved), or exactly the old and new cursor rows.
#[derive(Clone, Copy, Debug, PartialEq, Eq)]
pub enum Repaint {
    Skip,
    Full,
    Rows(usize, usize),
}

/// What handling one event asks of the application.
pub enum ViewEffect {
    Nothing,
    Paint(Repaint),
    Emit(Command),
    OpenPrompt,
}

/// The effect of one event, and whether a stale error line was cleared
/// first.
pub struct ViewAction {
    pub cleared_error: bool,
    pub effect: ViewEffect,
}

/// What feeding the typed command line back to the viewport yields.
pub enum PromptOutcome {
    Run(Command),
    ShowError(String),
    Cancelled,
}

/// The viewport state.
pub struct View {
    pub source: Document,
    pub doc: WrappedDocument,
    pub width: u16,
    pub height: u16,
    pub yscroll: usize,
    pub ycursor: usize,
    pub cmd_error: bool,
}

/// The `down` step: cursor advances, the window follows.
pub open spec fn down_rel(len: int, h: int, c: int, s: int, c2: int, s2: int, r: Repaint) -> bool {
    if len == 0 {
        c2 == c && s2 == s && r == Repaint::Skip
    } else {
        let cn = if c + 1 < len {
            c + 1
        } else {
            len - 1
        };
        let sn = if cn >= s + h {
            if s + 1 < len {
                s + 1
            } else {
                len - 1
            }
        } else {
            s
        };
        c2 == cn && s2 == sn && r == (if sn != s {
            Repaint::Full
        } else if cn != c {
            Repaint::Rows(c as usize, cn as usize)
        } else {
            Repaint::Skip
        })
    }
}

/// The `up` step: cursor retreats, the window follows.
pub open spec fn up_rel(len: int, c: int, s: int, c2: int, s2: int, r: Repaint) -> bool {
    if len == 0 {
        c2 == c && s2 == s && r == Repaint::Skip
    } else {
        let cn = if c > 0 {
            c - 1
        } else {
            0
        };
        let sn = if cn < s {
            if s > 0 {
                s - 1
            } else {
                0
            }
        } else {
            s
        };
        c2 == cn && s2 == sn && r == (if sn != s {
            Repaint::Full
        } else if cn != c {
            Repaint::Rows(c as usize, cn as usize)
        } else {
            Repaint::Skip
        })
    }
}

impl View {
    /// The viewport invariants of the design: the wrapped document is the
    /// source wrapped at the current width, and scroll and cursor stay in
    /// range and within one screen of each other.
    pub open spec fn wf(&self) -> bool {
        &&& self.width >= 4
        &&& self.height >= 1
        &&& self.doc@ == spec_word_wrap(self.source@, self.width as int)
        &&& if self.doc@.len() == 0 {
            self.yscroll == 0 && self.ycursor == 0
        } else {
            self.yscroll <= self.ycursor < self.doc@.len() && self.ycursor - self.yscroll
                < self.height
        }
    }

    /// Everything but the positions and the error flag is unchanged.
    pub open spec fn same_layout(&self, other: &View) -> bool {
        &&& self.source == other.source
        &&& self.doc == other.doc
        &&& self.width == other.width
        &&& self.height == other.height
    }

    /// A fresh viewport over a document, for a terminal of `w` columns
    /// and `h` rows: two columns of padding each side, two rows reserved
    /// at the bottom.
    pub fn new(source: Document, w: u16, h: u16) -> (r: View)
        requires
            w >= 8,
            h >= 3,
        ensures
            r.wf(),
            r.source@ == source@,
            r.width == w - 4,
            r.height == h - 2,
            r.yscroll == 0,
            r.ycursor == 0,
            r.cmd_error == false,
    {
        let doc = source.word_wrap((w - 4) as usize);
        View { source, doc, width: w - 4, height: h - 2, yscroll: 0, ycursor: 0, cmd_error: false }
    }

    /// Move the cursor one screen row down, scrolling when it would
    /// leave the window.
    pub fn down(&mut self) -> (r: Repaint)
        requires
            old(self).wf(),
        ensures
            final (self).wf(),
            final (self).same_layout(old(self)),
            final (self).cmd_error == old(self).cmd_error,
            down_rel(
                old(self).doc@.len() as int,
                old(self).height as int,
                old(self).ycursor as int,
                old(self).yscroll as int,
                final (self).ycursor as int,
                final (self).yscroll as int,
                r,
            ),
    {
        let len = self.doc.0.len();
        if len == 0 {
            return Repaint::Skip;
        }
        let prev_c = self.ycursor;
        let prev_s = self.yscroll;
        if self.ycursor + 1 < len {
            self.ycursor = self.ycursor + 1;
        } else {
            self.ycursor = len - 1;
        }
        if self.ycursor - self.yscroll >= self.height as usize {
            if self.yscroll + 1 < len {
                self.yscroll = self.yscroll + 1;
            } else {
                self.yscroll = len - 1;
            }
        }
        if self.yscroll != prev_s {
            Repaint::Full
        } else if self.ycursor != prev_c {
            Repaint::Rows(prev_c, self.ycursor)
        } else {
            Repaint::Skip
        }
    }

    /// Move the cursor one screen row up, scrolling when it would leave
    /// the window.
    pub fn up(&mut self) -> (r: Repaint)
        requires
            old(self).wf(),
        ensures
            final (self).wf(),
            final (self).same_layout(old(self)),
            final (self).cmd_error == old(self).cmd_error,
            up_rel(
                old(self).doc@.len() as int,
                old(self).ycursor as int,
                old(self).yscroll as int,
                final (self).ycursor as int,
                final (self).yscroll as int,
                r,
            ),
    {
        let len = self.doc.0.len();
        if len == 0 {
            return Repaint::Skip;
        }
        let prev_c = self.ycursor;
        let prev_s = self.yscroll;
        if self.ycursor > 0 {
            self.ycursor = self.ycursor - 1;
        }
        if self.ycursor < self.yscroll {
            if self.yscroll > 0 {
                self.yscroll = self.yscroll - 1;
            }
        }
        if self.yscroll != prev_s {
            Repaint::Full
        } else if self.ycursor != prev_c {
            Repaint::Rows(prev_c, self.ycursor)
        } else {
            Repaint::Skip
        }
    }

    /// Re-wrap for a new terminal size; the scroll position keeps its
    /// fractional place in the document to within one screen line, and
    /// the cursor is rescaled likewise, then clamped back into the
    /// window.
    pub fn resize(&mut self, w: u16, h: u16)
        requires
            old(self).wf(),
            w >= 8,
            h >= 3,
        ensures
            final (self).wf(),
            final (self).source == old(self).source,
            final (self).cmd_error == old(self).cmd_error,
            final (self).width == w - 4,
            final (self).height == h - 2,
            final (self).doc@ == spec_word_wrap(old(self).source@, w - 4),
            ({
                let olen = old(self).doc@.len() as int;
                let nlen = final (self).doc@.len() as int;
                &&& ((olen == 0 || nlen == 0) ==> final (self).yscroll == 0 && final (self).ycursor
                    == 0)
                &&& (olen > 0 && nlen > 0 ==> final (self).yscroll * olen <= old(self).yscroll
                    * nlen < (final (self).yscroll + 1) * olen)
                &&& (olen > 0 && nlen > 0 ==> final (self).ycursor == ({
                    let c0 = (old(self).ycursor * nlen) / olen;
                    let s2 = final (self).yscroll as int;
                    let lo = if c0 > s2 {
                        c0
                    } else {
                        s2
                    };
                    let cap1 = s2 + (h - 2) - 1;
                    let cap2 = nlen - 1;
                    let hi = if cap1 < cap2 {
                        cap1
                    } else {
                        cap2
                    };
                    if lo < hi {
                        lo
                    } else {
                        hi
                    }
                }))
            }),
    {
        let ghost pre_s = self.yscroll as int;
        let ghost pre_c = self.ycursor as int;
        let doc = self.source.word_wrap((w - 4) as usize);
        let olen = self.doc.0.len();
        let nlen = doc.0.len();
        self.doc = doc;
        self.width = w - 4;
        self.height = h - 2;
        if olen == 0 || nlen == 0 {
            self.yscroll = 0;
            self.ycursor = 0;
            return ;
        }
        proof {
            assert(pre_s * (nlen as int) <= u128::MAX) by (nonlinear_arith)
                requires
                    0 <= pre_s <= u64::MAX,
                    0 <= nlen <= u64::MAX,
            ;
            assert(pre_c * (nlen as int) <= u128::MAX) by (nonlinear_arith)
                requires
                    0 <= pre_c <= u64::MAX,
                    0 <= nlen <= u64::MAX,
            ;
        }
        let s2 = (((self.yscroll as u128) * (nlen as u128)) / (olen as u128)) as usize;
        let c0 = (((self.ycursor as u128) * (nlen as u128)) / (olen as u128)) as usize;
        proof {
            let a = pre_s * (nlen as int);
            let b = pre_c * (nlen as int);
            vstd::arithmetic::div_mod::lemma_fundamental_div_mod(a, olen as int);
            vstd::arithmetic::div_mod::lemma_fundamental_div_mod(b, olen as int);
            assert(a < (olen as int) * (nlen as int)) by (nonlinear_arith)
                requires
                    0 <= pre_s < olen,
                    nlen > 0,
                    a == pre_s * (nlen as int),
            ;
            assert(b < (olen as int) * (nlen as int)) by (nonlinear_arith)
                requires
                    0 <= pre_c < olen,
                    nlen > 0,
                    b == pre_c * (nlen as int),
            ;
            assert(a / (olen as int) < nlen as int) by (nonlinear_arith)
                requires
                    olen > 0,
                    (olen as int) * (a / (olen as int)) + a % (olen as int) == a,
                    0 <= a % (olen as int),
                    a < (olen as int) * (nlen as int),
            ;
            assert(b / (olen as int) < nlen as int) by (nonlinear_arith)
                requires
                    olen > 0,
                    (olen as int) * (b / (olen as int)) + b % (olen as int) == b,
                    0 <= b % (olen as int),
                    b < (olen as int) * (nlen as int),
            ;
            assert((s2 as int) == a / (olen as int));
            assert((c0 as int) == b / (olen as int));
            assert((s2 as int) * (olen as int) <= a < ((s2 as int) + 1) * (olen as int))
                by (nonlinear_arith)
                requires
                    olen > 0,
                    (olen as int) * (s2 as int) + a % (olen as int) == a,
                    0 <= a % (olen as int) < olen as int,
            ;
        }
        self.yscroll = s2;
        let lo = if c0 > s2 {
            c0
        } else {
            s2
        };
        let cap2 = nlen - 1;
        let span = (h - 2) as usize - 1;
        let hi = if span < cap2 - s2 {
            s2 + span
        } else {
            cap2
        };
        self.ycursor = if lo < hi {
            lo
        } else {
            hi
        };
    }

    /// The screen row at index `i`: the (shortened) line and its
    /// first-of-block flag.
    pub fn row(&self, i: usize) -> (r: (&Line, bool))
        requires
            i < self.doc.0@.len(),
        ensures
            r.0@ == self.doc@[i as int].0,
            r.1 == self.doc@[i as int].1,
    {
        let p = &self.doc.0[i];
        (&p.0, p.1)
    }

    /// Reduce one terminal event: navigation mutates the state and asks
    /// for a repaint; `Enter` on a link row emits `TryLoad` and on any
    /// other row does nothing; `:` asks the application to prompt for a
    /// command; `q` and control-C exit.  A pending error line is cleared
    /// on any key press before the key acts.  A resize below the minimum
    /// usable size is clamped up to it.
    pub fn event(&mut self, e: Event) -> (r: ViewAction)
        requires
            old(self).wf(),
        ensures
            final (self).wf(),
            final (self).source == old(self).source,
            ({
                let len = old(self).doc@.len() as int;
                match e {
                    Event::Key(k) => {
                        &&& r.cleared_error == old(self).cmd_error
                        &&& final (self).cmd_error == false
                        &&& match k {
                            Key::Ctrl(c) => if c == 'c' {
                                r.effect == ViewEffect::Emit(Command::Exit) && final (self).same_layout(old(self)) && final (self).ycursor == old(self).ycursor && final (self).yscroll == old(self).yscroll
                            } else {
                                r.effect == ViewEffect::Nothing && final (self).same_layout(
                                    old(self),
                                ) && final (self).ycursor == old(self).ycursor && final (self).yscroll == old(self).yscroll
                            },
                            Key::Char(c) => if c == 'q' {
                                r.effect == ViewEffect::Emit(Command::Exit) && final (self).same_layout(old(self)) && final (self).ycursor == old(self).ycursor && final (self).yscroll == old(self).yscroll
                            } else if c == 'j' {
                                final (self).same_layout(old(self)) && exists|rp: Repaint|
                                    r.effect == ViewEffect::Paint(rp) && #[trigger] down_rel(
                                        len,
                                        old(self).height as int,
                                        old(self).ycursor as int,
                                        old(self).yscroll as int,
                                        final (self).ycursor as int,
                                        final (self).yscroll as int,
                                        rp,
                                    )
                            } else if c == 'k' {
                                final (self).same_layout(old(self)) && exists|rp: Repaint|
                                    r.effect == ViewEffect::Paint(rp) && #[trigger] up_rel(
                                        len,
                                        old(self).ycursor as int,
                                        old(self).yscroll as int,
                                        final (self).ycursor as int,
                                        final (self).yscroll as int,
                                        rp,
                                    )
                            } else if c == ':' {
                                r.effect == ViewEffect::OpenPrompt && final (self).same_layout(
                                    old(self),
                                ) && final (self).ycursor == old(self).ycursor && final (self).yscroll == old(self).yscroll
                            } else {
                                r.effect == ViewEffect::Nothing && final (self).same_layout(
                                    old(self),
                                ) && final (self).ycursor == old(self).ycursor && final (self).yscroll == old(self).yscroll
                            },
                            Key::Enter => {
                                &&& final (self).same_layout(old(self))
                                &&& final (self).ycursor == old(self).ycursor
                                &&& final (self).yscroll == old(self).yscroll
                                &&& if old(self).ycursor < len {
                                    match old(self).doc@[old(self).ycursor as int].0 {
                                        LineView::BareLink(u) => match r.effect {
                                            ViewEffect::Emit(Command::TryLoad(s)) => s@ == u,
                                            _ => false,
                                        },
                                        LineView::NamedLink { url, name } => match r.effect {
                                            ViewEffect::Emit(Command::TryLoad(s)) => s@ == url,
                                            _ => false,
                                        },
                                        _ => r.effect == ViewEffect::Nothing,
                                    }
                                } else {
                                    r.effect == ViewEffect::Nothing
                                }
                            },
                            _ => r.effect == ViewEffect::Nothing && final (self).same_layout(
                                old(self),
                            ) && final (self).ycursor == old(self).ycursor && final (self).yscroll
                                == old(self).yscroll,
                        }
                    },
                    Event::ScrollDown => {
                        &&& r.cleared_error == false
                        &&& final (self).cmd_error == old(self).cmd_error
                        &&& final (self).same_layout(old(self))
                        &&& exists|rp: Repaint|
                            r.effect == ViewEffect::Paint(rp) && #[trigger] down_rel(
                                len,
                                old(self).height as int,
                                old(self).ycursor as int,
                                old(self).yscroll as int,
                                final (self).ycursor as int,
                                final (self).yscroll as int,
                                rp,
                            )
                    },
                    Event::ScrollUp => {
                        &&& r.cleared_error == false
                        &&& final (self).cmd_error == old(self).cmd_error
                        &&& final (self).same_layout(old(self))
                        &&& exists|rp: Repaint|
                            r.effect == ViewEffect::Paint(rp) && #[trigger] up_rel(
                                len,
                                old(self).ycursor as int,
                                old(self).yscroll as int,
                                final (self).ycursor as int,
                                final (self).yscroll as int,
                                rp,
                            )
                    },
                    Event::Resize(w, h) => {
                        &&& r.cleared_error == false
                        &&& final (self).cmd_error == old(self).cmd_error
                        &&& r.effect == ViewEffect::Paint(Repaint::Full)
                        &&& final (self).width == (if w < 8 {
                            8u16
                        } else {
                            w
                        }) - 4
                        &&& final (self).height == (if h < 3 {
                            3u16
                        } else {
                            h
                        }) - 2
                        &&& final (self).doc@ == spec_word_wrap(
                            old(self).source@,
                            final (self).width as int,
                        )
                    },
                    Event::Other => {
                        &&& r.cleared_error == false
                        &&& final (self).cmd_error == old(self).cmd_error
                        &&& r.effect == ViewEffect::Nothing
                        &&& final (self).same_layout(old(self))
                        &&& final (self).ycursor == old(self).ycursor
                        &&& final (self).yscroll == old(self).yscroll
                    },
                }
            }),
    {
        match e {
            Event::Key(k) => {
                let cleared = self.cmd_error;
                self.cmd_error = false;
                let effect = match k {
                    Key::Ctrl(c) => {
                        if c == 'c' {
                            ViewEffect::Emit(Command::Exit)
                        } else {
                            ViewEffect::Nothing
                        }
                    },
                    Key::Char(c) => {
                        if c == 'q' {
                            ViewEffect::Emit(Command::Exit)
                        } else if c == 'j' {
                            let rp = self.down();
                            ViewEffect::Paint(rp)
                        } else if c == 'k' {
                            let rp = self.up();
                            ViewEffect::Paint(rp)
                        } else if c == ':' {
                            ViewEffect::OpenPrompt
                        } else {
                            ViewEffect::Nothing
                        }
                    },
                    Key::Enter => {
                        if self.ycursor < self.doc.0.len() {
                            match &self.doc.0[self.ycursor].0 {
                                Line::BareLink(u) => ViewEffect::Emit(
                                    Command::TryLoad(u.clone()),
                                ),
                                Line::NamedLink { url, name } => ViewEffect::Emit(
                                    Command::TryLoad(url.clone()),
                                ),
                                _ => ViewEffect::Nothing,
                            }
                        } else {
                            ViewEffect::Nothing
                        }
                    },
                    _ => ViewEffect::Nothing,
                };
                ViewAction { cleared_error: cleared, effect }
            },
            Event::ScrollDown => {
                let rp = self.down();
                ViewAction { cleared_error: false, effect: ViewEffect::Paint(rp) }
            },
            Event::ScrollUp => {
                let rp = self.up();
                ViewAction { cleared_error: false, effect: ViewEffect::Paint(rp) }
            },
            Event::Resize(w, h) => {
                let w2 = if w < 8 {
                    8
                } else {
                    w
                };
                let h2 = if h < 3 {
                    3
                } else {
                    h
                };
                self.resize(w2, h2);
                ViewAction { cleared_error: false, effect: ViewEffect::Paint(Repaint::Full) }
            },
            Event::Other => ViewAction { cleared_error: false, effect: ViewEffect::Nothing },
        }
    }

    /// Feed back what the command prompt produced: a command to run, an
    /// error to show on the status line, or a cancelled prompt.
    pub fn on_command(&mut self, line: Option<String>) -> (r: PromptOutcome)
        requires
            old(self).wf(),
        ensures
            final (self).wf(),
            final (self).same_layout(old(self)),
            final (self).ycursor == old(self).ycursor,
            final (self).yscroll == old(self).yscroll,
            match line {
                None => r is Cancelled && final (self).cmd_error == false,
                Some(s) => {
                    exists|pr: Result<Command, String>|
                        #[trigger] crate::command::parse_spec_ok(s@, pr) && match pr {
                            Ok(c) => r == PromptOutcome::Run(c) && final (self).cmd_error == old(self).cmd_error,
                            Err(m) => r == PromptOutcome::ShowError(m) && final (self).cmd_error
                                == true,
                        }
                },
            },
    {
        match line {
            None => {
                self.cmd_error = false;
                PromptOutcome::Cancelled
            },
            Some(s) => {
                let pr = Command::parse(s);
                match pr {
                    Ok(c) => PromptOutcome::Run(c),
                    Err(m) => {
                        self.cmd_error = true;
                        PromptOutcome::ShowError(m)
                    },
                }
            },
        }
    }
}

// ------------------------------------------------------------------
// Rendering: prefix, style and payload of one screen row.
// ------------------------------------------------------------------
/// The prefix of a screen row: drawn on the first row of a block, blanks
/// of the same width on its continuation rows.
pub open spec fn row_prefix(l: LineView, first: bool) -> Seq<char> {
    match l {
        LineView::Text(t) => Seq::empty(),
        LineView::Pre { alt, text } => Seq::empty(),
        LineView::H1(t) => if first {
            seq!['#', ' ']
        } else {
            seq![' ', ' ']
        },
        LineView::H2(t) => if first {
            seq!['#', '#', ' ']
        } else {
            seq![' ', ' ', ' ']
        },
        LineView::H3(t) => if first {
            seq!['#', '#', '#', ' ']
        } else {
            seq![' ', ' ', ' ', ' ']
        },
        LineView::List(t) => if first {
            seq!['\u{2022}', ' ']
        } else {
            seq![' ', ' ']
        },
        LineView::Quote(t) => seq!['>', ' '],
        LineView::NamedLink { url, name } => if first {
            seq!['\u{2192}', ' ']
        } else {
            seq![' ', ' ']
        },
        LineView::BareLink(u) => seq!['\u{2192}', ' '],
    }
}

/// The foreground style of a screen row.
pub open spec fn row_color(l: LineView) -> Color {
    match l {
        LineView::Text(t) => Color::Default,
        LineView::Pre { alt, text } => Color::Red,
        LineView::H1(t) => Color::Red,
        LineView::H2(t) => Color::Yellow,
        LineView::H3(t) => Color::Cyan,
        LineView::List(t) => Color::Default,
        LineView::Quote(t) => Color::White,
        LineView::NamedLink { url, name } => Color::Magenta,
        LineView::BareLink(u) => Color::Magenta,
    }
}

/// The visible payload of a screen row.
pub open spec fn row_payload_view(l: LineView) -> Seq<char> {
    match l {
        LineView::Text(t) => t,
        LineView::Pre { alt, text } => text,
        LineView::H1(t) => t,
        LineView::H2(t) => t,
        LineView::H3(t) => t,
        LineView::List(t) => t,
        LineView::Quote(t) => t,
        LineView::NamedLink { url, name } => name,
        LineView::BareLink(u) => u,
    }
}

/// The prefix and style to draw a screen row with.
pub fn row_markup(line: &Line, first: bool) -> (r: (String, Color))
    ensures
        r.0@ == row_prefix(line@, first),
        r.1 == row_color(line@),
{
    proof {
        reveal_strlit("");
        reveal_strlit("# ");
        reveal_strlit("  ");
        reveal_strlit("## ");
        reveal_strlit("   ");
        reveal_strlit("### ");
        reveal_strlit("    ");
        reveal_strlit("\u{2022} ");
        reveal_strlit("> ");
        reveal_strlit("\u{2192} ");
        assert(("")@ =~= Seq::<char>::empty());
        assert(("# ")@ =~= seq!['#', ' ']);
        assert(("  ")@ =~= seq![' ', ' ']);
        assert(("## ")@ =~= seq!['#', '#', ' ']);
        assert(("   ")@ =~= seq![' ', ' ', ' ']);
        assert(("### ")@ =~= seq!['#', '#', '#', ' ']);
        assert(("    ")@ =~= seq![' ', ' ', ' ', ' ']);
        assert(("\u{2022} ")@ =~= seq!['\u{2022}', ' ']);
        assert(("> ")@ =~= seq!['>', ' ']);
        assert(("\u{2192} ")@ =~= seq!['\u{2192}', ' ']);
    }
    match line {
        Line::Text(t) => (String::from_str(""), Color::Default),
        Line::Pre { alt, text } => (String::from_str(""), Color::Red),
        Line::H1(t) => (
            String::from_str(
                if first {
                    "# "
                } else {
                    "  "
                },
            ),
            Color::Red,
        ),
        Line::H2(t) => (
            String::from_str(
                if first {
                    "## "
                } else {
                    "   "
                },
            ),
            Color::Yellow,
        ),
        Line::H3(t) => (
            String::from_str(
                if first {
                    "### "
                } else {
                    "    "
                },
            ),
            Color::Cyan,
        ),
        Line::List(t) => (
            String::from_str(
                if first {
                    "\u{2022} "
                } else {
                    "  "
                },
            ),
            Color::Default,
        ),
        Line::Quote(t) => (String::from_str("> "), Color::White),
        Line::NamedLink { url, name } => (
            String::from_str(
                if first {
                    "\u{2192} "
                } else {
                    "  "
                },
            ),
            Color::Magenta,
        ),
        Line::BareLink(u) => (String::from_str("\u{2192} "), Color::Magenta),
    }
}

/// The payload a screen row shows.
pub fn row_payload(line: &Line) -> (r: &String)
    ensures
        r@ == row_payload_view(line@),
{
    match line {
        Line::Text(t) => t,
        Line::Pre { alt, text } => text,
        Line::H1(t) => t,
        Line::H2(t) => t,
        Line::H3(t) => t,
        Line::List(t) => t,
        Line::Quote(t) => t,
        Line::NamedLink { url, name } => name,
        Line::BareLink(u) => u,
    }
}

} // verus!
