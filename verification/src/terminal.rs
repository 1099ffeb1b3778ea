//! Terminal primitives behind a call-recording handle.
//!
//! Every mode change, cursor movement, write and input poll the library
//! performs goes through a `Terminal` value, which keeps a ghost log of the
//! primitive calls made through it, in order.  Contracts over that log can
//! then state, for example, that an animated display restores the terminal
//! exactly once on every exit path.

use vstd::prelude::*;
use core::time::Duration;
use crossterm::event::{Event, KeyCode, KeyModifiers};
use crossterm::ExecutableCommand;
use crossterm::QueueableCommand;
use std::io::Write;

verus! {

/// A key press, reduced to what cancellation handling reads.
#[derive(Debug, Clone, Copy, PartialEq, Eq, Structural)]
pub enum KeyInput {
    /// The escape key.
    Escape,
    /// A character key; the flag is set when exactly the Control modifier
    /// was held.
    Char(char, bool),
    /// Any other input event.
    Other,
}

/// One terminal-primitive call.
pub enum TermCall {
    /// Raw input mode was enabled.
    EnableRaw,
    /// Raw input mode was disabled.
    DisableRaw,
    /// The alternate screen buffer was entered.
    EnterAlt,
    /// The alternate screen buffer was left.
    LeaveAlt,
    /// The cursor was hidden.
    HideCursor,
    /// The cursor was shown.
    ShowCursor,
    /// The screen was cleared.
    Clear,
    /// The cursor moved to the given column and row.
    MoveTo(u16, u16),
    /// The given text was written.
    Print(Seq<char>),
    /// Buffered writes were flushed.
    Flush,
    /// The cursor position was queried, answered with the given (column,
    /// row), or nothing when the query failed.
    QueryPos(Option<(u16, u16)>),
    /// The terminal's column count was queried, answered with the given
    /// width, or nothing when no terminal is attached.
    QueryCols(Option<u16>),
    /// Input was polled for, up to a timeout; the flag says whether an
    /// event was reported ready (a failed poll reports none).
    Poll(bool),
    /// An input event was read, reduced to the given key.
    ReadKey(KeyInput),
}

/// Handle on the terminal.  The ghost log records every primitive call
/// made through it, in order; a call is recorded whether or not it
/// succeeded.
pub struct Terminal {
    calls: Ghost<Seq<TermCall>>,
}

impl Terminal {
    /// The primitive calls made through this handle so far.
    pub closed spec fn log(&self) -> Seq<TermCall> {
        self.calls@
    }

    /// A handle with an empty call log.
    pub fn new() -> (t: Terminal)
        ensures
            t.log() == Seq::<TermCall>::empty(),
    {
        Terminal { calls: Ghost(Seq::empty()) }
    }

    /// Relies on crossterm::terminal::enable_raw_mode.
    #[verifier::external_body]
    pub(crate) fn enable_raw(&mut self) -> (r: Result<(), String>)
        ensures
            final(self).log() == old(self).log().push(TermCall::EnableRaw),
    {
        match crossterm::terminal::enable_raw_mode() {
            Ok(()) => Ok(()),
            Err(e) => Err(format!("{}", e)),
        }
    }

    /// Relies on crossterm::terminal::disable_raw_mode.
    #[verifier::external_body]
    pub(crate) fn disable_raw(&mut self) -> (r: Result<(), String>)
        ensures
            final(self).log() == old(self).log().push(TermCall::DisableRaw),
    {
        match crossterm::terminal::disable_raw_mode() {
            Ok(()) => Ok(()),
            Err(e) => Err(format!("{}", e)),
        }
    }

    /// Relies on crossterm's EnterAlternateScreen command, executed on
    /// standard output.
    #[verifier::external_body]
    pub(crate) fn enter_alt(&mut self) -> (r: Result<(), String>)
        ensures
            final(self).log() == old(self).log().push(TermCall::EnterAlt),
    {
        match std::io::stdout().execute(crossterm::terminal::EnterAlternateScreen) {
            Ok(_) => Ok(()),
            Err(e) => Err(format!("{}", e)),
        }
    }

    /// Relies on crossterm's LeaveAlternateScreen command, executed on
    /// standard output.
    #[verifier::external_body]
    pub(crate) fn leave_alt(&mut self) -> (r: Result<(), String>)
        ensures
            final(self).log() == old(self).log().push(TermCall::LeaveAlt),
    {
        match std::io::stdout().execute(crossterm::terminal::LeaveAlternateScreen) {
            Ok(_) => Ok(()),
            Err(e) => Err(format!("{}", e)),
        }
    }

    /// Relies on crossterm's cursor::Hide command, executed on standard
    /// output.
    #[verifier::external_body]
    pub(crate) fn hide_cursor(&mut self) -> (r: Result<(), String>)
        ensures
            final(self).log() == old(self).log().push(TermCall::HideCursor),
    {
        match std::io::stdout().execute(crossterm::cursor::Hide) {
            Ok(_) => Ok(()),
            Err(e) => Err(format!("{}", e)),
        }
    }

    /// Relies on crossterm's cursor::Show command, executed on standard
    /// output.
    #[verifier::external_body]
    pub(crate) fn show_cursor(&mut self) -> (r: Result<(), String>)
        ensures
            final(self).log() == old(self).log().push(TermCall::ShowCursor),
    {
        match std::io::stdout().execute(crossterm::cursor::Show) {
            Ok(_) => Ok(()),
            Err(e) => Err(format!("{}", e)),
        }
    }

    /// Relies on crossterm's terminal::Clear command, queued on standard
    /// output.
    #[verifier::external_body]
    pub(crate) fn clear(&mut self) -> (r: Result<(), String>)
        ensures
            final(self).log() == old(self).log().push(TermCall::Clear),
    {
        match std::io::stdout().queue(crossterm::terminal::Clear(
            crossterm::terminal::ClearType::Purge,
        )) {
            Ok(_) => Ok(()),
            Err(e) => Err(format!("{}", e)),
        }
    }

    /// Relies on crossterm's cursor::MoveTo command, queued on standard
    /// output.
    #[verifier::external_body]
    pub(crate) fn move_to(&mut self, column: u16, row: u16) -> (r: Result<(), String>)
        ensures
            final(self).log() == old(self).log().push(TermCall::MoveTo(column, row)),
    {
        match std::io::stdout().queue(crossterm::cursor::MoveTo(column, row)) {
            Ok(_) => Ok(()),
            Err(e) => Err(format!("{}", e)),
        }
    }

    /// Relies on crossterm's style::Print command, queued on standard
    /// output: it writes exactly the given text.
    #[verifier::external_body]
    pub(crate) fn print(&mut self, text: &str) -> (r: Result<(), String>)
        ensures
            final(self).log() == old(self).log().push(TermCall::Print(text@)),
    {
        match std::io::stdout().queue(crossterm::style::Print(text)) {
            Ok(_) => Ok(()),
            Err(e) => Err(format!("{}", e)),
        }
    }

    /// Relies on std::io::Write::flush on standard output.
    #[verifier::external_body]
    pub(crate) fn flush(&mut self) -> (r: Result<(), String>)
        ensures
            final(self).log() == old(self).log().push(TermCall::Flush),
    {
        match std::io::stdout().flush() {
            Ok(()) => Ok(()),
            Err(e) => Err(format!("{}", e)),
        }
    }

    /// Relies on crossterm::cursor::position: the cursor's (column, row);
    /// the value depends on the terminal's state, so nothing is assumed of
    /// it.
    #[verifier::external_body]
    pub(crate) fn query_pos(&mut self) -> (r: Result<(u16, u16), String>)
        ensures
            r matches Ok(p) ==> final(self).log() == old(self).log().push(
                TermCall::QueryPos(Some(p)),
            ),
            r matches Err(_) ==> final(self).log() == old(self).log().push(
                TermCall::QueryPos(None),
            ),
    {
        match crossterm::cursor::position() {
            Ok(p) => Ok(p),
            Err(e) => Err(format!("{}", e)),
        }
    }

    /// Relies on crossterm::event::poll: waits up to `timeout` for an input
    /// event and says whether one is ready; the outcome depends on the
    /// user, so nothing is assumed of it.
    #[verifier::external_body]
    pub(crate) fn poll_input(&mut self, timeout: Duration) -> (r: Result<bool, String>)
        ensures
            r matches Ok(b) ==> final(self).log() == old(self).log().push(TermCall::Poll(b)),
            r matches Err(_) ==> final(self).log() == old(self).log().push(TermCall::Poll(false)),
    {
        match crossterm::event::poll(timeout) {
            Ok(b) => Ok(b),
            Err(e) => Err(format!("{}", e)),
        }
    }

    /// Relies on crossterm::event::read: returns the next input event,
    /// reduced to the key shape that cancellation handling reads; which
    /// event arrives depends on the user.
    #[verifier::external_body]
    pub(crate) fn read_key(&mut self) -> (r: Result<KeyInput, String>)
        ensures
            r matches Ok(k) ==> final(self).log() == old(self).log().push(TermCall::ReadKey(k)),
            r matches Err(_) ==> final(self).log() == old(self).log().push(
                TermCall::ReadKey(KeyInput::Other),
            ),
    {
        match crossterm::event::read() {
            Ok(Event::Key(ev)) => Ok(match ev.code {
                KeyCode::Esc => KeyInput::Escape,
                KeyCode::Char(c) => KeyInput::Char(c, ev.modifiers == KeyModifiers::CONTROL),
                _ => KeyInput::Other,
            }),
            Ok(_) => Ok(KeyInput::Other),
            Err(e) => Err(format!("{}", e)),
        }
    }

    /// Relies on terminal_size::terminal_size: the terminal's column
    /// count, `None` when no terminal is attached; which answer comes
    /// depends on the machine, so only the answer itself is recorded.
    #[verifier::external_body]
    pub(crate) fn query_cols(&mut self) -> (r: Option<u16>)
        ensures
            final(self).log() == old(self).log().push(TermCall::QueryCols(r)),
    {
        terminal_size::terminal_size().map(|(w, _h)| w.0)
    }
}

} // verus!
