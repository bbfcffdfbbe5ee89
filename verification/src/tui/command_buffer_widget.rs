use vstd::prelude::*;

use crate::command::{
    command_unhandled,
    failure_message,
    parse_command,
    spec_parse_command,
    CommandView,
};
use crate::command::Command;
use crate::tui::{Event, KeyCode};

verus! {

/// Appends `c` to `s`.
///
/// Calls `String::push`, which appends the given character to the end of the string.
#[verifier::external_body]
fn push_char(s: &mut String, c: char)
    ensures
        final(s)@ == old(s)@.push(c),
{
    s.push(c);
}

/// Removes the last character of `s`, where it has one.
///
/// Calls `String::pop`, which removes the last character and returns it, or returns `None`
/// and leaves the string alone where it is empty.
#[verifier::external_body]
fn pop_char(s: &mut String) -> (res: Option<char>)
    ensures
        old(s)@.len() == 0 ==> res is None && final(s)@ == old(s)@,
        old(s)@.len() > 0 ==> res == Some(old(s)@.last()) && final(s)@ == old(s)@.drop_last(),
{
    s.pop()
}

/// The line where commands are typed: the text being typed, or the answer to the last
/// command.
#[derive(Debug)]
#[allow(inconsistent_fields)]
pub enum CommandBufferWidget {
    Success { message: Option<String> },
    Error { message: String },
    Idle { buf: String },
}

/// What a [`CommandBufferWidget`] holds.
pub enum CommandBufferView {
    Success(Option<Seq<char>>),
    Error(Seq<char>),
    Idle(Seq<char>),
}

impl View for CommandBufferWidget {
    type V = CommandBufferView;

    open spec fn view(&self) -> CommandBufferView {
        match self {
            CommandBufferWidget::Success { message } => CommandBufferView::Success(
                match message {
                    Some(m) => Some(m@),
                    None => None,
                },
            ),
            CommandBufferWidget::Error { message } => CommandBufferView::Error(message@),
            CommandBufferWidget::Idle { buf } => CommandBufferView::Idle(buf@),
        }
    }
}

/// The text that typing goes on from: what is being typed, or nothing once an answer shows.
pub open spec fn typed_text(w: CommandBufferView) -> Seq<char> {
    match w {
        CommandBufferView::Idle(b) => b,
        _ => Seq::empty(),
    }
}

/// `event` is the plain press (no modifier) of `code`.
pub open spec fn is_press(event: Event, code: KeyCode) -> bool {
    event matches Event::Key(k) && k.modifiers_none && k.press && k.code == code
}

/// `event` is a plain press (no modifier) of some key.
pub open spec fn is_plain_press(event: Event) -> bool {
    event matches Event::Key(k) && k.modifiers_none && k.press
}

/// Pressing Enter in state `w` submits a command line that the command reader has no
/// answer for.
pub open spec fn submits_unhandled(w: CommandBufferView, event: Event) -> bool {
    &&& is_press(event, KeyCode::Enter)
    &&& typed_text(w).len() > 0
    &&& command_unhandled(typed_text(w))
}

/// The text shown on the command line.
pub open spec fn shown_text(w: CommandBufferView) -> Seq<char> {
    "$ "@ + match w {
        CommandBufferView::Success(Some(m)) => m,
        CommandBufferView::Success(None) => Seq::empty(),
        CommandBufferView::Error(m) => m,
        CommandBufferView::Idle(b) => b,
    }
}

/// The command of an optional command.
pub open spec fn option_command_view(c: Option<Command>) -> Option<CommandView> {
    match c {
        Some(c) => Some(c@),
        None => None,
    }
}

/// The state of the command line after `event`, and the command it gives, if any.
pub open spec fn buffer_step(w: CommandBufferView, event: Event) -> (
    CommandBufferView,
    Option<CommandView>,
) {
    let t = typed_text(w);
    match event {
        Event::Key(k) => if !k.modifiers_none || !k.press {
            (w, None)
        } else {
            match k.code {
                KeyCode::Backspace => (
                    CommandBufferView::Idle(
                        if t.len() == 0 {
                            t
                        } else {
                            t.drop_last()
                        },
                    ),
                    None,
                ),
                KeyCode::Char(c) => (CommandBufferView::Idle(t.push(c)), None),
                KeyCode::Enter => if t.len() == 0 {
                    (CommandBufferView::Idle(t), None)
                } else {
                    match spec_parse_command(t) {
                        Ok(c) => (CommandBufferView::Idle(t), Some(c)),
                        Err(f) => (CommandBufferView::Error(failure_message(f)), None),
                    }
                },
                _ => (w, None),
            }
        },
        Event::Other => (w, None),
    }
}

/// The plain press of `code`.
pub open spec fn plain(code: KeyCode) -> Event {
    Event::Key(crate::tui::KeyEvent { code, modifiers_none: true, press: true })
}

/// Typing a character and then Backspace leaves the typed text as it was.
pub proof fn lemma_backspace_undoes_char(w: CommandBufferView, c: char)
    ensures
        buffer_step(buffer_step(w, plain(KeyCode::Char(c))).0, plain(KeyCode::Backspace)).0
            == CommandBufferView::Idle(typed_text(w)),
{
    assert(typed_text(w).push(c).drop_last() =~= typed_text(w));
}

impl Default for CommandBufferWidget {
    fn default() -> (res: Self)
        ensures
            res@ == CommandBufferView::Idle(Seq::empty()),
    {
        CommandBufferWidget::Idle { buf: String::new() }
    }
}

impl CommandBufferWidget {
    /// Goes back to typing, from an empty line where an answer shows.
    fn reset_to_idle(&mut self)
        ensures
            final(self)@ == CommandBufferView::Idle(typed_text(old(self)@)),
    {
        match self {
            CommandBufferWidget::Idle { .. } => {},
            _ => {
                *self = CommandBufferWidget::Idle { buf: String::new() };
            },
        }
    }

    /// Handles a key: a character is typed, Backspace deletes the last one, and Enter reads
    /// the line as a command. Anything else, and any key pressed with a modifier, is ignored.
    ///
    /// Enter on an empty line gives nothing. Enter on a line that reads as a command gives it
    /// and leaves the line as it is; on one that does not, the line shows the error.
    pub fn handle_event(&mut self, event: &Event) -> (res: Option<Command>)
        requires
            !submits_unhandled(old(self)@, *event),
        ensures
            (final(self)@, option_command_view(res)) == buffer_step(old(self)@, *event),
    {
        let code = match event {
            Event::Key(k) => {
                if !k.modifiers_none || !k.press {
                    return None;
                }
                k.code
            },
            Event::Other => {
                return None;
            },
        };
        match code {
            KeyCode::Backspace => {
                self.reset_to_idle();
                match self {
                    CommandBufferWidget::Idle { buf } => {
                        pop_char(buf);
                    },
                    _ => {},
                }
                None
            },
            KeyCode::Enter => self.parse_command(),
            KeyCode::Char(c) => {
                self.reset_to_idle();
                match self {
                    CommandBufferWidget::Idle { buf } => {
                        push_char(buf, c);
                    },
                    _ => {},
                }
                None
            },
            _ => None,
        }
    }

    /// Reads the typed line as a command.
    fn parse_command(&mut self) -> (res: Option<Command>)
        requires
            typed_text(old(self)@).len() > 0 ==> !command_unhandled(typed_text(old(self)@)),
        ensures
            ({
                let t = typed_text(old(self)@);
                if t.len() == 0 {
                    res is None && final(self)@ == CommandBufferView::Idle(t)
                } else {
                    match spec_parse_command(t) {
                        Ok(c) => res matches Some(r) && r@ == c && final(self)@
                            == CommandBufferView::Idle(t),
                        Err(f) => res is None && final(self)@ == CommandBufferView::Error(
                            failure_message(f),
                        ),
                    }
                }
            }),
    {
        self.reset_to_idle();
        let buf = match self {
            CommandBufferWidget::Idle { buf } => buf.clone(),
            _ => String::new(),
        };
        if buf.as_str().is_empty() {
            return None;
        }
        match parse_command(buf.as_str()) {
            Ok(command) => Some(command),
            Err(e) => {
                self.error(e.to_string());
                None
            },
        }
    }

    /// Shows that the last command succeeded, with `message`.
    pub fn success(&mut self, message: String)
        ensures
            final(self)@ == CommandBufferView::Success(Some(message@)),
    {
        *self = CommandBufferWidget::Success { message: Some(message) };
    }

    /// Shows that the last command failed, with `message`.
    pub fn error(&mut self, message: String)
        ensures
            final(self)@ == CommandBufferView::Error(message@),
    {
        *self = CommandBufferWidget::Error { message };
    }

    /// The text shown on the command line: `$ ` and the line or the answer.
    pub fn shown(&self) -> (res: String)
        ensures
            res@ == shown_text(self@),
    {
        let mut s = String::new();
        s.append("$ ");
        match self {
            CommandBufferWidget::Success { message } => match message {
                Some(m) => s.append(m.as_str()),
                None => {},
            },
            CommandBufferWidget::Error { message } => s.append(message.as_str()),
            CommandBufferWidget::Idle { buf } => s.append(buf.as_str()),
        }
        s
    }
}

} // verus!
