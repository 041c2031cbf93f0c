//! The input interpreter: one raw input event becomes one action on the
//! query, the selection, or the session.

use vstd::prelude::*;

verus! {

/// The key part of a key press.
#[derive(Clone, Copy, PartialEq, Eq, Structural, Debug)]
pub enum KeyCode {
    Esc,
    Enter,
    Backspace,
    Up,
    Down,
    Char(char),
    Other,
}

/// One polled input: a key press with its control-modifier state, a window
/// resize, some other event, or a poll that timed out with no event.
#[derive(Clone, Copy, PartialEq, Eq, Structural, Debug)]
pub enum InputEvent {
    Key { code: KeyCode, ctrl: bool },
    Resize,
    Other,
    Timeout,
}

/// What one event does to the session.
#[derive(Clone, Copy, PartialEq, Eq, Structural, Debug)]
pub enum Action {
    Quit,
    NavigateUp,
    NavigateDown,
    Confirm,
    Append(char),
    DeleteLast,
    NoOp,
}

/// The event-to-action table: Escape and control-c/d/z quit; the arrow keys
/// and control-p/n navigate; Enter confirms; any other character is appended
/// to the query; Backspace removes the query's last character; a resize, an
/// unknown event or a timeout does nothing.
pub open spec fn interpret_spec(e: InputEvent) -> Action {
    match e {
        InputEvent::Key { code, ctrl } => match code {
            KeyCode::Esc => Action::Quit,
            KeyCode::Enter => Action::Confirm,
            KeyCode::Backspace => Action::DeleteLast,
            KeyCode::Up => Action::NavigateUp,
            KeyCode::Down => Action::NavigateDown,
            KeyCode::Char(c) => if ctrl && (c == 'c' || c == 'd' || c == 'z') {
                Action::Quit
            } else if ctrl && c == 'p' {
                Action::NavigateUp
            } else if ctrl && c == 'n' {
                Action::NavigateDown
            } else {
                Action::Append(c)
            },
            KeyCode::Other => Action::NoOp,
        },
        InputEvent::Resize => Action::NoOp,
        InputEvent::Other => Action::NoOp,
        InputEvent::Timeout => Action::NoOp,
    }
}

/// Map one input event to its action, exactly as `interpret_spec` says.
pub fn interpret(e: &InputEvent) -> (a: Action)
    ensures
        a == interpret_spec(*e),
{
    match *e {
        InputEvent::Key { code, ctrl } => match code {
            KeyCode::Esc => Action::Quit,
            KeyCode::Enter => Action::Confirm,
            KeyCode::Backspace => Action::DeleteLast,
            KeyCode::Up => Action::NavigateUp,
            KeyCode::Down => Action::NavigateDown,
            KeyCode::Char(c) => {
                if ctrl && (c == 'c' || c == 'd' || c == 'z') {
                    Action::Quit
                } else if ctrl && c == 'p' {
                    Action::NavigateUp
                } else if ctrl && c == 'n' {
                    Action::NavigateDown
                } else {
                    Action::Append(c)
                }
            },
            KeyCode::Other => Action::NoOp,
        },
        InputEvent::Resize => Action::NoOp,
        InputEvent::Other => Action::NoOp,
        InputEvent::Timeout => Action::NoOp,
    }
}

} // verus!
