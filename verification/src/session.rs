//! The session: the query text and the selection, advanced one polled event
//! at a time until a candidate is confirmed or the run is cancelled.

use vstd::prelude::*;

use crate::input::Action;
use crate::input::InputEvent;
use crate::input::interpret;
use crate::input::interpret_spec;
use crate::ranking::rank;
use crate::ranking::ranked;
use crate::ranking::views;
use crate::selection::Selection;
use crate::selection::clamp_spec;
use crate::selection::moved_down;
use crate::selection::moved_up;

verus! {

/// Relies on String::push: appends the character at the end of the string.
#[verifier::external_body]
fn push_char(s: &mut String, c: char)
    ensures
        final(s)@ == old(s)@.push(c),
{
    s.push(c)
}

/// Relies on String::pop: removes and returns the last character, or does
/// nothing on an empty string.
#[verifier::external_body]
fn pop_char(s: &mut String) -> (r: Option<char>)
    ensures
        old(s)@.len() == 0 ==> final(s)@ == old(s)@ && r is None,
        old(s)@.len() > 0 ==> final(s)@ == old(s)@.drop_last() && r == Some(old(s)@.last()),
{
    s.pop()
}

/// The query after one action: a character appended, the last character
/// removed (nothing on an empty query), or unchanged.
pub open spec fn edited(q: Seq<char>, a: Action) -> Seq<char> {
    match a {
        Action::Append(c) => q.push(c),
        Action::DeleteLast => if q.len() == 0 {
            q
        } else {
            q.drop_last()
        },
        _ => q,
    }
}

/// The selection index after one action against a list of length `len`.
pub open spec fn navigated(i: int, a: Action, len: int) -> int {
    match a {
        Action::NavigateUp => moved_up(i),
        Action::NavigateDown => moved_down(i, len),
        _ => i,
    }
}

/// How one cycle ended: the loop goes on, the highlighted candidate was
/// confirmed as the session's result, or the run was cancelled.
#[derive(Debug)]
pub enum Outcome {
    Continue,
    Confirmed(String),
    Cancelled,
}

/// What one cycle hands back: the outcome and the freshly ranked list, in
/// the order it is to be displayed.
pub struct CycleResult {
    pub outcome: Outcome,
    pub ranked: Vec<String>,
}

/// The session state owned by the loop: the query buffer and the selection.
pub struct Session {
    pub query: String,
    pub selection: Selection,
}

impl Session {
    /// A fresh session: empty query, first position highlighted.
    pub fn new() -> (s: Session)
        ensures
            s.query@ == Seq::<char>::empty(),
            s.selection.index == 0,
    {
        Session { query: String::new(), selection: Selection::new() }
    }

    /// One cycle of the session loop: interpret the event, edit the query,
    /// re-rank the candidates, move and clamp the selection, and decide how
    /// the cycle ends. `running` is the flag a quit signal clears; when it
    /// is false, or the event quits, the cycle cancels the session. A
    /// confirm on a non-empty list ends the session with the highlighted
    /// candidate; on an empty list it does nothing. After every cycle the
    /// selection lies within `[0, max(0, len - 1)]` of the ranked list.
    pub fn on_cycle(&mut self, ev: &InputEvent, candidates: &Vec<String>, running: bool) -> (r:
        CycleResult)
        ensures
            ({
                let a = interpret_spec(*ev);
                let q2 = edited(old(self).query@, a);
                let n = r.ranked@.len() as int;
                &&& final(self).query@ == q2
                &&& ranked(q2, views(candidates@), views(r.ranked@))
                &&& final(self).selection.index as int == clamp_spec(
                    navigated(old(self).selection.index as int, a, n),
                    n,
                )
                &&& (n == 0 ==> final(self).selection.index == 0)
                &&& (n > 0 ==> final(self).selection.index < n)
                &&& r.outcome == (if !running || a is Quit {
                    Outcome::Cancelled
                } else if a is Confirm && n > 0 {
                    Outcome::Confirmed(r.ranked@[final(self).selection.index as int])
                } else {
                    Outcome::Continue
                })
            }),
    {
        let a = interpret(ev);
        match a {
            Action::Append(c) => push_char(&mut self.query, c),
            Action::DeleteLast => {
                let _ = pop_char(&mut self.query);
            },
            _ => {},
        }
        let ranked_list = rank(self.query.as_str(), candidates);
        let n = ranked_list.len();
        match a {
            Action::NavigateUp => self.selection.move_up(),
            Action::NavigateDown => self.selection.move_down(n),
            _ => {},
        }
        self.selection.clamp(n);
        let outcome = if !running {
            Outcome::Cancelled
        } else {
            match a {
                Action::Quit => Outcome::Cancelled,
                Action::Confirm => match self.selection.current(&ranked_list) {
                    Option::Some(w) => Outcome::Confirmed(w),
                    Option::None => Outcome::Continue,
                },
                _ => Outcome::Continue,
            }
        };
        CycleResult { outcome, ranked: ranked_list }
    }
}

} // verus!
