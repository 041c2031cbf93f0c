//! Selection state: the highlighted position in the ranked list, kept in
//! range as the list changes.

use vstd::prelude::*;

verus! {

/// Moving up: one step toward the front, floored at the first position.
pub open spec fn moved_up(i: int) -> int {
    if i > 0 {
        i - 1
    } else {
        0
    }
}

/// Moving down: one step toward the back, stopped at the last position of a
/// list of length `len`; no move at all on an empty list.
pub open spec fn moved_down(i: int, len: int) -> int {
    if i + 1 < len {
        i + 1
    } else {
        i
    }
}

/// Clamping an index into `[0, max(0, len - 1)]`.
pub open spec fn clamp_spec(i: int, len: int) -> int {
    if len == 0 {
        0
    } else if i < len {
        i
    } else {
        len - 1
    }
}

/// Clamping twice with the same length is the same as clamping once.
pub proof fn lemma_clamp_idempotent(i: int, len: int)
    ensures
        clamp_spec(clamp_spec(i, len), len) == clamp_spec(i, len),
{
}

/// A clamped nonnegative index lies within `[0, max(0, len - 1)]`.
pub proof fn lemma_clamp_in_range(i: int, len: int)
    requires
        i >= 0,
        len >= 0,
    ensures
        0 <= clamp_spec(i, len),
        len == 0 ==> clamp_spec(i, len) == 0,
        len > 0 ==> clamp_spec(i, len) < len,
{
}

/// The highlighted position in the ranked list.
pub struct Selection {
    pub index: usize,
}

impl Selection {
    /// A fresh selection highlights the first position.
    pub fn new() -> (s: Selection)
        ensures
            s.index == 0,
    {
        Selection { index: 0 }
    }

    /// Move the highlight one position up, stopping at the first.
    pub fn move_up(&mut self)
        ensures
            final(self).index as int == moved_up(old(self).index as int),
    {
        if self.index > 0 {
            self.index = self.index - 1;
        }
    }

    /// Move the highlight one position down, stopping at the last position
    /// of a list of `list_len` entries.
    pub fn move_down(&mut self, list_len: usize)
        ensures
            final(self).index as int == moved_down(old(self).index as int, list_len as int),
    {
        if list_len > 0 && self.index < list_len - 1 {
            self.index = self.index + 1;
        }
    }

    /// Clamp the highlight into the valid range for a list of `list_len`
    /// entries.
    pub fn clamp(&mut self, list_len: usize)
        ensures
            final(self).index as int == clamp_spec(old(self).index as int, list_len as int),
    {
        if list_len == 0 {
            self.index = 0;
        } else if self.index > list_len - 1 {
            self.index = list_len - 1;
        }
    }

    /// The highlighted entry of the list, or nothing if the list is empty.
    pub fn current(&self, list: &Vec<String>) -> (r: Option<String>)
        requires
            list@.len() == 0 || self.index < list@.len(),
        ensures
            match r {
                Option::None => list@.len() == 0,
                Option::Some(w) => list@.len() > 0 && w == list@[self.index as int],
            },
    {
        if list.len() == 0 {
            Option::None
        } else {
            Option::Some(list[self.index].clone())
        }
    }
}

} // verus!
