//! The distance function: classic edit distance between a query and a
//! candidate, computed by `strsim` and specified by `edit_dist`.

use vstd::prelude::*;

verus! {

/// The least of three naturals.
pub open spec fn min3(x: nat, y: nat, z: nat) -> nat {
    if x <= y && x <= z {
        x
    } else if y <= z {
        y
    } else {
        z
    }
}

/// Edit distance between two character sequences: the minimum number of
/// single-character insertions, deletions and substitutions that turn one
/// into the other, by the classic recurrence.
pub open spec fn edit_dist(a: Seq<char>, b: Seq<char>) -> nat
    decreases a.len() + b.len(),
{
    if a.len() == 0 {
        b.len()
    } else if b.len() == 0 {
        a.len()
    } else if a.last() == b.last() {
        edit_dist(a.drop_last(), b.drop_last())
    } else {
        1 + min3(
            edit_dist(a.drop_last(), b),
            edit_dist(a, b.drop_last()),
            edit_dist(a.drop_last(), b.drop_last()),
        )
    }
}

/// A string is at distance zero from itself.
pub proof fn lemma_edit_dist_self(s: Seq<char>)
    ensures
        edit_dist(s, s) == 0,
    decreases s.len(),
{
    if s.len() > 0 {
        lemma_edit_dist_self(s.drop_last());
    }
}

/// The distance to or from the empty string is the other string's length.
pub proof fn lemma_edit_dist_empty(s: Seq<char>)
    ensures
        edit_dist(Seq::<char>::empty(), s) == s.len(),
        edit_dist(s, Seq::<char>::empty()) == s.len(),
{
}

/// Relies on strsim::levenshtein: the character-level Levenshtein edit
/// distance between the two strings, i.e. the classic recurrence above.
#[verifier::external_body]
fn levenshtein(a: &str, b: &str) -> (r: usize)
    ensures
        r == edit_dist(a@, b@),
{
    strsim::levenshtein(a, b)
}

/// Edit distance between a query and a candidate. Zero exactly on equal
/// strings; against an empty string it is the other string's length.
pub fn distance(query: &str, candidate: &str) -> (r: usize)
    ensures
        r == edit_dist(query@, candidate@),
        query@ == candidate@ ==> r == 0,
        query@.len() == 0 ==> r == candidate@.len(),
        candidate@.len() == 0 ==> r == query@.len(),
{
    proof {
        if query@ == candidate@ {
            lemma_edit_dist_self(query@);
        }
    }
    levenshtein(query, candidate)
}

} // verus!
