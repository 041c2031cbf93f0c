//! The candidate source's verified half: which of the raw lines of a word
//! list become candidates.

use vstd::prelude::*;

use crate::ranking::views;

verus! {

/// The candidates kept from raw lines: every non-empty line, in order.
pub open spec fn kept(lines: Seq<Seq<char>>) -> Seq<Seq<char>> {
    lines.filter(|w: Seq<char>| w.len() > 0)
}

/// Appending a line keeps it exactly when it is non-empty.
proof fn lemma_kept_push(lines: Seq<Seq<char>>, x: Seq<char>)
    ensures
        kept(lines.push(x)) == (if x.len() > 0 {
            kept(lines).push(x)
        } else {
            kept(lines)
        }),
{
    reveal(Seq::filter);
    assert(lines.push(x).drop_last() =~= lines);
    assert(lines.push(x).last() == x);
}

/// Keep every non-empty line, in order, as the candidate set.
pub fn keep_nonempty(lines: &Vec<String>) -> (r: Vec<String>)
    ensures
        views(r@) == kept(views(lines@)),
{
    let ghost ls = views(lines@);
    let mut out: Vec<String> = Vec::new();
    let mut i: usize = 0;
    proof {
        reveal(Seq::filter);
        assert(views(out@) =~= kept(ls.subrange(0, 0)));
    }
    while i < lines.len()
        invariant
            i <= lines.len(),
            ls == views(lines@),
            views(out@) == kept(ls.subrange(0, i as int)),
        decreases lines@.len() - i,
    {
        let w = &lines[i];
        let ghost old_out = out@;
        if !w.as_str().is_empty() {
            out.push(w.clone());
        }
        proof {
            let x = ls[i as int];
            assert(ls.subrange(0, (i + 1) as int) =~= ls.subrange(0, i as int).push(x));
            lemma_kept_push(ls.subrange(0, i as int), x);
            if x.len() > 0 {
                assert(views(old_out.push(lines@[i as int])) =~= views(old_out).push(x));
            }
        }
        i += 1;
    }
    proof {
        assert(ls.subrange(0, lines@.len() as int) =~= ls);
    }
    out
}

} // verus!
