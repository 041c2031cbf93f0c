//! The ranking engine: every candidate is scored against the query by edit
//! distance and the whole list is reordered by ascending distance, ties kept
//! in their original order (a stable sort).

use vstd::prelude::*;

use crate::distance::distance;
use crate::distance::edit_dist;

verus! {

/// The views of a sequence of strings, as character sequences.
pub open spec fn views(s: Seq<String>) -> Seq<Seq<char>> {
    Seq::new(s.len(), |i: int| s[i]@)
}

/// The words of `ws` whose edit distance to `q` is exactly `d`, in order.
pub open spec fn dist_class(q: Seq<char>, ws: Seq<Seq<char>>, d: int) -> Seq<Seq<char>> {
    ws.filter(|w: Seq<char>| edit_dist(q, w) == d)
}

/// Every word is at most as far from `q` as each word after it.
pub open spec fn dist_sorted(q: Seq<char>, ws: Seq<Seq<char>>) -> bool {
    forall|i: int, j: int|
        0 <= i < j < ws.len() ==> edit_dist(q, #[trigger] ws[i]) <= edit_dist(q, #[trigger] ws[j])
}

/// `rs` is `cs` reordered by ascending edit distance to `q`: the same words
/// with the same multiplicities, distances nondecreasing, and every distance
/// class kept in its original relative order. Nondecreasing distances mean
/// `rs` is its distance classes laid end to end in ascending order of
/// distance, and each class equals the class of `cs`; together that leaves
/// exactly one sequence, the stable sort of `cs` by distance to `q`.
/// `lemma_ranked_unique` makes that exact.
pub open spec fn ranked(q: Seq<char>, cs: Seq<Seq<char>>, rs: Seq<Seq<char>>) -> bool {
    &&& rs.len() == cs.len()
    &&& rs.to_multiset() == cs.to_multiset()
    &&& dist_sorted(q, rs)
    &&& forall|d: int| #[trigger] dist_class(q, rs, d) == dist_class(q, cs, d)
}

/// A class of words none of which lies at distance `d` is empty.
proof fn lemma_class_empty(q: Seq<char>, ws: Seq<Seq<char>>, d: int)
    requires
        forall|k: int| 0 <= k < ws.len() ==> edit_dist(q, #[trigger] ws[k]) != d,
    ensures
        dist_class(q, ws, d) == Seq::<Seq<char>>::empty(),
    decreases ws.len(),
{
    reveal(Seq::filter);
    if ws.len() == 0 {
        assert(dist_class(q, ws, d) =~= Seq::<Seq<char>>::empty());
    } else {
        assert forall|k: int| 0 <= k < ws.drop_last().len() implies edit_dist(
            q,
            #[trigger] ws.drop_last()[k],
        ) != d by {
            assert(ws.drop_last()[k] == ws[k]);
        }
        lemma_class_empty(q, ws.drop_last(), d);
        assert(edit_dist(q, ws[ws.len() - 1]) != d);
    }
}

/// Appending a word extends exactly the class of its own distance.
proof fn lemma_class_push(q: Seq<char>, ws: Seq<Seq<char>>, x: Seq<char>, d: int)
    ensures
        dist_class(q, ws.push(x), d) == (if edit_dist(q, x) == d {
            dist_class(q, ws, d).push(x)
        } else {
            dist_class(q, ws, d)
        }),
{
    reveal(Seq::filter);
    assert(ws.push(x).drop_last() =~= ws);
    assert(ws.push(x).last() == x);
}

/// Inserting a word before a suffix of strictly different distances changes
/// the classes exactly as appending it at the end would.
proof fn lemma_class_insert(q: Seq<char>, ws: Seq<Seq<char>>, j: int, x: Seq<char>, d: int)
    requires
        0 <= j <= ws.len(),
        forall|k: int| j <= k < ws.len() ==> edit_dist(q, #[trigger] ws[k]) != edit_dist(q, x),
    ensures
        dist_class(q, ws.insert(j, x), d) == (if edit_dist(q, x) == d {
            dist_class(q, ws, d).push(x)
        } else {
            dist_class(q, ws, d)
        }),
{
    broadcast use Seq::filter_distributes_over_add;

    let pre = ws.subrange(0, j);
    let suf = ws.subrange(j, ws.len() as int);
    assert(ws =~= pre + suf);
    assert(dist_class(q, pre + suf, d) == dist_class(q, pre, d) + dist_class(q, suf, d));
    assert(dist_class(q, ws.insert(j, x), d) == dist_class(q, pre.push(x), d) + dist_class(
        q,
        suf,
        d,
    ));
    lemma_class_push(q, pre, x, d);
    if edit_dist(q, x) == d {
        assert forall|k: int| 0 <= k < suf.len() implies edit_dist(q, #[trigger] suf[k]) != d by {
            assert(suf[k] == ws[j + k]);
        }
        lemma_class_empty(q, suf, d);
        assert(dist_class(q, pre, d).push(x) + Seq::<Seq<char>>::empty() =~= dist_class(
            q,
            pre,
            d,
        ).push(x));
        assert(dist_class(q, pre, d) + Seq::<Seq<char>>::empty() =~= dist_class(q, pre, d));
        assert(dist_class(q, ws, d).push(x) =~= dist_class(q, pre, d).push(x));
    }
}

/// The class of a one-word sequence: the word itself at its own distance,
/// nothing at any other.
proof fn lemma_class_singleton(q: Seq<char>, x: Seq<char>, d: int)
    ensures
        dist_class(q, seq![x], d) == (if edit_dist(q, x) == d {
            seq![x]
        } else {
            Seq::<Seq<char>>::empty()
        }),
{
    reveal(Seq::filter);
    assert(dist_class(q, Seq::<Seq<char>>::empty(), d) =~= Seq::<Seq<char>>::empty());
    assert(seq![x].drop_last() =~= Seq::<Seq<char>>::empty());
    assert(seq![x].last() == x);
    if edit_dist(q, x) == d {
        assert(Seq::<Seq<char>>::empty().push(x) =~= seq![x]);
    }
}

/// A word at the head of a sequence heads its own distance class.
proof fn lemma_class_head(q: Seq<char>, ws: Seq<Seq<char>>, d: int)
    requires
        ws.len() > 0,
        edit_dist(q, ws[0]) == d,
    ensures
        dist_class(q, ws, d).len() > 0,
        dist_class(q, ws, d)[0] == ws[0],
    decreases ws.len(),
{
    reveal(Seq::filter);
    if ws.len() == 1 {
        assert(ws.drop_last() =~= Seq::<Seq<char>>::empty());
        assert(dist_class(q, Seq::<Seq<char>>::empty(), d) =~= Seq::<Seq<char>>::empty());
        assert(ws.last() == ws[0]);
    } else {
        assert(ws.drop_last()[0] == ws[0]);
        lemma_class_head(q, ws.drop_last(), d);
    }
}

/// Two sequences sorted by distance whose distance classes agree are equal.
proof fn lemma_sorted_classes_unique(q: Seq<char>, rs1: Seq<Seq<char>>, rs2: Seq<Seq<char>>)
    requires
        dist_sorted(q, rs1),
        dist_sorted(q, rs2),
        rs1.to_multiset() == rs2.to_multiset(),
        forall|d: int| #[trigger] dist_class(q, rs1, d) == dist_class(q, rs2, d),
    ensures
        rs1 == rs2,
    decreases rs1.len(),
{
    broadcast use vstd::seq_lib::group_to_multiset_ensures;
    broadcast use Seq::filter_distributes_over_add;

    assert(rs1.to_multiset().len() == rs1.len());
    assert(rs2.to_multiset().len() == rs2.len());
    if rs1.len() == 0 {
        assert(rs1 =~= rs2);
    } else {
        let h1 = rs1[0];
        let h2 = rs2[0];
        let d1 = edit_dist(q, h1) as int;
        let d2 = edit_dist(q, h2) as int;
        lemma_class_head(q, rs1, d1);
        lemma_class_head(q, rs2, d2);
        // the head of either sequence is at the least distance of all words,
        // so the two heads lie at the same distance
        assert(rs1.contains(h1));
        assert(rs1.to_multiset().count(h1) > 0);
        assert(rs2.contains(h1));
        let k2 = choose|k: int| 0 <= k < rs2.len() && rs2[k] == h1;
        assert(edit_dist(q, rs2[0]) <= edit_dist(q, rs2[k2]));
        assert(rs2.contains(h2));
        assert(rs2.to_multiset().count(h2) > 0);
        assert(rs1.contains(h2));
        let k1 = choose|k: int| 0 <= k < rs1.len() && rs1[k] == h2;
        assert(edit_dist(q, rs1[0]) <= edit_dist(q, rs1[k1]));
        assert(d1 == d2);
        // equal heads: both head their common class, and the classes agree
        assert(dist_class(q, rs1, d1) == dist_class(q, rs2, d1));
        assert(h1 == h2);
        // the tails again satisfy all the requirements
        let t1 = rs1.drop_first();
        let t2 = rs2.drop_first();
        assert forall|i: int, j: int|
            0 <= i < j < t1.len() implies edit_dist(q, #[trigger] t1[i]) <= edit_dist(
            q,
            #[trigger] t1[j],
        ) by {
            assert(t1[i] == rs1[i + 1]);
            assert(t1[j] == rs1[j + 1]);
        }
        assert forall|i: int, j: int|
            0 <= i < j < t2.len() implies edit_dist(q, #[trigger] t2[i]) <= edit_dist(
            q,
            #[trigger] t2[j],
        ) by {
            assert(t2[i] == rs2[i + 1]);
            assert(t2[j] == rs2[j + 1]);
        }
        assert(rs1.remove(0) =~= t1);
        assert(rs2.remove(0) =~= t2);
        assert(rs1.remove(0).to_multiset() == rs1.to_multiset().remove(h1));
        assert(rs2.remove(0).to_multiset() == rs2.to_multiset().remove(h1));
        assert forall|d: int| #[trigger] dist_class(q, t1, d) == dist_class(q, t2, d) by {
            lemma_class_singleton(q, h1, d);
            assert(rs1 =~= seq![h1] + t1);
            assert(rs2 =~= seq![h1] + t2);
            assert(dist_class(q, seq![h1] + t1, d) == dist_class(q, seq![h1], d) + dist_class(
                q,
                t1,
                d,
            ));
            assert(dist_class(q, seq![h1] + t2, d) == dist_class(q, seq![h1], d) + dist_class(
                q,
                t2,
                d,
            ));
            let a = dist_class(q, seq![h1], d);
            let x = dist_class(q, t1, d);
            let y = dist_class(q, t2, d);
            assert(a + x == a + y);
            assert((a + x).len() == (a + y).len());
            assert forall|i: int| 0 <= i < x.len() implies x[i] == y[i] by {
                assert((a + x)[a.len() + i] == x[i]);
                assert((a + y)[a.len() + i] == y[i]);
            }
            assert(x =~= y);
        }
        lemma_sorted_classes_unique(q, t1, t2);
        assert forall|i: int| 0 <= i < rs1.len() implies rs1[i] == rs2[i] by {
            if i > 0 {
                assert(rs1[i] == t1[i - 1]);
                assert(rs2[i] == t2[i - 1]);
            }
        }
        assert(rs1 =~= rs2);
    }
}

/// The ranking contract pins its result down: any two sequences ranked from
/// the same candidates against the same query are equal.
pub proof fn lemma_ranked_unique(
    q: Seq<char>,
    cs: Seq<Seq<char>>,
    rs1: Seq<Seq<char>>,
    rs2: Seq<Seq<char>>,
)
    requires
        ranked(q, cs, rs1),
        ranked(q, cs, rs2),
    ensures
        rs1 == rs2,
{
    assert forall|d: int| #[trigger] dist_class(q, rs1, d) == dist_class(q, rs2, d) by {
        assert(dist_class(q, rs1, d) == dist_class(q, cs, d));
        assert(dist_class(q, rs2, d) == dist_class(q, cs, d));
    }
    lemma_sorted_classes_unique(q, rs1, rs2);
}

/// Taking views commutes with inserting one string.
proof fn lemma_views_insert(s: Seq<String>, j: int, x: String)
    requires
        0 <= j <= s.len(),
    ensures
        views(s.insert(j, x)) == views(s).insert(j, x@),
{
    assert(views(s.insert(j, x)) =~= views(s).insert(j, x@));
}

/// Rank the candidates by ascending edit distance to the query, keeping
/// candidates at equal distance in their original order. Every candidate
/// appears in the result exactly as often as in the input.
pub fn rank(query: &str, candidates: &Vec<String>) -> (r: Vec<String>)
    ensures
        ranked(query@, views(candidates@), views(r@)),
{
    let ghost q = query@;
    let ghost cs = views(candidates@);
    let mut out: Vec<String> = Vec::new();
    let mut dists: Vec<usize> = Vec::new();
    let mut i: usize = 0;
    proof {
        assert(views(out@) =~= cs.subrange(0, 0));
    }
    while i < candidates.len()
        invariant
            i <= candidates.len(),
            q == query@,
            cs == views(candidates@),
            out@.len() == i,
            dists@.len() == i,
            forall|k: int| 0 <= k < i ==> dists@[k] == edit_dist(q, #[trigger] views(out@)[k]),
            forall|k1: int, k2: int|
                0 <= k1 < k2 < i ==> #[trigger] dists@[k1] <= #[trigger] dists@[k2],
            views(out@).to_multiset() == cs.subrange(0, i as int).to_multiset(),
            forall|d: int| #[trigger] dist_class(q, views(out@), d) == dist_class(
                q,
                cs.subrange(0, i as int),
                d,
            ),
        decreases candidates@.len() - i,
    {
        let w = &candidates[i];
        let d = distance(query, w.as_str());
        let mut j: usize = 0;
        while j < dists.len() && dists[j] <= d
            invariant
                j <= dists@.len(),
                forall|k: int| 0 <= k < j ==> #[trigger] dists@[k] <= d,
            decreases dists@.len() - j,
        {
            j += 1;
        }
        let ghost old_out = out@;
        let ghost old_dists = dists@;
        let wc = w.clone();
        out.insert(j, wc);
        dists.insert(j, d);
        proof {
            broadcast use vstd::seq_lib::group_to_multiset_ensures;

            let x = cs[i as int];
            assert(wc@ == x);
            lemma_views_insert(old_out, j as int, wc);
            let v_old = views(old_out);
            let v_new = views(out@);
            assert(v_new == v_old.insert(j as int, x));
            // the suffix from j on lies strictly farther than d
            assert forall|k: int| j <= k < v_old.len() implies edit_dist(
                q,
                #[trigger] v_old[k],
            ) != edit_dist(q, x) by {
                assert(old_dists[j as int] <= old_dists[k]);
                assert(old_dists[k] > d);
            }
            // distances and sortedness, pointwise through the insertion
            v_old.insert_ensures(j as int, x);
            old_dists.insert_ensures(j as int, d);
            assert(dists@ == old_dists.insert(j as int, d));
            assert forall|k: int| 0 <= k < i + 1 implies dists@[k] == edit_dist(
                q,
                #[trigger] v_new[k],
            ) by {
                if k < j {
                    assert(dists@[k] == old_dists[k]);
                    assert(v_new[k] == v_old[k]);
                } else if k == j {
                    assert(v_new[k] == x);
                } else {
                    assert(dists@[k] == old_dists[k - 1]);
                    assert(v_new[k] == v_old[k - 1]);
                }
            }
            assert forall|k1: int, k2: int| 0 <= k1 < k2 < i + 1 implies #[trigger] dists@[k1]
                <= #[trigger] dists@[k2] by {
                if k2 < j {
                } else if k1 > j {
                } else if k1 == j {
                    assert(old_dists[j as int] <= old_dists[k2 - 1]);
                    assert(old_dists[k2 - 1] > d);
                } else if k2 == j {
                    assert(old_dists[k1] <= d);
                } else {
                    // k1 < j < k2
                    assert(old_dists[k1] <= d);
                    assert(old_dists[j as int] <= old_dists[k2 - 1]);
                    assert(old_dists[k2 - 1] > d);
                }
            }
            // multiset of words
            assert(cs.subrange(0, (i + 1) as int) =~= cs.subrange(0, i as int).push(x));
            assert(v_old.insert(j as int, x).to_multiset() == v_old.to_multiset().insert(x));
            assert(cs.subrange(0, i as int).push(x).to_multiset() == cs.subrange(
                0,
                i as int,
            ).to_multiset().insert(x));
            // distance classes
            assert forall|d0: int| #[trigger] dist_class(q, v_new, d0) == dist_class(
                q,
                cs.subrange(0, (i + 1) as int),
                d0,
            ) by {
                lemma_class_insert(q, v_old, j as int, x, d0);
                lemma_class_push(q, cs.subrange(0, i as int), x, d0);
            }
        }
        i += 1;
    }
    proof {
        assert(cs.subrange(0, candidates@.len() as int) =~= cs);
        assert forall|k1: int, k2: int|
            0 <= k1 < k2 < views(out@).len() implies edit_dist(q, #[trigger] views(out@)[k1])
            <= edit_dist(q, #[trigger] views(out@)[k2]) by {
            assert(dists@[k1] <= dists@[k2]);
        }
    }
    out
}

} // verus!
