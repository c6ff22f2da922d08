//! Ordering by score: the best first, equals in the order in which they came.
use vstd::prelude::*;

verus! {

/// Where an item with the given score goes in a ranked list: behind everything that scores at
/// least as much.
pub open spec fn place<T>(s: Seq<(u64, T)>, score: u64) -> int
    decreases s.len(),
{
    if s.len() == 0 || s.last().0 >= score {
        s.len() as int
    } else {
        place(s.drop_last(), score)
    }
}

/// A ranked list with one more item.
pub open spec fn placed<T>(s: Seq<(u64, T)>, item: (u64, T)) -> Seq<(u64, T)> {
    s.insert(place(s, item.0), item)
}

/// The items, the best first; equals stay in their order.
pub open spec fn ranked<T>(s: Seq<(u64, T)>) -> Seq<(u64, T)>
    decreases s.len(),
{
    if s.len() == 0 {
        s
    } else {
        placed(ranked(s.drop_last()), s.last())
    }
}

/// The items without their scores.
pub open spec fn items<T>(s: Seq<(u64, T)>) -> Seq<T> {
    Seq::new(s.len(), |i: int| s[i].1)
}

/// Whether scores never increase along a list.
pub open spec fn descending<T>(s: Seq<(u64, T)>) -> bool {
    forall|i: int, j: int| 0 <= i <= j < s.len() ==> s[i].0 >= s[j].0
}

/// Whether an item has a given score.
pub open spec fn with_score<T>(score: u64) -> spec_fn((u64, T)) -> bool {
    |item: (u64, T)| item.0 == score
}

/// The items of a list that have a given score, in their order.
pub open spec fn scoring<T>(s: Seq<(u64, T)>, score: u64) -> Seq<(u64, T)> {
    s.filter(with_score(score))
}

/// A place lies within the list; in a descending list everything before it scores at least as
/// much, and everything from it on less.
proof fn lemma_place<T>(s: Seq<(u64, T)>, score: u64)
    ensures
        0 <= place(s, score) <= s.len(),
        forall|i: int| place(s, score) <= i < s.len() ==> s[i].0 < score,
        descending(s) ==> forall|i: int| 0 <= i < place(s, score) ==> s[i].0 >= score,
    decreases s.len(),
{
    if s.len() > 0 && s.last().0 < score {
        let t = s.drop_last();
        lemma_place(t, score);
        assert forall|i: int| place(s, score) <= i < s.len() implies s[i].0 < score by {
            if i < t.len() {
                assert(t[i] == s[i]);
            }
        }
        assert forall|i: int| descending(s) && 0 <= i < place(s, score) implies s[i].0 >= score by {
            assert(descending(t)) by {
                assert forall|a: int, b: int| 0 <= a <= b < t.len() implies t[a].0 >= t[b].0 by {
                    assert(t[a] == s[a] && t[b] == s[b]);
                }
            }
            assert(t[i] == s[i]);
        }
    }
}

/// The best come first.
pub proof fn law_the_best_come_first<T>(s: Seq<(u64, T)>)
    ensures
        descending(ranked(s)),
    decreases s.len(),
{
    if s.len() > 0 {
        let r = ranked(s.drop_last());
        law_the_best_come_first(s.drop_last());
        lemma_place(r, s.last().0);
    }
}

/// Ranking neither adds nor loses anything.
pub proof fn law_ranking_keeps_every_item<T>(s: Seq<(u64, T)>)
    ensures
        ranked(s).to_multiset() == s.to_multiset(),
        ranked(s).len() == s.len(),
    decreases s.len(),
{
    broadcast use vstd::seq_lib::group_to_multiset_ensures;

    if s.len() > 0 {
        let t = s.drop_last();
        let r = ranked(t);
        law_ranking_keeps_every_item(t);
        lemma_place(r, s.last().0);
        assert(s =~= t.push(s.last()));
        assert(ranked(s).to_multiset() =~= r.to_multiset().insert(s.last()));
        assert(s.to_multiset() =~= t.to_multiset().insert(s.last()));
    }
}

/// Among equal scores, what came first stays first.
pub proof fn law_equals_keep_their_order<T>(s: Seq<(u64, T)>, score: u64)
    ensures
        scoring(ranked(s), score) == scoring(s, score),
    decreases s.len(),
{
    if s.len() > 0 {
        let t = s.drop_last();
        let r = ranked(t);
        let item = s.last();
        let p = place(r, item.0);
        let same = with_score::<T>(score);
        law_equals_keep_their_order(t, score);
        law_the_best_come_first(t);
        lemma_place(r, item.0);
        let front = r.take(p);
        let back = r.skip(p);
        assert(r =~= front + back);
        assert(placed(r, item) =~= front + seq![item] + back);
        Seq::filter_distributes_over_add(front, back, same);
        Seq::filter_distributes_over_add(front + seq![item], back, same);
        Seq::filter_distributes_over_add(front, seq![item], same);
        lemma_filter_one(item, same);
        reveal(Seq::filter);
        if item.0 == score {
            assert forall|i: int| 0 <= i < back.len() implies !same(#[trigger] back[i]) by {
                assert(back[i] == r[p + i]);
            }
            lemma_filter_none(back, same);
            assert(scoring(ranked(s), score) =~= scoring(t, score).push(item));
        } else {
            assert(scoring(ranked(s), score) =~= scoring(t, score));
        }
    }
}

/// Filtering a single item keeps it or not.
proof fn lemma_filter_one<A>(a: A, keep: spec_fn(A) -> bool)
    ensures
        seq![a].filter(keep) == (if keep(a) {
            seq![a]
        } else {
            Seq::empty()
        }),
{
    reveal(Seq::filter);
    reveal_with_fuel(Seq::filter, 2);
    assert(seq![a].drop_last() =~= Seq::empty());
}

/// Filtering leaves nothing where nothing matches.
proof fn lemma_filter_none<A>(s: Seq<A>, keep: spec_fn(A) -> bool)
    requires
        forall|i: int| 0 <= i < s.len() ==> !keep(#[trigger] s[i]),
    ensures
        s.filter(keep) == Seq::<A>::empty(),
    decreases s.len(),
{
    reveal(Seq::filter);
    if s.len() > 0 {
        assert forall|i: int| 0 <= i < s.drop_last().len() implies !keep(
            #[trigger] s.drop_last()[i],
        ) by {
            assert(s.drop_last()[i] == s[i]);
        }
        lemma_filter_none(s.drop_last(), keep);
        assert(!keep(s[s.len() - 1]));
    }
}

/// The list with something made of each item; the scores stay.
pub open spec fn mapped<T, U>(s: Seq<(u64, T)>, f: spec_fn(T) -> U) -> Seq<(u64, U)> {
    Seq::new(s.len(), |i: int| (s[i].0, f(s[i].1)))
}

/// A place depends on the scores alone.
proof fn lemma_place_mapped<T, U>(s: Seq<(u64, T)>, f: spec_fn(T) -> U, score: u64)
    ensures
        place(mapped(s, f), score) == place(s, score),
    decreases s.len(),
{
    if s.len() > 0 {
        assert(mapped(s, f).drop_last() =~= mapped(s.drop_last(), f));
        lemma_place_mapped(s.drop_last(), f, score);
    }
}

/// Ranking depends on the scores alone: what is made of the items may be made before or after.
pub proof fn lemma_ranked_mapped<T, U>(s: Seq<(u64, T)>, f: spec_fn(T) -> U)
    ensures
        ranked(mapped(s, f)) == mapped(ranked(s), f),
    decreases s.len(),
{
    if s.len() > 0 {
        let t = s.drop_last();
        lemma_ranked_mapped(t, f);
        lemma_place_mapped(ranked(t), f, s.last().0);
        lemma_place(ranked(t), s.last().0);
        assert(mapped(s, f).drop_last() =~= mapped(t, f));
        assert(ranked(mapped(s, f)) =~= mapped(ranked(s), f));
    } else {
        assert(ranked(mapped(s, f)) =~= mapped(ranked(s), f));
    }
}

/// Puts an item in its place.
fn insert<T>(v: &mut Vec<(u64, T)>, score: u64, item: T)
    ensures
        final(v)@ == placed(old(v)@, (score, item)),
{
    let mut p: usize = v.len();
    let ghost all = v@;
    assert(all.take(all.len() as int) =~= all);
    while p > 0 && v[p - 1].0 < score
        invariant
            v@ == all,
            p <= all.len(),
            place(all, score) == place(all.take(p as int), score),
        decreases p,
    {
        assert(all.take(p as int).drop_last() =~= all.take(p - 1));
        p = p - 1;
    }
    v.insert(p, (score, item));
}

/// Ranks scored items.
pub fn rank_all<T>(v: Vec<(u64, T)>) -> (r: Vec<T>)
    ensures
        r@ == items(ranked(v@)),
{
    let ghost all = v@;
    let mut rest = v;
    let mut out: Vec<(u64, T)> = Vec::new();
    assert(all.take(0) =~= Seq::empty());
    assert(all.skip(0) =~= all);
    let ghost mut done: int = 0;
    while rest.len() > 0
        invariant
            0 <= done <= all.len(),
            rest@ == all.skip(done),
            out@ == ranked(all.take(done)),
        decreases rest@.len(),
    {
        let (score, item) = rest.remove(0);
        insert(&mut out, score, item);
        proof {
            assert(all.take(done + 1).drop_last() =~= all.take(done));
            assert((score, item) == all[done]);
            done = done + 1;
            assert(rest@ =~= all.skip(done));
        }
    }
    assert(all.take(all.len() as int) =~= all);
    assert(done == all.len());
    let ghost sorted = out@;
    let mut bare: Vec<T> = Vec::new();
    let ghost mut moved: int = 0;
    assert(sorted.skip(0) =~= sorted);
    assert(items(sorted).take(0) =~= Seq::empty());
    while out.len() > 0
        invariant
            0 <= moved <= sorted.len(),
            out@ == sorted.skip(moved),
            bare@ == items(sorted).take(moved),
        decreases out@.len(),
    {
        let (_, item) = out.remove(0);
        bare.push(item);
        proof {
            assert(items(sorted).take(moved + 1) =~= items(sorted).take(moved).push(item));
            moved = moved + 1;
            assert(out@ =~= sorted.skip(moved));
        }
    }
    assert(items(sorted).take(sorted.len() as int) =~= items(sorted));
    bare
}

} // verus!
