//! How a search goes about finding something: what is tried, and in which order.
use vstd::prelude::*;

use crate::query::{term_views, Term, TermView};
use crate::text::views;

verus! {

/// One way to look for rows.
#[derive(Debug)]
pub enum Lookup {
    /// What the full-text index finds, the best match first.
    Index { index: &'static str, expr: String, limit: usize },
    /// The rows nearest in meaning.
    Nearest { limit: usize },
    /// What the full-text index finds, ranked by meaning.
    Ranked { index: &'static str, expr: String, cap: usize, limit: usize },
    /// What the full-text index finds, ranked by how alike its words are.
    Similar { index: &'static str, expr: String, over: usize, words: Vec<String>, limit: usize },
    /// What holds a piece of text.
    Like { pattern: String, limit: usize },
}

/// What a lookup holds.
#[verifier::ext_equal]
pub enum LookupView {
    Index { index: Seq<char>, expr: Seq<char>, limit: usize },
    Nearest { limit: usize },
    Ranked { index: Seq<char>, expr: Seq<char>, cap: usize, limit: usize },
    Similar {
        index: Seq<char>,
        expr: Seq<char>,
        over: usize,
        words: Seq<Seq<char>>,
        limit: usize,
    },
    Like { pattern: Seq<char>, limit: usize },
}

impl View for Lookup {
    type V = LookupView;

    open spec fn view(&self) -> LookupView {
        match self {
            Lookup::Index { index, expr, limit } => LookupView::Index {
                index: index@,
                expr: expr@,
                limit: *limit,
            },
            Lookup::Nearest { limit } => LookupView::Nearest { limit: *limit },
            Lookup::Ranked { index, expr, cap, limit } => LookupView::Ranked {
                index: index@,
                expr: expr@,
                cap: *cap,
                limit: *limit,
            },
            Lookup::Similar { index, expr, over, words, limit } => LookupView::Similar {
                index: index@,
                expr: expr@,
                over: *over,
                words: views(words@),
                limit: *limit,
            },
            Lookup::Like { pattern, limit } => LookupView::Like {
                pattern: pattern@,
                limit: *limit,
            },
        }
    }
}

/// What the lookups of a list hold.
pub open spec fn lookup_views(v: Seq<Lookup>) -> Seq<LookupView> {
    Seq::new(v.len(), |i: int| v[i]@)
}

/// Adds a lookup.
pub fn plan_for(v: &mut Vec<Lookup>, l: Lookup)
    ensures
        lookup_views(final(v)@) == lookup_views(old(v)@).push(l@),
{
    let ghost before = lookup_views(v@);
    v.push(l);
    assert(lookup_views(v@) =~= before.push(l@));
}

/// A search that is going on: lookups are tried in order until one finds something.
pub struct Search {
    plan: Vec<Lookup>,
    next: usize,
}

impl Search {
    /// The lookups that have not been tried.
    pub closed spec fn left(&self) -> Seq<LookupView> {
        lookup_views(self.plan@).skip(self.next as int)
    }

    #[verifier::type_invariant]
    spec fn sound(&self) -> bool {
        self.next <= self.plan@.len()
    }

    /// Begins a search.
    pub fn new(plan: Vec<Lookup>) -> (r: Self)
        ensures
            r.left() == lookup_views(plan@),
    {
        let r = Search { plan, next: 0 };
        assert(r.left() =~= lookup_views(plan@));
        r
    }

    /// What to try now. There is nothing to try once something has been found, or everything has
    /// been tried.
    pub fn current(&self) -> (r: Option<&Lookup>)
        ensures
            match r {
                Some(l) => self.left().len() > 0 && l@ == self.left()[0],
                None => self.left().len() == 0,
            },
    {
        proof {
            use_type_invariant(self);
        }
        if self.next < self.plan.len() {
            Some(&self.plan[self.next])
        } else {
            None
        }
    }

    /// Takes note of how many rows the lookup at hand found.
    pub fn found(&mut self, hits: usize)
        requires
            old(self).left().len() > 0,
        ensures
            final(self).left() == (if hits > 0 {
                Seq::empty()
            } else {
                old(self).left().drop_first()
            }),
    {
        proof {
            use_type_invariant(&*self);
        }
        let ghost before = self.left();
        let end: usize = self.plan.len();
        assert(before.len() == end - self.next);
        if hits > 0 {
            self.next = end;
            assert(self.left() =~= Seq::empty());
        } else {
            self.next = self.next + 1;
            assert(self.left() =~= before.drop_first());
        }
    }
}

/// The exact terms of a list, or the loose ones.
pub open spec fn only(ts: Seq<TermView>, exact: bool) -> Seq<TermView>
    decreases ts.len(),
{
    if ts.len() == 0 {
        Seq::empty()
    } else if ts.last().exact == exact {
        only(ts.drop_last(), exact).push(ts.last())
    } else {
        only(ts.drop_last(), exact)
    }
}

/// The exact terms of a list, or the loose ones.
pub fn select<'a>(ts: &'a [Term], exact: bool) -> (r: Vec<&'a Term>)
    ensures
        crate::query::term_ref_views(r@) == only(term_views(ts@), exact),
{
    let mut out: Vec<&'a Term> = Vec::new();
    assert(term_views(ts@).take(0) =~= Seq::empty());
    assert(crate::query::term_ref_views(out@) =~= Seq::empty());
    for i in 0..ts.len()
        invariant
            crate::query::term_ref_views(out@) == only(term_views(ts@).take(i as int), exact),
    {
        let ghost before = crate::query::term_ref_views(out@);
        assert(term_views(ts@).take(i + 1).drop_last() =~= term_views(ts@).take(i as int));
        assert(term_views(ts@).take(i + 1).last() == ts@[i as int]@);
        if ts[i].exact == exact {
            out.push(&ts[i]);
            assert(crate::query::term_ref_views(out@) =~= before.push(ts@[i as int]@));
        }
    }
    assert(term_views(ts@).take(ts@.len() as int) =~= term_views(ts@));
    out
}

/// Whether a term is exact, or loose.
pub open spec fn of_kind(exact: bool) -> spec_fn(TermView) -> bool {
    |t: TermView| t.exact == exact
}

/// The terms that are selected are all those of their kind and no others, in their order.
pub proof fn law_selecting_keeps_all_of_a_kind(ts: &[Term], exact: bool, r: Vec<&Term>)
    requires
        call_ensures(select, (ts, exact), r),
    ensures
        crate::query::term_ref_views(r@) == term_views(ts@).filter(of_kind(exact)),
{
    lemma_only_filters(term_views(ts@), exact);
}

/// A selection is what the kind lets through.
pub proof fn lemma_only_filters(ts: Seq<TermView>, exact: bool)
    ensures
        only(ts, exact) == ts.filter(of_kind(exact)),
    decreases ts.len(),
{
    reveal(Seq::filter);
    if ts.len() > 0 {
        lemma_only_filters(ts.drop_last(), exact);
    }
}

/// What is tried is the first of what has not been tried, and where there is nothing left nothing is.
pub proof fn law_the_first_that_is_left_is_tried(s: &Search, r: Option<&Lookup>)
    requires
        call_ensures(Search::current, (s,), r),
    ensures
        r is None <==> s.left().len() == 0,
        r matches Some(l) ==> l@ == s.left()[0],
{
}

/// A search stops at the first lookup that finds anything, and goes on to the next where one finds
/// nothing, without leaving any out.
pub proof fn law_a_search_goes_on_until_something_is_found(s: &mut Search, hits: usize)
    requires
        call_ensures(Search::found, (s, hits), ()),
        old(s).left().len() > 0,
    ensures
        hits > 0 ==> final(s).left().len() == 0,
        hits == 0 ==> final(s).left().len() == old(s).left().len() - 1,
        hits == 0 ==> forall|i: int|
            0 <= i < final(s).left().len() ==> final(s).left()[i] == #[trigger] old(s).left()[i + 1],
{
}

} // verus!
