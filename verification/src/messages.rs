//! Message archive.
//!
//! One search, two mechanisms, split by the query itself. A quoted term is a requirement and goes
//! to the full-text index; everything unquoted describes the subject and is matched by meaning. So
//! `world cup "2025"` means messages that definitely contain 2025, ranked by how much they are
//! about the world cup, whatever words they used for it.
//!
//! The trigram index and the likeness of words remain the fallback for when a vector is not
//! available: while most rows have none yet, returning nothing would be worse than returning
//! approximate matches.
use vstd::prelude::*;
use vstd::string::StringExecFns;

use crate::db::{bare, ParamView, Statement, StatementView};
use crate::embed::{at_most, CANDIDATE_CAP};
use crate::outside::{likeness, likeness_of};
use crate::query::{
    parse, quote, quoted, required, required_expr, term_ref_views, terms, Term, TermView,
};
use crate::rank::{items, rank_all, ranked};
use crate::search::{plan_for, lookup_views, only, select, Lookup, LookupView, Search};
use crate::text::{
    begins, chars_of, contains, ends, holds, join, joined, lemma_added, lemma_grouped,
    lemma_grow, lemma_parts, lowercase, occurs_at, owned, slice_of, split_words, string_of,
    to_lowercase, views, words, Class,
};

verus! {

/// The likeness from which on two words count as the same: the bits of 0.82.
pub const ALIKE: u64 = 0x3FEA3D70A3D70A3D;

/// A message as it was archived.
#[derive(Debug, Clone, PartialEq, Eq)]
pub struct Archived {
    pub sender: String,
    pub body: String,
    pub at: String,
}

/// The full-text index of the messages.
pub const INDEX: &'static str = "messages_fts";

/// The index of the messages by groups of three characters.
pub const TRIGRAMS: &'static str = "messages_trigram";

/// Archives a message, unless it is there already.
pub const RECORD: &'static str = "INSERT OR IGNORE INTO messages (event_id, room_id, sender, body, at)\n         VALUES (?1, ?2, ?3, ?4, ?5)";

/// Reads the newest messages of a room, the oldest of them first.
pub const RECENT: &'static str = "SELECT sender, body, at FROM (\n           SELECT sender, body, at FROM messages WHERE room_id = ?1 ORDER BY at DESC LIMIT ?2\n         ) ORDER BY at ASC";

/// Counts the messages.
pub const COUNT: &'static str = "SELECT count(*) FROM messages";

/// Reads the message of a row.
pub const SELECT_BY_ROWID: &'static str = "SELECT sender, body, at FROM messages WHERE rowid = ?1";

/// What archives a message.
pub open spec fn recorded(
    event_id: Seq<char>,
    room_id: Seq<char>,
    sender: Seq<char>,
    body: Seq<char>,
    at: Seq<char>,
) -> StatementView {
    bare(RECORD@).text(event_id).text(room_id).text(sender).text(body).text(at)
}

/// The statement that archives a message. It is keyed by the event, so a replayed sync does not
/// duplicate a message.
pub fn record(event_id: &str, room_id: &str, sender: &str, body: &str, at: &str) -> (r: Statement)
    ensures
        r@ == recorded(event_id@, room_id@, sender@, body@, at@),
{
    Statement::new(RECORD).text(event_id).text(room_id).text(sender).text(body).text(at)
}

/// The statement that reads the newest messages of a room, oldest first. It refills the ambient
/// context after a restart, which would otherwise leave the bot with no idea what was just being
/// discussed.
pub fn recent(room_id: &str, limit: usize) -> (r: Statement)
    ensures
        r@ == bare(RECENT@).text(room_id@).number(limit as i64),
{
    Statement::new(RECENT).text(room_id).number(limit as i64)
}

/// The statement that counts the messages.
pub fn count() -> (r: Statement)
    ensures
        r@ == bare(COUNT@),
{
    Statement::new(COUNT)
}

/// The statement that reads the message of a row.
pub fn by_rowid(rowid: i64) -> (r: Statement)
    ensures
        r@ == bare(SELECT_BY_ROWID@).number(rowid),
{
    Statement::new(SELECT_BY_ROWID).number(rowid)
}

/// The text of the statement that reads what an index finds.
pub open spec fn index_sql(index: Seq<char>) -> Seq<char> {
    "SELECT m.rowid, m.sender, m.body, m.at\n         FROM "@ + index
        + " f JOIN messages m ON m.rowid = f.rowid\n         WHERE "@ + index
        + " MATCH ?1 ORDER BY bm25("@ + index + ") LIMIT ?2"@
}

/// The statement that reads what an index finds, the best match first.
pub fn from_index(index: &str, expr: &str, limit: usize) -> (r: Statement)
    ensures
        r@ == bare(index_sql(index@)).text(expr@).number(limit as i64),
{
    let mut sql = owned("SELECT m.rowid, m.sender, m.body, m.at\n         FROM ");
    sql.append(index);
    sql.append(" f JOIN messages m ON m.rowid = f.rowid\n         WHERE ");
    sql.append(index);
    sql.append(" MATCH ?1 ORDER BY bm25(");
    sql.append(index);
    sql.append(") LIMIT ?2");
    Statement::new(sql.as_str()).text(expr).number(limit as i64)
}

// ---------------------------------------------------------------------------------------------
// Approximate matching
// ---------------------------------------------------------------------------------------------

/// A list with an item added, unless it is there.
pub open spec fn with_new(s: Seq<Seq<char>>, item: Seq<char>) -> Seq<Seq<char>> {
    if s.contains(item) {
        s
    } else {
        s.push(item)
    }
}

/// A list with the first `count` groups of three characters of a text added, each once.
pub open spec fn with_grams(s: Seq<Seq<char>>, text: Seq<char>, count: int) -> Seq<Seq<char>>
    decreases count,
{
    if count <= 0 {
        s
    } else {
        with_new(with_grams(s, text, count - 1), text.subrange(count - 1, count + 2))
    }
}

/// The groups of three characters that stand in the terms, each once.
pub open spec fn grams(ts: Seq<TermView>) -> Seq<Seq<char>>
    decreases ts.len(),
{
    if ts.len() == 0 {
        Seq::empty()
    } else {
        with_grams(grams(ts.drop_last()), ts.last().text, ts.last().text.len() - 2)
    }
}

/// Adds an item, unless it is there.
fn add_new(v: &mut Vec<String>, item: String)
    ensures
        views(final(v)@) == with_new(views(old(v)@), item@),
{
    let ghost before = views(v@);
    if !holds(v.as_slice(), item.as_str()) {
        v.push(item);
        assert(views(v@) =~= before.push(item@));
    }
}

/// The groups of three characters that stand in the terms, each once.
pub fn trigrams(loose: &[&Term]) -> (r: Vec<String>)
    ensures
        views(r@) == grams(term_ref_views(loose@)),
{
    let ghost all = term_ref_views(loose@);
    let mut out: Vec<String> = Vec::new();
    assert(all.take(0) =~= Seq::empty());
    assert(views(out@) =~= Seq::empty());
    for i in 0..loose.len()
        invariant
            all == term_ref_views(loose@),
            views(out@) == grams(all.take(i as int)),
    {
        let ghost before = views(out@);
        let chars = chars_of(loose[i].text.as_str());
        let total: usize = chars.len();
        let mut k: usize = 0;
        while total >= 3 && k <= total - 3
            invariant
                total == chars@.len(),
                k <= total,
                total >= 3 ==> k <= total - 2,
                total < 3 ==> k == 0,
                views(out@) == with_grams(before, chars@, k as int),
            decreases total - k,
        {
            let gram = string_of(slice_of(&chars, k, k + 3).as_slice());
            add_new(&mut out, gram);
            k = k + 1;
        }
        assert(k == total - 2 || (total < 3 && k == 0));
        assert(views(out@) == with_grams(before, chars@, total - 2));
        assert(all.take(i + 1).drop_last() =~= all.take(i as int));
        assert(all.take(i + 1).last() == loose@[i as int]@);
    }
    assert(all.take(loose@.len() as int) =~= all);
    out
}

/// The full-text expression that asks for any of the groups.
pub open spec fn any_gram(gs: Seq<Seq<char>>) -> Seq<char> {
    joined(Seq::new(gs.len(), |i: int| quoted(gs[i])), " OR "@)
}

/// Writes the full-text expression that asks for any of the groups.
fn gram_expr(gs: &[String]) -> (r: String)
    ensures
        r@ == any_gram(views(gs@)),
{
    let ghost wanted = Seq::new(views(gs@).len(), |i: int| quoted(views(gs@)[i]));
    let mut parts: Vec<String> = Vec::new();
    for i in 0..gs.len()
        invariant
            wanted == Seq::new(views(gs@).len(), |i: int| quoted(views(gs@)[i])),
            views(parts@) == wanted.take(i as int),
    {
        let ghost before = views(parts@);
        let part = quote(gs[i].as_str());
        parts.push(part);
        assert(views(parts@) =~= before.push(part@));
        assert(wanted.take(i + 1) =~= before.push(part@));
    }
    assert(wanted.take(gs@.len() as int) =~= wanted);
    join(parts.as_slice(), " OR ")
}

/// The texts of terms.
pub open spec fn texts(ts: Seq<TermView>) -> Seq<Seq<char>> {
    Seq::new(ts.len(), |i: int| ts[i].text)
}

/// The texts of terms.
fn texts_of(ts: &[&Term]) -> (r: Vec<String>)
    ensures
        views(r@) == texts(term_ref_views(ts@)),
{
    let ghost wanted = texts(term_ref_views(ts@));
    let mut out: Vec<String> = Vec::new();
    for i in 0..ts.len()
        invariant
            wanted == texts(term_ref_views(ts@)),
            views(out@) == wanted.take(i as int),
    {
        let ghost before = views(out@);
        let text = ts[i].text.clone();
        out.push(text);
        assert(views(out@) =~= before.push(text@));
        assert(wanted.take(i + 1) =~= before.push(text@));
    }
    assert(wanted.take(ts@.len() as int) =~= wanted);
    out
}

/// The larger of two numbers.
pub open spec fn larger(a: u64, b: u64) -> u64 {
    if a >= b {
        a
    } else {
        b
    }
}

/// How alike a word is to the most like of the terms.
pub open spec fn best_of(ts: Seq<Seq<char>>, word: Seq<char>) -> u64
    decreases ts.len(),
{
    if ts.len() == 0 {
        0
    } else {
        larger(best_of(ts.drop_last(), word), likeness(ts.last(), word))
    }
}

/// How alike the most like of the words is to any of the terms.
pub open spec fn best(ts: Seq<Seq<char>>, ws: Seq<Seq<char>>) -> u64
    decreases ws.len(),
{
    if ws.len() == 0 {
        0
    } else {
        larger(best(ts, ws.drop_last()), best_of(ts, lowercase(ws.last())))
    }
}

/// Best similarity between any loose term and any word in the body.
pub fn best_similarity(terms: &[String], body: &str) -> (r: u64)
    ensures
        r == best(views(terms@), words(body@, Class::NotWord)),
{
    let ws = split_words(body, &Class::NotWord);
    let ghost all = views(ws@);
    let ghost ts = views(terms@);
    let mut top: u64 = 0;
    assert(all.take(0) =~= Seq::empty());
    for i in 0..ws.len()
        invariant
            all == views(ws@),
            ts == views(terms@),
            top == best(ts, all.take(i as int)),
    {
        let word = to_lowercase(ws[i].as_str());
        let mut here: u64 = 0;
        assert(ts.take(0) =~= Seq::empty());
        for k in 0..terms.len()
            invariant
                ts == views(terms@),
                here == best_of(ts.take(k as int), word@),
        {
            let score: u64 = likeness_of(terms[k].as_str(), word.as_str());
            assert(ts.take(k + 1).drop_last() =~= ts.take(k as int));
            assert(ts.take(k + 1).last() == terms@[k as int]@);
            if score > here {
                here = score;
            }
        }
        assert(ts.take(terms@.len() as int) =~= ts);
        assert(all.take(i + 1).drop_last() =~= all.take(i as int));
        assert(all.take(i + 1).last() == ws@[i as int]@);
        if here > top {
            top = here;
        }
    }
    assert(all.take(ws@.len() as int) =~= all);
    top
}

/// The rows that are alike enough, with how alike they are.
pub open spec fn alike(ts: Seq<Seq<char>>, rows: Seq<Archived>) -> Seq<(u64, Archived)>
    decreases rows.len(),
{
    if rows.len() == 0 {
        Seq::empty()
    } else {
        let score = best(ts, words(rows.last().body@, Class::NotWord));
        if score >= ALIKE {
            alike(ts, rows.drop_last()).push((score, rows.last()))
        } else {
            alike(ts, rows.drop_last())
        }
    }
}

/// The rows that are alike enough, the most like first, as many as are wanted.
pub open spec fn most_alike(ts: Seq<Seq<char>>, rows: Seq<Archived>, limit: nat) -> Seq<Archived> {
    at_most(items(ranked(alike(ts, rows))), limit)
}

/// Ranks candidates by how alike their words are to the loose terms; those that are not alike
/// enough are left out.
pub fn rank_alike(terms: &[String], rows: Vec<Archived>, limit: usize) -> (r: Vec<Archived>)
    ensures
        r@ == most_alike(views(terms@), rows@, limit as nat),
{
    let ghost all = rows@;
    let ghost ts = views(terms@);
    let mut rest = rows;
    let mut scored: Vec<(u64, Archived)> = Vec::new();
    let ghost mut done: int = 0;
    assert(all.take(0) =~= Seq::empty());
    assert(all.skip(0) =~= all);
    while rest.len() > 0
        invariant
            ts == views(terms@),
            0 <= done <= all.len(),
            rest@ == all.skip(done),
            scored@ == alike(ts, all.take(done)),
        decreases rest@.len(),
    {
        let row = rest.remove(0);
        let score: u64 = best_similarity(terms, row.body.as_str());
        proof {
            assert(all.take(done + 1).drop_last() =~= all.take(done));
            assert(all.take(done + 1).last() == row);
        }
        if score >= ALIKE {
            scored.push((score, row));
        }
        proof {
            done = done + 1;
            assert(rest@ =~= all.skip(done));
        }
    }
    assert(all.take(all.len() as int) =~= all);
    let mut out = rank_all(scored);
    if out.len() > limit {
        out.truncate(limit);
        assert(out@ =~= most_alike(ts, all, limit as nat));
    }
    out
}

// ---------------------------------------------------------------------------------------------
// Search
// ---------------------------------------------------------------------------------------------

/// How many candidates are pulled in order to find so many that are alike.
pub open spec fn pulled(limit: usize) -> usize {
    if limit * 8 > usize::MAX {
        usize::MAX
    } else if limit * 8 < 40 {
        40
    } else {
        (limit * 8) as usize
    }
}

/// How many candidates are pulled in order to find so many that are alike.
fn pull(limit: usize) -> (r: usize)
    ensures
        r == pulled(limit),
{
    if limit > usize::MAX / 8 {
        usize::MAX
    } else if limit * 8 < 40 {
        40
    } else {
        limit * 8
    }
}

/// The lookups of the fallback: candidates from an index, ranked by likeness. Required terms are
/// kept to even where nothing is alike.
pub open spec fn approximate_plan(
    exact: Seq<TermView>,
    loose: Seq<TermView>,
    limit: usize,
) -> Seq<LookupView> {
    if exact.len() == 0 {
        if grams(loose).len() == 0 {
            Seq::empty()
        } else {
            Seq::empty().push(
                LookupView::Similar {
                    index: TRIGRAMS@,
                    expr: any_gram(grams(loose)),
                    over: pulled(limit),
                    words: texts(loose),
                    limit,
                },
            )
        }
    } else {
        Seq::empty().push(
            LookupView::Similar {
                index: INDEX@,
                expr: required(exact),
                over: pulled(limit),
                words: texts(loose),
                limit,
            },
        ).push(LookupView::Index { index: INDEX@, expr: required(exact), limit })
    }
}

/// The lookups of a search, in order.
///
/// Quoted terms must appear exactly and select the candidates; the unquoted remainder ranks them by
/// meaning. Where every term is quoted, the requirements are the whole query. Without a vector, or
/// where no row has one yet, rows are matched by how alike their words are.
pub open spec fn search_plan(query: Seq<char>, vector: bool, limit: usize) -> Seq<LookupView> {
    let ts = terms(query);
    let exact = only(ts, true);
    let loose = only(ts, false);
    if ts.len() == 0 {
        Seq::empty()
    } else if loose.len() == 0 {
        Seq::empty().push(LookupView::Index { index: INDEX@, expr: required(exact), limit })
    } else if !vector {
        approximate_plan(exact, loose, limit)
    } else if exact.len() == 0 {
        Seq::empty().push(LookupView::Nearest { limit }) + approximate_plan(exact, loose, limit)
    } else {
        Seq::empty().push(
            LookupView::Ranked {
                index: INDEX@,
                expr: required(exact),
                cap: CANDIDATE_CAP,
                limit,
            },
        ) + approximate_plan(exact, loose, limit)
    }
}

/// The fallback when no vector is available: candidates ranked by likeness.
fn approximate(plan: &mut Vec<Lookup>, exact: &[&Term], loose: &[&Term], limit: usize)
    ensures
        lookup_views(final(plan)@) == lookup_views(old(plan)@) + approximate_plan(
            term_ref_views(exact@),
            term_ref_views(loose@),
            limit,
        ),
{
    let ghost before = lookup_views(plan@);
    assert(term_ref_views(exact@).len() == exact@.len());
    let over: usize = pull(limit);
    let likened = texts_of(loose);
    if exact.len() == 0 {
        // Rows sharing any group with the loose terms: cheap and generous, since the likeness does
        // the real filtering.
        let gs = trigrams(loose);
        assert(views(gs@).len() == gs@.len());
        if gs.len() > 0 {
            let expr = gram_expr(gs.as_slice());
            plan_for(plan, Lookup::Similar { index: TRIGRAMS, expr, over, words: likened, limit });
        }
    } else {
        let expr = required_expr(exact);
        plan_for(plan, Lookup::Similar { index: INDEX, expr, over, words: likened, limit });
        // A required term with no approximate neighbour still beats returning nothing.
        let again = required_expr(exact);
        plan_for(plan, Lookup::Index { index: INDEX, expr: again, limit });
    }
    assert(lookup_views(plan@) =~= before + approximate_plan(
        term_ref_views(exact@),
        term_ref_views(loose@),
        limit,
    ));
}

/// Begins a search with the shared query syntax.
///
/// The caller says whether it has a vector of the unquoted text, because embedding is a network
/// call.
pub fn search(query: &str, vector: bool, limit: usize) -> (r: Search)
    ensures
        r.left() == search_plan(query@, vector, limit),
{
    let ts = parse(query);
    assert(crate::query::term_views(ts@).len() == ts@.len());
    let mut plan: Vec<Lookup> = Vec::new();
    assert(lookup_views(plan@) =~= Seq::empty());
    if ts.len() == 0 {
        return Search::new(plan);
    }
    let exact = select(ts.as_slice(), true);
    let loose = select(ts.as_slice(), false);
    assert(term_ref_views(exact@).len() == exact@.len());
    assert(term_ref_views(loose@).len() == loose@.len());
    // Every term was quoted, so the requirements are the whole query and the order of the index
    // stands.
    if loose.len() == 0 {
        let expr = required_expr(exact.as_slice());
        plan_for(&mut plan, Lookup::Index { index: INDEX, expr, limit });
        return Search::new(plan);
    }
    if vector {
        if exact.len() == 0 {
            plan_for(&mut plan, Lookup::Nearest { limit });
        } else {
            let expr = required_expr(exact.as_slice());
            plan_for(&mut plan, Lookup::Ranked { index: INDEX, expr, cap: CANDIDATE_CAP, limit });
        }
    }
    approximate(&mut plan, exact.as_slice(), loose.as_slice(), limit);
    assert(lookup_views(plan@) =~= search_plan(query@, vector, limit));
    Search::new(plan)
}

// ---------------------------------------------------------------------------------------------
// Laws
// ---------------------------------------------------------------------------------------------

/// Whether a lookup keeps to the given requirements.
pub open spec fn keeps_to(l: LookupView, expr: Seq<char>) -> bool {
    match l {
        LookupView::Index { index, expr: e, limit } => index == INDEX@ && e == expr,
        LookupView::Ranked { index, expr: e, cap, limit } => index == INDEX@ && e == expr,
        LookupView::Similar { index, expr: e, over, words, limit } => index == INDEX@ && e == expr,
        _ => false,
    }
}

/// Quoted terms are required: every lookup of a search that has any keeps to all of them, so a
/// message without one is not found, however well it matches in meaning.
pub proof fn law_quoted_terms_are_required(query: Seq<char>, vector: bool, limit: usize, i: int)
    requires
        only(terms(query), true).len() > 0,
        0 <= i < search_plan(query, vector, limit).len(),
    ensures
        keeps_to(search_plan(query, vector, limit)[i], required(only(terms(query), true))),
{
}

/// A search of nothing but quoted terms is exact, whether a vector is at hand or not.
pub proof fn law_an_all_quoted_search_is_exact(query: Seq<char>, vector: bool, limit: usize)
    requires
        only(terms(query), false).len() == 0,
        terms(query).len() > 0,
    ensures
        search_plan(query, vector, limit) == seq![
            LookupView::Index { index: INDEX@, expr: required(only(terms(query), true)), limit },
        ],
{
}

/// A query that has no terms finds nothing.
pub proof fn law_a_query_without_terms_finds_nothing(query: Seq<char>, vector: bool, limit: usize)
    requires
        terms(query).len() == 0,
    ensures
        search_plan(query, vector, limit).len() == 0,
{
}

/// A search with a vector tries everything that a search without one tries: where nothing is
/// embedded yet, it falls back to matching text.
pub proof fn law_search_falls_back_to_matching_text(query: Seq<char>, limit: usize)
    requires
        only(terms(query), false).len() > 0,
    ensures
        search_plan(query, true, limit).skip(1) == search_plan(query, false, limit),
{
    let first = search_plan(query, true, limit)[0];
    lemma_only_shorter(terms(query), false);
    assert(search_plan(query, true, limit) =~= seq![first] + search_plan(query, false, limit));
}

/// A selection has no more terms than the list.
proof fn lemma_only_shorter(ts: Seq<TermView>, exact: bool)
    ensures
        only(ts, exact).len() <= ts.len(),
    decreases ts.len(),
{
    if ts.len() > 0 {
        lemma_only_shorter(ts.drop_last(), exact);
    }
}

/// Every group of three characters of every loose term is looked for, nothing else is, and nothing is
/// looked for twice.
pub proof fn law_every_group_of_every_term_is_looked_for(
    loose: &[&Term],
    r: Vec<String>,
    t: int,
    i: int,
    g: int,
)
    requires
        call_ensures(trigrams, (loose,), r),
    ensures
        0 <= t < loose@.len() && 0 <= i && i + 3 <= loose@[t].text@.len() ==> views(r@).contains(
            loose@[t].text@.subrange(i, i + 3),
        ),
        0 <= g < r@.len() ==> exists|t: int, i: int|
            0 <= t < loose@.len() && 0 <= i && i + 3 <= loose@[t].text@.len() && r@[g]@
                == #[trigger] loose@[t].text@.subrange(i, i + 3),
        views(r@).no_duplicates(),
{
    let ts = term_ref_views(loose@);
    lemma_grams(ts);
    if 0 <= t < loose@.len() && 0 <= i && i + 3 <= loose@[t].text@.len() {
        assert(ts[t].text == loose@[t].text@);
        assert(grams(ts).contains(ts[t].text.subrange(i, i + 3)));
    }
    if 0 <= g < r@.len() {
        assert(views(r@)[g] == r@[g]@);
        assert(stands_in(ts, grams(ts)[g]));
        let (t, i) = choose|t: int, i: int|
            0 <= t < ts.len() && 0 <= i && i + 3 <= ts[t].text.len() && r@[g]@
                == #[trigger] ts[t].text.subrange(i, i + 3);
        assert(r@[g]@ == loose@[t].text@.subrange(i, i + 3));
    }
}

/// What is known of a list of groups: each of a text stands in it, and all that is new comes from there.
proof fn lemma_with_grams(s: Seq<Seq<char>>, text: Seq<char>, count: int)
    requires
        count <= text.len() - 2,
        s.no_duplicates(),
    ensures
        with_grams(s, text, count).no_duplicates(),
        forall|i: int|
            0 <= i < count ==> with_grams(s, text, count).contains(#[trigger] text.subrange(i, i + 3)),
        forall|x: Seq<char>| s.contains(x) ==> with_grams(s, text, count).contains(x),
        forall|x: Seq<char>|
            with_grams(s, text, count).contains(x) ==> s.contains(x) || exists|i: int|
                0 <= i < count && x == #[trigger] text.subrange(i, i + 3),
    decreases count,
{
    if count > 0 {
        let before = with_grams(s, text, count - 1);
        let item = text.subrange(count - 1, count + 2);
        let after = with_grams(s, text, count);
        lemma_with_grams(s, text, count - 1);
        if !before.contains(item) {
            assert(after[before.len() as int] == item);
            assert forall|x: Seq<char>| before.contains(x) implies after.contains(x) by {
                let k = choose|k: int| 0 <= k < before.len() && before[k] == x;
                assert(after[k] == x);
            }
            assert forall|x: Seq<char>| after.contains(x) implies before.contains(x) || x
                == item by {
                let k = choose|k: int| 0 <= k < after.len() && after[k] == x;
                if k < before.len() {
                    assert(before[k] == x);
                }
            }
        }
        assert forall|i: int| 0 <= i < count implies after.contains(
            #[trigger] text.subrange(i, i + 3),
        ) by {
            if i < count - 1 {
                assert(before.contains(text.subrange(i, i + 3)));
            }
        }
        assert forall|x: Seq<char>| after.contains(x) implies s.contains(x) || exists|i: int|
            0 <= i < count && x == #[trigger] text.subrange(i, i + 3) by {
            if before.contains(x) {
                if !s.contains(x) {
                    let i = choose|i: int|
                        0 <= i < count - 1 && x == #[trigger] text.subrange(i, i + 3);
                    assert(0 <= i < count && x == text.subrange(i, i + 3));
                }
            } else {
                assert(x == text.subrange(count - 1, count - 1 + 3));
            }
        }
    }
}

/// Whether a group of three characters stands in one of some terms.
pub open spec fn stands_in(ts: Seq<TermView>, x: Seq<char>) -> bool {
    exists|t: int, i: int|
        0 <= t < ts.len() && 0 <= i && i + 3 <= ts[t].text.len() && x
            == #[trigger] ts[t].text.subrange(i, i + 3)
}

/// The groups of terms are those of each of them, each once.
proof fn lemma_grams(ts: Seq<TermView>)
    ensures
        grams(ts).no_duplicates(),
        forall|t: int, i: int|
            0 <= t < ts.len() && 0 <= i && i + 3 <= ts[t].text.len() ==> grams(ts).contains(
                #[trigger] ts[t].text.subrange(i, i + 3),
            ),
        forall|g: int| 0 <= g < grams(ts).len() ==> stands_in(ts, #[trigger] grams(ts)[g]),
    decreases ts.len(),
{
    if ts.len() > 0 {
        let earlier = ts.drop_last();
        let text = ts.last().text;
        let n = ts.len() - 1;
        lemma_grams(earlier);
        lemma_with_grams(grams(earlier), text, text.len() - 2);
        assert forall|t: int, i: int|
            0 <= t < ts.len() && 0 <= i && i + 3 <= ts[t].text.len() implies grams(ts).contains(
            #[trigger] ts[t].text.subrange(i, i + 3),
        ) by {
            if t < n {
                assert(earlier[t] == ts[t]);
                assert(grams(earlier).contains(earlier[t].text.subrange(i, i + 3)));
            } else {
                assert(grams(ts).contains(text.subrange(i, i + 3)));
            }
        }
        assert forall|g: int| 0 <= g < grams(ts).len() implies stands_in(
            ts,
            #[trigger] grams(ts)[g],
        ) by {
            let x = grams(ts)[g];
            assert(grams(ts).contains(x));
            if grams(earlier).contains(x) {
                let k = choose|k: int| 0 <= k < grams(earlier).len() && grams(earlier)[k] == x;
                assert(stands_in(earlier, grams(earlier)[k]));
                let (t, i) = choose|t: int, i: int|
                    0 <= t < earlier.len() && 0 <= i && i + 3 <= earlier[t].text.len() && x
                        == #[trigger] earlier[t].text.subrange(i, i + 3);
                assert(earlier[t] == ts[t]);
                assert(x == ts[t].text.subrange(i, i + 3));
            } else {
                let i = choose|i: int|
                    0 <= i < text.len() - 2 && x == #[trigger] text.subrange(i, i + 3);
                assert(x == ts[n].text.subrange(i, i + 3));
            }
        }
    }
}

/// A search by words alone, without a vector, looks up every group of three characters of every one of
/// its words, each as a quoted string, and likens what it finds to every one of them: so a message that
/// shares a group with any of the words is a candidate.
pub proof fn law_every_word_of_a_search_is_looked_for(
    query: &str,
    limit: usize,
    r: Search,
    t: int,
    i: int,
)
    requires
        call_ensures(search, (query, false, limit), r),
        only(terms(query@), true).len() == 0,
        0 <= t < only(terms(query@), false).len(),
        0 <= i,
        i + 3 <= only(terms(query@), false)[t].text.len(),
    ensures
        r.left().len() == 1,
        r.left()[0] matches LookupView::Similar { index, expr, over, words, limit: n } && {
            &&& index == "messages_trigram"@
            &&& crate::text::contains(
                expr,
                quoted(only(terms(query@), false)[t].text.subrange(i, i + 3)),
            )
            &&& words.contains(only(terms(query@), false)[t].text)
            &&& words.len() == only(terms(query@), false).len()
            &&& n == limit
            &&& over >= 40
            &&& over >= limit
        },
{
    let loose = only(terms(query@), false);
    lemma_only_shorter(terms(query@), false);
    lemma_grams(loose);
    let gram = loose[t].text.subrange(i, i + 3);
    let g = choose|g: int| 0 <= g < grams(loose).len() && grams(loose)[g] == gram;
    let parts = Seq::new(grams(loose).len(), |i: int| quoted(grams(loose)[i]));
    crate::text::lemma_joined_holds(parts, " OR "@, g);
    assert(parts[g] == quoted(gram));
    assert(texts(loose)[t] == loose[t].text);
}

/// What is asked of the index of groups asks for any of them: two lists of groups ask for what the first
/// asks for or for what the second does.
pub proof fn law_any_group_will_do(a: Seq<Seq<char>>, b: Seq<Seq<char>>)
    requires
        a.len() > 0,
        b.len() > 0,
    ensures
        any_gram(a + b) == any_gram(a) + " OR "@ + any_gram(b),
        any_gram(seq![a[0]]) == quoted(a[0]),
{
    let x = Seq::new(a.len(), |i: int| quoted(a[i]));
    let y = Seq::new(b.len(), |i: int| quoted(b[i]));
    assert(Seq::new((a + b).len(), |i: int| quoted((a + b)[i])) =~= x + y);
    assert(Seq::new(seq![a[0]].len(), |i: int| quoted(seq![a[0]][i])) =~= seq![quoted(a[0])]);
    crate::text::law_joining_goes_part_by_part(x, y, " OR "@, quoted(a[0]));
}

/// How alike a body is to some terms is how alike its most like word is to the most like term: no word
/// is more alike to any term, and some word is as much to some term, where there are any.
pub proof fn law_the_best_likeness_counts(
    terms: &[String],
    body: &str,
    r: u64,
    t: int,
    w: int,
)
    requires
        call_ensures(best_similarity, (terms, body), r),
    ensures
        0 <= t < terms@.len() && 0 <= w < words(body@, Class::NotWord).len() ==> likeness(
            terms@[t]@,
            lowercase(words(body@, Class::NotWord)[w]),
        ) <= r,
        r > 0 ==> exists|t: int, w: int|
            0 <= t < terms@.len() && 0 <= w < words(body@, Class::NotWord).len() && r
                == #[trigger] likeness(terms@[t]@, lowercase(words(body@, Class::NotWord)[w])),
{
    let ts = views(terms@);
    let ws = words(body@, Class::NotWord);
    lemma_best(ts, ws);
    if 0 <= t < terms@.len() && 0 <= w < ws.len() {
        assert(ts[t] == terms@[t]@);
        assert(likeness(ts[t], lowercase(ws[w])) <= best(ts, ws));
    }
    if r > 0 {
        let (t, w) = choose|t: int, w: int|
            0 <= t < ts.len() && 0 <= w < ws.len() && best(ts, ws) == #[trigger] likeness(
                ts[t],
                lowercase(ws[w]),
            );
        assert(r == likeness(terms@[t]@, lowercase(ws[w])));
    }
}

proof fn lemma_best_of(ts: Seq<Seq<char>>, word: Seq<char>)
    ensures
        forall|t: int| 0 <= t < ts.len() ==> #[trigger] likeness(ts[t], word) <= best_of(ts, word),
        best_of(ts, word) > 0 ==> exists|t: int|
            0 <= t < ts.len() && best_of(ts, word) == #[trigger] likeness(ts[t], word),
    decreases ts.len(),
{
    if ts.len() > 0 {
        let earlier = ts.drop_last();
        lemma_best_of(earlier, word);
        assert forall|t: int| 0 <= t < ts.len() implies #[trigger] likeness(ts[t], word)
            <= best_of(ts, word) by {
            if t < earlier.len() {
                assert(earlier[t] == ts[t]);
                assert(likeness(earlier[t], word) <= best_of(earlier, word));
            }
        }
        if best_of(ts, word) > 0 {
            if best_of(earlier, word) >= likeness(ts.last(), word) {
                let t = choose|t: int|
                    0 <= t < earlier.len() && best_of(earlier, word) == #[trigger] likeness(
                        earlier[t],
                        word,
                    );
                assert(best_of(ts, word) == likeness(ts[t], word));
            } else {
                assert(best_of(ts, word) == likeness(ts[ts.len() - 1], word));
            }
        }
    }
}

proof fn lemma_best(ts: Seq<Seq<char>>, ws: Seq<Seq<char>>)
    ensures
        forall|t: int, w: int|
            0 <= t < ts.len() && 0 <= w < ws.len() ==> #[trigger] likeness(
                ts[t],
                lowercase(ws[w]),
            ) <= best(ts, ws),
        best(ts, ws) > 0 ==> exists|t: int, w: int|
            0 <= t < ts.len() && 0 <= w < ws.len() && best(ts, ws) == #[trigger] likeness(
                ts[t],
                lowercase(ws[w]),
            ),
    decreases ws.len(),
{
    if ws.len() > 0 {
        let earlier = ws.drop_last();
        let last = lowercase(ws.last());
        lemma_best(ts, earlier);
        lemma_best_of(ts, last);
        assert forall|t: int, w: int| 0 <= t < ts.len() && 0 <= w < ws.len() implies
            #[trigger] likeness(ts[t], lowercase(ws[w])) <= best(ts, ws) by {
            if w < earlier.len() {
                assert(earlier[w] == ws[w]);
                assert(likeness(ts[t], lowercase(earlier[w])) <= best(ts, earlier));
            } else {
                assert(likeness(ts[t], last) <= best_of(ts, last));
            }
        }
        if best(ts, ws) > 0 {
            if best(ts, earlier) >= best_of(ts, last) {
                let (t, w) = choose|t: int, w: int|
                    0 <= t < ts.len() && 0 <= w < earlier.len() && best(ts, earlier)
                        == #[trigger] likeness(ts[t], lowercase(earlier[w]));
                assert(best(ts, ws) == likeness(ts[t], lowercase(ws[w])));
            } else {
                let t = choose|t: int|
                    0 <= t < ts.len() && best_of(ts, last) == #[trigger] likeness(ts[t], last);
                assert(best(ts, ws) == likeness(ts[t], lowercase(ws[ws.len() - 1])));
            }
        }
    }
}

/// How alike a message is to some terms.
pub open spec fn score_of(terms: Seq<Seq<char>>, m: Archived) -> u64 {
    best(terms, words(m.body@, Class::NotWord))
}

/// What is left of candidates are messages among them that are alike enough, the most like first, and no
/// more than are wanted; and where fewer come out than are wanted, every candidate that is alike enough
/// is among them.
pub proof fn law_the_most_alike_come_first(
    terms: &[String],
    rows: Vec<Archived>,
    limit: usize,
    r: Vec<Archived>,
)
    requires
        call_ensures(rank_alike, (terms, rows, limit), r),
    ensures
        r@.len() <= limit,
        forall|i: int| 0 <= i < r@.len() ==> rows@.contains(#[trigger] r@[i]),
        forall|i: int|
            0 <= i < r@.len() ==> score_of(views(terms@), #[trigger] r@[i]) >= 0x3FEA3D70A3D70A3D,
        forall|i: int, j: int|
            0 <= i < j < r@.len() ==> score_of(views(terms@), #[trigger] r@[i]) >= score_of(
                views(terms@),
                #[trigger] r@[j],
            ),
        r@.len() < limit ==> forall|k: int|
            0 <= k < rows@.len() && score_of(views(terms@), #[trigger] rows@[k])
                >= 0x3FEA3D70A3D70A3D ==> r@.contains(rows@[k]),
{
    let ts = views(terms@);
    let found = alike(ts, rows@);
    let order = ranked(found);
    lemma_alike(ts, rows@);
    crate::rank::law_the_best_come_first(found);
    crate::rank::law_ranking_keeps_every_item(found);
    lemma_same_items(found, order);
    assert forall|i: int| 0 <= i < order.len() implies rows@.contains(order[i].1) && score_of(
        ts,
        (#[trigger] order[i]).1,
    ) == order[i].0 && order[i].0 >= ALIKE by {
        assert(order.contains(order[i]));
        let k = choose|k: int| 0 <= k < found.len() && found[k] == order[i];
        assert(score_of(ts, found[k].1) == found[k].0);
    }
    assert(forall|i: int| 0 <= i < r@.len() ==> #[trigger] r@[i] == order[i].1);
    if r@.len() < limit {
        assert forall|k: int|
            0 <= k < rows@.len() && score_of(ts, #[trigger] rows@[k])
                >= 0x3FEA3D70A3D70A3D implies r@.contains(rows@[k]) by {
            assert(found.contains((score_of(ts, rows@[k]), rows@[k])));
            let p = choose|p: int|
                0 <= p < order.len() && order[p] == (score_of(ts, rows@[k]), rows@[k]);
            assert(r@[p] == rows@[k]);
        }
    }
}

/// Lists with the same items hold the same.
proof fn lemma_same_items<T>(a: Seq<T>, b: Seq<T>)
    requires
        a.to_multiset() == b.to_multiset(),
    ensures
        forall|x: T| a.contains(x) <==> b.contains(x),
{
    broadcast use vstd::seq_lib::group_to_multiset_ensures;

    assert forall|x: T| a.contains(x) <==> b.contains(x) by {
        assert(a.contains(x) <==> a.to_multiset().contains(x));
        assert(b.contains(x) <==> b.to_multiset().contains(x));
    }
}

proof fn lemma_alike(ts: Seq<Seq<char>>, rows: Seq<Archived>)
    ensures
        forall|i: int|
            0 <= i < alike(ts, rows).len() ==> rows.contains((#[trigger] alike(ts, rows)[i]).1)
                && score_of(ts, alike(ts, rows)[i].1) == alike(ts, rows)[i].0 && alike(
                ts,
                rows,
            )[i].0 >= ALIKE,
        forall|k: int|
            0 <= k < rows.len() && score_of(ts, #[trigger] rows[k]) >= ALIKE ==> alike(
                ts,
                rows,
            ).contains((score_of(ts, rows[k]), rows[k])),
    decreases rows.len(),
{
    if rows.len() > 0 {
        let earlier = rows.drop_last();
        let a = alike(ts, earlier);
        let all = alike(ts, rows);
        lemma_alike(ts, earlier);
        assert forall|i: int| 0 <= i < all.len() implies rows.contains((#[trigger] all[i]).1)
            && score_of(ts, all[i].1) == all[i].0 && all[i].0 >= ALIKE by {
            if i < a.len() {
                assert(all[i] == a[i]);
                let k = choose|k: int| 0 <= k < earlier.len() && earlier[k] == a[i].1;
                assert(rows[k] == a[i].1);
            } else {
                assert(rows[rows.len() - 1] == all[i].1);
            }
        }
        assert forall|k: int|
            0 <= k < rows.len() && score_of(ts, #[trigger] rows[k]) >= ALIKE implies all.contains(
            (score_of(ts, rows[k]), rows[k]),
        ) by {
            let item = (score_of(ts, rows[k]), rows[k]);
            if k < earlier.len() {
                assert(earlier[k] == rows[k]);
                let p = choose|p: int| 0 <= p < a.len() && a[p] == item;
                assert(all[p] == item);
            } else {
                assert(all[all.len() - 1] == item);
            }
        }
    }
}

/// A message is archived with everything that is known of it, each in its column, under its event.
pub proof fn law_a_message_is_archived_column_by_column(
    event_id: &str,
    room_id: &str,
    sender: &str,
    body: &str,
    at: &str,
    r: Statement,
)
    requires
        call_ensures(record, (event_id, room_id, sender, body, at), r),
    ensures
        r@.params == seq![
            ParamView::Text(event_id@),
            ParamView::Text(room_id@),
            ParamView::Text(sender@),
            ParamView::Text(body@),
            ParamView::Text(at@),
        ],
        begins(r.sql@, "INSERT OR IGNORE INTO messages (event_id, room_id, sender, body, at)"@),
        ends(r.sql@, "VALUES (?1, ?2, ?3, ?4, ?5)"@),
{
    lemma_record_sql();
    assert(r@.params =~= seq![
        ParamView::Text(event_id@),
        ParamView::Text(room_id@),
        ParamView::Text(sender@),
        ParamView::Text(body@),
        ParamView::Text(at@),
    ]);
}

/// What is read of the messages is asked for by what was given: the newest of a room by the room,
/// oldest first, one by its row, and as many of those that an index finds as are wanted.
pub proof fn law_messages_are_read_by_what_is_given(
    room_id: &str,
    row: i64,
    index: &str,
    expr: &str,
    limit: usize,
    latest: Statement,
    one: Statement,
    found: Statement,
    counted: Statement,
)
    requires
        call_ensures(recent, (room_id, limit), latest),
        call_ensures(by_rowid, (row,), one),
        call_ensures(from_index, (index, expr, limit), found),
        call_ensures(count, (), counted),
        limit <= i64::MAX,
    ensures
        latest@.params == seq![ParamView::Text(room_id@), ParamView::Int(limit as i64)],
        contains(latest.sql@, "FROM messages WHERE room_id = ?1 ORDER BY at DESC LIMIT ?2"@),
        ends(latest.sql@, "ORDER BY at ASC"@),
        one@.params == seq![ParamView::Int(row)],
        begins(one.sql@, "SELECT sender, body, at"@),
        ends(one.sql@, "FROM messages WHERE rowid = ?1"@),
        found@.params == seq![ParamView::Text(expr@), ParamView::Int(limit as i64)],
        begins(found.sql@, "SELECT m.rowid, m.sender, m.body, m.at\n         FROM "@ + index@),
        contains(found.sql@, "WHERE "@ + index@ + " MATCH ?1"@),
        ends(found.sql@, "ORDER BY bm25("@ + index@ + ") LIMIT ?2"@),
        counted@.params.len() == 0,
        counted.sql@ == "SELECT count(*) FROM messages"@,
{
    lemma_recent_sql();
    lemma_select_by_rowid_sql();
    lemma_index_sql(index@);
    assert(latest@.params =~= seq![ParamView::Text(room_id@), ParamView::Int(limit as i64)]);
    assert(one@.params =~= seq![ParamView::Int(row)]);
    assert(found@.params =~= seq![ParamView::Text(expr@), ParamView::Int(limit as i64)]);
}

/// How the statement reads that asks an index.
proof fn lemma_index_sql(index: Seq<char>)
    ensures
        begins(index_sql(index), "SELECT m.rowid, m.sender, m.body, m.at\n         FROM "@ + index),
        contains(index_sql(index), "WHERE "@ + index + " MATCH ?1"@),
        ends(index_sql(index), "ORDER BY bm25("@ + index + ") LIMIT ?2"@),
{
    let head = "SELECT m.rowid, m.sender, m.body, m.at\n         FROM "@ + index;
    let join = " f JOIN messages m ON m.rowid = f.rowid\n         "@;
    let wanted = "WHERE "@ + index + " MATCH ?1"@;
    let order = "ORDER BY bm25("@ + index + ") LIMIT ?2"@;
    let a = " f JOIN messages m ON m.rowid = f.rowid\n         WHERE "@;
    let b = " MATCH ?1 ORDER BY bm25("@;
    assert(a =~= join + "WHERE "@) by {
        reveal_strlit(" f JOIN messages m ON m.rowid = f.rowid\n         WHERE ");
        reveal_strlit(" f JOIN messages m ON m.rowid = f.rowid\n         ");
        reveal_strlit("WHERE ");
    }
    assert(b =~= " MATCH ?1"@ + (" "@ + "ORDER BY bm25("@)) by {
        reveal_strlit(" MATCH ?1 ORDER BY bm25(");
        reveal_strlit(" MATCH ?1");
        reveal_strlit(" ");
        reveal_strlit("ORDER BY bm25(");
    }
    let tail = " "@ + order;
    assert(index_sql(index) =~= (head + join) + wanted + tail);
    lemma_parts(head + join, wanted, tail);
    lemma_added(head, join);
    lemma_grow(head + join, wanted, head);
    lemma_grow(head + join + wanted, tail, head);
    lemma_grouped(head + join + wanted, " "@, order);
    lemma_added(head + join + wanted + " "@, order);
}

/// How the statement reads that archives a message.
proof fn lemma_record_sql()
    ensures
        begins(RECORD@, "INSERT OR IGNORE INTO messages (event_id, room_id, sender, body, at)"@),
        ends(RECORD@, "VALUES (?1, ?2, ?3, ?4, ?5)"@),
{
    reveal_strlit(
        "INSERT OR IGNORE INTO messages (event_id, room_id, sender, body, at)\n         VALUES (?1, ?2, ?3, ?4, ?5)",
    );
    reveal_strlit("INSERT OR IGNORE INTO messages (event_id, room_id, sender, body, at)");
    reveal_strlit("VALUES (?1, ?2, ?3, ?4, ?5)");
    assert(RECORD@.subrange(0, 68) =~= "INSERT OR IGNORE INTO messages (event_id, room_id, sender, body, at)"@);
    assert(RECORD@.skip(RECORD@.len() - 27) =~= "VALUES (?1, ?2, ?3, ?4, ?5)"@);
}

/// How the statement reads that reads the newest messages.
proof fn lemma_recent_sql()
    ensures
        contains(RECENT@, "FROM messages WHERE room_id = ?1 ORDER BY at DESC LIMIT ?2"@),
        ends(RECENT@, "ORDER BY at ASC"@),
{
    reveal_strlit(
        "SELECT sender, body, at FROM (\n           SELECT sender, body, at FROM messages WHERE room_id = ?1 ORDER BY at DESC LIMIT ?2\n         ) ORDER BY at ASC",
    );
    reveal_strlit("FROM messages WHERE room_id = ?1 ORDER BY at DESC LIMIT ?2");
    reveal_strlit("ORDER BY at ASC");
    assert(RECENT@.subrange(66, 124) =~= "FROM messages WHERE room_id = ?1 ORDER BY at DESC LIMIT ?2"@);
    assert(occurs_at(RECENT@, "FROM messages WHERE room_id = ?1 ORDER BY at DESC LIMIT ?2"@, 66));
    assert(RECENT@.skip(RECENT@.len() - 15) =~= "ORDER BY at ASC"@);
}

/// How the statement reads that reads the message of a row.
proof fn lemma_select_by_rowid_sql()
    ensures
        begins(SELECT_BY_ROWID@, "SELECT sender, body, at"@),
        ends(SELECT_BY_ROWID@, "FROM messages WHERE rowid = ?1"@),
{
    reveal_strlit(
        "SELECT sender, body, at FROM messages WHERE rowid = ?1",
    );
    reveal_strlit("SELECT sender, body, at");
    reveal_strlit("FROM messages WHERE rowid = ?1");
    assert(SELECT_BY_ROWID@.subrange(0, 23) =~= "SELECT sender, body, at"@);
    assert(SELECT_BY_ROWID@.skip(SELECT_BY_ROWID@.len() - 30) =~= "FROM messages WHERE rowid = ?1"@);
}

} // verus!
