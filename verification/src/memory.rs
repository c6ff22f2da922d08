//! Durable memory: how notes are written, and how they are looked for.
use vstd::prelude::*;
use vstd::string::StringExecFns;

use crate::db::{bare, statement_views, ParamView, Statement, StatementView};
use crate::embed::{discarded, invalidate, Embeddable, Memories, CANDIDATE_CAP};
use crate::query::{loose, loose_text, parse, required, required_expr, terms};
use crate::search::{plan_for, lookup_views, only, select, Lookup, LookupView, Search};
use crate::text::{
    begins, byte_len, contains, ends, join, joined, lemma_added, lemma_grow, lowercase,
    occurs_at, owned, pieces, split, to_lowercase, views, Class,
};

verus! {

/// A note.
#[derive(Debug, Clone)]
pub struct Record {
    pub key: String,
    pub content: String,
    pub category: String,
    pub created_at: String,
}

/// The full-text index of the notes.
pub const INDEX: &'static str = "memories_fts";

/// Writes a note, or revises the one under its key.
pub const STORE: &'static str = "INSERT INTO memories (id, key, content, category, room_id, created_at, updated_at)\n         VALUES (?1, ?2, ?3, ?4, ?5, ?6, ?6)\n         ON CONFLICT(key) DO UPDATE SET\n           content = excluded.content,\n           category = excluded.category,\n           updated_at = excluded.updated_at";

/// Deletes a note.
pub const FORGET: &'static str = "DELETE FROM memories WHERE key = ?1";

/// Finds the row of a note.
pub const ROWID: &'static str = "SELECT rowid FROM memories WHERE key = ?1";

/// Counts the notes.
pub const COUNT: &'static str = "SELECT count(*) FROM memories";

/// Reads the note of a row.
pub const SELECT_BY_ROWID: &'static str = "SELECT key, content, category, created_at FROM memories WHERE rowid = ?1";

/// Reads what the full-text index finds.
pub const SELECT_BY_INDEX: &'static str = "SELECT m.rowid, m.key, m.content, m.category, m.created_at\n         FROM memories_fts f JOIN memories m ON m.rowid = f.rowid\n         WHERE memories_fts MATCH ?1 ORDER BY bm25(memories_fts) LIMIT ?2";

/// Reads what holds a piece of text, the latest first.
pub const SELECT_BY_PATTERN: &'static str = "SELECT key, content, category, created_at FROM memories\n         WHERE content LIKE ?1 OR key LIKE ?1 ORDER BY updated_at DESC LIMIT ?2";

/// What writes a note.
pub open spec fn storing(
    id: Seq<char>,
    key: Seq<char>,
    content: Seq<char>,
    category: Seq<char>,
    room_id: Option<Seq<char>>,
    now: Seq<char>,
) -> StatementView {
    bare(STORE@).text(id).text(key).text(content).text(category).optional(room_id).text(now)
}

/// The statement that writes a note, or revises the one under its key.
pub fn store(
    id: &str,
    key: &str,
    content: &str,
    category: &str,
    room_id: Option<&str>,
    now: &str,
) -> (r: Statement)
    ensures
        r@ == storing(
            id@,
            key@,
            content@,
            category@,
            crate::json::optional_text(room_id),
            now@,
        ),
{
    Statement::new(STORE).text(id).text(key).text(content).text(category).optional(room_id).text(
        now,
    )
}

/// The statement that finds the row of a note.
pub fn rowid(key: &str) -> (r: Statement)
    ensures
        r@ == bare(ROWID@).text(key@),
{
    Statement::new(ROWID).text(key)
}

/// What discards the vector of a note, given its row.
pub open spec fn discarding(rowid: Option<i64>) -> Seq<StatementView> {
    match rowid {
        Some(row) => Seq::empty().push(discarded::<Memories>(row)),
        None => Seq::empty(),
    }
}

/// What deletes a note.
pub open spec fn deleting(key: Seq<char>) -> StatementView {
    bare(FORGET@).text(key)
}

/// The statements that follow the one that wrote a note, given its row. A note that was revised is
/// embedded anew.
pub fn after_store(rowid: Option<i64>) -> (r: Vec<Statement>)
    ensures
        statement_views(r@) == discarding(rowid),
{
    let mut out: Vec<Statement> = Vec::new();
    match rowid {
        Some(row) => {
            out.push(invalidate::<Memories>(row));
        },
        None => {},
    }
    assert(statement_views(out@) =~= discarding(rowid));
    out
}

/// The statements that forget a note, given its row. A note takes its vector with it: a row that is
/// used again must not inherit one. The last statement deletes the note, and changes a row exactly
/// where there was such a note.
pub fn forget(key: &str, rowid: Option<i64>) -> (r: Vec<Statement>)
    ensures
        statement_views(r@) == discarding(rowid).push(deleting(key@)),
{
    let mut out = after_store(rowid);
    let ghost before = statement_views(out@);
    let last = Statement::new(FORGET).text(key);
    out.push(last);
    assert(statement_views(out@) =~= before.push(last@));
    out
}

/// The statement that counts the notes.
pub fn count() -> (r: Statement)
    ensures
        r@ == bare(COUNT@),
{
    Statement::new(COUNT)
}

/// The statement that reads what the full-text index finds.
pub fn from_index(expr: &str, limit: usize) -> (r: Statement)
    ensures
        r@ == bare(SELECT_BY_INDEX@).text(expr@).number(limit as i64),
{
    Statement::new(SELECT_BY_INDEX).text(expr).number(limit as i64)
}

/// The statement that reads what holds a piece of text.
pub fn like(pattern: &str, limit: usize) -> (r: Statement)
    ensures
        r@ == bare(SELECT_BY_PATTERN@).text(pattern@).number(limit as i64),
{
    Statement::new(SELECT_BY_PATTERN).text(pattern).number(limit as i64)
}

/// The statement that reads the note of a row.
pub fn by_rowid(rowid: i64) -> (r: Statement)
    ensures
        r@ == bare(SELECT_BY_ROWID@).number(rowid),
{
    Statement::new(SELECT_BY_ROWID).number(rowid)
}

// ---------------------------------------------------------------------------------------------
// Recall
// ---------------------------------------------------------------------------------------------

/// The quoted keywords that words give: those of more than one byte, in lowercase.
pub open spec fn keywords(ws: Seq<Seq<char>>) -> Seq<Seq<char>>
    decreases ws.len(),
{
    if ws.len() == 0 {
        Seq::empty()
    } else if byte_len(ws.last()) > 1 {
        keywords(ws.drop_last()).push("\""@ + lowercase(ws.last()) + "\""@)
    } else {
        keywords(ws.drop_last())
    }
}

/// The full-text expression that asks for any word of a query.
pub open spec fn any_word(query: Seq<char>) -> Seq<char> {
    joined(keywords(pieces(query, Class::NotWord)), " OR "@)
}

/// Writes the full-text expression that asks for any word of a query.
pub fn keyword(query: &str) -> (r: String)
    ensures
        r@ == any_word(query@),
{
    let ws = split(query, &Class::NotWord);
    let mut out: Vec<String> = Vec::new();
    assert(views(ws@).take(0) =~= Seq::empty());
    assert(views(out@) =~= Seq::empty());
    for i in 0..ws.len()
        invariant
            views(out@) == keywords(views(ws@).take(i as int)),
    {
        let ghost before = views(out@);
        assert(views(ws@).take(i + 1).drop_last() =~= views(ws@).take(i as int));
        assert(views(ws@).take(i + 1).last() == ws@[i as int]@);
        if ws[i].as_str().as_bytes().len() > 1 {
            let mut word = owned("\"");
            word.append(to_lowercase(ws[i].as_str()).as_str());
            word.append("\"");
            out.push(word);
            assert(views(out@) =~= before.push(word@));
        }
    }
    assert(views(ws@).take(ws@.len() as int) =~= views(ws@));
    join(out.as_slice(), " OR ")
}

/// The lookups of a recall, in order.
///
/// Terms in quotes have to be in what is found. With a vector at hand they select, and the rest of
/// the query ranks by meaning what they leave; without one, and where nothing is embedded yet, the
/// index finds the notes that hold them. A query without such terms goes by meaning first, then by
/// any of its words, and in the end by the text itself.
pub open spec fn recall_plan(query: Seq<char>, vector: bool, limit: usize) -> Seq<LookupView> {
    let exact = only(terms(query), true);
    if exact.len() > 0 {
        let ranked = if vector && loose(query).len() > 0 {
            Seq::empty().push(
                LookupView::Ranked {
                    index: INDEX@,
                    expr: required(exact),
                    cap: CANDIDATE_CAP,
                    limit,
                },
            )
        } else {
            Seq::empty()
        };
        ranked.push(LookupView::Index { index: INDEX@, expr: required(exact), limit })
    } else {
        let meant = if vector {
            Seq::empty().push(LookupView::Nearest { limit })
        } else {
            Seq::empty()
        };
        let worded = if any_word(query).len() > 0 {
            meant.push(LookupView::Index { index: INDEX@, expr: any_word(query), limit })
        } else {
            meant
        };
        worded.push(LookupView::Like { pattern: "%"@ + query + "%"@, limit })
    }
}

/// Begins a recall. The vector, where there is one, is that of the unquoted text.
pub fn recall(query: &str, vector: bool, limit: usize) -> (r: Search)
    ensures
        r.left() == recall_plan(query@, vector, limit),
{
    proof {
        reveal_strlit("");
    }
    let ts = parse(query);
    let exact = select(ts.as_slice(), true);
    assert(crate::query::term_ref_views(exact@).len() == exact@.len());
    let mut plan: Vec<Lookup> = Vec::new();
    assert(lookup_views(plan@) =~= Seq::empty());
    if exact.len() > 0 {
        if vector && loose_text(query).as_str().unicode_len() > 0 {
            let expr = required_expr(exact.as_slice());
            plan_for(&mut plan, Lookup::Ranked { index: INDEX, expr, cap: CANDIDATE_CAP, limit });
        }
        let expr = required_expr(exact.as_slice());
        plan_for(&mut plan, Lookup::Index { index: INDEX, expr, limit });
        return Search::new(plan);
    }
    if vector {
        plan_for(&mut plan, Lookup::Nearest { limit });
    }
    let cleaned = keyword(query);
    if cleaned.as_str().unicode_len() > 0 {
        plan_for(&mut plan, Lookup::Index { index: INDEX, expr: cleaned, limit });
    }
    let mut pattern = owned("%");
    pattern.append(query);
    pattern.append("%");
    plan_for(&mut plan, Lookup::Like { pattern, limit });
    Search::new(plan)
}

/// A query of nothing but quoted terms is first looked for exactly, whatever vector is at hand.
pub proof fn law_quoted_terms_are_looked_for_exactly(query: Seq<char>, vector: bool, limit: usize)
    requires
        only(terms(query), true).len() > 0,
        loose(query).len() == 0,
    ensures
        recall_plan(query, vector, limit)[0] == (LookupView::Index {
            index: INDEX@,
            expr: required(only(terms(query), true)),
            limit,
        }),
{
}

/// A query with quoted terms is never answered with a note that lacks one of them: whatever is
/// looked up, with or without a vector, the index has to find all of them.
pub proof fn law_quoted_terms_are_required_of_a_note(
    query: Seq<char>,
    vector: bool,
    limit: usize,
    i: int,
)
    requires
        only(terms(query), true).len() > 0,
        0 <= i < recall_plan(query, vector, limit).len(),
    ensures
        match recall_plan(query, vector, limit)[i] {
            LookupView::Index { index, expr, .. } => index == INDEX@ && expr == required(
                only(terms(query), true),
            ),
            LookupView::Ranked { index, expr, .. } => index == INDEX@ && expr == required(
                only(terms(query), true),
            ),
            _ => false,
        },
{
}

/// A recall always has something to try. Where no term is quoted that is, in the end, the text
/// itself.
pub proof fn law_a_recall_has_something_to_try(query: Seq<char>, vector: bool, limit: usize)
    ensures
        recall_plan(query, vector, limit).len() > 0,
        only(terms(query), true).len() == 0 ==> recall_plan(query, vector, limit).last() == (
        LookupView::Like { pattern: "%"@ + query + "%"@, limit }),
{
}

/// Every word of a query that takes more than one byte is looked for, in lowercase and as a quoted
/// string; any of them will do.
pub proof fn law_every_word_is_looked_for(query: &str, r: String, w: int)
    requires
        call_ensures(keyword, (query,), r),
        0 <= w < pieces(query@, Class::NotWord).len(),
        byte_len(pieces(query@, Class::NotWord)[w]) > 1,
    ensures
        crate::text::contains(
            r@,
            "\""@ + lowercase(pieces(query@, Class::NotWord)[w]) + "\""@,
        ),
{
    let ws = pieces(query@, Class::NotWord);
    lemma_keywords(ws, w);
    let wanted = "\""@ + lowercase(ws[w]) + "\""@;
    let k = choose|k: int| 0 <= k < keywords(ws).len() && keywords(ws)[k] == wanted;
    crate::text::lemma_joined_holds(keywords(ws), " OR "@, k);
}

/// A word that takes more than one byte is among the keywords.
proof fn lemma_keywords(ws: Seq<Seq<char>>, w: int)
    requires
        0 <= w < ws.len(),
        byte_len(ws[w]) > 1,
    ensures
        keywords(ws).contains("\""@ + lowercase(ws[w]) + "\""@),
    decreases ws.len(),
{
    let wanted = "\""@ + lowercase(ws[w]) + "\""@;
    let earlier = keywords(ws.drop_last());
    if w < ws.len() - 1 {
        lemma_keywords(ws.drop_last(), w);
        let k = choose|k: int| 0 <= k < earlier.len() && earlier[k] == wanted;
        assert(keywords(ws)[k] == wanted);
    } else {
        assert(keywords(ws)[earlier.len() as int] == wanted);
    }
}

/// The keywords of more words are those of the first and then those of the others.
pub proof fn law_keywords_go_word_by_word(a: Seq<Seq<char>>, b: Seq<Seq<char>>)
    ensures
        keywords(a + b) == keywords(a) + keywords(b),
        keywords(a).len() <= a.len(),
    decreases b.len(),
{
    if b.len() == 0 {
        assert(a + b =~= a);
        assert(keywords(a) + keywords(b) =~= keywords(a));
        lemma_no_more_keywords(a);
    } else {
        law_keywords_go_word_by_word(a, b.drop_last());
        assert((a + b).drop_last() =~= a + b.drop_last());
        assert((a + b).last() == b.last());
        assert(keywords(a + b) =~= keywords(a) + keywords(b));
    }
}

proof fn lemma_no_more_keywords(ws: Seq<Seq<char>>)
    ensures
        keywords(ws).len() <= ws.len(),
    decreases ws.len(),
{
    if ws.len() > 0 {
        lemma_no_more_keywords(ws.drop_last());
    }
}

/// A recall without quoted terms goes by meaning first, where there is a vector, and in the end by the
/// text of the query itself, as a piece of a note; in between by its words, where it has any. Every
/// lookup is for as many notes as are wanted.
pub proof fn law_a_loose_recall_goes_from_meaning_to_text(
    query: &str,
    vector: bool,
    limit: usize,
    r: Search,
)
    requires
        call_ensures(recall, (query, vector, limit), r),
        only(terms(query@), true).len() == 0,
    ensures
        vector ==> r.left()[0] == (LookupView::Nearest { limit }),
        r.left().len() > 0,
        r.left().last() matches LookupView::Like { pattern, limit: n } && crate::text::contains(
            pattern,
            query@,
        ) && pattern[0] == '%' && pattern.last() == '%' && n == limit,
        any_word(query@).len() > 0 ==> r.left().contains(
            LookupView::Index { index: "memories_fts"@, expr: any_word(query@), limit },
        ),
        !vector ==> !r.left().contains(LookupView::Nearest { limit }),
{
    let left = r.left();
    crate::text::lemma_parts("%"@, query@, "%"@);
    reveal_strlit("%");
    if any_word(query@).len() > 0 {
        assert(left[left.len() - 2] == (LookupView::Index {
            index: "memories_fts"@,
            expr: any_word(query@),
            limit,
        }));
    }
}

/// A recall with quoted terms looks up nothing but notes that hold all of them; with a vector and more
/// words besides, those are ranked by meaning first.
pub proof fn law_an_exact_recall_keeps_to_its_terms(
    query: &str,
    vector: bool,
    limit: usize,
    r: Search,
    i: int,
)
    requires
        call_ensures(recall, (query, vector, limit), r),
        only(terms(query@), true).len() > 0,
        0 <= i < r.left().len(),
    ensures
        match r.left()[i] {
            LookupView::Index { index, expr, limit: n } => index == "memories_fts"@ && expr
                == required(only(terms(query@), true)) && n == limit,
            LookupView::Ranked { index, expr, cap, limit: n } => index == "memories_fts"@ && expr
                == required(only(terms(query@), true)) && n == limit && vector && cap >= 500,
            _ => false,
        },
        r.left()[0] is Ranked <==> vector && loose(query@).len() > 0,
        r.left().last() is Index,
{
}

/// A note is written with everything that is known of it, each in its column; one that is written
/// again gets the new text and the new category.
pub proof fn law_a_note_is_written_column_by_column(
    id: &str,
    key: &str,
    content: &str,
    category: &str,
    room_id: &str,
    now: &str,
    here: Statement,
    nowhere: Statement,
)
    requires
        call_ensures(store, (id, key, content, category, Some(room_id), now), here),
        call_ensures(store, (id, key, content, category, None, now), nowhere),
    ensures
        here@.params == seq![
            ParamView::Text(id@),
            ParamView::Text(key@),
            ParamView::Text(content@),
            ParamView::Text(category@),
            ParamView::Text(room_id@),
            ParamView::Text(now@),
        ],
        nowhere@.params == here@.params.update(4, ParamView::Null),
        here.sql@ == nowhere.sql@,
        begins(
            here.sql@,
            "INSERT INTO memories (id, key, content, category, room_id, created_at, updated_at)"@,
        ),
        contains(here.sql@, "VALUES (?1, ?2, ?3, ?4, ?5, ?6, ?6)"@),
        contains(here.sql@, "ON CONFLICT(key) DO UPDATE"@),
        contains(here.sql@, "content = excluded.content"@),
        contains(here.sql@, "category = excluded.category"@),
        ends(here.sql@, "updated_at = excluded.updated_at"@),
{
    lemma_store_sql();
    assert(here@.params =~= seq![
        ParamView::Text(id@),
        ParamView::Text(key@),
        ParamView::Text(content@),
        ParamView::Text(category@),
        ParamView::Text(room_id@),
        ParamView::Text(now@),
    ]);
    assert(nowhere@.params =~= here@.params.update(4, ParamView::Null));
}

/// A note is forgotten by its key, and its vector by its row before that; a note that was written
/// loses the vector of its row. Without a row there is no vector to discard.
pub proof fn law_a_note_is_forgotten_by_its_key(
    key: &str,
    rowid: Option<i64>,
    gone: Vec<Statement>,
    revised: Vec<Statement>,
)
    requires
        call_ensures(forget, (key, rowid), gone),
        call_ensures(after_store, (rowid,), revised),
    ensures
        revised@.len() == (if rowid is Some {
            1int
        } else {
            0int
        }),
        rowid matches Some(row) ==> revised@[0]@.params == seq![ParamView::Int(row)] && begins(
            revised@[0].sql@,
            "DELETE FROM memory_vectors"@,
        ),
        gone@.len() == revised@.len() + 1,
        rowid is Some ==> gone@[0]@ == revised@[0]@,
        gone@.last()@.params == seq![ParamView::Text(key@)],
        begins(gone@.last().sql@, "DELETE FROM memories"@),
        ends(gone@.last().sql@, "WHERE key = ?1"@),
{
    lemma_forget_sql();
    let a = statement_views(revised@);
    let b = statement_views(gone@);
    assert(a.len() == revised@.len() && b.len() == gone@.len());
    assert(b[b.len() - 1] == gone@.last()@);
    assert(gone@.last()@.params =~= seq![ParamView::Text(key@)]);
    if let Some(row) = rowid {
        assert(a[0] == revised@[0]@ && b[0] == gone@[0]@);
        assert(revised@[0]@.params =~= seq![ParamView::Int(row)]);
        let s = revised@[0].sql@;
        assert(begins(s, "DELETE FROM memory_vectors"@)) by {
            let head = "DELETE FROM "@ + Memories::TABLE@;
            assert(head =~= "DELETE FROM memory_vectors"@) by {
                crate::embed::law_memories_and_messages_are_embedded_apart(row, row);
                reveal_strlit("DELETE FROM ");
                reveal_strlit("memory_vectors");
                reveal_strlit("DELETE FROM memory_vectors");
            }
            lemma_added(head, " WHERE "@);
            lemma_grow(head + " WHERE "@, Memories::KEY@, head);
            lemma_grow(head + " WHERE "@ + Memories::KEY@, " = ?1"@, head);
        }
    }
}

/// What is read of the notes is asked for by what was given: a row by its key, a note by its row,
/// and as many of those that the index or a piece of text finds as are wanted.
pub proof fn law_notes_are_read_by_what_is_given(
    key: &str,
    row: i64,
    expr: &str,
    limit: usize,
    at: Statement,
    one: Statement,
    found: Statement,
    alike: Statement,
    counted: Statement,
)
    requires
        call_ensures(rowid, (key,), at),
        call_ensures(by_rowid, (row,), one),
        call_ensures(from_index, (expr, limit), found),
        call_ensures(like, (expr, limit), alike),
        call_ensures(count, (), counted),
        limit <= i64::MAX,
    ensures
        at@.params == seq![ParamView::Text(key@)],
        ends(at.sql@, "FROM memories WHERE key = ?1"@),
        one@.params == seq![ParamView::Int(row)],
        begins(one.sql@, "SELECT key, content, category, created_at"@),
        ends(one.sql@, "FROM memories WHERE rowid = ?1"@),
        found@.params == seq![ParamView::Text(expr@), ParamView::Int(limit as i64)],
        begins(found.sql@, "SELECT m.rowid, m.key, m.content, m.category, m.created_at"@),
        ends(found.sql@, "MATCH ?1 ORDER BY bm25(memories_fts) LIMIT ?2"@),
        alike@.params == seq![ParamView::Text(expr@), ParamView::Int(limit as i64)],
        contains(alike.sql@, "WHERE content LIKE ?1 OR key LIKE ?1"@),
        ends(alike.sql@, "ORDER BY updated_at DESC LIMIT ?2"@),
        counted@.params.len() == 0,
        counted.sql@ == "SELECT count(*) FROM memories"@,
{
    lemma_rowid_sql();
    lemma_select_by_rowid_sql();
    lemma_select_by_index_sql();
    lemma_select_by_pattern_sql();
    assert(at@.params =~= seq![ParamView::Text(key@)]);
    assert(one@.params =~= seq![ParamView::Int(row)]);
    assert(found@.params =~= seq![ParamView::Text(expr@), ParamView::Int(limit as i64)]);
    assert(alike@.params =~= seq![ParamView::Text(expr@), ParamView::Int(limit as i64)]);
}

/// How the statement reads that writes a note.
proof fn lemma_store_sql()
    ensures
        begins(STORE@, "INSERT INTO memories (id, key, content, category, room_id, created_at, updated_at)"@),
        contains(STORE@, "VALUES (?1, ?2, ?3, ?4, ?5, ?6, ?6)"@),
        contains(STORE@, "ON CONFLICT(key) DO UPDATE"@),
        contains(STORE@, "content = excluded.content"@),
        contains(STORE@, "category = excluded.category"@),
        ends(STORE@, "updated_at = excluded.updated_at"@),
{
    reveal_strlit(
        "INSERT INTO memories (id, key, content, category, room_id, created_at, updated_at)\n         VALUES (?1, ?2, ?3, ?4, ?5, ?6, ?6)\n         ON CONFLICT(key) DO UPDATE SET\n           content = excluded.content,\n           category = excluded.category,\n           updated_at = excluded.updated_at",
    );
    reveal_strlit("INSERT INTO memories (id, key, content, category, room_id, created_at, updated_at)");
    reveal_strlit("VALUES (?1, ?2, ?3, ?4, ?5, ?6, ?6)");
    reveal_strlit("ON CONFLICT(key) DO UPDATE");
    reveal_strlit("content = excluded.content");
    reveal_strlit("category = excluded.category");
    reveal_strlit("updated_at = excluded.updated_at");
    assert(STORE@.subrange(0, 82) =~= "INSERT INTO memories (id, key, content, category, room_id, created_at, updated_at)"@);
    assert(STORE@.subrange(92, 127) =~= "VALUES (?1, ?2, ?3, ?4, ?5, ?6, ?6)"@);
    assert(occurs_at(STORE@, "VALUES (?1, ?2, ?3, ?4, ?5, ?6, ?6)"@, 92));
    assert(STORE@.subrange(137, 163) =~= "ON CONFLICT(key) DO UPDATE"@);
    assert(occurs_at(STORE@, "ON CONFLICT(key) DO UPDATE"@, 137));
    assert(STORE@.subrange(179, 205) =~= "content = excluded.content"@);
    assert(occurs_at(STORE@, "content = excluded.content"@, 179));
    assert(STORE@.subrange(218, 246) =~= "category = excluded.category"@);
    assert(occurs_at(STORE@, "category = excluded.category"@, 218));
    assert(STORE@.skip(STORE@.len() - 32) =~= "updated_at = excluded.updated_at"@);
}

/// How the statement reads that deletes a note.
proof fn lemma_forget_sql()
    ensures
        begins(FORGET@, "DELETE FROM memories"@),
        ends(FORGET@, "WHERE key = ?1"@),
{
    reveal_strlit(
        "DELETE FROM memories WHERE key = ?1",
    );
    reveal_strlit("DELETE FROM memories");
    reveal_strlit("WHERE key = ?1");
    assert(FORGET@.subrange(0, 20) =~= "DELETE FROM memories"@);
    assert(FORGET@.skip(FORGET@.len() - 14) =~= "WHERE key = ?1"@);
}

/// How the statement reads that finds the row of a note.
proof fn lemma_rowid_sql()
    ensures
        ends(ROWID@, "FROM memories WHERE key = ?1"@),
{
    reveal_strlit(
        "SELECT rowid FROM memories WHERE key = ?1",
    );
    reveal_strlit("FROM memories WHERE key = ?1");
    assert(ROWID@.skip(ROWID@.len() - 28) =~= "FROM memories WHERE key = ?1"@);
}

/// How the statement reads that reads the note of a row.
proof fn lemma_select_by_rowid_sql()
    ensures
        begins(SELECT_BY_ROWID@, "SELECT key, content, category, created_at"@),
        ends(SELECT_BY_ROWID@, "FROM memories WHERE rowid = ?1"@),
{
    reveal_strlit(
        "SELECT key, content, category, created_at FROM memories WHERE rowid = ?1",
    );
    reveal_strlit("SELECT key, content, category, created_at");
    reveal_strlit("FROM memories WHERE rowid = ?1");
    assert(SELECT_BY_ROWID@.subrange(0, 41) =~= "SELECT key, content, category, created_at"@);
    assert(SELECT_BY_ROWID@.skip(SELECT_BY_ROWID@.len() - 30) =~= "FROM memories WHERE rowid = ?1"@);
}

/// How the statement reads that asks the index.
proof fn lemma_select_by_index_sql()
    ensures
        begins(SELECT_BY_INDEX@, "SELECT m.rowid, m.key, m.content, m.category, m.created_at"@),
        ends(SELECT_BY_INDEX@, "MATCH ?1 ORDER BY bm25(memories_fts) LIMIT ?2"@),
{
    reveal_strlit(
        "SELECT m.rowid, m.key, m.content, m.category, m.created_at\n         FROM memories_fts f JOIN memories m ON m.rowid = f.rowid\n         WHERE memories_fts MATCH ?1 ORDER BY bm25(memories_fts) LIMIT ?2",
    );
    reveal_strlit("SELECT m.rowid, m.key, m.content, m.category, m.created_at");
    reveal_strlit("MATCH ?1 ORDER BY bm25(memories_fts) LIMIT ?2");
    assert(SELECT_BY_INDEX@.subrange(0, 58) =~= "SELECT m.rowid, m.key, m.content, m.category, m.created_at"@);
    assert(SELECT_BY_INDEX@.skip(SELECT_BY_INDEX@.len() - 45) =~= "MATCH ?1 ORDER BY bm25(memories_fts) LIMIT ?2"@);
}

/// How the statement reads that looks for a piece of text.
proof fn lemma_select_by_pattern_sql()
    ensures
        contains(SELECT_BY_PATTERN@, "WHERE content LIKE ?1 OR key LIKE ?1"@),
        ends(SELECT_BY_PATTERN@, "ORDER BY updated_at DESC LIMIT ?2"@),
{
    reveal_strlit(
        "SELECT key, content, category, created_at FROM memories\n         WHERE content LIKE ?1 OR key LIKE ?1 ORDER BY updated_at DESC LIMIT ?2",
    );
    reveal_strlit("WHERE content LIKE ?1 OR key LIKE ?1");
    reveal_strlit("ORDER BY updated_at DESC LIMIT ?2");
    assert(SELECT_BY_PATTERN@.subrange(65, 101) =~= "WHERE content LIKE ?1 OR key LIKE ?1"@);
    assert(occurs_at(SELECT_BY_PATTERN@, "WHERE content LIKE ?1 OR key LIKE ?1"@, 65));
    assert(SELECT_BY_PATTERN@.skip(SELECT_BY_PATTERN@.len() - 33) =~= "ORDER BY updated_at DESC LIMIT ?2"@);
}

} // verus!
