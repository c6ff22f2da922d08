//! Matching by meaning: what is embedded, how vectors are asked for, kept and ranked by.
use vstd::prelude::*;
use vstd::string::StringExecFns;

use crate::db::{bare, ParamView, Statement, StatementView};
use crate::json::{self, json_views, members, no_members, object, with, Json, JsonView};
use crate::rank::{descending, items, mapped, ranked, rank_all};
use crate::text::{
    begins, chars_of, contains, decimal, decimal_of, ends, lemma_added, lemma_grow, owned, same,
    slice_of, string_of, views,
};

verus! {

pub const EMBED_URL: &'static str = "https://openrouter.ai/api/v1/embeddings";

/// How much of a text is embedded.
pub const MAX_INPUT_CHARS: usize = 4000;

/// How many candidates are pulled before they are ranked by meaning.
pub const CANDIDATE_CAP: usize = 500;

/// A table whose rows are embedded.
pub trait Embeddable {
    /// The table.
    const SOURCE: &'static str;

    /// Its column that is embedded.
    const TEXT: &'static str;

    /// The table of the vectors.
    const TABLE: &'static str;

    /// Its column that holds the row of the source.
    const KEY: &'static str;
}

/// The memories.
pub struct Memories;

impl Embeddable for Memories {
    const SOURCE: &'static str = "memories";

    const TEXT: &'static str = "content";

    const TABLE: &'static str = "memory_vectors";

    const KEY: &'static str = "memory_rowid";
}

/// The message archive.
pub struct Messages;

impl Embeddable for Messages {
    const SOURCE: &'static str = "messages";

    const TEXT: &'static str = "body";

    const TABLE: &'static str = "message_vectors";

    const KEY: &'static str = "message_rowid";
}

// ---------------------------------------------------------------------------------------------
// Asking for vectors
// ---------------------------------------------------------------------------------------------

/// Who turns texts into vectors.
pub struct Embedder {
    api_key: String,
    model: String,
    dimensions: usize,
    timeout_s: u64,
}

/// As much of a text as is embedded.
pub open spec fn clipped(text: Seq<char>, max: nat) -> Seq<char> {
    if text.len() <= max {
        text
    } else {
        text.take(max as int)
    }
}

/// As much of a text as is embedded.
pub fn clip(text: &str, max: usize) -> (r: String)
    ensures
        r@ == clipped(text@, max as nat),
{
    let chars = chars_of(text);
    if chars.len() <= max {
        return owned(text);
    }
    let kept = slice_of(&chars, 0, max);
    assert(kept@ =~= text@.take(max as int));
    string_of(kept.as_slice())
}

/// The texts as they are embedded.
pub open spec fn inputs(texts: Seq<Seq<char>>) -> JsonView {
    JsonView::Array(
        Seq::new(
            texts.len(),
            |i: int| JsonView::Text(clipped(texts[i], MAX_INPUT_CHARS as nat)),
        ),
    )
}

/// What is sent to the embedding endpoint.
pub open spec fn embed_request(model: Seq<char>, texts: Seq<Seq<char>>, dimensions: usize) -> JsonView {
    JsonView::Object(
        no_members().push(("model"@, JsonView::Text(model))).push(("input"@, inputs(texts))).push(
            ("dimensions"@, json::uint_view(dimensions as u64)),
        ),
    )
}

/// Why there are no vectors.
#[derive(Debug)]
pub enum EmbedError {
    /// The status, and the beginning of the body.
    Refused { status: String, head: String },
    NotJson(String),
    NoData,
    NoVector,
    Dimensions { got: usize, expected: usize },
    Count { asked: usize, got: usize },
}

impl EmbedError {
    /// How the error reads.
    pub open spec fn words(self) -> Seq<char> {
        match self {
            EmbedError::Refused { status, head } => "OpenRouter embeddings "@ + status@ + ": "@
                + head@,
            EmbedError::NotJson(complaint) => "decoding embeddings response: "@ + complaint@,
            EmbedError::NoData => "embeddings response had no data array"@,
            EmbedError::NoVector => "embedding item had no embedding array"@,
            EmbedError::Dimensions { got, expected } => "model returned "@ + decimal(got as nat)
                + " dimensions, expected "@ + decimal(expected as nat),
            EmbedError::Count { asked, got } => "asked for "@ + decimal(asked as nat)
                + " embeddings, got "@ + decimal(got as nat),
        }
    }

    /// How the error reads.
    pub fn message(&self) -> (r: String)
        ensures
            r@ == self.words(),
    {
        match self {
            EmbedError::Refused { status, head } => {
                let mut out = owned("OpenRouter embeddings ");
                out.append(status.as_str());
                out.append(": ");
                out.append(head.as_str());
                out
            },
            EmbedError::NotJson(complaint) => {
                let mut out = owned("decoding embeddings response: ");
                out.append(complaint.as_str());
                out
            },
            EmbedError::NoData => owned("embeddings response had no data array"),
            EmbedError::NoVector => owned("embedding item had no embedding array"),
            EmbedError::Dimensions { got, expected } => {
                let mut out = owned("model returned ");
                out.append(decimal_of(*got as u64).as_str());
                out.append(" dimensions, expected ");
                out.append(decimal_of(*expected as u64).as_str());
                out
            },
            EmbedError::Count { asked, got } => {
                let mut out = owned("asked for ");
                out.append(decimal_of(*asked as u64).as_str());
                out.append(" embeddings, got ");
                out.append(decimal_of(*got as u64).as_str());
                out
            },
        }
    }
}

/// What a list of vectors holds.
pub open spec fn vector_views(v: Seq<Vec<Json>>) -> Seq<Seq<JsonView>> {
    Seq::new(v.len(), |i: int| json_views(v[i]@))
}

/// The position of the text that an item of the reply belongs to.
pub open spec fn item_index(item: JsonView) -> u64 {
    match item.uint_member("index"@) {
        Some(n) => n,
        None => 0,
    }
}

/// What is read of one item, or what is wrong with it.
pub open spec fn read_item(item: JsonView, dimensions: usize) -> Result<
    (u64, Seq<JsonView>),
    EmbedError,
> {
    match item.items_member("embedding"@) {
        Some(numbers) => if numbers.len() == dimensions {
            Ok((order_key(item_index(item)), numbers))
        } else {
            Err(EmbedError::Dimensions { got: numbers.len() as usize, expected: dimensions })
        },
        None => Err(EmbedError::NoVector),
    }
}

/// Lower positions come first.
pub open spec fn order_key(index: u64) -> u64 {
    (u64::MAX - index) as u64
}

/// What is read of the items, or what is wrong with the first that is wrong.
pub open spec fn read_items(list: Seq<JsonView>, dimensions: usize) -> Result<
    Seq<(u64, Seq<JsonView>)>,
    EmbedError,
>
    decreases list.len(),
{
    if list.len() == 0 {
        Ok(Seq::empty())
    } else {
        match read_items(list.drop_last(), dimensions) {
            Ok(earlier) => match read_item(list.last(), dimensions) {
                Ok(item) => Ok(earlier.push(item)),
                Err(e) => Err(e),
            },
            Err(e) => Err(e),
        }
    }
}

/// Whether `r` is what a reply amounts to: one vector for each text, in the order of the texts.
pub open spec fn vectors_of(
    payload: JsonView,
    dimensions: usize,
    count: usize,
    r: Result<Vec<Vec<Json>>, EmbedError>,
) -> bool {
    match payload.items_member("data"@) {
        None => r == Err::<Vec<Vec<Json>>, EmbedError>(EmbedError::NoData),
        Some(list) => match read_items(list, dimensions) {
            Err(e) => r == Err::<Vec<Vec<Json>>, EmbedError>(e),
            Ok(found) => if found.len() == count {
                r matches Ok(v) && vector_views(v@) == items(ranked(found))
            } else {
                r matches Err(EmbedError::Count { asked, got }) && asked == count && got
                    == found.len()
            },
        },
    }
}

/// What is wrong with one item is wrong with the list, where nothing before it is.
proof fn lemma_read_items_fails(list: Seq<JsonView>, dimensions: usize, i: int)
    requires
        0 <= i < list.len(),
        read_items(list.take(i), dimensions) is Ok,
        read_item(list[i], dimensions) is Err,
    ensures
        read_items(list, dimensions) == Err::<Seq<(u64, Seq<JsonView>)>, EmbedError>(
            read_item(list[i], dimensions)->Err_0,
        ),
    decreases list.len(),
{
    if i < list.len() - 1 {
        assert(list.drop_last().take(i) =~= list.take(i));
        lemma_read_items_fails(list.drop_last(), dimensions, i);
    } else {
        assert(list.drop_last() =~= list.take(i));
    }
}

/// Copies JSON values.
fn copy_values(v: &[Json]) -> (r: Vec<Json>)
    ensures
        json_views(r@) == json_views(v@),
{
    let mut out: Vec<Json> = Vec::new();
    for i in 0..v.len()
        invariant
            json_views(out@) == json_views(v@).take(i as int),
    {
        let ghost before = json_views(out@);
        let item = json::copy(&v[i]);
        out.push(item);
        assert(json_views(out@) =~= before.push(item@));
        assert(json_views(v@).take(i + 1) =~= before.push(item@));
    }
    assert(json_views(v@).take(v@.len() as int) =~= json_views(v@));
    out
}

/// What the scored vectors of a list hold.
pub open spec fn scored_views(v: Seq<(u64, Vec<Json>)>) -> Seq<(u64, Seq<JsonView>)> {
    mapped(v, |x: Vec<Json>| json_views(x@))
}

/// Reads the vectors out of a reply. Numbers are left as they are written.
pub fn vectors(payload: &Json, dimensions: usize, count: usize) -> (r: Result<
    Vec<Vec<Json>>,
    EmbedError,
>)
    ensures
        vectors_of(payload@, dimensions, count, r),
{
    let list = match payload.array_at("data") {
        Some(list) => list,
        None => {
            return Err(EmbedError::NoData);
        },
    };
    let ghost all = json_views(list@);
    let mut found: Vec<(u64, Vec<Json>)> = Vec::new();
    assert(all.take(0) =~= Seq::empty());
    assert(scored_views(found@) =~= Seq::empty());
    for i in 0..list.len()
        invariant
            all == json_views(list@),
            payload@.items_member("data"@) == Some(all),
            found@.len() == i,
            read_items(all.take(i as int), dimensions) == Ok::<_, EmbedError>(scored_views(found@)),
    {
        let item = &list[i];
        assert(all.take(i + 1).drop_last() =~= all.take(i as int));
        assert(all.take(i + 1).last() == item@);
        let index: u64 = match item.u64_at("index") {
            Some(n) => n,
            None => 0,
        };
        let numbers = match item.array_at("embedding") {
            Some(numbers) => numbers,
            None => {
                proof {
                    lemma_read_items_fails(all, dimensions, i as int);
                }
                return Err(EmbedError::NoVector);
            },
        };
        assert(json_views(numbers@).len() == numbers@.len());
        if numbers.len() != dimensions {
            proof {
                lemma_read_items_fails(all, dimensions, i as int);
            }
            return Err(EmbedError::Dimensions { got: numbers.len(), expected: dimensions });
        }
        let ghost before = scored_views(found@);
        let vector = copy_values(numbers.as_slice());
        found.push((u64::MAX - index, vector));
        assert(scored_views(found@) =~= before.push((order_key(index), json_views(vector@))));
    }
    assert(all.take(list@.len() as int) =~= all);
    if found.len() != count {
        return Err(EmbedError::Count { asked: count, got: found.len() });
    }
    let ghost scored = found@;
    let out = rank_all(found);
    proof {
        crate::rank::lemma_ranked_mapped(scored, |x: Vec<Json>| json_views(x@));
        assert(vector_views(out@) =~= items(ranked(scored_views(scored))));
    }
    Ok(out)
}

impl Embedder {
    /// The key that requests are signed with.
    pub closed spec fn key_view(&self) -> Seq<char> {
        self.api_key@
    }

    /// The embedding model.
    pub closed spec fn model_view(&self) -> Seq<char> {
        self.model@
    }

    /// The length of the vectors.
    pub closed spec fn dimensions_view(&self) -> usize {
        self.dimensions
    }

    /// The seconds after which a silent connection is given up.
    pub closed spec fn timeout_view(&self) -> u64 {
        self.timeout_s
    }

    /// Who turns texts into vectors of the given length.
    pub fn new(api_key: String, model: String, dimensions: usize, timeout_s: u64) -> (r: Self)
        ensures
            r.key_view() == api_key@,
            r.model_view() == model@,
            r.dimensions_view() == dimensions,
            r.timeout_view() == timeout_s,
    {
        Embedder { api_key, model, dimensions, timeout_s }
    }

    /// The key that requests are signed with.
    pub fn api_key(&self) -> (r: &str)
        ensures
            r@ == self.key_view(),
    {
        self.api_key.as_str()
    }

    /// The embedding model.
    pub fn model(&self) -> (r: &str)
        ensures
            r@ == self.model_view(),
    {
        self.model.as_str()
    }

    /// The length of the vectors.
    pub fn dimensions(&self) -> (r: usize)
        ensures
            r == self.dimensions_view(),
    {
        self.dimensions
    }

    /// The seconds after which a silent connection is given up.
    pub fn timeout_s(&self) -> (r: u64)
        ensures
            r == self.timeout_view(),
    {
        self.timeout_s
    }

    /// What to send in order to have texts embedded. There is nothing to send for no texts.
    pub fn request(&self, texts: &[String]) -> (r: Option<Json>)
        ensures
            match r {
                Some(body) => texts@.len() > 0 && body@ == embed_request(
                    self.model_view(),
                    views(texts@),
                    self.dimensions_view(),
                ),
                None => texts@.len() == 0,
            },
    {
        if texts.len() == 0 {
            return None;
        }
        let ghost wanted = inputs(views(texts@))->Array_0;
        let mut input: Vec<Json> = Vec::new();
        for i in 0..texts.len()
            invariant
                wanted == inputs(views(texts@))->Array_0,
                json_views(input@) == wanted.take(i as int),
        {
            let ghost before = json_views(input@);
            let item = json::text(clip(texts[i].as_str(), MAX_INPUT_CHARS).as_str());
            input.push(item);
            assert(json_views(input@) =~= before.push(item@));
            assert(wanted.take(i + 1) =~= before.push(item@));
        }
        assert(json_views(input@) =~= wanted);
        let mut ms = with(members(), "model", json::text(self.model.as_str()));
        ms = with(ms, "input", json::array(input));
        ms = with(ms, "dimensions", json::uint(self.dimensions as u64));
        Some(object(ms))
    }

    /// What came of a request: one vector for each text, in the order of the texts.
    pub fn embed(&self, status: &str, success: bool, raw: &str, count: usize) -> (r: Result<
        Vec<Vec<Json>>,
        EmbedError,
    >)
        ensures
            if !success {
                r matches Err(EmbedError::Refused { status: s, head: h }) && s@ == status@ && h@
                    == clipped(raw@, 200)
            } else {
                match json::read(raw@) {
                    Ok(payload) => vectors_of(payload, self.dimensions_view(), count, r),
                    Err(complaint) => r matches Err(EmbedError::NotJson(c)) && c@ == complaint,
                }
            },
    {
        if !success {
            return Err(EmbedError::Refused { status: owned(status), head: clip(raw, 200) });
        }
        match json::parse(raw) {
            Ok(payload) => vectors(&payload, self.dimensions, count),
            Err(complaint) => Err(EmbedError::NotJson(complaint)),
        }
    }
}

// ---------------------------------------------------------------------------------------------
// Keeping vectors
// ---------------------------------------------------------------------------------------------

/// Where it is noted which model a table of vectors belongs to.
pub const META_TABLE: &'static str = "CREATE TABLE IF NOT EXISTS embedding_meta (\n           table_name TEXT PRIMARY KEY, model TEXT NOT NULL, dimensions INTEGER NOT NULL);";

/// Reads which model a table of vectors belongs to.
pub const META_SELECT: &'static str = "SELECT model, dimensions FROM embedding_meta WHERE table_name = ?1";

/// Notes which model a table of vectors belongs to.
pub const META_UPSERT: &'static str = "INSERT INTO embedding_meta (table_name, model, dimensions) VALUES (?1, ?2, ?3)\n         ON CONFLICT(table_name) DO UPDATE SET model = excluded.model, dimensions = excluded.dimensions";

/// Whether stored vectors belong to another model or have another length.
pub open spec fn incompatible(
    current: Option<(String, i64)>,
    model: Seq<char>,
    dimensions: i64,
) -> bool {
    match current {
        Some((have_model, have_dimensions)) => have_model@ != model || have_dimensions
            != dimensions,
        None => false,
    }
}

/// What drops the table of vectors.
pub open spec fn dropping<E: Embeddable>() -> StatementView {
    bare("DROP TABLE IF EXISTS "@ + E::TABLE@ + ";"@)
}

/// What makes a table of vectors, unless it is there.
pub open spec fn creating<E: Embeddable>(dimensions: i64) -> StatementView {
    bare(
        "CREATE VIRTUAL TABLE IF NOT EXISTS "@ + E::TABLE@ + " USING vec0(\n           "@ + E::KEY@
            + " INTEGER PRIMARY KEY,\n           embedding float["@ + decimal(dimensions as nat)
            + "] distance_metric=cosine);"@,
    )
}

/// What notes which model a table of vectors belongs to.
pub open spec fn noting<E: Embeddable>(model: Seq<char>, dimensions: i64) -> StatementView {
    bare(META_UPSERT@).text(E::TABLE@).text(model).number(dimensions)
}

/// The statements that make the table of vectors ready: what does not fit is discarded first.
pub open spec fn table_statements<E: Embeddable>(
    current: Option<(String, i64)>,
    model: Seq<char>,
    dimensions: i64,
) -> Seq<StatementView> {
    let dropped = if incompatible(current, model, dimensions) {
        Seq::empty().push(dropping::<E>())
    } else {
        Seq::empty()
    };
    dropped.push(creating::<E>(dimensions)).push(noting::<E>(model, dimensions))
}

/// What makes the table of vectors ready, given which model its vectors belong to now. Vectors of
/// another model or another length are discarded.
pub fn ensure_table<E: Embeddable>(
    current: &Option<(String, i64)>,
    model: &str,
    dimensions: i64,
) -> (r: Vec<Statement>)
    requires
        0 <= dimensions,
    ensures
        crate::db::statement_views(r@) == table_statements::<E>(*current, model@, dimensions),
{
    let mut out: Vec<Statement> = Vec::new();
    let stale = match current {
        Some((have_model, have_dimensions)) => !same(have_model.as_str(), model)
            || *have_dimensions != dimensions,
        None => false,
    };
    if stale {
        let mut sql = owned("DROP TABLE IF EXISTS ");
        sql.append(E::TABLE);
        sql.append(";");
        out.push(Statement::new(sql.as_str()));
    }
    let mut sql = owned("CREATE VIRTUAL TABLE IF NOT EXISTS ");
    sql.append(E::TABLE);
    sql.append(" USING vec0(\n           ");
    sql.append(E::KEY);
    sql.append(" INTEGER PRIMARY KEY,\n           embedding float[");
    sql.append(decimal_of(dimensions as u64).as_str());
    sql.append("] distance_metric=cosine);");
    out.push(Statement::new(sql.as_str()));
    out.push(Statement::new(META_UPSERT).text(E::TABLE).text(model).number(dimensions));
    assert(crate::db::statement_views(out@) =~= table_statements::<E>(*current, model@, dimensions));
    out
}

/// The rows that have no vector yet.
pub open spec fn unembedded<E: Embeddable>() -> Seq<char> {
    E::SOURCE@ + " WHERE rowid NOT IN (SELECT "@ + E::KEY@ + " FROM "@ + E::TABLE@ + ")"@
}

/// Writes which rows have no vector yet.
fn unembedded_rows<E: Embeddable>() -> (r: String)
    ensures
        r@ == unembedded::<E>(),
{
    let mut out = owned(E::SOURCE);
    out.append(" WHERE rowid NOT IN (SELECT ");
    out.append(E::KEY);
    out.append(" FROM ");
    out.append(E::TABLE);
    out.append(")");
    out
}

/// The statement that reads rows that have no vector yet, the newest first.
pub fn pending<E: Embeddable>(limit: i64) -> (r: Statement)
    ensures
        r@ == bare(
            "SELECT rowid, "@ + E::TEXT@ + " FROM "@ + unembedded::<E>()
                + "\n         ORDER BY rowid DESC LIMIT ?1"@,
        ).number(limit),
{
    let mut sql = owned("SELECT rowid, ");
    sql.append(E::TEXT);
    sql.append(" FROM ");
    sql.append(unembedded_rows::<E>().as_str());
    sql.append("\n         ORDER BY rowid DESC LIMIT ?1");
    Statement::new(sql.as_str()).number(limit)
}

/// The statement that counts the rows that have no vector yet.
pub fn count_pending<E: Embeddable>() -> (r: Statement)
    ensures
        r@ == bare("SELECT count(*) FROM "@ + unembedded::<E>()),
{
    let mut sql = owned("SELECT count(*) FROM ");
    sql.append(unembedded_rows::<E>().as_str());
    Statement::new(sql.as_str())
}

/// What keeps the vector of a row.
pub open spec fn saving<E: Embeddable>() -> StatementView {
    bare(
        "INSERT OR REPLACE INTO "@ + E::TABLE@ + "("@ + E::KEY@ + ", embedding) VALUES (?1, ?2)"@,
    )
}

/// The statement that keeps the vector of a row. The row and the vector are bound for each.
pub fn save<E: Embeddable>() -> (r: Statement)
    ensures
        r@ == saving::<E>(),
{
    let mut sql = owned("INSERT OR REPLACE INTO ");
    sql.append(E::TABLE);
    sql.append("(");
    sql.append(E::KEY);
    sql.append(", embedding) VALUES (?1, ?2)");
    Statement::new(sql.as_str())
}

/// What discards the vector of a row.
pub open spec fn discarded<E: Embeddable>(rowid: i64) -> StatementView {
    bare("DELETE FROM "@ + E::TABLE@ + " WHERE "@ + E::KEY@ + " = ?1"@).number(rowid)
}

/// The statement that discards the vector of a row.
pub fn invalidate<E: Embeddable>(rowid: i64) -> (r: Statement)
    ensures
        r@ == discarded::<E>(rowid),
{
    let mut sql = owned("DELETE FROM ");
    sql.append(E::TABLE);
    sql.append(" WHERE ");
    sql.append(E::KEY);
    sql.append(" = ?1");
    Statement::new(sql.as_str()).number(rowid)
}

/// The statement that finds the rows nearest to a vector. The vector and the number of rows are
/// bound.
pub fn nearest<E: Embeddable>() -> (r: Statement)
    ensures
        r@ == bare(
            "SELECT "@ + E::KEY@ + " FROM "@ + E::TABLE@
                + " WHERE embedding MATCH ?1 AND k = ?2 ORDER BY distance"@,
        ),
{
    let mut sql = owned("SELECT ");
    sql.append(E::KEY);
    sql.append(" FROM ");
    sql.append(E::TABLE);
    sql.append(" WHERE embedding MATCH ?1 AND k = ?2 ORDER BY distance");
    Statement::new(sql.as_str())
}

/// The statement that reads the vector of a row.
pub fn vector_of<E: Embeddable>(rowid: i64) -> (r: Statement)
    ensures
        r@ == bare("SELECT embedding FROM "@ + E::TABLE@ + " WHERE "@ + E::KEY@ + " = ?1"@).number(
            rowid,
        ),
{
    let mut sql = owned("SELECT embedding FROM ");
    sql.append(E::TABLE);
    sql.append(" WHERE ");
    sql.append(E::KEY);
    sql.append(" = ?1");
    Statement::new(sql.as_str()).number(rowid)
}

// ---------------------------------------------------------------------------------------------
// Ranking by meaning
// ---------------------------------------------------------------------------------------------

/// The candidates that have a score.
pub open spec fn with_scores<T>(s: Seq<(Option<u64>, T)>) -> Seq<(u64, T)>
    decreases s.len(),
{
    if s.len() == 0 {
        Seq::empty()
    } else {
        match s.last().0 {
            Some(score) => with_scores(s.drop_last()).push((score, s.last().1)),
            None => with_scores(s.drop_last()),
        }
    }
}

/// The candidates that have none.
pub open spec fn without_scores<T>(s: Seq<(Option<u64>, T)>) -> Seq<T>
    decreases s.len(),
{
    if s.len() == 0 {
        Seq::empty()
    } else {
        match s.last().0 {
            Some(_) => without_scores(s.drop_last()),
            None => without_scores(s.drop_last()).push(s.last().1),
        }
    }
}

/// At most so many of a list.
pub open spec fn at_most<T>(s: Seq<T>, limit: nat) -> Seq<T> {
    if s.len() <= limit {
        s
    } else {
        s.take(limit as int)
    }
}

/// Candidates by score, the best first, and behind them those without one. Where none has a score,
/// there is nothing to go by.
pub open spec fn by_meaning<T>(s: Seq<(Option<u64>, T)>, limit: nat) -> Seq<T> {
    if with_scores(s).len() == 0 {
        Seq::empty()
    } else {
        at_most(items(ranked(with_scores(s))) + without_scores(s), limit)
    }
}

/// Ranks candidates by how near they are to what was meant. A candidate that has no vector yet has
/// no score. Scores are numbers that order as the similarities do.
pub fn rank<T>(candidates: Vec<(Option<u64>, T)>, limit: usize) -> (r: Vec<T>)
    ensures
        r@ == by_meaning(candidates@, limit as nat),
{
    let ghost all = candidates@;
    let mut rest = candidates;
    let mut scored: Vec<(u64, T)> = Vec::new();
    let mut unscored: Vec<T> = Vec::new();
    let ghost mut done: int = 0;
    assert(all.take(0) =~= Seq::empty());
    assert(all.skip(0) =~= all);
    while rest.len() > 0
        invariant
            0 <= done <= all.len(),
            rest@ == all.skip(done),
            scored@ == with_scores(all.take(done)),
            unscored@ == without_scores(all.take(done)),
        decreases rest@.len(),
    {
        let (score, row) = rest.remove(0);
        proof {
            assert(all.take(done + 1).drop_last() =~= all.take(done));
            assert(all.take(done + 1).last() == (score, row));
        }
        match score {
            Some(s) => {
                scored.push((s, row));
            },
            None => {
                unscored.push(row);
            },
        }
        proof {
            done = done + 1;
            assert(rest@ =~= all.skip(done));
        }
    }
    assert(all.take(all.len() as int) =~= all);
    if scored.len() == 0 {
        return Vec::new();
    }
    let mut out = rank_all(scored);
    out.append(&mut unscored);
    if out.len() > limit {
        out.truncate(limit);
        assert(out@ =~= by_meaning(all, limit as nat));
    }
    out
}

/// How long the backlog of texts rests between two passes: shortly where it found work.
pub fn rest_s(worked: bool) -> (r: u64)
    ensures
        r == (if worked {
            2u64
        } else {
            60u64
        }),
{
    if worked {
        2
    } else {
        60
    }
}

/// Candidates with a score come before those without, and no more come out than were asked for.
pub proof fn law_scored_candidates_come_first<T>(s: Seq<(Option<u64>, T)>, limit: nat)
    requires
        with_scores(s).len() > 0,
    ensures
        by_meaning(s, limit).len() <= limit,
        limit <= with_scores(s).len() ==> by_meaning(s, limit) == items(
            ranked(with_scores(s)),
        ).take(limit as int),
        limit >= s.len() ==> by_meaning(s, limit).len() == s.len(),
{
    crate::rank::law_ranking_keeps_every_item(with_scores(s));
    lemma_parts(s);
    let front = items(ranked(with_scores(s)));
    if limit <= with_scores(s).len() {
        assert(at_most(front + without_scores(s), limit) =~= front.take(limit as int));
    }
}

/// Every candidate either has a score or has none.
proof fn lemma_parts<T>(s: Seq<(Option<u64>, T)>)
    ensures
        with_scores(s).len() + without_scores(s).len() == s.len(),
    decreases s.len(),
{
    if s.len() > 0 {
        lemma_parts(s.drop_last());
    }
}

/// What is read of the items, item by item.
proof fn lemma_read_items(list: Seq<JsonView>, dimensions: usize)
    requires
        read_items(list, dimensions) is Ok,
    ensures
        read_items(list, dimensions)->Ok_0.len() == list.len(),
        forall|i: int|
            0 <= i < list.len() ==> read_item(#[trigger] list[i], dimensions) == Ok::<
                (u64, Seq<JsonView>),
                EmbedError,
            >(read_items(list, dimensions)->Ok_0[i]),
    decreases list.len(),
{
    if list.len() > 0 {
        lemma_read_items(list.drop_last(), dimensions);
        assert forall|i: int| 0 <= i < list.len() implies read_item(
            #[trigger] list[i],
            dimensions,
        ) == Ok::<(u64, Seq<JsonView>), EmbedError>(read_items(list, dimensions)->Ok_0[i]) by {
            if i < list.len() - 1 {
                assert(list.drop_last()[i] == list[i]);
            }
        }
    }
}

/// Whether an item of a list has a key.
pub open spec fn has_key<T>(s: Seq<(u64, T)>, key: u64) -> bool {
    exists|i: int| 0 <= i < s.len() && (#[trigger] s[i]).0 == key
}

/// Whether a list has an item for every position below its length.
pub open spec fn every_position<T>(s: Seq<(u64, T)>) -> bool {
    forall|k: int| 0 <= k < s.len() ==> #[trigger] has_key(s, order_key(k as u64))
}

/// In a ranked list that has every position, nothing stands before its position.
proof fn lemma_not_before<T>(r: Seq<(u64, T)>, i: int, k: int)
    requires
        descending(r),
        every_position(r),
        r.len() <= u64::MAX,
        0 <= i < r.len(),
        0 <= k < r.len(),
        r[i].0 == order_key(k as u64),
    ensures
        k <= i,
    decreases k,
{
    if k > 0 {
        let earlier = order_key((k - 1) as u64);
        assert(has_key(r, earlier));
        let j = choose|j: int| 0 <= j < r.len() && r[j].0 == earlier;
        assert(r[j].0 > r[i].0);
        if i <= j {
            assert(r[i].0 >= r[j].0);
        }
        lemma_not_before(r, j, k - 1);
    }
}

/// In a ranked list that has every position, nothing stands behind its position.
proof fn lemma_not_behind<T>(r: Seq<(u64, T)>, i: int, k: int)
    requires
        descending(r),
        every_position(r),
        r.len() <= u64::MAX,
        0 <= i < r.len(),
        0 <= k < r.len(),
        r[i].0 == order_key(k as u64),
    ensures
        i <= k,
    decreases r.len() - k,
{
    if k < r.len() - 1 {
        let later = order_key((k + 1) as u64);
        assert(has_key(r, later));
        let j = choose|j: int| 0 <= j < r.len() && r[j].0 == later;
        assert(r[j].0 < r[i].0);
        if j <= i {
            assert(r[j].0 >= r[i].0);
        }
        lemma_not_behind(r, j, k + 1);
    }
}

/// What stands in a list stands in the ranked list.
proof fn lemma_still_there<T>(s: Seq<(u64, T)>, i: int) -> (at: int)
    requires
        0 <= i < s.len(),
    ensures
        0 <= at < ranked(s).len(),
        ranked(s)[at] == s[i],
{
    broadcast use vstd::seq_lib::group_to_multiset_ensures;

    crate::rank::law_ranking_keeps_every_item(s);
    assert(s.contains(s[i]));
    assert(s.to_multiset().count(s[i]) > 0);
    assert(ranked(s).contains(s[i]));
    choose|at: int| 0 <= at < ranked(s).len() && ranked(s)[at] == s[i]
}

/// Every text gets its own vector: where a reply has an item for each position, in whatever order,
/// the vector of an item comes out at the position that the item gives.
pub proof fn law_every_text_gets_its_vector(list: Seq<JsonView>, dimensions: usize, i: int)
    requires
        read_items(list, dimensions) is Ok,
        every_position(read_items(list, dimensions)->Ok_0),
        list.len() <= u64::MAX,
        0 <= i < list.len(),
    ensures
        item_index(list[i]) < list.len(),
        items(ranked(read_items(list, dimensions)->Ok_0))[item_index(list[i]) as int]
            == list[i].items_member("embedding"@)->0,
{
    let found = read_items(list, dimensions)->Ok_0;
    let r = ranked(found);
    lemma_read_items(list, dimensions);
    assert(read_item(list[i], dimensions) == Ok::<(u64, Seq<JsonView>), EmbedError>(found[i]));
    crate::rank::law_the_best_come_first(found);
    crate::rank::law_ranking_keeps_every_item(found);
    assert(every_position(r)) by {
        assert forall|k: int| 0 <= k < r.len() implies #[trigger] has_key(
            r,
            order_key(k as u64),
        ) by {
            let key = order_key(k as u64);
            assert(has_key(found, key));
            let m = choose|m: int| 0 <= m < found.len() && found[m].0 == key;
            let at = lemma_still_there(found, m);
            assert(r[at].0 == key);
        }
    }
    let at = lemma_still_there(found, i);
    let k = item_index(list[i]) as int;
    if k >= r.len() {
        // The item for the last position stands last, and this one would stand behind it.
        let last = order_key((r.len() - 1) as u64);
        assert(has_key(r, last));
        let j = choose|j: int| 0 <= j < r.len() && r[j].0 == last;
        lemma_not_before(r, j, r.len() - 1);
        assert(r[at].0 < r[j].0);
    }
    lemma_not_before(r, at, k);
    lemma_not_behind(r, at, k);
}

/// The memories and the messages are embedded in tables of their own: what discards the vector of a
/// memory leaves those of the messages alone, and the other way round.
pub proof fn law_memories_and_messages_are_embedded_apart(memory: i64, message: i64)
    ensures
        Memories::SOURCE@ == "memories"@,
        Memories::TEXT@ == "content"@,
        Memories::TABLE@ == "memory_vectors"@,
        Memories::KEY@ == "memory_rowid"@,
        Messages::SOURCE@ == "messages"@,
        Messages::TEXT@ == "body"@,
        Messages::TABLE@ == "message_vectors"@,
        Messages::KEY@ == "message_rowid"@,
        discarded::<Memories>(memory).sql != discarded::<Messages>(message).sql,
{
    reveal_strlit("DELETE FROM ");
    reveal_strlit(" WHERE ");
    reveal_strlit(" = ?1");
    reveal_strlit("memory_vectors");
    reveal_strlit("memory_rowid");
    reveal_strlit("message_vectors");
    reveal_strlit("message_rowid");
    assert(discarded::<Memories>(memory).sql.len() != discarded::<Messages>(message).sql.len());
}

/// Of a text that is too long, the beginning is embedded, as much as there may be; any other is
/// embedded whole.
pub proof fn law_the_beginning_of_a_text_is_embedded(text: &str, max: usize, r: String)
    requires
        call_ensures(clip, (text, max), r),
    ensures
        begins(text@, r@),
        text@.len() <= max ==> r@ == text@,
        text@.len() > max ==> r@.len() == max,
{
    assert(text@.subrange(0, r@.len() as int) =~= r@);
}

/// A request names the model and the length of the vectors, and carries the texts in their order,
/// each as far as it is embedded. There is a request wherever there are texts.
pub proof fn law_the_texts_are_sent_in_order(
    embedder: &Embedder,
    texts: &[String],
    r: Option<Json>,
    i: int,
)
    requires
        call_ensures(Embedder::request, (embedder, texts), r),
        0 <= i < texts@.len(),
    ensures
        r matches Some(body) && {
            &&& body@.text_member("model"@) == Some(embedder.model_view())
            &&& body@.uint_member("dimensions"@) == Some(embedder.dimensions_view() as u64)
            &&& body@.items_member("input"@) matches Some(sent) && {
                &&& sent.len() == texts@.len()
                &&& sent[i] matches JsonView::Text(part) && begins(texts@[i]@, part) && (if texts@[i]@.len()
                    <= 4000 {
                    part == texts@[i]@
                } else {
                    part.len() == 4000
                })
            }
        },
{
    reveal_strlit("model");
    reveal_strlit("input");
    reveal_strlit("dimensions");
    assert("model"@[0] == 'm' && "input"@[0] == 'i' && "dimensions"@[0] == 'd');
    let ms = r->0@->Object_0;
    json::lemma_member_at(ms, 0);
    json::lemma_member_at(ms, 1);
    json::lemma_member_at(ms, 2);
    assert(views(texts@)[i] == texts@[i]@);
    let part = clipped(texts@[i]@, 4000);
    assert(texts@[i]@.subrange(0, part.len() as int) =~= part);
}

/// What is kept of an embedder is what it was made with.
pub proof fn law_an_embedder_keeps_what_it_was_given(
    api_key: String,
    model: String,
    dimensions: usize,
    timeout_s: u64,
    e: Embedder,
    key: &str,
    name: &str,
    length: usize,
    seconds: u64,
)
    requires
        call_ensures(Embedder::new, (api_key, model, dimensions, timeout_s), e),
        call_ensures(Embedder::api_key, (&e,), key),
        call_ensures(Embedder::model, (&e,), name),
        call_ensures(Embedder::dimensions, (&e,), length),
        call_ensures(Embedder::timeout_s, (&e,), seconds),
    ensures
        key@ == api_key@,
        name@ == model@,
        length == dimensions,
        seconds == timeout_s,
{
}

/// Where every item has a vector of the right length, all are read.
proof fn lemma_all_read(list: Seq<JsonView>, dimensions: usize)
    requires
        forall|i: int|
            0 <= i < list.len() ==> ((#[trigger] list[i]).items_member("embedding"@) matches Some(
                numbers,
            ) && numbers.len() == dimensions),
    ensures
        read_items(list, dimensions) is Ok,
    decreases list.len(),
{
    if list.len() > 0 {
        assert forall|i: int| 0 <= i < list.len() - 1 implies ((
        #[trigger] list.drop_last()[i]).items_member("embedding"@) matches Some(numbers)
            && numbers.len() == dimensions) by {
            assert(list[i].items_member("embedding"@) is Some);
        }
        lemma_all_read(list.drop_last(), dimensions);
        assert(list[list.len() - 1].items_member("embedding"@) is Some);
    }
}

/// The vectors come out in the order of the texts, in whatever order the items of the reply stand:
/// the text at a position gets the vector of the item that names the position.
pub proof fn law_a_vector_goes_to_the_text_it_names(
    payload: &Json,
    dimensions: usize,
    count: usize,
    r: Result<Vec<Vec<Json>>, EmbedError>,
    list: Seq<JsonView>,
    at: Seq<int>,
    k: int,
)
    requires
        call_ensures(vectors, (payload, dimensions, count), r),
        payload@.items_member("data"@) == Some(list),
        list.len() == count,
        at.len() == count,
        forall|i: int|
            0 <= i < list.len() ==> ((#[trigger] list[i]).items_member("embedding"@) matches Some(
                numbers,
            ) && numbers.len() == dimensions),
        forall|i: int|
            0 <= i < count ==> 0 <= #[trigger] at[i] < count && list[at[i]].uint_member("index"@)
                == Some(i as u64),
        0 <= k < count,
    ensures
        r matches Ok(v) && v@.len() == count && Some(json_views(v@[k]@))
            == list[at[k]].items_member("embedding"@),
{
    lemma_all_read(list, dimensions);
    lemma_read_items(list, dimensions);
    let found = read_items(list, dimensions)->Ok_0;
    assert(every_position(found)) by {
        assert forall|i: int| 0 <= i < found.len() implies #[trigger] has_key(
            found,
            order_key(i as u64),
        ) by {
            assert(0 <= at[i] < count);
            assert(read_item(list[at[i]], dimensions) == Ok::<(u64, Seq<JsonView>), EmbedError>(
                found[at[i]],
            ));
            assert(found[at[i]].0 == order_key(i as u64));
        }
    }
    assert(0 <= at[k] < count);
    law_every_text_gets_its_vector(list, dimensions, at[k]);
    let v = r->Ok_0;
    assert(vector_views(v@).len() == v@.len());
    crate::rank::law_ranking_keeps_every_item(found);
    assert(vector_views(v@)[k] == json_views(v@[k]@));
    assert(list[at[k]].items_member("embedding"@) is Some);
}

/// A reply is refused that has no list, or an item without a vector or with one of another length,
/// or another number of items than texts. What is wrong is told.
pub proof fn law_a_faulty_reply_is_refused(
    payload: &Json,
    dimensions: usize,
    count: usize,
    r: Result<Vec<Vec<Json>>, EmbedError>,
)
    requires
        call_ensures(vectors, (payload, dimensions, count), r),
    ensures
        payload@.items_member("data"@) is None ==> r == Err::<Vec<Vec<Json>>, EmbedError>(
            EmbedError::NoData,
        ),
        payload@.items_member("data"@) matches Some(list) ==> {
            &&& list.len() > 0 && list[0].items_member("embedding"@) is None ==> r == Err::<
                Vec<Vec<Json>>,
                EmbedError,
            >(EmbedError::NoVector)
            &&& r is Ok ==> list.len() == count
            &&& r is Ok ==> forall|i: int|
                0 <= i < list.len() ==> ((#[trigger] list[i]).items_member("embedding"@) matches Some(
                    numbers,
                ) && numbers.len() == dimensions)
            &&& r matches Err(EmbedError::Count { asked, got }) ==> asked == count && got
                == list.len() && asked != got
            &&& r matches Err(EmbedError::Dimensions { got, expected }) ==> expected == dimensions
        },
{
    if let Some(list) = payload@.items_member("data"@) {
        if list.len() > 0 && list[0].items_member("embedding"@) is None {
            assert(list.take(0) =~= Seq::empty());
            lemma_read_items_fails(list, dimensions, 0);
        }
        if read_items(list, dimensions) is Ok {
            lemma_read_items(list, dimensions);
            assert forall|i: int| 0 <= i < list.len() implies ((#[trigger] list[i]).items_member(
                "embedding"@,
            ) matches Some(numbers) && numbers.len() == dimensions) by {
                assert(read_item(list[i], dimensions) is Ok);
            }
        } else {
            lemma_fault(list, dimensions);
        }
    }
}

/// What is wrong with a list is that an item has no vector, or one of another length.
proof fn lemma_fault(list: Seq<JsonView>, dimensions: usize)
    requires
        read_items(list, dimensions) is Err,
    ensures
        read_items(list, dimensions)->Err_0 == EmbedError::NoVector || (read_items(
            list,
            dimensions,
        )->Err_0 matches EmbedError::Dimensions { got, expected } && expected == dimensions),
    decreases list.len(),
{
    if list.len() > 0 && read_items(list.drop_last(), dimensions) is Err {
        lemma_fault(list.drop_last(), dimensions);
    }
}

/// A refusal is told with its status and the beginning of what came with it, and what cannot be
/// read is no reply.
pub proof fn law_a_refused_request_is_told(
    embedder: &Embedder,
    status: &str,
    success: bool,
    raw: &str,
    count: usize,
    r: Result<Vec<Vec<Json>>, EmbedError>,
)
    requires
        call_ensures(Embedder::embed, (embedder, status, success, raw, count), r),
    ensures
        !success ==> (r matches Err(EmbedError::Refused { status: s, head }) && s@ == status@
            && begins(raw@, head@) && head@.len() <= 200 && (raw@.len() <= 200 ==> head@ == raw@)),
        success ==> !(r matches Err(EmbedError::Refused { .. })),
        success ==> (json::read(raw@) is Err <==> r matches Err(EmbedError::NotJson(_))),
{
    let head = clipped(raw@, 200);
    assert(raw@.subrange(0, head.len() as int) =~= head);
    if let Ok(payload) = json::read(raw@) {
        if let Some(list) = payload.items_member("data"@) {
            if read_items(list, embedder.dimensions_view()) is Err {
                lemma_fault(list, embedder.dimensions_view());
            }
        }
    }
}

/// A table of vectors is dropped exactly where its vectors belong to another model or have another
/// length; then it is made, and it is noted whose vectors it holds.
pub proof fn law_a_table_is_made_ready<E: Embeddable>(
    current: &Option<(String, i64)>,
    model: &str,
    dimensions: i64,
    r: Vec<Statement>,
)
    requires
        call_ensures(ensure_table::<E>, (current, model, dimensions), r),
        0 <= dimensions,
    ensures
        2 <= r@.len() <= 3,
        r@.len() == 3 <==> (current matches Some((m, d)) && (m@ != model@ || *d != dimensions)),
        r@.len() == 3 ==> begins(r@[0].sql@, "DROP TABLE"@) && contains(r@[0].sql@, E::TABLE@),
        ({
            let made = r@[r@.len() - 2];
            &&& begins(made.sql@, "CREATE VIRTUAL TABLE IF NOT EXISTS "@ + E::TABLE@)
            &&& contains(made.sql@, E::KEY@)
            &&& contains(made.sql@, "float["@ + decimal(dimensions as nat) + "]"@)
            &&& made@.params.len() == 0
        }),
        r@.last()@.params == seq![
            ParamView::Text(E::TABLE@),
            ParamView::Text(model@),
            ParamView::Int(dimensions),
        ],
        begins(r@.last().sql@, "INSERT INTO embedding_meta (table_name, model, dimensions)"@),
{
    let s = crate::db::statement_views(r@);
    assert(s.len() == r@.len());
    assert(forall|i: int| 0 <= i < r@.len() ==> s[i] == (#[trigger] r@[i])@);
    let n = r@.len() as int;
    assert(r@[n - 1]@ == s[n - 1] && r@[n - 2]@ == s[n - 2]);
    assert(s[n - 1] == noting::<E>(model@, dimensions) && s[n - 2] == creating::<E>(dimensions));
    if n == 3 {
        assert(r@[0]@ == s[0]);
        lemma_dropping::<E>();
    }
    lemma_creating::<E>(dimensions);
    assert(s[n - 1].params =~= seq![
        ParamView::Text(E::TABLE@),
        ParamView::Text(model@),
        ParamView::Int(dimensions),
    ]);
    lemma_meta_upsert();
}

/// What can be read in the statement that drops a table of vectors.
proof fn lemma_dropping<E: Embeddable>()
    ensures
        begins(dropping::<E>().sql, "DROP TABLE"@),
        contains(dropping::<E>().sql, E::TABLE@),
{
    let head = "DROP TABLE IF EXISTS "@;
    assert(begins(head, "DROP TABLE"@)) by {
        reveal_strlit("DROP TABLE IF EXISTS ");
        reveal_strlit("DROP TABLE");
        assert(head.subrange(0, 10) =~= "DROP TABLE"@);
    }
    crate::text::lemma_parts(head, E::TABLE@, ";"@);
    lemma_grow(head, E::TABLE@, "DROP TABLE"@);
    lemma_grow(head + E::TABLE@, ";"@, "DROP TABLE"@);
}

/// What can be read in the statement that makes a table of vectors.
proof fn lemma_creating<E: Embeddable>(dimensions: i64)
    ensures
        begins(
            creating::<E>(dimensions).sql,
            "CREATE VIRTUAL TABLE IF NOT EXISTS "@ + E::TABLE@,
        ),
        contains(creating::<E>(dimensions).sql, E::KEY@),
        contains(
            creating::<E>(dimensions).sql,
            "float["@ + decimal(dimensions as nat) + "]"@,
        ),
{
    let a = "CREATE VIRTUAL TABLE IF NOT EXISTS "@ + E::TABLE@;
    let b = a + " USING vec0(\n           "@;
    let c = b + E::KEY@;
    let d = c + " INTEGER PRIMARY KEY,\n           embedding float["@;
    let e = d + decimal(dimensions as nat);
    let f = e + "] distance_metric=cosine);"@;
    lemma_added(a, " USING vec0(\n           "@);
    lemma_added(b, E::KEY@);
    lemma_grow(b, E::KEY@, a);
    lemma_grow(c, " INTEGER PRIMARY KEY,\n           embedding float["@, a);
    lemma_grow(c, " INTEGER PRIMARY KEY,\n           embedding float["@, E::KEY@);
    lemma_grow(d, decimal(dimensions as nat), a);
    lemma_grow(d, decimal(dimensions as nat), E::KEY@);
    lemma_grow(e, "] distance_metric=cosine);"@, a);
    lemma_grow(e, "] distance_metric=cosine);"@, E::KEY@);
    let front = " INTEGER PRIMARY KEY,\n           embedding "@;
    let back = " distance_metric=cosine);"@;
    assert(" INTEGER PRIMARY KEY,\n           embedding float["@ == front + "float["@
        && "] distance_metric=cosine);"@ == "]"@ + back) by {
        reveal_strlit(" INTEGER PRIMARY KEY,\n           embedding float[");
        reveal_strlit(" INTEGER PRIMARY KEY,\n           embedding ");
        reveal_strlit("float[");
        reveal_strlit("]");
        reveal_strlit("] distance_metric=cosine);");
        reveal_strlit(" distance_metric=cosine);");
        assert(" INTEGER PRIMARY KEY,\n           embedding float["@ =~= front + "float["@);
        assert("] distance_metric=cosine);"@ =~= "]"@ + back);
    }
    let declared = "float["@ + decimal(dimensions as nat) + "]"@;
    assert(f =~= (c + front) + declared + back);
    crate::text::lemma_parts(c + front, declared, back);
}

/// How the statement begins that notes whose vectors a table holds.
proof fn lemma_meta_upsert()
    ensures
        begins(META_UPSERT@, "INSERT INTO embedding_meta (table_name, model, dimensions)"@),
{
    reveal_strlit(
        "INSERT INTO embedding_meta (table_name, model, dimensions) VALUES (?1, ?2, ?3)\n         ON CONFLICT(table_name) DO UPDATE SET model = excluded.model, dimensions = excluded.dimensions",
    );
    reveal_strlit("INSERT INTO embedding_meta (table_name, model, dimensions)");
    let start = "INSERT INTO embedding_meta (table_name, model, dimensions)"@;
    assert(META_UPSERT@.subrange(0, start.len() as int) =~= start);
}

/// What waits to be embedded is read and counted alike: the rows of the source that the table of
/// vectors does not have. It is read with its text, the newest first, as many as are asked for.
pub proof fn law_what_waits_is_read_as_it_is_counted<E: Embeddable>(
    limit: i64,
    read: Statement,
    counted: Statement,
    rows: Seq<char>,
)
    requires
        call_ensures(pending::<E>, (limit,), read),
        call_ensures(count_pending::<E>, (), counted),
        rows == E::SOURCE@ + " WHERE rowid NOT IN (SELECT "@ + E::KEY@ + " FROM "@ + E::TABLE@ + ")"@,
    ensures
        contains(read.sql@, rows),
        ends(counted.sql@, rows),
        begins(read.sql@, "SELECT rowid, "@ + E::TEXT@ + " FROM "@),
        begins(counted.sql@, "SELECT count(*) FROM "@),
        ends(read.sql@, "ORDER BY rowid DESC LIMIT ?1"@),
        read@.params == seq![ParamView::Int(limit)],
        counted@.params.len() == 0,
{
    let a = "SELECT rowid, "@ + E::TEXT@ + " FROM "@;
    let tail = "\n         ORDER BY rowid DESC LIMIT ?1"@;
    crate::text::lemma_parts(a, rows, tail);
    lemma_added("SELECT count(*) FROM "@, rows);
    assert(read@.params =~= seq![ParamView::Int(limit)]);
    assert(ends(tail, "ORDER BY rowid DESC LIMIT ?1"@)) by {
        reveal_strlit("\n         ORDER BY rowid DESC LIMIT ?1");
        reveal_strlit("ORDER BY rowid DESC LIMIT ?1");
        assert(tail.skip(tail.len() - "ORDER BY rowid DESC LIMIT ?1"@.len())
            =~= "ORDER BY rowid DESC LIMIT ?1"@);
    }
    let order = "ORDER BY rowid DESC LIMIT ?1"@;
    let sql = read.sql@;
    assert(sql.skip(sql.len() - order.len()) =~= tail.skip(tail.len() - order.len()));
}

/// A vector is kept, discarded, looked for and read in the table of vectors, by the key of its row.
pub proof fn law_a_vector_is_reached_by_its_row<E: Embeddable>(
    rowid: i64,
    kept: Statement,
    gone: Statement,
    near: Statement,
    read: Statement,
)
    requires
        call_ensures(save::<E>, (), kept),
        call_ensures(invalidate::<E>, (rowid,), gone),
        call_ensures(nearest::<E>, (), near),
        call_ensures(vector_of::<E>, (rowid,), read),
    ensures
        begins(kept.sql@, "INSERT OR REPLACE INTO "@ + E::TABLE@),
        contains(kept.sql@, E::KEY@),
        kept@.params.len() == 0,
        begins(gone.sql@, "DELETE FROM "@ + E::TABLE@),
        ends(gone.sql@, E::KEY@ + " = ?1"@),
        gone@.params == seq![ParamView::Int(rowid)],
        begins(near.sql@, "SELECT "@ + E::KEY@),
        contains(near.sql@, E::TABLE@),
        ends(near.sql@, " WHERE embedding MATCH ?1 AND k = ?2 ORDER BY distance"@),
        near@.params.len() == 0,
        begins(read.sql@, "SELECT embedding FROM "@ + E::TABLE@),
        ends(read.sql@, E::KEY@ + " = ?1"@),
        read@.params == seq![ParamView::Int(rowid)],
{
    let t = E::TABLE@;
    let k = E::KEY@;
    let a = "INSERT OR REPLACE INTO "@ + t;
    crate::text::lemma_parts(a + "("@, k, ", embedding) VALUES (?1, ?2)"@);
    lemma_added(a, "("@);
    lemma_grow(a + "("@, k, a);
    lemma_grow(a + "("@ + k, ", embedding) VALUES (?1, ?2)"@, a);
    let b = "DELETE FROM "@ + t;
    lemma_added(b, " WHERE "@);
    lemma_added(b + " WHERE "@, k + " = ?1"@);
    lemma_grow(b + " WHERE "@, k + " = ?1"@, b);
    crate::text::lemma_grouped(b + " WHERE "@, k, " = ?1"@);
    let c = "SELECT "@ + k;
    lemma_added(c, " FROM "@);
    lemma_added(c + " FROM "@, t);
    lemma_grow(c + " FROM "@, t, c);
    let tail = " WHERE embedding MATCH ?1 AND k = ?2 ORDER BY distance"@;
    lemma_added(c + " FROM "@ + t, tail);
    lemma_grow(c + " FROM "@ + t, tail, c);
    lemma_grow(c + " FROM "@ + t, tail, t);
    let d = "SELECT embedding FROM "@ + t;
    lemma_added(d, " WHERE "@);
    lemma_added(d + " WHERE "@, k + " = ?1"@);
    lemma_grow(d + " WHERE "@, k + " = ?1"@, d);
    crate::text::lemma_grouped(d + " WHERE "@, k, " = ?1"@);
    assert(gone@.params =~= seq![ParamView::Int(rowid)]);
    assert(read@.params =~= seq![ParamView::Int(rowid)]);
}

/// Where no candidate has a score there is nothing to go by; else as many come out as there are, up
/// to the limit.
pub proof fn law_ranking_by_meaning_needs_a_score<T>(
    candidates: Vec<(Option<u64>, T)>,
    limit: usize,
    r: Vec<T>,
)
    requires
        call_ensures(rank::<T>, (candidates, limit), r),
    ensures
        (forall|i: int| 0 <= i < candidates@.len() ==> (#[trigger] candidates@[i]).0 is None)
            ==> r@.len() == 0,
        (exists|i: int| 0 <= i < candidates@.len() && (#[trigger] candidates@[i]).0 is Some)
            ==> r@.len() == (if candidates@.len() <= limit {
            candidates@.len()
        } else {
            limit as nat
        }),
{
    let s = candidates@;
    lemma_parts(s);
    crate::rank::law_ranking_keeps_every_item(with_scores(s));
    lemma_any_score(s);
}

/// Whether any candidate has a score.
proof fn lemma_any_score<T>(s: Seq<(Option<u64>, T)>)
    ensures
        with_scores(s).len() == 0 <==> forall|i: int|
            0 <= i < s.len() ==> (#[trigger] s[i]).0 is None,
    decreases s.len(),
{
    if s.len() > 0 {
        let t = s.drop_last();
        lemma_any_score(t);
        if with_scores(s).len() == 0 {
            assert forall|i: int| 0 <= i < s.len() implies (#[trigger] s[i]).0 is None by {
                if i < s.len() - 1 {
                    assert(t[i].0 is None);
                }
            }
        } else if s.last().0 is None {
            let i = choose|i: int| 0 <= i < t.len() && !((#[trigger] t[i]).0 is None);
            assert(s[i].0 is Some);
        } else {
            assert(s[s.len() - 1].0 is Some);
        }
    }
}

/// Candidates that all have a score come out with the best first, each of them once.
pub proof fn law_the_nearest_come_first<T>(
    candidates: Vec<(Option<u64>, T)>,
    limit: usize,
    r: Vec<T>,
    scored: Seq<(u64, T)>,
)
    requires
        call_ensures(rank::<T>, (candidates, limit), r),
        0 < candidates@.len() <= limit,
        scored.len() == candidates@.len(),
        forall|i: int|
            0 <= i < scored.len() ==> candidates@[i] == (Some((#[trigger] scored[i]).0), scored[i].1),
    ensures
        exists|order: Seq<(u64, T)>| #[trigger]
            descending(order) && order.to_multiset() == scored.to_multiset() && r@ == items(order),
{
    lemma_all_scored(candidates@, scored);
    crate::rank::law_ranking_keeps_every_item(scored);
    crate::rank::law_the_best_come_first(scored);
    assert(items(ranked(scored)) + Seq::<T>::empty() =~= items(ranked(scored)));
    assert(descending(ranked(scored)));
}

/// Where all candidates have a score, the scored ones are all of them.
proof fn lemma_all_scored<T>(s: Seq<(Option<u64>, T)>, scored: Seq<(u64, T)>)
    requires
        scored.len() == s.len(),
        forall|i: int|
            0 <= i < scored.len() ==> s[i] == (Some((#[trigger] scored[i]).0), scored[i].1),
    ensures
        with_scores(s) == scored,
        without_scores(s) == Seq::<T>::empty(),
    decreases s.len(),
{
    if s.len() > 0 {
        assert(s[s.len() - 1] == (Some(scored[s.len() - 1].0), scored[s.len() - 1].1));
        assert forall|i: int| 0 <= i < scored.drop_last().len() implies s.drop_last()[i] == (
            Some((#[trigger] scored.drop_last()[i]).0),
            scored.drop_last()[i].1,
        ) by {
            assert(s[i] == (Some(scored[i].0), scored[i].1));
        }
        lemma_all_scored(s.drop_last(), scored.drop_last());
        assert(scored =~= scored.drop_last().push(scored.last()));
    } else {
        assert(with_scores(s) =~= scored);
    }
}

/// A candidate without a score comes behind all that came before it.
pub proof fn law_what_has_no_score_comes_last<T>(
    candidates: Vec<(Option<u64>, T)>,
    more: Vec<(Option<u64>, T)>,
    item: T,
    limit: usize,
    a: Vec<T>,
    b: Vec<T>,
)
    requires
        call_ensures(rank::<T>, (candidates, limit), a),
        call_ensures(rank::<T>, (more, limit), b),
        more@ == candidates@.push((None, item)),
        candidates@.len() < limit,
        a@.len() > 0,
    ensures
        b@ == a@.push(item),
{
    assert(more@.drop_last() =~= candidates@);
    assert(more@.last().0 is None);
    let front = items(ranked(with_scores(candidates@)));
    lemma_parts(candidates@);
    crate::rank::law_ranking_keeps_every_item(with_scores(candidates@));
    assert(front + without_scores(candidates@).push(item) =~= (front + without_scores(
        candidates@,
    )).push(item));
}

/// What failed can be read in the message.
pub proof fn law_a_fault_is_told(e: &EmbedError, r: String)
    requires
        call_ensures(EmbedError::message, (e,), r),
    ensures
        *e matches EmbedError::Refused { status, head } ==> contains(r@, status@) && ends(r@, head@),
        *e matches EmbedError::NotJson(complaint) ==> ends(r@, complaint@),
        *e matches EmbedError::Dimensions { got, expected } ==> contains(r@, decimal(got as nat))
            && ends(r@, decimal(expected as nat)),
        *e matches EmbedError::Count { asked, got } ==> contains(r@, decimal(asked as nat)) && ends(
            r@,
            decimal(got as nat),
        ),
{
    match e {
        EmbedError::Refused { status, head } => {
            let s = "OpenRouter embeddings "@ + status@;
            lemma_added("OpenRouter embeddings "@, status@);
            lemma_grow(s, ": "@, status@);
            lemma_added(s + ": "@, head@);
            lemma_grow(s + ": "@, head@, status@);
        },
        EmbedError::NotJson(complaint) => {
            lemma_added("decoding embeddings response: "@, complaint@);
        },
        EmbedError::Dimensions { got, expected } => {
            let s = "model returned "@ + decimal(*got as nat);
            lemma_added("model returned "@, decimal(*got as nat));
            lemma_grow(s, " dimensions, expected "@, decimal(*got as nat));
            let t = s + " dimensions, expected "@;
            lemma_added(t, decimal(*expected as nat));
            lemma_grow(t, decimal(*expected as nat), decimal(*got as nat));
        },
        EmbedError::Count { asked, got } => {
            let s = "asked for "@ + decimal(*asked as nat);
            lemma_added("asked for "@, decimal(*asked as nat));
            lemma_grow(s, " embeddings, got "@, decimal(*asked as nat));
            let t = s + " embeddings, got "@;
            lemma_added(t, decimal(*got as nat));
            lemma_grow(t, decimal(*got as nat), decimal(*asked as nat));
        },
        _ => {},
    }
}

/// The backlog rests less after a pass that found work than after one that found none.
pub proof fn law_work_is_gone_on_with_soon(after_work: u64, idle: u64)
    requires
        call_ensures(rest_s, (true,), after_work),
        call_ensures(rest_s, (false,), idle),
    ensures
        0 < after_work < idle <= 60,
{
}

} // verus!
