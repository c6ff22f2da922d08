//! The tools that the model is offered: how they are described, what a call asks for, and how what
//! came of it is put to the model.
use vstd::prelude::*;
use vstd::string::StringExecFns;

use crate::cron::{judged, with_seconds, Job, JobError, JobView};
use crate::definitions::{definition, tool_definitions};
use crate::exec::Output;
use crate::json::{self, json_views, members, no_items, no_members, object, with, Json, JsonView};
use crate::llm::optional_string;
use crate::memory::Record;
use crate::messages::Archived;
use crate::outside::{
    cron_complaint, known_zone, page_text, page_text_of, scheme_of, text_of, url_scheme,
};
use crate::page::{is_plain, plain_page};
use crate::query::{loose, loose_text};
use crate::text::{
    begins, contains, decimal, decimal_of, ends, from_utf8_lossy, join, joined,
    law_joining_goes_part_by_part, lemma_added, lemma_contains_within, lemma_grouped, lemma_grow,
    lemma_joined_holds, lemma_parts, lossy,
    owned, same, signed_decimal, signed_decimal_of, trim, trimmed, views,
};
use crate::truncated;
use crate::workspace::Edit;

pub use crate::definitions::definitions;

verus! {

/// What came of a tool call.
pub enum Outcome {
    Text(String),
    Image { bytes: Vec<u8>, media_type: String, caption: String },
}

/// What the model is told of an outcome.
pub open spec fn told(outcome: Outcome) -> Seq<char> {
    match outcome {
        Outcome::Text(t) => t@,
        Outcome::Image { bytes, media_type, caption } => "Image generated and sent to the room: "@
            + caption@,
    }
}

impl Outcome {
    /// What the model is told of the outcome.
    pub fn for_model(&self) -> (r: String)
        ensures
            r@ == told(*self),
    {
        match self {
            Outcome::Text(t) => t.clone(),
            Outcome::Image { bytes: _, media_type: _, caption } => {
                let mut out = owned("Image generated and sent to the room: ");
                out.append(caption.as_str());
                out
            },
        }
    }
}

// ---------------------------------------------------------------------------------------------
// What a call asks for
// ---------------------------------------------------------------------------------------------

/// What the tools need to know beyond the arguments of a call.
pub struct Tools {
    /// The key for web search.
    pub exa_key: Option<String>,
    /// The zone of jobs that do not name one.
    pub timezone: String,
    /// How much of a page is taken in, in bytes.
    pub max_response_bytes: usize,
}

/// Where a call is made.
pub struct Ctx<'a> {
    pub room_id: &'a str,
    /// Whether the room has a database.
    pub database: bool,
    /// What is wrong with the workspace of the room, where anything is.
    pub workspace: Option<String>,
    /// Whether messages can be sent to the room before the turn ends.
    pub progress: bool,
}

/// What a call asks the program to do.
pub enum Request {
    /// Recall notes. The text, where there is any, is embedded first.
    Recall { query: String, embed: Option<String>, limit: usize },
    /// Write a note.
    Store { key: String, content: String, category: String },
    /// Delete a note.
    Forget { key: String },
    /// Search the archive. The text, where there is any, is embedded first.
    SearchMessages { query: String, embed: Option<String>, limit: usize },
    /// Run a free query.
    Sql { query: String, limit: usize },
    /// Send a message to the room.
    Send { text: String },
    /// Search the web.
    WebSearch { query: String, key: String, body: Json },
    /// Fetch a page.
    WebFetch { url: String },
    /// Have an image made.
    GenerateImage { prompt: String, model: Option<String> },
    /// Run a script.
    Bash { script: String },
    /// Write a file.
    WriteFile { path: String, content: String },
    /// Edit a file.
    EditFile { path: String, edits: Vec<Edit> },
    /// Write a job.
    CronCreate { job: Job },
    /// Delete a job.
    CronDelete { name: String },
}

/// What to do about a call.
pub enum Plan {
    Perform(Request),
    Answer(Outcome),
}

/// Why a call cannot be carried out.
#[derive(Debug)]
pub enum ToolError {
    Unknown(String),
    Missing(String),
    NoDatabase(String),
    Workspace(String),
    NoExaKey,
    Job(JobError),
    /// A URL that is none.
    BadUrl(String),
    BadScheme,
    Unresolved(String),
    /// An address that is not public, as it is written.
    NotPublic(String),
    TooLarge(usize),
    /// The reply of the web search is no JSON: the complaint.
    BadReply(String),
}

impl ToolError {
    /// How the error reads.
    pub open spec fn words(self) -> Seq<char> {
        match self {
            ToolError::Unknown(name) => "unknown tool '"@ + name@ + "'"@,
            ToolError::Missing(key) => "missing required argument '"@ + key@ + "'"@,
            ToolError::NoDatabase(room_id) => "no database for room "@ + room_id@,
            ToolError::Workspace(complaint) => complaint@,
            ToolError::NoExaKey => "web search is unavailable: EXA_API_KEY is not set"@,
            ToolError::Job(e) => e.words(),
            ToolError::BadUrl(complaint) => "invalid URL: "@ + complaint@,
            ToolError::BadScheme => "only http and https are permitted"@,
            ToolError::Unresolved(complaint) => "resolving the host: "@ + complaint@,
            ToolError::NotPublic(address) => "that host resolves to "@ + address@
                + ", which is not public"@,
            ToolError::TooLarge(cap) => "response over the "@ + decimal(cap as nat)
                + " byte cap"@,
            ToolError::BadReply(complaint) =>
                "decoding Exa response: error decoding response body: "@ + complaint@,
        }
    }

    /// How the error reads.
    pub fn message(&self) -> (r: String)
        ensures
            r@ == self.words(),
    {
        match self {
            ToolError::Unknown(name) => {
                let mut out = owned("unknown tool '");
                out.append(name.as_str());
                out.append("'");
                out
            },
            ToolError::Missing(key) => {
                let mut out = owned("missing required argument '");
                out.append(key.as_str());
                out.append("'");
                out
            },
            ToolError::NoDatabase(room_id) => {
                let mut out = owned("no database for room ");
                out.append(room_id.as_str());
                out
            },
            ToolError::Workspace(complaint) => complaint.clone(),
            ToolError::NoExaKey => owned("web search is unavailable: EXA_API_KEY is not set"),
            ToolError::Job(e) => e.message(),
            ToolError::BadUrl(complaint) => {
                let mut out = owned("invalid URL: ");
                out.append(complaint.as_str());
                out
            },
            ToolError::BadScheme => owned("only http and https are permitted"),
            ToolError::Unresolved(complaint) => {
                let mut out = owned("resolving the host: ");
                out.append(complaint.as_str());
                out
            },
            ToolError::NotPublic(address) => {
                let mut out = owned("that host resolves to ");
                out.append(address.as_str());
                out.append(", which is not public");
                out
            },
            ToolError::TooLarge(cap) => {
                let mut out = owned("response over the ");
                out.append(decimal_of(*cap as u64).as_str());
                out.append(" byte cap");
                out
            },
            ToolError::BadReply(complaint) => {
                let mut out = owned("decoding Exa response: error decoding response body: ");
                out.append(complaint.as_str());
                out
            },
        }
    }
}

/// What the model is told of a call that failed.
pub open spec fn failure(name: Seq<char>, message: Seq<char>) -> Seq<char> {
    "Error from "@ + name + ": "@ + message
}

/// Tells the model of a call that failed.
pub fn failed(name: &str, message: &str) -> (r: Outcome)
    ensures
        r matches Outcome::Text(t) && t@ == failure(name@, message@),
{
    let mut out = owned("Error from ");
    out.append(name);
    out.append(": ");
    out.append(message);
    Outcome::Text(out)
}

/// A number that is kept between bounds.
pub open spec fn clamped(n: u64, max: u64) -> u64 {
    if n < 1 {
        1
    } else if n > max {
        max
    } else {
        n
    }
}

/// The number that an argument gives, or else the default, kept between one and `max`.
pub open spec fn count_arg(args: JsonView, key: Seq<char>, default: u64, max: u64) -> u64 {
    clamped(
        match args.uint_member(key) {
            Some(n) => n,
            None => default,
        },
        max,
    )
}

/// Reads the number that an argument gives, or else the default, kept between one and `max`.
fn count_of(args: &Json, key: &str, default: u64, max: u64) -> (r: u64)
    requires
        1 <= max,
    ensures
        r == count_arg(args@, key@, default, max),
        1 <= r <= max,
{
    let n: u64 = match args.u64_at(key) {
        Some(n) => n,
        None => default,
    };
    if n < 1 {
        1
    } else if n > max {
        max
    } else {
        n
    }
}

/// How many results a call asks for.
pub fn limit(args: &Json, default: u64, max: u64) -> (r: usize)
    requires
        1 <= max <= usize::MAX,
    ensures
        r == count_arg(args@, "limit"@, default, max),
{
    count_of(args, "limit", default, max) as usize
}

/// Reads an argument that has to be given.
pub fn str_arg(args: &Json, key: &str) -> (r: Result<String, ToolError>)
    ensures
        match r {
            Ok(s) => args@.text_member(key@) == Some(s@),
            Err(e) => args@.text_member(key@) is None && (e matches ToolError::Missing(k) && k@
                == key@),
        },
{
    match args.str_at(key) {
        Some(s) => Ok(owned(s)),
        None => Err(ToolError::Missing(owned(key))),
    }
}

/// The text to embed for a query, where there is any outside quotes.
pub open spec fn embedded(query: Seq<char>) -> Option<Seq<char>> {
    if loose(query).len() == 0 {
        None
    } else {
        Some(loose(query))
    }
}

/// The text to embed for a query, where there is any outside quotes.
pub fn embed_loose(query: &str) -> (r: Option<String>)
    ensures
        optional_string(r) == embedded(query@),
{
    let text = loose_text(query);
    if text.as_str().unicode_len() == 0 {
        None
    } else {
        Some(text)
    }
}

/// What an edit holds.
pub open spec fn edit_view(e: Edit) -> (Seq<char>, Seq<char>) {
    (e.old@, e.new@)
}

/// What the edits of a list hold.
pub open spec fn edit_views(v: Seq<Edit>) -> Seq<(Seq<char>, Seq<char>)> {
    Seq::new(v.len(), |i: int| edit_view(v[i]))
}

/// What is missing in the arguments of an edit.
pub open spec fn edit_lacks(e: JsonView) -> Option<Seq<char>> {
    if e.text_member("old_text"@) is None {
        Some("old_text"@)
    } else if e.text_member("new_text"@) is None {
        Some("new_text"@)
    } else {
        None
    }
}

/// What is missing in the arguments of the first edit where anything is.
pub open spec fn edits_lack(es: Seq<JsonView>) -> Option<Seq<char>>
    decreases es.len(),
{
    if es.len() == 0 {
        None
    } else {
        match edits_lack(es.drop_last()) {
            Some(key) => Some(key),
            None => edit_lacks(es.last()),
        }
    }
}

/// The edits that arguments give.
pub open spec fn edits_in(es: Seq<JsonView>) -> Seq<(Seq<char>, Seq<char>)> {
    Seq::new(
        es.len(),
        |i: int| (es[i].text_member("old_text"@)->0, es[i].text_member("new_text"@)->0),
    )
}

/// What is missing in one edit is missing in the list, where nothing before it is.
proof fn lemma_edits_lack(es: Seq<JsonView>, i: int)
    requires
        0 <= i < es.len(),
        edits_lack(es.take(i)) is None,
        edit_lacks(es[i]) is Some,
    ensures
        edits_lack(es) == edit_lacks(es[i]),
    decreases es.len(),
{
    if i < es.len() - 1 {
        assert(es.drop_last().take(i) =~= es.take(i));
        lemma_edits_lack(es.drop_last(), i);
    } else {
        assert(es.drop_last() =~= es.take(i));
    }
}

/// Reads the edits that arguments give.
fn read_edits(list: &Vec<Json>) -> (r: Result<Vec<Edit>, ToolError>)
    ensures
        match r {
            Ok(edits) => edits_lack(json_views(list@)) is None && edit_views(edits@) == edits_in(
                json_views(list@),
            ),
            Err(e) => e matches ToolError::Missing(k) && edits_lack(json_views(list@)) == Some(k@),
        },
{
    let ghost all = json_views(list@);
    let mut out: Vec<Edit> = Vec::new();
    assert(all.take(0) =~= Seq::empty());
    for i in 0..list.len()
        invariant
            all == json_views(list@),
            edits_lack(all.take(i as int)) is None,
            edit_views(out@) == edits_in(all).take(i as int),
    {
        let item = &list[i];
        assert(all[i as int] == item@);
        assert(all.take(i + 1).drop_last() =~= all.take(i as int));
        assert(all.take(i + 1).last() == item@);
        let old = match str_arg(item, "old_text") {
            Ok(s) => s,
            Err(e) => {
                proof {
                    lemma_edits_lack(all, i as int);
                }
                return Err(e);
            },
        };
        let new = match str_arg(item, "new_text") {
            Ok(s) => s,
            Err(e) => {
                proof {
                    lemma_edits_lack(all, i as int);
                }
                return Err(e);
            },
        };
        let ghost before = edit_views(out@);
        out.push(Edit { old, new });
        assert(edit_views(out@) =~= before.push((old@, new@)));
        assert(edits_in(all).take(i + 1) =~= before.push((old@, new@)));
    }
    assert(all.take(list@.len() as int) =~= all);
    assert(edits_in(all).take(list@.len() as int) =~= edits_in(all));
    Ok(out)
}

/// What is sent to the search engine.
pub open spec fn exa_request(query: Seq<char>, n: u64) -> JsonView {
    JsonView::Object(
        no_members().push(("query"@, JsonView::Text(query))).push(
            ("numResults"@, json::uint_view(n)),
        ).push(
            (
                "contents"@,
                JsonView::Object(
                    no_members().push(
                        (
                            "text"@,
                            JsonView::Object(
                                no_members().push(("maxCharacters"@, json::uint_view(1200))),
                            ),
                        ),
                    ),
                ),
            ),
        ),
    )
}

/// Where the web is searched.
pub const EXA_URL: &'static str = "https://api.exa.ai/search";

/// What is sent to the search engine.
fn exa_body(query: &str, n: u64) -> (r: Json)
    ensures
        r@ == exa_request(query@, n),
{
    let text = object(with(members(), "maxCharacters", json::uint(1200)));
    let mut ms = with(members(), "query", json::text(query));
    ms = with(ms, "numResults", json::uint(n));
    ms = with(ms, "contents", object(with(members(), "text", text)));
    object(ms)
}

// ---------------------------------------------------------------------------------------------
// Planning, tool by tool
// ---------------------------------------------------------------------------------------------

/// Whether a plan fails for want of an argument.
pub open spec fn lacks(r: Result<Plan, ToolError>, key: Seq<char>) -> bool {
    r matches Err(ToolError::Missing(k)) && k@ == key
}

/// Whether a plan fails for want of a database.
pub open spec fn lacks_database(r: Result<Plan, ToolError>, room_id: Seq<char>) -> bool {
    r matches Err(ToolError::NoDatabase(id)) && id@ == room_id
}

/// What `memory_recall` comes to.
pub open spec fn memory_recall_plan(args: JsonView, ctx: Ctx, r: Result<Plan, ToolError>) -> bool {
    match args.text_member("query"@) {
        None => lacks(r, "query"@),
        Some(q) => if !ctx.database {
            lacks_database(r, ctx.room_id@)
        } else {
            r matches Ok(Plan::Perform(Request::Recall { query, embed, limit })) && query@ == q
                && optional_string(embed) == embedded(q) && limit == count_arg(
                args,
                "limit"@,
                8,
                25,
            )
        },
    }
}

/// Plans `memory_recall`.
fn memory_recall(args: &Json, ctx: &Ctx) -> (r: Result<Plan, ToolError>)
    ensures
        memory_recall_plan(args@, *ctx, r),
{
    let query = match str_arg(args, "query") {
        Ok(q) => q,
        Err(e) => {
            return Err(e);
        },
    };
    if !ctx.database {
        return Err(ToolError::NoDatabase(owned(ctx.room_id)));
    }
    let embed = embed_loose(query.as_str());
    Ok(Plan::Perform(Request::Recall { query, embed, limit: limit(args, 8, 25) }))
}

/// What `memory_store` comes to.
pub open spec fn memory_store_plan(args: JsonView, ctx: Ctx, r: Result<Plan, ToolError>) -> bool {
    match args.text_member("key"@) {
        None => lacks(r, "key"@),
        Some(k) => if !ctx.database {
            lacks_database(r, ctx.room_id@)
        } else {
            match args.text_member("content"@) {
                None => lacks(r, "content"@),
                Some(c) => r matches Ok(Plan::Perform(Request::Store { key, content, category }))
                    && key@ == k && content@ == c && category@ == (match args.text_member(
                    "category"@,
                ) {
                    Some(kind) => kind,
                    None => "core"@,
                }),
            }
        },
    }
}

/// Plans `memory_store`.
fn memory_store(args: &Json, ctx: &Ctx) -> (r: Result<Plan, ToolError>)
    ensures
        memory_store_plan(args@, *ctx, r),
{
    let key = match str_arg(args, "key") {
        Ok(k) => k,
        Err(e) => {
            return Err(e);
        },
    };
    if !ctx.database {
        return Err(ToolError::NoDatabase(owned(ctx.room_id)));
    }
    let content = match str_arg(args, "content") {
        Ok(c) => c,
        Err(e) => {
            return Err(e);
        },
    };
    let category = match args.str_at("category") {
        Some(kind) => owned(kind),
        None => owned("core"),
    };
    Ok(Plan::Perform(Request::Store { key, content, category }))
}

/// What `memory_forget` comes to.
pub open spec fn memory_forget_plan(args: JsonView, ctx: Ctx, r: Result<Plan, ToolError>) -> bool {
    match args.text_member("key"@) {
        None => lacks(r, "key"@),
        Some(k) => if !ctx.database {
            lacks_database(r, ctx.room_id@)
        } else {
            r matches Ok(Plan::Perform(Request::Forget { key })) && key@ == k
        },
    }
}

/// Plans `memory_forget`.
fn memory_forget(args: &Json, ctx: &Ctx) -> (r: Result<Plan, ToolError>)
    ensures
        memory_forget_plan(args@, *ctx, r),
{
    let key = match str_arg(args, "key") {
        Ok(k) => k,
        Err(e) => {
            return Err(e);
        },
    };
    if !ctx.database {
        return Err(ToolError::NoDatabase(owned(ctx.room_id)));
    }
    Ok(Plan::Perform(Request::Forget { key }))
}

/// What `search_messages` comes to.
pub open spec fn search_messages_plan(args: JsonView, ctx: Ctx, r: Result<Plan, ToolError>) -> bool {
    match args.text_member("query"@) {
        None => lacks(r, "query"@),
        Some(q) => if !ctx.database {
            lacks_database(r, ctx.room_id@)
        } else {
            r matches Ok(Plan::Perform(Request::SearchMessages { query, embed, limit })) && query@
                == q && optional_string(embed) == embedded(q) && limit == count_arg(
                args,
                "limit"@,
                8,
                30,
            )
        },
    }
}

/// Plans `search_messages`.
fn search_messages(args: &Json, ctx: &Ctx) -> (r: Result<Plan, ToolError>)
    ensures
        search_messages_plan(args@, *ctx, r),
{
    let query = match str_arg(args, "query") {
        Ok(q) => q,
        Err(e) => {
            return Err(e);
        },
    };
    if !ctx.database {
        return Err(ToolError::NoDatabase(owned(ctx.room_id)));
    }
    let embed = embed_loose(query.as_str());
    Ok(Plan::Perform(Request::SearchMessages { query, embed, limit: limit(args, 8, 30) }))
}

/// What `sql_query` comes to.
pub open spec fn sql_query_plan(args: JsonView, ctx: Ctx, r: Result<Plan, ToolError>) -> bool {
    match args.text_member("query"@) {
        None => lacks(r, "query"@),
        Some(q) => if !ctx.database {
            lacks_database(r, ctx.room_id@)
        } else {
            r matches Ok(Plan::Perform(Request::Sql { query, limit })) && query@ == q && limit
                == count_arg(args, "limit"@, 50, 500)
        },
    }
}

/// Plans `sql_query`.
fn sql_query(args: &Json, ctx: &Ctx) -> (r: Result<Plan, ToolError>)
    ensures
        sql_query_plan(args@, *ctx, r),
{
    let query = match str_arg(args, "query") {
        Ok(q) => q,
        Err(e) => {
            return Err(e);
        },
    };
    if !ctx.database {
        return Err(ToolError::NoDatabase(owned(ctx.room_id)));
    }
    Ok(Plan::Perform(Request::Sql { query, limit: limit(args, 50, 500) }))
}

/// What `send_message` comes to.
pub open spec fn send_message_plan(args: JsonView, ctx: Ctx, r: Result<Plan, ToolError>) -> bool {
    match args.text_member("text"@) {
        None => lacks(r, "text"@),
        Some(t) => if ctx.progress {
            r matches Ok(Plan::Perform(Request::Send { text })) && text@ == t
        } else {
            r matches Ok(Plan::Answer(Outcome::Text(answer))) && answer@
                == "There is no room to send to from here."@
        },
    }
}

/// Plans `send_message`.
fn send_message(args: &Json, ctx: &Ctx) -> (r: Result<Plan, ToolError>)
    ensures
        send_message_plan(args@, *ctx, r),
{
    let text = match str_arg(args, "text") {
        Ok(t) => t,
        Err(e) => {
            return Err(e);
        },
    };
    if ctx.progress {
        Ok(Plan::Perform(Request::Send { text }))
    } else {
        Ok(Plan::Answer(Outcome::Text(owned("There is no room to send to from here."))))
    }
}

/// What `web_search` comes to.
pub open spec fn web_search_plan(
    args: JsonView,
    exa_key: Option<String>,
    r: Result<Plan, ToolError>,
) -> bool {
    match args.text_member("query"@) {
        None => lacks(r, "query"@),
        Some(q) => match exa_key {
            None => r matches Err(ToolError::NoExaKey),
            Some(k) => r matches Ok(Plan::Perform(Request::WebSearch { query, key, body }))
                && query@ == q && key@ == k@ && body@ == exa_request(
                q,
                count_arg(args, "num_results"@, 5, 10),
            ),
        },
    }
}

/// What `web_fetch` comes to.
pub open spec fn web_fetch_plan(args: JsonView, r: Result<Plan, ToolError>) -> bool {
    match args.text_member("url"@) {
        None => lacks(r, "url"@),
        Some(u) => r matches Ok(Plan::Perform(Request::WebFetch { url })) && url@ == u,
    }
}

/// Plans `web_fetch`.
fn web_fetch(args: &Json) -> (r: Result<Plan, ToolError>)
    ensures
        web_fetch_plan(args@, r),
{
    match str_arg(args, "url") {
        Ok(url) => Ok(Plan::Perform(Request::WebFetch { url })),
        Err(e) => Err(e),
    }
}

/// What `generate_image` comes to.
pub open spec fn generate_image_plan(args: JsonView, r: Result<Plan, ToolError>) -> bool {
    match args.text_member("prompt"@) {
        None => lacks(r, "prompt"@),
        Some(p) => r matches Ok(Plan::Perform(Request::GenerateImage { prompt, model })) && prompt@
            == p && optional_string(model) == args.text_member("model"@),
    }
}

/// Plans `generate_image`.
fn generate_image(args: &Json) -> (r: Result<Plan, ToolError>)
    ensures
        generate_image_plan(args@, r),
{
    let prompt = match str_arg(args, "prompt") {
        Ok(p) => p,
        Err(e) => {
            return Err(e);
        },
    };
    let model = match args.str_at("model") {
        Some(m) => Some(owned(m)),
        None => None,
    };
    Ok(Plan::Perform(Request::GenerateImage { prompt, model }))
}

/// What `bash` comes to.
pub open spec fn bash_plan(args: JsonView, r: Result<Plan, ToolError>) -> bool {
    match args.text_member("script"@) {
        None => lacks(r, "script"@),
        Some(s) => r matches Ok(Plan::Perform(Request::Bash { script })) && script@ == s,
    }
}

/// Plans `bash`.
fn bash(args: &Json) -> (r: Result<Plan, ToolError>)
    ensures
        bash_plan(args@, r),
{
    match str_arg(args, "script") {
        Ok(script) => Ok(Plan::Perform(Request::Bash { script })),
        Err(e) => Err(e),
    }
}

/// What `write_file` comes to.
pub open spec fn write_file_plan(args: JsonView, ctx: Ctx, r: Result<Plan, ToolError>) -> bool {
    match ctx.workspace {
        Some(complaint) => r matches Err(ToolError::Workspace(c)) && c@ == complaint@,
        None => match args.text_member("path"@) {
            None => lacks(r, "path"@),
            Some(p) => match args.text_member("content"@) {
                None => lacks(r, "content"@),
                Some(c) => r matches Ok(Plan::Perform(Request::WriteFile { path, content }))
                    && path@ == p && content@ == c,
            },
        },
    }
}

/// Plans `write_file`.
fn write_file(args: &Json, ctx: &Ctx) -> (r: Result<Plan, ToolError>)
    ensures
        write_file_plan(args@, *ctx, r),
{
    match &ctx.workspace {
        Some(complaint) => {
            return Err(ToolError::Workspace(complaint.clone()));
        },
        None => {},
    }
    let path = match str_arg(args, "path") {
        Ok(p) => p,
        Err(e) => {
            return Err(e);
        },
    };
    let content = match str_arg(args, "content") {
        Ok(c) => c,
        Err(e) => {
            return Err(e);
        },
    };
    Ok(Plan::Perform(Request::WriteFile { path, content }))
}

/// What `edit_file` comes to.
pub open spec fn edit_file_plan(args: JsonView, ctx: Ctx, r: Result<Plan, ToolError>) -> bool {
    match args.items_member("edits"@) {
        None => lacks(r, "edits"@),
        Some(es) => match edits_lack(es) {
            Some(key) => lacks(r, key),
            None => match ctx.workspace {
                Some(complaint) => r matches Err(ToolError::Workspace(c)) && c@ == complaint@,
                None => match args.text_member("path"@) {
                    None => lacks(r, "path"@),
                    Some(p) => r matches Ok(Plan::Perform(Request::EditFile { path, edits }))
                        && path@ == p && edit_views(edits@) == edits_in(es),
                },
            },
        },
    }
}

/// Plans `edit_file`.
fn edit_file(args: &Json, ctx: &Ctx) -> (r: Result<Plan, ToolError>)
    ensures
        edit_file_plan(args@, *ctx, r),
{
    let list = match args.array_at("edits") {
        Some(list) => list,
        None => {
            return Err(ToolError::Missing(owned("edits")));
        },
    };
    let edits = match read_edits(list) {
        Ok(edits) => edits,
        Err(e) => {
            return Err(e);
        },
    };
    match &ctx.workspace {
        Some(complaint) => {
            return Err(ToolError::Workspace(complaint.clone()));
        },
        None => {},
    }
    let path = match str_arg(args, "path") {
        Ok(p) => p,
        Err(e) => {
            return Err(e);
        },
    };
    Ok(Plan::Perform(Request::EditFile { path, edits }))
}

/// The job that arguments describe.
pub open spec fn described_job(
    args: JsonView,
    timezone: Seq<char>,
    room_id: Seq<char>,
) -> Option<JobView> {
    match (args.text_member("name"@), args.text_member("schedule"@), args.text_member("prompt"@)) {
        (Some(name), Some(schedule), Some(prompt)) => Some(
            JobView {
                name,
                schedule,
                timezone: match args.text_member("timezone"@) {
                    Some(zone) => zone,
                    None => timezone,
                },
                prompt,
                room_id,
                enabled: true,
            },
        ),
        _ => None,
    }
}

/// What `cron_create` comes to.
pub open spec fn cron_create_plan(
    args: JsonView,
    timezone: Seq<char>,
    ctx: Ctx,
    r: Result<Plan, ToolError>,
) -> bool {
    match described_job(args, timezone, ctx.room_id@) {
        None => if args.text_member("name"@) is None {
            lacks(r, "name"@)
        } else if args.text_member("schedule"@) is None {
            lacks(r, "schedule"@)
        } else {
            lacks(r, "prompt"@)
        },
        Some(job) => if cron_verdict(job, Ok(())) {
            if !ctx.database {
                lacks_database(r, ctx.room_id@)
            } else {
                r matches Ok(Plan::Perform(Request::CronCreate { job: j })) && j@ == job
            }
        } else {
            r matches Err(ToolError::Job(e)) && cron_verdict(job, Err(e))
        },
    }
}

/// Whether a verdict is the one on a job.
pub open spec fn cron_verdict(job: JobView, verdict: Result<(), JobError>) -> bool {
    judged(
        job,
        known_zone(job.timezone),
        cron_complaint(with_seconds(job.schedule)),
        verdict,
    )
}

/// What `cron_delete` comes to.
pub open spec fn cron_delete_plan(args: JsonView, ctx: Ctx, r: Result<Plan, ToolError>) -> bool {
    match args.text_member("name"@) {
        None => lacks(r, "name"@),
        Some(n) => if !ctx.database {
            lacks_database(r, ctx.room_id@)
        } else {
            r matches Ok(Plan::Perform(Request::CronDelete { name })) && name@ == n
        },
    }
}

/// Plans `cron_delete`.
fn cron_delete(args: &Json, ctx: &Ctx) -> (r: Result<Plan, ToolError>)
    ensures
        cron_delete_plan(args@, *ctx, r),
{
    let name = match str_arg(args, "name") {
        Ok(n) => n,
        Err(e) => {
            return Err(e);
        },
    };
    if !ctx.database {
        return Err(ToolError::NoDatabase(owned(ctx.room_id)));
    }
    Ok(Plan::Perform(Request::CronDelete { name }))
}

/// What a call comes to.
pub open spec fn planned(
    tools: Tools,
    name: Seq<char>,
    args: JsonView,
    ctx: Ctx,
    r: Result<Plan, ToolError>,
) -> bool {
    if name == "memory_recall"@ {
        memory_recall_plan(args, ctx, r)
    } else if name == "memory_store"@ {
        memory_store_plan(args, ctx, r)
    } else if name == "memory_forget"@ {
        memory_forget_plan(args, ctx, r)
    } else if name == "search_messages"@ {
        search_messages_plan(args, ctx, r)
    } else if name == "sql_query"@ {
        sql_query_plan(args, ctx, r)
    } else if name == "send_message"@ {
        send_message_plan(args, ctx, r)
    } else if name == "web_search"@ {
        web_search_plan(args, tools.exa_key, r)
    } else if name == "web_fetch"@ {
        web_fetch_plan(args, r)
    } else if name == "generate_image"@ {
        generate_image_plan(args, r)
    } else if name == "bash"@ {
        bash_plan(args, r)
    } else if name == "write_file"@ {
        write_file_plan(args, ctx, r)
    } else if name == "edit_file"@ {
        edit_file_plan(args, ctx, r)
    } else if name == "cron_create"@ {
        cron_create_plan(args, tools.timezone@, ctx, r)
    } else if name == "cron_delete"@ {
        cron_delete_plan(args, ctx, r)
    } else {
        r matches Err(ToolError::Unknown(n)) && n@ == name
    }
}

impl Tools {
    /// Plans `web_search`.
    fn web_search(&self, args: &Json) -> (r: Result<Plan, ToolError>)
        ensures
            web_search_plan(args@, self.exa_key, r),
    {
        let query = match str_arg(args, "query") {
            Ok(q) => q,
            Err(e) => {
                return Err(e);
            },
        };
        let n: u64 = count_of(args, "num_results", 5, 10);
        match &self.exa_key {
            None => Err(ToolError::NoExaKey),
            Some(key) => {
                let body = exa_body(query.as_str(), n);
                Ok(Plan::Perform(Request::WebSearch { query, key: key.clone(), body }))
            },
        }
    }

    /// Plans `cron_create`.
    fn cron_create(&self, args: &Json, ctx: &Ctx) -> (r: Result<Plan, ToolError>)
        ensures
            cron_create_plan(args@, self.timezone@, *ctx, r),
    {
        let name = match str_arg(args, "name") {
            Ok(n) => n,
            Err(e) => {
                return Err(e);
            },
        };
        let schedule = match str_arg(args, "schedule") {
            Ok(s) => s,
            Err(e) => {
                return Err(e);
            },
        };
        let timezone = match args.str_at("timezone") {
            Some(zone) => owned(zone),
            None => self.timezone.clone(),
        };
        let prompt = match str_arg(args, "prompt") {
            Ok(p) => p,
            Err(e) => {
                return Err(e);
            },
        };
        let job = Job {
            name,
            schedule,
            timezone,
            prompt,
            room_id: owned(ctx.room_id),
            enabled: true,
        };
        let verdict = job.validate();
        assert(described_job(args@, self.timezone@, ctx.room_id@) == Some(job@));
        assert(cron_verdict(job@, verdict));
        match verdict {
            Err(e) => Err(ToolError::Job(e)),
            Ok(_) => if !ctx.database {
                Err(ToolError::NoDatabase(owned(ctx.room_id)))
            } else {
                Ok(Plan::Perform(Request::CronCreate { job }))
            },
        }
    }

    /// What a call comes to.
    pub fn run(&self, name: &str, args: &Json, ctx: &Ctx) -> (r: Result<Plan, ToolError>)
        ensures
            planned(*self, name@, args@, *ctx, r),
    {
        if same(name, "memory_recall") {
            memory_recall(args, ctx)
        } else if same(name, "memory_store") {
            memory_store(args, ctx)
        } else if same(name, "memory_forget") {
            memory_forget(args, ctx)
        } else if same(name, "search_messages") {
            search_messages(args, ctx)
        } else if same(name, "sql_query") {
            sql_query(args, ctx)
        } else if same(name, "send_message") {
            send_message(args, ctx)
        } else if same(name, "web_search") {
            self.web_search(args)
        } else if same(name, "web_fetch") {
            web_fetch(args)
        } else if same(name, "generate_image") {
            generate_image(args)
        } else if same(name, "bash") {
            bash(args)
        } else if same(name, "write_file") {
            write_file(args, ctx)
        } else if same(name, "edit_file") {
            edit_file(args, ctx)
        } else if same(name, "cron_create") {
            self.cron_create(args, ctx)
        } else if same(name, "cron_delete") {
            cron_delete(args, ctx)
        } else {
            Err(ToolError::Unknown(owned(name)))
        }
    }

    /// What to do about a call. One that cannot be carried out is answered at once, so that the
    /// model can correct it.
    pub fn dispatch(&self, name: &str, args: &Json, ctx: &Ctx) -> (r: Plan)
        ensures
            exists|plan: Result<Plan, ToolError>| #[trigger]
                planned(*self, name@, args@, *ctx, plan) && match plan {
                    Ok(p) => r == p,
                    Err(e) => r matches Plan::Answer(Outcome::Text(t)) && t@ == failure(
                        name@,
                        e.words(),
                    ),
                },
    {
        let plan = self.run(name, args, ctx);
        assert(planned(*self, name@, args@, *ctx, plan));
        match plan {
            Ok(p) => p,
            Err(e) => Plan::Answer(failed(name, e.message().as_str())),
        }
    }
}

// ---------------------------------------------------------------------------------------------
// Laws of planning
// ---------------------------------------------------------------------------------------------

/// The names of the tools are all different.
proof fn lemma_tool_names()
    ensures
        "memory_recall"@.len() == 13 && "memory_recall"@[7] == 'r',
        "memory_store"@.len() == 12 && "memory_store"@[0] == 'm',
        "memory_forget"@.len() == 13 && "memory_forget"@[7] == 'f',
        "search_messages"@.len() == 15 && "search_messages"@[0] == 's',
        "sql_query"@.len() == 9 && "sql_query"@[0] == 's',
        "send_message"@.len() == 12 && "send_message"@[0] == 's',
        "web_search"@.len() == 10 && "web_search"@[1] == 'e',
        "web_fetch"@.len() == 9 && "web_fetch"@[0] == 'w',
        "generate_image"@.len() == 14 && "generate_image"@[0] == 'g',
        "bash"@.len() == 4 && "bash"@[0] == 'b',
        "write_file"@.len() == 10 && "write_file"@[1] == 'r',
        "edit_file"@.len() == 9 && "edit_file"@[0] == 'e',
        "cron_create"@.len() == 11 && "cron_create"@[5] == 'c',
        "cron_delete"@.len() == 11 && "cron_delete"@[5] == 'd',
{
    reveal_strlit("memory_recall");
    reveal_strlit("memory_store");
    reveal_strlit("memory_forget");
    reveal_strlit("search_messages");
    reveal_strlit("sql_query");
    reveal_strlit("send_message");
    reveal_strlit("web_search");
    reveal_strlit("web_fetch");
    reveal_strlit("generate_image");
    reveal_strlit("bash");
    reveal_strlit("write_file");
    reveal_strlit("edit_file");
    reveal_strlit("cron_create");
    reveal_strlit("cron_delete");
}

/// A note is recalled by the query of the call, with the number of notes that it asks for: eight
/// where it asks for none, never fewer than one nor more than twenty-five. What is embedded is
/// the part of the query that stands outside quotes, where there is any.
pub proof fn law_a_recall_asks_for_its_query(
    tools: &Tools,
    name: &str,
    args: &Json,
    ctx: &Ctx,
    r: Result<Plan, ToolError>,
    q: Seq<char>,
)
    requires
        call_ensures(Tools::run, (tools, name, args, ctx), r),
        name@ == "memory_recall"@,
        args@.text_member("query"@) == Some(q),
        ctx.database,
    ensures
        r matches Ok(Plan::Perform(Request::Recall { query, embed, limit })) && {
            &&& query@ == q
            &&& embed is None <==> loose(q).len() == 0
            &&& embed matches Some(text) ==> text@ == loose(q)
            &&& 1 <= limit <= 25
            &&& args@.uint_member("limit"@) is None ==> limit == 8
            &&& args@.uint_member("limit"@) matches Some(n) ==> (1 <= n <= 25 ==> limit == n) && (n
                > 25 ==> limit == 25) && (n == 0 ==> limit == 1)
        },
{
    lemma_tool_names();
}

/// A note is stored with the key, the content and the category of the call, each from its own
/// argument. One without a category is a core note.
pub proof fn law_a_note_is_stored_as_it_was_given(
    tools: &Tools,
    name: &str,
    args: &Json,
    ctx: &Ctx,
    r: Result<Plan, ToolError>,
    k: Seq<char>,
    c: Seq<char>,
)
    requires
        call_ensures(Tools::run, (tools, name, args, ctx), r),
        name@ == "memory_store"@,
        args@.text_member("key"@) == Some(k),
        args@.text_member("content"@) == Some(c),
        ctx.database,
    ensures
        r matches Ok(Plan::Perform(Request::Store { key, content, category })) && {
            &&& key@ == k
            &&& content@ == c
            &&& args@.text_member("category"@) matches Some(kind) ==> category@ == kind
            &&& args@.text_member("category"@) is None ==> category@ == "core"@
        },
{
    lemma_tool_names();
}

/// The note that is forgotten is the one under the key of the call.
pub proof fn law_the_named_note_is_forgotten(
    tools: &Tools,
    name: &str,
    args: &Json,
    ctx: &Ctx,
    r: Result<Plan, ToolError>,
    k: Seq<char>,
)
    requires
        call_ensures(Tools::run, (tools, name, args, ctx), r),
        name@ == "memory_forget"@,
        args@.text_member("key"@) == Some(k),
        ctx.database,
    ensures
        r matches Ok(Plan::Perform(Request::Forget { key })) && key@ == k,
{
    lemma_tool_names();
}

/// The archive is searched by the query of the call, for as many messages as it asks for: eight where
/// it asks for none, never fewer than one nor more than thirty. What is embedded is the part of
/// the query that stands outside quotes, where there is any.
pub proof fn law_a_search_asks_for_its_query(
    tools: &Tools,
    name: &str,
    args: &Json,
    ctx: &Ctx,
    r: Result<Plan, ToolError>,
    q: Seq<char>,
)
    requires
        call_ensures(Tools::run, (tools, name, args, ctx), r),
        name@ == "search_messages"@,
        args@.text_member("query"@) == Some(q),
        ctx.database,
    ensures
        r matches Ok(Plan::Perform(Request::SearchMessages { query, embed, limit })) && {
            &&& query@ == q
            &&& embed is None <==> loose(q).len() == 0
            &&& embed matches Some(text) ==> text@ == loose(q)
            &&& 1 <= limit <= 30
            &&& args@.uint_member("limit"@) is None ==> limit == 8
            &&& args@.uint_member("limit"@) matches Some(n) ==> (1 <= n <= 30 ==> limit == n) && (n
                > 30 ==> limit == 30) && (n == 0 ==> limit == 1)
        },
{
    lemma_tool_names();
}

/// The statement that is run is the one that the call gives, for as many rows as it asks for: fifty
/// where it asks for none, never fewer than one nor more than five hundred.
pub proof fn law_the_given_statement_is_run(
    tools: &Tools,
    name: &str,
    args: &Json,
    ctx: &Ctx,
    r: Result<Plan, ToolError>,
    q: Seq<char>,
)
    requires
        call_ensures(Tools::run, (tools, name, args, ctx), r),
        name@ == "sql_query"@,
        args@.text_member("query"@) == Some(q),
        ctx.database,
    ensures
        r matches Ok(Plan::Perform(Request::Sql { query, limit })) && {
            &&& query@ == q
            &&& 1 <= limit <= 500
            &&& args@.uint_member("limit"@) is None ==> limit == 50
            &&& args@.uint_member("limit"@) matches Some(n) ==> (1 <= n <= 500 ==> limit == n) && (n
                > 500 ==> limit == 500) && (n == 0 ==> limit == 1)
        },
{
    lemma_tool_names();
}

/// A message is sent as the call words it, as long as there is a room to send it to; else nothing is
/// sent and the model is told so.
pub proof fn law_a_message_is_sent_as_it_is_worded(
    tools: &Tools,
    name: &str,
    args: &Json,
    ctx: &Ctx,
    r: Result<Plan, ToolError>,
    t: Seq<char>,
)
    requires
        call_ensures(Tools::run, (tools, name, args, ctx), r),
        name@ == "send_message"@,
        args@.text_member("text"@) == Some(t),
    ensures
        ctx.progress ==> (r matches Ok(Plan::Perform(Request::Send { text })) && text@ == t),
        !ctx.progress ==> (r matches Ok(Plan::Answer(Outcome::Text(answer))) && answer@.len() > 0),
{
    lemma_tool_names();
    reveal_strlit("There is no room to send to from here.");
}

/// The web is searched for the query of the call, with the key that was set up, and the body that is
/// sent says so: its query is that of the call, and its number of results is the number asked
/// for, five where there is none, never fewer than one nor more than ten.
pub proof fn law_the_web_is_searched_for_the_query(
    tools: &Tools,
    name: &str,
    args: &Json,
    ctx: &Ctx,
    r: Result<Plan, ToolError>,
    q: Seq<char>,
    k: String,
)
    requires
        call_ensures(Tools::run, (tools, name, args, ctx), r),
        name@ == "web_search"@,
        args@.text_member("query"@) == Some(q),
        tools.exa_key == Some(k),
    ensures
        r matches Ok(Plan::Perform(Request::WebSearch { query, key, body })) && {
            &&& query@ == q
            &&& key@ == k@
            &&& body@.text_member("query"@) == Some(q)
            &&& body@.uint_member("numResults"@) matches Some(n) && 1 <= n <= 10
            &&& args@.uint_member("num_results"@) is None ==> body@.uint_member("numResults"@)
                == Some(5u64)
            &&& args@.uint_member("num_results"@) matches Some(n) ==> (1 <= n <= 10
                ==> body@.uint_member("numResults"@) == Some(n)) && (n > 10 ==> body@.uint_member(
                "numResults"@,
            ) == Some(10u64)) && (n == 0 ==> body@.uint_member("numResults"@) == Some(1u64))
            &&& body@.member("contents"@) matches Some(contents) && (contents.member("text"@) matches
                Some(text) && text.uint_member("maxCharacters"@) == Some(1200u64))
        },
{
    lemma_tool_names();
    lemma_exa_members(q, count_arg(args@, "num_results"@, 5, 10));
}

/// Without a key the web is not searched, whatever was asked for.
pub proof fn law_without_a_key_nothing_is_searched(
    tools: &Tools,
    name: &str,
    args: &Json,
    ctx: &Ctx,
    r: Result<Plan, ToolError>,
)
    requires
        call_ensures(Tools::run, (tools, name, args, ctx), r),
        name@ == "web_search"@,
        tools.exa_key is None,
    ensures
        r is Err,
        args@.text_member("query"@) is Some ==> r == Err::<Plan, ToolError>(ToolError::NoExaKey),
{
    lemma_tool_names();
}

/// What is found in the body that is sent to the search engine.
proof fn lemma_exa_members(query: Seq<char>, n: u64)
    ensures
        exa_request(query, n).text_member("query"@) == Some(query),
        exa_request(query, n).uint_member("numResults"@) == Some(n),
        exa_request(query, n).member("contents"@) matches Some(contents) && (contents.member(
            "text"@,
        ) matches Some(text) && text.uint_member("maxCharacters"@) == Some(1200u64)),
{
    reveal_strlit("query");
    reveal_strlit("numResults");
    reveal_strlit("contents");
    assert("query"@.len() == 5 && "numResults"@.len() == 10 && "contents"@.len() == 8);
    let ms = exa_request(query, n)->Object_0;
    json::lemma_member_at(ms, 0);
    json::lemma_member_at(ms, 1);
    json::lemma_member_at(ms, 2);
    let inner = ms[2].1->Object_0;
    json::lemma_member_at(inner, 0);
    json::lemma_member_at(inner[0].1->Object_0, 0);
}

/// Two searches for different queries, or for different numbers of results, send different bodies.
pub proof fn law_different_searches_send_different_bodies(
    a: Seq<char>,
    m: u64,
    b: Seq<char>,
    n: u64,
)
    ensures
        exa_request(a, m) == exa_request(b, n) <==> a == b && m == n,
{
    lemma_exa_members(a, m);
    lemma_exa_members(b, n);
}

/// The page that is fetched is the one that the call names.
pub proof fn law_the_named_page_is_fetched(
    tools: &Tools,
    name: &str,
    args: &Json,
    ctx: &Ctx,
    r: Result<Plan, ToolError>,
    u: Seq<char>,
)
    requires
        call_ensures(Tools::run, (tools, name, args, ctx), r),
        name@ == "web_fetch"@,
        args@.text_member("url"@) == Some(u),
    ensures
        r matches Ok(Plan::Perform(Request::WebFetch { url })) && url@ == u,
{
    lemma_tool_names();
}

/// An image is made from the prompt of the call, by the model that it names, where it names one.
pub proof fn law_an_image_is_made_from_its_prompt(
    tools: &Tools,
    name: &str,
    args: &Json,
    ctx: &Ctx,
    r: Result<Plan, ToolError>,
    p: Seq<char>,
)
    requires
        call_ensures(Tools::run, (tools, name, args, ctx), r),
        name@ == "generate_image"@,
        args@.text_member("prompt"@) == Some(p),
    ensures
        r matches Ok(Plan::Perform(Request::GenerateImage { prompt, model })) && {
            &&& prompt@ == p
            &&& model is None <==> args@.text_member("model"@) is None
            &&& model matches Some(m) ==> args@.text_member("model"@) == Some(m@)
        },
{
    lemma_tool_names();
}

/// The script that is run is the one that the call gives.
pub proof fn law_the_given_script_is_run(
    tools: &Tools,
    name: &str,
    args: &Json,
    ctx: &Ctx,
    r: Result<Plan, ToolError>,
    s: Seq<char>,
)
    requires
        call_ensures(Tools::run, (tools, name, args, ctx), r),
        name@ == "bash"@,
        args@.text_member("script"@) == Some(s),
    ensures
        r matches Ok(Plan::Perform(Request::Bash { script })) && script@ == s,
{
    lemma_tool_names();
}

/// A call `{"path": p, "content": c}` of `write_file`, with whatever else stands in it behind these
/// two, writes a file at `p` that holds `c`.
pub proof fn law_a_file_is_written_at_its_path(
    tools: &Tools,
    name: &str,
    args: &Json,
    ctx: &Ctx,
    r: Result<Plan, ToolError>,
    p: Seq<char>,
    c: Seq<char>,
    others: Seq<(Seq<char>, JsonView)>,
)
    requires
        call_ensures(Tools::run, (tools, name, args, ctx), r),
        name@ == "write_file"@,
        ctx.workspace is None,
        args@ == JsonView::Object(
            json::no_members().push(("path"@, JsonView::Text(p))).push(
                ("content"@, JsonView::Text(c)),
            ) + others,
        ),
    ensures
        r matches Ok(Plan::Perform(Request::WriteFile { path, content })) && path@ == p && content@
            == c,
{
    lemma_tool_names();
    reveal_strlit("path");
    reveal_strlit("content");
    assert("path"@.len() == 4 && "content"@.len() == 7);
    let ms = args@->Object_0;
    assert(ms[0] == ("path"@, JsonView::Text(p)));
    assert(ms[1] == ("content"@, JsonView::Text(c)));
    json::lemma_member_at(ms, 0);
    json::lemma_member_at(ms, 1);
}

/// A file is written only with a path and a content, and only where the room has a workspace; then
/// both are those of the call.
pub proof fn law_what_is_written_comes_from_the_call(
    tools: &Tools,
    name: &str,
    args: &Json,
    ctx: &Ctx,
    r: Result<Plan, ToolError>,
)
    requires
        call_ensures(Tools::run, (tools, name, args, ctx), r),
        name@ == "write_file"@,
    ensures
        r is Ok <==> ctx.workspace is None && args@.text_member("path"@) is Some
            && args@.text_member("content"@) is Some,
        r matches Ok(plan) ==> (plan matches Plan::Perform(Request::WriteFile { path, content })
            && args@.text_member("path"@) == Some(path@) && args@.text_member("content"@) == Some(
            content@,
        )),
{
    lemma_tool_names();
}

/// A file is edited at the path of the call, by its edits in their order, each of which replaces its
/// old text by its new one. An edit that lacks either text stops the call.
pub proof fn law_a_file_is_edited_as_the_call_says(
    tools: &Tools,
    name: &str,
    args: &Json,
    ctx: &Ctx,
    r: Result<Plan, ToolError>,
    p: Seq<char>,
    es: Seq<JsonView>,
)
    requires
        call_ensures(Tools::run, (tools, name, args, ctx), r),
        name@ == "edit_file"@,
        ctx.workspace is None,
        args@.text_member("path"@) == Some(p),
        args@.items_member("edits"@) == Some(es),
    ensures
        r is Ok <==> forall|i: int|
            0 <= i < es.len() ==> (#[trigger] es[i]).text_member("old_text"@) is Some
                && es[i].text_member("new_text"@) is Some,
        r matches Ok(plan) ==> (plan matches Plan::Perform(Request::EditFile { path, edits }) && {
            &&& path@ == p
            &&& edits@.len() == es.len()
            &&& forall|i: int|
                0 <= i < es.len() ==> es[i].text_member("old_text"@) == Some(
                    (#[trigger] edits@[i]).old@,
                ) && es[i].text_member("new_text"@) == Some(edits@[i].new@)
        }),
{
    lemma_tool_names();
    lemma_edits_complete(es);
    if r is Ok {
        let edits = r->Ok_0->Perform_0->edits;
        assert(edit_views(edits@) == edits_in(es));
        assert forall|i: int| 0 <= i < es.len() implies es[i].text_member("old_text"@) == Some(
            (#[trigger] edits@[i]).old@,
        ) && es[i].text_member("new_text"@) == Some(edits@[i].new@) by {
            assert(edit_views(edits@)[i] == edits_in(es)[i]);
            assert(edit_lacks(es[i]) is None);
        }
        assert(edit_views(edits@).len() == edits_in(es).len());
    }
}

/// Nothing is missing in a list of edits exactly where nothing is missing in any.
proof fn lemma_edits_complete(es: Seq<JsonView>)
    ensures
        edits_lack(es) is None <==> forall|i: int|
            0 <= i < es.len() ==> edit_lacks(#[trigger] es[i]) is None,
    decreases es.len(),
{
    if es.len() > 0 {
        let earlier = es.drop_last();
        lemma_edits_complete(earlier);
        assert(forall|i: int| 0 <= i < earlier.len() ==> earlier[i] == #[trigger] es[i]);
        assert(es.last() == es[es.len() - 1]);
        if edits_lack(es) is None {
            assert forall|i: int| 0 <= i < es.len() implies edit_lacks(#[trigger] es[i]) is None by {
                if i < earlier.len() {
                    assert(earlier[i] == es[i]);
                }
            }
        } else if edits_lack(earlier) is Some {
            let i = choose|i: int|
                0 <= i < earlier.len() && edit_lacks(#[trigger] earlier[i]) is Some;
            assert(edit_lacks(es[i]) is Some);
        }
    }
}

/// The job that a call of `cron_create` writes has the name, the schedule and the prompt of the call,
/// each from its own argument, the zone of the call or else the one that was set up, and the room
/// of the call; and it is enabled.
pub proof fn law_a_job_is_written_as_the_call_says(
    tools: &Tools,
    name: &str,
    args: &Json,
    ctx: &Ctx,
    r: Result<Plan, ToolError>,
)
    requires
        call_ensures(Tools::run, (tools, name, args, ctx), r),
        name@ == "cron_create"@,
        r is Ok,
    ensures
        r matches Ok(Plan::Perform(Request::CronCreate { job })) && {
            &&& args@.text_member("name"@) == Some(job.name@)
            &&& args@.text_member("schedule"@) == Some(job.schedule@)
            &&& args@.text_member("prompt"@) == Some(job.prompt@)
            &&& args@.text_member("timezone"@) matches Some(zone) ==> job.timezone@ == zone
            &&& args@.text_member("timezone"@) is None ==> job.timezone@ == tools.timezone@
            &&& job.room_id@ == ctx.room_id@
            &&& job.enabled
            &&& job.name@.len() > 0
            &&& known_zone(job.timezone@)
        },
        ctx.database,
{
    lemma_tool_names();
    assert(cron_verdict(described_job(args@, tools.timezone@, ctx.room_id@)->0, Ok(())));
}

/// Two calls of `cron_create` that differ in nothing but the prompt write jobs that differ in nothing
/// but the prompt: the first has the prompt of the first call, the second that of the second.
pub proof fn law_jobs_differ_as_their_prompts_do(
    tools: &Tools,
    name: &str,
    first: &Json,
    second: &Json,
    ctx: &Ctx,
    a: Result<Plan, ToolError>,
    b: Result<Plan, ToolError>,
)
    requires
        call_ensures(Tools::run, (tools, name, first, ctx), a),
        call_ensures(Tools::run, (tools, name, second, ctx), b),
        name@ == "cron_create"@,
        first@.text_member("name"@) == second@.text_member("name"@),
        first@.text_member("schedule"@) == second@.text_member("schedule"@),
        first@.text_member("timezone"@) == second@.text_member("timezone"@),
        first@.text_member("prompt"@) is Some,
        second@.text_member("prompt"@) is Some,
    ensures
        a is Ok <==> b is Ok,
        a matches Ok(Plan::Perform(Request::CronCreate { job: x })) ==> (b matches Ok(
            Plan::Perform(Request::CronCreate { job: y }),
        ) && {
            &&& y@ == (JobView { prompt: y.prompt@, ..x@ })
            &&& x.prompt@ == y.prompt@ <==> first@.text_member("prompt"@) == second@.text_member(
                "prompt"@,
            )
        }),
{
    lemma_tool_names();
    if a is Ok {
        law_a_job_is_written_as_the_call_says(tools, name, first, ctx, a);
        assert(cron_verdict(described_job(first@, tools.timezone@, ctx.room_id@)->0, Ok(())));
        assert(described_job(second@, tools.timezone@, ctx.room_id@) is Some);
        assert(cron_verdict(described_job(second@, tools.timezone@, ctx.room_id@)->0, Ok(())));
    }
    if b is Ok {
        law_a_job_is_written_as_the_call_says(tools, name, second, ctx, b);
        assert(cron_verdict(described_job(second@, tools.timezone@, ctx.room_id@)->0, Ok(())));
        assert(cron_verdict(described_job(first@, tools.timezone@, ctx.room_id@)->0, Ok(())));
    }
}

/// The job that is deleted is the one that the call names.
pub proof fn law_the_named_job_is_deleted(
    tools: &Tools,
    name: &str,
    args: &Json,
    ctx: &Ctx,
    r: Result<Plan, ToolError>,
    n: Seq<char>,
)
    requires
        call_ensures(Tools::run, (tools, name, args, ctx), r),
        name@ == "cron_delete"@,
        args@.text_member("name"@) == Some(n),
        ctx.database,
    ensures
        r matches Ok(Plan::Perform(Request::CronDelete { name })) && name@ == n,
{
    lemma_tool_names();
}

/// What reads or writes the database of a room is carried out only where the room has one.
pub proof fn law_nothing_is_kept_without_a_database(
    tools: &Tools,
    name: &str,
    args: &Json,
    ctx: &Ctx,
    r: Result<Plan, ToolError>,
)
    requires
        call_ensures(Tools::run, (tools, name, args, ctx), r),
        !ctx.database,
        name@ == "memory_recall"@ || name@ == "memory_store"@ || name@ == "memory_forget"@ || name@
            == "search_messages"@ || name@ == "sql_query"@ || name@ == "cron_create"@ || name@
            == "cron_delete"@,
    ensures
        r is Err,
{
    lemma_tool_names();
}

/// A call that lacks what it has to be given is not carried out, and the model is told what is
/// missing.
pub proof fn law_a_missing_argument_is_named(
    tools: &Tools,
    name: &str,
    args: &Json,
    ctx: &Ctx,
    r: Result<Plan, ToolError>,
    key: Seq<char>,
)
    requires
        call_ensures(Tools::run, (tools, name, args, ctx), r),
        args@.text_member(key) is None,
        ctx.database,
        ctx.workspace is None,
        tools.exa_key is Some,
        ({
            ||| name@ == "memory_recall"@ && key == "query"@
            ||| name@ == "memory_store"@ && key == "key"@
            ||| name@ == "memory_store"@ && key == "content"@ && args@.text_member("key"@) is Some
            ||| name@ == "memory_forget"@ && key == "key"@
            ||| name@ == "search_messages"@ && key == "query"@
            ||| name@ == "sql_query"@ && key == "query"@
            ||| name@ == "send_message"@ && key == "text"@
            ||| name@ == "web_search"@ && key == "query"@
            ||| name@ == "web_fetch"@ && key == "url"@
            ||| name@ == "generate_image"@ && key == "prompt"@
            ||| name@ == "bash"@ && key == "script"@
            ||| name@ == "write_file"@ && key == "path"@
            ||| name@ == "write_file"@ && key == "content"@ && args@.text_member("path"@) is Some
            ||| name@ == "cron_create"@ && key == "name"@
            ||| name@ == "cron_create"@ && key == "schedule"@ && args@.text_member("name"@) is Some
            ||| name@ == "cron_create"@ && key == "prompt"@ && args@.text_member("name"@) is Some
                && args@.text_member("schedule"@) is Some
            ||| name@ == "cron_delete"@ && key == "name"@
        }),
    ensures
        r matches Err(e) && contains(e.words(), key),
{
    lemma_tool_names();
    assert(lacks(r, key));
    lemma_parts("missing required argument '"@, key, "'"@);
}

/// A tool that there is not is answered with its name, and nothing is carried out.
pub proof fn law_an_unknown_tool_is_named(
    tools: &Tools,
    name: &str,
    args: &Json,
    ctx: &Ctx,
    r: Result<Plan, ToolError>,
)
    requires
        call_ensures(Tools::run, (tools, name, args, ctx), r),
        r matches Err(ToolError::Unknown(n)),
    ensures
        contains(r->Err_0.words(), name@),
        name@ != "memory_recall"@ && name@ != "memory_store"@ && name@ != "memory_forget"@ && name@
            != "search_messages"@ && name@ != "sql_query"@ && name@ != "send_message"@ && name@
            != "web_search"@ && name@ != "web_fetch"@ && name@ != "generate_image"@ && name@
            != "bash"@ && name@ != "write_file"@ && name@ != "edit_file"@ && name@
            != "cron_create"@ && name@ != "cron_delete"@,
{
    lemma_tool_names();
    lemma_parts("unknown tool '"@, name@, "'"@);
}

/// A call that can be carried out is handed on as it was planned, and one that cannot is answered with
/// the name of the tool and with what is wrong.
pub proof fn law_a_failed_call_is_answered(
    tools: &Tools,
    name: &str,
    args: &Json,
    ctx: &Ctx,
    r: Plan,
)
    requires
        call_ensures(Tools::dispatch, (tools, name, args, ctx), r),
    ensures
        exists|plan: Result<Plan, ToolError>| #[trigger]
            planned(*tools, name@, args@, *ctx, plan) && (plan matches Ok(p) ==> r == p) && (
            plan matches Err(e) ==> (r matches Plan::Answer(Outcome::Text(t))
                && contains(t@, name@) && ends(t@, e.words()))),
{
    let plan = choose|plan: Result<Plan, ToolError>| #[trigger]
        planned(*tools, name@, args@, *ctx, plan) && match plan {
            Ok(p) => r == p,
            Err(e) => r matches Plan::Answer(Outcome::Text(t)) && t@ == failure(name@, e.words()),
        };
    if plan is Err {
        let words = plan->Err_0.words();
        lemma_parts("Error from "@, name@, ": "@ + words);
        assert(failure(name@, words) =~= "Error from "@ + name@ + (": "@ + words));
        lemma_parts("Error from "@ + name@ + ": "@, words, Seq::empty());
    }
}

// ---------------------------------------------------------------------------------------------
// What came of it
// ---------------------------------------------------------------------------------------------

/// The day of a timestamp: its first ten bytes.
pub open spec fn day(at: Seq<char>) -> Seq<char> {
    crate::fitting(at, 10)
}

/// How a note reads.
pub open spec fn memory_line(m: Record) -> Seq<char> {
    "["@ + m.key@ + "] ("@ + m.category@ + ", "@ + day(m.created_at@) + ") "@ + m.content@
}

/// How notes read.
pub open spec fn memory_lines(hits: Seq<Record>) -> Seq<char> {
    joined(Seq::new(hits.len(), |i: int| memory_line(hits[i])), "\n"@)
}

/// Writes notes, one to a line.
pub fn render_memories(hits: &[Record]) -> (r: String)
    ensures
        r@ == memory_lines(hits@),
{
    let ghost wanted = Seq::new(hits@.len(), |i: int| memory_line(hits@[i]));
    let mut lines: Vec<String> = Vec::new();
    for i in 0..hits.len()
        invariant
            wanted == Seq::new(hits@.len(), |i: int| memory_line(hits@[i])),
            views(lines@) == wanted.take(i as int),
    {
        let ghost before = views(lines@);
        let m = &hits[i];
        let mut line = owned("[");
        line.append(m.key.as_str());
        line.append("] (");
        line.append(m.category.as_str());
        line.append(", ");
        line.append(crate::cut(m.created_at.as_str(), 10).as_str());
        line.append(") ");
        line.append(m.content.as_str());
        lines.push(line);
        assert(views(lines@) =~= before.push(line@));
        assert(wanted.take(i + 1) =~= before.push(line@));
    }
    assert(wanted.take(hits@.len() as int) =~= wanted);
    join(lines.as_slice(), "\n")
}

/// How an archived message reads.
pub open spec fn message_line(m: Archived) -> Seq<char> {
    "["@ + day(m.at@) + "] "@ + m.sender@ + ": "@ + m.body@
}

/// How archived messages read.
pub open spec fn message_lines(hits: Seq<Archived>) -> Seq<char> {
    joined(Seq::new(hits.len(), |i: int| message_line(hits[i])), "\n"@)
}

/// Writes archived messages, one to a line.
pub fn render_messages(hits: &[Archived]) -> (r: String)
    ensures
        r@ == message_lines(hits@),
{
    let ghost wanted = Seq::new(hits@.len(), |i: int| message_line(hits@[i]));
    let mut lines: Vec<String> = Vec::new();
    for i in 0..hits.len()
        invariant
            wanted == Seq::new(hits@.len(), |i: int| message_line(hits@[i])),
            views(lines@) == wanted.take(i as int),
    {
        let ghost before = views(lines@);
        let m = &hits[i];
        let mut line = owned("[");
        line.append(crate::cut(m.at.as_str(), 10).as_str());
        line.append("] ");
        line.append(m.sender.as_str());
        line.append(": ");
        line.append(m.body.as_str());
        lines.push(line);
        assert(views(lines@) =~= before.push(line@));
        assert(wanted.take(i + 1) =~= before.push(line@));
    }
    assert(wanted.take(hits@.len() as int) =~= wanted);
    join(lines.as_slice(), "\n")
}

/// Three pieces of text in a row.
fn between(before: &str, text: &str, after: &str) -> (r: String)
    ensures
        r@ == before@ + text@ + after@,
{
    let mut out = owned(before);
    out.append(text);
    out.append(after);
    out
}

/// Tells which notes were recalled.
pub fn recalled(query: &str, hits: &[Record]) -> (r: Outcome)
    ensures
        r matches Outcome::Text(t) && t@ == (if hits@.len() == 0 {
            "No memories matched '"@ + query@ + "'."@
        } else {
            memory_lines(hits@)
        }),
{
    if hits.len() == 0 {
        Outcome::Text(between("No memories matched '", query, "'."))
    } else {
        Outcome::Text(render_memories(hits))
    }
}

/// Tells that a note was written.
pub fn stored(key: &str) -> (r: Outcome)
    ensures
        r matches Outcome::Text(t) && t@ == "Stored under '"@ + key@ + "'."@,
{
    Outcome::Text(between("Stored under '", key, "'."))
}

/// Tells whether a note was deleted.
pub fn forgotten(key: &str, found: bool) -> (r: Outcome)
    ensures
        r matches Outcome::Text(t) && t@ == (if found {
            "Deleted '"@ + key@ + "'."@
        } else {
            "No memory under '"@ + key@ + "'."@
        }),
{
    if found {
        Outcome::Text(between("Deleted '", key, "'."))
    } else {
        Outcome::Text(between("No memory under '", key, "'."))
    }
}

/// Tells which messages were found.
pub fn searched(query: &str, hits: &[Archived]) -> (r: Outcome)
    ensures
        r matches Outcome::Text(t) && t@ == (if hits@.len() == 0 {
            "No messages matched '"@ + query@ + "'."@
        } else {
            message_lines(hits@)
        }),
{
    if hits.len() == 0 {
        Outcome::Text(between("No messages matched '", query, "'."))
    } else {
        Outcome::Text(render_messages(hits))
    }
}

/// Tells that a message was sent.
pub fn sent() -> (r: Outcome)
    ensures
        r matches Outcome::Text(t) && t@ == "Sent to the room."@,
{
    Outcome::Text(owned("Sent to the room."))
}

/// Tells that a job was written.
pub fn scheduled(job: &Job) -> (r: Outcome)
    ensures
        r matches Outcome::Text(t) && t@ == "Scheduled '"@ + job.name@ + "' at '"@ + job.schedule@
            + "'. The reconcile loop picks it up within a minute."@,
{
    let mut out = between("Scheduled '", job.name.as_str(), "' at '");
    out.append(job.schedule.as_str());
    out.append("'. The reconcile loop picks it up within a minute.");
    Outcome::Text(out)
}

/// Tells whether a job was deleted.
pub fn unscheduled(name: &str, found: bool) -> (r: Outcome)
    ensures
        r matches Outcome::Text(t) && t@ == (if found {
            "Deleted job '"@ + name@ + "'."@
        } else {
            "No job named '"@ + name@ + "'."@
        }),
{
    if found {
        Outcome::Text(between("Deleted job '", name, "'."))
    } else {
        Outcome::Text(between("No job named '", name, "'."))
    }
}

/// A text member, or else another text.
pub open spec fn text_or(v: JsonView, key: Seq<char>, other: Seq<char>) -> Seq<char> {
    match v.text_member(key) {
        Some(t) => t,
        None => other,
    }
}

/// How a web result reads: its title, its address, and the beginning of its text.
pub open spec fn web_result(r: JsonView) -> Seq<char> {
    text_or(r, "title"@, "(untitled)"@) + "\n"@ + text_or(r, "url"@, Seq::empty()) + "\n"@
        + truncated(text_or(r, "text"@, Seq::empty()), 900)
}

/// The web results of a reply.
pub open spec fn web_results(payload: JsonView) -> Seq<JsonView> {
    match payload.items_member("results"@) {
        Some(list) => list,
        None => Seq::empty(),
    }
}

/// How web results read.
pub open spec fn web_text(query: Seq<char>, results: Seq<JsonView>) -> Seq<char> {
    if results.len() == 0 {
        "No results for '"@ + query + "'."@
    } else {
        joined(Seq::new(results.len(), |i: int| web_result(results[i])), "\n\n---\n\n"@)
    }
}

/// Writes a web result.
fn render_result(r: &Json) -> (out: String)
    ensures
        out@ == web_result(r@),
{
    let mut out = match r.str_at("title") {
        Some(t) => owned(t),
        None => owned("(untitled)"),
    };
    out.append("\n");
    match r.str_at("url") {
        Some(u) => {
            out.append(u);
        },
        None => {},
    }
    out.append("\n");
    let text = match r.str_at("text") {
        Some(t) => owned(t),
        None => String::new(),
    };
    out.append(crate::truncate(text.as_str(), 900).as_str());
    assert(out@ =~= web_result(r@));
    out
}

/// Tells what the web search found.
pub fn web_found(query: &str, payload: &Json) -> (r: Outcome)
    ensures
        r matches Outcome::Text(t) && t@ == web_text(query@, web_results(payload@)),
{
    match payload.array_at("results") {
        None => Outcome::Text(between("No results for '", query, "'.")),
        Some(list) => {
            let ghost all = json_views(list@);
            if list.len() == 0 {
                return Outcome::Text(between("No results for '", query, "'."));
            }
            let ghost wanted = Seq::new(all.len(), |i: int| web_result(all[i]));
            let mut parts: Vec<String> = Vec::new();
            for i in 0..list.len()
                invariant
                    all == json_views(list@),
                    wanted == Seq::new(all.len(), |i: int| web_result(all[i])),
                    views(parts@) == wanted.take(i as int),
            {
                let ghost before = views(parts@);
                let part = render_result(&list[i]);
                parts.push(part);
                assert(views(parts@) =~= before.push(part@));
                assert(wanted.take(i + 1) =~= before.push(part@));
            }
            assert(wanted.take(list@.len() as int) =~= wanted);
            Outcome::Text(join(parts.as_slice(), "\n\n---\n\n"))
        },
    }
}

/// Tells what the web search found, given the body of its reply.
pub fn web_reply(query: &str, raw: &str) -> (r: Result<Outcome, ToolError>)
    ensures
        match json::read(raw@) {
            Ok(payload) => r matches Ok(Outcome::Text(t)) && t@ == web_text(
                query@,
                web_results(payload),
            ),
            Err(complaint) => r matches Err(ToolError::BadReply(c)) && c@ == complaint,
        },
{
    match json::parse(raw) {
        Ok(payload) => Ok(web_found(query, &payload)),
        Err(complaint) => Err(ToolError::BadReply(complaint)),
    }
}

/// How the output of a script reads.
pub open spec fn report(out: Output) -> Seq<char> {
    let streams = if out.stderr@.len() == 0 {
        out.stdout@
    } else {
        out.stdout@ + "\n[stderr]\n"@ + out.stderr@
    };
    let ended = if out.timed_out {
        streams + "\n[timed out]"@
    } else {
        match out.exit_code {
            Some(code) => if code != 0 {
                streams + "\n[exit "@ + signed_decimal(code as int) + "]"@
            } else {
                streams
            },
            None => streams,
        }
    };
    if trimmed(ended).len() == 0 {
        ended + "(no output)"@
    } else {
        ended
    }
}

/// Tells what a script printed and how it ended.
pub fn ran(out: &Output) -> (r: Outcome)
    ensures
        r matches Outcome::Text(t) && t@ == report(*out),
{
    let mut text = out.stdout.clone();
    if out.stderr.as_str().unicode_len() > 0 {
        text.append("\n[stderr]\n");
        text.append(out.stderr.as_str());
    }
    if out.timed_out {
        text.append("\n[timed out]");
    } else {
        match out.exit_code {
            Some(code) => {
                if code != 0 {
                    text.append("\n[exit ");
                    text.append(signed_decimal_of(code as i64).as_str());
                    text.append("]");
                }
            },
            None => {},
        }
    }
    if trim(text.as_str()).unicode_len() == 0 {
        text.append("(no output)");
    }
    Outcome::Text(text)
}

// ---------------------------------------------------------------------------------------------
// Pages
// ---------------------------------------------------------------------------------------------

/// What to do with a page that was fetched.
pub enum Fetched {
    Answer(Outcome),
    /// Turn the page into text.
    Render(String),
}

/// Takes in a page. One over the cap is refused; what the server did not serve well is shown as it
/// is.
pub fn fetched(status: &str, success: bool, bytes: &[u8], cap: usize) -> (r: Result<
    Fetched,
    ToolError,
>)
    ensures
        if bytes@.len() > cap {
            r matches Err(ToolError::TooLarge(c)) && c == cap
        } else if !success {
            r matches Ok(Fetched::Answer(Outcome::Text(t))) && t@ == "HTTP "@ + status@ + "\n"@
                + truncated(lossy(bytes@), 2000)
        } else {
            r matches Ok(Fetched::Render(page)) && page@ == lossy(bytes@)
        },
{
    if bytes.len() > cap {
        return Err(ToolError::TooLarge(cap));
    }
    let body = from_utf8_lossy(bytes);
    if !success {
        let mut out = between("HTTP ", status, "\n");
        out.append(crate::truncate(body.as_str(), 2000).as_str());
        return Ok(Fetched::Answer(Outcome::Text(out)));
    }
    Ok(Fetched::Render(body))
}

/// How wide the text of a page is set.
pub const PAGE_WIDTH: usize = 100;

/// Turns a plain page into text. A page that is not plain is left to others: what lays out pages
/// cannot be relied on to come back from every one of them.
pub fn render_page(html: &str) -> (r: Option<Option<String>>)
    ensures
        match r {
            Some(text) => plain_page(html@) && text_of(text) == page_text(html@, 100),
            None => !plain_page(html@),
        },
{
    if is_plain(html) {
        Some(page_text_of(html, PAGE_WIDTH))
    } else {
        None
    }
}

/// Tells what a page says, given the text that was made of it, where any could be.
pub fn page(html: &str, text: &Option<String>) -> (r: Outcome)
    ensures
        r matches Outcome::Text(t) && t@ == truncated(
            match text_of(*text) {
                Some(made) => made,
                None => html@,
            },
            12000,
        ),
{
    match text {
        Some(made) => Outcome::Text(crate::truncate(made.as_str(), 12000)),
        None => Outcome::Text(crate::truncate(html, 12000)),
    }
}

// ---------------------------------------------------------------------------------------------
// Addresses
// ---------------------------------------------------------------------------------------------

/// An address of the internet: four bytes, or eight groups.
#[derive(Debug, Clone, Copy)]
pub enum Ip {
    V4(u8, u8, u8, u8),
    V6(u16, u16, u16, u16, u16, u16, u16, u16),
}

/// An address that a host resolves to, and how it is written.
pub struct Address {
    pub ip: Ip,
    pub shown: String,
}

/// Whether four bytes are an address of a private network, of the machine itself, of its link, or
/// none at all.
pub open spec fn internal_v4(a: u8, b: u8, c: u8, d: u8) -> bool {
    ||| a == 10
    ||| a == 172 && 16 <= b <= 31
    ||| a == 192 && b == 168
    ||| a == 127
    ||| a == 169 && b == 254
    ||| a == 0 && b == 0 && c == 0 && d == 0
}

/// Whether an address is not public. An address of four bytes that is written in eight groups
/// counts as what it is.
pub open spec fn internal(ip: Ip) -> bool {
    match ip {
        Ip::V4(a, b, c, d) => internal_v4(a, b, c, d),
        Ip::V6(s0, s1, s2, s3, s4, s5, s6, s7) => {
            let leading = s0 == 0 && s1 == 0 && s2 == 0 && s3 == 0 && s4 == 0;
            if leading && s5 == 0xffff {
                internal_v4(
                    (s6 / 256) as u8,
                    (s6 % 256) as u8,
                    (s7 / 256) as u8,
                    (s7 % 256) as u8,
                )
            } else {
                ||| leading && s5 == 0 && s6 == 0 && (s7 == 0 || s7 == 1)
                ||| s0 >= 0xfc00
            }
        },
    }
}

/// Whether four bytes are an address that is not public.
fn is_internal_v4(a: u8, b: u8, c: u8, d: u8) -> (r: bool)
    ensures
        r == internal_v4(a, b, c, d),
{
    a == 10 || (a == 172 && 16 <= b && b <= 31) || (a == 192 && b == 168) || a == 127 || (a == 169
        && b == 254) || (a == 0 && b == 0 && c == 0 && d == 0)
}

/// Whether an address is not public.
pub fn is_internal(ip: Ip) -> (r: bool)
    ensures
        r == internal(ip),
{
    match ip {
        Ip::V4(a, b, c, d) => is_internal_v4(a, b, c, d),
        Ip::V6(s0, s1, s2, s3, s4, s5, s6, s7) => {
            let leading = s0 == 0 && s1 == 0 && s2 == 0 && s3 == 0 && s4 == 0;
            if leading && s5 == 0xffff {
                is_internal_v4(
                    (s6 / 256) as u8,
                    (s6 % 256) as u8,
                    (s7 / 256) as u8,
                    (s7 % 256) as u8,
                )
            } else {
                (leading && s5 == 0 && s6 == 0 && (s7 == 0 || s7 == 1)) || s0 >= 0xfc00
            }
        },
    }
}

/// What is wrong with a URL before its host is looked up, given its scheme or the complaint about
/// it.
pub open spec fn url_fault(scheme: Result<Seq<char>, Seq<char>>, r: Option<ToolError>) -> bool {
    match scheme {
        Err(complaint) => r matches Some(ToolError::BadUrl(c)) && c@ == complaint,
        Ok(s) => if s == "http"@ || s == "https"@ {
            r is None
        } else {
            r matches Some(ToolError::BadScheme)
        },
    }
}

/// What is wrong with a URL, given its scheme or the complaint about it.
pub fn scheme_fault(scheme: Result<String, String>) -> (r: Option<ToolError>)
    ensures
        url_fault(
            match scheme {
                Ok(s) => Ok(s@),
                Err(e) => Err(e@),
            },
            r,
        ),
{
    match scheme {
        Err(complaint) => Some(ToolError::BadUrl(complaint)),
        Ok(s) => if same(s.as_str(), "http") || same(s.as_str(), "https") {
            None
        } else {
            Some(ToolError::BadScheme)
        },
    }
}

/// What is wrong with a URL before its host is looked up.
pub fn check_url(url: &str) -> (r: Option<ToolError>)
    ensures
        url_fault(url_scheme(url@), r),
{
    scheme_fault(scheme_of(url))
}

/// The first address that is not public.
pub open spec fn first_internal(addresses: Seq<Address>) -> Option<Address>
    decreases addresses.len(),
{
    if addresses.len() == 0 {
        None
    } else if internal(addresses[0].ip) {
        Some(addresses[0])
    } else {
        first_internal(addresses.drop_first())
    }
}

/// Lets a URL pass that leads to the public internet, given what its host resolved to.
pub fn public_url(url: &str, resolved: &Result<Vec<Address>, String>) -> (r: Result<(), ToolError>)
    ensures
        match r {
            Ok(_) => url_fault(url_scheme(url@), None) && (resolved matches Ok(v) && first_internal(
                v@,
            ) is None),
            Err(e) => if url_fault(url_scheme(url@), None) {
                match *resolved {
                    Ok(v) => first_internal(v@) matches Some(a) && (e matches ToolError::NotPublic(
                        shown,
                    ) && shown@ == a.shown@),
                    Err(complaint) => e matches ToolError::Unresolved(c) && c@ == complaint@,
                }
            } else {
                url_fault(url_scheme(url@), Some(e))
            },
        },
{
    match check_url(url) {
        Some(e) => {
            return Err(e);
        },
        None => {},
    }
    match resolved {
        Err(complaint) => Err(ToolError::Unresolved(complaint.clone())),
        Ok(addresses) => {
            let ghost all = addresses@;
            assert(all.skip(0) =~= all);
            for i in 0..addresses.len()
                invariant
                    all == addresses@,
                    *resolved == Ok::<Vec<Address>, String>(*addresses),
                    url_fault(url_scheme(url@), None),
                    first_internal(all) == first_internal(all.skip(i as int)),
            {
                assert(all.skip(i as int).drop_first() =~= all.skip(i + 1));
                if is_internal(addresses[i].ip) {
                    return Err(ToolError::NotPublic(addresses[i].shown.clone()));
                }
            }
            Ok(())
        },
    }
}

/// What to do about a redirect.
#[derive(Debug)]
pub enum Redirect {
    Follow,
    Stop,
    Refuse(String),
}

/// Whether a redirect is followed: not after ten, and only to the public internet.
pub fn redirect(previous: usize, checked: Result<(), ToolError>) -> (r: Redirect)
    ensures
        if previous >= 10 {
            r == Redirect::Stop
        } else {
            match checked {
                Ok(_) => r == Redirect::Follow,
                Err(e) => r matches Redirect::Refuse(why) && why@ == e.words(),
            }
        },
{
    if previous >= 10 {
        return Redirect::Stop;
    }
    match checked {
        Ok(_) => Redirect::Follow,
        Err(e) => Redirect::Refuse(e.message()),
    }
}

// ---------------------------------------------------------------------------------------------
// Laws
// ---------------------------------------------------------------------------------------------

/// Every address of a URL that passes is public.
pub proof fn law_a_public_url_has_no_internal_address(addresses: Seq<Address>, i: int)
    requires
        first_internal(addresses) is None,
        0 <= i < addresses.len(),
    ensures
        !internal(addresses[i].ip),
    decreases addresses.len(),
{
    if i > 0 {
        law_a_public_url_has_no_internal_address(addresses.drop_first(), i - 1);
        assert(addresses.drop_first()[i - 1] == addresses[i]);
    }
}

/// An address of four bytes is judged the same when it is written in eight groups.
pub proof fn law_mapped_addresses_are_judged_alike(a: u8, b: u8, c: u8, d: u8)
    ensures
        internal(
            Ip::V6(0, 0, 0, 0, 0, 0xffff, (a * 256 + b) as u16, (c * 256 + d) as u16),
        ) == internal(Ip::V4(a, b, c, d)),
{
    let high = (a * 256 + b) as u16;
    let low = (c * 256 + d) as u16;
    assert(high / 256 == a && high % 256 == b);
    assert(low / 256 == c && low % 256 == d);
}

/// A note reads as its key in brackets first and its content last, with its category and its day in
/// between.
proof fn lemma_memory_line(m: Record)
    ensures
        begins(memory_line(m), "["@ + m.key@ + "]"@),
        contains(memory_line(m), m.category@),
        contains(memory_line(m), day(m.created_at@)),
        ends(memory_line(m), m.content@),
        contains(memory_line(m), m.content@),
{
    let key = "["@ + m.key@ + "]"@;
    let a = "["@ + m.key@ + "] ("@;
    assert(begins(a, key)) by {
        reveal_strlit("] (");
        reveal_strlit("]");
        assert(a.subrange(0, key.len() as int) =~= key);
    }
    let b = a + m.category@;
    let c = b + ", "@;
    let d = c + day(m.created_at@);
    let e = d + ") "@;
    lemma_added(a, m.category@);
    lemma_added(c, day(m.created_at@));
    lemma_added(e, m.content@);
    lemma_grow(a, m.category@, key);
    lemma_grow(b, ", "@, key);
    lemma_grow(b, ", "@, m.category@);
    lemma_grow(c, day(m.created_at@), key);
    lemma_grow(c, day(m.created_at@), m.category@);
    lemma_grow(d, ") "@, key);
    lemma_grow(d, ") "@, m.category@);
    lemma_grow(d, ") "@, day(m.created_at@));
    lemma_grow(e, m.content@, key);
    lemma_grow(e, m.content@, m.category@);
    lemma_grow(e, m.content@, day(m.created_at@));
}

/// Every note that was recalled is told: its key, its category, its day and its content. Where there
/// is none, that is told with the query.
pub proof fn law_every_recalled_note_is_told(query: &str, hits: &[Record], r: Outcome, i: int)
    requires
        call_ensures(recalled, (query, hits), r),
    ensures
        hits@.len() == 0 ==> contains(told(r), query@),
        0 <= i < hits@.len() ==> {
            &&& contains(told(r), "["@ + hits@[i].key@ + "]"@)
            &&& contains(told(r), hits@[i].category@)
            &&& contains(told(r), day(hits@[i].created_at@))
            &&& contains(told(r), hits@[i].content@)
        },
{
    if hits@.len() == 0 {
        lemma_parts("No memories matched '"@, query@, "'."@);
    } else if 0 <= i < hits@.len() {
        let lines = Seq::new(hits@.len(), |i: int| memory_line(hits@[i]));
        let line = lines[i];
        lemma_joined_holds(lines, "\n"@, i);
        lemma_memory_line(hits@[i]);
        lemma_within(told(r), line, "["@ + hits@[i].key@ + "]"@);
        lemma_within(told(r), line, hits@[i].category@);
        lemma_within(told(r), line, day(hits@[i].created_at@));
        lemma_within(told(r), line, hits@[i].content@);
    }
}

/// What stands in something that stands in a text stands in the text.
proof fn lemma_within(s: Seq<char>, m: Seq<char>, needle: Seq<char>)
    requires
        contains(s, m),
        contains(m, needle) || begins(m, needle),
    ensures
        contains(s, needle),
{
    let i = choose|i: int| #[trigger] crate::text::occurs_at(s, m, i);
    let a = s.take(i);
    let b = s.skip(i + m.len());
    assert(s.subrange(i, i + m.len()) == m);
    assert(s =~= a + m + b);
    if begins(m, needle) {
        assert(crate::text::occurs_at(m, needle, 0));
    }
    lemma_contains_within(a, m, b, needle);
}

/// Notes are told in their order, one to a line: the first ones as if they were alone, then the
/// others as if they were alone.
pub proof fn law_notes_are_told_in_order(a: Seq<Record>, b: Seq<Record>)
    requires
        a.len() > 0,
        b.len() > 0,
    ensures
        memory_lines(a + b) == memory_lines(a) + "\n"@ + memory_lines(b),
        a.len() == 1 ==> ends(memory_lines(a), a[0].content@),
{
    let x = Seq::new(a.len(), |i: int| memory_line(a[i]));
    let y = Seq::new(b.len(), |i: int| memory_line(b[i]));
    assert(Seq::new((a + b).len(), |i: int| memory_line((a + b)[i])) =~= x + y);
    law_joining_goes_part_by_part(x, y, "\n"@, x[0]);
    lemma_memory_line(a[0]);
}

/// A message reads as its day in brackets, then who sent it, then what it says, to the end.
proof fn lemma_message_line(m: Archived)
    ensures
        begins(message_line(m), "["@ + day(m.at@) + "]"@),
        contains(message_line(m), m.sender@ + ": "@ + m.body@),
        ends(message_line(m), m.sender@ + ": "@ + m.body@),
{
    let said = m.sender@ + ": "@ + m.body@;
    let date = "["@ + day(m.at@) + "]"@;
    let a = "["@ + day(m.at@) + "] "@;
    assert(begins(a, date)) by {
        reveal_strlit("] ");
        reveal_strlit("]");
        assert(a.subrange(0, date.len() as int) =~= date);
    }
    lemma_grouped(a, m.sender@, ": "@);
    lemma_grouped(a, m.sender@ + ": "@, m.body@);
    assert(message_line(m) == a + said);
    lemma_added(a, said);
    lemma_grow(a, said, date);
}

/// Every message that was found is told: its day, who sent it, and what it says, as one line of its
/// own. Where there is none, that is told with the query.
pub proof fn law_every_found_message_is_told(query: &str, hits: &[Archived], r: Outcome, i: int)
    requires
        call_ensures(searched, (query, hits), r),
    ensures
        hits@.len() == 0 ==> contains(told(r), query@),
        0 <= i < hits@.len() ==> {
            &&& contains(told(r), "["@ + day(hits@[i].at@) + "]"@)
            &&& contains(told(r), hits@[i].sender@ + ": "@ + hits@[i].body@)
        },
{
    if hits@.len() == 0 {
        lemma_parts("No messages matched '"@, query@, "'."@);
    } else if 0 <= i < hits@.len() {
        let lines = Seq::new(hits@.len(), |i: int| message_line(hits@[i]));
        lemma_joined_holds(lines, "\n"@, i);
        lemma_message_line(hits@[i]);
        lemma_within(told(r), lines[i], "["@ + day(hits@[i].at@) + "]"@);
        lemma_within(told(r), lines[i], hits@[i].sender@ + ": "@ + hits@[i].body@);
    }
}

/// Messages are told in their order, one to a line.
pub proof fn law_messages_are_told_in_order(a: Seq<Archived>, b: Seq<Archived>)
    requires
        a.len() > 0,
        b.len() > 0,
    ensures
        message_lines(a + b) == message_lines(a) + "\n"@ + message_lines(b),
        a.len() == 1 ==> ends(message_lines(a), a[0].sender@ + ": "@ + a[0].body@),
{
    let x = Seq::new(a.len(), |i: int| message_line(a[i]));
    let y = Seq::new(b.len(), |i: int| message_line(b[i]));
    assert(Seq::new((a + b).len(), |i: int| message_line((a + b)[i])) =~= x + y);
    law_joining_goes_part_by_part(x, y, "\n"@, x[0]);
    lemma_message_line(a[0]);
}

/// The day of a timestamp is its beginning, ten characters of it where they are ASCII and there are as
/// many.
pub proof fn law_the_day_begins_the_timestamp(at: Seq<char>)
    requires
        crate::text::ascii(at),
    ensures
        at.len() >= 10 ==> day(at) == at.take(10),
        at.len() < 10 ==> day(at) == at,
{
    crate::law_truncate_keeps_the_longest_prefix(at, 10);
    lemma_ascii_bytes(at);
    let k = day(at).len() as int;
    lemma_ascii_bytes(at.take(k));
    assert(at.take(at.len() as int) =~= at);
    if at.len() >= 10 {
        lemma_ascii_bytes(at.take(10));
    }
}

/// An ASCII text takes one byte for each character.
proof fn lemma_ascii_bytes(s: Seq<char>)
    requires
        crate::text::ascii(s),
    ensures
        crate::text::byte_len(s) == s.len(),
    decreases s.len(),
{
    if s.len() == 0 {
        assert(vstd::utf8::encode_utf8(s) =~= Seq::empty());
    } else {
        let t = s.drop_last();
        lemma_ascii_bytes(t);
        assert(t.push(s.last()) =~= s);
        crate::text::lemma_byte_len_push(t, s.last());
        assert((s[s.len() - 1] as u32) < 128);
    }
}

/// What became of a note or a job is told with its name, and whether it was there can be told from
/// what is said.
pub proof fn law_what_was_done_is_told(
    name: &str,
    job: &Job,
    written: Outcome,
    gone: Outcome,
    absent: Outcome,
    scheduled_job: Outcome,
    unscheduled_job: Outcome,
    no_job: Outcome,
)
    requires
        call_ensures(stored, (name,), written),
        call_ensures(forgotten, (name, true), gone),
        call_ensures(forgotten, (name, false), absent),
        call_ensures(scheduled, (job,), scheduled_job),
        call_ensures(unscheduled, (name, true), unscheduled_job),
        call_ensures(unscheduled, (name, false), no_job),
    ensures
        contains(told(written), name@),
        begins(told(written), "Stored"@),
        contains(told(gone), name@),
        begins(told(gone), "Deleted"@),
        contains(told(absent), name@),
        begins(told(absent), "No "@),
        contains(told(scheduled_job), job.name@),
        contains(told(scheduled_job), job.schedule@),
        begins(told(scheduled_job), "Scheduled"@),
        contains(told(unscheduled_job), name@),
        begins(told(unscheduled_job), "Deleted"@),
        contains(told(no_job), name@),
        begins(told(no_job), "No "@),
{
    lemma_first_words();
    lemma_told("Stored"@, "Stored under '"@, name@, "'."@);
    lemma_told("Deleted"@, "Deleted '"@, name@, "'."@);
    lemma_told("No "@, "No memory under '"@, name@, "'."@);
    lemma_told("Deleted"@, "Deleted job '"@, name@, "'."@);
    lemma_told("No "@, "No job named '"@, name@, "'."@);
    lemma_told("Scheduled"@, "Scheduled '"@, job.name@, "' at '"@);
    let a = "Scheduled '"@ + job.name@ + "' at '"@;
    let b = a + job.schedule@;
    let tail = "'. The reconcile loop picks it up within a minute."@;
    lemma_added(a, job.schedule@);
    lemma_grow(a, job.schedule@, job.name@);
    lemma_grow(a, job.schedule@, "Scheduled"@);
    lemma_grow(b, tail, job.name@);
    lemma_grow(b, tail, job.schedule@);
    lemma_grow(b, tail, "Scheduled"@);
}

/// What is said of a name holds the name and begins as it is said.
proof fn lemma_told(word: Seq<char>, before: Seq<char>, name: Seq<char>, after: Seq<char>)
    ensures
        contains(before + name + after, name),
        begins(before, word) ==> begins(before + name + after, word),
{
    lemma_parts(before, name, after);
    lemma_grow(before, name, word);
    lemma_grow(before + name, after, word);
}

/// How what is told of notes and jobs begins.
proof fn lemma_first_words()
    ensures
        begins("Stored under '"@, "Stored"@),
        begins("Deleted '"@, "Deleted"@),
        begins("No memory under '"@, "No "@),
        begins("Deleted job '"@, "Deleted"@),
        begins("No job named '"@, "No "@),
        begins("Scheduled '"@, "Scheduled"@),
{
    reveal_strlit("Stored");
    reveal_strlit("Stored under '");
    reveal_strlit("Deleted");
    reveal_strlit("Deleted '");
    reveal_strlit("No ");
    reveal_strlit("No memory under '");
    reveal_strlit("Scheduled");
    reveal_strlit("Scheduled '");
    reveal_strlit("Deleted job '");
    reveal_strlit("No job named '");
    assert("Stored under '"@.subrange(0, 6) =~= "Stored"@);
    assert("Deleted '"@.subrange(0, 7) =~= "Deleted"@);
    assert("No memory under '"@.subrange(0, 3) =~= "No "@);
    assert("Deleted job '"@.subrange(0, 7) =~= "Deleted"@);
    assert("No job named '"@.subrange(0, 3) =~= "No "@);
    assert("Scheduled '"@.subrange(0, 9) =~= "Scheduled"@);
}

/// What the model is told of an outcome is its text, word for word, or of an image what it was made
/// from; two texts that differ are told differently.
pub proof fn law_an_outcome_is_told_as_it_is(outcome: &Outcome, r: String)
    requires
        call_ensures(Outcome::for_model, (outcome,), r),
    ensures
        *outcome matches Outcome::Text(t) ==> r@ == t@,
        *outcome matches Outcome::Image { bytes, media_type, caption } ==> ends(r@, caption@),
{
    if outcome is Image {
        lemma_parts(
            "Image generated and sent to the room: "@,
            outcome->caption@,
            Seq::empty(),
        );
    }
}

/// Every result of a web search is told: its title, its address, and the beginning of its text, the
/// whole of it where it takes no more than nine hundred bytes. Where there is none, that is told
/// with the query.
pub proof fn law_every_web_result_is_told(query: &str, payload: &Json, r: Outcome, i: int)
    requires
        call_ensures(web_found, (query, payload), r),
    ensures
        payload@.items_member("results"@) is None ==> contains(told(r), query@),
        payload@.items_member("results"@) matches Some(results) ==> {
            &&& results.len() == 0 ==> contains(told(r), query@)
            &&& 0 <= i < results.len() ==> {
                &&& results[i].text_member("title"@) matches Some(t) ==> contains(told(r), t)
                &&& results[i].text_member("url"@) matches Some(u) ==> contains(told(r), u)
                &&& results[i].text_member("text"@) matches Some(t) ==> contains(
                    told(r),
                    crate::fitting(t, 900),
                )
            }
        },
{
    lemma_parts("No results for '"@, query@, "'."@);
    let results = web_results(payload@);
    if 0 <= i < results.len() {
        let parts = Seq::new(results.len(), |i: int| web_result(results[i]));
        lemma_joined_holds(parts, "\n\n---\n\n"@, i);
        let title = text_or(results[i], "title"@, "(untitled)"@);
        let url = text_or(results[i], "url"@, Seq::empty());
        let text = text_or(results[i], "text"@, Seq::empty());
        let shown = truncated(text, 900);
        let line = parts[i];
        let x = title + "\n"@;
        let y = x + url;
        let z = y + "\n"@;
        lemma_added(title, "\n"@);
        lemma_added(x, url);
        lemma_added(z, shown);
        lemma_grow(x, url, title);
        lemma_grow(y, "\n"@, title);
        lemma_grow(y, "\n"@, url);
        lemma_grow(z, shown, title);
        lemma_grow(z, shown, url);
        lemma_within(told(r), line, title);
        lemma_within(told(r), line, url);
        lemma_within(told(r), line, shown);
        crate::law_truncate_keeps_the_longest_prefix(text, 900);
        assert(begins(shown, crate::fitting(text, 900))) by {
            let f = crate::fitting(text, 900);
            assert(shown.subrange(0, f.len() as int) =~= f);
        }
        lemma_within(told(r), shown, crate::fitting(text, 900));
    }
}

/// The results of a web search are told in their order, as each would be told alone, with a rule
/// between.
pub proof fn law_web_results_are_told_in_order(
    query: Seq<char>,
    a: Seq<JsonView>,
    b: Seq<JsonView>,
)
    requires
        a.len() > 0,
        b.len() > 0,
    ensures
        web_text(query, a + b) == web_text(query, a) + "\n\n---\n\n"@ + web_text(query, b),
{
    let x = Seq::new(a.len(), |i: int| web_result(a[i]));
    let y = Seq::new(b.len(), |i: int| web_result(b[i]));
    assert(Seq::new((a + b).len(), |i: int| web_result((a + b)[i])) =~= x + y);
    law_joining_goes_part_by_part(x, y, "\n\n---\n\n"@, x[0]);
}

/// The report of a script begins with what it printed and holds what it complained of. A script that
/// took too long is marked so, one that failed with its code, and one that did neither is not
/// marked. A report is never blank.
pub proof fn law_a_report_tells_what_a_script_did(out: &Output, r: Outcome)
    requires
        call_ensures(ran, (out,), r),
    ensures
        begins(told(r), out.stdout@),
        contains(told(r), out.stderr@),
        out.stderr@.len() > 0 ==> contains(told(r), "[stderr]"@),
        out.timed_out ==> ends(told(r), "[timed out]"@),
        !out.timed_out && (out.exit_code matches Some(code) && code != 0) ==> ends(
            told(r),
            "[exit "@ + signed_decimal(out.exit_code->0 as int) + "]"@,
        ),
        !out.timed_out && (out.exit_code is None || out.exit_code == Some(0i32))
            && out.stderr@.len() == 0 && trimmed(out.stdout@).len() > 0 ==> told(r) == out.stdout@,
        trimmed(told(r)).len() > 0,
{
    let streams = if out.stderr@.len() == 0 {
        out.stdout@
    } else {
        out.stdout@ + "\n[stderr]\n"@ + out.stderr@
    };
    lemma_streams(*out, streams);
    let timed = streams + "\n[timed out]"@;
    let code = signed_decimal(out.exit_code->0 as int);
    let exited = streams + "\n[exit "@ + code + "]"@;
    lemma_marks(streams, code);
    lemma_grow(streams, "\n[timed out]"@, out.stdout@);
    lemma_grow(streams, "\n[timed out]"@, out.stderr@);
    lemma_grow(streams, "\n[timed out]"@, "[stderr]"@);
    lemma_grow(streams, "\n[exit "@, out.stdout@);
    lemma_grow(streams, "\n[exit "@, out.stderr@);
    lemma_grow(streams, "\n[exit "@, "[stderr]"@);
    lemma_grow(streams + "\n[exit "@, code, out.stdout@);
    lemma_grow(streams + "\n[exit "@, code, out.stderr@);
    lemma_grow(streams + "\n[exit "@, code, "[stderr]"@);
    lemma_grow(streams + "\n[exit "@ + code, "]"@, out.stdout@);
    lemma_grow(streams + "\n[exit "@ + code, "]"@, out.stderr@);
    lemma_grow(streams + "\n[exit "@ + code, "]"@, "[stderr]"@);
    lemma_grow(streams, "(no output)"@, out.stdout@);
    lemma_grow(streams, "(no output)"@, out.stderr@);
    lemma_grow(streams, "(no output)"@, "[stderr]"@);
    reveal_strlit("(no output)");
    if trimmed(streams).len() == 0 {
        lemma_visible(streams + "(no output)"@, streams.len() as int);
    }
}

/// The streams of a script begin with what it printed and hold what it complained of.
proof fn lemma_streams(out: Output, streams: Seq<char>)
    requires
        streams == (if out.stderr@.len() == 0 {
            out.stdout@
        } else {
            out.stdout@ + "\n[stderr]\n"@ + out.stderr@
        }),
    ensures
        begins(streams, out.stdout@),
        contains(streams, out.stderr@),
        out.stderr@.len() > 0 ==> contains(streams, "[stderr]"@),
{
    if out.stderr@.len() > 0 {
        lemma_both_streams(out.stdout@, out.stderr@);
    } else {
        lemma_added(streams, out.stderr@);
        assert(streams + out.stderr@ =~= streams);
    }
}

proof fn lemma_both_streams(printed: Seq<char>, complained: Seq<char>)
    ensures
        begins(printed + "\n[stderr]\n"@ + complained, printed),
        contains(printed + "\n[stderr]\n"@ + complained, complained),
        contains(printed + "\n[stderr]\n"@ + complained, "[stderr]"@),
{
    let rule = "\n[stderr]\n"@;
    lemma_parts(printed, rule, complained);
    lemma_added(printed + rule, complained);
    lemma_rule();
    lemma_contains_within(printed, rule, complained, "[stderr]"@);
}

proof fn lemma_rule()
    ensures
        contains("\n[stderr]\n"@, "[stderr]"@),
{
    reveal_strlit("\n[stderr]\n");
    reveal_strlit("[stderr]");
    assert("\n[stderr]\n"@.subrange(1, 9) =~= "[stderr]"@);
    assert(crate::text::occurs_at("\n[stderr]\n"@, "[stderr]"@, 1));
}

/// The marks of how a script ended stand at the end, and can be seen.
proof fn lemma_marks(streams: Seq<char>, code: Seq<char>)
    ensures
        ends(streams + "\n[timed out]"@, "[timed out]"@),
        trimmed(streams + "\n[timed out]"@).len() > 0,
        ends(streams + "\n[exit "@ + code + "]"@, "[exit "@ + code + "]"@),
        trimmed(streams + "\n[exit "@ + code + "]"@).len() > 0,
{
    reveal_strlit("\n[timed out]");
    reveal_strlit("[timed out]");
    reveal_strlit("\n[exit ");
    reveal_strlit("[exit ");
    reveal_strlit("]");
    let a = streams + "\n[timed out]"@;
    assert(a.skip(a.len() - 11) =~= "[timed out]"@);
    lemma_visible(a, a.len() - 1);
    let b = streams + "\n[exit "@ + code + "]"@;
    let short = "[exit "@ + code + "]"@;
    assert(b.skip(b.len() - short.len()) =~= short);
    lemma_visible(b, b.len() - 1);
}

/// A text that holds anything but white space is not blank.
proof fn lemma_visible(s: Seq<char>, i: int)
    requires
        0 <= i < s.len(),
        !crate::text::white_space(s[i]),
    ensures
        trimmed(s).len() > 0,
{
    crate::text::law_trimming_takes_only_white_space(s);
    if trimmed(s).len() == 0 {
        let (front, back) = choose|front: Seq<char>, back: Seq<char>|
            s == #[trigger] (front + trimmed(s) + back) && (forall|i: int|
                0 <= i < front.len() ==> crate::text::white_space(#[trigger] front[i])) && (forall|
                i: int,
            |
                0 <= i < back.len() ==> crate::text::white_space(#[trigger] back[i]));
        if i < front.len() {
            assert(s[i] == front[i]);
        } else {
            assert(s[i] == back[i - front.len()]);
        }
    }
}

/// A page over the cap is refused, and no other is. What was served well is handed on whole, to be
/// laid out: the text of its bytes where they are well formed. What was not is shown, with the
/// status and the beginning of the body.
pub proof fn law_a_fetched_page_is_shown(
    status: &str,
    success: bool,
    bytes: &[u8],
    cap: usize,
    r: Result<Fetched, ToolError>,
    text: Seq<char>,
)
    requires
        call_ensures(fetched, (status, success, bytes, cap), r),
        bytes@ == vstd::utf8::encode_utf8(text),
    ensures
        r is Err <==> bytes@.len() > cap,
        r matches Ok(f) ==> {
            &&& success ==> (f matches Fetched::Render(page) && page@ == text)
            &&& !success ==> (f matches Fetched::Answer(o) && begins(told(o), "HTTP "@ + status@)
                && contains(told(o), crate::fitting(text, 2000)))
        },
{
    vstd::utf8::encode_utf8_valid_utf8(text);
    vstd::utf8::encode_utf8_decode_utf8(text);
    assert(lossy(bytes@) == text);
    if bytes@.len() <= cap && !success {
        let shown = truncated(text, 2000);
        let f = crate::fitting(text, 2000);
        let t = "HTTP "@ + status@ + "\n"@ + shown;
        lemma_added("HTTP "@ + status@, "\n"@);
        lemma_added("HTTP "@ + status@ + "\n"@, shown);
        lemma_grow("HTTP "@ + status@ + "\n"@, shown, "HTTP "@ + status@);
        crate::law_truncate_keeps_the_longest_prefix(text, 2000);
        assert(shown.subrange(0, f.len() as int) =~= f);
        lemma_within(t, shown, f);
    }
}

/// What is told of a page is the text that was made of it, or the page itself where none could be: the
/// whole of it where that takes no more than twelve thousand bytes, else its beginning.
pub proof fn law_a_page_is_told(html: &str, text: &Option<String>, r: Outcome)
    requires
        call_ensures(page, (html, text), r),
    ensures
        ({
            let whole = match *text {
                Some(made) => made@,
                None => html@,
            };
            &&& crate::text::byte_len(whole) <= 12000 ==> told(r) == whole
            &&& begins(told(r), crate::fitting(whole, 12000))
        }),
{
    let whole = match *text {
        Some(made) => made@,
        None => html@,
    };
    crate::law_truncate_keeps_the_longest_prefix(whole, 12000);
    let f = crate::fitting(whole, 12000);
    assert(told(r).subrange(0, f.len() as int) =~= f);
}

/// The addresses of four bytes that are not public are those of the private networks 10.0.0.0/8,
/// 172.16.0.0/12 and 192.168.0.0/16, those of the machine itself, 127.0.0.0/8, those of the link,
/// 169.254.0.0/16, and 0.0.0.0, taken as one number each.
pub proof fn law_private_networks_are_not_public(a: u8, b: u8, c: u8, d: u8, r: bool)
    requires
        call_ensures(is_internal, (Ip::V4(a, b, c, d),), r),
    ensures
        ({
            let n = ((a * 256 + b) * 256 + c) * 256 + d;
            r <==> {
                ||| 0x0a00_0000 <= n <= 0x0aff_ffff
                ||| 0xac10_0000 <= n <= 0xac1f_ffff
                ||| 0xc0a8_0000 <= n <= 0xc0a8_ffff
                ||| 0x7f00_0000 <= n <= 0x7fff_ffff
                ||| 0xa9fe_0000 <= n <= 0xa9fe_ffff
                ||| n == 0
            }
        }),
{
}

/// Of the addresses of eight groups that stand for none of four bytes, those are not public whose
/// first seven bits are those of a local or a multicast address, the machine itself, and the
/// address that is all zero.
pub proof fn law_local_addresses_are_not_public(
    s0: u16,
    s1: u16,
    s2: u16,
    s3: u16,
    s4: u16,
    s5: u16,
    s6: u16,
    s7: u16,
    r: bool,
)
    requires
        call_ensures(is_internal, (Ip::V6(s0, s1, s2, s3, s4, s5, s6, s7),), r),
        !(s0 + s1 + s2 + s3 + s4 == 0 && s5 == 0xffff),
    ensures
        r <==> s0 / 512 >= 126 || s0 + s1 + s2 + s3 + s4 + s5 + s6 + s7 / 2 == 0,
{
}

/// A URL passes exactly where its scheme is one of the web's and every address that its host resolves
/// to is public; the first that is not is named.
pub proof fn law_a_url_passes_by_all_its_addresses(
    url: &str,
    resolved: &Result<Vec<Address>, String>,
    r: Result<(), ToolError>,
)
    requires
        call_ensures(public_url, (url, resolved), r),
    ensures
        r is Ok <==> (url_scheme(url@) == Ok::<Seq<char>, Seq<char>>("http"@) || url_scheme(url@)
            == Ok::<Seq<char>, Seq<char>>("https"@)) && (resolved matches Ok(v) && forall|i: int|
            0 <= i < v@.len() ==> !internal((#[trigger] v@[i]).ip)),
        r matches Err(ToolError::NotPublic(shown)) ==> (resolved matches Ok(v) && exists|i: int|
            0 <= i < v@.len() && internal((#[trigger] v@[i]).ip) && v@[i].shown@ == shown@),
{
    if *resolved is Ok {
        lemma_first_internal(resolved->Ok_0@);
    }
}

/// There is a first address that is not public exactly where there is any, and it is one of them.
proof fn lemma_first_internal(addresses: Seq<Address>)
    ensures
        first_internal(addresses) is None <==> forall|i: int|
            0 <= i < addresses.len() ==> !internal((#[trigger] addresses[i]).ip),
        first_internal(addresses) matches Some(a) ==> exists|i: int|
            0 <= i < addresses.len() && internal((#[trigger] addresses[i]).ip) && addresses[i] == a,
    decreases addresses.len(),
{
    if addresses.len() > 0 && !internal(addresses[0].ip) {
        let rest = addresses.drop_first();
        lemma_first_internal(rest);
        assert(forall|i: int| 0 < i < addresses.len() ==> #[trigger] addresses[i] == rest[i - 1]);
        assert(forall|i: int| 0 <= i < rest.len() ==> #[trigger] rest[i] == addresses[i + 1]);
        if first_internal(rest) is Some {
            let i = choose|i: int|
                0 <= i < rest.len() && internal((#[trigger] rest[i]).ip) && rest[i]
                    == first_internal(rest)->0;
            assert(addresses[i + 1] == rest[i]);
        } else {
            assert forall|i: int| 0 <= i < addresses.len() implies !internal(
                (#[trigger] addresses[i]).ip,
            ) by {
                if i > 0 {
                    assert(addresses[i] == rest[i - 1]);
                }
            }
        }
    }
}

/// A redirect is followed exactly where fewer than ten came before it and it leads to the public
/// internet; where it leads elsewhere it is refused with the reason.
pub proof fn law_redirects_are_followed_to_the_public_only(
    previous: usize,
    checked: Result<(), ToolError>,
    r: Redirect,
)
    requires
        call_ensures(redirect, (previous, checked), r),
    ensures
        r is Follow <==> previous < 10 && checked is Ok,
        r matches Redirect::Refuse(why) ==> (checked matches Err(e) && why@ == e.words()),
        previous >= 10 ==> r is Stop,
{
}

/// The name under which a tool is offered.
pub open spec fn offered_name(d: JsonView) -> Option<Seq<char>> {
    match d.member("function"@) {
        Some(f) => f.text_member("name"@),
        None => None,
    }
}

/// A definition offers its tool by name.
proof fn lemma_offered_name(
    name: Seq<char>,
    description: Seq<char>,
    properties: Seq<(Seq<char>, JsonView)>,
    required: Seq<JsonView>,
)
    ensures
        offered_name(definition(name, description, properties, required)) == Some(name),
{
    reveal_strlit("type");
    reveal_strlit("function");
    assert("type"@.len() == 4 && "function"@.len() == 8);
    reveal_with_fuel(json::member_in, 3);
}

/// Every tool that the model is offered can be called: no call of one is answered as unknown.
pub proof fn law_every_offered_tool_is_known(
    i: int,
    tools: Tools,
    args: JsonView,
    ctx: Ctx,
    r: Result<Plan, ToolError>,
)
    requires
        0 <= i < tool_definitions().len(),
        offered_name(tool_definitions()[i]) matches Some(name) && planned(
            tools,
            name,
            args,
            ctx,
            r,
        ),
    ensures
        !(r matches Err(ToolError::Unknown(_))),
{
    let d = tool_definitions()[i];
    assert(exists|
        name: Seq<char>,
        description: Seq<char>,
        properties: Seq<(Seq<char>, JsonView)>,
        required: Seq<JsonView>,
    |
        d == #[trigger] definition(name, description, properties, required) && known_tool(name));
    let (name, description, properties, required) = choose|
        name: Seq<char>,
        description: Seq<char>,
        properties: Seq<(Seq<char>, JsonView)>,
        required: Seq<JsonView>,
    |
        d == #[trigger] definition(name, description, properties, required) && known_tool(name);
    lemma_offered_name(name, description, properties, required);
}

/// The names of the tools.
pub open spec fn known_tool(name: Seq<char>) -> bool {
    ||| name == "memory_recall"@
    ||| name == "memory_store"@
    ||| name == "memory_forget"@
    ||| name == "search_messages"@
    ||| name == "send_message"@
    ||| name == "web_search"@
    ||| name == "web_fetch"@
    ||| name == "generate_image"@
    ||| name == "write_file"@
    ||| name == "edit_file"@
    ||| name == "bash"@
    ||| name == "sql_query"@
    ||| name == "cron_create"@
    ||| name == "cron_delete"@
}

/// The arguments that a definition demands.
pub open spec fn demanded(d: JsonView) -> Option<Seq<JsonView>> {
    match d.member("function"@) {
        Some(f) => match f.member("parameters"@) {
            Some(p) => p.items_member("required"@),
            None => None,
        },
        None => None,
    }
}

/// A definition demands what its schema requires.
proof fn lemma_demanded(
    name: Seq<char>,
    description: Seq<char>,
    properties: Seq<(Seq<char>, JsonView)>,
    required: Seq<JsonView>,
)
    ensures
        demanded(definition(name, description, properties, required)) == Some(required),
{
    reveal_strlit("type");
    reveal_strlit("function");
    reveal_strlit("name");
    reveal_strlit("description");
    reveal_strlit("parameters");
    reveal_strlit("properties");
    reveal_strlit("required");
    assert("type"@[0] == 't' && "function"@[0] == 'f' && "name"@[0] == 'n' && "description"@[0]
        == 'd' && "parameters"@[1] == 'a' && "properties"@[1] == 'r' && "required"@[0] == 'r');
    let d = definition(name, description, properties, required);
    json::lemma_member_at(d->Object_0, 1);
    let f = d->Object_0[1].1;
    json::lemma_member_at(f->Object_0, 2);
    let p = f->Object_0[2].1;
    json::lemma_member_at(p->Object_0, 2);
}

/// Nothing is carried out that lacks an argument which the definition of its tool demands.
pub proof fn law_what_a_definition_demands_has_to_be_given(
    offered: Vec<Json>,
    i: int,
    j: int,
    key: Seq<char>,
    tools: &Tools,
    name: &str,
    args: &Json,
    ctx: &Ctx,
    r: Result<Plan, ToolError>,
)
    requires
        call_ensures(definitions, (), offered),
        0 <= i < offered@.len(),
        offered_name(offered@[i]@) == Some(name@),
        demanded(offered@[i]@) matches Some(required) && 0 <= j < required.len() && required[j]
            == JsonView::Text(key),
        args@.member(key) is None,
        call_ensures(Tools::run, (tools, name, args, ctx), r),
    ensures
        r is Err,
{
    let all = json_views(offered@);
    assert(all == tool_definitions() && all.len() == offered@.len());
    assert(all[i] == offered@[i]@);
    let d = tool_definitions()[i];
    assert(exists|
        name: Seq<char>,
        description: Seq<char>,
        properties: Seq<(Seq<char>, JsonView)>,
        required: Seq<JsonView>,
    |
        d == #[trigger] definition(name, description, properties, required) && demands(
            name,
            required,
        ));
    let (tool, description, properties, required) = choose|
        name: Seq<char>,
        description: Seq<char>,
        properties: Seq<(Seq<char>, JsonView)>,
        required: Seq<JsonView>,
    |
        d == #[trigger] definition(name, description, properties, required) && demands(
            name,
            required,
        );
    lemma_offered_name(tool, description, properties, required);
    lemma_demanded(tool, description, properties, required);
    lemma_tool_names();
}

/// What the tools demand.
spec fn demands(name: Seq<char>, required: Seq<JsonView>) -> bool {
    let query = JsonView::Text("query"@);
    ||| name == "memory_recall"@ && required == no_items().push(query)
    ||| name == "memory_store"@ && required == no_items().push(JsonView::Text("key"@)).push(
        JsonView::Text("content"@),
    )
    ||| name == "memory_forget"@ && required == no_items().push(JsonView::Text("key"@))
    ||| name == "search_messages"@ && required == no_items().push(query)
    ||| name == "send_message"@ && required == no_items().push(JsonView::Text("text"@))
    ||| name == "web_search"@ && required == no_items().push(query)
    ||| name == "web_fetch"@ && required == no_items().push(JsonView::Text("url"@))
    ||| name == "generate_image"@ && required == no_items().push(JsonView::Text("prompt"@))
    ||| name == "write_file"@ && required == no_items().push(JsonView::Text("path"@)).push(
        JsonView::Text("content"@),
    )
    ||| name == "edit_file"@ && required == no_items().push(JsonView::Text("path"@)).push(
        JsonView::Text("edits"@),
    )
    ||| name == "bash"@ && required == no_items().push(JsonView::Text("script"@))
    ||| name == "sql_query"@ && required == no_items().push(query)
    ||| name == "cron_create"@ && required == no_items().push(JsonView::Text("name"@)).push(
        JsonView::Text("schedule"@),
    ).push(JsonView::Text("prompt"@))
    ||| name == "cron_delete"@ && required == no_items().push(JsonView::Text("name"@))
}

/// What a call could not do can be read in the message.
pub proof fn law_what_is_wrong_with_a_call_is_told(e: &ToolError, r: String)
    requires
        call_ensures(ToolError::message, (e,), r),
    ensures
        *e matches ToolError::Unknown(name) ==> contains(r@, name@),
        *e matches ToolError::Missing(key) ==> contains(r@, key@),
        *e matches ToolError::NoDatabase(room_id) ==> ends(r@, room_id@),
        *e matches ToolError::Workspace(complaint) ==> r@ == complaint@,
        *e matches ToolError::BadUrl(complaint) ==> ends(r@, complaint@),
        *e matches ToolError::Unresolved(complaint) ==> ends(r@, complaint@),
        *e matches ToolError::NotPublic(address) ==> contains(r@, address@),
        *e matches ToolError::TooLarge(cap) ==> contains(r@, decimal(cap as nat)),
        *e matches ToolError::BadReply(complaint) ==> ends(r@, complaint@),
{
    match e {
        ToolError::Unknown(name) => {
            lemma_parts("unknown tool '"@, name@, "'"@);
        },
        ToolError::Missing(key) => {
            lemma_parts("missing required argument '"@, key@, "'"@);
        },
        ToolError::NoDatabase(room_id) => {
            lemma_added("no database for room "@, room_id@);
        },
        ToolError::BadUrl(complaint) => {
            lemma_added("invalid URL: "@, complaint@);
        },
        ToolError::Unresolved(complaint) => {
            lemma_added("resolving the host: "@, complaint@);
        },
        ToolError::NotPublic(address) => {
            lemma_parts("that host resolves to "@, address@, ", which is not public"@);
        },
        ToolError::TooLarge(cap) => {
            lemma_parts("response over the "@, decimal(*cap as nat), " byte cap"@);
        },
        ToolError::BadReply(complaint) => {
            lemma_added(
                "decoding Exa response: error decoding response body: "@,
                complaint@,
            );
        },
        _ => {},
    }
}

/// A URL is let on exactly where its scheme is that of the web, and what cannot be read is told.
pub proof fn law_only_the_schemes_of_the_web_pass(scheme: Result<String, String>, r: Option<ToolError>)
    requires
        call_ensures(scheme_fault, (scheme,), r),
    ensures
        r is None <==> (scheme matches Ok(s) && (s@ == "http"@ || s@ == "https"@)),
        scheme matches Err(complaint) ==> (r matches Some(ToolError::BadUrl(c)) && c@ == complaint@),
        scheme is Ok && r is Some ==> r == Some(ToolError::BadScheme),
{
}

/// As many are asked for as the call says, but at least one and no more than are allowed; where it
/// says nothing, as many as are usual.
pub proof fn law_a_limit_is_kept_in_bounds(args: &Json, usual: u64, max: u64, r: usize)
    requires
        call_ensures(limit, (args, usual, max), r),
        1 <= usual <= max <= usize::MAX,
    ensures
        1 <= r <= max,
        args@.uint_member("limit"@) is None ==> r == usual,
        args@.uint_member("limit"@) matches Some(n) ==> {
            &&& 1 <= n <= max ==> r == n
            &&& n == 0 ==> r == 1
            &&& n > max ==> r == max
        },
{
}

/// What is embedded of a query is what stands in it outside quotes, where anything does.
pub proof fn law_what_is_loose_is_embedded(query: &str, text: String, r: Option<String>)
    requires
        call_ensures(loose_text, (query,), text),
        call_ensures(embed_loose, (query,), r),
    ensures
        r is None <==> text@.len() == 0,
        r matches Some(t) ==> t@ == text@,
{
}

/// A reply of the search engine is told as its results are, for the query that was asked; one that
/// cannot be read is a fault.
pub proof fn law_a_web_reply_is_told_for_its_query(
    query: &str,
    raw: &str,
    payload: &Json,
    found: Outcome,
    r: Result<Outcome, ToolError>,
)
    requires
        call_ensures(web_reply, (query, raw), r),
        call_ensures(web_found, (query, payload), found),
    ensures
        json::read(raw@) == Ok::<JsonView, Seq<char>>(payload@) ==> (r matches Ok(Outcome::Text(t)) && (
        found matches Outcome::Text(u) && t@ == u@)),
        json::read(raw@) is Err ==> (r matches Err(ToolError::BadReply(c)) && c@
            == json::read(raw@)->Err_0),
{
}

/// A failed call names its tool and says why.
pub proof fn law_a_failure_names_its_tool(name: &str, message: &str, r: Outcome)
    requires
        call_ensures(failed, (name, message), r),
    ensures
        r matches Outcome::Text(t) && contains(t@, name@) && ends(t@, message@),
{
    let a = "Error from "@ + name@;
    lemma_added("Error from "@, name@);
    lemma_grow(a, ": "@, name@);
    lemma_grow(a + ": "@, message@, name@);
    lemma_added(a + ": "@, message@);
}

} // verus!
