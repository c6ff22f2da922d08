//! How the tools are described to the model.
use vstd::prelude::*;

use crate::json::{
    self, and, array, json_views, members, no_items, no_json, no_members, object, with, Json,
    JsonView,
};

verus! {

/// A property of which only the type is given.
pub open spec fn kind(kind: Seq<char>) -> JsonView {
    JsonView::Object(no_members().push(("type"@, JsonView::Text(kind))))
}

/// A property with its type and a description.
pub open spec fn described(kind: Seq<char>, description: Seq<char>) -> JsonView {
    JsonView::Object(
        no_members().push(("type"@, JsonView::Text(kind))).push(
            ("description"@, JsonView::Text(description)),
        ),
    )
}

/// The categories of memories.
pub open spec fn categories() -> JsonView {
    JsonView::Object(
        no_members().push(("type"@, JsonView::Text("string"@))).push(
            (
                "enum"@,
                JsonView::Array(
                    no_items().push(JsonView::Text("core"@)).push(JsonView::Text("daily"@)).push(
                        JsonView::Text("conversation"@),
                    ),
                ),
            ),
        ),
    )
}

/// The schema of an object with the given properties.
pub open spec fn schema(
    properties: Seq<(Seq<char>, JsonView)>,
    required: Seq<JsonView>,
) -> JsonView {
    JsonView::Object(
        no_members().push(("type"@, JsonView::Text("object"@))).push(
            ("properties"@, JsonView::Object(properties)),
        ).push(("required"@, JsonView::Array(required))),
    )
}

/// A list of edits.
pub open spec fn edit_list() -> JsonView {
    JsonView::Object(
        no_members().push(("type"@, JsonView::Text("array"@))).push(
            ("description"@, JsonView::Text("Disjoint, non-overlapping replacements"@)),
        ).push(
            (
                "items"@,
                schema(
                    no_members().push(
                        (
                            "old_text"@,
                            described("string"@, "Exact text to replace, unique in the file"@),
                        ),
                    ).push(("new_text"@, kind("string"@))),
                    no_items().push(JsonView::Text("old_text"@)).push(JsonView::Text("new_text"@)),
                ),
            ),
        ),
    )
}

/// The definition of a tool.
pub open spec fn definition(
    name: Seq<char>,
    description: Seq<char>,
    properties: Seq<(Seq<char>, JsonView)>,
    required: Seq<JsonView>,
) -> JsonView {
    JsonView::Object(
        no_members().push(("type"@, JsonView::Text("function"@))).push(
            (
                "function"@,
                JsonView::Object(
                    no_members().push(("name"@, JsonView::Text(name))).push(
                        ("description"@, JsonView::Text(description)),
                    ).push(("parameters"@, schema(properties, required))),
                ),
            ),
        ),
    )
}

/// A property of which only the type is given.
fn kind_json(kind: &str) -> (r: Json)
    ensures
        r@ == self::kind(kind@),
{
    object(with(members(), "type", json::text(kind)))
}

/// A property with its type and a description.
fn described_json(kind: &str, description: &str) -> (r: Json)
    ensures
        r@ == described(kind@, description@),
{
    object(
        with(
            with(members(), "type", json::text(kind)),
            "description",
            json::text(description),
        ),
    )
}

/// The categories of memories.
fn categories_json() -> (r: Json)
    ensures
        r@ == categories(),
{
    let mut names = no_json();
    names = and(names, json::text("core"));
    names = and(names, json::text("daily"));
    names = and(names, json::text("conversation"));
    object(with(with(members(), "type", json::text("string")), "enum", array(names)))
}

/// The schema of an object with the given properties.
fn schema_json(properties: Vec<(String, Json)>, required: Vec<Json>) -> (r: Json)
    ensures
        r@ == schema(json::member_views(properties@), json_views(required@)),
{
    let mut ms = with(members(), "type", json::text("object"));
    ms = with(ms, "properties", object(properties));
    ms = with(ms, "required", array(required));
    object(ms)
}

/// A list of edits.
fn edit_list_json() -> (r: Json)
    ensures
        r@ == edit_list(),
{
    let mut properties = members();
    properties =
    with(
        properties,
        "old_text",
        described_json("string", "Exact text to replace, unique in the file"),
    );
    properties = with(properties, "new_text", kind_json("string"));
    let mut required = no_json();
    required = and(required, json::text("old_text"));
    required = and(required, json::text("new_text"));
    let mut ms = with(members(), "type", json::text("array"));
    ms = with(ms, "description", json::text("Disjoint, non-overlapping replacements"));
    ms = with(ms, "items", schema_json(properties, required));
    object(ms)
}

/// The definition of a tool.
fn definition_json(
    name: &str,
    description: &str,
    properties: Vec<(String, Json)>,
    required: Vec<Json>,
) -> (r: Json)
    ensures
        r@ == definition(
            name@,
            description@,
            json::member_views(properties@),
            json_views(required@),
        ),
{
    let mut function = with(members(), "name", json::text(name));
    function = with(function, "description", json::text(description));
    function = with(function, "parameters", schema_json(properties, required));
    object(
        with(with(members(), "type", json::text("function")), "function", object(function)),
    )
}

/// What the model is told of `memory_recall`.
pub const ABOUT_MEMORY_RECALL: &'static str = "Search your durable memory. Use this BEFORE answering about any person, character, project, file or past decision, and before saying you have no record of something. Unquoted words are matched by meaning, so you can describe what you are after rather than guess the wording. Put a word in double quotes to require it exactly.";

/// What the model is told of `memory_store`.
pub const ABOUT_MEMORY_STORE: &'static str = "Save something durably. Re-using an existing key revises that entry instead of creating a duplicate.";

/// What the model is told of `memory_forget`.
pub const ABOUT_MEMORY_FORGET: &'static str = "Delete a memory by key. Use this when something you stored turns out to be wrong, rather than storing a correction alongside it.";

/// What the model is told of `search_messages`.
pub const ABOUT_SEARCH_MESSAGES: &'static str = "Search the full history of messages in this chat, for what someone actually said. memory_recall searches notes you chose to keep; this searches everything. Unquoted words are matched by meaning, so a message is found even when it used none of your words. Put a word in double quotes to require it exactly. The two combine, so 'fifa \"2025\" world cup' finds messages that definitely mention 2025, ranked by how much they are about the world cup.";

/// What the model is told of `send_message`.
pub const ABOUT_SEND_MESSAGE: &'static str = "Send a message to the room right now, without ending your turn. Use this on a long task to say what you have found or what you are about to do, rather than working in silence. Your final answer is sent automatically, so do not repeat it here.";

/// What the model is told of `web_search`.
pub const ABOUT_WEB_SEARCH: &'static str = "Search the web for current information. Not a substitute for memory_recall: private things discussed in this chat will never appear here.";

/// What the model is told of `web_fetch`.
pub const ABOUT_WEB_FETCH: &'static str = "Fetch a single web page and return it as plain text. Use web_search first if you do not already have the URL.";

/// What the model is told of `generate_image`.
pub const ABOUT_GENERATE_IMAGE: &'static str = "Generate an image from a text prompt and post it to the room.";

/// What the model is told of `write_file`.
pub const ABOUT_WRITE_FILE: &'static str = "Write a file in the workspace, creating parent directories and replacing any existing content. Use edit_file to change part of a file you already have.";

/// What the model is told of `edit_file`.
pub const ABOUT_EDIT_FILE: &'static str = "Replace exact text in a file. Every edit is matched against the original file rather than against earlier edits, so pass several disjoint edits in one call instead of calling repeatedly. Each old_text must appear exactly once: include surrounding lines to make it unique, but no more than needed. Nothing is written unless every edit matches.";

/// What the model is told of `bash`.
pub const ABOUT_BASH: &'static str = "Run a bash script in this room's isolated sandbox and return its output. It starts in this room's workspace, so workspace files persist for later turns in this room only. The base system is read-only and includes bash, curl, git, jq, Python, pip, ripgrep, file and tar. The public internet works; the LAN and every other room's data are unreachable.";

/// What the model is told of `sql_query`.
pub const ABOUT_SQL_QUERY: &'static str = "Run a read-only SQL query against this room's physically separate database. It contains only this room's memories, message archive and scheduled jobs; other rooms cannot be attached or queried. Use this for counting, grouping, joining and questions the search tools do not shape well.\n\nThe engine is SQLite. Schema:\n\nmemories(id, key, content, category, room_id, created_at, updated_at)\nmessages(event_id, room_id, sender, body, at)\ncron_jobs(name, schedule, timezone, prompt, room_id, enabled, created_at, last_run, last_status)\n\nSELECT, WITH and EXPLAIN only; writes and ATTACH are refused. Use memory_store and cron_create to change things.";

/// What the model is told of `cron_create`.
pub const ABOUT_CRON_CREATE: &'static str = "Schedule a recurring job. The prompt runs as a normal turn at each firing and the result is posted to this room.";

/// What the model is told of `cron_delete`.
pub const ABOUT_CRON_DELETE: &'static str = "Delete a scheduled job by name, stopping it from firing again.";

/// The definition of `memory_recall`.
pub open spec fn memory_recall_definition() -> JsonView {
    definition(
        "memory_recall"@,
        ABOUT_MEMORY_RECALL@,
        no_members().push(
            ("query"@, described("string"@, "Describe the subject; \"quoted\" words are required exactly"@)),
        ).push(
            ("limit"@, described("integer"@, "Max results, default 8"@)),
        ),
        no_items().push(JsonView::Text("query"@)),
    )
}

/// The definition of `memory_recall`.
fn memory_recall_json() -> (r: Json)
    ensures
        r@ == memory_recall_definition(),
{
    let mut properties = members();
    properties = with(properties, "query", described_json("string", "Describe the subject; \"quoted\" words are required exactly"));
    properties = with(properties, "limit", described_json("integer", "Max results, default 8"));
    let mut required = no_json();
    required = and(required, json::text("query"));
    definition_json("memory_recall", ABOUT_MEMORY_RECALL, properties, required)
}

/// The definition of `memory_store`.
pub open spec fn memory_store_definition() -> JsonView {
    definition(
        "memory_store"@,
        ABOUT_MEMORY_STORE@,
        no_members().push(
            ("key"@, described("string"@, "Short stable identifier, reused to revise an entry, e.g. 'kettle' or 'owner-timezone'"@)),
        ).push(
            ("content"@, kind("string"@)),
        ).push(
            ("category"@, categories()),
        ),
        no_items().push(JsonView::Text("key"@)).push(JsonView::Text("content"@)),
    )
}

/// The definition of `memory_store`.
fn memory_store_json() -> (r: Json)
    ensures
        r@ == memory_store_definition(),
{
    let mut properties = members();
    properties = with(properties, "key", described_json("string", "Short stable identifier, reused to revise an entry, e.g. 'kettle' or 'owner-timezone'"));
    properties = with(properties, "content", kind_json("string"));
    properties = with(properties, "category", categories_json());
    let mut required = no_json();
    required = and(required, json::text("key"));
    required = and(required, json::text("content"));
    definition_json("memory_store", ABOUT_MEMORY_STORE, properties, required)
}

/// The definition of `memory_forget`.
pub open spec fn memory_forget_definition() -> JsonView {
    definition(
        "memory_forget"@,
        ABOUT_MEMORY_FORGET@,
        no_members().push(
            ("key"@, kind("string"@)),
        ),
        no_items().push(JsonView::Text("key"@)),
    )
}

/// The definition of `memory_forget`.
fn memory_forget_json() -> (r: Json)
    ensures
        r@ == memory_forget_definition(),
{
    let mut properties = members();
    properties = with(properties, "key", kind_json("string"));
    let mut required = no_json();
    required = and(required, json::text("key"));
    definition_json("memory_forget", ABOUT_MEMORY_FORGET, properties, required)
}

/// The definition of `search_messages`.
pub open spec fn search_messages_definition() -> JsonView {
    definition(
        "search_messages"@,
        ABOUT_SEARCH_MESSAGES@,
        no_members().push(
            ("query"@, described("string"@, "Describe the subject; \"quoted\" words are required exactly"@)),
        ).push(
            ("limit"@, described("integer"@, "Default 8"@)),
        ),
        no_items().push(JsonView::Text("query"@)),
    )
}

/// The definition of `search_messages`.
fn search_messages_json() -> (r: Json)
    ensures
        r@ == search_messages_definition(),
{
    let mut properties = members();
    properties = with(properties, "query", described_json("string", "Describe the subject; \"quoted\" words are required exactly"));
    properties = with(properties, "limit", described_json("integer", "Default 8"));
    let mut required = no_json();
    required = and(required, json::text("query"));
    definition_json("search_messages", ABOUT_SEARCH_MESSAGES, properties, required)
}

/// The definition of `send_message`.
pub open spec fn send_message_definition() -> JsonView {
    definition(
        "send_message"@,
        ABOUT_SEND_MESSAGE@,
        no_members().push(
            ("text"@, kind("string"@)),
        ),
        no_items().push(JsonView::Text("text"@)),
    )
}

/// The definition of `send_message`.
fn send_message_json() -> (r: Json)
    ensures
        r@ == send_message_definition(),
{
    let mut properties = members();
    properties = with(properties, "text", kind_json("string"));
    let mut required = no_json();
    required = and(required, json::text("text"));
    definition_json("send_message", ABOUT_SEND_MESSAGE, properties, required)
}

/// The definition of `web_search`.
pub open spec fn web_search_definition() -> JsonView {
    definition(
        "web_search"@,
        ABOUT_WEB_SEARCH@,
        no_members().push(
            ("query"@, kind("string"@)),
        ).push(
            ("num_results"@, described("integer"@, "Default 5, max 10"@)),
        ),
        no_items().push(JsonView::Text("query"@)),
    )
}

/// The definition of `web_search`.
fn web_search_json() -> (r: Json)
    ensures
        r@ == web_search_definition(),
{
    let mut properties = members();
    properties = with(properties, "query", kind_json("string"));
    properties = with(properties, "num_results", described_json("integer", "Default 5, max 10"));
    let mut required = no_json();
    required = and(required, json::text("query"));
    definition_json("web_search", ABOUT_WEB_SEARCH, properties, required)
}

/// The definition of `web_fetch`.
pub open spec fn web_fetch_definition() -> JsonView {
    definition(
        "web_fetch"@,
        ABOUT_WEB_FETCH@,
        no_members().push(
            ("url"@, kind("string"@)),
        ),
        no_items().push(JsonView::Text("url"@)),
    )
}

/// The definition of `web_fetch`.
fn web_fetch_json() -> (r: Json)
    ensures
        r@ == web_fetch_definition(),
{
    let mut properties = members();
    properties = with(properties, "url", kind_json("string"));
    let mut required = no_json();
    required = and(required, json::text("url"));
    definition_json("web_fetch", ABOUT_WEB_FETCH, properties, required)
}

/// The definition of `generate_image`.
pub open spec fn generate_image_definition() -> JsonView {
    definition(
        "generate_image"@,
        ABOUT_GENERATE_IMAGE@,
        no_members().push(
            ("prompt"@, kind("string"@)),
        ).push(
            ("model"@, described("string"@, "Optional override"@)),
        ),
        no_items().push(JsonView::Text("prompt"@)),
    )
}

/// The definition of `generate_image`.
fn generate_image_json() -> (r: Json)
    ensures
        r@ == generate_image_definition(),
{
    let mut properties = members();
    properties = with(properties, "prompt", kind_json("string"));
    properties = with(properties, "model", described_json("string", "Optional override"));
    let mut required = no_json();
    required = and(required, json::text("prompt"));
    definition_json("generate_image", ABOUT_GENERATE_IMAGE, properties, required)
}

/// The definition of `write_file`.
pub open spec fn write_file_definition() -> JsonView {
    definition(
        "write_file"@,
        ABOUT_WRITE_FILE@,
        no_members().push(
            ("path"@, kind("string"@)),
        ).push(
            ("content"@, kind("string"@)),
        ),
        no_items().push(JsonView::Text("path"@)).push(JsonView::Text("content"@)),
    )
}

/// The definition of `write_file`.
fn write_file_json() -> (r: Json)
    ensures
        r@ == write_file_definition(),
{
    let mut properties = members();
    properties = with(properties, "path", kind_json("string"));
    properties = with(properties, "content", kind_json("string"));
    let mut required = no_json();
    required = and(required, json::text("path"));
    required = and(required, json::text("content"));
    definition_json("write_file", ABOUT_WRITE_FILE, properties, required)
}

/// The definition of `edit_file`.
pub open spec fn edit_file_definition() -> JsonView {
    definition(
        "edit_file"@,
        ABOUT_EDIT_FILE@,
        no_members().push(
            ("path"@, kind("string"@)),
        ).push(
            ("edits"@, edit_list()),
        ),
        no_items().push(JsonView::Text("path"@)).push(JsonView::Text("edits"@)),
    )
}

/// The definition of `edit_file`.
fn edit_file_json() -> (r: Json)
    ensures
        r@ == edit_file_definition(),
{
    let mut properties = members();
    properties = with(properties, "path", kind_json("string"));
    properties = with(properties, "edits", edit_list_json());
    let mut required = no_json();
    required = and(required, json::text("path"));
    required = and(required, json::text("edits"));
    definition_json("edit_file", ABOUT_EDIT_FILE, properties, required)
}

/// The definition of `bash`.
pub open spec fn bash_definition() -> JsonView {
    definition(
        "bash"@,
        ABOUT_BASH@,
        no_members().push(
            ("script"@, kind("string"@)),
        ),
        no_items().push(JsonView::Text("script"@)),
    )
}

/// The definition of `bash`.
fn bash_json() -> (r: Json)
    ensures
        r@ == bash_definition(),
{
    let mut properties = members();
    properties = with(properties, "script", kind_json("string"));
    let mut required = no_json();
    required = and(required, json::text("script"));
    definition_json("bash", ABOUT_BASH, properties, required)
}

/// The definition of `sql_query`.
pub open spec fn sql_query_definition() -> JsonView {
    definition(
        "sql_query"@,
        ABOUT_SQL_QUERY@,
        no_members().push(
            ("query"@, described("string"@, "A single SELECT, WITH or EXPLAIN statement"@)),
        ).push(
            ("limit"@, described("integer"@, "Max rows returned, default 50"@)),
        ),
        no_items().push(JsonView::Text("query"@)),
    )
}

/// The definition of `sql_query`.
fn sql_query_json() -> (r: Json)
    ensures
        r@ == sql_query_definition(),
{
    let mut properties = members();
    properties = with(properties, "query", described_json("string", "A single SELECT, WITH or EXPLAIN statement"));
    properties = with(properties, "limit", described_json("integer", "Max rows returned, default 50"));
    let mut required = no_json();
    required = and(required, json::text("query"));
    definition_json("sql_query", ABOUT_SQL_QUERY, properties, required)
}

/// The definition of `cron_create`.
pub open spec fn cron_create_definition() -> JsonView {
    definition(
        "cron_create"@,
        ABOUT_CRON_CREATE@,
        no_members().push(
            ("name"@, described("string"@, "Unique short name"@)),
        ).push(
            ("schedule"@, described("string"@, "5-field cron expression, e.g. '0 7 * * *'"@)),
        ).push(
            ("prompt"@, described("string"@, "What to do when it fires"@)),
        ).push(
            ("timezone"@, described("string"@, "IANA zone, defaults to the configured one"@)),
        ),
        no_items().push(JsonView::Text("name"@)).push(JsonView::Text("schedule"@)).push(JsonView::Text("prompt"@)),
    )
}

/// The definition of `cron_create`.
fn cron_create_json() -> (r: Json)
    ensures
        r@ == cron_create_definition(),
{
    let mut properties = members();
    properties = with(properties, "name", described_json("string", "Unique short name"));
    properties = with(properties, "schedule", described_json("string", "5-field cron expression, e.g. '0 7 * * *'"));
    properties = with(properties, "prompt", described_json("string", "What to do when it fires"));
    properties = with(properties, "timezone", described_json("string", "IANA zone, defaults to the configured one"));
    let mut required = no_json();
    required = and(required, json::text("name"));
    required = and(required, json::text("schedule"));
    required = and(required, json::text("prompt"));
    definition_json("cron_create", ABOUT_CRON_CREATE, properties, required)
}

/// The definition of `cron_delete`.
pub open spec fn cron_delete_definition() -> JsonView {
    definition(
        "cron_delete"@,
        ABOUT_CRON_DELETE@,
        no_members().push(
            ("name"@, kind("string"@)),
        ),
        no_items().push(JsonView::Text("name"@)),
    )
}

/// The definition of `cron_delete`.
fn cron_delete_json() -> (r: Json)
    ensures
        r@ == cron_delete_definition(),
{
    let mut properties = members();
    properties = with(properties, "name", kind_json("string"));
    let mut required = no_json();
    required = and(required, json::text("name"));
    definition_json("cron_delete", ABOUT_CRON_DELETE, properties, required)
}

/// The tools that the model is offered.
pub open spec fn tool_definitions() -> Seq<JsonView> {
    no_items()
        .push(memory_recall_definition())
        .push(memory_store_definition())
        .push(memory_forget_definition())
        .push(search_messages_definition())
        .push(send_message_definition())
        .push(web_search_definition())
        .push(web_fetch_definition())
        .push(generate_image_definition())
        .push(write_file_definition())
        .push(edit_file_definition())
        .push(bash_definition())
        .push(sql_query_definition())
        .push(cron_create_definition())
        .push(cron_delete_definition())
}

/// The tools that the model is offered.
pub fn definitions() -> (r: Vec<Json>)
    ensures
        json_views(r@) == tool_definitions(),
{
    let mut out = no_json();
    out = and(out, memory_recall_json());
    out = and(out, memory_store_json());
    out = and(out, memory_forget_json());
    out = and(out, search_messages_json());
    out = and(out, send_message_json());
    out = and(out, web_search_json());
    out = and(out, web_fetch_json());
    out = and(out, generate_image_json());
    out = and(out, write_file_json());
    out = and(out, edit_file_json());
    out = and(out, bash_json());
    out = and(out, sql_query_json());
    out = and(out, cron_create_json());
    out = and(out, cron_delete_json());
    out
}

} // verus!
