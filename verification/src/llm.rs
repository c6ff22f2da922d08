//! The OpenRouter protocol: what is asked of the model, and how its answer is put together.
use vstd::prelude::*;
use vstd::string::StringExecFns;

use crate::json::{self, array, json_views, members, no_members, object, with, Json, JsonView};
use crate::outside::{base64_bytes, base64_decode, base64_encode, base64_text};
use crate::text::{
    after_prefix, begins, chars_of, contains, find, find_from, from_utf8_lossy, has_substring,
    lossy, owned, same, slice_of, string_of, trim, trimmed,
};

verus! {

pub const CHAT_URL: &'static str = "https://openrouter.ai/api/v1/chat/completions";

pub const IMAGE_URL: &'static str = "https://openrouter.ai/api/v1/images";

/// What is needed to talk to the chat model. The model and the effort can be switched between
/// turns.
pub struct Llm {
    api_key: String,
    chat_model: String,
    reasoning_effort: String,
    timeout_s: u64,
}

/// One message of a conversation with the model.
#[derive(Debug)]
pub struct Message {
    pub role: String,
    /// A plain string, or an array of parts when the message carries images.
    pub content: Option<Json>,
    pub tool_calls: Vec<ToolCall>,
    pub tool_call_id: Option<String>,
}

/// A tool that the model wants called.
#[derive(Debug, Clone)]
pub struct ToolCall {
    pub id: String,
    pub kind: String,
    pub function: FunctionCall,
}

/// The function of a tool call.
#[derive(Debug, Clone)]
pub struct FunctionCall {
    pub name: String,
    /// Raw JSON text, as it came over the wire.
    pub arguments: String,
}

/// Token counts for one completion, as reported by the provider.
#[derive(Debug, Clone, Copy)]
pub struct Usage {
    pub prompt: u64,
    pub completion: u64,
}

/// An answer of the model.
pub struct Completion {
    pub message: Message,
    pub usage: Usage,
}

/// A file received in a room, already downloaded and decrypted.
#[derive(Debug, Clone)]
pub struct Attachment {
    pub bytes: Vec<u8>,
    pub media_type: String,
}

/// An image that a model made.
pub struct GeneratedImage {
    pub bytes: Vec<u8>,
    pub media_type: String,
}

// ---------------------------------------------------------------------------------------------
// Views
// ---------------------------------------------------------------------------------------------

/// What a tool call holds.
#[verifier::ext_equal]
pub struct ToolCallView {
    pub id: Seq<char>,
    pub kind: Seq<char>,
    pub name: Seq<char>,
    pub arguments: Seq<char>,
}

/// What a message holds.
#[verifier::ext_equal]
pub struct MessageView {
    pub role: Seq<char>,
    pub content: Option<JsonView>,
    pub tool_calls: Seq<ToolCallView>,
    pub tool_call_id: Option<Seq<char>>,
}

impl View for ToolCall {
    type V = ToolCallView;

    open spec fn view(&self) -> ToolCallView {
        ToolCallView {
            id: self.id@,
            kind: self.kind@,
            name: self.function.name@,
            arguments: self.function.arguments@,
        }
    }
}

/// What the calls of a list hold.
pub open spec fn call_views(v: Seq<ToolCall>) -> Seq<ToolCallView> {
    Seq::new(v.len(), |i: int| v[i]@)
}

/// The character sequence of an optional owned string.
pub open spec fn optional_string(s: Option<String>) -> Option<Seq<char>> {
    match s {
        Some(t) => Some(t@),
        None => None,
    }
}

/// The view of an optional owned value.
pub open spec fn optional_content(v: Option<Json>) -> Option<JsonView> {
    match v {
        Some(j) => Some(j@),
        None => None,
    }
}

impl View for Message {
    type V = MessageView;

    open spec fn view(&self) -> MessageView {
        MessageView {
            role: self.role@,
            content: optional_content(self.content),
            tool_calls: call_views(self.tool_calls@),
            tool_call_id: optional_string(self.tool_call_id),
        }
    }
}

/// What the messages of a list hold.
pub open spec fn message_views(v: Seq<Message>) -> Seq<MessageView> {
    Seq::new(v.len(), |i: int| v[i]@)
}

// ---------------------------------------------------------------------------------------------
// Messages
// ---------------------------------------------------------------------------------------------

/// The kind of a tool call that does not say.
pub fn default_tool_type() -> (r: String)
    ensures
        r@ == "function"@,
{
    owned("function")
}

/// A message that is a plain string.
pub open spec fn plain_view(role: Seq<char>, content: Seq<char>) -> MessageView {
    MessageView {
        role,
        content: Some(JsonView::Text(content)),
        tool_calls: Seq::empty(),
        tool_call_id: None,
    }
}

/// The data URI of an image.
pub open spec fn data_uri(image: Attachment) -> Seq<char> {
    "data:"@ + image.media_type@ + ";base64,"@ + base64_text(image.bytes@)
}

/// The text part of a message with images.
pub open spec fn text_part(text: Seq<char>) -> JsonView {
    JsonView::Object(
        no_members().push(("type"@, JsonView::Text("text"@))).push(
            ("text"@, JsonView::Text(text)),
        ),
    )
}

/// The part of a message that carries an image.
pub open spec fn image_part(image: Attachment) -> JsonView {
    JsonView::Object(
        no_members().push(("type"@, JsonView::Text("image_url"@))).push(
            (
                "image_url"@,
                JsonView::Object(no_members().push(("url"@, JsonView::Text(data_uri(image))))),
            ),
        ),
    )
}

/// A user message that carries images after its text.
pub open spec fn with_images_view(text: Seq<char>, images: Seq<Attachment>) -> MessageView {
    MessageView {
        role: "user"@,
        content: Some(
            JsonView::Array(
                seq![text_part(text)] + Seq::new(images.len(), |i: int| image_part(images[i])),
            ),
        ),
        tool_calls: Seq::empty(),
        tool_call_id: None,
    }
}

/// The result of a tool call.
pub open spec fn tool_result_view(call_id: Seq<char>, content: Seq<char>) -> MessageView {
    MessageView {
        role: "tool"@,
        content: Some(JsonView::Text(content)),
        tool_calls: Seq::empty(),
        tool_call_id: Some(call_id),
    }
}

/// A tool call as it goes over the wire.
pub open spec fn call_wire(c: ToolCallView) -> JsonView {
    JsonView::Object(
        no_members().push(("id"@, JsonView::Text(c.id))).push(
            ("type"@, JsonView::Text(c.kind)),
        ).push(
            (
                "function"@,
                JsonView::Object(
                    no_members().push(("name"@, JsonView::Text(c.name))).push(
                        ("arguments"@, JsonView::Text(c.arguments)),
                    ),
                ),
            ),
        ),
    )
}

/// The calls of a message as they go over the wire.
pub open spec fn calls_wire(cs: Seq<ToolCallView>) -> JsonView {
    JsonView::Array(Seq::new(cs.len(), |i: int| call_wire(cs[i])))
}

/// A message as it goes over the wire: what is absent is left out.
pub open spec fn wire(m: MessageView) -> JsonView {
    let role = no_members().push(("role"@, JsonView::Text(m.role)));
    let content = match m.content {
        Some(c) => role.push(("content"@, c)),
        None => role,
    };
    let calls = if m.tool_calls.len() > 0 {
        content.push(("tool_calls"@, calls_wire(m.tool_calls)))
    } else {
        content
    };
    JsonView::Object(
        match m.tool_call_id {
            Some(id) => calls.push(("tool_call_id"@, JsonView::Text(id))),
            None => calls,
        },
    )
}

/// The messages as they go over the wire.
pub open spec fn wires(ms: Seq<MessageView>) -> JsonView {
    JsonView::Array(Seq::new(ms.len(), |i: int| wire(ms[i])))
}

impl Message {
    /// What the model is told about its role.
    pub fn system(content: &str) -> (r: Self)
        ensures
            r@ == plain_view("system"@, content@),
    {
        Self::plain("system", content)
    }

    /// A message of the user.
    pub fn user(content: &str) -> (r: Self)
        ensures
            r@ == plain_view("user"@, content@),
    {
        Self::plain("user", content)
    }

    fn plain(role: &str, content: &str) -> (r: Self)
        ensures
            r@ == plain_view(role@, content@),
    {
        let r = Message {
            role: owned(role),
            content: Some(json::text(content)),
            tool_calls: Vec::new(),
            tool_call_id: None,
        };
        assert(r@.tool_calls =~= Seq::empty());
        r
    }

    /// A user message carrying images alongside its text.
    /// Images are inlined as data URIs, which is the form the chat endpoint accepts.
    pub fn user_with_images(text: &str, images: &[Attachment]) -> (r: Self)
        ensures
            r@ == with_images_view(text@, images@),
    {
        let first = object(with(with(members(), "type", json::text("text")), "text", json::text(text)));
        let ghost wanted = seq![text_part(text@)] + Seq::new(
            images@.len(),
            |i: int| image_part(images@[i]),
        );
        let mut parts: Vec<Json> = Vec::new();
        parts.push(first);
        assert(json_views(parts@) =~= wanted.take(1));
        for i in 0..images.len()
            invariant
                wanted == seq![text_part(text@)] + Seq::new(
                    images@.len(),
                    |i: int| image_part(images@[i]),
                ),
                json_views(parts@) == wanted.take(i + 1),
        {
            let ghost before = json_views(parts@);
            let mut url = owned("data:");
            url.append(images[i].media_type.as_str());
            url.append(";base64,");
            url.append(base64_encode(images[i].bytes.as_slice()).as_str());
            let part = object(
                with(
                    with(members(), "type", json::text("image_url")),
                    "image_url",
                    object(with(members(), "url", json::text(url.as_str()))),
                ),
            );
            assert(part@ == image_part(images@[i as int]));
            parts.push(part);
            assert(json_views(parts@) =~= before.push(part@));
            assert(wanted.take(i + 2) =~= before.push(part@));
        }
        assert(wanted.take(wanted.len() as int) =~= wanted);
        let r = Message {
            role: owned("user"),
            content: Some(array(parts)),
            tool_calls: Vec::new(),
            tool_call_id: None,
        };
        assert(r@.tool_calls =~= Seq::empty());
        r
    }

    /// Text of the message, when it has any.
    pub fn text(&self) -> (r: Option<&str>)
        ensures
            json::optional_text(r) == (match self@.content {
                Some(c) => c.text(),
                None => None,
            }),
    {
        match &self.content {
            Some(c) => c.as_str(),
            None => None,
        }
    }

    /// The result of a tool call, for the model.
    pub fn tool_result(call_id: &str, content: &str) -> (r: Self)
        ensures
            r@ == tool_result_view(call_id@, content@),
    {
        let r = Message {
            role: owned("tool"),
            content: Some(json::text(content)),
            tool_calls: Vec::new(),
            tool_call_id: Some(owned(call_id)),
        };
        assert(r@.tool_calls =~= Seq::empty());
        r
    }

    /// The message as it goes over the wire.
    pub fn to_json(&self) -> (r: Json)
        ensures
            r@ == wire(self@),
    {
        let mut ms = with(members(), "role", json::text(self.role.as_str()));
        match &self.content {
            Some(c) => {
                ms = with(ms, "content", json::copy(c));
            },
            None => {},
        }
        if self.tool_calls.len() > 0 {
            let mut calls: Vec<Json> = Vec::new();
            for i in 0..self.tool_calls.len()
                invariant
                    json_views(calls@) == calls_wire(self@.tool_calls)->Array_0.take(i as int),
            {
                let ghost before = json_views(calls@);
                let call = call_json(&self.tool_calls[i]);
                calls.push(call);
                assert(json_views(calls@) =~= before.push(call@));
                assert(calls_wire(self@.tool_calls)->Array_0.take(i + 1) =~= before.push(call@));
            }
            assert(json_views(calls@) =~= calls_wire(self@.tool_calls)->Array_0);
            ms = with(ms, "tool_calls", array(calls));
        }
        match &self.tool_call_id {
            Some(id) => {
                ms = with(ms, "tool_call_id", json::text(id.as_str()));
            },
            None => {},
        }
        object(ms)
    }
}

/// A tool call as it goes over the wire.
fn call_json(c: &ToolCall) -> (r: Json)
    ensures
        r@ == call_wire(c@),
{
    let function = object(
        with(
            with(members(), "name", json::text(c.function.name.as_str())),
            "arguments",
            json::text(c.function.arguments.as_str()),
        ),
    );
    object(
        with(
            with(
                with(members(), "id", json::text(c.id.as_str())),
                "type",
                json::text(c.kind.as_str()),
            ),
            "function",
            function,
        ),
    )
}

// ---------------------------------------------------------------------------------------------
// Reading messages back
// ---------------------------------------------------------------------------------------------

/// The call that a value on the wire stands for: it needs an id and a function with a name and
/// arguments; a missing kind is `function`.
pub open spec fn call_from_wire(v: JsonView) -> Option<ToolCallView> {
    match (v.text_member("id"@), v.member("function"@)) {
        (Some(id), Some(f)) => match (f.text_member("name"@), f.text_member("arguments"@)) {
            (Some(name), Some(arguments)) => match v.member("type"@) {
                None => Some(ToolCallView { id, kind: "function"@, name, arguments }),
                Some(JsonView::Text(kind)) => Some(ToolCallView { id, kind, name, arguments }),
                Some(_) => None,
            },
            _ => None,
        },
        _ => None,
    }
}

/// The calls that values on the wire stand for, where all of them stand for one.
pub open spec fn calls_from_wire(vs: Seq<JsonView>) -> Option<Seq<ToolCallView>>
    decreases vs.len(),
{
    if vs.len() == 0 {
        Some(Seq::empty())
    } else {
        match (calls_from_wire(vs.drop_last()), call_from_wire(vs.last())) {
            (Some(earlier), Some(c)) => Some(earlier.push(c)),
            _ => None,
        }
    }
}

/// The tool call id of a message on the wire: absent, null, or a string.
pub open spec fn call_id_from_wire(v: JsonView) -> Option<Option<Seq<char>>> {
    match v.member("tool_call_id"@) {
        None => Some(None),
        Some(JsonView::Null) => Some(None),
        Some(JsonView::Text(id)) => Some(Some(id)),
        Some(_) => None,
    }
}

/// The message that a value on the wire stands for. It needs a role; null content is no content.
pub open spec fn from_wire(v: JsonView) -> Option<MessageView> {
    let content = match v.member("content"@) {
        None => None,
        Some(JsonView::Null) => None,
        Some(c) => Some(c),
    };
    let calls = match v.member("tool_calls"@) {
        None => Some(Seq::empty()),
        Some(JsonView::Array(cs)) => calls_from_wire(cs),
        Some(_) => None,
    };
    match (v.text_member("role"@), calls, call_id_from_wire(v)) {
        (Some(role), Some(tool_calls), Some(tool_call_id)) => Some(
            MessageView { role, content, tool_calls, tool_call_id },
        ),
        _ => None,
    }
}

/// Reads a tool call from the wire.
fn call_from_json(v: &Json) -> (r: Option<ToolCall>)
    ensures
        match r {
            Some(c) => call_from_wire(v@) == Some(c@),
            None => call_from_wire(v@) is None,
        },
{
    let id = match v.str_at("id") {
        Some(id) => id,
        None => {
            return None;
        },
    };
    let f = match v.get("function") {
        Some(f) => f,
        None => {
            return None;
        },
    };
    let name = match f.str_at("name") {
        Some(n) => n,
        None => {
            return None;
        },
    };
    let arguments = match f.str_at("arguments") {
        Some(a) => a,
        None => {
            return None;
        },
    };
    let kind = match v.get("type") {
        None => default_tool_type(),
        Some(Json::Text(k)) => k.clone(),
        Some(_) => {
            return None;
        },
    };
    Some(
        ToolCall {
            id: owned(id),
            kind,
            function: FunctionCall { name: owned(name), arguments: owned(arguments) },
        },
    )
}

impl Message {
    /// Reads a message from the wire.
    pub fn from_json(v: &Json) -> (r: Option<Message>)
        ensures
            match r {
                Some(m) => from_wire(v@) == Some(m@),
                None => from_wire(v@) is None,
            },
    {
        broadcast use crate::json::lemma_views;

        let role = match v.str_at("role") {
            Some(s) => s,
            None => {
                return None;
            },
        };
        let content = match v.get("content") {
            None => None,
            Some(Json::Null) => None,
            Some(c) => Some(json::copy(c)),
        };
        let mut tool_calls: Vec<ToolCall> = Vec::new();
        assert(call_views(tool_calls@) =~= Seq::empty());
        match v.get("tool_calls") {
            None => {},
            Some(Json::Array(cs)) => {
                let ghost all = json_views(cs@);
                assert(all.take(0) =~= Seq::empty());
                for i in 0..cs.len()
                    invariant
                        all == json_views(cs@),
                        v@.member("tool_calls"@) == Some(JsonView::Array(all)),
                        calls_from_wire(all.take(i as int)) == Some(call_views(tool_calls@)),
                {
                    let ghost before = call_views(tool_calls@);
                    assert(all.take(i + 1).drop_last() =~= all.take(i as int));
                    match call_from_json(&cs[i]) {
                        Some(c) => {
                            tool_calls.push(c);
                            assert(call_views(tool_calls@) =~= before.push(c@));
                        },
                        None => {
                            proof {
                                lemma_calls_from_wire_fails(all, i as int);
                            }
                            return None;
                        },
                    }
                }
                assert(all.take(cs@.len() as int) =~= all);
            },
            Some(_) => {
                return None;
            },
        }
        let tool_call_id = match v.get("tool_call_id") {
            None => None,
            Some(Json::Null) => None,
            Some(Json::Text(id)) => Some(id.clone()),
            Some(_) => {
                return None;
            },
        };
        Some(Message { role: owned(role), content, tool_calls, tool_call_id })
    }
}

/// One value that is no call spoils the list.
proof fn lemma_calls_from_wire_fails(vs: Seq<JsonView>, i: int)
    requires
        0 <= i < vs.len(),
        call_from_wire(vs[i]) is None,
    ensures
        calls_from_wire(vs) is None,
    decreases vs.len(),
{
    if i < vs.len() - 1 {
        lemma_calls_from_wire_fails(vs.drop_last(), i);
    }
}

// ---------------------------------------------------------------------------------------------
// Settings and requests
// ---------------------------------------------------------------------------------------------

/// Whether an effort is asked for: an empty one and `default` leave the choice to the provider.
pub open spec fn names_an_effort(effort: Seq<char>) -> bool {
    effort.len() > 0 && effort != "default"@
}

/// What is sent to the chat endpoint.
pub open spec fn chat_request(
    model: Seq<char>,
    effort: Seq<char>,
    messages: Seq<MessageView>,
    tools: Seq<JsonView>,
) -> JsonView {
    let base = no_members().push(("model"@, JsonView::Text(model))).push(
        ("messages"@, wires(messages)),
    ).push(("stream"@, JsonView::Bool(true))).push(
        (
            "stream_options"@,
            JsonView::Object(no_members().push(("include_usage"@, JsonView::Bool(true)))),
        ),
    );
    let offered = if tools.len() > 0 {
        base.push(("tools"@, JsonView::Array(tools))).push(
            ("tool_choice"@, JsonView::Text("auto"@)),
        )
    } else {
        base
    };
    JsonView::Object(
        if names_an_effort(effort) {
            offered.push(
                (
                    "reasoning"@,
                    JsonView::Object(no_members().push(("effort"@, JsonView::Text(effort)))),
                ),
            )
        } else {
            offered
        },
    )
}

/// What is sent to the image endpoint.
pub open spec fn image_request(model: Seq<char>, prompt: Seq<char>) -> JsonView {
    JsonView::Object(
        no_members().push(("model"@, JsonView::Text(model))).push(
            ("prompt"@, JsonView::Text(prompt)),
        ),
    )
}

impl Llm {
    /// The key that requests are signed with.
    pub closed spec fn key_view(&self) -> Seq<char> {
        self.api_key@
    }

    /// The chat model in use.
    pub closed spec fn model_view(&self) -> Seq<char> {
        self.chat_model@
    }

    /// The reasoning effort in use.
    pub closed spec fn effort_view(&self) -> Seq<char> {
        self.reasoning_effort@
    }

    /// The seconds after which a silent connection is given up.
    pub closed spec fn timeout_view(&self) -> u64 {
        self.timeout_s
    }

    /// The timeout applies between reads rather than to the whole response, so a long generation
    /// is fine and only a genuine stall fails.
    pub fn new(
        api_key: String,
        chat_model: String,
        reasoning_effort: String,
        timeout_s: u64,
    ) -> (r: Self)
        ensures
            r.key_view() == api_key@,
            r.model_view() == chat_model@,
            r.effort_view() == reasoning_effort@,
            r.timeout_view() == timeout_s,
    {
        Llm { api_key, chat_model, reasoning_effort, timeout_s }
    }

    /// The key that requests are signed with.
    pub fn api_key(&self) -> (r: &str)
        ensures
            r@ == self.key_view(),
    {
        self.api_key.as_str()
    }

    /// The chat model in use.
    pub fn model(&self) -> (r: &str)
        ensures
            r@ == self.model_view(),
    {
        self.chat_model.as_str()
    }

    /// The reasoning effort in use.
    pub fn reasoning_effort(&self) -> (r: &str)
        ensures
            r@ == self.effort_view(),
    {
        self.reasoning_effort.as_str()
    }

    /// The seconds after which a silent connection is given up.
    pub fn timeout_s(&self) -> (r: u64)
        ensures
            r == self.timeout_view(),
    {
        self.timeout_s
    }

    /// Uses another chat model from now on, and returns the one used so far.
    pub fn switch_model(&mut self, model: &str) -> (r: String)
        ensures
            r@ == old(self).model_view(),
            final(self).model_view() == model@,
            final(self).key_view() == old(self).key_view(),
            final(self).effort_view() == old(self).effort_view(),
            final(self).timeout_view() == old(self).timeout_view(),
    {
        let previous = self.chat_model.clone();
        self.chat_model = owned(model);
        previous
    }

    /// Uses another reasoning effort from now on, and returns the one used so far.
    pub fn switch_reasoning_effort(&mut self, effort: &str) -> (r: String)
        ensures
            r@ == old(self).effort_view(),
            final(self).effort_view() == effort@,
            final(self).key_view() == old(self).key_view(),
            final(self).model_view() == old(self).model_view(),
            final(self).timeout_view() == old(self).timeout_view(),
    {
        let previous = self.reasoning_effort.clone();
        self.reasoning_effort = owned(effort);
        previous
    }

    /// The body of one completion round, streamed.
    ///
    /// Streaming is what makes a long answer safe: tokens arrive continuously, so an idle timeout
    /// can be used rather than a deadline on the whole response.
    ///
    /// Reasoning cannot be switched off on every endpoint, but its budget can be capped. Left
    /// uncapped, a model spends the large majority of its output tokens thinking.
    pub fn chat_body(&self, messages: &[Message], tools: &[Json]) -> (r: Json)
        ensures
            r@ == chat_request(
                self.model_view(),
                self.effort_view(),
                message_views(messages@),
                json_views(tools@),
            ),
    {
        let mut ms = with(members(), "model", json::text(self.chat_model.as_str()));
        ms = with(ms, "messages", messages_json(messages));
        ms = with(ms, "stream", Json::Bool(true));
        ms =
        with(ms, "stream_options", object(with(members(), "include_usage", Json::Bool(true))));
        if tools.len() > 0 {
            ms = with(ms, "tools", json::copy_all(tools));
            ms = with(ms, "tool_choice", json::text("auto"));
        }
        let effort = self.reasoning_effort.as_str();
        if !same(effort, "") && !same(effort, "default") {
            ms = with(ms, "reasoning", object(with(members(), "effort", json::text(effort))));
        }
        proof {
            reveal_strlit("");
            assert(effort@.len() == 0 ==> effort@ =~= ""@);
        }
        object(ms)
    }

    /// The body of a request for an image. Image models are absent from the chat endpoint; this
    /// one takes a prompt rather than a list of messages.
    pub fn image_body(prompt: &str, model: &str) -> (r: Json)
        ensures
            r@ == image_request(model@, prompt@),
    {
        object(with(with(members(), "model", json::text(model)), "prompt", json::text(prompt)))
    }
}

/// The messages as they go over the wire.
fn messages_json(messages: &[Message]) -> (r: Json)
    ensures
        r@ == wires(message_views(messages@)),
{
    let ghost wanted = wires(message_views(messages@))->Array_0;
    let mut out: Vec<Json> = Vec::new();
    for i in 0..messages.len()
        invariant
            wanted == wires(message_views(messages@))->Array_0,
            json_views(out@) == wanted.take(i as int),
    {
        let ghost before = json_views(out@);
        let m = messages[i].to_json();
        out.push(m);
        assert(json_views(out@) =~= before.push(m@));
        assert(wanted.take(i + 1) =~= before.push(m@));
    }
    assert(json_views(out@) =~= wanted);
    array(out)
}

// ---------------------------------------------------------------------------------------------
// The streamed answer
// ---------------------------------------------------------------------------------------------

/// A tool call of which nothing has arrived yet.
pub open spec fn blank_call() -> ToolCallView {
    ToolCallView {
        id: Seq::empty(),
        kind: "function"@,
        name: Seq::empty(),
        arguments: Seq::empty(),
    }
}

/// The calls, with blank ones added so that the given index exists.
pub open spec fn padded(calls: Seq<ToolCallView>, index: int) -> Seq<ToolCallView> {
    if index < calls.len() {
        calls
    } else {
        calls + Seq::new((index + 1 - calls.len()) as nat, |i: int| blank_call())
    }
}

/// Text with a fragment added, where one arrived.
pub open spec fn extended(text: Seq<char>, fragment: Option<Seq<char>>) -> Seq<char> {
    match fragment {
        Some(f) => text + f,
        None => text,
    }
}

/// Which call a fragment belongs to: the first, where it does not say.
pub open spec fn call_index(part: JsonView) -> int {
    match part.uint_member("index"@) {
        Some(n) => n as usize as int,
        None => 0,
    }
}

/// A call with a fragment added: the id replaces the one so far, the name and the arguments grow.
pub open spec fn call_with(call: ToolCallView, part: JsonView) -> ToolCallView {
    ToolCallView {
        id: match part.text_member("id"@) {
            Some(id) => id,
            None => call.id,
        },
        kind: call.kind,
        name: match part.member("function"@) {
            Some(f) => extended(call.name, f.text_member("name"@)),
            None => call.name,
        },
        arguments: match part.member("function"@) {
            Some(f) => extended(call.arguments, f.text_member("arguments"@)),
            None => call.arguments,
        },
    }
}

/// The calls with one fragment merged in.
pub open spec fn merged_one(calls: Seq<ToolCallView>, part: JsonView) -> Seq<ToolCallView> {
    let index = call_index(part);
    let all = padded(calls, index);
    all.update(index, call_with(all[index], part))
}

/// The calls with fragments merged in, one after the other.
pub open spec fn merged(calls: Seq<ToolCallView>, parts: Seq<JsonView>) -> Seq<ToolCallView>
    decreases parts.len(),
{
    if parts.len() == 0 {
        calls
    } else {
        merged_one(merged(calls, parts.drop_last()), parts.last())
    }
}

/// A tool call of which nothing has arrived yet.
fn new_call() -> (r: ToolCall)
    ensures
        r@ == blank_call(),
{
    let r = ToolCall {
        id: String::new(),
        kind: owned("function"),
        function: FunctionCall { name: String::new(), arguments: String::new() },
    };
    assert(r@ =~= blank_call());
    r
}

/// Adds a fragment to a call.
fn add_fragment(call: &ToolCall, part: &Json) -> (r: ToolCall)
    ensures
        r@ == call_with(call@, part@),
{
    let id = match part.str_at("id") {
        Some(id) => owned(id),
        None => call.id.clone(),
    };
    let mut name = call.function.name.clone();
    let mut arguments = call.function.arguments.clone();
    match part.get("function") {
        Some(f) => {
            match f.str_at("name") {
                Some(n) => {
                    name.append(n);
                },
                None => {},
            }
            match f.str_at("arguments") {
                Some(a) => {
                    arguments.append(a);
                },
                None => {},
            }
        },
        None => {},
    }
    ToolCall { id, kind: call.kind.clone(), function: FunctionCall { name, arguments } }
}

/// Tool calls arrive in fragments across events: the name once, the arguments a few characters at
/// a time, each identified by its index.
pub fn merge_tool_calls(calls: &mut Vec<ToolCall>, parts: &[Json])
    ensures
        call_views(final(calls)@) == merged(call_views(old(calls)@), json_views(parts@)),
{
    let ghost start = call_views(calls@);
    let ghost all = json_views(parts@);
    assert(all.take(0) =~= Seq::empty());
    for i in 0..parts.len()
        invariant
            all == json_views(parts@),
            call_views(calls@) == merged(start, all.take(i as int)),
    {
        let part = &parts[i];
        let ghost before = call_views(calls@);
        let index: usize = match part.u64_at("index") {
            Some(n) => n as usize,
            None => 0,
        };
        while calls.len() <= index
            invariant
                call_views(calls@) == before + Seq::new(
                    (calls@.len() - before.len()) as nat,
                    |i: int| blank_call(),
                ),
                before.len() <= calls@.len(),
                calls@.len() <= index + 1 || calls@.len() == before.len(),
            decreases index + 1 - calls@.len(),
        {
            let ghost shorter = call_views(calls@);
            let call = new_call();
            calls.push(call);
            assert(call_views(calls@) =~= shorter.push(blank_call()));
            assert(call_views(calls@) =~= before + Seq::new(
                (calls@.len() - before.len()) as nat,
                |i: int| blank_call(),
            ));
        }
        assert(call_views(calls@) =~= padded(before, index as int));
        let ghost all_calls = call_views(calls@);
        let call = add_fragment(&calls[index], part);
        calls.set(index, call);
        assert(call_views(calls@) =~= all_calls.update(index as int, call@));
        assert(all.take(i + 1).drop_last() =~= all.take(i as int));
    }
    assert(all.take(parts@.len() as int) =~= all);
}

/// What has been gathered of a streamed answer.
#[verifier::ext_equal]
pub struct Gathered {
    pub content: Seq<char>,
    pub calls: Seq<ToolCallView>,
    pub usage: Usage,
}

/// The token counts, updated by those that an event reports.
pub open spec fn usage_after(usage: Usage, event: JsonView) -> Usage {
    match event.member("usage"@) {
        Some(u) => Usage {
            prompt: match u.uint_member("prompt_tokens"@) {
                Some(n) => n,
                None => usage.prompt,
            },
            completion: match u.uint_member("completion_tokens"@) {
                Some(n) => n,
                None => usage.completion,
            },
        },
        None => usage,
    }
}

/// What an event adds to the message: the member `delta` of its first choice.
pub open spec fn delta(event: JsonView) -> Option<JsonView> {
    match event.member("choices"@) {
        Some(choices) => match choices.zeroth() {
            Some(first) => first.member("delta"@),
            None => None,
        },
        None => None,
    }
}

/// What has been gathered after one event.
pub open spec fn after_event(g: Gathered, event: JsonView) -> Gathered {
    let usage = usage_after(g.usage, event);
    match delta(event) {
        Some(d) => Gathered {
            content: extended(g.content, d.text_member("content"@)),
            calls: match d.items_member("tool_calls"@) {
                Some(parts) => merged(g.calls, parts),
                None => g.calls,
            },
            usage,
        },
        None => Gathered { usage, ..g },
    }
}

/// The data of a line of the stream, where it carries any.
pub open spec fn event_data(line: Seq<char>) -> Option<Seq<char>> {
    if begins(trimmed(line), "data:"@) {
        Some(trimmed(trimmed(line).skip("data:"@.len() as int)))
    } else {
        None
    }
}

/// Whether a line ends the stream.
pub open spec fn is_done(line: Seq<char>) -> bool {
    event_data(line) == Some("[DONE]"@)
}

/// What has been gathered after one line. Lines without data and data that is no JSON add nothing.
pub open spec fn after_line(g: Gathered, line: Seq<char>) -> Gathered {
    match event_data(line) {
        Some(data) => match json::read(data) {
            Ok(event) => after_event(g, event),
            Err(_) => g,
        },
        None => g,
    }
}

/// Where the line that starts at `from` ends.
pub open spec fn line_end(text: Seq<char>, from: int) -> Option<int> {
    find_from(text, seq!['\n'], from)
}

/// What has been gathered, and what remains unread, after the complete lines from `from` on.
/// Reading stops behind the line that ends the stream.
pub open spec fn drained(g: Gathered, text: Seq<char>, from: int) -> (Gathered, Seq<char>)
    decreases text.len() - from,
{
    match line_end(text, from) {
        Some(n) => if from <= n < text.len() {
            let line = text.subrange(from, n);
            if is_done(line) {
                (g, text.skip(n + 1))
            } else {
                drained(after_line(g, line), text, n + 1)
            }
        } else {
            (g, text.skip(from))
        },
        None => (g, text.skip(from)),
    }
}

/// One assistant message being put together from server-sent events.
pub struct Stream {
    content: String,
    calls: Vec<ToolCall>,
    usage: Usage,
    buffer: String,
}

impl Stream {
    /// What has been gathered so far.
    pub closed spec fn gathered(&self) -> Gathered {
        Gathered { content: self.content@, calls: call_views(self.calls@), usage: self.usage }
    }

    /// The text after the last complete line.
    pub closed spec fn unread(&self) -> Seq<char> {
        self.buffer@
    }

    /// Nothing has arrived yet.
    pub fn new() -> (r: Self)
        ensures
            r.gathered() == (Gathered {
                content: Seq::empty(),
                calls: Seq::empty(),
                usage: (Usage { prompt: 0, completion: 0 }),
            }),
            r.unread() == Seq::<char>::empty(),
    {
        let r = Stream {
            content: String::new(),
            calls: Vec::new(),
            usage: Usage { prompt: 0, completion: 0 },
            buffer: String::new(),
        };
        assert(call_views(r.calls@) =~= Seq::empty());
        r
    }

    /// Takes in one event.
    pub fn event(&mut self, event: &Json)
        ensures
            final(self).gathered() == after_event(old(self).gathered(), event@),
            final(self).unread() == old(self).unread(),
    {
        match event.get("usage") {
            Some(u) => {
                let prompt: u64 = match u.u64_at("prompt_tokens") {
                    Some(n) => n,
                    None => self.usage.prompt,
                };
                let completion: u64 = match u.u64_at("completion_tokens") {
                    Some(n) => n,
                    None => self.usage.completion,
                };
                self.usage = Usage { prompt, completion };
            },
            None => {},
        }
        let choices = match event.get("choices") {
            Some(c) => c,
            None => {
                return ;
            },
        };
        let first = match choices.zero() {
            Some(f) => f,
            None => {
                return ;
            },
        };
        let d = match first.get("delta") {
            Some(d) => d,
            None => {
                return ;
            },
        };
        match d.str_at("content") {
            Some(text) => {
                self.content.append(text);
            },
            None => {},
        }
        match d.array_at("tool_calls") {
            Some(parts) => {
                merge_tool_calls(&mut self.calls, parts.as_slice());
            },
            None => {},
        }
    }

    /// Takes in one complete line; returns whether it ends the stream.
    fn line(&mut self, line: &str) -> (done: bool)
        ensures
            done == is_done(line@),
            final(self).gathered() == (if done {
                old(self).gathered()
            } else {
                after_line(old(self).gathered(), line@)
            }),
            final(self).unread() == old(self).unread(),
    {
        match after_prefix(trim(line), "data:") {
            Some(rest) => {
                let data = trim(rest);
                if same(data, "[DONE]") {
                    return true;
                }
                match json::parse(data) {
                    Ok(event) => {
                        self.event(&event);
                    },
                    Err(_) => {},
                }
            },
            None => {},
        }
        false
    }

    /// Takes in more text of the stream. Events are separated by newlines; a partial line is kept
    /// for the text that follows.
    pub fn push_text(&mut self, text: &str)
        ensures
            (final(self).gathered(), final(self).unread()) == drained(
                old(self).gathered(),
                old(self).unread() + text@,
                0,
            ),
    {
        let mut buffer = self.buffer.clone();
        buffer.append(text);
        let chars = chars_of(buffer.as_str());
        let newline: Vec<char> = vec!['\n'];
        assert(newline@ =~= seq!['\n']);
        let ghost start = self.gathered();
        let end: usize = chars.len();
        let mut from: usize = 0;
        loop
            invariant_except_break
                drained(start, chars@, 0) == drained(self.gathered(), chars@, from as int),
            invariant
                from <= end,
                end == chars@.len(),
                newline@ == seq!['\n'],
            ensures
                from <= chars@.len(),
                drained(start, chars@, 0) == (self.gathered(), chars@.skip(from as int)),
            decreases chars@.len() - from,
        {
            proof {
                crate::text::lemma_find_from(chars@, seq!['\n'], from as int);
            }
            match find(chars.as_slice(), newline.as_slice(), from) {
                Some(n) => {
                    let line = string_of(slice_of(&chars, from, n).as_slice());
                    let done = self.line(line.as_str());
                    from = n + 1;
                    if done {
                        break ;
                    }
                },
                None => {
                    break ;
                },
            }
        }
        self.buffer = string_of(slice_of(&chars, from, end).as_slice());
        assert(chars@.subrange(from as int, end as int) =~= chars@.skip(from as int));
    }

    /// Takes in more bytes of the stream.
    pub fn feed(&mut self, chunk: &[u8])
        ensures
            (final(self).gathered(), final(self).unread()) == drained(
                old(self).gathered(),
                old(self).unread() + lossy(chunk@),
                0,
            ),
    {
        let text = from_utf8_lossy(chunk);
        self.push_text(text.as_str());
    }

    /// The message, once the stream has ended. What remains unread is dropped.
    pub fn finish(self) -> (r: Completion)
        ensures
            r.usage == self.gathered().usage,
            r.message@ == answer(self.gathered()),
    {
        let content = if same(self.content.as_str(), "") {
            None
        } else {
            Some(Json::Text(self.content))
        };
        proof {
            reveal_strlit("");
            assert(self.content@.len() == 0 ==> self.content@ =~= ""@);
        }
        Completion {
            message: Message {
                role: owned("assistant"),
                content,
                tool_calls: self.calls,
                tool_call_id: None,
            },
            usage: self.usage,
        }
    }
}

/// The assistant message that was gathered.
pub open spec fn answer(g: Gathered) -> MessageView {
    MessageView {
        role: "assistant"@,
        content: if g.content.len() == 0 {
            None
        } else {
            Some(JsonView::Text(g.content))
        },
        tool_calls: g.calls,
        tool_call_id: None,
    }
}

// ---------------------------------------------------------------------------------------------
// Failures
// ---------------------------------------------------------------------------------------------

/// How a request failed.
pub enum Failure {
    Timeout,
    Connect,
    Other,
}

/// Says how a request failed. A timeout and a connection failure need different responses.
pub open spec fn classified(failure: Failure, what: Seq<char>, detail: Seq<char>) -> Seq<char> {
    match failure {
        Failure::Timeout => "OpenRouter "@ + what
            + " timed out; the model took too long to respond"@,
        Failure::Connect => "could not reach OpenRouter "@ + what + ": "@ + detail,
        Failure::Other => "OpenRouter "@ + what + " request failed: "@ + detail,
    }
}

/// Says how a request failed. A timeout and a connection failure need different responses.
pub fn classify(failure: Failure, what: &str, detail: &str) -> (r: String)
    ensures
        r@ == classified(failure, what@, detail@),
{
    match failure {
        Failure::Timeout => {
            let mut out = owned("OpenRouter ");
            out.append(what);
            out.append(" timed out; the model took too long to respond");
            out
        },
        Failure::Connect => {
            let mut out = owned("could not reach OpenRouter ");
            out.append(what);
            out.append(": ");
            out.append(detail);
            out
        },
        Failure::Other => {
            let mut out = owned("OpenRouter ");
            out.append(what);
            out.append(" request failed: ");
            out.append(detail);
            out
        },
    }
}

/// The first line of a text, without its line ending.
pub open spec fn first_line(raw: Seq<char>) -> Seq<char> {
    match line_end(raw, 0) {
        Some(n) => if n > 0 && raw[n - 1] == '\r' {
            raw.take(n - 1)
        } else {
            raw.take(n)
        },
        None => raw,
    }
}

/// The beginning of a response body, for error messages: at most 200 characters of its first line.
pub open spec fn head_of(raw: Seq<char>) -> Seq<char> {
    let line = first_line(raw);
    if line.len() == 0 {
        "(empty body)"@
    } else if line.len() > 200 {
        line.take(200)
    } else {
        line
    }
}

/// First line of a response body, for error messages.
pub fn head(raw: &str) -> (r: String)
    ensures
        r@ == head_of(raw@),
{
    let chars = chars_of(raw);
    let newline: Vec<char> = vec!['\n'];
    assert(newline@ =~= seq!['\n']);
    proof {
        crate::text::lemma_find_from(chars@, seq!['\n'], 0);
    }
    let mut end: usize = match find(chars.as_slice(), newline.as_slice(), 0) {
        Some(n) => if n > 0 && chars[n - 1] == '\r' {
            n - 1
        } else {
            n
        },
        None => chars.len(),
    };
    assert(first_line(raw@) =~= raw@.take(end as int));
    if end == 0 {
        return owned("(empty body)");
    }
    if end > 200 {
        end = 200;
        assert(first_line(raw@).take(200) =~= raw@.take(200));
    }
    let kept = slice_of(&chars, 0, end);
    assert(kept@ =~= raw@.take(end as int));
    string_of(kept.as_slice())
}

/// What is said of a chat request that was refused.
pub open spec fn refused(status: Seq<char>, raw: Seq<char>) -> Seq<char> {
    "OpenRouter chat "@ + status + ": "@ + head_of(raw)
}

/// Says that a chat request was refused.
pub fn refusal(status: &str, raw: &str) -> (r: String)
    ensures
        r@ == refused(status@, raw@),
{
    let mut out = owned("OpenRouter chat ");
    out.append(status);
    out.append(": ");
    out.append(head(raw).as_str());
    out
}

/// Whether a failure says with which status a chat request was refused.
pub open spec fn names_status(text: Seq<char>) -> bool {
    begins(text, "OpenRouter chat "@) && text.len() > 16 && '0' <= text[16] <= '9'
}

/// Whether a failure is worth repeating: a timeout, an unreachable server, or one of the status
/// codes that mean "ask again later". A refusal is judged by its status alone, whatever its body
/// says.
pub open spec fn transient(text: Seq<char>) -> bool {
    if names_status(text) {
        ||| begins(text, "OpenRouter chat 500"@)
        ||| begins(text, "OpenRouter chat 502"@)
        ||| begins(text, "OpenRouter chat 503"@)
        ||| begins(text, "OpenRouter chat 504"@)
    } else {
        ||| contains(text, "timed out"@)
        ||| contains(text, "could not reach"@)
        ||| contains(text, "chat 500"@)
        ||| contains(text, "chat 502"@)
        ||| contains(text, "chat 503"@)
        ||| contains(text, "chat 504"@)
    }
}

/// Whether a failure says with which status a chat request was refused.
fn is_refusal(text: &str) -> (r: bool)
    ensures
        r == names_status(text@),
{
    proof {
        reveal_strlit("OpenRouter chat ");
    }
    match after_prefix(text, "OpenRouter chat ") {
        Some(rest) => {
            assert(rest@.len() > 0 ==> rest@[0] == text@[16]);
            rest.unicode_len() > 0 && '0' <= rest.get_char(0) && rest.get_char(0) <= '9'
        },
        None => false,
    }
}

/// Whether a failure is worth repeating.
pub fn is_transient(text: &str) -> (r: bool)
    ensures
        r == transient(text@),
{
    if is_refusal(text) {
        after_prefix(text, "OpenRouter chat 500").is_some() || after_prefix(
            text,
            "OpenRouter chat 502",
        ).is_some() || after_prefix(text, "OpenRouter chat 503").is_some() || after_prefix(
            text,
            "OpenRouter chat 504",
        ).is_some()
    } else {
        has_substring(text, "timed out") || has_substring(text, "could not reach")
            || has_substring(text, "chat 500") || has_substring(text, "chat 502")
            || has_substring(text, "chat 503") || has_substring(text, "chat 504")
    }
}

/// What to do after an attempt at a completion round.
pub enum ChatStep {
    Done(Completion),
    /// Wait, and make the same request once more.
    Again { after_s: u64 },
    Failed(String),
}

impl Llm {
    /// One completion round, retried once on a failure that is plausibly transient.
    ///
    /// A gateway error or an idle timeout ends a turn with nothing to show for the tokens already
    /// spent, and both are common enough to be worth absorbing. Any other failure is returned
    /// immediately, since repeating it would only fail again.
    pub fn chat(attempt: Result<Completion, String>, retried: bool) -> (r: ChatStep)
        ensures
            match attempt {
                Ok(c) => r == ChatStep::Done(c),
                Err(e) => if !retried && transient(e@) {
                    r == (ChatStep::Again { after_s: 2 })
                } else {
                    r == ChatStep::Failed(e)
                },
            },
    {
        match attempt {
            Ok(c) => ChatStep::Done(c),
            Err(e) => if !retried && is_transient(e.as_str()) {
                ChatStep::Again { after_s: 2 }
            } else {
                ChatStep::Failed(e)
            },
        }
    }
}

impl Default for Usage {
    fn default() -> (r: Self)
        ensures
            r == (Usage { prompt: 0, completion: 0 }),
    {
        Usage { prompt: 0, completion: 0 }
    }
}

impl Usage {
    /// The tokens of both directions.
    pub fn total(&self) -> (r: u64)
        requires
            self.prompt + self.completion <= u64::MAX,
        ensures
            r == self.prompt + self.completion,
    {
        self.prompt + self.completion
    }
}

// ---------------------------------------------------------------------------------------------
// Images
// ---------------------------------------------------------------------------------------------

/// Why an image reply is no image.
#[derive(Debug)]
pub enum ImageError {
    /// The body is no JSON: the status, the complaint, and the beginning of the body.
    NotJson { status: String, complaint: String, head: String },
    /// The request was refused: the status and the message of the reply.
    Refused { status: String, message: String },
    NoData,
    NoBase64,
    /// The image is no base64: the complaint.
    BadBase64(String),
}

impl ImageError {
    /// How the error reads.
    pub open spec fn words(self) -> Seq<char> {
        match self {
            ImageError::NotJson { status, complaint, head } =>
                "OpenRouter images returned non-JSON ("@ + status@ + "): "@ + complaint@ + ": "@
                    + head@,
            ImageError::Refused { status, message } => "OpenRouter images "@ + status@ + ": "@
                + message@,
            ImageError::NoData => "image response had no data"@,
            ImageError::NoBase64 => "image response had no b64_json"@,
            ImageError::BadBase64(complaint) => "decoding image base64: "@ + complaint@,
        }
    }

    /// How the error reads.
    pub fn message(&self) -> (r: String)
        ensures
            r@ == self.words(),
    {
        match self {
            ImageError::NotJson { status, complaint, head } => {
                let mut out = owned("OpenRouter images returned non-JSON (");
                out.append(status.as_str());
                out.append("): ");
                out.append(complaint.as_str());
                out.append(": ");
                out.append(head.as_str());
                out
            },
            ImageError::Refused { status, message } => {
                let mut out = owned("OpenRouter images ");
                out.append(status.as_str());
                out.append(": ");
                out.append(message.as_str());
                out
            },
            ImageError::NoData => owned("image response had no data"),
            ImageError::NoBase64 => owned("image response had no b64_json"),
            ImageError::BadBase64(complaint) => {
                let mut out = owned("decoding image base64: ");
                out.append(complaint.as_str());
                out
            },
        }
    }
}

/// The first element of an array member.
pub open spec fn first_of(payload: JsonView, key: Seq<char>) -> Option<JsonView> {
    match payload.member(key) {
        Some(list) => list.zeroth(),
        None => None,
    }
}

/// The image of a successful reply, still encoded, and its media type.
pub open spec fn encoded_image(payload: JsonView) -> Option<(Seq<char>, Seq<char>)> {
    match first_of(payload, "data"@) {
        Some(first) => match first.text_member("b64_json"@) {
            Some(b64) => Some(
                (
                    b64,
                    match first.text_member("media_type"@) {
                        Some(t) => t,
                        None => "image/png"@,
                    },
                ),
            ),
            None => None,
        },
        None => None,
    }
}

/// The message of a refusal.
pub open spec fn refusal_message(payload: JsonView) -> Seq<char> {
    match payload.member("error"@) {
        Some(e) => match e.text_member("message"@) {
            Some(m) => m,
            None => "unknown error"@,
        },
        None => "unknown error"@,
    }
}

/// Whether `r` is what a successful image reply amounts to: the decoded image of its first
/// element, with its media type.
pub open spec fn images_reply(
    payload: JsonView,
    r: Result<GeneratedImage, ImageError>,
) -> bool {
    match encoded_image(payload) {
        Some((b64, media_type)) => match base64_bytes(b64) {
            Ok(bytes) => r matches Ok(image) && image.bytes@ == bytes && image.media_type@
                == media_type,
            Err(complaint) => r matches Err(ImageError::BadBase64(c)) && c@ == complaint,
        },
        None => if first_of(payload, "data"@) is None {
            r == Err::<GeneratedImage, ImageError>(ImageError::NoData)
        } else {
            r == Err::<GeneratedImage, ImageError>(ImageError::NoBase64)
        },
    }
}

/// The image of a successful reply, still encoded, and its media type.
pub fn image_data(payload: &Json) -> (r: Result<(String, String), ImageError>)
    ensures
        match r {
            Ok((b64, media_type)) => encoded_image(payload@) == Some((b64@, media_type@)),
            Err(e) => encoded_image(payload@) is None && (if first_of(payload@, "data"@) is None {
                e == ImageError::NoData
            } else {
                e == ImageError::NoBase64
            }),
        },
{
    let list = match payload.get("data") {
        Some(list) => list,
        None => {
            return Err(ImageError::NoData);
        },
    };
    let first = match list.zero() {
        Some(first) => first,
        None => {
            return Err(ImageError::NoData);
        },
    };
    let b64 = match first.str_at("b64_json") {
        Some(b64) => b64,
        None => {
            return Err(ImageError::NoBase64);
        },
    };
    let media_type = match first.str_at("media_type") {
        Some(t) => t,
        None => "image/png",
    };
    Ok((owned(b64), owned(media_type)))
}

/// Reads the image out of a successful reply.
pub fn image_of(payload: &Json) -> (r: Result<GeneratedImage, ImageError>)
    ensures
        images_reply(payload@, r),
{
    match image_data(payload) {
        Ok((b64, media_type)) => match base64_decode(b64.as_str()) {
            Ok(bytes) => Ok(GeneratedImage { bytes, media_type }),
            Err(complaint) => Err(ImageError::BadBase64(complaint)),
        },
        Err(e) => Err(e),
    }
}

/// The message of a refusal.
pub fn refusal_text(payload: &Json) -> (r: String)
    ensures
        r@ == refusal_message(payload@),
{
    match payload.get("error") {
        Some(e) => match e.str_at("message") {
            Some(m) => owned(m),
            None => owned("unknown error"),
        },
        None => owned("unknown error"),
    }
}

impl Llm {
    /// What came of a request for an image: base64 plus the media type to upload as.
    pub fn image(status: &str, success: bool, raw: &str) -> (r: Result<GeneratedImage, ImageError>)
        ensures
            match json::read(raw@) {
                Err(complaint) => r matches Err(ImageError::NotJson { status: s, complaint: c, head: h })
                    && s@ == status@ && c@ == complaint && h@ == head_of(raw@),
                Ok(payload) => if success {
                    images_reply(payload, r)
                } else {
                    r matches Err(ImageError::Refused { status: s, message: m }) && s@ == status@
                        && m@ == refusal_message(payload)
                },
            },
    {
        match json::parse(raw) {
            Err(complaint) => Err(
                ImageError::NotJson { status: owned(status), complaint, head: head(raw) },
            ),
            Ok(payload) => if success {
                image_of(&payload)
            } else {
                Err(ImageError::Refused { status: owned(status), message: refusal_text(&payload) })
            },
        }
    }
}

// ---------------------------------------------------------------------------------------------
// Laws
// ---------------------------------------------------------------------------------------------

/// The names of the members that messages and calls have on the wire are all different.
proof fn lemma_names()
    ensures
        "role"@ != "content"@,
        "role"@ != "tool_calls"@,
        "role"@ != "tool_call_id"@,
        "content"@ != "tool_calls"@,
        "content"@ != "tool_call_id"@,
        "tool_calls"@ != "tool_call_id"@,
        "id"@ != "type"@,
        "id"@ != "function"@,
        "type"@ != "function"@,
        "name"@ != "arguments"@,
{
    reveal_strlit("role");
    reveal_strlit("content");
    reveal_strlit("tool_calls");
    reveal_strlit("tool_call_id");
    reveal_strlit("id");
    reveal_strlit("type");
    reveal_strlit("function");
    reveal_strlit("name");
    reveal_strlit("arguments");
    assert("role"@[0] != "name"@[0]);
    assert("name"@.len() == 4 && "role"@.len() == 4 && "type"@.len() == 4);
    assert("id"@.len() == 2);
    assert("tool_calls"@.len() == 10);
    assert("tool_call_id"@.len() == 12);
}

/// A call on the wire stands for that call.
proof fn lemma_call_is_read_back(c: ToolCallView)
    ensures
        call_from_wire(call_wire(c)) == Some(c),
{
    lemma_names();
    reveal_with_fuel(json::member_in, 4);
}

/// Calls on the wire stand for those calls.
proof fn lemma_calls_are_read_back(cs: Seq<ToolCallView>)
    ensures
        calls_from_wire(calls_wire(cs)->Array_0) == Some(cs),
    decreases cs.len(),
{
    let w = calls_wire(cs)->Array_0;
    if cs.len() > 0 {
        lemma_calls_are_read_back(cs.drop_last());
        lemma_call_is_read_back(cs.last());
        assert(w.drop_last() =~= calls_wire(cs.drop_last())->Array_0);
        assert(cs.drop_last().push(cs.last()) =~= cs);
    } else {
        assert(cs =~= Seq::empty());
    }
}

/// A message sent over the wire is read back as it was. Null content is left out, since on the
/// wire it means none.
pub proof fn law_a_message_is_read_back(m: MessageView)
    requires
        m.content != Some(JsonView::Null),
    ensures
        from_wire(wire(m)) == Some(m),
{
    lemma_names();
    lemma_calls_are_read_back(m.tool_calls);
    reveal_with_fuel(json::member_in, 5);
    assert(m.tool_calls.len() == 0 ==> m.tool_calls =~= Seq::empty());
}

/// A request names the model and the effort that are in use when it is made, so a switch holds for
/// every request after it, whatever the conversation and the tools.
pub proof fn law_a_request_follows_the_settings(
    model: Seq<char>,
    effort: Seq<char>,
    messages: Seq<MessageView>,
    tools: Seq<JsonView>,
)
    ensures
        chat_request(model, effort, messages, tools).text_member("model"@) == Some(model),
        match chat_request(model, effort, messages, tools).member("reasoning"@) {
            Some(r) => names_an_effort(effort) && r.text_member("effort"@) == Some(effort),
            None => !names_an_effort(effort),
        },
{
    reveal_strlit("model");
    reveal_strlit("messages");
    reveal_strlit("stream");
    reveal_strlit("stream_options");
    reveal_strlit("tools");
    reveal_strlit("tool_choice");
    reveal_strlit("reasoning");
    assert("reasoning"@.len() == 9);
    assert("model"@.len() == 5 && "messages"@.len() == 8 && "stream"@.len() == 6
        && "stream_options"@.len() == 14 && "tools"@.len() == 5 && "tool_choice"@.len() == 11);
    reveal_with_fuel(json::member_in, 8);
}

/// A member of what is sent is found under its name.
proof fn lemma_chat_members(
    model: Seq<char>,
    effort: Seq<char>,
    messages: Seq<MessageView>,
    tools: Seq<JsonView>,
)
    ensures
        ({
            let r = chat_request(model, effort, messages, tools);
            &&& r.member("messages"@) == Some(wires(messages))
            &&& r.member("stream"@) == Some(JsonView::Bool(true))
            &&& r.member("stream_options"@) matches Some(o) && o.member("include_usage"@) == Some(
                JsonView::Bool(true),
            )
            &&& r.member("tools"@) == (if tools.len() > 0 {
                Some(JsonView::Array(tools))
            } else {
                None
            })
            &&& r.text_member("tool_choice"@) == (if tools.len() > 0 {
                Some("auto"@)
            } else {
                None
            })
        }),
{
    reveal_strlit("model");
    reveal_strlit("messages");
    reveal_strlit("stream");
    reveal_strlit("stream_options");
    reveal_strlit("tools");
    reveal_strlit("tool_choice");
    reveal_strlit("reasoning");
    assert("reasoning"@.len() == 9);
    assert("model"@.len() == 5 && "messages"@.len() == 8 && "stream"@.len() == 6
        && "stream_options"@.len() == 14 && "tools"@.len() == 5 && "tool_choice"@.len() == 11);
    assert("model"@[0] == 'm' && "tools"@[0] == 't');
    reveal_with_fuel(json::member_in, 8);
}

/// A request carries the whole conversation, message by message and in its order, and every tool that
/// is offered; it is streamed and asks for the token counts. Without tools it offers none and leaves
/// no choice.
pub proof fn law_a_request_carries_the_conversation(
    llm: &Llm,
    messages: &[Message],
    tools: &[Json],
    r: Json,
)
    requires
        call_ensures(Llm::chat_body, (llm, messages, tools), r),
    ensures
        r@.items_member("messages"@) matches Some(sent) && sent.len() == messages@.len() && (forall|
            i: int,
        |
            0 <= i < messages@.len() ==> (#[trigger] sent[i]).text_member("role"@) == Some(
                messages@[i].role@,
            ) && sent[i].member("content"@) == messages@[i]@.content),
        r@.member("stream"@) == Some(JsonView::Bool(true)),
        r@.member("stream_options"@) matches Some(o) && o.member("include_usage"@) == Some(
            JsonView::Bool(true),
        ),
        tools@.len() > 0 ==> r@.items_member("tools"@) == Some(json_views(tools@))
            && r@.text_member("tool_choice"@) == Some("auto"@),
        tools@.len() == 0 ==> r@.member("tools"@) is None && r@.member("tool_choice"@) is None,
{
    let views = message_views(messages@);
    lemma_chat_members(llm.model_view(), llm.effort_view(), views, json_views(tools@));
    lemma_no_choice(llm.model_view(), llm.effort_view(), views, json_views(tools@));
    let sent = wires(views)->Array_0;
    assert forall|i: int| 0 <= i < messages@.len() implies (#[trigger] sent[i]).text_member(
        "role"@,
    ) == Some(messages@[i].role@) && sent[i].member("content"@) == messages@[i]@.content by {
        lemma_wire_members(views[i]);
    }
    assert(json_views(tools@).len() == tools@.len());
}

/// Without tools there is no choice of them.
proof fn lemma_no_choice(
    model: Seq<char>,
    effort: Seq<char>,
    messages: Seq<MessageView>,
    tools: Seq<JsonView>,
)
    ensures
        tools.len() == 0 ==> chat_request(model, effort, messages, tools).member("tool_choice"@)
            is None,
{
    reveal_strlit("model");
    reveal_strlit("messages");
    reveal_strlit("stream");
    reveal_strlit("stream_options");
    reveal_strlit("tool_choice");
    reveal_strlit("reasoning");
    assert("reasoning"@.len() == 9);
    assert("model"@.len() == 5 && "messages"@.len() == 8 && "stream"@.len() == 6
        && "stream_options"@.len() == 14 && "tool_choice"@.len() == 11);
    reveal_with_fuel(json::member_in, 8);
}

/// What is found in a message on the wire.
proof fn lemma_wire_members(m: MessageView)
    ensures
        wire(m).text_member("role"@) == Some(m.role),
        wire(m).member("content"@) == m.content,
        m.tool_calls.len() > 0 ==> wire(m).member("tool_calls"@) == Some(calls_wire(m.tool_calls)),
        m.tool_calls.len() == 0 ==> wire(m).member("tool_calls"@) is None,
        wire(m).text_member("tool_call_id"@) == m.tool_call_id,
{
    lemma_names();
    reveal_with_fuel(json::member_in, 5);
}

/// What the model is told about its role goes out as the system's, what a user says as the user's, and
/// the result of a tool call as the tool's, under the id of the call: each with the text that it was
/// given.
pub proof fn law_a_message_goes_out_under_its_role(
    content: &str,
    id: &str,
    system: Message,
    user: Message,
    result: Message,
    a: Json,
    b: Json,
    c: Json,
)
    requires
        call_ensures(Message::system, (content,), system),
        call_ensures(Message::user, (content,), user),
        call_ensures(Message::tool_result, (id, content), result),
        call_ensures(Message::to_json, (&system,), a),
        call_ensures(Message::to_json, (&user,), b),
        call_ensures(Message::to_json, (&result,), c),
    ensures
        a@.text_member("role"@) == Some("system"@),
        b@.text_member("role"@) == Some("user"@),
        c@.text_member("role"@) == Some("tool"@),
        a@.text_member("content"@) == Some(content@),
        b@.text_member("content"@) == Some(content@),
        c@.text_member("content"@) == Some(content@),
        c@.text_member("tool_call_id"@) == Some(id@),
        a@.member("tool_call_id"@) is None,
        b@.member("tool_call_id"@) is None,
{
    lemma_wire_members(system@);
    lemma_wire_members(user@);
    lemma_wire_members(result@);
    lemma_names();
    reveal_with_fuel(json::member_in, 5);
}

/// The calls of a message go out one by one and in their order, each with its id, its kind, the name of
/// its function and its arguments as they came.
pub proof fn law_calls_go_out_as_they_came(m: &Message, r: Json, i: int)
    requires
        call_ensures(Message::to_json, (m,), r),
        0 <= i < m.tool_calls@.len(),
    ensures
        r@.items_member("tool_calls"@) matches Some(sent) && sent.len() == m.tool_calls@.len() && {
            &&& sent[i].text_member("id"@) == Some(m.tool_calls@[i].id@)
            &&& sent[i].text_member("type"@) == Some(m.tool_calls@[i].kind@)
            &&& sent[i].member("function"@) matches Some(f) && f.text_member("name"@) == Some(
                m.tool_calls@[i].function.name@,
            ) && f.text_member("arguments"@) == Some(m.tool_calls@[i].function.arguments@)
        },
{
    lemma_wire_members(m@);
    lemma_names();
    assert(m@.tool_calls.len() == m.tool_calls@.len());
    assert(m@.tool_calls[i] == m.tool_calls@[i]@);
    reveal_with_fuel(json::member_in, 4);
}

/// A message with images has its text first and then every image, in their order: each as a data URI
/// that begins with the type of the image and ends with its bytes in base64.
pub proof fn law_images_follow_the_text(
    text: &str,
    images: &[Attachment],
    m: Message,
    i: int,
)
    requires
        call_ensures(Message::user_with_images, (text, images), m),
    ensures
        m.role@ == "user"@,
        m@.content matches Some(JsonView::Array(parts)) && {
            &&& parts.len() == images@.len() + 1
            &&& parts[0].text_member("type"@) == Some("text"@)
            &&& parts[0].text_member("text"@) == Some(text@)
            &&& 0 <= i < images@.len() ==> {
                &&& parts[i + 1].text_member("type"@) == Some("image_url"@)
                &&& parts[i + 1].member("image_url"@) matches Some(u) && (u.text_member("url"@)
                    matches Some(url) && begins(url, "data:"@ + images@[i].media_type@)
                    && crate::text::ends(url, base64_text(images@[i].bytes@)))
            }
        },
{
    reveal_strlit("type");
    reveal_strlit("text");
    reveal_strlit("image_url");
    assert("type"@[1] == 'y' && "text"@[1] == 'e' && "image_url"@.len() == 9 && "type"@.len() == 4);
    reveal_with_fuel(json::member_in, 3);
    if 0 <= i < images@.len() {
        let image = images@[i];
        let a = "data:"@ + image.media_type@;
        crate::text::lemma_added(a, ";base64,"@);
        crate::text::lemma_grow(a + ";base64,"@, base64_text(image.bytes@), a);
        crate::text::lemma_added(a + ";base64,"@, base64_text(image.bytes@));
        let parts = m@.content->0->Array_0;
        assert(parts[i + 1] == image_part(image));
    }
}

/// What is sent for an image names the model and the prompt, each as its own member.
pub proof fn law_an_image_request_names_model_and_prompt(prompt: &str, model: &str, r: Json)
    requires
        call_ensures(Llm::image_body, (prompt, model), r),
    ensures
        r@.text_member("model"@) == Some(model@),
        r@.text_member("prompt"@) == Some(prompt@),
{
    reveal_strlit("model");
    reveal_strlit("prompt");
    assert("model"@.len() == 5 && "prompt"@.len() == 6);
    reveal_with_fuel(json::member_in, 3);
}

/// What an event adds is added at the end of the text so far, and nothing else of the text changes.
/// Counts that an event reports replace those so far. Calls change only where it brings fragments of
/// them.
pub proof fn law_an_event_adds_to_what_was_gathered(g: Gathered, event: JsonView)
    ensures
        ({
            let after = after_event(g, event);
            &&& delta(event) is None ==> after.content == g.content && after.calls == g.calls
            &&& delta(event) matches Some(d) ==> {
                &&& d.text_member("content"@) matches Some(t) ==> after.content == g.content + t
                &&& d.text_member("content"@) is None ==> after.content == g.content
                &&& d.items_member("tool_calls"@) is None ==> after.calls == g.calls
                &&& d.items_member("tool_calls"@) matches Some(parts) ==> (parts.len() == 0
                    ==> after.calls == g.calls) && (parts.len() == 1 ==> after.calls == merged_one(
                    g.calls,
                    parts[0],
                ))
            }
            &&& event.member("usage"@) is None ==> after.usage == g.usage
            &&& event.member("usage"@) matches Some(u) ==> {
                &&& u.uint_member("prompt_tokens"@) matches Some(n) ==> after.usage.prompt == n
                &&& u.uint_member("completion_tokens"@) matches Some(n) ==> after.usage.completion
                    == n
            }
        }),
{
    reveal_with_fuel(merged, 2);
    if delta(event) is Some && delta(event)->0.items_member("tool_calls"@) is Some {
        let parts = delta(event)->0.items_member("tool_calls"@)->0;
        if parts.len() == 1 {
            assert(parts.drop_last() =~= Seq::empty());
        }
    }
}

/// What the first choice of an event says is what the event says: a text in it is added to the message.
pub proof fn law_the_first_choice_is_taken(g: Gathered, t: Seq<char>, others: Seq<JsonView>)
    ensures
        ({
            let said = JsonView::Object(
                no_members().push(
                    (
                        "delta"@,
                        JsonView::Object(no_members().push(("content"@, JsonView::Text(t)))),
                    ),
                ),
            );
            let event = JsonView::Object(
                no_members().push(("choices"@, JsonView::Array(seq![said] + others))),
            );
            after_event(g, event).content == g.content + t && after_event(g, event).usage == g.usage
        }),
{
    reveal_strlit("choices");
    reveal_strlit("usage");
    assert("choices"@.len() == 7 && "usage"@.len() == 5);
    reveal_with_fuel(json::member_in, 3);
}

/// A fragment goes to the call with its index and to no other: there its id replaces the one so far,
/// and its name and its arguments are added at the end. Calls before it that are not there yet are
/// made without a name.
pub proof fn law_a_fragment_goes_to_its_call(
    calls: Seq<ToolCallView>,
    part: JsonView,
    n: u64,
    j: int,
)
    requires
        part.uint_member("index"@) == Some(n),
        n <= usize::MAX,
        0 <= j,
    ensures
        ({
            let after = merged_one(calls, part);
            let before = if n < calls.len() {
                calls[n as int]
            } else {
                ToolCallView {
                    id: Seq::empty(),
                    kind: "function"@,
                    name: Seq::empty(),
                    arguments: Seq::empty(),
                }
            };
            &&& n < after.len()
            &&& after.len() == (if n < calls.len() {
                calls.len() as int
            } else {
                n + 1
            })
            &&& j != n && j < calls.len() ==> after[j] == calls[j]
            &&& j != n && calls.len() <= j < after.len() ==> after[j].name.len() == 0
                && after[j].arguments.len() == 0
            &&& after[n as int].kind == before.kind
            &&& part.text_member("id"@) matches Some(id) ==> after[n as int].id == id
            &&& part.text_member("id"@) is None ==> after[n as int].id == before.id
            &&& part.member("function"@) is None ==> after[n as int].name == before.name
                && after[n as int].arguments == before.arguments
            &&& part.member("function"@) matches Some(f) ==> {
                &&& f.text_member("name"@) matches Some(t) ==> after[n as int].name == before.name + t
                &&& f.text_member("name"@) is None ==> after[n as int].name == before.name
                &&& f.text_member("arguments"@) matches Some(t) ==> after[n as int].arguments
                    == before.arguments + t
                &&& f.text_member("arguments"@) is None ==> after[n as int].arguments
                    == before.arguments
            }
        }),
{
    assert(n as usize == n);
}

/// Fragments are merged one after the other.
pub proof fn law_fragments_are_merged_in_order(
    calls: Seq<ToolCallView>,
    a: Seq<JsonView>,
    b: Seq<JsonView>,
)
    ensures
        merged(calls, a + b) == merged(merged(calls, a), b),
    decreases b.len(),
{
    if b.len() == 0 {
        assert(a + b =~= a);
    } else {
        law_fragments_are_merged_in_order(calls, a, b.drop_last());
        assert((a + b).drop_last() =~= a + b.drop_last());
        assert((a + b).last() == b.last());
    }
}

/// A line that begins with `data:` carries what stands behind that, without the white space around it;
/// a line that does not carries nothing. The line that carries `[DONE]` ends the stream.
pub proof fn law_a_line_carries_its_data(line: Seq<char>)
    ensures
        event_data(line) is Some <==> begins(trimmed(line), "data:"@),
        event_data(line) matches Some(data) ==> data == trimmed(trimmed(line).skip(5)),
        is_done(line) <==> event_data(line) == Some("[DONE]"@),
{
    reveal_strlit("data:");
    assert("data:"@.len() == 5);
}

/// A line is read as soon as it is complete: what it carries is taken up first, and then what follows
/// it; behind the line that ends the stream nothing is read any more.
pub proof fn law_lines_are_read_one_by_one(g: Gathered, line: Seq<char>, rest: Seq<char>)
    requires
        forall|i: int| 0 <= i < line.len() ==> #[trigger] line[i] != '\n',
    ensures
        is_done(line) ==> drained(g, line + seq!['\n'] + rest, 0) == (g, rest),
        !is_done(line) ==> drained(g, line + seq!['\n'] + rest, 0) == drained(
            after_line(g, line),
            line + seq!['\n'] + rest,
            line.len() as int + 1,
        ),
        drained(g, line, 0) == (g, line),
{
    let text = line + seq!['\n'] + rest;
    let n = line.len() as int;
    crate::text::lemma_find_from(text, seq!['\n'], 0);
    assert(text.subrange(n, n + 1) =~= seq!['\n']);
    assert(crate::text::occurs_at(text, seq!['\n'], n));
    assert forall|j: int| 0 <= j < n implies !#[trigger] crate::text::occurs_at(
        text,
        seq!['\n'],
        j,
    ) by {
        if crate::text::occurs_at(text, seq!['\n'], j) {
            assert(text.subrange(j, j + 1)[0] == '\n');
            assert(text[j] == line[j]);
        }
    }
    assert(line_end(text, 0) == Some(n));
    assert(text.subrange(0, n) =~= line);
    assert(text.skip(n + 1) =~= rest);
    crate::text::lemma_find_from(line, seq!['\n'], 0);
    if line_end(line, 0) is Some {
        let k = line_end(line, 0)->0;
        assert(line.subrange(k, k + 1)[0] == '\n');
        assert(line[k] == '\n');
    }
    assert(line.skip(0) =~= line);
}

/// The answer is the text that was gathered, where there is any, with all the calls that were, as the
/// assistant's.
pub proof fn law_the_answer_is_what_was_gathered(stream: Stream, r: Completion)
    requires
        call_ensures(Stream::finish, (stream,), r),
    ensures
        r.message@.role == "assistant"@,
        r.message@.content is None <==> stream.gathered().content.len() == 0,
        r.message@.content matches Some(c) ==> c == JsonView::Text(stream.gathered().content),
        r.message@.tool_calls == stream.gathered().calls,
        r.message@.tool_call_id is None,
        r.usage == stream.gathered().usage,
{
}

/// A failure is told with what was asked for and, where more is known, with that.
pub proof fn law_a_failure_is_told(failure: Failure, what: &str, detail: &str, r: String)
    requires
        call_ensures(classify, (failure, what, detail), r),
    ensures
        contains(r@, what@),
        failure is Timeout ==> contains(r@, "timed out"@),
        failure is Connect ==> begins(r@, "could not reach"@) && crate::text::ends(r@, detail@),
        failure is Other ==> contains(r@, "failed"@) && crate::text::ends(r@, detail@),
{
    match failure {
        Failure::Timeout => {
            let end = " timed out; the model took too long to respond"@;
            crate::text::lemma_parts("OpenRouter "@, what@, end);
            assert(contains(end, "timed out"@)) by {
                reveal_strlit("timed out");
                reveal_strlit(" timed out; the model took too long to respond");
                assert(end.subrange(1, 10) =~= "timed out"@);
                assert(crate::text::occurs_at(end, "timed out"@, 1));
            }
            crate::text::lemma_contains_within("OpenRouter "@ + what@, end, Seq::empty(), "timed out"@);
        },
        Failure::Connect => {
            let a = "could not reach OpenRouter "@;
            assert(begins(a, "could not reach"@)) by {
                reveal_strlit("could not reach OpenRouter ");
                reveal_strlit("could not reach");
                assert(a.subrange(0, 15) =~= "could not reach"@);
            }
            crate::text::lemma_added(a, what@);
            crate::text::lemma_grow(a, what@, "could not reach"@);
            crate::text::lemma_grow(a + what@, ": "@, what@);
            crate::text::lemma_grow(a + what@, ": "@, "could not reach"@);
            crate::text::lemma_grow(a + what@ + ": "@, detail@, what@);
            crate::text::lemma_grow(a + what@ + ": "@, detail@, "could not reach"@);
            crate::text::lemma_added(a + what@ + ": "@, detail@);
        },
        Failure::Other => {
            let a = "OpenRouter "@;
            let end = " request failed: "@;
            assert(contains(end, "failed"@)) by {
                reveal_strlit(" request failed: ");
                reveal_strlit("failed");
                assert(end.subrange(9, 15) =~= "failed"@);
                assert(crate::text::occurs_at(end, "failed"@, 9));
            }
            crate::text::lemma_added(a, what@);
            crate::text::lemma_grow(a + what@, end, what@);
            crate::text::lemma_contains_within(a + what@, end, Seq::empty(), "failed"@);
            crate::text::lemma_grow(a + what@ + end, detail@, what@);
            crate::text::lemma_grow(a + what@ + end, detail@, "failed"@);
            crate::text::lemma_added(a + what@ + end, detail@);
        },
    }
}

/// Of a body the beginning of its first line is shown: no line break, no more than two hundred
/// characters, and nothing that does not stand at the front of the body. Something is always shown.
pub proof fn law_the_head_begins_the_body(raw: &str, r: String)
    requires
        call_ensures(head, (raw,), r),
    ensures
        0 < r@.len() <= 200,
        raw@.len() > 0 && raw@[0] != '\n' && raw@[0] != '\r' ==> begins(raw@, r@) && (forall|i: int|
            0 <= i < r@.len() ==> #[trigger] r@[i] != '\n'),
        raw@.len() <= 200 && (forall|i: int| 0 <= i < raw@.len() ==> #[trigger] raw@[i] != '\n')
            && raw@.len() > 0 ==> r@ == raw@,
{
    reveal_strlit("(empty body)");
    crate::text::lemma_find_from(raw@, seq!['\n'], 0);
    let line = first_line(raw@);
    assert(line.len() <= raw@.len() && line =~= raw@.take(line.len() as int));
    if line_end(raw@, 0) is Some {
        let n = line_end(raw@, 0)->0;
        assert(raw@.subrange(n, n + 1)[0] == '\n');
        assert(raw@[n] == '\n');
    }
    assert forall|i: int| 0 <= i < line.len() implies #[trigger] line[i] != '\n' by {
        if raw@[i] == '\n' {
            assert(raw@.subrange(i, i + 1) =~= seq!['\n']);
            assert(crate::text::occurs_at(raw@, seq!['\n'], i));
        }
    }
    if raw@.len() > 0 && raw@[0] != '\n' && raw@[0] != '\r' {
        assert(raw@.subrange(0, r@.len() as int) =~= r@);
    }
    if forall|i: int| 0 <= i < raw@.len() ==> #[trigger] raw@[i] != '\n' {
        assert(raw@.take(raw@.len() as int) =~= raw@);
    }
}

/// A refusal is told with its status and the beginning of its body.
pub proof fn law_a_refusal_is_told_with_its_status(status: &str, raw: &str, r: String)
    requires
        call_ensures(refusal, (status, raw), r),
    ensures
        begins(r@, "OpenRouter chat "@ + status@),
        crate::text::ends(r@, head_of(raw@)),
{
    let a = "OpenRouter chat "@ + status@;
    crate::text::lemma_added(a, ": "@);
    crate::text::lemma_grow(a + ": "@, head_of(raw@), a);
    crate::text::lemma_added(a + ": "@, head_of(raw@));
}

/// A round that succeeded is done with, and with its own answer. One that failed is tried again at most
/// once, only where that is worth it, and else ends with its own failure.
pub proof fn law_a_round_is_repeated_at_most_once(
    attempt: Result<Completion, String>,
    retried: bool,
    r: ChatStep,
)
    requires
        call_ensures(Llm::chat, (attempt, retried), r),
    ensures
        attempt matches Ok(c) ==> r == ChatStep::Done(c),
        retried ==> !(r is Again),
        r is Again <==> !retried && (attempt matches Err(e) && transient(e@)),
        attempt matches Err(e) ==> !(r is Again) ==> r == ChatStep::Failed(e),
{
}

/// The image of a reply is the one that its first element holds: where that is some bytes in base64,
/// those bytes, with the type that it names or else as PNG.
pub proof fn law_the_image_of_a_reply_is_decoded(
    status: &str,
    raw: &str,
    r: Result<GeneratedImage, ImageError>,
    payload: JsonView,
    first: JsonView,
    others: Seq<JsonView>,
    b64: Seq<char>,
    bytes: Seq<u8>,
)
    requires
        call_ensures(Llm::image, (status, true, raw), r),
        json::read(raw@) == Ok::<JsonView, Seq<char>>(payload),
        payload.member("data"@) == Some(JsonView::Array(seq![first] + others)),
        first.text_member("b64_json"@) == Some(b64),
        crate::outside::encodes(b64, bytes),
    ensures
        r matches Ok(image) && image.bytes@ == bytes && (first.text_member("media_type"@) matches
            Some(t) ==> image.media_type@ == t) && (first.text_member("media_type"@) is None
            ==> image.media_type@ == "image/png"@),
{
    assert((seq![first] + others)[0] == first);
}

/// A reply that was not served well is never an image, whatever its body holds: the status is told, and
/// the message of the body where it has one.
pub proof fn law_a_refused_image_is_no_image(
    status: &str,
    raw: &str,
    r: Result<GeneratedImage, ImageError>,
)
    requires
        call_ensures(Llm::image, (status, false, raw), r),
    ensures
        r matches Err(e) && contains(e.words(), status@) && (json::read(raw@) matches Ok(payload)
            ==> (payload.member("error"@) matches Some(x) ==> (x.text_member("message"@) matches
            Some(m) ==> crate::text::ends(e.words(), m)))),
{
    let e = r->Err_0;
    match e {
        ImageError::NotJson { status: st, complaint, head } => {
            let a = "OpenRouter images returned non-JSON ("@;
            crate::text::lemma_added(a, st@);
            crate::text::lemma_grow(a + st@, "): "@, st@);
            crate::text::lemma_grow(a + st@ + "): "@, complaint@, st@);
            crate::text::lemma_grow(a + st@ + "): "@ + complaint@, ": "@, st@);
            crate::text::lemma_grow(a + st@ + "): "@ + complaint@ + ": "@, head@, st@);
        },
        ImageError::Refused { status: st, message } => {
            let a = "OpenRouter images "@;
            crate::text::lemma_added(a, st@);
            crate::text::lemma_grow(a + st@, ": "@, st@);
            crate::text::lemma_grow(a + st@ + ": "@, message@, st@);
            crate::text::lemma_added(a + st@ + ": "@, message@);
        },
        _ => {},
    }
}

/// A fragment of the arguments of a call.
pub open spec fn fragment(index: u64, arguments: Seq<char>) -> JsonView {
    JsonView::Object(
        no_members().push(("index"@, json::uint_view(index))).push(
            (
                "function"@,
                JsonView::Object(no_members().push(("arguments"@, JsonView::Text(arguments)))),
            ),
        ),
    )
}

/// Arguments that arrive in two fragments are as good as arguments that arrive in one.
pub proof fn law_fragments_of_arguments_join(
    calls: Seq<ToolCallView>,
    index: u64,
    a: Seq<char>,
    b: Seq<char>,
)
    ensures
        merged_one(merged_one(calls, fragment(index, a)), fragment(index, b)) == merged_one(
            calls,
            fragment(index, a + b),
        ),
{
    reveal_strlit("index");
    reveal_strlit("function");
    reveal_strlit("arguments");
    reveal_strlit("name");
    reveal_strlit("id");
    assert("index"@.len() == 5 && "function"@.len() == 8 && "arguments"@.len() == 9 && "name"@.len()
        == 4 && "id"@.len() == 2);
    reveal_with_fuel(json::member_in, 4);
    let i = call_index(fragment(index, a));
    let all = padded(calls, i);
    let first = merged_one(calls, fragment(index, a));
    assert(padded(first, i) =~= first);
    assert(all[i].arguments + (a + b) =~= all[i].arguments + a + b);
    assert(merged_one(first, fragment(index, b)) =~= merged_one(calls, fragment(index, a + b)));
}

/// Whether none of the complete lines from `from` on ends the stream.
pub open spec fn unending(text: Seq<char>, from: int) -> bool
    decreases text.len() - from,
{
    match line_end(text, from) {
        Some(n) => from <= n < text.len() ==> !is_done(text.subrange(from, n)) && unending(
            text,
            n + 1,
        ),
        None => true,
    }
}

/// A newline stands at an index exactly where the character there is one.
proof fn lemma_newline(text: Seq<char>, i: int)
    ensures
        crate::text::occurs_at(text, seq!['\n'], i) <==> 0 <= i < text.len() && text[i] == '\n',
{
    if 0 <= i < text.len() {
        assert(text.subrange(i, i + 1) =~= seq![text[i]]);
        assert(seq![text[i]][0] == text[i]);
        assert(seq!['\n'][0] == '\n');
    }
}

/// A line ends at the first newline.
proof fn lemma_line_end(text: Seq<char>, from: int)
    requires
        0 <= from,
    ensures
        match line_end(text, from) {
            Some(n) => from <= n < text.len() && text[n] == '\n' && forall|j: int|
                from <= j < n ==> text[j] != '\n',
            None => forall|j: int| from <= j < text.len() ==> text[j] != '\n',
        },
{
    crate::text::lemma_find_from(text, seq!['\n'], from);
    match line_end(text, from) {
        Some(n) => {
            lemma_newline(text, n);
            assert forall|j: int| from <= j < n implies text[j] != '\n' by {
                lemma_newline(text, j);
                assert(!crate::text::occurs_at(text, seq!['\n'], j));
            }
        },
        None => {
            assert forall|j: int| from <= j < text.len() implies text[j] != '\n' by {
                lemma_newline(text, j);
                assert(!crate::text::occurs_at(text, seq!['\n'], j));
            }
        },
    }
}

/// Draining depends only on the text from `from` on.
proof fn lemma_drained_shift(g: Gathered, text: Seq<char>, start: int, from: int)
    requires
        0 <= start <= from <= text.len(),
    ensures
        drained(g, text, from) == drained(g, text.skip(start), from - start),
    decreases text.len() - from,
{
    let rest = text.skip(start);
    lemma_line_end(text, from);
    lemma_line_end(rest, from - start);
    match line_end(text, from) {
        Some(n) => {
            assert(rest[n - start] == '\n');
            match line_end(rest, from - start) {
                Some(m) => {
                    if m < n - start {
                        assert(text[m + start] == '\n');
                    }
                    assert(m == n - start);
                },
                None => {},
            }
            assert(rest.subrange(from - start, n - start) =~= text.subrange(from, n));
            assert(rest.skip(n - start + 1) =~= text.skip(n + 1));
            if !is_done(text.subrange(from, n)) {
                lemma_drained_shift(after_line(g, text.subrange(from, n)), text, start, n + 1);
            }
        },
        None => {
            match line_end(rest, from - start) {
                Some(m) => {
                    assert(text[m + start] == '\n');
                },
                None => {},
            }
            assert(rest.skip(from - start) =~= text.skip(from));
        },
    }
}

/// Draining text, and then what it left together with more, is draining all of it.
proof fn lemma_drained_in_parts(g: Gathered, a: Seq<char>, b: Seq<char>, from: int)
    requires
        0 <= from <= a.len(),
        unending(a, from),
    ensures
        drained(g, a + b, from) == {
            let (h, left) = drained(g, a, from);
            drained(h, left + b, 0)
        },
    decreases a.len() - from,
{
    lemma_line_end(a, from);
    lemma_line_end(a + b, from);
    match line_end(a, from) {
        Some(n) => {
            assert((a + b)[n] == '\n');
            match line_end(a + b, from) {
                Some(m) => {
                    if m < n {
                        assert(a[m] == '\n');
                    }
                    assert(m == n);
                },
                None => {},
            }
            assert((a + b).subrange(from, n) =~= a.subrange(from, n));
            lemma_drained_in_parts(after_line(g, a.subrange(from, n)), a, b, n + 1);
        },
        None => {
            assert(drained(g, a, from) == (g, a.skip(from)));
            lemma_drained_shift(g, a + b, from, from);
            assert((a + b).skip(from) =~= a.skip(from) + b);
        },
    }
}

/// It does not matter where the stream is cut into chunks: taking in two texts one after the
/// other gives what taking in both at once gives. This holds up to the line that ends the stream,
/// behind which each chunk is read from where the last one stopped.
pub proof fn law_chunks_do_not_matter(g: Gathered, unread: Seq<char>, a: Seq<char>, b: Seq<char>)
    requires
        unending(unread + a, 0),
    ensures
        drained(g, unread + (a + b), 0) == {
            let (h, left) = drained(g, unread + a, 0);
            drained(h, left + b, 0)
        },
{
    lemma_drained_in_parts(g, unread + a, b, 0);
    assert(unread + a + b =~= unread + (a + b));
}

/// Timeouts, unreachable servers and the statuses that mean "ask again later" are worth repeating,
/// whatever else is said of them.
pub proof fn law_passing_failures_are_repeated(
    what: Seq<char>,
    detail: Seq<char>,
    reason: Seq<char>,
    raw: Seq<char>,
)
    requires
        !names_status("OpenRouter "@ + what),
    ensures
        transient(classified(Failure::Timeout, what, detail)),
        transient(classified(Failure::Connect, what, detail)),
        transient(refused("500"@ + reason, raw)),
        transient(refused("502"@ + reason, raw)),
        transient(refused("503"@ + reason, raw)),
        transient(refused("504"@ + reason, raw)),
{
    let timeout = classified(Failure::Timeout, what, detail);
    reveal_strlit("OpenRouter ");
    reveal_strlit("OpenRouter chat ");
    reveal_strlit("timed out");
    reveal_strlit(" timed out; the model took too long to respond");
    let i: int = what.len() + 12int;
    assert(timeout.subrange(i, i + "timed out"@.len()) =~= "timed out"@);
    assert(crate::text::occurs_at(timeout, "timed out"@, i));
    let named = "OpenRouter "@ + what;
    if names_status(timeout) {
        let n: int = named.len() as int;
        assert(timeout.subrange(0, 16) == "OpenRouter chat "@);
        if n > 16 {
            assert(named.subrange(0, 16) =~= timeout.subrange(0, 16));
        } else if n == 15 {
            assert(timeout[16] == 't');
        } else {
            assert(timeout[n] == ' ');
            assert(n < 16 ==> timeout[n] == timeout.subrange(0, 16)[n]);
        }
    }
    let connect = classified(Failure::Connect, what, detail);
    reveal_strlit("could not reach OpenRouter ");
    reveal_strlit("could not reach");
    assert(connect.subrange(0, "could not reach"@.len() as int) =~= "could not reach"@);
    assert(crate::text::occurs_at(connect, "could not reach"@, 0));
    assert(connect[0] == 'c');
    reveal_strlit("500");
    reveal_strlit("502");
    reveal_strlit("503");
    reveal_strlit("504");
    lemma_refused_by_status("500"@ + reason, raw);
    lemma_refused_by_status("502"@ + reason, raw);
    lemma_refused_by_status("503"@ + reason, raw);
    lemma_refused_by_status("504"@ + reason, raw);
    assert(("500"@ + reason).take(3) =~= "500"@);
    assert(("502"@ + reason).take(3) =~= "502"@);
    assert(("503"@ + reason).take(3) =~= "503"@);
    assert(("504"@ + reason).take(3) =~= "504"@);
}

/// A refusal is judged by its status.
proof fn lemma_refused_by_status(status: Seq<char>, raw: Seq<char>)
    requires
        status.len() >= 3,
        '0' <= status[0] <= '9',
    ensures
        transient(refused(status, raw)) == (status.take(3) == "500"@ || status.take(3) == "502"@
            || status.take(3) == "503"@ || status.take(3) == "504"@),
{
    reveal_strlit("OpenRouter chat ");
    reveal_strlit("500");
    reveal_strlit("502");
    reveal_strlit("503");
    reveal_strlit("504");
    reveal_strlit("OpenRouter chat 500");
    reveal_strlit("OpenRouter chat 502");
    reveal_strlit("OpenRouter chat 503");
    reveal_strlit("OpenRouter chat 504");
    let text = refused(status, raw);
    assert(text.subrange(0, 16) =~= "OpenRouter chat "@);
    assert(text.subrange(0, 19) =~= "OpenRouter chat "@ + status.take(3));
    assert("OpenRouter chat 500"@ =~= "OpenRouter chat "@ + "500"@);
    assert("OpenRouter chat 502"@ =~= "OpenRouter chat "@ + "502"@);
    assert("OpenRouter chat 503"@ =~= "OpenRouter chat "@ + "503"@);
    assert("OpenRouter chat 504"@ =~= "OpenRouter chat "@ + "504"@);
    assert(text.subrange(0, 19).skip(16) =~= status.take(3));
    assert("OpenRouter chat 500"@.skip(16) =~= "500"@);
    assert("OpenRouter chat 502"@.skip(16) =~= "502"@);
    assert("OpenRouter chat 503"@.skip(16) =~= "503"@);
    assert("OpenRouter chat 504"@.skip(16) =~= "504"@);
}

/// A refusal with any other status, such as a bad request or a rate limit, is final, whatever its
/// body says.
pub proof fn law_lasting_refusals_are_not_repeated(status: Seq<char>, raw: Seq<char>)
    requires
        status.len() >= 3,
        '0' <= status[0] <= '9',
        status.take(3) != "500"@,
        status.take(3) != "502"@,
        status.take(3) != "503"@,
        status.take(3) != "504"@,
    ensures
        !transient(refused(status, raw)),
{
    lemma_refused_by_status(status, raw);
}

/// The tokens of a round are those of what was asked and of what was answered.
pub proof fn law_all_tokens_are_counted(usage: &Usage, r: u64)
    requires
        call_ensures(Usage::total, (usage,), r),
        usage.prompt + usage.completion <= u64::MAX,
    ensures
        r - usage.completion == usage.prompt,
        r >= usage.prompt,
{
}

/// The reason that a refusal gives is told as it stands there.
pub proof fn law_the_reason_of_a_refusal_is_told(payload: &Json, r: String, e: JsonView)
    requires
        call_ensures(refusal_text, (payload,), r),
        payload@.member("error"@) == Some(e),
    ensures
        e.text_member("message"@) matches Some(m) ==> r@ == m,
        e.text_member("message"@) is None ==> r@ == "unknown error"@,
{
}

/// A failure is repeated where it says that time ran out or that nothing was reached, and a refusal
/// by its status alone.
pub proof fn law_only_passing_failures_are_repeated(text: &str, r: bool)
    requires
        call_ensures(is_transient, (text,), r),
    ensures
        !names_status(text@) && contains(text@, "timed out"@) ==> r,
        !names_status(text@) && contains(text@, "could not reach"@) ==> r,
        names_status(text@) && r ==> begins(text@, "OpenRouter chat 500"@) || begins(
            text@,
            "OpenRouter chat 502"@,
        ) || begins(text@, "OpenRouter chat 503"@) || begins(text@, "OpenRouter chat 504"@),
{
}

} // verus!
