//! A turn: what the model is told, and how its tool calls and answers are taken up.
use vstd::prelude::*;
use vstd::string::StringExecFns;

use crate::json::{self, no_members, Json, JsonView};
use crate::llm::{
    call_views, message_views, plain_view, tool_result_view, with_images_view, Attachment,
    Completion, FunctionCall, Message, MessageView, ToolCall, ToolCallView,
};
use crate::outside::{
    known_zone, local_time, local_time_of, text_of, LAST_MILLIS, NOW_PATTERN,
};
use crate::text::{
    begins, contains, ends, join, joined, lemma_added, lemma_grouped, lemma_grow,
    lemma_joined_holds, owned, split_words, trim, trimmed, views, words, Class,
};
use crate::tools::{told, Outcome};
use crate::truncated;

verus! {

/// How much of a tool call or its result is logged, in bytes.
pub const LOG_CHARS: usize = 512;

/// What the model is told about its machine.
pub const MACHINE: &'static str = "\n\n## your machine\n\n         You have a persistent Linux sandbox and a workspace directory that survive between conversations. run_code executes bash or python there, starting in the workspace, and you are root inside it: install whatever you need with apk, pip or npm and it stays installed. Reach the internet with curl or wget from the shell rather than asking for a tool. Nothing you do in there can touch anything else, so experiment freely, but the LAN is unreachable by design.\n\n         Read, list and search with cat, ls and rg in the shell. Two things are tools rather than shell commands because the shell cannot do them safely: write_file, which avoids guessing a heredoc delimiter, and edit_file, which refuses unless the text you give it matches exactly once and applies all of its edits or none.\n";

/// What comes before the recent messages of the room.
pub const AMBIENT: &'static str = "\n\n## recent room conversation\n\nThe room's recent messages, your own among them, each prefixed with who sent it. Context only: answer the message above, not these.\n\n";

/// What the model is told when it has to answer without more tools.
pub const OUT_OF_STEPS: &'static str = "You have used all the time or tool steps available. Answer now with what you have already found, and say plainly which parts you could not confirm. Do not request more tools.";

/// What the room is told when even that gave no answer.
pub const NO_ANSWER: &'static str = "I ran out of steps before finding an answer. Narrow the question and I'll retry.";

/// What does not change between turns.
pub struct Agent {
    /// The persona, put in front of everything else.
    pub soul: String,
    /// How many rounds of tool calls a turn may take.
    pub max_iterations: usize,
    /// After how many seconds a turn has to come to an end.
    pub max_duration_s: u64,
    /// The zone in which the model is told the time.
    pub timezone: String,
}

/// What a turn amounts to.
pub struct TurnResult {
    pub text: String,
    pub images: Vec<Image>,
    pub prompt_tokens: u64,
    pub completion_tokens: u64,
    pub tools_used: Vec<String>,
}

/// An image to send to the room.
pub struct Image {
    pub bytes: Vec<u8>,
    pub media_type: String,
    pub caption: String,
}

/// The message that a turn answers.
pub struct Incoming<'a> {
    pub room_id: &'a str,
    pub sender: &'a str,
    pub body: &'a str,
    pub ambient: Option<String>,
    pub reply_parent: Option<String>,
    pub attachments: Vec<Attachment>,
}

/// What an image holds.
#[verifier::ext_equal]
pub struct ImageView {
    pub bytes: Seq<u8>,
    pub media_type: Seq<char>,
    pub caption: Seq<char>,
}

/// What the result of a turn holds.
#[verifier::ext_equal]
pub struct TurnResultView {
    pub text: Seq<char>,
    pub images: Seq<ImageView>,
    pub prompt_tokens: u64,
    pub completion_tokens: u64,
    pub tools_used: Seq<Seq<char>>,
}

impl View for Image {
    type V = ImageView;

    open spec fn view(&self) -> ImageView {
        ImageView { bytes: self.bytes@, media_type: self.media_type@, caption: self.caption@ }
    }
}

/// What the images of a list hold.
pub open spec fn image_views(v: Seq<Image>) -> Seq<ImageView> {
    Seq::new(v.len(), |i: int| v[i]@)
}

impl View for TurnResult {
    type V = TurnResultView;

    open spec fn view(&self) -> TurnResultView {
        TurnResultView {
            text: self.text@,
            images: image_views(self.images@),
            prompt_tokens: self.prompt_tokens,
            completion_tokens: self.completion_tokens,
            tools_used: views(self.tools_used@),
        }
    }
}

// ---------------------------------------------------------------------------------------------
// What the model is told
// ---------------------------------------------------------------------------------------------

/// The system prompt: the persona, the time, the machine, and what the message refers to.
pub open spec fn prompt(
    soul: Seq<char>,
    now: Seq<char>,
    reply_parent: Option<String>,
    ambient: Option<String>,
) -> Seq<char> {
    let start = soul + "\n\n## right now\n\n"@ + now + "\n"@ + MACHINE@;
    let replied = match reply_parent {
        Some(parent) => start + "\n\n## the message being replied to\n\n"@ + parent@ + "\n"@,
        None => start,
    };
    match ambient {
        Some(a) => replied + AMBIENT@ + a@ + "\n"@,
        None => replied,
    }
}

/// The system prompt: the persona, the time, the machine, and what the message refers to.
pub fn system_prompt(soul: &str, incoming: &Incoming, now: &str) -> (r: String)
    ensures
        r@ == prompt(soul@, now@, incoming.reply_parent, incoming.ambient),
{
    let mut out = owned(soul);
    out.append("\n\n## right now\n\n");
    out.append(now);
    out.append("\n");
    out.append(MACHINE);
    match &incoming.reply_parent {
        Some(parent) => {
            out.append("\n\n## the message being replied to\n\n");
            out.append(parent.as_str());
            out.append("\n");
        },
        None => {},
    }
    match &incoming.ambient {
        Some(ambient) => {
            out.append(AMBIENT);
            out.append(ambient.as_str());
            out.append("\n");
        },
        None => {},
    }
    out
}

/// How an instant, in milliseconds since the epoch, is told in a zone. There is always a telling of
/// the years that people count in, in a zone that is known.
pub fn right_now(millis: i64, zone: &str) -> (r: Option<String>)
    ensures
        text_of(r) == local_time(millis, zone@, NOW_PATTERN@),
        known_zone(zone@) && 0 <= millis <= LAST_MILLIS ==> r is Some,
        !known_zone(zone@) ==> r is None,
{
    local_time_of(millis, zone, NOW_PATTERN)
}

/// The message of the user: who sent it and what it says, with its images where it has any.
pub open spec fn question(incoming: Incoming) -> MessageView {
    let text = incoming.sender@ + ": "@ + incoming.body@;
    if incoming.attachments@.len() == 0 {
        plain_view("user"@, text)
    } else {
        with_images_view(text, incoming.attachments@)
    }
}

/// Text on one line, cut to a byte budget.
pub open spec fn flattened(text: Seq<char>, max: nat) -> Seq<char> {
    truncated(joined(words(text, Class::White), " "@), max)
}

/// Text on one line, cut to a byte budget.
pub fn flatten(text: &str, max: usize) -> (r: String)
    ensures
        r@ == flattened(text@, max as nat),
{
    let all = join(split_words(text, &Class::White).as_slice(), " ");
    crate::truncate(all.as_str(), max)
}

/// An argument as it is logged.
pub open spec fn logged(entry: (Seq<char>, Seq<char>)) -> Seq<char> {
    entry.0 + "="@ + flattened(entry.1, LOG_CHARS as nat)
}

/// The arguments of a tool call as they are logged. Arguments that are no object are not.
pub open spec fn summary(args: JsonView) -> Seq<char> {
    match json::shown_members(args) {
        Some(entries) => joined(Seq::new(entries.len(), |i: int| logged(entries[i])), " "@),
        None => Seq::empty(),
    }
}

/// The arguments of a tool call as they are logged.
pub fn summarise(args: &serde_json::Value) -> (r: String)
    ensures
        r@ == summary(json::held(*args)),
{
    match json::shown_entries(args) {
        Some(entries) => {
            let ghost shown = json::pair_views(entries@);
            let ghost all = Seq::new(shown.len(), |i: int| logged(shown[i]));
            let mut parts: Vec<String> = Vec::new();
            for i in 0..entries.len()
                invariant
                    shown == json::pair_views(entries@),
                    all == Seq::new(shown.len(), |i: int| logged(shown[i])),
                    views(parts@) == all.take(i as int),
            {
                let ghost before = views(parts@);
                let mut part = entries[i].0.clone();
                part.append("=");
                part.append(flatten(entries[i].1.as_str(), LOG_CHARS).as_str());
                parts.push(part);
                assert(views(parts@) =~= before.push(part@));
                assert(all.take(i + 1) =~= before.push(part@));
            }
            assert(all.take(entries@.len() as int) =~= all);
            join(parts.as_slice(), " ")
        },
        None => String::new(),
    }
}

// ---------------------------------------------------------------------------------------------
// The turn
// ---------------------------------------------------------------------------------------------

/// Where a turn stands.
#[verifier::ext_equal]
pub enum Phase {
    /// A round can begin.
    Ready,
    /// The model has been asked, with tools at hand.
    Asked,
    /// The model has been asked to answer without tools.
    Forced,
    /// The model has asked for tool calls; those before `next` are done.
    Calling { calls: Seq<ToolCallView>, next: int },
    /// The answer is there.
    Done,
}

/// The state of a turn.
#[verifier::ext_equal]
pub struct State {
    pub messages: Seq<MessageView>,
    pub result: TurnResultView,
    /// How many rounds of tool calls have been completed.
    pub round: int,
    pub max: int,
    pub phase: Phase,
}

/// A turn that has not asked the model yet.
pub open spec fn opening(agent: Agent, incoming: Incoming, now: Seq<char>) -> State {
    State {
        messages: Seq::empty().push(
            plain_view(
                "system"@,
                prompt(agent.soul@, now, incoming.reply_parent, incoming.ambient),
            ),
        ).push(question(incoming)),
        result: TurnResultView {
            text: Seq::empty(),
            images: Seq::empty(),
            prompt_tokens: 0,
            completion_tokens: 0,
            tools_used: Seq::empty(),
        },
        round: 0,
        max: agent.max_iterations as int,
        phase: Phase::Ready,
    }
}

/// A round begins while rounds and time are left; otherwise an answer is forced.
pub open spec fn begun(s: State, out_of_time: bool) -> State {
    if s.phase == Phase::Ready {
        if s.round < s.max && !out_of_time {
            State { phase: Phase::Asked, ..s }
        } else {
            State {
                messages: s.messages.push(plain_view("user"@, OUT_OF_STEPS@)),
                phase: Phase::Forced,
                ..s
            }
        }
    } else {
        s
    }
}

/// The text of a reply.
pub open spec fn reply_text(m: MessageView) -> Seq<char> {
    match m.content {
        Some(c) => match c.text() {
            Some(t) => trimmed(t),
            None => Seq::empty(),
        },
        None => Seq::empty(),
    }
}

/// The result with the tokens of a completion added.
pub open spec fn charged(r: TurnResultView, c: Completion) -> TurnResultView {
    TurnResultView {
        prompt_tokens: (r.prompt_tokens + c.usage.prompt) as u64,
        completion_tokens: (r.completion_tokens + c.usage.completion) as u64,
        ..r
    }
}

/// A reply that asks for tools starts them; any other reply is the answer.
pub open spec fn after_reply(s: State, c: Completion) -> State {
    let paid = charged(s.result, c);
    let text = reply_text(c.message@);
    if s.phase == Phase::Forced {
        State {
            result: TurnResultView {
                text: if text.len() == 0 {
                    NO_ANSWER@
                } else {
                    text
                },
                ..paid
            },
            phase: Phase::Done,
            ..s
        }
    } else if c.message@.tool_calls.len() == 0 {
        State { result: TurnResultView { text, ..paid }, phase: Phase::Done, ..s }
    } else {
        State {
            messages: s.messages.push(c.message@),
            result: paid,
            phase: Phase::Calling { calls: c.message@.tool_calls, next: 0 },
            ..s
        }
    }
}

/// The images after an outcome.
pub open spec fn images_after(images: Seq<ImageView>, outcome: Outcome) -> Seq<ImageView> {
    match outcome {
        Outcome::Image { bytes, media_type, caption } => images.push(
            ImageView { bytes: bytes@, media_type: media_type@, caption: caption@ },
        ),
        Outcome::Text(_) => images,
    }
}

/// The outcome of a call is told to the model under the id of the call. When the last call of a
/// round is done, the next round can begin.
pub open spec fn after_call(s: State, outcome: Outcome) -> State {
    match s.phase {
        Phase::Calling { calls, next } => State {
            messages: s.messages.push(tool_result_view(calls[next].id, told(outcome))),
            result: TurnResultView {
                images: images_after(s.result.images, outcome),
                tools_used: s.result.tools_used.push(calls[next].name),
                ..s.result
            },
            round: if next + 1 == calls.len() {
                s.round + 1
            } else {
                s.round
            },
            phase: if next + 1 == calls.len() {
                Phase::Ready
            } else {
                Phase::Calling { calls, next: next + 1 }
            },
            ..s
        },
        _ => s,
    }
}

/// What holds of every state of a turn.
pub open spec fn well_formed(s: State) -> bool {
    &&& 0 <= s.round <= s.max
    &&& s.phase == Phase::Asked ==> s.round < s.max
    &&& s.phase matches Phase::Calling { calls, next } ==> 0 <= next < calls.len() && s.round
        < s.max
}

/// The arguments of a tool call. Arguments that are no JSON count as none.
pub open spec fn arguments_of(raw: Seq<char>) -> JsonView {
    match json::read(raw) {
        Ok(v) => v,
        Err(_) => JsonView::Object(no_members()),
    }
}

/// Reads the arguments of a tool call.
pub fn call_arguments(raw: &str) -> (r: Json)
    ensures
        r@ == arguments_of(raw@),
{
    match json::parse(raw) {
        Ok(v) => v,
        Err(_) => json::object(json::members()),
    }
}

/// What a turn asks of the program around it.
pub enum Action {
    /// Ask the model, offering it the tools or not.
    Ask { tools: bool },
    /// Call a tool.
    Call { name: String, arguments: Json },
    /// Nothing: the turn is over.
    Finish,
}

/// What a state asks for.
pub open spec fn wants(s: State, a: Action) -> bool {
    match s.phase {
        Phase::Ready => false,
        Phase::Asked => a == (Action::Ask { tools: true }),
        Phase::Forced => a == (Action::Ask { tools: false }),
        Phase::Calling { calls, next } => a matches Action::Call { name, arguments } && name@
            == calls[next].name && arguments@ == arguments_of(calls[next].arguments),
        Phase::Done => a == Action::Finish,
    }
}

#[derive(PartialEq, Eq, Structural, Clone, Copy)]
enum Stage {
    Ready,
    Asked,
    Forced,
    Calling,
    Done,
}

/// A turn that is going on.
pub struct Going {
    messages: Vec<Message>,
    result: TurnResult,
    round: usize,
    max: usize,
    stage: Stage,
    calls: Vec<ToolCall>,
    next: usize,
}

/// Copies a tool call.
fn copy_call(c: &ToolCall) -> (r: ToolCall)
    ensures
        r@ == c@,
{
    ToolCall {
        id: c.id.clone(),
        kind: c.kind.clone(),
        function: FunctionCall {
            name: c.function.name.clone(),
            arguments: c.function.arguments.clone(),
        },
    }
}

/// Copies tool calls.
fn copy_calls(v: &[ToolCall]) -> (r: Vec<ToolCall>)
    ensures
        call_views(r@) == call_views(v@),
{
    let mut out: Vec<ToolCall> = Vec::new();
    for i in 0..v.len()
        invariant
            call_views(out@) == call_views(v@).take(i as int),
    {
        let ghost before = call_views(out@);
        let c = copy_call(&v[i]);
        out.push(c);
        assert(call_views(out@) =~= before.push(c@));
        assert(call_views(v@).take(i + 1) =~= before.push(c@));
    }
    assert(call_views(v@).take(v@.len() as int) =~= call_views(v@));
    out
}

/// The trimmed text of a reply.
fn answer_of(m: &Message) -> (r: String)
    ensures
        r@ == reply_text(m@),
{
    match m.text() {
        Some(t) => owned(trim(t)),
        None => String::new(),
    }
}

impl Agent {
    /// Begins the turn that answers a message.
    pub fn turn(&self, incoming: &Incoming, now: &str) -> (r: Going)
        ensures
            r.state() == opening(*self, *incoming, now@),
    {
        let system = Message::system(system_prompt(self.soul.as_str(), incoming, now).as_str());
        let mut text = owned(incoming.sender);
        text.append(": ");
        text.append(incoming.body);
        let asked = if incoming.attachments.len() == 0 {
            Message::user(text.as_str())
        } else {
            Message::user_with_images(text.as_str(), incoming.attachments.as_slice())
        };
        let mut messages: Vec<Message> = Vec::new();
        messages.push(system);
        messages.push(asked);
        let result = TurnResult {
            text: String::new(),
            images: Vec::new(),
            prompt_tokens: 0,
            completion_tokens: 0,
            tools_used: Vec::new(),
        };
        let r = Going {
            messages,
            result,
            round: 0,
            max: self.max_iterations,
            stage: Stage::Ready,
            calls: Vec::new(),
            next: 0,
        };
        assert(r.state().messages =~= opening(*self, *incoming, now@).messages);
        assert(r.state().result =~= opening(*self, *incoming, now@).result);
        r
    }
}

impl Going {
    /// The state of the turn.
    pub closed spec fn state(&self) -> State {
        State {
            messages: message_views(self.messages@),
            result: self.result@,
            round: self.round as int,
            max: self.max as int,
            phase: match self.stage {
                Stage::Ready => Phase::Ready,
                Stage::Asked => Phase::Asked,
                Stage::Forced => Phase::Forced,
                Stage::Calling => Phase::Calling {
                    calls: call_views(self.calls@),
                    next: self.next as int,
                },
                Stage::Done => Phase::Done,
            },
        }
    }

    #[verifier::type_invariant]
    spec fn sound(&self) -> bool {
        well_formed(self.state())
    }

    /// The conversation so far.
    pub fn messages(&self) -> (r: &Vec<Message>)
        ensures
            message_views(r@) == self.state().messages,
    {
        &self.messages
    }

    /// What has to be done now.
    pub fn step(&mut self, out_of_time: bool) -> (r: Action)
        ensures
            final(self).state() == begun(old(self).state(), out_of_time),
            wants(final(self).state(), r),
    {
        proof {
            use_type_invariant(&*self);
        }
        let ghost before = self.state();
        match self.stage {
            Stage::Ready => {
                if self.round < self.max && !out_of_time {
                    self.stage = Stage::Asked;
                    Action::Ask { tools: true }
                } else {
                    let m = Message::user(OUT_OF_STEPS);
                    let mut messages: Vec<Message> = Vec::new();
                    std::mem::swap(&mut messages, &mut self.messages);
                    messages.push(m);
                    self.messages = messages;
                    self.stage = Stage::Forced;
                    assert(self.state().messages =~= before.messages.push(m@));
                    Action::Ask { tools: false }
                }
            },
            Stage::Asked => Action::Ask { tools: true },
            Stage::Forced => Action::Ask { tools: false },
            Stage::Calling => {
                let call = &self.calls[self.next];
                Action::Call {
                    name: call.function.name.clone(),
                    arguments: call_arguments(call.function.arguments.as_str()),
                }
            },
            Stage::Done => Action::Finish,
        }
    }

    /// Whether a reply of the model is awaited.
    pub fn awaits_reply(&self) -> (r: bool)
        ensures
            r <==> self.state().phase == Phase::Asked || self.state().phase == Phase::Forced,
    {
        match self.stage {
            Stage::Asked => true,
            Stage::Forced => true,
            _ => false,
        }
    }

    /// Whether the outcome of a tool call is awaited.
    pub fn awaits_outcome(&self) -> (r: bool)
        ensures
            r <==> self.state().phase is Calling,
    {
        match self.stage {
            Stage::Calling => true,
            _ => false,
        }
    }

    /// The tokens spent so far, asked for and answered.
    pub fn spent(&self) -> (r: (u64, u64))
        ensures
            r.0 == self.state().result.prompt_tokens,
            r.1 == self.state().result.completion_tokens,
    {
        (self.result.prompt_tokens, self.result.completion_tokens)
    }

    /// Takes up a reply of the model.
    pub fn replied(&mut self, completion: Completion)
        requires
            old(self).state().phase == Phase::Asked || old(self).state().phase == Phase::Forced,
            old(self).state().result.prompt_tokens + completion.usage.prompt <= u64::MAX,
            old(self).state().result.completion_tokens + completion.usage.completion <= u64::MAX,
        ensures
            final(self).state() == after_reply(old(self).state(), completion),
    {
        proof {
            use_type_invariant(&*self);
        }
        let ghost before = self.state();
        let prompt_tokens: u64 = self.result.prompt_tokens + completion.usage.prompt;
        let completion_tokens: u64 = self.result.completion_tokens + completion.usage.completion;
        self.result.prompt_tokens = prompt_tokens;
        self.result.completion_tokens = completion_tokens;
        match self.stage {
            Stage::Forced => {
                let text = answer_of(&completion.message);
                if text.as_str().unicode_len() == 0 {
                    self.result.text = owned(NO_ANSWER);
                } else {
                    self.result.text = text;
                }
                self.stage = Stage::Done;
            },
            _ => {
                if completion.message.tool_calls.len() == 0 {
                    self.result.text = answer_of(&completion.message);
                    self.stage = Stage::Done;
                } else {
                    let calls = copy_calls(completion.message.tool_calls.as_slice());
                    let mut messages: Vec<Message> = Vec::new();
                    std::mem::swap(&mut messages, &mut self.messages);
                    messages.push(completion.message);
                    self.messages = messages;
                    assert(self.state().messages =~= before.messages.push(completion.message@));
                    self.calls = calls;
                    self.next = 0;
                    assert(call_views(calls@).len() == calls@.len());
                    self.stage = Stage::Calling;
                }
            },
        }
        assert(final(self).state().result =~= after_reply(before, completion).result);
    }

    /// Takes up the outcome of the tool call that was asked for.
    pub fn called(&mut self, outcome: Outcome)
        requires
            old(self).state().phase is Calling,
        ensures
            final(self).state() == after_call(old(self).state(), outcome),
    {
        proof {
            use_type_invariant(&*self);
        }
        let ghost before = self.state();
        let told = outcome.for_model();
        let result = Message::tool_result(self.calls[self.next].id.as_str(), told.as_str());
        let mut messages: Vec<Message> = Vec::new();
        std::mem::swap(&mut messages, &mut self.messages);
        messages.push(result);
        self.messages = messages;
        assert(self.state().messages =~= before.messages.push(result@));
        let name = self.calls[self.next].function.name.clone();
        let mut tools_used: Vec<String> = Vec::new();
        std::mem::swap(&mut tools_used, &mut self.result.tools_used);
        tools_used.push(name);
        self.result.tools_used = tools_used;
        assert(self.state().result.tools_used =~= before.result.tools_used.push(name@));
        match outcome {
            Outcome::Image { bytes, media_type, caption } => {
                let image = Image { bytes, media_type, caption };
                let mut images: Vec<Image> = Vec::new();
                std::mem::swap(&mut images, &mut self.result.images);
                images.push(image);
                self.result.images = images;
                assert(self.state().result.images =~= before.result.images.push(image@));
            },
            Outcome::Text(_) => {},
        }
        if self.next == self.calls.len() - 1 {
            self.stage = Stage::Ready;
            self.round = self.round + 1;
        } else {
            self.next = self.next + 1;
        }
    }

    /// The result of the turn.
    pub fn finish(self) -> (r: TurnResult)
        ensures
            r@ == self.state().result,
    {
        self.result
    }
}

// ---------------------------------------------------------------------------------------------
// Laws
// ---------------------------------------------------------------------------------------------

/// How far a turn is from its end: rounds left, then the way through the round, then calls left.
pub open spec fn remaining(s: State) -> (int, int, int) {
    let calls_left = match s.phase {
        Phase::Calling { calls, next } => calls.len() - next,
        _ => 0,
    };
    let way = match s.phase {
        Phase::Ready => 3int,
        Phase::Asked => 2int,
        Phase::Forced => 2int,
        Phase::Calling { calls, next } => 1int,
        Phase::Done => 0int,
    };
    (s.max - s.round, way, calls_left)
}

/// Whether one state is nearer to the end of its turn than another.
pub open spec fn nearer(a: State, b: State) -> bool {
    let x = remaining(a);
    let y = remaining(b);
    &&& 0 <= x.0 && 0 <= x.1 && 0 <= x.2
    &&& x.0 < y.0 || (x.0 == y.0 && (x.1 < y.1 || (x.1 == y.1 && x.2 < y.2)))
}

/// A turn comes to an end: whatever the model replies and the tools give back, each step brings
/// the turn nearer to its end.
pub proof fn law_a_turn_ends(s: State, out_of_time: bool, c: Completion, outcome: Outcome)
    requires
        well_formed(s),
    ensures
        s.phase == Phase::Ready ==> nearer(begun(s, out_of_time), s),
        s.phase == Phase::Asked || s.phase == Phase::Forced ==> nearer(after_reply(s, c), s),
        s.phase is Calling ==> nearer(after_call(s, outcome), s),
{
}

/// A turn never takes more rounds of tool calls than it may, and asks without tools only at the
/// end: what every step keeps.
pub proof fn law_rounds_are_bounded(s: State, out_of_time: bool, c: Completion, outcome: Outcome)
    requires
        well_formed(s),
    ensures
        well_formed(begun(s, out_of_time)),
        s.phase == Phase::Asked || s.phase == Phase::Forced ==> well_formed(after_reply(s, c)),
        well_formed(after_call(s, outcome)),
        s.phase == Phase::Forced ==> after_reply(s, c).phase == Phase::Done,
{
}

/// The state after the outcomes of several calls.
pub open spec fn after_calls(s: State, outcomes: Seq<Outcome>) -> State
    decreases outcomes.len(),
{
    if outcomes.len() == 0 {
        s
    } else {
        after_call(after_calls(s, outcomes.drop_last()), outcomes.last())
    }
}

/// What the model is told of calls: one result for each, under its id, in order.
pub open spec fn answers(calls: Seq<ToolCallView>, outcomes: Seq<Outcome>) -> Seq<MessageView> {
    Seq::new(outcomes.len(), |i: int| tool_result_view(calls[i].id, told(outcomes[i])))
}

/// The names of the calls that have been made.
pub open spec fn names(calls: Seq<ToolCallView>, count: nat) -> Seq<Seq<char>> {
    Seq::new(count, |i: int| calls[i].name)
}

/// What holds after the first outcomes of a round.
proof fn lemma_calls_so_far(s: State, calls: Seq<ToolCallView>, outcomes: Seq<Outcome>)
    requires
        s.phase == (Phase::Calling { calls, next: 0 }),
        outcomes.len() <= calls.len(),
        calls.len() > 0,
    ensures
        after_calls(s, outcomes).messages == s.messages + answers(calls, outcomes),
        after_calls(s, outcomes).result.tools_used == s.result.tools_used + names(
            calls,
            outcomes.len(),
        ),
        after_calls(s, outcomes).max == s.max,
        outcomes.len() < calls.len() ==> after_calls(s, outcomes).phase == (Phase::Calling {
            calls,
            next: outcomes.len() as int,
        }) && after_calls(s, outcomes).round == s.round,
        outcomes.len() == calls.len() ==> after_calls(s, outcomes).phase == Phase::Ready
            && after_calls(s, outcomes).round == s.round + 1,
    decreases outcomes.len(),
{
    if outcomes.len() > 0 {
        let k = outcomes.len() - 1;
        let earlier = outcomes.drop_last();
        lemma_calls_so_far(s, calls, earlier);
        assert(answers(calls, outcomes) =~= answers(calls, earlier).push(
            tool_result_view(calls[k].id, told(outcomes[k])),
        ));
        assert(names(calls, outcomes.len()) =~= names(calls, earlier.len()).push(calls[k].name));
        assert(s.messages + answers(calls, outcomes) =~= (s.messages + answers(
            calls,
            earlier,
        )).push(tool_result_view(calls[k].id, told(outcomes[k]))));
        assert(s.result.tools_used + names(calls, outcomes.len()) =~= (s.result.tools_used + names(
            calls,
            earlier.len(),
        )).push(calls[k].name));
    } else {
        assert(s.messages + answers(calls, outcomes) =~= s.messages);
        assert(s.result.tools_used + names(calls, 0) =~= s.result.tools_used);
    }
}

/// Every tool call is answered: when a round is done, the conversation has grown by one result for
/// each call of the reply, in order and under its id, and each call is on record as used.
pub proof fn law_every_call_is_answered(s: State, outcomes: Seq<Outcome>)
    requires
        s.phase matches Phase::Calling { calls, next } && next == 0 && calls.len()
            == outcomes.len() && calls.len() > 0,
    ensures
        after_calls(s, outcomes).messages == s.messages + answers(
            s.phase->calls,
            outcomes,
        ),
        after_calls(s, outcomes).result.tools_used == s.result.tools_used + names(
            s.phase->calls,
            outcomes.len(),
        ),
        after_calls(s, outcomes).phase == Phase::Ready,
        after_calls(s, outcomes).round == s.round + 1,
{
    lemma_calls_so_far(s, s.phase->calls, outcomes);
}

/// The system prompt begins with the persona, then the time, then the machine. Where the message is a
/// reply, what it replies to stands in it under its heading, whatever was said in the room; and where
/// something was said in the room, the prompt ends with that under its own heading, whatever the message
/// replies to. Nothing is told of what is not there.
pub proof fn law_the_prompt_tells_what_there_is(
    soul: &str,
    incoming: &Incoming,
    now: &str,
    r: String,
)
    requires
        call_ensures(system_prompt, (soul, incoming, now), r),
    ensures
        begins(r@, soul@),
        begins(r@, soul@ + "\n\n## right now\n\n"@ + now@ + "\n"@),
        contains(r@, MACHINE@),
        incoming.reply_parent matches Some(parent) ==> contains(
            r@,
            "## the message being replied to\n\n"@ + parent@ + "\n"@,
        ),
        incoming.ambient matches Some(a) ==> ends(r@, AMBIENT@ + a@ + "\n"@),
        contains(AMBIENT@, "## recent room conversation"@),
        incoming.reply_parent is None && incoming.ambient is None ==> ends(r@, MACHINE@),
        incoming.reply_parent matches Some(parent) ==> incoming.ambient is None ==> ends(
            r@,
            parent@ + "\n"@,
        ),
{
    let head = soul@ + "\n\n## right now\n\n"@ + now@ + "\n"@;
    let start = head + MACHINE@;
    lemma_added(soul@, "\n\n## right now\n\n"@);
    lemma_grow(soul@ + "\n\n## right now\n\n"@, now@, soul@);
    lemma_grow(soul@ + "\n\n## right now\n\n"@ + now@, "\n"@, soul@);
    lemma_added(head, MACHINE@);
    lemma_grow(head, MACHINE@, soul@);
    lemma_ambient_heading();
    let replied = match incoming.reply_parent {
        Some(parent) => start + "\n\n## the message being replied to\n\n"@ + parent@ + "\n"@,
        None => start,
    };
    match incoming.reply_parent {
        Some(parent) => {
            let heading = "\n\n## the message being replied to\n\n"@;
            let a = start + heading;
            let b = a + parent@;
            lemma_grow(start, heading, soul@);
            lemma_grow(start, heading, head);
            lemma_grow(start, heading, MACHINE@);
            lemma_grow(a, parent@, soul@);
            lemma_grow(a, parent@, head);
            lemma_grow(a, parent@, MACHINE@);
            lemma_grow(b, "\n"@, soul@);
            lemma_grow(b, "\n"@, head);
            lemma_grow(b, "\n"@, MACHINE@);
            lemma_replied(start, parent@);
        },
        None => {},
    }
    match incoming.ambient {
        Some(text) => {
            let tail = AMBIENT@ + text@ + "\n"@;
            lemma_grouped(replied, AMBIENT@, text@);
            lemma_grouped(replied, AMBIENT@ + text@, "\n"@);
            assert(r@ == replied + tail);
            lemma_added(replied, tail);
            lemma_grow(replied, tail, soul@);
            lemma_grow(replied, tail, head);
            lemma_grow(replied, tail, MACHINE@);
            if incoming.reply_parent is Some {
                lemma_grow(
                    replied,
                    tail,
                    "## the message being replied to\n\n"@ + incoming.reply_parent->0@ + "\n"@,
                );
            }
        },
        None => {},
    }
}

proof fn lemma_ambient_heading()
    ensures
        contains(AMBIENT@, "## recent room conversation"@),
{
    reveal_strlit("\n\n## recent room conversation\n\nThe room's recent messages, your own among them, each prefixed with who sent it. Context only: answer the message above, not these.\n\n");
    reveal_strlit("## recent room conversation");
    assert(AMBIENT@.subrange(2, 29) =~= "## recent room conversation"@);
    assert(crate::text::occurs_at(AMBIENT@, "## recent room conversation"@, 2));
}

/// What is replied to stands under its heading, at the end.
proof fn lemma_replied(start: Seq<char>, parent: Seq<char>)
    ensures
        contains(
            start + "\n\n## the message being replied to\n\n"@ + parent + "\n"@,
            "## the message being replied to\n\n"@ + parent + "\n"@,
        ),
        ends(
            start + "\n\n## the message being replied to\n\n"@ + parent + "\n"@,
            parent + "\n"@,
        ),
{
    let heading = "\n\n## the message being replied to\n\n"@;
    let short = "## the message being replied to\n\n"@;
    let gap = "\n\n"@;
    assert(heading == gap + short) by {
        reveal_strlit("\n\n## the message being replied to\n\n");
        reveal_strlit("## the message being replied to\n\n");
        reveal_strlit("\n\n");
        assert(heading =~= gap + short);
    }
    lemma_grouped(start, gap, short);
    lemma_grouped(start + gap, short, parent);
    lemma_grouped(start + gap, short + parent, "\n"@);
    lemma_added(start + gap, short + parent + "\n"@);
    lemma_grouped(start + heading, parent, "\n"@);
    lemma_added(start + heading, parent + "\n"@);
}

/// What was said in the room adds the same to the prompt, whatever the message replies to.
pub proof fn law_the_room_is_told_of_with_or_without_a_reply(
    soul: Seq<char>,
    now: Seq<char>,
    reply_parent: Option<String>,
    ambient: String,
)
    ensures
        prompt(soul, now, reply_parent, Some(ambient)) == prompt(soul, now, reply_parent, None)
            + AMBIENT@ + ambient@ + "\n"@,
        prompt(soul, now, reply_parent, None).len() >= prompt(soul, now, None, None).len(),
{
}

/// A turn begins with two messages: what the model is told about its role, which is the system prompt,
/// and the question. The question says who asks, then what; where files came with it, each of them is
/// behind that, in order. Nothing is spent, used or answered yet, and as many rounds may follow as the
/// agent allows.
pub proof fn law_a_turn_begins_with_the_question(
    agent: &Agent,
    incoming: &Incoming,
    now: &str,
    r: Going,
    system: String,
)
    requires
        call_ensures(Agent::turn, (agent, incoming, now), r),
        system@ == prompt(agent.soul@, now@, incoming.reply_parent, incoming.ambient),
    ensures
        ({
            let s = r.state();
            let said = incoming.sender@ + ": "@ + incoming.body@;
            &&& s.messages.len() == 2
            &&& s.messages[0].role == "system"@
            &&& s.messages[0].content == Some(JsonView::Text(system@))
            &&& s.messages[1].role == "user"@
            &&& incoming.attachments@.len() == 0 ==> s.messages[1].content == Some(
                JsonView::Text(said),
            )
            &&& incoming.attachments@.len() > 0 ==> (s.messages[1].content matches Some(
                JsonView::Array(parts),
            ) && parts.len() == incoming.attachments@.len() + 1 && parts[0].text_member("text"@)
                == Some(said))
            &&& s.round == 0 && s.max == agent.max_iterations && s.phase == Phase::Ready
            &&& s.result.text.len() == 0 && s.result.images.len() == 0
            &&& s.result.tools_used.len() == 0
            &&& s.result.prompt_tokens == 0 && s.result.completion_tokens == 0
        }),
{
    lemma_text_part(incoming.sender@ + ": "@ + incoming.body@);
}

/// The text of a text part is found under its name.
proof fn lemma_text_part(text: Seq<char>)
    ensures
        crate::llm::text_part(text).text_member("text"@) == Some(text),
{
    reveal_strlit("type");
    reveal_strlit("text");
    assert("type"@[1] == 'y' && "text"@[1] == 'e');
    reveal_with_fuel(json::member_in, 3);
}

/// A round begins exactly where rounds and time are left, with the conversation as it is. Else the model
/// is asked once more, told that it has to answer now, and offered no tools. Nothing is charged or
/// answered by that.
pub proof fn law_tools_are_offered_while_rounds_and_time_are_left(
    s: State,
    out_of_time: bool,
    a: Action,
)
    requires
        s.phase == Phase::Ready,
        wants(begun(s, out_of_time), a),
    ensures
        a matches Action::Ask { tools } && (tools <==> s.round < s.max && !out_of_time),
        a == (Action::Ask { tools: true }) ==> begun(s, out_of_time).messages == s.messages,
        a == (Action::Ask { tools: false }) ==> {
            let after = begun(s, out_of_time).messages;
            &&& after.len() == s.messages.len() + 1
            &&& after.take(s.messages.len() as int) == s.messages
            &&& after.last().role == "user"@
            &&& after.last().content matches Some(JsonView::Text(t)) && contains(t, "Answer now"@)
        },
        begun(s, out_of_time).result == s.result,
        begun(s, out_of_time).round == s.round,
{
    let after = begun(s, out_of_time).messages;
    assert(after.take(s.messages.len() as int) =~= s.messages);
    reveal_strlit("You have used all the time or tool steps available. Answer now with what you have already found, and say plainly which parts you could not confirm. Do not request more tools.");
    reveal_strlit("Answer now");
    assert(OUT_OF_STEPS@.subrange(52, 62) =~= "Answer now"@);
    assert(crate::text::occurs_at(OUT_OF_STEPS@, "Answer now"@, 52));
}

/// A call is made by the name that the model gave, with the arguments that it gave, where they are JSON.
pub proof fn law_a_call_is_made_as_the_model_asked(
    s: State,
    a: Action,
    calls: Seq<ToolCallView>,
    next: int,
    arguments: JsonView,
)
    requires
        s.phase == (Phase::Calling { calls, next }),
        wants(s, a),
        json::read(calls[next].arguments) == Ok::<JsonView, Seq<char>>(arguments),
    ensures
        a matches Action::Call { name, arguments: given } && name@ == calls[next].name && given@
            == arguments,
{
}

/// A reply without tool calls ends the turn, and its text is the answer, without the white space around
/// it. A reply with tool calls starts them with the first, and stands in the conversation as it came.
/// Tokens are counted either way: to those spent so far come those of the reply.
pub proof fn law_a_reply_ends_the_turn_or_starts_its_calls(s: State, c: Completion)
    requires
        s.phase == Phase::Asked,
        s.result.prompt_tokens + c.usage.prompt <= u64::MAX,
        s.result.completion_tokens + c.usage.completion <= u64::MAX,
    ensures
        ({
            let after = after_reply(s, c);
            &&& after.result.prompt_tokens == s.result.prompt_tokens + c.usage.prompt
            &&& after.result.completion_tokens == s.result.completion_tokens + c.usage.completion
            &&& after.result.images == s.result.images
            &&& after.result.tools_used == s.result.tools_used
            &&& c.message@.tool_calls.len() == 0 ==> after.phase == Phase::Done && after.messages
                == s.messages
            &&& c.message@.tool_calls.len() == 0 ==> (c.message@.content matches Some(
                JsonView::Text(t),
            ) ==> after.result.text == trimmed(t))
            &&& c.message@.tool_calls.len() > 0 ==> after.phase == (Phase::Calling {
                calls: c.message@.tool_calls,
                next: 0,
            }) && after.messages == s.messages.push(c.message@) && after.result.text
                == s.result.text
        }),
{
}

/// A reply that was forced is the answer, whatever tools it asks for: its text without the white space
/// around it, where it has any.
pub proof fn law_a_forced_reply_is_the_answer(s: State, c: Completion, t: Seq<char>)
    requires
        s.phase == Phase::Forced,
        c.message@.content == Some(JsonView::Text(t)),
        s.result.prompt_tokens + c.usage.prompt <= u64::MAX,
    ensures
        after_reply(s, c).phase == Phase::Done,
        trimmed(t).len() > 0 ==> after_reply(s, c).result.text == trimmed(t),
        after_reply(s, c).result.images == s.result.images,
        after_reply(s, c).result.prompt_tokens == s.result.prompt_tokens + c.usage.prompt,
{
}

/// The outcome of a call is told to the model as the tool's, under the id of that very call. An image is
/// added behind those so far, with its bytes, its type and its caption; a text adds none. The call is on
/// record as used.
pub proof fn law_an_outcome_is_told_under_its_call(
    s: State,
    outcome: Outcome,
    calls: Seq<ToolCallView>,
    next: int,
)
    requires
        s.phase == (Phase::Calling { calls, next }),
        0 <= next < calls.len(),
    ensures
        ({
            let after = after_call(s, outcome);
            &&& after.messages.len() == s.messages.len() + 1
            &&& after.messages.take(s.messages.len() as int) == s.messages
            &&& after.messages.last().role == "tool"@
            &&& after.messages.last().tool_call_id == Some(calls[next].id)
            &&& outcome matches Outcome::Text(t) ==> after.messages.last().content == Some(
                JsonView::Text(t@),
            ) && after.result.images == s.result.images
            &&& outcome matches Outcome::Image { bytes, media_type, caption } ==> {
                &&& after.result.images.len() == s.result.images.len() + 1
                &&& after.result.images.last().bytes == bytes@
                &&& after.result.images.last().media_type == media_type@
                &&& after.result.images.last().caption == caption@
                &&& after.result.images.take(s.result.images.len() as int) == s.result.images
                &&& after.messages.last().content matches Some(JsonView::Text(t)) && ends(
                    t,
                    caption@,
                )
            }
            &&& after.result.tools_used == s.result.tools_used.push(calls[next].name)
            &&& after.result.text == s.result.text
            &&& next + 1 < calls.len() ==> after.phase == (Phase::Calling { calls, next: next + 1 })
                && after.round == s.round
            &&& next + 1 == calls.len() ==> after.phase == Phase::Ready && after.round == s.round
                + 1
        }),
{
    let after = after_call(s, outcome);
    assert(after.messages.take(s.messages.len() as int) =~= s.messages);
    if outcome is Image {
        assert(after.result.images.take(s.result.images.len() as int) =~= s.result.images);
        lemma_added("Image generated and sent to the room: "@, outcome->caption@);
    }
}

/// What a turn that stands at the beginning of a round does next: it asks the model, with tools exactly
/// where rounds and time are left, and says no more than it did unless they are not.
pub proof fn law_a_step_asks_the_model(g: &mut Going, out_of_time: bool, r: Action)
    requires
        call_ensures(Going::step, (g, out_of_time), r),
        old(g).state().phase == Phase::Ready,
    ensures
        r matches Action::Ask { tools } && (tools <==> old(g).state().round < old(g).state().max
            && !out_of_time),
        final(g).state().result == old(g).state().result,
        final(g).state().messages.len() == old(g).state().messages.len() + (if r == (Action::Ask {
            tools: true,
        }) {
            0int
        } else {
            1int
        }),
        final(g).state().messages.take(old(g).state().messages.len() as int)
            == old(g).state().messages,
{
    law_tools_are_offered_while_rounds_and_time_are_left(old(g).state(), out_of_time, r);
    assert(final(g).state().messages.take(old(g).state().messages.len() as int)
        =~= old(g).state().messages);
}

/// A turn that waits for something asks for it again and changes nothing, and one that is over asks for
/// nothing.
pub proof fn law_a_step_changes_nothing_while_it_waits(g: &mut Going, out_of_time: bool, r: Action)
    requires
        call_ensures(Going::step, (g, out_of_time), r),
        old(g).state().phase != Phase::Ready,
    ensures
        final(g).state() == old(g).state(),
        old(g).state().phase == Phase::Asked ==> r == (Action::Ask { tools: true }),
        old(g).state().phase == Phase::Forced ==> r == (Action::Ask { tools: false }),
        old(g).state().phase == Phase::Done ==> r == Action::Finish,
        old(g).state().phase matches Phase::Calling { calls, next } ==> (r matches Action::Call {
            name,
            arguments,
        } && name@ == calls[next].name),
{
}

/// A reply of the model is taken up: one that asks for no tools is the answer, and one that asks for
/// tools is kept with all that it asks for. The tokens that it took are added to those so far.
pub proof fn law_a_reply_is_taken_up(g: &mut Going, c: Completion)
    requires
        call_ensures(Going::replied, (g, c), ()),
        old(g).state().phase == Phase::Asked || old(g).state().phase == Phase::Forced,
        old(g).state().result.prompt_tokens + c.usage.prompt <= u64::MAX,
        old(g).state().result.completion_tokens + c.usage.completion <= u64::MAX,
    ensures
        final(g).state().result.prompt_tokens == old(g).state().result.prompt_tokens
            + c.usage.prompt,
        final(g).state().result.completion_tokens == old(g).state().result.completion_tokens
            + c.usage.completion,
        final(g).state().result.images == old(g).state().result.images,
        c.message@.tool_calls.len() == 0 || old(g).state().phase == Phase::Forced
            ==> final(g).state().phase == Phase::Done,
        c.message@.tool_calls.len() == 0 && old(g).state().phase == Phase::Asked ==> (
        c.message@.content matches Some(JsonView::Text(t)) ==> final(g).state().result.text
            == trimmed(t)),
        c.message@.tool_calls.len() > 0 && old(g).state().phase == Phase::Asked ==> {
            &&& final(g).state().phase == (Phase::Calling {
                calls: c.message@.tool_calls,
                next: 0,
            })
            &&& final(g).state().messages == old(g).state().messages.push(c.message@)
        },
{
}

/// The outcome of a call is taken up: the model is told of it under the id of the call that it was asked
/// for, behind everything else, and an image is kept for the room.
pub proof fn law_an_outcome_is_taken_up(
    g: &mut Going,
    outcome: Outcome,
    calls: Seq<ToolCallView>,
    next: int,
)
    requires
        call_ensures(Going::called, (g, outcome), ()),
        old(g).state().phase == (Phase::Calling { calls, next }),
        0 <= next < calls.len(),
    ensures
        final(g).state().messages.len() == old(g).state().messages.len() + 1,
        final(g).state().messages.last().tool_call_id == Some(calls[next].id),
        final(g).state().messages.last().role == "tool"@,
        outcome matches Outcome::Text(t) ==> final(g).state().messages.last().content == Some(
            JsonView::Text(t@),
        ) && final(g).state().result.images == old(g).state().result.images,
        outcome matches Outcome::Image { bytes, media_type, caption }
            ==> final(g).state().result.images == old(g).state().result.images.push(
            ImageView { bytes: bytes@, media_type: media_type@, caption: caption@ },
        ),
        next + 1 < calls.len() ==> final(g).state().phase == (Phase::Calling {
            calls,
            next: next + 1,
        }),
        next + 1 == calls.len() ==> final(g).state().phase == Phase::Ready && final(g).state().round
            == old(g).state().round + 1,
{
    law_an_outcome_is_told_under_its_call(old(g).state(), outcome, calls, next);
}

/// What a turn amounts to in the end is what it gathered: its text, its images, its tokens and its tools.
pub proof fn law_a_turn_gives_back_what_it_gathered(g: Going, r: TurnResult)
    requires
        call_ensures(Going::finish, (g,), r),
    ensures
        r.text@ == g.state().result.text,
        r.images@.len() == g.state().result.images.len(),
        r.prompt_tokens == g.state().result.prompt_tokens,
        r.completion_tokens == g.state().result.completion_tokens,
        views(r.tools_used@) == g.state().result.tools_used,
{
    assert(r@.images.len() == r.images@.len());
}

/// Arguments are logged on one line, each with its name: a text of several lines becomes one, and none
/// of them grows beyond its budget.
pub proof fn law_arguments_are_logged_with_their_names(
    args: &serde_json::Value,
    r: String,
    ms: Seq<(Seq<char>, JsonView)>,
    i: int,
)
    requires
        call_ensures(summarise, (args,), r),
        json::held(*args) == JsonView::Object(ms),
        0 <= i < ms.len(),
    ensures
        contains(r@, ms[i].0 + "="@),
        ms[i].1 matches JsonView::Text(t) ==> contains(r@, flattened(t, LOG_CHARS as nat)),
{
    let entries = json::shown_members(json::held(*args))->0;
    let all = Seq::new(entries.len(), |i: int| logged(entries[i]));
    lemma_joined_holds(all, " "@, i);
    let key = ms[i].0 + "="@;
    let value = flattened(entries[i].1, LOG_CHARS as nat);
    lemma_added(key, value);
    assert(all[i] == key + value);
    lemma_holds_part(r@, all[i], key);
    lemma_holds_part(r@, all[i], value);
}

/// What stands in something that stands in a text stands in the text.
proof fn lemma_holds_part(s: Seq<char>, m: Seq<char>, needle: Seq<char>)
    requires
        contains(s, m),
        contains(m, needle),
    ensures
        contains(s, needle),
{
    let i = choose|i: int| #[trigger] crate::text::occurs_at(s, m, i);
    let a = s.take(i);
    let b = s.skip(i + m.len());
    assert(s.subrange(i, i + m.len()) == m);
    assert(s =~= a + m + b);
    crate::text::lemma_contains_within(a, m, b, needle);
}

/// Text that fits its budget on one line keeps all its words, one space apart.
pub proof fn law_flattening_keeps_the_words(text: &str, max: usize, r: String)
    requires
        call_ensures(flatten, (text, max), r),
        crate::text::byte_len(joined(words(text@, Class::White), " "@)) <= max,
    ensures
        r@ == joined(words(text@, Class::White), " "@),
{
}

/// An answer that had to be forced is never empty.
pub proof fn law_a_forced_answer_is_not_empty(s: State, c: Completion)
    requires
        s.phase == Phase::Forced,
    ensures
        after_reply(s, c).result.text.len() > 0,
{
    reveal_strlit("I ran out of steps before finding an answer. Narrow the question and I'll retry.");
}

} // verus!
