//! What becomes of the messages of a room.
use vstd::prelude::*;
use vstd::string::StringExecFns;

use crate::agent::{Image, TurnResult};
use crate::commands::{command_in, Command, CommandView};
use crate::config::{local_part, Config};
use crate::json::optional_text;
use crate::llm::optional_string;
use crate::outside::{sha256, sha256_digest};
use crate::room::{addressed, is_addressed};
use crate::text::{
    begins, contains, decimal, decimal_of, ends, lemma_added, lemma_grow, owned, same, trim, trimmed,
    views,
};

verus! {

/// How long a typing notice holds, in seconds.
pub const TYPING_TIMEOUT_S: u64 = 30;

/// How often it is renewed, in seconds.
pub const TYPING_REFRESH_S: u64 = 10;

/// A message of a room, by its kind.
#[derive(Debug, Clone)]
pub enum MessageKind {
    Text(String),
    Image { body: String, media_type: Option<String> },
    File(String),
    Video(String),
    Audio(String),
    Other,
}

/// A file that came with a message.
pub struct Attached {
    pub name: String,
    pub media_type: Option<String>,
    /// Whether the model can look at it.
    pub viewable: bool,
}

/// What a message says, and which file it brings: its name, its type, and whether it can be viewed.
#[verifier::ext_equal]
pub struct Said {
    pub body: Seq<char>,
    pub file: Option<(Seq<char>, Option<Seq<char>>, bool)>,
}

/// What is said by a file.
pub open spec fn file_said(name: Seq<char>, media_type: Option<Seq<char>>, viewable: bool) -> Said {
    Said {
        body: "[file] "@ + trimmed(name),
        file: Some((trimmed(name), media_type, viewable)),
    }
}

/// What a message says. Of the files, only images can be viewed.
pub open spec fn said(kind: MessageKind) -> Option<Said> {
    match kind {
        MessageKind::Text(body) => Some(Said { body: trimmed(body@), file: None }),
        MessageKind::Image { body, media_type } => Some(
            file_said(body@, optional_string(media_type), true),
        ),
        MessageKind::File(body) => Some(file_said(body@, None, false)),
        MessageKind::Video(body) => Some(file_said(body@, None, false)),
        MessageKind::Audio(body) => Some(file_said(body@, None, false)),
        MessageKind::Other => None,
    }
}

/// What a message and a file hold.
pub open spec fn said_view(m: (String, Option<Attached>)) -> Said {
    Said {
        body: m.0@,
        file: match m.1 {
            Some(a) => Some((a.name@, optional_string(a.media_type), a.viewable)),
            None => None,
        },
    }
}

/// What a message with a file says.
fn file(name: &str, media_type: Option<String>, viewable: bool) -> (r: (String, Option<Attached>))
    ensures
        said_view(r) == file_said(name@, optional_string(media_type), viewable),
{
    let name = trim(name);
    let mut body = owned("[file] ");
    body.append(name);
    (body, Some(Attached { name: owned(name), media_type, viewable }))
}

/// What a message says, and which file it brings.
pub fn extract(kind: MessageKind) -> (r: Option<(String, Option<Attached>)>)
    ensures
        match r {
            Some(m) => said(kind) == Some(said_view(m)),
            None => said(kind) is None,
        },
{
    match kind {
        MessageKind::Text(body) => Some((owned(trim(body.as_str())), None)),
        MessageKind::Image { body, media_type } => Some(file(body.as_str(), media_type, true)),
        MessageKind::File(body) => Some(file(body.as_str(), None, false)),
        MessageKind::Video(body) => Some(file(body.as_str(), None, false)),
        MessageKind::Audio(body) => Some(file(body.as_str(), None, false)),
        MessageKind::Other => None,
    }
}

/// Whether a message of a room is taken note of: the room is one of the bot's, and the message says
/// something.
pub open spec fn noticed(rooms: Seq<Seq<char>>, room_id: Seq<char>, kind: MessageKind) -> bool {
    rooms.contains(room_id) && (said(kind) matches Some(s) && s.body.len() > 0)
}

/// What the bot takes note of.
pub fn on_message(config: &Config, room_id: &str, kind: MessageKind) -> (r: Option<
    (String, Option<Attached>),
>)
    ensures
        match r {
            Some(m) => noticed(views(config.allowed_rooms@), room_id@, kind) && said(kind) == Some(
                said_view(m),
            ),
            None => !noticed(views(config.allowed_rooms@), room_id@, kind),
        },
{
    if !config.is_allowed_room(room_id) {
        return None;
    }
    match extract(kind) {
        Some((body, attached)) => if body.as_str().unicode_len() == 0 {
            None
        } else {
            Some((body, attached))
        },
        None => None,
    }
}

/// The slash command that a message gives, where its sender may give one. It is the whole of a text
/// message: nothing is trimmed, and a file that is named like one gives none.
pub open spec fn command_given(
    senders: Seq<Seq<char>>,
    sender: Seq<char>,
    kind: MessageKind,
) -> Option<CommandView> {
    match kind {
        MessageKind::Text(body) => if senders.contains(sender) {
            command_in(body@)
        } else {
            None
        },
        _ => None,
    }
}

/// Reads the slash command that a message gives.
pub fn command<'a>(config: &Config, sender: &str, kind: &'a MessageKind) -> (r: Option<Command<'a>>)
    ensures
        match r {
            Some(c) => command_given(views(config.allowed_senders@), sender@, *kind) == Some(c@),
            None => command_given(views(config.allowed_senders@), sender@, *kind) is None,
        },
{
    match kind {
        MessageKind::Text(body) => if config.is_allowed_sender(sender) {
            Command::parse(body.as_str())
        } else {
            None
        },
        _ => None,
    }
}

/// What is done with an invitation.
#[derive(Debug, Clone, Copy, PartialEq, Eq)]
pub enum Invitation {
    Accept,
    Reject,
}

/// Decides on an invitation to a room: those to the bot's rooms are accepted, and no others.
pub fn on_invitation(config: &Config, room_id: &str) -> (r: Invitation)
    ensures
        r == (if views(config.allowed_rooms@).contains(room_id@) {
            Invitation::Accept
        } else {
            Invitation::Reject
        }),
{
    if config.is_allowed_room(room_id) {
        Invitation::Accept
    } else {
        Invitation::Reject
    }
}

/// Whether a message is answered: it is meant for the bot, and its sender is allowed to address it.
pub open spec fn answered(
    config: Config,
    body: Seq<char>,
    mentions: Seq<Seq<char>>,
    sender: Seq<char>,
    reply_to: Option<Seq<char>>,
) -> bool {
    &&& addressed(
        body,
        mentions,
        config.user_id@,
        local_part(config.user_id@),
        config.display_name@,
        reply_to == Some(config.user_id@),
    )
    &&& views(config.allowed_senders@).contains(sender)
}

/// Decides whether a message is answered, given whose message it replies to.
pub fn should_answer(
    config: &Config,
    body: &str,
    mentions: &[String],
    sender: &str,
    reply_to: Option<&str>,
) -> (r: bool)
    ensures
        r == answered(*config, body@, views(mentions@), sender@, optional_text(reply_to)),
{
    let to_bot = match reply_to {
        Some(from) => same(from, config.user_id.as_str()),
        None => false,
    };
    is_addressed(
        body,
        mentions,
        config.user_id.as_str(),
        config.localpart().as_str(),
        config.display_name.as_str(),
        to_bot,
    ) && config.is_allowed_sender(sender)
}

/// Nobody who is not allowed to address the bot is answered, whatever the message says.
pub proof fn law_only_allowed_senders_are_answered(
    config: Config,
    body: Seq<char>,
    mentions: Seq<Seq<char>>,
    sender: Seq<char>,
    reply_to: Option<Seq<char>>,
)
    requires
        !views(config.allowed_senders@).contains(sender),
    ensures
        !answered(config, body, mentions, sender, reply_to),
{
}

/// What is said of a file that was received, given how large it is and where it was saved.
pub open spec fn noted(
    body: Seq<char>,
    size: usize,
    cap: usize,
    saved: Option<Seq<char>>,
) -> Seq<char> {
    if size > cap {
        body + " (too large to save, "@ + decimal(size as nat) + " bytes)"@
    } else {
        match saved {
            Some(path) => body + " (saved at "@ + path + ")"@,
            None => body,
        }
    }
}

/// Whether a file that was received is too large to keep.
pub fn too_large(size: usize, cap: usize) -> (r: bool)
    ensures
        r == (size > cap),
{
    size > cap
}

/// Notes what became of a file that was received.
pub fn receive(body: &str, size: usize, cap: usize, saved: Option<&str>) -> (r: String)
    ensures
        r@ == noted(body@, size, cap, optional_text(saved)),
{
    let mut out = owned(body);
    if too_large(size, cap) {
        out.append(" (too large to save, ");
        out.append(decimal_of(size as u64).as_str());
        out.append(" bytes)");
    } else {
        match saved {
            Some(path) => {
                out.append(" (saved at ");
                out.append(path);
                out.append(")");
            },
            None => {},
        }
    }
    out
}

/// The type under which the model is shown a file, where it is shown it at all.
pub fn shown_as(attached: Attached, size: usize, cap: usize) -> (r: Option<String>)
    ensures
        optional_string(r) == (if size > cap || !attached.viewable {
            None
        } else {
            match optional_string(attached.media_type) {
                Some(t) => Some(t),
                None => Some("image/png"@),
            }
        }),
{
    if too_large(size, cap) || !attached.viewable {
        return None;
    }
    match attached.media_type {
        Some(t) => Some(t),
        None => Some(owned("image/png")),
    }
}

/// What is sent to the room at the end of a turn.
pub struct Answer {
    pub images: Vec<Image>,
    pub text: Option<String>,
}

/// What is sent to the room at the end of a turn: its images, and then its text where it has any. A
/// turn that failed is owned up to.
pub fn answer(turn: Result<TurnResult, String>) -> (r: Answer)
    ensures
        match turn {
            Ok(t) => r.images@ == t.images@ && optional_string(r.text) == (if t.text@.len() == 0 {
                None
            } else {
                Some(t.text@)
            }),
            Err(e) => r.images@.len() == 0 && optional_string(r.text) == Some(
                "that failed: "@ + e@,
            ),
        },
{
    match turn {
        Ok(t) => {
            let text = if t.text.as_str().unicode_len() == 0 {
                None
            } else {
                Some(t.text)
            };
            Answer { images: t.images, text }
        },
        Err(e) => {
            let mut text = owned("that failed: ");
            text.append(e.as_str());
            Answer { images: Vec::new(), text: Some(text) }
        },
    }
}

/// What sets the key of the session apart from other uses of the same secret.
pub const SESSION_LABEL: &'static str = "merlin.session.v1";

/// The key under which the session is kept: the digest of a label and the secret.
pub open spec fn session_key_of(secret: Seq<char>) -> Seq<u8> {
    sha256(vstd::utf8::encode_utf8(SESSION_LABEL@) + vstd::utf8::encode_utf8(secret))
}

/// The key under which the session is kept.
pub fn session_key(secret: &str) -> (r: Vec<u8>)
    ensures
        r@ == session_key_of(secret@),
        r@.len() == 32,
{
    let label = SESSION_LABEL.as_bytes();
    let rest = secret.as_bytes();
    let mut bytes: Vec<u8> = Vec::new();
    for i in 0..label.len()
        invariant
            bytes@ == label@.take(i as int),
    {
        bytes.push(label[i]);
        assert(bytes@ =~= label@.take(i + 1));
    }
    assert(bytes@ =~= label@);
    for i in 0..rest.len()
        invariant
            bytes@ == label@ + rest@.take(i as int),
    {
        bytes.push(rest[i]);
        assert(bytes@ =~= label@ + rest@.take(i + 1));
    }
    assert(bytes@ =~= label@ + rest@);
    sha256_digest(bytes.as_slice())
}

// ---------------------------------------------------------------------------------------------
// Laws
// ---------------------------------------------------------------------------------------------

/// A text says what it says, without the white space around it, and brings no file. A file is spoken of by
/// its name, and of the files only an image can be looked at, as the type that it came with.
pub proof fn law_a_message_says_what_it_brings(
    kind: MessageKind,
    r: Option<(String, Option<Attached>)>,
)
    requires
        call_ensures(extract, (kind,), r),
    ensures
        kind matches MessageKind::Text(body) ==> (r matches Some(m) && m.0@ == trimmed(body@)
            && m.1 is None),
        kind matches MessageKind::Image { body, media_type } ==> (r matches Some(m) && ends(
            m.0@,
            trimmed(body@),
        ) && begins(m.0@, "[file]"@) && (m.1 matches Some(a) && a.name@ == trimmed(body@)
            && a.viewable && optional_string(a.media_type) == optional_string(media_type))),
        kind matches MessageKind::File(body) ==> (r matches Some(m) && ends(m.0@, trimmed(body@))
            && begins(m.0@, "[file]"@) && (m.1 matches Some(a) && a.name@ == trimmed(body@)
            && !a.viewable)),
        kind matches MessageKind::Video(body) ==> (r matches Some(m) && ends(m.0@, trimmed(body@))
            && (m.1 matches Some(a) && a.name@ == trimmed(body@) && !a.viewable)),
        kind matches MessageKind::Audio(body) ==> (r matches Some(m) && ends(m.0@, trimmed(body@))
            && (m.1 matches Some(a) && a.name@ == trimmed(body@) && !a.viewable)),
        kind == MessageKind::Other ==> r is None,
{
    assert(begins("[file] "@, "[file]"@)) by {
        reveal_strlit("[file] ");
        reveal_strlit("[file]");
        assert("[file] "@.subrange(0, 6) =~= "[file]"@);
    }
    match kind {
        MessageKind::Image { body, media_type } => {
            lemma_added("[file] "@, trimmed(body@));
            lemma_grow("[file] "@, trimmed(body@), "[file]"@);
        },
        MessageKind::File(body) => {
            lemma_added("[file] "@, trimmed(body@));
            lemma_grow("[file] "@, trimmed(body@), "[file]"@);
        },
        MessageKind::Video(body) => {
            lemma_added("[file] "@, trimmed(body@));
        },
        MessageKind::Audio(body) => {
            lemma_added("[file] "@, trimmed(body@));
        },
        _ => {},
    }
}

/// The bot takes note of every message of its rooms that says anything, as it says it, and of no message
/// of another room.
pub proof fn law_messages_of_the_rooms_are_noticed(
    config: &Config,
    room_id: &str,
    body: String,
    r: Option<(String, Option<Attached>)>,
)
    requires
        call_ensures(on_message, (config, room_id, MessageKind::Text(body)), r),
    ensures
        r is Some <==> views(config.allowed_rooms@).contains(room_id@) && trimmed(body@).len() > 0,
        r matches Some(m) ==> m.0@ == trimmed(body@) && m.1 is None,
{
}

/// Nothing is noticed in a room that is not one of the bot's, whatever it is.
pub proof fn law_other_rooms_are_left_alone(
    config: &Config,
    room_id: &str,
    kind: MessageKind,
    r: Option<(String, Option<Attached>)>,
    i: Invitation,
)
    requires
        call_ensures(on_message, (config, room_id, kind), r),
        call_ensures(on_invitation, (config, room_id), i),
    ensures
        !views(config.allowed_rooms@).contains(room_id@) ==> r is None && i == Invitation::Reject,
        views(config.allowed_rooms@).contains(room_id@) ==> i == Invitation::Accept,
{
}

/// A command is given by a text that is the command, from whoever may address the bot, and by nothing
/// else.
pub proof fn law_commands_are_for_allowed_senders(
    config: &Config,
    sender: &str,
    kind: &MessageKind,
    r: Option<Command>,
)
    requires
        call_ensures(command, (config, sender, kind), r),
    ensures
        r is Some ==> views(config.allowed_senders@).contains(sender@) && *kind is Text,
        views(config.allowed_senders@).contains(sender@) && (*kind matches MessageKind::Text(body)
            && body@ == "/help"@) ==> (r matches Some(c) && c@ == CommandView::Help),
        r matches Some(c) ==> (*kind matches MessageKind::Text(body) && command_in(body@) == Some(
            c@,
        )),
        views(config.allowed_senders@).contains(sender@) && (*kind matches MessageKind::Text(body)
            && command_in(body@) is Some) ==> r is Some,
{
}

/// A message is answered only where its sender may address the bot. From such a sender one is, where it
/// replies to a message of the bot, mentions it, or holds its user id.
pub proof fn law_who_is_answered(
    config: &Config,
    body: &str,
    mentions: &[String],
    sender: &str,
    reply_to: Option<&str>,
    r: bool,
)
    requires
        call_ensures(should_answer, (config, body, mentions, sender, reply_to), r),
    ensures
        r ==> views(config.allowed_senders@).contains(sender@),
        views(config.allowed_senders@).contains(sender@) ==> {
            &&& (reply_to matches Some(from) && from@ == config.user_id@) ==> r
            &&& views(mentions@).contains(config.user_id@) ==> r
            &&& crate::text::contains(
                crate::text::lowercase(body@),
                crate::text::lowercase(config.user_id@),
            ) ==> r
        },
        r && !views(mentions@).contains(config.user_id@) && !crate::text::contains(
            crate::text::lowercase(body@),
            crate::text::lowercase(config.user_id@),
        ) && (reply_to is None || reply_to->0@ != config.user_id@) ==> crate::room::is_word_of(
            crate::text::lowercase(body@),
            crate::text::lowercase(local_part(config.user_id@)),
        ) || crate::room::is_word_of(
            crate::text::lowercase(body@),
            crate::text::lowercase(config.display_name@),
        ),
{
    let low = crate::text::lowercase(body@);
    let name = crate::text::lowercase(local_part(config.user_id@));
    let shown = crate::text::lowercase(config.display_name@);
    if crate::room::word_from(low, name, 0) {
        crate::room::law_a_found_word_stands_alone(low, name, 0);
    }
    if crate::room::word_from(low, shown, 0) {
        crate::room::law_a_found_word_stands_alone(low, shown, 0);
    }
}

/// What is noted of a file begins with what the message said. A file over the cap is not kept, which is
/// told with its size; of any other it is told where it was saved, where it was.
pub proof fn law_what_became_of_a_file_is_noted(
    body: &str,
    size: usize,
    cap: usize,
    saved: Option<&str>,
    r: String,
)
    requires
        call_ensures(receive, (body, size, cap, saved), r),
    ensures
        begins(r@, body@),
        size > cap ==> contains(r@, decimal(size as nat)) && contains(r@, "too large"@),
        size <= cap ==> (saved matches Some(path) ==> contains(r@, path@)),
        size <= cap && saved is None ==> r@ == body@,
{
    if size > cap {
        let mark = " (too large to save, "@;
        let a = body@ + mark;
        let n = decimal(size as nat);
        lemma_too_large();
        lemma_added(body@, mark);
        crate::text::lemma_contains_within(body@, mark, Seq::empty(), "too large"@);
        lemma_grow(a, n, body@);
        lemma_grow(a, n, "too large"@);
        lemma_added(a, n);
        lemma_grow(a + n, " bytes)"@, body@);
        lemma_grow(a + n, " bytes)"@, "too large"@);
        lemma_grow(a + n, " bytes)"@, n);
    } else if saved is Some {
        let a = body@ + " (saved at "@;
        let path = saved->0@;
        lemma_added(body@, " (saved at "@);
        lemma_grow(a, path, body@);
        lemma_added(a, path);
        lemma_grow(a + path, ")"@, body@);
        lemma_grow(a + path, ")"@, path);
    } else {
        lemma_added(body@, Seq::empty());
        assert(body@ + Seq::<char>::empty() =~= body@);
    }
}

proof fn lemma_too_large()
    ensures
        contains(" (too large to save, "@, "too large"@),
{
    reveal_strlit(" (too large to save, ");
    reveal_strlit("too large");
    assert(" (too large to save, "@.subrange(2, 11) =~= "too large"@);
    assert(crate::text::occurs_at(" (too large to save, "@, "too large"@, 2));
}

/// The model is shown what it can look at and what is not too large, as the type that it came with, or as
/// PNG where that was not said.
pub proof fn law_what_can_be_viewed_is_shown(
    attached: Attached,
    size: usize,
    cap: usize,
    r: Option<String>,
)
    requires
        call_ensures(shown_as, (attached, size, cap), r),
    ensures
        r is Some <==> attached.viewable && size <= cap,
        r matches Some(t) ==> (attached.media_type matches Some(m) ==> t@ == m@) && (
        attached.media_type is None ==> t@ == "image/png"@),
{
}

/// A turn that came to an end sends all its images, and its text where it has any. One that failed sends
/// no image, and says what went wrong.
pub proof fn law_a_turn_is_answered(turn: Result<TurnResult, String>, r: Answer)
    requires
        call_ensures(answer, (turn,), r),
    ensures
        turn matches Ok(t) ==> {
            &&& r.images@ == t.images@
            &&& r.text is None <==> t.text@.len() == 0
            &&& r.text matches Some(text) ==> text@ == t.text@
        },
        turn matches Err(e) ==> r.images@.len() == 0 && (r.text matches Some(text) && ends(
            text@,
            e@,
        )),
{
    if turn is Err {
        lemma_added("that failed: "@, turn->Err_0@);
    }
}

/// The key of the session is a digest of 32 bytes of the whole secret, set apart by the label: it is made
/// from bytes that end with those of the secret, and different secrets are made into keys from
/// different bytes.
pub proof fn law_the_session_key_takes_the_whole_secret(a: &str, b: &str, r: Vec<u8>)
    requires
        call_ensures(session_key, (a,), r),
    ensures
        r@.len() == 32,
        r@ == sha256(
            vstd::utf8::encode_utf8("merlin.session.v1"@) + vstd::utf8::encode_utf8(a@),
        ),
        a@ != b@ ==> vstd::utf8::encode_utf8("merlin.session.v1"@) + vstd::utf8::encode_utf8(a@)
            != vstd::utf8::encode_utf8("merlin.session.v1"@) + vstd::utf8::encode_utf8(b@),
{
    let label = vstd::utf8::encode_utf8("merlin.session.v1"@);
    let x = vstd::utf8::encode_utf8(a@);
    let y = vstd::utf8::encode_utf8(b@);
    if label + x == label + y {
        assert((label + x).skip(label.len() as int) =~= x);
        assert((label + y).skip(label.len() as int) =~= y);
        vstd::utf8::encode_utf8_decode_utf8(a@);
        vstd::utf8::encode_utf8_decode_utf8(b@);
    }
}

} // verus!
