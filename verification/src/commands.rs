//! Slash commands: messages that are answered without calling the chat model.
use vstd::prelude::*;
use vstd::string::StringExecFns;

use crate::llm::Llm;
use crate::text::{after_prefix, begins, chars_of, owned, same, white_space};

verus! {

/// A slash command.
#[derive(Debug, PartialEq, Eq)]
pub enum Command<'a> {
    Help,
    Model(Option<&'a str>),
    Reasoning(Option<&'a str>),
}

/// What a command says.
#[verifier::ext_equal]
pub enum CommandView {
    Help,
    Model(Option<Seq<char>>),
    Reasoning(Option<Seq<char>>),
}

/// What an optional string holds.
pub open spec fn optional(s: Option<&str>) -> Option<Seq<char>> {
    match s {
        Some(t) => Some(t@),
        None => None,
    }
}

impl<'a> View for Command<'a> {
    type V = CommandView;

    open spec fn view(&self) -> CommandView {
        match *self {
            Command::Help => CommandView::Help,
            Command::Model(m) => CommandView::Model(optional(m)),
            Command::Reasoning(e) => CommandView::Reasoning(optional(e)),
        }
    }
}

/// Whether `value` can be the argument of a command: one word, and not empty.
pub open spec fn is_argument(value: Seq<char>) -> bool {
    &&& value.len() > 0
    &&& forall|i: int| 0 <= i < value.len() ==> !white_space(#[trigger] value[i])
}

/// The argument that follows `prefix`, where the rest of the body is one.
pub open spec fn argument_after(body: Seq<char>, prefix: Seq<char>) -> Option<Seq<char>> {
    if begins(body, prefix) && is_argument(body.skip(prefix.len() as int)) {
        Some(body.skip(prefix.len() as int))
    } else {
        None
    }
}

/// The command that a body is, if it is one.
pub open spec fn command_in(body: Seq<char>) -> Option<CommandView> {
    if body == "/help"@ {
        Some(CommandView::Help)
    } else if body == "/model"@ {
        Some(CommandView::Model(None))
    } else if body == "/reasoning"@ {
        Some(CommandView::Reasoning(None))
    } else if argument_after(body, "/model "@) is Some {
        Some(CommandView::Model(argument_after(body, "/model "@)))
    } else if argument_after(body, "/reasoning "@) is Some {
        Some(CommandView::Reasoning(argument_after(body, "/reasoning "@)))
    } else {
        None
    }
}

impl<'a> Command<'a> {
    /// Reads a message as a command. The command has to be the whole message.
    pub fn parse(body: &'a str) -> (r: Option<Self>)
        ensures
            match r {
                Some(c) => command_in(body@) == Some(c@),
                None => command_in(body@) is None,
            },
    {
        if same(body, "/help") {
            return Some(Command::Help);
        }
        if same(body, "/model") {
            return Some(Command::Model(None));
        }
        if same(body, "/reasoning") {
            return Some(Command::Reasoning(None));
        }
        if let Some(model) = argument(body, "/model ") {
            return Some(Command::Model(Some(model)));
        }
        if let Some(effort) = argument(body, "/reasoning ") {
            return Some(Command::Reasoning(Some(effort)));
        }
        None
    }
}

/// The argument of a command, where the body is the prefix and one word.
pub fn argument<'a>(body: &'a str, prefix: &str) -> (r: Option<&'a str>)
    ensures
        optional(r) == argument_after(body@, prefix@),
{
    let value = match after_prefix(body, prefix) {
        Some(v) => v,
        None => {
            return None;
        },
    };
    let chars = chars_of(value);
    if chars.len() == 0 {
        return None;
    }
    for i in 0..chars.len()
        invariant
            chars@ == value@,
            value@ == body@.skip(prefix@.len() as int),
            forall|j: int| 0 <= j < i ==> !white_space(#[trigger] value@[j]),
    {
        if chars[i].is_whitespace() {
            assert(white_space(value@[i as int]));
            return None;
        }
    }
    Some(value)
}

/// The message that a command is written as.
pub open spec fn written(c: CommandView) -> Seq<char> {
    match c {
        CommandView::Help => "/help"@,
        CommandView::Model(None) => "/model"@,
        CommandView::Model(Some(m)) => "/model "@ + m,
        CommandView::Reasoning(None) => "/reasoning"@,
        CommandView::Reasoning(Some(e)) => "/reasoning "@ + e,
    }
}

/// Whether the argument of a command, if it has one, can be one.
pub open spec fn well_formed(c: CommandView) -> bool {
    match c {
        CommandView::Model(Some(m)) => is_argument(m),
        CommandView::Reasoning(Some(e)) => is_argument(e),
        _ => true,
    }
}

/// A command is the whole message: what is read as a command is that command written out, with
/// nothing before or after it.
pub proof fn law_a_command_is_the_whole_message(body: Seq<char>)
    ensures
        command_in(body) matches Some(c) ==> body == written(c) && well_formed(c),
{
    if argument_after(body, "/model "@) is Some {
        assert(body =~= "/model "@ + body.skip("/model "@.len() as int));
    }
    if argument_after(body, "/reasoning "@) is Some {
        assert(body =~= "/reasoning "@ + body.skip("/reasoning "@.len() as int));
    }
}

/// Every command that is written out is read back as itself.
pub proof fn law_a_written_command_is_read_back(c: CommandView)
    requires
        well_formed(c),
    ensures
        command_in(written(c)) == Some(c),
{
    reveal_strlit("/help");
    reveal_strlit("/model");
    reveal_strlit("/model ");
    reveal_strlit("/reasoning");
    reveal_strlit("/reasoning ");
    let body = written(c);
    match c {
        CommandView::Help => {},
        CommandView::Model(None) => {
            assert("/model"@[1] != "/help"@[1]);
        },
        CommandView::Reasoning(None) => {
            assert("/reasoning"@[1] != "/help"@[1]);
            assert("/reasoning"@[1] != "/model"@[1]);
        },
        CommandView::Model(Some(m)) => {
            assert(body[1] == 'm');
            assert("/help"@[1] == 'h');
            assert("/reasoning"@[1] == 'r');
            assert(body.len() > "/model"@.len());
            assert(body.subrange(0, 7) =~= "/model "@);
            assert(body.skip(7) =~= m);
        },
        CommandView::Reasoning(Some(e)) => {
            assert(body[1] == 'r');
            assert("/help"@[1] == 'h');
            assert("/model"@[1] == 'm');
            assert("/model "@[1] == 'm');
            assert(body.len() > "/reasoning"@.len());
            if begins(body, "/model "@) {
                assert(body.subrange(0, 7)[1] == body[1]);
            }
            assert(body.subrange(0, 11) =~= "/reasoning "@);
            assert(body.skip(11) =~= e);
        },
    }
}

// ---------------------------------------------------------------------------------------------
// Effects
// ---------------------------------------------------------------------------------------------

/// What `/help` answers.
pub const HELP: &'static str = "/help: list available slash commands\n/model: show the current chat model\n/model <model-slug>: switch the chat model until merlin restarts\n/reasoning: show the current reasoning effort\n/reasoning <effort>: switch the reasoning effort until merlin restarts";

impl<'a> Command<'a> {
    /// Carries out a command at once, without calling the chat model, and says what came of it. A
    /// switch holds for the turns that follow.
    pub fn carry_out(&self, llm: &mut Llm) -> (r: String)
        ensures
            match self@ {
                CommandView::Help => *final(llm) == *old(llm) && r@ == HELP@,
                CommandView::Model(None) => *final(llm) == *old(llm) && r@ == "model: "@ + old(
                    llm,
                ).model_view(),
                CommandView::Model(Some(slug)) => final(llm).model_view() == slug
                    && final(llm).effort_view() == old(llm).effort_view() && final(llm).key_view()
                    == old(llm).key_view() && final(llm).timeout_view() == old(llm).timeout_view()
                    && r@ == "model: "@ + old(llm).model_view() + " -> "@ + slug,
                CommandView::Reasoning(None) => *final(llm) == *old(llm) && r@ == "reasoning: "@
                    + old(llm).effort_view(),
                CommandView::Reasoning(Some(effort)) => final(llm).effort_view() == effort
                    && final(llm).model_view() == old(llm).model_view() && final(llm).key_view()
                    == old(llm).key_view() && final(llm).timeout_view() == old(llm).timeout_view()
                    && r@ == "reasoning: "@ + old(llm).effort_view() + " -> "@ + effort,
            },
    {
        match *self {
            Command::Help => owned(HELP),
            Command::Model(None) => {
                let mut out = owned("model: ");
                out.append(llm.model());
                out
            },
            Command::Model(Some(slug)) => {
                let mut out = owned("model: ");
                out.append(llm.switch_model(slug).as_str());
                out.append(" -> ");
                out.append(slug);
                out
            },
            Command::Reasoning(None) => {
                let mut out = owned("reasoning: ");
                out.append(llm.reasoning_effort());
                out
            },
            Command::Reasoning(Some(effort)) => {
                let mut out = owned("reasoning: ");
                out.append(llm.switch_reasoning_effort(effort).as_str());
                out.append(" -> ");
                out.append(effort);
                out
            },
        }
    }
}

// ---------------------------------------------------------------------------------------------
// Laws of effects
// ---------------------------------------------------------------------------------------------

/// `/model` and `/reasoning` ask for the model and the effort in use; with one word behind them they ask
/// for that word to be used instead. Anything else is no command.
pub proof fn law_commands_are_read_by_their_words(body: &str, r: Option<Command>, word: Seq<char>)
    requires
        call_ensures(Command::parse, (body,), r),
        word.len() > 0,
        forall|i: int| 0 <= i < word.len() ==> !white_space(#[trigger] word[i]),
    ensures
        body@ == "/help"@ ==> r is Some && r->0@ == CommandView::Help,
        body@ == "/model"@ ==> r is Some && r->0@ == CommandView::Model(None),
        body@ == "/reasoning"@ ==> r is Some && r->0@ == CommandView::Reasoning(None),
        body@ == "/model "@ + word ==> r is Some && r->0@ == CommandView::Model(Some(word)),
        body@ == "/reasoning "@ + word ==> r is Some && r->0@ == CommandView::Reasoning(Some(word)),
        r is Some ==> body@.len() > 0 && body@[0] == '/',
{
    law_a_written_command_is_read_back(CommandView::Help);
    law_a_written_command_is_read_back(CommandView::Model(None));
    law_a_written_command_is_read_back(CommandView::Reasoning(None));
    law_a_written_command_is_read_back(CommandView::Model(Some(word)));
    law_a_written_command_is_read_back(CommandView::Reasoning(Some(word)));
    law_a_command_is_the_whole_message(body@);
    reveal_strlit("/help");
    reveal_strlit("/model");
    reveal_strlit("/model ");
    reveal_strlit("/reasoning");
    reveal_strlit("/reasoning ");
}

/// A switch of the model changes the model and nothing else, and every request after it names the new
/// one. What is said tells both.
pub proof fn law_a_switched_model_is_used(
    command: &Command,
    llm: &mut Llm,
    r: String,
    slug: Seq<char>,
)
    requires
        call_ensures(Command::carry_out, (command, llm), r),
        command@ == CommandView::Model(Some(slug)),
    ensures
        final(llm).model_view() == slug,
        final(llm).effort_view() == old(llm).effort_view(),
        final(llm).key_view() == old(llm).key_view(),
        final(llm).timeout_view() == old(llm).timeout_view(),
        crate::text::contains(r@, old(llm).model_view()),
        crate::text::ends(r@, slug),
{
    let a = "model: "@ + old(llm).model_view();
    crate::text::lemma_added("model: "@, old(llm).model_view());
    crate::text::lemma_grow(a, " -> "@, old(llm).model_view());
    crate::text::lemma_grow(a + " -> "@, slug, old(llm).model_view());
    crate::text::lemma_added(a + " -> "@, slug);
}

/// A switch of the effort changes the effort and nothing else. What is said tells both.
pub proof fn law_a_switched_effort_is_used(
    command: &Command,
    llm: &mut Llm,
    r: String,
    effort: Seq<char>,
)
    requires
        call_ensures(Command::carry_out, (command, llm), r),
        command@ == CommandView::Reasoning(Some(effort)),
    ensures
        final(llm).effort_view() == effort,
        final(llm).model_view() == old(llm).model_view(),
        final(llm).key_view() == old(llm).key_view(),
        final(llm).timeout_view() == old(llm).timeout_view(),
        crate::text::contains(r@, old(llm).effort_view()),
        crate::text::ends(r@, effort),
{
    let a = "reasoning: "@ + old(llm).effort_view();
    crate::text::lemma_added("reasoning: "@, old(llm).effort_view());
    crate::text::lemma_grow(a, " -> "@, old(llm).effort_view());
    crate::text::lemma_grow(a + " -> "@, effort, old(llm).effort_view());
    crate::text::lemma_added(a + " -> "@, effort);
}

/// A command that only asks changes nothing: it tells the model in use, the effort in use, or the commands
/// that there are.
pub proof fn law_asking_changes_nothing(command: &Command, llm: &mut Llm, r: String)
    requires
        call_ensures(Command::carry_out, (command, llm), r),
        command@ == CommandView::Help || command@ == CommandView::Model(None) || command@
            == CommandView::Reasoning(None),
    ensures
        *final(llm) == *old(llm),
        command@ == CommandView::Model(None) ==> crate::text::ends(r@, old(llm).model_view()),
        command@ == CommandView::Reasoning(None) ==> crate::text::ends(r@, old(llm).effort_view()),
        command@ == CommandView::Help ==> crate::text::contains(r@, "/help"@)
            && crate::text::contains(r@, "/model <model-slug>"@) && crate::text::contains(
            r@,
            "/reasoning <effort>"@,
        ),
{
    crate::text::lemma_added("model: "@, old(llm).model_view());
    crate::text::lemma_added("reasoning: "@, old(llm).effort_view());
    lemma_help();
}

proof fn lemma_help()
    ensures
        crate::text::contains(HELP@, "/help"@),
        crate::text::contains(HELP@, "/model <model-slug>"@),
        crate::text::contains(HELP@, "/reasoning <effort>"@),
{
    reveal_strlit("/help: list available slash commands\n/model: show the current chat model\n/model <model-slug>: switch the chat model until merlin restarts\n/reasoning: show the current reasoning effort\n/reasoning <effort>: switch the reasoning effort until merlin restarts");
    reveal_strlit("/help");
    reveal_strlit("/model <model-slug>");
    reveal_strlit("/reasoning <effort>");
    assert(HELP@.subrange(0, 5) =~= "/help"@);
    assert(crate::text::occurs_at(HELP@, "/help"@, 0));
    assert(HELP@.subrange(73, 92) =~= "/model <model-slug>"@);
    assert(crate::text::occurs_at(HELP@, "/model <model-slug>"@, 73));
    assert(HELP@.subrange(184, 203) =~= "/reasoning <effort>"@);
    assert(crate::text::occurs_at(HELP@, "/reasoning <effort>"@, 184));
}

} // verus!
