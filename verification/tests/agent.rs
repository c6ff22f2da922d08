use merlin::agent::{self, Action, Agent, Going, Incoming};
use merlin::json;
use merlin::llm::{Attachment, Completion, FunctionCall, Message, ToolCall, Usage};
use merlin::tools::Outcome;

fn agent(max_iterations: usize) -> Agent {
    Agent {
        soul: "You are merlin.".into(),
        max_iterations,
        max_duration_s: 600,
        timezone: "Australia/Sydney".into(),
    }
}

fn incoming() -> Incoming<'static> {
    Incoming {
        room_id: "!r:x",
        sender: "@sam:x",
        body: "what is up",
        ambient: None,
        reply_parent: None,
        attachments: Vec::new(),
    }
}

fn says(text: &str, prompt: u64, completion: u64) -> Completion {
    Completion {
        message: Message {
            role: "assistant".into(),
            content: Some(json::text(text)),
            tool_calls: Vec::new(),
            tool_call_id: None,
        },
        usage: Usage { prompt, completion },
    }
}

fn calls(names: &[&str]) -> Completion {
    Completion {
        message: Message {
            role: "assistant".into(),
            content: None,
            tool_calls: names
                .iter()
                .map(|n| ToolCall {
                    id: format!("id-{n}"),
                    kind: "function".into(),
                    function: FunctionCall {
                        name: n.to_string(),
                        arguments: "{\"a\":1}".into(),
                    },
                })
                .collect(),
            tool_call_id: None,
        },
        usage: Usage { prompt: 10, completion: 5 },
    }
}

fn asks(turn: &mut Going, out_of_time: bool) -> bool {
    match turn.step(out_of_time) {
        Action::Ask { tools } => tools,
        _ => panic!("the model must be asked"),
    }
}

#[test]
fn a_plain_answer_ends_the_turn() {
    let mut turn = agent(3).turn(&incoming(), "now");
    assert!(asks(&mut turn, false));
    assert!(turn.awaits_reply());
    turn.replied(says("  fine \n", 7, 2));
    assert!(matches!(turn.step(false), Action::Finish));
    let result = turn.finish();
    assert_eq!(result.text, "fine");
    assert_eq!((result.prompt_tokens, result.completion_tokens), (7, 2));
    assert!(result.tools_used.is_empty());
}

#[test]
fn every_tool_call_is_answered_under_its_id() {
    let mut turn = agent(3).turn(&incoming(), "now");
    asks(&mut turn, false);
    turn.replied(calls(&["bash", "generate_image"]));
    assert!(turn.awaits_outcome());
    match turn.step(false) {
        Action::Call { name, arguments } => {
            assert_eq!(name, "bash");
            assert_eq!(arguments.u64_at("a"), Some(1));
        }
        _ => panic!("a tool must be called"),
    }
    turn.called(Outcome::Text("done".into()));
    match turn.step(false) {
        Action::Call { name, .. } => assert_eq!(name, "generate_image"),
        _ => panic!("a tool must be called"),
    }
    turn.called(Outcome::Image {
        bytes: vec![9],
        media_type: "image/png".into(),
        caption: "a cat".into(),
    });
    assert!(asks(&mut turn, false));
    let messages = turn.messages();
    assert_eq!(messages.len(), 5);
    assert_eq!(messages[3].tool_call_id.as_deref(), Some("id-bash"));
    assert_eq!(messages[3].text(), Some("done"));
    assert_eq!(messages[4].tool_call_id.as_deref(), Some("id-generate_image"));
    assert_eq!(
        messages[4].text(),
        Some("Image generated and sent to the room: a cat")
    );
    turn.replied(says("there", 1, 1));
    assert_eq!(turn.spent(), (11, 6));
    let result = turn.finish();
    assert_eq!(result.tools_used, vec!["bash", "generate_image"]);
    assert_eq!(result.images.len(), 1);
    assert_eq!(result.images[0].caption, "a cat");
}

#[test]
fn a_turn_that_runs_out_of_steps_has_to_answer() {
    let mut turn = agent(1).turn(&incoming(), "now");
    assert!(asks(&mut turn, false));
    turn.replied(calls(&["bash"]));
    turn.step(false);
    turn.called(Outcome::Text("x".into()));
    assert!(!asks(&mut turn, false), "no tools at the end");
    assert_eq!(
        turn.messages().last().unwrap().text(),
        Some(agent::OUT_OF_STEPS)
    );
    turn.replied(says("  ", 1, 1));
    assert!(matches!(turn.step(false), Action::Finish));
    assert_eq!(turn.finish().text, agent::NO_ANSWER);
}

#[test]
fn a_turn_that_runs_out_of_time_has_to_answer() {
    let mut turn = agent(5).turn(&incoming(), "now");
    assert!(!asks(&mut turn, true));
    turn.replied(calls(&["bash"]));
    assert!(matches!(turn.step(false), Action::Finish), "calls are not made any more");
}

#[test]
fn arguments_that_are_no_json_count_as_none() {
    assert!(agent::call_arguments("{oops").get("a").is_none());
    assert_eq!(agent::call_arguments("{\"a\":2}").u64_at("a"), Some(2));
}

#[test]
fn the_prompt_tells_what_a_message_refers_to() {
    let mut message = incoming();
    let plain = agent::system_prompt("soul", &message, "Monday");
    assert!(plain.starts_with("soul\n\n## right now\n\nMonday\n\n\n## your machine\n\n"));
    assert!(!plain.contains("replied to"));
    message.reply_parent = Some("the parent".into());
    message.ambient = Some("@x: hi".into());
    let full = agent::system_prompt("soul", &message, "Monday");
    assert!(full.contains("\n\n## the message being replied to\n\nthe parent\n"));
    assert!(full.ends_with("answer the message above, not these.\n\n@x: hi\n"));
    assert!(full.starts_with(&plain));
}

#[test]
fn attachments_go_with_the_question() {
    let mut message = incoming();
    let turn = agent(1).turn(&message, "now");
    assert_eq!(turn.messages()[0].role, "system");
    assert_eq!(turn.messages()[1].text(), Some("@sam:x: what is up"));
    message.attachments = vec![Attachment {
        bytes: vec![1],
        media_type: "image/png".into(),
    }];
    let turn = agent(1).turn(&message, "now");
    assert!(turn.messages()[1].text().is_none());
}

#[test]
fn the_time_is_told_in_the_zone() {
    let told = agent::right_now(0, "Australia/Sydney").unwrap();
    assert_eq!(told, "Thursday, 1 January 1970, 10:00 (AEST)");
    assert_eq!(agent::right_now(0, "Mars/Olympus"), None);
    assert_eq!(
        agent::right_now(-1, "UTC").unwrap(),
        "Wednesday, 31 December 1969, 23:59 (UTC)"
    );
    assert_eq!(agent::right_now(i64::MAX, "UTC"), None);
}

fn object(entries: &[(&str, serde_json::Value)]) -> serde_json::Value {
    let mut map = serde_json::Map::new();
    for (k, v) in entries {
        map.insert(k.to_string(), v.clone());
    }
    serde_json::Value::Object(map)
}

#[test]
fn a_tool_call_is_logged_with_enough_to_identify_it() {
    let line = merlin::agent::summarise(&object(&[
        ("url", "https://example.com/thing".into()),
        ("limit", 8.into()),
    ]));
    assert!(
        line.contains("url=https://example.com/thing"),
        "got: {line}"
    );
    assert!(line.contains("limit=8"), "got: {line}");

    let long = merlin::agent::summarise(&object(&[(
        "script",
        format!("echo one\n{}", "x".repeat(4000)).into(),
    )]));
    assert!(
        long.len() < 700,
        "a long argument must be cut: {}",
        long.len()
    );
    assert!(
        !long.contains('\n'),
        "a logged argument must stay on one line"
    );

    let query = format!(
        "WITH RECURSIVE split(sender, w, rest) AS (SELECT sender, '', lower(body) || ' ' \
         FROM messages UNION ALL SELECT sender, substr(rest, 1, instr(rest, ' ') - 1), \
         substr(rest, instr(rest, ' ') + 1) FROM split WHERE rest <> '')\n{}",
        "SELECT w FROM split;"
    );
    let logged = merlin::agent::summarise(&object(&[("query", query.clone().into())]));
    assert!(
        logged.contains("SELECT w FROM split;"),
        "a realistic query must survive whole: {logged}"
    );
    assert_eq!(merlin::agent::summarise(&serde_json::Value::Null), "");
}
