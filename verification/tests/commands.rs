use merlin::commands::Command;

#[test]
fn slash_commands_must_be_the_whole_message() {
    assert_eq!(Command::parse("/help"), Some(Command::Help));
    assert_eq!(Command::parse("/model"), Some(Command::Model(None)));
    assert_eq!(
        Command::parse("/model openai/gpt-5.6-sol"),
        Some(Command::Model(Some("openai/gpt-5.6-sol")))
    );
    assert_eq!(Command::parse("/reasoning"), Some(Command::Reasoning(None)));
    assert_eq!(
        Command::parse("/reasoning high"),
        Some(Command::Reasoning(Some("high")))
    );

    for invalid in [
        "/model ",
        "/model  openai/gpt-5.6-sol",
        "/model openai/gpt-5.6-sol please",
        "merlin /model openai/gpt-5.6-sol",
        "/model openai/gpt-5.6-sol\n",
        "/help please",
        "/reasoning ",
        "/reasoning very high",
    ] {
        assert_eq!(Command::parse(invalid), None, "accepted {invalid:?}");
    }
}

use merlin::commands::HELP;
use merlin::llm::Llm;

fn llm() -> Llm {
    Llm::new("key".into(), "old/model".into(), "medium".into(), 10)
}

#[test]
fn a_written_command_is_read_back() {
    assert_eq!(
        Command::parse("/model a/b-c.d:free"),
        Some(Command::Model(Some("a/b-c.d:free")))
    );
    assert_eq!(Command::parse("/reasoning\u{a0}high"), None);
    assert_eq!(Command::parse("/reasoning a\u{2003}b"), None);
    assert_eq!(Command::parse("/Help"), None);
    assert_eq!(Command::parse(""), None);
}

#[test]
fn commands_are_carried_out_without_the_model() {
    let mut llm = llm();
    assert_eq!(Command::Help.carry_out(&mut llm), HELP);
    assert_eq!(Command::Model(None).carry_out(&mut llm), "model: old/model");
    assert_eq!(
        Command::Model(Some("new/model")).carry_out(&mut llm),
        "model: old/model -> new/model"
    );
    assert_eq!(Command::Model(None).carry_out(&mut llm), "model: new/model");
    assert_eq!(
        Command::Reasoning(None).carry_out(&mut llm),
        "reasoning: medium"
    );
    assert_eq!(
        Command::Reasoning(Some("high")).carry_out(&mut llm),
        "reasoning: medium -> high"
    );
    assert_eq!(llm.reasoning_effort(), "high");
    assert_eq!(llm.model(), "new/model");
    assert_eq!(llm.api_key(), "key");
    assert_eq!(llm.timeout_s(), 10);
}

#[test]
fn help_names_every_command() {
    for name in ["/help", "/model", "/reasoning"] {
        assert!(HELP.contains(name), "missing {name}");
    }
}
