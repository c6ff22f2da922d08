use merlin::agent::{Image, TurnResult};
use merlin::backfill::{self, Event, Extracted, Fate, Paging, Stats};
use merlin::cli::{self, Args};
use merlin::config::{Config, Environment, Limits, ModelConfig};
use merlin::cron::Job;
use merlin::matrix::{self, Attached, Invitation, MessageKind};
use merlin::messages::Archived;
use merlin::room::Buffers;
use merlin::scheduler::{self, Live};
use merlin::{commands, dream, llm};

fn config() -> Config {
    Config {
        homeserver: "https://matrix.example.org".into(),
        user_id: "@merlin:example.org".into(),
        display_name: "merlin".into(),
        allowed_rooms: vec!["!r:x".into()],
        allowed_senders: vec!["@sam:x".into()],
        admin_senders: vec!["@sam:x".into()],
        untrusted_senders: vec![],
        context_window: 40,
        timezone: "UTC".into(),
        model: ModelConfig::default(),
        limits: Limits::default(),
        state_dir: "/var/lib/merlin".into(),
    }
}

fn text(body: &str) -> MessageKind {
    MessageKind::Text(body.into())
}

fn job(name: &str, prompt: &str) -> Job {
    Job {
        name: name.into(),
        schedule: "0 7 * * *".into(),
        timezone: "UTC".into(),
        prompt: prompt.into(),
        room_id: "!r:x".into(),
        enabled: true,
    }
}

#[test]
fn only_messages_of_the_rooms_are_noticed() {
    let c = config();
    assert_eq!(
        matrix::on_message(&c, "!r:x", text("  hi \n")).unwrap().0,
        "hi"
    );
    assert!(matrix::on_message(&c, "!other:x", text("hi")).is_none());
    assert!(matrix::on_message(&c, "!r:x", text(" \n")).is_none());
    assert!(matrix::on_message(&c, "!r:x", MessageKind::Other).is_none());
}

#[test]
fn files_are_announced_by_name() {
    let image = MessageKind::Image {
        body: " cat.jpg ".into(),
        media_type: Some("image/jpeg".into()),
    };
    let (body, file) = matrix::extract(image).unwrap();
    assert_eq!(body, "[file] cat.jpg");
    let file = file.unwrap();
    assert_eq!(file.name, "cat.jpg");
    assert!(file.viewable);
    assert_eq!(
        matrix::shown_as(file, 10, 100),
        Some("image/jpeg".to_string())
    );
    for kind in [
        MessageKind::File("a".into()),
        MessageKind::Video("a".into()),
        MessageKind::Audio("a".into()),
    ] {
        let (_, file) = matrix::extract(kind).unwrap();
        assert_eq!(matrix::shown_as(file.unwrap(), 10, 100), None);
    }
    let plain = |size| {
        matrix::shown_as(
            Attached {
                name: "x".into(),
                media_type: None,
                viewable: true,
            },
            size,
            100,
        )
    };
    assert_eq!(plain(100), Some("image/png".to_string()));
    assert_eq!(plain(101), None);
}

#[test]
fn a_received_file_is_noted_in_the_message() {
    assert_eq!(
        matrix::receive("[file] x", 10, 100, Some("inbox/x")),
        "[file] x (saved at inbox/x)"
    );
    assert_eq!(
        matrix::receive("[file] x", 101, 100, None),
        "[file] x (too large to save, 101 bytes)"
    );
    assert_eq!(matrix::receive("[file] x", 10, 100, None), "[file] x");
    assert!(!matrix::too_large(100, 100));
}

#[test]
fn only_allowed_senders_are_answered() {
    let c = config();
    assert!(matrix::should_answer(&c, "merlin hi", &[], "@sam:x", None));
    assert!(!matrix::should_answer(&c, "merlin hi", &[], "@eve:x", None));
    assert!(!matrix::should_answer(&c, "hi", &[], "@sam:x", None));
    assert!(matrix::should_answer(&c, "hi", &[], "@sam:x", Some("@merlin:example.org")));
    assert!(!matrix::should_answer(&c, "hi", &[], "@sam:x", Some("@eve:x")));
}

#[test]
fn invitations_to_other_rooms_are_rejected() {
    assert_eq!(matrix::on_invitation(&config(), "!r:x"), Invitation::Accept);
    assert_eq!(matrix::on_invitation(&config(), "!else:x"), Invitation::Reject);
}

#[test]
fn a_command_is_the_whole_text_message_of_an_allowed_sender() {
    let c = config();
    let help = text("/help");
    assert_eq!(
        matrix::command(&c, "@sam:x", &help),
        Some(commands::Command::Help)
    );
    assert_eq!(matrix::command(&c, "@eve:x", &help), None);
    assert_eq!(matrix::command(&c, "@sam:x", &text("/help\n")), None);
    assert_eq!(
        matrix::command(&c, "@sam:x", &MessageKind::File("/help".into())),
        None
    );
}

#[test]
fn commands_work_on_the_model_until_the_next_start() {
    let mut llm = llm::Llm::new("k".into(), "a/b".into(), "low".into(), 1);
    let mut say = |body: &str| commands::Command::parse(body).unwrap().carry_out(&mut llm);
    assert_eq!(say("/help"), commands::HELP);
    assert!(say("/model").contains("a/b"));
    let switched = say("/model c/d");
    assert!(switched.contains("a/b") && switched.contains("c/d"));
    assert!(say("/model").contains("c/d"));
    assert!(say("/reasoning high").contains("low"));
    assert!(say("/reasoning").contains("high"));
}

#[test]
fn an_answer_brings_its_pictures_and_its_text() {
    let turn = |text: &str| TurnResult {
        text: text.into(),
        images: vec![Image {
            bytes: vec![1],
            media_type: "image/png".into(),
            caption: "c".into(),
        }],
        prompt_tokens: 1,
        completion_tokens: 1,
        tools_used: vec![],
    };
    let a = matrix::answer(Ok(turn("hello")));
    assert_eq!(a.text.as_deref(), Some("hello"));
    assert_eq!(a.images.len(), 1);
    assert_eq!(matrix::answer(Ok(turn(""))).text, None);
    let failed = matrix::answer(Err("no model".into()));
    assert_eq!(failed.text.as_deref(), Some("that failed: no model"));
    assert!(failed.images.is_empty());
}

#[test]
fn the_session_is_keyed_on_the_secret() {
    let key = matrix::session_key("secret");
    assert_eq!(key.len(), 32);
    assert_ne!(key, matrix::session_key("Secret"));
    assert_eq!(
        merlin::db::hex_of(&key),
        merlin::db::room_key("merlin.session.v1secret")
    );
}

fn event(body: &str, millis: i64) -> Event {
    Event::Message {
        event_id: "$1".into(),
        sender: "@x".into(),
        body: body.into(),
        millis,
    }
}

#[test]
fn archived_events_carry_the_time_of_the_server() {
    match backfill::extract(event(" hi ", 0), "now") {
        Extracted::Text { body, at, .. } => {
            assert_eq!(body, "hi");
            assert_eq!(at, "1970-01-01T00:00:00+00:00");
        }
        other => panic!("{other:?}"),
    }
    match backfill::extract(event("hi", i64::MAX), "now") {
        Extracted::Text { at, .. } => assert_eq!(at, "now"),
        other => panic!("{other:?}"),
    }
    assert!(matches!(backfill::extract(event(" ", 0), "now"), Extracted::Other));
    assert!(matches!(
        backfill::extract(Event::Encrypted, "now"),
        Extracted::Undecryptable
    ));
    assert!(matches!(backfill::extract(Event::Other, "now"), Extracted::Other));
}

#[test]
fn the_numbers_of_a_backfill_add_up() {
    let mut s = Stats::default();
    s.turn_page();
    for fate in [
        Fate::Archived,
        Fate::Undecryptable,
        Fate::Undecryptable,
        Fate::NotText,
        Fate::Lost,
    ] {
        s.count(fate);
    }
    assert_eq!(
        s.describe(),
        "1 pages, 5 events: 1 archived, 2 undecryptable, 1 not text"
    );
    assert!(s.mostly_undecryptable());
    assert!(!Stats::default().mostly_undecryptable());
}

#[test]
fn pages_are_turned_until_there_are_no_more() {
    let mut p = Paging::new(2);
    assert_eq!(p.next(), Some(None));
    p.turn(false, Some("a".into()));
    assert_eq!(p.next(), Some(Some("a".into())));
    assert_eq!(p.number(), 1);
    p.turn(false, Some("b".into()));
    assert_eq!(p.next(), None, "as many pages as allowed");
    let mut p = Paging::new(5);
    p.turn(true, Some("a".into()));
    assert_eq!(p.next(), None, "an empty page is the last");
    let mut p = Paging::new(5);
    p.turn(false, None);
    assert_eq!(p.next(), None, "there is no further page");
    assert_eq!(Paging::new(0).next(), None);
}

fn args(raw: &[&str]) -> Result<Args, String> {
    let raw: Vec<String> = raw.iter().map(|s| s.to_string()).collect();
    Args::parse(&raw).map_err(|e| e.message())
}

#[test]
fn the_command_line_is_read() {
    let a = args(&[]).unwrap();
    assert_eq!(a.config, "/var/lib/merlin/config.toml");
    assert_eq!((a.import_keys, a.backfill), (None, None));
    let a = args(&["--config", "c", "--backfill", "7", "--import-keys", "k"]).unwrap();
    assert_eq!((a.config.as_str(), a.import_keys.as_deref()), ("c", Some("k")));
    assert_eq!(a.backfill, Some(7));
    assert_eq!(args(&["--backfill"]).unwrap().backfill, Some(50));
    assert_eq!(args(&["--config"]).err().unwrap(), "--config needs a value");
    assert_eq!(
        args(&["--import-keys"]).err().unwrap(),
        "--import-keys needs a value"
    );
    assert!(args(&["--backfill", "x"])
        .err()
        .unwrap()
        .starts_with("--backfill needs a page count"));
    assert_eq!(args(&["--help"]).err().unwrap(), "unknown argument '--help'");
}

#[test]
fn the_runner_and_the_workspace_can_be_set() {
    let env = |k: &str, v: &str| Environment {
        vars: vec![(k.into(), v.into())],
    };
    assert_eq!(
        cli::exec_runner(&env("MERLIN_EXEC_RUNNER", " bwrap  --x ")),
        vec!["bwrap", "--x"]
    );
    assert_eq!(cli::exec_runner(&env("MERLIN_EXEC_RUNNER", " "))[0], "sudo");
    assert_eq!(cli::exec_runner(&env("", "")).len(), 5);
    assert_eq!(cli::workspace_dir(&env("MERLIN_WORKSPACE", "/w")), "/w");
    assert_eq!(
        cli::workspace_dir(&env("MERLIN_WORKSPACE", "")),
        "/var/lib/merlin-workspace"
    );
}

#[test]
fn the_context_is_restored_after_a_restart() {
    let mut buffers = Buffers::new(2);
    let rows = ["one", "two", "three"]
        .iter()
        .map(|b| Archived {
            sender: "@x".into(),
            body: b.to_string(),
            at: "t".into(),
        })
        .collect();
    cli::seed_buffers(&mut buffers, "!r", rows);
    assert_eq!(buffers.render("!r", false).unwrap(), "@x: two\n@x: three");
}

#[test]
fn the_live_jobs_follow_the_wanted_ones() {
    let live = |job: &Job| Live {
        name: job.name.clone(),
        fingerprint: scheduler::fingerprint(job),
    };
    let mut off = job("off", "p");
    off.enabled = false;
    let wanted = vec![job("kept", "p"), job("changed", "new"), off.clone(), job("new", "p")];
    let running = vec![
        live(&job("kept", "p")),
        live(&job("changed", "old")),
        live(&off),
        live(&job("gone", "p")),
    ];
    assert_eq!(scheduler::stale(&running, &wanted), vec!["changed", "off", "gone"]);
    let left = vec![live(&job("kept", "p"))];
    assert_eq!(scheduler::missing(&left, &wanted), vec![1, 3]);
    assert_eq!(scheduler::fingerprint(&job("n", "p")), "0 7 * * *|UTC|p|!r:x");
    assert_eq!(scheduler::status(None), "ok");
    assert_eq!(scheduler::status(Some("why".into())), "error: why");
    let j = job("n", "p");
    let i = scheduler::run_once(&j);
    assert_eq!((i.sender, i.body, i.room_id), ("scheduler", "p", "!r:x"));
}

#[test]
fn dreaming_is_an_ordinary_turn() {
    let i = dream::run("!r");
    assert_eq!((i.room_id, i.sender), ("!r", "dreaming"));
    assert!(i.body.starts_with("You are consolidating your own memory."));
    assert!(i.ambient.is_none() && i.reply_parent.is_none());
    assert_eq!(dream::schedule("0 5 * * *"), "0 0 5 * * *");
    assert_eq!(dream::schedule("1 0 5 * * *"), "1 0 5 * * *");
}

#[test]
fn text_is_cut_on_a_character() {
    assert_eq!(merlin::truncate("abc", 3), "abc");
    assert_eq!(merlin::truncate("abcd", 3), "abc\u{2026}");
    assert_eq!(merlin::truncate("a\u{e9}b", 2), "a\u{2026}");
    assert_eq!(merlin::truncate("\u{1f600}", 3), "\u{2026}");
    assert_eq!(merlin::truncate("", 0), "");
}
