use merlin::room::{is_addressed, Buffers, Turn};

const UID: &str = "@merlin:example.org";

fn addressed(body: &str) -> bool {
    is_addressed(body, &[], UID, "merlin", "merlin", false)
}

#[test]
fn a_turn_starts_only_when_the_bot_is_actually_addressed() {
    assert!(addressed("merlin what day is it"));
    assert!(addressed("hey Merlin, you there?"));
    assert!(addressed("@merlin hello"));
    assert!(addressed("ask @merlin:example.org about it"));

    assert!(!addressed("merlinesque behaviour"));
    assert!(!addressed("submerlin"));
    assert!(!addressed("what do you reckon about the game"));
    assert!(!addressed(""));

    assert!(is_addressed(
        "what did you mean",
        &[],
        UID,
        "merlin",
        "merlin",
        true
    ));
}

#[test]
fn an_explicit_mention_addresses_the_bot_without_naming_it() {
    assert!(is_addressed(
        "can you look at this",
        &[UID.into()],
        UID,
        "merlin",
        "merlin",
        false
    ));
}

#[test]
fn someone_elses_mention_does_not_suppress_the_name() {
    // What a reply looks like: Element attaches an m.mentions for the person
    // being replied to, which used to make the bot ignore its own name.
    assert!(is_addressed(
        "merlin do a security review",
        &["@bob:example.org".to_string()],
        UID,
        "merlin",
        "merlin",
        false
    ));

    // Still nothing to answer when the name is absent.
    assert!(!is_addressed(
        "bob can you look at this",
        &["@bob:example.org".to_string()],
        UID,
        "merlin",
        "merlin",
        false
    ));
}

#[test]
fn ambient_context_keeps_the_newest_messages_per_room() {
    let mut b = Buffers::new(3);
    for i in 0..5 {
        b.push(
            "!a",
            Turn {
                sender: "@x".into(),
                body: i.to_string(),
            },
        );
    }
    b.push(
        "!b",
        Turn {
            sender: "@y".into(),
            body: "other room".into(),
        },
    );

    let rendered = b.render("!a", false).unwrap();
    assert_eq!(
        rendered, "@x: 2\n@x: 3\n@x: 4",
        "oldest evicted, sender labelled"
    );

    assert_eq!(b.render("!a", true).unwrap(), "@x: 2\n@x: 3");
    assert_eq!(b.render("!b", false).unwrap(), "@y: other room");
    assert!(b.render("!missing", false).is_none());
}

#[test]
fn a_buffer_keeps_at_least_one_message() {
    let mut b = Buffers::new(0);
    for body in ["one", "two"] {
        b.push(
            "!a",
            Turn {
                sender: "@x".into(),
                body: body.into(),
            },
        );
    }
    assert_eq!(b.render("!a", false).unwrap(), "@x: two");
    assert!(b.render("!a", true).is_none());
}

#[test]
fn a_name_is_found_where_it_stands_alone() {
    assert!(addressed("MERLIN"));
    assert!(addressed("merlin's turn"));
    assert!(addressed("submerlin and merlin"));
    assert!(addressed("\u{e9}merlin\u{e9}"));
    assert!(!addressed("merlin2"));
    assert!(!is_addressed("hello", &[], UID, "", "", false));
    assert!(is_addressed(
        "wizard, please",
        &[],
        UID,
        "merlin",
        "Wizard",
        false
    ));
}
