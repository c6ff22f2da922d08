use merlin::workspace::{self, Edit, Probe, Workspace, WorkspaceError};

fn edits(pairs: &[(&str, &str)]) -> Vec<Edit> {
    pairs
        .iter()
        .map(|(old, new)| Edit {
            old: old.to_string(),
            new: new.to_string(),
        })
        .collect()
}

fn edit(original: &str, pairs: &[(&str, &str)]) -> Result<String, WorkspaceError> {
    Workspace::edit(original, "a.txt", &edits(pairs))
}

#[test]
fn workspaces_are_scoped_by_room() {
    let workspace = Workspace::new("/work".into());
    let a = workspace.scoped("!a:x");
    let b = workspace.scoped("!b:x");

    assert_ne!(a.root(), b.root());
    assert_ne!(
        a.write("note.txt", "alpha").unwrap().full,
        b.write("note.txt", "beta").unwrap().full
    );
    assert_eq!(
        a.root(),
        format!("/work/{}", merlin::db::room_key("!a:x"))
    );
    assert_eq!(
        a.resolve("note.txt").unwrap(),
        format!("{}/note.txt", a.root())
    );
}

#[test]
fn an_edit_applies_only_when_every_replacement_is_unambiguous() {
    let original = "alpha\nbeta\ngamma\nbeta\n";

    let ambiguous = edit(original, &[("beta", "delta")]);
    assert!(ambiguous.is_err(), "an ambiguous edit must be refused");

    let partial = edit(original, &[("alpha", "ALPHA"), ("nowhere", "x")]);
    assert!(partial.is_err(), "no edit may land if any edit in the call fails");

    let updated = edit(original, &[("alpha\nbeta", "alpha\nBETA")]).unwrap();
    assert!(updated.contains("BETA"));
    assert_eq!(updated, "alpha\nBETA\ngamma\nbeta\n");
}

#[test]
fn a_refused_edit_says_which_and_why() {
    let text = |pairs: &[(&str, &str)]| edit("one two two", pairs).err().unwrap().message();
    assert_eq!(
        text(&[("one", "1"), ("three", "3")]),
        "edit 2 did not match anything in a.txt"
    );
    assert_eq!(
        text(&[("two", "2")]),
        "edit 1 matches 2 places in a.txt; include more surrounding text to make it unique"
    );
    assert!(matches!(
        edit("abcd", &[("abc", "x"), ("cd", "y")]),
        Err(WorkspaceError::Overlap { .. })
    ));
}

#[test]
fn edits_do_not_see_what_others_wrote() {
    assert_eq!(edit("a b", &[("a", "b"), ("b", "c")]).unwrap(), "b c");
    assert_eq!(edit("a b", &[("b", "c"), ("a", "b")]).unwrap(), "b c");
    assert_eq!(edit("", &[]).unwrap(), "");
    assert_eq!(edit("", &[("", "x")]).unwrap(), "x");
    assert_eq!(workspace::applied("a.txt", 2), "Applied 2 edit(s) to a.txt.");
}

#[test]
fn paths_cannot_climb_out_of_the_workspace() {
    let w = Workspace::new("/work".into());
    for attempt in ["../escaped.txt", "../../etc/passwd", "a/../../../tmp/x"] {
        assert!(
            w.write(attempt, "nope").is_err(),
            "{attempt} should have been refused"
        );
    }
    assert_eq!(
        w.write("/inside.txt", "fine").unwrap().full,
        "/work/inside.txt"
    );
    assert_eq!(w.resolve("./a//b/./c").unwrap(), "/work/a/b/c");
    assert_eq!(
        w.resolve("a/..").err().unwrap().message(),
        "'a/..' must stay inside the workspace"
    );
}

#[test]
fn paths_cannot_leave_through_a_symlink_the_sandbox_planted() {
    let outside = Probe::Real("/outside".into());
    assert!(Workspace::confine("/work", "escape/loot.txt", &outside).is_err());
    assert!(Workspace::confine("/work", "escape", &outside).is_err());

    assert!(Workspace::confine("/work", "x", &Probe::Missing).is_ok());
    assert!(Workspace::confine("/work", "x", &Probe::Real("/work".into())).is_ok());
    assert!(Workspace::confine("/work", "x", &Probe::Real("/work/a".into())).is_ok());
    assert!(Workspace::confine("/work", "x", &Probe::Real("/workshop".into())).is_err());
    assert!(Workspace::confine("/work", "x", &Probe::Dangling("/work/new".into())).is_ok());
    assert!(Workspace::confine("/work", "x", &Probe::Dangling("/outside/new".into())).is_err());
    assert_eq!(
        Workspace::confine("/work", "x", &Probe::Lost)
            .err()
            .unwrap()
            .message(),
        "'x' resolves outside the workspace"
    );
}

#[test]
fn a_received_file_gets_a_harmless_name() {
    let w = Workspace::new("/work".into());
    let saved = |name: &str| w.save_incoming(name).unwrap().relative;
    assert_eq!(saved("photo 1.png"), "inbox/photo_1.png");
    assert_eq!(saved("../../etc"), "inbox/.._.._etc");
    assert_eq!(saved("///"), "inbox/attachment");
    assert_eq!(saved(""), "inbox/attachment");
    assert_eq!(saved("\u{e9}_"), "inbox/\u{e9}_");
    assert_eq!(
        w.save_incoming("a.png").unwrap().full,
        "/work/inbox/a.png"
    );
    assert_eq!(
        w.save_incoming("..").err().unwrap().message(),
        "'inbox/..' must stay inside the workspace"
    );
}

#[test]
fn what_was_written_is_counted_in_lines() {
    let w = Workspace::new("/work".into());
    let said = |content: &str| w.write("p", content).unwrap().said;
    assert_eq!(said(""), "Wrote 0 lines to p.");
    assert_eq!(said("a\nb"), "Wrote 2 lines to p.");
    assert_eq!(said("a\nb\n"), "Wrote 2 lines to p.");
    assert_eq!(said("\n"), "Wrote 1 lines to p.");
    assert_eq!(w.write("/p", "").unwrap().full, "/work/p");
}
