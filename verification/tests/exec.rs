use merlin::exec::{self, Sandbox};

#[test]
fn the_run_limits_reach_the_sandbox_as_arguments() {
    let sb = Sandbox::new(vec!["record".into()], 30, "1G".into());
    let call = sb.run("!room-a:example.org").unwrap();

    assert_eq!(call.program, "record");
    assert_eq!(
        call.args,
        vec![
            "30",
            "1048576",
            merlin::db::room_key("!room-a:example.org").as_str()
        ],
        "timeout, address-space limit and opaque room scope"
    );
}

#[test]
fn arguments_of_the_runner_come_first() {
    let sb = Sandbox::new(vec!["/bin/sh".into(), "-c".into(), "x".into()], 10, "1G".into());
    let call = sb.run("!r").unwrap();
    assert_eq!(call.program, "/bin/sh");
    assert_eq!(&call.args[..3], &["-c", "x", "10"]);
    let empty = Sandbox::new(vec![], 10, "1G".into());
    assert_eq!(
        empty.run("!r").err().unwrap().message(),
        "exec runner is empty; nothing to invoke"
    );
}

#[test]
fn a_wedged_program_is_killed_rather_than_hanging_the_turn() {
    let sb = Sandbox::new(
        vec!["/bin/sh".into(), "-c".into(), "sleep 30".into()],
        1,
        "1G".into(),
    );
    assert_eq!(sb.timeout_s(), 1);
    let out = sb.killed();
    assert!(out.timed_out);
    assert!(out.stderr.contains("killed"));
    assert_eq!(out.stderr, "execution exceeded 1s and was killed");
    assert_eq!(out.exit_code, None);
}

#[test]
fn the_output_of_a_program_is_kept_up_to_a_cap() {
    let out = exec::finished(b"42\n", b"\xff", Some(0));
    assert_eq!(out.stdout.trim(), "42");
    assert_eq!(out.stderr, "\u{fffd}");
    assert_eq!(out.exit_code, Some(0));
    assert!(!out.timed_out);

    let long = vec![b'x'; 24_001];
    let out = exec::finished(&long, b"", None);
    assert_eq!(out.stdout.len(), 24_003);
    assert!(out.stdout.ends_with('\u{2026}'));
}

#[test]
fn sizes_are_read_in_kilobytes() {
    for (size, kb) in [
        ("1G", 1_048_576),
        ("2g", 2_097_152),
        ("512M", 524_288),
        (" 3 m ", 3_072),
        ("7K", 7),
        ("9", 9),
        ("", 0),
        ("lots", 0),
        ("G", 0),
        ("-1G", 0),
        ("+4k", 4),
    ] {
        assert_eq!(exec::address_space_kb(size), kb, "{size:?}");
        assert_eq!(exec::checked_kb(size), Some(kb), "{size:?}");
    }
    assert_eq!(exec::checked_kb("18446744073709551615G"), None);
    assert_eq!(exec::checked_kb("18446744073709551616G"), Some(0));
}
