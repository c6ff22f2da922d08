use merlin::cron::{Job, JobError};

fn job(name: &str, schedule: &str) -> Job {
    Job {
        name: name.into(),
        schedule: schedule.into(),
        timezone: "Australia/Sydney".into(),
        prompt: "post the digest".into(),
        room_id: "!r:example.org".into(),
        enabled: true,
    }
}

#[test]
fn crontab_syntax_is_accepted_and_nonsense_is_refused() {
    assert!(job("hn", "0 7 * * *").validate().is_ok());
    assert_eq!(job("hn", "0 7 * * *").six_field_schedule(), "0 0 7 * * *");
    assert_eq!(
        job("hn", "30 0 7 * * *").six_field_schedule(),
        "30 0 7 * * *"
    );

    assert!(job("hn", "not a cron").validate().is_err());
    let mut bad_zone = job("hn", "0 7 * * *");
    bad_zone.timezone = "Mars/Olympus".into();
    assert!(bad_zone.validate().is_err());
    let mut unnamed = job("  ", "0 7 * * *");
    unnamed.name = "  ".into();
    assert!(unnamed.validate().is_err());
}

#[test]
fn a_refused_job_says_why() {
    let text = |r: Result<(), JobError>| r.err().unwrap().message();
    assert_eq!(text(job(" ", "0 7 * * *").validate()), "job name cannot be empty");
    let mut bad_zone = job("hn", "0 7 * * *");
    bad_zone.timezone = "Mars/Olympus".into();
    assert_eq!(text(bad_zone.validate()), "unknown timezone 'Mars/Olympus'");
    assert!(text(job("hn", "not a cron").validate())
        .starts_with("invalid cron expression 'not a cron': "));
    assert_eq!(
        text(job("hn", "x").verdict(true, Some("no".into()))),
        "invalid cron expression 'x': no"
    );
    assert!(job("hn", "x").verdict(true, None).is_ok());
}

#[test]
fn the_scheduler_counts_in_the_zone_of_the_job() {
    let mut j = job("hn", "0 7 * * *");
    assert_eq!(j.tz(), "Australia/Sydney");
    j.timezone = "Mars/Olympus".into();
    assert_eq!(j.tz(), "UTC");
}

#[test]
fn white_space_around_a_schedule_does_not_matter() {
    assert_eq!(
        job("hn", "  0  7 * * *\n").six_field_schedule(),
        "0 0  7 * * *"
    );
    assert_eq!(job("hn", " @daily ").six_field_schedule(), "@daily");
}
