use merlin::config::{
    Config, ConfigError, Environment, Limits, ModelConfig, Secrets, TrustLevel,
};

fn env(vars: &[(&str, &str)]) -> Environment {
    Environment {
        vars: vars
            .iter()
            .map(|(k, v)| (k.to_string(), v.to_string()))
            .collect(),
    }
}

fn list(items: &[&str]) -> Vec<String> {
    items.iter().map(|s| s.to_string()).collect()
}

fn parsed(admins: &[&str], untrusted: &[&str]) -> Config {
    Config {
        homeserver: "https://matrix.example.org".into(),
        user_id: "@merlin:matrix.example.org".into(),
        display_name: "merlin".into(),
        allowed_rooms: list(&["!room:example.org"]),
        allowed_senders: list(&["@aiden:example.org", "@atlas:example.org"]),
        admin_senders: list(admins),
        untrusted_senders: list(untrusted),
        context_window: merlin::config::DEFAULT_CONTEXT_WINDOW,
        timezone: merlin::config::DEFAULT_TIMEZONE.into(),
        model: ModelConfig::default(),
        limits: Limits::default(),
        state_dir: merlin::config::DEFAULT_STATE_DIR.into(),
    }
}

fn refused(config: Config, vars: &[(&str, &str)]) -> String {
    match Config::load(config, &env(vars)) {
        Ok(_) => panic!("must be refused"),
        Err(e) => e.message(),
    }
}

#[test]
fn only_configured_admins_are_administrators() {
    let config = match Config::load(
        parsed(&["@aiden:example.org"], &["@atlas:example.org"]),
        &env(&[]),
    ) {
        Ok(config) => config,
        Err(e) => panic!("{}", e.message()),
    };
    assert!(config.is_admin("@aiden:example.org"));
    assert!(!config.is_admin("@atlas:example.org"));
    assert_eq!(
        config.trust_level("@aiden:example.org"),
        merlin::config::TrustLevel::Admin
    );
    assert_eq!(
        config.trust_level("@atlas:example.org"),
        merlin::config::TrustLevel::Untrusted
    );
}

#[test]
fn trust_roles_must_be_consistent_with_access_roles() {
    for (name, untrusted) in [
        ("not-allowed", "@stranger:example.org"),
        ("also-admin", "@aiden:example.org"),
    ] {
        assert!(
            Config::load(parsed(&["@aiden:example.org"], &[untrusted]), &env(&[])).is_err(),
            "{name}"
        );
    }
}

#[test]
fn what_nobody_could_work_with_is_refused() {
    let mut config = parsed(&["@aiden:example.org"], &[]);
    config.allowed_rooms.clear();
    assert_eq!(
        refused(config, &[]),
        "allowed_rooms is empty; the bot would join nothing"
    );

    let mut config = parsed(&["@aiden:example.org"], &[]);
    config.allowed_senders.clear();
    assert_eq!(
        refused(config, &[]),
        "allowed_senders is empty; nobody could address the bot"
    );

    assert_eq!(
        refused(parsed(&["@stranger:example.org"], &[]), &[]),
        "admin sender @stranger:example.org is not also an allowed sender"
    );
    assert_eq!(
        refused(
            parsed(&["@aiden:example.org"], &["@stranger:example.org"]),
            &[]
        ),
        "untrusted sender @stranger:example.org is not also an allowed sender"
    );
    assert_eq!(
        refused(
            parsed(&["@aiden:example.org"], &["@aiden:example.org"]),
            &[]
        ),
        "sender @aiden:example.org cannot be both an admin and untrusted"
    );
}

#[test]
fn nobody_has_to_be_an_administrator() {
    let config = Config {
        homeserver: "https://matrix.example.org".into(),
        user_id: "@merlin:matrix.example.org".into(),
        display_name: "merlin".into(),
        allowed_rooms: list(&["!room:matrix.example.org"]),
        allowed_senders: list(&["@you:matrix.example.org"]),
        admin_senders: Vec::new(),
        untrusted_senders: Vec::new(),
        context_window: 64,
        timezone: "Australia/Sydney".into(),
        model: ModelConfig {
            image_provider: "fal".into(),
            ..ModelConfig::default()
        },
        limits: Limits {
            exec_timeout_s: 300,
            ..Limits::default()
        },
        state_dir: "/var/lib/merlin".into(),
    };
    let config = match Config::load(config, &env(&[])) {
        Ok(config) => config,
        Err(e) => panic!("{}", e.message()),
    };
    assert_eq!(config.allowed_rooms, list(&["!room:matrix.example.org"]));
    assert_eq!(config.allowed_senders, list(&["@you:matrix.example.org"]));
    assert!(config.admin_senders.is_empty());
    assert_eq!(config.context_window, 64);
    assert_eq!(config.model.image_provider, "fal");
    assert_eq!(config.limits.exec_timeout_s, 300);
    assert!(!config.is_admin("@you:matrix.example.org"));
    assert_eq!(
        config.trust_level("@you:matrix.example.org"),
        TrustLevel::Trusted
    );
}

#[test]
fn the_environment_overrides_the_lists() {
    let config = match Config::load(
        parsed(&["@aiden:example.org"], &[]),
        &env(&[
            ("MERLIN_ALLOWED_ROOMS", " !a:x , ,!b:x,"),
            ("MERLIN_ALLOWED_SENDERS", "@one:x,@two:x"),
            ("MERLIN_ADMIN_SENDERS", "@one:x"),
            ("MERLIN_UNTRUSTED_SENDERS", "@two:x"),
        ]),
    ) {
        Ok(config) => config,
        Err(e) => panic!("{}", e.message()),
    };
    assert_eq!(config.allowed_rooms, list(&["!a:x", "!b:x"]));
    assert!(config.is_allowed_room("!b:x"));
    assert!(!config.is_allowed_room("!room:example.org"));
    assert!(config.is_allowed_sender("@two:x"));
    assert!(!config.is_allowed_sender("@aiden:example.org"));
    assert_eq!(config.trust_level("@one:x"), TrustLevel::Admin);
    assert_eq!(config.trust_level("@two:x"), TrustLevel::Untrusted);
    assert_eq!(config.trust_level("@three:x"), TrustLevel::Untrusted);

    let mut config = parsed(&["@aiden:example.org"], &[]);
    config.apply_env_overrides(&env(&[("MERLIN_ALLOWED_ROOMS", " , ")]));
    assert_eq!(config.allowed_rooms, list(&["!room:example.org"]));
    assert_eq!(config.trust_level("@atlas:example.org"), TrustLevel::Trusted);
}

#[test]
fn the_local_part_stands_between_the_at_and_the_colon() {
    let mut config = parsed(&["@aiden:example.org"], &[]);
    assert_eq!(config.localpart(), "merlin");
    config.user_id = "merlin".into();
    assert_eq!(config.localpart(), "merlin");
    config.user_id = "@@odd:one:two".into();
    assert_eq!(config.localpart(), "odd");
    config.user_id = "".into();
    assert_eq!(config.localpart(), "");
}

#[test]
fn an_unknown_zone_gives_way_to_the_default() {
    let mut config = parsed(&["@aiden:example.org"], &[]);
    config.timezone = "Europe/Oslo".into();
    assert_eq!(config.tz(), "Europe/Oslo");
    config.timezone = "Mars/Olympus".into();
    assert_eq!(config.tz(), "Australia/Sydney");
}

#[test]
fn secrets_come_from_the_environment() {
    let secrets = match Secrets::from_env(&env(&[
        ("MATRIX_PASSWORD", " hunter2 "),
        ("OPENROUTER_API_KEY", "or"),
        ("EXA_API_KEY", "  "),
        ("FAL_KEY", "fal"),
    ])) {
        Ok(secrets) => secrets,
        Err(e) => panic!("{}", e.message()),
    };
    assert_eq!(secrets.matrix_password, "hunter2");
    assert_eq!(secrets.session_encryption_key, "hunter2");
    assert_eq!(secrets.openrouter_api_key, "or");
    assert_eq!(secrets.exa_api_key, None);
    assert_eq!(secrets.fal_api_key, Some("fal".to_string()));

    let secrets = match Secrets::from_env(&env(&[
        ("MATRIX_PASSWORD", "p"),
        ("SESSION_ENCRYPTION_KEY", "s"),
        ("OPENROUTER_API_KEY", "or"),
        ("EXA_API_KEY", "exa"),
        ("FAL_API_KEY", "first"),
        ("FAL_KEY", "second"),
    ])) {
        Ok(secrets) => secrets,
        Err(e) => panic!("{}", e.message()),
    };
    assert_eq!(secrets.session_encryption_key, "s");
    assert_eq!(secrets.exa_api_key, Some("exa".to_string()));
    assert_eq!(secrets.fal_api_key, Some("first".to_string()));
}

#[test]
fn a_secret_that_is_missing_is_named() {
    match Secrets::from_env(&env(&[("OPENROUTER_API_KEY", "or")])) {
        Err(ConfigError::Missing(key)) => assert_eq!(key, "MATRIX_PASSWORD"),
        _ => panic!("the password must be missing"),
    }
    match Secrets::from_env(&env(&[("MATRIX_PASSWORD", "p"), ("OPENROUTER_API_KEY", " ")])) {
        Err(e) => assert_eq!(
            e.message(),
            "OPENROUTER_API_KEY must be set in the environment and not be empty"
        ),
        Ok(_) => panic!("the key must be missing"),
    }
}

#[test]
fn defaults_are_the_documented_ones() {
    let model = ModelConfig::default();
    assert_eq!(model.chat, "z-ai/glm-5.3-flash");
    assert_eq!(model.reasoning_effort, "medium");
    assert_eq!(model.embedding_dimensions, 768);
    let limits = Limits::default();
    assert_eq!(limits.max_response_bytes, 8388608);
    assert_eq!(limits.exec_memory_max, "1G");
}
