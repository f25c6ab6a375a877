use voidmetrics_agent::cli::{
    daemon_child_mode, parse_cli_args, should_spawn_daemon, CliError, CliFlag, CliOptions,
};
use voidmetrics_agent::ids::{agent_id_file_text, configured_agent_id, load_agent_id, AgentIdSetting};

fn uuid_parse_str(text: &str) -> Option<u128> {
    configured_agent_id(None, Some(text)).id()
}

fn uuid_string(id: u128) -> String {
    let text = agent_id_file_text(id);
    text.trim_end_matches('\n').to_string()
}

fn new_random_uuid() -> u128 {
    load_agent_id(None, None).agent_id
}

fn args(list: &[&str]) -> Vec<String> {
    list.iter().map(|a| a.to_string()).collect()
}

const SAMPLE_ID: &str = "550e8400-e29b-41d4-a716-446655440000";
const SAMPLE_VALUE: u128 = 0x550e8400_e29b_41d4_a716_446655440000;

fn parsed(list: &[&str]) -> CliOptions {
    match parse_cli_args(&args(list)) {
        Ok(cli) => cli,
        Err(e) => panic!("refused: {}", e.message()),
    }
}

fn refused(list: &[&str]) -> String {
    match parse_cli_args(&args(list)) {
        Ok(_) => panic!("accepted"),
        Err(e) => e.message(),
    }
}

#[test]
fn empty_command_line_sets_nothing() {
    let cli = parsed(&[]);
    assert!(!cli.daemon && !cli.help);
    assert!(cli.auth_key.is_none() && cli.core_url.is_none());
    assert!(cli.agent_id.is_none() && cli.agent_id_file.is_none());
    assert!(cli.forwarded_args.is_empty());
}

#[test]
fn help_and_daemon_flags_are_not_forwarded() {
    let cli = parsed(&["-h", "--daemon", "--help"]);
    assert!(cli.help);
    assert!(cli.daemon);
    assert!(cli.forwarded_args.is_empty());
}

#[test]
fn valued_options_are_trimmed_and_forwarded_as_given() {
    let cli = parsed(&[
        "--auth-key",
        "  secret ",
        "--core-url",
        " ws://core:3000/ws",
        "--agent-id",
        " 550E8400-E29B-41D4-A716-446655440000 ",
        "--agent-id-file",
        " /var/lib/agent_id",
    ]);
    assert_eq!(cli.auth_key.as_deref(), Some("secret"));
    assert_eq!(cli.core_url.as_deref(), Some("ws://core:3000/ws"));
    assert_eq!(cli.agent_id, Some(SAMPLE_VALUE));
    assert_eq!(cli.agent_id_file.as_deref(), Some(" /var/lib/agent_id"));
    assert_eq!(
        cli.forwarded_args,
        args(&[
            "--auth-key",
            "  secret ",
            "--core-url",
            " ws://core:3000/ws",
            "--agent-id",
            " 550E8400-E29B-41D4-A716-446655440000 ",
            "--agent-id-file",
            " /var/lib/agent_id",
        ])
    );
}

#[test]
fn later_options_override_earlier_ones() {
    let cli = parsed(&["--auth-key", "first", "--auth-key", "second"]);
    assert_eq!(cli.auth_key.as_deref(), Some("second"));
    assert_eq!(cli.forwarded_args.len(), 4);
}

#[test]
fn forwarded_arguments_give_the_child_the_same_settings() {
    let cli = parsed(&[
        "--daemon",
        "--core-url",
        "wss://example/ws",
        "--agent-id",
        SAMPLE_ID,
        "--help",
        "--agent-id-file",
        "id.txt",
    ]);
    let child = match parse_cli_args(&cli.forwarded_args) {
        Ok(c) => c,
        Err(e) => panic!("child refused: {}", e.message()),
    };
    assert!(!child.daemon && !child.help);
    assert_eq!(child.core_url, cli.core_url);
    assert_eq!(child.auth_key, cli.auth_key);
    assert_eq!(child.agent_id, cli.agent_id);
    assert_eq!(child.agent_id_file, cli.agent_id_file);
    assert_eq!(child.forwarded_args, cli.forwarded_args);
}

#[test]
fn missing_values_are_refused() {
    assert_eq!(refused(&["--auth-key"]), "--auth-key requires a value");
    assert_eq!(refused(&["--core-url"]), "--core-url requires a value");
    assert_eq!(refused(&["--agent-id"]), "--agent-id requires a UUID");
    assert_eq!(refused(&["--agent-id-file"]), "--agent-id-file requires a path");
    assert!(matches!(
        parse_cli_args(&args(&["--daemon", "--core-url"])),
        Err(CliError::MissingValue(CliFlag::CoreUrl))
    ));
}

#[test]
fn blank_values_are_refused() {
    assert_eq!(refused(&["--auth-key", "  "]), "--auth-key requires a non-empty value");
    assert_eq!(refused(&["--core-url", ""]), "--core-url requires a non-empty value");
    assert!(matches!(
        parse_cli_args(&args(&["--auth-key", "\t"])),
        Err(CliError::EmptyValue(CliFlag::AuthKey))
    ));
}

#[test]
fn an_agent_id_that_is_no_uuid_is_refused() {
    assert_eq!(refused(&["--agent-id", "not-a-uuid"]), "--agent-id must be a UUID");
    assert!(matches!(
        parse_cli_args(&args(&["--agent-id", ""])),
        Err(CliError::InvalidAgentId)
    ));
}

#[test]
fn unknown_arguments_are_refused() {
    assert_eq!(refused(&["--verbose"]), "unknown argument: --verbose");
    assert_eq!(refused(&["--daemon", "extra"]), "unknown argument: extra");
    assert_eq!(refused(&["-H"]), "unknown argument: -H");
}

#[test]
fn an_option_value_is_not_read_as_an_option() {
    let cli = parsed(&["--auth-key", "--daemon"]);
    assert_eq!(cli.auth_key.as_deref(), Some("--daemon"));
    assert!(!cli.daemon);
}

#[test]
fn daemon_child_marker_must_be_exactly_one() {
    assert!(daemon_child_mode(Some("1")));
    assert!(!daemon_child_mode(Some(" 1")));
    assert!(!daemon_child_mode(Some("true")));
    assert!(!daemon_child_mode(None));
}

#[test]
fn only_a_parent_with_daemon_flag_spawns() {
    let cli = parsed(&["--daemon"]);
    assert!(should_spawn_daemon(&cli, false));
    assert!(!should_spawn_daemon(&cli, true));
    assert!(!should_spawn_daemon(&parsed(&[]), false));
}

#[test]
fn uuid_text_forms_parse() {
    assert_eq!(uuid_parse_str(SAMPLE_ID), Some(SAMPLE_VALUE));
    assert_eq!(uuid_parse_str("550e8400e29b41d4a716446655440000"), Some(SAMPLE_VALUE));
    assert_eq!(uuid_parse_str("{550e8400-e29b-41d4-a716-446655440000}"), Some(SAMPLE_VALUE));
    assert_eq!(
        uuid_parse_str("URN:UUID:550e8400-e29b-41d4-a716-446655440000"),
        Some(SAMPLE_VALUE)
    );
    assert_eq!(uuid_parse_str("550e8400-e29b-41d4-a716-44665544000g"), None);
    assert_eq!(uuid_parse_str("550e8400-e29b-41d4-a716_446655440000"), None);
    assert_eq!(uuid_parse_str("550e8400-e29b-41d4-a716-4466554400000"), None);
    assert_eq!(uuid_parse_str(""), None);
}

#[test]
fn uuid_text_is_hyphenated_lower_case() {
    assert_eq!(
        uuid_string(0xa1a2a3a4b1b2c1c2d1d2d3d4d5d6d7d8),
        "a1a2a3a4-b1b2-c1c2-d1d2-d3d4d5d6d7d8"
    );
    assert_eq!(uuid_string(0), "00000000-0000-0000-0000-000000000000");
    assert_eq!(uuid_string(SAMPLE_VALUE), SAMPLE_ID);
}

#[test]
fn random_uuids_are_version_four() {
    let a = new_random_uuid();
    let b = new_random_uuid();
    assert_ne!(a, b);
    for id in [a, b] {
        assert_eq!((id >> 76) & 0xF, 4);
        assert_eq!((id >> 62) & 0x3, 2);
        assert_eq!(uuid::Uuid::from_u128(id).get_version_num(), 4);
    }
}

#[test]
fn configured_agent_id_prefers_the_command_line() {
    assert!(matches!(
        configured_agent_id(Some(7), Some(SAMPLE_ID)),
        AgentIdSetting::Pinned(7)
    ));
    assert!(matches!(
        configured_agent_id(None, Some("  550e8400-e29b-41d4-a716-446655440000\n")),
        AgentIdSetting::Pinned(SAMPLE_VALUE)
    ));
    assert!(matches!(configured_agent_id(None, Some("   ")), AgentIdSetting::Unset));
    assert!(matches!(configured_agent_id(None, None), AgentIdSetting::Unset));
    let rejected = configured_agent_id(None, Some("agent-7"));
    assert!(matches!(rejected, AgentIdSetting::Rejected));
    assert_eq!(rejected.id(), None);
    assert_eq!(configured_agent_id(Some(9), None).id(), Some(9));
}

#[test]
fn a_configured_agent_id_is_persisted() {
    let plan = load_agent_id(Some(SAMPLE_VALUE), Some("ignored"));
    assert_eq!(plan.agent_id, SAMPLE_VALUE);
    assert!(plan.persist && !plan.generated && !plan.stored_invalid);
}

#[test]
fn a_stored_agent_id_is_kept() {
    let plan = load_agent_id(None, Some("\t550e8400-e29b-41d4-a716-446655440000 \n"));
    assert_eq!(plan.agent_id, SAMPLE_VALUE);
    assert!(!plan.persist && !plan.generated && !plan.stored_invalid);
}

#[test]
fn an_invalid_stored_agent_id_is_replaced() {
    let plan = load_agent_id(None, Some("garbage\n"));
    assert!(plan.persist && plan.generated && plan.stored_invalid);
    assert_eq!((plan.agent_id >> 76) & 0xF, 4);
}

#[test]
fn a_missing_or_blank_id_file_gets_a_fresh_id() {
    let plan = load_agent_id(None, None);
    assert!(plan.persist && plan.generated && !plan.stored_invalid);
    let plan = load_agent_id(None, Some(" \n"));
    assert!(plan.persist && plan.generated && !plan.stored_invalid);
}

#[test]
fn an_agent_id_written_to_its_file_reads_back() {
    for id in [SAMPLE_VALUE, 0, u128::MAX, new_random_uuid()] {
        let text = agent_id_file_text(id);
        assert!(text.ends_with('\n'));
        assert_eq!(text.len(), 37);
        let plan = load_agent_id(None, Some(&text));
        assert_eq!(plan.agent_id, id);
        assert!(!plan.persist && !plan.generated);
    }
    assert_eq!(agent_id_file_text(SAMPLE_VALUE), format!("{SAMPLE_ID}\n"));
}
