use voidmetrics_agent::cli::{parse_cli_args, CliOptions};
use voidmetrics_agent::metrics::{
    disk_capacity, disk_usage, network_usage, DiskSample, NetworkSample,
};
use voidmetrics_agent::settings::{
    agent_token, configured_agent_id_path, core_url, env_bool, env_usize, interval_seconds,
    process_interval_seconds, process_refresh_kind, reconnect_seconds, token_from_file,
    AgentConfig, TokenLookup,
};

fn cli(list: &[&str]) -> CliOptions {
    let args: Vec<String> = list.iter().map(|a| a.to_string()).collect();
    match parse_cli_args(&args) {
        Ok(c) => c,
        Err(e) => panic!("refused: {}", e.message()),
    }
}

fn config() -> AgentConfig {
    AgentConfig {
        agent_id: 1,
        agent_id_path: "/tmp/id".to_string(),
        core_url: "ws://core/ws".to_string(),
        agent_token: None,
        interval_secs: 1,
        reconnect_secs: 3,
        process_limit: 220,
        send_all_processes: false,
        process_interval_secs: 2,
        include_command: true,
        include_paths: true,
        include_environment_count: true,
        max_command_length: 512,
        max_path_length: 256,
    }
}

#[test]
fn core_url_comes_from_cli_then_environment_then_default() {
    assert_eq!(core_url(&cli(&["--core-url", " ws://a/ws "]), Some("ws://b/ws")), "ws://a/ws");
    assert_eq!(core_url(&cli(&[]), Some(" ws://b/ws ")), " ws://b/ws ");
    assert_eq!(core_url(&cli(&[]), Some("   ")), "ws://127.0.0.1:3000/ws");
    assert_eq!(core_url(&cli(&[]), None), "ws://127.0.0.1:3000/ws");
}

#[test]
fn agent_token_comes_from_cli_then_environment() {
    match agent_token(&cli(&["--auth-key", " k1 "]), Some("k2"), None) {
        TokenLookup::Found(t) => assert_eq!(t, "k1"),
        TokenLookup::ReadFile(_) => panic!("file"),
    }
    match agent_token(&cli(&[]), Some("  k2\n"), Some("/x")) {
        TokenLookup::Found(t) => assert_eq!(t, "k2"),
        TokenLookup::ReadFile(_) => panic!("file"),
    }
}

#[test]
fn agent_token_falls_back_to_the_token_file() {
    match agent_token(&cli(&[]), Some("  "), Some(" /etc/token ")) {
        TokenLookup::ReadFile(p) => assert_eq!(p, "/etc/token"),
        TokenLookup::Found(_) => panic!("found"),
    }
    match agent_token(&cli(&[]), None, Some(" ")) {
        TokenLookup::ReadFile(p) => assert_eq!(p, "/run/voidmetrics/agent_token"),
        TokenLookup::Found(_) => panic!("found"),
    }
    assert_eq!(token_from_file(Some(" tok\n")), Some("tok".to_string()));
    assert_eq!(token_from_file(Some("\n")), None);
    assert_eq!(token_from_file(None), None);
}

#[test]
fn seconds_settings_need_a_positive_number() {
    assert_eq!(interval_seconds(Some("5")), 5);
    assert_eq!(interval_seconds(Some("+7")), 7);
    assert_eq!(interval_seconds(Some("0")), 1);
    assert_eq!(interval_seconds(Some(" 5")), 1);
    assert_eq!(interval_seconds(Some("-5")), 1);
    assert_eq!(interval_seconds(Some("+")), 1);
    assert_eq!(interval_seconds(Some("abc")), 1);
    assert_eq!(interval_seconds(None), 1);
    assert_eq!(interval_seconds(Some("18446744073709551615")), u64::MAX);
    assert_eq!(interval_seconds(Some("18446744073709551616")), 1);
    assert_eq!(reconnect_seconds(Some("10")), 10);
    assert_eq!(reconnect_seconds(Some("")), 3);
    assert_eq!(process_interval_seconds(Some("0")), 2);
    assert_eq!(process_interval_seconds(Some("30")), 30);
}

#[test]
fn count_settings_need_at_least_the_minimum() {
    assert_eq!(env_usize(Some("50"), 220, 1), 50);
    assert_eq!(env_usize(Some("0"), 220, 1), 220);
    assert_eq!(env_usize(Some("15"), 512, 16), 512);
    assert_eq!(env_usize(Some("16"), 512, 16), 16);
    assert_eq!(env_usize(Some("x"), 256, 16), 256);
    assert_eq!(env_usize(None, 256, 16), 256);
}

#[test]
fn switch_settings_read_common_words() {
    for on in ["1", "true", " YES ", "On"] {
        assert!(env_bool(Some(on), false));
    }
    for off in ["0", "FALSE", "no\n", "off"] {
        assert!(!env_bool(Some(off), true));
    }
    assert!(env_bool(Some("maybe"), true));
    assert!(!env_bool(Some("maybe"), false));
    assert!(env_bool(None, true));
}

#[test]
fn id_file_path_comes_from_cli_then_environment() {
    assert_eq!(
        configured_agent_id_path(&cli(&["--agent-id-file", " a "]), Some("b")),
        Some(" a ".to_string())
    );
    assert_eq!(configured_agent_id_path(&cli(&[]), Some(" /b ")), Some("/b".to_string()));
    assert_eq!(configured_agent_id_path(&cli(&[]), Some(" ")), None);
    assert_eq!(configured_agent_id_path(&cli(&[]), None), None);
}

#[test]
fn refresh_kind_follows_the_reporting_switches() {
    let mut c = config();
    let k = process_refresh_kind(&c);
    assert!(k.cpu && k.memory && k.disk_usage && k.user && k.tasks);
    assert!(k.cmd && k.exe && k.cwd && k.root && k.environ);
    c.include_command = false;
    c.include_paths = false;
    c.include_environment_count = false;
    let k = process_refresh_kind(&c);
    assert!(k.cpu && k.memory && k.disk_usage && k.user && k.tasks);
    assert!(!k.cmd && !k.exe && !k.cwd && !k.root && !k.environ);
}

fn disk(mount: &str, total: u64, available: u64, io: u64) -> DiskSample {
    DiskSample {
        mount_point: mount.to_string(),
        total_space: total,
        available_space: available,
        read_bytes: io,
        written_bytes: io * 2,
        total_read_bytes: io * 3,
        total_written_bytes: io * 4,
    }
}

#[test]
fn capacity_is_that_of_the_root_disk() {
    let disks = vec![disk("/boot", 10, 5, 0), disk("/", 100, 40, 0), disk("/", 7, 1, 0)];
    assert_eq!(disk_capacity(&disks, false), (60, 100));
    assert_eq!(disk_capacity(&disks, true), (60, 100));
}

#[test]
fn capacity_prefers_the_data_volume_when_asked() {
    let disks = vec![disk("/", 100, 40, 0), disk("/System/Volumes/Data", 500, 100, 0)];
    assert_eq!(disk_capacity(&disks, true), (400, 500));
    assert_eq!(disk_capacity(&disks, false), (60, 100));
}

#[test]
fn capacity_without_a_root_disk_sums_all_disks() {
    let disks = vec![disk("/a", 100, 40, 0), disk("/b", 10, 30, 0), disk("/c", 5, 5, 0)];
    assert_eq!(disk_capacity(&disks, false), (60, 115));
    let huge = vec![disk("/a", u64::MAX, 0, 0), disk("/b", 10, 0, 0)];
    assert_eq!(disk_capacity(&huge, false), (u64::MAX, u64::MAX));
    assert_eq!(disk_capacity(&Vec::new(), true), (0, 0));
}

#[test]
fn disk_counters_are_summed_and_capped() {
    let disks = vec![disk("/", 100, 40, 10), disk("/d", 50, 0, 5)];
    let t = disk_usage(&disks, false);
    assert_eq!((t.used, t.total), (60, 100));
    assert_eq!(t.read_bytes, 15);
    assert_eq!(t.written_bytes, 30);
    assert_eq!(t.total_read_bytes, 45);
    assert_eq!(t.total_written_bytes, 60);
    let big = vec![disk("/x", 0, 0, u64::MAX / 4), disk("/y", 0, 0, u64::MAX / 4)];
    let t = disk_usage(&big, false);
    assert_eq!(t.read_bytes, u64::MAX / 4 * 2);
    assert_eq!(t.total_written_bytes, u64::MAX);
}

#[test]
fn network_counters_are_summed_and_capped_in_any_order() {
    let a = NetworkSample { received: 1, transmitted: 2, total_received: u64::MAX, total_transmitted: 4 };
    let b = NetworkSample { received: 10, transmitted: 20, total_received: 7, total_transmitted: 40 };
    let t = network_usage(&vec![a, b]);
    assert_eq!(t.received_bytes, 11);
    assert_eq!(t.transmitted_bytes, 22);
    assert_eq!(t.total_received_bytes, u64::MAX);
    assert_eq!(t.total_transmitted_bytes, 44);
    let a = NetworkSample { received: 1, transmitted: 2, total_received: u64::MAX, total_transmitted: 4 };
    let b = NetworkSample { received: 10, transmitted: 20, total_received: 7, total_transmitted: 40 };
    let r = network_usage(&vec![b, a]);
    assert_eq!(r.total_received_bytes, u64::MAX);
    assert_eq!(r.received_bytes, 11);
    let none = network_usage(&Vec::new());
    assert_eq!(none.received_bytes, 0);
}

#[test]
fn unicode_whitespace_is_trimmed() {
    assert!(env_bool(Some("\u{3000}yes\u{a0}"), false));
    assert!(!env_bool(Some("\u{2003}OFF\u{85}"), true));
    assert_eq!(token_from_file(Some("\u{feff}tok")), Some("\u{feff}tok".to_string()));
    assert_eq!(token_from_file(Some("\u{2028}tok\u{205f}")), Some("tok".to_string()));
}
