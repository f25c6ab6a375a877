use std::collections::HashMap;
use voidmetrics_agent::commands::{
    command_output, diagnose_output, exit_for_action, finish_agent_command, handle_server_message,
    now_ms, on_socket_event, run_agent_command, should_send_processes, step_action, truncate_output, wire_millis,
    CommandStep, ConnectionExit, HostInfo, MessageStep, ProgramOutcome, ProgramRequest,
    ServerAction, ServerFrame, SocketEvent, SocketStep,
};
use voidmetrics_agent::processes::{
    compact_text, parent_pid_map, process_path, process_point, top_processes, ProcessSample,
};
use voidmetrics_agent::settings::AgentConfig;

fn config() -> AgentConfig {
    AgentConfig {
        agent_id: 0x550e8400_e29b_41d4_a716_446655440000,
        agent_id_path: "/home/a/.voidmetrics/agent_id".to_string(),
        core_url: "ws://core:3000/ws".to_string(),
        agent_token: Some("t".to_string()),
        interval_secs: 1,
        reconnect_secs: 3,
        process_limit: 2,
        send_all_processes: false,
        process_interval_secs: 2,
        include_command: true,
        include_paths: true,
        include_environment_count: true,
        max_command_length: 16,
        max_path_length: 16,
    }
}

fn host() -> HostInfo {
    HostInfo {
        hostname: Some("box".to_string()),
        os: None,
        arch: "x86_64".to_string(),
        version: "0.1.0".to_string(),
    }
}

fn sample(pid: u32, cpu: f32, memory: u64) -> ProcessSample {
    ProcessSample {
        pid,
        parent: Some(1),
        is_thread: false,
        name: format!("proc{pid}"),
        cmd: vec!["/bin/app".to_string(), "--flag".to_string()],
        exe: Some("/bin/app".to_string()),
        cwd: None,
        root: Some("/".to_string()),
        user: Some("root".to_string()),
        effective_user: None,
        group_id: Some("0".to_string()),
        status: "Sleeping".to_string(),
        tasks: None,
        memory_bytes: memory,
        virtual_memory_bytes: memory * 2,
        cpu_usage_bits: cpu.to_bits(),
        start_time: 5,
        run_time: 6,
        disk_read_bytes: 7,
        disk_written_bytes: 8,
        total_disk_read_bytes: 9,
        total_disk_written_bytes: 10,
        environment_count: 12,
    }
}

#[test]
fn compact_text_keeps_short_text_and_marks_cuts() {
    assert_eq!(compact_text("abc", 3), "abc");
    assert_eq!(compact_text("abcdef", 4), "abc~");
    assert_eq!(compact_text("abcdef", 1), "~");
    assert_eq!(compact_text("abcdef", 0), "~");
    assert_eq!(compact_text("", 0), "");
    assert_eq!(compact_text("привет мир", 7), "привет~");
}

#[test]
fn compact_text_is_idempotent() {
    for (text, max) in [("abcdef", 4usize), ("abcdef", 0), ("ab", 5), ("日本語テキスト", 3)] {
        let once = compact_text(text, max);
        assert_eq!(compact_text(&once, max), once);
    }
}

#[test]
fn paths_are_blank_when_not_reported() {
    let mut c = config();
    assert_eq!(process_path(Some("/usr/local/bin/something-long"), &c), "/usr/local/bin/~");
    assert_eq!(process_path(None, &c), "");
    c.include_paths = false;
    assert_eq!(process_path(Some("/bin/sh"), &c), "");
}

#[test]
fn ps_output_gives_parents() {
    let text = "  PID  PPID\n    1     0\n   42     1\nbad line\n  7 3 extra\r\n42 5\n+8 9\n-1 2\n";
    let map = parent_pid_map(text);
    let mut expected = HashMap::new();
    expected.insert(1u32, 0u32);
    expected.insert(42, 5);
    expected.insert(7, 3);
    expected.insert(8, 9);
    assert_eq!(map, expected);
    assert!(parent_pid_map("").is_empty());
    assert!(parent_pid_map("4294967296 1\n").is_empty());
}

#[test]
fn a_process_point_reports_the_sample() {
    let c = config();
    let mut parents = HashMap::new();
    parents.insert(20u32, 3u32);
    let p = process_point(&sample(20, 1.5, 100), &parents, &c);
    assert_eq!(p.pid, 20);
    assert_eq!(p.parent_pid, Some(3));
    assert_eq!(p.name, "proc20");
    assert_eq!(p.command, "/bin/app --flag");
    assert_eq!(p.exe, "/bin/app");
    assert_eq!(p.cwd, "");
    assert_eq!(p.root, "/");
    assert_eq!(p.user, "root");
    assert_eq!(p.effective_user, "-");
    assert_eq!(p.group_id, "0");
    assert_eq!(p.status, "Sleeping");
    assert_eq!(p.threads, 1);
    assert_eq!(f32::from_bits(p.cpu_usage_bits), 1.5);
    assert_eq!(p.environment_count, 12);
}

#[test]
fn a_process_is_never_its_own_parent() {
    let c = config();
    let mut parents = HashMap::new();
    parents.insert(5u32, 5u32);
    parents.insert(6u32, 0u32);
    assert_eq!(process_point(&sample(5, 0.0, 1), &parents, &c).parent_pid, None);
    assert_eq!(process_point(&sample(6, 0.0, 1), &parents, &c).parent_pid, None);
    assert_eq!(process_point(&sample(7, 0.0, 1), &parents, &c).parent_pid, Some(1));
}

#[test]
fn commands_fall_back_to_the_executable_and_can_be_hidden() {
    let mut c = config();
    let mut s = sample(9, 0.0, 1);
    s.cmd = Vec::new();
    s.tasks = Some(4);
    let p = process_point(&s, &HashMap::new(), &c);
    assert_eq!(p.command, "/bin/app");
    assert_eq!(p.threads, 4);
    c.include_command = false;
    c.include_environment_count = false;
    let p = process_point(&sample(9, 0.0, 1), &HashMap::new(), &c);
    assert_eq!(p.command, "");
    assert_eq!(p.environment_count, 0);
    c.include_command = true;
    let mut long = sample(9, 0.0, 1);
    long.cmd = vec!["python3".to_string(), "-m".to_string(), "http.server".to_string()];
    assert_eq!(process_point(&long, &HashMap::new(), &c).command, "python3 -m http~");
}

#[test]
fn top_processes_rank_by_cpu_then_memory() {
    let mut c = config();
    c.send_all_processes = true;
    let mut thread = sample(99, 90.0, 1);
    thread.is_thread = true;
    let samples = vec![
        sample(1, 5.0, 10),
        sample(2, 50.0, 10),
        thread,
        sample(3, 5.0, 30),
        sample(4, 0.0, 10),
        sample(5, -0.0, 10),
        sample(6, 5.0, 10),
    ];
    let out = top_processes(&samples, &HashMap::new(), &c);
    let pids: Vec<u32> = out.iter().map(|p| p.pid).collect();
    assert_eq!(pids, vec![2, 3, 1, 6, 4, 5]);
}

#[test]
fn top_processes_are_cut_to_the_limit() {
    let c = config();
    let samples = vec![sample(1, 1.0, 1), sample(2, 3.0, 1), sample(3, 2.0, 1)];
    let out = top_processes(&samples, &HashMap::new(), &c);
    let pids: Vec<u32> = out.iter().map(|p| p.pid).collect();
    assert_eq!(pids, vec![2, 3]);
    let mut all = config();
    all.send_all_processes = true;
    assert_eq!(top_processes(&samples, &HashMap::new(), &all).len(), 3);
    assert!(top_processes(&Vec::new(), &HashMap::new(), &c).is_empty());
}

fn reply(step: CommandStep) -> (bool, String, ServerAction) {
    match step {
        CommandStep::Done(r) => (r.ok, r.output, r.action),
        CommandStep::Run(_) => panic!("program requested"),
    }
}

#[test]
fn set_process_stream_sets_or_flips() {
    let c = config();
    let mut stream = true;
    let (ok, out, action) = reply(run_agent_command(&c, "set_process_stream", None, &mut stream, &host()));
    assert!(ok && !stream);
    assert_eq!(out, "Process stream is disabled");
    assert_eq!(action, ServerAction::Continue);
    let (_, out, _) = reply(run_agent_command(&c, "set_process_stream", None, &mut stream, &host()));
    assert!(stream);
    assert_eq!(out, "Process stream is enabled");
    let (_, _, _) = reply(run_agent_command(&c, "set_process_stream", Some(true), &mut stream, &host()));
    assert!(stream);
    let (_, out, _) = reply(run_agent_command(&c, "set_process_stream", Some(false), &mut stream, &host()));
    assert!(!stream);
    assert_eq!(out, "Process stream is disabled");
}

#[test]
fn simple_commands_reply_directly() {
    let c = config();
    let mut stream = false;
    let (ok, out, action) = reply(run_agent_command(&c, "reconnect", Some(true), &mut stream, &host()));
    assert!(ok && !stream);
    assert_eq!(out, "Reconnect requested. Next target: ws://core:3000/ws");
    assert_eq!(action, ServerAction::Reconnect);
    let (_, out, action) = reply(run_agent_command(&c, "refresh_inventory", None, &mut stream, &host()));
    assert_eq!(out, "Inventory refreshed: host=box os=unknown arch=x86_64 version=0.1.0");
    assert_eq!(action, ServerAction::Continue);
    let (_, out, _) = reply(run_agent_command(&c, "logs", None, &mut stream, &host()));
    assert_eq!(
        out,
        "Agent is running. id=550e8400-e29b-41d4-a716-446655440000 core=ws://core:3000/ws interval=1s process_stream=false"
    );
    let (ok, out, action) = reply(run_agent_command(&c, "rm -rf", None, &mut stream, &host()));
    assert!(!ok);
    assert_eq!(out, "Unknown command: rm -rf");
    assert_eq!(action, ServerAction::Continue);
    assert!(!stream);
}

#[test]
fn docker_commands_ask_for_docker() {
    let c = config();
    let mut stream = true;
    let step = run_agent_command(&c, "docker_ps", None, &mut stream, &host());
    assert!(matches!(step, CommandStep::Run(ProgramRequest::DockerPs)));
    assert_eq!(step_action(&step), ServerAction::Continue);
    let step = run_agent_command(&c, "diagnose", None, &mut stream, &host());
    assert!(matches!(step, CommandStep::Run(ProgramRequest::DockerVersion)));
    assert!(stream);
    assert_eq!(ProgramRequest::DockerPs.program(), "docker");
    assert_eq!(
        ProgramRequest::DockerPs.args(),
        vec!["ps", "--format", "table {{.Names}}\t{{.Image}}\t{{.Status}}\t{{.Ports}}"]
    );
    assert_eq!(ProgramRequest::DockerVersion.args(), vec!["--version"]);
}

#[test]
fn program_outcomes_become_replies() {
    let ok = command_output(
        "docker",
        &ProgramOutcome::Exited { success: true, stdout: "\n NAMES \n".to_string(), stderr: "x".to_string() },
    );
    assert!(ok.ok);
    assert_eq!(ok.output, "NAMES");
    let empty = command_output(
        "docker",
        &ProgramOutcome::Exited { success: true, stdout: "  \n".to_string(), stderr: String::new() },
    );
    assert_eq!(empty.output, "command completed with empty output");
    let failed = command_output(
        "docker",
        &ProgramOutcome::Exited { success: false, stdout: "out".to_string(), stderr: " denied\n".to_string() },
    );
    assert!(!failed.ok);
    assert_eq!(failed.output, "denied");
    let missing = command_output("docker", &ProgramOutcome::Failed("No such file".to_string()));
    assert!(!missing.ok);
    assert_eq!(missing.output, "docker is unavailable: No such file");
    assert_eq!(missing.action, ServerAction::Continue);
}

#[test]
fn command_output_is_cut_to_four_thousand_characters() {
    let long = "é".repeat(5000);
    let out = truncate_output(&long);
    assert_eq!(out.chars().count(), 4000);
    assert_eq!(truncate_output(""), "command completed with empty output");
    assert_eq!(truncate_output("short"), "short");
}

#[test]
fn diagnose_reports_settings_and_docker() {
    let c = config();
    let docker = ProgramOutcome::Exited {
        success: true,
        stdout: "Docker version 27.0.1\n".to_string(),
        stderr: String::new(),
    };
    let text = diagnose_output(&c, true, &docker, &host());
    assert_eq!(
        text,
        "core=ws://core:3000/ws agent_id=550e8400-e29b-41d4-a716-446655440000 agent_id_path=/home/a/.voidmetrics/agent_id agent_token=configured reconnect=3s interval=1s process_stream=true process_limit=2 send_all=false process_interval=2s include_command=true include_paths=true include_env_count=true max_command=16 max_path=16 host=box os=unknown arch=x86_64 docker=Docker version 27.0.1"
    );
    let mut c2 = config();
    c2.agent_token = None;
    let text = diagnose_output(&c2, false, &ProgramOutcome::Failed("x".to_string()), &host());
    assert!(text.contains("agent_token=missing"));
    assert!(text.ends_with("docker=docker unavailable"));
    let reply = finish_agent_command(&c, ProgramRequest::DockerVersion, &docker, true, &host());
    assert!(reply.ok);
    assert!(reply.output.ends_with("docker=Docker version 27.0.1"));
    let reply = finish_agent_command(&c, ProgramRequest::DockerPs, &docker, true, &host());
    assert_eq!(reply.output, "Docker version 27.0.1");
}

#[test]
fn server_frames_lead_to_steps() {
    let c = config();
    let mut stream = true;
    assert!(matches!(
        handle_server_message(Some(ServerFrame::Ping { ts: Some(5) }), &c, &mut stream, &host()),
        MessageStep::Continue
    ));
    assert!(matches!(
        handle_server_message(Some(ServerFrame::Shutdown { reason: None }), &c, &mut stream, &host()),
        MessageStep::Shutdown
    ));
    assert!(matches!(handle_server_message(None, &c, &mut stream, &host()), MessageStep::Continue));
    let frame = ServerFrame::Command {
        id: "c1".to_string(),
        action: "set_process_stream".to_string(),
        enabled: Some(false),
    };
    match handle_server_message(Some(frame), &c, &mut stream, &host()) {
        MessageStep::Command { id, action, step } => {
            assert_eq!(id, "c1");
            assert_eq!(action, "set_process_stream");
            assert_eq!(step_action(&step), ServerAction::Continue);
        }
        _ => panic!("no command"),
    }
    assert!(!stream);
}

#[test]
fn actions_end_connections() {
    assert_eq!(exit_for_action(ServerAction::Continue), None);
    assert_eq!(exit_for_action(ServerAction::Reconnect), Some(ConnectionExit::Disconnected));
    assert_eq!(exit_for_action(ServerAction::Shutdown), Some(ConnectionExit::Shutdown));
}

#[test]
fn process_lists_follow_the_stream_and_interval() {
    assert!(should_send_processes(true, 2_000_000_000, 2_000_000_000));
    assert!(!should_send_processes(true, 1_999_999_999, 2_000_000_000));
    assert!(!should_send_processes(false, 9_000_000_000, 2_000_000_000));
}

#[test]
fn clock_readings_keep_their_low_bits() {
    assert_eq!(wire_millis(Some(1_700_000_000_000)), 1_700_000_000_000);
    assert_eq!(wire_millis(Some((1u128 << 64) + 5)), 5);
    assert_eq!(wire_millis(None), 0);
    assert!(now_ms() > 1_600_000_000_000);
}

#[test]
fn socket_events_lead_to_steps() {
    assert_eq!(on_socket_event(SocketEvent::Text), SocketStep::HandleText);
    assert_eq!(
        on_socket_event(SocketEvent::Closed),
        SocketStep::Exit(ConnectionExit::Disconnected)
    );
    assert_eq!(on_socket_event(SocketEvent::Other), SocketStep::Ignore);
    assert_eq!(on_socket_event(SocketEvent::Failed), SocketStep::Fail);
}

#[test]
fn ranking_the_same_processes_twice_gives_the_same_order() {
    let mut c = config();
    c.send_all_processes = true;
    let samples = vec![
        sample(1, 2.0, 5),
        sample(2, 2.0, 5),
        sample(3, 9.0, 1),
        sample(4, 2.0, 6),
    ];
    let first: Vec<u32> = top_processes(&samples, &HashMap::new(), &c).iter().map(|p| p.pid).collect();
    let second: Vec<u32> = top_processes(&samples, &HashMap::new(), &c).iter().map(|p| p.pid).collect();
    assert_eq!(first, vec![3, 4, 1, 2]);
    assert_eq!(first, second);
}
