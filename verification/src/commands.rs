//! The agent's side of the conversation with the core: what each server
//! frame leads to, what each command replies, and when a connection ends.
//!
//! Running an outside program (for `docker_ps` and `diagnose`) is left to
//! the caller: a command that needs one asks for it with
//! `CommandStep::Run`, and the caller hands the program's outcome to
//! `finish_agent_command`.
use vstd::prelude::*;
use crate::ids::{uuid_string, uuid_text};
use crate::settings::AgentConfig;
use crate::text::{
    chars_eq, chars_of, decimal, ends_with, has_segment, lemma_appending_keeps, lemma_last_pieces,
    push_chars, push_decimal, push_str, starts_with, trim, trim_str,
};

verus! {

/// What the connection does after a server frame.
#[derive(PartialEq, Eq, Structural, Clone, Copy, Debug)]
pub enum ServerAction {
    Continue,
    Reconnect,
    Shutdown,
}

/// Why a connection ended.
#[derive(PartialEq, Eq, Structural, Clone, Copy, Debug)]
pub enum ConnectionExit {
    /// The connection was lost or dropped; the agent reconnects.
    Disconnected,
    /// The core asked the agent to stop.
    Shutdown,
}

/// A frame the core sends.
pub enum ServerFrame {
    Ping { ts: Option<u64> },
    Shutdown { reason: Option<String> },
    Command { id: String, action: String, enabled: Option<bool> },
}

/// What is known of the host when a command runs: its name and operating
/// system when the system reports them, the CPU architecture and the
/// agent's version.
pub struct HostInfo {
    pub hostname: Option<String>,
    pub os: Option<String>,
    pub arch: String,
    pub version: String,
}

/// The answer to a command.
pub struct CommandReply {
    pub ok: bool,
    pub output: String,
    pub action: ServerAction,
}

/// An outside program a command needs.
#[derive(PartialEq, Eq, Structural, Clone, Copy, Debug)]
pub enum ProgramRequest {
    /// `docker ps` with a table of names, images, states and ports.
    DockerPs,
    /// `docker --version`, for `diagnose`.
    DockerVersion,
}

/// How an outside program ended.
pub enum ProgramOutcome {
    /// It ran; whether it succeeded, and its output as text.
    Exited { success: bool, stdout: String, stderr: String },
    /// It could not be started; the error as text.
    Failed(String),
}

/// The next step of a command.
pub enum CommandStep {
    /// The command is answered.
    Done(CommandReply),
    /// The command needs an outside program run first.
    Run(ProgramRequest),
}

/// The commands the agent knows.
#[derive(PartialEq, Eq, Structural, Clone, Copy, Debug)]
pub enum CommandKind {
    SetProcessStream,
    Reconnect,
    RefreshInventory,
    Diagnose,
    DockerPs,
    Logs,
    Unknown,
}

/// The command an action names.
pub open spec fn command_kind(action: Seq<char>) -> CommandKind {
    if action == "set_process_stream"@ {
        CommandKind::SetProcessStream
    } else if action == "reconnect"@ {
        CommandKind::Reconnect
    } else if action == "refresh_inventory"@ {
        CommandKind::RefreshInventory
    } else if action == "diagnose"@ {
        CommandKind::Diagnose
    } else if action == "docker_ps"@ {
        CommandKind::DockerPs
    } else if action == "logs"@ {
        CommandKind::Logs
    } else {
        CommandKind::Unknown
    }
}

fn command_kind_of(action: &str) -> (k: CommandKind)
    ensures
        k == command_kind(action@),
{
    let a = chars_of(action);
    if chars_eq(&a, "set_process_stream") {
        CommandKind::SetProcessStream
    } else if chars_eq(&a, "reconnect") {
        CommandKind::Reconnect
    } else if chars_eq(&a, "refresh_inventory") {
        CommandKind::RefreshInventory
    } else if chars_eq(&a, "diagnose") {
        CommandKind::Diagnose
    } else if chars_eq(&a, "docker_ps") {
        CommandKind::DockerPs
    } else if chars_eq(&a, "logs") {
        CommandKind::Logs
    } else {
        CommandKind::Unknown
    }
}

/// `true` or `false`, as `Display` writes a `bool`.
pub open spec fn bool_text(b: bool) -> Seq<char> {
    if b {
        "true"@
    } else {
        "false"@
    }
}

fn push_bool(s: &mut String, b: bool)
    ensures
        final(s)@ == old(s)@ + bool_text(b),
{
    if b {
        push_str(s, "true");
    } else {
        push_str(s, "false");
    }
}

/// A reported name: the value when known, else `unknown`.
pub open spec fn or_unknown(v: Option<String>) -> Seq<char> {
    match v {
        Some(t) => t@,
        None => "unknown"@,
    }
}

fn push_or_unknown(s: &mut String, v: &Option<String>)
    ensures
        final(s)@ == old(s)@ + or_unknown(*v),
{
    match v {
        Some(t) => push_str(s, t.as_str()),
        None => push_str(s, "unknown"),
    }
}

/// The process-stream switch after a command: `set_process_stream` sets it
/// to `enabled`, or flips it when no value is given; other commands leave
/// it.
pub open spec fn process_stream_after(kind: CommandKind, enabled: Option<bool>, before: bool) -> bool {
    if kind == CommandKind::SetProcessStream {
        match enabled {
            Some(e) => e,
            None => !before,
        }
    } else {
        before
    }
}

/// The reply text of `set_process_stream`.
pub open spec fn stream_text(on: bool) -> Seq<char> {
    "Process stream is "@ + if on {
        "enabled"@
    } else {
        "disabled"@
    }
}

/// The reply text of `reconnect`.
pub open spec fn reconnect_text(config: AgentConfig) -> Seq<char> {
    "Reconnect requested. Next target: "@ + config.core_url@
}

/// The reply text of `refresh_inventory`.
pub open spec fn inventory_text(host: HostInfo) -> Seq<char> {
    "Inventory refreshed: host="@ + or_unknown(host.hostname) + " os="@ + or_unknown(host.os)
        + " arch="@ + host.arch@ + " version="@ + host.version@
}

/// The reply text of `logs`.
pub open spec fn logs_text(config: AgentConfig, process_stream: bool) -> Seq<char> {
    "Agent is running. id="@ + uuid_text(config.agent_id) + " core="@ + config.core_url@
        + " interval="@ + decimal(config.interval_secs as nat) + "s process_stream="@ + bool_text(
        process_stream,
    )
}

/// The `refresh_inventory` reply names each field of the host next to its
/// own value.
pub proof fn lemma_inventory_names_each_field(host: HostInfo)
    ensures
        starts_with(
            inventory_text(host),
            "Inventory refreshed: host="@ + or_unknown(host.hostname) + " os="@,
        ),
        has_segment(inventory_text(host), " os="@ + or_unknown(host.os) + " arch="@),
        has_segment(inventory_text(host), " arch="@ + host.arch@ + " version="@),
        ends_with(inventory_text(host), " version="@ + host.version@),
{
    let first = "Inventory refreshed: host="@ + or_unknown(host.hostname) + " os="@;
    lemma_appending_keeps(first);
    assert(first =~= first + Seq::<char>::empty());
    lemma_appending_keeps(" os="@ + or_unknown(host.os) + " arch="@);
    lemma_last_pieces(" os="@, or_unknown(host.os), " arch="@);
    lemma_appending_keeps(" arch="@ + host.arch@ + " version="@);
    lemma_last_pieces(" arch="@, host.arch@, " version="@);
    lemma_last_pieces(" arch="@, " version="@, host.version@);
}

/// The `logs` reply names the agent's id, core, interval and process-stream
/// state, each next to its own value.
pub proof fn lemma_logs_names_each_setting(config: AgentConfig, process_stream: bool)
    ensures
        starts_with(
            logs_text(config, process_stream),
            "Agent is running. id="@ + uuid_text(config.agent_id) + " core="@,
        ),
        has_segment(
            logs_text(config, process_stream),
            " core="@ + config.core_url@ + " interval="@,
        ),
        has_segment(
            logs_text(config, process_stream),
            " interval="@ + decimal(config.interval_secs as nat) + "s process_stream="@,
        ),
        ends_with(
            logs_text(config, process_stream),
            "s process_stream="@ + bool_text(process_stream),
        ),
{
    let first = "Agent is running. id="@ + uuid_text(config.agent_id) + " core="@;
    lemma_appending_keeps(first);
    assert(first =~= first + Seq::<char>::empty());
    lemma_appending_keeps(" core="@ + config.core_url@ + " interval="@);
    lemma_last_pieces(" core="@, config.core_url@, " interval="@);
    let interval = decimal(config.interval_secs as nat);
    lemma_appending_keeps(" interval="@ + interval + "s process_stream="@);
    lemma_last_pieces(" interval="@, interval, "s process_stream="@);
    lemma_last_pieces(interval, "s process_stream="@, bool_text(process_stream));
}

/// The reply text of a command the agent does not know.
pub open spec fn unknown_text(action: Seq<char>) -> Seq<char> {
    "Unknown command: "@ + action
}

/// Whether `step` is how command `action` (of kind `kind`, with value
/// `enabled`) is answered when the process stream was `before`.
pub open spec fn step_answers(
    step: CommandStep,
    kind: CommandKind,
    config: AgentConfig,
    action: Seq<char>,
    enabled: Option<bool>,
    before: bool,
    host: HostInfo,
) -> bool {
    match kind {
        CommandKind::SetProcessStream => step matches CommandStep::Done(r) && r.ok && r.output@
            == stream_text(process_stream_after(kind, enabled, before)) && r.action
            == ServerAction::Continue,
        CommandKind::Reconnect => step matches CommandStep::Done(r) && r.ok && r.output@
            == reconnect_text(config) && r.action == ServerAction::Reconnect,
        CommandKind::RefreshInventory => step matches CommandStep::Done(r) && r.ok && r.output@
            == inventory_text(host) && r.action == ServerAction::Continue,
        CommandKind::Diagnose => step == CommandStep::Run(ProgramRequest::DockerVersion),
        CommandKind::DockerPs => step == CommandStep::Run(ProgramRequest::DockerPs),
        CommandKind::Logs => step matches CommandStep::Done(r) && r.ok && r.output@ == logs_text(
            config,
            before,
        ) && r.action == ServerAction::Continue,
        CommandKind::Unknown => step matches CommandStep::Done(r) && !r.ok && r.output@
            == unknown_text(action) && r.action == ServerAction::Continue,
    }
}

proof fn lemma_command_names_differ()
    ensures
        "set_process_stream"@.len() == 18,
        "refresh_inventory"@.len() == 17,
        "reconnect"@.len() == 9,
        "docker_ps"@.len() == 9,
        "diagnose"@.len() == 8,
        "logs"@.len() == 4,
        "reconnect"@ != "docker_ps"@,
{
    reveal_strlit("set_process_stream");
    reveal_strlit("reconnect");
    reveal_strlit("refresh_inventory");
    reveal_strlit("diagnose");
    reveal_strlit("docker_ps");
    reveal_strlit("logs");
    assert("reconnect"@[0] != "docker_ps"@[0]);
}

/// Runs command `action` as far as the agent can by itself. Only
/// `set_process_stream` changes the process-stream switch; `docker_ps` and
/// `diagnose` ask for `docker` to be run; `reconnect` asks for a new
/// connection; an unknown command is refused.
pub fn run_agent_command(
    config: &AgentConfig,
    action: &str,
    enabled: Option<bool>,
    process_stream: &mut bool,
    host: &HostInfo,
) -> (step: CommandStep)
    ensures
        *final(process_stream) == process_stream_after(
            command_kind(action@),
            enabled,
            *old(process_stream),
        ),
        step_answers(
            step,
            command_kind(action@),
            *config,
            action@,
            enabled,
            *old(process_stream),
            *host,
        ),
        action@ == "set_process_stream"@ ==> *final(process_stream) == match enabled {
            Some(e) => e,
            None => !*old(process_stream),
        },
        action@ != "set_process_stream"@ ==> *final(process_stream) == *old(process_stream),
        action@ == "set_process_stream"@ ==> (step matches CommandStep::Done(r) && r.ok
            && r.output@ == "Process stream is "@ + if *final(process_stream) {
            "enabled"@
        } else {
            "disabled"@
        }),
        action@ == "reconnect"@ ==> (step matches CommandStep::Done(r) && r.ok && r.action
            == ServerAction::Reconnect),
        action@ == "docker_ps"@ ==> step == CommandStep::Run(ProgramRequest::DockerPs),
        action@ == "diagnose"@ ==> step == CommandStep::Run(ProgramRequest::DockerVersion),
        action@ == "refresh_inventory"@ || action@ == "logs"@ ==> (step matches CommandStep::Done(
            r,
        ) && r.ok && r.action == ServerAction::Continue),
{
    proof {
        lemma_command_names_differ();
    }
    let kind = command_kind_of(action);
    match kind {
        CommandKind::SetProcessStream => {
            *process_stream = match enabled {
                Some(e) => e,
                None => !*process_stream,
            };
            let mut s = String::new();
            push_str(&mut s, "Process stream is ");
            if *process_stream {
                push_str(&mut s, "enabled");
            } else {
                push_str(&mut s, "disabled");
            }
            CommandStep::Done(CommandReply { ok: true, output: s, action: ServerAction::Continue })
        },
        CommandKind::Reconnect => {
            let mut s = String::new();
            push_str(&mut s, "Reconnect requested. Next target: ");
            push_str(&mut s, config.core_url.as_str());
            CommandStep::Done(CommandReply { ok: true, output: s, action: ServerAction::Reconnect })
        },
        CommandKind::RefreshInventory => {
            let mut s = String::new();
            push_str(&mut s, "Inventory refreshed: host=");
            push_or_unknown(&mut s, &host.hostname);
            push_str(&mut s, " os=");
            push_or_unknown(&mut s, &host.os);
            push_str(&mut s, " arch=");
            push_str(&mut s, host.arch.as_str());
            push_str(&mut s, " version=");
            push_str(&mut s, host.version.as_str());
            assert(s@ =~= inventory_text(*host));
            CommandStep::Done(CommandReply { ok: true, output: s, action: ServerAction::Continue })
        },
        CommandKind::Diagnose => CommandStep::Run(ProgramRequest::DockerVersion),
        CommandKind::DockerPs => CommandStep::Run(ProgramRequest::DockerPs),
        CommandKind::Logs => {
            let mut s = String::new();
            push_str(&mut s, "Agent is running. id=");
            let id = uuid_string(config.agent_id);
            push_str(&mut s, id.as_str());
            push_str(&mut s, " core=");
            push_str(&mut s, config.core_url.as_str());
            push_str(&mut s, " interval=");
            push_decimal(&mut s, config.interval_secs);
            push_str(&mut s, "s process_stream=");
            push_bool(&mut s, *process_stream);
            assert(s@ =~= logs_text(*config, *process_stream));
            CommandStep::Done(CommandReply { ok: true, output: s, action: ServerAction::Continue })
        },
        CommandKind::Unknown => {
            let mut s = String::new();
            push_str(&mut s, "Unknown command: ");
            push_str(&mut s, action);
            CommandStep::Done(
                CommandReply { ok: false, output: s, action: ServerAction::Continue },
            )
        },
    }
}

/// `set_process_stream` with a value leaves the switch at that value,
/// whatever it was before; without a value it flips the switch; any other
/// command leaves the switch as it was.
pub proof fn lemma_process_stream_set(kind: CommandKind, enabled: Option<bool>, before: bool)
    ensures
        kind == CommandKind::SetProcessStream && enabled == Some(true) ==> process_stream_after(
            kind,
            enabled,
            before,
        ),
        kind == CommandKind::SetProcessStream && enabled == Some(false) ==> !process_stream_after(
            kind,
            enabled,
            before,
        ),
        kind == CommandKind::SetProcessStream && enabled is None ==> process_stream_after(
            kind,
            enabled,
            before,
        ) != before,
        kind != CommandKind::SetProcessStream ==> process_stream_after(kind, enabled, before)
            == before,
{
}

/// Flipping the process stream twice with no value leaves it as it was.
pub proof fn lemma_process_stream_toggle_twice(before: bool)
    ensures
        process_stream_after(
            CommandKind::SetProcessStream,
            None,
            process_stream_after(CommandKind::SetProcessStream, None, before),
        ) == before,
{
}

/// The program a request runs.
pub open spec fn program_name(req: ProgramRequest) -> Seq<char> {
    "docker"@
}

/// The arguments a request runs its program with.
pub open spec fn program_args(req: ProgramRequest) -> Seq<Seq<char>> {
    match req {
        ProgramRequest::DockerPs => seq![
            "ps"@,
            "--format"@,
            "table {{.Names}}\t{{.Image}}\t{{.Status}}\t{{.Ports}}"@,
        ],
        ProgramRequest::DockerVersion => seq!["--version"@],
    }
}

impl ProgramRequest {
    /// The program to run.
    pub fn program(&self) -> (s: String)
        ensures
            s@ == program_name(*self),
    {
        let mut s = String::new();
        push_str(&mut s, "docker");
        assert(s@ =~= "docker"@);
        s
    }

    /// The arguments to run it with.
    pub fn args(&self) -> (v: Vec<String>)
        ensures
            v@.map_values(|a: String| a@) == program_args(*self),
    {
        let mut v: Vec<String> = Vec::new();
        match self {
            ProgramRequest::DockerPs => {
                let mut a = String::new();
                push_str(&mut a, "ps");
                let mut b = String::new();
                push_str(&mut b, "--format");
                let mut c = String::new();
                push_str(&mut c, "table {{.Names}}\t{{.Image}}\t{{.Status}}\t{{.Ports}}");
                v.push(a);
                v.push(b);
                v.push(c);
            },
            ProgramRequest::DockerVersion => {
                let mut a = String::new();
                push_str(&mut a, "--version");
                v.push(a);
            },
        }
        assert(v@.map_values(|a: String| a@) =~= program_args(*self));
        v
    }
}

/// The longest command output reported, in characters.
pub const MAX_OUTPUT_CHARS: usize = 4000;

/// What is reported of a command's output: a fixed notice for empty output,
/// else at most its first 4000 characters.
pub open spec fn truncated(s: Seq<char>) -> Seq<char> {
    if s.len() == 0 {
        "command completed with empty output"@
    } else if s.len() <= MAX_OUTPUT_CHARS {
        s
    } else {
        s.take(MAX_OUTPUT_CHARS as int)
    }
}

/// What is reported of a nonempty output is its beginning: as many of its
/// first characters as fit in 4000, in their order.
pub proof fn lemma_truncated_keeps_beginning(s: Seq<char>)
    ensures
        s.len() == 0 ==> truncated(s) == "command completed with empty output"@,
        s.len() > 0 ==> truncated(s).len() == if s.len() < MAX_OUTPUT_CHARS {
            s.len()
        } else {
            MAX_OUTPUT_CHARS as nat
        },
        s.len() > 0 ==> forall|i: int|
            0 <= i < truncated(s).len() ==> #[trigger] truncated(s)[i] == s[i],
{
}

/// Cuts a command's output to what is reported.
pub fn truncate_output(value: &str) -> (r: String)
    ensures
        r@ == truncated(value@),
        r@.len() > 0,
        r@.len() <= MAX_OUTPUT_CHARS,
        value@.len() > 0 ==> r@.len() == if value@.len() < MAX_OUTPUT_CHARS {
            value@.len()
        } else {
            MAX_OUTPUT_CHARS as nat
        },
        value@.len() > 0 ==> forall|i: int| 0 <= i < r@.len() ==> #[trigger] r@[i] == value@[i],
{
    let v = chars_of(value);
    truncate_chars(&v)
}

fn truncate_chars(v: &Vec<char>) -> (r: String)
    ensures
        r@ == truncated(v@),
        r@.len() > 0,
        r@.len() <= MAX_OUTPUT_CHARS,
        v@.len() > 0 ==> r@.len() == if v@.len() < MAX_OUTPUT_CHARS {
            v@.len()
        } else {
            MAX_OUTPUT_CHARS as nat
        },
        v@.len() > 0 ==> forall|i: int| 0 <= i < r@.len() ==> #[trigger] r@[i] == v@[i],
{
    proof {
        lemma_truncated_keeps_beginning(v@);
    }
    let mut s = String::new();
    if v.len() == 0 {
        push_str(&mut s, "command completed with empty output");
        proof {
            reveal_strlit("command completed with empty output");
        }
        return s;
    }
    let n = if v.len() < MAX_OUTPUT_CHARS {
        v.len()
    } else {
        MAX_OUTPUT_CHARS
    };
    let mut i: usize = 0;
    while i < n
        invariant
            n <= v.len(),
            i <= n,
            s@ == v@.take(i as int),
        decreases n - i,
    {
        crate::text::push_char(&mut s, v[i]);
        assert(v@.take(i as int + 1) =~= v@.take(i as int).push(v@[i as int]));
        i = i + 1;
    }
    if n == v.len() {
        assert(v@.take(n as int) =~= v@);
    }
    s
}

/// The reply text of a command that ran `program`: its trimmed output when
/// it succeeded, its trimmed error output when it failed, each cut as
/// `truncated` says; a notice when it could not be started.
pub open spec fn program_reply(program: Seq<char>, outcome: ProgramOutcome) -> (bool, Seq<char>) {
    match outcome {
        ProgramOutcome::Exited { success, stdout, stderr } => if success {
            (true, truncated(trim(stdout@)))
        } else {
            (false, truncated(trim(stderr@)))
        },
        ProgramOutcome::Failed(e) => (false, program + " is unavailable: "@ + e@),
    }
}

/// The answer to a command that ran `program` with the given outcome.
pub fn command_output(program: &str, outcome: &ProgramOutcome) -> (r: CommandReply)
    ensures
        (r.ok, r.output@) == program_reply(program@, *outcome),
        r.action == ServerAction::Continue,
        match *outcome {
            ProgramOutcome::Exited { success, stdout, stderr } => {
                let text = if success {
                    trim(stdout@)
                } else {
                    trim(stderr@)
                };
                &&& r.ok == success
                &&& text.len() > 0 ==> r.output@.len() == if text.len() < MAX_OUTPUT_CHARS {
                    text.len()
                } else {
                    MAX_OUTPUT_CHARS as nat
                }
                &&& text.len() > 0 ==> forall|i: int|
                    0 <= i < r.output@.len() ==> #[trigger] r.output@[i] == text[i]
            },
            ProgramOutcome::Failed(_) => !r.ok,
        },
{
    match outcome {
        ProgramOutcome::Exited { success, stdout, stderr } => {
            let text = if *success {
                trim_str(stdout.as_str())
            } else {
                trim_str(stderr.as_str())
            };
            let out = truncate_chars(&text);
            CommandReply { ok: *success, output: out, action: ServerAction::Continue }
        },
        ProgramOutcome::Failed(e) => {
            let mut s = String::new();
            push_str(&mut s, program);
            push_str(&mut s, " is unavailable: ");
            push_str(&mut s, e.as_str());
            CommandReply { ok: false, output: s, action: ServerAction::Continue }
        },
    }
}

/// What `diagnose` reports of docker: the trimmed version text when
/// `docker --version` succeeded, else `docker unavailable`.
pub open spec fn docker_text(outcome: ProgramOutcome) -> Seq<char> {
    match outcome {
        ProgramOutcome::Exited { success, stdout, stderr } => if success {
            trim(stdout@)
        } else {
            "docker unavailable"@
        },
        ProgramOutcome::Failed(_) => "docker unavailable"@,
    }
}

/// Whether the agent token is `configured` or `missing`.
pub open spec fn token_state(config: AgentConfig) -> Seq<char> {
    if config.agent_token is Some {
        "configured"@
    } else {
        "missing"@
    }
}

/// The reply text of `diagnose`.
pub open spec fn diagnose_text(
    config: AgentConfig,
    process_stream: bool,
    docker: ProgramOutcome,
    host: HostInfo,
) -> Seq<char> {
    "core="@ + config.core_url@ + " agent_id="@ + uuid_text(config.agent_id) + " agent_id_path="@
        + config.agent_id_path@ + " agent_token="@ + token_state(config) + " reconnect="@
        + decimal(config.reconnect_secs as nat) + "s interval="@ + decimal(
        config.interval_secs as nat,
    ) + "s process_stream="@ + bool_text(process_stream) + " process_limit="@ + decimal(
        config.process_limit as nat,
    ) + " send_all="@ + bool_text(config.send_all_processes) + " process_interval="@ + decimal(
        config.process_interval_secs as nat,
    ) + "s include_command="@ + bool_text(config.include_command) + " include_paths="@
        + bool_text(config.include_paths) + " include_env_count="@ + bool_text(
        config.include_environment_count,
    ) + " max_command="@ + decimal(config.max_command_length as nat) + " max_path="@ + decimal(
        config.max_path_length as nat,
    ) + " host="@ + or_unknown(host.hostname) + " os="@ + or_unknown(host.os) + " arch="@
        + host.arch@ + " docker="@ + docker_text(docker)
}

/// Whether report `t` names each setting next to its own value: it starts
/// with the core's address, each later label is followed by its value and
/// the next label, and it ends with docker's version: its trimmed output
/// when `docker --version` succeeded, else `docker unavailable`.
pub open spec fn names_each_setting(
    t: Seq<char>,
    config: AgentConfig,
    process_stream: bool,
    docker: ProgramOutcome,
    host: HostInfo,
) -> bool {
    &&& starts_with(t, "core="@ + config.core_url@ + " agent_id="@)
    &&& has_segment(t, " agent_id="@ + uuid_text(config.agent_id) + " agent_id_path="@)
    &&& has_segment(t, " agent_id_path="@ + config.agent_id_path@ + " agent_token="@)
    &&& has_segment(t, " agent_token="@ + token_state(config) + " reconnect="@)
    &&& has_segment(t, " reconnect="@ + decimal(config.reconnect_secs as nat) + "s interval="@)
    &&& has_segment(
        t,
        "s interval="@ + decimal(config.interval_secs as nat) + "s process_stream="@,
    )
    &&& has_segment(t, "s process_stream="@ + bool_text(process_stream) + " process_limit="@)
    &&& has_segment(t, " process_limit="@ + decimal(config.process_limit as nat) + " send_all="@)
    &&& has_segment(
        t,
        " send_all="@ + bool_text(config.send_all_processes) + " process_interval="@,
    )
    &&& has_segment(
        t,
        " process_interval="@ + decimal(config.process_interval_secs as nat)
            + "s include_command="@,
    )
    &&& has_segment(
        t,
        "s include_command="@ + bool_text(config.include_command) + " include_paths="@,
    )
    &&& has_segment(
        t,
        " include_paths="@ + bool_text(config.include_paths) + " include_env_count="@,
    )
    &&& has_segment(
        t,
        " include_env_count="@ + bool_text(config.include_environment_count) + " max_command="@,
    )
    &&& has_segment(
        t,
        " max_command="@ + decimal(config.max_command_length as nat) + " max_path="@,
    )
    &&& has_segment(t, " max_path="@ + decimal(config.max_path_length as nat) + " host="@)
    &&& has_segment(t, " host="@ + or_unknown(host.hostname) + " os="@)
    &&& has_segment(t, " os="@ + or_unknown(host.os) + " arch="@)
    &&& has_segment(t, " arch="@ + host.arch@ + " docker="@)
    &&& ends_with(
        t,
        " docker="@ + match docker {
            ProgramOutcome::Exited { success: true, stdout, .. } => trim(stdout@),
            _ => "docker unavailable"@,
        },
    )
}

/// The `diagnose` report ties each label to its own setting: every label is
/// followed by the value of the setting it names.
pub proof fn lemma_diagnose_names_each_setting(
    config: AgentConfig,
    process_stream: bool,
    docker: ProgramOutcome,
    host: HostInfo,
)
    ensures
        names_each_setting(
            diagnose_text(config, process_stream, docker, host),
            config,
            process_stream,
            docker,
            host,
        ),
{
    let t = diagnose_text(config, process_stream, docker, host);
    let first = "core="@ + config.core_url@ + " agent_id="@;
    assert(starts_with(t, first)) by {
        lemma_appending_keeps(first);
        assert(first =~= first + Seq::<char>::empty());
    }
    assert(has_segment(t, " agent_id="@ + uuid_text(config.agent_id) + " agent_id_path="@)) by {
        lemma_appending_keeps(" agent_id="@ + uuid_text(config.agent_id) + " agent_id_path="@);
        lemma_last_pieces(" agent_id="@, uuid_text(config.agent_id), " agent_id_path="@);
    }
    assert(has_segment(t, " agent_id_path="@ + config.agent_id_path@ + " agent_token="@)) by {
        lemma_appending_keeps(" agent_id_path="@ + config.agent_id_path@ + " agent_token="@);
        lemma_last_pieces(" agent_id_path="@, config.agent_id_path@, " agent_token="@);
    }
    assert(has_segment(t, " agent_token="@ + token_state(config) + " reconnect="@)) by {
        lemma_appending_keeps(" agent_token="@ + token_state(config) + " reconnect="@);
        lemma_last_pieces(" agent_token="@, token_state(config), " reconnect="@);
    }
    let reconnect = decimal(config.reconnect_secs as nat);
    assert(has_segment(t, " reconnect="@ + reconnect + "s interval="@)) by {
        lemma_appending_keeps(" reconnect="@ + reconnect + "s interval="@);
        lemma_last_pieces(" reconnect="@, reconnect, "s interval="@);
    }
    let interval = decimal(config.interval_secs as nat);
    assert(has_segment(t, "s interval="@ + interval + "s process_stream="@)) by {
        lemma_appending_keeps("s interval="@ + interval + "s process_stream="@);
        lemma_last_pieces("s interval="@, interval, "s process_stream="@);
    }
    let stream = bool_text(process_stream);
    assert(has_segment(t, "s process_stream="@ + stream + " process_limit="@)) by {
        lemma_appending_keeps("s process_stream="@ + stream + " process_limit="@);
        lemma_last_pieces("s process_stream="@, stream, " process_limit="@);
    }
    let limit = decimal(config.process_limit as nat);
    assert(has_segment(t, " process_limit="@ + limit + " send_all="@)) by {
        lemma_appending_keeps(" process_limit="@ + limit + " send_all="@);
        lemma_last_pieces(" process_limit="@, limit, " send_all="@);
    }
    let send_all = bool_text(config.send_all_processes);
    assert(has_segment(t, " send_all="@ + send_all + " process_interval="@)) by {
        lemma_appending_keeps(" send_all="@ + send_all + " process_interval="@);
        lemma_last_pieces(" send_all="@, send_all, " process_interval="@);
    }
    let process_interval = decimal(config.process_interval_secs as nat);
    assert(has_segment(t, " process_interval="@ + process_interval + "s include_command="@)) by {
        lemma_appending_keeps(" process_interval="@ + process_interval + "s include_command="@);
        lemma_last_pieces(" process_interval="@, process_interval, "s include_command="@);
    }
    let include_command = bool_text(config.include_command);
    assert(has_segment(t, "s include_command="@ + include_command + " include_paths="@)) by {
        lemma_appending_keeps("s include_command="@ + include_command + " include_paths="@);
        lemma_last_pieces("s include_command="@, include_command, " include_paths="@);
    }
    let include_paths = bool_text(config.include_paths);
    assert(has_segment(t, " include_paths="@ + include_paths + " include_env_count="@)) by {
        lemma_appending_keeps(" include_paths="@ + include_paths + " include_env_count="@);
        lemma_last_pieces(" include_paths="@, include_paths, " include_env_count="@);
    }
    let include_env = bool_text(config.include_environment_count);
    assert(has_segment(t, " include_env_count="@ + include_env + " max_command="@)) by {
        lemma_appending_keeps(" include_env_count="@ + include_env + " max_command="@);
        lemma_last_pieces(" include_env_count="@, include_env, " max_command="@);
    }
    let max_command = decimal(config.max_command_length as nat);
    assert(has_segment(t, " max_command="@ + max_command + " max_path="@)) by {
        lemma_appending_keeps(" max_command="@ + max_command + " max_path="@);
        lemma_last_pieces(" max_command="@, max_command, " max_path="@);
    }
    let max_path = decimal(config.max_path_length as nat);
    assert(has_segment(t, " max_path="@ + max_path + " host="@)) by {
        lemma_appending_keeps(" max_path="@ + max_path + " host="@);
        lemma_last_pieces(" max_path="@, max_path, " host="@);
    }
    let hostname = or_unknown(host.hostname);
    assert(has_segment(t, " host="@ + hostname + " os="@)) by {
        lemma_appending_keeps(" host="@ + hostname + " os="@);
        lemma_last_pieces(" host="@, hostname, " os="@);
    }
    let os = or_unknown(host.os);
    assert(has_segment(t, " os="@ + os + " arch="@)) by {
        lemma_appending_keeps(" os="@ + os + " arch="@);
        lemma_last_pieces(" os="@, os, " arch="@);
    }
    assert(has_segment(t, " arch="@ + host.arch@ + " docker="@)) by {
        lemma_appending_keeps(" arch="@ + host.arch@ + " docker="@);
        lemma_last_pieces(" arch="@, host.arch@, " docker="@);
    }
    assert(ends_with(t, " docker="@ + docker_text(docker))) by {
        lemma_last_pieces(" arch="@, " docker="@, docker_text(docker));
    }
}

/// The report of `diagnose`: the agent's settings, the host, and docker's
/// version.
pub fn diagnose_output(
    config: &AgentConfig,
    process_stream: bool,
    docker: &ProgramOutcome,
    host: &HostInfo,
) -> (s: String)
    ensures
        s@ == diagnose_text(*config, process_stream, *docker, *host),
        names_each_setting(s@, *config, process_stream, *docker, *host),
{
    proof {
        lemma_diagnose_names_each_setting(*config, process_stream, *docker, *host);
    }
    let mut s = String::new();
    push_str(&mut s, "core=");
    push_str(&mut s, config.core_url.as_str());
    push_str(&mut s, " agent_id=");
    let id = uuid_string(config.agent_id);
    push_str(&mut s, id.as_str());
    push_str(&mut s, " agent_id_path=");
    push_str(&mut s, config.agent_id_path.as_str());
    push_str(&mut s, " agent_token=");
    if config.agent_token.is_some() {
        push_str(&mut s, "configured");
    } else {
        push_str(&mut s, "missing");
    }
    push_str(&mut s, " reconnect=");
    push_decimal(&mut s, config.reconnect_secs);
    push_str(&mut s, "s interval=");
    push_decimal(&mut s, config.interval_secs);
    push_str(&mut s, "s process_stream=");
    push_bool(&mut s, process_stream);
    push_str(&mut s, " process_limit=");
    push_decimal(&mut s, config.process_limit as u64);
    push_str(&mut s, " send_all=");
    push_bool(&mut s, config.send_all_processes);
    push_str(&mut s, " process_interval=");
    push_decimal(&mut s, config.process_interval_secs);
    push_str(&mut s, "s include_command=");
    push_bool(&mut s, config.include_command);
    push_str(&mut s, " include_paths=");
    push_bool(&mut s, config.include_paths);
    push_str(&mut s, " include_env_count=");
    push_bool(&mut s, config.include_environment_count);
    push_str(&mut s, " max_command=");
    push_decimal(&mut s, config.max_command_length as u64);
    push_str(&mut s, " max_path=");
    push_decimal(&mut s, config.max_path_length as u64);
    push_str(&mut s, " host=");
    push_or_unknown(&mut s, &host.hostname);
    push_str(&mut s, " os=");
    push_or_unknown(&mut s, &host.os);
    push_str(&mut s, " arch=");
    push_str(&mut s, host.arch.as_str());
    push_str(&mut s, " docker=");
    match docker {
        ProgramOutcome::Exited { success, stdout, stderr } => {
            if *success {
                let t = trim_str(stdout.as_str());
                push_chars(&mut s, &t);
            } else {
                push_str(&mut s, "docker unavailable");
            }
        },
        ProgramOutcome::Failed(_) => {
            push_str(&mut s, "docker unavailable");
        },
    }
    assert(s@ =~= diagnose_text(*config, process_stream, *docker, *host));
    s
}

/// The answer to a command once the program it asked for has run.
pub fn finish_agent_command(
    config: &AgentConfig,
    request: ProgramRequest,
    outcome: &ProgramOutcome,
    process_stream: bool,
    host: &HostInfo,
) -> (r: CommandReply)
    ensures
        r.action == ServerAction::Continue,
        request == ProgramRequest::DockerPs ==> (r.ok, r.output@) == program_reply(
            "docker"@,
            *outcome,
        ),
        request == ProgramRequest::DockerVersion ==> r.ok && r.output@ == diagnose_text(
            *config,
            process_stream,
            *outcome,
            *host,
        ),
{
    match request {
        ProgramRequest::DockerPs => command_output("docker", outcome),
        ProgramRequest::DockerVersion => CommandReply {
            ok: true,
            output: diagnose_output(config, process_stream, outcome, host),
            action: ServerAction::Continue,
        },
    }
}

/// What a server frame leads to.
pub enum MessageStep {
    /// Keep the connection (a ping, or a frame that is not understood).
    Continue,
    /// Stop the agent.
    Shutdown,
    /// Answer command `id`, named `action`, as `step` says.
    Command { id: String, action: String, step: CommandStep },
}

/// Handles a frame from the core (`None` when it could not be read as a
/// frame): a shutdown frame stops the agent, a command runs, anything else
/// keeps the connection.
pub fn handle_server_message(
    frame: Option<ServerFrame>,
    config: &AgentConfig,
    process_stream: &mut bool,
    host: &HostInfo,
) -> (r: MessageStep)
    ensures
        match frame {
            Some(ServerFrame::Command { id, action, enabled }) => *final(process_stream)
                == process_stream_after(command_kind(action@), enabled, *old(process_stream))
                && (r matches MessageStep::Command { id: rid, action: ract, step } && rid == id
                && ract == action && step_answers(
                step,
                command_kind(action@),
                *config,
                action@,
                enabled,
                *old(process_stream),
                *host,
            )),
            Some(ServerFrame::Shutdown { .. }) => r is Shutdown && *final(process_stream) == *old(
                process_stream,
            ),
            _ => r is Continue && *final(process_stream) == *old(process_stream),
        },
        match frame {
            Some(ServerFrame::Command { id, action, enabled }) => if action@
                == "set_process_stream"@ {
                *final(process_stream) == match enabled {
                    Some(e) => e,
                    None => !*old(process_stream),
                }
            } else {
                *final(process_stream) == *old(process_stream)
            },
            _ => *final(process_stream) == *old(process_stream),
        },
{
    match frame {
        Some(ServerFrame::Ping { .. }) => MessageStep::Continue,
        Some(ServerFrame::Shutdown { .. }) => MessageStep::Shutdown,
        Some(ServerFrame::Command { id, action, enabled }) => {
            let step = run_agent_command(config, action.as_str(), enabled, process_stream, host);
            MessageStep::Command { id, action, step }
        },
        None => MessageStep::Continue,
    }
}

/// The action a command step leaves the connection with: that of its reply,
/// or `Continue` while a program is still to run.
pub fn step_action(step: &CommandStep) -> (a: ServerAction)
    ensures
        a == match step {
            CommandStep::Done(r) => r.action,
            CommandStep::Run(_) => ServerAction::Continue,
        },
{
    match step {
        CommandStep::Done(r) => r.action,
        CommandStep::Run(_) => ServerAction::Continue,
    }
}

/// Whether a connection ends after an action, and why.
pub fn exit_for_action(action: ServerAction) -> (r: Option<ConnectionExit>)
    ensures
        r == match action {
            ServerAction::Continue => None,
            ServerAction::Reconnect => Some(ConnectionExit::Disconnected),
            ServerAction::Shutdown => Some(ConnectionExit::Shutdown),
        },
{
    match action {
        ServerAction::Continue => None,
        ServerAction::Reconnect => Some(ConnectionExit::Disconnected),
        ServerAction::Shutdown => Some(ConnectionExit::Shutdown),
    }
}

/// What arrives on the connection.
#[derive(PartialEq, Eq, Structural, Clone, Copy, Debug)]
pub enum SocketEvent {
    /// A text message.
    Text,
    /// A close message, or the end of the stream.
    Closed,
    /// Any other message (binary, ping, pong).
    Other,
    /// A transport error.
    Failed,
}

/// What the connection does with what arrived.
#[derive(PartialEq, Eq, Structural, Clone, Copy, Debug)]
pub enum SocketStep {
    /// Read the text as a server frame.
    HandleText,
    /// Leave the connection.
    Exit(ConnectionExit),
    /// Nothing.
    Ignore,
    /// Give up the connection with the error.
    Fail,
}

/// A text message is handled; a close or the end of the stream ends the
/// connection for a reconnect; other messages are ignored; an error ends
/// the connection with that error.
pub fn on_socket_event(event: SocketEvent) -> (step: SocketStep)
    ensures
        step == match event {
            SocketEvent::Text => SocketStep::HandleText,
            SocketEvent::Closed => SocketStep::Exit(ConnectionExit::Disconnected),
            SocketEvent::Other => SocketStep::Ignore,
            SocketEvent::Failed => SocketStep::Fail,
        },
{
    match event {
        SocketEvent::Text => SocketStep::HandleText,
        SocketEvent::Closed => SocketStep::Exit(ConnectionExit::Disconnected),
        SocketEvent::Other => SocketStep::Ignore,
        SocketEvent::Failed => SocketStep::Fail,
    }
}

/// Whether a tick sends the process list: the process stream is on and at
/// least one process interval has passed since the last list.
pub fn should_send_processes(process_stream: bool, elapsed_nanos: u128, interval_nanos: u128) -> (b:
    bool)
    ensures
        b == (process_stream && elapsed_nanos >= interval_nanos),
{
    process_stream && elapsed_nanos >= interval_nanos
}

/// The time since the Unix epoch in milliseconds (std `SystemTime::now`
/// and `duration_since(UNIX_EPOCH)`), or `None` when the clock is set
/// before the epoch.
/// Claims nothing of the value: it is the clock's.
#[verifier::external_body]
fn clock_millis_since_epoch() -> (r: Option<u128>) {
    match std::time::SystemTime::now().duration_since(std::time::UNIX_EPOCH) {
        Ok(d) => Some(d.as_millis()),
        Err(_) => None,
    }
}

/// A millisecond clock reading as sent on the wire: the low 64 bits of the
/// milliseconds since the epoch; 0 for a clock set before the epoch.
pub fn wire_millis(since_epoch: Option<u128>) -> (r: u64)
    ensures
        r == match since_epoch {
            Some(ms) => (ms % 0x1_0000_0000_0000_0000) as u64,
            None => 0,
        },
{
    match since_epoch {
        Some(ms) => (ms % 0x1_0000_0000_0000_0000u128) as u64,
        None => 0,
    }
}

/// The current time in milliseconds since the Unix epoch.
pub fn now_ms() -> u64 {
    wire_millis(clock_millis_since_epoch())
}

} // verus!
