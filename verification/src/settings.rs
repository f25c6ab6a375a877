//! The agent's configuration: what each setting becomes from the command
//! line, the environment and its defaults.
//!
//! The environment itself is read by the caller; each function here takes
//! the value of the variables it consults (`None` when a variable is unset).
use vstd::prelude::*;
use crate::cli::{CliOptions, opt_view};
use crate::text::{
    ascii_lowercase, ascii_lowercase_chars, chars_eq, chars_of, decimal, is_blank,
    lemma_decimal_parses, parse_unsigned, parse_unsigned_chars, push_str, string_of, trim, trim_str,
};

verus! {

/// Seconds between two metrics batches, unless configured.
pub const DEFAULT_INTERVAL_SECONDS: u64 = 1;

/// Seconds to wait before reconnecting, unless configured.
pub const DEFAULT_RECONNECT_SECONDS: u64 = 3;

/// How many processes a batch carries at most, unless configured.
pub const DEFAULT_PROCESS_LIMIT: usize = 220;

/// Whether batches carry every process, unless configured.
pub const DEFAULT_SEND_ALL_PROCESSES: bool = false;

/// Seconds between two process lists, unless configured.
pub const DEFAULT_PROCESS_INTERVAL_SECONDS: u64 = 2;

/// Whether process command lines are reported, unless configured.
pub const DEFAULT_INCLUDE_COMMAND: bool = true;

/// Whether process paths are reported, unless configured.
pub const DEFAULT_INCLUDE_PATHS: bool = true;

/// Whether process environment sizes are reported, unless configured.
pub const DEFAULT_INCLUDE_ENVIRONMENT_COUNT: bool = true;

/// How many characters of a command line are kept, unless configured.
pub const DEFAULT_MAX_COMMAND_LENGTH: usize = 512;

/// How many characters of a path are kept, unless configured.
pub const DEFAULT_MAX_PATH_LENGTH: usize = 256;

/// The smallest accepted `VOIDMETRICS_PROCESS_LIMIT`.
pub const MIN_PROCESS_LIMIT: usize = 1;

/// The smallest accepted command and path length limit.
pub const MIN_TEXT_LIMIT: usize = 16;

/// The core's address when none is configured.
pub open spec fn default_core_url() -> Seq<char> {
    "ws://127.0.0.1:3000/ws"@
}

/// The token file read when none is configured.
pub open spec fn default_agent_token_file() -> Seq<char> {
    "/run/voidmetrics/agent_token"@
}

/// The agent's settings once start-up has resolved them.
pub struct AgentConfig {
    pub agent_id: u128,
    pub agent_id_path: String,
    pub core_url: String,
    pub agent_token: Option<String>,
    pub interval_secs: u64,
    pub reconnect_secs: u64,
    pub process_limit: usize,
    pub send_all_processes: bool,
    pub process_interval_secs: u64,
    pub include_command: bool,
    pub include_paths: bool,
    pub include_environment_count: bool,
    pub max_command_length: usize,
    pub max_path_length: usize,
}

/// The core's address: `--core-url`, else `VOIDMETRICS_CORE_URL`; the
/// default when that is unset or blank. The value is used as given.
pub open spec fn core_url_spec(cli_value: Option<Seq<char>>, env_value: Option<Seq<char>>) -> Seq<
    char,
> {
    let chosen = match cli_value {
        Some(v) => Some(v),
        None => env_value,
    };
    match chosen {
        Some(v) => if is_blank(v) {
            default_core_url()
        } else {
            v
        },
        None => default_core_url(),
    }
}

/// The command line wins over the environment, and the environment over the
/// default: a nonblank `--core-url` is used; without one, a nonblank
/// `VOIDMETRICS_CORE_URL`; with neither, the default address.
pub proof fn lemma_core_url_precedence(
    cli_value: Option<Seq<char>>,
    env_value: Option<Seq<char>>,
)
    ensures
        (cli_value matches Some(v) && !is_blank(v)) ==> core_url_spec(cli_value, env_value)
            == cli_value->Some_0,
        cli_value is None && (env_value matches Some(v) && !is_blank(v)) ==> core_url_spec(
            cli_value,
            env_value,
        ) == env_value->Some_0,
        cli_value is None && env_value is None ==> core_url_spec(cli_value, env_value)
            == default_core_url(),
{
}

/// The core's address the agent connects to.
pub fn core_url(cli: &CliOptions, env_value: Option<&str>) -> (url: String)
    ensures
        url@ == core_url_spec(
            opt_view(cli.core_url),
            match env_value {
                Some(v) => Some(v@),
                None => None,
            },
        ),
        !is_blank(url@),
{
    proof {
        reveal_strlit("ws://127.0.0.1:3000/ws");
        assert(default_core_url()[0] == 'w');
        assert(default_core_url().last() == 's');
    }
    let chosen: Option<String> = match &cli.core_url {
        Some(v) => Some(v.clone()),
        None => match env_value {
            Some(v) => Some(string_of(&chars_of(v))),
            None => None,
        },
    };
    match chosen {
        Some(v) => {
            let t = trim_str(v.as_str());
            if t.len() == 0 {
                let mut d = String::new();
                push_str(&mut d, "ws://127.0.0.1:3000/ws");
                d
            } else {
                v
            }
        },
        None => {
            let mut d = String::new();
            push_str(&mut d, "ws://127.0.0.1:3000/ws");
            d
        },
    }
}

/// Where the agent token comes from.
pub enum TokenLookup {
    /// The token, from the command line or the environment.
    Found(String),
    /// No token is configured; it is to be read from this file.
    ReadFile(String),
}

/// The trimmed text, when it is not blank.
pub open spec fn nonblank_trimmed(v: Option<Seq<char>>) -> Option<Seq<char>> {
    match v {
        Some(t) => if is_blank(t) {
            None
        } else {
            Some(trim(t))
        },
        None => None,
    }
}

fn nonblank_trimmed_of(v: Option<&str>) -> (r: Option<String>)
    ensures
        opt_view(r) == nonblank_trimmed(
            match v {
                Some(t) => Some(t@),
                None => None,
            },
        ),
{
    match v {
        Some(t) => {
            let tt = trim_str(t);
            if tt.len() == 0 {
                None
            } else {
                Some(string_of(&tt))
            }
        },
        None => None,
    }
}

/// The agent token: `--auth-key`, else `VOIDMETRICS_AGENT_TOKEN`, each
/// trimmed and only when not blank; else the file named by
/// `VOIDMETRICS_AGENT_TOKEN_FILE` (trimmed, when not blank) or the default
/// token file is to be read.
pub fn agent_token(cli: &CliOptions, env_token: Option<&str>, env_token_file: Option<&str>) -> (r:
    TokenLookup)
    ensures
        ({
            let from_cli = nonblank_trimmed(opt_view(cli.auth_key));
            let from_env = nonblank_trimmed(
                match env_token {
                    Some(t) => Some(t@),
                    None => None,
                },
            );
            let file = match nonblank_trimmed(
                match env_token_file {
                    Some(t) => Some(t@),
                    None => None,
                },
            ) {
                Some(p) => p,
                None => default_agent_token_file(),
            };
            match r {
                TokenLookup::Found(t) => t@ == match from_cli {
                    Some(c) => c,
                    None => from_env->Some_0,
                } && (from_cli is Some || from_env is Some),
                TokenLookup::ReadFile(p) => from_cli is None && from_env is None && p@ == file,
            }
        }),
{
    let from_cli = match &cli.auth_key {
        Some(k) => nonblank_trimmed_of(Some(k.as_str())),
        None => None,
    };
    if let Some(t) = from_cli {
        return TokenLookup::Found(t);
    }
    if let Some(t) = nonblank_trimmed_of(env_token) {
        return TokenLookup::Found(t);
    }
    match nonblank_trimmed_of(env_token_file) {
        Some(p) => TokenLookup::ReadFile(p),
        None => {
            let mut d = String::new();
            push_str(&mut d, "/run/voidmetrics/agent_token");
            TokenLookup::ReadFile(d)
        },
    }
}

/// The token held by the token file (`None` when it could not be read):
/// its trimmed contents, when not blank.
pub fn token_from_file(contents: Option<&str>) -> (r: Option<String>)
    ensures
        opt_view(r) == nonblank_trimmed(
            match contents {
                Some(t) => Some(t@),
                None => None,
            },
        ),
{
    nonblank_trimmed_of(contents)
}

/// A number of seconds from the environment: the value parsed as `u64`
/// (with no trimming), when it parses and is positive; else `default`.
pub open spec fn positive_seconds(value: Option<Seq<char>>, default: u64) -> u64 {
    match value {
        Some(v) => match parse_unsigned(v, u64::MAX as int) {
            Some(n) => if n > 0 {
                n as u64
            } else {
                default
            },
            None => default,
        },
        None => default,
    }
}

/// A positive number of seconds written in decimal is taken as written;
/// zero gives the default.
pub proof fn lemma_positive_seconds_reads_decimal(n: u64, default: u64)
    ensures
        n > 0 ==> positive_seconds(Some(decimal(n as nat)), default) == n,
        n == 0 ==> positive_seconds(Some(decimal(n as nat)), default) == default,
{
    lemma_decimal_parses(n as nat, u64::MAX as int);
}

fn env_positive_seconds(value: Option<&str>, default: u64) -> (r: u64)
    ensures
        r == positive_seconds(
            match value {
                Some(v) => Some(v@),
                None => None,
            },
            default,
        ),
{
    match value {
        Some(v) => {
            let cs = chars_of(v);
            match parse_unsigned_chars(&cs, u64::MAX) {
                Some(n) => if n > 0 {
                    n
                } else {
                    default
                },
                None => default,
            }
        },
        None => default,
    }
}

/// Seconds between metrics batches, from `VOIDMETRICS_INTERVAL_SECONDS`.
pub fn interval_seconds(value: Option<&str>) -> (r: u64)
    ensures
        r == positive_seconds(
            match value {
                Some(v) => Some(v@),
                None => None,
            },
            DEFAULT_INTERVAL_SECONDS,
        ),
        r > 0,
{
    env_positive_seconds(value, DEFAULT_INTERVAL_SECONDS)
}

/// Seconds before reconnecting, from `VOIDMETRICS_RECONNECT_SECONDS`.
pub fn reconnect_seconds(value: Option<&str>) -> (r: u64)
    ensures
        r == positive_seconds(
            match value {
                Some(v) => Some(v@),
                None => None,
            },
            DEFAULT_RECONNECT_SECONDS,
        ),
        r > 0,
{
    env_positive_seconds(value, DEFAULT_RECONNECT_SECONDS)
}

/// Seconds between process lists, from
/// `VOIDMETRICS_PROCESS_INTERVAL_SECONDS`.
pub fn process_interval_seconds(value: Option<&str>) -> (r: u64)
    ensures
        r == positive_seconds(
            match value {
                Some(v) => Some(v@),
                None => None,
            },
            DEFAULT_PROCESS_INTERVAL_SECONDS,
        ),
        r > 0,
{
    env_positive_seconds(value, DEFAULT_PROCESS_INTERVAL_SECONDS)
}

/// A count from the environment: the value parsed as `usize` (with no
/// trimming), when it parses and is at least `min`; else `default`.
pub open spec fn bounded_count(value: Option<Seq<char>>, default: usize, min: usize) -> usize {
    match value {
        Some(v) => match parse_unsigned(v, usize::MAX as int) {
            Some(n) => if n >= min {
                n as usize
            } else {
                default
            },
            None => default,
        },
        None => default,
    }
}

/// A count written in decimal is taken as written when it is at least the
/// minimum; a smaller one gives the default.
pub proof fn lemma_bounded_count_reads_decimal(n: usize, default: usize, min: usize)
    ensures
        n >= min ==> bounded_count(Some(decimal(n as nat)), default, min) == n,
        n < min ==> bounded_count(Some(decimal(n as nat)), default, min) == default,
{
    lemma_decimal_parses(n as nat, usize::MAX as int);
}

/// A count setting read from an environment variable's value.
pub fn env_usize(value: Option<&str>, default: usize, min: usize) -> (r: usize)
    ensures
        r == bounded_count(
            match value {
                Some(v) => Some(v@),
                None => None,
            },
            default,
            min,
        ),
        r >= min || r == default,
{
    match value {
        Some(v) => {
            let cs = chars_of(v);
            match parse_unsigned_chars(&cs, usize::MAX as u64) {
                Some(n) => if n >= min as u64 {
                    n as usize
                } else {
                    default
                },
                None => default,
            }
        },
        None => default,
    }
}

/// A switch from the environment: after trimming and lowering ASCII case,
/// `1`, `true`, `yes`, `on` mean on and `0`, `false`, `no`, `off` mean off;
/// anything else, or no value, means `default`.
pub open spec fn switch_value(value: Option<Seq<char>>, default: bool) -> bool {
    match value {
        Some(v) => {
            let w = ascii_lowercase(trim(v));
            if w == "1"@ || w == "true"@ || w == "yes"@ || w == "on"@ {
                true
            } else if w == "0"@ || w == "false"@ || w == "no"@ || w == "off"@ {
                false
            } else {
                default
            }
        },
        None => default,
    }
}

/// The words of a switch: whatever the case and the surrounding
/// whitespace, `1`, `true`, `yes` and `on` turn it on, `0`, `false`, `no`
/// and `off` turn it off; no value leaves the default.
pub proof fn lemma_switch_words(v: Seq<char>, default: bool)
    ensures
        ({
            let w = ascii_lowercase(trim(v));
            w == "1"@ || w == "true"@ || w == "yes"@ || w == "on"@
        }) ==> switch_value(Some(v), default),
        ({
            let w = ascii_lowercase(trim(v));
            w == "0"@ || w == "false"@ || w == "no"@ || w == "off"@
        }) ==> !switch_value(Some(v), default),
        switch_value(None, default) == default,
{
    reveal_strlit("1");
    reveal_strlit("true");
    reveal_strlit("yes");
    reveal_strlit("on");
    reveal_strlit("0");
    reveal_strlit("false");
    reveal_strlit("no");
    reveal_strlit("off");
    assert("0"@[0] != "1"@[0]);
    assert("no"@[0] != "on"@[0]);
    assert("off"@[0] != "yes"@[0]);
    assert("1"@.len() == 1 && "true"@.len() == 4 && "yes"@.len() == 3 && "on"@.len() == 2);
    assert("0"@.len() == 1 && "false"@.len() == 5 && "no"@.len() == 2 && "off"@.len() == 3);
}

/// A switch setting read from an environment variable's value.
pub fn env_bool(value: Option<&str>, default: bool) -> (r: bool)
    ensures
        r == switch_value(
            match value {
                Some(v) => Some(v@),
                None => None,
            },
            default,
        ),
{
    match value {
        Some(v) => {
            let t = trim_str(v);
            let w = ascii_lowercase_chars(&t);
            if chars_eq(&w, "1") || chars_eq(&w, "true") || chars_eq(&w, "yes") || chars_eq(
                &w,
                "on",
            ) {
                true
            } else if chars_eq(&w, "0") || chars_eq(&w, "false") || chars_eq(&w, "no")
                || chars_eq(&w, "off") {
                false
            } else {
                default
            }
        },
        None => default,
    }
}

/// The configured id file: `--agent-id-file` as given, else
/// `VOIDMETRICS_AGENT_ID_FILE` trimmed, when not blank.
pub fn configured_agent_id_path(cli: &CliOptions, env_value: Option<&str>) -> (r: Option<String>)
    ensures
        opt_view(r) == match cli.agent_id_file {
            Some(p) => Some(p@),
            None => nonblank_trimmed(
                match env_value {
                    Some(v) => Some(v@),
                    None => None,
                },
            ),
        },
{
    match &cli.agent_id_file {
        Some(p) => Some(p.clone()),
        None => nonblank_trimmed_of(env_value),
    }
}

/// Which process details a process refresh collects.
pub struct ProcessRefreshKind {
    pub cpu: bool,
    pub memory: bool,
    pub disk_usage: bool,
    pub user: bool,
    pub tasks: bool,
    pub cmd: bool,
    pub exe: bool,
    pub cwd: bool,
    pub root: bool,
    pub environ: bool,
}

/// The process details to refresh: CPU, memory, disk usage, user and tasks
/// always; the command line, the paths (executable, working directory,
/// root) and the environment only when they are reported.
pub fn process_refresh_kind(config: &AgentConfig) -> (k: ProcessRefreshKind)
    ensures
        k.cpu && k.memory && k.disk_usage && k.user && k.tasks,
        k.cmd == config.include_command,
        k.exe == config.include_paths,
        k.cwd == config.include_paths,
        k.root == config.include_paths,
        k.environ == config.include_environment_count,
{
    let mut kind = ProcessRefreshKind {
        cpu: true,
        memory: true,
        disk_usage: true,
        user: true,
        tasks: true,
        cmd: false,
        exe: false,
        cwd: false,
        root: false,
        environ: false,
    };
    if config.include_command {
        kind.cmd = true;
    }
    if config.include_paths {
        kind.exe = true;
        kind.cwd = true;
        kind.root = true;
    }
    if config.include_environment_count {
        kind.environ = true;
    }
    kind
}

} // verus!
