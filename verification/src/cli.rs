//! The agent's command line.
//!
//! Options: `-h`/`--help`, `--daemon`, `--auth-key <token>`,
//! `--core-url <ws-url>`, `--agent-id <uuid>`, `--agent-id-file <path>`.
//! The options that carry a value are also recorded, as given, in
//! `forwarded_args`, which a daemonised agent hands to its child process.
use vstd::prelude::*;
use crate::ids::{uuid_parse, uuid_parse_str};
use crate::text::{chars_eq, chars_of, push_str, string_of, trim, trim_chars};

verus! {

/// The parsed command line.
pub struct CliOptions {
    pub daemon: bool,
    pub auth_key: Option<String>,
    pub core_url: Option<String>,
    pub agent_id: Option<u128>,
    pub agent_id_file: Option<String>,
    pub forwarded_args: Vec<String>,
    pub help: bool,
}

/// The mathematical view of `CliOptions`.
pub struct CliModel {
    pub daemon: bool,
    pub auth_key: Option<Seq<char>>,
    pub core_url: Option<Seq<char>>,
    pub agent_id: Option<u128>,
    pub agent_id_file: Option<Seq<char>>,
    pub forwarded: Seq<Seq<char>>,
    pub help: bool,
}

pub open spec fn opt_view(o: Option<String>) -> Option<Seq<char>> {
    match o {
        Some(s) => Some(s@),
        None => None,
    }
}

/// The character views of a list of strings.
pub open spec fn string_views(v: Seq<String>) -> Seq<Seq<char>> {
    v.map_values(|s: String| s@)
}

impl View for CliOptions {
    type V = CliModel;

    open spec fn view(&self) -> CliModel {
        CliModel {
            daemon: self.daemon,
            auth_key: opt_view(self.auth_key),
            core_url: opt_view(self.core_url),
            agent_id: self.agent_id,
            agent_id_file: opt_view(self.agent_id_file),
            forwarded: string_views(self.forwarded_args@),
            help: self.help,
        }
    }
}

/// The options that take a value.
#[derive(PartialEq, Eq, Structural, Clone, Copy, Debug)]
pub enum CliFlag {
    AuthKey,
    CoreUrl,
    AgentId,
    AgentIdFile,
}

/// Why a command line was refused.
pub enum CliError {
    /// The option came last, with no value after it.
    MissingValue(CliFlag),
    /// The option's value is blank.
    EmptyValue(CliFlag),
    /// The value of `--agent-id` is not a UUID.
    InvalidAgentId,
    /// An argument that is no option of the agent.
    UnknownArgument(String),
}

/// The mathematical view of `CliError`.
pub enum CliErrorModel {
    MissingValue(CliFlag),
    EmptyValue(CliFlag),
    InvalidAgentId,
    UnknownArgument(Seq<char>),
}

impl View for CliError {
    type V = CliErrorModel;

    open spec fn view(&self) -> CliErrorModel {
        match self {
            CliError::MissingValue(f) => CliErrorModel::MissingValue(*f),
            CliError::EmptyValue(f) => CliErrorModel::EmptyValue(*f),
            CliError::InvalidAgentId => CliErrorModel::InvalidAgentId,
            CliError::UnknownArgument(a) => CliErrorModel::UnknownArgument(a@),
        }
    }
}

/// The options of an empty command line.
pub open spec fn empty_cli() -> CliModel {
    CliModel {
        daemon: false,
        auth_key: None,
        core_url: None,
        agent_id: None,
        agent_id_file: None,
        forwarded: Seq::empty(),
        help: false,
    }
}

/// Parses `args` from position `i` on, with `acc` holding what the
/// arguments before `i` set. Later options override earlier ones.
pub open spec fn parse_args_from(args: Seq<Seq<char>>, i: int, acc: CliModel) -> Result<
    CliModel,
    CliErrorModel,
>
    decreases args.len() - i,
{
    if i < 0 || i >= args.len() {
        Ok(acc)
    } else {
        let a = args[i];
        if a == "-h"@ || a == "--help"@ {
            parse_args_from(args, i + 1, CliModel { help: true, ..acc })
        } else if a == "--daemon"@ {
            parse_args_from(args, i + 1, CliModel { daemon: true, ..acc })
        } else if a == "--auth-key"@ {
            if i + 1 >= args.len() {
                Err(CliErrorModel::MissingValue(CliFlag::AuthKey))
            } else if trim(args[i + 1]).len() == 0 {
                Err(CliErrorModel::EmptyValue(CliFlag::AuthKey))
            } else {
                parse_args_from(
                    args,
                    i + 2,
                    CliModel {
                        auth_key: Some(trim(args[i + 1])),
                        forwarded: acc.forwarded + seq![a, args[i + 1]],
                        ..acc
                    },
                )
            }
        } else if a == "--core-url"@ {
            if i + 1 >= args.len() {
                Err(CliErrorModel::MissingValue(CliFlag::CoreUrl))
            } else if trim(args[i + 1]).len() == 0 {
                Err(CliErrorModel::EmptyValue(CliFlag::CoreUrl))
            } else {
                parse_args_from(
                    args,
                    i + 2,
                    CliModel {
                        core_url: Some(trim(args[i + 1])),
                        forwarded: acc.forwarded + seq![a, args[i + 1]],
                        ..acc
                    },
                )
            }
        } else if a == "--agent-id"@ {
            if i + 1 >= args.len() {
                Err(CliErrorModel::MissingValue(CliFlag::AgentId))
            } else {
                match uuid_parse(trim(args[i + 1])) {
                    None => Err(CliErrorModel::InvalidAgentId),
                    Some(id) => parse_args_from(
                        args,
                        i + 2,
                        CliModel {
                            agent_id: Some(id),
                            forwarded: acc.forwarded + seq![a, args[i + 1]],
                            ..acc
                        },
                    ),
                }
            }
        } else if a == "--agent-id-file"@ {
            if i + 1 >= args.len() {
                Err(CliErrorModel::MissingValue(CliFlag::AgentIdFile))
            } else {
                parse_args_from(
                    args,
                    i + 2,
                    CliModel {
                        agent_id_file: Some(args[i + 1]),
                        forwarded: acc.forwarded + seq![a, args[i + 1]],
                        ..acc
                    },
                )
            }
        } else {
            Err(CliErrorModel::UnknownArgument(a))
        }
    }
}

/// What the agent makes of its command line `args` (the program name
/// excluded).
pub open spec fn parse_args(args: Seq<Seq<char>>) -> Result<CliModel, CliErrorModel> {
    parse_args_from(args, 0, empty_cli())
}

/// Parses the command line `args` (the program name excluded, each argument
/// converted to text).
pub fn parse_cli_args(args: &Vec<String>) -> (r: Result<CliOptions, CliError>)
    ensures
        match (r, parse_args(string_views(args@))) {
            (Ok(o), Ok(m)) => o@ == m,
            (Err(e), Err(m)) => e@ == m,
            _ => false,
        },
{
    let ghost views = string_views(args@);
    let mut cli = CliOptions {
        daemon: false,
        auth_key: None,
        core_url: None,
        agent_id: None,
        agent_id_file: None,
        forwarded_args: Vec::new(),
        help: false,
    };
    assert(cli@.forwarded =~= Seq::<Seq<char>>::empty());
    assert(cli@ == empty_cli());
    let mut i: usize = 0;
    while i < args.len()
        invariant
            i <= args.len(),
            views == string_views(args@),
            parse_args(views) == parse_args_from(views, i as int, cli@),
        decreases args.len() - i,
    {
        let a = chars_of(args[i].as_str());
        let ghost acc = cli@;
        assert(views[i as int] == a@);
        if chars_eq(&a, "-h") || chars_eq(&a, "--help") {
            cli.help = true;
            i = i + 1;
        } else if chars_eq(&a, "--daemon") {
            cli.daemon = true;
            i = i + 1;
        } else if chars_eq(&a, "--auth-key") || chars_eq(&a, "--core-url") || chars_eq(
            &a,
            "--agent-id",
        ) || chars_eq(&a, "--agent-id-file") {
            let flag = if chars_eq(&a, "--auth-key") {
                CliFlag::AuthKey
            } else if chars_eq(&a, "--core-url") {
                CliFlag::CoreUrl
            } else if chars_eq(&a, "--agent-id") {
                CliFlag::AgentId
            } else {
                CliFlag::AgentIdFile
            };
            if i + 1 >= args.len() {
                return Err(CliError::MissingValue(flag));
            }
            let next = chars_of(args[i + 1].as_str());
            assert(views[i + 1] == next@);
            let value = trim_chars(&next);
            if flag == CliFlag::AuthKey || flag == CliFlag::CoreUrl {
                if value.len() == 0 {
                    return Err(CliError::EmptyValue(flag));
                }
                if flag == CliFlag::AuthKey {
                    cli.auth_key = Some(string_of(&value));
                } else {
                    cli.core_url = Some(string_of(&value));
                }
            } else if flag == CliFlag::AgentId {
                let text = string_of(&value);
                match uuid_parse_str(text.as_str()) {
                    Some(id) => {
                        cli.agent_id = Some(id);
                    },
                    None => {
                        return Err(CliError::InvalidAgentId);
                    },
                }
            } else {
                cli.agent_id_file = Some(string_of(&next));
            }
            let ghost fwd_before = cli.forwarded_args@;
            cli.forwarded_args.push(string_of(&a));
            cli.forwarded_args.push(string_of(&next));
            assert(string_views(cli.forwarded_args@) =~= string_views(fwd_before) + seq![
                a@,
                next@,
            ]);
            i = i + 2;
        } else {
            return Err(CliError::UnknownArgument(string_of(&a)));
        }
    }
    Ok(cli)
}

/// The message the agent stops with when it refuses its command line.
pub open spec fn cli_error_text(e: CliErrorModel) -> Seq<char> {
    match e {
        CliErrorModel::MissingValue(CliFlag::AuthKey) => "--auth-key requires a value"@,
        CliErrorModel::MissingValue(CliFlag::CoreUrl) => "--core-url requires a value"@,
        CliErrorModel::MissingValue(CliFlag::AgentId) => "--agent-id requires a UUID"@,
        CliErrorModel::MissingValue(CliFlag::AgentIdFile) => "--agent-id-file requires a path"@,
        CliErrorModel::EmptyValue(CliFlag::AuthKey) => "--auth-key requires a non-empty value"@,
        CliErrorModel::EmptyValue(CliFlag::CoreUrl) => "--core-url requires a non-empty value"@,
        CliErrorModel::EmptyValue(CliFlag::AgentId) => "--agent-id requires a non-empty value"@,
        CliErrorModel::EmptyValue(CliFlag::AgentIdFile) => "--agent-id-file requires a non-empty value"@,
        CliErrorModel::InvalidAgentId => "--agent-id must be a UUID"@,
        CliErrorModel::UnknownArgument(a) => "unknown argument: "@ + a,
    }
}

impl CliError {
    /// The error's message.
    pub fn message(&self) -> (s: String)
        ensures
            s@ == cli_error_text(self@),
    {
        let mut s = String::new();
        let text = match self {
            CliError::MissingValue(CliFlag::AuthKey) => "--auth-key requires a value",
            CliError::MissingValue(CliFlag::CoreUrl) => "--core-url requires a value",
            CliError::MissingValue(CliFlag::AgentId) => "--agent-id requires a UUID",
            CliError::MissingValue(CliFlag::AgentIdFile) => "--agent-id-file requires a path",
            CliError::EmptyValue(CliFlag::AuthKey) => "--auth-key requires a non-empty value",
            CliError::EmptyValue(CliFlag::CoreUrl) => "--core-url requires a non-empty value",
            CliError::EmptyValue(CliFlag::AgentId) => "--agent-id requires a non-empty value",
            CliError::EmptyValue(CliFlag::AgentIdFile) => "--agent-id-file requires a non-empty value",
            CliError::InvalidAgentId => "--agent-id must be a UUID",
            CliError::UnknownArgument(_) => "unknown argument: ",
        };
        push_str(&mut s, text);
        if let CliError::UnknownArgument(a) = self {
            push_str(&mut s, a.as_str());
        }
        assert(s@ =~= cli_error_text(self@));
        s
    }
}

/// Whether the agent runs as the child of a daemonising parent: the marker
/// variable `VOIDMETRICS_DAEMON_CHILD` holds exactly `1`.
pub fn daemon_child_mode(marker: Option<&str>) -> (b: bool)
    ensures
        b == (marker matches Some(m) && m@ == "1"@),
{
    match marker {
        Some(m) => {
            let v = chars_of(m);
            chars_eq(&v, "1")
        },
        None => false,
    }
}

/// Whether the agent should start a background copy of itself and exit:
/// `--daemon` was given and this process is not already that copy.
pub fn should_spawn_daemon(cli: &CliOptions, daemon_child: bool) -> (b: bool)
    ensures
        b == (cli.daemon && !daemon_child),
{
    cli.daemon && !daemon_child
}

/// The settings part of the options: what the agent is configured with.
pub open spec fn settings(m: CliModel) -> (
    Option<Seq<char>>,
    Option<Seq<char>>,
    Option<u128>,
    Option<Seq<char>>,
) {
    (m.auth_key, m.core_url, m.agent_id, m.agent_id_file)
}

proof fn lemma_forwarded_replay(
    args: Seq<Seq<char>>,
    i: int,
    acc: CliModel,
    g: Seq<Seq<char>>,
    j: int,
    bcc: CliModel,
)
    requires
        0 <= i,
        0 <= j <= g.len(),
        parse_args_from(args, i, acc) is Ok,
        settings(bcc) == settings(acc),
        ({
            let r = parse_args_from(args, i, acc)->Ok_0;
            acc.forwarded.len() <= r.forwarded.len() && g.skip(j) == r.forwarded.skip(
                acc.forwarded.len() as int,
            )
        }),
    ensures
        ({
            let r = parse_args_from(args, i, acc)->Ok_0;
            &&& parse_args_from(g, j, bcc) is Ok
            &&& settings(parse_args_from(g, j, bcc)->Ok_0) == settings(r)
            &&& parse_args_from(g, j, bcc)->Ok_0.forwarded == bcc.forwarded + g.skip(j)
            &&& parse_args_from(g, j, bcc)->Ok_0.daemon == bcc.daemon
            &&& parse_args_from(g, j, bcc)->Ok_0.help == bcc.help
        }),
    decreases args.len() - i,
{
    let r = parse_args_from(args, i, acc)->Ok_0;
    if i >= args.len() {
        assert(g.skip(j).len() == 0);
        assert(bcc.forwarded + g.skip(j) =~= bcc.forwarded);
    } else {
        let a = args[i];
        if a == "-h"@ || a == "--help"@ {
            lemma_forwarded_replay(args, i + 1, CliModel { help: true, ..acc }, g, j, bcc);
        } else if a == "--daemon"@ {
            lemma_forwarded_replay(args, i + 1, CliModel { daemon: true, ..acc }, g, j, bcc);
        } else {
            let v = args[i + 1];
            let acc2 = parse_args_step_acc(args, i, acc);
            assert(parse_args_from(args, i, acc) == parse_args_from(args, i + 2, acc2));
            lemma_forwarded_prefix(args, i + 2, acc2);
            assert(acc2.forwarded == acc.forwarded + seq![a, v]);
            assert(r.forwarded =~= r.forwarded.take(acc2.forwarded.len() as int) + r.forwarded.skip(
                acc2.forwarded.len() as int,
            ));
            assert(r.forwarded.skip(acc.forwarded.len() as int) =~= seq![a, v] + r.forwarded.skip(
                acc2.forwarded.len() as int,
            ));
            assert(g.skip(j)[0] == a);
            assert(g.skip(j)[1] == v);
            assert(g[j] == a);
            assert(g[j + 1] == v);
            assert(parse_args_from(g, j, bcc) == parse_args_from(g, j + 2, parse_args_step_acc(g, j, bcc)));
            assert(g.skip(j + 2) =~= g.skip(j).skip(2));
            let rest = r.forwarded.skip(acc2.forwarded.len() as int);
            assert((seq![a, v] + rest).skip(2) =~= rest);
            assert(g.skip(j + 2) == rest);
            let bcc2 = parse_args_step_acc(g, j, bcc);
            assert(bcc2.forwarded == bcc.forwarded + seq![a, v]);
            lemma_forwarded_replay(args, i + 2, acc2, g, j + 2, bcc2);
            assert(bcc2.forwarded + g.skip(j + 2) =~= bcc.forwarded + g.skip(j));
        }
    }
}

/// The options after one accepted option that takes a value at `i`.
spec fn parse_args_step_acc(args: Seq<Seq<char>>, i: int, acc: CliModel) -> CliModel {
    let a = args[i];
    let v = args[i + 1];
    if a == "--auth-key"@ {
        CliModel { auth_key: Some(trim(v)), forwarded: acc.forwarded + seq![a, v], ..acc }
    } else if a == "--core-url"@ {
        CliModel { core_url: Some(trim(v)), forwarded: acc.forwarded + seq![a, v], ..acc }
    } else if a == "--agent-id"@ {
        CliModel {
            agent_id: uuid_parse(trim(v)),
            forwarded: acc.forwarded + seq![a, v],
            ..acc
        }
    } else {
        CliModel { agent_id_file: Some(v), forwarded: acc.forwarded + seq![a, v], ..acc }
    }
}

proof fn lemma_forwarded_prefix(args: Seq<Seq<char>>, i: int, acc: CliModel)
    requires
        0 <= i,
        parse_args_from(args, i, acc) is Ok,
    ensures
        acc.forwarded.len() <= parse_args_from(args, i, acc)->Ok_0.forwarded.len(),
        parse_args_from(args, i, acc)->Ok_0.forwarded.take(acc.forwarded.len() as int)
            == acc.forwarded,
    decreases args.len() - i,
{
    let r = parse_args_from(args, i, acc)->Ok_0;
    if i < args.len() {
        let a = args[i];
        if a == "-h"@ || a == "--help"@ {
            lemma_forwarded_prefix(args, i + 1, CliModel { help: true, ..acc });
        } else if a == "--daemon"@ {
            lemma_forwarded_prefix(args, i + 1, CliModel { daemon: true, ..acc });
        } else {
            let acc2 = parse_args_step_acc(args, i, acc);
            assert(parse_args_from(args, i, acc) == parse_args_from(args, i + 2, acc2));
            lemma_forwarded_prefix(args, i + 2, acc2);
            assert(r.forwarded.take(acc.forwarded.len() as int) =~= r.forwarded.take(
                acc2.forwarded.len() as int,
            ).take(acc.forwarded.len() as int));
            assert(acc2.forwarded.take(acc.forwarded.len() as int) =~= acc.forwarded);
        }
    } else {
        assert(r.forwarded.take(acc.forwarded.len() as int) =~= acc.forwarded);
    }
}

proof fn lemma_option_names_differ()
    ensures
        "--auth-key"@ != "-h"@ && "--auth-key"@ != "--help"@ && "--auth-key"@ != "--daemon"@,
        "--core-url"@ != "-h"@ && "--core-url"@ != "--help"@ && "--core-url"@ != "--daemon"@
            && "--core-url"@ != "--auth-key"@,
        "--agent-id-file"@ != "-h"@ && "--agent-id-file"@ != "--help"@ && "--agent-id-file"@
            != "--daemon"@ && "--agent-id-file"@ != "--auth-key"@ && "--agent-id-file"@
            != "--core-url"@ && "--agent-id-file"@ != "--agent-id"@,
{
    reveal_strlit("-h");
    reveal_strlit("--help");
    reveal_strlit("--daemon");
    reveal_strlit("--auth-key");
    reveal_strlit("--core-url");
    reveal_strlit("--agent-id");
    reveal_strlit("--agent-id-file");
    assert("--auth-key"@.len() == 10);
    assert("--core-url"@.len() == 10);
    assert("--daemon"@.len() == 8);
    assert("--help"@.len() == 6);
    assert("-h"@.len() == 2);
    assert("--agent-id"@.len() == 10);
    assert("--agent-id-file"@.len() == 15);
    assert("--core-url"@[2] != "--auth-key"@[2]);
}

/// Each option that carries a value sets its own setting and no other: the
/// value trimmed for `--auth-key` and `--core-url` (refused when blank), as
/// given for `--agent-id-file`; the option and its value are forwarded as
/// given. An option given twice keeps its later value.
pub proof fn lemma_option_sets_own_setting(v: Seq<char>, w: Seq<char>)
    ensures
        trim(v).len() > 0 ==> parse_args(seq!["--auth-key"@, v]) == Ok::<CliModel, CliErrorModel>(
            CliModel { auth_key: Some(trim(v)), forwarded: seq!["--auth-key"@, v], ..empty_cli() },
        ),
        trim(v).len() > 0 ==> parse_args(seq!["--core-url"@, v]) == Ok::<CliModel, CliErrorModel>(
            CliModel { core_url: Some(trim(v)), forwarded: seq!["--core-url"@, v], ..empty_cli() },
        ),
        trim(v).len() == 0 ==> parse_args(seq!["--core-url"@, v]) == Err::<CliModel, CliErrorModel>(
            CliErrorModel::EmptyValue(CliFlag::CoreUrl),
        ),
        parse_args(seq!["--agent-id-file"@, v]) == Ok::<CliModel, CliErrorModel>(
            CliModel {
                agent_id_file: Some(v),
                forwarded: seq!["--agent-id-file"@, v],
                ..empty_cli()
            },
        ),
        trim(v).len() > 0 && trim(w).len() > 0 ==> (parse_args(
            seq!["--core-url"@, v, "--core-url"@, w],
        ) matches Ok(m) && m.core_url == Some(trim(w))),
{
    lemma_option_names_differ();
    let e = empty_cli();
    let a = seq!["--auth-key"@, v];
    assert(e.forwarded + seq![a[0], a[1]] =~= a);
    assert(parse_args_from(a, 2, CliModel { auth_key: Some(trim(v)), forwarded: a, ..e }) is Ok);
    let c = seq!["--core-url"@, v];
    assert(e.forwarded + seq![c[0], c[1]] =~= c);
    assert(parse_args_from(c, 2, CliModel { core_url: Some(trim(v)), forwarded: c, ..e }) is Ok);
    let f = seq!["--agent-id-file"@, v];
    assert(e.forwarded + seq![f[0], f[1]] =~= f);
    assert(parse_args_from(f, 2, CliModel { agent_id_file: Some(v), forwarded: f, ..e }) is Ok);
    let t = seq!["--core-url"@, v, "--core-url"@, w];
    if trim(v).len() > 0 && trim(w).len() > 0 {
        let m1 = CliModel {
            core_url: Some(trim(v)),
            forwarded: e.forwarded + seq![t[0], t[1]],
            ..e
        };
        let m2 = CliModel {
            core_url: Some(trim(w)),
            forwarded: m1.forwarded + seq![t[2], t[3]],
            ..m1
        };
        assert(parse_args_from(t, 4, m2) == Ok::<CliModel, CliErrorModel>(m2));
        assert(parse_args_from(t, 2, m1) == parse_args_from(t, 4, m2));
        assert(parse_args_from(t, 0, e) == parse_args_from(t, 2, m1));
    }
}

/// A daemonised agent hands its child the forwarded arguments; the child
/// reads them to the same settings (`--auth-key`, `--core-url`,
/// `--agent-id`, `--agent-id-file`) and forwards the same arguments again,
/// and is neither asked to daemonise nor to show help.
pub proof fn lemma_forwarded_args_keep_settings(args: Seq<Seq<char>>)
    requires
        parse_args(args) is Ok,
    ensures
        parse_args(parse_args(args)->Ok_0.forwarded) is Ok,
        settings(parse_args(parse_args(args)->Ok_0.forwarded)->Ok_0) == settings(
            parse_args(args)->Ok_0,
        ),
        parse_args(parse_args(args)->Ok_0.forwarded)->Ok_0.forwarded == parse_args(
            args,
        )->Ok_0.forwarded,
        !parse_args(parse_args(args)->Ok_0.forwarded)->Ok_0.daemon,
        !parse_args(parse_args(args)->Ok_0.forwarded)->Ok_0.help,
{
    let r = parse_args(args)->Ok_0;
    lemma_forwarded_prefix(args, 0, empty_cli());
    assert(r.forwarded.skip(0) =~= r.forwarded);
    lemma_forwarded_replay(args, 0, empty_cli(), r.forwarded, 0, empty_cli());
    assert(empty_cli().forwarded + r.forwarded.skip(0) =~= r.forwarded);
}

} // verus!
