//! The process list of a metrics batch: shortening text, reading the
//! parent of each process from `ps` output, and ranking processes by CPU
//! and memory use.
use vstd::prelude::*;
use vstd::set_lib::{lemma_int_range, lemma_subset_equality, set_int_range};
use std::collections::HashMap;
use crate::cli::{opt_view, string_views};
use crate::settings::AgentConfig;
use crate::text::{
    chars_of, decimal, join, join_with_spaces, lemma_decimal_parses, lines, parse_unsigned,
    parse_unsigned_chars, push_char, split_lines, split_words, string_of, views, words,
};

verus! {

broadcast use vstd::std_specs::hash::group_hash_axioms;

// ---------------------------------------------------------------------------
// Shortening text
// ---------------------------------------------------------------------------

/// `s` shortened to at most `max` characters: kept whole when it fits,
/// else its first `max - 1` characters (none when `max` is 0) and `~`.
pub open spec fn compact(s: Seq<char>, max: nat) -> Seq<char> {
    if s.len() <= max {
        s
    } else {
        s.take(if max > 0 {
            max - 1
        } else {
            0
        }).push('~')
    }
}

/// Shortens `value` to at most `max_chars` characters (at least one
/// character is left of a nonempty value).
pub fn compact_text(value: &str, max_chars: usize) -> (r: String)
    ensures
        r@ == compact(value@, max_chars as nat),
        r@.len() <= value@.len(),
        r@.len() <= if max_chars == 0 {
            1
        } else {
            max_chars as int
        },
{
    let v = chars_of(value);
    if v.len() <= max_chars {
        return string_of(&v);
    }
    let keep = max_chars.saturating_sub(1);
    let mut s = String::new();
    let mut i: usize = 0;
    while i < keep
        invariant
            keep < v.len(),
            i <= keep,
            s@ == v@.take(i as int),
        decreases keep - i,
    {
        push_char(&mut s, v[i]);
        assert(v@.take(i as int + 1) =~= v@.take(i as int).push(v@[i as int]));
        i = i + 1;
    }
    push_char(&mut s, '~');
    s
}

/// Shortening keeps the beginning of a text: a text that fits is kept
/// whole; a longer one becomes exactly `max` characters (one when `max` is
/// 0), its first characters in their order and `~` last.
pub proof fn lemma_compact_keeps_beginning(s: Seq<char>, max: nat)
    ensures
        s.len() <= max ==> compact(s, max) == s,
        s.len() > max ==> compact(s, max).len() == if max > 0 {
            max
        } else {
            1
        },
        s.len() > max ==> compact(s, max).last() == '~',
        s.len() > max ==> forall|i: int|
            0 <= i < compact(s, max).len() - 1 ==> #[trigger] compact(s, max)[i] == s[i],
{
}

/// Shortening is done once: a shortened text is kept as it is.
pub proof fn lemma_compact_idempotent(s: Seq<char>, max: nat)
    ensures
        compact(compact(s, max), max) == compact(s, max),
{
}

/// A path of a process as reported: nothing when paths are not reported,
/// else the path (empty when unknown) shortened to the path limit.
pub open spec fn path_text(path: Option<Seq<char>>, config: AgentConfig) -> Seq<char> {
    if !config.include_paths {
        Seq::empty()
    } else {
        compact(
            match path {
                Some(p) => p,
                None => Seq::empty(),
            },
            config.max_path_length as nat,
        )
    }
}

/// The reported form of a process path.
pub fn process_path(path: Option<&str>, config: &AgentConfig) -> (r: String)
    ensures
        r@ == path_text(
            match path {
                Some(p) => Some(p@),
                None => None,
            },
            *config,
        ),
{
    if !config.include_paths {
        return String::new();
    }
    match path {
        Some(p) => compact_text(p, config.max_path_length),
        None => {
            proof {
                reveal_strlit("");
            }
            compact_text("", config.max_path_length)
        },
    }
}

// ---------------------------------------------------------------------------
// Parents from `ps`
// ---------------------------------------------------------------------------

/// The pair a line of `ps -axo pid=,ppid=` gives: its first two words, when
/// both are `u32` numbers.
pub open spec fn pid_pair(line: Seq<char>) -> Option<(u32, u32)> {
    let w = words(line);
    if w.len() >= 2 && parse_unsigned(w[0], u32::MAX as int) is Some && parse_unsigned(
        w[1],
        u32::MAX as int,
    ) is Some {
        Some(
            (
                parse_unsigned(w[0], u32::MAX as int)->Some_0 as u32,
                parse_unsigned(w[1], u32::MAX as int)->Some_0 as u32,
            ),
        )
    } else {
        None
    }
}

/// A line of `ps` output is read as the process first, then its parent:
/// a line whose first two words are the decimal numbers `pid` and `ppid`
/// gives the pair `(pid, ppid)`.
pub proof fn lemma_pid_pair_reads_pid_then_parent(line: Seq<char>, pid: u32, ppid: u32)
    requires
        words(line).len() >= 2,
        words(line)[0] == decimal(pid as nat),
        words(line)[1] == decimal(ppid as nat),
    ensures
        pid_pair(line) == Some((pid, ppid)),
{
    lemma_decimal_parses(pid as nat, u32::MAX as int);
    lemma_decimal_parses(ppid as nat, u32::MAX as int);
}

/// The parent of each process named by `lines`; a later line for the same
/// process overrides an earlier one.
pub open spec fn pid_map(lines: Seq<Seq<char>>) -> Map<u32, u32>
    decreases lines.len(),
{
    if lines.len() == 0 {
        Map::empty()
    } else {
        let m = pid_map(lines.drop_last());
        match pid_pair(lines.last()) {
            Some(p) => m.insert(p.0, p.1),
            None => m,
        }
    }
}

fn pid_pair_of(line: &Vec<char>) -> (r: Option<(u32, u32)>)
    ensures
        r == pid_pair(line@),
{
    let w = split_words(line);
    if w.len() < 2 {
        return None;
    }
    assert(w@[0]@ == words(line@)[0]);
    assert(w@[1]@ == words(line@)[1]);
    let pid = parse_unsigned_chars(&w[0], u32::MAX as u64);
    let ppid = parse_unsigned_chars(&w[1], u32::MAX as u64);
    match (pid, ppid) {
        (Some(p), Some(q)) => Some((p as u32, q as u32)),
        _ => None,
    }
}

/// The parent of each process as the output of `ps -axo pid=,ppid=` gives
/// it.
pub fn parent_pid_map(ps_output: &str) -> (m: HashMap<u32, u32>)
    ensures
        m@ == pid_map(lines(ps_output@)),
{
    let text = chars_of(ps_output);
    let ls = split_lines(&text);
    let ghost lv = views(ls@);
    let mut m: HashMap<u32, u32> = HashMap::new();
    let mut i: usize = 0;
    assert(lv.take(0) =~= Seq::<Seq<char>>::empty());
    while i < ls.len()
        invariant
            i <= ls.len(),
            lv == views(ls@),
            lv == lines(text@),
            m@ == pid_map(lv.take(i as int)),
        decreases ls.len() - i,
    {
        assert(lv.take(i as int + 1).drop_last() =~= lv.take(i as int));
        assert(lv.take(i as int + 1).last() == ls@[i as int]@);
        match pid_pair_of(&ls[i]) {
            Some((p, q)) => {
                m.insert(p, q);
            },
            None => {},
        }
        i = i + 1;
    }
    assert(lv.take(ls.len() as int) =~= lv);
    m
}

// ---------------------------------------------------------------------------
// Ranking processes
// ---------------------------------------------------------------------------

/// What is known of one process at the time of a sample.
pub struct ProcessSample {
    pub pid: u32,
    /// The parent the process table records.
    pub parent: Option<u32>,
    /// Whether the entry is a thread of another process.
    pub is_thread: bool,
    pub name: String,
    /// The command line, one argument per entry.
    pub cmd: Vec<String>,
    pub exe: Option<String>,
    pub cwd: Option<String>,
    pub root: Option<String>,
    /// The name of the owning user, when known.
    pub user: Option<String>,
    /// The name of the effective user, when known.
    pub effective_user: Option<String>,
    pub group_id: Option<String>,
    pub status: String,
    /// The number of tasks, when known.
    pub tasks: Option<usize>,
    pub memory_bytes: u64,
    pub virtual_memory_bytes: u64,
    /// The CPU usage in percent, as the bits of an `f32`.
    pub cpu_usage_bits: u32,
    pub start_time: u64,
    pub run_time: u64,
    pub disk_read_bytes: u64,
    pub disk_written_bytes: u64,
    pub total_disk_read_bytes: u64,
    pub total_disk_written_bytes: u64,
    /// The number of environment variables.
    pub environment_count: usize,
}

/// One process of a metrics batch.
pub struct ProcessPoint {
    pub pid: u32,
    pub parent_pid: Option<u32>,
    pub name: String,
    pub command: String,
    pub exe: String,
    pub cwd: String,
    pub root: String,
    pub user: String,
    pub effective_user: String,
    pub group_id: String,
    pub status: String,
    pub threads: usize,
    pub memory_bytes: u64,
    pub virtual_memory_bytes: u64,
    /// The CPU usage in percent, as the bits of an `f32`.
    pub cpu_usage_bits: u32,
    pub start_time: u64,
    pub run_time: u64,
    pub disk_read_bytes: u64,
    pub disk_written_bytes: u64,
    pub total_disk_read_bytes: u64,
    pub total_disk_written_bytes: u64,
    pub environment_count: usize,
}

/// The longest process name reported.
pub const MAX_NAME_LENGTH: usize = 96;

/// The rank of an `f32` given by its bits: for values that are not NaN,
/// a larger value has a larger rank, and equal values (`-0.0` and `0.0`
/// among them) have equal ranks.
pub open spec fn cpu_rank(bits: u32) -> u32 {
    if bits == 0x8000_0000 {
        0x8000_0000
    } else if bits >= 0x8000_0000 {
        (0xFFFF_FFFFu32 - bits) as u32
    } else {
        (bits + 0x8000_0000u32) as u32
    }
}

fn cpu_rank_of(bits: u32) -> (r: u32)
    ensures
        r == cpu_rank(bits),
{
    if bits == 0x8000_0000 {
        0x8000_0000
    } else if bits >= 0x8000_0000 {
        0xFFFF_FFFFu32 - bits
    } else {
        bits + 0x8000_0000u32
    }
}

/// Whether `bits` are those of an `f32` number, that is of anything but a
/// NaN (the infinities count as numbers).
pub open spec fn is_number_bits(bits: u32) -> bool {
    bits <= 0x7F80_0000 || (0x8000_0000 <= bits && bits <= 0xFF80_0000)
}

/// Whether `bits` are those of `0.0` or `-0.0`.
pub open spec fn is_zero_bits(bits: u32) -> bool {
    bits == 0 || bits == 0x8000_0000
}

/// Whether the `f32` number with bits `a` is smaller than that with bits
/// `b`, as IEEE 754 orders numbers: a sign bit, then a magnitude that
/// grows with the remaining bits. Of two numbers without the sign bit the
/// one with the larger magnitude is larger; of two with it, the one with
/// the larger magnitude is smaller; a number with the sign bit is smaller
/// than one without, unless both are zero.
pub open spec fn float_less(a: u32, b: u32) -> bool {
    let a_negative = a >= 0x8000_0000;
    let b_negative = b >= 0x8000_0000;
    let a_magnitude = if a_negative {
        a - 0x8000_0000
    } else {
        a as int
    };
    let b_magnitude = if b_negative {
        b - 0x8000_0000
    } else {
        b as int
    };
    if !a_negative && !b_negative {
        a_magnitude < b_magnitude
    } else if a_negative && b_negative {
        a_magnitude > b_magnitude
    } else if a_negative {
        !(is_zero_bits(a) && is_zero_bits(b))
    } else {
        false
    }
}

/// Whether the `f32` numbers with bits `a` and `b` are equal: the same
/// bits, or two zeros.
pub open spec fn float_equal(a: u32, b: u32) -> bool {
    a == b || (is_zero_bits(a) && is_zero_bits(b))
}

/// The CPU rank orders CPU values as numbers do: of two `f32` numbers, the
/// smaller has the smaller rank, and equal numbers have equal ranks.
pub proof fn lemma_cpu_rank_follows_value(a: u32, b: u32)
    requires
        is_number_bits(a),
        is_number_bits(b),
    ensures
        float_less(a, b) <==> cpu_rank(a) < cpu_rank(b),
        float_equal(a, b) <==> cpu_rank(a) == cpu_rank(b),
{
}

/// Whether point `a` shows more CPU, or as much CPU and more memory, than
/// point `b`.
fn point_busier(a: &ProcessPoint, b: &ProcessPoint) -> (r: bool)
    ensures
        r == (cpu_rank(a.cpu_usage_bits) > cpu_rank(b.cpu_usage_bits) || (cpu_rank(
            a.cpu_usage_bits,
        ) == cpu_rank(b.cpu_usage_bits) && a.memory_bytes > b.memory_bytes)),
{
    let ra = cpu_rank_of(a.cpu_usage_bits);
    let rb = cpu_rank_of(b.cpu_usage_bits);
    ra > rb || (ra == rb && a.memory_bytes > b.memory_bytes)
}

/// Whether process `a` ranks strictly above process `b`: more CPU, or as
/// much CPU and more memory.
pub open spec fn busier(a: ProcessSample, b: ProcessSample) -> bool {
    ||| cpu_rank(a.cpu_usage_bits) > cpu_rank(b.cpu_usage_bits)
    ||| cpu_rank(a.cpu_usage_bits) == cpu_rank(b.cpu_usage_bits) && a.memory_bytes
        > b.memory_bytes
}

/// Whether processes `a` and `b` rank the same.
pub open spec fn as_busy(a: ProcessSample, b: ProcessSample) -> bool {
    cpu_rank(a.cpu_usage_bits) == cpu_rank(b.cpu_usage_bits) && a.memory_bytes == b.memory_bytes
}

/// Whether the `x`-th process of `s` comes before the `y`-th in the
/// ranking: it is busier, or as busy and listed earlier.
pub open spec fn ranks_before(s: Seq<ProcessSample>, x: int, y: int) -> bool {
    busier(s[x], s[y]) || (as_busy(s[x], s[y]) && x < y)
}

/// Whether `perm` lists the positions of `s` in ranking order: busiest
/// first, ties in their order in `s`.
pub open spec fn is_ranking(s: Seq<ProcessSample>, perm: Seq<int>) -> bool {
    &&& perm.len() == s.len()
    &&& forall|k: int| 0 <= k < perm.len() ==> 0 <= #[trigger] perm[k] < s.len()
    &&& forall|a: int, b: int|
        0 <= a < b < perm.len() ==> ranks_before(s, #[trigger] perm[a], #[trigger] perm[b])
}

/// The processes that are reported: those that are not threads.
pub open spec fn candidates(samples: Seq<ProcessSample>) -> Seq<ProcessSample> {
    samples.filter(|s: ProcessSample| !s.is_thread)
}

/// How many of `n` ranked processes are reported.
pub open spec fn shown_count(n: int, config: AgentConfig) -> int {
    if !config.send_all_processes && n > config.process_limit {
        config.process_limit as int
    } else {
        n
    }
}

/// The text of a known value, else `-`.
pub open spec fn or_dash(v: Option<Seq<char>>) -> Seq<char> {
    match v {
        Some(t) => t,
        None => "-"@,
    }
}

/// The command of a process as reported before shortening: its arguments
/// joined by spaces, or its executable when it has no arguments.
pub open spec fn command_text(s: ProcessSample) -> Seq<char> {
    if s.cmd@.len() == 0 {
        match s.exe {
            Some(e) => e@,
            None => Seq::empty(),
        }
    } else {
        join(string_views(s.cmd@), seq![' '])
    }
}

/// The parent reported for `s`: the one `ps` gave, else the one in the
/// process table; never 0 and never the process itself.
pub open spec fn chosen_parent(s: ProcessSample, parents: Map<u32, u32>) -> Option<u32> {
    let cand = if parents.contains_key(s.pid) {
        Some(parents[s.pid])
    } else {
        s.parent
    };
    match cand {
        Some(q) => if q > 0 && q != s.pid {
            Some(q)
        } else {
            None
        },
        None => None,
    }
}

/// Whether `p` is how process `s` is reported.
pub open spec fn point_matches(
    p: ProcessPoint,
    s: ProcessSample,
    parents: Map<u32, u32>,
    config: AgentConfig,
) -> bool {
    &&& p.pid == s.pid
    &&& p.parent_pid == chosen_parent(s, parents)
    &&& p.name@ == compact(s.name@, MAX_NAME_LENGTH as nat)
    &&& p.command@ == if config.include_command {
        compact(command_text(s), config.max_command_length as nat)
    } else {
        Seq::<char>::empty()
    }
    &&& p.exe@ == path_text(opt_view(s.exe), config)
    &&& p.cwd@ == path_text(opt_view(s.cwd), config)
    &&& p.root@ == path_text(opt_view(s.root), config)
    &&& p.user@ == or_dash(opt_view(s.user))
    &&& p.effective_user@ == or_dash(opt_view(s.effective_user))
    &&& p.group_id@ == or_dash(opt_view(s.group_id))
    &&& p.status@ == s.status@
    &&& p.threads == match s.tasks {
        Some(n) => n,
        None => 1,
    }
    &&& p.memory_bytes == s.memory_bytes
    &&& p.virtual_memory_bytes == s.virtual_memory_bytes
    &&& p.cpu_usage_bits == s.cpu_usage_bits
    &&& p.start_time == s.start_time
    &&& p.run_time == s.run_time
    &&& p.disk_read_bytes == s.disk_read_bytes
    &&& p.disk_written_bytes == s.disk_written_bytes
    &&& p.total_disk_read_bytes == s.total_disk_read_bytes
    &&& p.total_disk_written_bytes == s.total_disk_written_bytes
    &&& p.environment_count == if config.include_environment_count {
        s.environment_count
    } else {
        0
    }
}

fn text_or_dash(v: &Option<String>) -> (r: String)
    ensures
        r@ == or_dash(opt_view(*v)),
{
    match v {
        Some(t) => t.clone(),
        None => {
            let mut d = String::new();
            push_char(&mut d, '-');
            proof {
                reveal_strlit("-");
            }
            assert(d@ =~= "-"@);
            d
        },
    }
}

fn opt_path(v: &Option<String>) -> (r: Option<&str>)
    ensures
        match r {
            Some(p) => opt_view(*v) == Some(p@),
            None => *v is None,
        },
{
    match v {
        Some(p) => Some(p.as_str()),
        None => None,
    }
}

/// How process `s` is reported.
pub fn process_point(s: &ProcessSample, parents: &HashMap<u32, u32>, config: &AgentConfig) -> (p:
    ProcessPoint)
    ensures
        point_matches(p, *s, parents@, *config),
        p.pid == s.pid,
        p.status@ == s.status@,
        p.memory_bytes == s.memory_bytes,
        p.virtual_memory_bytes == s.virtual_memory_bytes,
        p.cpu_usage_bits == s.cpu_usage_bits,
        p.start_time == s.start_time,
        p.run_time == s.run_time,
        p.disk_read_bytes == s.disk_read_bytes,
        p.disk_written_bytes == s.disk_written_bytes,
        p.total_disk_read_bytes == s.total_disk_read_bytes,
        p.total_disk_written_bytes == s.total_disk_written_bytes,
{
    let command = if config.include_command {
        let full = if s.cmd.len() == 0 {
            match &s.exe {
                Some(e) => e.clone(),
                None => String::new(),
            }
        } else {
            let joined = join_with_spaces(&s.cmd);
            string_of(&joined)
        };
        compact_text(full.as_str(), config.max_command_length)
    } else {
        String::new()
    };
    let pid = s.pid;
    let cand = match parents.get(&pid) {
        Some(q) => Some(*q),
        None => s.parent,
    };
    let parent_pid = match cand {
        Some(q) => if q > 0 && q != pid {
            Some(q)
        } else {
            None
        },
        None => None,
    };
    let threads = match s.tasks {
        Some(n) => n,
        None => 1,
    };
    ProcessPoint {
        pid,
        parent_pid,
        name: compact_text(s.name.as_str(), MAX_NAME_LENGTH),
        command,
        exe: process_path(opt_path(&s.exe), config),
        cwd: process_path(opt_path(&s.cwd), config),
        root: process_path(opt_path(&s.root), config),
        user: text_or_dash(&s.user),
        effective_user: text_or_dash(&s.effective_user),
        group_id: text_or_dash(&s.group_id),
        status: s.status.clone(),
        threads,
        memory_bytes: s.memory_bytes,
        virtual_memory_bytes: s.virtual_memory_bytes,
        cpu_usage_bits: s.cpu_usage_bits,
        start_time: s.start_time,
        run_time: s.run_time,
        disk_read_bytes: s.disk_read_bytes,
        disk_written_bytes: s.disk_written_bytes,
        total_disk_read_bytes: s.total_disk_read_bytes,
        total_disk_written_bytes: s.total_disk_written_bytes,
        environment_count: if config.include_environment_count {
            s.environment_count
        } else {
            0
        },
    }
}

/// The process list of a batch: every process that is not a thread,
/// reported as `process_point` gives it, busiest first (more CPU, then more
/// memory; ties in sample order), cut to the process limit unless all
/// processes are to be sent.
pub fn top_processes(
    samples: &Vec<ProcessSample>,
    parents: &HashMap<u32, u32>,
    config: &AgentConfig,
) -> (out: Vec<ProcessPoint>)
    ensures
        exists|perm: Seq<int>|
            {
                &&& is_ranking(candidates(samples@), perm)
                &&& out@.len() == shown_count(candidates(samples@).len() as int, *config)
                &&& forall|k: int|
                    0 <= k < out@.len() ==> point_matches(
                        #[trigger] out@[k],
                        candidates(samples@)[perm[k]],
                        parents@,
                        *config,
                    )
            },
        forall|i: int, j: int|
            0 <= i < j < out@.len() && is_number_bits(#[trigger] out@[i].cpu_usage_bits)
                && is_number_bits(#[trigger] out@[j].cpu_usage_bits) ==> !float_less(
                out@[i].cpu_usage_bits,
                out@[j].cpu_usage_bits,
            ) && (float_equal(out@[i].cpu_usage_bits, out@[j].cpu_usage_bits)
                ==> out@[i].memory_bytes >= out@[j].memory_bytes),
{
    let mut out: Vec<ProcessPoint> = Vec::new();
    let ghost mut cs: Seq<ProcessSample> = Seq::empty();
    let ghost mut perm: Seq<int> = Seq::empty();
    let mut i: usize = 0;
    assert(samples@.take(0) =~= Seq::<ProcessSample>::empty());
    proof {
        reveal_with_fuel(Seq::filter, 1);
    }
    while i < samples.len()
        invariant
            i <= samples.len(),
            cs == candidates(samples@.take(i as int)),
            out@.len() == cs.len(),
            is_ranking(cs, perm),
            forall|k: int|
                0 <= k < out@.len() ==> point_matches(
                    #[trigger] out@[k],
                    cs[perm[k]],
                    parents@,
                    *config,
                ),
        decreases samples.len() - i,
    {
        let s = &samples[i];
        assert(samples@.take(i as int + 1).drop_last() =~= samples@.take(i as int));
        assert(samples@.take(i as int + 1).last() == *s);
        proof {
            reveal_with_fuel(Seq::filter, 1);
        }
        if !s.is_thread {
            let p = process_point(s, parents, config);
            let m = out.len();
            let ghost cs2 = cs.push(*s);
            let mut pos: usize = 0;
            while pos < out.len() && !point_busier(&p, &out[pos])
                invariant
                    pos <= out@.len(),
                    out@.len() == cs.len(),
                    m == out@.len(),
                    cs2 == cs.push(*s),
                    p.cpu_usage_bits == s.cpu_usage_bits,
                    p.memory_bytes == s.memory_bytes,
                    is_ranking(cs, perm),
                    forall|k: int|
                        0 <= k < out@.len() ==> point_matches(
                            #[trigger] out@[k],
                            cs[perm[k]],
                            parents@,
                            *config,
                        ),
                    forall|k: int| 0 <= k < pos ==> !busier(*s, cs[#[trigger] perm[k]]),
                decreases out@.len() - pos,
            {
                assert(point_matches(out@[pos as int], cs[perm[pos as int]], parents@, *config));
                pos = pos + 1;
            }
            let ghost old_out = out@;
            let ghost old_perm = perm;
            let ghost old_cs = cs;
            proof {
                if pos < out@.len() {
                    assert(point_matches(
                        out@[pos as int],
                        cs[perm[pos as int]],
                        parents@,
                        *config,
                    ));
                    assert(busier(*s, cs[perm[pos as int]]));
                }
                let perm2 = perm.insert(pos as int, m as int);
                assert forall|k: int| 0 <= k < perm2.len() implies 0 <= #[trigger] perm2[k]
                    < cs2.len() by {
                    if k < pos {
                        assert(perm2[k] == perm[k]);
                    } else if k > pos {
                        assert(perm2[k] == perm[k - 1]);
                    }
                }
                assert forall|a: int, b: int| 0 <= a < b < perm2.len() implies ranks_before(
                    cs2,
                    #[trigger] perm2[a],
                    #[trigger] perm2[b],
                ) by {
                    if a < pos && b < pos {
                        assert(perm2[a] == perm[a] && perm2[b] == perm[b]);
                        assert(ranks_before(cs, perm[a], perm[b]));
                    } else if a < pos && b == pos {
                        assert(perm2[a] == perm[a]);
                        assert(!busier(*s, cs[perm[a]]));
                    } else if a < pos && b > pos {
                        assert(perm2[a] == perm[a] && perm2[b] == perm[b - 1]);
                        assert(ranks_before(cs, perm[a], perm[b - 1]));
                    } else if a == pos {
                        assert(perm2[b] == perm[b - 1]);
                        if b - 1 > pos {
                            assert(ranks_before(cs, perm[pos as int], perm[b - 1]));
                        }
                    } else {
                        assert(perm2[a] == perm[a - 1] && perm2[b] == perm[b - 1]);
                        assert(ranks_before(cs, perm[a - 1], perm[b - 1]));
                    }
                }
                perm = perm2;
                cs = cs2;
            }
            out.insert(pos, p);
            assert forall|k: int| 0 <= k < out@.len() implies point_matches(
                #[trigger] out@[k],
                cs[perm[k]],
                parents@,
                *config,
            ) by {
                if k < pos {
                    assert(out@[k] == old_out[k]);
                    assert(perm[k] == old_perm[k]);
                    assert(point_matches(old_out[k], old_cs[old_perm[k]], parents@, *config));
                } else if k > pos {
                    assert(out@[k] == old_out[k - 1]);
                    assert(perm[k] == old_perm[k - 1]);
                    assert(point_matches(
                        old_out[k - 1],
                        old_cs[old_perm[k - 1]],
                        parents@,
                        *config,
                    ));
                } else {
                    assert(perm[k] == m);
                }
            }
        }
        i = i + 1;
    }
    assert(samples@.take(samples.len() as int) =~= samples@);
    if !config.send_all_processes && out.len() > config.process_limit {
        out.truncate(config.process_limit);
    }
    assert(is_ranking(candidates(samples@), perm));
    proof {
        lemma_ranked_points_busiest_first(candidates(samples@), perm, out@, parents@, *config);
    }
    out
}

/// Points listed in ranking order show CPU values that never grow down the
/// list: a point never shows a smaller number than a later one, and with an
/// equal number it never shows less memory.
pub proof fn lemma_ranked_points_busiest_first(
    s: Seq<ProcessSample>,
    perm: Seq<int>,
    pts: Seq<ProcessPoint>,
    parents: Map<u32, u32>,
    config: AgentConfig,
)
    requires
        is_ranking(s, perm),
        pts.len() <= perm.len(),
        forall|k: int|
            0 <= k < pts.len() ==> point_matches(#[trigger] pts[k], s[perm[k]], parents, config),
    ensures
        forall|i: int, j: int|
            0 <= i < j < pts.len() && is_number_bits(#[trigger] pts[i].cpu_usage_bits)
                && is_number_bits(#[trigger] pts[j].cpu_usage_bits) ==> !float_less(
                pts[i].cpu_usage_bits,
                pts[j].cpu_usage_bits,
            ) && (float_equal(pts[i].cpu_usage_bits, pts[j].cpu_usage_bits)
                ==> pts[i].memory_bytes >= pts[j].memory_bytes),
{
    assert forall|i: int, j: int|
        0 <= i < j < pts.len() && is_number_bits(#[trigger] pts[i].cpu_usage_bits)
            && is_number_bits(#[trigger] pts[j].cpu_usage_bits) implies !float_less(
            pts[i].cpu_usage_bits,
            pts[j].cpu_usage_bits,
        ) && (float_equal(pts[i].cpu_usage_bits, pts[j].cpu_usage_bits)
            ==> pts[i].memory_bytes >= pts[j].memory_bytes) by {
        assert(point_matches(pts[i], s[perm[i]], parents, config));
        assert(point_matches(pts[j], s[perm[j]], parents, config));
        assert(ranks_before(s, perm[i], perm[j]));
        lemma_cpu_rank_follows_value(pts[i].cpu_usage_bits, pts[j].cpu_usage_bits);
    }
}

proof fn lemma_ranking_distinct(s: Seq<ProcessSample>, p: Seq<int>)
    requires
        is_ranking(s, p),
    ensures
        p.no_duplicates(),
{
    assert forall|a: int, b: int| 0 <= a < p.len() && 0 <= b < p.len() && a != b implies p[a]
        != p[b] by {
        if a < b {
            assert(ranks_before(s, p[a], p[b]));
        } else {
            assert(ranks_before(s, p[b], p[a]));
        }
    }
}

proof fn lemma_ranking_covers(s: Seq<ProcessSample>, p: Seq<int>, x: int)
    requires
        is_ranking(s, p),
        0 <= x < s.len(),
    ensures
        exists|m: int| 0 <= m < p.len() && p[m] == x,
{
    lemma_ranking_distinct(s, p);
    p.unique_seq_to_set();
    let range = set_int_range(0, s.len() as int);
    lemma_int_range(0, s.len() as int);
    assert(p.to_set().subset_of(range)) by {
        assert forall|v: int| p.to_set().contains(v) implies range.contains(v) by {
            let m = choose|m: int| 0 <= m < p.len() && p[m] == v;
            assert(0 <= p[m] < s.len());
        }
    }
    vstd::seq_lib::seq_to_set_is_finite(p);
    lemma_subset_equality(p.to_set(), range);
    assert(range.contains(x));
    assert(p.to_set().contains(x));
}

proof fn lemma_rankings_agree_upto(s: Seq<ProcessSample>, p: Seq<int>, q: Seq<int>, k: int)
    requires
        is_ranking(s, p),
        is_ranking(s, q),
        0 <= k < s.len(),
    ensures
        forall|j: int| 0 <= j <= k ==> p[j] == q[j],
    decreases k,
{
    if k > 0 {
        lemma_rankings_agree_upto(s, p, q, k - 1);
    }
    let x = p[k];
    let y = q[k];
    if x != y {
        lemma_ranking_covers(s, p, y);
        lemma_ranking_covers(s, q, x);
        let m = choose|m: int| 0 <= m < p.len() && p[m] == y;
        let n = choose|n: int| 0 <= n < q.len() && q[n] == x;
        lemma_ranking_distinct(s, p);
        lemma_ranking_distinct(s, q);
        if m < k {
            assert(q[m] == p[m]);
        }
        if n < k {
            assert(p[n] == q[n]);
        }
        assert(m > k && n > k);
        assert(ranks_before(s, p[k], p[m]));
        assert(ranks_before(s, q[k], q[n]));
    }
}

/// The ranking of a list of processes is unique: busiest first, ties in
/// their order in the list, leaves no choice. So `top_processes` reports
/// exactly one order.
pub proof fn lemma_ranking_unique(s: Seq<ProcessSample>, p: Seq<int>, q: Seq<int>)
    requires
        is_ranking(s, p),
        is_ranking(s, q),
    ensures
        p == q,
{
    if s.len() > 0 {
        lemma_rankings_agree_upto(s, p, q, s.len() - 1);
    }
    assert(p =~= q);
}

/// A reported process carries its sample's counters unchanged: its pid,
/// status, resident and virtual memory, CPU value, start and run time, and
/// disk counters.
pub proof fn lemma_point_keeps_counters(
    p: ProcessPoint,
    s: ProcessSample,
    parents: Map<u32, u32>,
    config: AgentConfig,
)
    requires
        point_matches(p, s, parents, config),
    ensures
        p.pid == s.pid,
        p.status@ == s.status@,
        p.memory_bytes == s.memory_bytes,
        p.virtual_memory_bytes == s.virtual_memory_bytes,
        p.cpu_usage_bits == s.cpu_usage_bits,
        p.start_time == s.start_time,
        p.run_time == s.run_time,
        p.disk_read_bytes == s.disk_read_bytes,
        p.disk_written_bytes == s.disk_written_bytes,
        p.total_disk_read_bytes == s.total_disk_read_bytes,
        p.total_disk_written_bytes == s.total_disk_written_bytes,
{
}

/// The parent that `ps` gave is preferred: when `ps` named a parent other
/// than 0 and the process itself, that parent is reported; when `ps` named
/// none, the one from the process table is.
pub proof fn lemma_parent_from_ps_first(s: ProcessSample, parents: Map<u32, u32>)
    ensures
        parents.contains_key(s.pid) && parents[s.pid] > 0 && parents[s.pid] != s.pid
            ==> chosen_parent(s, parents) == Some(parents[s.pid]),
        !parents.contains_key(s.pid) && (s.parent matches Some(q) && q > 0 && q != s.pid)
            ==> chosen_parent(s, parents) == s.parent,
{
}

/// The parent reported for a process is never 0 and never the process
/// itself.
pub proof fn lemma_reported_parent_valid(s: ProcessSample, parents: Map<u32, u32>)
    ensures
        chosen_parent(s, parents) matches Some(q) ==> q > 0 && q != s.pid,
{
}

} // verus!
