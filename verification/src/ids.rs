//! The agent's identity: UUID text, and choosing, persisting and reloading
//! the agent id.
//!
//! An agent id is held as the 128-bit value of its UUID (most significant
//! byte first, as `Uuid::as_u128` gives it).
use vstd::arithmetic::div_mod::*;
use vstd::arithmetic::power::*;
use vstd::prelude::*;
use crate::text::{
    ascii_lowercase, digit_char, is_blank, is_whitespace, lemma_trim_drops_trailing, push_char,
    string_of, trim, trim_str,
};

verus! {

// ---------------------------------------------------------------------------
// UUID text
// ---------------------------------------------------------------------------

/// The lower-case hexadecimal digit for `d < 16`.
pub open spec fn hex_char(d: int) -> char {
    if d < 10 {
        digit_char(d)
    } else if d == 10 {
        'a'
    } else if d == 11 {
        'b'
    } else if d == 12 {
        'c'
    } else if d == 13 {
        'd'
    } else if d == 14 {
        'e'
    } else {
        'f'
    }
}

/// Whether `c` is a hexadecimal digit of either case.
pub open spec fn is_hex(c: char) -> bool {
    ('0' <= c <= '9') || ('a' <= c <= 'f') || ('A' <= c <= 'F')
}

/// The value of a hexadecimal digit.
pub open spec fn hex_digit_value(c: char) -> int {
    if '0' <= c <= '9' {
        (c as u32) - 48
    } else if 'a' <= c <= 'f' {
        (c as u32) - 87
    } else {
        (c as u32) - 55
    }
}

/// The value of a string of hexadecimal digits, most significant first.
pub open spec fn hex_value(s: Seq<char>) -> int
    decreases s.len(),
{
    if s.len() == 0 {
        0
    } else {
        hex_value(s.drop_last()) * 16 + hex_digit_value(s.last())
    }
}

/// The last `n` hexadecimal digits of `v`, most significant first.
pub open spec fn hex_digits(v: nat, n: nat) -> Seq<char>
    decreases n,
{
    if n == 0 {
        Seq::empty()
    } else {
        hex_digits(v / 16, (n - 1) as nat).push(hex_char((v % 16) as int))
    }
}

/// The hyphenated lower-case text of a UUID, as `Display` for `Uuid` writes
/// it: 32 hexadecimal digits in groups of 8, 4, 4, 4 and 12.
pub open spec fn uuid_text(id: u128) -> Seq<char> {
    let d = hex_digits(id as nat, 32);
    d.subrange(0, 8) + seq!['-'] + d.subrange(8, 12) + seq!['-'] + d.subrange(12, 16) + seq!['-']
        + d.subrange(16, 20) + seq!['-'] + d.subrange(20, 32)
}

/// The 32 hexadecimal digits of a 36-character hyphenated UUID text.
pub open spec fn hyphenated_digits(s: Seq<char>) -> Seq<char> {
    s.subrange(0, 8) + s.subrange(9, 13) + s.subrange(14, 18) + s.subrange(19, 23) + s.subrange(
        24,
        36,
    )
}

/// The value of 32 hexadecimal digits, if that is what `d` is.
pub open spec fn parse_hex32(d: Seq<char>) -> Option<u128> {
    if d.len() == 32 && forall|i: int| 0 <= i < 32 ==> is_hex(#[trigger] d[i]) {
        Some(hex_value(d) as u128)
    } else {
        None
    }
}

/// A hyphenated UUID: hyphens at 8, 13, 18 and 23, hexadecimal digits
/// elsewhere.
pub open spec fn parse_hyphenated(s: Seq<char>) -> Option<u128> {
    if s.len() == 36 && s[8] == '-' && s[13] == '-' && s[18] == '-' && s[23] == '-' {
        parse_hex32(hyphenated_digits(s))
    } else {
        None
    }
}

/// `urn:uuid:`, the prefix of a UUID URN.
pub open spec fn urn_prefix() -> Seq<char> {
    seq!['u', 'r', 'n', ':', 'u', 'u', 'i', 'd', ':']
}

/// What `Uuid::parse_str` accepts, and the value it gives: 32 hexadecimal
/// digits; a hyphenated UUID; a hyphenated UUID in braces; or a hyphenated
/// UUID after `urn:uuid:` in any case. Hexadecimal digits may be of either
/// case.
pub open spec fn uuid_parse(s: Seq<char>) -> Option<u128> {
    if s.len() == 32 {
        parse_hex32(s)
    } else if s.len() == 36 {
        parse_hyphenated(s)
    } else if s.len() == 38 && s[0] == '{' && s[37] == '}' {
        parse_hyphenated(s.subrange(1, 37))
    } else if s.len() == 45 && ascii_lowercase(s.subrange(0, 9)) == urn_prefix() {
        parse_hyphenated(s.subrange(9, 45))
    } else {
        None
    }
}

/// Parses a UUID (`uuid::Uuid::parse_str`, then `Uuid::as_u128`).
/// Claims: the result is `uuid_parse` of the text, the formats that the
/// crate's parser module accepts.
#[verifier::external_body]
pub(crate) fn uuid_parse_str(s: &str) -> (r: Option<u128>)
    ensures
        r == uuid_parse(s@),
{
    match uuid::Uuid::parse_str(s) {
        Ok(id) => Some(id.as_u128()),
        Err(_) => None,
    }
}

/// Writes a UUID (`uuid::Uuid::from_u128`, then its `Display`).
/// Claims: the text is the hyphenated lower-case form, `uuid_text`.
#[verifier::external_body]
pub(crate) fn uuid_string(id: u128) -> (s: String)
    ensures
        s@ == uuid_text(id),
{
    uuid::Uuid::from_u128(id).to_string()
}

/// A fresh random version-4 UUID (`uuid::Uuid::new_v4`, then
/// `Uuid::as_u128`).
/// Claims only what holds of every outcome: the version nibble is 4 and the
/// variant bits are `10`.
#[verifier::external_body]
pub(crate) fn new_random_uuid() -> (id: u128)
    ensures
        (id >> 76u128) & 0xF == 4,
        (id >> 62u128) & 0x3 == 2,
{
    uuid::Uuid::new_v4().as_u128()
}

proof fn lemma_hex_char_value(d: int)
    requires
        0 <= d < 16,
    ensures
        is_hex(hex_char(d)),
        hex_digit_value(hex_char(d)) == d,
        !is_whitespace(hex_char(d)),
        hex_char(d) != '-',
{
}

proof fn lemma_hex_digits(v: nat, n: nat)
    ensures
        hex_digits(v, n).len() == n,
        forall|i: int| 0 <= i < n ==> is_hex(#[trigger] hex_digits(v, n)[i]),
        forall|i: int| 0 <= i < n ==> !is_whitespace(#[trigger] hex_digits(v, n)[i]),
        forall|i: int| 0 <= i < n ==> #[trigger] hex_digits(v, n)[i] != '-',
        hex_value(hex_digits(v, n)) == (v as int) % pow(16, n),
    decreases n,
{
    if n == 0 {
        assert(pow(16, 0) == 1) by {
            reveal(pow);
        }
    } else {
        let prev = hex_digits(v / 16, (n - 1) as nat);
        lemma_hex_digits(v / 16, (n - 1) as nat);
        lemma_hex_char_value((v % 16) as int);
        let d = hex_digits(v, n);
        assert(d.drop_last() =~= prev);
        assert forall|i: int| 0 <= i < n implies is_hex(#[trigger] d[i]) && !is_whitespace(d[i])
            && d[i] != '-' by {
            if i < n - 1 {
                assert(d[i] == prev[i]);
            }
        }
        assert(pow(16, n) == 16 * pow(16, (n - 1) as nat)) by {
            reveal(pow);
        }
        lemma_pow_positive(16, (n - 1) as nat);
        lemma_mod_breakdown(v as int, 16, pow(16, (n - 1) as nat));
    }
}

proof fn lemma_pow16_32()
    ensures
        pow(16, 32) == 0x1_0000_0000_0000_0000_0000_0000_0000_0000,
{
    reveal_with_fuel(pow, 33);
}

/// What `uuid_text` is made of: 36 characters, hyphens at 8, 13, 18 and 23,
/// hexadecimal digits elsewhere, and no whitespace.
pub proof fn lemma_uuid_text_shape(id: u128)
    ensures
        uuid_text(id).len() == 36,
        uuid_text(id)[8] == '-',
        uuid_text(id)[13] == '-',
        uuid_text(id)[18] == '-',
        uuid_text(id)[23] == '-',
        hyphenated_digits(uuid_text(id)) == hex_digits(id as nat, 32),
        forall|i: int| 0 <= i < 36 ==> !is_whitespace(#[trigger] uuid_text(id)[i]),
{
    let d = hex_digits(id as nat, 32);
    lemma_hex_digits(id as nat, 32);
    let t = uuid_text(id);
    assert(hyphenated_digits(t) =~= d);
    assert forall|i: int| 0 <= i < 36 implies !is_whitespace(#[trigger] t[i]) by {
        if i < 8 {
            assert(t[i] == d[i]);
        } else if i == 8 || i == 13 || i == 18 || i == 23 {
        } else if i < 13 {
            assert(t[i] == d[i - 1]);
        } else if i < 18 {
            assert(t[i] == d[i - 2]);
        } else if i < 23 {
            assert(t[i] == d[i - 3]);
        } else {
            assert(t[i] == d[i - 4]);
        }
    }
}

/// Reading back the text that `Display` writes for a UUID gives the same
/// UUID: `uuid_parse(uuid_text(id)) == Some(id)`.
pub proof fn lemma_uuid_text_parses(id: u128)
    ensures
        uuid_parse(uuid_text(id)) == Some(id),
{
    lemma_uuid_text_shape(id);
    lemma_hex_digits(id as nat, 32);
    lemma_pow16_32();
    lemma_small_mod(id as nat, pow(16, 32) as nat);
}

// ---------------------------------------------------------------------------
// Choosing the agent id
// ---------------------------------------------------------------------------

/// Where the configured agent id stands.
pub enum AgentIdSetting {
    /// An id given by `--agent-id` or by the environment.
    Pinned(u128),
    /// The environment held text that is not a UUID; it is ignored.
    Rejected,
    /// No id is configured.
    Unset,
}

impl AgentIdSetting {
    /// The configured id, if there is one.
    pub fn id(&self) -> (r: Option<u128>)
        ensures
            r == match self {
                AgentIdSetting::Pinned(id) => Some(*id),
                _ => None,
            },
    {
        match self {
            AgentIdSetting::Pinned(id) => Some(*id),
            _ => None,
        }
    }
}

/// The id that a nonblank text names once trimmed, if any.
pub open spec fn named_agent_id(text: Seq<char>) -> Option<u128> {
    if is_blank(text) {
        None
    } else {
        uuid_parse(trim(text))
    }
}

/// The configured agent id: `--agent-id` first, else the value of
/// `VOIDMETRICS_AGENT_ID`, trimmed, when it is not blank.
pub fn configured_agent_id(cli_agent_id: Option<u128>, env_value: Option<&str>) -> (r:
    AgentIdSetting)
    ensures
        cli_agent_id matches Some(id) ==> r == AgentIdSetting::Pinned(id),
        cli_agent_id is None ==> r == match env_value {
            None => AgentIdSetting::Unset,
            Some(v) => if is_blank(v@) {
                AgentIdSetting::Unset
            } else {
                match uuid_parse(trim(v@)) {
                    Some(id) => AgentIdSetting::Pinned(id),
                    None => AgentIdSetting::Rejected,
                }
            },
        },
{
    if let Some(id) = cli_agent_id {
        return AgentIdSetting::Pinned(id);
    }
    match env_value {
        None => AgentIdSetting::Unset,
        Some(v) => {
            let t = trim_str(v);
            if t.len() == 0 {
                AgentIdSetting::Unset
            } else {
                let ts = string_of(&t);
                match uuid_parse_str(ts.as_str()) {
                    Some(id) => AgentIdSetting::Pinned(id),
                    None => AgentIdSetting::Rejected,
                }
            }
        },
    }
}

/// What to do about the agent id at start-up.
pub struct AgentIdPlan {
    /// The id the agent runs under.
    pub agent_id: u128,
    /// Whether the id file must be (re)written with `agent_id_file_text`.
    pub persist: bool,
    /// Whether the id file held nonblank text that is not a UUID.
    pub stored_invalid: bool,
    /// Whether the id was freshly generated.
    pub generated: bool,
}

/// Decides the agent id from the configured id and, when none is
/// configured, from the contents of the id file (`None` when it could not
/// be read). A configured id is used and written to the file; else a UUID
/// stored in the file is used as it is; else a fresh random id is generated
/// and written.
pub fn load_agent_id(configured: Option<u128>, stored: Option<&str>) -> (plan: AgentIdPlan)
    ensures
        configured matches Some(id) ==> plan.agent_id == id && plan.persist && !plan.stored_invalid
            && !plan.generated,
        plan.generated ==> (plan.agent_id >> 76u128) & 0xF == 4 && (plan.agent_id >> 62u128) & 0x3
            == 2,
        configured is None ==> match stored {
            Some(text) => match named_agent_id(text@) {
                Some(id) => plan.agent_id == id && !plan.persist && !plan.stored_invalid
                    && !plan.generated,
                None => plan.persist && plan.generated && plan.stored_invalid == !is_blank(text@),
            },
            None => plan.persist && plan.generated && !plan.stored_invalid,
        },
{
    if let Some(id) = configured {
        return AgentIdPlan { agent_id: id, persist: true, stored_invalid: false, generated: false };
    }
    let mut stored_invalid = false;
    if let Some(text) = stored {
        let t = trim_str(text);
        if t.len() > 0 {
            let ts = string_of(&t);
            if let Some(id) = uuid_parse_str(ts.as_str()) {
                return AgentIdPlan {
                    agent_id: id,
                    persist: false,
                    stored_invalid: false,
                    generated: false,
                };
            }
            stored_invalid = true;
        }
    }
    let id = new_random_uuid();
    AgentIdPlan { agent_id: id, persist: true, stored_invalid, generated: true }
}

/// The contents written to the id file: the UUID text and a newline.
pub fn agent_id_file_text(id: u128) -> (s: String)
    ensures
        s@ == uuid_text(id).push('\n'),
{
    let mut s = uuid_string(id);
    push_char(&mut s, '\n');
    s
}

/// An agent id written to the id file is read back unchanged: the file text
/// names exactly that id, so the next start-up keeps it and does not
/// rewrite the file.
pub proof fn lemma_persisted_agent_id_reloads(id: u128)
    ensures
        named_agent_id(uuid_text(id).push('\n')) == Some(id),
{
    lemma_uuid_text_shape(id);
    let t = uuid_text(id);
    lemma_trim_drops_trailing(t, '\n');
    lemma_uuid_text_parses(id);
}

} // verus!
