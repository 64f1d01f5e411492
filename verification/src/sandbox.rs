//! The decisions around launching an untrusted worker in a low-privilege
//! AppContainer: which policies and paths are refused, the command line and
//! environment block the worker is started with, and what each poll of a
//! running worker leads to. The operating-system work itself is done by the
//! host.
use vstd::prelude::*;
use vstd::string::StrSliceExecFns;
use vstd::string::StringExecFns;
use crate::canonical::{insertion_point, key_order, lemma_insertion_point, lemma_key_order};
use crate::json::Json;
use crate::manifest::AdapterError;
use crate::text::{is_blank, seq_lt, str_is_blank, str_lt};

verus! {

/// The limits a job object placed on a worker.
#[derive(PartialEq, Eq, Structural)]
pub struct JobLimitEvidence {
    pub active_process_limit: u32,
    pub process_memory_limit_bytes: usize,
    pub kill_on_close: bool,
}

/// What a sandboxed worker may touch and how long it may run.
pub struct StableSandboxPolicy {
    pub identity: String,
    pub read_write_paths: Vec<String>,
    pub read_only_paths: Vec<String>,
    pub capabilities: Vec<String>,
    pub disallow_win32k: bool,
    pub max_process_memory_bytes: usize,
    pub timeout_ms: u64,
    pub environment: Vec<(String, String)>,
}

fn text(s: &str) -> (r: String)
    ensures
        r@ == s@,
{
    String::from_str(s)
}

/// Why a sandbox policy is refused: direct capabilities (egress is brokered
/// by the host instead), or a blank container identity.
pub open spec fn policy_refusal(policy: StableSandboxPolicy) -> Option<(Seq<char>, Seq<char>)> {
    if policy.capabilities@.len() > 0 {
        Some(
            (
                "STABLE_SANDBOX_DIRECT_CAPABILITY_UNSUPPORTED"@,
                "stable LPAC workers receive no direct capabilities; privileged egress must be brokered by RELAY"@,
            ),
        )
    } else if is_blank(policy.identity@) {
        Some(("STABLE_SANDBOX_CONFIGURATION_INVALID"@, "AppContainer identity must be non-empty"@))
    } else {
        None
    }
}

pub fn validate_policy(policy: &StableSandboxPolicy) -> (r: Result<(), AdapterError>)
    ensures
        r is Ok <==> policy_refusal(*policy) is None,
        r matches Err(e) ==> policy_refusal(*policy) == Some((e.code@, e.message@)),
{
    proof {
        reveal_strlit("STABLE_SANDBOX_DIRECT_CAPABILITY_UNSUPPORTED");
        reveal_strlit("STABLE_SANDBOX_CONFIGURATION_INVALID");
    }
    if policy.capabilities.len() > 0 {
        return Err(
            AdapterError::new(
                "STABLE_SANDBOX_DIRECT_CAPABILITY_UNSUPPORTED",
                text(
                    "stable LPAC workers receive no direct capabilities; privileged egress must be brokered by RELAY",
                ),
            ),
        );
    }
    if str_is_blank(policy.identity.as_str()) {
        return Err(
            AdapterError::new(
                "STABLE_SANDBOX_CONFIGURATION_INVALID",
                text("AppContainer identity must be non-empty"),
            ),
        );
    }
    Ok(())
}

/// A path that has no root and no prefix anywhere: it is not empty, does not
/// start with a separator (`/` or `\\`) and holds no `:`.
pub open spec fn rootless(path: Seq<char>) -> bool {
    path.len() > 0 && path[0] != '/' && path[0] != '\\' && forall|i: int|
        0 <= i < path.len() ==> #[trigger] path[i] != ':'
}

/// `std::path::Path::is_absolute`. std documents that a path is absolute on
/// Unix only when it starts with a root, and on Windows only when it has a
/// prefix and a root; so the empty path, and a path with neither, is not
/// absolute. Which other paths are absolute depends on the platform and is
/// left unsaid here.
#[verifier::external_body]
pub(crate) fn path_is_absolute(path: &str) -> (r: bool)
    ensures
        path@.len() == 0 ==> !r,
        rootless(path@) ==> !r,
{
    std::path::Path::new(path).is_absolute()
}

/// `==` on `std::path::Path`, which compares paths component by component:
/// equal text is the same path; which other spellings name the same path
/// depends on the platform and is left unsaid here.
#[verifier::external_body]
fn same_path(a: &str, b: &str) -> (r: bool)
    ensures
        a@ == b@ ==> r,
{
    std::path::Path::new(a) == std::path::Path::new(b)
}

/// Why a worker launch is refused, given whether the container APIs exist,
/// whether the worker and mailbox paths are absolute, and whether the one
/// read/write grant is the mailbox.
pub open spec fn launch_refusal(
    policy: StableSandboxPolicy,
    api_available: bool,
    paths_absolute: bool,
    grant_is_mailbox: bool,
) -> Option<(Seq<char>, Seq<char>)> {
    if policy_refusal(policy) is Some {
        policy_refusal(policy)
    } else if !api_available {
        Some(("STABLE_SANDBOX_UNAVAILABLE"@, "required AppContainer profile APIs are unavailable"@))
    } else if !paths_absolute {
        Some(("STABLE_SANDBOX_CONFIGURATION_INVALID"@, "worker and mailbox paths must be absolute"@))
    } else if policy.read_write_paths@.len() != 1 || !grant_is_mailbox {
        Some(
            (
                "STABLE_SANDBOX_CONFIGURATION_INVALID"@,
                "stable untrusted workers receive exactly one read/write grant: the broker-owned mailbox"@,
            ),
        )
    } else {
        None
    }
}

/// The launch checks over the facts the platform supplies.
pub fn launch_decision(
    policy: &StableSandboxPolicy,
    api_available: bool,
    paths_absolute: bool,
    grant_is_mailbox: bool,
) -> (r: Result<(), AdapterError>)
    ensures
        r is Ok <==> launch_refusal(*policy, api_available, paths_absolute, grant_is_mailbox)
            is None,
        r matches Err(e) ==> launch_refusal(*policy, api_available, paths_absolute, grant_is_mailbox)
            == Some((e.code@, e.message@)),
{
    proof {
        reveal_strlit("STABLE_SANDBOX_UNAVAILABLE");
        reveal_strlit("STABLE_SANDBOX_CONFIGURATION_INVALID");
    }
    validate_policy(policy)?;
    if !api_available {
        return Err(
            AdapterError::new(
                "STABLE_SANDBOX_UNAVAILABLE",
                text("required AppContainer profile APIs are unavailable"),
            ),
        );
    }
    if !paths_absolute {
        return Err(
            AdapterError::new(
                "STABLE_SANDBOX_CONFIGURATION_INVALID",
                text("worker and mailbox paths must be absolute"),
            ),
        );
    }
    if policy.read_write_paths.len() != 1 || !grant_is_mailbox {
        return Err(
            AdapterError::new(
                "STABLE_SANDBOX_CONFIGURATION_INVALID",
                text(
                    "stable untrusted workers receive exactly one read/write grant: the broker-owned mailbox",
                ),
            ),
        );
    }
    Ok(())
}

/// The checks before a worker is launched: the policy, the container APIs
/// (`api_available`, which the host probes), absolute worker and mailbox
/// paths, and a single read/write grant that is the mailbox itself.
pub fn check_launch(
    worker_path: &str,
    mailbox: &str,
    policy: &StableSandboxPolicy,
    api_available: bool,
) -> (r: Result<(), AdapterError>)
    ensures
        policy_refusal(*policy) matches Some((code, message)) ==> (r matches Err(e) && e.code@
            == code && e.message@ == message),
        policy_refusal(*policy) is None && !api_available ==> (r matches Err(e) && e.code@
            == "STABLE_SANDBOX_UNAVAILABLE"@),
        policy_refusal(*policy) is None && api_available && (rootless(worker_path@) || rootless(
            mailbox@,
        )) ==> (r matches Err(e) && e.code@ == "STABLE_SANDBOX_CONFIGURATION_INVALID"@ && e.message@
            == "worker and mailbox paths must be absolute"@),
        (worker_path@.len() == 0 || mailbox@.len() == 0) ==> r is Err,
        policy.read_write_paths@.len() != 1 ==> r is Err,
        r matches Err(e) ==> exists|absolute: bool, grant: bool|
            launch_refusal(*policy, api_available, absolute, grant) == Some((e.code@, e.message@)),
        r is Ok ==> exists|grant: bool| launch_refusal(*policy, api_available, true, grant) is None,
{
    let absolute = path_is_absolute(worker_path) && path_is_absolute(mailbox);
    let grant = policy.read_write_paths.len() == 1 && same_path(
        policy.read_write_paths[0].as_str(),
        mailbox,
    );
    launch_decision(policy, api_available, absolute, grant)
}

/// A path as one command-line argument: in double quotes, inner quotes
/// escaped with a backslash.
pub open spec fn quoted_argument(s: Seq<char>) -> Seq<char> {
    seq!['"'] + escape_quotes(s) + seq!['"']
}

pub open spec fn escape_quotes(s: Seq<char>) -> Seq<char>
    decreases s.len(),
{
    if s.len() == 0 {
        Seq::empty()
    } else {
        escape_quotes(s.drop_last()) + if s.last() == '"' {
            seq!['\\', '"']
        } else {
            seq![s.last()]
        }
    }
}

pub fn quote_argument(value: &str) -> (r: String)
    ensures
        r@ == quoted_argument(value@),
{
    proof {
        reveal_strlit("\"");
        reveal_strlit("\\\"");
    }
    let n = value.unicode_len();
    let mut out = text("\"");
    let mut i: usize = 0;
    while i < n
        invariant
            n == value@.len(),
            i <= n,
            out@ == seq!['"'] + escape_quotes(value@.subrange(0, i as int)),
        decreases n - i,
    {
        let c = value.get_char(i);
        proof {
            let t = value@.subrange(0, i + 1);
            assert(t.drop_last() =~= value@.subrange(0, i as int));
            assert(t.last() == c);
        }
        if c == '"' {
            proof {
                reveal_strlit("\\\"");
            }
            out = out.concat("\\\"");
        } else {
            let one = value.substring_char(i, i + 1);
            assert(one@ =~= seq![c]);
            out = out.concat(one);
        }
        assert(out@ =~= seq!['"'] + escape_quotes(value@.subrange(0, i + 1)));
        i = i + 1;
    }
    assert(value@.subrange(0, n as int) =~= value@);
    let r = out.concat("\"");
    assert(r@ =~= quoted_argument(value@));
    r
}

/// The worker's command line: its own path and the mailbox, quoted.
pub fn worker_command_line(worker_path: &str, mailbox: &str) -> (r: String)
    ensures
        r@ == quoted_argument(worker_path@) + " "@ + quoted_argument(mailbox@),
{
    proof {
        reveal_strlit(" ");
    }
    let w = quote_argument(worker_path);
    let m = quote_argument(mailbox);
    w.concat(" ").concat(m.as_str())
}

/// How many process attributes a launch sets: the container's security
/// capabilities and the all-packages opt-out, and the win32k lockdown when
/// the policy asks for it.
pub fn attribute_count(policy: &StableSandboxPolicy) -> (r: u32)
    ensures
        r == (if policy.disallow_win32k {
            3u32
        } else {
            2u32
        }),
{
    if policy.disallow_win32k {
        3
    } else {
        2
    }
}

/// The UTF-16 code units of one character.
pub open spec fn utf16_char(c: char) -> Seq<u16> {
    let v = c as u32;
    if v < 0x10000 {
        seq![v as u16]
    } else {
        let u = v - 0x10000;
        seq![(0xD800 + u / 1024) as u16, (0xDC00 + u % 1024) as u16]
    }
}

/// UTF-16 encoding, as `str::encode_utf16`.
pub open spec fn utf16(s: Seq<char>) -> Seq<u16>
    decreases s.len(),
{
    if s.len() == 0 {
        Seq::empty()
    } else {
        utf16(s.drop_last()) + utf16_char(s.last())
    }
}

fn push_utf16(out: &mut Vec<u16>, s: &str)
    ensures
        final(out)@ == old(out)@ + utf16(s@),
{
    let n = s.unicode_len();
    let ghost start = out@;
    let mut i: usize = 0;
    while i < n
        invariant
            n == s@.len(),
            i <= n,
            out@ == start + utf16(s@.subrange(0, i as int)),
        decreases n - i,
    {
        let c = s.get_char(i);
        let v = c as u32;
        proof {
            let t = s@.subrange(0, i + 1);
            assert(t.drop_last() =~= s@.subrange(0, i as int));
            assert(t.last() == c);
        }
        if v < 0x10000 {
            out.push(v as u16);
        } else {
            let u = v - 0x10000;
            out.push((0xD800 + u / 1024) as u16);
            out.push((0xDC00 + u % 1024) as u16);
        }
        assert(out@ =~= start + utf16(s@.subrange(0, i + 1)));
        i = i + 1;
    }
    assert(s@.subrange(0, n as int) =~= s@);
}

/// A string as a NUL-terminated UTF-16 buffer.
pub fn wide(value: &str) -> (r: Vec<u16>)
    ensures
        r@ == utf16(value@).push(0u16),
{
    let mut out: Vec<u16> = Vec::new();
    push_utf16(&mut out, value);
    assert(out@ =~= Seq::<u16>::empty() + utf16(value@));
    out.push(0);
    out
}

/// A character with ASCII capitals made lower case.
pub open spec fn ascii_lower_char(c: char) -> char {
    match c {
        'A' => 'a',
        'B' => 'b',
        'C' => 'c',
        'D' => 'd',
        'E' => 'e',
        'F' => 'f',
        'G' => 'g',
        'H' => 'h',
        'I' => 'i',
        'J' => 'j',
        'K' => 'k',
        'L' => 'l',
        'M' => 'm',
        'N' => 'n',
        'O' => 'o',
        'P' => 'p',
        'Q' => 'q',
        'R' => 'r',
        'S' => 's',
        'T' => 't',
        'U' => 'u',
        'V' => 'v',
        'W' => 'w',
        'X' => 'x',
        'Y' => 'y',
        'Z' => 'z',
        _ => c,
    }
}

fn lower_piece(c: char) -> (r: Option<&'static str>)
    ensures
        r matches Some(l) ==> l@ == seq![ascii_lower_char(c)],
        r is None ==> ascii_lower_char(c) == c,
{
    proof {
        reveal_strlit("a");
        reveal_strlit("b");
        reveal_strlit("c");
        reveal_strlit("d");
        reveal_strlit("e");
        reveal_strlit("f");
        reveal_strlit("g");
        reveal_strlit("h");
        reveal_strlit("i");
        reveal_strlit("j");
        reveal_strlit("k");
        reveal_strlit("l");
        reveal_strlit("m");
        reveal_strlit("n");
        reveal_strlit("o");
        reveal_strlit("p");
        reveal_strlit("q");
        reveal_strlit("r");
        reveal_strlit("s");
        reveal_strlit("t");
        reveal_strlit("u");
        reveal_strlit("v");
        reveal_strlit("w");
        reveal_strlit("x");
        reveal_strlit("y");
        reveal_strlit("z");
    }
    match c {
        'A' => Some("a"),
        'B' => Some("b"),
        'C' => Some("c"),
        'D' => Some("d"),
        'E' => Some("e"),
        'F' => Some("f"),
        'G' => Some("g"),
        'H' => Some("h"),
        'I' => Some("i"),
        'J' => Some("j"),
        'K' => Some("k"),
        'L' => Some("l"),
        'M' => Some("m"),
        'N' => Some("n"),
        'O' => Some("o"),
        'P' => Some("p"),
        'Q' => Some("q"),
        'R' => Some("r"),
        'S' => Some("s"),
        'T' => Some("t"),
        'U' => Some("u"),
        'V' => Some("v"),
        'W' => Some("w"),
        'X' => Some("x"),
        'Y' => Some("y"),
        'Z' => Some("z"),
        _ => None,
    }
}

/// `str::to_ascii_lowercase`.
pub open spec fn ascii_lower(s: Seq<char>) -> Seq<char> {
    s.map_values(|c: char| ascii_lower_char(c))
}

/// `s` with ASCII capitals made lower case.
pub fn to_ascii_lower(s: &str) -> (r: String)
    ensures
        r@ == ascii_lower(s@),
{
    let n = s.unicode_len();
    let mut out = text("");
    proof {
        reveal_strlit("");
    }
    let mut i: usize = 0;
    while i < n
        invariant
            n == s@.len(),
            i <= n,
            out@ == ascii_lower(s@.subrange(0, i as int)),
        decreases n - i,
    {
        let c = s.get_char(i);
        match lower_piece(c) {
            Some(l) => {
                out = out.concat(l);
            },
            None => {
                let one = s.substring_char(i, i + 1);
                assert(one@ =~= seq![c]);
                out = out.concat(one);
            },
        }
        assert(out@ =~= ascii_lower(s@.subrange(0, i + 1)));
        i = i + 1;
    }
    assert(s@.subrange(0, n as int) =~= s@);
    out
}

/// The lower-cased names of environment entries.
pub open spec fn lowered_names(values: Seq<(String, String)>) -> Seq<Seq<char>> {
    values.map_values(|e: (String, String)| ascii_lower(e.0@))
}

/// The entries listed by the first `n` indices of `order`, each as
/// `name=value` in UTF-16 followed by a NUL.
pub open spec fn environment_units(values: Seq<(String, String)>, order: Seq<int>, n: int) -> Seq<
    u16,
>
    decreases n,
{
    if n <= 0 || n > order.len() {
        Seq::empty()
    } else {
        let k = order[n - 1];
        environment_units(values, order, n - 1) + if 0 <= k < values.len() {
            utf16(values[k].0@ + "="@ + values[k].1@).push(0u16)
        } else {
            Seq::empty()
        }
    }
}

/// The environment block of a process: its entries ordered by name without
/// regard to ASCII case (equal names keep their order), each `name=value`
/// and NUL-terminated, and one more NUL at the end.
pub open spec fn environment_block_of(values: Seq<(String, String)>) -> Seq<u16> {
    environment_units(
        values,
        key_order(lowered_names(values), values.len() as int),
        values.len() as int,
    ).push(0u16)
}

pub fn environment_block(values: &Vec<(String, String)>) -> (r: Vec<u16>)
    ensures
        r@ == environment_block_of(values@),
{
    let ghost keys = lowered_names(values@);
    let mut lowered: Vec<String> = Vec::new();
    let mut j: usize = 0;
    while j < values.len()
        invariant
            j <= values@.len(),
            keys == lowered_names(values@),
            lowered@.len() == j,
            forall|q: int| 0 <= q < j ==> (#[trigger] lowered@[q])@ == keys[q],
        decreases values@.len() - j,
    {
        let l = to_ascii_lower(values[j].0.as_str());
        lowered.push(l);
        j = j + 1;
    }
    let mut order: Vec<usize> = Vec::new();
    let mut i: usize = 0;
    while i < values.len()
        invariant
            i <= values@.len(),
            keys == lowered_names(values@),
            lowered@.len() == values@.len(),
            forall|q: int| 0 <= q < values@.len() ==> (#[trigger] lowered@[q])@ == keys[q],
            order@.len() == i,
            key_order(keys, i as int).len() == i,
            forall|q: int| 0 <= q < i ==> #[trigger] order@[q] as int == key_order(keys, i as int)[q],
            forall|q: int| 0 <= q < i ==> 0 <= #[trigger] key_order(keys, i as int)[q] < i,
        decreases values@.len() - i,
    {
        let ghost prev = key_order(keys, i as int);
        proof {
            lemma_insertion_point(keys, prev, keys[i as int]);
        }
        let mut p: usize = 0;
        loop
            invariant
                p <= order@.len(),
                i < values@.len(),
                order@.len() == i,
                prev.len() == i,
                lowered@.len() == values@.len(),
                forall|q: int| 0 <= q < values@.len() ==> (#[trigger] lowered@[q])@ == keys[q],
                forall|q: int| 0 <= q < i ==> #[trigger] order@[q] as int == prev[q],
                forall|q: int| 0 <= q < i ==> 0 <= #[trigger] prev[q] < i,
                forall|q: int| 0 <= q < p ==> !seq_lt(keys[i as int], #[trigger] keys[prev[q]]),
                0 <= insertion_point(keys, prev, keys[i as int]) <= prev.len(),
                forall|q: int|
                    0 <= q < insertion_point(keys, prev, keys[i as int]) ==> !seq_lt(
                        keys[i as int],
                        #[trigger] keys[prev[q]],
                    ),
                insertion_point(keys, prev, keys[i as int]) < prev.len() ==> seq_lt(
                    keys[i as int],
                    keys[prev[insertion_point(keys, prev, keys[i as int])]],
                ),
            ensures
                p == insertion_point(keys, prev, keys[i as int]),
            decreases order@.len() - p,
        {
            if p == order.len() {
                break;
            }
            let k = order[p];
            assert(k as int == prev[p as int]);
            if str_lt(lowered[i].as_str(), lowered[k].as_str()) {
                break;
            }
            p = p + 1;
        }
        let ghost old_order = order@;
        order.insert(p, i);
        proof {
            let next = key_order(keys, i + 1);
            assert(next == prev.insert(p as int, i as int));
            prev.insert_ensures(p as int, i as int);
            old_order.insert_ensures(p as int, i);
            lemma_key_order(keys, i + 1);
            assert forall|q: int| 0 <= q < i + 1 implies #[trigger] order@[q] as int == next[q] by {
                if q < p {
                    assert(order@[q] == old_order[q]);
                } else if q > p {
                    assert(order@[q] == old_order[q - 1]);
                }
            }
        }
        i = i + 1;
    }
    proof {
        lemma_key_order(keys, values@.len() as int);
    }
    let ghost full = key_order(keys, values@.len() as int);
    let mut out: Vec<u16> = Vec::new();
    let mut t: usize = 0;
    while t < order.len()
        invariant
            t <= order@.len(),
            order@.len() == values@.len(),
            full == key_order(keys, values@.len() as int),
            full.len() == values@.len(),
            forall|q: int| 0 <= q < values@.len() ==> #[trigger] order@[q] as int == full[q],
            forall|q: int| 0 <= q < values@.len() ==> 0 <= #[trigger] full[q] < values@.len(),
            out@ == environment_units(values@, full, t as int),
        decreases order@.len() - t,
    {
        let k = order[t];
        assert(k as int == full[t as int]);
        let ghost before = out@;
        push_utf16(&mut out, values[k].0.as_str());
        push_utf16(&mut out, "=");
        push_utf16(&mut out, values[k].1.as_str());
        out.push(0);
        proof {
            reveal_strlit("=");
            let name = values@[k as int].0@;
            let value = values@[k as int].1@;
            lemma_utf16_concat(name, "="@);
            lemma_utf16_concat(name + "="@, value);
            assert(out@ =~= before + utf16(name + "="@ + value).push(0u16));
        }
        t = t + 1;
    }
    out.push(0);
    out
}

pub proof fn lemma_utf16_concat(a: Seq<char>, b: Seq<char>)
    ensures
        utf16(a + b) == utf16(a) + utf16(b),
    decreases b.len(),
{
    if b.len() == 0 {
        assert(a + b =~= a);
        assert(utf16(a) + utf16(b) =~= utf16(a));
    } else {
        lemma_utf16_concat(a, b.drop_last());
        assert((a + b).drop_last() =~= a + b.drop_last());
        assert((a + b).last() == b.last());
    }
}

/// The exit code a process reports while it is still running.
pub const STILL_ACTIVE: u32 = 259;

/// What the worker's mailbox held at one poll.
pub enum MailboxRead {
    /// No response yet: the response file is absent or empty.
    Nothing,
    /// The response file could not be read.
    ReadFailed(String),
    /// The response, parsed.
    Parsed(Json),
    /// The response is not valid JSON.
    Malformed(String),
}

/// What one poll of a running worker leads to.
pub enum PollStep {
    /// The run is over, with the worker's response or the reason it failed.
    Finished(Result<Json, AdapterError>),
    /// The worker ran out of time: end it, and fail with this error.
    Terminate(AdapterError),
    /// Keep waiting.
    Wait,
}

/// One poll of a running worker: its response ends the run, as does an
/// unreadable or malformed response, a failed exit-code query (`exit` is
/// `Err` with the system error), an early exit, or the deadline.
pub fn poll_step(read: MailboxRead, exit: Result<u32, u32>, deadline_passed: bool) -> (r: PollStep)
    ensures
        match read {
            MailboxRead::Parsed(j) => r == PollStep::Finished(Ok(j)),
            MailboxRead::ReadFailed(why) => r matches PollStep::Finished(Err(e)) && e.code@
                == "STABLE_SANDBOX_RESPONSE_ERROR"@ && e.message@
                == "read stable sandbox response: "@ + why@,
            MailboxRead::Malformed(why) => r matches PollStep::Finished(Err(e)) && e.code@
                == "STABLE_SANDBOX_RESPONSE_INVALID"@ && e.message@
                == "worker response was not valid JSON: "@ + why@,
            MailboxRead::Nothing => match exit {
                Err(code) => r matches PollStep::Finished(Err(e)) && e.code@
                    == "STABLE_SANDBOX_PROCESS_ERROR"@ && e.message@ == "GetExitCodeProcess failed: "@
                    + crate::text::decimal(code as nat),
                Ok(code) => if code != STILL_ACTIVE {
                    r matches PollStep::Finished(Err(e)) && e.code@
                        == "STABLE_SANDBOX_WORKER_EXITED"@ && e.message@
                        == "stable AppContainer worker exited with code "@
                        + crate::text::decimal(code as nat) + " before response"@
                } else if deadline_passed {
                    r matches PollStep::Terminate(e) && e.code@ == "STABLE_SANDBOX_TIMEOUT"@
                        && e.message@
                        == "stable AppContainer worker did not produce a response before timeout"@
                } else {
                    r is Wait
                },
            },
        },
{
    proof {
        reveal_strlit("STABLE_SANDBOX_RESPONSE_ERROR");
        reveal_strlit("STABLE_SANDBOX_RESPONSE_INVALID");
        reveal_strlit("STABLE_SANDBOX_PROCESS_ERROR");
        reveal_strlit("STABLE_SANDBOX_WORKER_EXITED");
        reveal_strlit("STABLE_SANDBOX_TIMEOUT");
        reveal_strlit("read stable sandbox response: ");
        reveal_strlit("worker response was not valid JSON: ");
        reveal_strlit("GetExitCodeProcess failed: ");
        reveal_strlit("stable AppContainer worker exited with code ");
        reveal_strlit(" before response");
    }
    match read {
        MailboxRead::Parsed(j) => PollStep::Finished(Ok(j)),
        MailboxRead::ReadFailed(why) => PollStep::Finished(
            Err(
                AdapterError::new(
                    "STABLE_SANDBOX_RESPONSE_ERROR",
                    text("read stable sandbox response: ").concat(why.as_str()),
                ),
            ),
        ),
        MailboxRead::Malformed(why) => PollStep::Finished(
            Err(
                AdapterError::new(
                    "STABLE_SANDBOX_RESPONSE_INVALID",
                    text("worker response was not valid JSON: ").concat(why.as_str()),
                ),
            ),
        ),
        MailboxRead::Nothing => match exit {
            Err(code) => {
                let d = crate::text::u64_to_decimal(code as u64);
                PollStep::Finished(
                    Err(
                        AdapterError::new(
                            "STABLE_SANDBOX_PROCESS_ERROR",
                            text("GetExitCodeProcess failed: ").concat(d.as_str()),
                        ),
                    ),
                )
            },
            Ok(code) => {
                if code != STILL_ACTIVE {
                    let d = crate::text::u64_to_decimal(code as u64);
                    PollStep::Finished(
                        Err(
                            AdapterError::new(
                                "STABLE_SANDBOX_WORKER_EXITED",
                                text("stable AppContainer worker exited with code ").concat(
                                    d.as_str(),
                                ).concat(" before response"),
                            ),
                        ),
                    )
                } else if deadline_passed {
                    PollStep::Terminate(
                        AdapterError::new(
                            "STABLE_SANDBOX_TIMEOUT",
                            text(
                                "stable AppContainer worker did not produce a response before timeout",
                            ),
                        ),
                    )
                } else {
                    PollStep::Wait
                }
            },
        },
    }
}

} // verus!
