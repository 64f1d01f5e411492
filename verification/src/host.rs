//! Host-side helpers of the daemon: the FNV-1a hash that names the pipe, the
//! pipe name itself, the constant-time token comparison, and the capability
//! list that the host advertises.
use vstd::prelude::*;
use vstd::string::StrSliceExecFns;
use vstd::string::StringExecFns;
use vstd::utf8::encode_utf8;
use crate::broker::segment_chars;
use crate::collections::{views, StrSet};
use crate::contracts::{
    negotiate_protocol, negotiated, CommandRequest, CommandResponse, HelloRequest, HelloResponse,
    IpcSecurityState, Producer, ENVELOPE_SCHEMA_VERSION,
};
use crate::json::{member, str_member, Json};
use crate::registry::{capability_id, capability_ids, CommandRegistry};
use crate::text::{hex_lower, strictly_sorted, to_hex_lower};

use crate::service::{join_path, joins, verbatim_prefix};

verus! {

/// 64-bit FNV-1a over bytes: start from the offset basis, and for each byte
/// xor it in and multiply by the FNV prime, modulo 2^64.
pub open spec fn fnv1a64_of(bytes: Seq<u8>) -> u64
    decreases bytes.len(),
{
    if bytes.len() == 0 {
        0xcbf29ce484222325u64
    } else {
        let h = fnv1a64_of(bytes.drop_last()) ^ (bytes.last() as u64);
        ((h as nat * 0x100000001b3nat) % 0x10000000000000000nat) as u64
    }
}

/// FNV-1a of the UTF-8 bytes of `value`.
pub fn fnv1a64(value: &str) -> (r: u64)
    ensures
        r == fnv1a64_of(encode_utf8(value@)),
{
    let bytes = value.as_bytes_vec();
    let mut hash: u64 = 0xcbf29ce484222325u64;
    let mut i: usize = 0;
    while i < bytes.len()
        invariant
            i <= bytes@.len(),
            bytes@ == encode_utf8(value@),
            hash == fnv1a64_of(bytes@.subrange(0, i as int)),
        decreases bytes@.len() - i,
    {
        proof {
            let p = bytes@.subrange(0, i + 1);
            assert(p.drop_last() =~= bytes@.subrange(0, i as int));
            assert(p.last() == bytes@[i as int]);
        }
        hash = (hash ^ (bytes[i] as u64)).wrapping_mul(0x100000001b3u64);
        i = i + 1;
    }
    assert(bytes@.subrange(0, bytes@.len() as int) =~= bytes@);
    hash
}

/// The eight bytes of `n`, most significant first.
pub open spec fn be_bytes(n: u64) -> Seq<u8> {
    seq![
        ((n >> 56u64) & 0xff) as u8,
        ((n >> 48u64) & 0xff) as u8,
        ((n >> 40u64) & 0xff) as u8,
        ((n >> 32u64) & 0xff) as u8,
        ((n >> 24u64) & 0xff) as u8,
        ((n >> 16u64) & 0xff) as u8,
        ((n >> 8u64) & 0xff) as u8,
        (n & 0xff) as u8,
    ]
}

/// `n` as 16 lower-case hexadecimal digits, as `format!("{n:016x}")`.
pub fn hex16(n: u64) -> (r: String)
    ensures
        r@ == hex_lower(be_bytes(n)),
{
    let bytes: Vec<u8> = vec![
        ((n >> 56u64) & 0xff) as u8,
        ((n >> 48u64) & 0xff) as u8,
        ((n >> 40u64) & 0xff) as u8,
        ((n >> 32u64) & 0xff) as u8,
        ((n >> 24u64) & 0xff) as u8,
        ((n >> 16u64) & 0xff) as u8,
        ((n >> 8u64) & 0xff) as u8,
        (n & 0xff) as u8,
    ];
    assert(bytes@ =~= be_bytes(n));
    to_hex_lower(bytes.as_slice())
}

/// The instance label from the `RELAY_INSTANCE` setting: its name
/// characters, at most 48; `None` when nothing is left.
pub open spec fn instance_label(setting: Option<Seq<char>>) -> Option<Seq<char>> {
    match setting {
        None => None,
        Some(v) => {
            let kept = segment_chars(v);
            if kept.len() == 0 {
                None
            } else if kept.len() <= 48 {
                Some(kept)
            } else {
                Some(kept.subrange(0, 48))
            }
        },
    }
}

/// The pipe name: the instance label, or the FNV-1a of the user SID in
/// hexadecimal when there is none.
pub open spec fn pipe_name_of(setting: Option<Seq<char>>, sid: Seq<char>) -> Seq<char> {
    let instance = match instance_label(setting) {
        Some(label) => label,
        None => hex_lower(be_bytes(fnv1a64_of(encode_utf8(sid)))),
    };
    "\\\\.\\pipe\\dsi-relay-"@ + instance + "-v1"@
}

fn instance_text(value: &str) -> (r: String)
    ensures
        segment_chars(value@).len() <= 48 ==> r@ == segment_chars(value@),
        segment_chars(value@).len() > 48 ==> r@ == segment_chars(value@).subrange(0, 48),
{
    let n = value.unicode_len();
    let mut out = String::new();
    let mut count: usize = 0;
    let mut i: usize = 0;
    while i < n
        invariant
            n == value@.len(),
            i <= n,
            count == out@.len(),
            count <= 48,
            segment_chars(value@.subrange(0, i as int)).len() <= 48 ==> out@ == segment_chars(
                value@.subrange(0, i as int),
            ),
            segment_chars(value@.subrange(0, i as int)).len() > 48 ==> out@ == segment_chars(
                value@.subrange(0, i as int),
            ).subrange(0, 48),
            segment_chars(value@.subrange(0, i as int)).len() >= 48 ==> count == 48,
        decreases n - i,
    {
        let c = value.get_char(i);
        let v = c as u32;
        let keep = (48 <= v && v <= 57) || (65 <= v && v <= 90) || (97 <= v && v <= 122) || c == '-'
            || c == '_';
        proof {
            let p = value@.subrange(0, i + 1);
            assert(p.drop_last() =~= value@.subrange(0, i as int));
            assert(p.last() == c);
        }
        if keep && count < 48 {
            let one = value.substring_char(i, i + 1);
            out = out.concat(one);
            count = count + 1;
            proof {
                let p = value@.subrange(0, i + 1);
                assert(out@ =~= segment_chars(p) || out@ =~= segment_chars(p).subrange(0, 48));
            }
        } else {
            proof {
                let p = value@.subrange(0, i + 1);
                if keep {
                    assert(segment_chars(p).subrange(0, 48) =~= segment_chars(p.drop_last()).subrange(
                        0,
                        48,
                    ));
                }
            }
        }
        i = i + 1;
    }
    assert(value@.subrange(0, n as int) =~= value@);
    out
}

/// The named pipe of the daemon for the user `sid`, given the value of the
/// `RELAY_INSTANCE` setting if it is set.
pub fn pipe_name(instance_setting: Option<&str>, sid: &str) -> (r: String)
    ensures
        r@ == pipe_name_of(
            match instance_setting {
                Some(v) => Some(v@),
                None => None,
            },
            sid@,
        ),
{
    let label = match instance_setting {
        Some(v) => {
            let t = instance_text(v);
            if t.as_str().unicode_len() == 0 {
                None
            } else {
                Some(t)
            }
        },
        None => None,
    };
    let instance = match label {
        Some(t) => t,
        None => hex16(fnv1a64(sid)),
    };
    String::from_str("\\\\.\\pipe\\dsi-relay-").concat(instance.as_str()).concat("-v1")
}

/// Equality of the UTF-8 bytes of two strings, computed without an early
/// exit once the lengths agree.
pub fn secure_equal(actual: &str, expected: &str) -> (r: bool)
    ensures
        r == (actual@ == expected@),
{
    let a = actual.as_bytes_vec();
    let b = expected.as_bytes_vec();
    proof {
        vstd::utf8::encode_utf8_decode_utf8(actual@);
        vstd::utf8::encode_utf8_decode_utf8(expected@);
    }
    if a.len() != b.len() {
        return false;
    }
    let mut acc: u8 = 0;
    let mut i: usize = 0;
    while i < a.len()
        invariant
            i <= a@.len(),
            a@.len() == b@.len(),
            acc == 0 <==> forall|k: int| 0 <= k < i ==> a@[k] == b@[k],
        decreases a@.len() - i,
    {
        let x = a[i];
        let y = b[i];
        let next = acc | (x ^ y);
        assert(next == 0 <==> (acc == 0 && x == y)) by (bit_vector)
            requires
                next == acc | (x ^ y),
        ;
        acc = next;
        i = i + 1;
    }
    if acc == 0 {
        assert(a@ =~= b@);
        true
    } else {
        false
    }
}

/// The extra capabilities of the host itself.
pub open spec fn host_extra_capability(s: Seq<char>) -> bool {
    s == "protocol.handshake@1"@ || s == "ipc.named-pipe.current-user@1"@ || s
        == "diagnostics.structured-jsonl@1"@
}

/// The capabilities the host advertises: the registry's capability ids and
/// the host's own, sorted, each once.
pub fn host_capabilities(registry: &CommandRegistry) -> (r: Vec<String>)
    ensures
        strictly_sorted(views(r@)),
        forall|s: Seq<char>|
            views(r@).contains(s) <==> (host_extra_capability(s) || exists|k: int|
                0 <= k < registry.commands@.len() && s == capability_id(
                    #[trigger] registry.commands@[k],
                )),
{
    let values = capability_ids(registry);
    let mut set = StrSet::from_vec(values);
    set.insert(String::from_str("protocol.handshake@1"));
    set.insert(String::from_str("ipc.named-pipe.current-user@1"));
    set.insert(String::from_str("diagnostics.structured-jsonl@1"));
    let r = set.to_vec();
    proof {
        assert forall|s: Seq<char>|
            views(r@).contains(s) <==> (host_extra_capability(s) || exists|k: int|
                0 <= k < registry.commands@.len() && s == capability_id(
                    #[trigger] registry.commands@[k],
                )) by {
            assert(set.set() == views(r@).to_set());
            assert(views(r@).to_set().contains(s) == views(r@).contains(s));
            assert(views(values@).to_set().contains(s) == views(values@).contains(s));
        }
    }
    r
}


/// Where the daemon keeps its state: `relay_state_dir` (the
/// `RELAY_STATE_DIR` setting) when given, else `DSI/RELAY` under
/// `local_app_data` (the `LOCALAPPDATA` setting), else under `temp_dir`.
pub fn state_dir_from(relay_state_dir: Option<&str>, local_app_data: Option<&str>, temp_dir: &str) -> (r:
    String)
    ensures
        relay_state_dir matches Some(d) ==> r@ == d@,
        relay_state_dir is None && local_app_data is Some && !verbatim_prefix(local_app_data->0@)
            ==> exists|mid: Seq<char>|
            #[trigger] joins(mid, local_app_data->0@, "DSI"@) && (!verbatim_prefix(mid) ==> joins(
                r@,
                mid,
                "RELAY"@,
            )),
        relay_state_dir is None && local_app_data is None && !verbatim_prefix(temp_dir@) ==> exists|
            mid: Seq<char>,
        |
            #[trigger] joins(mid, temp_dir@, "DSI"@) && (!verbatim_prefix(mid) ==> joins(
                r@,
                mid,
                "RELAY"@,
            )),
{
    proof {
        reveal_strlit("DSI");
        reveal_strlit("RELAY");
        reveal_strlit(".");
        reveal_strlit("..");
    }
    match relay_state_dir {
        Some(d) => String::from_str(d),
        None => {
            let base = match local_app_data {
                Some(l) => l,
                None => temp_dir,
            };
            let mid = join_path(base, "DSI");
            assert("RELAY"@.len() != ".."@.len());
            let r = join_path(mid.as_str(), "RELAY");
            proof {
                if !verbatim_prefix(base@) {
                    assert(joins(mid@, base@, "DSI"@));
                }
            }
            r
        },
    }
}

/// The host state file, `host.json` in the state directory.
pub fn state_path(state_dir: &str) -> (r: String)
    ensures
        !verbatim_prefix(state_dir@) ==> joins(r@, state_dir@, "host.json"@),
{
    proof {
        reveal_strlit("host.json");
        reveal_strlit(".");
        reveal_strlit("..");
    }
    join_path(state_dir, "host.json")
}


/// `s` lists the capabilities a host advertises for `registry`.
pub open spec fn advertises(s: Seq<String>, registry: CommandRegistry) -> bool {
    &&& strictly_sorted(views(s))
    &&& forall|c: Seq<char>|
        views(s).contains(c) <==> (host_extra_capability(c) || exists|k: int|
            0 <= k < registry.commands@.len() && c == capability_id(
                #[trigger] registry.commands@[k],
            ))
}

/// A refused greeting, as the `hello_error` a client is sent.
pub struct HandshakeRefusal {
    pub code: &'static str,
    pub message: String,
}

/// Why a client's greeting is refused: it could not be read, it is not a
/// `hello` carrying the host's token, or the protocol ranges are disjoint.
pub open spec fn handshake_refusal(hello: Option<HelloRequest>, auth_token: Seq<char>) -> Option<
    (Seq<char>, Seq<char>),
> {
    match hello {
        None => Some(("BAD_HANDSHAKE"@, "hello request was invalid"@)),
        Some(h) => if h.message_type@ != "hello"@ || h.auth_token@ != auth_token {
            Some(("UNAUTHORIZED"@, "local host authentication failed"@))
        } else if negotiated(h.protocol_min, h.protocol_max) is None {
            Some(("PROTOCOL_INCOMPATIBLE"@, "client/host protocol ranges do not overlap"@))
        } else {
            None
        },
    }
}

/// The host's side of the handshake: a greeting that is well formed, carries
/// the host's token and shares a protocol version is answered with the
/// negotiated version and the host's capabilities.
pub fn handshake(
    registry: &CommandRegistry,
    hello: Option<&HelloRequest>,
    auth_token: &str,
    server: Producer,
) -> (r: Result<HelloResponse, HandshakeRefusal>)
    ensures
        r is Ok <==> handshake_refusal(
            match hello {
                Some(h) => Some(*h),
                None => None,
            },
            auth_token@,
        ) is None,
        r matches Err(e) ==> handshake_refusal(
            match hello {
                Some(h) => Some(*h),
                None => None,
            },
            auth_token@,
        ) == Some((e.code@, e.message@)),
        r matches Ok(g) ==> {
            &&& g.message_type@ == "hello_ok"@
            &&& g.protocol == negotiated(hello->0.protocol_min, hello->0.protocol_max)->0
            &&& g.schema_version == ENVELOPE_SCHEMA_VERSION
            &&& g.server == server
            &&& advertises(g.capabilities@, *registry)
        },
{
    proof {
        reveal_strlit("hello");
        reveal_strlit("hello_ok");
        reveal_strlit("hello request was invalid");
        reveal_strlit("local host authentication failed");
        reveal_strlit("client/host protocol ranges do not overlap");
    }
    let h = match hello {
        None => {
            return Err(
                HandshakeRefusal {
                    code: "BAD_HANDSHAKE",
                    message: String::from_str("hello request was invalid"),
                },
            );
        },
        Some(h) => h,
    };
    if !crate::text::str_eq(h.message_type.as_str(), "hello") || !secure_equal(
        h.auth_token.as_str(),
        auth_token,
    ) {
        return Err(
            HandshakeRefusal {
                code: "UNAUTHORIZED",
                message: String::from_str("local host authentication failed"),
            },
        );
    }
    let protocol = match negotiate_protocol(h.protocol_min, h.protocol_max) {
        Some(p) => p,
        None => {
            return Err(
                HandshakeRefusal {
                    code: "PROTOCOL_INCOMPATIBLE",
                    message: String::from_str("client/host protocol ranges do not overlap"),
                },
            );
        },
    };
    Ok(
        HelloResponse {
            message_type: String::from_str("hello_ok"),
            protocol,
            schema_version: ENVELOPE_SCHEMA_VERSION,
            server,
            capabilities: host_capabilities(registry),
        },
    )
}

/// Whether the kernel's view of the pipe's security is the one the host
/// asked for: a protected DACL owned by, and granting full control to, the
/// current user alone, in a single entry.
pub fn pipe_security_accepted(
    query_ok: bool,
    protected_dacl: bool,
    owner_is_current_user: bool,
    current_user_only: bool,
    current_user_full_control: bool,
    ace_count: u32,
) -> (r: bool)
    ensures
        r == (query_ok && protected_dacl && owner_is_current_user && current_user_only
            && current_user_full_control && ace_count == 1),
{
    query_ok && protected_dacl && owner_is_current_user && current_user_only
        && current_user_full_control && ace_count == 1
}

/// How the host's pipe is secured, as it publishes it.
pub fn pipe_security_state(ace_count: u32) -> (r: IpcSecurityState)
    ensures
        r.transport@ == "windows_named_pipe"@,
        r.explicit_dacl,
        r.kernel_acl_verified,
        r.owner_current_user,
        r.acl_ace_count == ace_count,
        r.scope@ == "current_user"@,
        r.auth_token,
{
    proof {
        reveal_strlit("windows_named_pipe");
        reveal_strlit("current_user");
    }
    IpcSecurityState {
        transport: String::from_str("windows_named_pipe"),
        explicit_dacl: true,
        kernel_acl_verified: true,
        owner_current_user: true,
        acl_ace_count: ace_count,
        scope: String::from_str("current_user"),
        auth_token: true,
    }
}

/// What the host publishes from its first status: the recovery state
/// (`Degraded` when the status names none) and the storage schema version.
/// A status without a result is an error.
pub fn boot_status(status: &CommandResponse) -> (r: Result<(String, Option<i64>), String>)
    ensures
        status.result is None ==> r is Err,
        status.result matches Some(v) ==> r matches Ok((state, version)) && state@ == (match str_member(
            v,
            "recovery_state"@,
        ) {
            Some(s) => s,
            None => "Degraded"@,
        }) && version == (match member(v, "storage"@) {
            Some(storage) => match member(storage, "schema_version"@) {
                Some(Json::Int(n)) => Some(n),
                _ => None,
            },
            None => None,
        }),
{
    proof {
        reveal_strlit("Degraded");
    }
    let result = match &status.result {
        Some(v) => v,
        None => {
            return Err(String::from_str("initial Core status failed"));
        },
    };
    let state = match result.get("recovery_state") {
        Some(v) => match v.as_str() {
            Some(s) => String::from_str(s),
            None => String::from_str("Degraded"),
        },
        None => String::from_str("Degraded"),
    };
    let version = match result.get("storage") {
        Some(storage) => match storage.get("schema_version") {
            Some(v) => v.as_i64(),
            None => None,
        },
        None => None,
    };
    Ok((state, version))
}

/// Whether an answered request stops the host: an accepted `system.shutdown`.
pub fn shutdown_accepted(request: &CommandRequest, response: &CommandResponse) -> (r: bool)
    ensures
        r == (request.command@ == "system.shutdown"@ && response.ok),
{
    crate::text::str_eq(request.command.as_str(), "system.shutdown") && response.ok
}

} // verus!
