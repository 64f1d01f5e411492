//! The decisions taken around one command run by the host: the checks that
//! refuse a command before any work, the fingerprint that idempotent replay
//! compares, what a replay or a business outcome answers, what the
//! transaction record says, and which errors a command may report. The host
//! does the storage work between these steps.
use vstd::prelude::*;
use vstd::string::StrSliceExecFns;
use vstd::string::StringExecFns;
use vstd::utf8::encode_utf8;
use crate::canonical::{canonical_json, canonical_text, lemma_canonical_text};
use crate::catalog::{compact_list, describe, is_compact_list, is_contract_json, is_string_array};
use crate::contracts::{
    CommandRequest, CommandResponse, ErrorEnvelope, Producer, RequestContext,
    ENVELOPE_SCHEMA_VERSION,
};
use crate::json::{quote, quoted, str_member, to_compact, u64_member, Json};
use crate::manifest::{sha256_digest, sha256_hex};
use crate::policy::{str_opt_view, ExecutionAuthority};
use crate::registry::{
    error_code_allowed, first_match, is_error_allowed, latest_match, resolve_command, versions_of,
    CommandRegistry, CommandSpec, ResolveError,
};
use crate::schema::{validate_value, violation};
use crate::service::{
    authorize_preflight, is_registering, preflight_refusal, registers_project, string_argument,
    transaction_project_id, CoreCommandError,
};
use crate::storage::{IdempotencyRecord, NewTransaction};
use crate::text::{decimal, hex_lower, str_eq, u64_to_decimal};

verus! {

fn text(s: &str) -> (r: String)
    ensures
        r@ == s@,
{
    String::from_str(s)
}

/// `[1, 2, 3]`: a version list as `{:?}` prints it.
pub open spec fn version_list(v: Seq<u32>) -> Seq<char> {
    seq!['['] + version_items(v, v.len() as int) + seq![']']
}

pub open spec fn version_items(v: Seq<u32>, n: int) -> Seq<char>
    decreases n,
{
    if n <= 0 || n > v.len() {
        Seq::empty()
    } else if n == 1 {
        decimal(v[0] as nat)
    } else {
        version_items(v, n - 1) + ", "@ + decimal(v[n - 1] as nat)
    }
}

pub fn version_list_text(v: &Vec<u32>) -> (r: String)
    ensures
        r@ == version_list(v@),
{
    proof {
        reveal_strlit("[");
        reveal_strlit("]");
        reveal_strlit(", ");
    }
    let mut out = text("[");
    let mut i: usize = 0;
    while i < v.len()
        invariant
            i <= v@.len(),
            out@ == seq!['['] + version_items(v@, i as int),
        decreases v@.len() - i,
    {
        let d = u64_to_decimal(v[i] as u64);
        if i > 0 {
            out = out.concat(", ");
        }
        out = out.concat(d.as_str());
        assert(out@ =~= seq!['['] + version_items(v@, i + 1));
        i = i + 1;
    }
    let r = out.concat("]");
    assert(r@ =~= version_list(v@));
    r
}

/// A command refused before it ran: the version it is answered under, the
/// error, and the effect class and permission its usage is recorded with.
pub struct Refusal {
    pub command_version: u32,
    pub code: &'static str,
    pub message: String,
    pub effect_class: String,
    pub permission: String,
}

/// The requested version, or 0 when none was given.
pub open spec fn requested_or_zero(request: CommandRequest) -> u32 {
    match request.command_version {
        Some(v) => v,
        None => 0,
    }
}

/// The registry entry a request resolves to (-1 if none): the requested
/// version, or the latest one.
pub open spec fn resolved_index(registry: CommandRegistry, request: CommandRequest) -> int {
    let cmds = registry.commands@;
    let n = cmds.len() as int;
    if latest_match(cmds, request.command@, n) < 0 {
        -1
    } else {
        match request.command_version {
            None => latest_match(cmds, request.command@, n),
            Some(v) => first_match(cmds, request.command@, v, n),
        }
    }
}

/// Why a command is refused before it runs, as (version, code, message,
/// effect class, permission): an unknown command, an unsupported version,
/// arguments that break the contract's schema, or the authority's checks.
pub open spec fn admission_refusal(
    registry: CommandRegistry,
    request: CommandRequest,
    authority: ExecutionAuthority,
) -> Option<(u32, Seq<char>, Seq<char>, Seq<char>, Seq<char>)> {
    let cmds = registry.commands@;
    let n = cmds.len() as int;
    let id = request.command@;
    if latest_match(cmds, id, n) < 0 {
        Some(
            (
                requested_or_zero(request),
                "COMMAND_UNKNOWN"@,
                "unknown command "@ + id,
                "unknown"@,
                "unknown"@,
            ),
        )
    } else if resolved_index(registry, request) < 0 {
        Some(
            (
                requested_or_zero(request),
                "COMMAND_VERSION_INCOMPATIBLE"@,
                "unsupported version for "@ + id + "; supported: "@ + version_list(
                    versions_of(cmds, id, n),
                ),
                "unknown"@,
                "unknown"@,
            ),
        )
    } else {
        let spec = cmds[resolved_index(registry, request)];
        match violation(spec.arguments_schema, request.arguments, "$"@) {
            Some((path, message)) => Some(
                (
                    spec.version,
                    "VALIDATION_FAILED"@,
                    path + " "@ + message,
                    spec.effect_class@,
                    spec.permission@,
                ),
            ),
            None => match preflight_refusal(
                request,
                spec.effect_class@,
                spec.permission@,
                authority,
            ) {
                Some((code, message)) => Some(
                    (spec.version, code, message, spec.effect_class@, spec.permission@),
                ),
                None => None,
            },
        }
    }
}

/// The checks that precede every command: the contract is resolved, the
/// arguments are validated against it, and the authority is consulted.
pub fn admit_command<'a>(
    registry: &'a CommandRegistry,
    request: &CommandRequest,
    authority: &ExecutionAuthority,
) -> (r: Result<&'a CommandSpec, Refusal>)
    ensures
        r is Ok <==> admission_refusal(*registry, *request, *authority) is None,
        r matches Ok(spec) ==> *spec == registry.commands@[resolved_index(*registry, *request)],
        r matches Err(e) ==> admission_refusal(*registry, *request, *authority) == Some(
            (e.command_version, e.code@, e.message@, e.effect_class@, e.permission@),
        ),
{
    proof {
        reveal_strlit("unknown");
        reveal_strlit("unknown command ");
        reveal_strlit("unsupported version for ");
        reveal_strlit("; supported: ");
        reveal_strlit(" ");
    }
    let requested: u32 = match request.command_version {
        Some(v) => v,
        None => 0,
    };
    let spec = match resolve_command(registry, request.command.as_str(), request.command_version) {
        Ok(spec) => spec,
        Err(ResolveError::UnknownCommand) => {
            return Err(
                Refusal {
                    command_version: requested,
                    code: "COMMAND_UNKNOWN",
                    message: text("unknown command ").concat(request.command.as_str()),
                    effect_class: text("unknown"),
                    permission: text("unknown"),
                },
            );
        },
        Err(ResolveError::VersionIncompatible { supported }) => {
            let listed = version_list_text(&supported);
            let message = text("unsupported version for ").concat(request.command.as_str()).concat(
                "; supported: ",
            ).concat(listed.as_str());
            return Err(
                Refusal {
                    command_version: requested,
                    code: "COMMAND_VERSION_INCOMPATIBLE",
                    message,
                    effect_class: text("unknown"),
                    permission: text("unknown"),
                },
            );
        },
    };
    match validate_value(&spec.arguments_schema, &request.arguments) {
        Err(e) => {
            let message = e.path.concat(" ").concat(e.message.as_str());
            return Err(
                Refusal {
                    command_version: spec.version,
                    code: "VALIDATION_FAILED",
                    message,
                    effect_class: spec.effect_class.clone(),
                    permission: spec.permission.clone(),
                },
            );
        },
        Ok(()) => {},
    }
    match authorize_preflight(
        request,
        spec.effect_class.as_str(),
        spec.permission.as_str(),
        authority,
    ) {
        Err(e) => {
            return Err(
                Refusal {
                    command_version: spec.version,
                    code: e.code,
                    message: e.message,
                    effect_class: spec.effect_class.clone(),
                    permission: spec.permission.clone(),
                },
            );
        },
        Ok(()) => {},
    }
    Ok(spec)
}

/// The request as run under `authority`: its context names the authority's
/// actor, client and delegator.
pub fn attribute_request(request: &mut CommandRequest, authority: &ExecutionAuthority)
    ensures
        final(request).request_id == old(request).request_id,
        final(request).command == old(request).command,
        final(request).command_version == old(request).command_version,
        final(request).arguments == old(request).arguments,
        final(request).idempotency_key == old(request).idempotency_key,
        final(request).context.actor_id == Some(authority.actor_id),
        final(request).context.client_id == Some(authority.client_id),
        final(request).context.delegator_id == authority.delegator_id,
{
    request.context = RequestContext {
        actor_id: Some(authority.actor_id.clone()),
        client_id: Some(authority.client_id.clone()),
        delegator_id: authority.delegator_id.clone(),
    };
}

/// `"key":"value"` for a present context member.
pub open spec fn context_member(key: Seq<char>, value: Option<String>) -> Seq<Seq<char>> {
    match value {
        Some(v) => seq![quoted(key) + ":"@ + quoted(v@)],
        None => Seq::empty(),
    }
}

pub open spec fn comma_joined(parts: Seq<Seq<char>>) -> Seq<char>
    decreases parts.len(),
{
    if parts.len() == 0 {
        Seq::empty()
    } else if parts.len() == 1 {
        parts[0]
    } else {
        comma_joined(parts.drop_last()) + ","@ + parts.last()
    }
}

/// The serialized context: its present members, in key order.
pub open spec fn context_text(c: RequestContext) -> Seq<char> {
    "{"@ + comma_joined(
        context_member("actor_id"@, c.actor_id) + context_member("client_id"@, c.client_id)
            + context_member("delegator_id"@, c.delegator_id),
    ) + "}"@
}

/// The canonical text a request's fingerprint is taken over: its arguments,
/// command, version and context, members in key order.
pub open spec fn fingerprint_text(request: CommandRequest, command_version: u32) -> Seq<char> {
    "{\"arguments\":"@ + canonical_text(request.arguments) + ",\"command\":"@ + quoted(
        request.command@,
    ) + ",\"command_version\":"@ + decimal(command_version as nat) + ",\"context\":"@
        + context_text(request.context) + "}"@
}

/// The fingerprint of a request: the lower-case hex SHA-256 of the UTF-8
/// bytes of its canonical text.
pub open spec fn fingerprint_of(request: CommandRequest, command_version: u32) -> Seq<char> {
    hex_lower(sha256_digest(encode_utf8(fingerprint_text(request, command_version))))
}

fn push_member(out: String, first: bool, key: &str, value: &Option<String>) -> (r: (String, bool))
    ensures
        value is None ==> r.0@ == out@ && r.1 == first,
        value matches Some(v) ==> r.0@ == out@ + (if first {
            Seq::empty()
        } else {
            ","@
        }) + quoted(key@) + ":"@ + quoted(v@) && !r.1,
{
    proof {
        reveal_strlit(",");
        reveal_strlit(":");
    }
    match value {
        None => (out, first),
        Some(v) => {
            let mut out = out;
            if !first {
                out = out.concat(",");
            }
            let k = quote(key);
            let q = quote(v.as_str());
            (out.concat(k.as_str()).concat(":").concat(q.as_str()), false)
        },
    }
}

proof fn lemma_comma_joined_push(parts: Seq<Seq<char>>, p: Seq<char>)
    ensures
        comma_joined(parts.push(p)) == comma_joined(parts) + (if parts.len() == 0 {
            Seq::empty()
        } else {
            ","@
        }) + p,
{
    reveal_strlit(",");
    assert(parts.push(p).drop_last() =~= parts);
    if parts.len() == 0 {
        assert(parts.push(p).len() == 1);
        assert(comma_joined(parts) =~= Seq::<char>::empty());
        assert(Seq::<char>::empty() + Seq::<char>::empty() + p =~= p);
    }
}

#[verifier::spinoff_prover]
#[verifier::rlimit(40)]
fn context_json_text(c: &RequestContext) -> (r: String)
    ensures
        r@ == context_text(*c),
{
    proof {
        reveal_strlit("{");
        reveal_strlit("}");
        reveal_strlit("actor_id");
        reveal_strlit("client_id");
        reveal_strlit("delegator_id");
    }
    let ghost p0: Seq<Seq<char>> = Seq::empty();
    let ghost p1 = p0 + context_member("actor_id"@, c.actor_id);
    let ghost p2 = p1 + context_member("client_id"@, c.client_id);
    let ghost p3 = p2 + context_member("delegator_id"@, c.delegator_id);
    let (out, first) = push_member(text("{"), true, "actor_id", &c.actor_id);
    proof {
        if c.actor_id is Some {
            lemma_comma_joined_push(p0, context_member("actor_id"@, c.actor_id)[0]);
            assert(p1 =~= p0.push(context_member("actor_id"@, c.actor_id)[0]));
        } else {
            assert(p1 =~= p0);
        }
        assert(out@ =~= "{"@ + comma_joined(p1));
        assert(first == (p1.len() == 0));
    }
    let (out, first) = push_member(out, first, "client_id", &c.client_id);
    proof {
        if c.client_id is Some {
            lemma_comma_joined_push(p1, context_member("client_id"@, c.client_id)[0]);
            assert(p2 =~= p1.push(context_member("client_id"@, c.client_id)[0]));
        } else {
            assert(p2 =~= p1);
        }
        assert(out@ =~= "{"@ + comma_joined(p2));
        assert(first == (p2.len() == 0));
    }
    let (out, _first) = push_member(out, first, "delegator_id", &c.delegator_id);
    proof {
        if c.delegator_id is Some {
            lemma_comma_joined_push(p2, context_member("delegator_id"@, c.delegator_id)[0]);
            assert(p3 =~= p2.push(context_member("delegator_id"@, c.delegator_id)[0]));
        } else {
            assert(p3 =~= p2);
        }
        assert(out@ =~= "{"@ + comma_joined(p3));
        assert(p3 =~= context_member("actor_id"@, c.actor_id) + context_member(
            "client_id"@,
            c.client_id,
        ) + context_member("delegator_id"@, c.delegator_id));
    }
    let r = out.concat("}");
    assert(r@ =~= context_text(*c));
    r
}

/// Fingerprints ignore the order in which argument members were written:
/// two requests for the same command, version and context whose arguments
/// have the same canonical form have the same fingerprint.
pub proof fn law_fingerprint_ignores_member_order(
    first: CommandRequest,
    second: CommandRequest,
    command_version: u32,
    canonical: Json,
)
    requires
        first.command@ == second.command@,
        opt_string_view(first.context.actor_id) == opt_string_view(second.context.actor_id),
        opt_string_view(first.context.client_id) == opt_string_view(second.context.client_id),
        opt_string_view(first.context.delegator_id) == opt_string_view(
            second.context.delegator_id,
        ),
        crate::canonical::canonical_form(first.arguments, canonical),
        crate::canonical::canonical_form(second.arguments, canonical),
    ensures
        fingerprint_of(first, command_version) == fingerprint_of(second, command_version),
{
    lemma_canonical_text(first.arguments, canonical);
    lemma_canonical_text(second.arguments, canonical);
    assert(context_member("actor_id"@, first.context.actor_id) == context_member(
        "actor_id"@,
        second.context.actor_id,
    ));
    assert(context_member("client_id"@, first.context.client_id) == context_member(
        "client_id"@,
        second.context.client_id,
    ));
    assert(context_member("delegator_id"@, first.context.delegator_id) == context_member(
        "delegator_id"@,
        second.context.delegator_id,
    ));
    assert(fingerprint_text(first, command_version) == fingerprint_text(second, command_version));
}

/// The fingerprint that an idempotency record keeps of its request.
pub fn request_fingerprint(request: &CommandRequest, command_version: u32) -> (r: String)
    ensures
        r@ == fingerprint_of(*request, command_version),
{
    proof {
        reveal_strlit("{\"arguments\":");
        reveal_strlit(",\"command\":");
        reveal_strlit(",\"command_version\":");
        reveal_strlit(",\"context\":");
        reveal_strlit("}");
    }
    let arguments = canonical_json(&request.arguments);
    proof {
        lemma_canonical_text(request.arguments, arguments);
    }
    let arguments_text = to_compact(&arguments);
    let command_text = quote(request.command.as_str());
    let version_text = u64_to_decimal(command_version as u64);
    let context = context_json_text(&request.context);
    let whole = text("{\"arguments\":").concat(arguments_text.as_str()).concat(
        ",\"command\":",
    ).concat(command_text.as_str()).concat(",\"command_version\":").concat(
        version_text.as_str(),
    ).concat(",\"context\":").concat(context.as_str()).concat("}");
    assert(whole@ =~= fingerprint_text(*request, command_version));
    let bytes = whole.as_str().as_bytes_vec();
    sha256_hex(bytes.as_slice())
}

/// `r` answers `request` under `command_version` with the error `code`.
pub open spec fn is_failure(
    r: CommandResponse,
    request: CommandRequest,
    command_version: u32,
    producer: Producer,
    code: Seq<char>,
    message: Seq<char>,
) -> bool {
    &&& r.message_type@ == "command_result"@
    &&& r.request_id@ == request.request_id@
    &&& r.command_version == command_version
    &&& r.schema_version == ENVELOPE_SCHEMA_VERSION
    &&& r.producer == producer
    &&& !r.ok
    &&& r.result is None
    &&& r.error matches Some(e) && e.code@ == code && e.message@ == message
    &&& !r.replayed
}

/// `r` answers `request` under `command_version` with `result`.
pub open spec fn is_success(
    r: CommandResponse,
    request: CommandRequest,
    command_version: u32,
    producer: Producer,
    result: Json,
) -> bool {
    &&& r.message_type@ == "command_result"@
    &&& r.request_id@ == request.request_id@
    &&& r.command_version == command_version
    &&& r.schema_version == ENVELOPE_SCHEMA_VERSION
    &&& r.producer == producer
    &&& r.ok
    &&& r.result == Some(result)
    &&& r.error is None
    &&& !r.replayed
}

pub(crate) fn failure(
    request: &CommandRequest,
    command_version: u32,
    producer: Producer,
    code: &str,
    message: String,
) -> (r: CommandResponse)
    ensures
        is_failure(r, *request, command_version, producer, code@, message@),
{
    CommandResponse::failure(request, command_version, producer, text(code), message)
}

/// `r` is what a command answers once its handler gave `business`.
pub open spec fn outcome_as(request: CommandRequest, spec: CommandSpec, producer: Producer, business: Result<Json, CoreCommandError>, r: CommandResponse) -> bool {
    match business {
        Ok(result) => match violation(spec.result_schema, result, "$"@) {
            Some((path, message)) => is_failure(
                r,
                request,
                spec.version,
                producer,
                "RESULT_SCHEMA_VIOLATION"@,
                path + " "@ + message,
            ),
            None => is_success(r, request, spec.version, producer, result),
        },
        Err(e) => is_failure(r, request, spec.version, producer, e.code@, e.message@),
    }
}

/// What a command answers once its handler has run: the handler's result if
/// it conforms to the contract's result schema, else the violation; or the
/// handler's error.
pub fn command_outcome(
    request: &CommandRequest,
    spec: &CommandSpec,
    producer: Producer,
    business: Result<Json, CoreCommandError>,
) -> (r: CommandResponse)
    ensures
        outcome_as(*request, *spec, producer, business, r),
{
    proof {
        reveal_strlit(" ");
    }
    match business {
        Ok(result) => match validate_value(&spec.result_schema, &result) {
            Err(e) => {
                let message = e.path.concat(" ").concat(e.message.as_str());
                failure(request, spec.version, producer, "RESULT_SCHEMA_VIOLATION", message)
            },
            Ok(()) => CommandResponse::success(request, spec.version, producer, result),
        },
        Err(e) => failure(request, spec.version, producer, e.code, e.message),
    }
}

/// The idempotency key a command's outcome is looked up and kept under:
/// present only for commands that are not `safe` and that carry a key.
pub fn idempotency_key<'a>(spec: &CommandSpec, request: &'a CommandRequest) -> (r: Option<&'a str>)
    ensures
        r is Some <==> spec.idempotency@ != "safe"@ && request.idempotency_key is Some,
        r matches Some(k) ==> k@ == request.idempotency_key->0@,
{
    if str_eq(spec.idempotency.as_str(), "safe") {
        return None;
    }
    match &request.idempotency_key {
        Some(k) => Some(k.as_str()),
        None => None,
    }
}

/// What the idempotency store holds under a request's key.
pub enum StoredOutcome {
    /// Nothing is kept under the key.
    Missing,
    /// The store could not be read.
    Unreadable(CoreCommandError),
    /// A record, with the response it keeps as read back (or why it could
    /// not be read back).
    Found { record: IdempotencyRecord, response: Result<CommandResponse, String> },
}

/// `r` is `stored` answered again to `request`: its request id and producer,
/// marked as a replay, with the stored version, outcome, result and error.
pub open spec fn is_replay_of(
    r: CommandResponse,
    stored: CommandResponse,
    request: CommandRequest,
    producer: Producer,
) -> bool {
    &&& r.message_type == stored.message_type
    &&& r.request_id@ == request.request_id@
    &&& r.command_version == stored.command_version
    &&& r.schema_version == stored.schema_version
    &&& r.producer == producer
    &&& r.ok == stored.ok
    &&& r.result == stored.result
    &&& r.error == stored.error
    &&& r.replayed
}

/// `r` is what a request is answered from what the idempotency store holds
/// under its key (`None`: nothing kept, run the command).
pub open spec fn replayed_as(request: CommandRequest, command_version: u32, producer: Producer, stored: StoredOutcome, r: Option<CommandResponse>) -> bool {
    match stored {
        StoredOutcome::Missing => r is None,
        StoredOutcome::Unreadable(e) => r matches Some(x) && is_failure(
            x,
            request,
            command_version,
            producer,
            e.code@,
            e.message@,
        ),
        StoredOutcome::Found { record, response } => if record.command@ != request.command@
            || record.request_sha256@ != fingerprint_of(request, command_version) {
            r matches Some(x) && is_failure(
                x,
                request,
                command_version,
                producer,
                "IDEMPOTENCY_CONFLICT"@,
                "idempotency key was already used for a different request"@,
            )
        } else {
            match response {
                Ok(kept) => r matches Some(x) && is_replay_of(x, kept, request, producer),
                Err(why) => r matches Some(x) && is_failure(
                    x,
                    request,
                    command_version,
                    producer,
                    "STORAGE_ERROR"@,
                    "stored idempotency response is invalid: "@ + why@,
                ),
            }
        },
    }
}

/// The answer that a kept outcome gives to a request: none when nothing is
/// kept; a conflict when the key was used for another command or for
/// different content; else the kept response, replayed.
pub fn replay_outcome(
    request: &CommandRequest,
    command_version: u32,
    producer: Producer,
    stored: StoredOutcome,
) -> (r: Option<CommandResponse>)
    ensures
        replayed_as(*request, command_version, producer, stored, r),
{
    proof {
        reveal_strlit("idempotency key was already used for a different request");
        reveal_strlit("stored idempotency response is invalid: ");
    }
    match stored {
        StoredOutcome::Missing => None,
        StoredOutcome::Unreadable(e) => Some(
            failure(request, command_version, producer, e.code, e.message),
        ),
        StoredOutcome::Found { record, response } => {
            let fingerprint = request_fingerprint(request, command_version);
            if record.command != request.command || record.request_sha256 != fingerprint {
                return Some(
                    failure(
                        request,
                        command_version,
                        producer,
                        "IDEMPOTENCY_CONFLICT",
                        text("idempotency key was already used for a different request"),
                    ),
                );
            }
            match response {
                Ok(kept) => Some(
                    CommandResponse {
                        message_type: kept.message_type,
                        request_id: request.request_id.clone(),
                        command_version: kept.command_version,
                        schema_version: kept.schema_version,
                        producer,
                        ok: kept.ok,
                        result: kept.result,
                        error: kept.error,
                        replayed: true,
                    },
                ),
                Err(why) => Some(
                    failure(
                        request,
                        command_version,
                        producer,
                        "STORAGE_ERROR",
                        text("stored idempotency response is invalid: ").concat(why.as_str()),
                    ),
                ),
            }
        },
    }
}

/// The step after a completed outcome was offered to the idempotency store.
pub enum PersistStep {
    /// Answer with this response.
    Answer(CommandResponse),
    /// Another request kept an outcome under the key first: look it up again.
    Contended,
}

/// `r` is the step after offering `response` to the idempotency store.
pub open spec fn persisted_as(request: CommandRequest, command_version: u32, producer: Producer, response: CommandResponse, kept: Result<(), CoreCommandError>, r: PersistStep) -> bool {
    match kept {
        Ok(()) => r == PersistStep::Answer(response),
        Err(e) => if e.code@ == "IDEMPOTENCY_CONFLICT"@ {
            r is Contended
        } else {
            r matches PersistStep::Answer(x) && is_failure(
                x,
                request,
                command_version,
                producer,
                "IDEMPOTENCY_PERSIST_FAILED"@,
                "write completed but replay metadata failed: "@ + e.message@,
            )
        },
    }
}

/// What keeping a completed outcome leads to: the response itself once it
/// is kept; a new lookup when another request won the key; else a failure
/// that says the write happened but its replay record did not.
pub fn persist_step(
    request: &CommandRequest,
    command_version: u32,
    producer: Producer,
    response: CommandResponse,
    kept: Result<(), CoreCommandError>,
) -> (r: PersistStep)
    ensures
        persisted_as(*request, command_version, producer, response, kept, r),
{
    proof {
        reveal_strlit("IDEMPOTENCY_CONFLICT");
        reveal_strlit("write completed but replay metadata failed: ");
    }
    match kept {
        Ok(()) => PersistStep::Answer(response),
        Err(e) => {
            if str_eq(e.code, "IDEMPOTENCY_CONFLICT") {
                PersistStep::Contended
            } else {
                PersistStep::Answer(
                    failure(
                        request,
                        command_version,
                        producer,
                        "IDEMPOTENCY_PERSIST_FAILED",
                        text("write completed but replay metadata failed: ").concat(
                            e.message.as_str(),
                        ),
                    ),
                )
            }
        },
    }
}

/// `r` is the answer once a contended key was looked up again.
pub open spec fn contended_as(request: CommandRequest, command_version: u32, producer: Producer, replayed: Option<CommandResponse>, r: CommandResponse) -> bool {
    match replayed {
        Some(x) => r == x,
        None => is_failure(
            r,
            request,
            command_version,
            producer,
            "IDEMPOTENCY_CONFLICT"@,
            "idempotency race could not be resolved"@,
        ),
    }
}

/// The answer after a contended key was looked up again: the outcome kept
/// by the other request, or a conflict when none can be read back.
pub fn contended_outcome(
    request: &CommandRequest,
    command_version: u32,
    producer: Producer,
    replayed: Option<CommandResponse>,
) -> (r: CommandResponse)
    ensures
        contended_as(*request, command_version, producer, replayed, r),
{
    proof {
        reveal_strlit("idempotency race could not be resolved");
    }
    match replayed {
        Some(x) => x,
        None => failure(
            request,
            command_version,
            producer,
            "IDEMPOTENCY_CONFLICT",
            text("idempotency race could not be resolved"),
        ),
    }
}

/// The version a transaction's request fingerprint is taken under: the
/// requested one, else 1.
pub open spec fn transaction_version(request: CommandRequest) -> u32 {
    match request.command_version {
        Some(v) => v,
        None => 1,
    }
}

/// The fingerprint a transaction record keeps of its request.
pub fn transaction_fingerprint(request: &CommandRequest) -> (r: String)
    ensures
        r@ == fingerprint_of(*request, transaction_version(*request)),
{
    let version: u32 = match request.command_version {
        Some(v) => v,
        None => 1,
    };
    request_fingerprint(request, version)
}

/// The summary a transaction record states its intent with.
pub fn intended_summary(command: &str) -> (r: String)
    ensures
        r@ == command@ + " requested through validated command contract"@,
{
    proof {
        reveal_strlit(" requested through validated command contract");
    }
    text(command).concat(" requested through validated command contract")
}

/// The record that opens the transaction of a command.
pub fn new_transaction<'a>(
    request: &'a CommandRequest,
    effect_class: &'a str,
    permission: &'a str,
    authority: &'a ExecutionAuthority,
    request_sha256: &'a str,
    intended_summary: &'a str,
) -> (r: NewTransaction<'a>)
    ensures
        registers_project(request.command@) ==> r.project_id is None,
        !registers_project(request.command@) ==> (r.project_id is Some <==> str_member(
            request.arguments,
            "project_id"@,
        ) is Some) && (r.project_id matches Some(p) ==> p@ == str_member(
            request.arguments,
            "project_id"@,
        )->0),
        r.request_id@ == request.request_id@,
        r.command@ == request.command@,
        r.effect_class@ == effect_class@,
        r.permission@ == permission@,
        r.actor_id@ == authority.actor_id@,
        r.client_id@ == authority.client_id@,
        r.delegator_id is Some <==> authority.delegator_id is Some,
        r.delegator_id matches Some(d) ==> d@ == authority.delegator_id->0@,
        r.request_sha256@ == request_sha256@,
        r.intended_summary@ == intended_summary@,
        r.rollback_status@ == "not_available"@,
{
    proof {
        reveal_strlit("not_available");
    }
    let delegator_id = match &authority.delegator_id {
        Some(d) => Some(d.as_str()),
        None => None,
    };
    NewTransaction {
        project_id: transaction_project_id(request),
        request_id: request.request_id.as_str(),
        command: request.command.as_str(),
        effect_class,
        permission,
        actor_id: authority.actor_id.as_str(),
        client_id: authority.client_id.as_str(),
        delegator_id,
        request_sha256,
        intended_summary,
        rollback_status: "not_available",
    }
}

/// The string member `key` of a response's result.
pub open spec fn result_str(response: CommandResponse, key: Seq<char>) -> Option<Seq<char>> {
    match response.result {
        Some(v) => str_member(v, key),
        None => None,
    }
}

/// How a transaction is closed.
pub struct TransactionOutcome {
    pub state: &'static str,
    pub after_ref: Option<String>,
    pub verification: &'static str,
    pub result_id: Option<String>,
    pub job_id: Option<String>,
    pub project_id: Option<String>,
}

pub open spec fn opt_string_view(o: Option<String>) -> Option<Seq<char>> {
    match o {
        Some(s) => Some(s@),
        None => None,
    }
}

/// `r` is how the transaction of `request` is closed after `response`.
pub open spec fn is_transaction_outcome(request: CommandRequest, response: CommandResponse, r: TransactionOutcome) -> bool {
    &&& r.state@ == (if response.ok {
        "COMPLETED"@
    } else {
        "FAILED"@
    })
    &&& r.verification@ == (if response.ok {
        "verified"@
    } else {
        "failed"@
    })
    &&& opt_string_view(r.after_ref) == result_str(response, "id"@)
    &&& opt_string_view(r.result_id) == (if request.command@ == "result.put"@ && response.ok {
        result_str(response, "id"@)
    } else {
        None
    })
    &&& opt_string_view(r.job_id) == (if request.command@ == "job.checkpoint"@ && response.ok {
        result_str(response, "id"@)
    } else {
        None
    })
    &&& opt_string_view(r.project_id) == (if registers_project(request.command@) && response.ok {
        result_str(response, "id"@)
    } else if registers_project(request.command@) {
        None
    } else {
        str_member(request.arguments, "project_id"@)
    })
}

/// The close of a command's transaction: completed and verified when the
/// command succeeded, else failed; the `id` of the result is the reference
/// after the command, and names the stored result, the checkpointed job or
/// the registered project for the commands that create one.
pub fn transaction_outcome(request: &CommandRequest, response: &CommandResponse) -> (r:
    TransactionOutcome)
    ensures
        is_transaction_outcome(*request, *response, r),
{
    proof {
        reveal_strlit("COMPLETED");
        reveal_strlit("FAILED");
        reveal_strlit("verified");
        reveal_strlit("failed");
    }
    let after_ref: Option<String> = match &response.result {
        Some(v) => match string_argument(v, "id") {
            Some(s) => Some(text(s)),
            None => None,
        },
        None => None,
    };
    let result_id = if str_eq(request.command.as_str(), "result.put") && response.ok {
        after_ref.clone()
    } else {
        None
    };
    let job_id = if str_eq(request.command.as_str(), "job.checkpoint") && response.ok {
        after_ref.clone()
    } else {
        None
    };
    let project_id = if is_registering(request.command.as_str()) && response.ok {
        after_ref.clone()
    } else {
        match transaction_project_id(request) {
            Some(p) => Some(text(p)),
            None => None,
        }
    };
    TransactionOutcome {
        state: if response.ok {
            "COMPLETED"
        } else {
            "FAILED"
        },
        after_ref,
        verification: if response.ok {
            "verified"
        } else {
            "failed"
        },
        result_id,
        job_id,
        project_id,
    }
}

/// `r` is the answer once the transaction was to be closed.
pub open spec fn closed_as(request: CommandRequest, producer: Producer, response: CommandResponse, recorded: Result<(), CoreCommandError>, r: CommandResponse) -> bool {
    match recorded {
        Ok(()) => r == response,
        Err(e) => is_failure(
            r,
            request,
            response.command_version,
            producer,
            "TRANSACTION_RECORD_INCOMPLETE"@,
            "command outcome could not be durably finalized: "@ + e.message@,
        ),
    }
}

/// The answer once a transaction was to be closed: the response itself when
/// the close was recorded, else a failure saying the outcome is not durable.
pub fn closed_transaction(
    request: &CommandRequest,
    producer: Producer,
    response: CommandResponse,
    recorded: Result<(), CoreCommandError>,
) -> (r: CommandResponse)
    ensures
        closed_as(*request, producer, response, recorded, r),
{
    proof {
        reveal_strlit("command outcome could not be durably finalized: ");
    }
    match recorded {
        Ok(()) => response,
        Err(e) => failure(
            request,
            response.command_version,
            producer,
            "TRANSACTION_RECORD_INCOMPLETE",
            text("command outcome could not be durably finalized: ").concat(e.message.as_str()),
        ),
    }
}

/// `j` is the JSON form of an error envelope: `{"code": .., "message": ..}`.
pub open spec fn envelope_json(j: Json, e: ErrorEnvelope) -> bool {
    &&& j matches Json::Object(entries)
    &&& j->Object_0@.len() == 2
    &&& j->Object_0@[0].0@ == "code"@
    &&& j->Object_0@[0].1 matches Json::Str(c) && c@ == e.code@
    &&& j->Object_0@[1].0@ == "message"@
    &&& j->Object_0@[1].1 matches Json::Str(m) && m@ == e.message@
}

/// The JSON form of an error envelope.
pub fn error_envelope_json(e: &ErrorEnvelope) -> (r: Json)
    ensures
        envelope_json(r, *e),
{
    proof {
        reveal_strlit("code");
        reveal_strlit("message");
    }
    let mut entries: Vec<(String, Json)> = Vec::new();
    entries.push((text("code"), Json::Str(e.code.clone())));
    entries.push((text("message"), Json::Str(e.message.clone())));
    Json::Object(entries)
}

/// What the error contract makes of a failed response, given the envelope's
/// JSON form `j`: a violation of the registry's error schema or an error code
/// the command does not declare is answered as an internal contract
/// violation; a conforming failure stands.
pub open spec fn contract_checked(
    r: CommandResponse,
    registry: CommandRegistry,
    spec: CommandSpec,
    request: CommandRequest,
    producer: Producer,
    response: CommandResponse,
    e: ErrorEnvelope,
    j: Json,
) -> bool {
    match violation(registry.error_schema, j, "$"@) {
        Some((path, message)) => is_failure(
            r,
            request,
            response.command_version,
            producer,
            "INTERNAL_CONTRACT_VIOLATION"@,
            "error envelope violated registry schema: "@ + path + " "@ + message,
        ),
        None => if error_code_allowed(registry, spec, e.code@) {
            r == response
        } else {
            is_failure(
                r,
                request,
                response.command_version,
                producer,
                "INTERNAL_CONTRACT_VIOLATION"@,
                "command "@ + spec.id@ + " emitted undeclared error "@ + e.code@,
            )
        },
    }
}

/// `r` is `response` held to the registry's error contract.
pub open spec fn enforced_as(registry: CommandRegistry, spec: CommandSpec, request: CommandRequest, producer: Producer, response: CommandResponse, r: CommandResponse) -> bool {
    &&& response.ok ==> r == response
    &&& !response.ok && response.error is None ==> is_failure(
        r,
        request,
        response.command_version,
        producer,
        "INTERNAL_CONTRACT_VIOLATION"@,
        "failed response did not contain an error envelope"@,
    )
    &&& !response.ok && response.error is Some ==> exists|j: Json|
        envelope_json(j, response.error->0) && contract_checked(
            r,
            registry,
            spec,
            request,
            producer,
            response,
            response.error->0,
            j,
        )
}

/// Holds a failed response to the registry's error contract.
pub fn enforce_error_contract(
    registry: &CommandRegistry,
    spec: &CommandSpec,
    request: &CommandRequest,
    producer: Producer,
    response: CommandResponse,
) -> (r: CommandResponse)
    ensures
        enforced_as(*registry, *spec, *request, producer, response, r),
{
    proof {
        reveal_strlit("failed response did not contain an error envelope");
        reveal_strlit("error envelope violated registry schema: ");
        reveal_strlit(" ");
        reveal_strlit("command ");
        reveal_strlit(" emitted undeclared error ");
    }
    if response.ok {
        return response;
    }
    let version = response.command_version;
    let j = match &response.error {
        None => {
            return failure(
                request,
                version,
                producer,
                "INTERNAL_CONTRACT_VIOLATION",
                text("failed response did not contain an error envelope"),
            );
        },
        Some(e) => error_envelope_json(e),
    };
    let ghost e = response.error->0;
    match validate_value(&registry.error_schema, &j) {
        Err(v) => {
            let message = text("error envelope violated registry schema: ").concat(
                v.path.as_str(),
            ).concat(" ").concat(v.message.as_str());
            let r = failure(request, version, producer, "INTERNAL_CONTRACT_VIOLATION", message);
            assert(contract_checked(r, *registry, *spec, *request, producer, response, e, j));
            return r;
        },
        Ok(()) => {},
    }
    let allowed = match &response.error {
        Some(err) => is_error_allowed(registry, spec, err.code.as_str()),
        None => true,
    };
    if !allowed {
        let code = match &response.error {
            Some(err) => err.code.clone(),
            None => text(""),
        };
        let message = text("command ").concat(spec.id.as_str()).concat(
            " emitted undeclared error ",
        ).concat(code.as_str());
        let r = failure(request, version, producer, "INTERNAL_CONTRACT_VIOLATION", message);
        assert(contract_checked(r, *registry, *spec, *request, producer, response, e, j));
        return r;
    }
    assert(contract_checked(response, *registry, *spec, *request, producer, response, e, j));
    response
}

/// The project a command's usage is recorded against: its `project_id`
/// argument; else, for a successful registration, the registered id; else
/// the `project_id` of its result.
pub fn usage_project_id(request: &CommandRequest, response: &CommandResponse) -> (r: Option<
    String,
>)
    ensures
        opt_string_view(r) == (if str_member(request.arguments, "project_id"@) is Some {
            str_member(request.arguments, "project_id"@)
        } else if registers_project(request.command@) && response.ok {
            result_str(*response, "id"@)
        } else {
            result_str(*response, "project_id"@)
        }),
{
    if let Some(p) = string_argument(&request.arguments, "project_id") {
        return Some(text(p));
    }
    let key = if is_registering(request.command.as_str()) && response.ok {
        "id"
    } else {
        "project_id"
    };
    proof {
        reveal_strlit("id");
        reveal_strlit("project_id");
    }
    match &response.result {
        Some(v) => match string_argument(v, key) {
            Some(s) => Some(text(s)),
            None => None,
        },
        None => None,
    }
}

/// The page size of `registry.list`: the `limit` argument (100 when absent),
/// held between 1 and 200.
pub open spec fn list_limit(arguments: Json) -> int {
    let l: int = match u64_member(arguments, "limit"@) {
        Some(n) => n as int,
        None => 100,
    };
    if l < 1 {
        1
    } else if l > 200 {
        200
    } else {
        l
    }
}

/// `registry.list`: the compact list filtered by the `surface` and `prefix`
/// arguments.
pub fn registry_list(registry: &CommandRegistry, arguments: &Json) -> (r: Json)
    ensures
        is_compact_list(
            r,
            *registry,
            str_member(*arguments, "surface"@),
            str_member(*arguments, "prefix"@),
            list_limit(*arguments),
        ),
{
    let surface = string_argument(arguments, "surface");
    let prefix = string_argument(arguments, "prefix");
    let requested: u64 = match arguments.get("limit") {
        Some(v) => match v.as_u64() {
            Some(n) => n,
            None => 100,
        },
        None => 100,
    };
    let limit: usize = if requested < 1 {
        1
    } else if requested > 200 {
        200
    } else {
        requested as usize
    };
    assert(str_opt_view(surface) == str_member(*arguments, "surface"@));
    assert(str_opt_view(prefix) == str_member(*arguments, "prefix"@));
    compact_list(registry, surface, prefix, limit)
}

/// Why `registry.describe` refuses its arguments: no `command` string, an
/// unknown command, or a version the command does not have.
pub open spec fn describe_refusal(registry: CommandRegistry, arguments: Json) -> Option<
    (Seq<char>, Seq<char>),
> {
    let cmds = registry.commands@;
    let n = cmds.len() as int;
    match str_member(arguments, "command"@) {
        None => Some(("VALIDATION_FAILED"@, "command is required"@)),
        Some(id) => if latest_match(cmds, id, n) < 0 {
            Some(("COMMAND_UNKNOWN"@, "unknown command "@ + id))
        } else {
            match u64_member(arguments, "version"@) {
                Some(v) => if first_match(cmds, id, v as u32, n) < 0 {
                    Some(
                        (
                            "COMMAND_VERSION_INCOMPATIBLE"@,
                            "supported versions: "@ + version_list(versions_of(cmds, id, n)),
                        ),
                    )
                } else {
                    None
                },
                None => None,
            }
        },
    }
}

/// `registry.describe`: the contract named by the `command` argument, at the
/// `version` argument (truncated to 32 bits) or the latest one.
pub fn registry_describe(registry: &CommandRegistry, arguments: &Json) -> (r: Result<
    Json,
    CoreCommandError,
>)
    ensures
        r is Ok <==> describe_refusal(*registry, *arguments) is None,
        r matches Err(e) ==> describe_refusal(*registry, *arguments) == Some(
            (e.code@, e.message@),
        ),
        r matches Ok(j) ==> {
            let cmds = registry.commands@;
            let id = str_member(*arguments, "command"@)->0;
            let chosen = match u64_member(*arguments, "version"@) {
                Some(v) => first_match(cmds, id, v as u32, cmds.len() as int),
                None => latest_match(cmds, id, cmds.len() as int),
            };
            &&& j is Object
            &&& j->Object_0@.len() == 3
            &&& j->Object_0@[0].0@ == "command"@ && is_contract_json(
                j->Object_0@[0].1,
                cmds[chosen],
            )
            &&& j->Object_0@[1].0@ == "common_errors"@ && is_string_array(
                j->Object_0@[1].1,
                registry.common_errors@,
            )
            &&& j->Object_0@[2].0@ == "registry_format"@ && j->Object_0@[2].1 == Json::Int(
                registry.registry_format as i64,
            )
        },
{
    proof {
        reveal_strlit("command is required");
        reveal_strlit("unknown command ");
        reveal_strlit("supported versions: ");
    }
    let id = match string_argument(arguments, "command") {
        Some(id) => id,
        None => {
            return Err(CoreCommandError::new("VALIDATION_FAILED", text("command is required")));
        },
    };
    let version: Option<u32> = match arguments.get("version") {
        Some(v) => match v.as_u64() {
            Some(n) => Some(n as u32),
            None => None,
        },
        None => None,
    };
    match describe(registry, id, version) {
        Ok(j) => Ok(j),
        Err(ResolveError::UnknownCommand) => Err(
            CoreCommandError::new("COMMAND_UNKNOWN", text("unknown command ").concat(id)),
        ),
        Err(ResolveError::VersionIncompatible { supported }) => {
            let listed = version_list_text(&supported);
            Err(
                CoreCommandError::new(
                    "COMMAND_VERSION_INCOMPATIBLE",
                    text("supported versions: ").concat(listed.as_str()),
                ),
            )
        },
    }
}

/// `system.echo`: the arguments, under `echo`.
pub fn echo_result(arguments: Json) -> (r: Json)
    ensures
        r is Object,
        r->Object_0@.len() == 1,
        r->Object_0@[0].0@ == "echo"@,
        r->Object_0@[0].1 == arguments,
{
    proof {
        reveal_strlit("echo");
    }
    let mut entries: Vec<(String, Json)> = Vec::new();
    entries.push((text("echo"), arguments));
    Json::Object(entries)
}

/// `system.shutdown`: `{"shutting_down": true}`.
pub fn shutdown_result() -> (r: Json)
    ensures
        r is Object,
        r->Object_0@.len() == 1,
        r->Object_0@[0].0@ == "shutting_down"@,
        r->Object_0@[0].1 == Json::Bool(true),
{
    proof {
        reveal_strlit("shutting_down");
    }
    let mut entries: Vec<(String, Json)> = Vec::new();
    entries.push((text("shutting_down"), Json::Bool(true)));
    Json::Object(entries)
}


/// The handler that serves a command.
#[derive(PartialEq, Eq, Structural, Clone, Copy, Debug)]
pub enum CoreRoute {
    Status,
    Doctor,
    Echo,
    Shutdown,
    RegistryList,
    RegistryDescribe,
    StorageIntegrity,
    ProjectRegister,
    ProjectImport,
    ProjectList,
    ProjectIndexBuild,
    ProjectIndexReconcile,
    ProjectCapabilities,
    ProjectChanges,
    ProjectDependenciesReplace,
    ProjectDependenciesList,
    ResultPut,
    ResultGet,
    JobCheckpoint,
    JobGet,
    TransactionList,
    UsageSummary,
    PolicyEgressCheck,
}

/// The handler that serves `command`; `None` for a command the core does
/// not implement.
pub open spec fn route_of(command: Seq<char>) -> Option<CoreRoute> {
    if command == "system.status"@ {
        Some(CoreRoute::Status)
    } else if command == "system.doctor"@ {
        Some(CoreRoute::Doctor)
    } else if command == "system.echo"@ {
        Some(CoreRoute::Echo)
    } else if command == "system.shutdown"@ {
        Some(CoreRoute::Shutdown)
    } else if command == "registry.list"@ {
        Some(CoreRoute::RegistryList)
    } else if command == "registry.describe"@ {
        Some(CoreRoute::RegistryDescribe)
    } else if command == "storage.integrity"@ {
        Some(CoreRoute::StorageIntegrity)
    } else if command == "project.register"@ {
        Some(CoreRoute::ProjectRegister)
    } else if command == "project.import"@ {
        Some(CoreRoute::ProjectImport)
    } else if command == "project.list"@ {
        Some(CoreRoute::ProjectList)
    } else if command == "project.index.build"@ {
        Some(CoreRoute::ProjectIndexBuild)
    } else if command == "project.index.reconcile"@ {
        Some(CoreRoute::ProjectIndexReconcile)
    } else if command == "project.capabilities"@ {
        Some(CoreRoute::ProjectCapabilities)
    } else if command == "project.changes"@ {
        Some(CoreRoute::ProjectChanges)
    } else if command == "project.dependencies.replace"@ {
        Some(CoreRoute::ProjectDependenciesReplace)
    } else if command == "project.dependencies.list"@ {
        Some(CoreRoute::ProjectDependenciesList)
    } else if command == "result.put"@ {
        Some(CoreRoute::ResultPut)
    } else if command == "result.get"@ {
        Some(CoreRoute::ResultGet)
    } else if command == "job.checkpoint"@ {
        Some(CoreRoute::JobCheckpoint)
    } else if command == "job.get"@ {
        Some(CoreRoute::JobGet)
    } else if command == "transaction.list"@ {
        Some(CoreRoute::TransactionList)
    } else if command == "usage.summary"@ {
        Some(CoreRoute::UsageSummary)
    } else if command == "policy.egress.check"@ {
        Some(CoreRoute::PolicyEgressCheck)
    } else {
        None
    }
}

/// The handler that serves a command at the version the registry resolved,
/// or `COMMAND_UNKNOWN` naming both when the core does not implement it.
pub fn command_route(command: &str, version: u32) -> (r: Result<CoreRoute, CoreCommandError>)
    ensures
        r is Ok <==> route_of(command@) is Some,
        r matches Ok(x) ==> route_of(command@) == Some(x),
        r matches Err(e) ==> e.code == "COMMAND_UNKNOWN" && e.message@ == "command "@ + command@ + "@"@
            + decimal(version as nat) + " is not implemented"@,
{
    if str_eq(command, "system.status") {
        return Ok(CoreRoute::Status);
    }
    if str_eq(command, "system.doctor") {
        return Ok(CoreRoute::Doctor);
    }
    if str_eq(command, "system.echo") {
        return Ok(CoreRoute::Echo);
    }
    if str_eq(command, "system.shutdown") {
        return Ok(CoreRoute::Shutdown);
    }
    if str_eq(command, "registry.list") {
        return Ok(CoreRoute::RegistryList);
    }
    if str_eq(command, "registry.describe") {
        return Ok(CoreRoute::RegistryDescribe);
    }
    if str_eq(command, "storage.integrity") {
        return Ok(CoreRoute::StorageIntegrity);
    }
    if str_eq(command, "project.register") {
        return Ok(CoreRoute::ProjectRegister);
    }
    if str_eq(command, "project.import") {
        return Ok(CoreRoute::ProjectImport);
    }
    if str_eq(command, "project.list") {
        return Ok(CoreRoute::ProjectList);
    }
    if str_eq(command, "project.index.build") {
        return Ok(CoreRoute::ProjectIndexBuild);
    }
    if str_eq(command, "project.index.reconcile") {
        return Ok(CoreRoute::ProjectIndexReconcile);
    }
    if str_eq(command, "project.capabilities") {
        return Ok(CoreRoute::ProjectCapabilities);
    }
    if str_eq(command, "project.changes") {
        return Ok(CoreRoute::ProjectChanges);
    }
    if str_eq(command, "project.dependencies.replace") {
        return Ok(CoreRoute::ProjectDependenciesReplace);
    }
    if str_eq(command, "project.dependencies.list") {
        return Ok(CoreRoute::ProjectDependenciesList);
    }
    if str_eq(command, "result.put") {
        return Ok(CoreRoute::ResultPut);
    }
    if str_eq(command, "result.get") {
        return Ok(CoreRoute::ResultGet);
    }
    if str_eq(command, "job.checkpoint") {
        return Ok(CoreRoute::JobCheckpoint);
    }
    if str_eq(command, "job.get") {
        return Ok(CoreRoute::JobGet);
    }
    if str_eq(command, "transaction.list") {
        return Ok(CoreRoute::TransactionList);
    }
    if str_eq(command, "usage.summary") {
        return Ok(CoreRoute::UsageSummary);
    }
    if str_eq(command, "policy.egress.check") {
        return Ok(CoreRoute::PolicyEgressCheck);
    }
    let message = text("command ").concat(command).concat("@").concat(
        u64_to_decimal(version as u64).as_str(),
    ).concat(" is not implemented");
    Err(CoreCommandError::new("COMMAND_UNKNOWN", message))
}

} // verus!
