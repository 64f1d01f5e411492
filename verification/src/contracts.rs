//! The wire contracts between clients and the host: request and response
//! envelopes, the handshake, the published host state, and protocol
//! negotiation.
use vstd::prelude::*;
use vstd::string::StringExecFns;
use crate::json::Json;

verus! {

pub const PROTOCOL_MIN: u32 = 1;

pub const PROTOCOL_MAX: u32 = 1;

pub const ENVELOPE_SCHEMA_VERSION: u32 = 1;

pub const LOCAL_HOST_STATE_FORMAT: u32 = 1;

/// Who is acting, through which client, on whose behalf.
pub struct RequestContext {
    pub actor_id: Option<String>,
    pub client_id: Option<String>,
    pub delegator_id: Option<String>,
}

impl Default for RequestContext {
    fn default() -> (r: Self)
        ensures
            r.actor_id is None,
            r.client_id is None,
            r.delegator_id is None,
    {
        RequestContext { actor_id: None, client_id: None, delegator_id: None }
    }
}

/// A command invocation.
pub struct CommandRequest {
    pub request_id: String,
    pub command: String,
    pub command_version: Option<u32>,
    pub arguments: Json,
    pub idempotency_key: Option<String>,
    pub context: RequestContext,
}

/// The name and version of the program that produced a message.
pub struct Producer {
    pub name: String,
    pub version: String,
}

impl Clone for Producer {
    fn clone(&self) -> (r: Self)
        ensures
            r == *self,
    {
        Producer { name: self.name.clone(), version: self.version.clone() }
    }
}

/// A structured command error.
pub struct ErrorEnvelope {
    pub code: String,
    pub message: String,
}

/// The versioned result envelope of a command.
pub struct CommandResponse {
    pub message_type: String,
    pub request_id: String,
    pub command_version: u32,
    pub schema_version: u32,
    pub producer: Producer,
    pub ok: bool,
    pub result: Option<Json>,
    pub error: Option<ErrorEnvelope>,
    pub replayed: bool,
}

/// Whether a flag is unset (such flags are left out of serialized envelopes).
pub fn is_false(value: &bool) -> (r: bool)
    ensures
        r == !*value,
{
    !*value
}

impl CommandResponse {
    /// A successful result for `request`.
    pub fn success(
        request: &CommandRequest,
        command_version: u32,
        producer: Producer,
        result: Json,
    ) -> (r: Self)
        ensures
            r.message_type@ == "command_result"@,
            r.request_id@ == request.request_id@,
            r.command_version == command_version,
            r.schema_version == ENVELOPE_SCHEMA_VERSION,
            r.producer == producer,
            r.ok,
            r.result == Some(result),
            r.error is None,
            !r.replayed,
    {
        CommandResponse {
            message_type: String::from_str("command_result"),
            request_id: request.request_id.clone(),
            command_version,
            schema_version: ENVELOPE_SCHEMA_VERSION,
            producer,
            ok: true,
            result: Some(result),
            error: None,
            replayed: false,
        }
    }

    /// A failed result for `request` carrying `code` and `message`.
    pub fn failure(
        request: &CommandRequest,
        command_version: u32,
        producer: Producer,
        code: String,
        message: String,
    ) -> (r: Self)
        ensures
            r.message_type@ == "command_result"@,
            r.request_id@ == request.request_id@,
            r.command_version == command_version,
            r.schema_version == ENVELOPE_SCHEMA_VERSION,
            r.producer == producer,
            !r.ok,
            r.result is None,
            r.error is Some,
            r.error->0.code@ == code@,
            r.error->0.message@ == message@,
            !r.replayed,
    {
        CommandResponse {
            message_type: String::from_str("command_result"),
            request_id: request.request_id.clone(),
            command_version,
            schema_version: ENVELOPE_SCHEMA_VERSION,
            producer,
            ok: false,
            result: None,
            error: Some(ErrorEnvelope { code, message }),
            replayed: false,
        }
    }
}

/// The first message of a client connection.
pub struct HelloRequest {
    pub message_type: String,
    pub auth_token: String,
    pub protocol_min: u32,
    pub protocol_max: u32,
    pub client: Producer,
}

/// The host's answer to an accepted handshake.
pub struct HelloResponse {
    pub message_type: String,
    pub protocol: u32,
    pub schema_version: u32,
    pub server: Producer,
    pub capabilities: Vec<String>,
}

pub struct ProtocolRange {
    pub min: u32,
    pub max: u32,
}

/// How the local transport is secured.
pub struct IpcSecurityState {
    pub transport: String,
    pub explicit_dacl: bool,
    pub kernel_acl_verified: bool,
    pub owner_current_user: bool,
    pub acl_ace_count: u32,
    pub scope: String,
    pub auth_token: bool,
}

/// What a running host publishes for its clients.
pub struct LocalHostState {
    pub state_format: u32,
    pub pid: u32,
    pub pipe: String,
    pub auth_token: String,
    pub version: String,
    pub protocol: ProtocolRange,
    pub capabilities: Vec<String>,
    pub recovery_state: String,
    pub storage_schema_version: Option<i64>,
    pub ipc_security: IpcSecurityState,
    pub started_at_unix_ms: u64,
}

/// The protocol both sides speak: the highest version in the intersection of
/// the client's range and the host's range, or `None` when they are disjoint.
pub open spec fn negotiated(client_min: u32, client_max: u32) -> Option<u32> {
    let lo = if client_min >= PROTOCOL_MIN {
        client_min
    } else {
        PROTOCOL_MIN
    };
    let hi = if client_max <= PROTOCOL_MAX {
        client_max
    } else {
        PROTOCOL_MAX
    };
    if lo <= hi {
        Some(hi)
    } else {
        None
    }
}

pub fn negotiate_protocol(client_min: u32, client_max: u32) -> (r: Option<u32>)
    ensures
        r == negotiated(client_min, client_max),
{
    let min = if client_min >= PROTOCOL_MIN {
        client_min
    } else {
        PROTOCOL_MIN
    };
    let max = if client_max <= PROTOCOL_MAX {
        client_max
    } else {
        PROTOCOL_MAX
    };
    if min <= max {
        Some(max)
    } else {
        None
    }
}

/// Whether version `q` is spoken by both the client and the host.
pub open spec fn common_version(q: u32, client_min: u32, client_max: u32) -> bool {
    client_min <= q <= client_max && PROTOCOL_MIN <= q <= PROTOCOL_MAX
}

/// A negotiated protocol lies inside both ranges and is the highest such
/// version; negotiation fails exactly when the ranges are disjoint.
pub proof fn law_negotiation_picks_highest_common_version(client_min: u32, client_max: u32)
    ensures
        negotiated(client_min, client_max) matches Some(p) ==> client_min <= p <= client_max
            && PROTOCOL_MIN <= p <= PROTOCOL_MAX && forall|q: u32|
            #[trigger] common_version(q, client_min, client_max) ==> q <= p,
        negotiated(client_min, client_max) is None <==> !exists|q: u32|
            #[trigger] common_version(q, client_min, client_max),
{
    if negotiated(client_min, client_max) is Some {
        let p = negotiated(client_min, client_max)->0;
        assert(client_min <= p <= client_max);
        assert(common_version(p, client_min, client_max));
    } else {
        assert forall|q: u32| !#[trigger] common_version(q, client_min, client_max) by {}
    }
}

} // verus!
