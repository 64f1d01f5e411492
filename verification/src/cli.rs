//! The command-line client's rules: which request each command line makes,
//! how answers are shown and which exit code they give, and the client's
//! side of the handshake.
use vstd::prelude::*;
use vstd::string::StrSliceExecFns;
use vstd::string::StringExecFns;
use crate::contracts::{
    CommandRequest, CommandResponse, HelloRequest, LocalHostState, Producer, RequestContext,
    LOCAL_HOST_STATE_FORMAT, PROTOCOL_MAX, PROTOCOL_MIN,
};
use crate::json::{compact, member, quote, quoted, str_member, to_compact, Json};
use crate::text::{decimal, str_eq, u64_to_decimal};

verus! {

fn text(s: &str) -> (r: String)
    ensures
        r@ == s@,
{
    String::from_str(s)
}

/// How an answer is shown to a person.
pub enum CliView {
    Status,
    Doctor,
    Plain,
}

/// What a command line asks for.
pub enum CliAction {
    /// Print the command catalog.
    Catalog,
    /// Read one request as JSON from standard input and answer in JSON.
    MachineExec,
    /// Send this request, and show the answer as JSON or in `view`.
    Invoke { request: CommandRequest, json_output: bool, view: CliView },
}

/// The command line names `--json`.
pub open spec fn json_flag(args: Seq<String>) -> bool {
    exists|i: int| 0 <= i < args.len() && (#[trigger] args[i])@ == "--json"@
}

pub fn has_json_flag(args: &Vec<String>) -> (r: bool)
    ensures
        r == json_flag(args@),
{
    let mut i: usize = 0;
    while i < args.len()
        invariant
            i <= args@.len(),
            forall|k: int| 0 <= k < i ==> (#[trigger] args@[k])@ != "--json"@,
        decreases args@.len() - i,
    {
        if str_eq(args[i].as_str(), "--json") {
            return true;
        }
        i = i + 1;
    }
    false
}

/// `j` is an object with exactly the given string members, in order.
pub open spec fn is_string_object(j: Json, members: Seq<(Seq<char>, Seq<char>)>) -> bool {
    &&& j is Object
    &&& j->Object_0@.len() == members.len()
    &&& forall|i: int|
        0 <= i < members.len() ==> (#[trigger] j->Object_0@[i]).0@ == members[i].0 && (
        j->Object_0@[i].1 matches Json::Str(s) && s@ == members[i].1)
}

/// `r` is the request a command line makes: a version-1 `command` under
/// `id` with `arguments`, keyed by `key`, in an empty context.
pub open spec fn is_cli_request(
    r: CommandRequest,
    id: Seq<char>,
    command: Seq<char>,
    arguments: Seq<(Seq<char>, Seq<char>)>,
    key: Option<Seq<char>>,
) -> bool {
    &&& r.request_id@ == id
    &&& r.command@ == command
    &&& r.command_version == Some(1u32)
    &&& is_string_object(r.arguments, arguments)
    &&& match (r.idempotency_key, key) {
        (Some(a), Some(b)) => a@ == b,
        (None, None) => true,
        _ => false,
    }
    &&& r.context.actor_id is None
    &&& r.context.client_id is None
    &&& r.context.delegator_id is None
}

pub open spec fn usage_text() -> Seq<char> {
    "usage: relay <status|doctor|commands|project-list|project-register|result-get|job-get|shutdown|exec>"@
}

/// The command lines that send one request with no arguments, and the
/// command and view each stands for.
pub open spec fn simple_command(word: Seq<char>) -> Option<(Seq<char>, CliView)> {
    if word == "status"@ {
        Some(("system.status"@, CliView::Status))
    } else if word == "doctor"@ {
        Some(("system.doctor"@, CliView::Doctor))
    } else if word == "project-list"@ {
        Some(("project.list"@, CliView::Plain))
    } else if word == "shutdown"@ {
        Some(("system.shutdown"@, CliView::Plain))
    } else {
        None
    }
}

/// The explicit project id of `project-register`: a fourth word that is not
/// a flag.
pub open spec fn explicit_id(args: Seq<String>) -> Option<Seq<char>> {
    if args.len() > 3 && !(args[3]@.len() >= 2 && args[3]@.subrange(0, 2) == "--"@) {
        Some(args[3]@)
    } else {
        None
    }
}

/// `r` answers the command line `args`, whose request is named `id`.
pub open spec fn cli_answer(args: Seq<String>, id: Seq<char>, r: Result<CliAction, String>) -> bool {
    if args.len() == 0 {
        r matches Err(e) && e@ == usage_text()
    } else {
        let word = args[0]@;
        let json = json_flag(args);
        if word == "commands"@ {
            r matches Ok(CliAction::Catalog)
        } else if word == "exec"@ && args.len() > 1 && args[1]@ == "--stdin"@ {
            r matches Ok(CliAction::MachineExec)
        } else if let Some((command, shown)) = simple_command(word) {
            r matches Ok(CliAction::Invoke { request, json_output, view }) && is_cli_request(
                request,
                id,
                command,
                Seq::empty(),
                None,
            ) && json_output == json && view == shown
        } else if word == "result-get"@ {
            if args.len() > 1 {
                r matches Ok(CliAction::Invoke { request, json_output, view }) && is_cli_request(
                    request,
                    id,
                    "result.get"@,
                    seq![("result_id"@, args[1]@)],
                    None,
                ) && json_output == json && view is Plain
            } else {
                r matches Err(e) && e@ == "result-get requires result ID"@
            }
        } else if word == "job-get"@ {
            if args.len() > 1 {
                r matches Ok(CliAction::Invoke { request, json_output, view }) && is_cli_request(
                    request,
                    id,
                    "job.get"@,
                    seq![("job_id"@, args[1]@)],
                    None,
                ) && json_output == json && view is Plain
            } else {
                r matches Err(e) && e@ == "job-get requires job ID"@
            }
        } else if word == "project-register"@ {
            if args.len() < 2 {
                r matches Err(e) && e@ == "project-register requires name"@
            } else if args.len() < 3 {
                r matches Err(e) && e@ == "project-register requires root URI"@
            } else {
                r matches Ok(CliAction::Invoke { request, json_output, view }) && is_cli_request(
                    request,
                    id,
                    "project.register"@,
                    match explicit_id(args) {
                        Some(pid) => seq![
                            ("id"@, pid),
                            ("name"@, args[1]@),
                            ("root_uri"@, args[2]@),
                        ],
                        None => seq![("name"@, args[1]@), ("root_uri"@, args[2]@)],
                    },
                    Some("CLI-"@ + id),
                ) && json_output == json && view is Plain
            }
        } else {
            r matches Err(e) && e@ == "unknown relay command: "@ + word
        }
    }
}

/// Reads a command line; `request_id` names the request it makes.
pub fn parse_cli(args: &Vec<String>, request_id: String) -> (r: Result<CliAction, String>)
    ensures
        cli_answer(args@, request_id@, r),
{
    proof {
        reveal_strlit("commands");
        reveal_strlit("exec");
        reveal_strlit("--stdin");
        reveal_strlit("status");
        reveal_strlit("doctor");
        reveal_strlit("project-list");
        reveal_strlit("shutdown");
        reveal_strlit("result-get");
        reveal_strlit("job-get");
        reveal_strlit("project-register");
        reveal_strlit("--json");
        reveal_strlit("--");
        reveal_strlit("result_id");
        reveal_strlit("job_id");
        reveal_strlit("id");
        reveal_strlit("name");
        reveal_strlit("root_uri");
        reveal_strlit("CLI-");
    }
    if args.len() == 0 {
        return Err(
            text(
                "usage: relay <status|doctor|commands|project-list|project-register|result-get|job-get|shutdown|exec>",
            ),
        );
    }
    let json_output = has_json_flag(args);
    let word = args[0].as_str();
    if str_eq(word, "commands") {
        return Ok(CliAction::Catalog);
    }
    if str_eq(word, "exec") && args.len() > 1 && str_eq(args[1].as_str(), "--stdin") {
        return Ok(CliAction::MachineExec);
    }
    let simple = if str_eq(word, "status") {
        Some(("system.status", CliView::Status))
    } else if str_eq(word, "doctor") {
        Some(("system.doctor", CliView::Doctor))
    } else if str_eq(word, "project-list") {
        Some(("project.list", CliView::Plain))
    } else if str_eq(word, "shutdown") {
        Some(("system.shutdown", CliView::Plain))
    } else {
        None
    };
    match simple {
        Some((command, view)) => {
            let request = cli_request(request_id, command, Vec::new(), None);
            return Ok(CliAction::Invoke { request, json_output, view });
        },
        None => {},
    }
    if str_eq(word, "result-get") {
        if args.len() < 2 {
            return Err(text("result-get requires result ID"));
        }
        let mut members: Vec<(String, String)> = Vec::new();
        members.push((text("result_id"), args[1].clone()));
        let request = cli_request(request_id, "result.get", members, None);
        return Ok(CliAction::Invoke { request, json_output, view: CliView::Plain });
    }
    if str_eq(word, "job-get") {
        if args.len() < 2 {
            return Err(text("job-get requires job ID"));
        }
        let mut members: Vec<(String, String)> = Vec::new();
        members.push((text("job_id"), args[1].clone()));
        let request = cli_request(request_id, "job.get", members, None);
        return Ok(CliAction::Invoke { request, json_output, view: CliView::Plain });
    }
    if str_eq(word, "project-register") {
        if args.len() < 2 {
            return Err(text("project-register requires name"));
        }
        if args.len() < 3 {
            return Err(text("project-register requires root URI"));
        }
        let mut members: Vec<(String, String)> = Vec::new();
        if args.len() > 3 && !starts_with_flag(args[3].as_str()) {
            members.push((text("id"), args[3].clone()));
        }
        members.push((text("name"), args[1].clone()));
        members.push((text("root_uri"), args[2].clone()));
        let key = text("CLI-").concat(request_id.as_str());
        let request = cli_request(request_id, "project.register", members, Some(key));
        return Ok(CliAction::Invoke { request, json_output, view: CliView::Plain });
    }
    proof {
        reveal_strlit("unknown relay command: ");
    }
    Err(text("unknown relay command: ").concat(word))
}

fn starts_with_flag(s: &str) -> (r: bool)
    ensures
        r == (s@.len() >= 2 && s@.subrange(0, 2) == "--"@),
{
    proof {
        reveal_strlit("--");
    }
    if s.unicode_len() < 2 {
        return false;
    }
    let head = s.substring_char(0, 2);
    str_eq(head, "--")
}

pub open spec fn pair_views(v: Seq<(String, String)>) -> Seq<(Seq<char>, Seq<char>)> {
    v.map_values(|e: (String, String)| (e.0@, e.1@))
}

fn cli_request(
    request_id: String,
    command: &str,
    members: Vec<(String, String)>,
    key: Option<String>,
) -> (r: CommandRequest)
    ensures
        is_cli_request(
            r,
            request_id@,
            command@,
            pair_views(members@),
            match key {
                Some(k) => Some(k@),
                None => None,
            },
        ),
{
    let mut entries: Vec<(String, Json)> = Vec::new();
    let mut i: usize = 0;
    while i < members.len()
        invariant
            i <= members@.len(),
            entries@.len() == i,
            forall|k: int|
                0 <= k < i ==> (#[trigger] entries@[k]).0@ == members@[k].0@ && (
                entries@[k].1 matches Json::Str(s) && s@ == members@[k].1@),
        decreases members@.len() - i,
    {
        entries.push((members[i].0.clone(), Json::Str(members[i].1.clone())));
        i = i + 1;
    }
    CommandRequest {
        request_id,
        command: text(command),
        command_version: Some(1),
        arguments: Json::Object(entries),
        idempotency_key: key,
        context: RequestContext::default(),
    }
}

/// The exit code of an answered command: 0 when it succeeded, 2 when it
/// failed.
pub fn exit_code(response: &CommandResponse) -> (r: i32)
    ensures
        r == (if response.ok {
            0i32
        } else {
            2i32
        }),
{
    if response.ok {
        0
    } else {
        2
    }
}

/// The request read from a machine's standard input: its own request id, or
/// `generated_id` when it has none, in an empty context.
pub fn machine_request(
    request_id: Option<String>,
    generated_id: String,
    command: String,
    command_version: Option<u32>,
    arguments: Json,
    idempotency_key: Option<String>,
) -> (r: CommandRequest)
    ensures
        r.request_id@ == (match request_id {
            Some(id) => id@,
            None => generated_id@,
        }),
        r.command == command,
        r.command_version == command_version,
        r.arguments == arguments,
        r.idempotency_key == idempotency_key,
        r.context.actor_id is None,
        r.context.client_id is None,
        r.context.delegator_id is None,
{
    let id = match request_id {
        Some(id) => id,
        None => generated_id,
    };
    CommandRequest {
        request_id: id,
        command,
        command_version,
        arguments,
        idempotency_key,
        context: RequestContext::default(),
    }
}

/// A published host state is usable only in the format this client reads.
pub fn check_host_state(state: &LocalHostState) -> (r: Result<(), String>)
    ensures
        r is Ok <==> state.state_format == LOCAL_HOST_STATE_FORMAT,
        r matches Err(e) ==> e@ == "HOST_STATE_INCOMPATIBLE: expected "@ + decimal(
            LOCAL_HOST_STATE_FORMAT as nat,
        ) + ", got "@ + decimal(state.state_format as nat),
{
    if state.state_format == LOCAL_HOST_STATE_FORMAT {
        return Ok(());
    }
    proof {
        reveal_strlit("HOST_STATE_INCOMPATIBLE: expected ");
        reveal_strlit(", got ");
    }
    let expected = u64_to_decimal(LOCAL_HOST_STATE_FORMAT as u64);
    let got = u64_to_decimal(state.state_format as u64);
    Err(
        text("HOST_STATE_INCOMPATIBLE: expected ").concat(expected.as_str()).concat(
            ", got ",
        ).concat(got.as_str()),
    )
}

/// The client's greeting: the published token and the protocols it speaks.
pub fn hello_request(state: &LocalHostState, client_version: String) -> (r: HelloRequest)
    ensures
        r.message_type@ == "hello"@,
        r.auth_token@ == state.auth_token@,
        r.protocol_min == PROTOCOL_MIN,
        r.protocol_max == PROTOCOL_MAX,
        r.client.name@ == "relay-cli"@,
        r.client.version == client_version,
{
    HelloRequest {
        message_type: text("hello"),
        auth_token: state.auth_token.clone(),
        protocol_min: PROTOCOL_MIN,
        protocol_max: PROTOCOL_MAX,
        client: Producer { name: text("relay-cli"), version: client_version },
    }
}

/// The host's answer to the greeting: a `hello_ok` goes on; anything else is
/// the error it names, or a bad handshake.
pub fn check_greeting(greeting: &Json) -> (r: Result<(), String>)
    ensures
        str_member(*greeting, "type"@) == Some("hello_ok"@) ==> r is Ok,
        str_member(*greeting, "type"@) != Some("hello_ok"@) ==> (r matches Err(e) && e@ == (
        match str_member(*greeting, "code"@) {
            Some(c) => c,
            None => "BAD_HANDSHAKE"@,
        })),
{
    proof {
        reveal_strlit("type");
        reveal_strlit("code");
        reveal_strlit("hello_ok");
    }
    let kind = match greeting.get("type") {
        Some(v) => v.as_str(),
        None => None,
    };
    let accepted = match kind {
        Some(k) => str_eq(k, "hello_ok"),
        None => false,
    };
    if accepted {
        return Ok(());
    }
    let code = match greeting.get("code") {
        Some(v) => v.as_str(),
        None => None,
    };
    match code {
        Some(c) => Err(text(c)),
        None => Err(text("BAD_HANDSHAKE")),
    }
}

/// The line a failed answer is shown as: its code and message, or
/// `RELAY_ERROR: command failed` when it carries no error.
pub fn failure_line(response: &CommandResponse) -> (r: String)
    ensures
        r@ == (match response.error {
            Some(e) => e.code@ + ": "@ + e.message@,
            None => "RELAY_ERROR: command failed"@,
        }),
{
    proof {
        reveal_strlit(": ");
    }
    match &response.error {
        Some(e) => e.code.clone().concat(": ").concat(e.message.as_str()),
        None => text("RELAY_ERROR: command failed"),
    }
}

/// `healthy` when `part` reports `ok: true`, else `degraded`.
pub open spec fn health_word(result: Json, part: Seq<char>) -> Seq<char> {
    match member(result, part) {
        Some(p) => match member(p, "ok"@) {
            Some(Json::Bool(true)) => "healthy"@,
            _ => "degraded"@,
        },
        None => "degraded"@,
    }
}

fn health_text(result: &Json, part: &str) -> (r: String)
    ensures
        r@ == health_word(*result, part@),
{
    proof {
        reveal_strlit("ok");
    }
    let ok = match result.get(part) {
        Some(p) => match p.get("ok") {
            Some(Json::Bool(b)) => *b,
            _ => false,
        },
        None => false,
    };
    if ok {
        text("healthy")
    } else {
        text("degraded")
    }
}

/// The lines `relay status` shows for a successful status: the recovery
/// state (`Unknown` when absent), the process id as JSON (`null` when
/// absent), and the health of storage and diagnostics.
pub fn status_lines(result: &Json) -> (r: Vec<String>)
    ensures
        r@.len() == 4,
        r@[0]@ == "RELAY "@ + (match str_member(*result, "recovery_state"@) {
            Some(s) => s,
            None => "Unknown"@,
        }),
        r@[1]@ == "PID: "@ + (match member(*result, "pid"@) {
            Some(p) => compact(p),
            None => "null"@,
        }),
        r@[2]@ == "Storage: "@ + health_word(*result, "storage"@),
        r@[3]@ == "Diagnostics: "@ + health_word(*result, "diagnostics"@),
{
    proof {
        reveal_strlit("recovery_state");
        reveal_strlit("pid");
        reveal_strlit("null");
        reveal_strlit("storage");
        reveal_strlit("diagnostics");
    }
    let state = match result.get("recovery_state") {
        Some(v) => match v.as_str() {
            Some(s) => text(s),
            None => text("Unknown"),
        },
        None => text("Unknown"),
    };
    let pid = match result.get("pid") {
        Some(p) => to_compact(p),
        None => text("null"),
    };
    let mut lines: Vec<String> = Vec::new();
    lines.push(text("RELAY ").concat(state.as_str()));
    lines.push(text("PID: ").concat(pid.as_str()));
    lines.push(text("Storage: ").concat(health_text(result, "storage").as_str()));
    lines.push(text("Diagnostics: ").concat(health_text(result, "diagnostics").as_str()));
    lines
}

pub open spec fn str_or(j: Json, key: Seq<char>, fallback: Seq<char>) -> Seq<char> {
    match str_member(j, key) {
        Some(s) => s,
        None => fallback,
    }
}

fn str_or_text(j: &Json, key: &str, fallback: &str) -> (r: String)
    ensures
        r@ == str_or(*j, key@, fallback@),
{
    match j.get(key) {
        Some(v) => match v.as_str() {
            Some(s) => text(s),
            None => text(fallback),
        },
        None => text(fallback),
    }
}

/// The lines `relay doctor` shows for a successful report: the summary,
/// then `- id: status — detail` for each check.
pub fn doctor_lines(result: &Json) -> (r: Vec<String>)
    ensures
        r@.len() >= 1,
        r@[0]@ == str_or(*result, "summary"@, "RELAY diagnostics"@),
        member(*result, "checks"@) matches Some(Json::Array(checks)) ==> r@.len() == 1
            + checks@.len() && forall|i: int|
            0 <= i < checks@.len() ==> (#[trigger] r@[i + 1])@ == "- "@ + str_or(
                checks@[i],
                "id"@,
                "check"@,
            ) + ": "@ + str_or(checks@[i], "status"@, "unknown"@) + " — "@ + str_or(
                checks@[i],
                "detail"@,
                ""@,
            ),
        !(member(*result, "checks"@) matches Some(Json::Array(_))) ==> r@.len() == 1,
{
    proof {
        reveal_strlit("summary");
        reveal_strlit("checks");
    }
    let mut lines: Vec<String> = Vec::new();
    lines.push(str_or_text(result, "summary", "RELAY diagnostics"));
    match result.get("checks") {
        Some(Json::Array(checks)) => {
            let mut i: usize = 0;
            while i < checks.len()
                invariant
                    i <= checks@.len(),
                    member(*result, "checks"@) == Some(Json::Array(*checks)),
                    lines@.len() == 1 + i,
                    lines@[0]@ == str_or(*result, "summary"@, "RELAY diagnostics"@),
                    forall|k: int|
                        0 <= k < i ==> (#[trigger] lines@[k + 1])@ == "- "@ + str_or(
                            checks@[k],
                            "id"@,
                            "check"@,
                        ) + ": "@ + str_or(checks@[k], "status"@, "unknown"@) + " — "@ + str_or(
                            checks@[k],
                            "detail"@,
                            ""@,
                        ),
                decreases checks@.len() - i,
            {
                let c = &checks[i];
                let line = text("- ").concat(str_or_text(c, "id", "check").as_str()).concat(
                    ": ",
                ).concat(str_or_text(c, "status", "unknown").as_str()).concat(" — ").concat(
                    str_or_text(c, "detail", "").as_str(),
                );
                lines.push(line);
                i = i + 1;
            }
        },
        _ => {},
    }
    lines
}

/// What the client prints on its error stream when a machine request
/// fails: `{"error":{"code":"RELAY_CLI_ERROR","message":..},"ok":false}`.
pub fn machine_error(message: &str) -> (r: String)
    ensures
        r@ == "{\"error\":{\"code\":\"RELAY_CLI_ERROR\",\"message\":"@ + quoted(message@)
            + "},\"ok\":false}"@,
{
    let q = quote(message);
    text("{\"error\":{\"code\":\"RELAY_CLI_ERROR\",\"message\":").concat(q.as_str()).concat(
        "},\"ok\":false}",
    )
}

} // verus!
