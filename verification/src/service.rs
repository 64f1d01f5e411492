//! The command core's own rules: the configuration layout, which effects
//! run in a transaction, the authority checks before a command runs, the
//! data-class names of the policy commands, and the egress check that
//! `policy.egress_check` performs.
use vstd::prelude::*;
use vstd::string::StringExecFns;
use crate::contracts::CommandRequest;
use crate::json::{member, str_member, u64_member, Json};
use crate::policy::{
    credential_refusal, DataClass, EgressDecision, EgressRequest, ExecutionAuthority,
};
use crate::text::str_eq;

verus! {

/// A refused command, with a stable code.
pub struct CoreCommandError {
    pub code: &'static str,
    pub message: String,
}

impl CoreCommandError {
    pub fn new(code: &'static str, message: String) -> (r: Self)
        ensures
            r.code == code,
            r.message@ == message@,
    {
        CoreCommandError { code, message }
    }
}

/// A file or directory name with no separator or drive in it.
pub open spec fn is_plain_file_name(name: Seq<char>) -> bool {
    name.len() > 0 && forall|i: int|
        0 <= i < name.len() ==> #[trigger] name[i] != '/' && name[i] != '\\' && name[i] != ':'
}

/// `path` starts with `dir` and ends with `name`.
pub open spec fn joins(path: Seq<char>, dir: Seq<char>, name: Seq<char>) -> bool {
    &&& path.len() >= dir.len() + name.len()
    &&& path.subrange(0, dir.len() as int) == dir
    &&& path.subrange(path.len() - name.len(), path.len() as int) == name
}

/// A directory written with a verbatim prefix (`\\?\`), which Windows
/// takes as it stands.
pub open spec fn verbatim_prefix(dir: Seq<char>) -> bool {
    dir.len() >= 4 && dir[0] == '\\' && dir[1] == '\\' && dir[2] == '?' && dir[3] == '\\'
}

/// `std::path::Path::join` of a plain name (not `.` or `..`) onto a
/// directory, as text: the directory, then the name. The separator put
/// between them (if any) is the platform's and is left unsaid. Onto a
/// directory with a verbatim prefix std normalizes the joined path (its
/// documentation for `PathBuf::push`), so nothing is said of that result.
#[verifier::external_body]
pub(crate) fn join_path(dir: &str, name: &str) -> (r: String)
    requires
        is_plain_file_name(name@),
        name@ != "."@,
        name@ != ".."@,
    ensures
        !verbatim_prefix(dir@) ==> joins(r@, dir@, name@),
{
    std::path::Path::new(dir).join(name).to_string_lossy().into_owned()
}

/// Where the core keeps its state.
pub struct CoreConfig {
    pub data_dir: String,
}

impl CoreConfig {
    pub fn new(data_dir: String) -> (r: Self)
        ensures
            r.data_dir@ == data_dir@,
    {
        CoreConfig { data_dir }
    }

    /// The SQLite database, `relay.sqlite3` in the data directory.
    pub fn database_path(&self) -> (r: String)
        ensures
            !verbatim_prefix(self.data_dir@) ==> joins(r@, self.data_dir@, "relay.sqlite3"@),
    {
        proof {
            reveal_strlit("relay.sqlite3");
        reveal_strlit(".");
        reveal_strlit("..");
        }
        join_path(self.data_dir.as_str(), "relay.sqlite3")
    }

    /// The diagnostics directory, `diagnostics` in the data directory.
    pub fn diagnostics_dir(&self) -> (r: String)
        ensures
            !verbatim_prefix(self.data_dir@) ==> joins(r@, self.data_dir@, "diagnostics"@),
    {
        proof {
            reveal_strlit("diagnostics");
        reveal_strlit(".");
        reveal_strlit("..");
        }
        join_path(self.data_dir.as_str(), "diagnostics")
    }
}

/// The trust label of what a request produces: attributed when it names an
/// actor.
pub fn trust_label(request: &CommandRequest) -> (r: &'static str)
    ensures
        r@ == (if request.context.actor_id is Some {
            "local-attributed"@
        } else {
            "local-unattributed"@
        }),
{
    if request.context.actor_id.is_some() {
        "local-attributed"
    } else {
        "local-unattributed"
    }
}

/// The effect classes whose commands run inside a durable transaction.
pub open spec fn is_transactional(effect_class: Seq<char>) -> bool {
    effect_class == "relay_state_write"@ || effect_class == "project_write"@ || effect_class
        == "destructive"@ || effect_class == "publish_external"@ || effect_class
        == "credential_change"@
}

pub fn transactional_effect(effect_class: &str) -> (r: bool)
    ensures
        r == is_transactional(effect_class@),
{
    str_eq(effect_class, "relay_state_write") || str_eq(effect_class, "project_write") || str_eq(
        effect_class,
        "destructive",
    ) || str_eq(effect_class, "publish_external") || str_eq(effect_class, "credential_change")
}

/// Whether a command registers or imports a project (its project id is the
/// `id` argument).
pub open spec fn registers_project(command: Seq<char>) -> bool {
    command == "project.register"@ || command == "project.import"@
}

pub(crate) fn is_registering(command: &str) -> (r: bool)
    ensures
        r == registers_project(command@),
{
    str_eq(command, "project.register") || str_eq(command, "project.import")
}

pub(crate) fn string_argument<'a>(arguments: &'a Json, key: &str) -> (r: Option<&'a str>)
    ensures
        r is Some <==> str_member(*arguments, key@) is Some,
        r matches Some(s) ==> s@ == str_member(*arguments, key@)->0,
{
    match arguments.get(key) {
        Some(v) => v.as_str(),
        None => None,
    }
}

/// The project that a transaction is recorded against: none for a project
/// registration, else the `project_id` argument.
pub fn transaction_project_id(request: &CommandRequest) -> (r: Option<&str>)
    ensures
        registers_project(request.command@) ==> r is None,
        !registers_project(request.command@) ==> (r is Some <==> str_member(
            request.arguments,
            "project_id"@,
        ) is Some) && (r matches Some(s) ==> s@ == str_member(request.arguments, "project_id"@)->0),
{
    if is_registering(request.command.as_str()) {
        return None;
    }
    string_argument(&request.arguments, "project_id")
}

/// The project a command acts on, as the preflight reads it.
pub open spec fn preflight_project(request: CommandRequest) -> Option<Seq<char>> {
    if registers_project(request.command@) {
        str_member(request.arguments, "id"@)
    } else {
        str_member(request.arguments, "project_id"@)
    }
}

/// Why a project-scoped authority refuses `project`.
pub open spec fn project_refusal(auth: ExecutionAuthority, project: Option<Seq<char>>) -> Option<
    (Seq<char>, Seq<char>),
> {
    if auth.project_ids is None || (project is Some && auth.project_ids->0.set().contains(
        project->0,
    )) {
        None
    } else if project is None {
        Some(
            (
                "PROJECT_SCOPE_REQUIRED"@,
                "project-scoped authority requires an explicit project ID"@,
            ),
        )
    } else {
        Some(("PROJECT_SCOPE_DENIED"@, "project "@ + project->0 + " is outside the granted scope"@))
    }
}

/// Why an authority may not run a command: the permission, then the effect
/// class, then the project scope (checked when the command names a project,
/// or registers one under a scoped authority).
pub open spec fn preflight_refusal(
    request: CommandRequest,
    effect_class: Seq<char>,
    permission: Seq<char>,
    auth: ExecutionAuthority,
) -> Option<(Seq<char>, Seq<char>)> {
    if !auth.permissions.set().contains(permission) {
        Some(("PERMISSION_DENIED"@, "permission "@ + permission + " is not granted"@))
    } else if !auth.effect_classes.set().contains(effect_class) {
        Some(("EFFECT_NOT_ALLOWED"@, "effect class "@ + effect_class + " is not granted"@))
    } else if preflight_project(request) is Some || (auth.project_ids is Some && registers_project(
        request.command@,
    )) {
        project_refusal(auth, preflight_project(request))
    } else {
        None
    }
}

/// The authority checks that precede every command.
pub fn authorize_preflight(
    request: &CommandRequest,
    effect_class: &str,
    permission: &str,
    authority: &ExecutionAuthority,
) -> (r: Result<(), CoreCommandError>)
    ensures
        r is Ok <==> preflight_refusal(*request, effect_class@, permission@, *authority) is None,
        r matches Err(e) ==> preflight_refusal(*request, effect_class@, permission@, *authority)
            == Some((e.code@, e.message@)),
{
    match authority.require_permission(permission) {
        Err(e) => {
            return Err(CoreCommandError::new(e.code, e.message));
        },
        Ok(()) => {},
    }
    match authority.require_effect(effect_class) {
        Err(e) => {
            return Err(CoreCommandError::new(e.code, e.message));
        },
        Ok(()) => {},
    }
    let registering = is_registering(request.command.as_str());
    let project_id = if registering {
        string_argument(&request.arguments, "id")
    } else {
        string_argument(&request.arguments, "project_id")
    };
    if project_id.is_some() || (authority.project_ids.is_some() && registering) {
        match authority.require_project(project_id) {
            Err(e) => {
                return Err(CoreCommandError::new(e.code, e.message));
            },
            Ok(()) => {},
        }
    }
    Ok(())
}

/// The wire name of a data class.
pub open spec fn class_name(c: DataClass) -> Seq<char> {
    match c {
        DataClass::Public => "public"@,
        DataClass::Project => "project"@,
        DataClass::Sensitive => "sensitive"@,
        DataClass::Credential => "credential"@,
    }
}

/// The data class with wire name `s`.
pub open spec fn class_named(s: Seq<char>) -> Option<DataClass> {
    if s == "public"@ {
        Some(DataClass::Public)
    } else if s == "project"@ {
        Some(DataClass::Project)
    } else if s == "sensitive"@ {
        Some(DataClass::Sensitive)
    } else if s == "credential"@ {
        Some(DataClass::Credential)
    } else {
        None
    }
}

pub fn parse_data_class(value: &str) -> (r: Result<DataClass, CoreCommandError>)
    ensures
        r is Ok <==> class_named(value@) is Some,
        r matches Ok(c) ==> class_named(value@) == Some(c),
        r matches Err(e) ==> e.code@ == "VALIDATION_FAILED"@ && e.message@ == "unsupported data class "@
            + value@,
{
    proof {
        reveal_strlit("public");
        reveal_strlit("project");
        reveal_strlit("sensitive");
        reveal_strlit("credential");
    }
    if str_eq(value, "public") {
        Ok(DataClass::Public)
    } else if str_eq(value, "project") {
        Ok(DataClass::Project)
    } else if str_eq(value, "sensitive") {
        Ok(DataClass::Sensitive)
    } else if str_eq(value, "credential") {
        Ok(DataClass::Credential)
    } else {
        Err(
            CoreCommandError::new(
                "VALIDATION_FAILED",
                String::from_str("unsupported data class ").concat(value),
            ),
        )
    }
}

pub fn data_class_name(value: DataClass) -> (r: &'static str)
    ensures
        r@ == class_name(value),
{
    proof {
        reveal_strlit("public");
        reveal_strlit("project");
        reveal_strlit("sensitive");
        reveal_strlit("credential");
    }
    match value {
        DataClass::Public => "public",
        DataClass::Project => "project",
        DataClass::Sensitive => "sensitive",
        DataClass::Credential => "credential",
    }
}

/// Every name a class prints as reads back as that class.
pub proof fn law_class_names_round_trip(c: DataClass)
    ensures
        class_named(class_name(c)) == Some(c),
{
    reveal_strlit("public");
    reveal_strlit("project");
    reveal_strlit("sensitive");
    reveal_strlit("credential");
    assert("project"@[1] != "public"@[1]);
    assert("sensitive"@[0] != "public"@[0]);
    assert("sensitive"@[0] != "project"@[0]);
    assert("credential"@[0] != "public"@[0]);
    assert("credential"@[0] != "project"@[0]);
    assert("credential"@[0] != "sensitive"@[0]);
}

/// The string items of the first `n` items of an array, in order.
pub open spec fn string_items(items: Seq<Json>, n: int) -> Seq<Seq<char>>
    decreases n,
{
    if n <= 0 {
        Seq::empty()
    } else if items[n - 1] is Str {
        string_items(items, n - 1).push(items[n - 1]->Str_0@)
    } else {
        string_items(items, n - 1)
    }
}

/// The strings of the array member `key` (nothing when it is missing or not
/// an array).
pub open spec fn string_list(arguments: Json, key: Seq<char>) -> Seq<Seq<char>> {
    match member(arguments, key) {
        Some(Json::Array(items)) => string_items(items@, items@.len() as int),
        _ => Seq::empty(),
    }
}

/// The classes that the first `n` names denote, or the first name that is
/// no class.
pub open spec fn classes_of(names: Seq<Seq<char>>, n: int) -> Result<Seq<DataClass>, Seq<char>>
    decreases n,
{
    if n <= 0 {
        Ok(Seq::empty())
    } else {
        match classes_of(names, n - 1) {
            Err(bad) => Err(bad),
            Ok(prefix) => match class_named(names[n - 1]) {
                Some(c) => Ok(prefix.push(c)),
                None => Err(names[n - 1]),
            },
        }
    }
}

proof fn lemma_classes_of_err_stable(names: Seq<Seq<char>>, n: int, m: int)
    requires
        0 <= n <= m,
        classes_of(names, n) is Err,
    ensures
        classes_of(names, m) == classes_of(names, n),
    decreases m - n,
{
    if m > n {
        lemma_classes_of_err_stable(names, n, m - 1);
    }
}

/// The views of strings.
pub open spec fn string_views(v: Seq<String>) -> Seq<Seq<char>> {
    Seq::new(v.len(), |i: int| v[i]@)
}

/// What `policy.egress_check` asks the filter, read from its arguments.
pub struct EgressCheckPlan {
    pub request: EgressRequest,
    pub approx_tokens: u64,
    pub class_names: Vec<String>,
}

/// Whether the arguments hold what the registry's schema for
/// `policy.egress_check` requires of them: a destination, a purpose and an
/// array of data classes.
pub open spec fn egress_arguments_well_formed(arguments: Json) -> bool {
    &&& str_member(arguments, "destination"@) is Some
    &&& str_member(arguments, "purpose"@) is Some
    &&& member(arguments, "data_classes"@) matches Some(v) && v is Array
}

/// Why the egress check refuses before the filter runs, in the order the
/// checks run: the project scope, an unknown data class, no data class, the
/// credential handle.
pub open spec fn egress_check_refusal(arguments: Json, auth: ExecutionAuthority) -> Option<
    (Seq<char>, Seq<char>),
> {
    let project = str_member(arguments, "project_id"@);
    let names = string_list(arguments, "data_classes"@);
    let handle = str_member(arguments, "credential_handle"@);
    if project is Some && project_refusal(auth, project) is Some {
        project_refusal(auth, project)
    } else if classes_of(names, names.len() as int) is Err {
        Some(
            (
                "VALIDATION_FAILED"@,
                "unsupported data class "@ + classes_of(names, names.len() as int)->Err_0,
            ),
        )
    } else if classes_of(names, names.len() as int)->Ok_0.len() == 0 {
        Some(("VALIDATION_FAILED"@, "data_classes must contain at least one class"@))
    } else if handle is Some && credential_refusal(auth, handle->0, Some("egress"@)) is Some {
        credential_refusal(auth, handle->0, Some("egress"@))
    } else {
        None
    }
}

fn string_list_of(arguments: &Json, key: &str) -> (r: Vec<String>)
    ensures
        string_views(r@) == string_list(*arguments, key@),
{
    let mut out: Vec<String> = Vec::new();
    match arguments.get(key) {
        Some(v) => match v.as_array() {
            Some(items) => {
                let mut i: usize = 0;
                while i < items.len()
                    invariant
                        i <= items@.len(),
                        member(*arguments, key@) == Some(Json::Array(*items)),
                        string_views(out@) == string_items(items@, i as int),
                    decreases items@.len() - i,
                {
                    if let Some(text) = items[i].as_str() {
                        out.push(String::from_str(text));
                    }
                    proof {
                        assert(string_views(out@) =~= string_items(items@, i + 1));
                    }
                    i = i + 1;
                }
            },
            None => {
                assert(string_views(out@) =~= string_list(*arguments, key@));
            },
        },
        None => {
            assert(string_views(out@) =~= string_list(*arguments, key@));
        },
    }
    out
}

/// Reads the egress request of `policy.egress_check` from its arguments and
/// applies the checks that precede the filter.
pub fn egress_check_request(arguments: &Json, authority: &ExecutionAuthority) -> (r: Result<
    EgressCheckPlan,
    CoreCommandError,
>)
    requires
        egress_arguments_well_formed(*arguments),
    ensures
        r is Ok <==> egress_check_refusal(*arguments, *authority) is None,
        r matches Err(e) ==> egress_check_refusal(*arguments, *authority) == Some(
            (e.code@, e.message@),
        ),
        r matches Ok(plan) ==> {
            let names = string_list(*arguments, "data_classes"@);
            &&& plan.request.destination@ == str_member(*arguments, "destination"@)->0
            &&& plan.request.purpose@ == str_member(*arguments, "purpose"@)->0
            &&& (plan.request.project_id matches Some(p) ==> str_member(*arguments, "project_id"@)
                == Some(p@))
            &&& (plan.request.project_id is None <==> str_member(*arguments, "project_id"@) is None)
            &&& plan.request.data_classes@ == classes_of(names, names.len() as int)->Ok_0
            &&& string_views(plan.request.modalities@) == string_list(*arguments, "modalities"@)
            &&& string_views(plan.request.source_refs@) == string_list(*arguments, "source_refs"@)
            &&& plan.request.approx_bytes == (match u64_member(*arguments, "approx_bytes"@) {
                Some(n) => n,
                None => 0,
            })
            &&& plan.approx_tokens == (match u64_member(*arguments, "approx_tokens"@) {
                Some(n) => n,
                None => 0,
            })
            &&& (plan.request.credential_handle matches Some(h) ==> str_member(
                *arguments,
                "credential_handle"@,
            ) == Some(h@))
            &&& (plan.request.credential_handle is None <==> str_member(
                *arguments,
                "credential_handle"@,
            ) is None)
            &&& plan.class_names@.len() == plan.request.data_classes@.len()
            &&& forall|i: int|
                0 <= i < plan.class_names@.len() ==> plan.class_names@[i]@ == class_name(
                    plan.request.data_classes@[i],
                )
        },
{
    let project_id = string_argument(arguments, "project_id");
    if project_id.is_some() {
        match authority.require_project(project_id) {
            Err(e) => {
                return Err(CoreCommandError::new(e.code, e.message));
            },
            Ok(()) => {},
        }
    }
    let names = string_list_of(arguments, "data_classes");
    let ghost names_view = string_list(*arguments, "data_classes"@);
    let mut classes: Vec<DataClass> = Vec::new();
    let mut class_names: Vec<String> = Vec::new();
    let mut i: usize = 0;
    while i < names.len()
        invariant
            i <= names@.len(),
            string_views(names@) == names_view,
            names_view == string_list(*arguments, "data_classes"@),
            str_member(*arguments, "project_id"@) is Some ==> project_refusal(
                *authority,
                str_member(*arguments, "project_id"@),
            ) is None,
            classes_of(names_view, i as int) == Ok::<Seq<DataClass>, Seq<char>>(classes@),
            class_names@.len() == classes@.len(),
            forall|k: int|
                0 <= k < class_names@.len() ==> class_names@[k]@ == class_name(classes@[k]),
        decreases names@.len() - i,
    {
        assert(names_view[i as int] == names@[i as int]@);
        match parse_data_class(names[i].as_str()) {
            Err(e) => {
                proof {
                    lemma_classes_of_err_stable(names_view, i + 1, names_view.len() as int);
                }
                return Err(e);
            },
            Ok(c) => {
                classes.push(c);
                class_names.push(String::from_str(data_class_name(c)));
            },
        }
        i = i + 1;
    }
    if classes.len() == 0 {
        return Err(
            CoreCommandError::new(
                "VALIDATION_FAILED",
                String::from_str("data_classes must contain at least one class"),
            ),
        );
    }
    let modalities = string_list_of(arguments, "modalities");
    let source_refs = string_list_of(arguments, "source_refs");
    let approx_bytes = match arguments.get("approx_bytes") {
        Some(v) => match v.as_u64() {
            Some(n) => n,
            None => 0,
        },
        None => 0,
    };
    let approx_tokens = match arguments.get("approx_tokens") {
        Some(v) => match v.as_u64() {
            Some(n) => n,
            None => 0,
        },
        None => 0,
    };
    let credential_handle = string_argument(arguments, "credential_handle");
    if let Some(handle_id) = credential_handle {
        match authority.require_credential_handle(handle_id, Some("egress")) {
            Err(e) => {
                return Err(CoreCommandError::new(e.code, e.message));
            },
            Ok(_) => {},
        }
    }
    let destination = match string_argument(arguments, "destination") {
        Some(d) => d,
        None => "",
    };
    let purpose = match string_argument(arguments, "purpose") {
        Some(p) => p,
        None => "",
    };
    let request = EgressRequest {
        destination: String::from_str(destination),
        project_id: match project_id {
            Some(p) => Some(String::from_str(p)),
            None => None,
        },
        data_classes: classes,
        modalities,
        approx_bytes,
        source_refs,
        purpose: String::from_str(purpose),
        credential_handle: match credential_handle {
            Some(h) => Some(String::from_str(h)),
            None => None,
        },
    };
    Ok(EgressCheckPlan { request, approx_tokens, class_names })
}

/// The registered state of a credential handle must be `active`: a revoked
/// handle and one that was never registered are refused.
pub fn durable_handle_check(status: Option<&str>) -> (r: Result<(), CoreCommandError>)
    ensures
        r is Ok <==> (status matches Some(s) && s@ == "active"@),
        r matches Err(e) ==> (status is Some && e.code@ == "CREDENTIAL_HANDLE_REVOKED"@
            && e.message@ == "credential handle is revoked"@) || (status is None && e.code@
            == "CREDENTIAL_HANDLE_DENIED"@ && e.message@ == "credential handle is not registered"@),
{
    match status {
        Some(s) => {
            if str_eq(s, "active") {
                Ok(())
            } else {
                Err(
                    CoreCommandError::new(
                        "CREDENTIAL_HANDLE_REVOKED",
                        String::from_str("credential handle is revoked"),
                    ),
                )
            }
        },
        None => Err(
            CoreCommandError::new(
                "CREDENTIAL_HANDLE_DENIED",
                String::from_str("credential handle is not registered"),
            ),
        ),
    }
}

/// The answer of `policy.egress_check`: the filter's decision and the ledger
/// entry that records it, keys in JSON map order.
pub fn egress_check_result(decision: &EgressDecision, ledger_id: &str) -> (r: Json)
    ensures
        r is Object,
        r->Object_0@.len() == 5,
        r->Object_0@[0].0@ == "allowed"@ && r->Object_0@[0].1 == Json::Bool(decision.allowed),
        r->Object_0@[1].0@ == "destination"@ && r->Object_0@[1].1 is Str
            && r->Object_0@[1].1->Str_0@ == decision.destination@,
        r->Object_0@[2].0@ == "ledger_id"@ && r->Object_0@[2].1 is Str && r->Object_0@[2].1->Str_0@
            == ledger_id@,
        r->Object_0@[3].0@ == "reason"@ && r->Object_0@[3].1 is Str && r->Object_0@[3].1->Str_0@
            == decision.reason@,
        r->Object_0@[4].0@ == "strongest_class"@ && r->Object_0@[4].1 is Str
            && r->Object_0@[4].1->Str_0@ == class_name(decision.strongest_class),
{
    let mut entries: Vec<(String, Json)> = Vec::new();
    entries.push((String::from_str("allowed"), Json::Bool(decision.allowed)));
    entries.push((String::from_str("destination"), Json::Str(decision.destination.clone())));
    entries.push((String::from_str("ledger_id"), Json::Str(String::from_str(ledger_id))));
    entries.push((String::from_str("reason"), Json::Str(decision.reason.clone())));
    entries.push(
        (
            String::from_str("strongest_class"),
            Json::Str(String::from_str(data_class_name(decision.strongest_class))),
        ),
    );
    Json::Object(entries)
}

} // verus!
