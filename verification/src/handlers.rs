//! The rules inside the core's command handlers, apart from the storage
//! they read and write: how `project.dependencies.replace` checks its
//! arguments, the generation window of `project.changes`, the bounds of the
//! listing commands, what an authority may see of projects and transactions,
//! the provenance of stored results, and the capability and health reports.
use vstd::prelude::*;
use vstd::string::StrSliceExecFns;
use vstd::string::StringExecFns;
use vstd::utf8::encode_utf8;
use crate::collections::{views, StrSet};
use crate::contracts::CommandRequest;
use crate::indexing::{normalize_project_relative_path, normalized_path};
use crate::json::{member, str_member, u64_member, Json};
use crate::manifest::{is_hex_digest, is_hex_digest_text};
use crate::policy::{str_opt_view, ExecutionAuthority};
use crate::registry::{capability_id, capability_ids, CommandRegistry};
use crate::service::{project_refusal, string_argument, CoreCommandError};
use crate::storage::{ProjectIndexState, ProjectRecord, TransactionRecord};
use crate::text::strictly_sorted;

verus! {

fn text(s: &str) -> (r: String)
    ensures
        r@ == s@,
{
    String::from_str(s)
}

/// The UTF-8 length of a string, as `str::len`.
pub open spec fn byte_len(s: Seq<char>) -> nat {
    encode_utf8(s).len()
}

fn utf8_len(s: &str) -> (r: usize)
    ensures
        r == byte_len(s@),
{
    s.as_bytes_vec().len()
}

/// The arguments of `project.dependencies.replace` as its contract admits
/// them: strings for the project, source, digest and producer, an integer
/// generation, and an array of string targets.
pub open spec fn dependency_arguments_well_formed(a: Json) -> bool {
    &&& str_member(a, "project_id"@) is Some
    &&& member(a, "expected_generation"@) matches Some(Json::Int(_))
    &&& str_member(a, "source_path"@) is Some
    &&& str_member(a, "source_sha256"@) is Some
    &&& str_member(a, "producer_id"@) is Some
    &&& str_member(a, "producer_version"@) is Some
    &&& member(a, "targets"@) matches Some(Json::Array(items)) && forall|i: int|
        0 <= i < items@.len() ==> (#[trigger] items@[i]) is Str
}

/// The raw targets of a dependency replacement.
pub open spec fn raw_targets(a: Json) -> Seq<Json> {
    match member(a, "targets"@) {
        Some(Json::Array(items)) => items@,
        _ => Seq::empty(),
    }
}

pub open spec fn target_refusal_message() -> Seq<char> {
    "dependency targets must be distinct project-relative files other than the source"@
}

/// The normalized targets after the first `n` raw ones, or why they are
/// refused: a target that does not normalize, is too long, is the source
/// itself, or repeats an earlier one.
pub open spec fn target_set(windows: bool, raws: Seq<Json>, n: int, source: Seq<char>) -> Result<
    Set<Seq<char>>,
    (Seq<char>, Seq<char>),
>
    decreases n,
{
    if n <= 0 {
        Ok(Set::empty())
    } else {
        match target_set(windows, raws, n - 1, source) {
            Err(e) => Err(e),
            Ok(set) => match normalized_path(windows, raws[n - 1]->Str_0@) {
                Err(e) => Err(e),
                Ok(t) => if byte_len(t) > 4096 || t == source || set.contains(t) {
                    Err(("VALIDATION_FAILED"@, target_refusal_message()))
                } else {
                    Ok(set.insert(t))
                },
            },
        }
    }
}

/// Why a dependency replacement is refused before it reaches storage: the
/// source path does not normalize; a field is beyond its bound (a source
/// path over 4096 bytes, a digest that is not 64 hex digits, a producer id
/// over 128 bytes or version over 64, more than 500 targets); or a target
/// is refused (see `target_set`).
pub open spec fn dependency_refusal(windows: bool, a: Json) -> Option<(Seq<char>, Seq<char>)> {
    let source = normalized_path(windows, str_member(a, "source_path"@)->0);
    match source {
        Err(e) => Some(e),
        Ok(s) => if byte_len(s) > 4096 || !is_hex_digest_text(str_member(a, "source_sha256"@)->0)
            || byte_len(str_member(a, "producer_id"@)->0) > 128 || byte_len(
            str_member(a, "producer_version"@)->0,
        ) > 64 || raw_targets(a).len() > 500 {
            Some(("VALIDATION_FAILED"@, "dependency replacement exceeds bounded field limits"@))
        } else {
            match target_set(windows, raw_targets(a), raw_targets(a).len() as int, s) {
                Err(e) => Some(e),
                Ok(_) => None,
            }
        }
    }
}

/// A checked dependency replacement.
pub struct DependencyRequest {
    pub project_id: String,
    pub expected_generation: i64,
    pub source_path: String,
    pub source_sha256: String,
    pub producer_id: String,
    pub producer_version: String,
    /// The normalized targets, sorted, each once.
    pub targets: Vec<String>,
}

/// The argument checks of `project.dependencies.replace`, with paths read
/// as the host reads them (`windows`).
pub fn dependency_request(arguments: &Json, windows: bool) -> (r: Result<DependencyRequest, CoreCommandError>)
    requires
        dependency_arguments_well_formed(*arguments),
    ensures
        r is Ok <==> dependency_refusal(windows, *arguments) is None,
        r matches Err(e) ==> dependency_refusal(windows, *arguments) == Some((e.code@, e.message@)),
        r matches Ok(d) ==> {
            &&& d.project_id@ == str_member(*arguments, "project_id"@)->0
            &&& member(*arguments, "expected_generation"@) == Some(
                Json::Int(d.expected_generation),
            )
            &&& normalized_path(windows, str_member(*arguments, "source_path"@)->0) == Ok::<
                Seq<char>,
                (Seq<char>, Seq<char>),
            >(d.source_path@)
            &&& d.source_sha256@ == str_member(*arguments, "source_sha256"@)->0
            &&& d.producer_id@ == str_member(*arguments, "producer_id"@)->0
            &&& d.producer_version@ == str_member(*arguments, "producer_version"@)->0
            &&& strictly_sorted(views(d.targets@))
            &&& target_set(windows, 
                raw_targets(*arguments),
                raw_targets(*arguments).len() as int,
                d.source_path@,
            ) == Ok::<Set<Seq<char>>, (Seq<char>, Seq<char>)>(views(d.targets@).to_set())
        },
{
    proof {
        reveal_strlit("project_id");
        reveal_strlit("expected_generation");
        reveal_strlit("source_path");
        reveal_strlit("source_sha256");
        reveal_strlit("producer_id");
        reveal_strlit("producer_version");
        reveal_strlit("targets");
    }
    let project_id = string_argument(arguments, "project_id").unwrap();
    let expected_generation: i64 = match arguments.get("expected_generation") {
        Some(Json::Int(n)) => *n,
        _ => 0,
    };
    let raw_source = string_argument(arguments, "source_path").unwrap();
    let source_path = match normalize_project_relative_path(raw_source, windows) {
        Ok(p) => p,
        Err(e) => {
            return Err(CoreCommandError::new(e.code, e.message));
        },
    };
    let source_sha256 = string_argument(arguments, "source_sha256").unwrap();
    let producer_id = string_argument(arguments, "producer_id").unwrap();
    let producer_version = string_argument(arguments, "producer_version").unwrap();
    let raws: &Vec<Json> = match arguments.get("targets") {
        Some(Json::Array(items)) => items,
        _ => {
            return Err(CoreCommandError::new("VALIDATION_FAILED", text("targets are required")));
        },
    };
    if utf8_len(source_path.as_str()) > 4096 || !is_hex_digest(source_sha256) || utf8_len(
        producer_id,
    ) > 128 || utf8_len(producer_version) > 64 || raws.len() > 500 {
        return Err(
            CoreCommandError::new(
                "VALIDATION_FAILED",
                text("dependency replacement exceeds bounded field limits"),
            ),
        );
    }
    let mut targets = StrSet::new();
    let mut i: usize = 0;
    assert(dependency_refusal(windows, *arguments) == match target_set(windows, 
        raw_targets(*arguments),
        raw_targets(*arguments).len() as int,
        source_path@,
    ) {
        Err(e) => Some(e),
        Ok(_) => None,
    });
    while i < raws.len()
        invariant
            i <= raws@.len(),
            raws@ == raw_targets(*arguments),
            dependency_refusal(windows, *arguments) == match target_set(windows, 
                raw_targets(*arguments),
                raw_targets(*arguments).len() as int,
                source_path@,
            ) {
                Err(e) => Some(e),
                Ok(_) => None,
            },
            forall|k: int| 0 <= k < raws@.len() ==> (#[trigger] raws@[k]) is Str,
            target_set(windows, raws@, i as int, source_path@) == Ok::<
                Set<Seq<char>>,
                (Seq<char>, Seq<char>),
            >(targets.set()),
        decreases raws@.len() - i,
    {
        let raw: &str = match &raws[i] {
            Json::Str(s) => s.as_str(),
            _ => "",
        };
        let target = match normalize_project_relative_path(raw, windows) {
            Ok(t) => t,
            Err(e) => {
                proof {
                    lemma_target_error_stays(windows, raws@, i + 1, raws@.len() as int, source_path@);
                }
                return Err(CoreCommandError::new(e.code, e.message));
            },
        };
        if utf8_len(target.as_str()) > 4096 || crate::text::str_eq(
            target.as_str(),
            source_path.as_str(),
        ) || targets.contains(target.as_str()) {
            proof {
                reveal_strlit(
                    "dependency targets must be distinct project-relative files other than the source",
                );
                lemma_target_error_stays(windows, raws@, i + 1, raws@.len() as int, source_path@);
            }
            return Err(
                CoreCommandError::new(
                    "VALIDATION_FAILED",
                    text(
                        "dependency targets must be distinct project-relative files other than the source",
                    ),
                ),
            );
        }
        targets.insert(target);
        i = i + 1;
    }
    let listed = targets.to_vec();
    Ok(
        DependencyRequest {
            project_id: text(project_id),
            expected_generation,
            source_path,
            source_sha256: text(source_sha256),
            producer_id: text(producer_id),
            producer_version: text(producer_version),
            targets: listed,
        },
    )
}

proof fn lemma_target_error_stays(windows: bool, raws: Seq<Json>, n: int, m: int, source: Seq<char>)
    requires
        0 <= n <= m,
        target_set(windows, raws, n, source) is Err,
    ensures
        target_set(windows, raws, m, source) == target_set(windows, raws, n, source),
    decreases m - n,
{
    if m > n {
        lemma_target_error_stays(windows, raws, n, m - 1, source);
    }
}

/// Why `project.changes` refuses a start generation: before the current
/// baseline (the changes before it are gone), or past the current
/// generation.
pub open spec fn changes_start(state: ProjectIndexState, after: Option<i64>) -> Result<
    i64,
    (Seq<char>, Seq<char>),
> {
    let start = match after {
        Some(g) => g,
        None => state.baseline_generation,
    };
    if start < state.baseline_generation {
        Err(("INDEX_CONTINUITY_LOST"@, "requested generation precedes the current baseline"@))
    } else if start > state.generation {
        Err(("INDEX_GENERATION_CONFLICT"@, "requested generation is newer than the current index"@))
    } else {
        Ok(start)
    }
}

/// The generation `project.changes` lists changes after: the
/// `after_generation` argument, else the baseline.
pub fn changes_window(state: &ProjectIndexState, arguments: &Json) -> (r: Result<
    i64,
    CoreCommandError,
>)
    ensures
        ({
            let after = match member(*arguments, "after_generation"@) {
                Some(Json::Int(g)) => Some(g),
                _ => None,
            };
            &&& r matches Ok(g) ==> changes_start(*state, after) == Ok::<
                i64,
                (Seq<char>, Seq<char>),
            >(g)
            &&& r matches Err(e) ==> changes_start(*state, after) == Err::<
                i64,
                (Seq<char>, Seq<char>),
            >((e.code@, e.message@))
        }),
{
    proof {
        reveal_strlit("after_generation");
    }
    let start = match arguments.get("after_generation") {
        Some(v) => match v.as_i64() {
            Some(g) => g,
            None => state.baseline_generation,
        },
        None => state.baseline_generation,
    };
    if start < state.baseline_generation {
        return Err(
            CoreCommandError::new(
                "INDEX_CONTINUITY_LOST",
                text("requested generation precedes the current baseline"),
            ),
        );
    }
    if start > state.generation {
        return Err(
            CoreCommandError::new(
                "INDEX_GENERATION_CONFLICT",
                text("requested generation is newer than the current index"),
            ),
        );
    }
    Ok(start)
}

/// The bound of `project.changes` and `project.dependencies.list`: the
/// `limit` argument, 100 when absent.
pub fn listing_limit(arguments: &Json) -> (r: u64)
    ensures
        r == (match u64_member(*arguments, "limit"@) {
            Some(n) => n,
            None => 100u64,
        }),
{
    proof {
        reveal_strlit("limit");
    }
    match arguments.get("limit") {
        Some(v) => match v.as_u64() {
            Some(n) => n,
            None => 100,
        },
        None => 100,
    }
}

/// A listing that found more than `limit` rows is refused; one more row than
/// the bound is read to tell.
pub fn bounded_rows(rows: usize, limit: u64, code: &'static str, message: &str) -> (r: Result<
    (),
    CoreCommandError,
>)
    ensures
        r is Ok <==> rows <= limit,
        r matches Err(e) ==> e.code == code && e.message@ == message@,
{
    if rows as u64 > limit {
        Err(CoreCommandError::new(code, text(message)))
    } else {
        Ok(())
    }
}

/// The bound of `transaction.list`: the `limit` argument (50 when absent),
/// held between 1 and 200.
pub fn transaction_list_limit(arguments: &Json) -> (r: usize)
    ensures
        ({
            let l: int = match u64_member(*arguments, "limit"@) {
                Some(n) => n as int,
                None => 50,
            };
            r == (if l < 1 {
                1
            } else if l > 200 {
                200
            } else {
                l
            })
        }),
{
    proof {
        reveal_strlit("limit");
    }
    let requested: u64 = match arguments.get("limit") {
        Some(v) => match v.as_u64() {
            Some(n) => n,
            None => 50,
        },
        None => 50,
    };
    if requested < 1 {
        1
    } else if requested > 200 {
        200
    } else {
        requested as usize
    }
}

/// Whether a scoped authority may see a transaction: only one recorded
/// against a project in its scope.
pub open spec fn transaction_visible(authority: ExecutionAuthority, t: TransactionRecord) -> bool {
    match authority.project_ids {
        None => true,
        Some(scope) => t.project_id matches Some(p) && scope.set().contains(p@),
    }
}

/// The transactions a listing shows: when no project was requested, a
/// scoped authority sees only those of its projects, at most `limit` of
/// them, in the order they were read.
pub fn visible_transactions(
    records: Vec<TransactionRecord>,
    requested_project: Option<&str>,
    authority: &ExecutionAuthority,
    limit: usize,
) -> (r: Vec<TransactionRecord>)
    ensures
        requested_project is Some || authority.project_ids is None ==> r@ == records@,
        requested_project is None && authority.project_ids is Some ==> r@ == records@.filter(
            |t: TransactionRecord| transaction_visible(*authority, t),
        ).take(
            if records@.filter(|t: TransactionRecord| transaction_visible(*authority, t)).len()
                < limit {
                records@.filter(|t: TransactionRecord| transaction_visible(*authority, t)).len()
                    as int
            } else {
                limit as int
            },
        ),
{
    if requested_project.is_some() {
        return records;
    }
    let scope = match &authority.project_ids {
        None => {
            return records;
        },
        Some(scope) => scope,
    };
    let count = records.len();
    let ghost all = records@;
    let ghost pred = |t: TransactionRecord| transaction_visible(*authority, t);
    let mut rest = records;
    let mut out: Vec<TransactionRecord> = Vec::new();
    let mut taken: usize = 0;
    proof {
        reveal(Seq::filter);
        assert(all.subrange(0, 0) =~= Seq::<TransactionRecord>::empty());
    }
    while rest.len() > 0
        invariant
            taken <= all.len(),
            all.len() == count,
            rest@ == all.subrange(taken as int, all.len() as int),
            out@ == all.subrange(0, taken as int).filter(pred),
            authority.project_ids == Some(*scope),
            pred == (|t: TransactionRecord| transaction_visible(*authority, t)),
        decreases rest@.len(),
    {
        let record = rest.remove(0);
        proof {
            reveal(Seq::filter);
            assert(all.subrange(0, taken + 1).drop_last() =~= all.subrange(0, taken as int));
            assert(all.subrange(0, taken + 1).last() == record);
        }
        let visible = match &record.project_id {
            Some(p) => scope.contains(p.as_str()),
            None => false,
        };
        assert(visible == pred(record));
        let ghost before = out@;
        if visible {
            out.push(record);
            assert(out@ =~= before.push(all[taken as int]));
        }
        assert(out@ =~= all.subrange(0, taken + 1).filter(pred));
        taken = taken + 1;
        assert(rest@ =~= all.subrange(taken as int, all.len() as int));
    }
    assert(all.subrange(0, all.len() as int) =~= all);
    out.truncate(limit);
    out
}

/// The provenance a stored result or job records: the core, the request
/// and who made it (absent members are `null`).
pub open spec fn opt_json(o: Option<String>, j: Json) -> bool {
    match o {
        Some(s) => j matches Json::Str(t) && t@ == s@,
        None => j is Null,
    }
}

fn opt_string_json(o: &Option<String>) -> (r: Json)
    ensures
        opt_json(*o, r),
{
    match o {
        Some(s) => Json::Str(s.clone()),
        None => Json::Null,
    }
}

pub fn provenance(request: &CommandRequest) -> (r: Json)
    ensures
        r is Object,
        r->Object_0@.len() == 6,
        r->Object_0@[0].0@ == "actor_id"@ && opt_json(
            request.context.actor_id,
            r->Object_0@[0].1,
        ),
        r->Object_0@[1].0@ == "client_id"@ && opt_json(
            request.context.client_id,
            r->Object_0@[1].1,
        ),
        r->Object_0@[2].0@ == "command"@,
        r->Object_0@[2].1 matches Json::Str(c) && c@ == request.command@,
        r->Object_0@[3].0@ == "delegator_id"@ && opt_json(
            request.context.delegator_id,
            r->Object_0@[3].1,
        ),
        r->Object_0@[4].0@ == "request_id"@,
        r->Object_0@[4].1 matches Json::Str(q) && q@ == request.request_id@,
        r->Object_0@[5].0@ == "source"@,
        r->Object_0@[5].1 matches Json::Str(s) && s@ == "relay-core"@,
{
    let mut entries: Vec<(String, Json)> = Vec::new();
    entries.push((text("actor_id"), opt_string_json(&request.context.actor_id)));
    entries.push((text("client_id"), opt_string_json(&request.context.client_id)));
    entries.push((text("command"), Json::Str(request.command.clone())));
    entries.push((text("delegator_id"), opt_string_json(&request.context.delegator_id)));
    entries.push((text("request_id"), Json::Str(request.request_id.clone())));
    entries.push((text("source"), Json::Str(text("relay-core"))));
    Json::Object(entries)
}

/// The capabilities the core reports: the registry's capability ids and the
/// runtime's own, sorted, each once.
pub fn core_capabilities(registry: &CommandRegistry, runtime_capabilities: &Vec<String>) -> (r: Vec<
    String,
>)
    ensures
        strictly_sorted(views(r@)),
        forall|s: Seq<char>|
            views(r@).contains(s) <==> (views(runtime_capabilities@).contains(s) || exists|k: int|
                0 <= k < registry.commands@.len() && s == capability_id(
                    #[trigger] registry.commands@[k],
                )),
{
    let mut set = StrSet::from_vec(capability_ids(registry));
    let mut i: usize = 0;
    while i < runtime_capabilities.len()
        invariant
            i <= runtime_capabilities@.len(),
            forall|s: Seq<char>|
                set.set().contains(s) <==> (exists|k: int|
                    0 <= k < i && views(runtime_capabilities@)[k] == s) || exists|k: int|
                    0 <= k < registry.commands@.len() && s == capability_id(
                        #[trigger] registry.commands@[k],
                    ),
        decreases runtime_capabilities@.len() - i,
    {
        set.insert(runtime_capabilities[i].clone());
        proof {
            assert forall|s: Seq<char>|
                set.set().contains(s) <==> (exists|k: int|
                    0 <= k < i + 1 && views(runtime_capabilities@)[k] == s) || exists|k: int|
                    0 <= k < registry.commands@.len() && s == capability_id(
                        #[trigger] registry.commands@[k],
                    ) by {
                if s == runtime_capabilities@[i as int]@ {
                    assert(views(runtime_capabilities@)[i as int] == s);
                }
            }
        }
        i = i + 1;
    }
    let r = set.to_vec();
    proof {
        assert forall|s: Seq<char>|
            views(r@).contains(s) <==> (views(runtime_capabilities@).contains(s) || exists|k: int|
                0 <= k < registry.commands@.len() && s == capability_id(
                    #[trigger] registry.commands@[k],
                )) by {
            assert(views(r@).contains(s) <==> views(r@).to_set().contains(s));
        }
    }
    r
}

/// `j` is the JSON string `s`.
pub open spec fn is_text(j: Json, s: Seq<char>) -> bool {
    j matches Json::Str(t) && t@ == s
}

/// A project as an authority is shown it: an absolute root path is replaced
/// by `local-project:<id>`, so that no local path leaves the host.
pub fn redacted_project(project: ProjectRecord, absolute_root: bool) -> (r: ProjectRecord)
    ensures
        r.id == project.id,
        r.name == project.name,
        r.created_at == project.created_at,
        r.updated_at == project.updated_at,
        absolute_root ==> r.root_uri@ == "local-project:"@ + project.id@,
        !absolute_root ==> r.root_uri == project.root_uri,
{
    proof {
        reveal_strlit("local-project:");
    }
    if absolute_root {
        let root_uri = text("local-project:").concat(project.id.as_str());
        ProjectRecord { root_uri, ..project }
    } else {
        project
    }
}

/// Whether an authority may see a project: an unscoped one sees all.
pub open spec fn project_visible(authority: ExecutionAuthority, p: ProjectRecord) -> bool {
    match authority.project_ids {
        None => true,
        Some(scope) => scope.set().contains(p.id@),
    }
}

/// `project.list`: the projects the authority may see, in the order they
/// were read, each with its root shown as `redacted_project` shows it
/// (whether a root is absolute is the platform's judgement).
pub fn visible_projects(projects: Vec<ProjectRecord>, authority: &ExecutionAuthority) -> (r: Vec<
    ProjectRecord,
>)
    ensures
        r@.len() == projects@.filter(|p: ProjectRecord| project_visible(*authority, p)).len(),
        forall|i: int|
            0 <= i < r@.len() ==> {
                let p = projects@.filter(|p: ProjectRecord| project_visible(*authority, p))[i];
                &&& (#[trigger] r@[i]).id == p.id
                &&& r@[i].name == p.name
                &&& r@[i].created_at == p.created_at
                &&& r@[i].updated_at == p.updated_at
                &&& (r@[i].root_uri == p.root_uri || r@[i].root_uri@ == "local-project:"@ + p.id@)
                &&& p.root_uri@.len() == 0 ==> r@[i].root_uri == p.root_uri
            },
{
    let count = projects.len();
    let ghost all = projects@;
    let ghost pred = |p: ProjectRecord| project_visible(*authority, p);
    let mut rest = projects;
    let mut out: Vec<ProjectRecord> = Vec::new();
    let mut taken: usize = 0;
    proof {
        reveal(Seq::filter);
        assert(all.subrange(0, 0) =~= Seq::<ProjectRecord>::empty());
    }
    while rest.len() > 0
        invariant
            taken <= all.len(),
            all.len() == count,
            rest@ == all.subrange(taken as int, all.len() as int),
            pred == (|p: ProjectRecord| project_visible(*authority, p)),
            out@.len() == all.subrange(0, taken as int).filter(pred).len(),
            forall|i: int|
                0 <= i < out@.len() ==> {
                    let p = all.subrange(0, taken as int).filter(pred)[i];
                    &&& (#[trigger] out@[i]).id == p.id
                    &&& out@[i].name == p.name
                    &&& out@[i].created_at == p.created_at
                    &&& out@[i].updated_at == p.updated_at
                    &&& (out@[i].root_uri == p.root_uri || out@[i].root_uri@ == "local-project:"@
                        + p.id@)
                    &&& p.root_uri@.len() == 0 ==> out@[i].root_uri == p.root_uri
                },
        decreases rest@.len(),
    {
        let project = rest.remove(0);
        proof {
            reveal(Seq::filter);
            assert(all.subrange(0, taken + 1).drop_last() =~= all.subrange(0, taken as int));
            assert(all.subrange(0, taken + 1).last() == project);
        }
        let visible = match &authority.project_ids {
            None => true,
            Some(scope) => scope.contains(project.id.as_str()),
        };
        assert(visible == pred(project));
        let ghost before = out@;
        let ghost original = project;
        if visible {
            let absolute = crate::sandbox::path_is_absolute(project.root_uri.as_str());
            let shown = redacted_project(project, absolute);
            out.push(shown);
            proof {
                let f = all.subrange(0, taken + 1).filter(pred);
                assert(f =~= all.subrange(0, taken as int).filter(pred).push(original));
                assert forall|i: int| 0 <= i < out@.len() implies {
                    let p = f[i];
                    &&& (#[trigger] out@[i]).id == p.id
                    &&& out@[i].name == p.name
                    &&& out@[i].created_at == p.created_at
                    &&& out@[i].updated_at == p.updated_at
                    &&& (out@[i].root_uri == p.root_uri || out@[i].root_uri@ == "local-project:"@
                        + p.id@)
                    &&& p.root_uri@.len() == 0 ==> out@[i].root_uri == p.root_uri
                } by {
                    if i < before.len() {
                        assert(out@[i] == before[i]);
                    }
                }
            }
        } else {
            assert(all.subrange(0, taken + 1).filter(pred) =~= all.subrange(0, taken as int).filter(
                pred,
            ));
        }
        taken = taken + 1;
        assert(rest@ =~= all.subrange(taken as int, all.len() as int));
    }
    assert(all.subrange(0, all.len() as int) =~= all);
    out
}

/// `j` is a capability report entry: `{"detail": .., "id": .., "state": ..}`.
pub open spec fn is_capability(j: Json, id: Seq<char>, state: Seq<char>, detail: Seq<char>) -> bool {
    &&& j is Object
    &&& j->Object_0@.len() == 3
    &&& j->Object_0@[0].0@ == "detail"@ && is_text(j->Object_0@[0].1, detail)
    &&& j->Object_0@[1].0@ == "id"@ && is_text(j->Object_0@[1].1, id)
    &&& j->Object_0@[2].0@ == "state"@ && is_text(j->Object_0@[2].1, state)
}

fn capability(id: &str, state: &str, detail: &str) -> (r: Json)
    ensures
        is_capability(r, id@, state@, detail@),
{
    let mut entries: Vec<(String, Json)> = Vec::new();
    entries.push((text("detail"), Json::Str(text(detail))));
    entries.push((text("id"), Json::Str(text(id))));
    entries.push((text("state"), Json::Str(text(state))));
    Json::Object(entries)
}

/// Whether a project's durable baseline is ready.
pub open spec fn baseline_ready(state: Option<ProjectIndexState>) -> bool {
    state matches Some(s) && s.status@ == "ready"@
}

/// `available`, `unavailable` or `unknown` for a capability that needs the
/// project root and, beyond it, a ready baseline.
pub open spec fn needs_baseline(root_available: bool, ready: bool) -> Seq<char> {
    if !root_available {
        "unavailable"@
    } else if ready {
        "available"@
    } else {
        "unknown"@
    }
}

/// `available` when the root is, else `unavailable`.
pub open spec fn with_root(root_available: bool) -> Seq<char> {
    if root_available {
        "available"@
    } else {
        "unavailable"@
    }
}

/// `project.capabilities`: what can be done for a project, from whether its
/// canonical root is reachable and whether its baseline is ready.
pub fn project_capabilities_report(
    project_id: &str,
    state: Option<&ProjectIndexState>,
    root_available: bool,
) -> (r: Json)
    ensures
        ({
            let ready = baseline_ready(
                match state {
                    Some(s) => Some(*s),
                    None => None,
                },
            );
            let caps = r->Object_0@[1].1->Array_0@;
            &&& r is Object
            &&& r->Object_0@.len() == 3
            &&& r->Object_0@[0].0@ == "baseline_state"@ && is_text(
                r->Object_0@[0].1,
                if !root_available {
                    "unavailable"@
                } else if ready {
                    "ready"@
                } else {
                    "missing"@
                },
            )
            &&& r->Object_0@[1].0@ == "capabilities"@ && r->Object_0@[1].1 is Array
            &&& r->Object_0@[2].0@ == "project_id"@ && is_text(r->Object_0@[2].1, project_id@)
            &&& caps.len() == 7
            &&& is_capability(
                caps[0],
                "filesystem.read"@,
                with_root(root_available),
                if root_available {
                    "canonical project root is readable"@
                } else {
                    "canonical project root is unavailable"@
                },
            )
            &&& is_capability(
                caps[1],
                "index.baseline"@,
                with_root(root_available),
                if !root_available {
                    "project root is unavailable"@
                } else if ready {
                    "durable baseline exists"@
                } else {
                    "baseline can be built when the project root is available"@
                },
            )
            &&& is_capability(
                caps[2],
                "index.changed_only"@,
                needs_baseline(root_available, ready),
                if !root_available {
                    "project root is unavailable"@
                } else if ready {
                    "metadata reconciliation hashes only new or metadata-changed files"@
                } else {
                    "requires a healthy baseline"@
                },
            )
            &&& is_capability(
                caps[3],
                "watcher.hints"@,
                "available"@,
                "watcher paths are hints; authoritative reconciliation remains required"@,
            )
            &&& is_capability(
                caps[4],
                "reconciliation"@,
                with_root(root_available),
                "filesystem metadata reconciliation is authoritative"@,
            )
            &&& is_capability(
                caps[5],
                "dependency_edges"@,
                needs_baseline(root_available, ready),
                "project-scoped derived edges can be supplied for indexed files with generation and source-hash checks"@,
            )
            &&& is_capability(
                caps[6],
                "dependency_graph"@,
                "unknown"@,
                "automatic dependency extraction requires a compatible parser or adapter"@,
            )
        }),
{
    let ready = match state {
        Some(s) => crate::text::str_eq(s.status.as_str(), "ready"),
        None => false,
    };
    proof {
        reveal_strlit("ready");
    }
    let on_root = if root_available {
        "available"
    } else {
        "unavailable"
    };
    let on_baseline = if !root_available {
        "unavailable"
    } else if ready {
        "available"
    } else {
        "unknown"
    };
    let mut caps: Vec<Json> = Vec::new();
    caps.push(
        capability(
            "filesystem.read",
            on_root,
            if root_available {
                "canonical project root is readable"
            } else {
                "canonical project root is unavailable"
            },
        ),
    );
    caps.push(
        capability(
            "index.baseline",
            on_root,
            if !root_available {
                "project root is unavailable"
            } else if ready {
                "durable baseline exists"
            } else {
                "baseline can be built when the project root is available"
            },
        ),
    );
    caps.push(
        capability(
            "index.changed_only",
            on_baseline,
            if !root_available {
                "project root is unavailable"
            } else if ready {
                "metadata reconciliation hashes only new or metadata-changed files"
            } else {
                "requires a healthy baseline"
            },
        ),
    );
    caps.push(
        capability(
            "watcher.hints",
            "available",
            "watcher paths are hints; authoritative reconciliation remains required",
        ),
    );
    caps.push(
        capability(
            "reconciliation",
            on_root,
            "filesystem metadata reconciliation is authoritative",
        ),
    );
    caps.push(
        capability(
            "dependency_edges",
            on_baseline,
            "project-scoped derived edges can be supplied for indexed files with generation and source-hash checks",
        ),
    );
    caps.push(
        capability(
            "dependency_graph",
            "unknown",
            "automatic dependency extraction requires a compatible parser or adapter",
        ),
    );
    let baseline_state = if !root_available {
        "unavailable"
    } else if ready {
        "ready"
    } else {
        "missing"
    };
    let mut entries: Vec<(String, Json)> = Vec::new();
    entries.push((text("baseline_state"), Json::Str(text(baseline_state))));
    entries.push((text("capabilities"), Json::Array(caps)));
    entries.push((text("project_id"), Json::Str(text(project_id))));
    Json::Object(entries)
}

/// `j` is a doctor check: `{"detail": .., "id": .., "status": ..}`.
pub open spec fn is_check(j: Json, id: Seq<char>, passed: bool, detail: Seq<char>) -> bool {
    &&& j is Object
    &&& j->Object_0@.len() == 3
    &&& j->Object_0@[0].0@ == "detail"@ && is_text(j->Object_0@[0].1, detail)
    &&& j->Object_0@[1].0@ == "id"@ && is_text(j->Object_0@[1].1, id)
    &&& j->Object_0@[2].0@ == "status"@ && is_text(
        j->Object_0@[2].1,
        if passed {
            "pass"@
        } else {
            "fail"@
        },
    )
}

fn check(id: &str, passed: bool, detail: String) -> (r: Json)
    ensures
        is_check(r, id@, passed, detail@),
{
    proof {
        reveal_strlit("pass");
        reveal_strlit("fail");
    }
    let mut entries: Vec<(String, Json)> = Vec::new();
    entries.push((text("detail"), Json::Str(detail)));
    entries.push((text("id"), Json::Str(text(id))));
    entries.push(
        (
            text("status"),
            Json::Str(
                if passed {
                    text("pass")
                } else {
                    text("fail")
                },
            ),
        ),
    );
    Json::Object(entries)
}

/// The host is healthy when its storage, its diagnostics capture and its
/// local transport all are.
pub open spec fn host_healthy(storage_ok: bool, diagnostics_ok: bool, ipc_healthy: bool) -> bool {
    storage_ok && diagnostics_ok && ipc_healthy
}

/// The recovery state `system.status` reports.
pub fn recovery_state(storage_ok: bool, diagnostics_ok: bool, ipc_healthy: bool) -> (r: &'static str)
    ensures
        r@ == (if host_healthy(storage_ok, diagnostics_ok, ipc_healthy) {
            "Healthy"@
        } else {
            "Degraded"@
        }),
{
    proof {
        reveal_strlit("Healthy");
        reveal_strlit("Degraded");
    }
    if storage_ok && diagnostics_ok && ipc_healthy {
        "Healthy"
    } else {
        "Degraded"
    }
}

pub open spec fn or_else(o: Option<String>, fallback: Seq<char>) -> Seq<char> {
    match o {
        Some(s) => s@,
        None => fallback,
    }
}

/// `system.doctor`: each check with its detail, whether all pass, a summary
/// that names the first part needing attention (storage, then diagnostics,
/// then transport), and the action to take next (`null` when healthy).
pub fn doctor_report(
    pid: u32,
    storage: &crate::storage::StorageHealth,
    diagnostics_ok: bool,
    diagnostics_error: &Option<String>,
    ipc_healthy: bool,
) -> (r: Json)
    ensures
        ({
            let healthy = host_healthy(storage.ok, diagnostics_ok, ipc_healthy);
            let checks = r->Object_0@[0].1->Array_0@;
            &&& r is Object
            &&& r->Object_0@.len() == 4
            &&& r->Object_0@[0].0@ == "checks"@ && r->Object_0@[0].1 is Array
            &&& checks.len() == 4
            &&& is_check(checks[0], "core.process"@, true, "PID "@ + crate::text::decimal(pid as nat))
            &&& is_check(
                checks[1],
                "storage.integrity"@,
                storage.ok,
                if storage.ok {
                    "SQLite quick_check: "@ + storage.check@
                } else {
                    or_else(storage.error, "storage unavailable"@)
                },
            )
            &&& is_check(
                checks[2],
                "diagnostics.capture"@,
                diagnostics_ok,
                if diagnostics_ok {
                    "bounded structured diagnostics available"@
                } else {
                    or_else(*diagnostics_error, "diagnostics unavailable"@)
                },
            )
            &&& is_check(
                checks[3],
                "transport.local"@,
                ipc_healthy,
                if ipc_healthy {
                    "local transport healthy"@
                } else {
                    "local transport degraded"@
                },
            )
            &&& r->Object_0@[1].0@ == "healthy"@ && r->Object_0@[1].1 == Json::Bool(healthy)
            &&& r->Object_0@[2].0@ == "next_action"@
            &&& (if healthy {
                r->Object_0@[2].1 is Null
            } else if !storage.ok {
                is_text(
                    r->Object_0@[2].1,
                    "Protect and inspect operational storage before writes."@,
                )
            } else if !diagnostics_ok {
                is_text(
                    r->Object_0@[2].1,
                    "Restore diagnostics capture before treating support evidence as complete."@,
                )
            } else {
                is_text(r->Object_0@[2].1, "Inspect local transport security/connectivity."@)
            })
            &&& r->Object_0@[3].0@ == "summary"@ && is_text(
                r->Object_0@[3].1,
                if healthy {
                    "RELAY Core, storage, diagnostics, and local transport are healthy."@
                } else if !storage.ok {
                    "RELAY Core is reachable, but operational storage needs attention."@
                } else if !diagnostics_ok {
                    "RELAY Core is reachable, but diagnostics capture needs attention."@
                } else {
                    "RELAY Core is healthy, but local transport needs attention."@
                },
            )
        }),
{
    proof {
        reveal_strlit("PID ");
        reveal_strlit("SQLite quick_check: ");
    }
    let healthy = storage.ok && diagnostics_ok && ipc_healthy;
    let mut checks: Vec<Json> = Vec::new();
    let pid_text = crate::text::u64_to_decimal(pid as u64);
    checks.push(check("core.process", true, text("PID ").concat(pid_text.as_str())));
    let storage_detail = if storage.ok {
        text("SQLite quick_check: ").concat(storage.check.as_str())
    } else {
        match &storage.error {
            Some(e) => e.clone(),
            None => text("storage unavailable"),
        }
    };
    checks.push(check("storage.integrity", storage.ok, storage_detail));
    let diagnostics_detail = if diagnostics_ok {
        text("bounded structured diagnostics available")
    } else {
        match diagnostics_error {
            Some(e) => e.clone(),
            None => text("diagnostics unavailable"),
        }
    };
    checks.push(check("diagnostics.capture", diagnostics_ok, diagnostics_detail));
    let transport_detail = if ipc_healthy {
        text("local transport healthy")
    } else {
        text("local transport degraded")
    };
    checks.push(check("transport.local", ipc_healthy, transport_detail));
    let next_action = if healthy {
        Json::Null
    } else if !storage.ok {
        Json::Str(text("Protect and inspect operational storage before writes."))
    } else if !diagnostics_ok {
        Json::Str(text("Restore diagnostics capture before treating support evidence as complete."))
    } else {
        Json::Str(text("Inspect local transport security/connectivity."))
    };
    let summary = if healthy {
        "RELAY Core, storage, diagnostics, and local transport are healthy."
    } else if !storage.ok {
        "RELAY Core is reachable, but operational storage needs attention."
    } else if !diagnostics_ok {
        "RELAY Core is reachable, but diagnostics capture needs attention."
    } else {
        "RELAY Core is healthy, but local transport needs attention."
    };
    let mut entries: Vec<(String, Json)> = Vec::new();
    entries.push((text("checks"), Json::Array(checks)));
    entries.push((text("healthy"), Json::Bool(healthy)));
    entries.push((text("next_action"), next_action));
    entries.push((text("summary"), Json::Str(text(summary))));
    Json::Object(entries)
}


/// A record that `result.get` or `job.get` reads back.
#[derive(PartialEq, Eq, Structural, Clone, Copy, Debug)]
pub enum StoredKind {
    Result,
    Job,
}

/// The refusal for a record that is not stored.
pub open spec fn not_found(kind: StoredKind) -> (Seq<char>, Seq<char>) {
    match kind {
        StoredKind::Result => ("RESULT_NOT_FOUND"@, "result not found"@),
        StoredKind::Job => ("JOB_NOT_FOUND"@, "job not found"@),
    }
}

/// Whether a stored record may be read back: `found` is `None` when no
/// record has the asked ID, else the project the record belongs to. A found
/// record is handed out only when the authority admits its project, so a
/// scoped authority cannot read a record that names no project.
pub fn stored_read(kind: StoredKind, found: Option<Option<&str>>, authority: &ExecutionAuthority) -> (r:
    Result<(), CoreCommandError>)
    ensures
        found is None ==> (r matches Err(e) && (e.code@, e.message@) == not_found(kind)),
        found matches Some(project) ==> (r is Ok <==> project_refusal(
            *authority,
            str_opt_view(project),
        ) is None),
        found matches Some(project) ==> (r matches Err(e) ==> project_refusal(
            *authority,
            str_opt_view(project),
        ) == Some((e.code@, e.message@))),
{
    match found {
        None => match kind {
            StoredKind::Result => Err(
                CoreCommandError::new("RESULT_NOT_FOUND", String::from_str("result not found")),
            ),
            StoredKind::Job => Err(CoreCommandError::new("JOB_NOT_FOUND", String::from_str("job not found"))),
        },
        Some(project) => match authority.require_project(project) {
            Ok(()) => Ok(()),
            Err(e) => Err(CoreCommandError::new(e.code, e.message)),
        },
    }
}

} // verus!
