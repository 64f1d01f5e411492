//! The durable state's records and the rules that guard writing it: when an
//! index commit is accepted and what index state it leaves, which paths a
//! change invalidates, and when a dependency-edge replacement is accepted.
//! The statements themselves run against SQLite outside this crate.
use vstd::prelude::*;
use vstd::string::StringExecFns;
use crate::indexing::{IndexChange, IndexedFileSnapshot};
use crate::text::{signed_decimal, str_eq, i64_to_decimal};

verus! {

pub const STORAGE_SCHEMA_VERSION: i64 = 7;

/// The health of the durable store.
pub struct StorageHealth {
    pub ok: bool,
    pub check: String,
    pub schema_version: Option<i64>,
    pub sqlite_version: Option<String>,
    pub error: Option<String>,
}

impl StorageHealth {
    /// The health of a store that could not be opened.
    pub fn unavailable(error: String) -> (r: Self)
        ensures
            !r.ok,
            r.check@ == "unavailable"@,
            r.schema_version is None,
            r.sqlite_version is None,
            r.error matches Some(e) && e@ == error@,
    {
        StorageHealth {
            ok: false,
            check: String::from_str("unavailable"),
            schema_version: None,
            sqlite_version: None,
            error: Some(error),
        }
    }
}

/// A refused storage operation, with a stable code.
pub struct StorageError {
    pub code: &'static str,
    pub message: String,
}

impl StorageError {
    /// The error as text: `code: message`.
    pub fn to_string(&self) -> (r: String)
        ensures
            r@ == self.code@ + ": "@ + self.message@,
    {
        proof {
            reveal_strlit(": ");
        }
        String::from_str(self.code).concat(": ").concat(self.message.as_str())
    }

    pub fn new(code: &'static str, message: String) -> (r: Self)
        ensures
            r.code == code,
            r.message@ == message@,
    {
        StorageError { code, message }
    }
}

/// An unsigned count as SQLite's signed integer, saturating at `i64::MAX`.
pub fn sql_i64(value: u64) -> (r: i64)
    ensures
        r == (if value <= i64::MAX as u64 {
            value as i64
        } else {
            i64::MAX
        }),
{
    if value <= i64::MAX as u64 {
        value as i64
    } else {
        i64::MAX
    }
}

pub struct ProjectRecord {
    pub id: String,
    pub name: String,
    pub root_uri: String,
    pub created_at: String,
    pub updated_at: String,
}

pub struct ProjectConfiguration {
    pub project_id: String,
    pub revision: i64,
    pub format_version: i64,
    pub project_type: String,
    pub adapter_id: Option<String>,
    pub adapter_version: Option<String>,
    pub updated_at: String,
}

/// The index state of a project: its generation, the generation of its
/// baseline, and whether it is `ready` or `stale`.
pub struct ProjectIndexState {
    pub project_id: String,
    pub generation: i64,
    pub baseline_generation: i64,
    pub status: String,
    pub content_verification_required: bool,
    pub file_count: u64,
    pub total_bytes: u64,
    pub last_reconciled_at: String,
    pub updated_at: String,
}

pub struct ProjectChangeRecord {
    pub id: String,
    pub project_id: String,
    pub generation: i64,
    pub change_kind: String,
    pub relative_path: String,
    pub previous_path: Option<String>,
    pub before_sha256: Option<String>,
    pub after_sha256: Option<String>,
    pub detected_at: String,
}

pub struct DependencyEdgeRecord {
    pub project_id: String,
    pub source_path: String,
    pub target_path: String,
    pub source_sha256: String,
    pub producer_id: String,
    pub producer_version: String,
    pub indexed_generation: i64,
}

/// A request to replace the dependency edges that one producer derived from
/// one source file.
pub struct DependencyReplacement<'a> {
    pub project_id: &'a str,
    pub expected_generation: i64,
    pub source_path: &'a str,
    pub expected_source_sha256: &'a str,
    pub producer_id: &'a str,
    pub producer_version: &'a str,
    pub targets: &'a [String],
}

/// Whether an index commit is a full reconciliation or a hint-only update.
#[derive(Debug, Clone, Copy, PartialEq, Eq, Structural)]
pub enum IndexCommitMode {
    Authoritative,
    HintsOnly,
}

/// An index commit: the touched files and changes of a plan, against the
/// generation it was planned from.
pub struct ProjectIndexCommit<'a> {
    pub project_id: &'a str,
    pub expected_generation: i64,
    pub touched_files: &'a [IndexedFileSnapshot],
    pub changes: &'a [IndexChange],
    pub file_count: usize,
    pub total_bytes: u64,
    pub mode: IndexCommitMode,
    pub content_verified: bool,
}

pub struct IdempotencyRecord {
    pub key: String,
    pub command: String,
    pub request_sha256: String,
    pub response_json: String,
}

pub struct NewTransaction<'a> {
    pub project_id: Option<&'a str>,
    pub request_id: &'a str,
    pub command: &'a str,
    pub effect_class: &'a str,
    pub permission: &'a str,
    pub actor_id: &'a str,
    pub client_id: &'a str,
    pub delegator_id: Option<&'a str>,
    pub request_sha256: &'a str,
    pub intended_summary: &'a str,
    pub rollback_status: &'a str,
}

pub struct TransactionRecord {
    pub id: String,
    pub project_id: Option<String>,
    pub request_id: String,
    pub command: String,
    pub effect_class: String,
    pub permission: String,
    pub state: String,
    pub actor_id: String,
    pub client_id: String,
    pub delegator_id: Option<String>,
    pub request_sha256: String,
    pub intended_summary: String,
    pub before_ref: Option<String>,
    pub after_ref: Option<String>,
    pub verification: String,
    pub result_id: Option<String>,
    pub job_id: Option<String>,
    pub rollback_status: String,
    pub created_at: String,
    pub updated_at: String,
}

pub struct UsageMetricInput<'a> {
    pub request_id: &'a str,
    pub command: &'a str,
    pub command_version: u32,
    pub actor_id: &'a str,
    pub client_id: &'a str,
    pub delegator_id: Option<&'a str>,
    pub project_id: Option<&'a str>,
    pub effect_class: &'a str,
    pub permission: &'a str,
    pub ok: bool,
    pub replayed: bool,
    pub elapsed_ms: u64,
    pub request_bytes: u64,
    pub response_bytes: u64,
    pub remote_calls: u64,
    pub model_tokens_in: u64,
    pub model_tokens_out: u64,
}

pub struct UsageSummary {
    pub command_count: u64,
    pub success_count: u64,
    pub failure_count: u64,
    pub replay_count: u64,
    pub total_elapsed_ms: u64,
    pub total_request_bytes: u64,
    pub total_response_bytes: u64,
    pub remote_calls: u64,
    pub model_tokens_in: u64,
    pub model_tokens_out: u64,
}

pub struct CredentialHandleRecord {
    pub id: String,
    pub integration: String,
    pub scopes: Vec<String>,
    pub status: String,
    pub created_at: String,
    pub updated_at: String,
}

pub struct EgressLedgerInput<'a> {
    pub project_id: Option<&'a str>,
    pub request_id: &'a str,
    pub actor_id: &'a str,
    pub client_id: &'a str,
    pub delegator_id: Option<&'a str>,
    pub destination: &'a str,
    pub data_classes: &'a [String],
    pub modalities: &'a [String],
    pub source_refs: &'a [String],
    pub purpose: &'a str,
    pub approx_bytes: u64,
    pub approx_tokens: u64,
    pub credential_handle: Option<&'a str>,
    pub decision: &'a str,
    pub reason: &'a str,
}

pub struct EgressLedgerRecord {
    pub id: String,
    pub project_id: Option<String>,
    pub request_id: String,
    pub actor_id: String,
    pub client_id: String,
    pub delegator_id: Option<String>,
    pub destination: String,
    pub data_classes: Vec<String>,
    pub modalities: Vec<String>,
    pub source_refs: Vec<String>,
    pub purpose: String,
    pub approx_bytes: u64,
    pub approx_tokens: u64,
    pub credential_handle: Option<String>,
    pub decision: String,
    pub reason: String,
    pub created_at: String,
}

/// The generation after `g`, saturating at `i64::MAX`.
pub open spec fn next_generation(g: i64) -> i64 {
    if g == i64::MAX {
        i64::MAX
    } else {
        (g + 1) as i64
    }
}

/// Why an index commit is refused, given the project's current generation
/// and whether content verification is required (`None` when the project
/// has no baseline).
pub open spec fn commit_refusal(
    current: Option<(i64, bool)>,
    expected_generation: i64,
    mode: IndexCommitMode,
    content_verified: bool,
) -> Option<(Seq<char>, Seq<char>)> {
    match current {
        None => Some(("INDEX_BASELINE_MISSING"@, "project baseline is missing"@)),
        Some((generation, required)) => if generation != expected_generation {
            Some(
                (
                    "INDEX_GENERATION_CONFLICT"@,
                    "expected project index generation "@ + signed_decimal(expected_generation as int)
                        + ", found "@ + signed_decimal(generation as int),
                ),
            )
        } else if mode == IndexCommitMode::Authoritative && required && !content_verified {
            Some(
                (
                    "INDEX_CONTENT_VERIFICATION_REQUIRED"@,
                    "full content verification is required after index continuity loss"@,
                ),
            )
        } else {
            None
        },
    }
}

/// Checks an index commit against the project's current index state; on
/// success, the generation that the commit creates.
pub fn check_index_commit(current: Option<(i64, bool)>, commit: &ProjectIndexCommit) -> (r: Result<
    i64,
    StorageError,
>)
    ensures
        r is Ok <==> commit_refusal(
            current,
            commit.expected_generation,
            commit.mode,
            commit.content_verified,
        ) is None,
        r matches Err(e) ==> commit_refusal(
            current,
            commit.expected_generation,
            commit.mode,
            commit.content_verified,
        ) == Some((e.code@, e.message@)),
        r matches Ok(g) ==> current matches Some(c) && g == next_generation(c.0),
{
    match current {
        None => Err(StorageError::new("INDEX_BASELINE_MISSING", String::from_str("project baseline is missing"))),
        Some((generation, required)) => {
            if generation != commit.expected_generation {
                let expected = i64_to_decimal(commit.expected_generation);
                let found = i64_to_decimal(generation);
                let message = String::from_str("expected project index generation ").concat(
                    expected.as_str(),
                ).concat(", found ").concat(found.as_str());
                return Err(StorageError::new("INDEX_GENERATION_CONFLICT", message));
            }
            if commit.mode == IndexCommitMode::Authoritative && required && !commit.content_verified {
                return Err(
                    StorageError::new(
                        "INDEX_CONTENT_VERIFICATION_REQUIRED",
                        String::from_str(
                            "full content verification is required after index continuity loss",
                        ),
                    ),
                );
            }
            if generation == i64::MAX {
                Ok(i64::MAX)
            } else {
                Ok(generation + 1)
            }
        },
    }
}

/// A count as it is stored (saturating at `i64::MAX`) and read back.
pub open spec fn stored_count(n: nat) -> u64 {
    if n <= i64::MAX {
        n as u64
    } else {
        i64::MAX as u64
    }
}

/// The index state that an accepted commit leaves: the new generation; an
/// authoritative commit makes the index `ready`, clears the verification
/// requirement and records `now` as the last reconciliation, a hint-only
/// commit leaves it `stale`.
pub open spec fn committed_state(
    prior: ProjectIndexState,
    generation: i64,
    commit: ProjectIndexCommit,
    now: Seq<char>,
    r: ProjectIndexState,
) -> bool {
    let ready = commit.mode == IndexCommitMode::Authoritative;
    &&& r.project_id@ == prior.project_id@
    &&& r.generation == generation
    &&& r.baseline_generation == prior.baseline_generation
    &&& r.status@ == (if ready {
        "ready"@
    } else {
        "stale"@
    })
    &&& r.content_verification_required == (!ready && prior.content_verification_required)
    &&& r.file_count == stored_count(commit.file_count as nat)
    &&& r.total_bytes == stored_count(commit.total_bytes as nat)
    &&& r.last_reconciled_at@ == (if ready {
        now
    } else {
        prior.last_reconciled_at@
    })
    &&& r.updated_at@ == now
}

/// The index state after an accepted commit.
pub fn committed_index_state(
    prior: &ProjectIndexState,
    generation: i64,
    commit: &ProjectIndexCommit,
    now: &str,
) -> (r: ProjectIndexState)
    ensures
        committed_state(*prior, generation, *commit, now@, r),
{
    let ready = commit.mode == IndexCommitMode::Authoritative;
    let file_count = if commit.file_count as u64 <= i64::MAX as u64 {
        commit.file_count as u64
    } else {
        i64::MAX as u64
    };
    ProjectIndexState {
        project_id: prior.project_id.clone(),
        generation,
        baseline_generation: prior.baseline_generation,
        status: if ready {
            String::from_str("ready")
        } else {
            String::from_str("stale")
        },
        content_verification_required: !ready && prior.content_verification_required,
        file_count,
        total_bytes: sql_i64(commit.total_bytes) as u64,
        last_reconciled_at: if ready {
            String::from_str(now)
        } else {
            prior.last_reconciled_at.clone()
        },
        updated_at: String::from_str(now),
    }
}

/// Once index continuity is lost, only a verified full reconciliation makes
/// the index ready again: an unverified authoritative commit is refused, an
/// accepted hint-only commit leaves the index stale with the requirement
/// kept, and an accepted authoritative commit leaves it ready with the
/// requirement cleared.
pub proof fn law_lost_continuity_needs_verified_commit(
    prior: ProjectIndexState,
    commit: ProjectIndexCommit,
    generation: i64,
    now: Seq<char>,
    r: ProjectIndexState,
)
    requires
        prior.content_verification_required,
    ensures
        commit.mode == IndexCommitMode::Authoritative && !commit.content_verified ==> commit_refusal(
            Some((prior.generation, true)),
            commit.expected_generation,
            commit.mode,
            commit.content_verified,
        ) is Some,
        committed_state(prior, generation, commit, now, r) ==> (r.content_verification_required
            <==> commit.mode == IndexCommitMode::HintsOnly),
        committed_state(prior, generation, commit, now, r) ==> (r.status@ == "ready"@ <==> commit.mode
            == IndexCommitMode::Authoritative),
{
    reveal_strlit("ready");
    reveal_strlit("stale");
    assert("ready"@[0] != "stale"@[0]);
}

/// The schema migration that a store at schema `current` needs next; `None`
/// once it is at `STORAGE_SCHEMA_VERSION`. A store without a schema starts
/// at the first one.
pub open spec fn migration_after(current: int) -> Option<int> {
    if current >= STORAGE_SCHEMA_VERSION {
        None
    } else if current < 1 {
        Some(1)
    } else {
        Some(current + 1)
    }
}

/// The next schema migration to apply to a store at schema `current`, or
/// `STORAGE_SCHEMA_FUTURE` for a store written by a newer version, which is
/// left as it is.
pub fn next_migration(current: i64) -> (r: Result<Option<i64>, StorageError>)
    ensures
        r is Err <==> current > STORAGE_SCHEMA_VERSION,
        r matches Err(e) ==> e.code == "STORAGE_SCHEMA_FUTURE" && e.message@ == "storage schema "@
            + signed_decimal(current as int) + " is newer than supported "@ + signed_decimal(
            STORAGE_SCHEMA_VERSION as int,
        ),
        r matches Ok(n) ==> match n {
            Some(v) => migration_after(current as int) == Some(v as int),
            None => migration_after(current as int) is None,
        },
{
    if current > STORAGE_SCHEMA_VERSION {
        let message = String::from_str("storage schema ").concat(i64_to_decimal(current).as_str()).concat(
            " is newer than supported ",
        ).concat(i64_to_decimal(STORAGE_SCHEMA_VERSION).as_str());
        return Err(StorageError::new("STORAGE_SCHEMA_FUTURE", message));
    }
    if current >= STORAGE_SCHEMA_VERSION {
        Ok(None)
    } else if current < 1 {
        Ok(Some(1))
    } else {
        Ok(Some(current + 1))
    }
}

/// The migrations that bring a store from schema `current` up to date, in
/// the order they are applied.
pub open spec fn migration_path(current: int) -> Seq<int>
    decreases (if current < STORAGE_SCHEMA_VERSION {
        STORAGE_SCHEMA_VERSION - current
    } else {
        0
    }),
{
    match migration_after(current) {
        Some(n) => seq![n] + migration_path(n),
        None => Seq::empty(),
    }
}

/// Migrating a store that is not newer than this library applies every
/// schema after its own, each once and in increasing order, and ends at
/// `STORAGE_SCHEMA_VERSION`; a store without a schema gets all of them.
pub proof fn law_migrations_apply_each_missing_schema_in_order(current: int)
    requires
        current <= STORAGE_SCHEMA_VERSION,
    ensures
        ({
            let start = if current < 0 {
                0
            } else {
                current
            };
            migration_path(current) == Seq::new(
                (STORAGE_SCHEMA_VERSION - start) as nat,
                |i: int| start + 1 + i,
            )
        }),
    decreases STORAGE_SCHEMA_VERSION - current,
{
    let start = if current < 0 {
        0
    } else {
        current
    };
    if current < STORAGE_SCHEMA_VERSION {
        let n = migration_after(current)->0;
        law_migrations_apply_each_missing_schema_in_order(n);
        assert(migration_path(current) =~= Seq::new(
            (STORAGE_SCHEMA_VERSION - start) as nat,
            |i: int| start + 1 + i,
        ));
    } else {
        assert(migration_path(current) =~= Seq::<int>::empty());
    }
}

/// The index state that a new baseline leaves: the generation after the
/// project's current one (0 when it has none), which is also the baseline
/// generation; `ready`, with no verification required, reconciled `now`.
pub open spec fn baseline_state(
    project_id: Seq<char>,
    current_generation: Option<i64>,
    file_count: nat,
    total_bytes: u64,
    now: Seq<char>,
    r: ProjectIndexState,
) -> bool {
    let generation = next_generation(
        match current_generation {
            Some(g) => g,
            None => 0,
        },
    );
    &&& r.project_id@ == project_id
    &&& r.generation == generation
    &&& r.baseline_generation == generation
    &&& r.status@ == "ready"@
    &&& !r.content_verification_required
    &&& r.file_count == stored_count(file_count)
    &&& r.total_bytes == stored_count(total_bytes as nat)
    &&& r.last_reconciled_at@ == now
    &&& r.updated_at@ == now
}

/// The index state after a baseline of `file_count` files is written.
pub fn baseline_index_state(
    project_id: &str,
    current_generation: Option<i64>,
    file_count: usize,
    total_bytes: u64,
    now: &str,
) -> (r: ProjectIndexState)
    ensures
        baseline_state(project_id@, current_generation, file_count as nat, total_bytes, now@, r),
{
    let current = match current_generation {
        Some(g) => g,
        None => 0,
    };
    let generation = if current == i64::MAX {
        i64::MAX
    } else {
        current + 1
    };
    let count = if file_count as u64 <= i64::MAX as u64 {
        file_count as u64
    } else {
        i64::MAX as u64
    };
    ProjectIndexState {
        project_id: String::from_str(project_id),
        generation,
        baseline_generation: generation,
        status: String::from_str("ready"),
        content_verification_required: false,
        file_count: count,
        total_bytes: sql_i64(total_bytes) as u64,
        last_reconciled_at: String::from_str(now),
        updated_at: String::from_str(now),
    }
}

/// The paths whose dependency edges a change invalidates: its path and, for
/// a rename, the path it had.
pub open spec fn change_paths(c: IndexChange) -> Seq<Seq<char>> {
    match c.previous_path {
        Some(p) => seq![c.relative_path@, p@],
        None => seq![c.relative_path@],
    }
}

/// The indexed path that a change removes: the path of a deleted file, or
/// the former path of a renamed one.
pub open spec fn removed_path(c: IndexChange) -> Option<Seq<char>> {
    if c.change_kind@ == "deleted"@ {
        Some(c.relative_path@)
    } else if c.change_kind@ == "renamed"@ && c.previous_path is Some {
        Some(c.previous_path->0@)
    } else {
        None
    }
}

/// The paths whose dependency edges a change invalidates.
pub fn invalidated_paths(change: &IndexChange) -> (r: Vec<String>)
    ensures
        r@.len() == change_paths(*change).len(),
        forall|i: int| 0 <= i < r@.len() ==> r@[i]@ == change_paths(*change)[i],
{
    let mut r = Vec::new();
    r.push(change.relative_path.clone());
    if let Some(p) = &change.previous_path {
        r.push(p.clone());
    }
    r
}

/// The indexed path that a change removes, if any.
pub fn removed_file(change: &IndexChange) -> (r: Option<String>)
    ensures
        r is Some <==> removed_path(*change) is Some,
        r matches Some(p) ==> p@ == removed_path(*change)->0,
{
    if str_eq(change.change_kind.as_str(), "deleted") {
        return Some(change.relative_path.clone());
    }
    if str_eq(change.change_kind.as_str(), "renamed") {
        if let Some(p) = &change.previous_path {
            return Some(p.clone());
        }
    }
    proof {
        reveal_strlit("deleted");
        reveal_strlit("renamed");
    }
    None
}

/// Why a dependency replacement is refused, given the project's index
/// generation and status, the indexed digest of the source, and for each
/// target whether it is indexed.
pub open spec fn replacement_refusal(
    index_state: Option<(i64, Seq<char>)>,
    expected_generation: i64,
    source_sha256: Option<Seq<char>>,
    expected_source_sha256: Seq<char>,
    targets_indexed: Seq<bool>,
) -> Option<(Seq<char>, Seq<char>)> {
    match index_state {
        None => Some(("INDEX_BASELINE_MISSING"@, "project baseline is missing"@)),
        Some((generation, status)) => if status != "ready"@ {
            Some(
                (
                    "INDEX_RECONCILIATION_REQUIRED"@,
                    "dependency edges require authoritative reconciliation"@,
                ),
            )
        } else if generation != expected_generation {
            Some(
                (
                    "INDEX_GENERATION_CONFLICT"@,
                    "expected generation "@ + signed_decimal(expected_generation as int) + ", found "@
                        + signed_decimal(generation as int),
                ),
            )
        } else if source_sha256 is None {
            Some(("INDEX_FILE_NOT_FOUND"@, "dependency source is not indexed"@))
        } else if source_sha256->0 != expected_source_sha256 {
            Some(("INDEX_SOURCE_CHANGED"@, "dependency source hash does not match the indexed file"@))
        } else if exists|i: int| 0 <= i < targets_indexed.len() && !#[trigger] targets_indexed[i] {
            Some(("INDEX_FILE_NOT_FOUND"@, "dependency target is not indexed"@))
        } else {
            None
        },
    }
}

/// Checks a dependency replacement against what the store holds.
pub fn check_dependency_replacement(
    index_state: Option<(i64, &str)>,
    replacement: &DependencyReplacement,
    source_sha256: Option<&str>,
    targets_indexed: &[bool],
) -> (r: Result<(), StorageError>)
    ensures
        r is Ok <==> replacement_refusal(
            match index_state {
                Some((g, s)) => Some((g, s@)),
                None => None,
            },
            replacement.expected_generation,
            match source_sha256 {
                Some(s) => Some(s@),
                None => None,
            },
            replacement.expected_source_sha256@,
            targets_indexed@,
        ) is None,
        r matches Err(e) ==> replacement_refusal(
            match index_state {
                Some((g, s)) => Some((g, s@)),
                None => None,
            },
            replacement.expected_generation,
            match source_sha256 {
                Some(s) => Some(s@),
                None => None,
            },
            replacement.expected_source_sha256@,
            targets_indexed@,
        ) == Some((e.code@, e.message@)),
{
    proof {
        reveal_strlit("ready");
    }
    let (generation, status) = match index_state {
        None => {
            return Err(
                StorageError::new("INDEX_BASELINE_MISSING", String::from_str("project baseline is missing")),
            );
        },
        Some(pair) => pair,
    };
    if !str_eq(status, "ready") {
        return Err(
            StorageError::new(
                "INDEX_RECONCILIATION_REQUIRED",
                String::from_str("dependency edges require authoritative reconciliation"),
            ),
        );
    }
    if generation != replacement.expected_generation {
        let expected = i64_to_decimal(replacement.expected_generation);
        let found = i64_to_decimal(generation);
        let message = String::from_str("expected generation ").concat(expected.as_str()).concat(
            ", found ",
        ).concat(found.as_str());
        return Err(StorageError::new("INDEX_GENERATION_CONFLICT", message));
    }
    let source = match source_sha256 {
        None => {
            return Err(
                StorageError::new(
                    "INDEX_FILE_NOT_FOUND",
                    String::from_str("dependency source is not indexed"),
                ),
            );
        },
        Some(s) => s,
    };
    if !str_eq(source, replacement.expected_source_sha256) {
        return Err(
            StorageError::new(
                "INDEX_SOURCE_CHANGED",
                String::from_str("dependency source hash does not match the indexed file"),
            ),
        );
    }
    let mut i: usize = 0;
    while i < targets_indexed.len()
        invariant
            i <= targets_indexed@.len(),
            forall|k: int| 0 <= k < i ==> #[trigger] targets_indexed@[k],
            index_state == Some((generation, status)),
            status@ == "ready"@,
            generation == replacement.expected_generation,
            source_sha256 == Some(source),
            source@ == replacement.expected_source_sha256@,
        decreases targets_indexed@.len() - i,
    {
        if !targets_indexed[i] {
            assert(!targets_indexed@[i as int]);
            return Err(
                StorageError::new(
                    "INDEX_FILE_NOT_FOUND",
                    String::from_str("dependency target is not indexed"),
                ),
            );
        }
        i = i + 1;
    }
    Ok(())
}

/// A dependency replacement is accepted only against a ready index at the
/// generation the caller expected, with the source indexed under the digest
/// the caller read, and with every target indexed.
pub proof fn law_accepted_replacement_targets_indexed_files(
    index_state: Option<(i64, Seq<char>)>,
    expected_generation: i64,
    source_sha256: Option<Seq<char>>,
    expected_source_sha256: Seq<char>,
    targets_indexed: Seq<bool>,
)
    requires
        replacement_refusal(
            index_state,
            expected_generation,
            source_sha256,
            expected_source_sha256,
            targets_indexed,
        ) is None,
    ensures
        index_state == Some((expected_generation, "ready"@)),
        source_sha256 == Some(expected_source_sha256),
        forall|i: int| 0 <= i < targets_indexed.len() ==> #[trigger] targets_indexed[i],
{
}

} // verus!
