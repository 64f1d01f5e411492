//! The adapter broker: installed adapters, the failure, backoff and
//! quarantine state of each, and the checks around one invocation of a
//! sandboxed worker (before it runs, and of what it answers).
use vstd::prelude::*;
use vstd::string::StrSliceExecFns;
use vstd::string::StringExecFns;
use crate::collections::{StrMap, StrSet};
use crate::json::{bool_member, member, str_member, u64_member, Json};
use crate::manifest::{
    artifact_view, manifest_error, validate_manifest, AdapterError, AdapterManifest, BrokerPolicy,
    CommandBinding,
};
use crate::registry::{
    error_code_allowed, first_match, is_error_allowed, latest_match, resolve_command, CommandRegistry,
    CommandSpec,
};
use crate::schema::{validate_value, violation};
use crate::text::{decimal, hex_lower, str_eq, to_hex_lower, u64_to_decimal};
use crate::json::same;
use crate::manifest::{sha256, sha256_digest};
use vstd::utf8::encode_utf8;
use crate::backend::SandboxBackendSelection;
use crate::sandbox::{rootless, StableSandboxPolicy};
use crate::indexing::{is_sep, split_path};

verus! {

/// An installed adapter: its validated manifest and the worker's path.
pub struct InstalledAdapter {
    pub manifest: AdapterManifest,
    pub worker_path: String,
}

/// The failure history of one adapter.
#[derive(Debug, Clone, Copy, PartialEq, Eq, Structural)]
pub struct RuntimeState {
    pub failures: u32,
    pub backoff_until_ms: Option<u64>,
    pub quarantined: bool,
}

/// The state of an adapter with no failure on record.
pub open spec fn fresh_state() -> RuntimeState {
    RuntimeState { failures: 0, backoff_until_ms: None, quarantined: false }
}

/// The state after one more failure at time `now_ms`: the count grows
/// (saturating); at the policy's threshold the adapter is quarantined,
/// otherwise it backs off for the policy's backoff.
pub open spec fn after_failure(prior: RuntimeState, policy: BrokerPolicy, now_ms: u64) -> RuntimeState {
    let failures = if prior.failures == u32::MAX {
        u32::MAX
    } else {
        (prior.failures + 1) as u32
    };
    if failures >= policy.max_failures_before_quarantine {
        RuntimeState { failures, backoff_until_ms: None, quarantined: true }
    } else {
        RuntimeState {
            failures,
            backoff_until_ms: Some(
                if now_ms + policy.backoff_ms > u64::MAX {
                    u64::MAX
                } else {
                    (now_ms + policy.backoff_ms) as u64
                },
            ),
            quarantined: prior.quarantined,
        }
    }
}

/// Who answered an invocation.
pub struct InvocationProvenance {
    pub adapter_id: String,
    pub adapter_version: String,
    pub publisher_id: String,
    pub artifact_sha256: String,
    pub review_status: String,
    pub worker_pid: u32,
}

/// Installed adapters and their runtime state, under one policy.
pub struct AdapterBroker {
    policy: BrokerPolicy,
    mailbox_root: String,
    installed: StrMap<InstalledAdapter>,
    runtime: StrMap<RuntimeState>,
}

/// Why an adapter may not be started at `now_ms`.
pub open spec fn preflight_error(state: Option<RuntimeState>, now_ms: u64) -> Option<
    (Seq<char>, Seq<char>),
> {
    match state {
        None => None,
        Some(s) => if s.quarantined {
            Some(("ADAPTER_QUARANTINED"@, "adapter is quarantined after repeated failures"@))
        } else if s.backoff_until_ms matches Some(until) && now_ms < until {
            Some(("ADAPTER_BACKOFF"@, "adapter restart backoff is active"@))
        } else {
            None
        },
    }
}

impl AdapterBroker {
    pub closed spec fn policy_view(self) -> BrokerPolicy {
        self.policy
    }

    pub closed spec fn mailbox_root_view(self) -> Seq<char> {
        self.mailbox_root@
    }

    /// The installed adapters by id.
    pub closed spec fn installed_map(self) -> Map<Seq<char>, InstalledAdapter> {
        self.installed.map()
    }

    /// The runtime state by adapter id; an adapter without an entry is fresh.
    pub closed spec fn runtime_map(self) -> Map<Seq<char>, RuntimeState> {
        self.runtime.map()
    }

    /// The runtime state of adapter `id`, if it has one.
    pub open spec fn state_of(self, id: Seq<char>) -> Option<RuntimeState> {
        if self.runtime_map().dom().contains(id) {
            Some(self.runtime_map()[id])
        } else {
            None
        }
    }

    /// A broker with nothing installed, whose worker mailboxes live under
    /// `mailbox_root` (a directory that the caller has created).
    pub fn new(policy: BrokerPolicy, mailbox_root: String) -> (r: Self)
        ensures
            r.policy_view() == policy,
            r.mailbox_root_view() == mailbox_root@,
            r.installed_map() == Map::<Seq<char>, InstalledAdapter>::empty(),
            r.runtime_map() == Map::<Seq<char>, RuntimeState>::empty(),
    {
        AdapterBroker { policy, mailbox_root, installed: StrMap::new(), runtime: StrMap::new() }
    }

    pub fn policy(&self) -> (r: &BrokerPolicy)
        ensures
            *r == self.policy_view(),
    {
        &self.policy
    }

    pub fn mailbox_root(&self) -> (r: &str)
        ensures
            r@ == self.mailbox_root_view(),
    {
        self.mailbox_root.as_str()
    }

    /// Removes an installed adapter and forgets its runtime state.
    pub fn uninstall(&mut self, adapter_id: &str) -> (r: Result<(), AdapterError>)
        ensures
            r is Ok <==> old(self).installed_map().dom().contains(adapter_id@),
            r is Ok ==> final(self).installed_map() == old(self).installed_map().remove(adapter_id@)
                && final(self).runtime_map() == old(self).runtime_map().remove(adapter_id@),
            r is Ok ==> final(self).installed_map().dom().len() + 1 == old(
                self,
            ).installed_map().dom().len(),
            r matches Err(e) ==> e.code@ == "ADAPTER_NOT_INSTALLED"@ && e.message@ == "adapter "@
                + adapter_id@ + " is not installed"@ && final(self).installed_map() == old(
                self,
            ).installed_map() && final(self).runtime_map() == old(self).runtime_map(),
            final(self).policy_view() == old(self).policy_view(),
            final(self).mailbox_root_view() == old(self).mailbox_root_view(),
    {
        proof {
            self.installed.lemma_map_finite();
        }
        if self.installed.remove(adapter_id).is_none() {
            let message = String::from_str("adapter ").concat(adapter_id).concat(" is not installed");
            return Err(AdapterError::new("ADAPTER_NOT_INSTALLED", message));
        }
        self.runtime.remove(adapter_id);
        Ok(())
    }

    pub fn installed_count(&self) -> (r: usize)
        ensures
            r == self.installed_map().dom().len(),
    {
        self.installed.len()
    }

    pub fn is_quarantined(&self, adapter_id: &str) -> (r: bool)
        ensures
            r == (self.state_of(adapter_id@) matches Some(s) && s.quarantined),
    {
        match self.runtime.get(adapter_id) {
            Some(state) => state.quarantined,
            None => false,
        }
    }

    /// Forgets the failure history of an adapter.
    pub fn clear_quarantine(&mut self, adapter_id: &str)
        ensures
            final(self).runtime_map() == old(self).runtime_map().remove(adapter_id@),
            final(self).installed_map() == old(self).installed_map(),
            final(self).policy_view() == old(self).policy_view(),
            final(self).mailbox_root_view() == old(self).mailbox_root_view(),
    {
        self.runtime.remove(adapter_id);
    }

    /// Refuses a quarantined adapter, and one whose backoff has not expired
    /// at `now_ms`.
    pub fn preflight_runtime(&self, adapter_id: &str, now_ms: u64) -> (r: Result<(), AdapterError>)
        ensures
            r is Ok <==> preflight_error(self.state_of(adapter_id@), now_ms) is None,
            r matches Err(e) ==> preflight_error(self.state_of(adapter_id@), now_ms) == Some(
                (e.code@, e.message@),
            ),
    {
        if let Some(state) = self.runtime.get(adapter_id) {
            if state.quarantined {
                return Err(
                    AdapterError::new(
                        "ADAPTER_QUARANTINED",
                        String::from_str("adapter is quarantined after repeated failures"),
                    ),
                );
            }
            if let Some(until) = state.backoff_until_ms {
                if now_ms < until {
                    return Err(
                        AdapterError::new(
                            "ADAPTER_BACKOFF",
                            String::from_str("adapter restart backoff is active"),
                        ),
                    );
                }
            }
        }
        Ok(())
    }

    /// Records a failed invocation at `now_ms`.
    pub fn record_failure(&mut self, adapter_id: &str, now_ms: u64)
        ensures
            final(self).runtime_map() == old(self).runtime_map().insert(
                adapter_id@,
                after_failure(
                    match old(self).state_of(adapter_id@) {
                        Some(s) => s,
                        None => fresh_state(),
                    },
                    old(self).policy_view(),
                    now_ms,
                ),
            ),
            final(self).installed_map() == old(self).installed_map(),
            final(self).policy_view() == old(self).policy_view(),
            final(self).mailbox_root_view() == old(self).mailbox_root_view(),
    {
        let prior = match self.runtime.get(adapter_id) {
            Some(state) => *state,
            None => RuntimeState { failures: 0, backoff_until_ms: None, quarantined: false },
        };
        let failures = prior.failures.saturating_add(1);
        let next = if failures >= self.policy.max_failures_before_quarantine {
            RuntimeState { failures, backoff_until_ms: None, quarantined: true }
        } else {
            RuntimeState {
                failures,
                backoff_until_ms: Some(now_ms.saturating_add(self.policy.backoff_ms)),
                quarantined: prior.quarantined,
            }
        };
        self.runtime.insert(String::from_str(adapter_id), next);
    }

    /// Records a successful invocation: the failure history is forgotten.
    pub fn record_success(&mut self, adapter_id: &str)
        ensures
            final(self).runtime_map() == old(self).runtime_map().remove(adapter_id@),
            final(self).installed_map() == old(self).installed_map(),
            final(self).policy_view() == old(self).policy_view(),
            final(self).mailbox_root_view() == old(self).mailbox_root_view(),
    {
        self.runtime.remove(adapter_id);
    }
}

/// A name in a path: not empty, not `.` or `..`, and free of separators and
/// of `:`.
pub open spec fn plain_name(name: Seq<char>) -> bool {
    &&& name.len() > 0
    &&& name != "."@
    &&& name != ".."@
    &&& forall|i: int| 0 <= i < name.len() ==> #[trigger] name[i] != '/' && name[i] != '\\' && name[i] != ':'
}

/// A path made of one separator and then plain names, each after the one
/// before and a single separator (`/srv/pkg/worker.exe`).
pub open spec fn rooted_names(path: Seq<char>) -> bool {
    &&& path.len() >= 2
    &&& (path[0] == '/' || path[0] == '\\')
    &&& forall|i: int|
        0 <= i < split_path(true, path.drop_first()).len() ==> plain_name(
            #[trigger] split_path(true, path.drop_first())[i],
        )
}

/// A name with no separator in it is one piece.
proof fn lemma_split_one_piece(s: Seq<char>)
    requires
        forall|i: int| 0 <= i < s.len() ==> !is_sep(true, #[trigger] s[i]),
    ensures
        split_path(true, s) == seq![s],
    decreases s.len(),
{
    if s.len() == 0 {
        assert(s =~= Seq::<char>::empty());
    } else {
        lemma_split_one_piece(s.drop_last());
        assert(s.drop_last().push(s.last()) =~= s);
        assert(split_path(true, s) =~= seq![s]);
    }
}

/// Text after a separator, with no separator in it, is one more piece.
proof fn lemma_split_last_piece(s: Seq<char>, t: Seq<char>)
    requires
        forall|i: int| 0 <= i < t.len() ==> !is_sep(true, #[trigger] t[i]),
    ensures
        split_path(true, s.push('/') + t) == split_path(true, s).push(t),
    decreases t.len(),
{
    let u = s.push('/') + t;
    if t.len() == 0 {
        assert(u =~= s.push('/'));
        assert(u.drop_last() =~= s);
        assert(u.last() == '/');
        assert(t =~= Seq::<char>::empty());
        assert(split_path(true, u) == split_path(true, s).push(Seq::<char>::empty()));
    } else {
        lemma_split_last_piece(s, t.drop_last());
        assert(u.drop_last() =~= s.push('/') + t.drop_last());
        assert(t.drop_last().push(t.last()) =~= t);
        assert(u.last() == t.last());
        assert(!is_sep(true, t[t.len() - 1]));
        let p = split_path(true, u.drop_last());
        assert(p == split_path(true, s).push(t.drop_last()));
        assert(split_path(true, u) == p.update(p.len() - 1, p.last().push(u.last())));
        assert(split_path(true, u) =~= split_path(true, s).push(t));
    }
}

/// A root, a plain name, a separator and a plain name (`/srv/worker.exe`)
/// is a path of root and plain names.
pub proof fn lemma_root_and_two_names(a: Seq<char>, b: Seq<char>)
    requires
        plain_name(a),
        plain_name(b),
    ensures
        rooted_names(seq!['/'] + a + seq!['/'] + b),
{
    let path = seq!['/'] + a + seq!['/'] + b;
    assert(path.drop_first() =~= a.push('/') + b);
    lemma_split_one_piece(a);
    lemma_split_last_piece(a, b);
    assert(split_path(true, path.drop_first()) =~= seq![a, b]);
}

/// `std::path::Path::parent`, as text. std documents `None` only for a path
/// that is empty or ends in a root or a prefix, so the empty path has none,
/// and a path with no root or prefix, or one made of a root and plain names,
/// has one (such a path ends in a plain name on every platform); a parent is
/// no longer than the path. Which other paths have none, and where a parent
/// ends, depends on the platform's path syntax and is left unsaid here.
#[verifier::external_body]
fn path_parent(path: &str) -> (r: Option<String>)
    ensures
        path@.len() == 0 ==> r is None,
        rootless(path@) ==> r is Some,
        rooted_names(path@) ==> r is Some,
        r matches Some(p) ==> p@.len() <= path@.len(),
{
    std::path::Path::new(path).parent().map(|p| p.to_string_lossy().into_owned())
}

impl AdapterBroker {
    /// Validates `manifest` and installs it under its adapter id, replacing
    /// an earlier install of the same id. The worker must sit in a package
    /// directory.
    pub fn install(
        &mut self,
        registry: &CommandRegistry,
        manifest: AdapterManifest,
        worker_path: String,
        worker: &Result<Vec<u8>, String>,
    ) -> (r: Result<(), AdapterError>)
        ensures
            manifest_error(manifest, old(self).policy_view(), *registry, artifact_view(*worker)) matches Some(
                e,
            ) ==> r matches Err(x) && (x.code@, x.message@) == e,
            manifest_error(manifest, old(self).policy_view(), *registry, artifact_view(*worker))
                is None && worker_path@.len() == 0 ==> r is Err,
            manifest_error(manifest, old(self).policy_view(), *registry, artifact_view(*worker))
                is None && (rootless(worker_path@) || rooted_names(worker_path@)) ==> r is Ok,
            manifest_error(manifest, old(self).policy_view(), *registry, artifact_view(*worker))
                is None ==> (r matches Err(x) ==> x.code@ == "ADAPTER_WORKER_PATH_INVALID"@
                && x.message@ == "adapter worker must have a package directory"@),
            r is Ok ==> manifest_error(
                manifest,
                old(self).policy_view(),
                *registry,
                artifact_view(*worker),
            ) is None && final(self).installed_map() == old(self).installed_map().insert(
                manifest.adapter.id@,
                InstalledAdapter { manifest, worker_path },
            ),
            r is Err ==> final(self).installed_map() == old(self).installed_map(),
            final(self).runtime_map() == old(self).runtime_map(),
            final(self).policy_view() == old(self).policy_view(),
            final(self).mailbox_root_view() == old(self).mailbox_root_view(),
    {
        validate_manifest(&manifest, &self.policy, registry, worker)?;
        if path_parent(worker_path.as_str()).is_none() {
            return Err(
                AdapterError::new(
                    "ADAPTER_WORKER_PATH_INVALID",
                    String::from_str("adapter worker must have a package directory"),
                ),
            );
        }
        let id = manifest.adapter.id.clone();
        self.installed.insert(id, InstalledAdapter { manifest, worker_path });
        Ok(())
    }

    /// The installed adapter `adapter_id`.
    pub fn installed_adapter(&self, adapter_id: &str) -> (r: Option<&InstalledAdapter>)
        ensures
            r is Some <==> self.installed_map().dom().contains(adapter_id@),
            r matches Some(a) ==> *a == self.installed_map()[adapter_id@],
    {
        self.installed.get(adapter_id)
    }
}

/// Whether binding `b` serves `command` at `version`.
pub open spec fn binds(b: CommandBinding, command: Seq<char>, version: u32) -> bool {
    b.command@ == command && b.command_version == version
}

/// The first binding of the manifest for `command@version`.
pub fn find_binding<'a>(manifest: &'a AdapterManifest, command: &str, command_version: u32) -> (r:
    Result<&'a CommandBinding, AdapterError>)
    ensures
        r is Ok <==> exists|k: int|
            0 <= k < manifest.relay.command_bindings@.len() && binds(
                #[trigger] manifest.relay.command_bindings@[k],
                command@,
                command_version,
            ),
        r matches Ok(b) ==> exists|k: int|
            0 <= k < manifest.relay.command_bindings@.len() && *b
                == manifest.relay.command_bindings@[k] && binds(*b, command@, command_version)
                && forall|j: int|
                0 <= j < k ==> !binds(
                    #[trigger] manifest.relay.command_bindings@[j],
                    command@,
                    command_version,
                ),
        r matches Err(e) ==> e.code@ == "ADAPTER_COMMAND_NOT_BOUND"@ && e.message@ == command@
            + "@"@ + decimal(command_version as nat) + " is not bound by this adapter"@,
{
    let bindings = &manifest.relay.command_bindings;
    let mut i: usize = 0;
    while i < bindings.len()
        invariant
            i <= bindings@.len(),
            *bindings == manifest.relay.command_bindings,
            forall|j: int| 0 <= j < i ==> !binds(#[trigger] bindings@[j], command@, command_version),
        decreases bindings@.len() - i,
    {
        if str_eq(bindings[i].command.as_str(), command) && bindings[i].command_version
            == command_version {
            return Ok(&bindings[i]);
        }
        i = i + 1;
    }
    let shown = u64_to_decimal(command_version as u64);
    let message = String::from_str(command).concat("@").concat(shown.as_str()).concat(
        " is not bound by this adapter",
    );
    Err(AdapterError::new("ADAPTER_COMMAND_NOT_BOUND", message))
}

/// A character kept in a mailbox directory name.
pub open spec fn is_segment_char(c: char) -> bool {
    let v = c as u32;
    (48 <= v <= 57) || (65 <= v <= 90) || (97 <= v <= 122) || c == '-' || c == '_'
}

/// The characters of `s` that may stand in a directory name, in order.
pub open spec fn segment_chars(s: Seq<char>) -> Seq<char>
    decreases s.len(),
{
    if s.len() == 0 {
        Seq::empty()
    } else if is_segment_char(s.last()) {
        segment_chars(s.drop_last()).push(s.last())
    } else {
        segment_chars(s.drop_last())
    }
}

/// At most the first 40 of them, or `adapter` when none is left.
pub open spec fn safe_segment_of(s: Seq<char>) -> Seq<char> {
    let kept = segment_chars(s);
    if kept.len() == 0 {
        "adapter"@
    } else if kept.len() <= 40 {
        kept
    } else {
        kept.subrange(0, 40)
    }
}

/// A directory-name-safe form of an adapter id.
pub fn safe_segment(value: &str) -> (r: String)
    ensures
        r@ == safe_segment_of(value@),
{
    let n = value.unicode_len();
    let mut out = String::new();
    let mut count: usize = 0;
    let mut i: usize = 0;
    while i < n
        invariant
            n == value@.len(),
            i <= n,
            count == out@.len(),
            count <= 40,
            segment_chars(value@.subrange(0, i as int)).len() <= 40 ==> out@ == segment_chars(
                value@.subrange(0, i as int),
            ),
            segment_chars(value@.subrange(0, i as int)).len() > 40 ==> out@ == segment_chars(
                value@.subrange(0, i as int),
            ).subrange(0, 40),
            segment_chars(value@.subrange(0, i as int)).len() >= 40 ==> count == 40,
        decreases n - i,
    {
        let c = value.get_char(i);
        let v = c as u32;
        let keep = (48 <= v && v <= 57) || (65 <= v && v <= 90) || (97 <= v && v <= 122) || c == '-'
            || c == '_';
        proof {
            let p = value@.subrange(0, i + 1);
            assert(p.drop_last() =~= value@.subrange(0, i as int));
            assert(p.last() == c);
        }
        if keep && count < 40 {
            let one = value.substring_char(i, i + 1);
            out = out.concat(one);
            count = count + 1;
            proof {
                let p = value@.subrange(0, i + 1);
                assert(out@ =~= segment_chars(p) || out@ =~= segment_chars(p).subrange(0, 40));
            }
        } else {
            proof {
                let p = value@.subrange(0, i + 1);
                if keep {
                    assert(segment_chars(p).subrange(0, 40) =~= segment_chars(p.drop_last()).subrange(
                        0,
                        40,
                    ));
                }
            }
        }
        i = i + 1;
    }
    assert(value@.subrange(0, n as int) =~= value@);
    if count == 0 {
        String::from_str("adapter")
    } else {
        out
    }
}

/// The bytes that name a sandbox: id, version, artifact digest and request
/// id, each UTF-8 encoded, separated by zero bytes.
pub open spec fn identity_input(m: AdapterManifest, request_id: Seq<char>) -> Seq<u8> {
    encode_utf8(m.adapter.id@) + seq![0u8] + encode_utf8(m.adapter.version@) + seq![0u8]
        + encode_utf8(m.artifact.sha256@) + seq![0u8] + encode_utf8(request_id)
}

/// `DSIRelay.Adapter.` and the first 12 bytes of the SHA-256 digest of the
/// identity input, in hexadecimal.
pub open spec fn sandbox_identity_of(m: AdapterManifest, request_id: Seq<char>) -> Seq<char> {
    "DSIRelay.Adapter."@ + hex_lower(sha256_digest(identity_input(m, request_id)).subrange(0, 12))
}

fn append_bytes(out: &mut Vec<u8>, more: &Vec<u8>)
    ensures
        final(out)@ == old(out)@ + more@,
{
    let mut i: usize = 0;
    while i < more.len()
        invariant
            i <= more@.len(),
            out@ == old(out)@ + more@.subrange(0, i as int),
        decreases more@.len() - i,
    {
        out.push(more[i]);
        assert(more@.subrange(0, i + 1) =~= more@.subrange(0, i as int).push(more@[i as int]));
        i = i + 1;
    }
    assert(more@.subrange(0, more@.len() as int) =~= more@);
}

/// The AppContainer profile name of one invocation's sandbox.
pub fn sandbox_identity(manifest: &AdapterManifest, request_id: &str) -> (r: String)
    ensures
        r@ == sandbox_identity_of(*manifest, request_id@),
{
    let mut input: Vec<u8> = manifest.adapter.id.as_str().as_bytes_vec();
    input.push(0u8);
    append_bytes(&mut input, &manifest.adapter.version.as_str().as_bytes_vec());
    input.push(0u8);
    append_bytes(&mut input, &manifest.artifact.sha256.as_str().as_bytes_vec());
    input.push(0u8);
    append_bytes(&mut input, &request_id.as_bytes_vec());
    assert(input@ =~= identity_input(*manifest, request_id@));
    let digest = sha256(input.as_slice());
    let mut head: Vec<u8> = Vec::new();
    let mut i: usize = 0;
    while i < 12
        invariant
            i <= 12,
            digest@.len() == 32,
            head@ == digest@.subrange(0, i as int),
        decreases 12 - i,
    {
        head.push(digest[i]);
        assert(digest@.subrange(0, i + 1) =~= digest@.subrange(0, i as int).push(digest@[i as int]));
        i = i + 1;
    }
    let hex = to_hex_lower(head.as_slice());
    String::from_str("DSIRelay.Adapter.").concat(hex.as_str())
}

/// Whether an object entry is `key` with the string `value`.
pub open spec fn str_entry(e: (String, Json), key: Seq<char>, value: Seq<char>) -> bool {
    e.0@ == key && e.1 is Str && e.1->Str_0@ == value
}

/// The strings of an array, in order.
pub open spec fn str_items(items: Seq<Json>, values: Seq<Seq<char>>) -> bool {
    items.len() == values.len() && forall|i: int|
        0 <= i < items.len() ==> (#[trigger] items[i]) is Str && items[i]->Str_0@ == values[i]
}

/// The capability ids of bindings, in order.
pub open spec fn capability_list(bindings: Seq<CommandBinding>) -> Seq<Seq<char>> {
    Seq::new(bindings.len(), |i: int| bindings[i].capability@)
}

/// The request a worker receives: an `adapter_invoke` object whose keys are
/// in the order of a JSON map.
pub open spec fn is_invocation_request(
    r: Json,
    m: AdapterManifest,
    binding: CommandBinding,
    request_id: Seq<char>,
    arguments: Json,
) -> bool {
    &&& r is Object
    &&& r->Object_0@.len() == 10
    &&& str_entry(r->Object_0@[0], "adapter_id"@, m.adapter.id@)
    &&& str_entry(r->Object_0@[1], "adapter_version"@, m.adapter.version@)
    &&& r->Object_0@[2].0@ == "arguments"@ && r->Object_0@[2].1 == arguments
    &&& r->Object_0@[3].0@ == "capabilities"@ && r->Object_0@[3].1 is Array && str_items(
        r->Object_0@[3].1->Array_0@,
        capability_list(m.relay.command_bindings@),
    )
    &&& str_entry(r->Object_0@[4], "capability"@, binding.capability@)
    &&& str_entry(r->Object_0@[5], "command"@, binding.command@)
    &&& r->Object_0@[6].0@ == "command_version"@ && r->Object_0@[6].1 == Json::Int(
        binding.command_version as i64,
    )
    &&& r->Object_0@[7].0@ == "protocol"@ && r->Object_0@[7].1 == Json::Int(1)
    &&& str_entry(r->Object_0@[8], "request_id"@, request_id)
    &&& str_entry(r->Object_0@[9], "type"@, "adapter_invoke"@)
}

fn str_pair(key: &str, value: &str) -> (r: (String, Json))
    ensures
        str_entry(r, key@, value@),
{
    (String::from_str(key), Json::Str(String::from_str(value)))
}

/// The request that the mailbox hands a worker for `binding`.
pub fn invocation_request(
    manifest: &AdapterManifest,
    binding: &CommandBinding,
    request_id: &str,
    arguments: Json,
) -> (r: Json)
    ensures
        is_invocation_request(r, *manifest, *binding, request_id@, arguments),
{
    let bindings = &manifest.relay.command_bindings;
    let mut caps: Vec<Json> = Vec::new();
    let mut i: usize = 0;
    while i < bindings.len()
        invariant
            i <= bindings@.len(),
            *bindings == manifest.relay.command_bindings,
            str_items(caps@, capability_list(bindings@).subrange(0, i as int)),
        decreases bindings@.len() - i,
    {
        caps.push(Json::Str(bindings[i].capability.clone()));
        proof {
            assert(capability_list(bindings@).subrange(0, i + 1) =~= capability_list(
                bindings@,
            ).subrange(0, i as int).push(bindings@[i as int].capability@));
        }
        i = i + 1;
    }
    assert(capability_list(bindings@).subrange(0, bindings@.len() as int) =~= capability_list(
        bindings@,
    ));
    let mut entries: Vec<(String, Json)> = Vec::new();
    entries.push(str_pair("adapter_id", manifest.adapter.id.as_str()));
    entries.push(str_pair("adapter_version", manifest.adapter.version.as_str()));
    entries.push((String::from_str("arguments"), arguments));
    entries.push((String::from_str("capabilities"), Json::Array(caps)));
    entries.push(str_pair("capability", binding.capability.as_str()));
    entries.push(str_pair("command", binding.command.as_str()));
    entries.push((String::from_str("command_version"), Json::Int(binding.command_version as i64)));
    entries.push((String::from_str("protocol"), Json::Int(1)));
    entries.push(str_pair("request_id", request_id));
    entries.push(str_pair("type", "adapter_invoke"));
    Json::Object(entries)
}

/// The strings held by the array member `key` (other items are ignored).
pub open spec fn array_strings(j: Json, key: Seq<char>) -> Set<Seq<char>> {
    match member(j, key) {
        Some(Json::Array(items)) => Set::new(
            |s: Seq<char>|
                exists|k: int|
                    0 <= k < items@.len() && (#[trigger] items@[k]) is Str && items@[k]->Str_0@ == s,
        ),
        _ => Set::empty(),
    }
}

/// The capability ids that bindings declare.
pub open spec fn declared_capabilities(bindings: Seq<CommandBinding>) -> Set<Seq<char>> {
    Set::new(
        |s: Seq<char>| exists|k: int| 0 <= k < bindings.len() && (#[trigger] bindings[k]).capability@ == s,
    )
}

/// Why a worker's answer is refused, in the order the checks run.
pub open spec fn worker_response_error(
    message: Json,
    request_id: Seq<char>,
    m: AdapterManifest,
    binding: CommandBinding,
    spec: CommandSpec,
    worker_pid: u32,
    registry: CommandRegistry,
) -> Option<(Seq<char>, Seq<char>)> {
    if str_member(message, "type"@) != Some("adapter_result"@) {
        Some(("ADAPTER_INVALID_MESSAGE"@, "worker response type must be adapter_result"@))
    } else if str_member(message, "request_id"@) != Some(request_id) {
        Some(("ADAPTER_INVALID_MESSAGE"@, "worker response request_id does not match invocation"@))
    } else if str_member(message, "adapter_id"@) != Some(m.adapter.id@) || str_member(
        message,
        "adapter_version"@,
    ) != Some(m.adapter.version@) {
        Some(
            (
                "ADAPTER_IDENTITY_MISMATCH"@,
                "worker response identity/version does not match manifest"@,
            ),
        )
    } else if u64_member(message, "protocol"@) != Some(m.relay.protocol_max as u64)
        || m.relay.protocol_max != 1 {
        Some(
            (
                "ADAPTER_PROTOCOL_INCOMPATIBLE"@,
                "worker response protocol does not match negotiated adapter protocol"@,
            ),
        )
    } else if u64_member(message, "pid"@) != Some(worker_pid as u64) {
        Some(("ADAPTER_IDENTITY_MISMATCH"@, "worker-reported PID does not match launched process"@))
    } else if array_strings(message, "capabilities"@) != declared_capabilities(
        m.relay.command_bindings@,
    ) || !array_strings(message, "capabilities"@).contains(binding.capability@) {
        Some(
            (
                "ADAPTER_CAPABILITY_MISMATCH"@,
                "worker capabilities do not exactly match the manifest"@,
            ),
        )
    } else if bool_member(message, "ok"@) is None {
        Some(("ADAPTER_INVALID_MESSAGE"@, "worker response is missing boolean ok"@))
    } else if bool_member(message, "ok"@)->0 {
        match member(message, "result"@) {
            None => Some(
                ("ADAPTER_INVALID_MESSAGE"@, "successful worker response is missing result"@),
            ),
            Some(result) => match violation(spec.result_schema, result, "$"@) {
                Some((path, text)) => Some(
                    ("ADAPTER_RESULT_SCHEMA_VIOLATION"@, path + " "@ + text),
                ),
                None => None,
            },
        }
    } else {
        match member(message, "error"@) {
            None => Some(("ADAPTER_INVALID_MESSAGE"@, "failed worker response is missing error"@)),
            Some(error) => match violation(registry.error_schema, error, "$"@) {
                Some((path, text)) => Some(("ADAPTER_ERROR_SCHEMA_VIOLATION"@, path + " "@ + text)),
                None => {
                    let code = match str_member(error, "code"@) {
                        Some(c) => c,
                        None => ""@,
                    };
                    if !error_code_allowed(registry, spec, code) {
                        Some(
                            (
                                "ADAPTER_UNDECLARED_ERROR"@,
                                "worker returned undeclared command error "@ + code,
                            ),
                        )
                    } else {
                        None
                    }
                },
            },
        }
    }
}

/// The broker's answer for a checked worker response: the command, its
/// version, and the result (`ok`) or the error, keys in JSON map order.
pub open spec fn is_worker_answer(r: Json, binding: CommandBinding, ok: bool, payload: Json) -> bool {
    &&& r is Object
    &&& r->Object_0@.len() == 4
    &&& str_entry(r->Object_0@[0], "command"@, binding.command@)
    &&& r->Object_0@[1].0@ == "command_version"@ && r->Object_0@[1].1 == Json::Int(
        binding.command_version as i64,
    )
    &&& ok ==> r->Object_0@[2].0@ == "ok"@ && r->Object_0@[2].1 == Json::Bool(true)
        && r->Object_0@[3].0@ == "result"@ && same(payload, r->Object_0@[3].1)
    &&& !ok ==> r->Object_0@[2].0@ == "error"@ && same(payload, r->Object_0@[2].1)
        && r->Object_0@[3].0@ == "ok"@ && r->Object_0@[3].1 == Json::Bool(false)
}

fn str_member_is(message: &Json, key: &str, expected: &str) -> (r: bool)
    ensures
        r == (str_member(*message, key@) == Some(expected@)),
{
    match message.get(key) {
        Some(v) => match v.as_str() {
            Some(s) => str_eq(s, expected),
            None => false,
        },
        None => false,
    }
}

fn u64_member_is(message: &Json, key: &str, expected: u64) -> (r: bool)
    ensures
        r == (u64_member(*message, key@) == Some(expected)),
{
    match message.get(key) {
        Some(v) => match v.as_u64() {
            Some(n) => n == expected,
            None => false,
        },
        None => false,
    }
}

fn same_members(a: &StrSet, b: &StrSet) -> (r: bool)
    ensures
        r == (a.set() == b.set()),
{
    let n = a.len();
    let mut i: usize = 0;
    while i < n
        invariant
            n == a.elems().len(),
            i <= n,
            forall|k: int| 0 <= k < i ==> b.set().contains(#[trigger] a.elems()[k]),
        decreases n - i,
    {
        if !b.contains(a.get(i).as_str()) {
            assert(a.set().contains(a.elems()[i as int]));
            return false;
        }
        i = i + 1;
    }
    let m = b.len();
    let mut j: usize = 0;
    while j < m
        invariant
            m == b.elems().len(),
            j <= m,
            forall|k: int| 0 <= k < j ==> a.set().contains(#[trigger] b.elems()[k]),
        decreases m - j,
    {
        if !a.contains(b.get(j).as_str()) {
            assert(b.set().contains(b.elems()[j as int]));
            return false;
        }
        j = j + 1;
    }
    proof {
        assert forall|x: Seq<char>| a.set().contains(x) implies b.set().contains(x) by {
            let k = choose|k: int| 0 <= k < a.elems().len() && a.elems()[k] == x;
            assert(b.set().contains(a.elems()[k]));
        }
        assert forall|x: Seq<char>| b.set().contains(x) implies a.set().contains(x) by {
            let k = choose|k: int| 0 <= k < b.elems().len() && b.elems()[k] == x;
            assert(a.set().contains(b.elems()[k]));
        }
        assert(a.set() =~= b.set());
    }
    true
}

fn answer(binding: &CommandBinding, ok: bool, payload: &Json) -> (r: Json)
    ensures
        is_worker_answer(r, *binding, ok, *payload),
{
    let mut entries: Vec<(String, Json)> = Vec::new();
    entries.push(str_pair("command", binding.command.as_str()));
    entries.push((String::from_str("command_version"), Json::Int(binding.command_version as i64)));
    if ok {
        entries.push((String::from_str("ok"), Json::Bool(true)));
        entries.push((String::from_str("result"), payload.duplicate()));
    } else {
        entries.push((String::from_str("error"), payload.duplicate()));
        entries.push((String::from_str("ok"), Json::Bool(false)));
    }
    Json::Object(entries)
}

/// Checks a worker's answer against the invocation, the manifest and the
/// command's schemas, and returns the broker's answer.
pub fn validate_worker_response(
    message: &Json,
    request_id: &str,
    manifest: &AdapterManifest,
    binding: &CommandBinding,
    spec: &CommandSpec,
    worker_pid: u32,
    registry: &CommandRegistry,
) -> (r: Result<Json, AdapterError>)
    ensures
        r is Ok <==> worker_response_error(
            *message,
            request_id@,
            *manifest,
            *binding,
            *spec,
            worker_pid,
            *registry,
        ) is None,
        r matches Err(e) ==> worker_response_error(
            *message,
            request_id@,
            *manifest,
            *binding,
            *spec,
            worker_pid,
            *registry,
        ) == Some((e.code@, e.message@)),
        r matches Ok(v) ==> is_worker_answer(
            v,
            *binding,
            bool_member(*message, "ok"@)->0,
            if bool_member(*message, "ok"@)->0 {
                member(*message, "result"@)->0
            } else {
                member(*message, "error"@)->0
            },
        ),
{
    if !str_member_is(message, "type", "adapter_result") {
        return Err(
            AdapterError::new(
                "ADAPTER_INVALID_MESSAGE",
                String::from_str("worker response type must be adapter_result"),
            ),
        );
    }
    if !str_member_is(message, "request_id", request_id) {
        return Err(
            AdapterError::new(
                "ADAPTER_INVALID_MESSAGE",
                String::from_str("worker response request_id does not match invocation"),
            ),
        );
    }
    if !str_member_is(message, "adapter_id", manifest.adapter.id.as_str()) || !str_member_is(
        message,
        "adapter_version",
        manifest.adapter.version.as_str(),
    ) {
        return Err(
            AdapterError::new(
                "ADAPTER_IDENTITY_MISMATCH",
                String::from_str("worker response identity/version does not match manifest"),
            ),
        );
    }
    if !u64_member_is(message, "protocol", manifest.relay.protocol_max as u64)
        || manifest.relay.protocol_max != 1 {
        return Err(
            AdapterError::new(
                "ADAPTER_PROTOCOL_INCOMPATIBLE",
                String::from_str("worker response protocol does not match negotiated adapter protocol"),
            ),
        );
    }
    if !u64_member_is(message, "pid", worker_pid as u64) {
        return Err(
            AdapterError::new(
                "ADAPTER_IDENTITY_MISMATCH",
                String::from_str("worker-reported PID does not match launched process"),
            ),
        );
    }
    let mut actual = StrSet::new();
    let listed = message.get("capabilities");
    if let Some(value) = listed {
        if let Some(items) = value.as_array() {
            let mut i: usize = 0;
            while i < items.len()
                invariant
                    i <= items@.len(),
                    member(*message, "capabilities"@) == Some(Json::Array(*items)),
                    forall|x: Seq<char>|
                        actual.set().contains(x) <==> exists|k: int|
                            0 <= k < i && (#[trigger] items@[k]) is Str && items@[k]->Str_0@ == x,
                decreases items@.len() - i,
            {
                if let Some(text) = items[i].as_str() {
                    actual.insert(String::from_str(text));
                }
                proof {
                    assert forall|x: Seq<char>|
                        actual.set().contains(x) <==> exists|k: int|
                            0 <= k < i + 1 && (#[trigger] items@[k]) is Str && items@[k]->Str_0@
                                == x by {
                        if exists|k: int|
                            0 <= k < i + 1 && (#[trigger] items@[k]) is Str && items@[k]->Str_0@
                                == x {
                            let k = choose|k: int|
                                0 <= k < i + 1 && (#[trigger] items@[k]) is Str && items@[k]->Str_0@
                                    == x;
                            if k < i {
                                assert(exists|k2: int|
                                    0 <= k2 < i && (#[trigger] items@[k2]) is Str
                                        && items@[k2]->Str_0@ == x);
                            }
                        }
                    }
                }
                i = i + 1;
            }
            proof {
                assert(actual.set() =~= array_strings(*message, "capabilities"@));
            }
        } else {
            proof {
                assert(actual.set() =~= array_strings(*message, "capabilities"@));
            }
        }
    } else {
        proof {
            assert(actual.set() =~= array_strings(*message, "capabilities"@));
        }
    }
    let bindings = &manifest.relay.command_bindings;
    let mut declared = StrSet::new();
    let mut j: usize = 0;
    while j < bindings.len()
        invariant
            j <= bindings@.len(),
            *bindings == manifest.relay.command_bindings,
            forall|x: Seq<char>|
                declared.set().contains(x) <==> exists|k: int|
                    0 <= k < j && (#[trigger] bindings@[k]).capability@ == x,
        decreases bindings@.len() - j,
    {
        declared.insert(bindings[j].capability.clone());
        proof {
            assert forall|x: Seq<char>|
                declared.set().contains(x) <==> exists|k: int|
                    0 <= k < j + 1 && (#[trigger] bindings@[k]).capability@ == x by {
                if exists|k: int| 0 <= k < j + 1 && (#[trigger] bindings@[k]).capability@ == x {
                    let k = choose|k: int| 0 <= k < j + 1 && (#[trigger] bindings@[k]).capability@ == x;
                    if k < j {
                        assert(exists|k2: int| 0 <= k2 < j && (#[trigger] bindings@[k2]).capability@ == x);
                    }
                }
            }
        }
        j = j + 1;
    }
    proof {
        assert(declared.set() =~= declared_capabilities(manifest.relay.command_bindings@));
    }
    if !same_members(&actual, &declared) || !actual.contains(binding.capability.as_str()) {
        return Err(
            AdapterError::new(
                "ADAPTER_CAPABILITY_MISMATCH",
                String::from_str("worker capabilities do not exactly match the manifest"),
            ),
        );
    }
    let ok = match message.get("ok") {
        Some(v) => v.as_bool(),
        None => None,
    };
    let ok = match ok {
        Some(b) => b,
        None => {
            return Err(
                AdapterError::new(
                    "ADAPTER_INVALID_MESSAGE",
                    String::from_str("worker response is missing boolean ok"),
                ),
            );
        },
    };
    if ok {
        let result = match message.get("result") {
            Some(v) => v,
            None => {
                return Err(
                    AdapterError::new(
                        "ADAPTER_INVALID_MESSAGE",
                        String::from_str("successful worker response is missing result"),
                    ),
                );
            },
        };
        match validate_value(&spec.result_schema, result) {
            Err(e) => {
                let text = e.path.concat(" ").concat(e.message.as_str());
                return Err(AdapterError::new("ADAPTER_RESULT_SCHEMA_VIOLATION", text));
            },
            Ok(()) => {},
        }
        return Ok(answer(binding, true, result));
    }
    let error = match message.get("error") {
        Some(v) => v,
        None => {
            return Err(
                AdapterError::new(
                    "ADAPTER_INVALID_MESSAGE",
                    String::from_str("failed worker response is missing error"),
                ),
            );
        },
    };
    match validate_value(&registry.error_schema, error) {
        Err(e) => {
            let text = e.path.concat(" ").concat(e.message.as_str());
            return Err(AdapterError::new("ADAPTER_ERROR_SCHEMA_VIOLATION", text));
        },
        Ok(()) => {},
    }
    let code: &str = match error.get("code") {
        Some(v) => match v.as_str() {
            Some(c) => c,
            None => "",
        },
        None => "",
    };
    proof {
        reveal_strlit("");
    }
    if !is_error_allowed(registry, spec, code) {
        let text = String::from_str("worker returned undeclared command error ").concat(code);
        return Err(AdapterError::new("ADAPTER_UNDECLARED_ERROR", text));
    }
    Ok(answer(binding, false, error))
}

/// Whether some binding serves `command@version`.
pub open spec fn is_bound(bindings: Seq<CommandBinding>, command: Seq<char>, version: u32) -> bool {
    exists|k: int| 0 <= k < bindings.len() && binds(#[trigger] bindings[k], command, version)
}

/// The registry holds exactly `command@version`.
pub open spec fn registry_has(registry: CommandRegistry, command: Seq<char>, version: u32) -> bool {
    &&& latest_match(registry.commands@, command, registry.commands@.len() as int) >= 0
    &&& first_match(registry.commands@, command, version, registry.commands@.len() as int) >= 0
}

/// The contract of `command@version` (meaningful when `registry_has`).
pub open spec fn contract_of(registry: CommandRegistry, command: Seq<char>, version: u32) -> CommandSpec {
    registry.commands@[first_match(
        registry.commands@,
        command,
        version,
        registry.commands@.len() as int,
    )]
}

impl AdapterBroker {
    /// Why an invocation is refused before any worker starts, in the order
    /// the checks run.
    pub open spec fn invocation_refusal(
        self,
        registry: CommandRegistry,
        adapter_id: Seq<char>,
        command: Seq<char>,
        version: u32,
        arguments: Json,
        worker: Result<Seq<u8>, Seq<char>>,
        now_ms: u64,
    ) -> Option<(Seq<char>, Seq<char>)> {
        let label = command + "@"@ + decimal(version as nat);
        if preflight_error(self.state_of(adapter_id), now_ms) is Some {
            preflight_error(self.state_of(adapter_id), now_ms)
        } else if !self.installed_map().dom().contains(adapter_id) {
            Some(("ADAPTER_NOT_INSTALLED"@, "adapter "@ + adapter_id + " is not installed"@))
        } else if manifest_error(
            self.installed_map()[adapter_id].manifest,
            self.policy_view(),
            registry,
            worker,
        ) is Some {
            manifest_error(
                self.installed_map()[adapter_id].manifest,
                self.policy_view(),
                registry,
                worker,
            )
        } else if !is_bound(
            self.installed_map()[adapter_id].manifest.relay.command_bindings@,
            command,
            version,
        ) {
            Some(("ADAPTER_COMMAND_NOT_BOUND"@, label + " is not bound by this adapter"@))
        } else if !registry_has(registry, command, version) {
            Some(("ADAPTER_COMMAND_INCOMPATIBLE"@, label + " is not in the RELAY registry"@))
        } else {
            match violation(contract_of(registry, command, version).arguments_schema, arguments, "$"@) {
                Some((path, text)) => Some(("VALIDATION_FAILED"@, path + " "@ + text)),
                None => None,
            }
        }
    }

    /// The checks that precede a worker run: runtime state, install, the
    /// manifest against the worker artifact as it is now, the binding, the
    /// registry contract and the arguments. On success, the binding that the
    /// worker is to serve. Nothing is recorded: a refusal here is not a
    /// worker failure.
    pub fn prepare_invoke(
        &self,
        registry: &CommandRegistry,
        adapter_id: &str,
        command: &str,
        command_version: u32,
        arguments: &Json,
        worker: &Result<Vec<u8>, String>,
        now_ms: u64,
    ) -> (r: Result<CommandBinding, AdapterError>)
        ensures
            r is Ok <==> self.invocation_refusal(
                *registry,
                adapter_id@,
                command@,
                command_version,
                *arguments,
                artifact_view(*worker),
                now_ms,
            ) is None,
            r matches Err(e) ==> self.invocation_refusal(
                *registry,
                adapter_id@,
                command@,
                command_version,
                *arguments,
                artifact_view(*worker),
                now_ms,
            ) == Some((e.code@, e.message@)),
            r matches Ok(b) ==> b.command@ == command@ && b.command_version == command_version
                && exists|k: int|
                0 <= k < self.installed_map()[adapter_id@].manifest.relay.command_bindings@.len()
                    && self.installed_map()[adapter_id@].manifest.relay.command_bindings@[k].capability@
                    == b.capability@ && forall|j: int|
                    0 <= j < k ==> !binds(
                        #[trigger] self.installed_map()[adapter_id@].manifest.relay.command_bindings@[j],
                        command@,
                        command_version,
                    ),
    {
        self.preflight_runtime(adapter_id, now_ms)?;
        let installed = match self.installed.get(adapter_id) {
            Some(a) => a,
            None => {
                let message = String::from_str("adapter ").concat(adapter_id).concat(
                    " is not installed",
                );
                return Err(AdapterError::new("ADAPTER_NOT_INSTALLED", message));
            },
        };
        validate_manifest(&installed.manifest, &self.policy, registry, worker)?;
        let binding = find_binding(&installed.manifest, command, command_version)?;
        let contract = match resolve_command(registry, command, Some(command_version)) {
            Ok(c) => c,
            Err(_) => {
                let shown = u64_to_decimal(command_version as u64);
                let message = String::from_str(command).concat("@").concat(shown.as_str()).concat(
                    " is not in the RELAY registry",
                );
                return Err(AdapterError::new("ADAPTER_COMMAND_INCOMPATIBLE", message));
            },
        };
        match validate_value(&contract.arguments_schema, arguments) {
            Err(e) => {
                let text = e.path.concat(" ").concat(e.message.as_str());
                return Err(AdapterError::new("VALIDATION_FAILED", text));
            },
            Ok(()) => {},
        }
        Ok(binding.clone())
    }

    /// Records how a worker run ended (a success forgets the failure history,
    /// a failure counts towards quarantine) and hands the outcome back.
    pub fn complete_invoke(
        &mut self,
        adapter_id: &str,
        outcome: Result<Json, AdapterError>,
        now_ms: u64,
    ) -> (r: Result<Json, AdapterError>)
        ensures
            r == outcome,
            outcome is Ok ==> final(self).runtime_map() == old(self).runtime_map().remove(adapter_id@),
            outcome is Err ==> final(self).runtime_map() == old(self).runtime_map().insert(
                adapter_id@,
                after_failure(
                    match old(self).state_of(adapter_id@) {
                        Some(s) => s,
                        None => fresh_state(),
                    },
                    old(self).policy_view(),
                    now_ms,
                ),
            ),
            final(self).installed_map() == old(self).installed_map(),
            final(self).policy_view() == old(self).policy_view(),
            final(self).mailbox_root_view() == old(self).mailbox_root_view(),
    {
        match &outcome {
            Ok(_) => self.record_success(adapter_id),
            Err(_) => self.record_failure(adapter_id, now_ms),
        }
        outcome
    }
}

/// Whether the platform's sandbox may run an untrusted worker: a backend
/// must have been classified, and must enable strong untrusted launch.
pub fn launch_backend_check(selection: Option<&SandboxBackendSelection>) -> (r: Result<
    (),
    AdapterError,
>)
    ensures
        selection is None ==> (r matches Err(e) && e.code@ == "ADAPTER_SANDBOX_UNAVAILABLE"@
            && e.message@ == "Windows sandbox backend could not be classified"@),
        selection matches Some(s) ==> (s.strong_untrusted_launch_enabled <==> r is Ok) && (
        r matches Err(e) ==> e.code@ == "ADAPTER_SANDBOX_UNAVAILABLE"@ && e.message@
            == s.reason@),
{
    match selection {
        None => Err(
            AdapterError::new(
                "ADAPTER_SANDBOX_UNAVAILABLE",
                String::from_str("Windows sandbox backend could not be classified"),
            ),
        ),
        Some(s) => if s.strong_untrusted_launch_enabled {
            Ok(())
        } else {
            Err(AdapterError::new("ADAPTER_SANDBOX_UNAVAILABLE", s.reason.clone()))
        },
    }
}

/// The directory a worker's package is read from: the parent of its path.
pub fn worker_parent(worker_path: &str) -> (r: Result<String, AdapterError>)
    ensures
        worker_path@.len() == 0 ==> r is Err,
        rootless(worker_path@) || rooted_names(worker_path@) ==> r is Ok,
        r matches Err(e) ==> e.code@ == "ADAPTER_WORKER_PATH_INVALID"@ && e.message@
            == "adapter worker must have a parent directory"@,
        r matches Ok(p) ==> p@.len() <= worker_path@.len(),
{
    match path_parent(worker_path) {
        Some(p) => Ok(p),
        None => Err(
            AdapterError::new(
                "ADAPTER_WORKER_PATH_INVALID",
                String::from_str("adapter worker must have a parent directory"),
            ),
        ),
    }
}

/// The variables a worker's environment is built from, when the host has
/// them: the Windows system locations, paths and identity.
pub const MINIMAL_ENVIRONMENT_KEYS: [&'static str; 20] = [
    "SystemRoot",
    "WINDIR",
    "SystemDrive",
    "ComSpec",
    "Path",
    "PATHEXT",
    "TEMP",
    "TMP",
    "LOCALAPPDATA",
    "APPDATA",
    "ProgramData",
    "ProgramFiles",
    "ProgramFiles(x86)",
    "CommonProgramFiles",
    "CommonProgramFiles(x86)",
    "PROCESSOR_ARCHITECTURE",
    "NUMBER_OF_PROCESSORS",
    "OS",
    "USERNAME",
    "USERDOMAIN",
];

/// The first `n` names with the values the host has for them, in order;
/// names without a value are left out.
pub open spec fn present_entries(keys: Seq<&str>, values: Seq<Option<String>>, n: int) -> Seq<
    (Seq<char>, Seq<char>),
>
    decreases n,
{
    if n <= 0 {
        Seq::empty()
    } else {
        present_entries(keys, values, n - 1) + match values[n - 1] {
            Some(v) => seq![(keys[n - 1]@, v@)],
            None => Seq::empty(),
        }
    }
}

pub open spec fn pair_views(v: Seq<(String, String)>) -> Seq<(Seq<char>, Seq<char>)> {
    v.map_values(|e: (String, String)| (e.0@, e.1@))
}

/// A worker's environment: each of `MINIMAL_ENVIRONMENT_KEYS` with the value
/// at the same place in `values` (the host's own, looked up by name), when
/// there is one.
pub fn minimal_environment(values: &Vec<Option<String>>) -> (r: Vec<(String, String)>)
    requires
        values@.len() == MINIMAL_ENVIRONMENT_KEYS@.len(),
    ensures
        pair_views(r@) == present_entries(
            MINIMAL_ENVIRONMENT_KEYS@,
            values@,
            values@.len() as int,
        ),
{
    let keys = MINIMAL_ENVIRONMENT_KEYS;
    let mut out: Vec<(String, String)> = Vec::new();
    let mut i: usize = 0;
    while i < values.len()
        invariant
            keys@ == MINIMAL_ENVIRONMENT_KEYS@,
            values@.len() == keys@.len(),
            i <= values@.len(),
            pair_views(out@) == present_entries(keys@, values@, i as int),
        decreases values@.len() - i,
    {
        let ghost before = out@;
        match &values[i] {
            Some(v) => {
                out.push((String::from_str(keys[i]), v.clone()));
                assert(pair_views(out@) =~= pair_views(before) + seq![(keys@[i as int]@, v@)]);
            },
            None => {},
        }
        assert(pair_views(out@) =~= present_entries(keys@, values@, i + 1));
        i = i + 1;
    }
    out
}

impl AdapterBroker {
    /// The sandbox a worker runs in: an identity derived from its package
    /// and request, its mailbox as the one read/write path, its package
    /// directory read-only, no direct capabilities, win32k locked, and the
    /// broker's memory and time limits.
    pub fn worker_sandbox_policy(
        &self,
        manifest: &AdapterManifest,
        request_id: &str,
        mailbox: String,
        package_dir: String,
        environment: Vec<(String, String)>,
    ) -> (r: StableSandboxPolicy)
        ensures
            r.identity@ == sandbox_identity_of(*manifest, request_id@),
            r.read_write_paths@.len() == 1 && r.read_write_paths@[0]@ == mailbox@,
            r.read_only_paths@.len() == 1 && r.read_only_paths@[0]@ == package_dir@,
            r.capabilities@.len() == 0,
            r.disallow_win32k,
            r.max_process_memory_bytes == self.policy_view().max_process_memory_bytes,
            r.timeout_ms == self.policy_view().request_timeout_ms,
            r.environment == environment,
    {
        let mut rw: Vec<String> = Vec::new();
        rw.push(mailbox);
        let mut ro: Vec<String> = Vec::new();
        ro.push(package_dir);
        StableSandboxPolicy {
            identity: sandbox_identity(manifest, request_id),
            read_write_paths: rw,
            read_only_paths: ro,
            capabilities: Vec::new(),
            disallow_win32k: true,
            max_process_memory_bytes: self.policy.max_process_memory_bytes,
            timeout_ms: self.policy.request_timeout_ms,
            environment,
        }
    }

    /// Where a worker came from, as an invocation reports it.
    pub fn invocation_provenance(manifest: &AdapterManifest, worker_pid: u32) -> (r:
        InvocationProvenance)
        ensures
            r.adapter_id@ == manifest.adapter.id@,
            r.adapter_version@ == manifest.adapter.version@,
            r.publisher_id@ == manifest.publisher.id@,
            r.artifact_sha256@ == manifest.artifact.sha256@,
            r.review_status@ == manifest.trust.review_status@,
            r.worker_pid == worker_pid,
    {
        InvocationProvenance {
            adapter_id: manifest.adapter.id.clone(),
            adapter_version: manifest.adapter.version.clone(),
            publisher_id: manifest.publisher.id.clone(),
            artifact_sha256: manifest.artifact.sha256.clone(),
            review_status: manifest.trust.review_status.clone(),
            worker_pid,
        }
    }
}

/// Once an adapter's failures reach the policy's threshold it is
/// quarantined, and every later start is refused until its history is
/// cleared, whatever the time.
pub proof fn law_failures_reach_quarantine(prior: RuntimeState, policy: BrokerPolicy, now_ms: u64, later_ms: u64)
    requires
        prior.failures + 1 >= policy.max_failures_before_quarantine,
    ensures
        after_failure(prior, policy, now_ms).quarantined,
        preflight_error(Some(after_failure(prior, policy, now_ms)), later_ms) == Some(
            ("ADAPTER_QUARANTINED"@, "adapter is quarantined after repeated failures"@),
        ),
{
}

/// A quarantined adapter stays quarantined under further failures.
pub proof fn law_quarantine_is_sticky(prior: RuntimeState, policy: BrokerPolicy, now_ms: u64)
    requires
        prior.quarantined,
    ensures
        after_failure(prior, policy, now_ms).quarantined,
{
}

/// A failure below the threshold backs the adapter off: a start before the
/// backoff expires is refused, one at or after it is not.
pub proof fn law_backoff_window(prior: RuntimeState, policy: BrokerPolicy, now_ms: u64, later_ms: u64)
    requires
        !prior.quarantined,
        prior.failures + 1 < policy.max_failures_before_quarantine,
        now_ms + policy.backoff_ms <= u64::MAX,
    ensures
        later_ms < now_ms + policy.backoff_ms ==> preflight_error(
            Some(after_failure(prior, policy, now_ms)),
            later_ms,
        ) == Some(("ADAPTER_BACKOFF"@, "adapter restart backoff is active"@)),
        later_ms >= now_ms + policy.backoff_ms ==> preflight_error(
            Some(after_failure(prior, policy, now_ms)),
            later_ms,
        ) is None,
{
}

/// An adapter with no failure on record, or whose history was cleared, may
/// start at any time.
pub proof fn law_cleared_adapter_may_start(now_ms: u64)
    ensures
        preflight_error(None, now_ms) is None,
        preflight_error(Some(fresh_state()), now_ms) is None,
{
}


/// Uninstalling an adapter forgets it with its lifecycle state: it is no
/// longer installed, it has no failure history, and a later install of the
/// same id starts fresh, neither quarantined nor backed off.
pub proof fn law_uninstall_clears_lifecycle_state(
    before: AdapterBroker,
    after: AdapterBroker,
    adapter_id: Seq<char>,
    now_ms: u64,
)
    requires
        after.installed_map() == before.installed_map().remove(adapter_id),
        after.runtime_map() == before.runtime_map().remove(adapter_id),
    ensures
        !after.installed_map().dom().contains(adapter_id),
        after.state_of(adapter_id) is None,
        preflight_error(after.state_of(adapter_id), now_ms) is None,
{
}


proof fn lemma_segment_chars(s: Seq<char>)
    ensures
        forall|i: int| 0 <= i < segment_chars(s).len() ==> is_segment_char(#[trigger] segment_chars(s)[i]),
    decreases s.len(),
{
    if s.len() > 0 {
        lemma_segment_chars(s.drop_last());
        let before = segment_chars(s.drop_last());
        assert forall|i: int| 0 <= i < segment_chars(s).len() implies is_segment_char(
            #[trigger] segment_chars(s)[i],
        ) by {
            if i < before.len() {
                assert(segment_chars(s)[i] == before[i]);
            }
        }
    }
}

/// The directory name made of an adapter id is a single plain name: one to
/// forty letters, digits, `-` or `_`, so a mailbox named after it stays
/// directly under the mailbox root whatever the id holds.
pub proof fn law_safe_segment_is_a_plain_name(s: Seq<char>)
    ensures
        1 <= safe_segment_of(s).len() <= 40,
        forall|i: int| 0 <= i < safe_segment_of(s).len() ==> is_segment_char(#[trigger] safe_segment_of(s)[i]),
{
    lemma_segment_chars(s);
    reveal_strlit("adapter");
    let kept = segment_chars(s);
    if kept.len() > 40 {
        assert forall|i: int| 0 <= i < 40 implies is_segment_char(#[trigger] kept.subrange(0, 40)[i]) by {
            assert(kept.subrange(0, 40)[i] == kept[i]);
        }
    }
}

} // verus!
