//! Adapter manifests and their validation: format, identity, protocol range,
//! target tool, requested permissions against the broker policy, command
//! bindings against the registry, and the worker artifact's SHA-256 digest.
use vstd::prelude::*;
use vstd::string::StrSliceExecFns;
use vstd::string::StringExecFns;
use sha2::Digest;
use crate::collections::StrSet;
use crate::registry::{
    first_match, is_surface_exposed, latest_match, resolve_command, surface_exposed,
    CommandRegistry,
};
use crate::text::{decimal, hex_lower, is_blank, str_eq, str_is_blank, to_hex_lower, u64_to_decimal};

verus! {

pub const ADAPTER_MANIFEST_FORMAT: u32 = 1;

pub const ADAPTER_PROTOCOL_MIN: u32 = 1;

pub const ADAPTER_PROTOCOL_MAX: u32 = 1;

/// A refused adapter operation, with a stable code.
pub struct AdapterError {
    pub code: &'static str,
    pub message: String,
}

impl AdapterError {
    /// The error as text: `code: message`.
    pub fn to_string(&self) -> (r: String)
        ensures
            r@ == self.code@ + ": "@ + self.message@,
    {
        proof {
            reveal_strlit(": ");
        }
        String::from_str(self.code).concat(": ").concat(self.message.as_str())
    }

    pub fn new(code: &'static str, message: String) -> (r: Self)
        ensures
            r.code == code,
            r.message@ == message@,
    {
        AdapterError { code, message }
    }
}

/// What an adapter package declares about itself.
pub struct AdapterManifest {
    pub manifest_format: u32,
    pub adapter: AdapterIdentity,
    pub publisher: PublisherMetadata,
    pub artifact: ArtifactMetadata,
    pub relay: RelayCompatibility,
    pub permissions: RequestedPermissions,
    pub target: TargetRequirement,
    pub components: Vec<ComponentMetadata>,
    pub dependencies: Vec<DependencyMetadata>,
    pub update: UpdateMetadata,
    pub trust: TrustMetadata,
}

pub struct AdapterIdentity {
    pub id: String,
    pub version: String,
    pub display_name: String,
}

pub struct PublisherMetadata {
    pub id: String,
    pub source: String,
}

pub struct ArtifactMetadata {
    pub sha256: String,
    pub source: String,
}

pub struct RelayCompatibility {
    pub protocol_min: u32,
    pub protocol_max: u32,
    pub command_bindings: Vec<CommandBinding>,
}

/// A registry command that an adapter serves, under a capability id.
pub struct CommandBinding {
    pub command: String,
    pub command_version: u32,
    pub capability: String,
}

impl Clone for CommandBinding {
    fn clone(&self) -> (r: Self)
        ensures
            r.command@ == self.command@,
            r.command_version == self.command_version,
            r.capability@ == self.capability@,
    {
        CommandBinding {
            command: self.command.clone(),
            command_version: self.command_version,
            capability: self.capability.clone(),
        }
    }
}

/// The access an adapter asks for.
pub struct RequestedPermissions {
    pub project_read: Vec<String>,
    pub project_write: Vec<String>,
    pub network: bool,
    pub credentials: Vec<String>,
    pub subprocess: bool,
    pub external_apps: Vec<String>,
}

impl Default for RequestedPermissions {
    /// Asks for nothing.
    fn default() -> (r: Self)
        ensures
            r.project_read@.len() == 0,
            r.project_write@.len() == 0,
            !r.network,
            r.credentials@.len() == 0,
            !r.subprocess,
            r.external_apps@.len() == 0,
    {
        RequestedPermissions {
            project_read: Vec::new(),
            project_write: Vec::new(),
            network: false,
            credentials: Vec::new(),
            subprocess: false,
            external_apps: Vec::new(),
        }
    }
}

pub struct TargetRequirement {
    pub tool: String,
    pub version: String,
}

pub struct ComponentMetadata {
    pub id: String,
    pub kind: String,
    pub version: String,
    pub sha256: String,
    pub source: String,
}

pub struct DependencyMetadata {
    pub name: String,
    pub version: String,
    pub license: String,
}

pub struct UpdateMetadata {
    pub channel: String,
    pub source: String,
}

pub struct TrustMetadata {
    pub build_provenance: String,
    pub review_status: String,
}

/// What the broker grants adapters, and its runtime limits.
pub struct BrokerPolicy {
    pub allowed_project_read: StrSet,
    pub allowed_project_write: StrSet,
    pub allow_network: bool,
    pub allowed_credentials: StrSet,
    pub allow_subprocess: bool,
    pub allowed_external_apps: StrSet,
    pub target_tool: String,
    pub target_version: String,
    pub max_process_memory_bytes: usize,
    pub request_timeout_ms: u64,
    pub max_failures_before_quarantine: u32,
    pub backoff_ms: u64,
}

impl BrokerPolicy {
    /// The policy for the synthetic test tool: nothing granted, 32 MiB of
    /// memory, a 400 ms timeout, quarantine after two failures and a 75 ms
    /// backoff.
    pub fn synthetic_default() -> (r: Self)
        ensures
            r.allowed_project_read.set() == Set::<Seq<char>>::empty(),
            r.allowed_project_write.set() == Set::<Seq<char>>::empty(),
            !r.allow_network,
            r.allowed_credentials.set() == Set::<Seq<char>>::empty(),
            !r.allow_subprocess,
            r.allowed_external_apps.set() == Set::<Seq<char>>::empty(),
            r.target_tool@ == "synthetic"@,
            r.target_version@ == "1.0.0"@,
            r.max_process_memory_bytes == 32 * 1024 * 1024,
            r.request_timeout_ms == 400,
            r.max_failures_before_quarantine == 2,
            r.backoff_ms == 75,
    {
        BrokerPolicy {
            allowed_project_read: StrSet::new(),
            allowed_project_write: StrSet::new(),
            allow_network: false,
            allowed_credentials: StrSet::new(),
            allow_subprocess: false,
            allowed_external_apps: StrSet::new(),
            target_tool: String::from_str("synthetic"),
            target_version: String::from_str("1.0.0"),
            max_process_memory_bytes: 32 * 1024 * 1024,
            request_timeout_ms: 400,
            max_failures_before_quarantine: 2,
            backoff_ms: 75,
        }
    }
}

/// The SHA-256 digest of a byte string.
pub uninterp spec fn sha256_digest(data: Seq<u8>) -> Seq<u8>;

/// `sha2::Sha256::digest`: its result is the SHA-256 digest of `data`, whose
/// output type holds 32 bytes.
#[verifier::external_body]
pub(crate) fn sha256(data: &[u8]) -> (r: Vec<u8>)
    ensures
        r@ == sha256_digest(data@),
        r@.len() == 32,
{
    sha2::Sha256::digest(data).to_vec()
}

pub proof fn lemma_hex_lower_len(bytes: Seq<u8>)
    ensures
        hex_lower(bytes).len() == 2 * bytes.len(),
    decreases bytes.len(),
{
    if bytes.len() > 0 {
        lemma_hex_lower_len(bytes.drop_last());
    }
}

/// The lower-case hexadecimal SHA-256 digest of `data` (64 characters).
pub fn sha256_hex(data: &[u8]) -> (r: String)
    ensures
        r@ == hex_lower(sha256_digest(data@)),
        r@.len() == 64,
{
    let digest = sha256(data);
    proof {
        lemma_hex_lower_len(digest@);
    }
    to_hex_lower(digest.as_slice())
}

/// An ASCII hexadecimal digit, of either case.
pub open spec fn is_ascii_hex(c: char) -> bool {
    let v = c as u32;
    (48 <= v <= 57) || (97 <= v <= 102) || (65 <= v <= 70)
}

/// Exactly 64 hexadecimal digits.
pub open spec fn is_hex_digest_text(s: Seq<char>) -> bool {
    s.len() == 64 && forall|i: int| 0 <= i < s.len() ==> is_ascii_hex(#[trigger] s[i])
}

pub(crate) fn is_hex_digest(value: &str) -> (r: bool)
    ensures
        r == is_hex_digest_text(value@),
{
    let n = value.unicode_len();
    if n != 64 {
        return false;
    }
    let mut i: usize = 0;
    while i < n
        invariant
            n == value@.len(),
            i <= n,
            forall|k: int| 0 <= k < i ==> is_ascii_hex(#[trigger] value@[k]),
        decreases n - i,
    {
        let v = value.get_char(i) as u32;
        if !((48 <= v && v <= 57) || (97 <= v && v <= 102) || (65 <= v && v <= 70)) {
            return false;
        }
        i = i + 1;
    }
    true
}

/// The code of a character after ASCII lower-casing.
pub open spec fn ascii_lower_code(c: char) -> u32 {
    let v = c as u32;
    if 65 <= v <= 90 {
        (v + 32) as u32
    } else {
        v
    }
}

/// Equality up to ASCII case, as `str::eq_ignore_ascii_case`.
pub open spec fn eq_ignoring_ascii_case(a: Seq<char>, b: Seq<char>) -> bool {
    a.len() == b.len() && forall|i: int|
        0 <= i < a.len() ==> ascii_lower_code(#[trigger] a[i]) == ascii_lower_code(b[i])
}

fn lower_code(c: char) -> (r: u32)
    ensures
        r == ascii_lower_code(c),
{
    let v = c as u32;
    if 65 <= v && v <= 90 {
        v + 32
    } else {
        v
    }
}

fn eq_ignore_ascii_case(a: &str, b: &str) -> (r: bool)
    ensures
        r == eq_ignoring_ascii_case(a@, b@),
{
    let n = a.unicode_len();
    if n != b.unicode_len() {
        return false;
    }
    let mut i: usize = 0;
    while i < n
        invariant
            n == a@.len(),
            n == b@.len(),
            i <= n,
            forall|k: int| 0 <= k < i ==> ascii_lower_code(#[trigger] a@[k]) == ascii_lower_code(b@[k]),
        decreases n - i,
    {
        if lower_code(a.get_char(i)) != lower_code(b.get_char(i)) {
            return false;
        }
        i = i + 1;
    }
    true
}

/// Whether an adapter's protocol range overlaps the broker's.
pub open spec fn protocol_overlaps(min: u32, max: u32) -> bool {
    min <= max && max >= ADAPTER_PROTOCOL_MIN && min <= ADAPTER_PROTOCOL_MAX
}

fn protocol_intersects(min: u32, max: u32) -> (r: bool)
    ensures
        r == protocol_overlaps(min, max),
{
    min <= max && max >= ADAPTER_PROTOCOL_MIN && min <= ADAPTER_PROTOCOL_MAX
}

fn text(s: &str) -> (r: String)
    ensures
        r@ == s@,
{
    String::from_str(s)
}

/// The first of the first `n` items that `allowed` does not hold.
pub open spec fn first_ungranted(items: Seq<String>, allowed: Set<Seq<char>>, n: int) -> Option<
    Seq<char>,
>
    decreases n,
{
    if n <= 0 {
        None
    } else {
        match first_ungranted(items, allowed, n - 1) {
            Some(s) => Some(s),
            None => if allowed.contains(items[n - 1]@) {
                None
            } else {
                Some(items[n - 1]@)
            },
        }
    }
}

/// The first item that `allowed` does not hold.
pub open spec fn ungranted(items: Seq<String>, allowed: Set<Seq<char>>) -> Option<Seq<char>> {
    first_ungranted(items, allowed, items.len() as int)
}

proof fn lemma_first_ungranted_stable(items: Seq<String>, allowed: Set<Seq<char>>, n: int, m: int)
    requires
        0 <= n <= m,
        first_ungranted(items, allowed, n) is Some,
    ensures
        first_ungranted(items, allowed, m) == first_ungranted(items, allowed, n),
    decreases m - n,
{
    if m > n {
        lemma_first_ungranted_stable(items, allowed, n, m - 1);
    }
}

/// Why the requested permissions exceed the policy, in the order they are
/// checked; `None` when the policy grants them all.
pub open spec fn permission_error(req: RequestedPermissions, policy: BrokerPolicy) -> Option<
    Seq<char>,
> {
    if req.network && !policy.allow_network {
        Some("manifest requests network access not granted by policy"@)
    } else if req.subprocess && !policy.allow_subprocess {
        Some("manifest requests subprocess access not granted by policy"@)
    } else if ungranted(req.project_read@, policy.allowed_project_read.set()) is Some {
        Some(
            "ungranted project-read scope "@ + ungranted(
                req.project_read@,
                policy.allowed_project_read.set(),
            )->0,
        )
    } else if ungranted(req.project_write@, policy.allowed_project_write.set()) is Some {
        Some(
            "ungranted project-write scope "@ + ungranted(
                req.project_write@,
                policy.allowed_project_write.set(),
            )->0,
        )
    } else if ungranted(req.credentials@, policy.allowed_credentials.set()) is Some {
        Some(
            "ungranted credential handle "@ + ungranted(
                req.credentials@,
                policy.allowed_credentials.set(),
            )->0,
        )
    } else if ungranted(req.external_apps@, policy.allowed_external_apps.set()) is Some {
        Some(
            "ungranted external app "@ + ungranted(
                req.external_apps@,
                policy.allowed_external_apps.set(),
            )->0,
        )
    } else {
        None
    }
}

fn find_ungranted(items: &Vec<String>, allowed: &StrSet) -> (r: Option<usize>)
    ensures
        r is None <==> ungranted(items@, allowed.set()) is None,
        r matches Some(i) ==> i < items@.len() && ungranted(items@, allowed.set()) == Some(
            items@[i as int]@,
        ),
{
    let mut i: usize = 0;
    while i < items.len()
        invariant
            i <= items@.len(),
            first_ungranted(items@, allowed.set(), i as int) is None,
        decreases items@.len() - i,
    {
        if !allowed.contains(items[i].as_str()) {
            proof {
                lemma_first_ungranted_stable(
                    items@,
                    allowed.set(),
                    i + 1,
                    items@.len() as int,
                );
            }
            return Some(i);
        }
        i = i + 1;
    }
    None
}

fn validate_requested_permissions(requested: &RequestedPermissions, policy: &BrokerPolicy) -> (r:
    Result<(), AdapterError>)
    ensures
        r is Ok <==> permission_error(*requested, *policy) is None,
        r matches Err(e) ==> e.code@ == "ADAPTER_PERMISSION_DENIED"@ && Some(e.message@)
            == permission_error(*requested, *policy),
{
    if requested.network && !policy.allow_network {
        return Err(
            AdapterError::new(
                "ADAPTER_PERMISSION_DENIED",
                text("manifest requests network access not granted by policy"),
            ),
        );
    }
    if requested.subprocess && !policy.allow_subprocess {
        return Err(
            AdapterError::new(
                "ADAPTER_PERMISSION_DENIED",
                text("manifest requests subprocess access not granted by policy"),
            ),
        );
    }
    if let Some(i) = find_ungranted(&requested.project_read, &policy.allowed_project_read) {
        let message = text("ungranted project-read scope ").concat(requested.project_read[i].as_str());
        return Err(AdapterError::new("ADAPTER_PERMISSION_DENIED", message));
    }
    if let Some(i) = find_ungranted(&requested.project_write, &policy.allowed_project_write) {
        let message = text("ungranted project-write scope ").concat(
            requested.project_write[i].as_str(),
        );
        return Err(AdapterError::new("ADAPTER_PERMISSION_DENIED", message));
    }
    if let Some(i) = find_ungranted(&requested.credentials, &policy.allowed_credentials) {
        let message = text("ungranted credential handle ").concat(requested.credentials[i].as_str());
        return Err(AdapterError::new("ADAPTER_PERMISSION_DENIED", message));
    }
    if let Some(i) = find_ungranted(&requested.external_apps, &policy.allowed_external_apps) {
        let message = text("ungranted external app ").concat(requested.external_apps[i].as_str());
        return Err(AdapterError::new("ADAPTER_PERMISSION_DENIED", message));
    }
    Ok(())
}

/// Whether one of the first `n` bindings uses capability `cap`.
pub open spec fn capability_taken(bindings: Seq<CommandBinding>, n: int, cap: Seq<char>) -> bool {
    exists|j: int| 0 <= j < n && (#[trigger] bindings[j]).capability@ == cap
}

/// Whether the registry holds exactly the bound command version.
pub open spec fn binding_resolvable(registry: CommandRegistry, b: CommandBinding) -> bool {
    &&& latest_match(registry.commands@, b.command@, registry.commands@.len() as int) >= 0
    &&& first_match(
        registry.commands@,
        b.command@,
        b.command_version,
        registry.commands@.len() as int,
    ) >= 0
}

/// `command@version`.
pub open spec fn binding_label(b: CommandBinding) -> Seq<char> {
    b.command@ + "@"@ + decimal(b.command_version as nat)
}

/// What is wrong with binding `k`, given the bindings before it.
pub open spec fn one_binding_error(
    registry: CommandRegistry,
    bindings: Seq<CommandBinding>,
    k: int,
) -> Option<(Seq<char>, Seq<char>)> {
    let b = bindings[k];
    if is_blank(b.capability@) || capability_taken(bindings, k, b.capability@) {
        Some(("ADAPTER_MANIFEST_INVALID"@, "capability IDs must be non-empty and unique"@))
    } else if !binding_resolvable(registry, b) {
        Some(("ADAPTER_COMMAND_INCOMPATIBLE"@, "unknown or incompatible command "@ + binding_label(b)))
    } else if !surface_exposed(registry, b.command@, "adapter"@) {
        Some(("ADAPTER_COMMAND_INCOMPATIBLE"@, binding_label(b) + " is not exposed to adapters"@))
    } else {
        None
    }
}

/// The first error among the first `n` bindings.
pub open spec fn bindings_error_upto(
    registry: CommandRegistry,
    bindings: Seq<CommandBinding>,
    n: int,
) -> Option<(Seq<char>, Seq<char>)>
    decreases n,
{
    if n <= 0 {
        None
    } else {
        match bindings_error_upto(registry, bindings, n - 1) {
            Some(e) => Some(e),
            None => one_binding_error(registry, bindings, n - 1),
        }
    }
}

/// Why a binding list is refused: it is empty, or the first bad binding.
pub open spec fn bindings_error(registry: CommandRegistry, bindings: Seq<CommandBinding>) -> Option<
    (Seq<char>, Seq<char>),
> {
    if bindings.len() == 0 {
        Some(
            (
                "ADAPTER_MANIFEST_INVALID"@,
                "adapter must declare at least one command binding"@,
            ),
        )
    } else {
        bindings_error_upto(registry, bindings, bindings.len() as int)
    }
}

proof fn lemma_bindings_error_stable(
    registry: CommandRegistry,
    bindings: Seq<CommandBinding>,
    n: int,
    m: int,
)
    requires
        0 <= n <= m,
        bindings_error_upto(registry, bindings, n) is Some,
    ensures
        bindings_error_upto(registry, bindings, m) == bindings_error_upto(registry, bindings, n),
    decreases m - n,
{
    if m > n {
        lemma_bindings_error_stable(registry, bindings, n, m - 1);
    }
}

fn binding_label_text(b: &CommandBinding) -> (r: String)
    ensures
        r@ == binding_label(*b),
{
    let version = u64_to_decimal(b.command_version as u64);
    b.command.clone().concat("@").concat(version.as_str())
}

fn validate_bindings(registry: &CommandRegistry, bindings: &[CommandBinding]) -> (r: Result<
    (),
    AdapterError,
>)
    ensures
        r is Ok <==> bindings_error(*registry, bindings@) is None,
        r matches Err(e) ==> bindings_error(*registry, bindings@) == Some((e.code@, e.message@)),
{
    if bindings.len() == 0 {
        return Err(
            AdapterError::new(
                "ADAPTER_MANIFEST_INVALID",
                text("adapter must declare at least one command binding"),
            ),
        );
    }
    let mut capabilities = StrSet::new();
    let mut i: usize = 0;
    while i < bindings.len()
        invariant
            i <= bindings@.len(),
            bindings@.len() > 0,
            bindings_error_upto(*registry, bindings@, i as int) is None,
            forall|c: Seq<char>|
                capabilities.set().contains(c) <==> capability_taken(bindings@, i as int, c),
        decreases bindings@.len() - i,
    {
        let binding = &bindings[i];
        let ghost k = i as int;
        let blank = str_is_blank(binding.capability.as_str());
        let fresh = if blank {
            false
        } else {
            capabilities.insert(binding.capability.clone())
        };
        if blank || !fresh {
            proof {
                assert(one_binding_error(*registry, bindings@, k) is Some);
                lemma_bindings_error_stable(*registry, bindings@, k + 1, bindings@.len() as int);
            }
            return Err(
                AdapterError::new(
                    "ADAPTER_MANIFEST_INVALID",
                    text("capability IDs must be non-empty and unique"),
                ),
            );
        }
        match resolve_command(registry, binding.command.as_str(), Some(binding.command_version)) {
            Ok(_) => {
                if !is_surface_exposed(registry, binding.command.as_str(), "adapter") {
                    proof {
                        reveal_strlit("adapter");
                        lemma_bindings_error_stable(*registry, bindings@, k + 1, bindings@.len() as int);
                    }
                    let message = binding_label_text(binding).concat(" is not exposed to adapters");
                    return Err(AdapterError::new("ADAPTER_COMMAND_INCOMPATIBLE", message));
                }
                proof {
                    reveal_strlit("adapter");
                }
            },
            Err(_) => {
                proof {
                    lemma_bindings_error_stable(*registry, bindings@, k + 1, bindings@.len() as int);
                }
                let label = binding_label_text(binding);
                let message = text("unknown or incompatible command ").concat(label.as_str());
                return Err(AdapterError::new("ADAPTER_COMMAND_INCOMPATIBLE", message));
            },
        }
        proof {
            assert forall|c: Seq<char>|
                capabilities.set().contains(c) <==> capability_taken(bindings@, k + 1, c) by {
                if c == bindings@[k].capability@ {
                    assert(capability_taken(bindings@, k + 1, c));
                }
                if capability_taken(bindings@, k + 1, c) && c != bindings@[k].capability@ {
                    let j = choose|j: int| 0 <= j < k + 1 && (#[trigger] bindings@[j]).capability@ == c;
                    assert(capability_taken(bindings@, k, c));
                }
            }
        }
        i = i + 1;
    }
    Ok(())
}

/// Whether one of the first `n` components has id `id`.
pub open spec fn component_id_taken(components: Seq<ComponentMetadata>, n: int, id: Seq<char>) -> bool {
    exists|j: int| 0 <= j < n && (#[trigger] components[j]).id@ == id
}

/// Whether component `k` lacks an identity, kind, version, source or digest,
/// or repeats the id of an earlier component.
pub open spec fn component_invalid(components: Seq<ComponentMetadata>, k: int) -> bool {
    let c = components[k];
    is_blank(c.id@) || component_id_taken(components, k, c.id@) || is_blank(c.kind@) || is_blank(
        c.version@,
    ) || is_blank(c.source@) || !is_hex_digest_text(c.sha256@)
}

/// Whether a `worker` component carries the launched artifact's digest.
pub open spec fn worker_component_matches(components: Seq<ComponentMetadata>, actual: Seq<char>) -> bool {
    exists|k: int|
        0 <= k < components.len() && (#[trigger] components[k]).kind@ == "worker"@
            && eq_ignoring_ascii_case(components[k].sha256@, actual)
}

/// Why a component inventory is refused.
pub open spec fn components_error(components: Seq<ComponentMetadata>, actual: Seq<char>) -> Option<
    (Seq<char>, Seq<char>),
> {
    if components.len() == 0 {
        Some(
            (
                "ADAPTER_MANIFEST_INVALID"@,
                "adapter must inventory at least the worker component"@,
            ),
        )
    } else if exists|k: int| 0 <= k < components.len() && #[trigger] component_invalid(components, k) {
        Some(
            (
                "ADAPTER_MANIFEST_INVALID"@,
                "component identity, kind, version, source, and digest must be valid"@,
            ),
        )
    } else if !worker_component_matches(components, actual) {
        Some(
            (
                "ADAPTER_INTEGRITY_MISMATCH"@,
                "worker component digest does not match launched artifact"@,
            ),
        )
    } else {
        None
    }
}

fn validate_components(components: &[ComponentMetadata], actual_worker_sha256: &str) -> (r: Result<
    (),
    AdapterError,
>)
    ensures
        r is Ok <==> components_error(components@, actual_worker_sha256@) is None,
        r matches Err(e) ==> components_error(components@, actual_worker_sha256@) == Some(
            (e.code@, e.message@),
        ),
{
    if components.len() == 0 {
        return Err(
            AdapterError::new(
                "ADAPTER_MANIFEST_INVALID",
                text("adapter must inventory at least the worker component"),
            ),
        );
    }
    let mut worker_match = false;
    let mut ids = StrSet::new();
    let mut i: usize = 0;
    while i < components.len()
        invariant
            i <= components@.len(),
            components@.len() > 0,
            forall|k: int| 0 <= k < i ==> !#[trigger] component_invalid(components@, k),
            forall|c: Seq<char>|
                ids.set().contains(c) <==> component_id_taken(components@, i as int, c),
            worker_match <==> exists|k: int|
                0 <= k < i && (#[trigger] components@[k]).kind@ == "worker"@ && eq_ignoring_ascii_case(
                    components@[k].sha256@,
                    actual_worker_sha256@,
                ),
        decreases components@.len() - i,
    {
        let c = &components[i];
        let ghost k = i as int;
        let id_blank = str_is_blank(c.id.as_str());
        let fresh = if id_blank {
            false
        } else {
            ids.insert(c.id.clone())
        };
        if id_blank || !fresh || str_is_blank(c.kind.as_str()) || str_is_blank(c.version.as_str())
            || str_is_blank(c.source.as_str()) || !is_hex_digest(c.sha256.as_str()) {
            proof {
                assert(component_invalid(components@, k));
            }
            return Err(
                AdapterError::new(
                    "ADAPTER_MANIFEST_INVALID",
                    text("component identity, kind, version, source, and digest must be valid"),
                ),
            );
        }
        if str_eq(c.kind.as_str(), "worker") && eq_ignore_ascii_case(
            c.sha256.as_str(),
            actual_worker_sha256,
        ) {
            worker_match = true;
        }
        proof {
            reveal_strlit("worker");
            assert forall|x: Seq<char>|
                ids.set().contains(x) <==> component_id_taken(components@, k + 1, x) by {
                if x == components@[k].id@ {
                    assert(component_id_taken(components@, k + 1, x));
                }
                if component_id_taken(components@, k + 1, x) && x != components@[k].id@ {
                    let j = choose|j: int| 0 <= j < k + 1 && (#[trigger] components@[j]).id@ == x;
                    assert(component_id_taken(components@, k, x));
                }
            }
            assert(!component_invalid(components@, k));
        }
        i = i + 1;
    }
    if !worker_match {
        return Err(
            AdapterError::new(
                "ADAPTER_INTEGRITY_MISMATCH",
                text("worker component digest does not match launched artifact"),
            ),
        );
    }
    Ok(())
}

/// Whether any identity, publisher, provenance or review field is blank.
pub open spec fn identity_incomplete(m: AdapterManifest) -> bool {
    is_blank(m.adapter.id@) || is_blank(m.adapter.version@) || is_blank(m.adapter.display_name@)
        || is_blank(m.publisher.id@) || is_blank(m.publisher.source@) || is_blank(
        m.trust.build_provenance@,
    ) || is_blank(m.trust.review_status@)
}

/// Why a manifest is refused, in the order the checks run; the worker
/// artifact is either its bytes or the text of the error that reading it
/// gave. `None` when the manifest is accepted.
pub open spec fn manifest_error(
    m: AdapterManifest,
    policy: BrokerPolicy,
    registry: CommandRegistry,
    worker: Result<Seq<u8>, Seq<char>>,
) -> Option<(Seq<char>, Seq<char>)> {
    if m.manifest_format != ADAPTER_MANIFEST_FORMAT {
        Some(
            (
                "ADAPTER_MANIFEST_INCOMPATIBLE"@,
                "unsupported manifest format "@ + decimal(m.manifest_format as nat),
            ),
        )
    } else if identity_incomplete(m) {
        Some(
            (
                "ADAPTER_MANIFEST_INVALID"@,
                "adapter identity, publisher, provenance, and review fields are required"@,
            ),
        )
    } else if !protocol_overlaps(m.relay.protocol_min, m.relay.protocol_max) {
        Some(
            (
                "ADAPTER_PROTOCOL_INCOMPATIBLE"@,
                "adapter protocol range does not overlap RELAY adapter protocol"@,
            ),
        )
    } else if m.target.tool@ != policy.target_tool@ || m.target.version@ != policy.target_version@ {
        Some(
            (
                "ADAPTER_TARGET_INCOMPATIBLE"@,
                "adapter target "@ + m.target.tool@ + "@"@ + m.target.version@
                    + " does not match available "@ + policy.target_tool@ + "@"@
                    + policy.target_version@,
            ),
        )
    } else if permission_error(m.permissions, policy) is Some {
        Some(("ADAPTER_PERMISSION_DENIED"@, permission_error(m.permissions, policy)->0))
    } else if bindings_error(registry, m.relay.command_bindings@) is Some {
        bindings_error(registry, m.relay.command_bindings@)
    } else {
        match worker {
            Err(e) => Some(("ADAPTER_ARTIFACT_UNREADABLE"@, "read worker artifact: "@ + e)),
            Ok(bytes) => {
                let actual = hex_lower(sha256_digest(bytes));
                if !is_hex_digest_text(m.artifact.sha256@) || !eq_ignoring_ascii_case(
                    m.artifact.sha256@,
                    actual,
                ) {
                    Some(
                        (
                            "ADAPTER_INTEGRITY_MISMATCH"@,
                            "worker executable digest does not match manifest"@,
                        ),
                    )
                } else if components_error(m.components@, actual) is Some {
                    components_error(m.components@, actual)
                } else if is_blank(m.artifact.source@) || is_blank(m.update.channel@) || is_blank(
                    m.update.source@,
                ) {
                    Some(("ADAPTER_MANIFEST_INVALID"@, "artifact/update source metadata is required"@))
                } else {
                    None
                }
            },
        }
    }
}

/// The character view of the worker artifact as read.
pub open spec fn artifact_view(worker: Result<Vec<u8>, String>) -> Result<Seq<u8>, Seq<char>> {
    match worker {
        Ok(bytes) => Ok(bytes@),
        Err(e) => Err(e@),
    }
}

/// Validates a manifest against the broker policy, the registry and the
/// worker artifact (its bytes, or the error that reading it gave).
pub fn validate_manifest(
    manifest: &AdapterManifest,
    policy: &BrokerPolicy,
    registry: &CommandRegistry,
    worker: &Result<Vec<u8>, String>,
) -> (r: Result<(), AdapterError>)
    ensures
        r is Ok <==> manifest_error(*manifest, *policy, *registry, artifact_view(*worker)) is None,
        r matches Err(e) ==> manifest_error(*manifest, *policy, *registry, artifact_view(*worker))
            == Some((e.code@, e.message@)),
{
    if manifest.manifest_format != ADAPTER_MANIFEST_FORMAT {
        let shown = u64_to_decimal(manifest.manifest_format as u64);
        let message = text("unsupported manifest format ").concat(shown.as_str());
        return Err(AdapterError::new("ADAPTER_MANIFEST_INCOMPATIBLE", message));
    }
    if str_is_blank(manifest.adapter.id.as_str()) || str_is_blank(manifest.adapter.version.as_str())
        || str_is_blank(manifest.adapter.display_name.as_str()) || str_is_blank(
        manifest.publisher.id.as_str(),
    ) || str_is_blank(manifest.publisher.source.as_str()) || str_is_blank(
        manifest.trust.build_provenance.as_str(),
    ) || str_is_blank(manifest.trust.review_status.as_str()) {
        return Err(
            AdapterError::new(
                "ADAPTER_MANIFEST_INVALID",
                text("adapter identity, publisher, provenance, and review fields are required"),
            ),
        );
    }
    if !protocol_intersects(manifest.relay.protocol_min, manifest.relay.protocol_max) {
        return Err(
            AdapterError::new(
                "ADAPTER_PROTOCOL_INCOMPATIBLE",
                text("adapter protocol range does not overlap RELAY adapter protocol"),
            ),
        );
    }
    if !str_eq(manifest.target.tool.as_str(), policy.target_tool.as_str()) || !str_eq(
        manifest.target.version.as_str(),
        policy.target_version.as_str(),
    ) {
        let message = text("adapter target ").concat(manifest.target.tool.as_str()).concat(
            "@",
        ).concat(manifest.target.version.as_str()).concat(" does not match available ").concat(
            policy.target_tool.as_str(),
        ).concat("@").concat(policy.target_version.as_str());
        return Err(AdapterError::new("ADAPTER_TARGET_INCOMPATIBLE", message));
    }
    validate_requested_permissions(&manifest.permissions, policy)?;
    validate_bindings(registry, manifest.relay.command_bindings.as_slice())?;
    let actual = match worker {
        Err(e) => {
            let message = text("read worker artifact: ").concat(e.as_str());
            return Err(AdapterError::new("ADAPTER_ARTIFACT_UNREADABLE", message));
        },
        Ok(bytes) => sha256_hex(bytes.as_slice()),
    };
    if !is_hex_digest(manifest.artifact.sha256.as_str()) || !eq_ignore_ascii_case(
        manifest.artifact.sha256.as_str(),
        actual.as_str(),
    ) {
        return Err(
            AdapterError::new(
                "ADAPTER_INTEGRITY_MISMATCH",
                text("worker executable digest does not match manifest"),
            ),
        );
    }
    validate_components(manifest.components.as_slice(), actual.as_str())?;
    if str_is_blank(manifest.artifact.source.as_str()) || str_is_blank(
        manifest.update.channel.as_str(),
    ) || str_is_blank(manifest.update.source.as_str()) {
        return Err(
            AdapterError::new(
                "ADAPTER_MANIFEST_INVALID",
                text("artifact/update source metadata is required"),
            ),
        );
    }
    Ok(())
}

} // verus!
