//! Execution authority: permission, effect, project-scope and credential-handle
//! checks, and the egress filter that decides whether project data may leave the
//! machine.
use vstd::prelude::*;
use vstd::string::StringExecFns;
use crate::collections::{StrMap, StrSet};
use crate::text::{decimal, u64_to_decimal};

verus! {

/// Sensitivity of a piece of data, from least to most sensitive.
#[derive(Debug, Clone, Copy, PartialEq, Eq, Structural, PartialOrd, Ord, Hash)]
pub enum DataClass {
    Public,
    Project,
    Sensitive,
    Credential,
}

/// Position of a class in the sensitivity order.
pub open spec fn class_rank(c: DataClass) -> nat {
    match c {
        DataClass::Public => 0,
        DataClass::Project => 1,
        DataClass::Sensitive => 2,
        DataClass::Credential => 3,
    }
}

/// The most sensitive class among `values`, `Public` when there is none.
pub open spec fn strongest_of(values: Seq<DataClass>) -> DataClass
    decreases values.len(),
{
    if values.len() == 0 {
        DataClass::Public
    } else {
        let rest = strongest_of(values.drop_last());
        if class_rank(values.last()) >= class_rank(rest) {
            values.last()
        } else {
            rest
        }
    }
}

/// The name that `{:?}` prints for a class.
pub open spec fn class_debug_name(c: DataClass) -> Seq<char> {
    match c {
        DataClass::Public => "Public"@,
        DataClass::Project => "Project"@,
        DataClass::Sensitive => "Sensitive"@,
        DataClass::Credential => "Credential"@,
    }
}

fn rank_of(c: DataClass) -> (r: u8)
    ensures
        r as nat == class_rank(c),
{
    match c {
        DataClass::Public => 0,
        DataClass::Project => 1,
        DataClass::Sensitive => 2,
        DataClass::Credential => 3,
    }
}

fn debug_name(c: DataClass) -> (r: String)
    ensures
        r@ == class_debug_name(c),
{
    match c {
        DataClass::Public => String::from_str("Public"),
        DataClass::Project => String::from_str("Project"),
        DataClass::Sensitive => String::from_str("Sensitive"),
        DataClass::Credential => String::from_str("Credential"),
    }
}

impl DataClass {
    /// The most sensitive of the given classes (`Public` for none).
    pub fn strongest(values: &[DataClass]) -> (r: DataClass)
        ensures
            r == strongest_of(values@),
    {
        let mut best = DataClass::Public;
        let mut i: usize = 0;
        while i < values.len()
            invariant
                i <= values@.len(),
                best == strongest_of(values@.subrange(0, i as int)),
            decreases values@.len() - i,
        {
            let v = values[i];
            proof {
                assert(values@.subrange(0, i + 1).drop_last() =~= values@.subrange(0, i as int));
            }
            if rank_of(v) >= rank_of(best) {
                best = v;
            }
            i = i + 1;
        }
        assert(values@.subrange(0, values@.len() as int) =~= values@);
        best
    }
}

/// The strongest class is at least as sensitive as every input class, and is
/// one of them whenever there is one.
pub proof fn lemma_strongest_is_maximum(values: Seq<DataClass>)
    ensures
        forall|i: int| 0 <= i < values.len() ==> class_rank(#[trigger] values[i]) <= class_rank(
            strongest_of(values),
        ),
        values.len() > 0 ==> values.contains(strongest_of(values)),
        values.len() == 0 ==> strongest_of(values) == DataClass::Public,
    decreases values.len(),
{
    if values.len() > 0 {
        lemma_strongest_is_maximum(values.drop_last());
        assert forall|i: int| 0 <= i < values.len() implies class_rank(#[trigger] values[i])
            <= class_rank(strongest_of(values)) by {
            if i < values.len() - 1 {
                assert(values.drop_last()[i] == values[i]);
            }
        }
        if values.drop_last().len() > 0 {
            let k = choose|k: int| 0 <= k < values.drop_last().len() && values.drop_last()[k]
                == strongest_of(values.drop_last());
            assert(values[k] == values.drop_last()[k]);
        }
        assert(values[values.len() - 1] == values.last());
    }
}

/// A set of data classes.
#[derive(Debug, Clone)]
pub struct DataClassSet {
    pub members: Vec<DataClass>,
}

impl DataClassSet {
    pub open spec fn set(self) -> Set<DataClass> {
        self.members@.to_set()
    }

    pub fn from_slice(values: &[DataClass]) -> (r: Self)
        ensures
            r.set() == values@.to_set(),
    {
        let mut members = Vec::new();
        let mut i: usize = 0;
        while i < values.len()
            invariant
                i <= values@.len(),
                members@ == values@.subrange(0, i as int),
            decreases values@.len() - i,
        {
            members.push(values[i]);
            i = i + 1;
        }
        assert(values@.subrange(0, values@.len() as int) =~= values@);
        DataClassSet { members }
    }

    pub fn contains(&self, c: DataClass) -> (r: bool)
        ensures
            r == self.set().contains(c),
    {
        let mut i: usize = 0;
        while i < self.members.len()
            invariant
                i <= self.members@.len(),
                forall|k: int| 0 <= k < i ==> self.members@[k] != c,
            decreases self.members@.len() - i,
        {
            if self.members[i] == c {
                assert(self.members@[i as int] == c);
                return true;
            }
            i = i + 1;
        }
        false
    }
}

/// An opaque reference to a credential held outside the payload.
pub struct CredentialHandle {
    pub id: String,
    pub integration: String,
    pub scopes: StrSet,
    pub status: String,
}

impl CredentialHandle {
    /// An active handle with the given scopes.
    pub fn active(id: String, integration: String, scopes: Vec<String>) -> (r: Self)
        ensures
            r.id@ == id@,
            r.integration@ == integration@,
            r.scopes.set() == crate::collections::views(scopes@).to_set(),
            r.status@ == "active"@,
    {
        CredentialHandle {
            id,
            integration,
            scopes: StrSet::from_vec(scopes),
            status: String::from_str("active"),
        }
    }

    pub fn is_active(&self) -> (r: bool)
        ensures
            r == (self.status@ == "active"@),
    {
        let active = String::from_str("active");
        self.status == active
    }
}

/// Where project data may be sent, and under which limits.
pub struct DestinationPolicy {
    pub remote: bool,
    pub allowed_classes: DataClassSet,
    pub allowed_modalities: StrSet,
    pub allowed_projects: Option<StrSet>,
    pub max_bytes: Option<u64>,
}

impl DestinationPolicy {
    /// The on-machine destination: every class but credentials, any modality,
    /// any project, no byte budget.
    pub fn local() -> (r: Self)
        ensures
            !r.remote,
            r.allowed_classes.set() == set![
                DataClass::Public,
                DataClass::Project,
                DataClass::Sensitive,
            ],
            r.allowed_modalities.set() == Set::<Seq<char>>::empty(),
            r.allowed_projects is None,
            r.max_bytes is None,
    {
        let classes = DataClassSet::from_slice(
            &[DataClass::Public, DataClass::Project, DataClass::Sensitive],
        );
        proof {
            let s = seq![DataClass::Public, DataClass::Project, DataClass::Sensitive];
            assert(s[0] == DataClass::Public && s[1] == DataClass::Project && s[2]
                == DataClass::Sensitive);
            assert(s.to_set() =~= set![
                DataClass::Public,
                DataClass::Project,
                DataClass::Sensitive,
            ]);
        }
        DestinationPolicy {
            remote: false,
            allowed_classes: classes,
            allowed_modalities: StrSet::new(),
            allowed_projects: None,
            max_bytes: None,
        }
    }
}

/// The egress configuration of an execution.
pub struct EgressPolicy {
    pub local_only: bool,
    pub destinations: StrMap<DestinationPolicy>,
}

/// The default egress policy: local-only, with the single destination `local`.
pub open spec fn is_default_egress(p: EgressPolicy) -> bool {
    &&& p.local_only
    &&& p.destinations.map().dom() == set!["local"@]
    &&& !p.destinations.map()["local"@].remote
    &&& p.destinations.map()["local"@].allowed_classes.set() == set![
        DataClass::Public,
        DataClass::Project,
        DataClass::Sensitive,
    ]
    &&& p.destinations.map()["local"@].allowed_modalities.set() == Set::<Seq<char>>::empty()
    &&& p.destinations.map()["local"@].allowed_projects is None
    &&& p.destinations.map()["local"@].max_bytes is None
}

impl Default for EgressPolicy {
    fn default() -> (r: Self)
        ensures
            is_default_egress(r),
    {
        let mut destinations = StrMap::new();
        destinations.insert(String::from_str("local"), DestinationPolicy::local());
        proof {
            assert(destinations.map().dom() =~= set!["local"@]);
        }
        EgressPolicy { local_only: true, destinations }
    }
}

/// A request to send data to a destination.
pub struct EgressRequest {
    pub destination: String,
    pub project_id: Option<String>,
    pub data_classes: Vec<DataClass>,
    pub modalities: Vec<String>,
    pub approx_bytes: u64,
    pub source_refs: Vec<String>,
    pub purpose: String,
    pub credential_handle: Option<String>,
}

/// The outcome of the egress filter.
pub struct EgressDecision {
    pub allowed: bool,
    pub reason: String,
    pub strongest_class: DataClass,
    pub destination: String,
}

/// A refused authority check.
pub struct AuthorityError {
    pub code: &'static str,
    pub message: String,
}

impl AuthorityError {
    /// The error as text: `code: message`.
    pub fn to_string(&self) -> (r: String)
        ensures
            r@ == self.code@ + ": "@ + self.message@,
    {
        proof {
            reveal_strlit(": ");
        }
        String::from_str(self.code).concat(": ").concat(self.message.as_str())
    }

    pub fn new(code: &'static str, message: String) -> (r: Self)
        ensures
            r.code == code,
            r.message@ == message@,
    {
        AuthorityError { code, message }
    }
}

/// What an execution is allowed to do.
pub struct ExecutionAuthority {
    pub actor_id: String,
    pub client_id: String,
    pub delegator_id: Option<String>,
    pub permissions: StrSet,
    pub effect_classes: StrSet,
    pub project_ids: Option<StrSet>,
    pub credential_handles: StrMap<CredentialHandle>,
    pub egress: EgressPolicy,
}

/// The character view of an optional string slice.
pub open spec fn str_opt_view(o: Option<&str>) -> Option<Seq<char>> {
    match o {
        Some(s) => Some(s@),
        None => None,
    }
}

/// Why a credential handle may not be used, as (code, message); `None` when
/// it may.
pub open spec fn credential_refusal(
    auth: ExecutionAuthority,
    handle_id: Seq<char>,
    scope: Option<Seq<char>>,
) -> Option<(Seq<char>, Seq<char>)> {
    if !auth.credential_handles.map().dom().contains(handle_id) {
        Some(("CREDENTIAL_HANDLE_DENIED"@, "credential handle is not granted to this execution"@))
    } else if auth.credential_handles.map()[handle_id].status@ != "active"@ {
        Some(("CREDENTIAL_HANDLE_REVOKED"@, "credential handle is not active"@))
    } else if scope is Some && !auth.credential_handles.map()[handle_id].scopes.set().contains(
        scope->0,
    ) {
        Some(("CREDENTIAL_SCOPE_DENIED"@, "credential handle does not grant scope "@ + scope->0))
    } else {
        None
    }
}

/// Why an egress request is blocked, in the order the filter checks; `None`
/// when it is within policy.
pub open spec fn egress_block_reason(auth: ExecutionAuthority, req: EgressRequest) -> Option<
    Seq<char>,
> {
    let strongest = strongest_of(req.data_classes@);
    let dests = auth.egress.destinations.map();
    let policy = dests[req.destination@];
    if strongest == DataClass::Credential {
        Some("credential data cannot be egress payload"@)
    } else if !dests.dom().contains(req.destination@) {
        Some("destination is not configured"@)
    } else if auth.egress.local_only && policy.remote {
        Some("local-only policy blocks remote project-data egress"@)
    } else if !policy.allowed_classes.set().contains(strongest) {
        Some("data class "@ + class_debug_name(strongest) + " is not allowed for destination"@)
    } else if policy.allowed_projects is Some && !(req.project_id is Some
        && policy.allowed_projects->0.set().contains(req.project_id->0@)) {
        Some("project is outside destination scope"@)
    } else if policy.allowed_modalities.elems().len() > 0 && exists|i: int|
        0 <= i < req.modalities@.len() && !policy.allowed_modalities.set().contains(
            #[trigger] req.modalities@[i]@,
        ) {
        Some("one or more modalities are not allowed"@)
    } else if policy.max_bytes is Some && req.approx_bytes > policy.max_bytes->0 {
        Some("payload exceeds destination byte budget "@ + decimal(policy.max_bytes->0 as nat))
    } else if req.credential_handle is Some && credential_refusal(
        auth,
        req.credential_handle->0@,
        Some("egress"@),
    ) is Some {
        let refusal = credential_refusal(auth, req.credential_handle->0@, Some("egress"@))->0;
        Some(refusal.1)
    } else {
        None
    }
}

fn modality_outside(allowed: &StrSet, modalities: &Vec<String>) -> (r: bool)
    ensures
        r == exists|i: int|
            0 <= i < modalities@.len() && !allowed.set().contains(#[trigger] modalities@[i]@),
{
    let mut i: usize = 0;
    while i < modalities.len()
        invariant
            i <= modalities@.len(),
            forall|k: int| 0 <= k < i ==> allowed.set().contains(#[trigger] modalities@[k]@),
        decreases modalities@.len() - i,
    {
        if !allowed.contains(modalities[i].as_str()) {
            return true;
        }
        i = i + 1;
    }
    false
}

impl ExecutionAuthority {
    /// The authority of the local interactive user.
    pub fn local_user(client_id: String) -> (r: Self)
        ensures
            r.actor_id@ == "local-user"@,
            r.client_id@ == client_id@,
            r.delegator_id is None,
            r.permissions.set() == set!["read"@, "state_write"@, "host_control"@],
            r.effect_classes.set() == set![
                "observe"@,
                "analyze"@,
                "relay_self_repair"@,
                "relay_state_write"@,
            ],
            r.project_ids is None,
            r.credential_handles.map() == Map::<Seq<char>, CredentialHandle>::empty(),
            is_default_egress(r.egress),
    {
        let mut permissions = StrSet::new();
        permissions.insert(String::from_str("read"));
        permissions.insert(String::from_str("state_write"));
        permissions.insert(String::from_str("host_control"));
        let mut effects = StrSet::new();
        effects.insert(String::from_str("observe"));
        effects.insert(String::from_str("analyze"));
        effects.insert(String::from_str("relay_self_repair"));
        effects.insert(String::from_str("relay_state_write"));
        proof {
            assert(permissions.set() =~= set!["read"@, "state_write"@, "host_control"@]);
            assert(effects.set() =~= set![
                "observe"@,
                "analyze"@,
                "relay_self_repair"@,
                "relay_state_write"@,
            ]);
        }
        ExecutionAuthority {
            actor_id: String::from_str("local-user"),
            client_id,
            delegator_id: None,
            permissions,
            effect_classes: effects,
            project_ids: None,
            credential_handles: StrMap::new(),
            egress: EgressPolicy::default(),
        }
    }

    pub fn require_permission(&self, permission: &str) -> (r: Result<(), AuthorityError>)
        ensures
            r is Ok <==> self.permissions.set().contains(permission@),
            r matches Err(e) ==> e.code@ == "PERMISSION_DENIED"@ && e.message@ == "permission "@
                + permission@ + " is not granted"@,
    {
        if self.permissions.contains(permission) {
            Ok(())
        } else {
            let message = String::from_str("permission ").concat(permission).concat(
                " is not granted",
            );
            Err(AuthorityError::new("PERMISSION_DENIED", message))
        }
    }

    pub fn require_effect(&self, effect: &str) -> (r: Result<(), AuthorityError>)
        ensures
            r is Ok <==> self.effect_classes.set().contains(effect@),
            r matches Err(e) ==> e.code@ == "EFFECT_NOT_ALLOWED"@ && e.message@ == "effect class "@
                + effect@ + " is not granted"@,
    {
        if self.effect_classes.contains(effect) {
            Ok(())
        } else {
            let message = String::from_str("effect class ").concat(effect).concat(
                " is not granted",
            );
            Err(AuthorityError::new("EFFECT_NOT_ALLOWED", message))
        }
    }

    /// Unscoped authority admits every project; scoped authority admits only an
    /// explicit project inside its scope.
    pub fn require_project(&self, project_id: Option<&str>) -> (r: Result<(), AuthorityError>)
        ensures
            r is Ok <==> (self.project_ids is None || (project_id is Some
                && self.project_ids->0.set().contains(project_id->0@))),
            r matches Err(e) ==> (project_id is None && e.code@ == "PROJECT_SCOPE_REQUIRED"@
                && e.message@ == "project-scoped authority requires an explicit project ID"@) || (
            project_id is Some && e.code@ == "PROJECT_SCOPE_DENIED"@ && e.message@ == "project "@
                + project_id->0@ + " is outside the granted scope"@),
    {
        match &self.project_ids {
            None => Ok(()),
            Some(allowed) => match project_id {
                None => Err(
                    AuthorityError::new(
                        "PROJECT_SCOPE_REQUIRED",
                        String::from_str("project-scoped authority requires an explicit project ID"),
                    ),
                ),
                Some(id) => {
                    if allowed.contains(id) {
                        Ok(())
                    } else {
                        let message = String::from_str("project ").concat(id).concat(
                            " is outside the granted scope",
                        );
                        Err(AuthorityError::new("PROJECT_SCOPE_DENIED", message))
                    }
                },
            },
        }
    }

    /// The granted, active handle `handle_id`, holding `scope` when one is
    /// asked for.
    pub fn require_credential_handle(&self, handle_id: &str, scope: Option<&str>) -> (r: Result<
        &CredentialHandle,
        AuthorityError,
    >)
        ensures
            r is Ok <==> credential_refusal(*self, handle_id@, str_opt_view(scope)) is None,
            r matches Ok(h) ==> *h == self.credential_handles.map()[handle_id@],
            r matches Err(e) ==> credential_refusal(*self, handle_id@, str_opt_view(scope))
                == Some((e.code@, e.message@)),
    {
        let handle = match self.credential_handles.get(handle_id) {
            Some(h) => h,
            None => {
                return Err(
                    AuthorityError::new(
                        "CREDENTIAL_HANDLE_DENIED",
                        String::from_str("credential handle is not granted to this execution"),
                    ),
                );
            },
        };
        if !handle.is_active() {
            return Err(
                AuthorityError::new(
                    "CREDENTIAL_HANDLE_REVOKED",
                    String::from_str("credential handle is not active"),
                ),
            );
        }
        if let Some(s) = scope {
            if !handle.scopes.contains(s) {
                let message = String::from_str("credential handle does not grant scope ").concat(s);
                return Err(AuthorityError::new("CREDENTIAL_SCOPE_DENIED", message));
            }
        }
        Ok(handle)
    }

    /// The egress filter: a request is allowed only when no check refuses it.
    pub fn evaluate_egress(&self, request: &EgressRequest) -> (r: EgressDecision)
        ensures
            r.allowed == (egress_block_reason(*self, *request) is None),
            r.reason@ == match egress_block_reason(*self, *request) {
                Some(reason) => reason,
                None => "egress request is within configured policy"@,
            },
            r.strongest_class == strongest_of(request.data_classes@),
            r.destination@ == request.destination@,
    {
        let strongest = DataClass::strongest(request.data_classes.as_slice());
        let destination = request.destination.clone();
        if strongest == DataClass::Credential {
            return EgressDecision {
                allowed: false,
                reason: String::from_str("credential data cannot be egress payload"),
                strongest_class: strongest,
                destination,
            };
        }
        let policy = match self.egress.destinations.get(request.destination.as_str()) {
            Some(p) => p,
            None => {
                return EgressDecision {
                    allowed: false,
                    reason: String::from_str("destination is not configured"),
                    strongest_class: strongest,
                    destination,
                };
            },
        };
        if self.egress.local_only && policy.remote {
            return EgressDecision {
                allowed: false,
                reason: String::from_str("local-only policy blocks remote project-data egress"),
                strongest_class: strongest,
                destination,
            };
        }
        if !policy.allowed_classes.contains(strongest) {
            let name = debug_name(strongest);
            let reason = String::from_str("data class ").concat(name.as_str()).concat(
                " is not allowed for destination",
            );
            return EgressDecision { allowed: false, reason, strongest_class: strongest, destination };
        }
        if let Some(projects) = &policy.allowed_projects {
            let inside = match &request.project_id {
                Some(p) => projects.contains(p.as_str()),
                None => false,
            };
            if !inside {
                return EgressDecision {
                    allowed: false,
                    reason: String::from_str("project is outside destination scope"),
                    strongest_class: strongest,
                    destination,
                };
            }
        }
        if !policy.allowed_modalities.is_empty() && modality_outside(
            &policy.allowed_modalities,
            &request.modalities,
        ) {
            return EgressDecision {
                allowed: false,
                reason: String::from_str("one or more modalities are not allowed"),
                strongest_class: strongest,
                destination,
            };
        }
        if let Some(max_bytes) = policy.max_bytes {
            if request.approx_bytes > max_bytes {
                let amount = u64_to_decimal(max_bytes);
                let reason = String::from_str("payload exceeds destination byte budget ").concat(
                    amount.as_str(),
                );
                return EgressDecision {
                    allowed: false,
                    reason,
                    strongest_class: strongest,
                    destination,
                };
            }
        }
        if let Some(handle_id) = &request.credential_handle {
            match self.require_credential_handle(handle_id.as_str(), Some("egress")) {
                Err(error) => {
                    return EgressDecision {
                        allowed: false,
                        reason: error.message,
                        strongest_class: strongest,
                        destination,
                    };
                },
                Ok(_) => {},
            }
        }
        EgressDecision {
            allowed: true,
            reason: String::from_str("egress request is within configured policy"),
            strongest_class: strongest,
            destination,
        }
    }
}

/// Data that holds anything of class `Credential` is never let out: whatever
/// the policy, the filter refuses the request.
pub proof fn law_credential_data_never_egresses(auth: ExecutionAuthority, req: EgressRequest)
    requires
        req.data_classes@.contains(DataClass::Credential),
    ensures
        egress_block_reason(auth, req) == Some("credential data cannot be egress payload"@),
{
    lemma_strongest_is_maximum(req.data_classes@);
    let i = choose|i: int| 0 <= i < req.data_classes@.len() && req.data_classes@[i]
        == DataClass::Credential;
    assert(class_rank(req.data_classes@[i]) == 3);
}

/// Under a local-only policy, no request to a configured remote destination is
/// allowed.
pub proof fn law_local_only_blocks_remote(auth: ExecutionAuthority, req: EgressRequest)
    requires
        auth.egress.local_only,
        auth.egress.destinations.map().dom().contains(req.destination@),
        auth.egress.destinations.map()[req.destination@].remote,
    ensures
        egress_block_reason(auth, req) is Some,
{
}

/// An allowed request goes to a configured destination that admits its
/// strongest data class and, under a local-only policy, is not remote; its
/// payload carries no credential data and stays within the byte budget; a
/// destination scoped to projects receives only a request that names one of
/// them; a destination that lists modalities receives only those; and a
/// credential handle it carries is granted, active and scoped for egress.
pub proof fn law_allowed_egress_is_within_policy(auth: ExecutionAuthority, req: EgressRequest)
    requires
        egress_block_reason(auth, req) is None,
    ensures
        auth.egress.destinations.map().dom().contains(req.destination@),
        auth.egress.destinations.map()[req.destination@].allowed_classes.set().contains(
            strongest_of(req.data_classes@),
        ),
        !req.data_classes@.contains(DataClass::Credential),
        auth.egress.local_only ==> !auth.egress.destinations.map()[req.destination@].remote,
        auth.egress.destinations.map()[req.destination@].max_bytes matches Some(m) ==> req.approx_bytes
            <= m,
        auth.egress.destinations.map()[req.destination@].allowed_projects matches Some(projects) ==> (
        req.project_id matches Some(p) && projects.set().contains(p@)),
        auth.egress.destinations.map()[req.destination@].allowed_modalities.elems().len() > 0 ==> forall|
            i: int,
        |
            0 <= i < req.modalities@.len() ==> auth.egress.destinations.map()[req.destination@].allowed_modalities.set().contains(
                #[trigger] req.modalities@[i]@,
            ),
        req.credential_handle matches Some(h) ==> {
            &&& auth.credential_handles.map().dom().contains(h@)
            &&& auth.credential_handles.map()[h@].status@ == "active"@
            &&& auth.credential_handles.map()[h@].scopes.set().contains("egress"@)
        },
{
    if req.data_classes@.contains(DataClass::Credential) {
        law_credential_data_never_egresses(auth, req);
    }
}

} // verus!
