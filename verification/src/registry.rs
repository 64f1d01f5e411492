//! The command registry: its validation, command resolution by id and
//! version, surface exposure, capability ids, and the backward-compatibility
//! comparison of object schemas.
use vstd::prelude::*;
use vstd::string::StrSliceExecFns;
use vstd::string::StringExecFns;
use crate::collections::{views, StrSet};
use crate::json::{json_same, member, same, Json};
use crate::schema::{definition_error, validate_schema_definition};
use crate::text::{decimal, is_blank, str_is_blank, strictly_sorted, u64_to_decimal};

verus! {

pub const REGISTRY_FORMAT: u32 = 1;

/// The JSON Schema dialect that registry schemas are written in.
pub open spec fn schema_dialect_uri() -> Seq<char> {
    "https://json-schema.org/draft/2020-12/schema"@
}

/// One versioned command contract.
pub struct CommandSpec {
    pub id: String,
    pub version: u32,
    pub stability: String,
    pub summary: String,
    pub effect_class: String,
    pub permission: String,
    pub idempotency: String,
    pub surfaces: Vec<String>,
    pub arguments_schema: Json,
    pub result_schema: Json,
    pub errors: Vec<String>,
}

/// The set of command contracts a host offers.
pub struct CommandRegistry {
    pub registry_format: u32,
    pub registry_id: String,
    pub schema_dialect: String,
    pub compatibility: Json,
    pub reserved_command_ids: Vec<String>,
    pub deprecated_command_ids: Vec<String>,
    pub common_errors: Vec<String>,
    pub error_schema: Json,
    pub commands: Vec<CommandSpec>,
}

/// A refused registry.
pub struct RegistryError {
    pub code: &'static str,
    pub message: String,
}

impl RegistryError {
    /// The error as text: `code: message`.
    pub fn to_string(&self) -> (r: String)
        ensures
            r@ == self.code@ + ": "@ + self.message@,
    {
        proof {
            reveal_strlit(": ");
        }
        String::from_str(self.code).concat(": ").concat(self.message.as_str())
    }

    pub fn new(code: &'static str, message: String) -> (r: Self)
        ensures
            r.code == code,
            r.message@ == message@,
    {
        RegistryError { code, message }
    }
}

/// Why a command could not be resolved.
pub enum ResolveError {
    UnknownCommand,
    VersionIncompatible { supported: Vec<u32> },
}

/// The registry text without a leading byte-order mark.
pub fn registry_source(text: &str) -> (r: &str)
    ensures
        text@.len() > 0 && text@[0] == '\u{feff}' ==> r@ == text@.drop_first(),
        !(text@.len() > 0 && text@[0] == '\u{feff}') ==> r@ == text@,
{
    let n = text.unicode_len();
    if n > 0 && text.get_char(0) == '\u{feff}' {
        let r = text.substring_char(1, n);
        assert(r@ =~= text@.drop_first());
        r
    } else {
        text
    }
}

/// Whether `s` occurs in the first `n` strings of `v`.
pub open spec fn occurs(v: Seq<String>, n: int, s: Seq<char>) -> bool {
    exists|j: int| 0 <= j < n && (#[trigger] v[j])@ == s
}

/// Whether some string occurs twice.
pub open spec fn has_duplicate(v: Seq<String>) -> bool {
    exists|i: int, j: int| 0 <= i < j < v.len() && (#[trigger] v[i])@ == (#[trigger] v[j])@
}

/// What is wrong with the `k`-th command, given that all before it passed.
pub open spec fn command_error(reg: CommandRegistry, k: int) -> Option<(Seq<char>, Seq<char>)> {
    let c = reg.commands@[k];
    if is_blank(c.id@) || c.version == 0 {
        Some(("REGISTRY_INVALID"@, "command IDs must be non-empty and versions must be >= 1"@))
    } else if occurs(reg.reserved_command_ids@, reg.reserved_command_ids@.len() as int, c.id@)
        || occurs(reg.deprecated_command_ids@, reg.deprecated_command_ids@.len() as int, c.id@) {
        Some(("REGISTRY_ID_REUSE"@, "active command reuses reserved/deprecated ID "@ + c.id@))
    } else if exists|j: int|
        0 <= j < k && (#[trigger] reg.commands@[j]).id@ == c.id@ && reg.commands@[j].version
            == c.version {
        Some(
            (
                "REGISTRY_INVALID"@,
                "duplicate command contract "@ + c.id@ + "@"@ + decimal(c.version as nat),
            ),
        )
    } else if definition_error(c.arguments_schema, "$arguments"@) is Some {
        Some(("REGISTRY_SCHEMA_UNSUPPORTED"@, definition_error(c.arguments_schema, "$arguments"@)->0))
    } else if definition_error(c.result_schema, "$result"@) is Some {
        Some(("REGISTRY_SCHEMA_UNSUPPORTED"@, definition_error(c.result_schema, "$result"@)->0))
    } else {
        None
    }
}

/// The first failing command among the first `n`.
pub open spec fn commands_error(reg: CommandRegistry, n: int) -> Option<(Seq<char>, Seq<char>)>
    decreases n,
{
    if n <= 0 || n > reg.commands@.len() {
        None
    } else if commands_error(reg, n - 1) is Some {
        commands_error(reg, n - 1)
    } else {
        command_error(reg, n - 1)
    }
}

/// Why a registry is refused, as (code, message), in the order of the checks.
pub open spec fn registry_error(reg: CommandRegistry) -> Option<(Seq<char>, Seq<char>)> {
    let reserved = reg.reserved_command_ids@;
    let deprecated = reg.deprecated_command_ids@;
    if reg.registry_format != REGISTRY_FORMAT {
        Some(
            (
                "REGISTRY_FORMAT_INCOMPATIBLE"@,
                "registry format "@ + decimal(reg.registry_format as nat)
                    + " is unsupported; expected 1"@,
            ),
        )
    } else if reg.schema_dialect@ != schema_dialect_uri() {
        Some(
            (
                "REGISTRY_SCHEMA_DIALECT_UNSUPPORTED"@,
                "unsupported schema dialect: "@ + reg.schema_dialect@,
            ),
        )
    } else if definition_error(reg.error_schema, "$error"@) is Some {
        Some(("REGISTRY_SCHEMA_UNSUPPORTED"@, definition_error(reg.error_schema, "$error"@)->0))
    } else if has_duplicate(reserved) {
        Some(("REGISTRY_INVALID"@, "reserved command IDs must be unique"@))
    } else if has_duplicate(deprecated) {
        Some(("REGISTRY_INVALID"@, "deprecated command IDs must be unique"@))
    } else if exists|i: int|
        0 <= i < reserved.len() && occurs(deprecated, deprecated.len() as int, #[trigger] reserved[i]@) {
        Some(("REGISTRY_INVALID"@, "an ID cannot be both reserved and deprecated"@))
    } else {
        commands_error(reg, reg.commands@.len() as int)
    }
}

pub(crate) fn contains_str(v: &Vec<String>, s: &str) -> (r: bool)
    ensures
        r == occurs(v@, v@.len() as int, s@),
{
    let mut i: usize = 0;
    while i < v.len()
        invariant
            i <= v@.len(),
            forall|j: int| 0 <= j < i ==> (#[trigger] v@[j])@ != s@,
        decreases v@.len() - i,
    {
        if crate::text::str_eq(v[i].as_str(), s) {
            assert(v@[i as int]@ == s@);
            return true;
        }
        i = i + 1;
    }
    false
}

fn find_duplicate(v: &Vec<String>) -> (r: bool)
    ensures
        r == has_duplicate(v@),
{
    let mut seen = StrSet::new();
    let mut i: usize = 0;
    while i < v.len()
        invariant
            i <= v@.len(),
            seen.set() == views(v@.subrange(0, i as int)).to_set(),
            forall|a: int, b: int| 0 <= a < b < i ==> (#[trigger] v@[a])@ != (#[trigger] v@[b])@,
        decreases v@.len() - i,
    {
        if seen.contains(v[i].as_str()) {
            proof {
                let k = choose|k: int|
                    0 <= k < views(v@.subrange(0, i as int)).len() && views(
                        v@.subrange(0, i as int),
                    )[k] == v@[i as int]@;
                assert(v@[k]@ == v@[i as int]@);
            }
            return true;
        }
        seen.insert(v[i].clone());
        proof {
            assert(views(v@.subrange(0, i + 1)) =~= views(v@.subrange(0, i as int)).push(
                v@[i as int]@,
            ));
            views(v@.subrange(0, i as int)).lemma_push_to_set_commute(v@[i as int]@);
            assert forall|a: int| 0 <= a < i implies (#[trigger] v@[a])@ != v@[i as int]@ by {
                assert(views(v@.subrange(0, i as int))[a] == v@[a]@);
            }
        }
        i = i + 1;
    }
    false
}

fn earlier_contract(cmds: &Vec<CommandSpec>, k: usize) -> (r: bool)
    requires
        k < cmds@.len(),
    ensures
        r == exists|j: int|
            0 <= j < k && (#[trigger] cmds@[j]).id@ == cmds@[k as int].id@ && cmds@[j].version
                == cmds@[k as int].version,
{
    let mut j: usize = 0;
    while j < k
        invariant
            j <= k,
            k < cmds@.len(),
            forall|q: int|
                0 <= q < j ==> !((#[trigger] cmds@[q]).id@ == cmds@[k as int].id@
                    && cmds@[q].version == cmds@[k as int].version),
        decreases k - j,
    {
        if cmds[j].id == cmds[k].id && cmds[j].version == cmds[k].version {
            return true;
        }
        j = j + 1;
    }
    false
}

proof fn lemma_commands_error_stable(reg: CommandRegistry, n: int, m: int)
    requires
        0 < n <= m <= reg.commands@.len(),
        commands_error(reg, n) is Some,
    ensures
        commands_error(reg, m) == commands_error(reg, n),
    decreases m - n,
{
    if m > n {
        lemma_commands_error_stable(reg, n, m - 1);
    }
}

fn text(s: &str) -> (r: String)
    ensures
        r@ == s@,
{
    String::from_str(s)
}

/// Checks a registry: its format, dialect and error schema, that reserved
/// and deprecated ids are distinct and unused, and that every command has an
/// id, a version, a unique (id, version) pair and supported schemas.
pub fn validate_registry(registry: &CommandRegistry) -> (r: Result<(), RegistryError>)
    ensures
        r is Ok <==> registry_error(*registry) is None,
        r matches Err(e) ==> registry_error(*registry) == Some((e.code@, e.message@)),
{
    if registry.registry_format != REGISTRY_FORMAT {
        let shown = u64_to_decimal(registry.registry_format as u64);
        return Err(
            RegistryError::new(
                "REGISTRY_FORMAT_INCOMPATIBLE",
                text("registry format ").concat(shown.as_str()).concat(
                    " is unsupported; expected 1",
                ),
            ),
        );
    }
    let dialect = text("https://json-schema.org/draft/2020-12/schema");
    if registry.schema_dialect != dialect {
        return Err(
            RegistryError::new(
                "REGISTRY_SCHEMA_DIALECT_UNSUPPORTED",
                text("unsupported schema dialect: ").concat(registry.schema_dialect.as_str()),
            ),
        );
    }
    match validate_schema_definition(&registry.error_schema, "$error") {
        Ok(()) => {},
        Err(m) => {
            return Err(RegistryError::new("REGISTRY_SCHEMA_UNSUPPORTED", m));
        },
    }
    if find_duplicate(&registry.reserved_command_ids) {
        return Err(
            RegistryError::new("REGISTRY_INVALID", text("reserved command IDs must be unique")),
        );
    }
    if find_duplicate(&registry.deprecated_command_ids) {
        return Err(
            RegistryError::new("REGISTRY_INVALID", text("deprecated command IDs must be unique")),
        );
    }
    let mut i: usize = 0;
    while i < registry.reserved_command_ids.len()
        invariant
            i <= registry.reserved_command_ids@.len(),
            registry.registry_format == REGISTRY_FORMAT,
            registry.schema_dialect@ == schema_dialect_uri(),
            definition_error(registry.error_schema, "$error"@) is None,
            !has_duplicate(registry.reserved_command_ids@),
            !has_duplicate(registry.deprecated_command_ids@),
            forall|k: int|
                0 <= k < i ==> !occurs(
                    registry.deprecated_command_ids@,
                    registry.deprecated_command_ids@.len() as int,
                    #[trigger] registry.reserved_command_ids@[k]@,
                ),
        decreases registry.reserved_command_ids@.len() - i,
    {
        if contains_str(&registry.deprecated_command_ids, registry.reserved_command_ids[i].as_str()) {
            return Err(
                RegistryError::new(
                    "REGISTRY_INVALID",
                    text("an ID cannot be both reserved and deprecated"),
                ),
            );
        }
        i = i + 1;
    }
    let mut k: usize = 0;
    while k < registry.commands.len()
        invariant
            k <= registry.commands@.len(),
            registry.registry_format == REGISTRY_FORMAT,
            registry.schema_dialect@ == schema_dialect_uri(),
            definition_error(registry.error_schema, "$error"@) is None,
            !has_duplicate(registry.reserved_command_ids@),
            !has_duplicate(registry.deprecated_command_ids@),
            !exists|i: int|
                0 <= i < registry.reserved_command_ids@.len() && occurs(
                    registry.deprecated_command_ids@,
                    registry.deprecated_command_ids@.len() as int,
                    #[trigger] registry.reserved_command_ids@[i]@,
                ),
            commands_error(*registry, k as int) is None,
        decreases registry.commands@.len() - k,
    {
        let c = &registry.commands[k];
        let failure: Option<(&'static str, String)> = if str_is_blank(c.id.as_str()) || c.version
            == 0 {
            Some(("REGISTRY_INVALID", text("command IDs must be non-empty and versions must be >= 1")))
        } else if contains_str(&registry.reserved_command_ids, c.id.as_str()) || contains_str(
            &registry.deprecated_command_ids,
            c.id.as_str(),
        ) {
            Some(
                (
                    "REGISTRY_ID_REUSE",
                    text("active command reuses reserved/deprecated ID ").concat(c.id.as_str()),
                ),
            )
        } else {
            let dup = earlier_contract(&registry.commands, k);
            if dup {
                let shown = u64_to_decimal(c.version as u64);
                Some(
                    (
                        "REGISTRY_INVALID",
                        text("duplicate command contract ").concat(c.id.as_str()).concat(
                            "@",
                        ).concat(shown.as_str()),
                    ),
                )
            } else {
                match validate_schema_definition(&c.arguments_schema, "$arguments") {
                    Err(m) => Some(("REGISTRY_SCHEMA_UNSUPPORTED", m)),
                    Ok(()) => match validate_schema_definition(&c.result_schema, "$result") {
                        Err(m) => Some(("REGISTRY_SCHEMA_UNSUPPORTED", m)),
                        Ok(()) => None,
                    },
                }
            }
        };
        match failure {
            Some((code, message)) => {
                proof {
                    assert(commands_error(*registry, k + 1) == Some((code@, message@)));
                    lemma_commands_error_stable(*registry, k + 1, registry.commands@.len() as int);
                }
                return Err(RegistryError::new(code, message));
            },
            None => {},
        }
        k = k + 1;
    }
    Ok(())
}


/// The first of the first `n` commands with this id and version, or -1.
pub open spec fn first_match(cmds: Seq<CommandSpec>, id: Seq<char>, v: u32, n: int) -> int
    decreases n,
{
    if n <= 0 || n > cmds.len() {
        -1
    } else if first_match(cmds, id, v, n - 1) >= 0 {
        first_match(cmds, id, v, n - 1)
    } else if cmds[n - 1].id@ == id && cmds[n - 1].version == v {
        n - 1
    } else {
        -1
    }
}

/// Among the first `n` commands with this id, the one of the highest version
/// (the later one among equals), or -1.
pub open spec fn latest_match(cmds: Seq<CommandSpec>, id: Seq<char>, n: int) -> int
    decreases n,
{
    if n <= 0 || n > cmds.len() {
        -1
    } else {
        let p = latest_match(cmds, id, n - 1);
        if cmds[n - 1].id@ == id && (p < 0 || cmds[n - 1].version >= cmds[p].version) {
            n - 1
        } else {
            p
        }
    }
}

/// The versions of the first `n` commands with this id, in registry order.
pub open spec fn versions_of(cmds: Seq<CommandSpec>, id: Seq<char>, n: int) -> Seq<u32>
    decreases n,
{
    if n <= 0 || n > cmds.len() {
        Seq::empty()
    } else if cmds[n - 1].id@ == id {
        versions_of(cmds, id, n - 1).push(cmds[n - 1].version)
    } else {
        versions_of(cmds, id, n - 1)
    }
}

pub proof fn lemma_latest_match(cmds: Seq<CommandSpec>, id: Seq<char>, n: int)
    requires
        0 <= n <= cmds.len(),
    ensures
        -1 <= latest_match(cmds, id, n) < n,
        latest_match(cmds, id, n) >= 0 ==> cmds[latest_match(cmds, id, n)].id@ == id,
        latest_match(cmds, id, n) < 0 <==> forall|k: int| 0 <= k < n ==> (#[trigger] cmds[k]).id@
            != id,
        latest_match(cmds, id, n) >= 0 ==> forall|k: int|
            0 <= k < n && (#[trigger] cmds[k]).id@ == id ==> cmds[k].version <= cmds[latest_match(
                cmds,
                id,
                n,
            )].version,
    decreases n,
{
    if n > 0 {
        lemma_latest_match(cmds, id, n - 1);
    }
}

pub proof fn lemma_first_match(cmds: Seq<CommandSpec>, id: Seq<char>, v: u32, n: int)
    requires
        0 <= n <= cmds.len(),
    ensures
        -1 <= first_match(cmds, id, v, n) < n,
        first_match(cmds, id, v, n) >= 0 ==> cmds[first_match(cmds, id, v, n)].id@ == id
            && cmds[first_match(cmds, id, v, n)].version == v,
        first_match(cmds, id, v, n) >= 0 ==> latest_match(cmds, id, n) >= 0,
    decreases n,
{
    lemma_latest_match(cmds, id, n);
    if n > 0 {
        lemma_first_match(cmds, id, v, n - 1);
    }
}

/// Resolves a command by id: a requested version must exist exactly;
/// without one the highest version is chosen.
pub fn resolve_command<'a>(registry: &'a CommandRegistry, id: &str, requested_version: Option<u32>) -> (r:
    Result<&'a CommandSpec, ResolveError>)
    ensures
        latest_match(registry.commands@, id@, registry.commands@.len() as int) < 0 ==> r
            is Err && r->Err_0 is UnknownCommand,
        latest_match(registry.commands@, id@, registry.commands@.len() as int) >= 0
            && requested_version is None ==> r is Ok && *r->Ok_0 == registry.commands@[latest_match(
            registry.commands@,
            id@,
            registry.commands@.len() as int,
        )],
        latest_match(registry.commands@, id@, registry.commands@.len() as int) >= 0
            && requested_version is Some ==> {
            let f = first_match(
                registry.commands@,
                id@,
                requested_version->0,
                registry.commands@.len() as int,
            );
            &&& f >= 0 ==> r is Ok && *r->Ok_0 == registry.commands@[f]
            &&& f < 0 ==> r is Err && r->Err_0 is VersionIncompatible
                && r->Err_0->supported@ == versions_of(
                registry.commands@,
                id@,
                registry.commands@.len() as int,
            )
        },
{
    let cmds = &registry.commands;
    let mut latest: usize = 0;
    let mut found_any = false;
    let mut first: usize = 0;
    let mut found_first = false;
    let mut supported: Vec<u32> = Vec::new();
    let mut i: usize = 0;
    while i < cmds.len()
        invariant
            i <= cmds@.len(),
            *cmds == registry.commands,
            found_any == (latest_match(cmds@, id@, i as int) >= 0),
            found_any ==> latest == latest_match(cmds@, id@, i as int),
            requested_version is Some ==> found_first == (first_match(
                cmds@,
                id@,
                requested_version->0,
                i as int,
            ) >= 0),
            requested_version is Some && found_first ==> first == first_match(
                cmds@,
                id@,
                requested_version->0,
                i as int,
            ),
            requested_version is None ==> !found_first,
            supported@ == versions_of(cmds@, id@, i as int),
        decreases cmds@.len() - i,
    {
        proof {
            lemma_latest_match(cmds@, id@, i as int);
        }
        if crate::text::str_eq(cmds[i].id.as_str(), id) {
            supported.push(cmds[i].version);
            if !found_any || cmds[i].version >= cmds[latest].version {
                latest = i;
            }
            found_any = true;
            if let Some(v) = requested_version {
                if !found_first && cmds[i].version == v {
                    first = i;
                    found_first = true;
                }
            }
        }
        i = i + 1;
    }
    proof {
        lemma_latest_match(cmds@, id@, cmds@.len() as int);
        if requested_version is Some {
            lemma_first_match(cmds@, id@, requested_version->0, cmds@.len() as int);
        }
    }
    if !found_any {
        return Err(ResolveError::UnknownCommand);
    }
    match requested_version {
        None => Ok(&cmds[latest]),
        Some(_) => {
            if found_first {
                Ok(&cmds[first])
            } else {
                Err(ResolveError::VersionIncompatible { supported })
            }
        },
    }
}

/// Whether an error code may be reported by a command: the validation codes,
/// the registry's common errors, and the command's own errors.
pub open spec fn error_code_allowed(registry: CommandRegistry, command: CommandSpec, code: Seq<char>) -> bool {
    code == "VALIDATION_FAILED"@ || code == "RESULT_SCHEMA_VIOLATION"@ || occurs(
        registry.common_errors@,
        registry.common_errors@.len() as int,
        code,
    ) || occurs(command.errors@, command.errors@.len() as int, code)
}

pub fn is_error_allowed(registry: &CommandRegistry, command: &CommandSpec, code: &str) -> (r: bool)
    ensures
        r == error_code_allowed(*registry, *command, code@),
{
    crate::text::str_eq(code, "VALIDATION_FAILED") || crate::text::str_eq(
        code,
        "RESULT_SCHEMA_VIOLATION",
    ) || contains_str(&registry.common_errors, code) || contains_str(&command.errors, code)
}

/// The capability id of a command contract, `id@version`.
pub open spec fn capability_id(c: CommandSpec) -> Seq<char> {
    c.id@ + "@"@ + decimal(c.version as nat)
}

/// The capability ids of all contracts, sorted and without repeats.
pub fn capability_ids(registry: &CommandRegistry) -> (r: Vec<String>)
    ensures
        strictly_sorted(views(r@)),
        forall|s: Seq<char>|
            views(r@).contains(s) <==> exists|k: int|
                0 <= k < registry.commands@.len() && s == capability_id(
                    #[trigger] registry.commands@[k],
                ),
{
    let mut set = StrSet::new();
    let mut i: usize = 0;
    while i < registry.commands.len()
        invariant
            i <= registry.commands@.len(),
            forall|s: Seq<char>|
                set.set().contains(s) <==> exists|k: int|
                    0 <= k < i && s == capability_id(#[trigger] registry.commands@[k]),
        decreases registry.commands@.len() - i,
    {
        let c = &registry.commands[i];
        let shown = u64_to_decimal(c.version as u64);
        let cap = text(c.id.as_str()).concat("@").concat(shown.as_str());
        set.insert(cap);
        proof {
            assert forall|s: Seq<char>|
                set.set().contains(s) <==> exists|k: int|
                    0 <= k < i + 1 && s == capability_id(#[trigger] registry.commands@[k]) by {
                if s == capability_id(registry.commands@[i as int]) {
                    assert(s == cap@);
                }
            }
        }
        i = i + 1;
    }
    let r = set.to_vec();
    proof {
        assert forall|s: Seq<char>|
            views(r@).contains(s) <==> exists|k: int|
                0 <= k < registry.commands@.len() && s == capability_id(
                    #[trigger] registry.commands@[k],
                ) by {
            assert(set.set() == views(r@).to_set());
            assert(views(r@).to_set().contains(s) == views(r@).contains(s));
        }
    }
    r
}

/// Whether the latest version of a command is exposed on a surface.
pub open spec fn surface_exposed(registry: CommandRegistry, id: Seq<char>, surface: Seq<char>) -> bool {
    let k = latest_match(registry.commands@, id, registry.commands@.len() as int);
    k >= 0 && occurs(
        registry.commands@[k].surfaces@,
        registry.commands@[k].surfaces@.len() as int,
        surface,
    )
}

pub fn is_surface_exposed(registry: &CommandRegistry, id: &str, surface: &str) -> (r: bool)
    ensures
        r == surface_exposed(*registry, id@, surface@),
{
    match resolve_command(registry, id, None) {
        Ok(command) => contains_str(&command.surfaces, surface),
        Err(_) => false,
    }
}

/// Whether some contract of command `id` is exposed on `surface`.
pub open spec fn has_surface_contract(registry: CommandRegistry, id: Seq<char>, surface: Seq<char>) -> bool {
    exists|k: int|
        0 <= k < registry.commands@.len() && (#[trigger] registry.commands@[k]).id@ == id && occurs(
            registry.commands@[k].surfaces@,
            registry.commands@[k].surfaces@.len() as int,
            surface,
        )
}

/// The ids of the commands with a contract on `surface`, sorted.
pub fn surface_command_ids(registry: &CommandRegistry, surface: &str) -> (r: Vec<String>)
    ensures
        strictly_sorted(views(r@)),
        forall|s: Seq<char>|
            views(r@).contains(s) <==> has_surface_contract(*registry, s, surface@),
{
    let mut set = StrSet::new();
    let mut i: usize = 0;
    while i < registry.commands.len()
        invariant
            i <= registry.commands@.len(),
            forall|s: Seq<char>|
                set.set().contains(s) <==> exists|k: int|
                    0 <= k < i && (#[trigger] registry.commands@[k]).id@ == s && occurs(
                        registry.commands@[k].surfaces@,
                        registry.commands@[k].surfaces@.len() as int,
                        surface@,
                    ),
        decreases registry.commands@.len() - i,
    {
        let c = &registry.commands[i];
        if contains_str(&c.surfaces, surface) {
            set.insert(c.id.clone());
        }
        proof {
            assert forall|s: Seq<char>|
                set.set().contains(s) <==> exists|k: int|
                    0 <= k < i + 1 && (#[trigger] registry.commands@[k]).id@ == s && occurs(
                        registry.commands@[k].surfaces@,
                        registry.commands@[k].surfaces@.len() as int,
                        surface@,
                    ) by {
                if s == c.id@ && occurs(c.surfaces@, c.surfaces@.len() as int, surface@) {
                    assert(registry.commands@[i as int] == *c);
                }
            }
        }
        i = i + 1;
    }
    let r = set.to_vec();
    proof {
        assert forall|s: Seq<char>|
            views(r@).contains(s) <==> has_surface_contract(*registry, s, surface@) by {
            assert(set.set() == views(r@).to_set());
            assert(views(r@).to_set().contains(s) == views(r@).contains(s));
        }
    }
    r
}

/// One catalog line: `id@version  summary`.
pub open spec fn catalog_line(c: CommandSpec) -> Seq<char> {
    capability_id(c) + "  "@ + c.summary@
}

/// The catalog line of the latest contract of command `id`.
pub open spec fn latest_line(registry: CommandRegistry, id: Seq<char>) -> Seq<char> {
    catalog_line(
        registry.commands@[latest_match(registry.commands@, id, registry.commands@.len() as int)],
    )
}

/// The lines of the first `n` ids, joined by newlines.
pub open spec fn catalog_text(registry: CommandRegistry, ids: Seq<Seq<char>>, n: int) -> Seq<char>
    decreases n,
{
    if n <= 0 || n > ids.len() {
        Seq::empty()
    } else if n == 1 {
        latest_line(registry, ids[0])
    } else {
        catalog_text(registry, ids, n - 1) + "\n"@ + latest_line(registry, ids[n - 1])
    }
}

/// The CLI catalog: for each command exposed to the CLI, in id order, the
/// line of its latest contract.
pub fn render_cli_catalog(registry: &CommandRegistry) -> (r: String)
    ensures
        exists|ids: Seq<Seq<char>>|
            strictly_sorted(ids) && (forall|s: Seq<char>|
                ids.contains(s) <==> has_surface_contract(*registry, s, "cli"@)) && r@ == catalog_text(
                *registry,
                ids,
                ids.len() as int,
            ),
{
    let ids = surface_command_ids(registry, "cli");
    let mut out = String::new();
    let mut i: usize = 0;
    while i < ids.len()
        invariant
            i <= ids@.len(),
            forall|s: Seq<char>|
                views(ids@).contains(s) <==> has_surface_contract(*registry, s, "cli"@),
            out@ == catalog_text(*registry, views(ids@), i as int),
        decreases ids@.len() - i,
    {
        proof {
            assert(views(ids@)[i as int] == ids@[i as int]@);
            assert(views(ids@).contains(ids@[i as int]@));
            let k = choose|k: int|
                0 <= k < registry.commands@.len() && (#[trigger] registry.commands@[k]).id@
                    == ids@[i as int]@ && occurs(
                    registry.commands@[k].surfaces@,
                    registry.commands@[k].surfaces@.len() as int,
                    "cli"@,
                );
            lemma_latest_match(registry.commands@, ids@[i as int]@, registry.commands@.len() as int);
            assert(registry.commands@[k].id@ == ids@[i as int]@);
        }
        let command = match resolve_command(registry, ids[i].as_str(), None) {
            Ok(c) => c,
            Err(_) => {
                return out;
            },
        };
        let shown = u64_to_decimal(command.version as u64);
        let line = text(command.id.as_str()).concat("@").concat(shown.as_str()).concat("  ").concat(
            command.summary.as_str(),
        );
        if i > 0 {
            out = out.concat("\n");
        }
        out = out.concat(line.as_str());
        proof {
            let lm = latest_match(registry.commands@, ids@[i as int]@, registry.commands@.len() as int);
            assert(lm >= 0);
            assert(*command == registry.commands@[lm]);
            assert(shown@ == decimal(command.version as nat));
            assert(line@ =~= catalog_line(*command));
            assert(line@ == latest_line(*registry, views(ids@)[i as int]));
            reveal_strlit("\n");
            assert(out@ =~= catalog_text(*registry, views(ids@), i + 1));
        }
        i = i + 1;
    }
    out
}

/// The outcome of comparing an old and a new schema.
pub struct CompatibilityReport {
    pub backward_compatible: bool,
    pub reasons: Vec<String>,
}

/// The names listed in a schema's `required` keyword.
pub open spec fn required_names(schema: Json) -> Set<Seq<char>> {
    match member(schema, "required"@) {
        Some(Json::Array(vs)) => Set::new(
            |n: Seq<char>| exists|i: int| 0 <= i < vs@.len() && (#[trigger] vs@[i]) is Str && vs@[i]->Str_0@ == n,
        ),
        _ => Set::empty(),
    }
}

pub open spec fn added_required_reason(name: Seq<char>) -> Seq<char> {
    "new required property "@ + name + " rejects older payloads"@
}

/// Whether `additionalProperties` is the literal `false`.
pub open spec fn closed_schema(schema: Json) -> bool {
    member(schema, "additionalProperties"@) == Some(Json::Bool(false))
}

/// The reasons that the first `n` old properties give.
pub open spec fn property_reasons(old_props: Seq<(String, Json)>, n: int, new: Json) -> Seq<Seq<char>>
    decreases n,
{
    if n <= 0 || n > old_props.len() {
        Seq::empty()
    } else {
        let prev = property_reasons(old_props, n - 1, new);
        let name = old_props[n - 1].0@;
        let new_schema = match member(new, "properties"@) {
            Some(Json::Object(_)) => member(member(new, "properties"@)->0, name),
            _ => None,
        };
        match new_schema {
            Some(ns) => if same(ns, old_props[n - 1].1) {
                prev
            } else {
                prev.push("existing property "@ + name + " changed schema"@)
            },
            None => if closed_schema(new) {
                prev.push("existing property "@ + name + " is no longer accepted"@)
            } else {
                prev
            },
        }
    }
}

/// The reasons, in order, that an object schema change breaks older payloads,
/// given the newly required names in increasing order.
pub open spec fn object_change_reasons(old: Json, new: Json, added: Seq<Seq<char>>) -> Seq<Seq<char>> {
    let props = match member(old, "properties"@) {
        Some(Json::Object(ps)) => property_reasons(ps@, ps@.len() as int, new),
        _ => Seq::empty(),
    };
    let tail = if !closed_schema(old) && closed_schema(new) {
        seq!["new schema forbids additional properties previously accepted"@]
    } else {
        Seq::empty()
    };
    added.map_values(|n: Seq<char>| added_required_reason(n)) + props + tail
}

fn required_set(schema: &Json) -> (r: StrSet)
    ensures
        r.set() == required_names(*schema),
{
    let mut set = StrSet::new();
    if let Some(Json::Array(vs)) = schema.get("required") {
        let mut i: usize = 0;
        while i < vs.len()
            invariant
                i <= vs@.len(),
                forall|n: Seq<char>|
                    set.set().contains(n) <==> exists|k: int|
                        0 <= k < i && (#[trigger] vs@[k]) is Str && vs@[k]->Str_0@ == n,
            decreases vs@.len() - i,
        {
            if let Json::Str(n) = &vs[i] {
                set.insert(n.clone());
                proof {
                    assert forall|x: Seq<char>|
                        set.set().contains(x) <==> exists|k: int|
                            0 <= k < i + 1 && (#[trigger] vs@[k]) is Str && vs@[k]->Str_0@ == x by {
                        if x == n@ {
                            assert(vs@[i as int] is Str);
                        }
                    }
                }
            }
            i = i + 1;
        }
        assert(set.set() =~= required_names(*schema));
    } else {
        assert(set.set() =~= required_names(*schema));
    }
    set
}

fn is_closed(schema: &Json) -> (r: bool)
    ensures
        r == closed_schema(*schema),
{
    match schema.get("additionalProperties") {
        Some(Json::Bool(b)) => !*b,
        _ => false,
    }
}

/// Compares an old schema with its replacement: an object schema stays
/// backward compatible unless it newly requires a property, changes or drops
/// an existing property, or starts forbidding additional properties.
pub fn compare_object_schema_backward(old: &Json, new: &Json) -> (r: CompatibilityReport)
    ensures
        !(*old is Object) ==> r.backward_compatible == same(*old, *new) && views(r.reasons@) == (
        if same(*old, *new) {
            Seq::<Seq<char>>::empty()
        } else {
            seq!["non-object schema changed"@]
        }),
        *old is Object && !(*new is Object) ==> !r.backward_compatible && views(r.reasons@) == seq![
            "object schema changed to non-object schema"@,
        ],
        *old is Object && *new is Object ==> exists|added: Seq<Seq<char>>|
            strictly_sorted(added) && added.to_set() == required_names(*new).difference(
                required_names(*old),
            ) && views(r.reasons@) == object_change_reasons(*old, *new, added),
        r.backward_compatible == (r.reasons@.len() == 0),
{
    if !old.is_object() {
        let equal = json_same(old, new);
        let mut reasons = Vec::new();
        if !equal {
            reasons.push(text("non-object schema changed"));
        }
        proof {
            assert(views(reasons@) =~= (if same(*old, *new) {
                Seq::<Seq<char>>::empty()
            } else {
                seq!["non-object schema changed"@]
            }));
        }
        return CompatibilityReport { backward_compatible: equal, reasons };
    }
    if !new.is_object() {
        let mut reasons = Vec::new();
        reasons.push(text("object schema changed to non-object schema"));
        proof {
            assert(views(reasons@) =~= seq!["object schema changed to non-object schema"@]);
        }
        return CompatibilityReport { backward_compatible: false, reasons };
    }
    let old_required = required_set(old);
    let new_required = required_set(new);
    let new_names = new_required.to_vec();
    let mut added: Vec<String> = Vec::new();
    let mut reasons: Vec<String> = Vec::new();
    let mut i: usize = 0;
    while i < new_names.len()
        invariant
            i <= new_names@.len(),
            strictly_sorted(views(new_names@)),
            views(new_names@).to_set() == required_names(*new),
            old_required.set() == required_names(*old),
            strictly_sorted(views(added@)),
            forall|a: int|
                0 <= a < added@.len() ==> exists|j: int|
                    0 <= j < i && (#[trigger] added@[a])@ == new_names@[j]@,
            views(added@).to_set() == views(new_names@.subrange(0, i as int)).to_set().difference(
                required_names(*old),
            ),
            views(reasons@) == views(added@).map_values(|n: Seq<char>| added_required_reason(n)),
        decreases new_names@.len() - i,
    {
        let name = &new_names[i];
        let ghost before = views(added@);
        let ghost before_r = views(reasons@);
        if !old_required.contains(name.as_str()) {
            reasons.push(text("new required property ").concat(name.as_str()).concat(
                " rejects older payloads",
            ));
            added.push(name.clone());
            proof {
                assert forall|a: int, b: int|
                    0 <= a < b < views(added@).len() implies crate::text::seq_lt(
                    #[trigger] views(added@)[a],
                    #[trigger] views(added@)[b],
                ) by {
                    if b == added@.len() - 1 {
                        let j = choose|j: int|
                            0 <= j < i && (#[trigger] added@[a])@ == new_names@[j]@;
                        assert(views(new_names@)[j] == new_names@[j]@);
                        assert(views(new_names@)[i as int] == new_names@[i as int]@);
                    } else {
                        assert(views(added@)[a] == before[a]);
                        assert(views(added@)[b] == before[b]);
                    }
                }
                assert forall|a: int|
                    0 <= a < added@.len() implies exists|j: int|
                        0 <= j < i + 1 && (#[trigger] added@[a])@ == new_names@[j]@ by {
                    if a < added@.len() - 1 {
                        let j = choose|j: int|
                            0 <= j < i && (#[trigger] added@[a - 0])@ == new_names@[j]@;
                    } else {
                        assert(added@[a]@ == new_names@[i as int]@);
                    }
                }
                assert(views(added@) =~= before.push(name@));
                assert(views(reasons@) =~= before_r.push(added_required_reason(name@)));
                assert(before.push(name@).map_values(|n: Seq<char>| added_required_reason(n))
                    =~= before.map_values(|n: Seq<char>| added_required_reason(n)).push(
                    added_required_reason(name@),
                ));
                before.lemma_push_to_set_commute(name@);
            }
        }
        proof {
            let pre = views(new_names@.subrange(0, i as int));
            let post = views(new_names@.subrange(0, i + 1));
            assert(post =~= pre.push(name@));
            pre.lemma_push_to_set_commute(name@);
            if old_required.set().contains(name@) {
                assert(views(added@) == before);
            } else {
                assert(views(added@).to_set() == before.to_set().insert(name@));
            }
            assert(views(added@).to_set() =~= post.to_set().difference(required_names(*old)));
        }
        i = i + 1;
    }
    proof {
        assert(new_names@.subrange(0, new_names@.len() as int) =~= new_names@);
        assert(views(added@).to_set() =~= required_names(*new).difference(required_names(*old)));
    }
    if let Some(Json::Object(ps)) = old.get("properties") {
        let new_props = new.get("properties");
        let mut k: usize = 0;
        let ghost base = views(reasons@);
        while k < ps.len()
            invariant
                k <= ps@.len(),
                new_props is Some <==> member(*new, "properties"@) is Some,
                new_props is Some ==> *new_props->0 == member(*new, "properties"@)->0,
                member(*old, "properties"@) == Some(Json::Object(*ps)),
                views(reasons@) == base + property_reasons(ps@, k as int, *new),
            decreases ps@.len() - k,
        {
            let name = ps[k].0.as_str();
            let ghost before_r = views(reasons@);
            let new_schema: Option<&Json> = match new_props {
                Some(np) => if np.is_object() {
                    np.get(name)
                } else {
                    None
                },
                None => None,
            };
            let ghost nsch = match member(*new, "properties"@) {
                Some(Json::Object(_)) => member(member(*new, "properties"@)->0, name@),
                _ => None,
            };
            assert(new_schema is Some <==> nsch is Some);
            assert(new_schema is Some ==> *new_schema->0 == nsch->0);
            match new_schema {
                Some(ns) => {
                    if !json_same(ns, &ps[k].1) {
                        let line = text("existing property ").concat(name).concat(
                            " changed schema",
                        );
                        reasons.push(line);
                        assert(views(reasons@) =~= before_r.push(line@));
                    }
                },
                None => {
                    if is_closed(new) {
                        let line = text("existing property ").concat(name).concat(
                            " is no longer accepted",
                        );
                        reasons.push(line);
                        assert(views(reasons@) =~= before_r.push(line@));
                    }
                },
            }
            proof {
                let prev = property_reasons(ps@, k as int, *new);
                assert(property_reasons(ps@, k + 1, *new) == {
                    let nm = ps@[k as int].0@;
                    let nsch = match member(*new, "properties"@) {
                        Some(Json::Object(_)) => member(member(*new, "properties"@)->0, nm),
                        _ => None,
                    };
                    match nsch {
                        Some(x) => if same(x, ps@[k as int].1) {
                            prev
                        } else {
                            prev.push("existing property "@ + nm + " changed schema"@)
                        },
                        None => if closed_schema(*new) {
                            prev.push("existing property "@ + nm + " is no longer accepted"@)
                        } else {
                            prev
                        },
                    }
                });
                assert(views(reasons@) =~= base + property_reasons(ps@, k + 1, *new));
            }
            k = k + 1;
        }
    }
    if !is_closed(old) && is_closed(new) {
        reasons.push(text("new schema forbids additional properties previously accepted"));
    }
    proof {
        assert(views(reasons@) =~= object_change_reasons(*old, *new, views(added@)));
    }
    CompatibilityReport { backward_compatible: reasons.len() == 0, reasons }
}

/// The property names of an object schema, each once.
pub open spec fn distinct_properties(schema: Json) -> bool {
    match member(schema, "properties"@) {
        Some(Json::Object(ps)) => forall|i: int, j: int|
            0 <= i < j < ps@.len() ==> (#[trigger] ps@[i]).0@ != (#[trigger] ps@[j]).0@,
        _ => true,
    }
}

proof fn lemma_own_properties_kept(schema: Json, ps: Seq<(String, Json)>, n: int)
    requires
        member(schema, "properties"@) matches Some(Json::Object(v)) && v@ == ps,
        distinct_properties(schema),
        0 <= n <= ps.len(),
    ensures
        property_reasons(ps, n, schema).len() == 0,
    decreases n,
{
    if n > 0 {
        lemma_own_properties_kept(schema, ps, n - 1);
        let name = ps[n - 1].0@;
        crate::json::lemma_entry_index(ps, name);
        let e = crate::json::entry_index(ps, name);
        assert(ps[n - 1].0@ == name);
        if e < n - 1 {
            assert(ps[e].0@ != ps[n - 1].0@);
        }
        assert(e == n - 1);
        crate::json::lemma_same_reflexive(ps[n - 1].1);
    }
}

/// A schema is backward compatible with itself: an object schema whose
/// property names are distinct gives no reason when compared with itself,
/// and any schema is the same as itself.
pub proof fn law_schema_compatible_with_itself(schema: Json)
    requires
        distinct_properties(schema),
    ensures
        same(schema, schema),
        forall|added: Seq<Seq<char>>|
            strictly_sorted(added) && added.to_set() == required_names(schema).difference(
                required_names(schema),
            ) ==> #[trigger] object_change_reasons(schema, schema, added).len() == 0,
{
    crate::json::lemma_same_reflexive(schema);
    assert forall|added: Seq<Seq<char>>|
        strictly_sorted(added) && added.to_set() == required_names(schema).difference(
            required_names(schema),
        ) implies #[trigger] object_change_reasons(schema, schema, added).len() == 0 by {
        if added.len() > 0 {
            assert(added.to_set().contains(added[0]));
        }
        if let Some(Json::Object(ps)) = member(schema, "properties"@) {
            lemma_own_properties_kept(schema, ps@, ps@.len() as int);
        }
    }
}

} // verus!
