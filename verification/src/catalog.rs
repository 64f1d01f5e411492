//! The compact command list that surfaces show: for each command id that a
//! surface may use (and that starts with a prefix, when one is given), its
//! latest contract, in id order, up to a limit.
use vstd::prelude::*;
use vstd::string::StringExecFns;
use crate::collections::{views, StrMap};
use crate::indexing::has_prefix;
use crate::json::{same, Json};
use crate::registry::{
    contains_str, first_match, latest_match, occurs, resolve_command, versions_of, CommandRegistry,
    CommandSpec, ResolveError,
};
use crate::policy::str_opt_view;
use crate::text::{lemma_sorted_unique, sorted_list, strictly_sorted};

verus! {

/// Whether a command is listed: it is exposed on `surface` and its id
/// starts with `prefix`, each when given.
pub open spec fn listed(c: CommandSpec, surface: Option<Seq<char>>, prefix: Option<Seq<char>>) -> bool {
    &&& (surface matches Some(s) ==> occurs(c.surfaces@, c.surfaces@.len() as int, s))
    &&& (prefix matches Some(p) ==> c.id@.len() >= p.len() && c.id@.subrange(0, p.len() as int) == p)
}

/// Among the first `n` listed commands with this id, the first one of the
/// highest version; -1 when there is none.
pub open spec fn listed_latest(
    cmds: Seq<CommandSpec>,
    id: Seq<char>,
    surface: Option<Seq<char>>,
    prefix: Option<Seq<char>>,
    n: int,
) -> int
    decreases n,
{
    if n <= 0 || n > cmds.len() {
        -1
    } else {
        let p = listed_latest(cmds, id, surface, prefix, n - 1);
        if cmds[n - 1].id@ == id && listed(cmds[n - 1], surface, prefix) && (p < 0
            || cmds[n - 1].version > cmds[p].version) {
            n - 1
        } else {
            p
        }
    }
}

proof fn lemma_listed_latest(
    cmds: Seq<CommandSpec>,
    id: Seq<char>,
    surface: Option<Seq<char>>,
    prefix: Option<Seq<char>>,
    n: int,
)
    requires
        0 <= n <= cmds.len(),
    ensures
        -1 <= listed_latest(cmds, id, surface, prefix, n) < n,
        listed_latest(cmds, id, surface, prefix, n) >= 0 ==> cmds[listed_latest(
            cmds,
            id,
            surface,
            prefix,
            n,
        )].id@ == id,
        listed_latest(cmds, id, surface, prefix, n) < 0 <==> !exists|k: int|
            0 <= k < n && (#[trigger] cmds[k]).id@ == id && listed(cmds[k], surface, prefix),
    decreases n,
{
    if n > 0 {
        lemma_listed_latest(cmds, id, surface, prefix, n - 1);
        if listed_latest(cmds, id, surface, prefix, n - 1) < 0 && !(cmds[n - 1].id@ == id && listed(
            cmds[n - 1],
            surface,
            prefix,
        )) {
            assert forall|k: int| 0 <= k < n implies !((#[trigger] cmds[k]).id@ == id && listed(
                cmds[k],
                surface,
                prefix,
            )) by {
                if k < n - 1 {
                }
            }
        }
    }
}

/// The ids of the listed commands.
pub open spec fn listed_ids(
    cmds: Seq<CommandSpec>,
    surface: Option<Seq<char>>,
    prefix: Option<Seq<char>>,
) -> Set<Seq<char>> {
    Set::new(
        |id: Seq<char>|
            exists|k: int|
                0 <= k < cmds.len() && (#[trigger] cmds[k]).id@ == id && listed(cmds[k], surface, prefix),
    )
}

/// Whether `j` is the compact summary of command `c`: its effect class, id,
/// permission, stability, summary and version, keys in JSON map order.
pub open spec fn is_summary_of(j: Json, c: CommandSpec) -> bool {
    &&& j is Object
    &&& j->Object_0@.len() == 6
    &&& j->Object_0@[0].0@ == "effect_class"@ && j->Object_0@[0].1 is Str
        && j->Object_0@[0].1->Str_0@ == c.effect_class@
    &&& j->Object_0@[1].0@ == "id"@ && j->Object_0@[1].1 is Str && j->Object_0@[1].1->Str_0@
        == c.id@
    &&& j->Object_0@[2].0@ == "permission"@ && j->Object_0@[2].1 is Str
        && j->Object_0@[2].1->Str_0@ == c.permission@
    &&& j->Object_0@[3].0@ == "stability"@ && j->Object_0@[3].1 is Str
        && j->Object_0@[3].1->Str_0@ == c.stability@
    &&& j->Object_0@[4].0@ == "summary"@ && j->Object_0@[4].1 is Str && j->Object_0@[4].1->Str_0@
        == c.summary@
    &&& j->Object_0@[5].0@ == "version"@ && j->Object_0@[5].1 == Json::Int(c.version as i64)
}

fn summary(c: &CommandSpec) -> (r: Json)
    ensures
        is_summary_of(r, *c),
{
    let mut entries: Vec<(String, Json)> = Vec::new();
    entries.push((String::from_str("effect_class"), Json::Str(c.effect_class.clone())));
    entries.push((String::from_str("id"), Json::Str(c.id.clone())));
    entries.push((String::from_str("permission"), Json::Str(c.permission.clone())));
    entries.push((String::from_str("stability"), Json::Str(c.stability.clone())));
    entries.push((String::from_str("summary"), Json::Str(c.summary.clone())));
    entries.push((String::from_str("version"), Json::Int(c.version as i64)));
    Json::Object(entries)
}

fn is_listed(c: &CommandSpec, surface: Option<&str>, prefix: Option<&str>) -> (r: bool)
    ensures
        r == listed(*c, str_opt_view(surface), str_opt_view(prefix)),
{
    let on_surface = match surface {
        Some(s) => contains_str(&c.surfaces, s),
        None => true,
    };
    let prefixed = match prefix {
        Some(p) => has_prefix(c.id.as_str(), p),
        None => true,
    };
    on_surface && prefixed
}

/// `r` is the compact list of the commands on surface `s` whose id starts
/// with prefix `p` (each when given): for each such id, in increasing order
/// and at most `limit` of them, the summary of its first contract of the
/// highest version.
pub open spec fn is_compact_list(
    r: Json,
    registry: CommandRegistry,
    s: Option<Seq<char>>,
    p: Option<Seq<char>>,
    limit: int,
) -> bool {
    let cmds = registry.commands@;
    let ids = sorted_list(listed_ids(cmds, s, p));
    let n = if ids.len() < limit {
        ids.len() as int
    } else {
        limit
    };
    &&& strictly_sorted(ids)
    &&& ids.to_set() == listed_ids(cmds, s, p)
    &&& r is Object
    &&& r->Object_0@.len() == 2
    &&& r->Object_0@[0].0@ == "commands"@
    &&& r->Object_0@[0].1 is Array
    &&& r->Object_0@[0].1->Array_0@.len() == n
    &&& forall|t: int|
        0 <= t < n ==> is_summary_of(
            #[trigger] r->Object_0@[0].1->Array_0@[t],
            cmds[listed_latest(cmds, ids[t], s, p, cmds.len() as int)],
        )
    &&& r->Object_0@[1].0@ == "registry_format"@
    &&& r->Object_0@[1].1 == Json::Int(registry.registry_format as i64)
}

/// The compact list of the commands on `surface` whose id starts with
/// `prefix` (each when given), at most `limit` of them.
pub fn compact_list(
    registry: &CommandRegistry,
    surface: Option<&str>,
    prefix: Option<&str>,
    limit: usize,
) -> (r: Json)
    ensures
        is_compact_list(r, *registry, str_opt_view(surface), str_opt_view(prefix), limit as int),
{
    let ghost cmds = registry.commands@;
    let ghost s = str_opt_view(surface);
    let ghost p = str_opt_view(prefix);
    let mut latest: StrMap<usize> = StrMap::new();
    let mut i: usize = 0;
    while i < registry.commands.len()
        invariant
            cmds == registry.commands@,
            s == str_opt_view(surface),
            p == str_opt_view(prefix),
            i <= cmds.len(),
            forall|id: Seq<char>|
                #![trigger latest.map().dom().contains(id)]
                (latest.map().dom().contains(id) <==> listed_latest(cmds, id, s, p, i as int) >= 0)
                    && (latest.map().dom().contains(id) ==> latest.map()[id] == listed_latest(
                    cmds,
                    id,
                    s,
                    p,
                    i as int,
                )),
        decreases cmds.len() - i,
    {
        let c = &registry.commands[i];
        proof {
            lemma_listed_latest(cmds, c.id@, s, p, i as int);
        }
        if is_listed(c, surface, prefix) {
            let replace = match latest.get(c.id.as_str()) {
                Some(e) => registry.commands[*e].version < c.version,
                None => true,
            };
            if replace {
                latest.insert(c.id.clone(), i);
            }
        }
        i = i + 1;
    }
    let keys = latest.keys();
    proof {
        assert forall|id: Seq<char>| views(keys@).to_set().contains(id) == listed_ids(cmds, s, p).contains(id) by {
            lemma_listed_latest(cmds, id, s, p, cmds.len() as int);
            assert(latest.map().dom().contains(id) == views(keys@).to_set().contains(id));
        }
        assert(views(keys@).to_set() =~= listed_ids(cmds, s, p));
        lemma_sorted_unique(sorted_list(listed_ids(cmds, s, p)), views(keys@));
    }
    let ghost ids = sorted_list(listed_ids(cmds, s, p));
    let mut items: Vec<Json> = Vec::new();
    let mut t: usize = 0;
    while t < keys.len() && t < limit
        invariant
            cmds == registry.commands@,
            ids == views(keys@),
            t <= keys@.len(),
            t <= limit,
            items@.len() == t,
            forall|id: Seq<char>|
                #![trigger latest.map().dom().contains(id)]
                (latest.map().dom().contains(id) <==> listed_latest(cmds, id, s, p, cmds.len() as int) >= 0)
                    && (latest.map().dom().contains(id) ==> latest.map()[id] == listed_latest(
                    cmds,
                    id,
                    s,
                    p,
                    cmds.len() as int,
                )),
            views(keys@).to_set() == latest.map().dom(),
            forall|x: int|
                0 <= x < t ==> is_summary_of(
                    #[trigger] items@[x],
                    cmds[listed_latest(cmds, ids[x], s, p, cmds.len() as int)],
                ),
        decreases keys@.len() - t,
    {
        let key = &keys[t];
        proof {
            assert(views(keys@)[t as int] == key@);
            assert(views(keys@).to_set().contains(key@)) by {
                assert(views(keys@).contains(key@));
            }
            lemma_listed_latest(cmds, key@, s, p, cmds.len() as int);
        }
        let k = match latest.get(key.as_str()) {
            Some(k) => *k,
            None => 0,
        };
        items.push(summary(&registry.commands[k]));
        t = t + 1;
    }
    let mut entries: Vec<(String, Json)> = Vec::new();
    entries.push((String::from_str("commands"), Json::Array(items)));
    entries.push((String::from_str("registry_format"), Json::Int(registry.registry_format as i64)));
    Json::Object(entries)
}

/// Whether `j` is the array of the strings `v`, in order.
pub open spec fn is_string_array(j: Json, v: Seq<String>) -> bool {
    j is Array && j->Array_0@.len() == v.len() && forall|i: int|
        0 <= i < v.len() ==> (#[trigger] j->Array_0@[i]) is Str && j->Array_0@[i]->Str_0@ == v[i]@
}

fn string_array(v: &Vec<String>) -> (r: Json)
    ensures
        is_string_array(r, v@),
{
    let mut items: Vec<Json> = Vec::new();
    let mut i: usize = 0;
    while i < v.len()
        invariant
            i <= v@.len(),
            items@.len() == i,
            forall|x: int| 0 <= x < i ==> (#[trigger] items@[x]) is Str && items@[x]->Str_0@ == v@[x]@,
        decreases v@.len() - i,
    {
        items.push(Json::Str(v[i].clone()));
        i = i + 1;
    }
    Json::Array(items)
}

/// Whether `j` is command contract `c` as JSON: its fields, keys in JSON map
/// order.
pub open spec fn is_contract_json(j: Json, c: CommandSpec) -> bool {
    &&& j is Object
    &&& j->Object_0@.len() == 11
    &&& j->Object_0@[0].0@ == "arguments_schema"@ && same(c.arguments_schema, j->Object_0@[0].1)
    &&& j->Object_0@[1].0@ == "effect_class"@ && j->Object_0@[1].1 is Str
        && j->Object_0@[1].1->Str_0@ == c.effect_class@
    &&& j->Object_0@[2].0@ == "errors"@ && is_string_array(j->Object_0@[2].1, c.errors@)
    &&& j->Object_0@[3].0@ == "id"@ && j->Object_0@[3].1 is Str && j->Object_0@[3].1->Str_0@
        == c.id@
    &&& j->Object_0@[4].0@ == "idempotency"@ && j->Object_0@[4].1 is Str
        && j->Object_0@[4].1->Str_0@ == c.idempotency@
    &&& j->Object_0@[5].0@ == "permission"@ && j->Object_0@[5].1 is Str
        && j->Object_0@[5].1->Str_0@ == c.permission@
    &&& j->Object_0@[6].0@ == "result_schema"@ && same(c.result_schema, j->Object_0@[6].1)
    &&& j->Object_0@[7].0@ == "stability"@ && j->Object_0@[7].1 is Str
        && j->Object_0@[7].1->Str_0@ == c.stability@
    &&& j->Object_0@[8].0@ == "summary"@ && j->Object_0@[8].1 is Str && j->Object_0@[8].1->Str_0@
        == c.summary@
    &&& j->Object_0@[9].0@ == "surfaces"@ && is_string_array(j->Object_0@[9].1, c.surfaces@)
    &&& j->Object_0@[10].0@ == "version"@ && j->Object_0@[10].1 == Json::Int(c.version as i64)
}

fn contract_json(c: &CommandSpec) -> (r: Json)
    ensures
        is_contract_json(r, *c),
{
    let mut entries: Vec<(String, Json)> = Vec::new();
    entries.push((String::from_str("arguments_schema"), c.arguments_schema.duplicate()));
    entries.push((String::from_str("effect_class"), Json::Str(c.effect_class.clone())));
    entries.push((String::from_str("errors"), string_array(&c.errors)));
    entries.push((String::from_str("id"), Json::Str(c.id.clone())));
    entries.push((String::from_str("idempotency"), Json::Str(c.idempotency.clone())));
    entries.push((String::from_str("permission"), Json::Str(c.permission.clone())));
    entries.push((String::from_str("result_schema"), c.result_schema.duplicate()));
    entries.push((String::from_str("stability"), Json::Str(c.stability.clone())));
    entries.push((String::from_str("summary"), Json::Str(c.summary.clone())));
    entries.push((String::from_str("surfaces"), string_array(&c.surfaces)));
    entries.push((String::from_str("version"), Json::Int(c.version as i64)));
    Json::Object(entries)
}

/// The description of a command: the contract that `resolve_command` picks,
/// with the registry format and its common errors.
pub fn describe(registry: &CommandRegistry, id: &str, version: Option<u32>) -> (r: Result<
    Json,
    ResolveError,
>)
    ensures
        ({
            let cmds = registry.commands@;
            let latest = latest_match(cmds, id@, cmds.len() as int);
            let chosen = match version {
                None => latest,
                Some(v) => if latest >= 0 {
                    first_match(cmds, id@, v, cmds.len() as int)
                } else {
                    -1
                },
            };
            &&& r is Ok <==> chosen >= 0
            &&& latest < 0 ==> (r matches Err(e) && e is UnknownCommand)
            &&& latest >= 0 && chosen < 0 ==> (r matches Err(e) && e is VersionIncompatible
                && e->supported@ == versions_of(cmds, id@, cmds.len() as int))
            &&& r matches Ok(j) ==> {
                &&& j is Object
                &&& j->Object_0@.len() == 3
                &&& j->Object_0@[0].0@ == "command"@ && is_contract_json(j->Object_0@[0].1, cmds[chosen])
                &&& j->Object_0@[1].0@ == "common_errors"@ && is_string_array(
                    j->Object_0@[1].1,
                    registry.common_errors@,
                )
                &&& j->Object_0@[2].0@ == "registry_format"@ && j->Object_0@[2].1 == Json::Int(
                    registry.registry_format as i64,
                )
            }
        }),
{
    let command = resolve_command(registry, id, version)?;
    let mut entries: Vec<(String, Json)> = Vec::new();
    entries.push((String::from_str("command"), contract_json(command)));
    entries.push((String::from_str("common_errors"), string_array(&registry.common_errors)));
    entries.push((String::from_str("registry_format"), Json::Int(registry.registry_format as i64)));
    Ok(Json::Object(entries))
}

} // verus!
