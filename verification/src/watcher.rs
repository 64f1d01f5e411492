//! The decisions of the background watcher: which file-system events turn
//! into index hints and which make a project's index stale, the hint batches
//! it sends, the roots it watches, and when it may recover a stale index.
//! The host receives the events, reads the file system and runs the loop.
use vstd::prelude::*;
use vstd::string::StrSliceExecFns;
use vstd::string::StringExecFns;
use crate::collections::{views, StrMap, StrSet};
use crate::contracts::{CommandRequest, RequestContext};
use crate::indexing::{hint_result, validate_hints};
use crate::json::Json;
use crate::text::{decimal, seq_lt, u64_to_decimal};

verus! {

/// A project's hints are dropped (and its index made stale) past this many.
pub const MAX_HINTS_PER_BATCH: usize = 32;

/// Files larger than this are not hashed in the background.
pub const MAX_BACKGROUND_FILE_BYTES: u64 = 67108864;

/// What kind of change an event reports.
pub enum EventClass {
    /// A file was read: nothing changed.
    Access,
    /// The watcher lost track (a rescan is needed, or no path was named).
    Rescan,
    /// A folder came or went, something was renamed, or the kind is unknown.
    Uncertain,
    /// A file's content or existence changed.
    Content,
}

/// One path of an event against one watched project root.
pub struct PathUnderRoot {
    pub project_id: String,
    /// The path relative to the root, or `None` when it is not under it.
    pub relative: Option<String>,
    pub is_dir: bool,
    /// The file's length, when it could be read.
    pub file_len: Option<u64>,
}

/// The hints waiting for each project.
pub open spec fn pending_view(p: StrMap<StrSet>) -> Map<Seq<char>, Set<Seq<char>>> {
    Map::new(|k: Seq<char>| p.map().dom().contains(k), |k: Seq<char>| p.map()[k].set())
}

/// Hints use `/` as their separator.
pub open spec fn slash_path(s: Seq<char>) -> Seq<char> {
    s.map_values(|c: char| if c == '\\' { '/' } else { c })
}

/// Whether a path makes its project's index stale instead of becoming a
/// hint: the event is uncertain, the path is the root itself or a
/// directory, the file is too large to hash in the background, or the path
/// is not a valid hint.
pub open spec fn makes_stale(windows: bool, f: PathUnderRoot, uncertain: bool) -> bool {
    let rel = f.relative->0@;
    uncertain || rel.len() == 0 || f.is_dir || (f.file_len matches Some(l) && l
        > MAX_BACKGROUND_FILE_BYTES) || hint_result(windows, slash_path(rel)) is Err
}

/// The hints of `pid` with `path` added.
pub open spec fn with_hint(pending: Map<Seq<char>, Set<Seq<char>>>, pid: Seq<char>, path: Seq<char>) -> Set<
    Seq<char>,
> {
    (if pending.dom().contains(pid) {
        pending[pid]
    } else {
        Set::empty()
    }).insert(path)
}

/// One path of an event: the pending hints after it, and whether its
/// project is made stale.
pub open spec fn fact_step(windows: bool, pending: Map<Seq<char>, Set<Seq<char>>>, f: PathUnderRoot, uncertain: bool) -> (
    Map<Seq<char>, Set<Seq<char>>>,
    bool,
) {
    match f.relative {
        None => (pending, false),
        Some(rel) => {
            let pid = f.project_id@;
            if makes_stale(windows, f, uncertain) {
                (pending.remove(pid), true)
            } else {
                let paths = with_hint(pending, pid, slash_path(rel@));
                if paths.len() > MAX_HINTS_PER_BATCH {
                    (pending.remove(pid), true)
                } else {
                    (pending.insert(pid, paths), false)
                }
            }
        },
    }
}

/// The first `n` paths of an event, in order: the pending hints after them,
/// and the projects made stale, once per path that made them so.
pub open spec fn collect_paths(windows: bool, 
    pending: Map<Seq<char>, Set<Seq<char>>>,
    facts: Seq<PathUnderRoot>,
    n: int,
    uncertain: bool,
) -> (Map<Seq<char>, Set<Seq<char>>>, Seq<Seq<char>>)
    decreases n,
{
    if n <= 0 {
        (pending, Seq::empty())
    } else {
        let (before, stale) = collect_paths(windows, pending, facts, n - 1, uncertain);
        let (after, turned) = fact_step(windows, before, facts[n - 1], uncertain);
        (after, if turned {
            stale.push(facts[n - 1].project_id@)
        } else {
            stale
        })
    }
}

/// No project holds more pending hints than one batch may carry.
pub open spec fn hints_bounded(m: Map<Seq<char>, Set<Seq<char>>>) -> bool {
    forall|k: Seq<char>| m.dom().contains(k) ==> (#[trigger] m[k]).len() <= MAX_HINTS_PER_BATCH
}

/// All sets of pending hints are finite.
pub open spec fn finite_hints(m: Map<Seq<char>, Set<Seq<char>>>) -> bool {
    forall|k: Seq<char>| m.dom().contains(k) ==> (#[trigger] m[k]).finite()
}

fn slash(s: &str) -> (r: String)
    ensures
        r@ == slash_path(s@),
{
    proof {
        reveal_strlit("/");
    }
    let n = s.unicode_len();
    let mut out = String::from_str("");
    proof {
        reveal_strlit("");
    }
    let mut i: usize = 0;
    while i < n
        invariant
            n == s@.len(),
            i <= n,
            out@ == slash_path(s@.subrange(0, i as int)),
        decreases n - i,
    {
        let c = s.get_char(i);
        if c == '\\' {
            proof {
                reveal_strlit("/");
            }
            out = out.concat("/");
        } else {
            let one = s.substring_char(i, i + 1);
            assert(one@ =~= seq![c]);
            out = out.concat(one);
        }
        assert(out@ =~= slash_path(s@.subrange(0, i + 1)));
        i = i + 1;
    }
    assert(s@.subrange(0, n as int) =~= s@);
    out
}

fn path_makes_stale(f: &PathUnderRoot, rel: &str, uncertain: bool, windows: bool) -> (r: bool)
    requires
        f.relative matches Some(x) && x@ == rel@,
    ensures
        r == makes_stale(windows, *f, uncertain),
{
    if uncertain || rel.unicode_len() == 0 || f.is_dir {
        return true;
    }
    match f.file_len {
        Some(l) => if l > MAX_BACKGROUND_FILE_BYTES {
            return true;
        },
        None => {},
    }
    let hint = slash(rel);
    let mut one: Vec<String> = Vec::new();
    one.push(hint);
    let checked = validate_hints(one.as_slice(), windows);
    proof {
        assert(one@ =~= seq![one@[0]]);
        reveal_with_fuel(crate::indexing::first_hint_error, 2);
    }
    checked.is_err()
}

/// Takes in one event: reading a file changes nothing; an event the watcher
/// lost track of makes every watched project stale and drops all pending
/// hints; otherwise each path under a project root becomes a hint for that
/// project, or makes the project stale and drops its hints (see
/// `makes_stale`, and a project with too many hints). The result lists the
/// projects to mark stale, in order.
pub fn collect_event(
    pending: &mut StrMap<StrSet>,
    class: EventClass,
    facts: &Vec<PathUnderRoot>,
    roots: &StrMap<String>,
    windows: bool,
) -> (stale: Vec<String>)
    requires
        finite_hints(pending_view(*old(pending))),
    ensures
        finite_hints(pending_view(*final(pending))),
        hints_bounded(pending_view(*old(pending))) ==> hints_bounded(pending_view(*final(pending))),
        class is Access ==> stale@.len() == 0 && pending_view(*final(pending)) == pending_view(
            *old(pending),
        ),
        class is Rescan ==> views(stale@) == roots.key_seq() && pending_view(*final(pending))
            == Map::<Seq<char>, Set<Seq<char>>>::empty(),
        (class is Uncertain || class is Content) ==> (pending_view(*final(pending)), views(stale@))
            == collect_paths(windows, 
            pending_view(*old(pending)),
            facts@,
            facts@.len() as int,
            class is Uncertain,
        ),
{
    match class {
        EventClass::Access => {
            return Vec::new();
        },
        EventClass::Rescan => {
            let all = roots.keys();
            *pending = StrMap::new();
            proof {
                assert(pending_view(*pending) =~= Map::<Seq<char>, Set<Seq<char>>>::empty());
            }
            return all;
        },
        _ => {},
    }
    let uncertain = match class {
        EventClass::Uncertain => true,
        _ => false,
    };
    let ghost start = pending_view(*pending);
    let mut stale: Vec<String> = Vec::new();
    let mut i: usize = 0;
    while i < facts.len()
        invariant
            i <= facts@.len(),
            finite_hints(pending_view(*pending)),
            hints_bounded(start) ==> hints_bounded(pending_view(*pending)),
            (pending_view(*pending), views(stale@)) == collect_paths(windows, 
                start,
                facts@,
                i as int,
                uncertain,
            ),
        decreases facts@.len() - i,
    {
        let f = &facts[i];
        let ghost before = pending_view(*pending);
        let ghost stale_before = views(stale@);
        match &f.relative {
            None => {},
            Some(rel) => {
                let pid = f.project_id.as_str();
                if path_makes_stale(f, rel.as_str(), uncertain, windows) {
                    pending.remove(pid);
                    stale.push(f.project_id.clone());
                    proof {
                        assert(pending_view(*pending) =~= before.remove(pid@));
                        assert(views(stale@) =~= stale_before.push(pid@));
                    }
                } else {
                    let hint = slash(rel.as_str());
                    let mut paths = match pending.get(pid) {
                        Some(p) => p.clone(),
                        None => StrSet::new(),
                    };
                    paths.insert(hint);
                    proof {
                        assert(paths.set() =~= with_hint(before, pid@, slash_path(rel@)));
                        assert(paths.set().finite());
                    }
                    if paths.len() > MAX_HINTS_PER_BATCH {
                        pending.remove(pid);
                        stale.push(f.project_id.clone());
                        proof {
                            assert(pending_view(*pending) =~= before.remove(pid@));
                            assert(views(stale@) =~= stale_before.push(pid@));
                        }
                    } else {
                        pending.insert(f.project_id.clone(), paths);
                        proof {
                            assert(pending_view(*pending) =~= before.insert(
                                pid@,
                                with_hint(before, pid@, slash_path(rel@)),
                            ));
                        }
                    }
                }
            },
        }
        i = i + 1;
    }
    stale
}

/// How long the user has been idle, from the system tick count and the tick
/// of the last input (both wrap around): nothing when that reads as more than
/// a week, which a wrapped or injected input tick can produce.
pub fn idle_from_ticks(now_tick: u32, last_input_tick: u32) -> (r: Option<u64>)
    ensures
        ({
            let elapsed: int = if now_tick >= last_input_tick {
                now_tick - last_input_tick
            } else {
                now_tick - last_input_tick + 4294967296
            };
            &&& elapsed <= 604800000 ==> r == Some(elapsed as u64)
            &&& elapsed > 604800000 ==> r is None
        }),
{
    let elapsed: u64 = if now_tick >= last_input_tick {
        (now_tick - last_input_tick) as u64
    } else {
        (now_tick as u64) + 4294967296 - (last_input_tick as u64)
    };
    if elapsed <= 604800000 {
        Some(elapsed)
    } else {
        None
    }
}

/// The quiet time after the last event before a recovery scan.
pub const RECOVERY_QUIET_PERIOD_MS: u64 = 2000;

/// How long the user must have been idle before a recovery scan.
pub const RECOVERY_IDLE_MS: u64 = 30000;

/// Whether a stale index may be recovered now: no hints wait, no foreground
/// command runs, events have been quiet for a while and the user has been
/// idle for at least `idle_threshold_ms` (an unknown idle time is not idle).
pub fn may_recover(
    hints_pending: bool,
    foreground_active: bool,
    quiet_ms: u64,
    user_idle_ms: Option<u64>,
    idle_threshold_ms: u64,
) -> (r: bool)
    ensures
        r == (!hints_pending && !foreground_active && quiet_ms >= RECOVERY_QUIET_PERIOD_MS && (
        user_idle_ms matches Some(idle) && idle >= idle_threshold_ms)),
{
    if hints_pending || foreground_active || quiet_ms < RECOVERY_QUIET_PERIOD_MS {
        return false;
    }
    match user_idle_ms {
        Some(idle) => idle >= idle_threshold_ms,
        None => false,
    }
}

/// The projects a recovery scan may try, in project order: those whose root
/// is watched and that were not attempted recently.
pub open spec fn is_recovery_candidate(
    roots: StrMap<String>,
    watched: StrSet,
    recent: StrSet,
    pid: Seq<char>,
) -> bool {
    &&& roots.map().dom().contains(pid)
    &&& watched.set().contains(roots.map()[pid]@)
    &&& !recent.set().contains(pid)
}

pub fn recovery_candidates(roots: &StrMap<String>, watched: &StrSet, recent: &StrSet) -> (r: Vec<
    String,
>)
    ensures
        views(r@) == roots.key_seq().filter(
            |p: Seq<char>| is_recovery_candidate(*roots, *watched, *recent, p),
        ),
{
    let keys = roots.keys();
    let ghost pred = |p: Seq<char>| is_recovery_candidate(*roots, *watched, *recent, p);
    let mut out: Vec<String> = Vec::new();
    let mut i: usize = 0;
    proof {
        reveal(Seq::filter);
        assert(views(keys@).subrange(0, 0) =~= Seq::<Seq<char>>::empty());
    }
    while i < keys.len()
        invariant
            i <= keys@.len(),
            views(keys@) == roots.key_seq(),
            views(keys@).to_set() == roots.map().dom(),
            pred == (|p: Seq<char>| is_recovery_candidate(*roots, *watched, *recent, p)),
            views(out@) == views(keys@).subrange(0, i as int).filter(pred),
        decreases keys@.len() - i,
    {
        let key = &keys[i];
        proof {
            assert(views(keys@).subrange(0, i + 1).drop_last() =~= views(keys@).subrange(0, i as int));
            assert(views(keys@).subrange(0, i + 1).last() == key@);
            assert(views(keys@).to_set().contains(key@));
        }
        let candidate = match roots.get(key.as_str()) {
            Some(root) => watched.contains(root.as_str()) && !recent.contains(key.as_str()),
            None => false,
        };
        assert(candidate == pred(key@));
        let ghost before = views(out@);
        if candidate {
            out.push(key.clone());
            assert(views(out@) =~= before.push(key@));
        }
        proof {
            reveal(Seq::filter);
        }
        assert(views(out@) =~= views(keys@).subrange(0, i + 1).filter(pred));
        i = i + 1;
    }
    assert(views(keys@).subrange(0, keys@.len() as int) =~= views(keys@));
    out
}

/// The projects with hints waiting, in project order.
pub open spec fn projects_with_hints(p: StrMap<StrSet>) -> Seq<Seq<char>> {
    p.key_seq().filter(|k: Seq<char>| p.map()[k].set().len() > 0)
}

/// The id of the `k`-th hint request of a batch: the host's process id, its
/// start time and the request's sequence number (which wraps around).
pub open spec fn hint_request_id(pid: u32, started_at_unix_ms: u64, first_sequence: u64, k: int) -> Seq<
    char,
> {
    "WATCH-"@ + decimal(pid as nat) + "-"@ + decimal(started_at_unix_ms as nat) + "-"@ + decimal(
        ((first_sequence + k) % 18446744073709551616) as nat,
    )
}

/// `j` is `{"hints": [..paths..], "project_id": ..}`.
pub open spec fn is_hint_arguments(j: Json, project: Seq<char>, paths: Seq<Seq<char>>) -> bool {
    &&& j is Object
    &&& j->Object_0@.len() == 2
    &&& j->Object_0@[0].0@ == "hints"@
    &&& j->Object_0@[0].1 is Array
    &&& j->Object_0@[0].1->Array_0@.len() == paths.len()
    &&& forall|i: int|
        0 <= i < paths.len() ==> ((#[trigger] j->Object_0@[0].1->Array_0@[i]) matches Json::Str(s)
            && s@ == paths[i])
    &&& j->Object_0@[1].0@ == "project_id"@
    &&& j->Object_0@[1].1 matches Json::Str(s) && s@ == project
}

/// `r` asks the core to apply the hints `paths` of `project`, keyed by `id`.
pub open spec fn is_hint_request(r: CommandRequest, id: Seq<char>, project: Seq<char>, paths: Seq<Seq<char>>) -> bool {
    &&& r.request_id@ == id
    &&& r.command@ == "project.index.apply_hints"@
    &&& r.command_version == Some(1u32)
    &&& is_hint_arguments(r.arguments, project, paths)
    &&& r.idempotency_key matches Some(k) && k@ == id
    &&& r.context.actor_id is None
    &&& r.context.client_id is None
    &&& r.context.delegator_id is None
}

fn hint_arguments(project: &str, paths: &StrSet) -> (r: Json)
    ensures
        is_hint_arguments(r, project@, paths.elems()),
{
    proof {
        reveal_strlit("hints");
        reveal_strlit("project_id");
    }
    let listed = paths.to_vec();
    let mut items: Vec<Json> = Vec::new();
    let mut i: usize = 0;
    while i < listed.len()
        invariant
            i <= listed@.len(),
            views(listed@) == paths.elems(),
            items@.len() == i,
            forall|k: int| 0 <= k < i ==> ((#[trigger] items@[k]) matches Json::Str(s) && s@
                == paths.elems()[k]),
        decreases listed@.len() - i,
    {
        items.push(Json::Str(listed[i].clone()));
        i = i + 1;
    }
    let mut entries: Vec<(String, Json)> = Vec::new();
    entries.push((String::from_str("hints"), Json::Array(items)));
    entries.push((String::from_str("project_id"), Json::Str(String::from_str(project))));
    Json::Object(entries)
}

/// The requests that hand the pending hints to the core: one per project
/// with hints, in project order, numbered from `first_sequence`.
pub fn hint_requests(
    pending: &StrMap<StrSet>,
    pid: u32,
    started_at_unix_ms: u64,
    first_sequence: u64,
) -> (r: Vec<CommandRequest>)
    ensures
        r@.len() == projects_with_hints(*pending).len(),
        forall|k: int|
            0 <= k < r@.len() ==> is_hint_request(
                #[trigger] r@[k],
                hint_request_id(pid, started_at_unix_ms, first_sequence, k),
                projects_with_hints(*pending)[k],
                pending.map()[projects_with_hints(*pending)[k]].elems(),
            ),
{
    proof {
        reveal_strlit("WATCH-");
        reveal_strlit("-");
        reveal_strlit("project.index.apply_hints");
    }
    let keys = pending.keys();
    let ghost pred = |k: Seq<char>| pending.map()[k].set().len() > 0;
    let mut out: Vec<CommandRequest> = Vec::new();
    let mut sequence: u64 = first_sequence;
    let mut i: usize = 0;
    proof {
        reveal(Seq::filter);
        assert(views(keys@).subrange(0, 0) =~= Seq::<Seq<char>>::empty());
    }
    while i < keys.len()
        invariant
            i <= keys@.len(),
            views(keys@) == pending.key_seq(),
            views(keys@).to_set() == pending.map().dom(),
            pred == (|k: Seq<char>| pending.map()[k].set().len() > 0),
            out@.len() == views(keys@).subrange(0, i as int).filter(pred).len(),
            sequence as int == (first_sequence + out@.len()) % 18446744073709551616,
            forall|k: int|
                0 <= k < out@.len() ==> is_hint_request(
                    #[trigger] out@[k],
                    hint_request_id(pid, started_at_unix_ms, first_sequence, k),
                    views(keys@).subrange(0, i as int).filter(pred)[k],
                    pending.map()[views(keys@).subrange(0, i as int).filter(pred)[k]].elems(),
                ),
        decreases keys@.len() - i,
    {
        let key = &keys[i];
        proof {
            reveal(Seq::filter);
            assert(views(keys@).subrange(0, i + 1).drop_last() =~= views(keys@).subrange(0, i as int));
            assert(views(keys@).subrange(0, i + 1).last() == key@);
            assert(views(keys@).to_set().contains(key@));
        }
        let paths = match pending.get(key.as_str()) {
            Some(p) => p,
            None => {
                i = i + 1;
                continue;
            },
        };
        if paths.is_empty() {
            i = i + 1;
            continue;
        }
        let number = u64_to_decimal(sequence);
        let id = String::from_str("WATCH-").concat(u64_to_decimal(pid as u64).as_str()).concat(
            "-",
        ).concat(u64_to_decimal(started_at_unix_ms).as_str()).concat("-").concat(number.as_str());
        let request = CommandRequest {
            request_id: id.clone(),
            command: String::from_str("project.index.apply_hints"),
            command_version: Some(1),
            arguments: hint_arguments(key.as_str(), paths),
            idempotency_key: Some(id),
            context: RequestContext::default(),
        };
        let ghost before = out@;
        out.push(request);
        proof {
            let f = views(keys@).subrange(0, i + 1).filter(pred);
            assert(f =~= views(keys@).subrange(0, i as int).filter(pred).push(key@));
            assert forall|k: int| 0 <= k < out@.len() implies is_hint_request(
                #[trigger] out@[k],
                hint_request_id(pid, started_at_unix_ms, first_sequence, k),
                f[k],
                pending.map()[f[k]].elems(),
            ) by {
                if k < before.len() {
                    assert(out@[k] == before[k]);
                }
            }
        }
        sequence = sequence.wrapping_add(1);
        i = i + 1;
    }
    assert(views(keys@).subrange(0, keys@.len() as int) =~= views(keys@));
    out
}

/// A project the watcher should watch, with its canonical root, or `None`
/// when the root could not be resolved.
pub struct RootTarget {
    pub project_id: String,
    pub root: Option<String>,
}

/// The roots of a string map, by view.
pub open spec fn string_map_view(m: StrMap<String>) -> Map<Seq<char>, Seq<char>> {
    Map::new(|k: Seq<char>| m.map().dom().contains(k), |k: Seq<char>| m.map()[k]@)
}

/// The roots wanted after the first `n` targets (a later target of the same
/// project wins).
pub open spec fn desired_roots(targets: Seq<RootTarget>, n: int) -> Map<Seq<char>, Seq<char>>
    decreases n,
{
    if n <= 0 {
        Map::empty()
    } else {
        let m = desired_roots(targets, n - 1);
        match targets[n - 1].root {
            Some(r) => m.insert(targets[n - 1].project_id@, r@),
            None => m,
        }
    }
}

/// The projects among the first `n` targets whose root could not be
/// resolved, in order.
pub open spec fn unresolved_projects(targets: Seq<RootTarget>, n: int) -> Seq<Seq<char>>
    decreases n,
{
    if n <= 0 {
        Seq::empty()
    } else {
        let s = unresolved_projects(targets, n - 1);
        match targets[n - 1].root {
            Some(_) => s,
            None => s.push(targets[n - 1].project_id@),
        }
    }
}

/// The paths that a root map names.
pub open spec fn root_set(m: Map<Seq<char>, Seq<char>>) -> Set<Seq<char>> {
    Set::new(|p: Seq<char>| exists|k: Seq<char>| m.dom().contains(k) && m[k] == p)
}

/// A refresh of the watched roots: the roots now wanted, the projects whose
/// root could not be resolved (their index is stale), the roots to stop
/// watching, those kept, and those to start watching.
pub struct RefreshPlan {
    pub desired: StrMap<String>,
    pub unresolved: Vec<String>,
    pub unwatch: Vec<String>,
    pub kept: StrSet,
    pub watch: Vec<String>,
}

pub fn plan_refresh(watched: &StrSet, targets: &Vec<RootTarget>) -> (r: RefreshPlan)
    ensures
        string_map_view(r.desired) == desired_roots(targets@, targets@.len() as int),
        views(r.unresolved@) == unresolved_projects(targets@, targets@.len() as int),
        views(r.unwatch@) == watched.elems().filter(
            |p: Seq<char>| !root_set(desired_roots(targets@, targets@.len() as int)).contains(p),
        ),
        r.kept.set() == watched.set().intersect(
            root_set(desired_roots(targets@, targets@.len() as int)),
        ),
        crate::text::strictly_sorted(views(r.watch@)),
        views(r.watch@).to_set() == root_set(
            desired_roots(targets@, targets@.len() as int),
        ).difference(watched.set()),
{
    let mut desired: StrMap<String> = StrMap::new();
    let mut unresolved: Vec<String> = Vec::new();
    let mut i: usize = 0;
    proof {
        assert(string_map_view(desired) =~= Map::<Seq<char>, Seq<char>>::empty());
    }
    while i < targets.len()
        invariant
            i <= targets@.len(),
            string_map_view(desired) == desired_roots(targets@, i as int),
            views(unresolved@) == unresolved_projects(targets@, i as int),
        decreases targets@.len() - i,
    {
        let t = &targets[i];
        match &t.root {
            Some(root) => {
                let ghost before = string_map_view(desired);
                desired.insert(t.project_id.clone(), root.clone());
                assert(string_map_view(desired) =~= before.insert(t.project_id@, root@));
            },
            None => {
                let ghost before = views(unresolved@);
                unresolved.push(t.project_id.clone());
                assert(views(unresolved@) =~= before.push(t.project_id@));
            },
        }
        i = i + 1;
    }
    let ghost want = desired_roots(targets@, targets@.len() as int);
    let mut paths = StrSet::new();
    let mut j: usize = 0;
    let n = desired.len();
    while j < n
        invariant
            n == desired.key_seq().len(),
            j <= n,
            string_map_view(desired) == want,
            forall|p: Seq<char>|
                paths.set().contains(p) <==> exists|k: int|
                    0 <= k < j && desired.map()[desired.key_seq()[k]]@ == p,
        decreases n - j,
    {
        let root = desired.value_at(j);
        paths.insert(root.clone());
        proof {
            assert forall|p: Seq<char>|
                paths.set().contains(p) <==> exists|k: int|
                    0 <= k < j + 1 && desired.map()[desired.key_seq()[k]]@ == p by {
                if p == root@ {
                    assert(desired.map()[desired.key_seq()[j as int]]@ == p);
                }
            }
        }
        j = j + 1;
    }
    proof {
        let ks = desired.key_seq();
        assert forall|p: Seq<char>| paths.set().contains(p) <==> root_set(want).contains(p) by {
            if paths.set().contains(p) {
                let k = choose|k: int| 0 <= k < n && desired.map()[desired.key_seq()[k]]@ == p;
                assert(ks.contains(ks[k]));
                assert(want.dom().contains(ks[k]) && want[ks[k]] == p);
            }
            if root_set(want).contains(p) {
                let key = choose|key: Seq<char>| want.dom().contains(key) && want[key] == p;
                assert(ks.contains(key));
                let k = choose|k: int| 0 <= k < ks.len() && ks[k] == key;
                assert(desired.map()[desired.key_seq()[k]]@ == p);
            }
        }
    }
    let members = watched.to_vec();
    let ghost not_wanted = |p: Seq<char>| !root_set(want).contains(p);
    let mut unwatch: Vec<String> = Vec::new();
    let mut kept = StrSet::new();
    let mut m: usize = 0;
    proof {
        reveal(Seq::filter);
        assert(views(members@).subrange(0, 0) =~= Seq::<Seq<char>>::empty());
    }
    while m < members.len()
        invariant
            m <= members@.len(),
            views(members@) == watched.elems(),
            views(members@).to_set() == watched.set(),
            forall|p: Seq<char>| paths.set().contains(p) <==> root_set(want).contains(p),
            not_wanted == (|p: Seq<char>| !root_set(want).contains(p)),
            views(unwatch@) == views(members@).subrange(0, m as int).filter(not_wanted),
            forall|p: Seq<char>|
                kept.set().contains(p) <==> (exists|x: int|
                    0 <= x < m && #[trigger] views(members@)[x] == p) && root_set(want).contains(p),
        decreases members@.len() - m,
    {
        let item = &members[m];
        proof {
            reveal(Seq::filter);
            assert(views(members@).subrange(0, m + 1).drop_last() =~= views(members@).subrange(
                0,
                m as int,
            ));
            assert(views(members@).subrange(0, m + 1).last() == item@);
        }
        let ghost before = views(unwatch@);
        if paths.contains(item.as_str()) {
            kept.insert(item.clone());
        } else {
            unwatch.push(item.clone());
            assert(views(unwatch@) =~= before.push(item@));
        }
        proof {
            assert forall|p: Seq<char>|
                kept.set().contains(p) <==> (exists|x: int|
                    0 <= x < m + 1 && #[trigger] views(members@)[x] == p) && root_set(want).contains(
                    p,
                ) by {
                if p == item@ {
                    assert(views(members@)[m as int] == p);
                }
            }
        }
        assert(views(unwatch@) =~= views(members@).subrange(0, m + 1).filter(not_wanted));
        m = m + 1;
    }
    assert(views(members@).subrange(0, members@.len() as int) =~= views(members@));
    proof {
        assert forall|p: Seq<char>| kept.set().contains(p) <==> watched.set().intersect(
            root_set(want),
        ).contains(p) by {
            if watched.set().contains(p) {
                assert(views(members@).to_set().contains(p));
                assert(views(members@).contains(p));
            }
        }
        assert(kept.set() =~= watched.set().intersect(root_set(want)));
    }
    let wanted = paths.to_vec();
    let mut watch: Vec<String> = Vec::new();
    let ghost fresh = |p: Seq<char>| !watched.set().contains(p);
    let mut w: usize = 0;
    proof {
        reveal(Seq::filter);
        assert(views(wanted@).subrange(0, 0) =~= Seq::<Seq<char>>::empty());
    }
    while w < wanted.len()
        invariant
            w <= wanted@.len(),
            views(wanted@) == paths.elems(),
            crate::text::strictly_sorted(paths.elems()),
            views(wanted@).to_set() == paths.set(),
            fresh == (|p: Seq<char>| !watched.set().contains(p)),
            views(watch@) == views(wanted@).subrange(0, w as int).filter(fresh),
        decreases wanted@.len() - w,
    {
        let item = &wanted[w];
        proof {
            reveal(Seq::filter);
            assert(views(wanted@).subrange(0, w + 1).drop_last() =~= views(wanted@).subrange(
                0,
                w as int,
            ));
            assert(views(wanted@).subrange(0, w + 1).last() == item@);
        }
        let ghost before = views(watch@);
        if !watched.contains(item.as_str()) {
            watch.push(item.clone());
            assert(views(watch@) =~= before.push(item@));
        }
        assert(views(watch@) =~= views(wanted@).subrange(0, w + 1).filter(fresh));
        w = w + 1;
    }
    proof {
        assert(views(wanted@).subrange(0, wanted@.len() as int) =~= views(wanted@));
        lemma_filter_sorted(views(wanted@), fresh);
        assert forall|p: Seq<char>|
            views(watch@).to_set().contains(p) <==> root_set(want).difference(
                watched.set(),
            ).contains(p) by {
            views(wanted@).filter_lemma(fresh);
            if root_set(want).difference(watched.set()).contains(p) {
                assert(views(wanted@).to_set().contains(p));
                let x = choose|x: int| 0 <= x < views(wanted@).len() && views(wanted@)[x] == p;
                assert(fresh(views(wanted@)[x]));
            }
            if views(watch@).to_set().contains(p) {
                assert(views(watch@).contains(p));
                let x = choose|x: int| 0 <= x < views(watch@).len() && views(watch@)[x] == p;
                assert(fresh(views(watch@)[x]));
                views(wanted@).lemma_filter_contains_rev(fresh, p);
            }
        }
        assert(views(watch@).to_set() =~= root_set(want).difference(watched.set()));
    }
    RefreshPlan { desired, unresolved, unwatch, kept, watch }
}

/// A filtered sorted sequence stays sorted.
pub proof fn lemma_filter_sorted(s: Seq<Seq<char>>, pred: spec_fn(Seq<char>) -> bool)
    requires
        crate::text::strictly_sorted(s),
    ensures
        crate::text::strictly_sorted(s.filter(pred)),
    decreases s.len(),
{
    reveal(Seq::filter);
    if s.len() > 0 {
        let rest = s.drop_last();
        assert(crate::text::strictly_sorted(rest));
        lemma_filter_sorted(rest, pred);
        rest.filter_lemma(pred);
        if pred(s.last()) {
            let f = rest.filter(pred);
            assert forall|a: int, b: int| 0 <= a < b < f.push(s.last()).len() implies seq_lt(
                #[trigger] f.push(s.last())[a],
                #[trigger] f.push(s.last())[b],
            ) by {
                if b == f.len() {
                    assert(f.contains(f[a]));
                    rest.lemma_filter_contains_rev(pred, f[a]);
                    assert(rest.contains(f[a]));
                    let x = choose|x: int| 0 <= x < rest.len() && rest[x] == f[a];
                    assert(s[x] == f[a]);
                    assert(s[s.len() - 1] == s.last());
                }
            }
        }
    }
}

/// The roots watched after a refresh: those kept, and the new ones whose
/// watch started.
pub open spec fn watched_after(kept: Set<Seq<char>>, watch: Seq<String>, started: Seq<bool>) -> Set<
    Seq<char>,
> {
    kept.union(
        Set::new(|p: Seq<char>| exists|i: int| 0 <= i < watch.len() && started[i] && watch[i]@ == p),
    )
}

/// Whether a project's index turns stale after a refresh: its root changed,
/// or its root is not watched.
pub open spec fn stale_after_refresh(
    old_roots: Map<Seq<char>, Seq<char>>,
    desired: Map<Seq<char>, Seq<char>>,
    watched: Set<Seq<char>>,
    pid: Seq<char>,
) -> bool {
    !(old_roots.dom().contains(pid) && old_roots[pid] == desired[pid]) || !watched.contains(
        desired[pid],
    )
}

/// Completes a refresh once the new watches were attempted (`started[i]`
/// says whether watching `plan.watch[i]` began): the roots now watched, and
/// the projects whose index is stale, in project order.
pub fn finish_refresh(old_roots: &StrMap<String>, plan: RefreshPlan, started: &Vec<bool>) -> (r: (
    StrMap<String>,
    StrSet,
    Vec<String>,
))
    requires
        started@.len() == plan.watch@.len(),
    ensures
        string_map_view(r.0) == string_map_view(plan.desired),
        r.1.set() == watched_after(plan.kept.set(), plan.watch@, started@),
        views(r.2@) == plan.desired.key_seq().filter(
            |pid: Seq<char>|
                stale_after_refresh(
                    string_map_view(*old_roots),
                    string_map_view(plan.desired),
                    r.1.set(),
                    pid,
                ),
        ),
{
    let RefreshPlan { desired, unresolved: _, unwatch: _, kept, watch } = plan;
    let mut watched = kept;
    let ghost kept_set = watched.set();
    let mut i: usize = 0;
    while i < watch.len()
        invariant
            i <= watch@.len(),
            started@.len() == watch@.len(),
            watched.set() == kept_set.union(
                Set::new(|p: Seq<char>| exists|k: int| 0 <= k < i && started@[k] && watch@[k]@ == p),
            ),
        decreases watch@.len() - i,
    {
        if started[i] {
            watched.insert(watch[i].clone());
        }
        proof {
            assert(watched.set() =~= kept_set.union(
                Set::new(
                    |p: Seq<char>| exists|k: int| 0 <= k < i + 1 && started@[k] && watch@[k]@ == p,
                ),
            ));
        }
        i = i + 1;
    }
    let ghost old_view = string_map_view(*old_roots);
    let ghost want = string_map_view(desired);
    let ghost final_set = watched.set();
    let ghost pred = |pid: Seq<char>| stale_after_refresh(old_view, want, final_set, pid);
    let keys = desired.keys();
    let mut stale: Vec<String> = Vec::new();
    let mut j: usize = 0;
    proof {
        reveal(Seq::filter);
        assert(views(keys@).subrange(0, 0) =~= Seq::<Seq<char>>::empty());
    }
    while j < keys.len()
        invariant
            j <= keys@.len(),
            views(keys@) == desired.key_seq(),
            views(keys@).to_set() == desired.map().dom(),
            want == string_map_view(desired),
            old_view == string_map_view(*old_roots),
            final_set == watched.set(),
            pred == (|pid: Seq<char>| stale_after_refresh(old_view, want, final_set, pid)),
            views(stale@) == views(keys@).subrange(0, j as int).filter(pred),
        decreases keys@.len() - j,
    {
        let key = &keys[j];
        proof {
            reveal(Seq::filter);
            assert(views(keys@).subrange(0, j + 1).drop_last() =~= views(keys@).subrange(
                0,
                j as int,
            ));
            assert(views(keys@).subrange(0, j + 1).last() == key@);
            assert(views(keys@).to_set().contains(key@));
        }
        let root = match desired.get(key.as_str()) {
            Some(r) => r,
            None => {
                j = j + 1;
                continue;
            },
        };
        let same_root = match old_roots.get(key.as_str()) {
            Some(old) => crate::text::str_eq(old.as_str(), root.as_str()),
            None => false,
        };
        let turned = !same_root || !watched.contains(root.as_str());
        assert(turned == pred(key@));
        let ghost before = views(stale@);
        if turned {
            stale.push(key.clone());
            assert(views(stale@) =~= before.push(key@));
        }
        assert(views(stale@) =~= views(keys@).subrange(0, j + 1).filter(pred));
        j = j + 1;
    }
    assert(views(keys@).subrange(0, keys@.len() as int) =~= views(keys@));
    (desired, watched, stale)
}

} // verus!
