use relay::collections::{StrMap, StrSet};
use relay::json::{to_compact, Json};
use relay::watcher::{
    collect_event, finish_refresh, hint_requests, idle_from_ticks, may_recover, plan_refresh,
    recovery_candidates, EventClass, PathUnderRoot, RootTarget, MAX_BACKGROUND_FILE_BYTES,
};

fn roots() -> StrMap<String> {
    let mut roots = StrMap::new();
    roots.insert("PRJ-A".to_string(), "/srv/a".to_string());
    roots.insert("PRJ-B".to_string(), "/srv/b".to_string());
    roots
}

fn fact(project: &str, relative: Option<&str>) -> PathUnderRoot {
    PathUnderRoot {
        project_id: project.to_string(),
        relative: relative.map(|r| r.to_string()),
        is_dir: false,
        file_len: Some(10),
    }
}

fn hints_of(pending: &StrMap<StrSet>, project: &str) -> Vec<String> {
    pending.get(project).map(|set| set.to_vec()).unwrap_or_default()
}

#[test]
fn reads_change_nothing_and_lost_events_make_everything_stale() {
    let mut pending: StrMap<StrSet> = StrMap::new();
    let stale = collect_event(&mut pending, EventClass::Content, &vec![fact("PRJ-A", Some("src\\a.rs"))], &roots(), true);
    assert!(stale.is_empty());
    assert_eq!(hints_of(&pending, "PRJ-A"), vec!["src/a.rs"]);
    let stale = collect_event(&mut pending, EventClass::Access, &vec![fact("PRJ-B", Some("x.rs"))], &roots(), true);
    assert!(stale.is_empty());
    assert_eq!(hints_of(&pending, "PRJ-B"), Vec::<String>::new());
    let stale = collect_event(&mut pending, EventClass::Rescan, &vec![], &roots(), true);
    assert_eq!(stale, vec!["PRJ-A", "PRJ-B"]);
    assert_eq!(pending.len(), 0);
}

#[test]
fn paths_become_hints_or_make_their_project_stale() {
    let mut pending: StrMap<StrSet> = StrMap::new();
    let mut dir = fact("PRJ-B", Some("assets"));
    dir.is_dir = true;
    let mut large = fact("PRJ-A", Some("big.bin"));
    large.file_len = Some(MAX_BACKGROUND_FILE_BYTES + 1);
    let facts = vec![
        fact("PRJ-A", Some("src/main.rs")),
        fact("PRJ-B", None),
        fact("PRJ-B", Some("ok.txt")),
        dir,
        fact("PRJ-A", Some("../escape.rs")),
        fact("PRJ-A", Some("")),
        large,
    ];
    let stale = collect_event(&mut pending, EventClass::Content, &facts, &roots(), true);
    assert_eq!(stale, vec!["PRJ-B", "PRJ-A", "PRJ-A", "PRJ-A"]);
    assert_eq!(hints_of(&pending, "PRJ-A"), Vec::<String>::new());
    assert_eq!(hints_of(&pending, "PRJ-B"), Vec::<String>::new());

    let mut pending: StrMap<StrSet> = StrMap::new();
    let stale = collect_event(&mut pending, EventClass::Uncertain, &vec![fact("PRJ-A", Some("x.rs"))], &roots(), true);
    assert_eq!(stale, vec!["PRJ-A"]);
}

#[test]
fn too_many_hints_make_the_project_stale() {
    let mut pending: StrMap<StrSet> = StrMap::new();
    let facts: Vec<PathUnderRoot> = (0..32).map(|i| fact("PRJ-A", Some(&format!("f{i}.rs")))).collect();
    assert!(collect_event(&mut pending, EventClass::Content, &facts, &roots(), true).is_empty());
    assert_eq!(hints_of(&pending, "PRJ-A").len(), 32);
    let again = collect_event(&mut pending, EventClass::Content, &vec![fact("PRJ-A", Some("f0.rs"))], &roots(), true);
    assert!(again.is_empty());
    let stale = collect_event(&mut pending, EventClass::Content, &vec![fact("PRJ-A", Some("f32.rs"))], &roots(), true);
    assert_eq!(stale, vec!["PRJ-A"]);
    assert_eq!(hints_of(&pending, "PRJ-A"), Vec::<String>::new());
}

#[test]
fn idle_time_survives_tick_wrap_and_rejects_distant_ticks() {
    assert_eq!(idle_from_ticks(1_000, 400), Some(600));
    assert_eq!(idle_from_ticks(5, u32::MAX - 4), Some(10));
    assert_eq!(idle_from_ticks(604_800_001, 0), None);
    assert_eq!(idle_from_ticks(604_800_000, 0), Some(604_800_000));
}

#[test]
fn recovery_waits_for_quiet_and_an_idle_user() {
    assert!(may_recover(false, false, 2_000, Some(30_000), 30_000));
    assert!(!may_recover(true, false, 2_000, Some(30_000), 30_000));
    assert!(!may_recover(false, true, 2_000, Some(30_000), 30_000));
    assert!(!may_recover(false, false, 1_999, Some(30_000), 30_000));
    assert!(!may_recover(false, false, 2_000, Some(29_999), 30_000));
    assert!(!may_recover(false, false, 2_000, None, 30_000));
}

#[test]
fn recovery_tries_watched_projects_not_tried_recently() {
    let mut watched = StrSet::new();
    watched.insert("/srv/a".to_string());
    watched.insert("/srv/b".to_string());
    let mut recent = StrSet::new();
    assert_eq!(recovery_candidates(&roots(), &watched, &recent), vec!["PRJ-A", "PRJ-B"]);
    recent.insert("PRJ-A".to_string());
    assert_eq!(recovery_candidates(&roots(), &watched, &recent), vec!["PRJ-B"]);
    watched.remove("/srv/b");
    assert!(recovery_candidates(&roots(), &watched, &recent).is_empty());
}

#[test]
fn hint_batches_become_keyed_requests() {
    let mut pending: StrMap<StrSet> = StrMap::new();
    let mut a = StrSet::new();
    a.insert("src/b.rs".to_string());
    a.insert("src/a.rs".to_string());
    pending.insert("PRJ-A".to_string(), a);
    pending.insert("PRJ-B".to_string(), StrSet::new());
    let mut c = StrSet::new();
    c.insert("x".to_string());
    pending.insert("PRJ-C".to_string(), c);
    let requests = hint_requests(&pending, 77, 1_000, 5);
    assert_eq!(requests.len(), 2);
    assert_eq!(requests[0].request_id, "WATCH-77-1000-5");
    assert_eq!(requests[0].idempotency_key.as_deref(), Some("WATCH-77-1000-5"));
    assert_eq!(requests[0].command, "project.index.apply_hints");
    assert_eq!(requests[0].command_version, Some(1));
    assert_eq!(to_compact(&requests[0].arguments), "{\"hints\":[\"src/a.rs\",\"src/b.rs\"],\"project_id\":\"PRJ-A\"}");
    assert_eq!(requests[1].request_id, "WATCH-77-1000-6");
    assert_eq!(to_compact(&requests[1].arguments), "{\"hints\":[\"x\"],\"project_id\":\"PRJ-C\"}");
    let wrapped = hint_requests(&pending, 1, 2, u64::MAX);
    assert_eq!(wrapped[1].request_id, "WATCH-1-2-0");
    assert!(matches!(wrapped[0].arguments, Json::Object(_)));
}

#[test]
fn refreshes_watch_new_roots_and_mark_changed_projects_stale() {
    let mut watched = StrSet::new();
    watched.insert("/srv/a".to_string());
    watched.insert("/srv/old".to_string());
    let targets = vec![
        RootTarget { project_id: "PRJ-A".to_string(), root: Some("/srv/a".to_string()) },
        RootTarget { project_id: "PRJ-B".to_string(), root: Some("/srv/b2".to_string()) },
        RootTarget { project_id: "PRJ-X".to_string(), root: None },
        RootTarget { project_id: "PRJ-C".to_string(), root: Some("/srv/c".to_string()) },
    ];
    let plan = plan_refresh(&watched, &targets);
    assert_eq!(plan.unresolved, vec!["PRJ-X"]);
    assert_eq!(plan.unwatch, vec!["/srv/old"]);
    assert_eq!(plan.kept.to_vec(), vec!["/srv/a"]);
    assert_eq!(plan.watch, vec!["/srv/b2", "/srv/c"]);
    let (desired, now_watched, stale) = finish_refresh(&roots(), plan, &vec![true, false]);
    assert_eq!(desired.keys(), vec!["PRJ-A", "PRJ-B", "PRJ-C"]);
    assert_eq!(now_watched.to_vec(), vec!["/srv/a", "/srv/b2"]);
    assert_eq!(stale, vec!["PRJ-B", "PRJ-C"]);
}
