//! Hint-only index updates: what the watcher's hinted paths were found to be
//! turns into the touched files, the changes and the new file and byte
//! counts, without walking the project tree.
use vstd::prelude::*;
use vstd::string::StringExecFns;
use crate::collections::{views, StrMap};
use crate::indexing::{
    pair_views, pick_renames, pick_value, rename_picks, HintPlan, IndexChange, IndexError,
    IndexStats, IndexedFileSnapshot,
};
use crate::reconcile::{
    change_paths_of, change_view, invert_picks, lemma_last_snapshot, lemma_picks_distinct,
    lemma_push_sorted, prior_index, prior_map,
};
use crate::text::{seq_lt, str_eq, strictly_sorted};

verus! {

/// What inspecting one hinted path found.
pub enum HintObservation {
    /// Nothing is at the path.
    Missing,
    /// A regular file, with its digest.
    File { size_bytes: u64, modified_unix_ns: u64, content_sha256: String },
    /// A directory.
    Directory,
    /// Something that is neither a regular file nor a directory.
    NotRegular,
    /// Inspecting the path failed or was refused (it crosses a symlink,
    /// escapes the root, or could not be read), with the code and message.
    Refused { code: &'static str, message: String },
}

/// The counts after one hinted path, or why the update stops there.
pub open spec fn hint_step(
    previous: Seq<IndexedFileSnapshot>,
    path: Seq<char>,
    o: HintObservation,
    file_count: u64,
    total_bytes: u64,
) -> Result<(u64, u64), (Seq<char>, Seq<char>)> {
    let k = prior_index(previous, path);
    match o {
        HintObservation::Refused { code, message } => Err((code@, message@)),
        HintObservation::Directory => Err(
            ("INDEX_HINT_DIRECTORY"@, "directory hints require authoritative reconciliation"@),
        ),
        HintObservation::NotRegular => Err(("INDEX_HINT_INVALID"@, "hinted path is not a regular file"@)),
        HintObservation::File { size_bytes, .. } => if k >= 0 {
            let old = previous[k].size_bytes;
            if total_bytes < old || total_bytes - old + size_bytes > u64::MAX {
                Err(("INDEX_METADATA_OVERFLOW"@, "hinted update byte count overflow"@))
            } else {
                Ok((file_count, (total_bytes - old + size_bytes) as u64))
            }
        } else if file_count + 1 > u64::MAX {
            Err(("INDEX_METADATA_OVERFLOW"@, "file count overflow"@))
        } else if total_bytes + size_bytes > u64::MAX {
            Err(("INDEX_METADATA_OVERFLOW"@, "byte count overflow"@))
        } else {
            Ok(((file_count + 1) as u64, (total_bytes + size_bytes) as u64))
        },
        HintObservation::Missing => if k >= 0 {
            if file_count < 1 {
                Err(("INDEX_METADATA_OVERFLOW"@, "file count underflow"@))
            } else if total_bytes < previous[k].size_bytes {
                Err(("INDEX_METADATA_OVERFLOW"@, "byte count underflow"@))
            } else {
                Ok(((file_count - 1) as u64, (total_bytes - previous[k].size_bytes) as u64))
            }
        } else {
            Ok((file_count, total_bytes))
        },
    }
}

/// The counts after the first `n` hinted paths, or the first refusal.
pub open spec fn hint_counts(
    previous: Seq<IndexedFileSnapshot>,
    hints: Seq<Seq<char>>,
    obs: Seq<HintObservation>,
    file_count: u64,
    total_bytes: u64,
    n: int,
) -> Result<(u64, u64), (Seq<char>, Seq<char>)>
    decreases n,
{
    if n <= 0 {
        Ok((file_count, total_bytes))
    } else {
        match hint_counts(previous, hints, obs, file_count, total_bytes, n - 1) {
            Err(e) => Err(e),
            Ok((fc, tb)) => hint_step(previous, hints[n - 1], obs[n - 1], fc, tb),
        }
    }
}

proof fn lemma_hint_counts_err_stable(
    previous: Seq<IndexedFileSnapshot>,
    hints: Seq<Seq<char>>,
    obs: Seq<HintObservation>,
    file_count: u64,
    total_bytes: u64,
    n: int,
    m: int,
)
    requires
        0 <= n <= m,
        hint_counts(previous, hints, obs, file_count, total_bytes, n) is Err,
    ensures
        hint_counts(previous, hints, obs, file_count, total_bytes, m) == hint_counts(
            previous,
            hints,
            obs,
            file_count,
            total_bytes,
            n,
        ),
    decreases m - n,
{
    if m > n {
        lemma_hint_counts_err_stable(previous, hints, obs, file_count, total_bytes, n, m - 1);
    }
}

/// Whether hinted path `i` is a regular file that was not indexed.
pub open spec fn is_new_file(previous: Seq<IndexedFileSnapshot>, hints: Seq<Seq<char>>, obs: Seq<HintObservation>, i: int) -> bool {
    obs[i] is File && prior_index(previous, hints[i]) < 0
}

/// Whether hinted path `i` is gone but was indexed.
pub open spec fn is_gone_file(previous: Seq<IndexedFileSnapshot>, hints: Seq<Seq<char>>, obs: Seq<HintObservation>, i: int) -> bool {
    obs[i] is Missing && prior_index(previous, hints[i]) >= 0
}

/// The new files among the first `n` hinted paths, as (path, digest).
pub open spec fn hint_added(
    previous: Seq<IndexedFileSnapshot>,
    hints: Seq<Seq<char>>,
    obs: Seq<HintObservation>,
    n: int,
) -> Seq<(Seq<char>, Seq<char>)>
    decreases n,
{
    if n <= 0 {
        Seq::empty()
    } else if is_new_file(previous, hints, obs, n - 1) {
        hint_added(previous, hints, obs, n - 1).push((hints[n - 1], obs[n - 1]->content_sha256@))
    } else {
        hint_added(previous, hints, obs, n - 1)
    }
}

/// The gone files among the first `n` hinted paths, as (path, previous
/// digest).
pub open spec fn hint_deleted(
    previous: Seq<IndexedFileSnapshot>,
    hints: Seq<Seq<char>>,
    obs: Seq<HintObservation>,
    n: int,
) -> Seq<(Seq<char>, Seq<char>)>
    decreases n,
{
    if n <= 0 {
        Seq::empty()
    } else if is_gone_file(previous, hints, obs, n - 1) {
        hint_deleted(previous, hints, obs, n - 1).push(
            (hints[n - 1], previous[prior_index(previous, hints[n - 1])].content_sha256@),
        )
    } else {
        hint_deleted(previous, hints, obs, n - 1)
    }
}

/// For each gone file, the new file it was renamed to (-1 for none).
pub open spec fn hint_picks(
    previous: Seq<IndexedFileSnapshot>,
    hints: Seq<Seq<char>>,
    obs: Seq<HintObservation>,
) -> Seq<int> {
    let a = hint_added(previous, hints, obs, hints.len() as int);
    let d = hint_deleted(previous, hints, obs, hints.len() as int);
    rename_picks(a, d, d.len() as int)
}

/// The change recorded at hinted path `i`, if any.
pub open spec fn hint_change(
    previous: Seq<IndexedFileSnapshot>,
    hints: Seq<Seq<char>>,
    obs: Seq<HintObservation>,
    i: int,
) -> Option<(Seq<char>, Seq<char>, Option<Seq<char>>, Option<Seq<char>>, Option<Seq<char>>)> {
    let q = hints[i];
    let k = prior_index(previous, q);
    let d = hint_deleted(previous, hints, obs, hints.len() as int);
    let picks = hint_picks(previous, hints, obs);
    match obs[i] {
        HintObservation::File { content_sha256, .. } => if k >= 0 {
            if previous[k].content_sha256@ != content_sha256@ {
                Some(
                    (
                        "modified"@,
                        q,
                        None,
                        Some(previous[k].content_sha256@),
                        Some(content_sha256@),
                    ),
                )
            } else {
                None
            }
        } else {
            let slot = hint_added(previous, hints, obs, i).len() as int;
            if picks.contains(slot) {
                let j = picks.index_of(slot);
                Some(("renamed"@, q, Some(d[j].0), Some(d[j].1), Some(d[j].1)))
            } else {
                Some(("added"@, q, None, None, Some(content_sha256@)))
            }
        },
        HintObservation::Missing => if k >= 0 {
            let j = hint_deleted(previous, hints, obs, i).len() as int;
            if picks[j] >= 0 {
                None
            } else {
                Some(("deleted"@, q, None, Some(previous[k].content_sha256@), None))
            }
        } else {
            None
        },
        _ => None,
    }
}

/// The changes of the first `n` hinted paths, in hint order.
pub open spec fn hint_changes(
    previous: Seq<IndexedFileSnapshot>,
    hints: Seq<Seq<char>>,
    obs: Seq<HintObservation>,
    n: int,
) -> Seq<(Seq<char>, Seq<char>, Option<Seq<char>>, Option<Seq<char>>, Option<Seq<char>>)>
    decreases n,
{
    if n <= 0 {
        Seq::empty()
    } else {
        match hint_change(previous, hints, obs, n - 1) {
            Some(c) => hint_changes(previous, hints, obs, n - 1).push(c),
            None => hint_changes(previous, hints, obs, n - 1),
        }
    }
}

/// The regular files among the first `n` hinted paths, by position.
pub open spec fn hint_touched(obs: Seq<HintObservation>, n: int) -> Seq<int>
    decreases n,
{
    if n <= 0 {
        Seq::empty()
    } else if obs[n - 1] is File {
        hint_touched(obs, n - 1).push(n - 1)
    } else {
        hint_touched(obs, n - 1)
    }
}

/// How many of the first `n` hinted paths are regular files whose digest
/// is the one indexed.
pub open spec fn hint_unchanged(
    previous: Seq<IndexedFileSnapshot>,
    hints: Seq<Seq<char>>,
    obs: Seq<HintObservation>,
    n: int,
) -> nat
    decreases n,
{
    if n <= 0 {
        0
    } else if obs[n - 1] is File && prior_index(previous, hints[n - 1]) >= 0 && previous[prior_index(
        previous,
        hints[n - 1],
    )].content_sha256@ == obs[n - 1]->content_sha256@ {
        hint_unchanged(previous, hints, obs, n - 1) + 1
    } else {
        hint_unchanged(previous, hints, obs, n - 1)
    }
}

/// The views of changes, in order.
pub open spec fn change_views(cs: Seq<IndexChange>) -> Seq<
    (Seq<char>, Seq<char>, Option<Seq<char>>, Option<Seq<char>>, Option<Seq<char>>),
> {
    Seq::new(cs.len(), |i: int| change_view(cs[i]))
}

/// Whether snapshot `s` records what hinted path `q` was found to be.
pub open spec fn hint_snapshot(s: IndexedFileSnapshot, q: Seq<char>, o: HintObservation) -> bool {
    &&& o is File
    &&& s.relative_path@ == q
    &&& s.size_bytes == o->size_bytes
    &&& s.modified_unix_ns == o->modified_unix_ns
    &&& s.content_sha256@ == o->content_sha256@
}

/// The first pass of a hint-only update.
struct HintPass {
    file_count: u64,
    total_bytes: u64,
    touched: Vec<IndexedFileSnapshot>,
    hashed: usize,
    unchanged: usize,
    added: Vec<(String, String)>,
    deleted: Vec<(String, String)>,
}

fn hint_pass(
    previous: &[IndexedFileSnapshot],
    hints: &[String],
    observations: &[HintObservation],
    base_file_count: u64,
    base_total_bytes: u64,
) -> (r: Result<HintPass, IndexError>)
    requires
        observations@.len() == hints@.len(),
    ensures
        ({
            let p = previous@;
            let hs = views(hints@);
            let o = observations@;
            let n = hints@.len() as int;
            let counts = hint_counts(p, hs, o, base_file_count, base_total_bytes, n);
            &&& r is Err <==> counts is Err
            &&& r matches Err(e) ==> counts == Err::<(u64, u64), (Seq<char>, Seq<char>)>(
                (e.code@, e.message@),
            )
            &&& r matches Ok(pass) ==> {
                &&& counts == Ok::<(u64, u64), (Seq<char>, Seq<char>)>(
                    (pass.file_count, pass.total_bytes),
                )
                &&& pass.touched@.len() == hint_touched(o, n).len()
                &&& forall|t: int|
                    0 <= t < pass.touched@.len() ==> hint_snapshot(
                        #[trigger] pass.touched@[t],
                        hs[hint_touched(o, n)[t]],
                        o[hint_touched(o, n)[t]],
                    )
                &&& pass.hashed == hint_touched(o, n).len()
                &&& pass.unchanged == hint_unchanged(p, hs, o, n)
                &&& pair_views(pass.added@) == hint_added(p, hs, o, n)
                &&& pair_views(pass.deleted@) == hint_deleted(p, hs, o, n)
            }
        }),
{
    let ghost p = previous@;
    let ghost hs = views(hints@);
    let ghost o = observations@;
    let prior = prior_map(previous);
    let mut file_count = base_file_count;
    let mut total = base_total_bytes;
    let mut touched: Vec<IndexedFileSnapshot> = Vec::new();
    let mut hashed: usize = 0;
    let mut unchanged: usize = 0;
    let mut added: Vec<(String, String)> = Vec::new();
    let mut deleted: Vec<(String, String)> = Vec::new();
    let mut i: usize = 0;
    while i < hints.len()
        invariant
            p == previous@,
            hs == views(hints@),
            o == observations@,
            o.len() == hints@.len(),
            i <= hints@.len(),
            forall|q: Seq<char>|
                #![trigger prior.map().dom().contains(q)]
                (prior.map().dom().contains(q) <==> prior_index(p, q) >= 0) && (
                prior.map().dom().contains(q) ==> prior.map()[q] == prior_index(p, q)),
            hint_counts(p, hs, o, base_file_count, base_total_bytes, i as int) == Ok::<
                (u64, u64),
                (Seq<char>, Seq<char>),
            >((file_count, total)),
            touched@.len() == hint_touched(o, i as int).len(),
            forall|t: int|
                0 <= t < touched@.len() ==> hint_snapshot(
                    #[trigger] touched@[t],
                    hs[hint_touched(o, i as int)[t]],
                    o[hint_touched(o, i as int)[t]],
                ),
            hashed == hint_touched(o, i as int).len(),
            hashed <= i,
            unchanged <= i,
            unchanged == hint_unchanged(p, hs, o, i as int),
            pair_views(added@) == hint_added(p, hs, o, i as int),
            pair_views(deleted@) == hint_deleted(p, hs, o, i as int),
        decreases hints@.len() - i,
    {
        let path = &hints[i];
        let ghost ii = i as int;
        let ghost q = path@;
        assert(hs[ii] == q);
        proof {
            lemma_last_snapshot(p, q, p.len() as int);
        }
        let known = prior.get(path.as_str());
        let ghost before_touched = hint_touched(o, ii);
        match &observations[i] {
            HintObservation::Refused { code, message } => {
                proof {
                    lemma_hint_counts_err_stable(p, hs, o, base_file_count, base_total_bytes, ii + 1, hs.len() as int);
                }
                return Err(IndexError::new(code, message.clone()));
            },
            HintObservation::Directory => {
                proof {
                    lemma_hint_counts_err_stable(p, hs, o, base_file_count, base_total_bytes, ii + 1, hs.len() as int);
                }
                return Err(
                    IndexError::new(
                        "INDEX_HINT_DIRECTORY",
                        String::from_str("directory hints require authoritative reconciliation"),
                    ),
                );
            },
            HintObservation::NotRegular => {
                proof {
                    lemma_hint_counts_err_stable(p, hs, o, base_file_count, base_total_bytes, ii + 1, hs.len() as int);
                }
                return Err(
                    IndexError::new(
                        "INDEX_HINT_INVALID",
                        String::from_str("hinted path is not a regular file"),
                    ),
                );
            },
            HintObservation::File { size_bytes, modified_unix_ns, content_sha256 } => {
                hashed = hashed + 1;
                match known {
                    Some(k) => {
                        let old = &previous[*k];
                        if total < old.size_bytes || total - old.size_bytes > u64::MAX - *size_bytes {
                            proof {
                                lemma_hint_counts_err_stable(p, hs, o, base_file_count, base_total_bytes, ii + 1, hs.len() as int);
                            }
                            return Err(
                                IndexError::new(
                                    "INDEX_METADATA_OVERFLOW",
                                    String::from_str("hinted update byte count overflow"),
                                ),
                            );
                        }
                        total = total - old.size_bytes + *size_bytes;
                        if str_eq(old.content_sha256.as_str(), content_sha256.as_str()) {
                            unchanged = unchanged + 1;
                        }
                    },
                    None => {
                        if file_count == u64::MAX {
                            proof {
                                lemma_hint_counts_err_stable(p, hs, o, base_file_count, base_total_bytes, ii + 1, hs.len() as int);
                            }
                            return Err(
                                IndexError::new(
                                    "INDEX_METADATA_OVERFLOW",
                                    String::from_str("file count overflow"),
                                ),
                            );
                        }
                        if total > u64::MAX - *size_bytes {
                            proof {
                                lemma_hint_counts_err_stable(p, hs, o, base_file_count, base_total_bytes, ii + 1, hs.len() as int);
                            }
                            return Err(
                                IndexError::new(
                                    "INDEX_METADATA_OVERFLOW",
                                    String::from_str("byte count overflow"),
                                ),
                            );
                        }
                        file_count = file_count + 1;
                        total = total + *size_bytes;
                        added.push((path.clone(), content_sha256.clone()));
                    },
                }
                touched.push(
                    IndexedFileSnapshot {
                        relative_path: path.clone(),
                        size_bytes: *size_bytes,
                        modified_unix_ns: *modified_unix_ns,
                        content_sha256: content_sha256.clone(),
                    },
                );
                proof {
                    assert(hint_touched(o, ii + 1) == before_touched.push(ii));
                }
            },
            HintObservation::Missing => {
                match known {
                    Some(k) => {
                        let old = &previous[*k];
                        if file_count == 0 {
                            proof {
                                lemma_hint_counts_err_stable(p, hs, o, base_file_count, base_total_bytes, ii + 1, hs.len() as int);
                            }
                            return Err(
                                IndexError::new(
                                    "INDEX_METADATA_OVERFLOW",
                                    String::from_str("file count underflow"),
                                ),
                            );
                        }
                        if total < old.size_bytes {
                            proof {
                                lemma_hint_counts_err_stable(p, hs, o, base_file_count, base_total_bytes, ii + 1, hs.len() as int);
                            }
                            return Err(
                                IndexError::new(
                                    "INDEX_METADATA_OVERFLOW",
                                    String::from_str("byte count underflow"),
                                ),
                            );
                        }
                        file_count = file_count - 1;
                        total = total - old.size_bytes;
                        deleted.push((path.clone(), old.content_sha256.clone()));
                    },
                    None => {},
                }
            },
        }
        proof {
            assert(pair_views(added@) =~= hint_added(p, hs, o, ii + 1));
            assert(pair_views(deleted@) =~= hint_deleted(p, hs, o, ii + 1));
        }
        i = i + 1;
    }
    Ok(
        HintPass {
            file_count,
            total_bytes: total,
            touched,
            hashed,
            unchanged,
            added,
            deleted,
        },
    )
}

/// What the change rules of a hint-only update rely on.
pub open spec fn hint_inputs(
    previous: Seq<IndexedFileSnapshot>,
    hints: Seq<Seq<char>>,
    obs: Seq<HintObservation>,
    deleted: Seq<(Seq<char>, Seq<char>)>,
    taken_by: Seq<Option<usize>>,
) -> bool {
    let picks = hint_picks(previous, hints, obs);
    &&& obs.len() == hints.len()
    &&& deleted == hint_deleted(previous, hints, obs, hints.len() as int)
    &&& taken_by.len() == hint_added(previous, hints, obs, hints.len() as int).len()
    &&& picks.len() == deleted.len()
    &&& forall|a: int|
        0 <= a < taken_by.len() ==> (#[trigger] taken_by[a] matches Some(j) ==> j < deleted.len()
            && picks[j as int] == a)
    &&& forall|a: int| 0 <= a < taken_by.len() ==> (taken_by[a] is None ==> !picks.contains(a))
    &&& forall|i: int, j: int| 0 <= i < j < picks.len() && picks[i] >= 0 ==> picks[i] != picks[j]
}

proof fn lemma_hint_filters_mono(
    previous: Seq<IndexedFileSnapshot>,
    hints: Seq<Seq<char>>,
    obs: Seq<HintObservation>,
    n: int,
    m: int,
)
    requires
        0 <= n <= m,
    ensures
        hint_added(previous, hints, obs, n).len() <= hint_added(previous, hints, obs, m).len(),
        hint_deleted(previous, hints, obs, n).len() <= hint_deleted(previous, hints, obs, m).len(),
    decreases m - n,
{
    if m > n {
        lemma_hint_filters_mono(previous, hints, obs, n, m - 1);
    }
}

/// The change at hinted path `i`, and whether that path is a new file and
/// whether it is a gone one.
fn hint_item(
    previous: &[IndexedFileSnapshot],
    hints: &[String],
    observations: &[HintObservation],
    prior: &StrMap<usize>,
    deleted: &Vec<(String, String)>,
    taken_by: &Vec<Option<usize>>,
    picks: &Vec<Option<usize>>,
    i: usize,
    slot: usize,
    gone: usize,
) -> (r: (Option<IndexChange>, bool, bool))
    requires
        hint_inputs(previous@, views(hints@), observations@, pair_views(deleted@), taken_by@),
        picks@.len() == deleted@.len(),
        forall|j: int|
            0 <= j < deleted@.len() ==> pick_value(#[trigger] picks@[j]) == hint_picks(
                previous@,
                views(hints@),
                observations@,
            )[j],
        forall|q: Seq<char>|
            #![trigger prior.map().dom().contains(q)]
            (prior.map().dom().contains(q) <==> prior_index(previous@, q) >= 0) && (
            prior.map().dom().contains(q) ==> prior.map()[q] == prior_index(previous@, q)),
        i < hints@.len(),
        slot == hint_added(previous@, views(hints@), observations@, i as int).len(),
        gone == hint_deleted(previous@, views(hints@), observations@, i as int).len(),
    ensures
        r.0 is Some <==> hint_change(previous@, views(hints@), observations@, i as int) is Some,
        r.0 matches Some(c) ==> hint_change(previous@, views(hints@), observations@, i as int)
            == Some(change_view(c)) && c.relative_path@ == hints@[i as int]@,
        r.1 == is_new_file(previous@, views(hints@), observations@, i as int),
        r.2 == is_gone_file(previous@, views(hints@), observations@, i as int),
{
    let ghost p = previous@;
    let ghost hs = views(hints@);
    let ghost o = observations@;
    let ghost picks_spec = hint_picks(p, hs, o);
    let ghost d = hint_deleted(p, hs, o, hs.len() as int);
    let path = &hints[i];
    let ghost ii = i as int;
    let ghost q = path@;
    assert(hs[ii] == q);
    proof {
        lemma_last_snapshot(p, q, p.len() as int);
        lemma_hint_filters_mono(p, hs, o, ii + 1, hs.len() as int);
        reveal_strlit("modified");
        reveal_strlit("renamed");
        reveal_strlit("added");
        reveal_strlit("deleted");
    }
    let known = prior.get(path.as_str());
    match &observations[i] {
        HintObservation::File { content_sha256, .. } => match known {
            Some(k) => {
                let old = &previous[*k];
                if !str_eq(old.content_sha256.as_str(), content_sha256.as_str()) {
                    let c = IndexChange {
                        change_kind: String::from_str("modified"),
                        relative_path: path.clone(),
                        previous_path: None,
                        before_sha256: Some(old.content_sha256.clone()),
                        after_sha256: Some(content_sha256.clone()),
                    };
                    (Some(c), false, false)
                } else {
                    (None, false, false)
                }
            },
            None => {
                assert(hint_added(p, hs, o, ii + 1).len() == slot + 1);
                match taken_by[slot] {
                    Some(j) => {
                        proof {
                            assert(picks_spec[j as int] == slot);
                            assert(picks_spec.contains(slot as int));
                            let jj = picks_spec.index_of(slot as int);
                            assert(0 <= jj < picks_spec.len() && picks_spec[jj] == slot);
                            if jj < j {
                                assert(picks_spec[jj] != picks_spec[j as int]);
                            } else if jj > j {
                                assert(picks_spec[j as int] != picks_spec[jj]);
                            }
                            assert(jj == j);
                            assert(pair_views(deleted@)[j as int] == d[j as int]);
                        }
                        let c = IndexChange {
                            change_kind: String::from_str("renamed"),
                            relative_path: path.clone(),
                            previous_path: Some(deleted[j].0.clone()),
                            before_sha256: Some(deleted[j].1.clone()),
                            after_sha256: Some(deleted[j].1.clone()),
                        };
                        (Some(c), true, false)
                    },
                    None => {
                        let c = IndexChange {
                            change_kind: String::from_str("added"),
                            relative_path: path.clone(),
                            previous_path: None,
                            before_sha256: None,
                            after_sha256: Some(content_sha256.clone()),
                        };
                        (Some(c), true, false)
                    },
                }
            },
        },
        HintObservation::Missing => match known {
            Some(k) => {
                assert(hint_deleted(p, hs, o, ii + 1).len() == gone + 1);
                assert(pick_value(picks@[gone as int]) == picks_spec[gone as int]);
                if picks[gone].is_none() {
                    let c = IndexChange {
                        change_kind: String::from_str("deleted"),
                        relative_path: path.clone(),
                        previous_path: None,
                        before_sha256: Some(previous[*k].content_sha256.clone()),
                        after_sha256: None,
                    };
                    (Some(c), false, true)
                } else {
                    (None, false, true)
                }
            },
            None => (None, false, false),
        },
        _ => (None, false, false),
    }
}

/// What a hint-only update plans from the observations of the hinted
/// paths: the new file and byte counts, a snapshot of each hinted regular
/// file in hint order, and the changes, in hint order.
pub open spec fn hint_plan_of(
    previous: Seq<IndexedFileSnapshot>,
    hints: Seq<Seq<char>>,
    obs: Seq<HintObservation>,
    base_file_count: u64,
    base_total_bytes: u64,
    elapsed_ms: u64,
    plan: HintPlan,
) -> bool {
    let p = previous;
    let hs = hints;
    let o = obs;
    let n = hints.len() as int;
    let counts = hint_counts(p, hs, o, base_file_count, base_total_bytes, n);
    &&& counts == Ok::<(u64, u64), (Seq<char>, Seq<char>)>((plan.file_count, plan.stats.total_bytes))
    &&& plan.touched_files@.len() == hint_touched(o, n).len()
    &&& forall|t: int|
        0 <= t < plan.touched_files@.len() ==> hint_snapshot(
            #[trigger] plan.touched_files@[t],
            hs[hint_touched(o, n)[t]],
            o[hint_touched(o, n)[t]],
        )
    &&& change_views(plan.changes@) == hint_changes(p, hs, o, n)
    &&& strictly_sorted(change_paths_of(plan.changes@))
    &&& plan.stats.files_seen == n
    &&& plan.stats.files_hashed == hint_touched(o, n).len()
    &&& plan.stats.files_unchanged == hint_unchanged(p, hs, o, n)
    &&& plan.stats.symlinks_skipped == 0
    &&& plan.stats.hint_count == n
    &&& plan.stats.hint_hits == plan.changes@.len()
    &&& plan.stats.elapsed_ms == elapsed_ms
}

/// Whether an observation ends a hint-only update: anything but a regular
/// file or a missing path refuses it, so the paths after it need not be
/// inspected.
pub open spec fn ends_update(o: HintObservation) -> bool {
    !(o is File || o is Missing)
}

/// Whether inspecting the hinted paths can stop at this observation.
pub fn observation_ends_update(o: &HintObservation) -> (r: bool)
    ensures
        r == ends_update(*o),
{
    match o {
        HintObservation::File { .. } => false,
        HintObservation::Missing => false,
        _ => true,
    }
}

proof fn lemma_hint_counts_prefix(
    previous: Seq<IndexedFileSnapshot>,
    hints: Seq<Seq<char>>,
    others: Seq<Seq<char>>,
    obs: Seq<HintObservation>,
    file_count: u64,
    total_bytes: u64,
    n: int,
)
    requires
        0 <= n <= hints.len(),
        n <= others.len(),
        forall|i: int| 0 <= i < n ==> hints[i] == others[i],
    ensures
        hint_counts(previous, hints, obs, file_count, total_bytes, n) == hint_counts(
            previous,
            others,
            obs,
            file_count,
            total_bytes,
            n,
        ),
    decreases n,
{
    if n > 0 {
        lemma_hint_counts_prefix(previous, hints, others, obs, file_count, total_bytes, n - 1);
    }
}

/// The plan of a hint-only update. `previous` holds the indexed snapshots
/// of the hinted paths; `hints` are the normalized hints (sorted, each
/// once); `observations` says what each hinted path was found to be, in the
/// same order, and may stop early at an observation that ends the update
/// (`ends_update`); the counts are those of the committed index.
pub fn hint_plan(
    previous: &[IndexedFileSnapshot],
    hints: &[String],
    observations: &[HintObservation],
    base_file_count: u64,
    base_total_bytes: u64,
    elapsed_ms: u64,
) -> (r: Result<HintPlan, IndexError>)
    requires
        strictly_sorted(views(hints@)),
        observations@.len() <= hints@.len(),
        observations@.len() < hints@.len() ==> observations@.len() > 0 && ends_update(
            observations@.last(),
        ),
    ensures
        ({
            let p = previous@;
            let hs = views(hints@);
            let o = observations@;
            let n = hints@.len() as int;
            let counts = hint_counts(p, hs, o, base_file_count, base_total_bytes, n);
            &&& r is Err <==> (n == 0 || counts is Err)
            &&& r matches Err(e) ==> (n == 0 && e.code@ == "INDEX_HINT_INVALID"@ && e.message@
                == "hint-only updates require at least one project-relative path"@) || (n > 0
                && counts == Err::<(u64, u64), (Seq<char>, Seq<char>)>((e.code@, e.message@)))
            &&& r matches Ok(plan) ==> hint_plan_of(p, hs, o, base_file_count, base_total_bytes, elapsed_ms, plan)
        }),
{
    if observations.len() < hints.len() {
        let k = observations.len();
        let mut inspected: Vec<String> = Vec::new();
        let mut i: usize = 0;
        while i < k
            invariant
                i <= k,
                k == observations@.len(),
                k < hints@.len(),
                inspected@.len() == i,
                forall|j: int| 0 <= j < i ==> #[trigger] inspected@[j]@ == hints@[j]@,
            decreases k - i,
        {
            inspected.push(hints[i].clone());
            i = i + 1;
        }
        proof {
            assert(views(inspected@) =~= views(hints@).subrange(0, k as int));
            assert forall|a: int, b: int| 0 <= a < b < views(inspected@).len() implies crate::text::seq_lt(
                #[trigger] views(inspected@)[a],
                #[trigger] views(inspected@)[b],
            ) by {
                assert(views(inspected@)[a] == views(hints@)[a]);
                assert(views(inspected@)[b] == views(hints@)[b]);
            }
        }
        let r = plan_hints(previous, &inspected, observations, base_file_count, base_total_bytes, elapsed_ms);
        proof {
            let p = previous@;
            let hs = views(hints@);
            let o = observations@;
            let kk = k as int;
            lemma_hint_counts_prefix(p, views(inspected@), hs, o, base_file_count, base_total_bytes, kk);
            lemma_hint_counts_prefix(p, views(inspected@), hs, o, base_file_count, base_total_bytes, kk - 1);
            assert(hint_counts(p, hs, o, base_file_count, base_total_bytes, kk) is Err);
            lemma_hint_counts_err_stable(p, hs, o, base_file_count, base_total_bytes, kk, hs.len() as int);
        }
        return r;
    }
    plan_hints(previous, hints, observations, base_file_count, base_total_bytes, elapsed_ms)
}

/// The plan of a hint-only update, one observation per hint.
fn plan_hints(
    previous: &[IndexedFileSnapshot],
    hints: &[String],
    observations: &[HintObservation],
    base_file_count: u64,
    base_total_bytes: u64,
    elapsed_ms: u64,
) -> (r: Result<HintPlan, IndexError>)
    requires
        strictly_sorted(views(hints@)),
        observations@.len() == hints@.len(),
    ensures
        ({
            let p = previous@;
            let hs = views(hints@);
            let o = observations@;
            let n = hints@.len() as int;
            let counts = hint_counts(p, hs, o, base_file_count, base_total_bytes, n);
            &&& r is Err <==> (n == 0 || counts is Err)
            &&& r matches Err(e) ==> (n == 0 && e.code@ == "INDEX_HINT_INVALID"@ && e.message@
                == "hint-only updates require at least one project-relative path"@) || (n > 0
                && counts == Err::<(u64, u64), (Seq<char>, Seq<char>)>((e.code@, e.message@)))
            &&& r matches Ok(plan) ==> hint_plan_of(p, hs, o, base_file_count, base_total_bytes, elapsed_ms, plan)
        }),
{
    if hints.len() == 0 {
        return Err(
            IndexError::new(
                "INDEX_HINT_INVALID",
                String::from_str("hint-only updates require at least one project-relative path"),
            ),
        );
    }
    let ghost p = previous@;
    let ghost hs = views(hints@);
    let ghost o = observations@;
    let pass = hint_pass(previous, hints, observations, base_file_count, base_total_bytes)?;
    let prior = prior_map(previous);
    let ghost a = hint_added(p, hs, o, hs.len() as int);
    let ghost d = hint_deleted(p, hs, o, hs.len() as int);
    let ghost pk = hint_picks(p, hs, o);
    let (picks, _used) = pick_renames(&pass.added, &pass.deleted);
    proof {
        lemma_picks_distinct(a, d, d.len() as int);
        assert forall|i: int, j: int|
            0 <= i < j < picks@.len() && (#[trigger] picks@[i]) is Some implies picks@[i] != #[trigger] picks@[j] by {
            assert(pick_value(picks@[i]) == pk[i]);
            assert(pick_value(picks@[j]) == pk[j]);
        }
    }
    let taken_by = invert_picks(&picks, pass.added.len());
    proof {
        assert forall|x: int| 0 <= x < taken_by@.len() implies (taken_by@[x] is None ==> !pk.contains(x)) by {
            if taken_by@[x] is None && pk.contains(x) {
                let j = choose|j: int| 0 <= j < pk.len() && pk[j] == x;
                assert(pick_value(picks@[j]) == x);
                assert(picks@[j] == Some(x as usize));
            }
        }
        assert forall|x: int| 0 <= x < taken_by@.len() implies (#[trigger] taken_by@[x] matches Some(j) ==> j
            < pass.deleted@.len() && pk[j as int] == x) by {
            if let Some(j) = taken_by@[x] {
                assert(pick_value(picks@[j as int]) == pk[j as int]);
            }
        }
        assert(hint_inputs(p, hs, o, pair_views(pass.deleted@), taken_by@));
    }
    let mut changes: Vec<IndexChange> = Vec::new();
    let ghost mut pos: Seq<int> = Seq::empty();
    let mut slot: usize = 0;
    let mut gone: usize = 0;
    let mut i: usize = 0;
    while i < hints.len()
        invariant
            p == previous@,
            hs == views(hints@),
            o == observations@,
            pk == hint_picks(p, hs, o),
            strictly_sorted(hs),
            hint_inputs(p, hs, o, pair_views(pass.deleted@), taken_by@),
            picks@.len() == pass.deleted@.len(),
            forall|j: int| 0 <= j < pass.deleted@.len() ==> pick_value(#[trigger] picks@[j]) == pk[j],
            forall|q: Seq<char>|
                #![trigger prior.map().dom().contains(q)]
                (prior.map().dom().contains(q) <==> prior_index(p, q) >= 0) && (
                prior.map().dom().contains(q) ==> prior.map()[q] == prior_index(p, q)),
            i <= hints@.len(),
            slot == hint_added(p, hs, o, i as int).len(),
            gone == hint_deleted(p, hs, o, i as int).len(),
            change_views(changes@) == hint_changes(p, hs, o, i as int),
            pos.len() == changes@.len(),
            forall|t: int| 0 <= t < changes@.len() ==> 0 <= #[trigger] pos[t] < i && changes@[t].relative_path@ == hs[pos[t]],
            strictly_sorted(change_paths_of(changes@)),
        decreases hints@.len() - i,
    {
        let ghost ii = i as int;
        proof {
            lemma_hint_filters_mono(p, hs, o, ii + 1, hs.len() as int);
        }
        let (change, is_new, is_gone) = hint_item(
            previous,
            hints,
            observations,
            &prior,
            &pass.deleted,
            &taken_by,
            &picks,
            i,
            slot,
            gone,
        );
        let n_taken = taken_by.len();
        let n_deleted = pass.deleted.len();
        assert(hint_added(p, hs, o, ii + 1).len() == slot + (if is_new { 1int } else { 0int }));
        assert(hint_deleted(p, hs, o, ii + 1).len() == gone + (if is_gone { 1int } else { 0int }));
        if is_new {
            assert(slot + 1 <= n_taken);
            slot = slot + 1;
        }
        if is_gone {
            assert(gone + 1 <= n_deleted);
            gone = gone + 1;
        }
        let ghost old_changes = changes@;
        let ghost old_pos = pos;
        if let Some(c) = change {
            changes.push(c);
            proof {
                pos = pos.push(ii);
                assert(change_views(changes@) =~= hint_changes(p, hs, o, ii + 1));
                assert(change_paths_of(old_changes).push(hs[ii]) =~= change_paths_of(changes@));
                if old_changes.len() > 0 {
                    let lp = old_pos[old_changes.len() - 1];
                    assert(change_paths_of(old_changes).last() == hs[lp]);
                    assert(seq_lt(hs[lp], hs[ii]));
                }
                lemma_push_sorted(change_paths_of(old_changes), hs[ii]);
                assert forall|t: int| 0 <= t < changes@.len() implies 0 <= #[trigger] pos[t] < i + 1 && changes@[t].relative_path@ == hs[pos[t]] by {
                    if t < old_changes.len() {
                        assert(changes@[t] == old_changes[t]);
                    }
                }
            }
        } else {
            proof {
                assert(change_views(changes@) =~= hint_changes(p, hs, o, ii + 1));
            }
        }
        i = i + 1;
    }
    let count = changes.len();
    Ok(
        HintPlan {
            file_count: pass.file_count,
            touched_files: pass.touched,
            changes,
            stats: IndexStats {
                files_seen: hints.len(),
                files_hashed: pass.hashed,
                files_unchanged: pass.unchanged,
                symlinks_skipped: 0,
                total_bytes: pass.total_bytes,
                hint_count: hints.len(),
                hint_hits: count,
                elapsed_ms,
            },
        },
    )
}

} // verus!
