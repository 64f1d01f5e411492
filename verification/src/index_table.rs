//! The file table of a project index, and what an incremental commit of a
//! reconciliation does to it: the paths that the changes remove are deleted,
//! then the touched files are written in.
use vstd::prelude::*;
use crate::hints::{
    hint_added, hint_change, hint_changes, hint_counts, hint_deleted, hint_picks, hint_plan_of,
    hint_snapshot, hint_touched, is_gone_file, is_new_file, change_views, HintObservation,
};
use crate::indexing::{HintPlan, IndexChange, IndexPlan, IndexedFileSnapshot};
use crate::reconcile::{
    added_entries, change_at, change_view, deleted_entries, gone_paths, lemma_last_snapshot,
    lemma_picks_distinct, lemma_sorted_index_of, last_snapshot, meta_paths, needs_hash, opt_view,
    plan_reconciles, planned_digest, prior_index, reconcile_picks, touched_positions, FileMeta,
};
use crate::storage::removed_path;
use crate::text::{lemma_sorted_list, sorted_list, strictly_sorted};

verus! {

/// What the table keeps of a file: its size, modification time and digest.
pub open spec fn row_of(s: IndexedFileSnapshot) -> (u64, u64, Seq<char>) {
    (s.size_bytes, s.modified_unix_ns, s.content_sha256@)
}

/// The file table that a list of snapshots describes: each path with its
/// last snapshot.
pub open spec fn file_table(files: Seq<IndexedFileSnapshot>) -> Map<Seq<char>, (u64, u64, Seq<char>)> {
    Map::new(
        |q: Seq<char>| prior_index(files, q) >= 0,
        |q: Seq<char>| row_of(files[prior_index(files, q)]),
    )
}

/// The table after the first `n` changes deleted the paths they remove.
pub open spec fn without_removed(
    table: Map<Seq<char>, (u64, u64, Seq<char>)>,
    changes: Seq<IndexChange>,
    n: int,
) -> Map<Seq<char>, (u64, u64, Seq<char>)>
    decreases n,
{
    if n <= 0 {
        table
    } else {
        let t = without_removed(table, changes, n - 1);
        match removed_path(changes[n - 1]) {
            Some(q) => t.remove(q),
            None => t,
        }
    }
}

/// The table after the first `n` files were written in, each over any row
/// at its path.
pub open spec fn with_upserts(
    table: Map<Seq<char>, (u64, u64, Seq<char>)>,
    files: Seq<IndexedFileSnapshot>,
    n: int,
) -> Map<Seq<char>, (u64, u64, Seq<char>)>
    decreases n,
{
    if n <= 0 {
        table
    } else {
        with_upserts(table, files, n - 1).insert(files[n - 1].relative_path@, row_of(files[n - 1]))
    }
}

/// The table after an incremental commit: the paths that the changes remove
/// are deleted, then the touched files are written in.
pub open spec fn committed_table(
    table: Map<Seq<char>, (u64, u64, Seq<char>)>,
    changes: Seq<IndexChange>,
    touched: Seq<IndexedFileSnapshot>,
) -> Map<Seq<char>, (u64, u64, Seq<char>)> {
    with_upserts(without_removed(table, changes, changes.len() as int), touched, touched.len() as int)
}

/// Whether one of the first `n` changes removes `q`.
pub open spec fn removes(changes: Seq<IndexChange>, n: int, q: Seq<char>) -> bool {
    exists|k: int| 0 <= k < n && #[trigger] removed_path(changes[k]) == Some(q)
}

proof fn lemma_without_removed(
    table: Map<Seq<char>, (u64, u64, Seq<char>)>,
    changes: Seq<IndexChange>,
    n: int,
)
    requires
        0 <= n <= changes.len(),
    ensures
        forall|q: Seq<char>|
            #![trigger without_removed(table, changes, n).dom().contains(q)]
            (without_removed(table, changes, n).dom().contains(q) <==> table.dom().contains(q)
                && !removes(changes, n, q)) && (without_removed(table, changes, n).dom().contains(q)
                ==> without_removed(table, changes, n)[q] == table[q]),
    decreases n,
{
    if n > 0 {
        lemma_without_removed(table, changes, n - 1);
        let before = without_removed(table, changes, n - 1);
        let after = without_removed(table, changes, n);
        assert forall|q: Seq<char>|
            #![trigger after.dom().contains(q)]
            (after.dom().contains(q) <==> table.dom().contains(q) && !removes(changes, n, q)) && (
            after.dom().contains(q) ==> after[q] == table[q]) by {
            assert(before.dom().contains(q) <==> table.dom().contains(q) && !removes(changes, n - 1, q));
            if removes(changes, n, q) && removed_path(changes[n - 1]) != Some(q) {
                let k = choose|k: int| 0 <= k < n && #[trigger] removed_path(changes[k]) == Some(q);
                assert(k < n - 1);
                assert(removes(changes, n - 1, q));
            }
            if removes(changes, n - 1, q) {
                let k = choose|k: int| 0 <= k < n - 1 && #[trigger] removed_path(changes[k]) == Some(q);
                assert(removes(changes, n, q));
            }
            if removed_path(changes[n - 1]) == Some(q) {
                assert(removes(changes, n, q));
            }
        }
    }
}

proof fn lemma_with_upserts(
    table: Map<Seq<char>, (u64, u64, Seq<char>)>,
    files: Seq<IndexedFileSnapshot>,
    n: int,
)
    requires
        0 <= n <= files.len(),
    ensures
        forall|q: Seq<char>|
            #![trigger with_upserts(table, files, n).dom().contains(q)]
            last_snapshot(files, q, n) >= 0 ==> with_upserts(table, files, n).dom().contains(q)
                && with_upserts(table, files, n)[q] == row_of(files[last_snapshot(files, q, n)]),
        forall|q: Seq<char>|
            #![trigger with_upserts(table, files, n).dom().contains(q)]
            last_snapshot(files, q, n) < 0 ==> (with_upserts(table, files, n).dom().contains(q)
                <==> table.dom().contains(q)) && (table.dom().contains(q) ==> with_upserts(
                table,
                files,
                n,
            )[q] == table[q]),
    decreases n,
{
    if n > 0 {
        lemma_with_upserts(table, files, n - 1);
        let before = with_upserts(table, files, n - 1);
        let after = with_upserts(table, files, n);
        assert forall|q: Seq<char>|
            #![trigger after.dom().contains(q)]
            q != files[n - 1].relative_path@ implies (after.dom().contains(q) == before.dom().contains(q)
                && last_snapshot(files, q, n) == last_snapshot(files, q, n - 1)) by {
            if before.dom().contains(q) {
                assert(after[q] == before[q]);
            }
        }
    }
}

/// The positions of the files that had to be read are the files that
/// `needs_hash` names.
proof fn lemma_touched_positions(
    previous: Seq<IndexedFileSnapshot>,
    metadata: Seq<FileMeta>,
    verify_content: bool,
    hints: Set<Seq<char>>,
    n: int,
)
    requires
        0 <= n <= metadata.len(),
    ensures
        forall|t: int|
            0 <= t < touched_positions(previous, metadata, verify_content, hints, n).len() ==> {
                let x = #[trigger] touched_positions(previous, metadata, verify_content, hints, n)[t];
                0 <= x < n && needs_hash(previous, metadata[x], verify_content, hints)
            },
        forall|i: int|
            0 <= i < n && needs_hash(previous, #[trigger] metadata[i], verify_content, hints) ==> exists|
                t: int,
            |
                0 <= t < touched_positions(previous, metadata, verify_content, hints, n).len()
                    && touched_positions(previous, metadata, verify_content, hints, n)[t] == i,
    decreases n,
{
    if n > 0 {
        lemma_touched_positions(previous, metadata, verify_content, hints, n - 1);
        let before = touched_positions(previous, metadata, verify_content, hints, n - 1);
        let now = touched_positions(previous, metadata, verify_content, hints, n);
        assert forall|i: int|
            0 <= i < n && needs_hash(previous, #[trigger] metadata[i], verify_content, hints) implies exists|
                t: int,
            | 0 <= t < now.len() && now[t] == i by {
            if i < n - 1 {
                let t = choose|t: int| 0 <= t < before.len() && before[t] == i;
                assert(now[t] == i);
            } else {
                assert(now[now.len() - 1] == i);
            }
        }
    }
}

/// The paths that were indexed and are gone are listed, in order, by
/// `sorted_list`.
pub proof fn lemma_gone_listed(previous: Seq<IndexedFileSnapshot>, metadata: Seq<FileMeta>)
    ensures
        strictly_sorted(sorted_list(gone_paths(previous, metadata))),
        sorted_list(gone_paths(previous, metadata)).to_set() == gone_paths(previous, metadata),
{
    let ps = Seq::new(previous.len(), |k: int| previous[k].relative_path@);
    let gone = gone_paths(previous, metadata);
    assert forall|q: Seq<char>| gone.contains(q) implies ps.to_set().contains(q) by {
        lemma_last_snapshot(previous, q, previous.len() as int);
        let k = prior_index(previous, q);
        assert(ps[k] == q);
    }
    vstd::seq_lib::seq_to_set_is_finite(ps);
    vstd::set_lib::lemma_set_subset_finite(ps.to_set(), gone);
    lemma_sorted_list(gone);
}

/// No change removes a path that is still present.
proof fn lemma_present_not_removed(
    previous: Seq<IndexedFileSnapshot>,
    metadata: Seq<FileMeta>,
    verify_content: bool,
    hints: Set<Seq<char>>,
    digests: Seq<Option<String>>,
    plan: IndexPlan,
    q: Seq<char>,
)
    requires
        plan_reconciles(previous, metadata, verify_content, hints, digests, plan),
        meta_paths(metadata).contains(q),
    ensures
        !removes(plan.changes@, plan.changes@.len() as int, q),
{
    reveal(change_at);
    reveal_strlit("renamed");
    reveal_strlit("modified");
    reveal_strlit("added");
    reveal_strlit("deleted");
    assert("deleted"@[0] != "modified"@[0]);
    assert("deleted"@[0] != "added"@[0]);
    assert("deleted"@[0] != "renamed"@[0]);
    let cs = plan.changes@;
    if removes(cs, cs.len() as int, q) {
        let k = choose|k: int| 0 <= k < cs.len() && #[trigger] removed_path(cs[k]) == Some(q);
        let c = cs[k].relative_path@;
        assert(change_at(previous, metadata, verify_content, hints, digests, c) == Some(change_view(cs[k])));
        lemma_gone_listed(previous, metadata);
        let l = sorted_list(gone_paths(previous, metadata));
        let d = deleted_entries(previous, metadata);
        if meta_paths(metadata).contains(c) {
            // The change at a present path is modified, renamed or added;
            // only a rename removes a path, the one it was renamed from.
            let i = meta_paths(metadata).index_of(c);
            let slot = added_entries(previous, metadata, verify_content, hints, digests, i).len() as int;
            let picks = reconcile_picks(previous, metadata, verify_content, hints, digests);
            let j = picks.index_of(slot);
            lemma_picks_distinct(
                added_entries(previous, metadata, verify_content, hints, digests, metadata.len() as int),
                d,
                d.len() as int,
            );
            assert(0 <= j < d.len());
            assert(d[j].0 == l[j]);
            assert(l.to_set().contains(l[j]));
            assert(gone_paths(previous, metadata).contains(q));
        }
    }
}

/// Every indexed path that is gone is removed by some change: by its
/// deletion, or by the rename that took it.
proof fn lemma_gone_removed(
    previous: Seq<IndexedFileSnapshot>,
    metadata: Seq<FileMeta>,
    verify_content: bool,
    hints: Set<Seq<char>>,
    digests: Seq<Option<String>>,
    plan: IndexPlan,
    q: Seq<char>,
)
    requires
        strictly_sorted(meta_paths(metadata)),
        plan_reconciles(previous, metadata, verify_content, hints, digests, plan),
        gone_paths(previous, metadata).contains(q),
    ensures
        removes(plan.changes@, plan.changes@.len() as int, q),
{
    reveal(change_at);
    reveal_strlit("renamed");
    reveal_strlit("deleted");
    assert("deleted"@[0] != "renamed"@[0]);
    let cs = plan.changes@;
    lemma_gone_listed(previous, metadata);
    let gone = gone_paths(previous, metadata);
    let l = sorted_list(gone);
    let d = deleted_entries(previous, metadata);
    let a = added_entries(previous, metadata, verify_content, hints, digests, metadata.len() as int);
    let picks = reconcile_picks(previous, metadata, verify_content, hints, digests);
    lemma_picks_distinct(a, d, d.len() as int);
    assert(l.to_set().contains(q));
    let j = l.index_of(q);
    assert(0 <= j < l.len() && l[j] == q);
    assert(d[j].0 == q);
    if picks[j] < 0 {
        assert(change_at(previous, metadata, verify_content, hints, digests, q) is Some);
        let k = choose|k: int| 0 <= k < cs.len() && (#[trigger] cs[k]).relative_path@ == q;
        assert(change_at(previous, metadata, verify_content, hints, digests, q) == Some(change_view(cs[k])));
        assert(removed_path(cs[k]) == Some(q));
    } else {
        let s = picks[j];
        crate::reconcile::lemma_added_slot(
            previous,
            metadata,
            verify_content,
            hints,
            digests,
            metadata.len() as int,
            s,
        );
        let x = choose|x: int|
            0 <= x < metadata.len() && needs_hash(previous, metadata[x], verify_content, hints)
                && prior_index(previous, metadata[x].relative_path@) < 0 && #[trigger] added_entries(
                previous,
                metadata,
                verify_content,
                hints,
                digests,
                x,
            ).len() == s;
        let c = metadata[x].relative_path@;
        lemma_sorted_index_of(meta_paths(metadata), x);
        assert(meta_paths(metadata)[x] == c);
        assert(picks.contains(s));
        let j2 = picks.index_of(s);
        assert(0 <= j2 < picks.len() && picks[j2] == s);
        if j2 < j {
            assert(picks[j2] != picks[j]);
        } else if j < j2 {
            assert(picks[j] != picks[j2]);
        }
        assert(j2 == j);
        assert(change_at(previous, metadata, verify_content, hints, digests, c) is Some);
        let k = choose|k: int| 0 <= k < cs.len() && (#[trigger] cs[k]).relative_path@ == c;
        assert(change_at(previous, metadata, verify_content, hints, digests, c) == Some(change_view(cs[k])));
        assert(cs[k].change_kind@ == "renamed"@);
        assert(opt_view(cs[k].previous_path) == Some(q));
        assert(removed_path(cs[k]) == Some(q));
    }
}

/// Committing a reconciliation brings the file table to the tree: deleting
/// the paths that its changes remove from the previous table and writing in
/// its touched files leaves exactly the table of its files, which holds each
/// file now present, with its size, modification time and planned digest.
pub proof fn law_committed_reconciliation_matches_tree(
    previous: Seq<IndexedFileSnapshot>,
    metadata: Seq<FileMeta>,
    verify_content: bool,
    hints: Set<Seq<char>>,
    digests: Seq<Option<String>>,
    plan: IndexPlan,
)
    requires
        strictly_sorted(meta_paths(metadata)),
        plan_reconciles(previous, metadata, verify_content, hints, digests, plan),
    ensures
        committed_table(file_table(previous), plan.changes@, plan.touched_files@) == file_table(
            plan.files@,
        ),
        file_table(plan.files@).dom() == meta_paths(metadata).to_set(),
        forall|i: int|
            0 <= i < metadata.len() ==> file_table(plan.files@)[(#[trigger] metadata[i]).relative_path@]
                == (metadata[i].size_bytes, metadata[i].modified_unix_ns, planned_digest(
                previous,
                metadata,
                verify_content,
                hints,
                digests,
                i,
            )),
{
    let p = previous;
    let m = metadata;
    let cs = plan.changes@;
    let tf = plan.touched_files@;
    let files = plan.files@;
    let mp = meta_paths(m);
    let t0 = file_table(p);
    let removed = without_removed(t0, cs, cs.len() as int);
    let committed = committed_table(t0, cs, tf);
    let target = file_table(files);
    let tp = touched_positions(p, m, verify_content, hints, m.len() as int);
    crate::text::lemma_strictly_sorted_no_dup(mp);
    lemma_without_removed(t0, cs, cs.len() as int);
    lemma_with_upserts(removed, tf, tf.len() as int);
    lemma_touched_positions(p, m, verify_content, hints, m.len() as int);
    assert forall|q: Seq<char>|
        #![trigger target.dom().contains(q)]
        (committed.dom().contains(q) <==> target.dom().contains(q)) && (target.dom().contains(q)
            ==> committed[q] == target[q]) && (target.dom().contains(q) <==> mp.contains(q)) by {
        lemma_last_snapshot(files, q, files.len() as int);
        lemma_last_snapshot(tf, q, tf.len() as int);
        lemma_last_snapshot(p, q, p.len() as int);
        let kt = last_snapshot(tf, q, tf.len() as int);
        if mp.contains(q) {
            let i = mp.index_of(q);
            assert(m[i].relative_path@ == q);
            assert(files[i].relative_path@ == q);
            let kf = prior_index(files, q);
            assert(files[kf].relative_path@ == m[kf].relative_path@);
            assert(mp[kf] == mp[i]);
            assert(kf == i);
            if needs_hash(p, m[i], verify_content, hints) {
                let t = choose|t: int| 0 <= t < tp.len() && tp[t] == i;
                assert(tf[t].relative_path@ == q);
                assert(kt >= 0);
                let x = tp[kt];
                assert(tf[kt].relative_path@ == m[x].relative_path@);
                assert(mp[x] == mp[i]);
                assert(x == i);
            } else {
                if kt >= 0 {
                    let x = tp[kt];
                    assert(mp[x] == mp[i]);
                }
                lemma_present_not_removed(p, m, verify_content, hints, digests, plan, q);
            }
        } else {
            if kt >= 0 {
                let x = tp[kt];
                assert(mp[x] == q);
            }
            if prior_index(files, q) >= 0 {
                let kf = prior_index(files, q);
                assert(mp[kf] == q);
            }
            if prior_index(p, q) >= 0 {
                assert(gone_paths(p, m).contains(q));
                lemma_gone_removed(p, m, verify_content, hints, digests, plan, q);
            }
        }
    }
    assert(committed =~= target);
    assert(target.dom() =~= mp.to_set());
    assert forall|i: int| 0 <= i < m.len() implies target[(#[trigger] m[i]).relative_path@] == (
        m[i].size_bytes,
        m[i].modified_unix_ns,
        planned_digest(p, m, verify_content, hints, digests, i),
    ) by {
        let q = m[i].relative_path@;
        assert(mp[i] == q);
        lemma_last_snapshot(files, q, files.len() as int);
        let kf = prior_index(files, q);
        assert(files[i].relative_path@ == q);
        assert(mp[kf] == mp[i]);
    }
}


/// What the table keeps of an observed regular file.
pub open spec fn observed_row(o: HintObservation) -> (u64, u64, Seq<char>) {
    (o->size_bytes, o->modified_unix_ns, o->content_sha256@)
}

/// The table with each hinted path set to what it was found to be: the
/// observed file, or nothing; every other path as it was.
pub open spec fn hinted_table(
    table: Map<Seq<char>, (u64, u64, Seq<char>)>,
    hints: Seq<Seq<char>>,
    obs: Seq<HintObservation>,
) -> Map<Seq<char>, (u64, u64, Seq<char>)> {
    Map::new(
        |q: Seq<char>|
            if hints.contains(q) {
                obs[hints.index_of(q)] is File
            } else {
                table.dom().contains(q)
            },
        |q: Seq<char>|
            if hints.contains(q) {
                observed_row(obs[hints.index_of(q)])
            } else {
                table[q]
            },
    )
}

/// An accepted hint-only update saw only regular files and missing paths.
proof fn lemma_hint_counts_ok(
    previous: Seq<IndexedFileSnapshot>,
    hints: Seq<Seq<char>>,
    obs: Seq<HintObservation>,
    file_count: u64,
    total_bytes: u64,
    n: int,
)
    requires
        0 <= n,
        hint_counts(previous, hints, obs, file_count, total_bytes, n) is Ok,
    ensures
        forall|i: int| 0 <= i < n ==> (#[trigger] obs[i] is File || obs[i] is Missing),
    decreases n,
{
    if n > 0 {
        lemma_hint_counts_ok(previous, hints, obs, file_count, total_bytes, n - 1);
    }
}

proof fn lemma_hint_touched(obs: Seq<HintObservation>, n: int)
    requires
        0 <= n <= obs.len(),
    ensures
        forall|t: int|
            0 <= t < hint_touched(obs, n).len() ==> {
                let x = #[trigger] hint_touched(obs, n)[t];
                0 <= x < n && obs[x] is File
            },
        forall|i: int|
            0 <= i < n && (#[trigger] obs[i]) is File ==> exists|t: int|
                0 <= t < hint_touched(obs, n).len() && hint_touched(obs, n)[t] == i,
    decreases n,
{
    if n > 0 {
        lemma_hint_touched(obs, n - 1);
        let before = hint_touched(obs, n - 1);
        let now = hint_touched(obs, n);
        assert forall|i: int| 0 <= i < n && (#[trigger] obs[i]) is File implies exists|t: int|
            0 <= t < now.len() && now[t] == i by {
            if i < n - 1 {
                let t = choose|t: int| 0 <= t < before.len() && before[t] == i;
                assert(now[t] == i);
            } else {
                assert(now[now.len() - 1] == i);
            }
        }
    }
}

/// The changes of a hint-only update are the changes of its hinted paths.
proof fn lemma_hint_changes(
    previous: Seq<IndexedFileSnapshot>,
    hints: Seq<Seq<char>>,
    obs: Seq<HintObservation>,
    n: int,
)
    requires
        0 <= n,
    ensures
        forall|t: int|
            0 <= t < hint_changes(previous, hints, obs, n).len() ==> exists|i: int|
                0 <= i < n && hint_change(previous, hints, obs, i) == Some(
                    #[trigger] hint_changes(previous, hints, obs, n)[t],
                ),
        forall|i: int|
            0 <= i < n && (#[trigger] hint_change(previous, hints, obs, i)) is Some ==> exists|t: int|
                0 <= t < hint_changes(previous, hints, obs, n).len() && hint_changes(
                    previous,
                    hints,
                    obs,
                    n,
                )[t] == hint_change(previous, hints, obs, i)->0,
    decreases n,
{
    if n > 0 {
        lemma_hint_changes(previous, hints, obs, n - 1);
        let before = hint_changes(previous, hints, obs, n - 1);
        let now = hint_changes(previous, hints, obs, n);
        assert forall|t: int| 0 <= t < now.len() implies exists|i: int|
            0 <= i < n && hint_change(previous, hints, obs, i) == Some(#[trigger] now[t]) by {
            if t < before.len() {
                assert(now[t] == before[t]);
                let i = choose|i: int| 0 <= i < n - 1 && hint_change(previous, hints, obs, i) == Some(before[t]);
            } else {
                assert(hint_change(previous, hints, obs, n - 1) == Some(now[t]));
            }
        }
        assert forall|i: int|
            0 <= i < n && (#[trigger] hint_change(previous, hints, obs, i)) is Some implies exists|t: int|
            0 <= t < now.len() && now[t] == hint_change(previous, hints, obs, i)->0 by {
            if i < n - 1 {
                let t = choose|t: int| 0 <= t < before.len() && before[t] == hint_change(previous, hints, obs, i)->0;
                assert(now[t] == before[t]);
            } else {
                assert(now[now.len() - 1] == hint_change(previous, hints, obs, i)->0);
            }
        }
    }
}

/// The gone files of the first `n` hinted paths extend those of the first
/// `m`, for `m <= n`.
proof fn lemma_hint_deleted_prefix(
    previous: Seq<IndexedFileSnapshot>,
    hints: Seq<Seq<char>>,
    obs: Seq<HintObservation>,
    m: int,
    n: int,
)
    requires
        0 <= m <= n,
    ensures
        hint_deleted(previous, hints, obs, m).len() <= hint_deleted(previous, hints, obs, n).len(),
        forall|k: int|
            0 <= k < hint_deleted(previous, hints, obs, m).len() ==> hint_deleted(previous, hints, obs, n)[k]
                == #[trigger] hint_deleted(previous, hints, obs, m)[k],
    decreases n - m,
{
    if n > m {
        lemma_hint_deleted_prefix(previous, hints, obs, m, n - 1);
    }
}

/// Every gone-file entry belongs to a hinted path that is gone.
proof fn lemma_hint_deleted_slot(
    previous: Seq<IndexedFileSnapshot>,
    hints: Seq<Seq<char>>,
    obs: Seq<HintObservation>,
    n: int,
    j: int,
)
    requires
        0 <= n,
        0 <= j < hint_deleted(previous, hints, obs, n).len(),
    ensures
        exists|i: int|
            0 <= i < n && is_gone_file(previous, hints, obs, i) && hint_deleted(previous, hints, obs, n)[j].0
                == #[trigger] hints[i],
    decreases n,
{
    let before = hint_deleted(previous, hints, obs, n - 1);
    if j < before.len() {
        lemma_hint_deleted_slot(previous, hints, obs, n - 1, j);
        let i = choose|i: int|
            0 <= i < n - 1 && is_gone_file(previous, hints, obs, i) && before[j].0 == #[trigger] hints[i];
        assert(hint_deleted(previous, hints, obs, n)[j] == before[j]);
    } else {
        assert(hint_deleted(previous, hints, obs, n)[j].0 == hints[n - 1]);
    }
}

/// Every new-file entry belongs to a hinted path that is a new file.
proof fn lemma_hint_added_slot(
    previous: Seq<IndexedFileSnapshot>,
    hints: Seq<Seq<char>>,
    obs: Seq<HintObservation>,
    n: int,
    s: int,
)
    requires
        0 <= n,
        0 <= s < hint_added(previous, hints, obs, n).len(),
    ensures
        exists|i: int|
            0 <= i < n && is_new_file(previous, hints, obs, i) && #[trigger] hint_added(
                previous,
                hints,
                obs,
                i,
            ).len() == s,
    decreases n,
{
    let before = hint_added(previous, hints, obs, n - 1);
    if s < before.len() {
        lemma_hint_added_slot(previous, hints, obs, n - 1, s);
        let i = choose|i: int|
            0 <= i < n - 1 && is_new_file(previous, hints, obs, i) && #[trigger] hint_added(
                previous,
                hints,
                obs,
                i,
            ).len() == s;
    } else {
        assert(hint_added(previous, hints, obs, n - 1).len() == s);
    }
}

/// A hint-only update removes only hinted paths that were found missing.
proof fn lemma_hint_removed_is_missing(
    previous: Seq<IndexedFileSnapshot>,
    hints: Seq<Seq<char>>,
    obs: Seq<HintObservation>,
    base_file_count: u64,
    base_total_bytes: u64,
    elapsed_ms: u64,
    plan: HintPlan,
    x: Seq<char>,
)
    requires
        obs.len() == hints.len(),
        hint_plan_of(previous, hints, obs, base_file_count, base_total_bytes, elapsed_ms, plan),
        removes(plan.changes@, plan.changes@.len() as int, x),
    ensures
        exists|i: int| 0 <= i < hints.len() && #[trigger] hints[i] == x && obs[i] is Missing,
{
    reveal_strlit("renamed");
    reveal_strlit("modified");
    reveal_strlit("added");
    reveal_strlit("deleted");
    assert("deleted"@[0] != "modified"@[0]);
    assert("deleted"@[0] != "added"@[0]);
    assert("deleted"@[0] != "renamed"@[0]);
    assert("renamed"@[0] != "modified"@[0]);
    assert("renamed"@[0] != "added"@[0]);
    let n = hints.len() as int;
    let cs = plan.changes@;
    let cv = hint_changes(previous, hints, obs, n);
    lemma_hint_changes(previous, hints, obs, n);
    let k = choose|k: int| 0 <= k < cs.len() && #[trigger] removed_path(cs[k]) == Some(x);
    assert(change_views(cs)[k] == change_view(cs[k]));
    let i = choose|i: int| 0 <= i < n && hint_change(previous, hints, obs, i) == Some(#[trigger] cv[k]);
    let d = hint_deleted(previous, hints, obs, n);
    let a = hint_added(previous, hints, obs, n);
    let picks = hint_picks(previous, hints, obs);
    lemma_picks_distinct(a, d, d.len() as int);
    match obs[i] {
        HintObservation::File { .. } => {
            let slot = hint_added(previous, hints, obs, i).len() as int;
            if prior_index(previous, hints[i]) < 0 && picks.contains(slot) {
                let j = picks.index_of(slot);
                assert(0 <= j < d.len());
                lemma_hint_deleted_slot(previous, hints, obs, n, j);
                let i2 = choose|i2: int|
                    0 <= i2 < n && is_gone_file(previous, hints, obs, i2) && d[j].0 == #[trigger] hints[i2];
                assert(hints[i2] == x);
            }
        },
        _ => {
            assert(hints[i] == x);
        },
    }
}

/// A hint-only update removes every hinted path that was indexed and is
/// now missing: by its deletion, or by the rename that took it.
proof fn lemma_hint_missing_removed(
    previous: Seq<IndexedFileSnapshot>,
    hints: Seq<Seq<char>>,
    obs: Seq<HintObservation>,
    base_file_count: u64,
    base_total_bytes: u64,
    elapsed_ms: u64,
    plan: HintPlan,
    i: int,
)
    requires
        obs.len() == hints.len(),
        hint_plan_of(previous, hints, obs, base_file_count, base_total_bytes, elapsed_ms, plan),
        0 <= i < hints.len(),
        obs[i] is Missing,
        prior_index(previous, hints[i]) >= 0,
    ensures
        removes(plan.changes@, plan.changes@.len() as int, hints[i]),
{
    reveal_strlit("renamed");
    reveal_strlit("deleted");
    assert("deleted"@[0] != "renamed"@[0]);
    let n = hints.len() as int;
    let cs = plan.changes@;
    let cv = hint_changes(previous, hints, obs, n);
    lemma_hint_changes(previous, hints, obs, n);
    let d = hint_deleted(previous, hints, obs, n);
    let a = hint_added(previous, hints, obs, n);
    let picks = hint_picks(previous, hints, obs);
    lemma_picks_distinct(a, d, d.len() as int);
    let jd = hint_deleted(previous, hints, obs, i).len() as int;
    lemma_hint_deleted_prefix(previous, hints, obs, i + 1, n);
    assert(hint_deleted(previous, hints, obs, i + 1)[jd].0 == hints[i]);
    assert(d[jd].0 == hints[i]);
    if picks[jd] < 0 {
        assert(hint_change(previous, hints, obs, i) is Some);
        let t = choose|t: int| 0 <= t < cv.len() && cv[t] == hint_change(previous, hints, obs, i)->0;
        assert(change_views(cs)[t] == change_view(cs[t]));
        assert(removed_path(cs[t]) == Some(hints[i]));
    } else {
        let s = picks[jd];
        lemma_hint_added_slot(previous, hints, obs, n, s);
        let i2 = choose|i2: int|
            0 <= i2 < n && is_new_file(previous, hints, obs, i2) && #[trigger] hint_added(
                previous,
                hints,
                obs,
                i2,
            ).len() == s;
        assert(picks.contains(s));
        let j2 = picks.index_of(s);
        assert(0 <= j2 < picks.len() && picks[j2] == s);
        if j2 < jd {
            assert(picks[j2] != picks[jd]);
        } else if jd < j2 {
            assert(picks[jd] != picks[j2]);
        }
        assert(j2 == jd);
        assert(hint_change(previous, hints, obs, i2) is Some);
        let t = choose|t: int| 0 <= t < cv.len() && cv[t] == hint_change(previous, hints, obs, i2)->0;
        assert(change_views(cs)[t] == change_view(cs[t]));
        assert(cs[t].change_kind@ == "renamed"@);
        assert(removed_path(cs[t]) == Some(hints[i]));
    }
}

/// Committing a hint-only update sets each hinted path to what it was found
/// to be and leaves every other path as it was: a hinted regular file is
/// recorded with its observed size, modification time and digest, a hinted
/// path found missing is removed. `table` is the committed file table, and
/// `previous` its snapshots of the hinted paths.
pub proof fn law_committed_hint_update_records_observations(
    table: Map<Seq<char>, (u64, u64, Seq<char>)>,
    previous: Seq<IndexedFileSnapshot>,
    hints: Seq<Seq<char>>,
    obs: Seq<HintObservation>,
    base_file_count: u64,
    base_total_bytes: u64,
    elapsed_ms: u64,
    plan: HintPlan,
)
    requires
        strictly_sorted(hints),
        obs.len() == hints.len(),
        forall|q: Seq<char>|
            hints.contains(q) ==> (#[trigger] table.dom().contains(q) <==> prior_index(previous, q) >= 0),
        hint_plan_of(previous, hints, obs, base_file_count, base_total_bytes, elapsed_ms, plan),
    ensures
        committed_table(table, plan.changes@, plan.touched_files@) == hinted_table(table, hints, obs),
{
    let n = hints.len() as int;
    let cs = plan.changes@;
    let tf = plan.touched_files@;
    let ht = hint_touched(obs, n);
    let removed = without_removed(table, cs, cs.len() as int);
    let committed = committed_table(table, cs, tf);
    let target = hinted_table(table, hints, obs);
    crate::text::lemma_strictly_sorted_no_dup(hints);
    lemma_hint_counts_ok(previous, hints, obs, base_file_count, base_total_bytes, n);
    lemma_hint_touched(obs, n);
    lemma_without_removed(table, cs, cs.len() as int);
    lemma_with_upserts(removed, tf, tf.len() as int);
    assert forall|q: Seq<char>|
        #![trigger target.dom().contains(q)]
        (committed.dom().contains(q) <==> target.dom().contains(q)) && (target.dom().contains(q)
            ==> committed[q] == target[q]) by {
        lemma_last_snapshot(tf, q, tf.len() as int);
        let kt = last_snapshot(tf, q, tf.len() as int);
        if kt >= 0 {
            assert(hint_snapshot(tf[kt], hints[ht[kt]], obs[ht[kt]]));
        }
        if hints.contains(q) {
            let i = hints.index_of(q);
            assert(hints[i] == q);
            if obs[i] is File {
                let t = choose|t: int| 0 <= t < ht.len() && ht[t] == i;
                assert(hint_snapshot(tf[t], hints[ht[t]], obs[ht[t]]));
                assert(tf[t].relative_path@ == q);
                assert(kt >= 0);
                assert(hints[ht[kt]] == hints[i]);
                assert(ht[kt] == i);
                assert(committed.dom().contains(q) && committed[q] == observed_row(obs[i]));
                assert(target.dom().contains(q) && target[q] == observed_row(obs[i]));
            } else {
                assert(obs[i] is Missing);
                if kt >= 0 {
                    assert(hints[ht[kt]] == hints[i]);
                }
                if table.dom().contains(q) {
                    lemma_hint_missing_removed(
                        previous,
                        hints,
                        obs,
                        base_file_count,
                        base_total_bytes,
                        elapsed_ms,
                        plan,
                        i,
                    );
                }
                assert(!committed.dom().contains(q));
                assert(!target.dom().contains(q));
            }
        } else {
            if kt >= 0 {
                assert(hints[ht[kt]] == q);
            }
            if removes(cs, cs.len() as int, q) {
                lemma_hint_removed_is_missing(
                    previous,
                    hints,
                    obs,
                    base_file_count,
                    base_total_bytes,
                    elapsed_ms,
                    plan,
                    q,
                );
                let i = choose|i: int| 0 <= i < hints.len() && #[trigger] hints[i] == q && obs[i] is Missing;
                assert(hints.contains(q));
            }
            assert(!target.dom().contains(q) || target[q] == table[q]);
        }
    }
    assert(committed =~= target);
}

} // verus!
