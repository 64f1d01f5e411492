//! Reconciliation planning: given the previous index, the metadata of the
//! files now under the project root and the digests of the files that had
//! to be read, the plan that a reconciliation commits.
use vstd::prelude::*;
use vstd::string::StringExecFns;
use crate::collections::{views, StrMap, StrSet};
use crate::indexing::{
    lemma_first_free, pair_views, pick_renames, pick_value, rename_picks, IndexChange, IndexedFileSnapshot,
    IndexPlan, IndexStats,
};
use crate::text::{lemma_sorted_unique, seq_lt, sorted_list, str_eq, strictly_sorted};

verus! {

/// Metadata of one regular file found below the project root.
pub struct FileMeta {
    pub relative_path: String,
    pub size_bytes: u64,
    pub modified_unix_ns: u64,
}

/// The last of the first `n` snapshots of `path` (the one that a map keyed
/// by path keeps); -1 when there is none.
pub open spec fn last_snapshot(previous: Seq<IndexedFileSnapshot>, path: Seq<char>, n: int) -> int
    decreases n,
{
    if n <= 0 {
        -1
    } else if previous[n - 1].relative_path@ == path {
        n - 1
    } else {
        last_snapshot(previous, path, n - 1)
    }
}

/// The previous snapshot of `path`, by position; -1 when it was not indexed.
pub open spec fn prior_index(previous: Seq<IndexedFileSnapshot>, path: Seq<char>) -> int {
    last_snapshot(previous, path, previous.len() as int)
}

pub proof fn lemma_last_snapshot(previous: Seq<IndexedFileSnapshot>, path: Seq<char>, n: int)
    requires
        0 <= n <= previous.len(),
    ensures
        -1 <= last_snapshot(previous, path, n) < n,
        last_snapshot(previous, path, n) >= 0 ==> previous[last_snapshot(previous, path, n)].relative_path@
            == path,
        last_snapshot(previous, path, n) < 0 <==> forall|k: int|
            0 <= k < n ==> (#[trigger] previous[k]).relative_path@ != path,
    decreases n,
{
    if n > 0 {
        lemma_last_snapshot(previous, path, n - 1);
    }
}

/// Whether a file must be read: it was not indexed, its size or
/// modification time changed, content verification was asked for, or a
/// watcher hint names it.
pub open spec fn needs_hash(
    previous: Seq<IndexedFileSnapshot>,
    item: FileMeta,
    verify_content: bool,
    hints: Set<Seq<char>>,
) -> bool {
    let k = prior_index(previous, item.relative_path@);
    !(k >= 0 && previous[k].size_bytes == item.size_bytes && previous[k].modified_unix_ns
        == item.modified_unix_ns && !verify_content && !hints.contains(item.relative_path@))
}

/// The paths of file metadata, in order.
pub open spec fn meta_paths(metadata: Seq<FileMeta>) -> Seq<Seq<char>> {
    Seq::new(metadata.len(), |i: int| metadata[i].relative_path@)
}

/// The positions of the previous snapshots by path.
pub(crate) fn prior_map(previous: &[IndexedFileSnapshot]) -> (r: StrMap<usize>)
    ensures
        forall|p: Seq<char>|
            #![trigger r.map().dom().contains(p)]
            (r.map().dom().contains(p) <==> prior_index(previous@, p) >= 0) && (r.map().dom().contains(
                p,
            ) ==> r.map()[p] == prior_index(previous@, p)),
{
    let mut m: StrMap<usize> = StrMap::new();
    let mut i: usize = 0;
    while i < previous.len()
        invariant
            i <= previous@.len(),
            forall|p: Seq<char>|
                #![trigger m.map().dom().contains(p)]
                (m.map().dom().contains(p) <==> last_snapshot(previous@, p, i as int) >= 0) && (
                m.map().dom().contains(p) ==> m.map()[p] == last_snapshot(previous@, p, i as int)),
        decreases previous@.len() - i,
    {
        m.insert(previous[i].relative_path.clone(), i);
        i = i + 1;
    }
    m
}

/// The set of the given strings.
pub fn set_of(values: &[String]) -> (r: StrSet)
    ensures
        r.set() == views(values@).to_set(),
{
    let mut r = StrSet::new();
    let mut i: usize = 0;
    while i < values.len()
        invariant
            i <= values@.len(),
            r.set() == views(values@.subrange(0, i as int)).to_set(),
        decreases values@.len() - i,
    {
        r.insert(values[i].clone());
        proof {
            assert(views(values@.subrange(0, i + 1)) =~= views(values@.subrange(0, i as int)).push(
                values@[i as int]@,
            ));
            views(values@.subrange(0, i as int)).lemma_push_to_set_commute(values@[i as int]@);
        }
        i = i + 1;
    }
    assert(values@.subrange(0, values@.len() as int) =~= values@);
    r
}

/// Which files must be read, in metadata order.
pub fn files_to_hash(
    previous: &[IndexedFileSnapshot],
    metadata: &[FileMeta],
    hints: &[String],
    verify_content: bool,
) -> (r: Vec<bool>)
    ensures
        r@.len() == metadata@.len(),
        forall|i: int|
            0 <= i < metadata@.len() ==> #[trigger] r@[i] == needs_hash(
                previous@,
                metadata@[i],
                verify_content,
                views(hints@).to_set(),
            ),
{
    let prior = prior_map(previous);
    let hint_set = set_of(hints);
    let mut r: Vec<bool> = Vec::new();
    let mut i: usize = 0;
    while i < metadata.len()
        invariant
            i <= metadata@.len(),
            r@.len() == i,
            hint_set.set() == views(hints@).to_set(),
            forall|p: Seq<char>|
                #![trigger prior.map().dom().contains(p)]
                (prior.map().dom().contains(p) <==> prior_index(previous@, p) >= 0) && (
                prior.map().dom().contains(p) ==> prior.map()[p] == prior_index(previous@, p)),
            forall|x: int|
                0 <= x < i ==> #[trigger] r@[x] == needs_hash(
                    previous@,
                    metadata@[x],
                    verify_content,
                    views(hints@).to_set(),
                ),
        decreases metadata@.len() - i,
    {
        let item = &metadata[i];
        let need = match prior.get(item.relative_path.as_str()) {
            Some(k) => {
                proof {
                    assert(prior.map().dom().contains(item.relative_path@));
                    lemma_last_snapshot(previous@, item.relative_path@, previous@.len() as int);
                }
                let old = &previous[*k];
                !(old.size_bytes == item.size_bytes && old.modified_unix_ns == item.modified_unix_ns
                    && !verify_content && !hint_set.contains(item.relative_path.as_str()))
            },
            None => true,
        };
        r.push(need);
        i = i + 1;
    }
    r
}

/// The number of the first `n` files that must be read.
pub open spec fn hashed_count(
    previous: Seq<IndexedFileSnapshot>,
    metadata: Seq<FileMeta>,
    verify_content: bool,
    hints: Set<Seq<char>>,
    n: int,
) -> nat
    decreases n,
{
    if n <= 0 {
        0
    } else if needs_hash(previous, metadata[n - 1], verify_content, hints) {
        hashed_count(previous, metadata, verify_content, hints, n - 1) + 1
    } else {
        hashed_count(previous, metadata, verify_content, hints, n - 1)
    }
}

/// The digest recorded for file `i`: the one read, or the previous one when
/// the file was not read.
pub open spec fn planned_digest(
    previous: Seq<IndexedFileSnapshot>,
    metadata: Seq<FileMeta>,
    verify_content: bool,
    hints: Set<Seq<char>>,
    digests: Seq<Option<String>>,
    i: int,
) -> Seq<char> {
    if needs_hash(previous, metadata[i], verify_content, hints) {
        digests[i]->0@
    } else {
        previous[prior_index(previous, metadata[i].relative_path@)].content_sha256@
    }
}

/// Whether file `i` keeps its content: it was not read, or it was read and
/// its digest is the previous one.
pub open spec fn keeps_content(
    previous: Seq<IndexedFileSnapshot>,
    metadata: Seq<FileMeta>,
    verify_content: bool,
    hints: Set<Seq<char>>,
    digests: Seq<Option<String>>,
    i: int,
) -> bool {
    let k = prior_index(previous, metadata[i].relative_path@);
    !needs_hash(previous, metadata[i], verify_content, hints) || (k >= 0
        && previous[k].content_sha256@ == digests[i]->0@)
}

/// The number of the first `n` files that keep their content.
pub open spec fn unchanged_count(
    previous: Seq<IndexedFileSnapshot>,
    metadata: Seq<FileMeta>,
    verify_content: bool,
    hints: Set<Seq<char>>,
    digests: Seq<Option<String>>,
    n: int,
) -> nat
    decreases n,
{
    if n <= 0 {
        0
    } else if keeps_content(previous, metadata, verify_content, hints, digests, n - 1) {
        unchanged_count(previous, metadata, verify_content, hints, digests, n - 1) + 1
    } else {
        unchanged_count(previous, metadata, verify_content, hints, digests, n - 1)
    }
}

/// The total size of the first `n` files, saturating at `u64::MAX`.
pub open spec fn byte_total(metadata: Seq<FileMeta>, n: int) -> u64
    decreases n,
{
    if n <= 0 {
        0
    } else {
        let t = byte_total(metadata, n - 1) + metadata[n - 1].size_bytes;
        if t > u64::MAX {
            u64::MAX
        } else {
            t as u64
        }
    }
}

/// The positions of the first `n` files that must be read.
pub open spec fn touched_positions(
    previous: Seq<IndexedFileSnapshot>,
    metadata: Seq<FileMeta>,
    verify_content: bool,
    hints: Set<Seq<char>>,
    n: int,
) -> Seq<int>
    decreases n,
{
    if n <= 0 {
        Seq::empty()
    } else if needs_hash(previous, metadata[n - 1], verify_content, hints) {
        touched_positions(previous, metadata, verify_content, hints, n - 1).push(n - 1)
    } else {
        touched_positions(previous, metadata, verify_content, hints, n - 1)
    }
}

/// The new files among the first `n`, as (path, digest).
pub open spec fn added_entries(
    previous: Seq<IndexedFileSnapshot>,
    metadata: Seq<FileMeta>,
    verify_content: bool,
    hints: Set<Seq<char>>,
    digests: Seq<Option<String>>,
    n: int,
) -> Seq<(Seq<char>, Seq<char>)>
    decreases n,
{
    if n <= 0 {
        Seq::empty()
    } else if needs_hash(previous, metadata[n - 1], verify_content, hints) && prior_index(
        previous,
        metadata[n - 1].relative_path@,
    ) < 0 {
        added_entries(previous, metadata, verify_content, hints, digests, n - 1).push(
            (metadata[n - 1].relative_path@, digests[n - 1]->0@),
        )
    } else {
        added_entries(previous, metadata, verify_content, hints, digests, n - 1)
    }
}

/// Whether a snapshot `s` describes file `m` with digest `d`.
pub open spec fn snapshot_of(s: IndexedFileSnapshot, m: FileMeta, d: Seq<char>) -> bool {
    s.relative_path@ == m.relative_path@ && s.size_bytes == m.size_bytes && s.modified_unix_ns
        == m.modified_unix_ns && s.content_sha256@ == d
}

/// What a reconciliation reads in: whether each file had to be read, and
/// the digest of each file that was.
pub open spec fn digests_given(
    previous: Seq<IndexedFileSnapshot>,
    metadata: Seq<FileMeta>,
    verify_content: bool,
    hints: Set<Seq<char>>,
    digests: Seq<Option<String>>,
) -> bool {
    &&& digests.len() == metadata.len()
    &&& forall|i: int|
        0 <= i < metadata.len() && needs_hash(previous, metadata[i], verify_content, hints) ==> (
        #[trigger] digests[i]) is Some
}

/// The first part of a reconciliation: the files, the touched files, the
/// counts and the new files, in metadata order.
struct FilePass {
    files: Vec<IndexedFileSnapshot>,
    touched: Vec<IndexedFileSnapshot>,
    hashed: usize,
    unchanged: usize,
    total_bytes: u64,
    added: Vec<(String, String)>,
}

fn file_pass(
    previous: &[IndexedFileSnapshot],
    metadata: &[FileMeta],
    hints: &[String],
    verify_content: bool,
    digests: &[Option<String>],
) -> (r: FilePass)
    requires
        digests_given(previous@, metadata@, verify_content, views(hints@).to_set(), digests@),
    ensures
        ({
            let p = previous@;
            let m = metadata@;
            let h = views(hints@).to_set();
            let g = digests@;
            &&& r.files@.len() == m.len()
            &&& forall|i: int|
                0 <= i < m.len() ==> snapshot_of(
                    #[trigger] r.files@[i],
                    m[i],
                    planned_digest(p, m, verify_content, h, g, i),
                )
            &&& r.touched@.len() == touched_positions(p, m, verify_content, h, m.len() as int).len()
            &&& forall|t: int|
                0 <= t < r.touched@.len() ==> snapshot_of(
                    #[trigger] r.touched@[t],
                    m[touched_positions(p, m, verify_content, h, m.len() as int)[t]],
                    planned_digest(
                        p,
                        m,
                        verify_content,
                        h,
                        g,
                        touched_positions(p, m, verify_content, h, m.len() as int)[t],
                    ),
                )
            &&& r.hashed == hashed_count(p, m, verify_content, h, m.len() as int)
            &&& r.unchanged == unchanged_count(p, m, verify_content, h, g, m.len() as int)
            &&& r.total_bytes == byte_total(m, m.len() as int)
            &&& pair_views(r.added@) == added_entries(p, m, verify_content, h, g, m.len() as int)
        }),
{
    let ghost p = previous@;
    let ghost m = metadata@;
    let ghost h = views(hints@).to_set();
    let ghost g = digests@;
    let prior = prior_map(previous);
    let hint_set = set_of(hints);
    let mut files: Vec<IndexedFileSnapshot> = Vec::new();
    let mut touched: Vec<IndexedFileSnapshot> = Vec::new();
    let mut added: Vec<(String, String)> = Vec::new();
    let mut hashed: usize = 0;
    let mut unchanged: usize = 0;
    let mut total: u64 = 0;
    let mut i: usize = 0;
    while i < metadata.len()
        invariant
            p == previous@,
            m == metadata@,
            g == digests@,
            h == views(hints@).to_set(),
            digests_given(p, m, verify_content, h, g),
            i <= m.len(),
            hint_set.set() == h,
            forall|q: Seq<char>|
                #![trigger prior.map().dom().contains(q)]
                (prior.map().dom().contains(q) <==> prior_index(p, q) >= 0) && (
                prior.map().dom().contains(q) ==> prior.map()[q] == prior_index(p, q)),
            files@.len() == i,
            forall|x: int|
                0 <= x < i ==> snapshot_of(
                    #[trigger] files@[x],
                    m[x],
                    planned_digest(p, m, verify_content, h, g, x),
                ),
            touched@.len() == touched_positions(p, m, verify_content, h, i as int).len(),
            forall|t: int|
                0 <= t < touched@.len() ==> snapshot_of(
                    #[trigger] touched@[t],
                    m[touched_positions(p, m, verify_content, h, i as int)[t]],
                    planned_digest(
                        p,
                        m,
                        verify_content,
                        h,
                        g,
                        touched_positions(p, m, verify_content, h, i as int)[t],
                    ),
                ),
            hashed == hashed_count(p, m, verify_content, h, i as int),
            unchanged == unchanged_count(p, m, verify_content, h, g, i as int),
            hashed <= i,
            unchanged <= i,
            total == byte_total(m, i as int),
            pair_views(added@) == added_entries(p, m, verify_content, h, g, i as int),
        decreases m.len() - i,
    {
        let item = &metadata[i];
        let ghost x = i as int;
        proof {
            lemma_last_snapshot(p, item.relative_path@, p.len() as int);
        }
        total = total.saturating_add(item.size_bytes);
        let known = prior.get(item.relative_path.as_str());
        let need = match known {
            Some(k) => {
                let old = &previous[*k];
                !(old.size_bytes == item.size_bytes && old.modified_unix_ns == item.modified_unix_ns
                    && !verify_content && !hint_set.contains(item.relative_path.as_str()))
            },
            None => true,
        };
        assert(need == needs_hash(p, m[x], verify_content, h));
        let ghost before_touched = touched_positions(p, m, verify_content, h, x);
        if !need {
            let k = match known {
                Some(k) => *k,
                None => 0,
            };
            files.push(
                IndexedFileSnapshot {
                    relative_path: item.relative_path.clone(),
                    size_bytes: item.size_bytes,
                    modified_unix_ns: item.modified_unix_ns,
                    content_sha256: previous[k].content_sha256.clone(),
                },
            );
            unchanged = unchanged + 1;
        } else {
            let digest = match &digests[i] {
                Some(d) => d.clone(),
                None => String::new(),
            };
            assert(digests@[x] is Some);
            hashed = hashed + 1;
            let snapshot = IndexedFileSnapshot {
                relative_path: item.relative_path.clone(),
                size_bytes: item.size_bytes,
                modified_unix_ns: item.modified_unix_ns,
                content_sha256: digest.clone(),
            };
            touched.push(snapshot.clone());
            files.push(snapshot);
            match known {
                Some(k) => {
                    if str_eq(previous[*k].content_sha256.as_str(), digest.as_str()) {
                        unchanged = unchanged + 1;
                    }
                },
                None => {
                    added.push((item.relative_path.clone(), digest));
                },
            }
            proof {
                assert(touched_positions(p, m, verify_content, h, x + 1) == before_touched.push(x));
            }
        }
        proof {
            assert(pair_views(added@) =~= added_entries(p, m, verify_content, h, g, x + 1));
        }
        i = i + 1;
    }
    FilePass { files, touched, hashed, unchanged, total_bytes: total, added }
}

/// The paths that were indexed and are no longer present.
pub open spec fn gone_paths(previous: Seq<IndexedFileSnapshot>, metadata: Seq<FileMeta>) -> Set<Seq<char>> {
    Set::new(|q: Seq<char>| prior_index(previous, q) >= 0 && !meta_paths(metadata).contains(q))
}

/// The deleted files, in path order, each with its previous digest.
pub open spec fn deleted_entries(previous: Seq<IndexedFileSnapshot>, metadata: Seq<FileMeta>) -> Seq<
    (Seq<char>, Seq<char>),
> {
    let l = sorted_list(gone_paths(previous, metadata));
    Seq::new(
        l.len(),
        |j: int| (l[j], previous[prior_index(previous, l[j])].content_sha256@),
    )
}

fn deleted_pass(
    previous: &[IndexedFileSnapshot],
    metadata: &[FileMeta],
    prior: &StrMap<usize>,
    current: &StrSet,
) -> (r: Vec<(String, String)>)
    requires
        forall|q: Seq<char>|
            #![trigger prior.map().dom().contains(q)]
            (prior.map().dom().contains(q) <==> prior_index(previous@, q) >= 0) && (
            prior.map().dom().contains(q) ==> prior.map()[q] == prior_index(previous@, q)),
        current.set() == meta_paths(metadata@).to_set(),
    ensures
        pair_views(r@) == deleted_entries(previous@, metadata@),
        strictly_sorted(sorted_list(gone_paths(previous@, metadata@))),
        sorted_list(gone_paths(previous@, metadata@)).to_set() == gone_paths(previous@, metadata@),
{
    let keys = prior.keys();
    let mut out: Vec<(String, String)> = Vec::new();
    let ghost mut paths: Seq<Seq<char>> = Seq::empty();
    let mut i: usize = 0;
    while i < keys.len()
        invariant
            i <= keys@.len(),
            strictly_sorted(views(keys@)),
            views(keys@).to_set() == prior.map().dom(),
            forall|q: Seq<char>|
                #![trigger prior.map().dom().contains(q)]
                (prior.map().dom().contains(q) <==> prior_index(previous@, q) >= 0) && (
                prior.map().dom().contains(q) ==> prior.map()[q] == prior_index(previous@, q)),
            current.set() == meta_paths(metadata@).to_set(),
            out@.len() == paths.len(),
            forall|j: int|
                0 <= j < out@.len() ==> (#[trigger] out@[j]).0@ == paths[j] && out@[j].1@
                    == previous@[prior_index(previous@, paths[j])].content_sha256@,
            strictly_sorted(paths),
            forall|j: int| 0 <= j < paths.len() ==> exists|t: int| 0 <= t < i && views(keys@)[t] == #[trigger] paths[j],
            forall|q: Seq<char>|
                paths.contains(q) <==> (exists|t: int| 0 <= t < i && views(keys@)[t] == q)
                    && gone_paths(previous@, metadata@).contains(q),
        decreases keys@.len() - i,
    {
        let key = &keys[i];
        let ghost kv = key@;
        let ghost old_paths = paths;
        assert(views(keys@)[i as int] == kv);
        assert(prior.map().dom().contains(kv)) by {
            assert(views(keys@).contains(kv));
        }
        proof {
            assert(meta_paths(metadata@).to_set().contains(kv) == meta_paths(metadata@).contains(kv));
        }
        let gone = !current.contains(key.as_str());
        assert(gone == gone_paths(previous@, metadata@).contains(kv));
        if gone {
            let k = match prior.get(key.as_str()) {
                Some(k) => *k,
                None => 0,
            };
            proof {
                lemma_last_snapshot(previous@, kv, previous@.len() as int);
            }
            out.push((key.clone(), previous[k].content_sha256.clone()));
            proof {
                assert forall|j: int| 0 <= j < old_paths.len() implies seq_lt(old_paths[j], kv) by {
                    let t = choose|t: int| 0 <= t < i && views(keys@)[t] == old_paths[j];
                    assert(seq_lt(views(keys@)[t], views(keys@)[i as int]));
                }
                paths = paths.push(kv);
                assert forall|a: int, b: int| 0 <= a < b < paths.len() implies seq_lt(#[trigger] paths[a], #[trigger] paths[b]) by {
                    if b < old_paths.len() {
                        assert(old_paths[a] == paths[a] && old_paths[b] == paths[b]);
                    } else {
                        assert(paths[a] == old_paths[a]);
                    }
                }
            }
        }
        proof {
            assert forall|q: Seq<char>|
                paths.contains(q) <==> (exists|t: int| 0 <= t < i + 1 && views(keys@)[t] == q)
                    && gone_paths(previous@, metadata@).contains(q) by {
                if paths.contains(q) {
                    let j = choose|j: int| 0 <= j < paths.len() && paths[j] == q;
                    if j < old_paths.len() {
                        assert(old_paths[j] == q);
                        assert(old_paths.contains(q));
                    } else {
                        assert(q == kv);
                    }
                }
                if (exists|t: int| 0 <= t < i + 1 && views(keys@)[t] == q) && gone_paths(previous@, metadata@).contains(q) {
                    let t = choose|t: int| 0 <= t < i + 1 && views(keys@)[t] == q;
                    if t < i {
                        assert(old_paths.contains(q));
                        let j = choose|j: int| 0 <= j < old_paths.len() && old_paths[j] == q;
                        assert(paths[j] == q);
                    } else {
                        assert(q == kv);
                        assert(paths[paths.len() - 1] == kv);
                    }
                }
            }
            assert forall|j: int| 0 <= j < paths.len() implies exists|t: int| 0 <= t < i + 1 && views(keys@)[t] == #[trigger] paths[j] by {
                if j < old_paths.len() {
                    assert(old_paths[j] == paths[j]);
                    let t = choose|t: int| 0 <= t < i && views(keys@)[t] == old_paths[j];
                } else {
                    assert(views(keys@)[i as int] == paths[j]);
                }
            }
        }
        i = i + 1;
    }
    proof {
        assert forall|q: Seq<char>| paths.to_set().contains(q) == gone_paths(previous@, metadata@).contains(q) by {
            if gone_paths(previous@, metadata@).contains(q) {
                assert(prior.map().dom().contains(q));
                assert(views(keys@).to_set().contains(q));
                assert(views(keys@).contains(q));
            }
        }
        assert(paths.to_set() =~= gone_paths(previous@, metadata@));
        let l = sorted_list(gone_paths(previous@, metadata@));
        lemma_sorted_unique(l, paths);
        assert(pair_views(out@) =~= deleted_entries(previous@, metadata@));
    }
    out
}

/// The optional view of an optional string.
pub open spec fn opt_view(o: Option<String>) -> Option<Seq<char>> {
    match o {
        Some(s) => Some(s@),
        None => None,
    }
}

/// A change as plain values: kind, path, previous path, digest before and
/// digest after.
pub open spec fn change_view(c: IndexChange) -> (
    Seq<char>,
    Seq<char>,
    Option<Seq<char>>,
    Option<Seq<char>>,
    Option<Seq<char>>,
) {
    (c.change_kind@, c.relative_path@, opt_view(c.previous_path), opt_view(c.before_sha256), opt_view(
        c.after_sha256,
    ))
}

/// The paths of changes, in order.
pub open spec fn change_paths_of(cs: Seq<IndexChange>) -> Seq<Seq<char>> {
    Seq::new(cs.len(), |i: int| cs[i].relative_path@)
}

/// For each deleted file, the new file it was renamed to (-1 for none).
pub open spec fn reconcile_picks(
    previous: Seq<IndexedFileSnapshot>,
    metadata: Seq<FileMeta>,
    verify_content: bool,
    hints: Set<Seq<char>>,
    digests: Seq<Option<String>>,
) -> Seq<int> {
    let a = added_entries(previous, metadata, verify_content, hints, digests, metadata.len() as int);
    let d = deleted_entries(previous, metadata);
    rename_picks(a, d, d.len() as int)
}

/// The change that a reconciliation records at path `q`, if any: a file
/// read whose digest differs is `modified`; a new file is `renamed` from the
/// deleted file that took it, else `added`; a deleted file that no new file
/// took is `deleted`.
#[verifier::opaque]
pub open spec fn change_at(
    previous: Seq<IndexedFileSnapshot>,
    metadata: Seq<FileMeta>,
    verify_content: bool,
    hints: Set<Seq<char>>,
    digests: Seq<Option<String>>,
    q: Seq<char>,
) -> Option<(Seq<char>, Seq<char>, Option<Seq<char>>, Option<Seq<char>>, Option<Seq<char>>)> {
    let d = deleted_entries(previous, metadata);
    let picks = reconcile_picks(previous, metadata, verify_content, hints, digests);
    if meta_paths(metadata).contains(q) {
        let i = meta_paths(metadata).index_of(q);
        let k = prior_index(previous, q);
        if !needs_hash(previous, metadata[i], verify_content, hints) {
            None
        } else if k >= 0 {
            if previous[k].content_sha256@ != digests[i]->0@ {
                Some(
                    (
                        "modified"@,
                        q,
                        None,
                        Some(previous[k].content_sha256@),
                        Some(digests[i]->0@),
                    ),
                )
            } else {
                None
            }
        } else {
            let slot = added_entries(previous, metadata, verify_content, hints, digests, i).len() as int;
            if picks.contains(slot) {
                let j = picks.index_of(slot);
                Some(("renamed"@, q, Some(d[j].0), Some(d[j].1), Some(d[j].1)))
            } else {
                Some(("added"@, q, None, None, Some(digests[i]->0@)))
            }
        }
    } else if gone_paths(previous, metadata).contains(q) {
        let j = sorted_list(gone_paths(previous, metadata)).index_of(q);
        if picks[j] >= 0 {
            None
        } else {
            Some(("deleted"@, q, None, Some(d[j].1), None))
        }
    } else {
        None
    }
}

/// A rename pick names each new file at most once.
pub proof fn lemma_picks_distinct(
    added: Seq<(Seq<char>, Seq<char>)>,
    deleted: Seq<(Seq<char>, Seq<char>)>,
    n: int,
)
    requires
        0 <= n <= deleted.len(),
    ensures
        rename_picks(added, deleted, n).len() == n,
        forall|i: int, j: int|
            0 <= i < j < n && rename_picks(added, deleted, n)[i] >= 0 ==> rename_picks(
                added,
                deleted,
                n,
            )[i] != rename_picks(added, deleted, n)[j],
        forall|i: int| 0 <= i < n ==> rename_picks(added, deleted, n)[i] < added.len(),
    decreases n,
{
    if n > 0 {
        lemma_picks_distinct(added, deleted, n - 1);
        let prior = rename_picks(added, deleted, n - 1);
        lemma_first_free(added, prior, deleted[n - 1].1, added.len() as int);
        let np = rename_picks(added, deleted, n);
        assert forall|i: int, j: int| 0 <= i < j < n && np[i] >= 0 implies np[i] != np[j] by {
            if j == n - 1 {
                assert(np[i] == prior[i]);
                if np[j] >= 0 {
                    assert(!prior.contains(np[j]));
                }
            } else {
                assert(np[i] == prior[i] && np[j] == prior[j]);
            }
        }
    }
}

fn clone_change(c: &IndexChange) -> (r: IndexChange)
    ensures
        change_view(r) == change_view(*c),
{
    IndexChange {
        change_kind: c.change_kind.clone(),
        relative_path: c.relative_path.clone(),
        previous_path: match &c.previous_path {
            Some(p) => Some(p.clone()),
            None => None,
        },
        before_sha256: match &c.before_sha256 {
            Some(p) => Some(p.clone()),
            None => None,
        },
        after_sha256: match &c.after_sha256 {
            Some(p) => Some(p.clone()),
            None => None,
        },
    }
}

/// Appending a greater element keeps a sequence strictly sorted.
pub proof fn lemma_push_sorted(s: Seq<Seq<char>>, x: Seq<char>)
    requires
        strictly_sorted(s),
        s.len() > 0 ==> seq_lt(s.last(), x),
    ensures
        strictly_sorted(s.push(x)),
{
    assert forall|i: int, j: int| 0 <= i < j < s.push(x).len() implies seq_lt(
        #[trigger] s.push(x)[i],
        #[trigger] s.push(x)[j],
    ) by {
        if j < s.len() {
        } else if i < s.len() - 1 {
            crate::text::lemma_seq_lt_transitive(s[i], s.last(), x);
        }
    }
}

/// Merges two lists of changes, each in strictly increasing path order and
/// with no path in common, into one in strictly increasing path order.
fn merge_by_path(a: &Vec<IndexChange>, b: &Vec<IndexChange>) -> (r: Vec<IndexChange>)
    requires
        strictly_sorted(change_paths_of(a@)),
        strictly_sorted(change_paths_of(b@)),
        forall|i: int, j: int|
            0 <= i < a@.len() && 0 <= j < b@.len() ==> (#[trigger] a@[i]).relative_path@ != (
            #[trigger] b@[j]).relative_path@,
    ensures
        strictly_sorted(change_paths_of(r@)),
        forall|t: int|
            0 <= t < r@.len() ==> (exists|i: int|
                0 <= i < a@.len() && change_view(#[trigger] r@[t]) == change_view(a@[i])) || (exists|
                j: int,
            |
                0 <= j < b@.len() && change_view(r@[t]) == change_view(b@[j])),
        forall|i: int|
            #![trigger a@[i]]
            0 <= i < a@.len() ==> exists|t: int|
                0 <= t < r@.len() && change_view(#[trigger] r@[t]) == change_view(a@[i]),
        forall|j: int|
            #![trigger b@[j]]
            0 <= j < b@.len() ==> exists|t: int|
                0 <= t < r@.len() && change_view(#[trigger] r@[t]) == change_view(b@[j]),
{
    let mut r: Vec<IndexChange> = Vec::new();
    let ghost mut from_a: Seq<bool> = Seq::empty();
    let ghost mut origin: Seq<int> = Seq::empty();
    let ghost mut pos_a: Seq<int> = Seq::empty();
    let ghost mut pos_b: Seq<int> = Seq::empty();
    let mut i: usize = 0;
    let mut j: usize = 0;
    while i < a.len() || j < b.len()
        invariant
            i <= a@.len(),
            j <= b@.len(),
            strictly_sorted(change_paths_of(a@)),
            strictly_sorted(change_paths_of(b@)),
            forall|x: int, y: int|
                0 <= x < a@.len() && 0 <= y < b@.len() ==> (#[trigger] a@[x]).relative_path@ != (
                #[trigger] b@[y]).relative_path@,
            strictly_sorted(change_paths_of(r@)),
            from_a.len() == r@.len(),
            origin.len() == r@.len(),
            forall|t: int|
                0 <= t < r@.len() ==> (#[trigger] from_a[t] ==> 0 <= origin[t] < i && change_view(
                    r@[t],
                ) == change_view(a@[origin[t]])) && (!from_a[t] ==> 0 <= origin[t] < j
                    && change_view(r@[t]) == change_view(b@[origin[t]])),
            pos_a.len() == i,
            pos_b.len() == j,
            forall|x: int|
                0 <= x < i ==> 0 <= #[trigger] pos_a[x] < r@.len() && change_view(r@[pos_a[x]])
                    == change_view(a@[x]),
            forall|y: int|
                0 <= y < j ==> 0 <= #[trigger] pos_b[y] < r@.len() && change_view(r@[pos_b[y]])
                    == change_view(b@[y]),
            r@.len() > 0 && i < a@.len() ==> seq_lt(
                r@.last().relative_path@,
                a@[i as int].relative_path@,
            ),
            r@.len() > 0 && j < b@.len() ==> seq_lt(
                r@.last().relative_path@,
                b@[j as int].relative_path@,
            ),
        decreases a@.len() + b@.len() - i - j,
    {
        let take_a = if i < a.len() && j < b.len() {
            crate::text::str_lt(a[i].relative_path.as_str(), b[j].relative_path.as_str())
        } else {
            i < a.len()
        };
        let ghost old_r = r@;
        let ghost ii = i as int;
        let ghost jj = j as int;
        if take_a {
            let c = clone_change(&a[i]);
            r.push(c);
            proof {
                from_a = from_a.push(true);
                origin = origin.push(ii);
                pos_a = pos_a.push(old_r.len() as int);
            }
            i = i + 1;
        } else {
            let c = clone_change(&b[j]);
            r.push(c);
            proof {
                from_a = from_a.push(false);
                origin = origin.push(jj);
                pos_b = pos_b.push(old_r.len() as int);
            }
            j = j + 1;
        }
        proof {
            let x = r@.last().relative_path@;
            assert(change_paths_of(old_r).push(x) =~= change_paths_of(r@));
            if old_r.len() > 0 {
                assert(change_paths_of(old_r).last() == old_r.last().relative_path@);
            }
            lemma_push_sorted(change_paths_of(old_r), x);
            if take_a {
                if jj < b@.len() {
                    assert(a@[ii].relative_path@ != b@[jj].relative_path@);
                    crate::text::lemma_seq_lt_trichotomy(a@[ii].relative_path@, b@[jj].relative_path@);
                }
                if i < a@.len() {
                    assert(seq_lt(change_paths_of(a@)[ii], change_paths_of(a@)[ii + 1]));
                }
            } else {
                if ii < a@.len() {
                    assert(a@[ii].relative_path@ != b@[jj].relative_path@);
                    crate::text::lemma_seq_lt_trichotomy(a@[ii].relative_path@, b@[jj].relative_path@);
                }
                if j < b@.len() {
                    assert(seq_lt(change_paths_of(b@)[jj], change_paths_of(b@)[jj + 1]));
                }
            }
            assert forall|t: int|
                0 <= t < r@.len() implies (#[trigger] from_a[t] ==> 0 <= origin[t] < i
                    && change_view(r@[t]) == change_view(a@[origin[t]])) && (!from_a[t] ==> 0
                    <= origin[t] < j && change_view(r@[t]) == change_view(b@[origin[t]])) by {
                if t < old_r.len() {
                    assert(r@[t] == old_r[t]);
                }
            }
            assert forall|x: int| 0 <= x < i implies 0 <= #[trigger] pos_a[x] < r@.len()
                && change_view(r@[pos_a[x]]) == change_view(a@[x]) by {
                if x < ii {
                    assert(r@[pos_a[x]] == old_r[pos_a[x]]);
                }
            }
            assert forall|y: int| 0 <= y < j implies 0 <= #[trigger] pos_b[y] < r@.len()
                && change_view(r@[pos_b[y]]) == change_view(b@[y]) by {
                if y < jj {
                    assert(r@[pos_b[y]] == old_r[pos_b[y]]);
                }
            }
        }
    }
    proof {
        assert forall|t: int| 0 <= t < r@.len() implies (exists|x: int|
            0 <= x < a@.len() && change_view(#[trigger] r@[t]) == change_view(a@[x])) || (exists|
            y: int,
        |
            0 <= y < b@.len() && change_view(r@[t]) == change_view(b@[y])) by {
            if from_a[t] {
                let x = origin[t];
                assert(change_view(r@[t]) == change_view(a@[x]));
            } else {
                let y = origin[t];
                assert(change_view(r@[t]) == change_view(b@[y]));
            }
        }
        assert forall|x: int| #![trigger a@[x]] 0 <= x < a@.len() implies exists|t: int|
            0 <= t < r@.len() && change_view(#[trigger] r@[t]) == change_view(a@[x]) by {
            let t = pos_a[x];
            assert(change_view(r@[t]) == change_view(a@[x]));
        }
        assert forall|y: int| #![trigger b@[y]] 0 <= y < b@.len() implies exists|t: int|
            0 <= t < r@.len() && change_view(#[trigger] r@[t]) == change_view(b@[y]) by {
            let t = pos_b[y];
            assert(change_view(r@[t]) == change_view(b@[y]));
        }
    }
    r
}

/// In a strictly sorted sequence an element's index is its position.
pub proof fn lemma_sorted_index_of(s: Seq<Seq<char>>, x: int)
    requires
        strictly_sorted(s),
        0 <= x < s.len(),
    ensures
        s.contains(s[x]),
        s.index_of(s[x]) == x,
{
    crate::text::lemma_strictly_sorted_no_dup(s);
    assert(s.contains(s[x]));
    let i = s.index_of(s[x]);
    assert(0 <= i < s.len() && s[i] == s[x]);
}

/// The rename pick of a new file, inverted: for each new file, the deleted
/// file that took it.
pub(crate) fn invert_picks(picks: &Vec<Option<usize>>, n_added: usize) -> (r: Vec<Option<usize>>)
    requires
        forall|j: int| 0 <= j < picks@.len() ==> pick_value(#[trigger] picks@[j]) < n_added,
        forall|i: int, j: int|
            0 <= i < j < picks@.len() && (#[trigger] picks@[i]) is Some ==> picks@[i] != #[trigger] picks@[j],
    ensures
        r@.len() == n_added,
        forall|a: int|
            0 <= a < n_added ==> (#[trigger] r@[a] matches Some(j) ==> j < picks@.len() && picks@[j as int]
                == Some(a as usize)),
        forall|a: int|
            0 <= a < n_added ==> (r@[a] is None ==> forall|j: int|
                0 <= j < picks@.len() ==> #[trigger] picks@[j] != Some(a as usize)),
{
    let mut r: Vec<Option<usize>> = Vec::new();
    let mut k: usize = 0;
    while k < n_added
        invariant
            k <= n_added,
            r@.len() == k,
            forall|a: int| 0 <= a < k ==> r@[a] is None,
        decreases n_added - k,
    {
        r.push(None);
        k = k + 1;
    }
    let mut j: usize = 0;
    while j < picks.len()
        invariant
            j <= picks@.len(),
            r@.len() == n_added,
            forall|x: int| 0 <= x < picks@.len() ==> pick_value(#[trigger] picks@[x]) < n_added,
            forall|x: int, y: int|
                0 <= x < y < picks@.len() && (#[trigger] picks@[x]) is Some ==> picks@[x] != #[trigger] picks@[y],
            forall|a: int|
                0 <= a < n_added ==> (#[trigger] r@[a] matches Some(t) ==> t < j && picks@[t as int]
                    == Some(a as usize)),
            forall|a: int|
                0 <= a < n_added ==> (r@[a] is None ==> forall|t: int|
                    0 <= t < j ==> #[trigger] picks@[t] != Some(a as usize)),
        decreases picks@.len() - j,
    {
        if let Some(a) = picks[j] {
            assert(pick_value(picks@[j as int]) < n_added);
            r.set(a, Some(j));
            proof {
                assert forall|b: int| 0 <= b < n_added implies (r@[b] is None ==> forall|t: int|
                    0 <= t < j + 1 ==> #[trigger] picks@[t] != Some(b as usize)) by {
                    if r@[b] is None {
                        assert(b != a);
                    }
                }
                assert forall|b: int| 0 <= b < n_added implies (#[trigger] r@[b] matches Some(t) ==> t < j + 1
                    && picks@[t as int] == Some(b as usize)) by {
                }
            }
        } else {
            proof {
                assert forall|b: int| 0 <= b < n_added implies (r@[b] is None ==> forall|t: int|
                    0 <= t < j + 1 ==> #[trigger] picks@[t] != Some(b as usize)) by {
                }
            }
        }
        j = j + 1;
    }
    r
}

proof fn lemma_added_entries_mono(
    previous: Seq<IndexedFileSnapshot>,
    metadata: Seq<FileMeta>,
    verify_content: bool,
    hints: Set<Seq<char>>,
    digests: Seq<Option<String>>,
    n: int,
    m: int,
)
    requires
        0 <= n <= m,
    ensures
        added_entries(previous, metadata, verify_content, hints, digests, n).len() <= added_entries(
            previous,
            metadata,
            verify_content,
            hints,
            digests,
            m,
        ).len(),
    decreases m - n,
{
    if m > n {
        lemma_added_entries_mono(previous, metadata, verify_content, hints, digests, n, m - 1);
    }
}

/// What the reconciliation inputs must satisfy for the change rules below.
pub open spec fn change_inputs(
    previous: Seq<IndexedFileSnapshot>,
    metadata: Seq<FileMeta>,
    verify_content: bool,
    hints: Set<Seq<char>>,
    digests: Seq<Option<String>>,
    deleted: Seq<(Seq<char>, Seq<char>)>,
    taken_by: Seq<Option<usize>>,
) -> bool {
    let picks = reconcile_picks(previous, metadata, verify_content, hints, digests);
    &&& digests_given(previous, metadata, verify_content, hints, digests)
    &&& strictly_sorted(meta_paths(metadata))
    &&& deleted == deleted_entries(previous, metadata)
    &&& taken_by.len() == added_entries(
        previous,
        metadata,
        verify_content,
        hints,
        digests,
        metadata.len() as int,
    ).len()
    &&& picks.len() == deleted.len()
    &&& forall|a: int|
        0 <= a < taken_by.len() ==> (#[trigger] taken_by[a] matches Some(j) ==> j < deleted.len()
            && picks[j as int] == a)
    &&& forall|a: int| 0 <= a < taken_by.len() ==> (taken_by[a] is None ==> !picks.contains(a))
    &&& forall|i: int, j: int| 0 <= i < j < picks.len() && picks[i] >= 0 ==> picks[i] != picks[j]
}

/// The change at the path of file `x`, and whether file `x` is new.
fn item_change(
    previous: &[IndexedFileSnapshot],
    metadata: &[FileMeta],
    hints: &[String],
    verify_content: bool,
    digests: &[Option<String>],
    prior: &StrMap<usize>,
    hint_set: &StrSet,
    deleted: &Vec<(String, String)>,
    taken_by: &Vec<Option<usize>>,
    x: usize,
    slot: usize,
) -> (r: (Option<IndexChange>, bool))
    requires
        change_inputs(
            previous@,
            metadata@,
            verify_content,
            views(hints@).to_set(),
            digests@,
            pair_views(deleted@),
            taken_by@,
        ),
        forall|q: Seq<char>|
            #![trigger prior.map().dom().contains(q)]
            (prior.map().dom().contains(q) <==> prior_index(previous@, q) >= 0) && (
            prior.map().dom().contains(q) ==> prior.map()[q] == prior_index(previous@, q)),
        hint_set.set() == views(hints@).to_set(),
        x < metadata@.len(),
        slot == added_entries(
            previous@,
            metadata@,
            verify_content,
            views(hints@).to_set(),
            digests@,
            x as int,
        ).len(),
    ensures
        r.0 is Some <==> change_at(
            previous@,
            metadata@,
            verify_content,
            views(hints@).to_set(),
            digests@,
            metadata@[x as int].relative_path@,
        ) is Some,
        r.0 matches Some(c) ==> c.relative_path@ == metadata@[x as int].relative_path@ && change_at(
            previous@,
            metadata@,
            verify_content,
            views(hints@).to_set(),
            digests@,
            metadata@[x as int].relative_path@,
        ) == Some(change_view(c)),
        r.1 == (needs_hash(previous@, metadata@[x as int], verify_content, views(hints@).to_set())
            && prior_index(previous@, metadata@[x as int].relative_path@) < 0),
{
    let ghost p = previous@;
    let ghost m = metadata@;
    let ghost h = views(hints@).to_set();
    let ghost g = digests@;
    let ghost picks = reconcile_picks(p, m, verify_content, h, g);
    let ghost d = deleted_entries(p, m);
    let item = &metadata[x];
    let ghost xi = x as int;
    let ghost q = item.relative_path@;
    proof {
        reveal(change_at);
        lemma_last_snapshot(p, q, p.len() as int);
        lemma_sorted_index_of(meta_paths(m), xi);
        assert(meta_paths(m)[xi] == q);
        lemma_added_entries_mono(p, m, verify_content, h, g, xi + 1, m.len() as int);
        reveal_strlit("modified");
        reveal_strlit("renamed");
        reveal_strlit("added");
    }
    let known = prior.get(item.relative_path.as_str());
    let need = match known {
        Some(k) => {
            let old = &previous[*k];
            !(old.size_bytes == item.size_bytes && old.modified_unix_ns == item.modified_unix_ns
                && !verify_content && !hint_set.contains(item.relative_path.as_str()))
        },
        None => true,
    };
    assert(need == needs_hash(p, m[xi], verify_content, h));
    if !need {
        return (None, false);
    }
    let digest = match &digests[x] {
        Some(dg) => dg.clone(),
        None => String::new(),
    };
    assert(g[xi] is Some);
    match known {
        Some(k) => {
            if !str_eq(previous[*k].content_sha256.as_str(), digest.as_str()) {
                let c = IndexChange {
                    change_kind: String::from_str("modified"),
                    relative_path: item.relative_path.clone(),
                    previous_path: None,
                    before_sha256: Some(previous[*k].content_sha256.clone()),
                    after_sha256: Some(digest),
                };
                (Some(c), false)
            } else {
                (None, false)
            }
        },
        None => {
            assert(added_entries(p, m, verify_content, h, g, xi + 1).len() == slot + 1);
            match taken_by[slot] {
                Some(j) => {
                    proof {
                        assert(picks[j as int] == slot);
                        assert(picks.contains(slot as int));
                        let jj = picks.index_of(slot as int);
                        assert(0 <= jj < picks.len() && picks[jj] == slot);
                        if jj < j {
                            assert(picks[jj] != picks[j as int]);
                        } else if jj > j {
                            assert(picks[j as int] != picks[jj]);
                        }
                        assert(jj == j);
                        assert(pair_views(deleted@)[j as int] == d[j as int]);
                    }
                    let c = IndexChange {
                        change_kind: String::from_str("renamed"),
                        relative_path: item.relative_path.clone(),
                        previous_path: Some(deleted[j].0.clone()),
                        before_sha256: Some(deleted[j].1.clone()),
                        after_sha256: Some(deleted[j].1.clone()),
                    };
                    (Some(c), true)
                },
                None => {
                    let c = IndexChange {
                        change_kind: String::from_str("added"),
                        relative_path: item.relative_path.clone(),
                        previous_path: None,
                        before_sha256: None,
                        after_sha256: Some(digest),
                    };
                    (Some(c), true)
                },
            }
        },
    }
}

/// The changes at the paths of the files now present, in path order.
fn current_changes(
    previous: &[IndexedFileSnapshot],
    metadata: &[FileMeta],
    hints: &[String],
    verify_content: bool,
    digests: &[Option<String>],
    prior: &StrMap<usize>,
    hint_set: &StrSet,
    deleted: &Vec<(String, String)>,
    taken_by: &Vec<Option<usize>>,
) -> (r: Vec<IndexChange>)
    requires
        change_inputs(
            previous@,
            metadata@,
            verify_content,
            views(hints@).to_set(),
            digests@,
            pair_views(deleted@),
            taken_by@,
        ),
        forall|q: Seq<char>|
            #![trigger prior.map().dom().contains(q)]
            (prior.map().dom().contains(q) <==> prior_index(previous@, q) >= 0) && (
            prior.map().dom().contains(q) ==> prior.map()[q] == prior_index(previous@, q)),
        hint_set.set() == views(hints@).to_set(),
    ensures
        strictly_sorted(change_paths_of(r@)),
        forall|t: int|
            0 <= t < r@.len() ==> meta_paths(metadata@).contains((#[trigger] r@[t]).relative_path@)
                && change_at(
                previous@,
                metadata@,
                verify_content,
                views(hints@).to_set(),
                digests@,
                r@[t].relative_path@,
            ) == Some(change_view(r@[t])),
        forall|x: int|
            #![trigger metadata@[x]]
            0 <= x < metadata@.len() && change_at(
                previous@,
                metadata@,
                verify_content,
                views(hints@).to_set(),
                digests@,
                metadata@[x].relative_path@,
            ) is Some ==> exists|t: int|
                0 <= t < r@.len() && (#[trigger] r@[t]).relative_path@ == metadata@[x].relative_path@,
{
    let ghost p = previous@;
    let ghost m = metadata@;
    let ghost h = views(hints@).to_set();
    let ghost g = digests@;
    let mut r: Vec<IndexChange> = Vec::new();
    let ghost mut pos: Seq<int> = Seq::empty();
    let mut slot: usize = 0;
    let mut x: usize = 0;
    while x < metadata.len()
        invariant
            p == previous@,
            m == metadata@,
            h == views(hints@).to_set(),
            g == digests@,
            change_inputs(p, m, verify_content, h, g, pair_views(deleted@), taken_by@),
            forall|q: Seq<char>|
                #![trigger prior.map().dom().contains(q)]
                (prior.map().dom().contains(q) <==> prior_index(p, q) >= 0) && (
                prior.map().dom().contains(q) ==> prior.map()[q] == prior_index(p, q)),
            hint_set.set() == h,
            x <= m.len(),
            slot == added_entries(p, m, verify_content, h, g, x as int).len(),
            pos.len() == r@.len(),
            forall|t: int| 0 <= t < r@.len() ==> 0 <= #[trigger] pos[t] < x,
            forall|t: int|
                0 <= t < r@.len() ==> (#[trigger] r@[t]).relative_path@ == m[pos[t]].relative_path@,
            strictly_sorted(change_paths_of(r@)),
            forall|t: int|
                0 <= t < r@.len() ==> change_at(p, m, verify_content, h, g, (#[trigger] r@[t]).relative_path@)
                    == Some(change_view(r@[t])),
            forall|y: int|
                #![trigger m[y]]
                0 <= y < x && change_at(p, m, verify_content, h, g, m[y].relative_path@) is Some
                    ==> exists|t: int| 0 <= t < r@.len() && pos[t] == y,
        decreases m.len() - x,
    {
        let ghost xi = x as int;
        let ghost q = m[xi].relative_path@;
        proof {
            lemma_added_entries_mono(p, m, verify_content, h, g, xi + 1, m.len() as int);
        }
        let (change, is_new) = item_change(
            previous,
            metadata,
            hints,
            verify_content,
            digests,
            prior,
            hint_set,
            deleted,
            taken_by,
            x,
            slot,
        );
        assert(added_entries(p, m, verify_content, h, g, xi + 1).len() == slot + (if is_new {
            1int
        } else {
            0int
        }));
        let n_taken = taken_by.len();
        if is_new {
            assert(slot + 1 <= n_taken);
            slot = slot + 1;
        }
        let ghost old_r = r@;
        let ghost old_pos = pos;
        if let Some(c) = change {
            r.push(c);
            proof {
                pos = pos.push(xi);
                assert(change_paths_of(old_r).push(q) =~= change_paths_of(r@));
                if old_r.len() > 0 {
                    let lp = old_pos[old_r.len() - 1];
                    assert(change_paths_of(old_r).last() == m[lp].relative_path@);
                    assert(meta_paths(m)[lp] == m[lp].relative_path@);
                    assert(meta_paths(m)[xi] == q);
                    assert(seq_lt(meta_paths(m)[lp], meta_paths(m)[xi]));
                }
                lemma_push_sorted(change_paths_of(old_r), q);
                assert forall|t: int| 0 <= t < r@.len() implies change_at(p, m, verify_content, h, g, (#[trigger] r@[t]).relative_path@)
                    == Some(change_view(r@[t])) by {
                    if t < old_r.len() {
                        assert(r@[t] == old_r[t]);
                    }
                }
                assert forall|t: int| 0 <= t < r@.len() implies (#[trigger] r@[t]).relative_path@ == m[pos[t]].relative_path@ by {
                    if t < old_r.len() {
                        assert(r@[t] == old_r[t]);
                    }
                }
                assert forall|y: int|
                    #![trigger m[y]]
                    0 <= y < x + 1 && change_at(p, m, verify_content, h, g, m[y].relative_path@) is Some
                        implies exists|t: int| 0 <= t < r@.len() && pos[t] == y by {
                    if y < xi {
                        let t = choose|t: int| 0 <= t < old_pos.len() && old_pos[t] == y;
                        assert(pos[t] == y);
                    } else {
                        assert(pos[r@.len() - 1] == y);
                    }
                }
            }
        }
        x = x + 1;
    }
    proof {
        assert forall|t: int| 0 <= t < r@.len() implies meta_paths(m).contains((#[trigger] r@[t]).relative_path@) by {
            assert(meta_paths(m)[pos[t]] == r@[t].relative_path@);
        }
        assert forall|y: int|
            #![trigger m[y]]
            0 <= y < m.len() && change_at(p, m, verify_content, h, g, m[y].relative_path@) is Some
                implies exists|t: int| 0 <= t < r@.len() && (#[trigger] r@[t]).relative_path@ == m[y].relative_path@ by {
            let t = choose|t: int| 0 <= t < r@.len() && pos[t] == y;
            assert(r@[t].relative_path@ == m[y].relative_path@);
        }
    }
    r
}

/// The deletions: each deleted file that no new file took, in path order.
fn deleted_changes(
    previous: &[IndexedFileSnapshot],
    metadata: &[FileMeta],
    hints: &[String],
    verify_content: bool,
    digests: &[Option<String>],
    deleted: &Vec<(String, String)>,
    picks: &Vec<Option<usize>>,
) -> (r: Vec<IndexChange>)
    requires
        pair_views(deleted@) == deleted_entries(previous@, metadata@),
        strictly_sorted(sorted_list(gone_paths(previous@, metadata@))),
        sorted_list(gone_paths(previous@, metadata@)).to_set() == gone_paths(previous@, metadata@),
        picks@.len() == deleted@.len(),
        reconcile_picks(previous@, metadata@, verify_content, views(hints@).to_set(), digests@).len()
            == deleted@.len(),
        forall|j: int|
            0 <= j < deleted@.len() ==> pick_value(#[trigger] picks@[j]) == reconcile_picks(
                previous@,
                metadata@,
                verify_content,
                views(hints@).to_set(),
                digests@,
            )[j],
    ensures
        strictly_sorted(change_paths_of(r@)),
        forall|t: int|
            0 <= t < r@.len() ==> gone_paths(previous@, metadata@).contains(
                (#[trigger] r@[t]).relative_path@,
            ) && change_at(
                previous@,
                metadata@,
                verify_content,
                views(hints@).to_set(),
                digests@,
                r@[t].relative_path@,
            ) == Some(change_view(r@[t])),
        forall|j: int|
            0 <= j < deleted@.len() && reconcile_picks(
                previous@,
                metadata@,
                verify_content,
                views(hints@).to_set(),
                digests@,
            )[j] < 0 ==> exists|t: int|
                0 <= t < r@.len() && (#[trigger] r@[t]).relative_path@ == deleted@[j].0@,
{
    let ghost p = previous@;
    let ghost m = metadata@;
    let ghost h = views(hints@).to_set();
    let ghost g = digests@;
    let ghost l = sorted_list(gone_paths(p, m));
    let ghost d = deleted_entries(p, m);
    let ghost pk = reconcile_picks(p, m, verify_content, h, g);
    let mut r: Vec<IndexChange> = Vec::new();
    let ghost mut pos: Seq<int> = Seq::empty();
    let mut j: usize = 0;
    while j < deleted.len()
        invariant
            p == previous@,
            m == metadata@,
            h == views(hints@).to_set(),
            g == digests@,
            l == sorted_list(gone_paths(p, m)),
            d == deleted_entries(p, m),
            pk == reconcile_picks(p, m, verify_content, h, g),
            pair_views(deleted@) == d,
            strictly_sorted(l),
            l.to_set() == gone_paths(p, m),
            picks@.len() == deleted@.len(),
            pk.len() == deleted@.len(),
            forall|y: int| 0 <= y < deleted@.len() ==> pick_value(#[trigger] picks@[y]) == pk[y],
            j <= deleted@.len(),
            pos.len() == r@.len(),
            forall|t: int| 0 <= t < r@.len() ==> 0 <= #[trigger] pos[t] < j,
            forall|t: int| 0 <= t < r@.len() ==> (#[trigger] r@[t]).relative_path@ == l[pos[t]],
            strictly_sorted(change_paths_of(r@)),
            forall|t: int|
                0 <= t < r@.len() ==> gone_paths(p, m).contains((#[trigger] r@[t]).relative_path@)
                    && change_at(p, m, verify_content, h, g, r@[t].relative_path@) == Some(
                    change_view(r@[t]),
                ),
            forall|y: int|
                0 <= y < j && pk[y] < 0 ==> exists|t: int| 0 <= t < r@.len() && #[trigger] pos[t] == y,
        decreases deleted@.len() - j,
    {
        let ghost jj = j as int;
        proof {
            assert(d.len() == l.len());
            assert(d[jj].0 == l[jj]);
            assert(pair_views(deleted@)[jj] == d[jj]);
            lemma_sorted_index_of(l, jj);
            assert(l.to_set().contains(l[jj]));
            assert(pick_value(picks@[jj]) == pk[jj]);
        }
        let ghost old_r = r@;
        let ghost old_pos = pos;
        if picks[j].is_none() {
            let c = IndexChange {
                change_kind: String::from_str("deleted"),
                relative_path: deleted[j].0.clone(),
                previous_path: None,
                before_sha256: Some(deleted[j].1.clone()),
                after_sha256: None,
            };
            proof {
                reveal(change_at);
                reveal_strlit("deleted");
                let q = l[jj];
                assert(gone_paths(p, m).contains(q));
                assert(!meta_paths(m).contains(q));
                assert(change_at(p, m, verify_content, h, g, q) == Some(change_view(c)));
            }
            r.push(c);
            proof {
                pos = pos.push(jj);
                assert(change_paths_of(old_r).push(l[jj]) =~= change_paths_of(r@));
                if old_r.len() > 0 {
                    let lp = old_pos[old_r.len() - 1];
                    assert(change_paths_of(old_r).last() == l[lp]);
                    assert(seq_lt(l[lp], l[jj]));
                }
                lemma_push_sorted(change_paths_of(old_r), l[jj]);
                assert forall|t: int| 0 <= t < r@.len() implies gone_paths(p, m).contains(
                    (#[trigger] r@[t]).relative_path@,
                ) && change_at(p, m, verify_content, h, g, r@[t].relative_path@) == Some(
                    change_view(r@[t]),
                ) by {
                    if t < old_r.len() {
                        assert(r@[t] == old_r[t]);
                    }
                }
                assert forall|t: int| 0 <= t < r@.len() implies (#[trigger] r@[t]).relative_path@ == l[pos[t]] by {
                    if t < old_r.len() {
                        assert(r@[t] == old_r[t]);
                    }
                }
                assert forall|y: int|
                    0 <= y < j + 1 && pk[y] < 0 implies exists|t: int| 0 <= t < r@.len() && #[trigger] pos[t] == y by {
                    if y < jj {
                        let t = choose|t: int| 0 <= t < old_pos.len() && old_pos[t] == y;
                        assert(pos[t] == y);
                    } else {
                        assert(pos[r@.len() - 1] == y);
                    }
                }
            }
        }
        j = j + 1;
    }
    proof {
        assert forall|y: int|
            0 <= y < deleted@.len() && pk[y] < 0 implies exists|t: int|
                0 <= t < r@.len() && (#[trigger] r@[t]).relative_path@ == deleted@[y].0@ by {
            let t = choose|t: int| 0 <= t < r@.len() && pos[t] == y;
            assert(pair_views(deleted@)[y] == d[y]);
            assert(r@[t].relative_path@ == l[y]);
        }
    }
    r
}

/// Every new-file slot belongs to a new file.
pub(crate) proof fn lemma_added_slot(
    previous: Seq<IndexedFileSnapshot>,
    metadata: Seq<FileMeta>,
    verify_content: bool,
    hints: Set<Seq<char>>,
    digests: Seq<Option<String>>,
    n: int,
    s: int,
)
    requires
        0 <= n <= metadata.len(),
        0 <= s < added_entries(previous, metadata, verify_content, hints, digests, n).len(),
    ensures
        exists|x: int|
            0 <= x < n && needs_hash(previous, metadata[x], verify_content, hints) && prior_index(
                previous,
                metadata[x].relative_path@,
            ) < 0 && #[trigger] added_entries(previous, metadata, verify_content, hints, digests, x).len()
                == s,
    decreases n,
{
    let prev_len = added_entries(previous, metadata, verify_content, hints, digests, n - 1).len();
    if s < prev_len {
        lemma_added_slot(previous, metadata, verify_content, hints, digests, n - 1, s);
        let x = choose|x: int|
            0 <= x < n - 1 && needs_hash(previous, metadata[x], verify_content, hints) && prior_index(
                previous,
                metadata[x].relative_path@,
            ) < 0 && #[trigger] added_entries(previous, metadata, verify_content, hints, digests, x).len()
                == s;
        assert(0 <= x < n);
    } else {
        assert(added_entries(previous, metadata, verify_content, hints, digests, n - 1).len() == s);
    }
}

/// Whether one of the changes records `q` as the path a file had.
pub open spec fn has_previous_path(cs: Seq<IndexChange>, q: Seq<char>) -> bool {
    exists|t: int| 0 <= t < cs.len() && opt_view((#[trigger] cs[t]).previous_path) == Some(q)
}

/// Whether a deleted file at `q` was taken by a new file.
pub open spec fn renamed_away(
    previous: Seq<IndexedFileSnapshot>,
    metadata: Seq<FileMeta>,
    verify_content: bool,
    hints: Set<Seq<char>>,
    digests: Seq<Option<String>>,
    q: Seq<char>,
) -> bool {
    let d = deleted_entries(previous, metadata);
    let picks = reconcile_picks(previous, metadata, verify_content, hints, digests);
    exists|j: int| 0 <= j < d.len() && picks[j] >= 0 && #[trigger] d[j].0 == q
}

/// Whether a hinted path turned out changed: a change stands at it, or a
/// file was renamed away from it.
pub open spec fn hint_hit(
    previous: Seq<IndexedFileSnapshot>,
    metadata: Seq<FileMeta>,
    verify_content: bool,
    hints: Set<Seq<char>>,
    digests: Seq<Option<String>>,
    q: Seq<char>,
) -> bool {
    change_at(previous, metadata, verify_content, hints, digests, q) is Some || renamed_away(
        previous,
        metadata,
        verify_content,
        hints,
        digests,
        q,
    )
}

/// How many of the first `n` hinted paths turned out changed.
pub open spec fn hit_count(
    previous: Seq<IndexedFileSnapshot>,
    metadata: Seq<FileMeta>,
    verify_content: bool,
    hints: Set<Seq<char>>,
    digests: Seq<Option<String>>,
    hinted: Seq<Seq<char>>,
    n: int,
) -> nat
    decreases n,
{
    if n <= 0 {
        0
    } else if hint_hit(previous, metadata, verify_content, hints, digests, hinted[n - 1]) {
        hit_count(previous, metadata, verify_content, hints, digests, hinted, n - 1) + 1
    } else {
        hit_count(previous, metadata, verify_content, hints, digests, hinted, n - 1)
    }
}

fn path_set(metadata: &[FileMeta]) -> (r: StrSet)
    ensures
        r.set() == meta_paths(metadata@).to_set(),
{
    let mut r = StrSet::new();
    let mut i: usize = 0;
    while i < metadata.len()
        invariant
            i <= metadata@.len(),
            r.set() == meta_paths(metadata@).subrange(0, i as int).to_set(),
        decreases metadata@.len() - i,
    {
        r.insert(metadata[i].relative_path.clone());
        proof {
            assert(meta_paths(metadata@).subrange(0, i + 1) =~= meta_paths(metadata@).subrange(
                0,
                i as int,
            ).push(metadata@[i as int].relative_path@));
            meta_paths(metadata@).subrange(0, i as int).lemma_push_to_set_commute(
                metadata@[i as int].relative_path@,
            );
        }
        i = i + 1;
    }
    assert(meta_paths(metadata@).subrange(0, metadata@.len() as int) =~= meta_paths(metadata@));
    r
}

/// The changes of a reconciliation, in path order.
#[verifier::rlimit(50)]
fn plan_changes(
    previous: &[IndexedFileSnapshot],
    metadata: &[FileMeta],
    hints: &[String],
    verify_content: bool,
    digests: &[Option<String>],
    prior: &StrMap<usize>,
    hint_set: &StrSet,
    added: &Vec<(String, String)>,
) -> (r: Vec<IndexChange>)
    requires
        digests_given(previous@, metadata@, verify_content, views(hints@).to_set(), digests@),
        strictly_sorted(meta_paths(metadata@)),
        forall|q: Seq<char>|
            #![trigger prior.map().dom().contains(q)]
            (prior.map().dom().contains(q) <==> prior_index(previous@, q) >= 0) && (
            prior.map().dom().contains(q) ==> prior.map()[q] == prior_index(previous@, q)),
        hint_set.set() == views(hints@).to_set(),
        pair_views(added@) == added_entries(
            previous@,
            metadata@,
            verify_content,
            views(hints@).to_set(),
            digests@,
            metadata@.len() as int,
        ),
    ensures
        strictly_sorted(change_paths_of(r@)),
        forall|t: int|
            0 <= t < r@.len() ==> change_at(
                previous@,
                metadata@,
                verify_content,
                views(hints@).to_set(),
                digests@,
                (#[trigger] r@[t]).relative_path@,
            ) == Some(change_view(r@[t])),
        forall|q: Seq<char>|
            change_at(previous@, metadata@, verify_content, views(hints@).to_set(), digests@, q)
                is Some ==> exists|t: int| 0 <= t < r@.len() && (#[trigger] r@[t]).relative_path@ == q,
        forall|q: Seq<char>|
            #[trigger] has_previous_path(r@, q) <==> renamed_away(
                previous@,
                metadata@,
                verify_content,
                views(hints@).to_set(),
                digests@,
                q,
            ),
{
    let ghost p = previous@;
    let ghost m = metadata@;
    let ghost h = views(hints@).to_set();
    let ghost g = digests@;
    let current = path_set(metadata);
    let deleted = deleted_pass(previous, metadata, prior, &current);
    let ghost d = deleted_entries(p, m);
    let ghost a = added_entries(p, m, verify_content, h, g, m.len() as int);
    let ghost pk = reconcile_picks(p, m, verify_content, h, g);
    let (picks, _used) = pick_renames(added, &deleted);
    proof {
        lemma_picks_distinct(a, d, d.len() as int);
        assert(pk == rename_picks(a, d, d.len() as int));
        assert forall|i: int, j: int|
            0 <= i < j < picks@.len() && (#[trigger] picks@[i]) is Some implies picks@[i] != #[trigger] picks@[j] by {
            assert(pick_value(picks@[i]) == pk[i]);
            assert(pick_value(picks@[j]) == pk[j]);
        }
    }
    let taken_by = invert_picks(&picks, added.len());
    proof {
        assert forall|x: int| 0 <= x < taken_by@.len() implies (taken_by@[x] is None ==> !pk.contains(x)) by {
            if taken_by@[x] is None && pk.contains(x) {
                let j = choose|j: int| 0 <= j < pk.len() && pk[j] == x;
                assert(pick_value(picks@[j]) == x);
                assert(picks@[j] == Some(x as usize));
            }
        }
        assert forall|x: int| 0 <= x < taken_by@.len() implies (#[trigger] taken_by@[x] matches Some(j) ==> j
            < deleted@.len() && pk[j as int] == x) by {
            if let Some(j) = taken_by@[x] {
                assert(pick_value(picks@[j as int]) == pk[j as int]);
            }
        }
        assert(change_inputs(p, m, verify_content, h, g, pair_views(deleted@), taken_by@));
    }
    let current_part = current_changes(
        previous,
        metadata,
        hints,
        verify_content,
        digests,
        prior,
        hint_set,
        &deleted,
        &taken_by,
    );
    let deleted_part = deleted_changes(previous, metadata, hints, verify_content, digests, &deleted, &picks);
    proof {
        assert forall|i: int, j: int|
            0 <= i < current_part@.len() && 0 <= j < deleted_part@.len() implies (#[trigger] current_part@[i]).relative_path@
                != (#[trigger] deleted_part@[j]).relative_path@ by {
            assert(meta_paths(m).contains(current_part@[i].relative_path@));
            assert(gone_paths(p, m).contains(deleted_part@[j].relative_path@));
        }
    }
    let r = merge_by_path(&current_part, &deleted_part);
    proof {
        assert forall|t: int| 0 <= t < r@.len() implies change_at(p, m, verify_content, h, g, (#[trigger] r@[t]).relative_path@)
            == Some(change_view(r@[t])) by {
            if exists|i: int| 0 <= i < current_part@.len() && change_view(r@[t]) == change_view(current_part@[i]) {
                let i = choose|i: int| 0 <= i < current_part@.len() && change_view(r@[t]) == change_view(current_part@[i]);
                assert(change_view(r@[t]).1 == current_part@[i].relative_path@);
            } else {
                let j = choose|j: int| 0 <= j < deleted_part@.len() && change_view(r@[t]) == change_view(deleted_part@[j]);
                assert(change_view(r@[t]).1 == deleted_part@[j].relative_path@);
            }
        }
        assert forall|q: Seq<char>|
            change_at(p, m, verify_content, h, g, q) is Some implies exists|t: int| 0 <= t < r@.len() && (#[trigger] r@[t]).relative_path@ == q by {
            reveal(change_at);
            if meta_paths(m).contains(q) {
                let x = meta_paths(m).index_of(q);
                assert(m[x].relative_path@ == q);
                let i = choose|i: int| 0 <= i < current_part@.len() && (#[trigger] current_part@[i]).relative_path@ == m[x].relative_path@;
                let t = choose|t: int| 0 <= t < r@.len() && change_view(#[trigger] r@[t]) == change_view(current_part@[i]);
                assert(r@[t].relative_path@ == q);
            } else {
                let l = sorted_list(gone_paths(p, m));
                assert(l.to_set().contains(q));
                let j = l.index_of(q);
                assert(d[j].0 == q);
                assert(pair_views(deleted@)[j] == d[j]);
                let t0 = choose|t: int| 0 <= t < deleted_part@.len() && (#[trigger] deleted_part@[t]).relative_path@ == deleted@[j].0@;
                let t = choose|t: int| 0 <= t < r@.len() && change_view(#[trigger] r@[t]) == change_view(deleted_part@[t0]);
                assert(r@[t].relative_path@ == q);
            }
        }
        assert forall|q: Seq<char>|
            #[trigger] has_previous_path(r@, q) <==> renamed_away(p, m, verify_content, h, g, q) by {
            if exists|t: int| 0 <= t < r@.len() && opt_view((#[trigger] r@[t]).previous_path) == Some(q) {
                let t = choose|t: int| 0 <= t < r@.len() && opt_view((#[trigger] r@[t]).previous_path) == Some(q);
                let c = r@[t];
                assert(change_at(p, m, verify_content, h, g, c.relative_path@) == Some(change_view(c)));
                assert(change_view(c).2 == Some(q));
                reveal(change_at);
                let cq = c.relative_path@;
                if meta_paths(m).contains(cq) {
                    let i = meta_paths(m).index_of(cq);
                    let slot = added_entries(p, m, verify_content, h, g, i).len() as int;
                    let j = pk.index_of(slot);
                    assert(0 <= j < pk.len() && pk[j] == slot);
                    assert(d[j].0 == q);
                }
            }
            if exists|j: int| 0 <= j < d.len() && pk[j] >= 0 && #[trigger] d[j].0 == q {
                let j = choose|j: int| 0 <= j < d.len() && pk[j] >= 0 && #[trigger] d[j].0 == q;
                let s = pk[j];
                assert(s < a.len());
                lemma_added_slot(p, m, verify_content, h, g, m.len() as int, s);
                let x = choose|x: int|
                    0 <= x < m.len() && needs_hash(p, m[x], verify_content, h) && prior_index(
                        p,
                        m[x].relative_path@,
                    ) < 0 && #[trigger] added_entries(p, m, verify_content, h, g, x).len() == s;
                lemma_sorted_index_of(meta_paths(m), x);
                assert(meta_paths(m)[x] == m[x].relative_path@);
                reveal(change_at);
                assert(pk.contains(s));
                let jj = pk.index_of(s);
                assert(0 <= jj < pk.len() && pk[jj] == s);
                if jj < j {
                    assert(pk[jj] != pk[j]);
                } else if jj > j {
                    assert(pk[j] != pk[jj]);
                }
                assert(change_at(p, m, verify_content, h, g, m[x].relative_path@) is Some);
                let t = choose|t: int| 0 <= t < r@.len() && (#[trigger] r@[t]).relative_path@ == m[x].relative_path@;
                assert(change_at(p, m, verify_content, h, g, r@[t].relative_path@) == Some(change_view(r@[t])));
                assert(change_view(r@[t]).2 == Some(q));
                assert(opt_view(r@[t].previous_path) == Some(q));
            }
        }
    }
    r
}

fn changed_path_set(changes: &Vec<IndexChange>) -> (r: StrSet)
    ensures
        forall|q: Seq<char>|
            r.set().contains(q) <==> ((exists|t: int|
                0 <= t < changes@.len() && (#[trigger] changes@[t]).relative_path@ == q)
                || has_previous_path(changes@, q)),
{
    let mut r = StrSet::new();
    let mut i: usize = 0;
    while i < changes.len()
        invariant
            i <= changes@.len(),
            forall|q: Seq<char>|
                r.set().contains(q) <==> ((exists|t: int|
                    0 <= t < i && (#[trigger] changes@[t]).relative_path@ == q) || (exists|t: int|
                    0 <= t < i && opt_view((#[trigger] changes@[t]).previous_path) == Some(q))),
        decreases changes@.len() - i,
    {
        r.insert(changes[i].relative_path.clone());
        if let Some(pp) = &changes[i].previous_path {
            r.insert(pp.clone());
        }
        proof {
            let ii = i as int;
            assert forall|q: Seq<char>|
                r.set().contains(q) <==> ((exists|t: int|
                    0 <= t < ii + 1 && (#[trigger] changes@[t]).relative_path@ == q) || (exists|t: int|
                    0 <= t < ii + 1 && opt_view((#[trigger] changes@[t]).previous_path) == Some(q))) by {
                if exists|t: int| 0 <= t < ii + 1 && (#[trigger] changes@[t]).relative_path@ == q {
                    let t = choose|t: int| 0 <= t < ii + 1 && (#[trigger] changes@[t]).relative_path@ == q;
                    if t < ii {
                        assert(exists|t2: int| 0 <= t2 < ii && (#[trigger] changes@[t2]).relative_path@ == q);
                    }
                }
                if exists|t: int| 0 <= t < ii + 1 && opt_view((#[trigger] changes@[t]).previous_path) == Some(q) {
                    let t = choose|t: int| 0 <= t < ii + 1 && opt_view((#[trigger] changes@[t]).previous_path) == Some(q);
                    if t < ii {
                        assert(exists|t2: int| 0 <= t2 < ii && opt_view((#[trigger] changes@[t2]).previous_path) == Some(q));
                    }
                }
            }
        }
        i = i + 1;
    }
    r
}

/// The files, touched files and changes that a reconciliation plans: each
/// file now present with its planned digest, in metadata order; the files
/// that had to be read, in the same order; and the changes, in path order,
/// exactly the ones `change_at` names.
pub open spec fn plan_reconciles(
    previous: Seq<IndexedFileSnapshot>,
    metadata: Seq<FileMeta>,
    verify_content: bool,
    hints: Set<Seq<char>>,
    digests: Seq<Option<String>>,
    plan: IndexPlan,
) -> bool {
    let p = previous;
    let m = metadata;
    let h = hints;
    let g = digests;
    let touched = touched_positions(p, m, verify_content, h, m.len() as int);
    &&& plan.files@.len() == m.len()
    &&& forall|i: int|
        0 <= i < m.len() ==> snapshot_of(
            #[trigger] plan.files@[i],
            m[i],
            planned_digest(p, m, verify_content, h, g, i),
        )
    &&& plan.touched_files@.len() == touched.len()
    &&& forall|t: int|
        0 <= t < touched.len() ==> snapshot_of(
            #[trigger] plan.touched_files@[t],
            m[touched[t]],
            planned_digest(p, m, verify_content, h, g, touched[t]),
        )
    &&& strictly_sorted(change_paths_of(plan.changes@))
    &&& forall|t: int|
        0 <= t < plan.changes@.len() ==> change_at(
            p,
            m,
            verify_content,
            h,
            g,
            (#[trigger] plan.changes@[t]).relative_path@,
        ) == Some(change_view(plan.changes@[t]))
    &&& forall|q: Seq<char>|
        change_at(p, m, verify_content, h, g, q) is Some ==> exists|t: int|
            0 <= t < plan.changes@.len() && (#[trigger] plan.changes@[t]).relative_path@ == q
}

/// The plan of a reconciliation. `previous` is the committed index;
/// `metadata` holds the files now under the project root, in strictly
/// increasing path order; `hints` are the normalized watcher hints (sorted,
/// each once); `digests` holds the digest of each file that had to be read
/// (`files_to_hash`). Files that were not read keep their previous digest.
pub fn reconcile_plan(
    previous: &[IndexedFileSnapshot],
    metadata: &[FileMeta],
    hints: &[String],
    verify_content: bool,
    digests: &[Option<String>],
    symlinks_skipped: usize,
    elapsed_ms: u64,
) -> (r: IndexPlan)
    requires
        strictly_sorted(meta_paths(metadata@)),
        strictly_sorted(views(hints@)),
        digests_given(previous@, metadata@, verify_content, views(hints@).to_set(), digests@),
    ensures
        plan_reconciles(previous@, metadata@, verify_content, views(hints@).to_set(), digests@, r),
        ({
            let p = previous@;
            let m = metadata@;
            let h = views(hints@).to_set();
            let g = digests@;
            &&& r.stats.files_seen == m.len()
            &&& r.stats.files_hashed == hashed_count(p, m, verify_content, h, m.len() as int)
            &&& r.stats.files_unchanged == unchanged_count(p, m, verify_content, h, g, m.len() as int)
            &&& r.stats.symlinks_skipped == symlinks_skipped
            &&& r.stats.total_bytes == byte_total(m, m.len() as int)
            &&& r.stats.hint_count == hints@.len()
            &&& r.stats.hint_hits == hit_count(p, m, verify_content, h, g, views(hints@), hints@.len() as int)
            &&& r.stats.elapsed_ms == elapsed_ms
        }),
{
    let ghost p = previous@;
    let ghost m = metadata@;
    let ghost h = views(hints@).to_set();
    let ghost g = digests@;
    let prior = prior_map(previous);
    let hint_set = set_of(hints);
    let pass = file_pass(previous, metadata, hints, verify_content, digests);
    let changes = plan_changes(
        previous,
        metadata,
        hints,
        verify_content,
        digests,
        &prior,
        &hint_set,
        &pass.added,
    );
    let changed = changed_path_set(&changes);
    let mut hits: usize = 0;
    let mut i: usize = 0;
    while i < hints.len()
        invariant
            i <= hints@.len(),
            hits <= i,
            p == previous@,
            m == metadata@,
            h == views(hints@).to_set(),
            g == digests@,
            forall|q: Seq<char>|
                changed.set().contains(q) <==> hint_hit(p, m, verify_content, h, g, q),
            hits == hit_count(p, m, verify_content, h, g, views(hints@), i as int),
        decreases hints@.len() - i,
    {
        if changed.contains(hints[i].as_str()) {
            hits = hits + 1;
        }
        proof {
            assert(views(hints@)[i as int] == hints@[i as int]@);
        }
        i = i + 1;
    }
    IndexPlan {
        files: pass.files,
        touched_files: pass.touched,
        changes,
        stats: IndexStats {
            files_seen: metadata.len(),
            files_hashed: pass.hashed,
            files_unchanged: pass.unchanged,
            symlinks_skipped,
            total_bytes: pass.total_bytes,
            hint_count: hints.len(),
            hint_hits: hits,
            elapsed_ms,
        },
    }
}

/// The paths of snapshots, in order.
pub open spec fn snapshot_paths(files: Seq<IndexedFileSnapshot>) -> Seq<Seq<char>> {
    Seq::new(files.len(), |i: int| files[i].relative_path@)
}

/// The plan of a first index: every file read, every file touched, no
/// change. `metadata` holds the files under the root in strictly increasing
/// path order; `digests` holds the digest of each file, in the same order.
pub fn baseline_plan(
    metadata: &[FileMeta],
    digests: &[String],
    symlinks_skipped: usize,
    elapsed_ms: u64,
) -> (r: IndexPlan)
    requires
        strictly_sorted(meta_paths(metadata@)),
        digests@.len() == metadata@.len(),
    ensures
        snapshot_paths(r.files@) == meta_paths(metadata@),
        strictly_sorted(snapshot_paths(r.files@)),
        r.files@.len() == metadata@.len(),
        r.touched_files@.len() == metadata@.len(),
        forall|i: int|
            0 <= i < metadata@.len() ==> snapshot_of(#[trigger] r.files@[i], metadata@[i], digests@[i]@)
                && snapshot_of(r.touched_files@[i], metadata@[i], digests@[i]@),
        r.changes@.len() == 0,
        r.stats.files_seen == metadata@.len(),
        r.stats.files_hashed == metadata@.len(),
        r.stats.files_unchanged == 0,
        r.stats.symlinks_skipped == symlinks_skipped,
        r.stats.total_bytes == byte_total(metadata@, metadata@.len() as int),
        r.stats.hint_count == 0,
        r.stats.hint_hits == 0,
        r.stats.elapsed_ms == elapsed_ms,
{
    let mut files: Vec<IndexedFileSnapshot> = Vec::new();
    let mut touched: Vec<IndexedFileSnapshot> = Vec::new();
    let mut total: u64 = 0;
    let mut i: usize = 0;
    while i < metadata.len()
        invariant
            i <= metadata@.len(),
            digests@.len() == metadata@.len(),
            files@.len() == i,
            touched@.len() == i,
            forall|x: int|
                0 <= x < i ==> snapshot_of(#[trigger] files@[x], metadata@[x], digests@[x]@) && snapshot_of(
                    touched@[x],
                    metadata@[x],
                    digests@[x]@,
                ),
            total == byte_total(metadata@, i as int),
        decreases metadata@.len() - i,
    {
        let item = &metadata[i];
        total = total.saturating_add(item.size_bytes);
        let snapshot = IndexedFileSnapshot {
            relative_path: item.relative_path.clone(),
            size_bytes: item.size_bytes,
            modified_unix_ns: item.modified_unix_ns,
            content_sha256: digests[i].clone(),
        };
        touched.push(snapshot.clone());
        files.push(snapshot);
        i = i + 1;
    }
    proof {
        assert(snapshot_paths(files@) =~= meta_paths(metadata@));
    }
    let n = metadata.len();
    IndexPlan {
        files,
        touched_files: touched,
        changes: Vec::new(),
        stats: IndexStats {
            files_seen: n,
            files_hashed: n,
            files_unchanged: 0,
            symlinks_skipped,
            total_bytes: total,
            hint_count: 0,
            hint_hits: 0,
            elapsed_ms,
        },
    }
}

/// Whether every file now present was indexed with the same size and
/// modification time, and every indexed path is still present.
pub open spec fn tree_unchanged(previous: Seq<IndexedFileSnapshot>, metadata: Seq<FileMeta>) -> bool {
    &&& forall|i: int|
        0 <= i < metadata.len() ==> {
            let k = prior_index(previous, (#[trigger] metadata[i]).relative_path@);
            &&& k >= 0
            &&& previous[k].size_bytes == metadata[i].size_bytes
            &&& previous[k].modified_unix_ns == metadata[i].modified_unix_ns
        }
    &&& forall|k: int|
        0 <= k < previous.len() ==> meta_paths(metadata).contains((#[trigger] previous[k]).relative_path@)
}

proof fn lemma_nothing_hashed(
    previous: Seq<IndexedFileSnapshot>,
    metadata: Seq<FileMeta>,
    n: int,
)
    requires
        0 <= n <= metadata.len(),
        tree_unchanged(previous, metadata),
    ensures
        hashed_count(previous, metadata, false, Set::<Seq<char>>::empty(), n) == 0,
    decreases n,
{
    if n > 0 {
        lemma_nothing_hashed(previous, metadata, n - 1);
        let k = prior_index(previous, metadata[n - 1].relative_path@);
    }
}

/// A reconciliation of a tree whose files all kept their size and
/// modification time, without hints or content verification, reads no file
/// and records no change.
pub proof fn law_unchanged_tree_reconciles_to_nothing(
    previous: Seq<IndexedFileSnapshot>,
    metadata: Seq<FileMeta>,
    digests: Seq<Option<String>>,
    q: Seq<char>,
)
    requires
        tree_unchanged(previous, metadata),
    ensures
        hashed_count(previous, metadata, false, Set::<Seq<char>>::empty(), metadata.len() as int) == 0,
        change_at(previous, metadata, false, Set::<Seq<char>>::empty(), digests, q) is None,
{
    lemma_nothing_hashed(previous, metadata, metadata.len() as int);
    reveal(change_at);
    if meta_paths(metadata).contains(q) {
        let i = meta_paths(metadata).index_of(q);
        assert(metadata[i].relative_path@ == q);
    } else if gone_paths(previous, metadata).contains(q) {
        let k = prior_index(previous, q);
        lemma_last_snapshot(previous, q, previous.len() as int);
        assert(meta_paths(metadata).contains(previous[k].relative_path@));
    }
}

/// With content verification every file is read, whatever its metadata.
pub proof fn law_content_verification_reads_every_file(
    previous: Seq<IndexedFileSnapshot>,
    metadata: Seq<FileMeta>,
    hints: Set<Seq<char>>,
    n: int,
)
    requires
        0 <= n <= metadata.len(),
    ensures
        hashed_count(previous, metadata, true, hints, n) == n,
        forall|i: int| 0 <= i < n ==> needs_hash(previous, #[trigger] metadata[i], true, hints),
    decreases n,
{
    if n > 0 {
        law_content_verification_reads_every_file(previous, metadata, hints, n - 1);
    }
}

/// A file whose size or modification time changed is read even when no
/// hint names it, and a new digest makes it `modified`.
pub proof fn law_changed_metadata_is_found_without_hints(
    previous: Seq<IndexedFileSnapshot>,
    metadata: Seq<FileMeta>,
    digests: Seq<Option<String>>,
    i: int,
)
    requires
        strictly_sorted(meta_paths(metadata)),
        0 <= i < metadata.len(),
        digests.len() == metadata.len(),
        prior_index(previous, metadata[i].relative_path@) >= 0,
        previous[prior_index(previous, metadata[i].relative_path@)].size_bytes != metadata[i].size_bytes
            || previous[prior_index(previous, metadata[i].relative_path@)].modified_unix_ns
            != metadata[i].modified_unix_ns,
        digests[i] is Some,
        digests[i]->0@ != previous[prior_index(previous, metadata[i].relative_path@)].content_sha256@,
    ensures
        needs_hash(previous, metadata[i], false, Set::<Seq<char>>::empty()),
        change_at(
            previous,
            metadata,
            false,
            Set::<Seq<char>>::empty(),
            digests,
            metadata[i].relative_path@,
        ) == Some(
            (
                "modified"@,
                metadata[i].relative_path@,
                None::<Seq<char>>,
                Some(previous[prior_index(previous, metadata[i].relative_path@)].content_sha256@),
                Some(digests[i]->0@),
            ),
        ),
{
    reveal(change_at);
    lemma_sorted_index_of(meta_paths(metadata), i);
    assert(meta_paths(metadata)[i] == metadata[i].relative_path@);
}

/// A rename keeps the content: its digest before and after is the same, and
/// it names the path the file had.
pub proof fn law_rename_keeps_digest(
    previous: Seq<IndexedFileSnapshot>,
    metadata: Seq<FileMeta>,
    verify_content: bool,
    hints: Set<Seq<char>>,
    digests: Seq<Option<String>>,
    q: Seq<char>,
)
    requires
        change_at(previous, metadata, verify_content, hints, digests, q) matches Some(c) && c.0
            == "renamed"@,
    ensures
        ({
            let c = change_at(previous, metadata, verify_content, hints, digests, q)->0;
            &&& c.1 == q
            &&& c.2 is Some
            &&& c.3 is Some
            &&& c.3 == c.4
        }),
{
    reveal(change_at);
    reveal_strlit("renamed");
    reveal_strlit("modified");
    reveal_strlit("added");
    reveal_strlit("deleted");
    assert("renamed"@[0] != "modified"@[0]);
    assert("renamed"@[0] != "added"@[0]);
    assert("renamed"@[0] != "deleted"@[0]);
    let d = deleted_entries(previous, metadata);
    let l = sorted_list(gone_paths(previous, metadata));
    let c = change_at(previous, metadata, verify_content, hints, digests, q)->0;
    if meta_paths(metadata).contains(q) {
        let i = meta_paths(metadata).index_of(q);
        let slot = added_entries(previous, metadata, verify_content, hints, digests, i).len() as int;
        let picks = reconcile_picks(previous, metadata, verify_content, hints, digests);
        let j = picks.index_of(slot);
        assert(0 <= j < picks.len());
        lemma_picks_distinct(
            added_entries(previous, metadata, verify_content, hints, digests, metadata.len() as int),
            d,
            d.len() as int,
        );
    }
}


/// The counts a reconciliation reports agree: the files read are the files
/// touched, and neither they nor the files that kept their content outnumber
/// the files seen; the hinted paths that turned out changed do not outnumber
/// the hints.
pub proof fn law_reconcile_counts_agree(
    previous: Seq<IndexedFileSnapshot>,
    metadata: Seq<FileMeta>,
    verify_content: bool,
    hints: Set<Seq<char>>,
    digests: Seq<Option<String>>,
    hinted: Seq<Seq<char>>,
    n: int,
    k: int,
)
    requires
        0 <= n,
        0 <= k,
    ensures
        hashed_count(previous, metadata, verify_content, hints, n) == touched_positions(
            previous,
            metadata,
            verify_content,
            hints,
            n,
        ).len(),
        hashed_count(previous, metadata, verify_content, hints, n) <= n,
        unchanged_count(previous, metadata, verify_content, hints, digests, n) <= n,
        hit_count(previous, metadata, verify_content, hints, digests, hinted, k) <= k,
    decreases n + k,
{
    if n > 0 {
        law_reconcile_counts_agree(previous, metadata, verify_content, hints, digests, hinted, n - 1, k);
    }
    if k > 0 {
        law_reconcile_counts_agree(previous, metadata, verify_content, hints, digests, hinted, n, k - 1);
    }
}

/// In a plan, the previous snapshot of each file now present is the plan's
/// own file at the same position.
proof fn lemma_plan_files_indexed(metadata: Seq<FileMeta>, files: Seq<IndexedFileSnapshot>, i: int)
    requires
        strictly_sorted(meta_paths(metadata)),
        files.len() == metadata.len(),
        forall|j: int| 0 <= j < files.len() ==> (#[trigger] files[j]).relative_path@ == metadata[j].relative_path@,
        0 <= i < metadata.len(),
    ensures
        prior_index(files, metadata[i].relative_path@) == i,
{
    let q = metadata[i].relative_path@;
    lemma_last_snapshot(files, q, files.len() as int);
    crate::text::lemma_strictly_sorted_no_dup(meta_paths(metadata));
    let k = prior_index(files, q);
    assert(files[i].relative_path@ == q);
    assert(meta_paths(metadata)[k] == meta_paths(metadata)[i]);
}

/// Reconciling again a tree that did not change since a plan, against the
/// plan's files, reads no file, records no change and keeps every file as
/// the plan has it; with content verification every file is read, and when
/// each digest read is the one the plan recorded, still no change is
/// recorded.
pub proof fn law_reconciliation_is_stable(
    previous: Seq<IndexedFileSnapshot>,
    metadata: Seq<FileMeta>,
    verify_content: bool,
    hints: Set<Seq<char>>,
    digests: Seq<Option<String>>,
    plan: IndexPlan,
    again: Seq<Option<String>>,
    later_hints: Set<Seq<char>>,
    q: Seq<char>,
)
    requires
        strictly_sorted(meta_paths(metadata)),
        plan_reconciles(previous, metadata, verify_content, hints, digests, plan),
    ensures
        tree_unchanged(plan.files@, metadata),
        hashed_count(plan.files@, metadata, false, Set::<Seq<char>>::empty(), metadata.len() as int) == 0,
        change_at(plan.files@, metadata, false, Set::<Seq<char>>::empty(), again, q) is None,
        forall|i: int|
            0 <= i < metadata.len() ==> planned_digest(
                plan.files@,
                metadata,
                false,
                Set::<Seq<char>>::empty(),
                again,
                i,
            ) == (#[trigger] plan.files@[i]).content_sha256@,
        hashed_count(plan.files@, metadata, true, later_hints, metadata.len() as int) == metadata.len(),
        (again.len() == metadata.len() && forall|i: int|
            0 <= i < metadata.len() ==> (#[trigger] again[i]) is Some && again[i]->0@
                == plan.files@[i].content_sha256@) ==> change_at(
            plan.files@,
            metadata,
            true,
            later_hints,
            again,
            q,
        ) is None,
{
    let files = plan.files@;
    assert forall|j: int| 0 <= j < files.len() implies (#[trigger] files[j]).relative_path@
        == metadata[j].relative_path@ by {
        assert(snapshot_of(files[j], metadata[j], planned_digest(previous, metadata, verify_content, hints, digests, j)));
    }
    assert(tree_unchanged(files, metadata)) by {
        assert forall|i: int| 0 <= i < metadata.len() implies {
            let k = prior_index(files, (#[trigger] metadata[i]).relative_path@);
            &&& k >= 0
            &&& files[k].size_bytes == metadata[i].size_bytes
            &&& files[k].modified_unix_ns == metadata[i].modified_unix_ns
        } by {
            lemma_plan_files_indexed(metadata, files, i);
            assert(snapshot_of(files[i], metadata[i], planned_digest(previous, metadata, verify_content, hints, digests, i)));
        }
        assert forall|k: int| 0 <= k < files.len() implies meta_paths(metadata).contains(
            (#[trigger] files[k]).relative_path@,
        ) by {
            assert(meta_paths(metadata)[k] == files[k].relative_path@);
        }
    }
    law_unchanged_tree_reconciles_to_nothing(files, metadata, again, q);
    assert forall|i: int| 0 <= i < metadata.len() implies planned_digest(
        files,
        metadata,
        false,
        Set::<Seq<char>>::empty(),
        again,
        i,
    ) == (#[trigger] files[i]).content_sha256@ by {
        lemma_plan_files_indexed(metadata, files, i);
    }
    law_content_verification_reads_every_file(files, metadata, later_hints, metadata.len() as int);
    if again.len() == metadata.len() && forall|i: int|
        0 <= i < metadata.len() ==> (#[trigger] again[i]) is Some && again[i]->0@
            == files[i].content_sha256@ {
        reveal(change_at);
        if meta_paths(metadata).contains(q) {
            let i = meta_paths(metadata).index_of(q);
            assert(metadata[i].relative_path@ == q);
            lemma_plan_files_indexed(metadata, files, i);
            assert(again[i] is Some);
        } else if gone_paths(files, metadata).contains(q) {
            let k = prior_index(files, q);
            lemma_last_snapshot(files, q, files.len() as int);
            assert(meta_paths(metadata)[k] == files[k].relative_path@);
        }
    }
}


} // verus!
