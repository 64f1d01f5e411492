//! The files that a walk of the project root found, put in the order that
//! reconciliation plans take them: by path, each path once.
use vstd::prelude::*;
use crate::collections::{lemma_insert_sorted, locate, views};
use crate::reconcile::{meta_paths, FileMeta};
use crate::text::strictly_sorted;

verus! {

/// Whether `i` is the first position of its path among `found`.
pub open spec fn first_of_path(found: Seq<FileMeta>, i: int) -> bool {
    forall|k: int| 0 <= k < i ==> (#[trigger] found[k]).relative_path@ != found[i].relative_path@
}

/// Whether `m` is, among the first `limit` files found, the first one found
/// under its path.
pub open spec fn first_found(found: Seq<FileMeta>, limit: int, m: FileMeta) -> bool {
    exists|i: int| #![trigger found[i]] 0 <= i < limit && first_of_path(found, i) && found[i] == m
}

/// The files found under a root in the order that plans take them: by path,
/// strictly increasing, each path once (the first file found under it).
pub fn order_metadata(found: &[FileMeta]) -> (r: Vec<FileMeta>)
    ensures
        strictly_sorted(meta_paths(r@)),
        meta_paths(r@).to_set() == meta_paths(found@).to_set(),
        forall|j: int| 0 <= j < r@.len() ==> first_found(found@, found@.len() as int, #[trigger] r@[j]),
{
    let mut out: Vec<FileMeta> = Vec::new();
    let mut paths: Vec<String> = Vec::new();
    let mut t: usize = 0;
    while t < found.len()
        invariant
            t <= found@.len(),
            paths@.len() == out@.len(),
            views(paths@) == meta_paths(out@),
            strictly_sorted(meta_paths(out@)),
            meta_paths(out@).to_set() == meta_paths(found@.subrange(0, t as int)).to_set(),
            forall|j: int| 0 <= j < out@.len() ==> first_found(found@, t as int, #[trigger] out@[j]),
        decreases found@.len() - t,
    {
        let item = &found[t];
        let ghost before = out@;
        let ghost before_paths = paths@;
        let ghost x = found@[t as int];
        proof {
            assert(meta_paths(found@.subrange(0, t + 1)) =~= meta_paths(found@.subrange(0, t as int)).push(
                x.relative_path@,
            ));
            meta_paths(found@.subrange(0, t as int)).lemma_push_to_set_commute(x.relative_path@);
        }
        let (pos, present) = locate(&paths, item.relative_path.as_str());
        if !present {
            proof {
                lemma_insert_sorted(paths@, pos as int, item.relative_path);
                assert forall|k: int| 0 <= k < t implies (#[trigger] found@[k]).relative_path@
                    != x.relative_path@ by {
                    assert(meta_paths(found@.subrange(0, t as int))[k] == found@[k].relative_path@);
                    assert(meta_paths(found@.subrange(0, t as int)).to_set().contains(found@[k].relative_path@));
                    assert(meta_paths(out@).to_set().contains(found@[k].relative_path@));
                }
                assert(first_of_path(found@, t as int));
            }
            let copy = FileMeta {
                relative_path: item.relative_path.clone(),
                size_bytes: item.size_bytes,
                modified_unix_ns: item.modified_unix_ns,
            };
            paths.insert(pos, item.relative_path.clone());
            out.insert(pos, copy);
            proof {
                assert forall|j: int| 0 <= j < out@.len() implies views(paths@)[j] == meta_paths(out@)[j] by {
                    if j < pos {
                        assert(paths@[j] == before_paths[j]);
                        assert(out@[j] == before[j]);
                        assert(views(before_paths)[j] == meta_paths(before)[j]);
                    } else if j > pos {
                        assert(paths@[j] == before_paths[j - 1]);
                        assert(out@[j] == before[j - 1]);
                        assert(views(before_paths)[j - 1] == meta_paths(before)[j - 1]);
                    }
                }
                assert(views(paths@) =~= meta_paths(out@));
                assert forall|j: int| 0 <= j < out@.len() implies first_found(
                    found@,
                    t + 1,
                    #[trigger] out@[j],
                ) by {
                    if j < pos {
                        assert(out@[j] == before[j]);
                        assert(first_found(found@, t as int, before[j]));
                        let i = choose|i: int| #![trigger found@[i]]
                            0 <= i < t && first_of_path(found@, i) && found@[i] == before[j];
                        assert(found@[i] == out@[j]);
                    } else if j == pos {
                        assert(found@[t as int] == out@[j]);
                    } else {
                        assert(out@[j] == before[j - 1]);
                        assert(first_found(found@, t as int, before[j - 1]));
                        let i = choose|i: int| #![trigger found@[i]]
                            0 <= i < t && first_of_path(found@, i) && found@[i] == before[j - 1];
                        assert(found@[i] == out@[j]);
                    }
                }
            }
        } else {
            proof {
                assert(meta_paths(out@).to_set().contains(x.relative_path@)) by {
                    assert(meta_paths(out@)[pos as int] == x.relative_path@);
                }
                assert(meta_paths(out@).to_set().insert(x.relative_path@) =~= meta_paths(out@).to_set());
                assert forall|j: int| 0 <= j < out@.len() implies first_found(
                    found@,
                    t + 1,
                    #[trigger] out@[j],
                ) by {
                    assert(first_found(found@, t as int, out@[j]));
                    let i = choose|i: int| #![trigger found@[i]]
                        0 <= i < t && first_of_path(found@, i) && found@[i] == out@[j];
                    assert(found@[i] == out@[j]);
                }
            }
        }
        t = t + 1;
    }
    proof {
        assert(found@.subrange(0, found@.len() as int) =~= found@);
    }
    out
}

} // verus!
