//! Canonical JSON: every object's members ordered by key, recursively. Two
//! requests with the same content have the same canonical form, whatever the
//! order their members were written in; request fingerprints are taken over it.
use vstd::prelude::*;
use crate::json::{compact, quoted, Json};
use crate::text::{seq_lt, str_lt};

verus! {

/// The keys of object entries, in entry order.
pub open spec fn entry_keys(entries: Seq<(String, Json)>) -> Seq<Seq<char>> {
    entries.map_values(|e: (String, Json)| e.0@)
}

/// Where `key` is inserted among the entries listed by `order` (indices into
/// `keys`): before the first one whose key is greater, so that equal keys
/// keep their order.
pub open spec fn insertion_point(keys: Seq<Seq<char>>, order: Seq<int>, key: Seq<char>) -> int
    decreases order.len(),
{
    if order.len() == 0 {
        0
    } else if seq_lt(key, keys[order[0]]) {
        0
    } else {
        1 + insertion_point(keys, order.drop_first(), key)
    }
}

/// The indices of the first `n` keys, in key order (a stable sort).
pub open spec fn key_order(keys: Seq<Seq<char>>, n: int) -> Seq<int>
    decreases n,
{
    if n <= 0 {
        Seq::empty()
    } else {
        let prev = key_order(keys, n - 1);
        prev.insert(insertion_point(keys, prev, keys[n - 1]), n - 1)
    }
}

/// `b` is the canonical form of `a`: the same value, with the members of
/// every object ordered by key (members with equal keys keep their order).
pub open spec fn canonical_form(a: Json, b: Json) -> bool
    decreases a,
{
    match (a, b) {
        (Json::Null, Json::Null) => true,
        (Json::Bool(x), Json::Bool(y)) => x == y,
        (Json::Int(x), Json::Int(y)) => x == y,
        (Json::Str(x), Json::Str(y)) => x@ == y@,
        (Json::Array(xs), Json::Array(ys)) => xs@.len() == ys@.len() && forall|i: int|
            0 <= i < xs@.len() ==> canonical_form(#[trigger] xs@[i], ys@[i]),
        (Json::Object(xs), Json::Object(ys)) => {
            let order = key_order(entry_keys(xs@), xs@.len() as int);
            xs@.len() == ys@.len() && forall|i: int|
                0 <= i < ys@.len() ==> 0 <= order[i] && order[i] < xs@.len() && (#[trigger] ys@[i]).0@
                    == xs@[order[i]].0@ && canonical_form(xs@[order[i]].1, ys@[i].1)
        },
        _ => false,
    }
}

/// The compact serialization of the canonical form of `j`.
pub open spec fn canonical_text(j: Json) -> Seq<char>
    decreases j,
{
    match j {
        Json::Array(items) => seq!['['] + canonical_items(items@, items@.len() as int) + seq![']'],
        Json::Object(entries) => seq!['{'] + canonical_entries(
            entries@,
            key_order(entry_keys(entries@), entries@.len() as int),
            entries@.len() as int,
        ) + seq!['}'],
        _ => compact(j),
    }
}

/// The first `n` items in canonical form, comma separated.
pub open spec fn canonical_items(items: Seq<Json>, n: int) -> Seq<char>
    decreases items, n,
{
    if n <= 0 || n > items.len() {
        Seq::empty()
    } else if n == 1 {
        canonical_text(items[0])
    } else {
        canonical_items(items, n - 1) + seq![','] + canonical_text(items[n - 1])
    }
}

/// The entries listed by the first `n` indices of `order`, as
/// `"key":value` in canonical form, comma separated.
pub open spec fn canonical_entries(entries: Seq<(String, Json)>, order: Seq<int>, n: int) -> Seq<
    char,
>
    decreases entries, n,
{
    if n <= 0 || n > order.len() {
        Seq::empty()
    } else {
        let k = order[n - 1];
        if 0 <= k < entries.len() {
            let piece = quoted(entries[k].0@) + seq![':'] + canonical_text(entries[k].1);
            if n == 1 {
                piece
            } else {
                canonical_entries(entries, order, n - 1) + seq![','] + piece
            }
        } else {
            Seq::empty()
        }
    }
}

pub proof fn lemma_insertion_point(keys: Seq<Seq<char>>, order: Seq<int>, key: Seq<char>)
    ensures
        0 <= insertion_point(keys, order, key) <= order.len(),
        forall|q: int|
            0 <= q < insertion_point(keys, order, key) ==> !seq_lt(key, #[trigger] keys[order[q]]),
        insertion_point(keys, order, key) < order.len() ==> seq_lt(
            key,
            keys[order[insertion_point(keys, order, key)]],
        ),
    decreases order.len(),
{
    if order.len() > 0 && !seq_lt(key, keys[order[0]]) {
        lemma_insertion_point(keys, order.drop_first(), key);
        assert forall|q: int| 1 <= q < order.len() implies order[q] == order.drop_first()[q - 1] by {}
    }
}

/// The order lists each of the first `n` indices once.
pub proof fn lemma_key_order(keys: Seq<Seq<char>>, n: int)
    requires
        0 <= n,
    ensures
        key_order(keys, n).len() == n,
        forall|q: int| 0 <= q < n ==> 0 <= #[trigger] key_order(keys, n)[q] < n,
    decreases n,
{
    if n > 0 {
        let prev = key_order(keys, n - 1);
        lemma_key_order(keys, n - 1);
        lemma_insertion_point(keys, prev, keys[n - 1]);
        let p = insertion_point(keys, prev, keys[n - 1]);
        prev.insert_ensures(p, n - 1);
        assert forall|q: int| 0 <= q < n implies 0 <= #[trigger] key_order(keys, n)[q] < n by {
            if q > p {
                assert(key_order(keys, n)[q] == prev[q - 1]);
            }
        }
    }
}

proof fn lemma_items_text(xs: Seq<Json>, ys: Seq<Json>, n: int)
    requires
        xs.len() == ys.len(),
        forall|i: int| 0 <= i < xs.len() ==> compact(#[trigger] ys[i]) == canonical_text(xs[i]),
    ensures
        crate::json::compact_items(ys, n) == canonical_items(xs, n),
    decreases n,
{
    if n > 1 && n <= xs.len() {
        lemma_items_text(xs, ys, n - 1);
    }
}

spec fn entries_match(xs: Seq<(String, Json)>, ys: Seq<(String, Json)>, order: Seq<int>) -> bool {
    forall|i: int|
        0 <= i < ys.len() ==> 0 <= order[i] && order[i] < xs.len() && (#[trigger] ys[i]).0@
            == xs[order[i]].0@ && compact(ys[i].1) == canonical_text(xs[order[i]].1)
}

proof fn lemma_entries_text(
    xs: Seq<(String, Json)>,
    ys: Seq<(String, Json)>,
    order: Seq<int>,
    n: int,
)
    requires
        xs.len() == ys.len(),
        order.len() == xs.len(),
        entries_match(xs, ys, order),
    ensures
        crate::json::compact_entries(ys, n) == canonical_entries(xs, order, n),
    decreases n,
{
    if n > 1 && n <= xs.len() {
        lemma_entries_text(xs, ys, order, n - 1);
        assert(ys[n - 1].0@ == xs[order[n - 1]].0@);
    } else if n == 1 && n <= xs.len() {
        assert(ys[0].0@ == xs[order[0]].0@);
    }
}

/// The serialization of a canonical form is the canonical text.
pub proof fn lemma_canonical_text(a: Json, b: Json)
    requires
        canonical_form(a, b),
    ensures
        compact(b) == canonical_text(a),
    decreases a,
{
    match (a, b) {
        (Json::Array(xs), Json::Array(ys)) => {
            assert forall|i: int| 0 <= i < xs@.len() implies compact(#[trigger] ys@[i])
                == canonical_text(xs@[i]) by {
                assert(decreases_to!(a => a->Array_0));
                assert(decreases_to!(xs => xs@));
                assert(decreases_to!(xs@ => xs@[i]));
                lemma_canonical_text(xs@[i], ys@[i]);
            }
            lemma_items_text(xs@, ys@, xs@.len() as int);
        },
        (Json::Object(xs), Json::Object(ys)) => {
            let order = key_order(entry_keys(xs@), xs@.len() as int);
            lemma_key_order(entry_keys(xs@), xs@.len() as int);
            assert forall|i: int| 0 <= i < ys@.len() implies 0 <= order[i] && order[i] < xs@.len() && (
            #[trigger] ys@[i]).0@ == xs@[order[i]].0@ && compact(ys@[i].1) == canonical_text(
                xs@[order[i]].1,
            ) by {
                let k = order[i];
                assert(decreases_to!(a => a->Object_0));
                assert(decreases_to!(xs => xs@));
                assert(decreases_to!(xs@ => xs@[k]));
                assert(decreases_to!(xs@[k] => xs@[k].1));
                lemma_canonical_text(xs@[k].1, ys@[i].1);
            }
            lemma_entries_text(xs@, ys@, order, xs@.len() as int);
        },
        _ => {},
    }
}

/// The canonical form of a JSON value.
pub fn canonical_json(value: &Json) -> (r: Json)
    ensures
        canonical_form(*value, r),
    decreases *value,
{
    match value {
        Json::Array(items) => {
            let mut out: Vec<Json> = Vec::new();
            let mut i: usize = 0;
            while i < items.len()
                invariant
                    i <= items@.len(),
                    *value == Json::Array(*items),
                    out@.len() == i,
                    forall|k: int| 0 <= k < i ==> canonical_form(#[trigger] items@[k], out@[k]),
                decreases items@.len() - i,
            {
                proof {
                    assert(decreases_to!(*value => value->Array_0));
                    assert(decreases_to!(*items => items@));
                    assert(decreases_to!(items@ => items@[i as int]));
                }
                let item = canonical_json(&items[i]);
                out.push(item);
                i = i + 1;
            }
            Json::Array(out)
        },
        Json::Object(entries) => {
            let ghost keys = entry_keys(entries@);
            let mut out: Vec<(String, Json)> = Vec::new();
            let mut i: usize = 0;
            while i < entries.len()
                invariant
                    i <= entries@.len(),
                    *value == Json::Object(*entries),
                    keys == entry_keys(entries@),
                    out@.len() == i,
                    key_order(keys, i as int).len() == i,
                    forall|q: int| 0 <= q < i ==> 0 <= #[trigger] key_order(keys, i as int)[q] < i,
                    forall|q: int|
                        0 <= q < i ==> (#[trigger] out@[q]).0@ == entries@[key_order(
                            keys,
                            i as int,
                        )[q]].0@ && canonical_form(
                            entries@[key_order(keys, i as int)[q]].1,
                            out@[q].1,
                        ),
                decreases entries@.len() - i,
            {
                let ghost prev = key_order(keys, i as int);
                let ghost key = keys[i as int];
                proof {
                    lemma_insertion_point(keys, prev, key);
                    assert(key == entries@[i as int].0@);
                }
                let mut p: usize = 0;
                loop
                    invariant
                        p <= out@.len(),
                        i < entries@.len(),
                        out@.len() == i,
                        prev.len() == i,
                        *value == Json::Object(*entries),
                        keys == entry_keys(entries@),
                        key == entries@[i as int].0@,
                        forall|q: int| 0 <= q < i ==> (#[trigger] out@[q]).0@ == keys[prev[q]],
                        forall|q: int| 0 <= q < p ==> !seq_lt(key, #[trigger] keys[prev[q]]),
                        0 <= insertion_point(keys, prev, key) <= prev.len(),
                        forall|q: int|
                            0 <= q < insertion_point(keys, prev, key) ==> !seq_lt(
                                key,
                                #[trigger] keys[prev[q]],
                            ),
                        insertion_point(keys, prev, key) < prev.len() ==> seq_lt(
                            key,
                            keys[prev[insertion_point(keys, prev, key)]],
                        ),
                    ensures
                        p == insertion_point(keys, prev, key),
                    decreases out@.len() - p,
                {
                    if p == out.len() {
                        break;
                    }
                    assert(out@[p as int].0@ == keys[prev[p as int]]);
                    if str_lt(entries[i].0.as_str(), out[p].0.as_str()) {
                        break;
                    }
                    p = p + 1;
                }
                proof {
                    assert(decreases_to!(*value => value->Object_0));
                    assert(decreases_to!(*entries => entries@));
                    assert(decreases_to!(entries@ => entries@[i as int]));
                    assert(decreases_to!(entries@[i as int] => entries@[i as int].1));
                }
                let member = canonical_json(&entries[i].1);
                let ghost old_out = out@;
                out.insert(p, (entries[i].0.clone(), member));
                proof {
                    let next = key_order(keys, i + 1);
                    assert(next == prev.insert(p as int, i as int));
                    prev.insert_ensures(p as int, i as int);
                    old_out.insert_ensures(p as int, (entries@[i as int].0, member));
                    lemma_key_order(keys, i + 1);
                    assert forall|q: int| 0 <= q < i + 1 implies (#[trigger] out@[q]).0@
                        == entries@[next[q]].0@ && canonical_form(
                        entries@[next[q]].1,
                        out@[q].1,
                    ) by {
                        if q < p {
                            assert(next[q] == prev[q]);
                            assert(out@[q] == old_out[q]);
                        } else if q == p {
                            assert(next[q] == i);
                        } else {
                            assert(next[q] == prev[q - 1]);
                            assert(out@[q] == old_out[q - 1]);
                        }
                    }
                }
                i = i + 1;
            }
            proof {
                lemma_key_order(keys, entries@.len() as int);
            }
            Json::Object(out)
        },
        Json::Null => Json::Null,
        Json::Bool(b) => Json::Bool(*b),
        Json::Int(n) => Json::Int(*n),
        Json::Str(s) => Json::Str(s.clone()),
    }
}

} // verus!
