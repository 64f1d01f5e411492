//! A JSON document model (the integer subset of JSON numbers), its compact
//! serialization, and the accessors that command handling reads arguments
//! with.
use vstd::prelude::*;
use vstd::string::StrSliceExecFns;
use vstd::string::StringExecFns;
use crate::text::{hex_char, i64_to_decimal, signed_decimal, str_eq};

verus! {

/// A JSON value. Numbers are the integers that fit in `i64`; object entries
/// keep the order in which they were given.
pub enum Json {
    Null,
    Bool(bool),
    Int(i64),
    Str(String),
    Array(Vec<Json>),
    Object(Vec<(String, Json)>),
}

/// The first entry of `entries` under `key`.
pub open spec fn entry_index(entries: Seq<(String, Json)>, key: Seq<char>) -> int
    decreases entries.len(),
{
    if entries.len() == 0 {
        -1
    } else if entries[0].0@ == key {
        0
    } else {
        let rest = entry_index(entries.drop_first(), key);
        if rest < 0 {
            -1
        } else {
            rest + 1
        }
    }
}

pub proof fn lemma_entry_index(entries: Seq<(String, Json)>, key: Seq<char>)
    ensures
        -1 <= entry_index(entries, key) < entries.len(),
        entry_index(entries, key) >= 0 ==> entries[entry_index(entries, key)].0@ == key,
        entry_index(entries, key) >= 0 ==> forall|k: int|
            0 <= k < entry_index(entries, key) ==> (#[trigger] entries[k]).0@ != key,
        entry_index(entries, key) < 0 ==> forall|k: int|
            0 <= k < entries.len() ==> (#[trigger] entries[k]).0@ != key,
    decreases entries.len(),
{
    if entries.len() > 0 && entries[0].0@ != key {
        lemma_entry_index(entries.drop_first(), key);
        assert forall|k: int| 1 <= k < entries.len() implies entries[k] == entries.drop_first()[k
            - 1] by {}
    }
}

/// A member of an object is smaller than the object.
pub proof fn lemma_member_decreases(j: Json, key: Seq<char>)
    ensures
        member(j, key) is Some ==> decreases_to!(j => member(j, key)->0),
{
    if let Json::Object(entries) = j {
        lemma_entry_index(entries@, key);
        let i = entry_index(entries@, key);
        if i >= 0 {
            assert(decreases_to!(j => j->Object_0));
            assert(decreases_to!(entries => entries@));
            assert(decreases_to!(entries@ => entries@[i]));
            assert(decreases_to!(entries@[i] => entries@[i].1));
        }
    }
}

/// The member `key` of an object; `None` for a missing member or a
/// non-object.
pub open spec fn member(j: Json, key: Seq<char>) -> Option<Json> {
    match j {
        Json::Object(entries) => {
            let i = entry_index(entries@, key);
            if i >= 0 {
                Some(entries@[i].1)
            } else {
                None
            }
        },
        _ => None,
    }
}

/// Equality of JSON values by content.
pub open spec fn same(a: Json, b: Json) -> bool
    decreases a,
{
    match (a, b) {
        (Json::Null, Json::Null) => true,
        (Json::Bool(x), Json::Bool(y)) => x == y,
        (Json::Int(x), Json::Int(y)) => x == y,
        (Json::Str(x), Json::Str(y)) => x@ == y@,
        (Json::Array(xs), Json::Array(ys)) => xs@.len() == ys@.len() && forall|i: int|
            0 <= i < xs@.len() ==> same(#[trigger] xs@[i], ys@[i]),
        (Json::Object(xs), Json::Object(ys)) => xs@.len() == ys@.len() && forall|i: int|
            0 <= i < xs@.len() ==> (#[trigger] xs@[i]).0@ == ys@[i].0@ && same(xs@[i].1, ys@[i].1),
        _ => false,
    }
}

/// The JSON escape of one character inside a string literal.
pub open spec fn escape_char(c: char) -> Seq<char> {
    let v = c as u32;
    if c == '"' {
        seq!['\\', '"']
    } else if c == '\\' {
        seq!['\\', '\\']
    } else if v == 0x08 {
        seq!['\\', 'b']
    } else if v == 0x09 {
        seq!['\\', 't']
    } else if v == 0x0a {
        seq!['\\', 'n']
    } else if v == 0x0c {
        seq!['\\', 'f']
    } else if v == 0x0d {
        seq!['\\', 'r']
    } else if v < 0x20 {
        seq!['\\', 'u', '0', '0', hex_char((v / 16) as nat), hex_char((v % 16) as nat)]
    } else {
        seq![c]
    }
}

pub open spec fn escape_chars(s: Seq<char>) -> Seq<char>
    decreases s.len(),
{
    if s.len() == 0 {
        Seq::empty()
    } else {
        escape_chars(s.drop_last()) + escape_char(s.last())
    }
}

/// A JSON string literal.
pub open spec fn quoted(s: Seq<char>) -> Seq<char> {
    seq!['"'] + escape_chars(s) + seq!['"']
}

/// Compact serialization (no white space), as `serde_json::to_string`.
pub open spec fn compact(j: Json) -> Seq<char>
    decreases j,
{
    match j {
        Json::Null => "null"@,
        Json::Bool(b) => if b {
            "true"@
        } else {
            "false"@
        },
        Json::Int(n) => signed_decimal(n as int),
        Json::Str(s) => quoted(s@),
        Json::Array(items) => seq!['['] + compact_items(items@, items@.len() as int) + seq![']'],
        Json::Object(entries) => seq!['{'] + compact_entries(entries@, entries@.len() as int)
            + seq!['}'],
    }
}

/// The first `n` items, comma separated.
pub open spec fn compact_items(items: Seq<Json>, n: int) -> Seq<char>
    decreases items, n,
{
    if n <= 0 || n > items.len() {
        Seq::empty()
    } else if n == 1 {
        compact(items[0])
    } else {
        compact_items(items, n - 1) + seq![','] + compact(items[n - 1])
    }
}

/// The first `n` entries as `"key":value`, comma separated.
pub open spec fn compact_entries(entries: Seq<(String, Json)>, n: int) -> Seq<char>
    decreases entries, n,
{
    if n <= 0 || n > entries.len() {
        Seq::empty()
    } else if n == 1 {
        quoted(entries[0].0@) + seq![':'] + compact(entries[0].1)
    } else {
        compact_entries(entries, n - 1) + seq![','] + quoted(entries[n - 1].0@) + seq![':']
            + compact(entries[n - 1].1)
    }
}

fn literal(s: &str) -> (r: String)
    ensures
        r@ == s@,
{
    String::from_str(s)
}

fn escape_one(c: char, text: &str, i: usize) -> (r: String)
    requires
        i < text@.len() <= usize::MAX,
        text@[i as int] == c,
    ensures
        r@ == escape_char(c),
{
    let v = c as u32;
    proof {
        reveal_strlit("\\\"");
        reveal_strlit("\\\\");
        reveal_strlit("\\b");
        reveal_strlit("\\t");
        reveal_strlit("\\n");
        reveal_strlit("\\f");
        reveal_strlit("\\r");
        reveal_strlit("\\u00");
        reveal_strlit("0");
        reveal_strlit("1");
    }
    if c == '"' {
        literal("\\\"")
    } else if c == '\\' {
        literal("\\\\")
    } else if v == 0x08 {
        literal("\\b")
    } else if v == 0x09 {
        literal("\\t")
    } else if v == 0x0a {
        literal("\\n")
    } else if v == 0x0c {
        literal("\\f")
    } else if v == 0x0d {
        literal("\\r")
    } else if v < 0x20 {
        let hi = if v < 16 {
            literal("0")
        } else {
            literal("1")
        };
        let lo = crate::text::hex_text((v % 16) as u8);
        proof {
            assert(hex_char(0) == '0');
            assert(hex_char(1) == '1');
            assert(v / 16 == 0 || v / 16 == 1);
        }
        let r = literal("\\u00").concat(hi.as_str()).concat(lo.as_str());
        assert(r@ =~= escape_char(c));
        r
    } else {
        let one = text.substring_char(i, i + 1);
        let r = String::from_str(one);
        assert(r@ =~= seq![c]);
        r
    }
}

/// A JSON string literal for `s`.
pub fn quote(s: &str) -> (r: String)
    ensures
        r@ == quoted(s@),
{
    let n = s.unicode_len();
    let mut out = literal("\"");
    proof {
        reveal_strlit("\"");
    }
    let mut i: usize = 0;
    while i < n
        invariant
            n == s@.len(),
            i <= n,
            out@ == seq!['"'] + escape_chars(s@.subrange(0, i as int)),
        decreases n - i,
    {
        let c = s.get_char(i);
        let piece = escape_one(c, s, i);
        out = out.concat(piece.as_str());
        proof {
            let t = s@.subrange(0, i + 1);
            assert(t.drop_last() =~= s@.subrange(0, i as int));
            assert(t.last() == c);
            assert(out@ =~= seq!['"'] + escape_chars(t));
        }
        i = i + 1;
    }
    assert(s@.subrange(0, n as int) =~= s@);
    let r = out.concat("\"");
    assert(r@ =~= quoted(s@));
    r
}

/// Compact serialization of a JSON value.
pub fn to_compact(j: &Json) -> (r: String)
    ensures
        r@ == compact(*j),
    decreases *j,
{
    proof {
        reveal_strlit("null");
        reveal_strlit("true");
        reveal_strlit("false");
        reveal_strlit("[");
        reveal_strlit("]");
        reveal_strlit("{");
        reveal_strlit("}");
        reveal_strlit(",");
        reveal_strlit(":");
    }
    match j {
        Json::Null => literal("null"),
        Json::Bool(b) => if *b {
            literal("true")
        } else {
            literal("false")
        },
        Json::Int(n) => i64_to_decimal(*n),
        Json::Str(s) => quote(s.as_str()),
        Json::Array(items) => {
            let mut out = literal("[");
            let mut i: usize = 0;
            while i < items.len()
                invariant
                    i <= items@.len(),
                    *j == Json::Array(*items),
                    out@ == seq!['['] + compact_items(items@, i as int),
                decreases items@.len() - i,
            {
                proof {
                    reveal_strlit(",");
                    assert(decreases_to!(*j => j->Array_0));
                    assert(decreases_to!(*items => items@));
                    assert(decreases_to!(items@ => items@[i as int]));
                }
                let piece = to_compact(&items[i]);
                assert(piece@ == compact(items@[i as int]));
                if i > 0 {
                    out = out.concat(",");
                }
                out = out.concat(piece.as_str());
                proof {
                    if i == 0 {
                        assert(out@ =~= seq!['['] + compact_items(items@, 1));
                    } else {
                        assert(compact_items(items@, i + 1) == compact_items(items@, i as int)
                            + seq![','] + compact(items@[i as int]));
                        assert(out@ =~= seq!['['] + compact_items(items@, i + 1));
                    }
                }
                i = i + 1;
            }
            let r = out.concat("]");
            assert(r@ =~= compact(*j));
            r
        },
        Json::Object(entries) => {
            let mut out = literal("{");
            let mut i: usize = 0;
            while i < entries.len()
                invariant
                    i <= entries@.len(),
                    *j == Json::Object(*entries),
                    out@ == seq!['{'] + compact_entries(entries@, i as int),
                decreases entries@.len() - i,
            {
                proof {
                    reveal_strlit(",");
                    reveal_strlit(":");
                    assert(decreases_to!(*j => j->Object_0));
                    assert(decreases_to!(*entries => entries@));
                    assert(decreases_to!(entries@ => entries@[i as int]));
                    assert(decreases_to!(entries@[i as int] => entries@[i as int].1));
                }
                let key = quote(entries[i].0.as_str());
                let piece = to_compact(&entries[i].1);
                assert(piece@ == compact(entries@[i as int].1));
                assert(key@ == quoted(entries@[i as int].0@));
                if i > 0 {
                    out = out.concat(",");
                }
                out = out.concat(key.as_str()).concat(":").concat(piece.as_str());
                proof {
                    if i == 0 {
                        assert(out@ =~= seq!['{'] + compact_entries(entries@, 1));
                    } else {
                        assert(compact_entries(entries@, i + 1) == compact_entries(entries@, i as int)
                            + seq![','] + quoted(entries@[i as int].0@) + seq![':'] + compact(
                            entries@[i as int].1,
                        ));
                        assert(out@ =~= seq!['{'] + compact_entries(entries@, i + 1));
                    }
                }
                i = i + 1;
            }
            let r = out.concat("}");
            assert(r@ =~= compact(*j));
            r
        },
    }
}

/// Content equality of two JSON values.
pub fn json_same(a: &Json, b: &Json) -> (r: bool)
    ensures
        r == same(*a, *b),
    decreases *a,
{
    match (a, b) {
        (Json::Null, Json::Null) => true,
        (Json::Bool(x), Json::Bool(y)) => *x == *y,
        (Json::Int(x), Json::Int(y)) => *x == *y,
        (Json::Str(x), Json::Str(y)) => *x == *y,
        (Json::Array(xs), Json::Array(ys)) => {
            if xs.len() != ys.len() {
                return false;
            }
            let mut i: usize = 0;
            while i < xs.len()
                invariant
                    i <= xs@.len(),
                    xs@.len() == ys@.len(),
                    *a == Json::Array(*xs),
                    *b == Json::Array(*ys),
                    forall|k: int| 0 <= k < i ==> same(#[trigger] xs@[k], ys@[k]),
                decreases xs@.len() - i,
            {
                proof {
                    assert(decreases_to!(*a => a->Array_0));
                    assert(decreases_to!(*xs => xs@));
                    assert(decreases_to!(xs@ => xs@[i as int]));
                }
                if !json_same(&xs[i], &ys[i]) {
                    return false;
                }
                i = i + 1;
            }
            true
        },
        (Json::Object(xs), Json::Object(ys)) => {
            if xs.len() != ys.len() {
                return false;
            }
            let mut i: usize = 0;
            while i < xs.len()
                invariant
                    i <= xs@.len(),
                    xs@.len() == ys@.len(),
                    *a == Json::Object(*xs),
                    *b == Json::Object(*ys),
                    forall|k: int|
                        0 <= k < i ==> (#[trigger] xs@[k]).0@ == ys@[k].0@ && same(
                            xs@[k].1,
                            ys@[k].1,
                        ),
                decreases xs@.len() - i,
            {
                proof {
                    assert(decreases_to!(*a => a->Object_0));
                    assert(decreases_to!(*xs => xs@));
                    assert(decreases_to!(xs@ => xs@[i as int]));
                    assert(decreases_to!(xs@[i as int] => xs@[i as int].1));
                }
                if xs[i].0 != ys[i].0 {
                    return false;
                }
                if !json_same(&xs[i].1, &ys[i].1) {
                    return false;
                }
                i = i + 1;
            }
            true
        },
        _ => false,
    }
}

impl Json {
    /// The member `key` of an object.
    pub fn get(&self, key: &str) -> (r: Option<&Json>)
        ensures
            r is Some <==> member(*self, key@) is Some,
            r matches Some(v) ==> *v == member(*self, key@)->0,
    {
        match self {
            Json::Object(entries) => {
                let mut i: usize = 0;
                while i < entries.len()
                    invariant
                        i <= entries@.len(),
                        *self == Json::Object(*entries),
                        forall|k: int| 0 <= k < i ==> (#[trigger] entries@[k]).0@ != key@,
                    decreases entries@.len() - i,
                {
                    if str_eq(entries[i].0.as_str(), key) {
                        proof {
                            lemma_entry_index(entries@, key@);
                            let e = entry_index(entries@, key@);
                            assert(entries@[i as int].0@ == key@);
                            if e < i {
                                assert(entries@[e].0@ == key@);
                            }
                            assert(e == i);
                            assert(member(*self, key@) == Some(entries@[i as int].1));
                        }
                        return Some(&entries[i].1);
                    }
                    i = i + 1;
                }
                proof {
                    lemma_entry_index(entries@, key@);
                }
                None
            },
            _ => None,
        }
    }

    pub fn as_str(&self) -> (r: Option<&str>)
        ensures
            r is Some <==> *self is Str,
            r matches Some(s) ==> s@ == self->Str_0@,
    {
        match self {
            Json::Str(s) => Some(s.as_str()),
            _ => None,
        }
    }

    pub fn as_bool(&self) -> (r: Option<bool>)
        ensures
            r == (match *self {
                Json::Bool(b) => Some(b),
                _ => None,
            }),
    {
        match self {
            Json::Bool(b) => Some(*b),
            _ => None,
        }
    }

    pub fn as_i64(&self) -> (r: Option<i64>)
        ensures
            r == (match *self {
                Json::Int(n) => Some(n),
                _ => None,
            }),
    {
        match self {
            Json::Int(n) => Some(*n),
            _ => None,
        }
    }

    /// A non-negative integer.
    pub fn as_u64(&self) -> (r: Option<u64>)
        ensures
            r == (match *self {
                Json::Int(n) => if n >= 0 {
                    Some(n as u64)
                } else {
                    None
                },
                _ => None,
            }),
    {
        match self {
            Json::Int(n) => if *n >= 0 {
                Some(*n as u64)
            } else {
                None
            },
            _ => None,
        }
    }

    pub fn as_array(&self) -> (r: Option<&Vec<Json>>)
        ensures
            r is Some <==> *self is Array,
            r matches Some(items) ==> *items == self->Array_0,
    {
        match self {
            Json::Array(items) => Some(items),
            _ => None,
        }
    }

    pub fn is_object(&self) -> (r: bool)
        ensures
            r == (*self is Object),
    {
        match self {
            Json::Object(_) => true,
            _ => false,
        }
    }

    pub fn is_null(&self) -> (r: bool)
        ensures
            r == (*self is Null),
    {
        match self {
            Json::Null => true,
            _ => false,
        }
    }

    pub fn string(s: &str) -> (r: Json)
        ensures
            r is Str,
            r->Str_0@ == s@,
    {
        Json::Str(String::from_str(s))
    }
}

impl Json {
    /// A copy with the same content.
    pub fn duplicate(&self) -> (r: Json)
        ensures
            same(*self, r),
        decreases *self,
    {
        match self {
            Json::Null => Json::Null,
            Json::Bool(b) => Json::Bool(*b),
            Json::Int(n) => Json::Int(*n),
            Json::Str(x) => Json::Str(x.clone()),
            Json::Array(xs) => {
                let mut out: Vec<Json> = Vec::new();
                let mut i: usize = 0;
                while i < xs.len()
                    invariant
                        i <= xs@.len(),
                        *self == Json::Array(*xs),
                        out@.len() == i,
                        forall|k: int| 0 <= k < i ==> same(#[trigger] xs@[k], out@[k]),
                    decreases xs@.len() - i,
                {
                    proof {
                        assert(decreases_to!(*self => self->Array_0));
                        assert(decreases_to!(*xs => xs@));
                        assert(decreases_to!(xs@ => xs@[i as int]));
                    }
                    let item = xs[i].duplicate();
                    out.push(item);
                    i = i + 1;
                }
                Json::Array(out)
            },
            Json::Object(xs) => {
                let mut out: Vec<(String, Json)> = Vec::new();
                let mut i: usize = 0;
                while i < xs.len()
                    invariant
                        i <= xs@.len(),
                        *self == Json::Object(*xs),
                        out@.len() == i,
                        forall|k: int|
                            0 <= k < i ==> (#[trigger] xs@[k]).0@ == out@[k].0@ && same(
                                xs@[k].1,
                                out@[k].1,
                            ),
                    decreases xs@.len() - i,
                {
                    proof {
                        assert(decreases_to!(*self => self->Object_0));
                        assert(decreases_to!(*xs => xs@));
                        assert(decreases_to!(xs@ => xs@[i as int]));
                        assert(decreases_to!(xs@[i as int] => xs@[i as int].1));
                    }
                    let value = xs[i].1.duplicate();
                    out.push((xs[i].0.clone(), value));
                    i = i + 1;
                }
                Json::Object(out)
            },
        }
    }
}

/// The string member `key` of an object.
pub open spec fn str_member(j: Json, key: Seq<char>) -> Option<Seq<char>> {
    match member(j, key) {
        Some(Json::Str(s)) => Some(s@),
        _ => None,
    }
}

/// The non-negative integer member `key` of an object.
pub open spec fn u64_member(j: Json, key: Seq<char>) -> Option<u64> {
    match member(j, key) {
        Some(Json::Int(n)) => if n >= 0 {
            Some(n as u64)
        } else {
            None
        },
        _ => None,
    }
}

/// The boolean member `key` of an object.
pub open spec fn bool_member(j: Json, key: Seq<char>) -> Option<bool> {
    match member(j, key) {
        Some(Json::Bool(b)) => Some(b),
        _ => None,
    }
}


/// Content equality is reflexive.
pub proof fn lemma_same_reflexive(j: Json)
    ensures
        same(j, j),
    decreases j,
{
    match j {
        Json::Array(xs) => {
            assert forall|i: int| 0 <= i < xs@.len() implies same(#[trigger] xs@[i], xs@[i]) by {
                assert(decreases_to!(j => j->Array_0));
                assert(decreases_to!(xs => xs@));
                assert(decreases_to!(xs@ => xs@[i]));
                lemma_same_reflexive(xs@[i]);
            }
        },
        Json::Object(xs) => {
            assert forall|i: int| 0 <= i < xs@.len() implies (#[trigger] xs@[i]).0@ == xs@[i].0@ && same(
                xs@[i].1,
                xs@[i].1,
            ) by {
                assert(decreases_to!(j => j->Object_0));
                assert(decreases_to!(xs => xs@));
                assert(decreases_to!(xs@ => xs@[i]));
                assert(decreases_to!(xs@[i] => xs@[i].1));
                lemma_same_reflexive(xs@[i].1);
            }
        },
        _ => {},
    }
}


/// The value of a hexadecimal digit, in either case.
pub open spec fn hex_digit_value(c: char) -> Option<nat> {
    let v = c as u32;
    if 0x30 <= v <= 0x39 {
        Some((v - 0x30) as nat)
    } else if 0x61 <= v <= 0x66 {
        Some((v - 0x61 + 10) as nat)
    } else if 0x41 <= v <= 0x46 {
        Some((v - 0x41 + 10) as nat)
    } else {
        None
    }
}

/// The character that a JSON reader takes from the front of the text of a
/// string literal (between its quotes), with how many characters it spans;
/// `None` where no character may start there: an unescaped quote or control
/// character, a lone or unknown escape, or a `\u` escape that names a
/// surrogate (pairs of them are not read here).
pub open spec fn read_string_char(t: Seq<char>) -> Option<(char, int)> {
    if t.len() == 0 {
        None
    } else if t[0] == '"' || (t[0] as u32) < 0x20 {
        None
    } else if t[0] != '\\' {
        Some((t[0], 1))
    } else if t.len() < 2 {
        None
    } else if t[1] == '"' {
        Some(('"', 2))
    } else if t[1] == '\\' {
        Some(('\\', 2))
    } else if t[1] == '/' {
        Some(('/', 2))
    } else if t[1] == 'b' {
        Some(('\u{8}', 2))
    } else if t[1] == 'f' {
        Some(('\u{c}', 2))
    } else if t[1] == 'n' {
        Some(('\n', 2))
    } else if t[1] == 'r' {
        Some(('\r', 2))
    } else if t[1] == 't' {
        Some(('\t', 2))
    } else if t[1] == 'u' && t.len() >= 6 && hex_digit_value(t[2]) is Some && hex_digit_value(t[3]) is Some
        && hex_digit_value(t[4]) is Some && hex_digit_value(t[5]) is Some {
        let v = hex_digit_value(t[2])->0 * 4096 + hex_digit_value(t[3])->0 * 256 + hex_digit_value(t[4])->0
            * 16 + hex_digit_value(t[5])->0;
        if 0xD800 <= v <= 0xDFFF {
            None
        } else {
            Some((v as char, 6))
        }
    } else {
        None
    }
}

/// The characters that a JSON reader reads from the text of a string
/// literal; `None` when the text is not valid there.
pub open spec fn unescape(t: Seq<char>) -> Option<Seq<char>>
    decreases t.len(),
{
    if t.len() == 0 {
        Some(Seq::empty())
    } else {
        match read_string_char(t) {
            Some((c, k)) => if 1 <= k <= t.len() {
                match unescape(t.subrange(k, t.len() as int)) {
                    Some(rest) => Some(seq![c] + rest),
                    None => None,
                }
            } else {
                None
            },
            None => None,
        }
    }
}

proof fn lemma_escape_chars_front(s: Seq<char>)
    requires
        s.len() > 0,
    ensures
        escape_chars(s) == escape_char(s[0]) + escape_chars(s.drop_first()),
    decreases s.len(),
{
    if s.len() == 1 {
        assert(s.drop_last().len() == 0);
        assert(s.drop_first().len() == 0);
        assert(escape_chars(s.drop_last()) == Seq::<char>::empty());
        assert(escape_chars(s.drop_first()) == Seq::<char>::empty());
        assert(s.last() == s[0]);
        assert(escape_chars(s) =~= escape_char(s[0]) + escape_chars(s.drop_first()));
    } else {
        lemma_escape_chars_front(s.drop_last());
        assert(s.drop_last().drop_first() =~= s.drop_first().drop_last());
        assert(s.drop_first().last() == s.last());
        assert(s.drop_last()[0] == s[0]);
        assert(escape_chars(s) == escape_chars(s.drop_last()) + escape_char(s.last()));
        assert(escape_chars(s.drop_first()) == escape_chars(s.drop_first().drop_last()) + escape_char(
            s.drop_first().last(),
        ));
        assert(escape_chars(s) =~= escape_char(s[0]) + escape_chars(s.drop_first()));
    }
}

proof fn lemma_hex_digit_reads_back(d: nat)
    requires
        d < 16,
    ensures
        hex_digit_value(hex_char(d)) == Some(d),
{
}

proof fn lemma_read_escape_char(c: char, rest: Seq<char>)
    ensures
        read_string_char(escape_char(c) + rest) == Some((c, escape_char(c).len() as int)),
{
    let t = escape_char(c) + rest;
    let v = c as u32;
    if c == '"' || c == '\\' || v == 0x08 || v == 0x09 || v == 0x0a || v == 0x0c || v == 0x0d {
        assert(t[0] == '\\');
        assert(t[1] == escape_char(c)[1]);
    } else if v < 0x20 {
        lemma_hex_digit_reads_back((v / 16) as nat);
        lemma_hex_digit_reads_back((v % 16) as nat);
        assert(t[0] == '\\');
        assert(t[1] == 'u');
        assert(t[2] == '0');
        assert(t[3] == '0');
        assert(t[4] == hex_char((v / 16) as nat));
        assert(t[5] == hex_char((v % 16) as nat));
        assert((v / 16) * 16 + v % 16 == v);
    } else {
        assert(t[0] == c);
    }
}

/// Escaping reads back: a JSON reader takes from the text that escaping
/// writes exactly the characters that were escaped. So every quote,
/// backslash and control character is written as an escape, and no two
/// strings are written alike.
pub proof fn law_escaped_text_reads_back(s: Seq<char>)
    ensures
        unescape(escape_chars(s)) == Some(s),
    decreases s.len(),
{
    if s.len() == 0 {
        assert(escape_chars(s) =~= Seq::<char>::empty());
        assert(s =~= Seq::<char>::empty());
    } else {
        lemma_escape_chars_front(s);
        let t = escape_chars(s);
        let k = escape_char(s[0]).len() as int;
        lemma_read_escape_char(s[0], escape_chars(s.drop_first()));
        assert(t.subrange(k, t.len() as int) =~= escape_chars(s.drop_first()));
        law_escaped_text_reads_back(s.drop_first());
        assert(seq![s[0]] + s.drop_first() =~= s);
    }
}

/// A string serializes as a literal that reads back as the same string, and
/// two strings serialize alike only when they are the same.
pub proof fn law_compact_strings_read_back(a: String, b: String)
    ensures
        compact(Json::Str(a)).len() >= 2,
        compact(Json::Str(a))[0] == '"',
        compact(Json::Str(a)).last() == '"',
        unescape(compact(Json::Str(a)).subrange(1, compact(Json::Str(a)).len() - 1)) == Some(a@),
        compact(Json::Str(a)) == compact(Json::Str(b)) ==> a@ == b@,
{
    law_escaped_text_reads_back(a@);
    law_escaped_text_reads_back(b@);
    let qa = compact(Json::Str(a));
    let qb = compact(Json::Str(b));
    assert(qa.subrange(1, qa.len() - 1) =~= escape_chars(a@));
    assert(qb.subrange(1, qb.len() - 1) =~= escape_chars(b@));
}

} // verus!
