//! Validation of JSON values against the schema subset that command contracts
//! use (`type`, `const`, `enum`, `required`, `properties`,
//! `additionalProperties`, `items`, `minLength`, `minimum`, `maximum`).
//! Validation reports the first violation, with its JSON path.
use vstd::prelude::*;
use vstd::string::StrSliceExecFns;
use vstd::string::StringExecFns;
use crate::json::{
    compact, json_same, lemma_entry_index, lemma_member_decreases, member, quote, quoted, same,
    to_compact, entry_index, Json,
};
use crate::text::{decimal, i64_to_decimal, signed_decimal, str_eq, u64_to_decimal};

verus! {

/// A value that does not conform to a schema.
pub struct ValidationError {
    pub path: String,
    pub message: String,
}

impl ValidationError {
    /// The error as text: `path: message`.
    pub fn to_string(&self) -> (r: String)
        ensures
            r@ == self.path@ + ": "@ + self.message@,
    {
        proof {
            reveal_strlit(": ");
        }
        self.path.clone().concat(": ").concat(self.message.as_str())
    }
}

/// The type name of a value.
pub open spec fn json_type_name(v: Json) -> Seq<char> {
    match v {
        Json::Null => "null"@,
        Json::Bool(_) => "boolean"@,
        Json::Int(_) => "integer"@,
        Json::Str(_) => "string"@,
        Json::Array(_) => "array"@,
        Json::Object(_) => "object"@,
    }
}

/// Whether `v` has the JSON type named `expected` (every integer is also a
/// number).
pub open spec fn type_name_matches(expected: Seq<char>, v: Json) -> bool {
    if expected == "object"@ {
        v is Object
    } else if expected == "array"@ {
        v is Array
    } else if expected == "string"@ {
        v is Str
    } else if expected == "integer"@ || expected == "number"@ {
        v is Int
    } else if expected == "boolean"@ {
        v is Bool
    } else if expected == "null"@ {
        v is Null
    } else {
        false
    }
}

/// Whether `v` has the type that a `type` keyword declares (a name or a list
/// of names).
pub open spec fn declared_type_matches(types: Json, v: Json) -> bool {
    match types {
        Json::Str(e) => type_name_matches(e@, v),
        Json::Array(ts) => exists|i: int|
            0 <= i < ts@.len() && (#[trigger] ts@[i]) is Str && type_name_matches(
                ts@[i]->Str_0@,
                v,
            ),
        _ => false,
    }
}

/// A property name that needs no quoting in a path.
pub open spec fn is_plain_name(s: Seq<char>) -> bool {
    forall|i: int|
        0 <= i < s.len() ==> {
            let c = #[trigger] s[i];
            ('a' <= c && c <= 'z') || ('A' <= c && c <= 'Z') || ('0' <= c && c <= '9') || c == '_'
        }
}

/// How a property name appears in a path.
pub open spec fn path_segment(name: Seq<char>) -> Seq<char> {
    if is_plain_name(name) {
        name
    } else {
        seq!['['] + quoted(name) + seq![']']
    }
}

/// An integer member of an object.
pub open spec fn int_member(j: Json, key: Seq<char>) -> Option<i64> {
    match member(j, key) {
        Some(Json::Int(n)) => Some(n),
        _ => None,
    }
}

/// The checks of one schema that look at `value` alone, in the order the
/// validator makes them; the message of the first that fails.
pub open spec fn local_violation(schema: Json, value: Json) -> Option<Seq<char>> {
    if member(schema, "const"@) is Some && !same(value, member(schema, "const"@)->0) {
        Some("expected constant "@ + compact(member(schema, "const"@)->0))
    } else if member(schema, "enum"@) matches Some(Json::Array(vals)) && !exists|i: int|
        0 <= i < vals@.len() && same(#[trigger] vals@[i], value) {
        Some("value is not one of the allowed enum values"@)
    } else if member(schema, "type"@) is Some && !declared_type_matches(
        member(schema, "type"@)->0,
        value,
    ) {
        Some("expected type "@ + compact(member(schema, "type"@)->0) + ", got "@ + json_type_name(
            value,
        ))
    } else if int_member(schema, "minLength"@) is Some && int_member(schema, "minLength"@)->0 >= 0
        && value is Str && value->Str_0@.len() < int_member(schema, "minLength"@)->0 {
        Some("string must contain at least "@ + decimal(int_member(schema, "minLength"@)->0 as nat)
            + " characters"@)
    } else if int_member(schema, "minimum"@) is Some && value is Int && value->Int_0 < int_member(
        schema,
        "minimum"@,
    )->0 {
        Some("number must be >= "@ + signed_decimal(int_member(schema, "minimum"@)->0 as int))
    } else if int_member(schema, "maximum"@) is Some && value is Int && value->Int_0 > int_member(
        schema,
        "maximum"@,
    )->0 {
        Some("number must be <= "@ + signed_decimal(int_member(schema, "maximum"@)->0 as int))
    } else {
        None
    }
}

/// The first of the first `n` required names that `instance` lacks.
pub open spec fn missing_required(required: Seq<Json>, n: int, instance: Json) -> Option<
    Seq<char>,
>
    decreases n,
{
    if n <= 0 || n > required.len() {
        None
    } else if missing_required(required, n - 1, instance) is Some {
        missing_required(required, n - 1, instance)
    } else if required[n - 1] is Str && member(instance, required[n - 1]->Str_0@) is None {
        Some(required[n - 1]->Str_0@)
    } else {
        None
    }
}

/// Whether the schema declares property `name`.
pub open spec fn declares_property(schema: Json, name: Seq<char>) -> bool {
    member(schema, "properties"@) matches Some(Json::Object(ps)) && entry_index(ps@, name) >= 0
}

/// The first of the first `n` instance members that the schema does not
/// declare.
pub open spec fn undeclared_member(schema: Json, members: Seq<(String, Json)>, n: int) -> Option<
    Seq<char>,
>
    decreases n,
{
    if n <= 0 || n > members.len() {
        None
    } else if undeclared_member(schema, members, n - 1) is Some {
        undeclared_member(schema, members, n - 1)
    } else if !declares_property(schema, members[n - 1].0@) {
        Some(members[n - 1].0@)
    } else {
        None
    }
}

/// The first violation found in the members that the first `n` declared
/// properties describe.
pub open spec fn property_violation(
    props: Seq<(String, Json)>,
    n: int,
    instance: Json,
    path: Seq<char>,
) -> Option<(Seq<char>, Seq<char>)>
    decreases props, n,
{
    if n <= 0 || n > props.len() {
        None
    } else if property_violation(props, n - 1, instance, path) is Some {
        property_violation(props, n - 1, instance, path)
    } else if member(instance, props[n - 1].0@) is Some {
        violation(
            props[n - 1].1,
            member(instance, props[n - 1].0@)->0,
            path + seq!['.'] + path_segment(props[n - 1].0@),
        )
    } else {
        None
    }
}

/// The first violation among the first `n` array items.
pub open spec fn item_violation(
    item_schema: Json,
    items: Seq<Json>,
    n: int,
    path: Seq<char>,
) -> Option<(Seq<char>, Seq<char>)>
    decreases item_schema, n + 2,
{
    if n <= 0 || n > items.len() {
        None
    } else if item_violation(item_schema, items, n - 1, path) is Some {
        item_violation(item_schema, items, n - 1, path)
    } else {
        violation(item_schema, items[n - 1], path + seq!['['] + decimal((n - 1) as nat) + seq![']'])
    }
}

/// The violations that concern an object's members.
pub open spec fn object_violation(schema: Json, value: Json, path: Seq<char>) -> Option<
    (Seq<char>, Seq<char>),
>
    decreases schema, 1int,
{
    match value {
        Json::Object(inst) => {
            let missing = match member(schema, "required"@) {
                Some(Json::Array(rs)) => missing_required(rs@, rs@.len() as int, value),
                _ => None,
            };
            if missing is Some {
                Some((path, "missing required property "@ + missing->0))
            } else {
                let nested = match member(schema, "properties"@) {
                    Some(Json::Object(ps)) => {
                        proof {
                            lemma_member_decreases(schema, "properties"@);
                            let p = member(schema, "properties"@)->0;
                            assert(decreases_to!(p => p->Object_0));
                            assert(decreases_to!(ps => ps@));
                        }
                        property_violation(ps@, ps@.len() as int, value, path)
                    },
                    _ => None,
                };
                if nested is Some {
                    nested
                } else if member(schema, "additionalProperties"@) == Some(Json::Bool(false)) {
                    match undeclared_member(schema, inst@, inst@.len() as int) {
                        Some(name) => Some(
                            (
                                path + seq!['.'] + path_segment(name),
                                "additional property is not allowed"@,
                            ),
                        ),
                        None => None,
                    }
                } else {
                    None
                }
            }
        },
        _ => None,
    }
}

/// The first violation of `schema` by `value`, as (path, message).
pub open spec fn violation(schema: Json, value: Json, path: Seq<char>) -> Option<
    (Seq<char>, Seq<char>),
>
    decreases schema, 2int,
{
    match schema {
        Json::Bool(b) => if b {
            None
        } else {
            Some((path, "value rejected by false schema"@))
        },
        Json::Object(entries) => if entries@.len() == 0 {
            None
        } else if local_violation(schema, value) is Some {
            Some((path, local_violation(schema, value)->0))
        } else if object_violation(schema, value, path) is Some {
            object_violation(schema, value, path)
        } else {
            match (member(schema, "items"@), value) {
                (Some(item_schema), Json::Array(items)) => {
                    proof {
                        lemma_member_decreases(schema, "items"@);
                    }
                    item_violation(item_schema, items@, items@.len() as int, path)
                },
                _ => None,
            }
        },
        _ => Some((path, "invalid embedded schema"@)),
    }
}


fn text(s: &str) -> (r: String)
    ensures
        r@ == s@,
{
    String::from_str(s)
}

/// The type name of a value.
pub fn json_type(v: &Json) -> (r: String)
    ensures
        r@ == json_type_name(*v),
{
    match v {
        Json::Null => text("null"),
        Json::Bool(_) => text("boolean"),
        Json::Int(_) => text("integer"),
        Json::Str(_) => text("string"),
        Json::Array(_) => text("array"),
        Json::Object(_) => text("object"),
    }
}

pub fn matches_json_type(expected: &str, v: &Json) -> (r: bool)
    ensures
        r == type_name_matches(expected@, *v),
{
    if str_eq(expected, "object") {
        v.is_object()
    } else if str_eq(expected, "array") {
        v.as_array().is_some()
    } else if str_eq(expected, "string") {
        v.as_str().is_some()
    } else if str_eq(expected, "integer") || str_eq(expected, "number") {
        v.as_i64().is_some()
    } else if str_eq(expected, "boolean") {
        v.as_bool().is_some()
    } else if str_eq(expected, "null") {
        v.is_null()
    } else {
        false
    }
}

pub fn matches_declared_type(types: &Json, v: &Json) -> (r: bool)
    ensures
        r == declared_type_matches(*types, *v),
{
    match types {
        Json::Str(e) => matches_json_type(e.as_str(), v),
        Json::Array(ts) => {
            let mut i: usize = 0;
            while i < ts.len()
                invariant
                    i <= ts@.len(),
                    *types == Json::Array(*ts),
                    forall|k: int|
                        0 <= k < i ==> !((#[trigger] ts@[k]) is Str && type_name_matches(
                            ts@[k]->Str_0@,
                            *v,
                        )),
                decreases ts@.len() - i,
            {
                if let Json::Str(e) = &ts[i] {
                    if matches_json_type(e.as_str(), v) {
                        assert(ts@[i as int] is Str);
                        return true;
                    }
                }
                i = i + 1;
            }
            false
        },
        _ => false,
    }
}

pub fn is_plain_path_name(name: &str) -> (r: bool)
    ensures
        r == is_plain_name(name@),
{
    let n = name.unicode_len();
    let mut i: usize = 0;
    while i < n
        invariant
            n == name@.len(),
            i <= n,
            forall|k: int|
                0 <= k < i ==> {
                    let c = #[trigger] name@[k];
                    ('a' <= c && c <= 'z') || ('A' <= c && c <= 'Z') || ('0' <= c && c <= '9')
                        || c == '_'
                },
        decreases n - i,
    {
        let c = name.get_char(i);
        if !(('a' <= c && c <= 'z') || ('A' <= c && c <= 'Z') || ('0' <= c && c <= '9') || c
            == '_') {
            return false;
        }
        i = i + 1;
    }
    true
}

/// How a property name appears in a path.
pub fn escape_path(name: &str) -> (r: String)
    ensures
        r@ == path_segment(name@),
{
    if is_plain_path_name(name) {
        text(name)
    } else {
        let q = quote(name);
        proof {
            reveal_strlit("[");
            reveal_strlit("]");
        }
        let r = text("[").concat(q.as_str()).concat("]");
        assert(r@ =~= seq!['['] + quoted(name@) + seq![']']);
        r
    }
}

fn int_member_exec(j: &Json, key: &str) -> (r: Option<i64>)
    ensures
        r == int_member(*j, key@),
{
    match j.get(key) {
        Some(Json::Int(n)) => Some(*n),
        _ => None,
    }
}

fn any_same(vals: &Vec<Json>, value: &Json) -> (r: bool)
    ensures
        r == exists|i: int| 0 <= i < vals@.len() && same(#[trigger] vals@[i], *value),
{
    let mut i: usize = 0;
    while i < vals.len()
        invariant
            i <= vals@.len(),
            forall|k: int| 0 <= k < i ==> !same(#[trigger] vals@[k], *value),
        decreases vals@.len() - i,
    {
        if json_same(&vals[i], value) {
            return true;
        }
        i = i + 1;
    }
    false
}

/// The message of the first failing value-only check.
fn local_check(schema: &Json, value: &Json) -> (r: Option<String>)
    ensures
        r is Some <==> local_violation(*schema, *value) is Some,
        r matches Some(m) ==> m@ == local_violation(*schema, *value)->0,
{
    if let Some(expected) = schema.get("const") {
        if !json_same(value, expected) {
            let shown = to_compact(expected);
            return Some(text("expected constant ").concat(shown.as_str()));
        }
    }
    if let Some(Json::Array(vals)) = schema.get("enum") {
        if !any_same(vals, value) {
            return Some(text("value is not one of the allowed enum values"));
        }
    }
    if let Some(types) = schema.get("type") {
        if !matches_declared_type(types, value) {
            let shown = to_compact(types);
            let got = json_type(value);
            return Some(
                text("expected type ").concat(shown.as_str()).concat(", got ").concat(got.as_str()),
            );
        }
    }
    if let Some(m) = int_member_exec(schema, "minLength") {
        if m >= 0 {
            if let Json::Str(t) = value {
                if (t.as_str().unicode_len() as u64) < (m as u64) {
                    let shown = u64_to_decimal(m as u64);
                    return Some(
                        text("string must contain at least ").concat(shown.as_str()).concat(
                            " characters",
                        ),
                    );
                }
            }
        }
    }
    if let Some(m) = int_member_exec(schema, "minimum") {
        if let Json::Int(n) = value {
            if *n < m {
                let shown = i64_to_decimal(m);
                return Some(text("number must be >= ").concat(shown.as_str()));
            }
        }
    }
    if let Some(m) = int_member_exec(schema, "maximum") {
        if let Json::Int(n) = value {
            if *n > m {
                let shown = i64_to_decimal(m);
                return Some(text("number must be <= ").concat(shown.as_str()));
            }
        }
    }
    None
}

fn first_missing(required: &Vec<Json>, instance: &Json) -> (r: Option<String>)
    ensures
        r is Some <==> missing_required(required@, required@.len() as int, *instance) is Some,
        r matches Some(m) ==> m@ == missing_required(required@, required@.len() as int, *instance)->0,
{
    let mut i: usize = 0;
    while i < required.len()
        invariant
            i <= required@.len(),
            missing_required(required@, i as int, *instance) is None,
        decreases required@.len() - i,
    {
        if let Json::Str(name) = &required[i] {
            if instance.get(name.as_str()).is_none() {
                let r = name.clone();
                proof {
                    assert(missing_required(required@, i + 1, *instance) == Some(name@));
                    lemma_missing_required_stable(required@, i + 1, required@.len() as int, *instance);
                }
                return Some(r);
            }
        }
        i = i + 1;
    }
    None
}

proof fn lemma_missing_required_stable(required: Seq<Json>, n: int, m: int, instance: Json)
    requires
        0 < n <= m <= required.len(),
        missing_required(required, n, instance) is Some,
    ensures
        missing_required(required, m, instance) == missing_required(required, n, instance),
    decreases m - n,
{
    if m > n {
        lemma_missing_required_stable(required, n, m - 1, instance);
    }
}

proof fn lemma_undeclared_stable(schema: Json, members: Seq<(String, Json)>, n: int, m: int)
    requires
        0 < n <= m <= members.len(),
        undeclared_member(schema, members, n) is Some,
    ensures
        undeclared_member(schema, members, m) == undeclared_member(schema, members, n),
    decreases m - n,
{
    if m > n {
        lemma_undeclared_stable(schema, members, n, m - 1);
    }
}

proof fn lemma_property_stable(props: Seq<(String, Json)>, n: int, m: int, instance: Json, path: Seq<char>)
    requires
        0 < n <= m <= props.len(),
        property_violation(props, n, instance, path) is Some,
    ensures
        property_violation(props, m, instance, path) == property_violation(props, n, instance, path),
    decreases m - n,
{
    if m > n {
        lemma_property_stable(props, n, m - 1, instance, path);
    }
}

proof fn lemma_item_stable(item_schema: Json, items: Seq<Json>, n: int, m: int, path: Seq<char>)
    requires
        0 < n <= m <= items.len(),
        item_violation(item_schema, items, n, path) is Some,
    ensures
        item_violation(item_schema, items, m, path) == item_violation(item_schema, items, n, path),
    decreases m - n,
{
    if m > n {
        lemma_item_stable(item_schema, items, n, m - 1, path);
    }
}

fn declares_property_exec(schema: &Json, name: &str) -> (r: bool)
    ensures
        r == declares_property(*schema, name@),
{
    match schema.get("properties") {
        Some(p) => {
            if p.is_object() {
                let found = p.get(name).is_some();
                proof {
                    lemma_entry_index(p->Object_0@, name@);
                }
                found
            } else {
                false
            }
        },
        None => false,
    }
}

fn first_undeclared(schema: &Json, members: &Vec<(String, Json)>) -> (r: Option<String>)
    ensures
        r is Some <==> undeclared_member(*schema, members@, members@.len() as int) is Some,
        r matches Some(m) ==> m@ == undeclared_member(*schema, members@, members@.len() as int)->0,
{
    let mut i: usize = 0;
    while i < members.len()
        invariant
            i <= members@.len(),
            undeclared_member(*schema, members@, i as int) is None,
        decreases members@.len() - i,
    {
        if !declares_property_exec(schema, members[i].0.as_str()) {
            let r = members[i].0.clone();
            proof {
                assert(undeclared_member(*schema, members@, i + 1) == Some(members@[i as int].0@));
                lemma_undeclared_stable(*schema, members@, i + 1, members@.len() as int);
            }
            return Some(r);
        }
        i = i + 1;
    }
    None
}

fn member_path(path: &str, name: &str) -> (r: String)
    ensures
        r@ == path@ + seq!['.'] + path_segment(name@),
{
    let seg = escape_path(name);
    proof {
        reveal_strlit(".");
    }
    let r = text(path).concat(".").concat(seg.as_str());
    assert(r@ =~= path@ + seq!['.'] + path_segment(name@));
    r
}

fn index_path(path: &str, index: usize) -> (r: String)
    ensures
        r@ == path@ + seq!['['] + decimal(index as nat) + seq![']'],
{
    let shown = u64_to_decimal(index as u64);
    proof {
        reveal_strlit("[");
        reveal_strlit("]");
    }
    let r = text(path).concat("[").concat(shown.as_str()).concat("]");
    assert(r@ =~= path@ + seq!['['] + decimal(index as nat) + seq![']']);
    r
}

fn check_object(schema: &Json, value: &Json, path: &str) -> (r: Result<(), ValidationError>)
    ensures
        r is Ok <==> object_violation(*schema, *value, path@) is None,
        r matches Err(e) ==> object_violation(*schema, *value, path@) == Some((e.path@, e.message@)),
    decreases *schema, 1int,
{
    let inst = match value {
        Json::Object(inst) => inst,
        _ => {
            return Ok(());
        },
    };
    if let Some(Json::Array(rs)) = schema.get("required") {
        if let Some(name) = first_missing(rs, value) {
            return Err(
                ValidationError {
                    path: text(path),
                    message: text("missing required property ").concat(name.as_str()),
                },
            );
        }
    }
    let props_member = schema.get("properties");
    if let Some(p) = props_member {
        if let Json::Object(ps) = p {
            let mut i: usize = 0;
            while i < ps.len()
                invariant
                    i <= ps@.len(),
                    member(*schema, "properties"@) == Some(*p),
                    *p == Json::Object(*ps),
                    *value == Json::Object(*inst),
                    (match member(*schema, "required"@) {
                        Some(Json::Array(rs)) => missing_required(rs@, rs@.len() as int, *value),
                        _ => None,
                    }) is None,
                    property_violation(ps@, i as int, *value, path@) is None,
                decreases ps@.len() - i,
            {
                if let Some(child) = value.get(ps[i].0.as_str()) {
                    proof {
                        lemma_member_decreases(*schema, "properties"@);
                        assert(decreases_to!(*p => p->Object_0));
                        assert(decreases_to!(*ps => ps@));
                        assert(decreases_to!(ps@ => ps@[i as int]));
                        assert(decreases_to!(ps@[i as int] => ps@[i as int].1));
                    }
                    let child_path = member_path(path, ps[i].0.as_str());
                    match validate_value_at(&ps[i].1, child, child_path.as_str()) {
                        Ok(()) => {},
                        Err(e) => {
                            proof {
                                lemma_property_stable(ps@, i + 1, ps@.len() as int, *value, path@);
                            }
                            return Err(e);
                        },
                    }
                }
                i = i + 1;
            }
        }
    }
    if let Some(Json::Bool(false)) = schema.get("additionalProperties") {
        if let Some(name) = first_undeclared(schema, inst) {
            return Err(
                ValidationError {
                    path: member_path(path, name.as_str()),
                    message: text("additional property is not allowed"),
                },
            );
        }
    }
    Ok(())
}

/// Validates `value` against `schema` at the JSON path `path`.
pub fn validate_value_at(schema: &Json, value: &Json, path: &str) -> (r: Result<(), ValidationError>)
    ensures
        r is Ok <==> violation(*schema, *value, path@) is None,
        r matches Err(e) ==> violation(*schema, *value, path@) == Some((e.path@, e.message@)),
    decreases *schema, 2int,
{
    match schema {
        Json::Bool(true) => {
            return Ok(());
        },
        Json::Bool(false) => {
            return Err(
                ValidationError { path: text(path), message: text("value rejected by false schema") },
            );
        },
        Json::Object(entries) => {
            if entries.len() == 0 {
                return Ok(());
            }
        },
        _ => {
            return Err(
                ValidationError { path: text(path), message: text("invalid embedded schema") },
            );
        },
    }
    if let Some(message) = local_check(schema, value) {
        return Err(ValidationError { path: text(path), message });
    }
    check_object(schema, value, path)?;
    if let Some(item_schema) = schema.get("items") {
        if let Json::Array(items) = value {
            proof {
                lemma_member_decreases(*schema, "items"@);
            }
            let mut i: usize = 0;
            while i < items.len()
                invariant
                    i <= items@.len(),
                    member(*schema, "items"@) == Some(*item_schema),
                    decreases_to!(*schema => *item_schema),
                    *value == Json::Array(*items),
                    *schema is Object,
                    schema->Object_0@.len() > 0,
                    local_violation(*schema, *value) is None,
                    object_violation(*schema, *value, path@) is None,
                    item_violation(*item_schema, items@, i as int, path@) is None,
                decreases items@.len() - i,
            {
                let item_path = index_path(path, i);
                match validate_value_at(item_schema, &items[i], item_path.as_str()) {
                    Ok(()) => {},
                    Err(e) => {
                        proof {
                            lemma_item_stable(*item_schema, items@, i + 1, items@.len() as int, path@);
                        }
                        return Err(e);
                    },
                }
                i = i + 1;
            }
        }
    }
    Ok(())
}

/// Validates `value` against `schema`; paths start at `$`.
pub fn validate_value(schema: &Json, value: &Json) -> (r: Result<(), ValidationError>)
    ensures
        r is Ok <==> violation(*schema, *value, "$"@) is None,
        r matches Err(e) ==> violation(*schema, *value, "$"@) == Some((e.path@, e.message@)),
{
    validate_value_at(schema, value, "$")
}


/// The keywords that command schemas may use.
pub open spec fn is_supported_keyword(k: Seq<char>) -> bool {
    k == "$schema"@ || k == "title"@ || k == "description"@ || k == "type"@ || k
        == "properties"@ || k == "required"@ || k == "additionalProperties"@ || k == "items"@ || k
        == "enum"@ || k == "const"@ || k == "minLength"@ || k == "minimum"@ || k == "maximum"@
}

/// The JSON type names that a `type` keyword may name.
pub open spec fn is_supported_type(t: Seq<char>) -> bool {
    t == "object"@ || t == "array"@ || t == "string"@ || t == "integer"@ || t == "number"@ || t
        == "boolean"@ || t == "null"@
}

/// The first of the first `n` keywords that is not supported.
pub open spec fn unsupported_keyword(entries: Seq<(String, Json)>, n: int) -> Option<Seq<char>>
    decreases n,
{
    if n <= 0 || n > entries.len() {
        None
    } else if unsupported_keyword(entries, n - 1) is Some {
        unsupported_keyword(entries, n - 1)
    } else if !is_supported_keyword(entries[n - 1].0@) {
        Some(entries[n - 1].0@)
    } else {
        None
    }
}

/// What is wrong with a `type` declaration at `path`.
pub open spec fn type_declaration_error(types: Json, path: Seq<char>) -> Option<Seq<char>> {
    match types {
        Json::Str(t) => if is_supported_type(t@) {
            None
        } else {
            Some(path + ".type contains an unsupported JSON type"@)
        },
        Json::Array(ts) => if ts@.len() == 0 || exists|i: int|
            0 <= i < ts@.len() && !((#[trigger] ts@[i]) is Str && is_supported_type(
                ts@[i]->Str_0@,
            )) {
            Some(path + ".type contains an unsupported JSON type"@)
        } else {
            None
        },
        _ => Some(path + ".type must be a string or array of strings"@),
    }
}

/// The first problem among the first `n` entries of a `required` list.
pub open spec fn required_list_error(vals: Seq<Json>, n: int, path: Seq<char>) -> Option<Seq<char>>
    decreases n,
{
    if n <= 0 || n > vals.len() {
        None
    } else if required_list_error(vals, n - 1, path) is Some {
        required_list_error(vals, n - 1, path)
    } else if !(vals[n - 1] is Str) {
        Some(path + ".required entries must be strings"@)
    } else if exists|j: int|
        0 <= j < n - 1 && (#[trigger] vals[j]) is Str && vals[j]->Str_0@ == vals[n - 1]->Str_0@ {
        Some(path + ".required contains duplicate "@ + vals[n - 1]->Str_0@)
    } else {
        None
    }
}

/// The first problem among the schemas of the first `n` declared properties.
pub open spec fn property_definition_error(
    props: Seq<(String, Json)>,
    n: int,
    path: Seq<char>,
) -> Option<Seq<char>>
    decreases props, n,
{
    if n <= 0 || n > props.len() {
        None
    } else if property_definition_error(props, n - 1, path) is Some {
        property_definition_error(props, n - 1, path)
    } else {
        definition_error(props[n - 1].1, path + ".properties."@ + props[n - 1].0@)
    }
}

/// Why `schema` is not a supported schema definition, checking in order:
/// shape, keywords, `type`, `properties`, `required`, `additionalProperties`,
/// `items`, `enum`, `minLength`, `minimum`, `maximum`.
pub open spec fn definition_error(schema: Json, path: Seq<char>) -> Option<Seq<char>>
    decreases schema, 0int,
{
    match schema {
        Json::Bool(_) => None,
        Json::Object(entries) => {
            let bad = unsupported_keyword(entries@, entries@.len() as int);
            if bad is Some {
                Some(path + " uses unsupported JSON Schema keyword "@ + bad->0)
            } else {
                let e_type = match member(schema, "type"@) {
                    Some(t) => type_declaration_error(t, path),
                    None => None,
                };
                if e_type is Some {
                    e_type
                } else {
                    let e_props = match member(schema, "properties"@) {
                        Some(Json::Object(ps)) => {
                            proof {
                                lemma_member_decreases(schema, "properties"@);
                                let p = member(schema, "properties"@)->0;
                                assert(decreases_to!(p => p->Object_0));
                                assert(decreases_to!(ps => ps@));
                            }
                            property_definition_error(ps@, ps@.len() as int, path)
                        },
                        Some(_) => Some(path + ".properties must be an object"@),
                        None => None,
                    };
                    if e_props is Some {
                        e_props
                    } else {
                        let e_req = match member(schema, "required"@) {
                            Some(Json::Array(rs)) => required_list_error(
                                rs@,
                                rs@.len() as int,
                                path,
                            ),
                            Some(_) => Some(path + ".required must be an array"@),
                            None => None,
                        };
                        if e_req is Some {
                            e_req
                        } else if member(schema, "additionalProperties"@) is Some && !(member(
                            schema,
                            "additionalProperties"@,
                        )->0 is Bool) {
                            Some(
                                path
                                    + ".additionalProperties must be boolean in RELAY registry v1"@,
                            )
                        } else {
                            let e_items = match member(schema, "items"@) {
                                Some(it) => {
                                    proof {
                                        lemma_member_decreases(schema, "items"@);
                                    }
                                    definition_error(it, path + ".items"@)
                                },
                                None => None,
                            };
                            if e_items is Some {
                                e_items
                            } else {
                                scalar_keyword_error(schema, path)
                            }
                        }
                    }
                }
            }
        },
        _ => Some(path + " schema must be an object or boolean"@),
    }
}

/// The checks on `enum`, `minLength`, `minimum` and `maximum`.
pub open spec fn scalar_keyword_error(schema: Json, path: Seq<char>) -> Option<Seq<char>> {
    if member(schema, "enum"@) is Some && !(member(schema, "enum"@)->0 is Array) {
        Some(path + ".enum must be an array"@)
    } else if member(schema, "minLength"@) is Some && !(member(schema, "minLength"@)->0 is Int
        && member(schema, "minLength"@)->0->Int_0 >= 0) {
        Some(path + ".minLength must be a non-negative integer"@)
    } else if member(schema, "minimum"@) is Some && !(member(schema, "minimum"@)->0 is Int) {
        Some(path + ".minimum must be numeric"@)
    } else if member(schema, "maximum"@) is Some && !(member(schema, "maximum"@)->0 is Int) {
        Some(path + ".maximum must be numeric"@)
    } else {
        None
    }
}

fn is_supported_keyword_exec(k: &str) -> (r: bool)
    ensures
        r == is_supported_keyword(k@),
{
    str_eq(k, "$schema") || str_eq(k, "title") || str_eq(k, "description") || str_eq(k, "type")
        || str_eq(k, "properties") || str_eq(k, "required") || str_eq(k, "additionalProperties")
        || str_eq(k, "items") || str_eq(k, "enum") || str_eq(k, "const") || str_eq(k, "minLength")
        || str_eq(k, "minimum") || str_eq(k, "maximum")
}

fn is_supported_type_exec(t: &str) -> (r: bool)
    ensures
        r == is_supported_type(t@),
{
    str_eq(t, "object") || str_eq(t, "array") || str_eq(t, "string") || str_eq(t, "integer")
        || str_eq(t, "number") || str_eq(t, "boolean") || str_eq(t, "null")
}

/// Checks a `type` declaration.
pub fn validate_type_declaration(types: &Json, path: &str) -> (r: Result<(), String>)
    ensures
        r is Ok <==> type_declaration_error(*types, path@) is None,
        r matches Err(m) ==> type_declaration_error(*types, path@) == Some(m@),
{
    match types {
        Json::Str(t) => {
            if is_supported_type_exec(t.as_str()) {
                Ok(())
            } else {
                Err(text(path).concat(".type contains an unsupported JSON type"))
            }
        },
        Json::Array(ts) => {
            if ts.len() == 0 {
                return Err(text(path).concat(".type contains an unsupported JSON type"));
            }
            let mut i: usize = 0;
            while i < ts.len()
                invariant
                    i <= ts@.len(),
                    *types == Json::Array(*ts),
                    forall|k: int|
                        0 <= k < i ==> (#[trigger] ts@[k]) is Str && is_supported_type(
                            ts@[k]->Str_0@,
                        ),
                decreases ts@.len() - i,
            {
                let fine = match &ts[i] {
                    Json::Str(t) => is_supported_type_exec(t.as_str()),
                    _ => false,
                };
                if !fine {
                    return Err(text(path).concat(".type contains an unsupported JSON type"));
                }
                i = i + 1;
            }
            Ok(())
        },
        _ => Err(text(path).concat(".type must be a string or array of strings")),
    }
}

proof fn lemma_required_list_stable(vals: Seq<Json>, n: int, m: int, path: Seq<char>)
    requires
        0 < n <= m <= vals.len(),
        required_list_error(vals, n, path) is Some,
    ensures
        required_list_error(vals, m, path) == required_list_error(vals, n, path),
    decreases m - n,
{
    if m > n {
        lemma_required_list_stable(vals, n, m - 1, path);
    }
}

proof fn lemma_keyword_stable(entries: Seq<(String, Json)>, n: int, m: int)
    requires
        0 < n <= m <= entries.len(),
        unsupported_keyword(entries, n) is Some,
    ensures
        unsupported_keyword(entries, m) == unsupported_keyword(entries, n),
    decreases m - n,
{
    if m > n {
        lemma_keyword_stable(entries, n, m - 1);
    }
}

proof fn lemma_property_definition_stable(
    props: Seq<(String, Json)>,
    n: int,
    m: int,
    path: Seq<char>,
)
    requires
        0 < n <= m <= props.len(),
        property_definition_error(props, n, path) is Some,
    ensures
        property_definition_error(props, m, path) == property_definition_error(props, n, path),
    decreases m - n,
{
    if m > n {
        lemma_property_definition_stable(props, n, m - 1, path);
    }
}

fn check_required_list(vals: &Vec<Json>, path: &str) -> (r: Result<(), String>)
    ensures
        r is Ok <==> required_list_error(vals@, vals@.len() as int, path@) is None,
        r matches Err(m) ==> required_list_error(vals@, vals@.len() as int, path@) == Some(m@),
{
    let mut seen = crate::collections::StrSet::new();
    let mut i: usize = 0;
    while i < vals.len()
        invariant
            i <= vals@.len(),
            required_list_error(vals@, i as int, path@) is None,
            forall|j: int| 0 <= j < i ==> (#[trigger] vals@[j]) is Str,
            forall|x: Seq<char>|
                seen.set().contains(x) <==> exists|j: int|
                    0 <= j < i && (#[trigger] vals@[j]) is Str && vals@[j]->Str_0@ == x,
        decreases vals@.len() - i,
    {
        match &vals[i] {
            Json::Str(name) => {
                if seen.contains(name.as_str()) {
                    proof {
                        lemma_required_list_stable(vals@, i + 1, vals@.len() as int, path@);
                    }
                    return Err(text(path).concat(".required contains duplicate ").concat(
                        name.as_str(),
                    ));
                }
                seen.insert(name.clone());
                proof {
                    assert forall|x: Seq<char>|
                        seen.set().contains(x) <==> exists|j: int|
                            0 <= j < i + 1 && (#[trigger] vals@[j]) is Str && vals@[j]->Str_0@
                                == x by {
                        if x == name@ {
                            assert(vals@[i as int] is Str);
                        }
                    }
                }
            },
            _ => {
                proof {
                    lemma_required_list_stable(vals@, i + 1, vals@.len() as int, path@);
                }
                return Err(text(path).concat(".required entries must be strings"));
            },
        }
        i = i + 1;
    }
    Ok(())
}

fn check_scalar_keywords(schema: &Json, path: &str) -> (r: Result<(), String>)
    ensures
        r is Ok <==> scalar_keyword_error(*schema, path@) is None,
        r matches Err(m) ==> scalar_keyword_error(*schema, path@) == Some(m@),
{
    if let Some(e) = schema.get("enum") {
        if e.as_array().is_none() {
            return Err(text(path).concat(".enum must be an array"));
        }
    }
    if let Some(m) = schema.get("minLength") {
        if m.as_u64().is_none() {
            return Err(text(path).concat(".minLength must be a non-negative integer"));
        }
    }
    if let Some(m) = schema.get("minimum") {
        if m.as_i64().is_none() {
            return Err(text(path).concat(".minimum must be numeric"));
        }
    }
    if let Some(m) = schema.get("maximum") {
        if m.as_i64().is_none() {
            return Err(text(path).concat(".maximum must be numeric"));
        }
    }
    Ok(())
}

/// Checks that `schema` uses only the supported schema subset.
pub fn validate_schema_definition(schema: &Json, path: &str) -> (r: Result<(), String>)
    ensures
        r is Ok <==> definition_error(*schema, path@) is None,
        r matches Err(m) ==> definition_error(*schema, path@) == Some(m@),
    decreases *schema, 0int,
{
    let entries = match schema {
        Json::Bool(_) => {
            return Ok(());
        },
        Json::Object(entries) => entries,
        _ => {
            return Err(text(path).concat(" schema must be an object or boolean"));
        },
    };
    let mut i: usize = 0;
    while i < entries.len()
        invariant
            i <= entries@.len(),
            *schema == Json::Object(*entries),
            unsupported_keyword(entries@, i as int) is None,
        decreases entries@.len() - i,
    {
        if !is_supported_keyword_exec(entries[i].0.as_str()) {
            proof {
                lemma_keyword_stable(entries@, i + 1, entries@.len() as int);
            }
            return Err(text(path).concat(" uses unsupported JSON Schema keyword ").concat(
                entries[i].0.as_str(),
            ));
        }
        i = i + 1;
    }
    if let Some(t) = schema.get("type") {
        validate_type_declaration(t, path)?;
    }
    if let Some(p) = schema.get("properties") {
        match p {
            Json::Object(ps) => {
                let mut k: usize = 0;
                while k < ps.len()
                    invariant
                        k <= ps@.len(),
                        member(*schema, "properties"@) == Some(*p),
                        *p == Json::Object(*ps),
                        *schema == Json::Object(*entries),
                        unsupported_keyword(entries@, entries@.len() as int) is None,
                        (match member(*schema, "type"@) {
                            Some(t) => type_declaration_error(t, path@),
                            None => None,
                        }) is None,
                        property_definition_error(ps@, k as int, path@) is None,
                    decreases ps@.len() - k,
                {
                    proof {
                        lemma_member_decreases(*schema, "properties"@);
                        assert(decreases_to!(*p => p->Object_0));
                        assert(decreases_to!(*ps => ps@));
                        assert(decreases_to!(ps@ => ps@[k as int]));
                        assert(decreases_to!(ps@[k as int] => ps@[k as int].1));
                    }
                    let child_path = text(path).concat(".properties.").concat(ps[k].0.as_str());
                    match validate_schema_definition(&ps[k].1, child_path.as_str()) {
                        Ok(()) => {},
                        Err(m) => {
                            proof {
                                lemma_property_definition_stable(
                                    ps@,
                                    k + 1,
                                    ps@.len() as int,
                                    path@,
                                );
                            }
                            return Err(m);
                        },
                    }
                    k = k + 1;
                }
            },
            _ => {
                return Err(text(path).concat(".properties must be an object"));
            },
        }
    }
    if let Some(rq) = schema.get("required") {
        match rq {
            Json::Array(vals) => {
                check_required_list(vals, path)?;
            },
            _ => {
                return Err(text(path).concat(".required must be an array"));
            },
        }
    }
    if let Some(a) = schema.get("additionalProperties") {
        if a.as_bool().is_none() {
            return Err(text(path).concat(
                ".additionalProperties must be boolean in RELAY registry v1",
            ));
        }
    }
    if let Some(it) = schema.get("items") {
        proof {
            lemma_member_decreases(*schema, "items"@);
        }
        let child_path = text(path).concat(".items");
        validate_schema_definition(it, child_path.as_str())?;
    }
    check_scalar_keywords(schema, path)
}

/// A value that validates meets the checks of its schema that look at it
/// alone: an integer lies within the schema's `minimum` and `maximum`, a
/// string is at least `minLength` characters long, the value equals the
/// schema's `const` and is one of its `enum` values.
pub proof fn law_local_keywords_are_enforced(schema: Json, value: Json, path: Seq<char>)
    requires
        violation(schema, value, path) is None,
    ensures
        value is Int && int_member(schema, "maximum"@) is Some ==> value->Int_0 <= int_member(
            schema,
            "maximum"@,
        )->0,
        value is Int && int_member(schema, "minimum"@) is Some ==> value->Int_0 >= int_member(
            schema,
            "minimum"@,
        )->0,
        value is Str && int_member(schema, "minLength"@) is Some ==> value->Str_0@.len() >= int_member(
            schema,
            "minLength"@,
        )->0,
        member(schema, "const"@) is Some ==> same(value, member(schema, "const"@)->0),
        member(schema, "enum"@) matches Some(Json::Array(vals)) ==> exists|i: int|
            0 <= i < vals@.len() && same(#[trigger] vals@[i], value),
{
    if member(schema, "const"@) is Some || member(schema, "enum"@) is Some || int_member(schema, "minLength"@) is Some {
        assert(schema is Object);
        assert(schema->Object_0@.len() > 0);
        assert(local_violation(schema, value) is None);
    }
    if value is Int && (int_member(schema, "maximum"@) is Some || int_member(schema, "minimum"@) is Some) {
        assert(schema is Object);
        assert(schema->Object_0@.len() > 0);
        assert(local_violation(schema, value) is None);
        let n = value->Int_0;
        if int_member(schema, "maximum"@) is Some {
            assert(n <= int_member(schema, "maximum"@)->0);
        }
        if int_member(schema, "minimum"@) is Some {
            assert(n >= int_member(schema, "minimum"@)->0);
        }
    }
}

} // verus!
