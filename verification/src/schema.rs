//! The accepted subset of JSON Schema 2020-12 and its compiled form.
use vstd::prelude::*;
use crate::codes::{Diagnostic, BrokerErrorCode, MAX_SCHEMA_DEPTH, MAX_ARRAY_ITEMS, MAX_PATTERN_BYTES, MAX_PATTERN_COMPILED_BYTES, reported_at, reports_problem};
use crate::json::{entry_keys, json_wf, JsonValue, JsonNumber, lookup, find_key, has_key, key_at, get_key, contains_key,
    find_key_index, lemma_key_at_unique, fits_i64, number_fits_i64, json_eq, schema_values_equal, json_same, number_same,
    clone_number, clone_value, canonical_of, canonical_copy};
use crate::numeric::{num_scaled, numeric_compare, NumOrder};
use crate::pattern::{CompiledPattern, compile_pattern, regex_compiles};
use crate::order::strictly_sorted;
use crate::text::{str_eq, join_path, join_key, join_index, escape_seq, utf8_len, decimal};

verus! {

/// The JSON type a schema node accepts.
#[derive(Clone, Copy, Debug, PartialEq, Eq, Structural)]
pub enum SchemaKind {
    Object,
    Array,
    String,
    Integer,
    Number,
    Boolean,
    Null,
}

/// A schema node after adoption.  Object properties are held in key order and
/// all of them are required; `required` lists their names in that order.
pub struct CompiledSchema {
    pub kind: SchemaKind,
    pub properties: Vec<(String, CompiledSchema)>,
    pub items: Option<Box<CompiledSchema>>,
    pub required: Vec<String>,
    pub min_items: Option<usize>,
    pub max_items: Option<usize>,
    pub unique_items: bool,
    pub min_length: Option<usize>,
    pub max_length: Option<usize>,
    pub minimum: Option<JsonNumber>,
    pub maximum: Option<JsonNumber>,
    pub enum_values: Vec<JsonValue>,
    pub pattern: Option<CompiledPattern>,
    /// The schema as the catalog publishes it.
    pub public_json: JsonValue,
}

pub open spec fn kind_named(s: Seq<char>) -> Option<SchemaKind> {
    if s == "object"@ {
        Some(SchemaKind::Object)
    } else if s == "array"@ {
        Some(SchemaKind::Array)
    } else if s == "string"@ {
        Some(SchemaKind::String)
    } else if s == "integer"@ {
        Some(SchemaKind::Integer)
    } else if s == "number"@ {
        Some(SchemaKind::Number)
    } else if s == "boolean"@ {
        Some(SchemaKind::Boolean)
    } else if s == "null"@ {
        Some(SchemaKind::Null)
    } else {
        None
    }
}

fn kind_from_name(s: &str) -> (r: Option<SchemaKind>)
    ensures
        r == kind_named(s@),
{
    if str_eq(s, "object") {
        Some(SchemaKind::Object)
    } else if str_eq(s, "array") {
        Some(SchemaKind::Array)
    } else if str_eq(s, "string") {
        Some(SchemaKind::String)
    } else if str_eq(s, "integer") {
        Some(SchemaKind::Integer)
    } else if str_eq(s, "number") {
        Some(SchemaKind::Number)
    } else if str_eq(s, "boolean") {
        Some(SchemaKind::Boolean)
    } else if str_eq(s, "null") {
        Some(SchemaKind::Null)
    } else {
        None
    }
}

/// The keywords of the accepted subset.
pub open spec fn is_schema_keyword(k: Seq<char>) -> bool {
    ||| k == "type"@
    ||| k == "properties"@
    ||| k == "required"@
    ||| k == "additionalProperties"@
    ||| k == "items"@
    ||| k == "minItems"@
    ||| k == "maxItems"@
    ||| k == "uniqueItems"@
    ||| k == "enum"@
    ||| k == "minimum"@
    ||| k == "maximum"@
    ||| k == "minLength"@
    ||| k == "maxLength"@
    ||| k == "pattern"@
}

fn is_keyword(k: &str) -> (r: bool)
    ensures
        r == is_schema_keyword(k@),
{
    str_eq(k, "type") || str_eq(k, "properties") || str_eq(k, "required")
        || str_eq(k, "additionalProperties") || str_eq(k, "items") || str_eq(k, "minItems")
        || str_eq(k, "maxItems") || str_eq(k, "uniqueItems") || str_eq(k, "enum")
        || str_eq(k, "minimum") || str_eq(k, "maximum") || str_eq(k, "minLength")
        || str_eq(k, "maxLength") || str_eq(k, "pattern")
}

/// The kind that the `type` keyword of the entries `o` names.
pub open spec fn entry_kind(o: Seq<(String, JsonValue)>) -> Option<SchemaKind> {
    match lookup(o, "type"@) {
        Some(JsonValue::Str(s)) => kind_named(s@),
        _ => None,
    }
}

/// Each keyword appears only with the kinds it applies to, and holds a value of
/// the right shape: objects are closed, `properties` is an object, `required`
/// an array, `items` a schema object and `uniqueItems` a boolean.
pub open spec fn keywords_applicable(o: Seq<(String, JsonValue)>, k: SchemaKind) -> bool {
    &&& k != SchemaKind::Object ==> !has_key(o, "properties"@) && !has_key(o, "required"@)
        && !has_key(o, "additionalProperties"@)
    &&& k != SchemaKind::Array ==> !has_key(o, "items"@) && !has_key(o, "minItems"@)
        && !has_key(o, "maxItems"@) && !has_key(o, "uniqueItems"@)
    &&& k != SchemaKind::String ==> !has_key(o, "minLength"@) && !has_key(o, "maxLength"@)
        && !has_key(o, "pattern"@)
    &&& k != SchemaKind::Integer && k != SchemaKind::Number ==> !has_key(o, "minimum"@)
        && !has_key(o, "maximum"@)
    &&& k == SchemaKind::Object ==> {
        &&& (lookup(o, "properties"@) matches Some(p) ==> p is Object)
        &&& (lookup(o, "required"@) matches Some(p) ==> p is Array)
        &&& lookup(o, "additionalProperties"@) == Some(JsonValue::Bool(false))
    }
    &&& k == SchemaKind::Array ==> {
        &&& (lookup(o, "items"@) matches Some(p) ==> p is Object)
        &&& (lookup(o, "uniqueItems"@) matches Some(p) ==> p is Bool)
    }
}

/// The first keyword of `o` that does not apply to kind `k`, or that holds a
/// value of the wrong shape, checked in a fixed order: the keyword as a field
/// of the schema, and the message.
pub open spec fn applicability_problem(o: Seq<(String, JsonValue)>, k: SchemaKind) -> Option<(Seq<char>, Seq<char>)> {
    let obj = "keyword is only valid for object schemas"@;
    let arr = "keyword is only valid for array schemas"@;
    let st = "keyword is only valid for string schemas"@;
    let num = "keyword is only valid for numeric schemas"@;
    let not_obj = k != SchemaKind::Object;
    let not_arr = k != SchemaKind::Array;
    let not_str = k != SchemaKind::String;
    let not_num = k != SchemaKind::Integer && k != SchemaKind::Number;
    if not_obj && has_key(o, "properties"@) {
        Some(("properties"@, obj))
    } else if not_obj && has_key(o, "required"@) {
        Some(("required"@, obj))
    } else if not_obj && has_key(o, "additionalProperties"@) {
        Some(("additionalProperties"@, obj))
    } else if not_arr && has_key(o, "items"@) {
        Some(("items"@, arr))
    } else if not_arr && has_key(o, "minItems"@) {
        Some(("minItems"@, arr))
    } else if not_arr && has_key(o, "maxItems"@) {
        Some(("maxItems"@, arr))
    } else if not_arr && has_key(o, "uniqueItems"@) {
        Some(("uniqueItems"@, arr))
    } else if not_str && has_key(o, "minLength"@) {
        Some(("minLength"@, st))
    } else if not_str && has_key(o, "maxLength"@) {
        Some(("maxLength"@, st))
    } else if not_str && has_key(o, "pattern"@) {
        Some(("pattern"@, st))
    } else if not_num && has_key(o, "minimum"@) {
        Some(("minimum"@, num))
    } else if not_num && has_key(o, "maximum"@) {
        Some(("maximum"@, num))
    } else if k == SchemaKind::Object && (lookup(o, "properties"@) matches Some(p) && !(p is Object)) {
        Some(("properties"@, "properties must be an object"@))
    } else if k == SchemaKind::Object && (lookup(o, "required"@) matches Some(p) && !(p is Array)) {
        Some(("required"@, "required must be an array"@))
    } else if k == SchemaKind::Object && lookup(o, "additionalProperties"@) != Some(JsonValue::Bool(false)) {
        Some(("additionalProperties"@, "must be false"@))
    } else if k == SchemaKind::Array && (lookup(o, "items"@) matches Some(p) && !(p is Object)) {
        Some(("items"@, "items must be a schema object"@))
    } else if k == SchemaKind::Array && (lookup(o, "uniqueItems"@) matches Some(p) && !(p is Bool)) {
        Some(("uniqueItems"@, "uniqueItems must be boolean"@))
    } else {
        None
    }
}

fn check_keyword_applicability(o: &Vec<(String, JsonValue)>, kind: SchemaKind, path: &str) -> (r: Result<(), Diagnostic>)
    ensures
        r is Ok <==> keywords_applicable(o@, kind),
        r is Ok <==> applicability_problem(o@, kind) is None,
        r matches Err(d) ==> reported_at(d, path@, applicability_problem(o@, kind)),
{
    if kind != SchemaKind::Object {
        if contains_key(o, "properties") {
            return Err(Diagnostic::invalid(join_path(path, "properties").as_str(), "keyword is only valid for object schemas"));
        }
        if contains_key(o, "required") {
            return Err(Diagnostic::invalid(join_path(path, "required").as_str(), "keyword is only valid for object schemas"));
        }
        if contains_key(o, "additionalProperties") {
            return Err(Diagnostic::invalid(join_path(path, "additionalProperties").as_str(), "keyword is only valid for object schemas"));
        }
    }
    if kind != SchemaKind::Array {
        if contains_key(o, "items") {
            return Err(Diagnostic::invalid(join_path(path, "items").as_str(), "keyword is only valid for array schemas"));
        }
        if contains_key(o, "minItems") {
            return Err(Diagnostic::invalid(join_path(path, "minItems").as_str(), "keyword is only valid for array schemas"));
        }
        if contains_key(o, "maxItems") {
            return Err(Diagnostic::invalid(join_path(path, "maxItems").as_str(), "keyword is only valid for array schemas"));
        }
        if contains_key(o, "uniqueItems") {
            return Err(Diagnostic::invalid(join_path(path, "uniqueItems").as_str(), "keyword is only valid for array schemas"));
        }
    }
    if kind != SchemaKind::String {
        if contains_key(o, "minLength") {
            return Err(Diagnostic::invalid(join_path(path, "minLength").as_str(), "keyword is only valid for string schemas"));
        }
        if contains_key(o, "maxLength") {
            return Err(Diagnostic::invalid(join_path(path, "maxLength").as_str(), "keyword is only valid for string schemas"));
        }
        if contains_key(o, "pattern") {
            return Err(Diagnostic::invalid(join_path(path, "pattern").as_str(), "keyword is only valid for string schemas"));
        }
    }
    if kind != SchemaKind::Integer && kind != SchemaKind::Number {
        if contains_key(o, "minimum") {
            return Err(Diagnostic::invalid(join_path(path, "minimum").as_str(), "keyword is only valid for numeric schemas"));
        }
        if contains_key(o, "maximum") {
            return Err(Diagnostic::invalid(join_path(path, "maximum").as_str(), "keyword is only valid for numeric schemas"));
        }
    }
    if kind == SchemaKind::Object {
        match get_key(o, "properties") {
            Some(JsonValue::Object(_)) => {},
            Some(_) => {
                return Err(Diagnostic::invalid(join_path(path, "properties").as_str(), "properties must be an object"));
            },
            None => {},
        }
        match get_key(o, "required") {
            Some(JsonValue::Array(_)) => {},
            Some(_) => {
                return Err(Diagnostic::invalid(join_path(path, "required").as_str(), "required must be an array"));
            },
            None => {},
        }
        match get_key(o, "additionalProperties") {
            Some(JsonValue::Bool(false)) => {},
            _ => {
                return Err(Diagnostic::invalid(join_path(path, "additionalProperties").as_str(), "must be false"));
            },
        }
    }
    if kind == SchemaKind::Array {
        match get_key(o, "items") {
            Some(JsonValue::Object(_)) => {},
            Some(_) => {
                return Err(Diagnostic::invalid(join_path(path, "items").as_str(), "items must be a schema object"));
            },
            None => {},
        }
        match get_key(o, "uniqueItems") {
            Some(JsonValue::Bool(_)) => {},
            Some(_) => {
                return Err(Diagnostic::invalid(join_path(path, "uniqueItems").as_str(), "uniqueItems must be boolean"));
            },
            None => {},
        }
    }
    Ok(())
}

} // verus!

verus! {

/// A keyword whose value must be a non-negative integer that fits `usize`.
pub open spec fn usize_keyword_ok(o: Seq<(String, JsonValue)>, name: Seq<char>) -> bool {
    match lookup(o, name) {
        None => true,
        Some(JsonValue::Number(JsonNumber::PosInt(n))) => n <= usize::MAX,
        _ => false,
    }
}

pub open spec fn usize_keyword(o: Seq<(String, JsonValue)>, name: Seq<char>) -> Option<usize> {
    match lookup(o, name) {
        Some(JsonValue::Number(JsonNumber::PosInt(n))) => Some(n as usize),
        _ => None,
    }
}

/// `a <= b` where both limits are present.
pub open spec fn limits_ordered(a: Option<usize>, b: Option<usize>) -> bool {
    match (a, b) {
        (Some(x), Some(y)) => x <= y,
        _ => true,
    }
}

pub open spec fn limit_at_most(a: Option<usize>, n: int) -> bool {
    a matches Some(x) ==> x <= n
}

/// A numeric bound: a number, and for integer schemas one within the signed
/// 64-bit range.
pub open spec fn bound_ok(o: Seq<(String, JsonValue)>, name: Seq<char>, k: SchemaKind) -> bool {
    match lookup(o, name) {
        None => true,
        Some(JsonValue::Number(n)) => k == SchemaKind::Integer ==> fits_i64(n),
        _ => false,
    }
}

pub open spec fn bound_of(o: Seq<(String, JsonValue)>, name: Seq<char>) -> Option<JsonNumber> {
    match lookup(o, name) {
        Some(JsonValue::Number(n)) => Some(n),
        _ => None,
    }
}

pub open spec fn bounds_ordered(a: Option<JsonNumber>, b: Option<JsonNumber>) -> bool {
    match (a, b) {
        (Some(x), Some(y)) => num_scaled(x) <= num_scaled(y),
        _ => true,
    }
}

/// A value that a schema of kind `k` could accept by its type.
pub open spec fn value_compatible(k: SchemaKind, v: JsonValue) -> bool {
    match k {
        SchemaKind::Object => v is Object,
        SchemaKind::Array => v is Array,
        SchemaKind::String => v is Str,
        SchemaKind::Integer => v matches JsonValue::Number(n) && fits_i64(n),
        SchemaKind::Number => v is Number,
        SchemaKind::Boolean => v is Bool,
        SchemaKind::Null => v is Null,
    }
}

/// `enum`, when present, is a non-empty array of values of the schema's type,
/// no two of them equal.
pub open spec fn enum_ok(o: Seq<(String, JsonValue)>, k: SchemaKind) -> bool {
    match lookup(o, "enum"@) {
        None => true,
        Some(JsonValue::Array(vals)) => {
            &&& vals@.len() > 0
            &&& forall|i: int| 0 <= i < vals@.len() ==> value_compatible(k, #[trigger] vals@[i])
            &&& forall|i: int, j: int| 0 <= i < j < vals@.len() ==> !json_eq(#[trigger] vals@[i], #[trigger] vals@[j])
        },
        _ => false,
    }
}

/// `pattern`, when present, is a string of at most 16 KiB of UTF-8 that the
/// regex engine compiles within `MAX_PATTERN_COMPILED_BYTES` (1 MiB).
pub open spec fn pattern_ok(o: Seq<(String, JsonValue)>) -> bool {
    match lookup(o, "pattern"@) {
        None => true,
        Some(JsonValue::Str(p)) => utf8_len(p@) <= MAX_PATTERN_BYTES && regex_compiles(p@, MAX_PATTERN_COMPILED_BYTES as nat),
        _ => false,
    }
}

pub open spec fn str_view(v: JsonValue) -> Seq<char> {
    match v {
        JsonValue::Str(s) => s@,
        _ => Seq::empty(),
    }
}

/// The `required` array names each property exactly once.
pub open spec fn required_ok(req: Seq<JsonValue>, props: Seq<(String, JsonValue)>) -> bool {
    &&& forall|i: int| 0 <= i < req.len() ==> (#[trigger] req[i]) is Str
    &&& forall|i: int, j: int| 0 <= i < j < req.len() ==> str_view(#[trigger] req[i]) != str_view(#[trigger] req[j])
    &&& req.len() == props.len()
    &&& forall|i: int| 0 <= i < props.len() ==> names_cover(req, (#[trigger] props[i]).0@)
}

/// Some string of `req` has the characters `k`.
pub open spec fn names_cover(req: Seq<JsonValue>, k: Seq<char>) -> bool {
    exists|j: int| 0 <= j < req.len() && str_view(#[trigger] req[j]) == k
}

/// Whether `v` is a schema of the accepted subset, at nesting depth `depth`
/// (the root being depth 1); a root schema must be an object schema.
pub open spec fn schema_accepts(v: JsonValue, root: bool, depth: int) -> bool
    decreases v,
{
    if depth > MAX_SCHEMA_DEPTH {
        false
    } else {
        match v {
            JsonValue::Object(entries) => {
                let o = entries@;
                &&& forall|i: int| 0 <= i < o.len() ==> is_schema_keyword((#[trigger] o[i]).0@)
                &&& entry_kind(o) matches Some(k)
                &&& (root ==> k == SchemaKind::Object)
                &&& keywords_applicable(o, k)
                &&& (k == SchemaKind::Object ==> match find_key(o, "properties"@) {
                    Some(pi) => match o[pi].1 {
                        JsonValue::Object(props) => {
                            &&& lookup(o, "required"@) matches Some(JsonValue::Array(req))
                            &&& required_ok(req@, props@)
                            &&& forall|j: int| 0 <= j < props@.len() ==> schema_accepts((#[trigger] props@[j]).1, false, depth + 1)
                        },
                        _ => false,
                    },
                    None => false,
                })
                &&& usize_keyword_ok(o, "minItems"@)
                &&& usize_keyword_ok(o, "maxItems"@)
                &&& limits_ordered(usize_keyword(o, "minItems"@), usize_keyword(o, "maxItems"@))
                &&& limit_at_most(usize_keyword(o, "minItems"@), MAX_ARRAY_ITEMS as int)
                &&& limit_at_most(usize_keyword(o, "maxItems"@), MAX_ARRAY_ITEMS as int)
                &&& (k == SchemaKind::Array ==> match find_key(o, "items"@) {
                    Some(ii) => schema_accepts(o[ii].1, false, depth + 1),
                    None => false,
                })
                &&& usize_keyword_ok(o, "minLength"@)
                &&& usize_keyword_ok(o, "maxLength"@)
                &&& limits_ordered(usize_keyword(o, "minLength"@), usize_keyword(o, "maxLength"@))
                &&& bound_ok(o, "minimum"@, k)
                &&& bound_ok(o, "maximum"@, k)
                &&& bounds_ordered(bound_of(o, "minimum"@), bound_of(o, "maximum"@))
                &&& enum_ok(o, k)
                &&& pattern_ok(o)
            },
            _ => false,
        }
    }
}

} // verus!

verus! {

pub open spec fn bound_same(c: Option<JsonNumber>, b: Option<JsonNumber>) -> bool {
    match b {
        Some(n) => c matches Some(m) && number_same(n, m),
        None => c is None,
    }
}

pub open spec fn enum_same(c: Seq<JsonValue>, e: Option<JsonValue>) -> bool {
    match e {
        Some(JsonValue::Array(vals)) => c.len() == vals@.len() && forall|i: int| 0 <= i < c.len() ==> json_same(#[trigger] vals@[i], c[i]),
        _ => c.len() == 0,
    }
}

pub open spec fn pattern_same(c: Option<CompiledPattern>, p: Option<JsonValue>) -> bool {
    match p {
        Some(JsonValue::Str(s)) => c matches Some(cp) && cp.source() == s@,
        _ => c is None,
    }
}

pub open spec fn str_is(v: JsonValue, s: Seq<char>) -> bool {
    match v {
        JsonValue::Str(t) => t@ == s,
        _ => false,
    }
}

/// `v` is an array of strings with the characters `names`.
pub open spec fn string_array(v: JsonValue, names: Seq<Seq<char>>) -> bool {
    v matches JsonValue::Array(xs) && xs@.len() == names.len()
        && forall|j: int| 0 <= j < names.len() ==> str_is(#[trigger] xs@[j], names[j])
}

/// The published schema: the schema's own entries in canonical form, except that
/// an object schema lists its required names as `names`.
pub open spec fn public_json_of(p: JsonValue, o: Seq<(String, JsonValue)>, k: SchemaKind, names: Seq<Seq<char>>) -> bool {
    match p {
        JsonValue::Object(pe) => {
            &&& pe@.len() == o.len()
            &&& forall|i: int| 0 <= i < o.len() ==> (#[trigger] pe@[i]).0@ == o[i].0@ && if k == SchemaKind::Object && o[i].0@ == "required"@ {
                string_array(pe@[i].1, names)
            } else {
                canonical_of(pe@[i].1, o[i].1)
            }
        },
        _ => false,
    }
}

/// `c` is what adopting the accepted schema `v` yields.
pub open spec fn compiled_from(c: CompiledSchema, v: JsonValue) -> bool
    decreases v,
{
    match v {
        JsonValue::Object(entries) => {
            let o = entries@;
            &&& entry_kind(o) == Some(c.kind)
            &&& (c.kind == SchemaKind::Object ==> match find_key(o, "properties"@) {
                Some(pi) => match o[pi].1 {
                    JsonValue::Object(props) => {
                        &&& c.properties@.len() == props@.len()
                        &&& c.required@.len() == props@.len()
                        &&& forall|j: int| 0 <= j < props@.len() ==> (#[trigger] props@[j]).0@ == c.properties@[j].0@
                            && c.required@[j]@ == props@[j].0@
                            && compiled_from(c.properties@[j].1, props@[j].1)
                        &&& public_json_of(c.public_json, o, c.kind, entry_keys(props@))
                    },
                    _ => false,
                },
                None => false,
            })
            &&& (c.kind != SchemaKind::Object ==> c.properties@.len() == 0 && c.required@.len() == 0
                && public_json_of(c.public_json, o, c.kind, Seq::empty()))
            &&& (c.kind == SchemaKind::Array ==> match find_key(o, "items"@) {
                Some(ii) => c.items matches Some(b) && compiled_from(*b, o[ii].1),
                None => false,
            })
            &&& (c.kind != SchemaKind::Array ==> c.items is None)
            &&& c.min_items == usize_keyword(o, "minItems"@)
            &&& c.max_items == usize_keyword(o, "maxItems"@)
            &&& c.min_length == usize_keyword(o, "minLength"@)
            &&& c.max_length == usize_keyword(o, "maxLength"@)
            &&& c.unique_items == (lookup(o, "uniqueItems"@) == Some(JsonValue::Bool(true)))
            &&& bound_same(c.minimum, bound_of(o, "minimum"@))
            &&& bound_same(c.maximum, bound_of(o, "maximum"@))
            &&& enum_same(c.enum_values@, lookup(o, "enum"@))
            &&& pattern_same(c.pattern, lookup(o, "pattern"@))
        },
        _ => false,
    }
}

pub open spec fn deref_opt(v: Option<&JsonValue>) -> Option<JsonValue> {
    match v {
        Some(x) => Some(*x),
        None => None,
    }
}

/// Why the keyword `name` holding `v` is not a usable non-negative count.
pub open spec fn usize_problem(v: Option<JsonValue>, name: Seq<char>) -> Option<(Seq<char>, Seq<char>)> {
    match v {
        None => None,
        Some(JsonValue::Number(JsonNumber::PosInt(n))) => if n <= usize::MAX {
            None
        } else {
            Some((name, "must be non-negative integer"@))
        },
        _ => Some((name, "must be non-negative integer"@)),
    }
}

fn usize_value(v: Option<&JsonValue>, path: &str, name: &str) -> (r: Result<Option<usize>, Diagnostic>)
    ensures
        r is Ok <==> match deref_opt(v) {
            None => true,
            Some(JsonValue::Number(JsonNumber::PosInt(n))) => n <= usize::MAX,
            _ => false,
        },
        r matches Ok(x) ==> x == match deref_opt(v) {
            Some(JsonValue::Number(JsonNumber::PosInt(n))) => Some(n as usize),
            _ => None,
        },
        r is Ok <==> usize_problem(deref_opt(v), name@) is None,
        r matches Err(d) ==> reported_at(d, path@, usize_problem(deref_opt(v), name@)),
{
    match v {
        None => Ok(None),
        Some(JsonValue::Number(JsonNumber::PosInt(n))) => {
            if *n <= usize::MAX as u64 {
                Ok(Some(*n as usize))
            } else {
                Err(Diagnostic::invalid(join_path(path, name).as_str(), "must be non-negative integer"))
            }
        },
        Some(_) => Err(Diagnostic::invalid(join_path(path, name).as_str(), "must be non-negative integer")),
    }
}

/// Why the bound `name` holding `v` is not usable for a schema of kind `kind`.
pub open spec fn bound_problem(v: Option<JsonValue>, name: Seq<char>, kind: SchemaKind) -> Option<(Seq<char>, Seq<char>)> {
    match v {
        None => None,
        Some(JsonValue::Number(n)) => if kind == SchemaKind::Integer && !fits_i64(n) {
            Some((name, "integer bound must fit signed 64 bit range"@))
        } else {
            None
        },
        _ => Some((name, "must be finite number"@)),
    }
}

fn numeric_bound(v: Option<&JsonValue>, path: &str, name: &str, kind: SchemaKind) -> (r: Result<Option<JsonNumber>, Diagnostic>)
    ensures
        r is Ok <==> match deref_opt(v) {
            None => true,
            Some(JsonValue::Number(n)) => kind == SchemaKind::Integer ==> fits_i64(n),
            _ => false,
        },
        r matches Ok(x) ==> bound_same(x, match deref_opt(v) {
            Some(JsonValue::Number(n)) => Some(n),
            _ => None,
        }),
        r is Ok <==> bound_problem(deref_opt(v), name@, kind) is None,
        r matches Err(d) ==> reported_at(d, path@, bound_problem(deref_opt(v), name@, kind)),
{
    match v {
        None => Ok(None),
        Some(JsonValue::Number(n)) => {
            if kind == SchemaKind::Integer && !number_fits_i64(n) {
                Err(Diagnostic::invalid(join_path(path, name).as_str(), "integer bound must fit signed 64 bit range"))
            } else {
                Ok(Some(clone_number(n)))
            }
        },
        Some(_) => Err(Diagnostic::invalid(join_path(path, name).as_str(), "must be finite number")),
    }
}

/// Whether `value` has the JSON type of a `kind` schema.
pub fn schema_value_compatible(kind: SchemaKind, value: &JsonValue) -> (r: bool)
    ensures
        r == value_compatible(kind, *value),
{
    match (kind, value) {
        (SchemaKind::Object, JsonValue::Object(_)) => true,
        (SchemaKind::Array, JsonValue::Array(_)) => true,
        (SchemaKind::String, JsonValue::Str(_)) => true,
        (SchemaKind::Integer, JsonValue::Number(n)) => number_fits_i64(n),
        (SchemaKind::Number, JsonValue::Number(_)) => true,
        (SchemaKind::Boolean, JsonValue::Bool(_)) => true,
        (SchemaKind::Null, JsonValue::Null) => true,
        _ => false,
    }
}

} // verus!

verus! {

/// The names of `required`, which must all be strings.
fn required_strings(req: &Vec<JsonValue>, path: &str) -> (r: Result<Vec<String>, Diagnostic>)
    ensures
        r is Ok <==> forall|i: int| 0 <= i < req@.len() ==> (#[trigger] req@[i]) is Str,
        r matches Ok(names) ==> names@.len() == req@.len()
            && forall|i: int| 0 <= i < req@.len() ==> (#[trigger] names@[i])@ == str_view(req@[i]),
        r matches Err(d) ==> reported_at(d, path@, Some(("required"@, "required names must be strings"@))),
{
    let mut names: Vec<String> = Vec::new();
    let mut i: usize = 0;
    while i < req.len()
        invariant
            i <= req@.len(),
            names@.len() == i,
            forall|j: int| 0 <= j < i ==> (#[trigger] req@[j]) is Str,
            forall|j: int| 0 <= j < i ==> (#[trigger] names@[j])@ == str_view(req@[j]),
        decreases req@.len() - i,
    {
        match &req[i] {
            JsonValue::Str(s) => {
                names.push(s.clone());
            },
            _ => {
                return Err(Diagnostic::invalid(join_path(path, "required").as_str(), "required names must be strings"));
            },
        }
        i += 1;
    }
    Ok(names)
}

/// Whether `names` holds no name twice.
fn names_distinct(names: &Vec<String>) -> (r: bool)
    ensures
        r == forall|i: int, j: int| 0 <= i < j < names@.len() ==> (#[trigger] names@[i])@ != (#[trigger] names@[j])@,
{
    let mut j: usize = 0;
    while j < names.len()
        invariant
            j <= names@.len(),
            forall|a: int, b: int| 0 <= a < b < j ==> (#[trigger] names@[a])@ != (#[trigger] names@[b])@,
        decreases names@.len() - j,
    {
        let mut i: usize = 0;
        while i < j
            invariant
                i <= j < names@.len(),
                forall|a: int, b: int| 0 <= a < b < j ==> (#[trigger] names@[a])@ != (#[trigger] names@[b])@,
                forall|a: int| 0 <= a < i ==> (#[trigger] names@[a])@ != names@[j as int]@,
            decreases j - i,
        {
            if names[i] == names[j] {
                return false;
            }
            i += 1;
        }
        j += 1;
    }
    true
}

/// Whether some name of `names` has the characters of `k`.
fn names_contain(names: &Vec<String>, k: &String) -> (r: bool)
    ensures
        r == exists|i: int| 0 <= i < names@.len() && (#[trigger] names@[i])@ == k@,
{
    let mut i: usize = 0;
    while i < names.len()
        invariant
            i <= names@.len(),
            forall|a: int| 0 <= a < i ==> (#[trigger] names@[a])@ != k@,
        decreases names@.len() - i,
    {
        if names[i] == *k {
            return true;
        }
        i += 1;
    }
    false
}

/// Checks `enum` and copies its values.
/// The first value of `vals`, from position `i` on, that an `enum` refuses:
/// one of another type than the schema's, or one equal to an earlier value.
pub open spec fn enum_value_problem(vals: Seq<JsonValue>, kind: SchemaKind, i: int) -> Option<(Seq<char>, Seq<char>)>
    decreases vals.len() - i,
{
    if i < 0 || i >= vals.len() {
        None
    } else if !value_compatible(kind, vals[i]) {
        Some(("enum"@ + seq!['/'] + decimal(i as nat), "enum value is incompatible with schema type"@))
    } else if exists|j: int| 0 <= j < i && json_eq(#[trigger] vals[j], vals[i]) {
        Some(("enum"@ + seq!['/'] + decimal(i as nat), "enum must not contain duplicate values"@))
    } else {
        enum_value_problem(vals, kind, i + 1)
    }
}

/// Why an `enum` keyword holding `v` is refused for a schema of kind `kind`.
pub open spec fn enum_problem(v: Option<JsonValue>, kind: SchemaKind) -> Option<(Seq<char>, Seq<char>)> {
    match v {
        None => None,
        Some(JsonValue::Array(vals)) => if vals@.len() == 0 {
            Some(("enum"@, "enum must not be empty"@))
        } else {
            enum_value_problem(vals@, kind, 0)
        },
        _ => Some(("enum"@, "enum must be an array"@)),
    }
}

fn compile_enum(v: Option<&JsonValue>, kind: SchemaKind, path: &str) -> (r: Result<Vec<JsonValue>, Diagnostic>)
    ensures
        r is Ok <==> match deref_opt(v) {
            None => true,
            Some(JsonValue::Array(vals)) => {
                &&& vals@.len() > 0
                &&& forall|i: int| 0 <= i < vals@.len() ==> value_compatible(kind, #[trigger] vals@[i])
                &&& forall|i: int, j: int| 0 <= i < j < vals@.len() ==> !json_eq(#[trigger] vals@[i], #[trigger] vals@[j])
            },
            _ => false,
        },
        r matches Ok(c) ==> enum_same(c@, deref_opt(v)),
        r is Ok <==> enum_problem(deref_opt(v), kind) is None,
        r matches Err(d) ==> reported_at(d, path@, enum_problem(deref_opt(v), kind)),
{
    match v {
        None => Ok(Vec::new()),
        Some(JsonValue::Array(vals)) => {
            let epath = join_path(path, "enum");
            if vals.len() == 0 {
                return Err(Diagnostic::invalid(epath.as_str(), "enum must not be empty"));
            }
            let mut out: Vec<JsonValue> = Vec::new();
            let mut index: usize = 0;
            while index < vals.len()
                invariant
                    deref_opt(v) == Some(JsonValue::Array(*vals)),
                    vals@.len() > 0,
                    index <= vals@.len(),
                    out@.len() == index,
                    forall|i: int| 0 <= i < index ==> value_compatible(kind, #[trigger] vals@[i]),
                    forall|i: int, j: int| 0 <= i < j < index ==> !json_eq(#[trigger] vals@[i], #[trigger] vals@[j]),
                    forall|i: int| 0 <= i < index ==> json_same(#[trigger] vals@[i], out@[i]),
                    epath@ == path@ + seq!['/'] + "enum"@,
                    enum_value_problem(vals@, kind, 0) == enum_value_problem(vals@, kind, index as int),
                decreases vals@.len() - index,
            {
                assert(path@ + seq!['/'] + "enum"@ + seq!['/'] + decimal(index as nat)
                    =~= path@ + seq!['/'] + ("enum"@ + seq!['/'] + decimal(index as nat)));
                if !schema_value_compatible(kind, &vals[index]) {
                    assert(!value_compatible(kind, vals@[index as int]));
                    assert(enum_value_problem(vals@, kind, index as int)
                        == Some(("enum"@ + seq!['/'] + decimal(index as nat), "enum value is incompatible with schema type"@)));
                    return Err(Diagnostic::invalid(join_index(epath.as_str(), index).as_str(), "enum value is incompatible with schema type"));
                }
                let mut previous: usize = 0;
                while previous < index
                    invariant
                        deref_opt(v) == Some(JsonValue::Array(*vals)),
                        value_compatible(kind, vals@[index as int]),
                        epath@ == path@ + seq!['/'] + "enum"@,
                        vals@.len() > 0,
                        enum_value_problem(vals@, kind, 0) == enum_value_problem(vals@, kind, index as int),
                        path@ + seq!['/'] + "enum"@ + seq!['/'] + decimal(index as nat)
                            =~= path@ + seq!['/'] + ("enum"@ + seq!['/'] + decimal(index as nat)),
                        previous <= index < vals@.len(),
                        forall|i: int| 0 <= i < previous ==> !json_eq(#[trigger] vals@[i], vals@[index as int]),
                    decreases index - previous,
                {
                    if schema_values_equal(&vals[previous], &vals[index]) {
                        assert(json_eq(vals@[previous as int], vals@[index as int]));
                        assert(enum_value_problem(vals@, kind, index as int)
                            == Some(("enum"@ + seq!['/'] + decimal(index as nat), "enum must not contain duplicate values"@)));
                        return Err(Diagnostic::invalid(join_index(epath.as_str(), index).as_str(), "enum must not contain duplicate values"));
                    }
                    previous += 1;
                }
                assert(!(exists|j: int| 0 <= j < index && json_eq(#[trigger] vals@[j], vals@[index as int])));
                out.push(clone_value(&vals[index]));
                index += 1;
            }
            Ok(out)
        },
        Some(_) => Err(Diagnostic::invalid(join_path(path, "enum").as_str(), "enum must be an array")),
    }
}

/// Why a `pattern` keyword holding `v` is refused.
pub open spec fn pattern_problem(v: Option<JsonValue>) -> Option<(Seq<char>, Seq<char>)> {
    match v {
        None => None,
        Some(JsonValue::Str(p)) => if utf8_len(p@) > MAX_PATTERN_BYTES {
            Some(("pattern"@, "pattern exceeds 16 KiB"@))
        } else if !regex_compiles(p@, MAX_PATTERN_COMPILED_BYTES as nat) {
            Some(("pattern"@, "pattern is not supported by linear regex engine or exceeds compiled size limit"@))
        } else {
            None
        },
        _ => Some(("pattern"@, "pattern must be string"@)),
    }
}

/// Checks a `pattern` keyword and compiles it, its compiled size limited to
/// `MAX_PATTERN_COMPILED_BYTES`.
fn compile_pattern_keyword(v: Option<&JsonValue>, path: &str) -> (r: Result<Option<CompiledPattern>, Diagnostic>)
    ensures
        r is Ok <==> match deref_opt(v) {
            None => true,
            Some(JsonValue::Str(p)) => utf8_len(p@) <= MAX_PATTERN_BYTES && regex_compiles(p@, MAX_PATTERN_COMPILED_BYTES as nat),
            _ => false,
        },
        r matches Ok(c) ==> pattern_same(c, deref_opt(v)),
        r is Ok <==> pattern_problem(deref_opt(v)) is None,
        r matches Err(d) ==> reported_at(d, path@, pattern_problem(deref_opt(v))),
{
    match v {
        None => Ok(None),
        Some(JsonValue::Str(p)) => {
            if p.as_str().len() > MAX_PATTERN_BYTES {
                return Err(Diagnostic::invalid(join_path(path, "pattern").as_str(), "pattern exceeds 16 KiB"));
            }
            match compile_pattern(p.as_str(), MAX_PATTERN_COMPILED_BYTES) {
                Some(c) => Ok(Some(c)),
                None => Err(Diagnostic::invalid(join_path(path, "pattern").as_str(),
                    "pattern is not supported by linear regex engine or exceeds compiled size limit")),
            }
        },
        Some(_) => Err(Diagnostic::invalid(join_path(path, "pattern").as_str(), "pattern must be string")),
    }
}

/// The published form of a schema's entries.
fn public_entries(obj: &Vec<(String, JsonValue)>, kind: SchemaKind, required: &Vec<String>) -> (r: JsonValue)
    ensures
        public_json_of(r, obj@, kind, required@.map_values(|s: String| s@)),
{
    let mut out: Vec<(String, JsonValue)> = Vec::new();
    let ghost names = required@.map_values(|s: String| s@);
    let mut i: usize = 0;
    while i < obj.len()
        invariant
            i <= obj@.len(),
            out@.len() == i,
            names == required@.map_values(|s: String| s@),
            forall|j: int| 0 <= j < i ==> (#[trigger] out@[j]).0@ == obj@[j].0@ && if kind == SchemaKind::Object && obj@[j].0@ == "required"@ {
                string_array(out@[j].1, names)
            } else {
                canonical_of(out@[j].1, obj@[j].1)
            },
        decreases obj@.len() - i,
    {
        if kind == SchemaKind::Object && str_eq(obj[i].0.as_str(), "required") {
            let mut arr: Vec<JsonValue> = Vec::new();
            let mut k: usize = 0;
            while k < required.len()
                invariant
                    k <= required@.len(),
                    arr@.len() == k,
                    names == required@.map_values(|s: String| s@),
                    forall|j: int| 0 <= j < k ==> str_is(#[trigger] arr@[j], names[j]),
                decreases required@.len() - k,
            {
                arr.push(JsonValue::Str(required[k].clone()));
                k += 1;
            }
            out.push((obj[i].0.clone(), JsonValue::Array(arr)));
        } else {
            out.push((obj[i].0.clone(), canonical_copy(&obj[i].1)));
        }
        i += 1;
    }
    JsonValue::Object(out)
}

} // verus!

verus! {

// ---------------------------------------------------------------------------
// Why a schema is refused.

/// The position of the first entry of `o`, from `i` on, that is not a keyword
/// of the accepted subset.
pub open spec fn first_unknown_keyword(o: Seq<(String, JsonValue)>, i: int) -> Option<int>
    decreases o.len() - i,
{
    if i < 0 || i >= o.len() {
        None
    } else if !is_schema_keyword(o[i].0@) {
        Some(i)
    } else {
        first_unknown_keyword(o, i + 1)
    }
}

/// A problem reported for the field of a schema node at path `p`.
pub open spec fn under(p: Seq<char>, x: Option<(Seq<char>, Seq<char>)>) -> Option<(Seq<char>, Seq<char>)> {
    match x {
        Some((f, m)) => Some((p + seq!['/'] + f, m)),
        None => None,
    }
}

/// The number of declared properties of an object schema node.
pub open spec fn property_count(v: JsonValue) -> int {
    match v {
        JsonValue::Object(entries) => match find_key(entries@, "properties"@) {
            Some(pi) => match entries@[pi].1 {
                JsonValue::Object(props) => props@.len() as int,
                _ => 0,
            },
            None => 0,
        },
        _ => 0,
    }
}

/// The first reason adoption refuses the schema `v` at configuration path `p`
/// and nesting depth `depth`, with the message, in the order the checks are
/// made: depth, shape, keywords, type, root kind, keyword applicability, then
/// the checks of the node (see `node_problem`).
pub open spec fn schema_problem(v: JsonValue, p: Seq<char>, root: bool, depth: int) -> Option<(Seq<char>, Seq<char>)>
    decreases v, 3int, 0int,
{
    if depth > MAX_SCHEMA_DEPTH {
        Some((p, "schema depth exceeds 32"@))
    } else {
        match v {
            JsonValue::Object(entries) => {
                let o = entries@;
                match first_unknown_keyword(o, 0) {
                    Some(i) => Some((p + seq!['/'] + o[i].0@, "unsupported schema keyword"@)),
                    None => match lookup(o, "type"@) {
                        Some(JsonValue::Str(t)) => match kind_named(t@) {
                            Some(k) => if root && k != SchemaKind::Object {
                                Some((p, "root schema must be object"@))
                            } else if applicability_problem(o, k) is Some {
                                under(p, applicability_problem(o, k))
                            } else {
                                node_problem(v, p, depth, k)
                            },
                            None => Some((p + seq!['/'] + "type"@, "unsupported type"@)),
                        },
                        _ => Some((p + seq!['/'] + "type"@, "type is required"@)),
                    },
                }
            },
            _ => Some((p, "schema must be object"@)),
        }
    }
}

/// The checks of a schema node of kind `k` after its keywords: the
/// properties of an object, the array limits, the items of an array, the
/// length limits, the bounds, `enum` and `pattern`.
pub open spec fn node_problem(v: JsonValue, p: Seq<char>, depth: int, k: SchemaKind) -> Option<(Seq<char>, Seq<char>)>
    decreases v, 2int, 0int,
{
    match v {
        JsonValue::Object(entries) => {
            let o = entries@;
            let min_items = usize_keyword(o, "minItems"@);
            let max_items = usize_keyword(o, "maxItems"@);
            if k == SchemaKind::Object && object_problem(v, p, depth) is Some {
                object_problem(v, p, depth)
            } else if usize_problem(lookup(o, "minItems"@), "minItems"@) is Some {
                under(p, usize_problem(lookup(o, "minItems"@), "minItems"@))
            } else if usize_problem(lookup(o, "maxItems"@), "maxItems"@) is Some {
                under(p, usize_problem(lookup(o, "maxItems"@), "maxItems"@))
            } else if !limits_ordered(min_items, max_items) {
                Some((p, "minItems exceeds maxItems"@))
            } else if !limit_at_most(min_items, MAX_ARRAY_ITEMS as int) || !limit_at_most(max_items, MAX_ARRAY_ITEMS as int) {
                Some((p, "array limit exceeds 1024"@))
            } else if k == SchemaKind::Array && find_key(o, "items"@) is None {
                Some((p + seq!['/'] + "items"@, "items is required"@))
            } else if k == SchemaKind::Array && ({
                let ii = find_key(o, "items"@)->0;
                proof {
                    assert(decreases_to!(v => entries));
                    assert(decreases_to!(entries => o));
                    assert(decreases_to!(o => o[ii]));
                    assert(decreases_to!(o[ii] => o[ii].1));
                }
                schema_problem(o[ii].1, p + seq!['/'] + "items"@, false, depth + 1) is Some
            }) {
                let ii = find_key(o, "items"@)->0;
                proof {
                    assert(decreases_to!(v => entries));
                    assert(decreases_to!(entries => o));
                    assert(decreases_to!(o => o[ii]));
                    assert(decreases_to!(o[ii] => o[ii].1));
                }
                schema_problem(o[ii].1, p + seq!['/'] + "items"@, false, depth + 1)
            } else if usize_problem(lookup(o, "minLength"@), "minLength"@) is Some {
                under(p, usize_problem(lookup(o, "minLength"@), "minLength"@))
            } else if usize_problem(lookup(o, "maxLength"@), "maxLength"@) is Some {
                under(p, usize_problem(lookup(o, "maxLength"@), "maxLength"@))
            } else if !limits_ordered(usize_keyword(o, "minLength"@), usize_keyword(o, "maxLength"@)) {
                Some((p, "minLength exceeds maxLength"@))
            } else if bound_problem(lookup(o, "minimum"@), "minimum"@, k) is Some {
                under(p, bound_problem(lookup(o, "minimum"@), "minimum"@, k))
            } else if bound_problem(lookup(o, "maximum"@), "maximum"@, k) is Some {
                under(p, bound_problem(lookup(o, "maximum"@), "maximum"@, k))
            } else if !bounds_ordered(bound_of(o, "minimum"@), bound_of(o, "maximum"@)) {
                Some((p, "minimum exceeds maximum"@))
            } else if enum_problem(lookup(o, "enum"@), k) is Some {
                under(p, enum_problem(lookup(o, "enum"@), k))
            } else {
                under(p, pattern_problem(lookup(o, "pattern"@)))
            }
        },
        _ => None,
    }
}

/// The checks of an object schema node: its properties, its `required`
/// names, then each property schema in order.
pub open spec fn object_problem(v: JsonValue, p: Seq<char>, depth: int) -> Option<(Seq<char>, Seq<char>)>
    decreases v, 1int, 0int,
{
    match v {
        JsonValue::Object(entries) => {
            let o = entries@;
            match find_key(o, "properties"@) {
                Some(pi) => match o[pi].1 {
                    JsonValue::Object(props) => match lookup(o, "required"@) {
                        Some(JsonValue::Array(req)) => if !(forall|i: int| 0 <= i < req@.len() ==> (#[trigger] req@[i]) is Str) {
                            Some((p + seq!['/'] + "required"@, "required names must be strings"@))
                        } else if !required_ok(req@, props@) {
                            Some((p + seq!['/'] + "required"@, "all properties must be required"@))
                        } else {
                            properties_problem(v, p, depth, 0)
                        },
                        _ => Some((p + seq!['/'] + "required"@, "required is required"@)),
                    },
                    _ => Some((p + seq!['/'] + "properties"@, "object properties are required"@)),
                },
                None => Some((p + seq!['/'] + "properties"@, "object properties are required"@)),
            }
        },
        _ => None,
    }
}

/// The first refused property schema, from property `j` on.
pub open spec fn properties_problem(v: JsonValue, p: Seq<char>, depth: int, j: int) -> Option<(Seq<char>, Seq<char>)>
    decreases v, 0int, property_count(v) - j,
{
    match v {
        JsonValue::Object(entries) => {
            let o = entries@;
            match find_key(o, "properties"@) {
                Some(pi) => match o[pi].1 {
                    JsonValue::Object(props) => if 0 <= j < props@.len() {
                        proof {
                            assert(decreases_to!(v => entries));
                            assert(decreases_to!(entries => o));
                            assert(decreases_to!(o => o[pi]));
                            assert(decreases_to!(o[pi] => o[pi].1));
                            assert(decreases_to!(o[pi].1 => props));
                            assert(decreases_to!(props => props@));
                            assert(decreases_to!(props@ => props@[j]));
                            assert(decreases_to!(props@[j] => props@[j].1));
                        }
                        match schema_problem(props@[j].1, p + seq!['/'] + "properties"@ + seq!['/'] + escape_seq(props@[j].0@), false, depth + 1) {
                            Some(x) => Some(x),
                            None => properties_problem(v, p, depth, j + 1),
                        }
                    } else {
                        None
                    },
                    _ => None,
                },
                None => None,
            }
        },
        _ => None,
    }
}

/// Adopts one schema node: checks it against the accepted subset and compiles
/// it, its properties and its items.  `depth` is the node's nesting depth, the
/// root being 1; a root schema must be an object schema.
pub fn compile_schema(value: &JsonValue, path: &str, root: bool, depth: usize) -> (r: Result<CompiledSchema, Diagnostic>)
    ensures
        r is Ok <==> schema_accepts(*value, root, depth as int),
        r matches Ok(c) ==> compiled_from(c, *value),
        r is Ok ==> schema_problem(*value, path@, root, depth as int) is None,
        r matches Err(d) ==> reports_problem(d, schema_problem(*value, path@, root, depth as int)),
    decreases *value,
{
    if depth > MAX_SCHEMA_DEPTH {
        return Err(Diagnostic::invalid(path, "schema depth exceeds 32"));
    }
    let obj = match value {
        JsonValue::Object(o) => o,
        _ => {
            return Err(Diagnostic::invalid(path, "schema must be object"));
        },
    };
    let ghost o = obj@;
    let mut i: usize = 0;
    while i < obj.len()
        invariant
            i <= o.len(),
            o == obj@,
            *value == JsonValue::Object(*obj),
            depth <= MAX_SCHEMA_DEPTH,
            forall|j: int| 0 <= j < i ==> is_schema_keyword((#[trigger] o[j]).0@),
            first_unknown_keyword(o, 0) == first_unknown_keyword(o, i as int),
        decreases o.len() - i,
    {
        if !is_keyword(obj[i].0.as_str()) {
            assert(!is_schema_keyword(o[i as int].0@));
            return Err(Diagnostic::invalid(join_path(path, obj[i].0.as_str()).as_str(), "unsupported schema keyword"));
        }
        i += 1;
    }
    let kind_s: &String = match get_key(obj, "type") {
        Some(JsonValue::Str(s)) => s,
        _ => {
            return Err(Diagnostic::invalid(join_path(path, "type").as_str(), "type is required"));
        },
    };
    let kind = match kind_from_name(kind_s.as_str()) {
        Some(k) => k,
        None => {
            return Err(Diagnostic::invalid(join_path(path, "type").as_str(), "unsupported type"));
        },
    };
    assert(entry_kind(o) == Some(kind));
    if root && kind != SchemaKind::Object {
        return Err(Diagnostic::invalid(path, "root schema must be object"));
    }
    match check_keyword_applicability(obj, kind, path) {
        Ok(()) => {},
        Err(d) => {
            return Err(d);
        },
    }
    let ghost problem = node_problem(*value, path@, depth as int, kind);
    assert(schema_problem(*value, path@, root, depth as int) == problem);
    let mut properties: Vec<(String, CompiledSchema)> = Vec::new();
    let mut required: Vec<String> = Vec::new();
    if kind == SchemaKind::Object {
        let pi = match find_key_index(obj, "properties") {
            Some(pi) => pi,
            None => {
                assert(object_problem(*value, path@, depth as int) == Some((path@ + seq!['/'] + "properties"@, "object properties are required"@)));
                return Err(Diagnostic::invalid(join_path(path, "properties").as_str(), "object properties are required"));
            },
        };
        proof {
            lemma_key_at_unique(o, "properties"@, pi as int);
        }
        let props = match &obj[pi].1 {
            JsonValue::Object(p) => p,
            _ => {
                return Err(Diagnostic::invalid(join_path(path, "properties").as_str(), "object properties are required"));
            },
        };
        let req = match get_key(obj, "required") {
            Some(JsonValue::Array(a)) => a,
            _ => {
                assert(object_problem(*value, path@, depth as int) == Some((path@ + seq!['/'] + "required"@, "required is required"@)));
                return Err(Diagnostic::invalid(join_path(path, "required").as_str(), "required is required"));
            },
        };
        let names = match required_strings(req, path) {
            Ok(n) => n,
            Err(d) => {
                return Err(d);
            },
        };
        let distinct = names_distinct(&names);
        if !distinct || names.len() != props.len() {
            proof {
                if !distinct {
                    let (a, b) = choose|a: int, b: int| 0 <= a < b < names@.len() && (#[trigger] names@[a])@ == (#[trigger] names@[b])@;
                    assert(str_view(req@[a]) == str_view(req@[b]));
                }
            }
            return Err(Diagnostic::invalid(join_path(path, "required").as_str(), "all properties must be required"));
        }
        let mut k: usize = 0;
        while k < props.len()
            invariant
                k <= props@.len(),
                o == obj@,
                *value == JsonValue::Object(*obj),
                depth <= MAX_SCHEMA_DEPTH,
                key_at(o, "properties"@, pi as int),
                o[pi as int].1 == JsonValue::Object(*props),
                lookup(o, "required"@) == Some(JsonValue::Array(*req)),
                names@.len() == props@.len(),
                forall|a: int| 0 <= a < req@.len() ==> (#[trigger] req@[a]) is Str,
                forall|a: int, b: int| 0 <= a < b < names@.len() ==> (#[trigger] names@[a])@ != (#[trigger] names@[b])@,
                names@.len() == req@.len(),
                forall|a: int| 0 <= a < req@.len() ==> (#[trigger] names@[a])@ == str_view(req@[a]),
                forall|a: int| 0 <= a < k ==> names_cover(req@, (#[trigger] props@[a]).0@),
                kind == SchemaKind::Object,
                schema_problem(*value, path@, root, depth as int) == node_problem(*value, path@, depth as int, kind),
            decreases props@.len() - k,
        {
            if !names_contain(&names, &props[k].0) {
                proof {
                    assert forall|j: int| 0 <= j < req@.len() implies str_view(#[trigger] req@[j]) != props@[k as int].0@ by {
                        assert(names@[j]@ == str_view(req@[j]));
                    }
                }
                proof {
                    lemma_key_at_unique(o, "properties"@, pi as int);
                }
                assert(!required_ok(req@, props@));
                assert(object_problem(*value, path@, depth as int) == Some((path@ + seq!['/'] + "required"@, "all properties must be required"@)));
                return Err(Diagnostic::invalid(join_path(path, "required").as_str(), "all properties must be required"));
            }
            proof {
                let j = choose|j: int| 0 <= j < names@.len() && (#[trigger] names@[j])@ == props@[k as int].0@;
                assert(str_view(req@[j]) == props@[k as int].0@);
            }
            k += 1;
        }
        proof {
            assert forall|a: int, b: int| 0 <= a < b < req@.len() implies str_view(#[trigger] req@[a]) != str_view(#[trigger] req@[b]) by {
                assert(names@[a]@ == str_view(req@[a]));
                assert(names@[b]@ == str_view(req@[b]));
            }
            lemma_key_at_unique(o, "properties"@, pi as int);
        }
        assert(required_ok(req@, props@));
        assert(object_problem(*value, path@, depth as int) == properties_problem(*value, path@, depth as int, 0));
        let ppath = join_path(path, "properties");
        let mut j: usize = 0;
        while j < props.len()
            invariant
                j <= props@.len(),
                o == obj@,
                *value == JsonValue::Object(*obj),
                key_at(o, "properties"@, pi as int),
                o[pi as int].1 == JsonValue::Object(*props),
                properties@.len() == j,
                required@.len() == j,
                depth <= MAX_SCHEMA_DEPTH,
                forall|a: int| 0 <= a < j ==> schema_accepts((#[trigger] props@[a]).1, false, depth + 1),
                forall|a: int| 0 <= a < j ==> (#[trigger] props@[a]).0@ == properties@[a].0@
                    && required@[a]@ == props@[a].0@
                    && compiled_from(properties@[a].1, props@[a].1),
                kind == SchemaKind::Object,
                ppath@ == path@ + seq!['/'] + "properties"@,
                schema_problem(*value, path@, root, depth as int) == node_problem(*value, path@, depth as int, kind),
                object_problem(*value, path@, depth as int) == properties_problem(*value, path@, depth as int, 0),
                properties_problem(*value, path@, depth as int, 0) == properties_problem(*value, path@, depth as int, j as int),
                forall|a: int| 0 <= a < j ==> schema_problem((#[trigger] props@[a]).1, ppath@ + seq!['/'] + escape_seq(props@[a].0@), false, depth + 1) is None,
            decreases props@.len() - j,
        {
            proof {
                assert(decreases_to!(*value => (*value)->Object_0));
                assert(decreases_to!(*obj => o));
                assert(decreases_to!(o => o[pi as int]));
                assert(decreases_to!(o[pi as int] => o[pi as int].1));
                assert(decreases_to!(o[pi as int].1 => (o[pi as int].1)->Object_0));
                assert(decreases_to!(*props => props@));
                assert(decreases_to!(props@ => props@[j as int]));
                assert(decreases_to!(props@[j as int] => props@[j as int].1));
            }
            let child = match compile_schema(&props[j].1, join_key(ppath.as_str(), props[j].0.as_str()).as_str(), false, depth + 1) {
                Ok(c) => c,
                Err(d) => {
                    proof {
                        lemma_key_at_unique(o, "properties"@, pi as int);
                    }
                    return Err(d);
                },
            };
            properties.push((props[j].0.clone(), child));
            required.push(props[j].0.clone());
            j += 1;
        }
        proof {
            lemma_key_at_unique(o, "properties"@, pi as int);
        }
    }
    let min_items = match usize_value(get_key(obj, "minItems"), path, "minItems") {
        Ok(v) => v,
        Err(d) => {
            return Err(d);
        },
    };
    let max_items = match usize_value(get_key(obj, "maxItems"), path, "maxItems") {
        Ok(v) => v,
        Err(d) => {
            return Err(d);
        },
    };
    match (min_items, max_items) {
        (Some(a), Some(b)) => {
            if a > b {
                return Err(Diagnostic::invalid(path, "minItems exceeds maxItems"));
            }
        },
        _ => {},
    }
    let too_many = match min_items {
        Some(a) => a > MAX_ARRAY_ITEMS,
        None => false,
    } || match max_items {
        Some(b) => b > MAX_ARRAY_ITEMS,
        None => false,
    };
    if too_many {
        return Err(Diagnostic::invalid(path, "array limit exceeds 1024"));
    }
    let items: Option<Box<CompiledSchema>> = if kind == SchemaKind::Array {
        let ii = match find_key_index(obj, "items") {
            Some(ii) => ii,
            None => {
                return Err(Diagnostic::invalid(join_path(path, "items").as_str(), "items is required"));
            },
        };
        proof {
            lemma_key_at_unique(o, "items"@, ii as int);
            assert(decreases_to!(*value => (*value)->Object_0));
            assert(decreases_to!(*obj => o));
            assert(decreases_to!(o => o[ii as int]));
            assert(decreases_to!(o[ii as int] => o[ii as int].1));
        }
        match compile_schema(&obj[ii].1, join_path(path, "items").as_str(), false, depth + 1) {
            Ok(c) => Some(Box::new(c)),
            Err(d) => {
                return Err(d);
            },
        }
    } else {
        None
    };
    let min_length = match usize_value(get_key(obj, "minLength"), path, "minLength") {
        Ok(v) => v,
        Err(d) => {
            return Err(d);
        },
    };
    let max_length = match usize_value(get_key(obj, "maxLength"), path, "maxLength") {
        Ok(v) => v,
        Err(d) => {
            return Err(d);
        },
    };
    match (min_length, max_length) {
        (Some(a), Some(b)) => {
            if a > b {
                return Err(Diagnostic::invalid(path, "minLength exceeds maxLength"));
            }
        },
        _ => {},
    }
    let minimum = match numeric_bound(get_key(obj, "minimum"), path, "minimum", kind) {
        Ok(v) => v,
        Err(d) => {
            return Err(d);
        },
    };
    let maximum = match numeric_bound(get_key(obj, "maximum"), path, "maximum", kind) {
        Ok(v) => v,
        Err(d) => {
            return Err(d);
        },
    };
    match (&minimum, &maximum) {
        (Some(a), Some(b)) => {
            if numeric_compare(a, b) == NumOrder::Greater {
                return Err(Diagnostic::invalid(path, "minimum exceeds maximum"));
            }
        },
        _ => {},
    }
    let enum_values = match compile_enum(get_key(obj, "enum"), kind, path) {
        Ok(v) => v,
        Err(d) => {
            return Err(d);
        },
    };
    let pattern = match compile_pattern_keyword(get_key(obj, "pattern"), path) {
        Ok(v) => v,
        Err(d) => {
            return Err(d);
        },
    };
    let unique_items = match get_key(obj, "uniqueItems") {
        Some(JsonValue::Bool(true)) => true,
        _ => false,
    };
    let public_json = public_entries(obj, kind, &required);
    let c = CompiledSchema {
        kind,
        properties,
        items,
        required,
        min_items,
        max_items,
        unique_items,
        min_length,
        max_length,
        minimum,
        maximum,
        enum_values,
        pattern,
        public_json,
    };
    Ok(c)
}

// ---------------------------------------------------------------------------
// Key order.

/// Every object node of `s` lists its required names in ascending order,
/// each once.
pub open spec fn required_ordered(s: CompiledSchema) -> bool
    decreases s,
{
    &&& strictly_sorted(s.required@.map_values(|x: String| x@))
    &&& forall|j: int| 0 <= j < s.properties@.len() ==> required_ordered((#[trigger] s.properties@[j]).1)
    &&& match s.items {
        Some(b) => required_ordered(*b),
        None => true,
    }
}

/// Law: a schema adopted from a value whose objects hold their keys in
/// ascending order lists the required names of each object node in
/// ascending order, each once (the published schema lists the same names:
/// see `compiled_from`).
pub proof fn law_required_in_key_order(c: CompiledSchema, v: JsonValue)
    requires
        json_wf(v),
        compiled_from(c, v),
    ensures
        required_ordered(c),
    decreases v,
{
    if let JsonValue::Object(entries) = v {
        let o = entries@;
        if c.kind == SchemaKind::Object {
            let pi = find_key(o, "properties"@).unwrap();
            assert(json_wf(o[pi].1));
            if let JsonValue::Object(props) = o[pi].1 {
                assert(decreases_to!(v => entries));
                assert(decreases_to!(entries => entries@));
                assert(decreases_to!(entries@ => entries@[pi]));
                assert(decreases_to!(entries@[pi] => entries@[pi].1));
                assert(c.required@.map_values(|x: String| x@) =~= entry_keys(props@));
                assert forall|j: int| 0 <= j < c.properties@.len() implies required_ordered((#[trigger] c.properties@[j]).1) by {
                    assert(decreases_to!(entries@[pi].1 => props));
                    assert(decreases_to!(props => props@));
                    assert(decreases_to!(props@ => props@[j]));
                    assert(decreases_to!(props@[j] => props@[j].1));
                    assert(json_wf(props@[j].1));
                    law_required_in_key_order(c.properties@[j].1, props@[j].1);
                }
            }
        } else {
            assert(c.required@.map_values(|x: String| x@) =~= Seq::<Seq<char>>::empty());
        }
        if c.kind == SchemaKind::Array {
            let ii = find_key(o, "items"@).unwrap();
            assert(json_wf(o[ii].1));
            assert(decreases_to!(v => entries));
            assert(decreases_to!(entries => entries@));
            assert(decreases_to!(entries@ => entries@[ii]));
            assert(decreases_to!(entries@[ii] => entries@[ii].1));
            law_required_in_key_order(*c.items.unwrap(), o[ii].1);
        }
    }
}

} // verus!
