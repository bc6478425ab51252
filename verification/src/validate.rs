//! Validation of tool inputs against compiled schemas.
use vstd::prelude::*;
use crate::codes::{MAX_DIAGNOSTICS, MAX_STRING_BYTES};
use crate::json::{fits_i64, JsonValue, JsonNumber, lookup, has_key, contains_key, get_key, json_eq, schema_values_equal};
use crate::numeric::{num_scaled, numeric_compare, NumOrder};
use crate::pattern::{pattern_is_match, regex_matches};
use crate::schema::{CompiledSchema, SchemaKind, value_compatible, schema_value_compatible};
use crate::text::{string_of, join_key, join_index, escape_seq, decimal, utf8_len};

verus! {

/// One violated constraint: where in the input, and which constraint.
#[derive(Debug)]
pub struct ValidationIssue {
    pub path: String,
    pub constraint: String,
}

pub open spec fn issue_view(i: ValidationIssue) -> (Seq<char>, Seq<char>) {
    (i.path@, i.constraint@)
}

pub open spec fn type_label(k: SchemaKind) -> Seq<char> {
    match k {
        SchemaKind::Object => "type:Object"@,
        SchemaKind::Array => "type:Array"@,
        SchemaKind::String => "type:String"@,
        SchemaKind::Integer => "type:Integer"@,
        SchemaKind::Number => "type:Number"@,
        SchemaKind::Boolean => "type:Boolean"@,
        SchemaKind::Null => "type:Null"@,
    }
}

fn type_constraint(k: SchemaKind) -> (r: String)
    ensures
        r@ == type_label(k),
{
    match k {
        SchemaKind::Object => string_of("type:Object"),
        SchemaKind::Array => string_of("type:Array"),
        SchemaKind::String => string_of("type:String"),
        SchemaKind::Integer => string_of("type:Integer"),
        SchemaKind::Number => string_of("type:Number"),
        SchemaKind::Boolean => string_of("type:Boolean"),
        SchemaKind::Null => string_of("type:Null"),
    }
}

pub open spec fn child_path(p: Seq<char>, key: Seq<char>) -> Seq<char> {
    p + seq!['/'] + escape_seq(key)
}

pub open spec fn index_path(p: Seq<char>, i: int) -> Seq<char> {
    p + seq!['/'] + decimal(i as nat)
}

pub open spec fn enum_admits(s: CompiledSchema, v: JsonValue) -> bool {
    s.enum_values@.len() == 0 || exists|i: int| 0 <= i < s.enum_values@.len() && json_eq(#[trigger] s.enum_values@[i], v)
}

/// The first issue of `v` against `s`, at input path `p`, in the order in
/// which validation reports issues: the node's type, its `enum`, then the
/// issues of its kind (see `kind_issue`).
pub open spec fn first_issue(s: CompiledSchema, v: JsonValue, p: Seq<char>) -> Option<(Seq<char>, Seq<char>)>
    decreases s, 2int, 0int,
{
    if !value_compatible(s.kind, v) {
        Some((p, type_label(s.kind)))
    } else if !enum_admits(s, v) {
        Some((p, "enum"@))
    } else {
        kind_issue(s, v, p)
    }
}

/// For an object: the missing required properties, the unknown properties and
/// the properties' own issues in property order; for an array: its size
/// limits, uniqueness and its items in order; for a string: its byte limit,
/// length limits and pattern; for a number: its bounds.
pub open spec fn kind_issue(s: CompiledSchema, v: JsonValue, p: Seq<char>) -> Option<(Seq<char>, Seq<char>)>
    decreases s, 1int, 0int,
{
    match v {
        JsonValue::Object(entries) => if s.kind == SchemaKind::Object {
            match required_issue(s, entries@, p, 0) {
                Some(x) => Some(x),
                None => match unknown_issue(s, entries@, p, 0) {
                    Some(x) => Some(x),
                    None => property_issue(s, entries@, p, 0),
                },
            }
        } else {
            None
        },
        JsonValue::Array(items) => if s.kind == SchemaKind::Array {
            match array_size_issue(s, items@, p) {
                Some(x) => Some(x),
                None => item_issue(s, items@, p, 0),
            }
        } else {
            None
        },
        JsonValue::Str(text) => if s.kind == SchemaKind::String {
            string_issue(s, text@, p)
        } else {
            None
        },
        JsonValue::Number(n) => if s.kind == SchemaKind::Integer || s.kind == SchemaKind::Number {
            number_issue(s, n, p)
        } else {
            None
        },
        _ => None,
    }
}

pub open spec fn array_size_issue(s: CompiledSchema, arr: Seq<JsonValue>, p: Seq<char>) -> Option<(Seq<char>, Seq<char>)> {
    if s.min_items matches Some(n) && arr.len() < n {
        Some((p, "minItems"@))
    } else if s.max_items matches Some(n) && arr.len() > n {
        Some((p, "maxItems"@))
    } else if s.unique_items && exists|i: int, j: int| 0 <= i < j < arr.len() && json_eq(#[trigger] arr[i], #[trigger] arr[j]) {
        Some((p, "uniqueItems"@))
    } else {
        None
    }
}

pub open spec fn string_issue(s: CompiledSchema, text: Seq<char>, p: Seq<char>) -> Option<(Seq<char>, Seq<char>)> {
    if utf8_len(text) > MAX_STRING_BYTES {
        Some((p, "stringBytes"@))
    } else if s.min_length matches Some(n) && text.len() < n {
        Some((p, "minLength"@))
    } else if s.max_length matches Some(n) && text.len() > n {
        Some((p, "maxLength"@))
    } else if s.pattern matches Some(pat) && !regex_matches(pat.source(), text) {
        Some((p, "pattern"@))
    } else {
        None
    }
}

pub open spec fn number_issue(s: CompiledSchema, n: JsonNumber, p: Seq<char>) -> Option<(Seq<char>, Seq<char>)> {
    if s.minimum matches Some(b) && num_scaled(n) < num_scaled(b) {
        Some((p, "minimum"@))
    } else if s.maximum matches Some(b) && num_scaled(n) > num_scaled(b) {
        Some((p, "maximum"@))
    } else {
        None
    }
}

pub open spec fn first_of(g: Option<(Seq<char>, Seq<char>)>, h: Option<(Seq<char>, Seq<char>)>) -> Option<(Seq<char>, Seq<char>)> {
    match g {
        Some(x) => Some(x),
        None => h,
    }
}

/// The first required name, from position `i` on, that the object lacks.
pub open spec fn required_issue(s: CompiledSchema, obj: Seq<(String, JsonValue)>, p: Seq<char>, i: int) -> Option<(Seq<char>, Seq<char>)>
    decreases s, 0int, s.required@.len() - i,
{
    if i < 0 || i >= s.required@.len() {
        None
    } else if !has_key(obj, s.required@[i]@) {
        Some((child_path(p, s.required@[i]@), "required"@))
    } else {
        required_issue(s, obj, p, i + 1)
    }
}

/// The first entry of the object, from position `i` on, that the schema does
/// not declare.
pub open spec fn unknown_issue(s: CompiledSchema, obj: Seq<(String, JsonValue)>, p: Seq<char>, i: int) -> Option<(Seq<char>, Seq<char>)>
    decreases s, 0int, obj.len() - i,
{
    if i < 0 || i >= obj.len() {
        None
    } else if !has_key(s.properties@, obj[i].0@) {
        Some((child_path(p, obj[i].0@), "additionalProperties:false"@))
    } else {
        unknown_issue(s, obj, p, i + 1)
    }
}

/// The first issue of a present property, from property `i` on.
pub open spec fn property_issue(s: CompiledSchema, obj: Seq<(String, JsonValue)>, p: Seq<char>, i: int) -> Option<(Seq<char>, Seq<char>)>
    decreases s, 0int, s.properties@.len() - i,
{
    if i < 0 || i >= s.properties@.len() {
        None
    } else {
        let here = match lookup(obj, s.properties@[i].0@) {
            Some(child) => first_issue(s.properties@[i].1, child, child_path(p, s.properties@[i].0@)),
            None => None,
        };
        match here {
            Some(x) => Some(x),
            None => property_issue(s, obj, p, i + 1),
        }
    }
}

/// The first issue of an item, from item `i` on.
pub open spec fn item_issue(s: CompiledSchema, arr: Seq<JsonValue>, p: Seq<char>, i: int) -> Option<(Seq<char>, Seq<char>)>
    decreases s, 0int, arr.len() - i,
{
    if i < 0 || i >= arr.len() {
        None
    } else {
        match s.items {
            Some(b) => match first_issue(*b, arr[i], index_path(p, i)) {
                Some(x) => Some(x),
                None => item_issue(s, arr, p, i + 1),
            },
            None => None,
        }
    }
}

// ---------------------------------------------------------------------------
// Every issue, in report order.

/// The issue `(p, c)` when `b` holds, else nothing.
pub open spec fn opt_issue(b: bool, p: Seq<char>, c: Seq<char>) -> Seq<(Seq<char>, Seq<char>)> {
    if b {
        seq![(p, c)]
    } else {
        Seq::empty()
    }
}

/// Every issue of `v` against `s`, at input path `p`, in the order in which
/// validation reports them: a node of the wrong type reports only that;
/// otherwise its `enum`, then the issues of its kind (see `kind_issues`).
pub open spec fn all_issues(s: CompiledSchema, v: JsonValue, p: Seq<char>) -> Seq<(Seq<char>, Seq<char>)>
    decreases s, 2int, 0int,
{
    if !value_compatible(s.kind, v) {
        seq![(p, type_label(s.kind))]
    } else {
        opt_issue(!enum_admits(s, v), p, "enum"@) + kind_issues(s, v, p)
    }
}

/// For an object: each missing required property, each unknown property and
/// the issues of each present property, in property order; for an array: its
/// size limits and uniqueness, then the issues of its items in order; for a
/// string: its byte limit, length limits and pattern; for a number: its
/// bounds.
pub open spec fn kind_issues(s: CompiledSchema, v: JsonValue, p: Seq<char>) -> Seq<(Seq<char>, Seq<char>)>
    decreases s, 1int, 0int,
{
    match v {
        JsonValue::Object(entries) => if s.kind == SchemaKind::Object {
            required_issues(s, entries@, p, 0) + unknown_issues(s, entries@, p, 0) + property_issues(s, entries@, p, 0)
        } else {
            Seq::empty()
        },
        JsonValue::Array(items) => if s.kind == SchemaKind::Array {
            array_size_issues(s, items@, p) + item_issues(s, items@, p, 0)
        } else {
            Seq::empty()
        },
        JsonValue::Str(text) => if s.kind == SchemaKind::String {
            string_issues(s, text@, p)
        } else {
            Seq::empty()
        },
        JsonValue::Number(n) => if s.kind == SchemaKind::Integer || s.kind == SchemaKind::Number {
            number_issues(s, n, p)
        } else {
            Seq::empty()
        },
        _ => Seq::empty(),
    }
}

pub open spec fn has_duplicate(arr: Seq<JsonValue>) -> bool {
    exists|i: int, j: int| 0 <= i < j < arr.len() && json_eq(#[trigger] arr[i], #[trigger] arr[j])
}

pub open spec fn array_size_issues(s: CompiledSchema, arr: Seq<JsonValue>, p: Seq<char>) -> Seq<(Seq<char>, Seq<char>)> {
    opt_issue((s.min_items matches Some(n) && arr.len() < n), p, "minItems"@)
        + opt_issue((s.max_items matches Some(n) && arr.len() > n), p, "maxItems"@)
        + opt_issue(s.unique_items && has_duplicate(arr), p, "uniqueItems"@)
}

pub open spec fn string_issues(s: CompiledSchema, text: Seq<char>, p: Seq<char>) -> Seq<(Seq<char>, Seq<char>)> {
    opt_issue(utf8_len(text) > MAX_STRING_BYTES, p, "stringBytes"@)
        + opt_issue((s.min_length matches Some(n) && text.len() < n), p, "minLength"@)
        + opt_issue((s.max_length matches Some(n) && text.len() > n), p, "maxLength"@)
        + opt_issue((s.pattern matches Some(pat) && !regex_matches(pat.source(), text)), p, "pattern"@)
}

pub open spec fn number_issues(s: CompiledSchema, n: JsonNumber, p: Seq<char>) -> Seq<(Seq<char>, Seq<char>)> {
    opt_issue((s.minimum matches Some(b) && num_scaled(n) < num_scaled(b)), p, "minimum"@)
        + opt_issue((s.maximum matches Some(b) && num_scaled(n) > num_scaled(b)), p, "maximum"@)
}

/// The required names, from position `i` on, that the object lacks.
pub open spec fn required_issues(s: CompiledSchema, obj: Seq<(String, JsonValue)>, p: Seq<char>, i: int) -> Seq<(Seq<char>, Seq<char>)>
    decreases s, 0int, s.required@.len() - i,
{
    if i < 0 || i >= s.required@.len() {
        Seq::empty()
    } else {
        opt_issue(!has_key(obj, s.required@[i]@), child_path(p, s.required@[i]@), "required"@)
            + required_issues(s, obj, p, i + 1)
    }
}

/// The entries of the object, from position `i` on, that the schema does not
/// declare.
pub open spec fn unknown_issues(s: CompiledSchema, obj: Seq<(String, JsonValue)>, p: Seq<char>, i: int) -> Seq<(Seq<char>, Seq<char>)>
    decreases s, 0int, obj.len() - i,
{
    if i < 0 || i >= obj.len() {
        Seq::empty()
    } else {
        opt_issue(!has_key(s.properties@, obj[i].0@), child_path(p, obj[i].0@), "additionalProperties:false"@)
            + unknown_issues(s, obj, p, i + 1)
    }
}

/// The issues of the present properties, from property `i` on.
pub open spec fn property_issues(s: CompiledSchema, obj: Seq<(String, JsonValue)>, p: Seq<char>, i: int) -> Seq<(Seq<char>, Seq<char>)>
    decreases s, 0int, s.properties@.len() - i,
{
    if i < 0 || i >= s.properties@.len() {
        Seq::empty()
    } else {
        let here = match lookup(obj, s.properties@[i].0@) {
            Some(child) => all_issues(s.properties@[i].1, child, child_path(p, s.properties@[i].0@)),
            None => Seq::empty(),
        };
        here + property_issues(s, obj, p, i + 1)
    }
}

/// The issues of the items, from item `i` on.
pub open spec fn item_issues(s: CompiledSchema, arr: Seq<JsonValue>, p: Seq<char>, i: int) -> Seq<(Seq<char>, Seq<char>)>
    decreases s, 0int, arr.len() - i,
{
    if i < 0 || i >= arr.len() {
        Seq::empty()
    } else {
        match s.items {
            Some(b) => all_issues(*b, arr[i], index_path(p, i)) + item_issues(s, arr, p, i + 1),
            None => Seq::empty(),
        }
    }
}

/// The first element of `x`, if any.
pub open spec fn head(x: Seq<(Seq<char>, Seq<char>)>) -> Option<(Seq<char>, Seq<char>)> {
    if x.len() > 0 {
        Some(x[0])
    } else {
        None
    }
}

proof fn lemma_head_add(a: Seq<(Seq<char>, Seq<char>)>, b: Seq<(Seq<char>, Seq<char>)>)
    ensures
        head(a + b) == first_of(head(a), head(b)),
{
    if a.len() > 0 {
        assert((a + b)[0] == a[0]);
    } else {
        assert(a + b =~= b);
    }
}

/// The first issue is the first of all issues.
proof fn lemma_head_all(s: CompiledSchema, v: JsonValue, p: Seq<char>)
    ensures
        first_issue(s, v, p) == head(all_issues(s, v, p)),
    decreases s, 2int, 0int,
{
    if value_compatible(s.kind, v) {
        lemma_head_kind(s, v, p);
        lemma_head_add(opt_issue(!enum_admits(s, v), p, "enum"@), kind_issues(s, v, p));
    }
}

proof fn lemma_head_kind(s: CompiledSchema, v: JsonValue, p: Seq<char>)
    ensures
        kind_issue(s, v, p) == head(kind_issues(s, v, p)),
    decreases s, 1int, 0int,
{
    match v {
        JsonValue::Object(entries) => if s.kind == SchemaKind::Object {
            let o = entries@;
            lemma_head_required(s, o, p, 0);
            lemma_head_unknown(s, o, p, 0);
            lemma_head_property(s, o, p, 0);
            lemma_head_add(required_issues(s, o, p, 0), unknown_issues(s, o, p, 0));
            lemma_head_add(required_issues(s, o, p, 0) + unknown_issues(s, o, p, 0), property_issues(s, o, p, 0));
        },
        JsonValue::Array(items) => if s.kind == SchemaKind::Array {
            let a = items@;
            lemma_head_item(s, a, p, 0);
            let m1 = opt_issue((s.min_items matches Some(n) && a.len() < n), p, "minItems"@);
            let m2 = opt_issue((s.max_items matches Some(n) && a.len() > n), p, "maxItems"@);
            let m3 = opt_issue(s.unique_items && has_duplicate(a), p, "uniqueItems"@);
            lemma_head_add(m1, m2);
            lemma_head_add(m1 + m2, m3);
            lemma_head_add(array_size_issues(s, a, p), item_issues(s, a, p, 0));
        },
        JsonValue::Str(text) => if s.kind == SchemaKind::String {
            let t = text@;
            let m1 = opt_issue(utf8_len(t) > MAX_STRING_BYTES, p, "stringBytes"@);
            let m2 = opt_issue((s.min_length matches Some(n) && t.len() < n), p, "minLength"@);
            let m3 = opt_issue((s.max_length matches Some(n) && t.len() > n), p, "maxLength"@);
            let m4 = opt_issue((s.pattern matches Some(pat) && !regex_matches(pat.source(), t)), p, "pattern"@);
            lemma_head_add(m1, m2);
            lemma_head_add(m1 + m2, m3);
            lemma_head_add(m1 + m2 + m3, m4);
        },
        JsonValue::Number(n) => if s.kind == SchemaKind::Integer || s.kind == SchemaKind::Number {
            let m1 = opt_issue((s.minimum matches Some(b) && num_scaled(n) < num_scaled(b)), p, "minimum"@);
            let m2 = opt_issue((s.maximum matches Some(b) && num_scaled(n) > num_scaled(b)), p, "maximum"@);
            lemma_head_add(m1, m2);
        },
        _ => {},
    }
}

proof fn lemma_head_required(s: CompiledSchema, obj: Seq<(String, JsonValue)>, p: Seq<char>, i: int)
    ensures
        required_issue(s, obj, p, i) == head(required_issues(s, obj, p, i)),
    decreases s.required@.len() - i,
{
    if 0 <= i < s.required@.len() {
        lemma_head_required(s, obj, p, i + 1);
        lemma_head_add(opt_issue(!has_key(obj, s.required@[i]@), child_path(p, s.required@[i]@), "required"@), required_issues(s, obj, p, i + 1));
    }
}

proof fn lemma_head_unknown(s: CompiledSchema, obj: Seq<(String, JsonValue)>, p: Seq<char>, i: int)
    ensures
        unknown_issue(s, obj, p, i) == head(unknown_issues(s, obj, p, i)),
    decreases obj.len() - i,
{
    if 0 <= i < obj.len() {
        lemma_head_unknown(s, obj, p, i + 1);
        lemma_head_add(opt_issue(!has_key(s.properties@, obj[i].0@), child_path(p, obj[i].0@), "additionalProperties:false"@), unknown_issues(s, obj, p, i + 1));
    }
}

proof fn lemma_head_property(s: CompiledSchema, obj: Seq<(String, JsonValue)>, p: Seq<char>, i: int)
    ensures
        property_issue(s, obj, p, i) == head(property_issues(s, obj, p, i)),
    decreases s, 0int, s.properties@.len() - i,
{
    if 0 <= i < s.properties@.len() {
        lemma_head_property(s, obj, p, i + 1);
        let here = match lookup(obj, s.properties@[i].0@) {
            Some(child) => all_issues(s.properties@[i].1, child, child_path(p, s.properties@[i].0@)),
            None => Seq::empty(),
        };
        match lookup(obj, s.properties@[i].0@) {
            Some(child) => {
                assert(decreases_to!(s => s.properties));
                assert(decreases_to!(s.properties => s.properties@));
                assert(decreases_to!(s.properties@ => s.properties@[i]));
                assert(decreases_to!(s.properties@[i] => s.properties@[i].1));
                lemma_head_all(s.properties@[i].1, child, child_path(p, s.properties@[i].0@));
            },
            None => {},
        }
        lemma_head_add(here, property_issues(s, obj, p, i + 1));
    }
}

proof fn lemma_head_item(s: CompiledSchema, arr: Seq<JsonValue>, p: Seq<char>, i: int)
    ensures
        item_issue(s, arr, p, i) == head(item_issues(s, arr, p, i)),
    decreases s, 0int, arr.len() - i,
{
    if 0 <= i < arr.len() {
        match s.items {
            Some(b) => {
                lemma_head_item(s, arr, p, i + 1);
                assert(decreases_to!(s => s.items));
                assert(decreases_to!(s.items => *b));
                lemma_head_all(*b, arr[i], index_path(p, i));
                lemma_head_add(all_issues(*b, arr[i], index_path(p, i)), item_issues(s, arr, p, i + 1));
            },
            None => {},
        }
    }
}

} // verus!

verus! {

/// `issues` is `orig` followed by the first issues of `all`, in order; it
/// holds fewer than all of them only when it holds `MAX_DIAGNOSTICS` or more,
/// and never more than `MAX_DIAGNOSTICS` unless `orig` did and nothing was
/// added.
pub open spec fn collected(issues: Seq<ValidationIssue>, orig: Seq<ValidationIssue>, all: Seq<(Seq<char>, Seq<char>)>) -> bool {
    &&& orig.len() <= issues.len() <= orig.len() + all.len()
    &&& forall|i: int| 0 <= i < orig.len() ==> issues[i] == orig[i]
    &&& forall|i: int| orig.len() <= i < issues.len() ==> issue_view(#[trigger] issues[i]) == all[i - orig.len()]
    &&& issues.len() < orig.len() + all.len() ==> issues.len() >= MAX_DIAGNOSTICS
    &&& (issues.len() <= MAX_DIAGNOSTICS || issues.len() == orig.len())
}

/// What one step collects follows what the steps before it collected; a step
/// after an unfinished one adds nothing.
proof fn lemma_collected_append(a: Seq<ValidationIssue>, o: Seq<ValidationIssue>, x: Seq<(Seq<char>, Seq<char>)>,
    b: Seq<ValidationIssue>, y: Seq<(Seq<char>, Seq<char>)>)
    requires
        collected(a, o, x),
        collected(b, a, y),
        a.len() < o.len() + x.len() ==> b == a,
    ensures
        collected(b, o, x + y),
{
    assert forall|i: int| 0 <= i < o.len() implies b[i] == o[i] by {
        assert(b[i] == a[i]);
    }
    assert forall|i: int| o.len() <= i < b.len() implies issue_view(#[trigger] b[i]) == (x + y)[i - o.len()] by {
        if i < a.len() {
            assert(b[i] == a[i]);
            assert(issue_view(a[i]) == x[i - o.len()]);
        } else {
            assert(issue_view(b[i]) == y[i - a.len()]);
        }
    }
}

proof fn lemma_collected_none(a: Seq<ValidationIssue>, o: Seq<ValidationIssue>, x: Seq<(Seq<char>, Seq<char>)>, p: Seq<char>, c: Seq<char>)
    requires
        collected(a, o, x),
    ensures
        collected(a, o, x + opt_issue(false, p, c)),
{
    assert(x + opt_issue(false, p, c) =~= x);
}

fn issue(path: String, constraint: &str) -> (r: ValidationIssue)
    ensures
        r.path@ == path@,
        r.constraint@ == constraint@,
{
    ValidationIssue { path, constraint: string_of(constraint) }
}

/// Adds one issue while fewer than `MAX_DIAGNOSTICS` are held.
fn push_issue(issues: &mut Vec<ValidationIssue>, path: String, constraint: &str, Ghost(orig): Ghost<Seq<ValidationIssue>>,
    Ghost(acc): Ghost<Seq<(Seq<char>, Seq<char>)>>)
    requires
        collected(old(issues)@, orig, acc),
        orig.len() < MAX_DIAGNOSTICS,
    ensures
        collected(final(issues)@, orig, acc + opt_issue(true, path@, constraint@)),
{
    let ghost before = issues@;
    let ghost it = (path@, constraint@);
    let ghost all = acc + opt_issue(true, it.0, it.1);
    if issues.len() < MAX_DIAGNOSTICS {
        issues.push(issue(path, constraint));
        proof {
            assert forall|i: int| 0 <= i < orig.len() implies issues@[i] == orig[i] by {
                assert(issues@[i] == before[i]);
            }
            assert forall|i: int| orig.len() <= i < issues@.len() implies issue_view(#[trigger] issues@[i]) == all[i - orig.len()] by {
                if i < before.len() {
                    assert(issues@[i] == before[i]);
                    assert(issue_view(before[i]) == acc[i - orig.len()]);
                }
            }
        }
    } else {
        proof {
            assert forall|i: int| orig.len() <= i < issues@.len() implies issue_view(#[trigger] issues@[i]) == all[i - orig.len()] by {
                assert(issue_view(before[i]) == acc[i - orig.len()]);
            }
        }
    }
}

/// Validates `value` against `schema` at input path `path`, adding the issues
/// found to `issues`, in order; no node is examined once `issues` holds
/// `MAX_DIAGNOSTICS` issues.
pub fn validate_value(schema: &CompiledSchema, value: &JsonValue, path: &str, issues: &mut Vec<ValidationIssue>)
    ensures
        collected(final(issues)@, old(issues)@, all_issues(*schema, *value, path@)),
        old(issues)@.len() >= MAX_DIAGNOSTICS ==> final(issues)@ == old(issues)@,
    decreases *schema, 1int,
{
    let ghost orig = issues@;
    if issues.len() >= MAX_DIAGNOSTICS {
        return;
    }
    let ghost empty = Seq::<(Seq<char>, Seq<char>)>::empty();
    assert(collected(issues@, orig, empty));
    if !schema_value_compatible(schema.kind, value) {
        push_issue(issues, string_of(path), type_constraint(schema.kind).as_str(), Ghost(orig), Ghost(empty));
        assert(empty + opt_issue(true, path@, type_label(schema.kind)) =~= all_issues(*schema, *value, path@));
        return;
    }
    let mut found = schema.enum_values.len() == 0;
    let mut i: usize = 0;
    while i < schema.enum_values.len()
        invariant
            i <= schema.enum_values@.len(),
            found == (schema.enum_values@.len() == 0 || exists|j: int| 0 <= j < i && json_eq(#[trigger] schema.enum_values@[j], *value)),
        decreases schema.enum_values@.len() - i,
    {
        if schema_values_equal(&schema.enum_values[i], value) {
            found = true;
        }
        i += 1;
    }
    let ghost e = opt_issue(!enum_admits(*schema, *value), path@, "enum"@);
    if !found {
        push_issue(issues, string_of(path), "enum", Ghost(orig), Ghost(empty));
        assert(empty + opt_issue(true, path@, "enum"@) =~= e);
    } else {
        assert(empty =~= e);
    }
    assert(all_issues(*schema, *value, path@) == e + kind_issues(*schema, *value, path@));
    match value {
        JsonValue::Object(obj) => {
            if schema.kind == SchemaKind::Object {
                validate_object(schema, obj, path, issues, Ghost(orig), Ghost(e));
                assert(e + (required_issues(*schema, obj@, path@, 0) + unknown_issues(*schema, obj@, path@, 0)
                    + property_issues(*schema, obj@, path@, 0)) =~= all_issues(*schema, *value, path@));
            } else {
                assert(e =~= all_issues(*schema, *value, path@));
            }
        },
        JsonValue::Array(arr) => {
            if schema.kind == SchemaKind::Array {
                validate_array(schema, arr, path, issues, Ghost(orig), Ghost(e));
                assert(e + (array_size_issues(*schema, arr@, path@) + item_issues(*schema, arr@, path@, 0)) =~= all_issues(*schema, *value, path@));
            } else {
                assert(e =~= all_issues(*schema, *value, path@));
            }
        },
        JsonValue::Str(text) => {
            if schema.kind == SchemaKind::String {
                validate_string(schema, text, path, issues, Ghost(orig), Ghost(e));
            } else {
                assert(e =~= all_issues(*schema, *value, path@));
            }
        },
        JsonValue::Number(n) => {
            if schema.kind == SchemaKind::Integer || schema.kind == SchemaKind::Number {
                validate_number(schema, n, path, issues, Ghost(orig), Ghost(e));
            } else {
                assert(e =~= all_issues(*schema, *value, path@));
            }
        },
        _ => {
            assert(e =~= all_issues(*schema, *value, path@));
        },
    }
}

fn validate_string(schema: &CompiledSchema, text: &String, path: &str, issues: &mut Vec<ValidationIssue>,
    Ghost(orig): Ghost<Seq<ValidationIssue>>, Ghost(acc): Ghost<Seq<(Seq<char>, Seq<char>)>>)
    requires
        orig.len() < MAX_DIAGNOSTICS,
        collected(old(issues)@, orig, acc),
    ensures
        collected(final(issues)@, orig, acc + string_issues(*schema, text@, path@)),
{
    let ghost p = path@;
    let ghost t = text@;
    let c1 = text.as_str().len() > MAX_STRING_BYTES;
    if c1 {
        push_issue(issues, string_of(path), "stringBytes", Ghost(orig), Ghost(acc));
    } else {
        proof { lemma_collected_none(issues@, orig, acc, p, "stringBytes"@); }
    }
    let ghost h1 = acc + opt_issue(c1, p, "stringBytes"@);
    let n = text.as_str().unicode_len();
    let c2 = match schema.min_length {
        Some(x) => n < x,
        None => false,
    };
    if c2 {
        push_issue(issues, string_of(path), "minLength", Ghost(orig), Ghost(h1));
    } else {
        proof { lemma_collected_none(issues@, orig, h1, p, "minLength"@); }
    }
    let ghost h2 = h1 + opt_issue(c2, p, "minLength"@);
    let c3 = match schema.max_length {
        Some(x) => n > x,
        None => false,
    };
    if c3 {
        push_issue(issues, string_of(path), "maxLength", Ghost(orig), Ghost(h2));
    } else {
        proof { lemma_collected_none(issues@, orig, h2, p, "maxLength"@); }
    }
    let ghost h3 = h2 + opt_issue(c3, p, "maxLength"@);
    let c4 = match &schema.pattern {
        Some(pat) => !pattern_is_match(pat, text.as_str()),
        None => false,
    };
    if c4 {
        push_issue(issues, string_of(path), "pattern", Ghost(orig), Ghost(h3));
    } else {
        proof { lemma_collected_none(issues@, orig, h3, p, "pattern"@); }
    }
    let ghost h4 = h3 + opt_issue(c4, p, "pattern"@);
    assert(c1 == (utf8_len(t) > MAX_STRING_BYTES));
    assert(c2 == (schema.min_length matches Some(m) && t.len() < m));
    assert(c3 == (schema.max_length matches Some(m) && t.len() > m));
    assert(c4 == (schema.pattern matches Some(pat) && !regex_matches(pat.source(), t)));
    assert(h4 =~= acc + string_issues(*schema, t, p));
}

fn validate_number(schema: &CompiledSchema, n: &JsonNumber, path: &str, issues: &mut Vec<ValidationIssue>,
    Ghost(orig): Ghost<Seq<ValidationIssue>>, Ghost(acc): Ghost<Seq<(Seq<char>, Seq<char>)>>)
    requires
        orig.len() < MAX_DIAGNOSTICS,
        collected(old(issues)@, orig, acc),
    ensures
        collected(final(issues)@, orig, acc + number_issues(*schema, *n, path@)),
{
    let ghost p = path@;
    let c1 = match &schema.minimum {
        Some(b) => numeric_compare(n, b) == NumOrder::Less,
        None => false,
    };
    if c1 {
        push_issue(issues, string_of(path), "minimum", Ghost(orig), Ghost(acc));
    } else {
        proof { lemma_collected_none(issues@, orig, acc, p, "minimum"@); }
    }
    let ghost h1 = acc + opt_issue(c1, p, "minimum"@);
    let c2 = match &schema.maximum {
        Some(b) => numeric_compare(n, b) == NumOrder::Greater,
        None => false,
    };
    if c2 {
        push_issue(issues, string_of(path), "maximum", Ghost(orig), Ghost(h1));
    } else {
        proof { lemma_collected_none(issues@, orig, h1, p, "maximum"@); }
    }
    let ghost h2 = h1 + opt_issue(c2, p, "maximum"@);
    assert(c1 == (schema.minimum matches Some(b) && num_scaled(*n) < num_scaled(b)));
    assert(c2 == (schema.maximum matches Some(b) && num_scaled(*n) > num_scaled(b)));
    assert(h2 =~= acc + number_issues(*schema, *n, p));
}

fn validate_array(schema: &CompiledSchema, arr: &Vec<JsonValue>, path: &str, issues: &mut Vec<ValidationIssue>,
    Ghost(orig): Ghost<Seq<ValidationIssue>>, Ghost(acc): Ghost<Seq<(Seq<char>, Seq<char>)>>)
    requires
        orig.len() < MAX_DIAGNOSTICS,
        collected(old(issues)@, orig, acc),
    ensures
        collected(final(issues)@, orig, acc + (array_size_issues(*schema, arr@, path@) + item_issues(*schema, arr@, path@, 0))),
    decreases *schema, 0int,
{
    let ghost p = path@;
    let c1 = match schema.min_items {
        Some(m) => arr.len() < m,
        None => false,
    };
    if c1 {
        push_issue(issues, string_of(path), "minItems", Ghost(orig), Ghost(acc));
    } else {
        proof { lemma_collected_none(issues@, orig, acc, p, "minItems"@); }
    }
    let ghost h1 = acc + opt_issue(c1, p, "minItems"@);
    let c2 = match schema.max_items {
        Some(m) => arr.len() > m,
        None => false,
    };
    if c2 {
        push_issue(issues, string_of(path), "maxItems", Ghost(orig), Ghost(h1));
    } else {
        proof { lemma_collected_none(issues@, orig, h1, p, "maxItems"@); }
    }
    let ghost h2 = h1 + opt_issue(c2, p, "maxItems"@);
    let mut dup = false;
    if schema.unique_items {
        let mut i: usize = 0;
        while i < arr.len() && !dup
            invariant
                i <= arr@.len(),
                dup ==> has_duplicate(arr@),
                !dup ==> forall|a: int, b: int| 0 <= a < b < i ==> !json_eq(#[trigger] arr@[a], #[trigger] arr@[b]),
            decreases arr@.len() - i,
        {
            let mut j: usize = 0;
            while j < i && !dup
                invariant
                    j <= i < arr@.len(),
                    dup ==> has_duplicate(arr@),
                    !dup ==> forall|a: int, b: int| 0 <= a < b < i ==> !json_eq(#[trigger] arr@[a], #[trigger] arr@[b]),
                    !dup ==> forall|a: int| 0 <= a < j ==> !json_eq(#[trigger] arr@[a], arr@[i as int]),
                decreases i - j,
            {
                if schema_values_equal(&arr[j], &arr[i]) {
                    dup = true;
                }
                j += 1;
            }
            i += 1;
        }
    }
    let c3 = schema.unique_items && dup;
    if c3 {
        push_issue(issues, string_of(path), "uniqueItems", Ghost(orig), Ghost(h2));
    } else {
        proof { lemma_collected_none(issues@, orig, h2, p, "uniqueItems"@); }
    }
    let ghost h3 = h2 + opt_issue(c3, p, "uniqueItems"@);
    assert(c1 == (schema.min_items matches Some(m) && arr@.len() < m));
    assert(c2 == (schema.max_items matches Some(m) && arr@.len() > m));
    assert(c3 == (schema.unique_items && has_duplicate(arr@)));
    let ghost base = acc + array_size_issues(*schema, arr@, p);
    assert(h3 =~= base);
    match &schema.items {
        Some(b) => {
            let ghost mut pre = Seq::<(Seq<char>, Seq<char>)>::empty();
            assert(pre + item_issues(*schema, arr@, p, 0) =~= item_issues(*schema, arr@, p, 0));
            assert(base + pre =~= base);
            let mut i: usize = 0;
            while i < arr.len()
                invariant
                    i <= arr@.len(),
                    p == path@,
                    orig.len() < MAX_DIAGNOSTICS,
                    schema.items == Some(*b),
                    collected(issues@, orig, base + pre),
                    pre + item_issues(*schema, arr@, p, i as int) == item_issues(*schema, arr@, p, 0),
                decreases arr@.len() - i,
            {
                proof {
                    assert(decreases_to!(*schema => schema.items));
                    assert(decreases_to!(schema.items => *b));
                }
                let ghost before = issues@;
                let ghost child = all_issues(**b, arr@[i as int], index_path(p, i as int));
                assert(item_issues(*schema, arr@, p, i as int) == child + item_issues(*schema, arr@, p, i + 1));
                validate_value(b, &arr[i], join_index(path, i).as_str(), issues);
                proof {
                    lemma_collected_append(before, orig, base + pre, issues@, child);
                    assert(base + pre + child =~= base + (pre + child));
                    assert(pre + (child + item_issues(*schema, arr@, p, i + 1)) =~= (pre + child) + item_issues(*schema, arr@, p, i + 1));
                    pre = pre + child;
                }
                i += 1;
            }
            assert(pre + item_issues(*schema, arr@, p, arr@.len() as int) =~= pre);
            assert(acc + (array_size_issues(*schema, arr@, p) + item_issues(*schema, arr@, p, 0)) =~= base + pre);
        },
        None => {
            assert(item_issues(*schema, arr@, p, 0) =~= Seq::<(Seq<char>, Seq<char>)>::empty());
            assert(acc + (array_size_issues(*schema, arr@, p) + item_issues(*schema, arr@, p, 0)) =~= base);
        },
    }
}

fn validate_object(schema: &CompiledSchema, obj: &Vec<(String, JsonValue)>, path: &str, issues: &mut Vec<ValidationIssue>,
    Ghost(orig): Ghost<Seq<ValidationIssue>>, Ghost(acc): Ghost<Seq<(Seq<char>, Seq<char>)>>)
    requires
        orig.len() < MAX_DIAGNOSTICS,
        collected(old(issues)@, orig, acc),
    ensures
        collected(final(issues)@, orig, acc + (required_issues(*schema, obj@, path@, 0) + unknown_issues(*schema, obj@, path@, 0)
            + property_issues(*schema, obj@, path@, 0))),
    decreases *schema, 0int,
{
    let ghost p = path@;
    let ghost mut pre = Seq::<(Seq<char>, Seq<char>)>::empty();
    assert(acc + pre =~= acc);
    assert(pre + required_issues(*schema, obj@, p, 0) =~= required_issues(*schema, obj@, p, 0));
    let mut k: usize = 0;
    while k < schema.required.len()
        invariant
            k <= schema.required@.len(),
            p == path@,
            orig.len() < MAX_DIAGNOSTICS,
            collected(issues@, orig, acc + pre),
            pre + required_issues(*schema, obj@, p, k as int) == required_issues(*schema, obj@, p, 0),
        decreases schema.required@.len() - k,
    {
        let ghost name = schema.required@[k as int]@;
        let c = !contains_key(obj, schema.required[k].as_str());
        let ghost step = opt_issue(c, child_path(p, name), "required"@);
        assert(required_issues(*schema, obj@, p, k as int) == step + required_issues(*schema, obj@, p, k + 1));
        if c {
            push_issue(issues, join_key(path, schema.required[k].as_str()), "required", Ghost(orig), Ghost(acc + pre));
        } else {
            proof { lemma_collected_none(issues@, orig, acc + pre, child_path(p, name), "required"@); }
        }
        proof {
            assert(acc + pre + step =~= acc + (pre + step));
            assert(pre + (step + required_issues(*schema, obj@, p, k + 1)) =~= (pre + step) + required_issues(*schema, obj@, p, k + 1));
            pre = pre + step;
        }
        k += 1;
    }
    assert(pre + required_issues(*schema, obj@, p, schema.required@.len() as int) =~= pre);
    let ghost base1 = acc + required_issues(*schema, obj@, p, 0);
    let ghost mut pre = Seq::<(Seq<char>, Seq<char>)>::empty();
    assert(base1 + pre =~= base1);
    assert(pre + unknown_issues(*schema, obj@, p, 0) =~= unknown_issues(*schema, obj@, p, 0));
    let mut i: usize = 0;
    while i < obj.len()
        invariant
            i <= obj@.len(),
            p == path@,
            orig.len() < MAX_DIAGNOSTICS,
            collected(issues@, orig, base1 + pre),
            pre + unknown_issues(*schema, obj@, p, i as int) == unknown_issues(*schema, obj@, p, 0),
        decreases obj@.len() - i,
    {
        let ghost name = obj@[i as int].0@;
        let c = !contains_key(&schema.properties, obj[i].0.as_str());
        let ghost step = opt_issue(c, child_path(p, name), "additionalProperties:false"@);
        assert(unknown_issues(*schema, obj@, p, i as int) == step + unknown_issues(*schema, obj@, p, i + 1));
        if c {
            push_issue(issues, join_key(path, obj[i].0.as_str()), "additionalProperties:false", Ghost(orig), Ghost(base1 + pre));
        } else {
            proof { lemma_collected_none(issues@, orig, base1 + pre, child_path(p, name), "additionalProperties:false"@); }
        }
        proof {
            assert(base1 + pre + step =~= base1 + (pre + step));
            assert(pre + (step + unknown_issues(*schema, obj@, p, i + 1)) =~= (pre + step) + unknown_issues(*schema, obj@, p, i + 1));
            pre = pre + step;
        }
        i += 1;
    }
    assert(pre + unknown_issues(*schema, obj@, p, obj@.len() as int) =~= pre);
    let ghost base2 = base1 + unknown_issues(*schema, obj@, p, 0);
    let ghost mut pre = Seq::<(Seq<char>, Seq<char>)>::empty();
    assert(base2 + pre =~= base2);
    assert(pre + property_issues(*schema, obj@, p, 0) =~= property_issues(*schema, obj@, p, 0));
    let mut j: usize = 0;
    while j < schema.properties.len()
        invariant
            j <= schema.properties@.len(),
            p == path@,
            orig.len() < MAX_DIAGNOSTICS,
            collected(issues@, orig, base2 + pre),
            pre + property_issues(*schema, obj@, p, j as int) == property_issues(*schema, obj@, p, 0),
        decreases schema.properties@.len() - j,
    {
        let ghost key = schema.properties@[j as int].0@;
        let ghost before = issues@;
        let ghost here = match lookup(obj@, key) {
            Some(child) => all_issues(schema.properties@[j as int].1, child, child_path(p, key)),
            None => Seq::<(Seq<char>, Seq<char>)>::empty(),
        };
        assert(property_issues(*schema, obj@, p, j as int) == here + property_issues(*schema, obj@, p, j + 1));
        match get_key(obj, schema.properties[j].0.as_str()) {
            Some(v) => {
                proof {
                    assert(decreases_to!(*schema => schema.properties));
                    assert(decreases_to!(schema.properties => schema.properties@));
                    assert(decreases_to!(schema.properties@ => schema.properties@[j as int]));
                    assert(decreases_to!(schema.properties@[j as int] => schema.properties@[j as int].1));
                }
                validate_value(&schema.properties[j].1, v, join_key(path, schema.properties[j].0.as_str()).as_str(), issues);
                proof {
                    lemma_collected_append(before, orig, base2 + pre, issues@, here);
                }
            },
            None => {
                proof {
                    assert(here =~= Seq::<(Seq<char>, Seq<char>)>::empty());
                    assert(base2 + pre + here =~= base2 + pre);
                }
            },
        }
        proof {
            assert(base2 + pre + here =~= base2 + (pre + here));
            assert(pre + (here + property_issues(*schema, obj@, p, j + 1)) =~= (pre + here) + property_issues(*schema, obj@, p, j + 1));
            pre = pre + here;
        }
        j += 1;
    }
    assert(pre + property_issues(*schema, obj@, p, schema.properties@.len() as int) =~= pre);
    assert(acc + (required_issues(*schema, obj@, p, 0) + unknown_issues(*schema, obj@, p, 0) + property_issues(*schema, obj@, p, 0))
        =~= base2 + pre);
}

} // verus!

verus! {

// ---------------------------------------------------------------------------
// Numeric bounds.

/// Every number in `v` that a number node of `s` describes lies within that
/// node's `minimum` and `maximum`, by exact value, at every depth.
pub open spec fn bounds_hold(s: CompiledSchema, v: JsonValue) -> bool
    decreases s,
{
    match v {
        JsonValue::Number(n) => (s.kind == SchemaKind::Integer || s.kind == SchemaKind::Number) ==> {
            &&& (s.minimum matches Some(b) ==> num_scaled(b) <= num_scaled(n))
            &&& (s.maximum matches Some(b) ==> num_scaled(n) <= num_scaled(b))
        },
        JsonValue::Object(es) => s.kind == SchemaKind::Object ==> forall|j: int| 0 <= j < s.properties@.len()
            ==> (lookup(es@, (#[trigger] s.properties@[j]).0@) matches Some(c) ==> bounds_hold(s.properties@[j].1, c)),
        JsonValue::Array(xs) => s.kind == SchemaKind::Array ==> match s.items {
            Some(b) => forall|i: int| 0 <= i < xs@.len() ==> bounds_hold(*b, #[trigger] xs@[i]),
            None => true,
        },
        _ => true,
    }
}

proof fn lemma_property_bounds(s: CompiledSchema, obj: Seq<(String, JsonValue)>, p: Seq<char>, i: int)
    requires
        0 <= i,
        property_issue(s, obj, p, i) is None,
    ensures
        forall|j: int| i <= j < s.properties@.len()
            ==> (lookup(obj, (#[trigger] s.properties@[j]).0@) matches Some(c) ==> bounds_hold(s.properties@[j].1, c)),
    decreases s, 0int, s.properties@.len() - i,
{
    if i < s.properties@.len() {
        if let Some(c) = lookup(obj, s.properties@[i].0@) {
            assert(decreases_to!(s => s.properties));
            assert(decreases_to!(s.properties => s.properties@));
            assert(decreases_to!(s.properties@ => s.properties@[i]));
            assert(decreases_to!(s.properties@[i] => s.properties@[i].1));
            law_no_issue_within_bounds(s.properties@[i].1, c, child_path(p, s.properties@[i].0@));
        }
        lemma_property_bounds(s, obj, p, i + 1);
    }
}

proof fn lemma_item_bounds(s: CompiledSchema, arr: Seq<JsonValue>, p: Seq<char>, i: int)
    requires
        0 <= i,
        item_issue(s, arr, p, i) is None,
        s.items is Some,
    ensures
        forall|j: int| i <= j < arr.len() ==> bounds_hold(*s.items->0, #[trigger] arr[j]),
    decreases s, 0int, arr.len() - i,
{
    if i < arr.len() {
        let b = s.items->0;
        assert(decreases_to!(s => s.items));
        law_no_issue_within_bounds(*b, arr[i], index_path(p, i));
        lemma_item_bounds(s, arr, p, i + 1);
    }
}

// ---------------------------------------------------------------------------
// What an accepted input satisfies.

/// `v` has the JSON type that the schema kind `k` names (an integer fits in
/// a signed 64-bit integer).
pub open spec fn has_type(k: SchemaKind, v: JsonValue) -> bool {
    match v {
        JsonValue::Object(_) => k == SchemaKind::Object,
        JsonValue::Array(_) => k == SchemaKind::Array,
        JsonValue::Str(_) => k == SchemaKind::String,
        JsonValue::Number(n) => k == SchemaKind::Number || (k == SchemaKind::Integer && fits_i64(n)),
        JsonValue::Bool(_) => k == SchemaKind::Boolean,
        JsonValue::Null => k == SchemaKind::Null,
    }
}

/// `v` satisfies every constraint of `s` at every depth: its type; its
/// `enum`; for a string, the byte limit, `minLength`, `maxLength` and
/// `pattern`; for a number, `minimum` and `maximum`; for an object, every
/// required name present, no undeclared name, and each declared property's
/// value conforming; for an array, `minItems`, `maxItems`, `uniqueItems` and
/// each item conforming to `items`.
pub open spec fn conforms(s: CompiledSchema, v: JsonValue) -> bool
    decreases s,
{
    &&& has_type(s.kind, v)
    &&& (s.enum_values@.len() > 0 ==> exists|i: int| 0 <= i < s.enum_values@.len() && json_eq(#[trigger] s.enum_values@[i], v))
    &&& match v {
        JsonValue::Str(t) => s.kind == SchemaKind::String ==> {
            &&& utf8_len(t@) <= MAX_STRING_BYTES
            &&& (s.min_length matches Some(n) ==> t@.len() >= n)
            &&& (s.max_length matches Some(n) ==> t@.len() <= n)
            &&& (s.pattern matches Some(pt) ==> regex_matches(pt.source(), t@))
        },
        JsonValue::Number(n) => (s.kind == SchemaKind::Integer || s.kind == SchemaKind::Number) ==> {
            &&& (s.minimum matches Some(b) ==> num_scaled(b) <= num_scaled(n))
            &&& (s.maximum matches Some(b) ==> num_scaled(n) <= num_scaled(b))
        },
        JsonValue::Object(es) => s.kind == SchemaKind::Object ==> {
            &&& forall|j: int| 0 <= j < s.required@.len() ==> has_key(es@, (#[trigger] s.required@[j])@)
            &&& forall|i: int| 0 <= i < es@.len() ==> has_key(s.properties@, (#[trigger] es@[i]).0@)
            &&& forall|j: int| 0 <= j < s.properties@.len()
                ==> (lookup(es@, (#[trigger] s.properties@[j]).0@) matches Some(c) ==> conforms(s.properties@[j].1, c))
        },
        JsonValue::Array(xs) => s.kind == SchemaKind::Array ==> {
            &&& (s.min_items matches Some(n) ==> xs@.len() >= n)
            &&& (s.max_items matches Some(n) ==> xs@.len() <= n)
            &&& (s.unique_items ==> forall|i: int, j: int| 0 <= i < j < xs@.len() ==> !json_eq(#[trigger] xs@[i], #[trigger] xs@[j]))
            &&& match s.items {
                Some(b) => forall|i: int| 0 <= i < xs@.len() ==> conforms(*b, #[trigger] xs@[i]),
                None => true,
            }
        },
        _ => true,
    }
}

proof fn lemma_required_present(s: CompiledSchema, obj: Seq<(String, JsonValue)>, p: Seq<char>, i: int)
    requires
        0 <= i,
        required_issue(s, obj, p, i) is None,
    ensures
        forall|j: int| i <= j < s.required@.len() ==> has_key(obj, (#[trigger] s.required@[j])@),
    decreases s.required@.len() - i,
{
    if i < s.required@.len() {
        lemma_required_present(s, obj, p, i + 1);
    }
}

proof fn lemma_all_declared(s: CompiledSchema, obj: Seq<(String, JsonValue)>, p: Seq<char>, i: int)
    requires
        0 <= i,
        unknown_issue(s, obj, p, i) is None,
    ensures
        forall|j: int| i <= j < obj.len() ==> has_key(s.properties@, (#[trigger] obj[j]).0@),
    decreases obj.len() - i,
{
    if i < obj.len() {
        lemma_all_declared(s, obj, p, i + 1);
    }
}

proof fn lemma_property_conforms(s: CompiledSchema, obj: Seq<(String, JsonValue)>, p: Seq<char>, i: int)
    requires
        0 <= i,
        property_issue(s, obj, p, i) is None,
    ensures
        forall|j: int| i <= j < s.properties@.len()
            ==> (lookup(obj, (#[trigger] s.properties@[j]).0@) matches Some(c) ==> conforms(s.properties@[j].1, c)),
    decreases s, 0int, s.properties@.len() - i,
{
    if i < s.properties@.len() {
        if let Some(c) = lookup(obj, s.properties@[i].0@) {
            assert(decreases_to!(s => s.properties));
            assert(decreases_to!(s.properties => s.properties@));
            assert(decreases_to!(s.properties@ => s.properties@[i]));
            assert(decreases_to!(s.properties@[i] => s.properties@[i].1));
            law_no_issue_conforms(s.properties@[i].1, c, child_path(p, s.properties@[i].0@));
        }
        lemma_property_conforms(s, obj, p, i + 1);
    }
}

proof fn lemma_item_conforms(s: CompiledSchema, arr: Seq<JsonValue>, p: Seq<char>, i: int)
    requires
        0 <= i,
        item_issue(s, arr, p, i) is None,
        s.items is Some,
    ensures
        forall|j: int| i <= j < arr.len() ==> conforms(*s.items->0, #[trigger] arr[j]),
    decreases s, 0int, arr.len() - i,
{
    if i < arr.len() {
        let b = s.items->0;
        assert(decreases_to!(s => s.items));
        law_no_issue_conforms(*b, arr[i], index_path(p, i));
        lemma_item_conforms(s, arr, p, i + 1);
    }
}

/// Law: an input that validation finds no issue with satisfies every
/// constraint of the schema at every depth (see `conforms`): what is
/// accepted is what the schema allows.
pub proof fn law_no_issue_conforms(s: CompiledSchema, v: JsonValue, p: Seq<char>)
    requires
        first_issue(s, v, p) is None,
    ensures
        conforms(s, v),
    decreases s, 1int, 0int,
{
    match v {
        JsonValue::Object(es) => if s.kind == SchemaKind::Object {
            lemma_required_present(s, es@, p, 0);
            lemma_all_declared(s, es@, p, 0);
            lemma_property_conforms(s, es@, p, 0);
        },
        JsonValue::Array(xs) => if s.kind == SchemaKind::Array {
            if s.items is Some {
                lemma_item_conforms(s, xs@, p, 0);
            }
        },
        _ => {},
    }
}

/// Law: a number that a number node admits by type, `enum` and `minimum`
/// but whose exact value exceeds the node's `maximum` is reported at its own
/// path with the constraint `maximum`; one below the `minimum` with
/// `minimum`.
pub proof fn law_out_of_bounds_reported(s: CompiledSchema, n: JsonNumber, p: Seq<char>)
    requires
        s.kind == SchemaKind::Integer || s.kind == SchemaKind::Number,
        value_compatible(s.kind, JsonValue::Number(n)),
        enum_admits(s, JsonValue::Number(n)),
    ensures
        (s.minimum matches Some(b) && num_scaled(n) < num_scaled(b)) ==> first_issue(s, JsonValue::Number(n), p) == Some((p, "minimum"@)),
        (s.maximum matches Some(b) && num_scaled(n) > num_scaled(b)) && !(s.minimum matches Some(b) && num_scaled(n) < num_scaled(b))
            ==> first_issue(s, JsonValue::Number(n), p) == Some((p, "maximum"@)),
{
}

/// Law: an input that validation finds no issue with keeps every number
/// within the `minimum` and `maximum` of the schema node that describes it;
/// so a number above a node's maximum, or below its minimum, is always
/// reported.
pub proof fn law_no_issue_within_bounds(s: CompiledSchema, v: JsonValue, p: Seq<char>)
    requires
        first_issue(s, v, p) is None,
    ensures
        bounds_hold(s, v),
    decreases s, 1int, 0int,
{
    match v {
        JsonValue::Object(es) => if s.kind == SchemaKind::Object {
            lemma_property_bounds(s, es@, p, 0);
        },
        JsonValue::Array(xs) => if s.kind == SchemaKind::Array {
            if s.items is Some {
                lemma_item_bounds(s, xs@, p, 0);
            }
        },
        _ => {},
    }
}

/// Validates `input` against `schema` from the root. On failure the issues are
/// returned in report order, cut off after the first `MAX_DIAGNOSTICS`; the
/// first is the first issue.
pub fn validate_input(schema: &CompiledSchema, input: &JsonValue) -> (r: Result<(), Vec<ValidationIssue>>)
    ensures
        r is Ok <==> first_issue(*schema, *input, Seq::empty()) is None,
        r is Ok <==> all_issues(*schema, *input, Seq::empty()).len() == 0,
        r matches Err(issues) ==> issues@.len() >= 1
            && issue_view(issues@[0]) == first_issue(*schema, *input, Seq::empty())->0,
        r matches Err(issues) ==> collected(issues@, Seq::empty(), all_issues(*schema, *input, Seq::empty())),
        r matches Err(issues) ==> issues@.len() <= MAX_DIAGNOSTICS,
        r is Ok ==> bounds_hold(*schema, *input),
        r is Ok ==> conforms(*schema, *input),
{
    let mut issues: Vec<ValidationIssue> = Vec::new();
    let root = String::new();
    let ghost start = issues@;
    validate_value(schema, input, root.as_str(), &mut issues);
    proof {
        lemma_head_all(*schema, *input, Seq::empty());
        let all = all_issues(*schema, *input, Seq::empty());
        if issues@.len() > 0 {
            assert(issue_view(issues@[0]) == all[0 - start.len()]);
        }
        assert(start =~= Seq::<ValidationIssue>::empty());
    }
    if issues.len() == 0 {
        proof {
            law_no_issue_within_bounds(*schema, *input, Seq::empty());
            law_no_issue_conforms(*schema, *input, Seq::empty());
        }
        Ok(())
    } else {
        Err(issues)
    }
}

} // verus!
