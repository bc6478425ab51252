//! The JSON values that schemas, inputs and bindings are made of.
use vstd::prelude::*;
use crate::numeric::{num_scaled, numeric_compare, number_is_zero, NumOrder};
use crate::order::{seq_lt, strictly_sorted, lemma_strict_same_set, lemma_lt_irreflexive};
use crate::text::{str_eq, string_of, contains_char};

verus! {

/// A finite binary floating point number: `(-1)^negative * mantissa * 2^exponent`,
/// with `text` its shortest decimal rendering (see `float_wf`).
#[derive(Clone, Debug, PartialEq)]
pub struct JsonFloat {
    pub negative: bool,
    pub mantissa: u64,
    pub exponent: i16,
    pub text: String,
}

/// A JSON number as it was read: a non-negative integer, a negative integer, or
/// a finite float.
#[derive(Clone, Debug, PartialEq)]
pub enum JsonNumber {
    PosInt(u64),
    NegInt(i64),
    Float(JsonFloat),
}

/// A JSON value.  Object entries are held in key order, each key once (see
/// `json_wf`).
#[derive(Debug)]
pub enum JsonValue {
    Null,
    Bool(bool),
    Number(JsonNumber),
    Str(String),
    Array(Vec<JsonValue>),
    Object(Vec<(String, JsonValue)>),
}

// ---------------------------------------------------------------------------
// Keyed entries.

/// The keys of the entries `s`, in entry order.
pub open spec fn entry_keys<V>(s: Seq<(String, V)>) -> Seq<Seq<char>> {
    s.map_values(|e: (String, V)| e.0@)
}

/// The entries `s` are in ascending key order and hold no key twice, as the
/// entries of a JSON object that was read are.
pub open spec fn keys_ordered<V>(s: Seq<(String, V)>) -> bool {
    strictly_sorted(entry_keys(s))
}

/// Every nonzero digit of the decimal `t` stands after its exponent mark:
/// the decimal denotes zero.
pub open spec fn decimal_is_zero(t: Seq<char>) -> bool {
    forall|i: int| 0 <= i < t.len() && '1' <= #[trigger] t[i] <= '9'
        ==> exists|j: int| 0 <= j < i && (t[j] == 'e' || t[j] == 'E')
}

/// The decimal text of `f` agrees with its binary value where a comparison
/// of the two needs no floating point: it is not empty, it starts with a
/// minus sign exactly when `f` is negative, and it denotes zero exactly when
/// the mantissa is zero.
pub open spec fn float_wf(f: JsonFloat) -> bool {
    &&& f.text@.len() > 0
    &&& (f.text@[0] == '-') == f.negative
    &&& decimal_is_zero(f.text@) == (f.mantissa == 0)
}

/// Every object within `v`, `v` itself included, holds its entries in
/// ascending key order, each key once, and every float's text agrees with
/// its value.
pub open spec fn json_wf(v: JsonValue) -> bool
    decreases v,
{
    match v {
        JsonValue::Number(JsonNumber::Float(f)) => float_wf(f),
        JsonValue::Object(es) => {
            &&& keys_ordered(es@)
            &&& forall|i: int| 0 <= i < es@.len() ==> json_wf((#[trigger] es@[i]).1)
        },
        JsonValue::Array(xs) => forall|i: int| 0 <= i < xs@.len() ==> json_wf(#[trigger] xs@[i]),
        _ => true,
    }
}

/// `i` is the first entry of `s` whose key is `k`.
pub open spec fn key_at<V>(s: Seq<(String, V)>, k: Seq<char>, i: int) -> bool {
    &&& 0 <= i < s.len()
    &&& s[i].0@ == k
    &&& forall|j: int| 0 <= j < i ==> (#[trigger] s[j]).0@ != k
}

/// Index of the first entry of `s` whose key is `k`.
pub open spec fn find_key<V>(s: Seq<(String, V)>, k: Seq<char>) -> Option<int> {
    if exists|i: int| key_at(s, k, i) {
        Some(choose|i: int| key_at(s, k, i))
    } else {
        None
    }
}

/// Whether some entry of `s` has the key `k`.
pub open spec fn has_key<V>(s: Seq<(String, V)>, k: Seq<char>) -> bool {
    exists|i: int| 0 <= i < s.len() && (#[trigger] s[i]).0@ == k
}

pub proof fn lemma_key_at_unique<V>(s: Seq<(String, V)>, k: Seq<char>, i: int)
    requires
        key_at(s, k, i),
    ensures
        find_key(s, k) == Some(i),
        has_key(s, k),
{
    let c = choose|c: int| key_at(s, k, c);
    assert(key_at(s, k, c));
    if c < i {
        assert(s[c].0@ != k);
    }
    if i < c {
        assert(s[i].0@ != k);
    }
}

pub proof fn lemma_no_key<V>(s: Seq<(String, V)>, k: Seq<char>)
    requires
        forall|j: int| 0 <= j < s.len() ==> (#[trigger] s[j]).0@ != k,
    ensures
        find_key(s, k) is None,
        !has_key(s, k),
{
}

/// The value under the key of entry `i`, when no earlier entry has that key.
pub proof fn lemma_lookup_at<V>(s: Seq<(String, V)>, i: int)
    requires
        0 <= i < s.len(),
        forall|j: int| 0 <= j < i ==> (#[trigger] s[j]).0@ != s[i].0@,
    ensures
        lookup(s, s[i].0@) == Some(s[i].1),
{
    assert(key_at(s, s[i].0@, i));
    lemma_key_at_unique(s, s[i].0@, i);
}

/// An entry with key `k` exists exactly when a first one does.
pub proof fn lemma_find_iff_has<V>(s: Seq<(String, V)>, k: Seq<char>)
    ensures
        (find_key(s, k) is Some) == has_key(s, k),
        lookup(s, k) is Some == has_key(s, k),
    decreases s.len(),
{
    if has_key(s, k) {
        let w = choose|i: int| 0 <= i < s.len() && (#[trigger] s[i]).0@ == k;
        if forall|j: int| 0 <= j < w ==> (#[trigger] s[j]).0@ != k {
            lemma_key_at_unique(s, k, w);
        } else {
            let t = s.subrange(0, w);
            let v = choose|j: int| 0 <= j < w && (#[trigger] s[j]).0@ != k == false;
            assert(t[v].0@ == k);
            assert(has_key(t, k));
            lemma_find_iff_has(t, k);
            let i = find_key(t, k)->0;
            assert(key_at(t, k, i));
            assert forall|j: int| 0 <= j < i implies (#[trigger] s[j]).0@ != k by {
                assert(s[j] == t[j]);
            }
            lemma_key_at_unique(s, k, i);
        }
    }
}

/// Position of the first entry with key `k`.
pub fn find_key_index<V>(s: &Vec<(String, V)>, k: &str) -> (r: Option<usize>)
    ensures
        match r {
            Some(i) => key_at(s@, k@, i as int) && find_key(s@, k@) == Some(i as int),
            None => find_key(s@, k@) is None && !has_key(s@, k@),
        },
{
    let mut i: usize = 0;
    while i < s.len()
        invariant
            i <= s@.len(),
            forall|j: int| 0 <= j < i ==> (#[trigger] s@[j]).0@ != k@,
        decreases s@.len() - i,
    {
        if str_eq(s[i].0.as_str(), k) {
            proof {
                lemma_key_at_unique(s@, k@, i as int);
            }
            return Some(i);
        }
        i += 1;
    }
    proof {
        lemma_no_key(s@, k@);
    }
    None
}

/// Whether an entry with key `k` exists.
pub fn contains_key<V>(s: &Vec<(String, V)>, k: &str) -> (r: bool)
    ensures
        r == has_key(s@, k@),
        r == (find_key(s@, k@) is Some),
{
    match find_key_index(s, k) {
        Some(_) => true,
        None => false,
    }
}

/// The value of the first entry with key `k`.
pub fn get_key<'a, V>(s: &'a Vec<(String, V)>, k: &str) -> (r: Option<&'a V>)
    ensures
        match find_key(s@, k@) {
            Some(i) => r == Some(&s@[i].1),
            None => r is None,
        },
        match r {
            Some(x) => lookup(s@, k@) == Some(*x),
            None => lookup(s@, k@) is None,
        },
{
    match find_key_index(s, k) {
        Some(i) => Some(&s[i].1),
        None => None,
    }
}

/// The value stored under `k` in the entries `s`, if any.
pub open spec fn lookup<V>(s: Seq<(String, V)>, k: Seq<char>) -> Option<V> {
    match find_key(s, k) {
        Some(i) => Some(s[i].1),
        None => None,
    }
}

/// Law: entry lists in key order are determined by what they hold: two of
/// them that give the same value under every key list the same keys, in the
/// same order, with the same values.
pub proof fn law_ordered_entries_determined<V>(a: Seq<(String, V)>, b: Seq<(String, V)>)
    requires
        keys_ordered(a),
        keys_ordered(b),
        forall|k: Seq<char>| #[trigger] lookup(a, k) == lookup(b, k),
    ensures
        entry_keys(a) == entry_keys(b),
        forall|i: int| 0 <= i < a.len() ==> (#[trigger] a[i]).1 == b[i].1,
{
    let ka = entry_keys(a);
    let kb = entry_keys(b);
    assert forall|x: Seq<char>| ka.contains(x) <==> kb.contains(x) by {
        lemma_find_iff_has(a, x);
        lemma_find_iff_has(b, x);
        assert(lookup(a, x) == lookup(b, x));
        if ka.contains(x) {
            let i = choose|i: int| 0 <= i < ka.len() && ka[i] == x;
            assert(a[i].0@ == x);
            assert(has_key(a, x));
            let j = find_key(b, x).unwrap();
            assert(kb[j] == x);
        }
        if kb.contains(x) {
            let i = choose|i: int| 0 <= i < kb.len() && kb[i] == x;
            assert(b[i].0@ == x);
            assert(has_key(b, x));
            let j = find_key(a, x).unwrap();
            assert(ka[j] == x);
        }
    }
    lemma_strict_same_set(ka, kb);
    assert forall|i: int| 0 <= i < a.len() implies (#[trigger] a[i]).1 == b[i].1 by {
        let k = a[i].0@;
        assert(ka[i] == k && kb[i] == k);
        assert forall|j: int| 0 <= j < i implies (#[trigger] a[j]).0@ != k by {
            assert(ka[j] == a[j].0@);
            assert(seq_lt(ka[j], ka[i]));
            lemma_lt_irreflexive(k);
        }
        assert forall|j: int| 0 <= j < i implies (#[trigger] b[j]).0@ != k by {
            assert(kb[j] == b[j].0@);
            assert(seq_lt(kb[j], kb[i]));
            lemma_lt_irreflexive(k);
        }
        assert(key_at(a, k, i));
        assert(key_at(b, k, i));
        lemma_key_at_unique(a, k, i);
        lemma_key_at_unique(b, k, i);
        assert(lookup(a, k) == lookup(b, k));
    }
}

// ---------------------------------------------------------------------------
// Numbers.

/// `serde_json`'s `as_i64` would succeed: an integer within the signed 64-bit range.
pub open spec fn fits_i64(n: JsonNumber) -> bool {
    match n {
        JsonNumber::PosInt(v) => v <= i64::MAX,
        JsonNumber::NegInt(_) => true,
        JsonNumber::Float(_) => false,
    }
}

pub fn number_fits_i64(n: &JsonNumber) -> (r: bool)
    ensures
        r == fits_i64(*n),
{
    match n {
        JsonNumber::PosInt(v) => *v <= 9223372036854775807u64,
        JsonNumber::NegInt(_) => true,
        JsonNumber::Float(_) => false,
    }
}

/// `serde_json`'s `as_u64`: a non-negative integer.
pub open spec fn as_u64(v: JsonValue) -> Option<u64> {
    match v {
        JsonValue::Number(JsonNumber::PosInt(n)) => Some(n),
        _ => None,
    }
}

// ---------------------------------------------------------------------------
// Equality.

/// Equality of two values as schemas compare them: numbers by their exact value
/// (so `1` equals `1.0`), arrays element by element, objects key by key
/// regardless of entry order, everything else as written.
pub open spec fn json_eq(a: JsonValue, b: JsonValue) -> bool
    decreases a,
{
    match a {
        JsonValue::Null => b is Null,
        JsonValue::Bool(x) => b matches JsonValue::Bool(y) && x == y,
        JsonValue::Number(x) => b matches JsonValue::Number(y) && num_scaled(x) == num_scaled(y),
        JsonValue::Str(x) => b matches JsonValue::Str(y) && x@ == y@,
        JsonValue::Array(xs) => match b {
            JsonValue::Array(ys) => {
                &&& xs@.len() == ys@.len()
                &&& forall|i: int| 0 <= i < xs@.len() ==> json_eq(#[trigger] xs@[i], ys@[i])
            },
            _ => false,
        },
        JsonValue::Object(xs) => match b {
            JsonValue::Object(ys) => {
                &&& xs@.len() == ys@.len()
                &&& forall|i: int| 0 <= i < xs@.len() ==> match find_key(ys@, (#[trigger] xs@[i]).0@) {
                    Some(j) => json_eq(xs@[i].1, ys@[j].1),
                    None => false,
                }
            },
            _ => false,
        },
    }
}

/// Compares two values with `json_eq`.
pub fn schema_values_equal(left: &JsonValue, right: &JsonValue) -> (r: bool)
    ensures
        r == json_eq(*left, *right),
    decreases *left,
{
    match left {
        JsonValue::Null => match right {
            JsonValue::Null => true,
            _ => false,
        },
        JsonValue::Bool(x) => match right {
            JsonValue::Bool(y) => *x == *y,
            _ => false,
        },
        JsonValue::Number(x) => match right {
            JsonValue::Number(y) => match numeric_compare(x, y) {
                NumOrder::Equal => true,
                _ => false,
            },
            _ => false,
        },
        JsonValue::Str(x) => match right {
            JsonValue::Str(y) => *x == *y,
            _ => false,
        },
        JsonValue::Array(xs) => match right {
            JsonValue::Array(ys) => {
                if xs.len() != ys.len() {
                    return false;
                }
                let mut i: usize = 0;
                while i < xs.len()
                    invariant
                        *left == JsonValue::Array(*xs),
                        *right == JsonValue::Array(*ys),
                        xs@.len() == ys@.len(),
                        i <= xs@.len(),
                        forall|j: int| 0 <= j < i ==> json_eq(#[trigger] xs@[j], ys@[j]),
                    decreases xs@.len() - i,
                {
                    proof {
                        assert(decreases_to!(*left => (*left)->Array_0));
                        assert(decreases_to!(*xs => xs@));
                        assert(decreases_to!(xs@ => xs@[i as int]));
                    }
                    if !schema_values_equal(&xs[i], &ys[i]) {
                        assert(!json_eq(xs@[i as int], ys@[i as int]));
                        return false;
                    }
                    i += 1;
                }
                true
            },
            _ => false,
        },
        JsonValue::Object(xs) => match right {
            JsonValue::Object(ys) => {
                if xs.len() != ys.len() {
                    return false;
                }
                let mut i: usize = 0;
                while i < xs.len()
                    invariant
                        *left == JsonValue::Object(*xs),
                        *right == JsonValue::Object(*ys),
                        xs@.len() == ys@.len(),
                        i <= xs@.len(),
                        forall|j: int| 0 <= j < i ==> match find_key(ys@, (#[trigger] xs@[j]).0@) {
                            Some(k) => json_eq(xs@[j].1, ys@[k].1),
                            None => false,
                        },
                    decreases xs@.len() - i,
                {
                    proof {
                        assert(decreases_to!(*left => (*left)->Object_0));
                        assert(decreases_to!(*xs => xs@));
                        assert(decreases_to!(xs@ => xs@[i as int]));
                        assert(decreases_to!(xs@[i as int] => xs@[i as int].1));
                    }
                    match get_key(ys, xs[i].0.as_str()) {
                        Some(other) => {
                            if !schema_values_equal(&xs[i].1, other) {
                                assert(xs@[i as int] == xs[i as int]);
                                return false;
                            }
                        }
                        None => {
                            assert(xs@[i as int] == xs[i as int]);
                            return false;
                        }
                    }
                    i += 1;
                }
                true
            },
            _ => false,
        },
    }
}

// ---------------------------------------------------------------------------
// Deep copies.

/// `a` and `b` are the same value: same variants, same characters, same numbers
/// written the same way.
pub open spec fn json_same(a: JsonValue, b: JsonValue) -> bool
    decreases a,
{
    match a {
        JsonValue::Null => b is Null,
        JsonValue::Bool(x) => b matches JsonValue::Bool(y) && x == y,
        JsonValue::Number(x) => b matches JsonValue::Number(y) && number_same(x, y),
        JsonValue::Str(x) => b matches JsonValue::Str(y) && x@ == y@,
        JsonValue::Array(xs) => match b {
            JsonValue::Array(ys) => {
                &&& xs@.len() == ys@.len()
                &&& forall|i: int| 0 <= i < xs@.len() ==> json_same(#[trigger] xs@[i], ys@[i])
            },
            _ => false,
        },
        JsonValue::Object(xs) => match b {
            JsonValue::Object(ys) => {
                &&& xs@.len() == ys@.len()
                &&& forall|i: int| 0 <= i < xs@.len() ==> (#[trigger] xs@[i]).0@ == ys@[i].0@ && json_same(xs@[i].1, ys@[i].1)
            },
            _ => false,
        },
    }
}

/// Values that are the same compare alike with every value.
pub proof fn lemma_same_eq(v: JsonValue, a: JsonValue, x: JsonValue)
    requires
        json_same(v, a),
    ensures
        json_eq(v, x) == json_eq(a, x),
    decreases v,
{
    match v {
        JsonValue::Array(vs) => {
            if let JsonValue::Array(xs) = x {
                if let JsonValue::Array(as_) = a {
                    assert forall|i: int| 0 <= i < vs@.len() && i < xs@.len() implies json_eq(#[trigger] vs@[i], xs@[i]) == json_eq(as_@[i], xs@[i]) by {
                        assert(decreases_to!(v => vs));
                        assert(decreases_to!(vs => vs@));
                        assert(decreases_to!(vs@ => vs@[i]));
                        lemma_same_eq(vs@[i], as_@[i], xs@[i]);
                    }
                    if json_eq(v, x) {
                        assert forall|i: int| 0 <= i < as_@.len() implies json_eq(#[trigger] as_@[i], xs@[i]) by {
                            assert(json_eq(vs@[i], xs@[i]));
                        }
                    }
                    if json_eq(a, x) {
                        assert forall|i: int| 0 <= i < vs@.len() implies json_eq(#[trigger] vs@[i], xs@[i]) by {
                            assert(json_eq(as_@[i], xs@[i]));
                        }
                    }
                }
            }
        },
        JsonValue::Object(vs) => {
            if let JsonValue::Object(xs) = x {
                if let JsonValue::Object(as_) = a {
                    assert forall|i: int| 0 <= i < vs@.len() implies (match find_key(xs@, (#[trigger] vs@[i]).0@) {
                        Some(j) => json_eq(vs@[i].1, xs@[j].1),
                        None => false,
                    }) == (match find_key(xs@, as_@[i].0@) {
                        Some(j) => json_eq(as_@[i].1, xs@[j].1),
                        None => false,
                    }) by {
                        if let Some(j) = find_key(xs@, vs@[i].0@) {
                            assert(decreases_to!(v => vs));
                            assert(decreases_to!(vs => vs@));
                            assert(decreases_to!(vs@ => vs@[i]));
                            assert(decreases_to!(vs@[i] => vs@[i].1));
                            lemma_same_eq(vs@[i].1, as_@[i].1, xs@[j].1);
                        }
                    }
                    if json_eq(v, x) {
                        assert forall|i: int| 0 <= i < as_@.len() implies (match find_key(xs@, (#[trigger] as_@[i]).0@) {
                            Some(j) => json_eq(as_@[i].1, xs@[j].1),
                            None => false,
                        }) by {
                            assert(vs@[i].0@ == as_@[i].0@);
                        }
                    }
                    if json_eq(a, x) {
                        assert forall|i: int| 0 <= i < vs@.len() implies (match find_key(xs@, (#[trigger] vs@[i]).0@) {
                            Some(j) => json_eq(vs@[i].1, xs@[j].1),
                            None => false,
                        }) by {
                            assert(vs@[i].0@ == as_@[i].0@);
                            assert(match find_key(xs@, as_@[i].0@) {
                                Some(j) => json_eq(as_@[i].1, xs@[j].1),
                                None => false,
                            });
                        }
                    }
                }
            }
        },
        JsonValue::Number(n) => {
            if let JsonValue::Number(m) = a {
                assert(num_scaled(n) == num_scaled(m));
            }
        },
        _ => {},
    }
}

/// `json_same` is symmetric.
pub proof fn lemma_same_symmetric(a: JsonValue, b: JsonValue)
    requires
        json_same(a, b),
    ensures
        json_same(b, a),
    decreases a,
{
    match a {
        JsonValue::Array(xs) => {
            let ys = b->Array_0;
            assert forall|i: int| 0 <= i < ys@.len() implies json_same(#[trigger] ys@[i], xs@[i]) by {
                assert(decreases_to!(a => xs));
                assert(decreases_to!(xs => xs@));
                assert(decreases_to!(xs@ => xs@[i]));
                lemma_same_symmetric(xs@[i], ys@[i]);
            }
        },
        JsonValue::Object(xs) => {
            let ys = b->Object_0;
            assert forall|i: int| 0 <= i < ys@.len() implies (#[trigger] ys@[i]).0@ == xs@[i].0@ && json_same(ys@[i].1, xs@[i].1) by {
                assert(decreases_to!(a => xs));
                assert(decreases_to!(xs => xs@));
                assert(decreases_to!(xs@ => xs@[i]));
                assert(decreases_to!(xs@[i] => xs@[i].1));
                lemma_same_symmetric(xs@[i].1, ys@[i].1);
            }
        },
        _ => {},
    }
}

/// `json_same` is transitive.
pub proof fn lemma_same_transitive(a: JsonValue, b: JsonValue, c: JsonValue)
    requires
        json_same(a, b),
        json_same(b, c),
    ensures
        json_same(a, c),
    decreases a,
{
    match a {
        JsonValue::Array(xs) => {
            let ys = b->Array_0;
            let zs = c->Array_0;
            assert forall|i: int| 0 <= i < xs@.len() implies json_same(#[trigger] xs@[i], zs@[i]) by {
                assert(decreases_to!(a => xs));
                assert(decreases_to!(xs => xs@));
                assert(decreases_to!(xs@ => xs@[i]));
                lemma_same_transitive(xs@[i], ys@[i], zs@[i]);
            }
        },
        JsonValue::Object(xs) => {
            let ys = b->Object_0;
            let zs = c->Object_0;
            assert forall|i: int| 0 <= i < xs@.len() implies (#[trigger] xs@[i]).0@ == zs@[i].0@ && json_same(xs@[i].1, zs@[i].1) by {
                assert(decreases_to!(a => xs));
                assert(decreases_to!(xs => xs@));
                assert(decreases_to!(xs@ => xs@[i]));
                assert(decreases_to!(xs@[i] => xs@[i].1));
                assert(ys@[i].0@ == zs@[i].0@);
                lemma_same_transitive(xs@[i].1, ys@[i].1, zs@[i].1);
            }
        },
        _ => {},
    }
}

/// The canonical form of a value is unique up to `json_same`.
pub proof fn lemma_canonical_unique(a: JsonValue, b: JsonValue, v: JsonValue)
    requires
        canonical_of(a, v),
        canonical_of(b, v),
    ensures
        json_same(a, b),
    decreases v,
{
    match v {
        JsonValue::Array(vs) => {
            let xs = a->Array_0;
            let ys = b->Array_0;
            assert forall|i: int| 0 <= i < xs@.len() implies json_same(#[trigger] xs@[i], ys@[i]) by {
                assert(decreases_to!(v => vs));
                assert(decreases_to!(vs => vs@));
                assert(decreases_to!(vs@ => vs@[i]));
                lemma_canonical_unique(xs@[i], ys@[i], vs@[i]);
            }
        },
        JsonValue::Object(vs) => {
            let xs = a->Object_0;
            let ys = b->Object_0;
            assert forall|i: int| 0 <= i < xs@.len() implies (#[trigger] xs@[i]).0@ == ys@[i].0@ && json_same(xs@[i].1, ys@[i].1) by {
                assert(decreases_to!(v => vs));
                assert(decreases_to!(vs => vs@));
                assert(decreases_to!(vs@ => vs@[i]));
                assert(decreases_to!(vs@[i] => vs@[i].1));
                assert(canonical_of(xs@[i].1, vs@[i].1));
                assert(canonical_of(ys@[i].1, vs@[i].1));
                lemma_canonical_unique(xs@[i].1, ys@[i].1, vs@[i].1);
            }
        },
        JsonValue::Number(_) => {},
        _ => {
            lemma_same_symmetric(v, a);
            lemma_same_transitive(a, v, b);
        },
    }
}

pub open spec fn number_same(a: JsonNumber, b: JsonNumber) -> bool {
    match a {
        JsonNumber::PosInt(x) => b == JsonNumber::PosInt(x),
        JsonNumber::NegInt(x) => b == JsonNumber::NegInt(x),
        JsonNumber::Float(x) => b matches JsonNumber::Float(y) && x.negative == y.negative
            && x.mantissa == y.mantissa && x.exponent == y.exponent && x.text@ == y.text@,
    }
}

pub fn clone_number(n: &JsonNumber) -> (r: JsonNumber)
    ensures
        number_same(*n, r),
        num_scaled(r) == num_scaled(*n),
        fits_i64(r) == fits_i64(*n),
{
    match n {
        JsonNumber::PosInt(v) => JsonNumber::PosInt(*v),
        JsonNumber::NegInt(v) => JsonNumber::NegInt(*v),
        JsonNumber::Float(f) => JsonNumber::Float(JsonFloat {
            negative: f.negative,
            mantissa: f.mantissa,
            exponent: f.exponent,
            text: f.text.clone(),
        }),
    }
}

/// A deep copy.
pub fn clone_value(v: &JsonValue) -> (r: JsonValue)
    ensures
        json_same(*v, r),
    decreases *v,
{
    match v {
        JsonValue::Null => JsonValue::Null,
        JsonValue::Bool(b) => JsonValue::Bool(*b),
        JsonValue::Number(n) => JsonValue::Number(clone_number(n)),
        JsonValue::Str(s) => JsonValue::Str(s.clone()),
        JsonValue::Array(xs) => {
            let mut out: Vec<JsonValue> = Vec::new();
            let mut i: usize = 0;
            while i < xs.len()
                invariant
                    *v == JsonValue::Array(*xs),
                    i <= xs@.len(),
                    out@.len() == i,
                    forall|j: int| 0 <= j < i ==> json_same(#[trigger] xs@[j], out@[j]),
                decreases xs@.len() - i,
            {
                proof {
                    assert(decreases_to!(*v => (*v)->Array_0));
                    assert(decreases_to!(*xs => xs@));
                    assert(decreases_to!(xs@ => xs@[i as int]));
                }
                let c = clone_value(&xs[i]);
                out.push(c);
                i += 1;
            }
            JsonValue::Array(out)
        },
        JsonValue::Object(xs) => {
            let mut out: Vec<(String, JsonValue)> = Vec::new();
            let mut i: usize = 0;
            while i < xs.len()
                invariant
                    *v == JsonValue::Object(*xs),
                    i <= xs@.len(),
                    out@.len() == i,
                    forall|j: int| 0 <= j < i ==> (#[trigger] xs@[j]).0@ == out@[j].0@ && json_same(xs@[j].1, out@[j].1),
                decreases xs@.len() - i,
            {
                proof {
                    assert(decreases_to!(*v => (*v)->Object_0));
                    assert(decreases_to!(*xs => xs@));
                    assert(decreases_to!(xs@ => xs@[i as int]));
                    assert(decreases_to!(xs@[i as int] => xs@[i as int].1));
                }
                let c = clone_value(&xs[i].1);
                out.push((xs[i].0.clone(), c));
                i += 1;
            }
            JsonValue::Object(out)
        },
    }
}

impl Clone for JsonValue {
    fn clone(&self) -> (r: Self)
        ensures
            json_same(*self, r),
    {
        clone_value(self)
    }
}

// ---------------------------------------------------------------------------
// Canonical form.

/// `r` is `v` with every zero number (either sign, integer or float) written
/// as the integer `0`.
pub open spec fn canonical_of(r: JsonValue, v: JsonValue) -> bool
    decreases v,
{
    match v {
        JsonValue::Number(n) => if num_scaled(n) == 0 {
            r == JsonValue::Number(JsonNumber::PosInt(0))
        } else {
            r matches JsonValue::Number(m) && number_same(n, m)
        },
        JsonValue::Array(xs) => match r {
            JsonValue::Array(ys) => {
                &&& xs@.len() == ys@.len()
                &&& forall|i: int| 0 <= i < xs@.len() ==> canonical_of(ys@[i], #[trigger] xs@[i])
            },
            _ => false,
        },
        JsonValue::Object(xs) => match r {
            JsonValue::Object(ys) => {
                &&& xs@.len() == ys@.len()
                &&& forall|i: int| 0 <= i < xs@.len() ==> ys@[i].0@ == (#[trigger] xs@[i]).0@ && canonical_of(ys@[i].1, xs@[i].1)
            },
            _ => false,
        },
        _ => json_same(v, r),
    }
}

/// A copy of `v` in canonical form.
pub fn canonical_copy(v: &JsonValue) -> (r: JsonValue)
    ensures
        canonical_of(r, *v),
    decreases *v,
{
    match v {
        JsonValue::Number(n) => {
            if number_is_zero(n) {
                JsonValue::Number(JsonNumber::PosInt(0))
            } else {
                JsonValue::Number(clone_number(n))
            }
        },
        JsonValue::Array(xs) => {
            let mut out: Vec<JsonValue> = Vec::new();
            let mut i: usize = 0;
            while i < xs.len()
                invariant
                    *v == JsonValue::Array(*xs),
                    i <= xs@.len(),
                    out@.len() == i,
                    forall|j: int| 0 <= j < i ==> canonical_of(out@[j], #[trigger] xs@[j]),
                decreases xs@.len() - i,
            {
                proof {
                    assert(decreases_to!(*v => (*v)->Array_0));
                    assert(decreases_to!(*xs => xs@));
                    assert(decreases_to!(xs@ => xs@[i as int]));
                }
                let c = canonical_copy(&xs[i]);
                out.push(c);
                i += 1;
            }
            JsonValue::Array(out)
        },
        JsonValue::Object(xs) => {
            let mut out: Vec<(String, JsonValue)> = Vec::new();
            let mut i: usize = 0;
            while i < xs.len()
                invariant
                    *v == JsonValue::Object(*xs),
                    i <= xs@.len(),
                    out@.len() == i,
                    forall|j: int| 0 <= j < i ==> out@[j].0@ == (#[trigger] xs@[j]).0@ && canonical_of(out@[j].1, xs@[j].1),
                decreases xs@.len() - i,
            {
                proof {
                    assert(decreases_to!(*v => (*v)->Object_0));
                    assert(decreases_to!(*xs => xs@));
                    assert(decreases_to!(xs@ => xs@[i as int]));
                    assert(decreases_to!(xs@[i as int] => xs@[i as int].1));
                }
                let c = canonical_copy(&xs[i].1);
                out.push((xs[i].0.clone(), c));
                i += 1;
            }
            JsonValue::Object(out)
        },
        _ => clone_value(v),
    }
}

/// Writes every zero number as the integer `0`, at every depth.
pub fn canonicalize(value: JsonValue) -> (r: JsonValue)
    ensures
        canonical_of(r, value),
    decreases value,
{
    match value {
        JsonValue::Number(n) => {
            if number_is_zero(&n) {
                JsonValue::Number(JsonNumber::PosInt(0))
            } else {
                let r = JsonValue::Number(n);
                r
            }
        },
        JsonValue::Array(xs) => {
            let ghost orig = xs@;
            let ghost whole = JsonValue::Array(xs);
            let mut out: Vec<JsonValue> = Vec::new();
            for x in it: xs.into_iter()
                invariant
                    it.seq() == orig,
                    whole == value,
                    whole is Array && whole->Array_0@ == orig,
                    out@.len() == it.index(),
                    forall|j: int| 0 <= j < it.index() ==> canonical_of(out@[j], #[trigger] orig[j]),
            {
                proof {
                    assert(decreases_to!(value => value->Array_0));
                    assert(decreases_to!(value->Array_0 => orig));
                    assert(decreases_to!(orig => orig[it.index()]));
                }
                let c = canonicalize(x);
                out.push(c);
            }
            JsonValue::Array(out)
        },
        JsonValue::Object(xs) => {
            let ghost orig = xs@;
            let ghost whole = JsonValue::Object(xs);
            let mut out: Vec<(String, JsonValue)> = Vec::new();
            for x in it: xs.into_iter()
                invariant
                    it.seq() == orig,
                    whole == value,
                    whole is Object && whole->Object_0@ == orig,
                    out@.len() == it.index(),
                    forall|j: int| 0 <= j < it.index() ==> out@[j].0@ == (#[trigger] orig[j]).0@ && canonical_of(out@[j].1, orig[j].1),
            {
                proof {
                    assert(decreases_to!(value => value->Object_0));
                    assert(decreases_to!(value->Object_0 => orig));
                    assert(decreases_to!(orig => orig[it.index()]));
                    assert(decreases_to!(orig[it.index()] => orig[it.index()].1));
                }
                let (k, v) = x;
                let c = canonicalize(v);
                out.push((k, c));
            }
            JsonValue::Object(out)
        },
        other => {
            let r = clone_value(&other);
            r
        },
    }
}

} // verus!
