//! The tool catalog that the public MCP server lists: names, optional title
//! and description, the published input schema and the behaviour hints.
use vstd::prelude::*;
use crate::config::{config_wf, config_from, raw_wf, tool_from, Annotations, RawAnnotations, CompiledTool, RawConfig, RawTarget, RawTool, ValidatedConfig};
use crate::json::{entry_keys, find_key, lemma_lookup_at, lemma_no_key, key_at, lemma_key_at_unique, lemma_canonical_unique, lemma_same_symmetric, lemma_same_transitive, law_ordered_entries_determined, lookup, JsonValue, json_same, clone_value};
use crate::schema::{compiled_from, public_json_of, str_is, CompiledSchema, SchemaKind};
use crate::order::strictly_sorted;
use crate::text::string_of;

verus! {

pub open spec fn hint_entry(k: Seq<char>, o: Option<bool>) -> Seq<(Seq<char>, bool)> {
    match o {
        Some(b) => seq![(k, b)],
        None => Seq::empty(),
    }
}

/// The hints that are set, under their catalog names, in key order.
pub open spec fn hint_entries(a: Annotations) -> Seq<(Seq<char>, bool)> {
    hint_entry("destructiveHint"@, a.destructive_hint) + hint_entry("idempotentHint"@, a.idempotent_hint)
        + hint_entry("openWorldHint"@, a.open_world_hint) + hint_entry("readOnlyHint"@, a.read_only_hint)
}

/// `r` is the catalog object of the hints `a`.
pub open spec fn annotations_json(r: JsonValue, a: Annotations) -> bool {
    match r {
        JsonValue::Object(es) => {
            &&& es@.len() == hint_entries(a).len()
            &&& forall|i: int| 0 <= i < es@.len() ==> (#[trigger] es@[i]).0@ == hint_entries(a)[i].0
                && es@[i].1 == JsonValue::Bool(hint_entries(a)[i].1)
        },
        _ => false,
    }
}

pub open spec fn opt_key(present: bool, k: Seq<char>) -> Seq<Seq<char>> {
    if present {
        seq![k]
    } else {
        Seq::empty()
    }
}

/// The keys of a tool's catalog entry, in key order.
pub open spec fn tool_keys(t: CompiledTool) -> Seq<Seq<char>> {
    seq!["annotations"@] + opt_key(t.description is Some, "description"@) + seq!["inputSchema"@, "name"@]
        + opt_key(t.title is Some, "title"@)
}

pub open spec fn str_value(v: JsonValue, s: Option<String>) -> bool {
    match s {
        Some(x) => match v {
            JsonValue::Str(y) => y@ == x@,
            _ => false,
        },
        None => false,
    }
}

/// `v` is what a tool's catalog entry holds under `k`.
pub open spec fn tool_value(t: CompiledTool, k: Seq<char>, v: JsonValue) -> bool {
    if k == "annotations"@ {
        annotations_json(v, t.annotations)
    } else if k == "description"@ {
        str_value(v, t.description)
    } else if k == "inputSchema"@ {
        json_same(t.schema.public_json, v)
    } else if k == "name"@ {
        str_value(v, Some(t.name))
    } else if k == "title"@ {
        str_value(v, t.title)
    } else {
        false
    }
}

/// `r` is the catalog entry of the tool `t`.
pub open spec fn tool_json(r: JsonValue, t: CompiledTool) -> bool {
    match r {
        JsonValue::Object(es) => {
            &&& es@.map_values(|e: (String, JsonValue)| e.0@) == tool_keys(t)
            &&& forall|i: int| 0 <= i < es@.len() ==> tool_value(t, (#[trigger] es@[i]).0@, es@[i].1)
        },
        _ => false,
    }
}

/// `r` is the catalog of `config`: an object whose one entry `tools` lists the
/// tools in order.
pub open spec fn catalog_of(r: JsonValue, config: ValidatedConfig) -> bool {
    match r {
        JsonValue::Object(es) => {
            &&& es@.len() == 1
            &&& es@[0].0@ == "tools"@
            &&& match es@[0].1 {
                JsonValue::Array(items) => {
                    &&& items@.len() == config.tools@.len()
                    &&& forall|i: int| 0 <= i < items@.len() ==> tool_json(#[trigger] items@[i], config.tools@[i].1)
                },
                _ => false,
            }
        },
        _ => false,
    }
}

proof fn lemma_keys_differ()
    ensures
        "annotations"@ != "description"@,
        "annotations"@ != "inputSchema"@,
        "annotations"@ != "name"@,
        "annotations"@ != "title"@,
        "description"@ != "inputSchema"@,
        "description"@ != "name"@,
        "description"@ != "title"@,
        "inputSchema"@ != "name"@,
        "inputSchema"@ != "title"@,
        "name"@ != "title"@,
{
    reveal_strlit("annotations");
    reveal_strlit("description");
    reveal_strlit("inputSchema");
    reveal_strlit("name");
    reveal_strlit("title");
    assert("annotations"@[0] == 'a');
    assert("description"@[0] == 'd');
    assert("inputSchema"@[0] == 'i');
    assert("name"@[0] == 'n');
    assert("title"@[0] == 't');
}

fn push_hint(es: &mut Vec<(String, JsonValue)>, k: &str, o: Option<bool>, Ghost(done): Ghost<Seq<(Seq<char>, bool)>>)
    requires
        old(es)@.len() == done.len(),
        forall|i: int| 0 <= i < done.len() ==> (#[trigger] old(es)@[i]).0@ == done[i].0
            && old(es)@[i].1 == JsonValue::Bool(done[i].1),
    ensures
        ({
            let all = done + hint_entry(k@, o);
            &&& final(es)@.len() == all.len()
            &&& forall|i: int| 0 <= i < all.len() ==> (#[trigger] final(es)@[i]).0@ == all[i].0
                && final(es)@[i].1 == JsonValue::Bool(all[i].1)
        }),
{
    match o {
        Some(b) => {
            es.push((string_of(k), JsonValue::Bool(b)));
        },
        None => {},
    }
    let ghost all = done + hint_entry(k@, o);
    assert forall|i: int| 0 <= i < all.len() implies (#[trigger] es@[i]).0@ == all[i].0
        && es@[i].1 == JsonValue::Bool(all[i].1) by {
        if i < done.len() {
            assert(all[i] == done[i]);
        }
    }
}

/// The catalog object of the hints `a`.
pub fn annotations_value(a: &Annotations) -> (r: JsonValue)
    ensures
        annotations_json(r, *a),
{
    let mut es: Vec<(String, JsonValue)> = Vec::new();
    let ghost d0 = Seq::<(Seq<char>, bool)>::empty();
    push_hint(&mut es, "destructiveHint", a.destructive_hint, Ghost(d0));
    let ghost d1 = d0 + hint_entry("destructiveHint"@, a.destructive_hint);
    push_hint(&mut es, "idempotentHint", a.idempotent_hint, Ghost(d1));
    let ghost d2 = d1 + hint_entry("idempotentHint"@, a.idempotent_hint);
    push_hint(&mut es, "openWorldHint", a.open_world_hint, Ghost(d2));
    let ghost d3 = d2 + hint_entry("openWorldHint"@, a.open_world_hint);
    push_hint(&mut es, "readOnlyHint", a.read_only_hint, Ghost(d3));
    assert(d3 + hint_entry("readOnlyHint"@, a.read_only_hint) =~= hint_entries(*a));
    JsonValue::Object(es)
}

/// The catalog entry of one tool.
pub fn tool_entry(t: &CompiledTool) -> (r: JsonValue)
    ensures
        tool_json(r, *t),
{
    proof {
        lemma_keys_differ();
    }
    let mut es: Vec<(String, JsonValue)> = Vec::new();
    es.push((string_of("annotations"), annotations_value(&t.annotations)));
    match &t.description {
        Some(d) => {
            es.push((string_of("description"), JsonValue::Str(d.clone())));
        },
        None => {},
    }
    es.push((string_of("inputSchema"), clone_value(&t.schema.public_json)));
    es.push((string_of("name"), JsonValue::Str(t.name.clone())));
    match &t.title {
        Some(x) => {
            es.push((string_of("title"), JsonValue::Str(x.clone())));
        },
        None => {},
    }
    assert(es@.map_values(|e: (String, JsonValue)| e.0@) =~= tool_keys(*t));
    JsonValue::Object(es)
}

/// The catalog of all adopted tools, in name order.
pub fn tools_json(config: &ValidatedConfig) -> (r: JsonValue)
    ensures
        catalog_of(r, *config),
{
    let mut items: Vec<JsonValue> = Vec::new();
    let mut i: usize = 0;
    while i < config.tools.len()
        invariant
            i <= config.tools@.len(),
            items@.len() == i,
            forall|j: int| 0 <= j < i ==> tool_json(#[trigger] items@[j], config.tools@[j].1),
        decreases config.tools@.len() - i,
    {
        items.push(tool_entry(&config.tools[i].1));
        i += 1;
    }
    let mut root: Vec<(String, JsonValue)> = Vec::new();
    root.push((string_of("tools"), JsonValue::Array(items)));
    JsonValue::Object(root)
}

// ---------------------------------------------------------------------------
// Name order.

/// The name a catalog entry gives its tool (empty where it gives none).
pub open spec fn listed_name(v: JsonValue) -> Seq<char> {
    match v {
        JsonValue::Object(es) => match lookup(es@, "name"@) {
            Some(JsonValue::Str(s)) => s@,
            _ => Seq::empty(),
        },
        _ => Seq::empty(),
    }
}

/// The names the catalog `r` lists, in listing order.
pub open spec fn catalog_names(r: JsonValue) -> Seq<Seq<char>> {
    match r {
        JsonValue::Object(es) => if es@.len() > 0 {
            match es@[0].1 {
                JsonValue::Array(items) => items@.map_values(|v: JsonValue| listed_name(v)),
                _ => Seq::empty(),
            }
        } else {
            Seq::empty()
        },
        _ => Seq::empty(),
    }
}

proof fn lemma_listed_name(v: JsonValue, t: CompiledTool)
    requires
        tool_json(v, t),
    ensures
        listed_name(v) == t.name@,
{
    lemma_keys_differ();
    if let JsonValue::Object(es) = v {
        let keys = es@.map_values(|e: (String, JsonValue)| e.0@);
        let k: int = if t.description is Some { 3 } else { 2 };
        assert(keys[k] == "name"@);
        assert(es@[k].0@ == "name"@);
        assert forall|j: int| 0 <= j < k implies (#[trigger] es@[j]).0@ != "name"@ by {
            assert(keys[j] == es@[j].0@);
        }
        assert(key_at(es@, "name"@, k));
        lemma_key_at_unique(es@, "name"@, k);
        assert(tool_value(t, es@[k].0@, es@[k].1));
    }
}

/// Law: the catalog of an adopted configuration lists each tool under its
/// own name, in ascending name order, each name once.
pub proof fn law_catalog_in_name_order(r: JsonValue, config: ValidatedConfig)
    requires
        catalog_of(r, config),
        config_wf(config),
    ensures
        catalog_names(r) == entry_keys(config.tools@),
        strictly_sorted(catalog_names(r)),
{
    if let JsonValue::Object(es) = r {
        if let JsonValue::Array(items) = es@[0].1 {
            assert forall|i: int| 0 <= i < items@.len() implies listed_name(#[trigger] items@[i]) == config.tools@[i].0@ by {
                lemma_listed_name(items@[i], config.tools@[i].1);
            }
            assert(catalog_names(r) =~= entry_keys(config.tools@));
        }
    }
}

// ---------------------------------------------------------------------------
// Independence of the order entries were written in.

/// Two schemas adopted from one value publish the same schema.
proof fn lemma_public_same(c1: CompiledSchema, c2: CompiledSchema, v: JsonValue)
    requires
        compiled_from(c1, v),
        compiled_from(c2, v),
    ensures
        json_same(c1.public_json, c2.public_json),
{
    if let JsonValue::Object(entries) = v {
        let o = entries@;
        let names: Seq<Seq<char>> = if c1.kind == SchemaKind::Object {
            let pi = find_key(o, "properties"@).unwrap();
            entry_keys(o[pi].1->Object_0@)
        } else {
            Seq::empty()
        };
        assert(public_json_of(c1.public_json, o, c1.kind, names));
        assert(public_json_of(c2.public_json, o, c2.kind, names));
        let pe1 = c1.public_json->Object_0;
        let pe2 = c2.public_json->Object_0;
        assert forall|i: int| 0 <= i < pe1@.len() implies (#[trigger] pe1@[i]).0@ == pe2@[i].0@ && json_same(pe1@[i].1, pe2@[i].1) by {
            assert(pe1@[i].0@ == o[i].0@ && pe2@[i].0@ == o[i].0@);
            if c1.kind == SchemaKind::Object && o[i].0@ == "required"@ {
                let a1 = pe1@[i].1->Array_0;
                let a2 = pe2@[i].1->Array_0;
                assert forall|j: int| 0 <= j < a1@.len() implies json_same(#[trigger] a1@[j], a2@[j]) by {
                    assert(str_is(a1@[j], names[j]) && str_is(a2@[j], names[j]));
                }
            } else {
                lemma_canonical_unique(pe1@[i].1, pe2@[i].1, o[i].1);
            }
        }
    }
}

/// Catalog entries of two tools adopted from one configured tool are the same.
proof fn lemma_entry_same(x: JsonValue, y: JsonValue, t1: CompiledTool, t2: CompiledTool, name: Seq<char>, tool: RawTool, ts1: Seq<(String, RawTarget)>, ts2: Seq<(String, RawTarget)>)
    requires
        tool_from(t1, name, tool, ts1),
        tool_from(t2, name, tool, ts2),
        tool_json(x, t1),
        tool_json(y, t2),
    ensures
        json_same(x, y),
{
    lemma_keys_differ();
    lemma_public_same(t1.schema, t2.schema, tool.input_schema);
    assert(tool_keys(t1) == tool_keys(t2));
    let es1 = x->Object_0;
    let es2 = y->Object_0;
    let k1 = es1@.map_values(|e: (String, JsonValue)| e.0@);
    let k2 = es2@.map_values(|e: (String, JsonValue)| e.0@);
    assert forall|i: int| 0 <= i < es1@.len() implies (#[trigger] es1@[i]).0@ == es2@[i].0@ && json_same(es1@[i].1, es2@[i].1) by {
        assert(k1[i] == es1@[i].0@ && k2[i] == es2@[i].0@);
        let k = es1@[i].0@;
        assert(tool_value(t1, k, es1@[i].1));
        assert(tool_value(t2, k, es2@[i].1));
        if k == "annotations"@ {
            let h = hint_entries(t1.annotations);
            let a1 = es1@[i].1->Object_0;
            let a2 = es2@[i].1->Object_0;
            assert forall|j: int| 0 <= j < a1@.len() implies (#[trigger] a1@[j]).0@ == a2@[j].0@ && json_same(a1@[j].1, a2@[j].1) by {
                assert(a1@[j].0@ == h[j].0 && a2@[j].0@ == h[j].0);
            }
        } else if k == "inputSchema"@ {
            lemma_same_symmetric(t1.schema.public_json, es1@[i].1);
            lemma_same_transitive(es1@[i].1, t1.schema.public_json, t2.schema.public_json);
            lemma_same_transitive(es1@[i].1, t2.schema.public_json, es2@[i].1);
        }
    }
}

/// Law: the catalog depends on which tools are configured, never on the order
/// their entries were written in: two configurations whose tool maps give the
/// same tool under every name list the same catalog.
pub proof fn law_catalog_independent_of_entry_order(
    raw1: RawConfig,
    raw2: RawConfig,
    e1: Seq<(String, String)>,
    e2: Seq<(String, String)>,
    c1: ValidatedConfig,
    c2: ValidatedConfig,
    r1: JsonValue,
    r2: JsonValue,
)
    requires
        raw_wf(raw1),
        raw_wf(raw2),
        forall|k: Seq<char>| #[trigger] lookup(raw1.tools@, k) == lookup(raw2.tools@, k),
        config_from(c1, raw1, e1),
        config_from(c2, raw2, e2),
        catalog_of(r1, c1),
        catalog_of(r2, c2),
    ensures
        json_same(r1, r2),
{
    law_ordered_entries_determined(raw1.tools@, raw2.tools@);
    let es1 = r1->Object_0;
    let es2 = r2->Object_0;
    let items1 = es1@[0].1->Array_0;
    let items2 = es2@[0].1->Array_0;
    assert(raw1.tools@.len() == raw2.tools@.len()) by {
        assert(entry_keys(raw1.tools@).len() == raw1.tools@.len());
        assert(entry_keys(raw2.tools@).len() == raw2.tools@.len());
    }
    assert forall|i: int| 0 <= i < items1@.len() implies json_same(#[trigger] items1@[i], items2@[i]) by {
        assert(raw1.tools@[i].1 == raw2.tools@[i].1);
        assert(entry_keys(raw1.tools@)[i] == entry_keys(raw2.tools@)[i]);
        assert(tool_from(c1.tools@[i].1, raw1.tools@[i].0@, raw1.tools@[i].1, raw1.targets@));
        assert(tool_from(c2.tools@[i].1, raw2.tools@[i].0@, raw2.tools@[i].1, raw2.targets@));
        lemma_entry_same(items1@[i], items2@[i], c1.tools@[i].1, c2.tools@[i].1, raw1.tools@[i].0@, raw1.tools@[i].1, raw1.targets@, raw2.targets@);
    }
    assert(json_same(es1@[0].1, es2@[0].1));
}

// ---------------------------------------------------------------------------
// Hints by name.

/// The JSON form of an optional hint: the boolean when it is set.
pub open spec fn hint_value(o: Option<bool>) -> Option<JsonValue> {
    match o {
        Some(b) => Some(JsonValue::Bool(b)),
        None => None,
    }
}

/// The object `v` holds the hint `o` under the name `k`: `o`'s value when
/// it is set, nothing when it is not.
pub open spec fn hint_is(v: JsonValue, k: Seq<char>, o: Option<bool>) -> bool {
    match v {
        JsonValue::Object(es) => lookup(es@, k) == hint_value(o),
        _ => false,
    }
}

/// Law: an annotations object carries each hint under its own name: the
/// read-only hint under `readOnlyHint`, the destructive one under
/// `destructiveHint`, the idempotent one under `idempotentHint` and the
/// open-world one under `openWorldHint`, each present exactly when set.
pub proof fn law_hints_by_name(v: JsonValue, a: Annotations)
    requires
        annotations_json(v, a),
    ensures
        hint_is(v, "readOnlyHint"@, a.read_only_hint),
        hint_is(v, "destructiveHint"@, a.destructive_hint),
        hint_is(v, "idempotentHint"@, a.idempotent_hint),
        hint_is(v, "openWorldHint"@, a.open_world_hint),
{
    reveal_strlit("readOnlyHint");
    reveal_strlit("destructiveHint");
    reveal_strlit("idempotentHint");
    reveal_strlit("openWorldHint");
    let kd = "destructiveHint"@;
    let ki = "idempotentHint"@;
    let ko = "openWorldHint"@;
    let kr = "readOnlyHint"@;
    assert(kd[0] == 'd' && ki[0] == 'i' && ko[0] == 'o' && kr[0] == 'r');
    assert(kd != ki && kd != ko && kd != kr && ki != ko && ki != kr && ko != kr);
    let d = hint_entry(kd, a.destructive_hint);
    let i_ = hint_entry(ki, a.idempotent_hint);
    let o = hint_entry(ko, a.open_world_hint);
    let r = hint_entry(kr, a.read_only_hint);
    let h = hint_entries(a);
    assert(h == d + i_ + o + r);
    let ld = d.len() as int;
    let li = i_.len() as int;
    let lo = o.len() as int;
    let es = v->Object_0@;
    assert forall|j: int| 0 <= j < h.len() implies (#[trigger] es[j]).0@ == (if j < ld { kd } else if j < ld + li { ki } else if j < ld + li + lo { ko } else { kr })
        && es[j].1 == JsonValue::Bool(h[j].1) by {
        assert(es[j].0@ == h[j].0 && es[j].1 == JsonValue::Bool(h[j].1));
        if j < ld {
            assert(h[j] == d[j]);
        } else if j < ld + li {
            assert(h[j] == i_[j - ld]);
        } else if j < ld + li + lo {
            assert(h[j] == o[j - ld - li]);
        } else {
            assert(h[j] == r[j - ld - li - lo]);
        }
    }
    // destructiveHint
    if let Some(b) = a.destructive_hint {
        lemma_lookup_at(es, 0);
    } else {
        lemma_no_key(es, kd);
    }
    // idempotentHint
    if let Some(b) = a.idempotent_hint {
        assert forall|j: int| 0 <= j < ld implies (#[trigger] es[j]).0@ != es[ld].0@ by {}
        lemma_lookup_at(es, ld);
    } else {
        lemma_no_key(es, ki);
    }
    // openWorldHint
    if let Some(b) = a.open_world_hint {
        assert forall|j: int| 0 <= j < ld + li implies (#[trigger] es[j]).0@ != es[ld + li].0@ by {}
        lemma_lookup_at(es, ld + li);
    } else {
        lemma_no_key(es, ko);
    }
    // readOnlyHint
    if let Some(b) = a.read_only_hint {
        assert forall|j: int| 0 <= j < ld + li + lo implies (#[trigger] es[j]).0@ != es[ld + li + lo].0@ by {}
        lemma_lookup_at(es, ld + li + lo);
    } else {
        lemma_no_key(es, kr);
    }
}

/// The catalog entry `item` lists, under `annotations`, the hints `a` as
/// written, each under its own name and present exactly when written.
pub open spec fn hints_listed(item: JsonValue, a: RawAnnotations) -> bool {
    &&& item matches JsonValue::Object(es)
    &&& lookup(item->Object_0@, "annotations"@) matches Some(v)
    &&& hint_is(v, "readOnlyHint"@, a.read_only_hint)
    &&& hint_is(v, "destructiveHint"@, a.destructive_hint)
    &&& hint_is(v, "idempotentHint"@, a.idempotent_hint)
    &&& hint_is(v, "openWorldHint"@, a.open_world_hint)
}

/// The items a catalog lists.
pub open spec fn catalog_items(r: JsonValue) -> Seq<JsonValue> {
    match r {
        JsonValue::Object(top) => if top@.len() > 0 {
            match top@[0].1 {
                JsonValue::Array(items) => items@,
                _ => Seq::empty(),
            }
        } else {
            Seq::empty()
        },
        _ => Seq::empty(),
    }
}

/// Law: the catalog of a configuration adopted from `raw` lists one entry per
/// configured tool and, for each, under `annotations`, the hints written for
/// that tool, each under its own name and present exactly when written.
pub proof fn law_catalog_hints(raw: RawConfig, env: Seq<(String, String)>, c: ValidatedConfig, r: JsonValue)
    requires
        config_from(c, raw, env),
        catalog_of(r, c),
    ensures
        catalog_items(r).len() == raw.tools@.len(),
        forall|i: int| 0 <= i < raw.tools@.len() ==> hints_listed(#[trigger] catalog_items(r)[i], raw.tools@[i].1.annotations),
{
    let items = catalog_items(r);
    assert forall|i: int| 0 <= i < raw.tools@.len() implies hints_listed(#[trigger] catalog_items(r)[i], raw.tools@[i].1.annotations) by {
        let t = c.tools@[i].1;
        assert(tool_json(items[i], t));
        assert(tool_from(t, raw.tools@[i].0@, raw.tools@[i].1, raw.targets@));
        let es = items[i]->Object_0;
        let keys = es@.map_values(|e: (String, JsonValue)| e.0@);
        assert(keys[0] == "annotations"@);
        assert(es@[0].0@ == "annotations"@);
        lemma_lookup_at(es@, 0);
        assert(tool_value(t, es@[0].0@, es@[0].1));
        law_hints_by_name(es@[0].1, t.annotations);
    }
}

// ---------------------------------------------------------------------------
// Names and texts.

/// `o` is the catalog value of the optional text `t`: the same string when
/// `t` is written, nothing when it is not.
pub open spec fn text_listed(o: Option<JsonValue>, t: Option<String>) -> bool {
    match t {
        Some(x) => o matches Some(JsonValue::Str(y)) && y@ == x@,
        None => o is None,
    }
}

/// The catalog entry `item` lists the tool `name` with its written title and
/// description, each under its own key.
pub open spec fn texts_listed(item: JsonValue, name: Seq<char>, title: Option<String>, description: Option<String>) -> bool {
    &&& item matches JsonValue::Object(es)
    &&& lookup(item->Object_0@, "name"@) matches Some(JsonValue::Str(n)) && n@ == name
    &&& text_listed(lookup(item->Object_0@, "title"@), title)
    &&& text_listed(lookup(item->Object_0@, "description"@), description)
}

proof fn lemma_entry_texts(v: JsonValue, t: CompiledTool)
    requires
        tool_json(v, t),
    ensures
        texts_listed(v, t.name@, t.title, t.description),
{
    lemma_keys_differ();
    let es = v->Object_0@;
    let keys = es.map_values(|e: (String, JsonValue)| e.0@);
    let a = "annotations"@;
    let d = "description"@;
    let s = "inputSchema"@;
    let n = "name"@;
    let ti = "title"@;
    if t.description is Some {
        if t.title is Some {
            assert(tool_keys(t) =~= seq![a, d, s, n, ti]);
        } else {
            assert(tool_keys(t) =~= seq![a, d, s, n]);
        }
    } else {
        if t.title is Some {
            assert(tool_keys(t) =~= seq![a, s, n, ti]);
        } else {
            assert(tool_keys(t) =~= seq![a, s, n]);
        }
    }
    assert forall|j: int| 0 <= j < es.len() implies (#[trigger] es[j]).0@ == keys[j] by {}
    let kd: int = if t.description is Some { 1 } else { 0 };
    // name
    assert forall|j: int| 0 <= j < 2 + kd implies (#[trigger] es[j]).0@ != es[2 + kd].0@ by {}
    lemma_lookup_at(es, 2 + kd);
    assert(tool_value(t, es[2 + kd].0@, es[2 + kd].1));
    // description
    if t.description is Some {
        assert(es[0].0@ != es[1].0@);
        lemma_lookup_at(es, 1);
        assert(tool_value(t, es[1].0@, es[1].1));
    } else {
        assert forall|j: int| 0 <= j < es.len() implies (#[trigger] es[j]).0@ != d by {}
        lemma_no_key(es, d);
    }
    // title
    if t.title is Some {
        assert forall|j: int| 0 <= j < 3 + kd implies (#[trigger] es[j]).0@ != es[3 + kd].0@ by {}
        lemma_lookup_at(es, 3 + kd);
        assert(tool_value(t, es[3 + kd].0@, es[3 + kd].1));
    } else {
        assert forall|j: int| 0 <= j < es.len() implies (#[trigger] es[j]).0@ != ti by {}
        lemma_no_key(es, ti);
    }
}

/// Law: the catalog of a configuration adopted from `raw` lists each
/// configured tool, in entry order, under its configured name, with its
/// written title and description (each present exactly when written).
pub proof fn law_catalog_texts(raw: RawConfig, env: Seq<(String, String)>, c: ValidatedConfig, r: JsonValue)
    requires
        config_from(c, raw, env),
        catalog_of(r, c),
    ensures
        catalog_items(r).len() == raw.tools@.len(),
        forall|i: int| 0 <= i < raw.tools@.len() ==> texts_listed(#[trigger] catalog_items(r)[i], raw.tools@[i].0@,
            raw.tools@[i].1.title, raw.tools@[i].1.description),
{
    let items = catalog_items(r);
    assert forall|i: int| 0 <= i < raw.tools@.len() implies texts_listed(#[trigger] catalog_items(r)[i], raw.tools@[i].0@,
        raw.tools@[i].1.title, raw.tools@[i].1.description) by {
        let t = c.tools@[i].1;
        assert(tool_json(items[i], t));
        assert(tool_from(t, raw.tools@[i].0@, raw.tools@[i].1, raw.targets@));
        lemma_entry_texts(items[i], t);
    }
}

} // verus!
