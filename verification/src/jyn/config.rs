//! User configuration for jyn.
//!
//! YAML files at two locations, merged at load time with a deep merge
//! over the code defaults:
//!   1. code defaults (`Config::default()`)
//!   2. global personal: `$XDG_CONFIG_HOME/jyn/config.yaml`
//!   3. project-local personal: `<root>/.jyn/config.yaml`
//!
//! The untyped values are JSON values ([`JsonValue`]); objects are maps
//! from keys to values, and the order of their entries carries no meaning.

use vstd::prelude::*;

use crate::paths::{join_path, path_join};
use crate::text::{
    all_digits, chars_of, find_char_from, digits_value, eq_chars, extend_chars, is_digit, lemma_digits_value_prefix,
    split_char, split_chars, string_of,
};

verus! {

// ---------------------------------------------------------------------------
// JSON values
// ---------------------------------------------------------------------------

/// A JSON number: a non-negative or a negative integer, or a finite
/// floating-point number held as a decimal text that reads as it.
#[derive(Debug, Clone, PartialEq)]
pub enum JsonNumber {
    PosInt(u64),
    NegInt(i64),
    Float(String),
}

/// A JSON value.
#[derive(Debug, PartialEq)]
pub enum JsonValue {
    Null,
    Bool(bool),
    Number(JsonNumber),
    Str(String),
    Array(Vec<JsonValue>),
    Object(Vec<(String, JsonValue)>),
}

/// A JSON number, as a plain value.
pub ghost enum NumberView {
    PosInt(u64),
    NegInt(i64),
    Float(Seq<char>),
}

/// A JSON value, as a plain value: strings as char sequences, arrays as
/// sequences, objects as sequences of (key, value) entries.
pub ghost enum Json {
    Null,
    Bool(bool),
    Number(NumberView),
    Str(Seq<char>),
    Array(Seq<Json>),
    Object(Seq<(Seq<char>, Json)>),
}

impl JsonNumber {
    pub open spec fn view(&self) -> NumberView {
        match self {
            JsonNumber::PosInt(u) => NumberView::PosInt(*u),
            JsonNumber::NegInt(i) => NumberView::NegInt(*i),
            JsonNumber::Float(s) => NumberView::Float(s@),
        }
    }
}

/// The plain values of a sequence of JSON values.
pub open spec fn values_view(s: Seq<JsonValue>) -> Seq<Json>
    decreases s,
{
    Seq::new(
        s.len(),
        |i: int|
            if 0 <= i < s.len() {
                json_view(s[i])
            } else {
                Json::Null
            },
    )
}

/// The plain values of a sequence of object entries.
pub open spec fn entries_view(s: Seq<(String, JsonValue)>) -> Seq<(Seq<char>, Json)>
    decreases s,
{
    Seq::new(
        s.len(),
        |i: int|
            if 0 <= i < s.len() {
                (s[i].0@, json_view(s[i].1))
            } else {
                (Seq::empty(), Json::Null)
            },
    )
}

/// The plain value of a JSON value.
pub open spec fn json_view(v: JsonValue) -> Json
    decreases v,
{
    match v {
        JsonValue::Null => Json::Null,
        JsonValue::Bool(b) => Json::Bool(b),
        JsonValue::Number(n) => Json::Number(n.view()),
        JsonValue::Str(s) => Json::Str(s@),
        JsonValue::Array(a) => Json::Array(values_view(a@)),
        JsonValue::Object(o) => Json::Object(entries_view(o@)),
    }
}

impl JsonNumber {
    /// A copy of this number.
    pub fn copy(&self) -> (r: JsonNumber)
        ensures
            r.view() == self.view(),
    {
        match self {
            JsonNumber::PosInt(u) => JsonNumber::PosInt(*u),
            JsonNumber::NegInt(i) => JsonNumber::NegInt(*i),
            JsonNumber::Float(s) => JsonNumber::Float(s.clone()),
        }
    }
}

impl JsonValue {
    /// A deep copy of this value.
    pub fn copy(&self) -> (r: JsonValue)
        ensures
            json_view(r) == json_view(*self),
        decreases self,
    {
        match self {
            JsonValue::Null => JsonValue::Null,
            JsonValue::Bool(b) => JsonValue::Bool(*b),
            JsonValue::Number(n) => JsonValue::Number(n.copy()),
            JsonValue::Str(s) => JsonValue::Str(s.clone()),
            JsonValue::Array(a) => {
                let mut out: Vec<JsonValue> = Vec::new();
                let mut i: usize = 0;
                while i < a.len()
                    invariant
                        i <= a@.len(),
                        *self == JsonValue::Array(*a),
                        out@.len() == i,
                        forall|j: int| 0 <= j < i ==> json_view(#[trigger] out@[j]) == json_view(a@[j]),
                    decreases a@.len() - i,
                {
                    proof {
                        assert(decreases_to!(*self => self->Array_0));
                        assert(decreases_to!(*a => a@));
                        assert(decreases_to!(a@ => a@[i as int]));
                        assert(decreases_to!(*self => a@[i as int]));
                    }
                    let c = a[i].copy();
                    out.push(c);
                    i = i + 1;
                }
                assert(values_view(out@) =~= values_view(a@));
                JsonValue::Array(out)
            },
            JsonValue::Object(o) => {
                let mut out: Vec<(String, JsonValue)> = Vec::new();
                let mut i: usize = 0;
                while i < o.len()
                    invariant
                        i <= o@.len(),
                        *self == JsonValue::Object(*o),
                        out@.len() == i,
                        forall|j: int|
                            0 <= j < i ==> (#[trigger] out@[j]).0@ == o@[j].0@ && json_view(out@[j].1)
                                == json_view(o@[j].1),
                    decreases o@.len() - i,
                {
                    proof {
                        assert(decreases_to!(*self => self->Object_0));
                        assert(decreases_to!(*o => o@));
                        assert(decreases_to!(o@ => o@[i as int]));
                        assert(decreases_to!(o@[i as int] => o@[i as int].1));
                        assert(decreases_to!(*self => o@[i as int].1));
                    }
                    let c = o[i].1.copy();
                    out.push((o[i].0.clone(), c));
                    i = i + 1;
                }
                assert(entries_view(out@) =~= entries_view(o@));
                JsonValue::Object(out)
            },
        }
    }
}

// ---------------------------------------------------------------------------
// Objects as maps
// ---------------------------------------------------------------------------

/// The position of the first entry with key `k` at or after `i`, or the
/// number of entries when there is none.
pub open spec fn key_pos(e: Seq<(Seq<char>, Json)>, k: Seq<char>, i: int) -> int
    decreases e.len() - i,
{
    if i < 0 || i >= e.len() {
        e.len() as int
    } else if e[i].0 == k {
        i
    } else {
        key_pos(e, k, i + 1)
    }
}

/// The value under key `k`.
pub open spec fn obj_get(e: Seq<(Seq<char>, Json)>, k: Seq<char>) -> Option<Json> {
    let p = key_pos(e, k, 0);
    if p < e.len() {
        Some(e[p].1)
    } else {
        None
    }
}

/// The entries with `v` under key `k`: the entry replaced when there is
/// one, else added.
pub open spec fn obj_set(e: Seq<(Seq<char>, Json)>, k: Seq<char>, v: Json) -> Seq<(Seq<char>, Json)> {
    let p = key_pos(e, k, 0);
    if p < e.len() {
        e.update(p, (k, v))
    } else {
        e.push((k, v))
    }
}

/// The value of `v` under key `k`, when `v` is an object that has one
/// (`serde_json::Value::get` with a string key).
pub open spec fn get_key(v: Json, k: Seq<char>) -> Option<Json> {
    match v {
        Json::Object(e) => obj_get(e, k),
        _ => None,
    }
}

proof fn lemma_key_pos(e: Seq<(Seq<char>, Json)>, k: Seq<char>, i: int)
    requires
        0 <= i <= e.len(),
    ensures
        i <= key_pos(e, k, i) <= e.len(),
        key_pos(e, k, i) < e.len() ==> e[key_pos(e, k, i)].0 == k,
        forall|j: int| i <= j < key_pos(e, k, i) ==> (#[trigger] e[j]).0 != k,
    decreases e.len() - i,
{
    if i < e.len() && e[i].0 != k {
        lemma_key_pos(e, k, i + 1);
    }
}

/// The position of the entry with key `k`, if any.
fn find_entry(entries: &Vec<(String, JsonValue)>, k: &str) -> (r: Option<usize>)
    ensures
        match r {
            Some(p) => p == key_pos(entries_view(entries@), k@, 0) && p < entries@.len(),
            None => key_pos(entries_view(entries@), k@, 0) == entries@.len(),
        },
{
    let ghost e = entries_view(entries@);
    let kv = chars_of(k);
    let mut i: usize = 0;
    while i < entries.len()
        invariant
            i <= entries@.len(),
            e == entries_view(entries@),
            kv@ == k@,
            key_pos(e, k@, 0) == key_pos(e, k@, i as int),
        decreases entries@.len() - i,
    {
        assert(e[i as int].0 == entries@[i as int].0@);
        if eq_chars(&chars_of(entries[i].0.as_str()), &kv) {
            return Some(i);
        }
        i = i + 1;
    }
    None
}

proof fn lemma_key_pos_absent(e: Seq<(Seq<char>, Json)>, k: Seq<char>, i: int)
    requires
        0 <= i <= e.len(),
        forall|j: int| i <= j < e.len() ==> (#[trigger] e[j]).0 != k,
    ensures
        key_pos(e, k, i) == e.len(),
    decreases e.len() - i,
{
    if i < e.len() {
        lemma_key_pos_absent(e, k, i + 1);
    }
}

proof fn lemma_key_pos_at(e: Seq<(Seq<char>, Json)>, k: Seq<char>, i: int, p: int)
    requires
        0 <= i <= p < e.len(),
        e[p].0 == k,
        forall|j: int| i <= j < p ==> (#[trigger] e[j]).0 != k,
    ensures
        key_pos(e, k, i) == p,
    decreases p - i,
{
    if i < p {
        lemma_key_pos_at(e, k, i + 1, p);
    }
}

/// Reading a key back after setting it gives the value set; other keys
/// read as before.
pub proof fn lemma_obj_get_set(e: Seq<(Seq<char>, Json)>, k: Seq<char>, v: Json, k2: Seq<char>)
    ensures
        obj_get(obj_set(e, k, v), k) == Some(v),
        k2 != k ==> obj_get(obj_set(e, k, v), k2) == obj_get(e, k2),
{
    let p = key_pos(e, k, 0);
    lemma_key_pos(e, k, 0);
    let e2 = obj_set(e, k, v);
    lemma_key_pos(e, k2, 0);
    let p2 = key_pos(e, k2, 0);
    if p < e.len() {
        lemma_key_pos_at(e2, k, 0, p);
        if k2 != k {
            if p2 < e.len() {
                lemma_key_pos_at(e2, k2, 0, p2);
            } else {
                lemma_key_pos_absent(e2, k2, 0);
            }
        }
    } else {
        lemma_key_pos_at(e2, k, 0, e.len() as int);
        if k2 != k {
            if p2 < e.len() {
                lemma_key_pos_at(e2, k2, 0, p2);
            } else {
                lemma_key_pos_absent(e2, k2, 0);
            }
        }
    }
}

// ---------------------------------------------------------------------------
// Deep merge
// ---------------------------------------------------------------------------

/// `overlay` merged into `base`: object keys are merged recursively, any
/// other value is replaced by the overlay's.
pub open spec fn merged(base: Json, overlay: Json) -> Json
    decreases overlay,
{
    match (base, overlay) {
        (Json::Object(b), Json::Object(o)) => Json::Object(merge_entries(b, o)),
        _ => overlay,
    }
}

/// The entries of `o` merged into those of `b`, in order.
pub open spec fn merge_entries(b: Seq<(Seq<char>, Json)>, o: Seq<(Seq<char>, Json)>) -> Seq<
    (Seq<char>, Json),
>
    decreases o,
{
    if o.len() == 0 {
        b
    } else {
        let b1 = merge_entries(b, o.drop_last());
        let k = o.last().0;
        let v = o.last().1;
        match obj_get(b1, k) {
            Some(x) => obj_set(b1, k, merged(x, v)),
            None => obj_set(b1, k, v),
        }
    }
}

/// No two entries of an object share a key.
pub open spec fn keys_unique(e: Seq<(Seq<char>, Json)>) -> bool {
    forall|i: int, j: int| 0 <= i < j < e.len() ==> (#[trigger] e[i]).0 != (#[trigger] e[j]).0
}

/// The value a merged object holds under a key, from the base's and the
/// overlay's values there.
pub open spec fn merged_entry(x: Option<Json>, y: Option<Json>) -> Option<Json> {
    match (x, y) {
        (x, None) => x,
        (Some(a), Some(b)) => Some(merged(a, b)),
        (None, Some(b)) => Some(b),
    }
}

proof fn lemma_obj_get_drop_last(e: Seq<(Seq<char>, Json)>, k: Seq<char>)
    requires
        e.len() > 0,
    ensures
        k != e.last().0 ==> obj_get(e, k) == obj_get(e.drop_last(), k),
        k == e.last().0 && obj_get(e.drop_last(), k) is None ==> obj_get(e, k) == Some(
            e.last().1,
        ),
{
    let d = e.drop_last();
    lemma_key_pos(d, k, 0);
    let p = key_pos(d, k, 0);
    if p < d.len() {
        assert(forall|j: int| 0 <= j < p ==> (#[trigger] e[j]) == d[j]);
        lemma_key_pos_at(e, k, 0, p);
    } else if k != e.last().0 {
        assert(forall|j: int| 0 <= j < d.len() ==> (#[trigger] e[j]) == d[j]);
        lemma_key_pos_absent(e, k, 0);
    } else {
        assert(forall|j: int| 0 <= j < d.len() ==> (#[trigger] e[j]) == d[j]);
        lemma_key_pos_at(e, k, 0, d.len() as int);
    }
}

proof fn lemma_merge_entries_get(b: Seq<(Seq<char>, Json)>, o: Seq<(Seq<char>, Json)>, k: Seq<char>)
    requires
        keys_unique(o),
    ensures
        obj_get(merge_entries(b, o), k) == merged_entry(obj_get(b, k), obj_get(o, k)),
    decreases o.len(),
{
    if o.len() == 0 {
        lemma_key_pos_absent(o, k, 0);
    } else {
        let d = o.drop_last();
        assert(keys_unique(d)) by {
            assert forall|i: int, j: int| 0 <= i < j < d.len() implies (#[trigger] d[i]).0 != (
            #[trigger] d[j]).0 by {
                assert(d[i] == o[i] && d[j] == o[j]);
            }
        }
        let b1 = merge_entries(b, d);
        let kl = o.last().0;
        let vl = o.last().1;
        lemma_merge_entries_get(b, d, k);
        lemma_merge_entries_get(b, d, kl);
        lemma_obj_get_drop_last(o, k);
        lemma_obj_get_drop_last(o, kl);
        lemma_key_pos(d, kl, 0);
        if key_pos(d, kl, 0) < d.len() {
            let q = key_pos(d, kl, 0);
            assert(o[q].0 == o[o.len() - 1].0);
        }
        let nv = match obj_get(b1, kl) {
            Some(x) => merged(x, vl),
            None => vl,
        };
        lemma_obj_get_set(b1, kl, nv, k);
    }
}

/// A deep merge merges objects key by key: a key only the base has keeps
/// its value, a key only the overlay has takes the overlay's, and a key
/// both have holds the two values merged. Anything else the overlay
/// replaces whole.
pub proof fn law_deep_merge_is_keywise(base: Json, overlay: Json, k: Seq<char>)
    requires
        overlay matches Json::Object(o) ==> keys_unique(o),
    ensures
        (base is Object && overlay is Object) ==> get_key(merged(base, overlay), k)
            == merged_entry(obj_get(base->Object_0, k), obj_get(overlay->Object_0, k)),
        !(base is Object && overlay is Object) ==> merged(base, overlay) == overlay,
{
    if base is Object && overlay is Object {
        lemma_merge_entries_get(base->Object_0, overlay->Object_0, k);
    }
}

proof fn lemma_entries_update(s: Seq<(String, JsonValue)>, p: int, e: (String, JsonValue))
    requires
        0 <= p < s.len(),
    ensures
        entries_view(s.remove(p).insert(p, e)) == entries_view(s).update(p, (e.0@, json_view(e.1))),
{
    assert(s.remove(p).insert(p, e) =~= s.update(p, e));
    assert(entries_view(s.update(p, e)) =~= entries_view(s).update(p, (e.0@, json_view(e.1))));
}

fn merge_into(base: JsonValue, overlay: &JsonValue) -> (r: JsonValue)
    ensures
        json_view(r) == merged(json_view(base), json_view(*overlay)),
    decreases overlay,
{
    match overlay {
        JsonValue::Object(o) => {
            match base {
                JsonValue::Object(b) => {
                    let mut b = b;
                    let ghost b0 = entries_view(b@);
                    let ghost ov = entries_view(o@);
                    let mut i: usize = 0;
                    while i < o.len()
                        invariant
                            i <= o@.len(),
                            *overlay == JsonValue::Object(*o),
                            ov == entries_view(o@),
                            entries_view(b@) == merge_entries(b0, ov.take(i as int)),
                        decreases o@.len() - i,
                    {
                        proof {
                            assert(decreases_to!(*overlay => overlay->Object_0));
                            assert(decreases_to!(*o => o@));
                            assert(decreases_to!(o@ => o@[i as int]));
                            assert(decreases_to!(o@[i as int] => o@[i as int].1));
                            assert(decreases_to!(*overlay => o@[i as int].1));
                            let t = ov.take(i + 1);
                            assert(t.drop_last() =~= ov.take(i as int));
                            assert(t.last() == ov[i as int]);
                        }
                        let ghost b1 = entries_view(b@);
                        let k = &o[i].0;
                        let v = &o[i].1;
                        match find_entry(&b, k.as_str()) {
                            Some(p) => {
                                proof {
                                    lemma_key_pos(b1, k@, 0);
                                }
                                let ghost before = b@;
                                let (kk, x) = b.remove(p);
                                let m = merge_into(x, v);
                                b.insert(p, (kk, m));
                                proof {
                                    lemma_entries_update(before, p as int, (kk, m));
                                }
                            },
                            None => {
                                let e = (k.clone(), v.copy());
                                b.push(e);
                                assert(entries_view(b@) =~= b1.push((k@, json_view(*v))));
                            },
                        }
                        i = i + 1;
                    }
                    assert(ov.take(o@.len() as int) =~= ov);
                    JsonValue::Object(b)
                },
                _ => overlay.copy(),
            }
        },
        _ => overlay.copy(),
    }
}

/// Recursively merge `overlay` into `base`: object keys are merged, all
/// other values are replaced.
pub fn deep_merge_value(base: &mut JsonValue, overlay: &JsonValue)
    ensures
        json_view(*final(base)) == merged(json_view(*old(base)), json_view(*overlay)),
{
    let mut b = JsonValue::Null;
    std::mem::swap(&mut b, base);
    *base = merge_into(b, overlay);
}

/// The layers merged in order of precedence: `base`, then the global
/// layer, then the project's layer, each when present.
pub open spec fn layered(base: Json, global: Option<Json>, local: Option<Json>) -> Json {
    let m = match global {
        Some(g) => merged(base, g),
        None => base,
    };
    match local {
        Some(l) => merged(m, l),
        None => m,
    }
}

/// Later layers take precedence: for objects, a key of the merged
/// configuration holds the defaults' value merged with the global
/// layer's, then with the project layer's, each layer winning over the
/// ones before it where it has a plain value.
pub proof fn law_later_layers_take_precedence(
    base: Seq<(Seq<char>, Json)>,
    global: Seq<(Seq<char>, Json)>,
    local: Seq<(Seq<char>, Json)>,
    k: Seq<char>,
)
    requires
        keys_unique(global),
        keys_unique(local),
    ensures
        get_key(layered(Json::Object(base), Some(Json::Object(global)), Some(Json::Object(local))), k)
            == merged_entry(merged_entry(obj_get(base, k), obj_get(global, k)), obj_get(local, k)),
{
    let m = merged(Json::Object(base), Json::Object(global));
    law_deep_merge_is_keywise(Json::Object(base), Json::Object(global), k);
    law_deep_merge_is_keywise(m, Json::Object(local), k);
}

/// The plain value of an optional JSON value.
pub open spec fn opt_json(v: Option<JsonValue>) -> Option<Json> {
    match v {
        Some(x) => Some(json_view(x)),
        None => None,
    }
}

/// Merge the configuration layers over `base` (the code defaults for
/// the resolved configuration, an empty object for the user's own
/// settings): the global file's value, then the project's, each when the
/// file exists and holds something.
pub fn merge_layers(base: JsonValue, global: Option<JsonValue>, local: Option<JsonValue>) -> (r:
    JsonValue)
    ensures
        json_view(r) == layered(json_view(base), opt_json(global), opt_json(local)),
{
    let mut merged_value = base;
    if let Some(g) = global {
        deep_merge_value(&mut merged_value, &g);
    }
    if let Some(l) = local {
        deep_merge_value(&mut merged_value, &l);
    }
    merged_value
}

// ---------------------------------------------------------------------------
// Dotted keys
// ---------------------------------------------------------------------------

/// `s` with every `a` replaced by `b`.
pub open spec fn replace_char(s: Seq<char>, a: char, b: char) -> Seq<char> {
    Seq::new(
        s.len(),
        |i: int|
            if s[i] == a {
                b
            } else {
                s[i]
            },
    )
}

fn replace_char_exec(s: &Vec<char>, a: char, b: char) -> (r: Vec<char>)
    ensures
        r@ == replace_char(s@, a, b),
{
    let mut out: Vec<char> = Vec::new();
    let mut i: usize = 0;
    while i < s.len()
        invariant
            i <= s@.len(),
            out@ =~= replace_char(s@, a, b).take(i as int),
        decreases s@.len() - i,
    {
        if s[i] == a {
            out.push(b);
        } else {
            out.push(s[i]);
        }
        i = i + 1;
        assert(out@ =~= replace_char(s@, a, b).take(i as int));
    }
    assert(replace_char(s@, a, b).take(s@.len() as int) =~= replace_char(s@, a, b));
    out
}

/// One step of a dotted key: the part as written, else with `-` read as
/// `_`, else with `_` read as `-`.
pub open spec fn lookup_part(v: Json, part: Seq<char>) -> Option<Json> {
    match get_key(v, part) {
        Some(x) => Some(x),
        None => match get_key(v, replace_char(part, '-', '_')) {
            Some(x) => Some(x),
            None => get_key(v, replace_char(part, '_', '-')),
        },
    }
}

/// The value reached by looking up each part in turn.
pub open spec fn navigate_parts(v: Json, parts: Seq<Seq<char>>) -> Option<Json>
    decreases parts.len(),
{
    if parts.len() == 0 {
        Some(v)
    } else {
        match lookup_part(v, parts[0]) {
            Some(x) => navigate_parts(x, parts.drop_first()),
            None => None,
        }
    }
}

/// The entry of an object under a key, by reference.
fn get_entry<'a>(v: &'a JsonValue, k: &Vec<char>) -> (r: Option<&'a JsonValue>)
    ensures
        match r {
            Some(x) => get_key(json_view(*v), k@) == Some(json_view(*x)),
            None => get_key(json_view(*v), k@) is None,
        },
{
    match v {
        JsonValue::Object(entries) => {
            let ks = string_of(k);
            match find_entry(entries, ks.as_str()) {
                Some(p) => {
                    proof {
                        lemma_key_pos(entries_view(entries@), k@, 0);
                    }
                    Some(&entries[p].1)
                },
                None => None,
            }
        },
        _ => None,
    }
}

/// Navigate a dotted key. Accepts both `fortune-category` and
/// `fortune_category` spellings of a part.
pub fn navigate<'a>(value: &'a JsonValue, key: &str) -> (r: Option<&'a JsonValue>)
    ensures
        match r {
            Some(x) => navigate_parts(json_view(*value), split_char(key@, '.')) == Some(
                json_view(*x),
            ),
            None => navigate_parts(json_view(*value), split_char(key@, '.')) is None,
        },
{
    let parts = split_chars(&chars_of(key), '.');
    let ghost ps = split_char(key@, '.');
    let mut current: &JsonValue = value;
    let mut i: usize = 0;
    assert(ps.skip(0) =~= ps);
    while i < parts.len()
        invariant
            i <= parts@.len(),
            ps == split_char(key@, '.'),
            parts@.len() == ps.len(),
            forall|j: int| 0 <= j < parts@.len() ==> (#[trigger] parts@[j])@ == ps[j],
            navigate_parts(json_view(*value), ps) == navigate_parts(
                json_view(*current),
                ps.skip(i as int),
            ),
        decreases parts@.len() - i,
    {
        let part = &parts[i];
        proof {
            assert(ps.skip(i as int)[0] == part@);
            assert(ps.skip(i as int).drop_first() =~= ps.skip(i + 1));
        }
        let next = match get_entry(current, part) {
            Some(x) => Some(x),
            None => match get_entry(current, &replace_char_exec(part, '-', '_')) {
                Some(x) => Some(x),
                None => get_entry(current, &replace_char_exec(part, '_', '-')),
            },
        };
        match next {
            Some(x) => {
                current = x;
            },
            None => {
                return None;
            },
        }
        i = i + 1;
    }
    assert(ps.skip(parts@.len() as int).len() == 0);
    Some(current)
}

/// Whether each key of `path` exists in turn (no spelling variants).
pub open spec fn has_path(v: Json, path: Seq<Seq<char>>) -> bool
    decreases path.len(),
{
    if path.len() == 0 {
        true
    } else {
        match get_key(v, path[0]) {
            Some(x) => has_path(x, path.drop_first()),
            None => false,
        }
    }
}

/// The views of a list of string slices.
pub open spec fn str_views(s: Seq<&str>) -> Seq<Seq<char>> {
    Seq::new(s.len(), |i: int| s[i]@)
}

/// Whether a value has an entry at the given key path.
pub fn has_key(value: &JsonValue, path: &[&str]) -> (r: bool)
    ensures
        r == has_path(json_view(*value), str_views(path@)),
{
    let ghost ps = str_views(path@);
    let mut current: &JsonValue = value;
    let mut i: usize = 0;
    assert(ps.skip(0) =~= ps);
    while i < path.len()
        invariant
            i <= path@.len(),
            ps == str_views(path@),
            has_path(json_view(*value), ps) == has_path(json_view(*current), ps.skip(i as int)),
        decreases path@.len() - i,
    {
        proof {
            assert(ps.skip(i as int)[0] == path@[i as int]@);
            assert(ps.skip(i as int).drop_first() =~= ps.skip(i + 1));
        }
        match get_entry(current, &chars_of(path[i])) {
            Some(v) => {
                current = v;
            },
            None => {
                return false;
            },
        }
        i = i + 1;
    }
    assert(ps.skip(path@.len() as int).len() == 0);
    true
}

// ---------------------------------------------------------------------------
// Setting a dotted key
// ---------------------------------------------------------------------------

/// The entries with `new` set at the key path `parts`, creating (or
/// replacing non-object values by) intermediate objects as needed.
pub open spec fn set_entries(e: Seq<(Seq<char>, Json)>, parts: Seq<Seq<char>>, new: Json) -> Seq<
    (Seq<char>, Json),
>
    decreases parts.len(),
{
    if parts.len() == 0 {
        e
    } else if parts.len() == 1 {
        obj_set(e, parts[0], new)
    } else {
        let child = match obj_get(e, parts[0]) {
            Some(Json::Object(c)) => c,
            _ => Seq::empty(),
        };
        obj_set(e, parts[0], Json::Object(set_entries(child, parts.drop_first(), new)))
    }
}

/// What setting a dotted key gives: the updated object, or `None` when
/// the value is not an object.
pub open spec fn set_path(v: Json, key: Seq<char>, new: Json) -> Option<Json> {
    match v {
        Json::Object(e) => Some(Json::Object(set_entries(e, split_char(key, '.'), new))),
        _ => None,
    }
}

/// The error when the value to set a key in is not an object.
pub open spec fn not_an_object_message(key: Seq<char>) -> Seq<char> {
    "cannot set '"@ + key + "': parent is not an object"@
}

fn set_in(
    e: Vec<(String, JsonValue)>,
    parts: &Vec<Vec<char>>,
    i: usize,
    new: JsonValue,
) -> (r: Vec<(String, JsonValue)>)
    requires
        i <= parts@.len(),
    ensures
        entries_view(r@) == set_entries(
            entries_view(e@),
            Seq::new((parts@.len() - i) as nat, |j: int| parts@[i + j]@),
            json_view(new),
        ),
    decreases parts@.len() - i,
{
    let ghost ps = Seq::new((parts@.len() - i) as nat, |j: int| parts@[i + j]@);
    let mut e = e;
    if i >= parts.len() {
        return e;
    }
    let key = string_of(&parts[i]);
    assert(ps[0] == key@);
    let ghost e0 = entries_view(e@);
    if i + 1 == parts.len() {
        match find_entry(&e, key.as_str()) {
            Some(p) => {
                proof {
                    lemma_key_pos(e0, key@, 0);
                }
                let ghost before = e@;
                let _old = e.remove(p);
                e.insert(p, (key, new));
                proof {
                    lemma_entries_update(before, p as int, e@[p as int]);
                    assert(e@ == before.remove(p as int).insert(p as int, e@[p as int]));
                }
            },
            None => {
                let ghost k = key@;
                let ghost nv = json_view(new);
                e.push((key, new));
                assert(entries_view(e@) =~= e0.push((k, nv)));
            },
        }
        return e;
    }
    let ghost rest = Seq::new((parts@.len() - (i + 1)) as nat, |j: int| parts@[i + 1 + j]@);
    assert(ps.drop_first() =~= rest);
    match find_entry(&e, key.as_str()) {
        Some(p) => {
            proof {
                lemma_key_pos(e0, key@, 0);
            }
            let ghost before = e@;
            let (kk, x) = e.remove(p);
            let child: Vec<(String, JsonValue)> = match x {
                JsonValue::Object(c) => c,
                _ => Vec::new(),
            };
            assert(entries_view(child@) == (match obj_get(e0, key@) {
                Some(Json::Object(c)) => c,
                _ => Seq::<(Seq<char>, Json)>::empty(),
            }));
            let updated = set_in(child, parts, i + 1, new);
            e.insert(p, (kk, JsonValue::Object(updated)));
            proof {
                lemma_entries_update(before, p as int, e@[p as int]);
                assert(e@ == before.remove(p as int).insert(p as int, e@[p as int]));
            }
        },
        None => {
            let empty: Vec<(String, JsonValue)> = Vec::new();
            assert(entries_view(empty@) =~= Seq::<(Seq<char>, Json)>::empty());
            let updated = set_in(empty, parts, i + 1, new);
            let ghost k = key@;
            let entry = (key, JsonValue::Object(updated));
            e.push(entry);
            assert(entries_view(e@) =~= e0.push((k, json_view(entry.1))));
        },
    }
    e
}

/// Set a value at a dotted key path, creating intermediate objects as
/// needed. Fails, changing nothing, when the value is not an object.
pub fn set_nested(value: &mut JsonValue, key: &str, new_val: JsonValue) -> (r: Result<(), String>)
    ensures
        match set_path(json_view(*old(value)), key@, json_view(new_val)) {
            Some(v) => r is Ok && json_view(*final(value)) == v,
            None => r matches Err(m) && m@ == not_an_object_message(key@) && json_view(
                *final(value),
            ) == json_view(*old(value)),
        },
{
    let parts = split_chars(&chars_of(key), '.');
    let ghost ps = split_char(key@, '.');
    assert(Seq::new((parts@.len() - 0) as nat, |j: int| parts@[0 + j]@) =~= ps);
    let mut v = JsonValue::Null;
    std::mem::swap(&mut v, value);
    match v {
        JsonValue::Object(e) => {
            *value = JsonValue::Object(set_in(e, &parts, 0, new_val));
            Ok(())
        },
        other => {
            *value = other;
            let mut m = chars_of("cannot set '");
            crate::text::extend_chars(&mut m, &chars_of(key));
            crate::text::extend_chars(&mut m, &chars_of("': parent is not an object"));
            Err(string_of(&m))
        },
    }
}

proof fn lemma_split_nonempty(s: Seq<char>, c: char)
    ensures
        split_char(s, c).len() >= 1,
    decreases s.len(),
{
    let k = find_char_from(s, c, 0);
    if 0 <= k < s.len() {
        lemma_split_nonempty(s.skip(k + 1), c);
    }
}

proof fn lemma_set_then_navigate(e: Seq<(Seq<char>, Json)>, parts: Seq<Seq<char>>, new: Json)
    requires
        parts.len() >= 1,
    ensures
        navigate_parts(Json::Object(set_entries(e, parts, new)), parts) == Some(new),
    decreases parts.len(),
{
    let k = parts[0];
    if parts.len() == 1 {
        lemma_obj_get_set(e, k, new, k);
        assert(parts.drop_first().len() == 0);
        assert(navigate_parts(new, parts.drop_first()) == Some(new));
        assert(lookup_part(Json::Object(set_entries(e, parts, new)), k) == Some(new));
    } else {
        let child = match obj_get(e, k) {
            Some(Json::Object(c)) => c,
            _ => Seq::empty(),
        };
        let c2 = set_entries(child, parts.drop_first(), new);
        lemma_obj_get_set(e, k, Json::Object(c2), k);
        lemma_set_then_navigate(child, parts.drop_first(), new);
        assert(lookup_part(Json::Object(set_entries(e, parts, new)), k) == Some(Json::Object(c2)));
    }
}

/// What is set at a dotted key is what navigating the key reads back:
/// after `set_nested` succeeds on an object, `navigate` finds the new
/// value at the same key.
pub proof fn law_navigate_reads_what_set_nested_wrote(v: Json, key: Seq<char>, new: Json)
    requires
        v is Object,
    ensures
        set_path(v, key, new) matches Some(w) && navigate_parts(w, split_char(key, '.')) == Some(
            new,
        ),
{
    lemma_split_nonempty(key, '.');
    lemma_set_then_navigate(v->Object_0, split_char(key, '.'), new);
}

// ---------------------------------------------------------------------------
// Values typed on the command line
// ---------------------------------------------------------------------------

/// `str::parse::<i64>`: an optional sign, then one or more ASCII digits
/// whose value fits in an `i64`.
pub open spec fn parse_i64(s: Seq<char>) -> Option<int> {
    if s.len() > 0 && (s[0] == '+' || s[0] == '-') {
        let d = s.skip(1);
        let v = if s[0] == '-' {
            -(digits_value(d) as int)
        } else {
            digits_value(d) as int
        };
        if d.len() > 0 && all_digits(d) && i64::MIN <= v <= i64::MAX {
            Some(v)
        } else {
            None
        }
    } else if s.len() > 0 && all_digits(s) && digits_value(s) <= i64::MAX {
        Some(digits_value(s) as int)
    } else {
        None
    }
}

/// Executable `parse_i64`.
pub fn parse_i64_exec(s: &Vec<char>) -> (r: Option<i64>)
    ensures
        match r {
            Some(v) => parse_i64(s@) == Some(v as int),
            None => parse_i64(s@) is None,
        },
{
    let n = s.len();
    if n == 0 {
        return None;
    }
    let signed = s[0] == '+' || s[0] == '-';
    let neg = s[0] == '-';
    let start: usize = if signed {
        1
    } else {
        0
    };
    let ghost d = if signed {
        s@.skip(1)
    } else {
        s@
    };
    assert(d =~= s@.subrange(start as int, n as int));
    if start >= n {
        return None;
    }
    let mut i: usize = start;
    let mut acc: u128 = 0;
    while i < n
        invariant
            start <= i <= n,
            n == s@.len(),
            n > 0,
            signed == (s@[0] == '+' || s@[0] == '-'),
            start == (if signed {
                1usize
            } else {
                0usize
            }),
            d == (if signed {
                s@.skip(1)
            } else {
                s@
            }),
            d == s@.subrange(start as int, n as int),
            d.len() > 0,
            acc == digits_value(d.take(i - start)),
            acc <= 0x8000_0000_0000_0000,
            all_digits(d.take(i - start)),
        decreases n - i,
    {
        let c = s[i];
        assert(d[i - start] == c);
        if c < '0' || c > '9' {
            assert(!is_digit(d[i - start]));
            assert(!all_digits(d));
            return None;
        }
        let dv = (c as u32 - 48) as u128;
        let ghost t = d.take(i - start + 1);
        assert(t.drop_last() =~= d.take(i - start));
        assert(t.last() == c);
        acc = acc * 10 + dv;
        assert(acc == digits_value(t));
        assert(all_digits(t)) by {
            assert forall|k: int| 0 <= k < t.len() implies is_digit(#[trigger] t[k]) by {
                if k < i - start {
                    assert(t[k] == d.take(i - start)[k]);
                }
            }
        }
        if acc > 0x8000_0000_0000_0000 {
            proof {
                lemma_digits_value_prefix(d, i - start + 1);
            }
            return None;
        }
        i = i + 1;
    }
    assert(d.take(n - start) =~= d);
    if neg {
        let v: i128 = 0 - (acc as i128);
        Some(v as i64)
    } else if acc <= 0x7fff_ffff_ffff_ffff {
        Some(acc as i64)
    } else {
        None
    }
}

/// The value `jyn config set` stores for a typed value: `true`/`false`,
/// `null`/`none`, an integer, a finite floating-point number (kept as
/// typed), else the text itself. `finite_float` says whether the text
/// reads as a finite `f64`.
pub open spec fn parsed_value(raw: Seq<char>, finite_float: bool) -> Json {
    if raw == "true"@ {
        Json::Bool(true)
    } else if raw == "false"@ {
        Json::Bool(false)
    } else if raw == "null"@ || raw == "none"@ {
        Json::Null
    } else {
        match parse_i64(raw) {
            Some(n) => Json::Number(
                if n < 0 {
                    NumberView::NegInt(n as i64)
                } else {
                    NumberView::PosInt(n as u64)
                },
            ),
            None => if finite_float {
                Json::Number(NumberView::Float(raw))
            } else {
                Json::Str(raw)
            },
        }
    }
}

/// Read a value typed on the command line; `finite_float` is whether
/// `raw` reads as a finite `f64` (`str::parse::<f64>`).
pub fn parse_value(raw: &str, finite_float: bool) -> (r: JsonValue)
    ensures
        json_view(r) == parsed_value(raw@, finite_float),
{
    let v = chars_of(raw);
    if eq_chars(&v, &chars_of("true")) {
        return JsonValue::Bool(true);
    }
    if eq_chars(&v, &chars_of("false")) {
        return JsonValue::Bool(false);
    }
    if eq_chars(&v, &chars_of("null")) || eq_chars(&v, &chars_of("none")) {
        return JsonValue::Null;
    }
    match parse_i64_exec(&v) {
        Some(n) => {
            if n < 0 {
                JsonValue::Number(JsonNumber::NegInt(n))
            } else {
                JsonValue::Number(JsonNumber::PosInt(n as u64))
            }
        },
        None => {
            if finite_float {
                JsonValue::Number(JsonNumber::Float(raw.to_owned()))
            } else {
                JsonValue::Str(raw.to_owned())
            }
        },
    }
}

// ---------------------------------------------------------------------------
// Where the configuration lives
// ---------------------------------------------------------------------------

pub const CONFIG_FILE: &'static str = "config.yaml";

pub const JYN_DIR: &'static str = ".jyn";

/// `<root>/.jyn`.
pub fn jyn_dir(root: &str) -> (r: String)
    ensures
        r@ == path_join(root@, JYN_DIR@),
{
    join_path(root, JYN_DIR)
}

/// `<root>/.jyn/config.yaml`.
pub fn local_config_path(root: &str) -> (r: String)
    ensures
        r@ == path_join(path_join(root@, JYN_DIR@), CONFIG_FILE@),
{
    join_path(jyn_dir(root).as_str(), CONFIG_FILE)
}

/// The global configuration directory: `$XDG_CONFIG_HOME` when set, else
/// `$HOME/.config`, else `./.config`.
pub open spec fn config_home(xdg: Option<Seq<char>>, home: Option<Seq<char>>) -> Seq<char> {
    match xdg {
        Some(x) => x,
        None => path_join(
            match home {
                Some(h) => h,
                None => "."@,
            },
            ".config"@,
        ),
    }
}

/// `<config home>/jyn/config.yaml` for the given `XDG_CONFIG_HOME` and
/// `HOME`.
pub fn global_config_path_from(xdg: Option<String>, home: Option<String>) -> (r: String)
    ensures
        r@ == path_join(
            path_join(
                config_home(
                    match xdg {
                        Some(x) => Some(x@),
                        None => None,
                    },
                    match home {
                        Some(h) => Some(h@),
                        None => None,
                    },
                ),
                "jyn"@,
            ),
            CONFIG_FILE@,
        ),
{
    let config_dir = match xdg {
        Some(x) => x,
        None => {
            let base = match home {
                Some(h) => h,
                None => ".".to_owned(),
            };
            join_path(base.as_str(), ".config")
        },
    };
    join_path(join_path(config_dir.as_str(), "jyn").as_str(), CONFIG_FILE)
}

// ---------------------------------------------------------------------------
// The typed configuration
// ---------------------------------------------------------------------------

/// A fortune category (`joy_core`'s `fortune::Category`).
#[derive(Clone, Copy, Debug, PartialEq, Eq, Structural)]
pub enum Category {
    Tech,
    Science,
    Humor,
    All,
}

/// Output settings.
#[derive(Clone, Copy, Debug, PartialEq, Eq, Structural)]
pub struct OutputConfig {
    pub fortune: bool,
    pub fortune_category: Option<Category>,
}

/// The configuration.
#[derive(Clone, Copy, Debug, PartialEq, Eq, Structural)]
pub struct Config {
    pub version: u32,
    pub output: OutputConfig,
}

/// The version a configuration without one has.
pub fn default_version() -> (r: u32)
    ensures
        r == 1,
{
    1
}

/// Whether fortunes are shown when the configuration does not say.
pub fn default_fortune() -> (r: bool)
    ensures
        r,
{
    true
}

impl Default for OutputConfig {
    fn default() -> (r: OutputConfig)
        ensures
            r.fortune,
            r.fortune_category is None,
    {
        OutputConfig { fortune: default_fortune(), fortune_category: None }
    }
}

impl Default for Config {
    fn default() -> (r: Config)
        ensures
            r.version == 1,
            r.output.fortune,
            r.output.fortune_category is None,
    {
        Config { version: default_version(), output: OutputConfig::default() }
    }
}

// ---------------------------------------------------------------------------
// Hints for a key
// ---------------------------------------------------------------------------

/// `n` copies of two spaces.
pub open spec fn indent(n: nat) -> Seq<char> {
    Seq::new(2 * n, |i: int| ' ')
}

/// The YAML lines for the parts from `i` on: each part on its own line,
/// indented two spaces per level, the last one followed by the value.
pub open spec fn yaml_lines(parts: Seq<Seq<char>>, value: Seq<char>, i: int) -> Seq<char>
    decreases parts.len() - i,
{
    if i < 0 || i >= parts.len() {
        Seq::empty()
    } else if i == parts.len() - 1 {
        indent(i as nat) + parts[i] + ": "@ + value + seq!['\n']
    } else {
        indent(i as nat) + parts[i] + seq![':', '\n'] + yaml_lines(parts, value, i + 1)
    }
}

/// A YAML document setting the dotted `key` to `value`, one nested
/// mapping per part.
pub fn build_yaml_for_key(key: &str, value: &str) -> (r: String)
    ensures
        r@ == yaml_lines(split_char(key@, '.'), value@, 0),
{
    let parts = split_chars(&chars_of(key), '.');
    let ghost ps = split_char(key@, '.');
    let n = parts.len();
    let mut yaml: Vec<char> = Vec::new();
    let mut i: usize = n;
    while i > 0
        invariant
            i <= n,
            n == ps.len(),
            parts@.len() == n,
            ps == split_char(key@, '.'),
            forall|j: int| 0 <= j < n ==> (#[trigger] parts@[j])@ == ps[j],
            yaml@ == yaml_lines(ps, value@, i as int),
        decreases i,
    {
        i = i - 1;
        let mut line: Vec<char> = Vec::new();
        let mut k: usize = 0;
        while k < i
            invariant
                k <= i,
                line@ =~= indent(k as nat),
            decreases i - k,
        {
            line.push(' ');
            line.push(' ');
            k = k + 1;
            assert(line@ =~= indent(k as nat));
        }
        extend_chars(&mut line, &parts[i]);
        if i == n - 1 {
            extend_chars(&mut line, &chars_of(": "));
            extend_chars(&mut line, &chars_of(value));
            line.push('\n');
        } else {
            line.push(':');
            line.push('\n');
        }
        extend_chars(&mut line, &yaml);
        proof {
            if i == n - 1 {
                assert(yaml@ == Seq::<char>::empty());
                assert(line@ =~= yaml_lines(ps, value@, i as int));
            } else {
                assert(line@ =~= yaml_lines(ps, value@, i as int));
            }
        }
        yaml = line;
    }
    string_of(&yaml)
}

/// What `field_hint` says of a key: the accepted values when some probe
/// values are accepted, else the type of the key's default value.
pub open spec fn hint_for(key: Seq<char>, candidates: Seq<Seq<char>>, defaults: Json) -> Option<
    Seq<char>,
> {
    if candidates.len() > 0 {
        Some("allowed values: "@ + joined(candidates, ", "@))
    } else {
        match navigate_parts(defaults, split_char(key, '.')) {
            Some(Json::Bool(_)) => Some("expected: true or false"@),
            Some(Json::Number(_)) => Some("expected: a number"@),
            Some(Json::Str(_)) => Some("expected: a string"@),
            _ => None,
        }
    }
}

/// The parts joined by a separator.
pub open spec fn joined(parts: Seq<Seq<char>>, sep: Seq<char>) -> Seq<char>
    decreases parts.len(),
{
    if parts.len() == 0 {
        Seq::empty()
    } else if parts.len() == 1 {
        parts[0]
    } else {
        joined(parts.drop_last(), sep) + sep + parts.last()
    }
}

/// A short "expected X" hint for a dotted key, or `None` for an unknown
/// key. `candidates` are the probe values (`tech`, `science`, `humor`,
/// `all`) that the configuration accepts at the key, `defaults` the
/// default configuration as a value.
pub fn field_hint(key: &str, candidates: &[&str], defaults: &JsonValue) -> (r: Option<String>)
    ensures
        match r {
            Some(h) => hint_for(key@, str_views(candidates@), json_view(*defaults)) == Some(h@),
            None => hint_for(key@, str_views(candidates@), json_view(*defaults)) is None,
        },
{
    let ghost cs = str_views(candidates@);
    if candidates.len() > 0 {
        let mut out = chars_of("allowed values: ");
        let ghost head = out@;
        let mut i: usize = 0;
        while i < candidates.len()
            invariant
                i <= candidates@.len(),
                cs == str_views(candidates@),
                out@ == head + joined(cs.take(i as int), ", "@),
            decreases candidates@.len() - i,
        {
            proof {
                assert(cs.take(i + 1).drop_last() =~= cs.take(i as int));
                assert(cs.take(i + 1).last() == candidates@[i as int]@);
            }
            if i > 0 {
                extend_chars(&mut out, &chars_of(", "));
            }
            extend_chars(&mut out, &chars_of(candidates[i]));
            proof {
                if i == 0 {
                    assert(cs.take(0).len() == 0);
                    assert(joined(cs.take(1), ", "@) == cs.take(1)[0]);
                }
                assert(out@ =~= head + joined(cs.take(i + 1), ", "@));
            }
            i = i + 1;
        }
        assert(cs.take(candidates@.len() as int) =~= cs);
        return Some(string_of(&out));
    }
    match navigate(defaults, key) {
        Some(JsonValue::Bool(_)) => Some("expected: true or false".to_owned()),
        Some(JsonValue::Number(_)) => Some("expected: a number".to_owned()),
        Some(JsonValue::Str(_)) => Some("expected: a string".to_owned()),
        _ => None,
    }
}

} // verus!
