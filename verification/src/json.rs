//! A small model of JSON values, together with the object-property
//! helpers that the seed subsystem uses to patch record configurations.
//!
//! Numbers keep only the reading the policy cares about: `Number(Some(n))`
//! is a number that reads as a `u64`, `Number(None)` is any other number
//! (negative, fractional, or out of range). Objects are ordered lists of
//! key/value pairs; lookups return the first entry with a matching key.

use vstd::prelude::*;

verus! {

#[derive(Debug, PartialEq)]
pub enum JsonValue {
    Null,
    Bool(bool),
    Number(Option<u64>),
    Text(String),
    Array(Vec<JsonValue>),
    Object(Vec<(String, JsonValue)>),
}

/// Index of the first entry with key `key`, or -1 when the key is absent.
pub open spec fn obj_key_index(es: Seq<(String, JsonValue)>, key: Seq<char>) -> int
    decreases es.len(),
{
    if es.len() == 0 {
        -1
    } else if es[0].0@ == key {
        0
    } else {
        let r = obj_key_index(es.drop_first(), key);
        if r == -1 {
            -1
        } else {
            r + 1
        }
    }
}

pub open spec fn obj_has_key(es: Seq<(String, JsonValue)>, key: Seq<char>) -> bool {
    obj_key_index(es, key) >= 0
}

/// Value of the first entry with key `key`, if any.
pub open spec fn obj_get(es: Seq<(String, JsonValue)>, key: Seq<char>) -> Option<JsonValue> {
    if obj_has_key(es, key) {
        Some(es[obj_key_index(es, key)].1)
    } else {
        None
    }
}

/// Property lookup on a JSON value: `None` unless the value is an object
/// holding the key.
pub open spec fn json_get(v: JsonValue, key: Seq<char>) -> Option<JsonValue> {
    match v {
        JsonValue::Object(es) => obj_get(es@, key),
        _ => None,
    }
}

/// How an object changes when `key` is bound to `v`: an existing entry is
/// replaced in place (keeping its key and position), a missing key is
/// appended at the end.
pub open spec fn obj_put_rel(
    old_es: Seq<(String, JsonValue)>,
    new_es: Seq<(String, JsonValue)>,
    key: Seq<char>,
    v: JsonValue,
) -> bool {
    if obj_has_key(old_es, key) {
        new_es =~= old_es.update(obj_key_index(old_es, key), (old_es[obj_key_index(old_es, key)].0, v))
    } else {
        new_es.len() == old_es.len() + 1 && new_es.subrange(0, old_es.len() as int) =~= old_es
            && new_es.last().0@ == key && new_es.last().1 == v
    }
}

proof fn lemma_obj_key_index_bounds(es: Seq<(String, JsonValue)>, key: Seq<char>)
    ensures
        obj_key_index(es, key) == -1 || (0 <= obj_key_index(es, key) < es.len()
            && es[obj_key_index(es, key)].0@ == key),
    decreases es.len(),
{
    if es.len() != 0 && es[0].0@ != key {
        lemma_obj_key_index_bounds(es.drop_first(), key);
    }
}

proof fn lemma_obj_key_index_skip(es: Seq<(String, JsonValue)>, key: Seq<char>, i: int)
    requires
        0 <= i < es.len(),
        forall|k: int| 0 <= k < i ==> es[k].0@ != key,
    ensures
        obj_key_index(es, key) == if obj_key_index(es.skip(i), key) == -1 {
            -1int
        } else {
            obj_key_index(es.skip(i), key) + i
        },
    decreases i,
{
    if i > 0 {
        assert(es[0].0@ != key);
        assert(es.drop_first() =~= es.skip(1));
        assert forall|k: int| 0 <= k < i - 1 implies es.skip(1)[k].0@ != key by {
            assert(es.skip(1)[k] == es[k + 1]);
        }
        lemma_obj_key_index_skip(es.skip(1), key, i - 1);
        assert(es.skip(1).skip(i - 1) =~= es.skip(i));
        lemma_obj_key_index_bounds(es.skip(i), key);
    } else {
        assert(es.skip(0) =~= es);
    }
}

/// Entries before the first occurrence of `key` do not carry it.
pub proof fn lemma_obj_key_index_first(es: Seq<(String, JsonValue)>, key: Seq<char>)
    ensures
        forall|k: int| 0 <= k < obj_key_index(es, key) ==> es[k].0@ != key,
    decreases es.len(),
{
    lemma_obj_key_index_bounds(es, key);
    if es.len() != 0 && es[0].0@ != key {
        lemma_obj_key_index_first(es.drop_first(), key);
        lemma_obj_key_index_bounds(es.drop_first(), key);
        assert forall|k: int| 0 <= k < obj_key_index(es, key) implies es[k].0@ != key by {
            if k > 0 {
                assert(es.drop_first()[k - 1] == es[k]);
                assert(es.drop_first()[k - 1].0@ != key);
            }
        }
    }
}

/// A key is absent exactly when no entry carries it.
pub proof fn lemma_obj_no_key(es: Seq<(String, JsonValue)>, key: Seq<char>)
    ensures
        obj_key_index(es, key) == -1 <==> forall|k: int| 0 <= k < es.len() ==> es[k].0@ != key,
    decreases es.len(),
{
    lemma_obj_key_index_bounds(es, key);
    if es.len() != 0 && es[0].0@ != key {
        lemma_obj_no_key(es.drop_first(), key);
        lemma_obj_key_index_bounds(es.drop_first(), key);
        if obj_key_index(es, key) == -1 {
            assert(obj_key_index(es.drop_first(), key) == -1);
            assert forall|k: int| 0 <= k < es.len() implies es[k].0@ != key by {
                if k > 0 {
                    assert(es.drop_first()[k - 1] == es[k]);
                    assert(es.drop_first()[k - 1].0@ != key);
                }
            }
        } else {
            assert(es.drop_first()[obj_key_index(es.drop_first(), key)].0@ == key);
        }
    }
}

/// After an `obj_put_rel` step, looking the key up yields the new value.
pub proof fn lemma_obj_put_get(
    old_es: Seq<(String, JsonValue)>,
    new_es: Seq<(String, JsonValue)>,
    key: Seq<char>,
    v: JsonValue,
)
    requires
        obj_put_rel(old_es, new_es, key, v),
    ensures
        obj_get(new_es, key) == Some(v),
{
    lemma_obj_key_index_bounds(old_es, key);
    if obj_has_key(old_es, key) {
        let i = obj_key_index(old_es, key);
        lemma_obj_key_index_first(old_es, key);
        assert forall|k: int| 0 <= k < i implies new_es[k].0@ != key by {
            assert(new_es[k] == old_es[k]);
        }
        lemma_obj_key_index_skip(new_es, key, i);
        assert(new_es.skip(i)[0] == new_es[i]);
        assert(new_es[i].0@ == key);
        assert(obj_key_index(new_es.skip(i), key) == 0);
        assert(obj_key_index(new_es, key) == i);
    } else {
        let n = old_es.len() as int;
        lemma_obj_no_key(old_es, key);
        assert forall|k: int| 0 <= k < n implies new_es[k].0@ != key by {
            assert(new_es.subrange(0, n)[k] == new_es[k]);
        }
        if n > 0 {
            lemma_obj_key_index_skip(new_es, key, n);
        }
        assert(new_es.skip(n)[0] == new_es[n]);
        assert(new_es[n].0@ == key);
        assert(obj_key_index(new_es.skip(n), key) == 0);
        assert(obj_key_index(new_es, key) == n);
    }
}

impl JsonValue {
    /// Property lookup, mirroring `json_get`.
    pub fn get(&self, key: &str) -> (r: Option<&JsonValue>)
        ensures
            match r {
                Some(v) => json_get(*self, key@) == Some(*v),
                None => json_get(*self, key@) is None,
            },
    {
        match self {
            JsonValue::Object(es) => {
                let n = es.len();
                let mut i: usize = 0;
                while i < n
                    invariant
                        n == es.len(),
                        0 <= i <= n,
                        *self is Object,
                        (*self)->Object_0 == *es,
                        forall|k: int| 0 <= k < i ==> es@[k].0@ != key@,
                    decreases n - i,
                {
                    if crate::strings::str_eq(es[i].0.as_str(), key) {
                        proof {
                            lemma_obj_key_index_skip(es@, key@, i as int);
                            assert(es@.skip(i as int)[0] == es@[i as int]);
                            assert(obj_key_index(es@.skip(i as int), key@) == 0);
                            assert(obj_key_index(es@, key@) == i as int);
                            assert(obj_get(es@, key@) == Some(es@[i as int].1));
                            assert(json_get(*self, key@) == obj_get(es@, key@));
                        }
                        return Some(&es[i].1);
                    }
                    i += 1;
                }
                proof {
                    if obj_has_key(es@, key@) {
                        lemma_obj_key_index_bounds(es@, key@);
                    }
                }
                None
            },
            _ => None,
        }
    }
}

/// Looks up `property` in an object's entries, returning its index.
fn find_entry(es: &Vec<(String, JsonValue)>, property: &String) -> (r: Option<usize>)
    ensures
        match r {
            Some(i) => 0 <= i < es@.len() && obj_key_index(es@, property@) == i as int,
            None => !obj_has_key(es@, property@),
        },
{
    let n = es.len();
    let mut i: usize = 0;
    while i < n
        invariant
            n == es.len(),
            0 <= i <= n,
            forall|k: int| 0 <= k < i ==> es@[k].0@ != property@,
        decreases n - i,
    {
        if crate::strings::str_eq(es[i].0.as_str(), property.as_str()) {
            proof {
                lemma_obj_key_index_skip(es@, property@, i as int);
                assert(obj_key_index(es@.skip(i as int), property@) == 0);
            }
            return Some(i);
        }
        i += 1;
    }
    proof {
        if obj_has_key(es@, property@) {
            lemma_obj_key_index_bounds(es@, property@);
        }
    }
    None
}

/// Binds `property` to `value` in the object, replacing an existing entry
/// or appending a new one.
fn put_entry(es: &mut Vec<(String, JsonValue)>, property: &String, value: JsonValue)
    ensures
        obj_put_rel(old(es)@, final(es)@, property@, value),
{
    let found = find_entry(es, property);
    match found {
        Some(i) => {
            let key = es[i].0.clone();
            proof {
                assert(key@ == old(es)@[i as int].0@);
            }
            es.set(i, (key, value));
            proof {
                assert(final(es)@ =~= old(es)@.update(
                    obj_key_index(old(es)@, property@),
                    (es@[i as int].0, value),
                ));
            }
        },
        None => {
            es.push((property.clone(), value));
        },
    }
}

/// Inserts or updates `property` on a JSON object. A present entry is
/// updated subject to `update_obj_prop`'s type rules; a missing one is
/// inserted unconditionally.
pub fn upsert_obj_prop(
    json_object: &mut JsonValue,
    property: &String,
    value: JsonValue,
    override_type: bool,
)
    requires
        *old(json_object) is Object,
    ensures
        *final(json_object) is Object,
        ({
            let old_es = (*old(json_object))->Object_0@;
            let new_es = (*final(json_object))->Object_0@;
            if !obj_has_key(old_es, property@) || override_type
                || json_same_kind(obj_get(old_es, property@).unwrap(), value) {
                obj_put_rel(old_es, new_es, property@, value)
            } else {
                new_es == old_es
            }
        }),
{
    let present = match json_object {
        JsonValue::Object(es) => find_entry(es, property).is_some(),
        _ => false,
    };
    if !present {
        match json_object {
            JsonValue::Object(es) => put_entry(es, property, value),
            _ => {
                assert(false);
            },
        }
    } else {
        update_obj_prop(json_object, property, value, override_type);
    }
}

/// Inserts `property` only when the object does not already hold it.
pub fn insert_obj_prop(json_object: &mut JsonValue, property: &String, value: JsonValue)
    requires
        *old(json_object) is Object,
    ensures
        *final(json_object) is Object,
        ({
            let old_es = (*old(json_object))->Object_0@;
            let new_es = (*final(json_object))->Object_0@;
            if obj_has_key(old_es, property@) {
                new_es == old_es
            } else {
                obj_put_rel(old_es, new_es, property@, value)
            }
        }),
{
    match json_object {
        JsonValue::Object(es) => {
            let found = find_entry(es, property);
            if found.is_none() {
                put_entry(es, property, value);
            }
        },
        _ => {
            assert(false);
        },
    }
}

/// Whether two JSON values are of the same syntactic kind.
pub open spec fn json_same_kind(a: JsonValue, b: JsonValue) -> bool {
    match (a, b) {
        (JsonValue::Null, JsonValue::Null) => true,
        (JsonValue::Bool(_), JsonValue::Bool(_)) => true,
        (JsonValue::Number(_), JsonValue::Number(_)) => true,
        (JsonValue::Text(_), JsonValue::Text(_)) => true,
        (JsonValue::Array(_), JsonValue::Array(_)) => true,
        (JsonValue::Object(_), JsonValue::Object(_)) => true,
        _ => false,
    }
}

/// Replaces the value of `property`. With `override_type` the new value is
/// stored unconditionally, inserting a missing property; otherwise the
/// property must be present, and only a value of the same JSON kind as
/// the present one may replace it.
pub fn update_obj_prop(
    json_object: &mut JsonValue,
    property: &String,
    value: JsonValue,
    override_type: bool,
)
    requires
        *old(json_object) is Object,
        override_type || obj_has_key((*old(json_object))->Object_0@, property@),
    ensures
        *final(json_object) is Object,
        ({
            let old_es = (*old(json_object))->Object_0@;
            let new_es = (*final(json_object))->Object_0@;
            if override_type || json_same_kind(obj_get(old_es, property@).unwrap(), value) {
                obj_put_rel(old_es, new_es, property@, value)
            } else {
                new_es == old_es
            }
        }),
{
    match json_object {
        JsonValue::Object(es) => {
            if override_type {
                put_entry(es, property, value);
                return ;
            }
            let found = find_entry(es, property);
            let i = match found {
                Some(i) => i,
                None => {
                    assert(false);
                    0
                },
            };
            let same = match (&es[i].1, &value) {
                (JsonValue::Null, JsonValue::Null) => true,
                (JsonValue::Bool(_), JsonValue::Bool(_)) => true,
                (JsonValue::Number(_), JsonValue::Number(_)) => true,
                (JsonValue::Text(_), JsonValue::Text(_)) => true,
                (JsonValue::Array(_), JsonValue::Array(_)) => true,
                (JsonValue::Object(_), JsonValue::Object(_)) => true,
                _ => false,
            };
            if same {
                put_entry(es, property, value);
            }
        },
        _ => {
            assert(false);
        },
    }
}

} // verus!
