//! Setting and removing values of a JSON configuration document by dotted key:
//! `core.timeout` names member `timeout` of the object under member `core`.

use vstd::prelude::*;
use crate::json::{JsonValue, Json, entries_model, find_key, insert_member, remove_members, lemma_entries_empty, lemma_entries_lookup, lemma_entries_push, lemma_entries_update_last};
use crate::text::{split_first, lemma_split_first, lemma_split_first_of, chars_of, string_from_chars, split_once};

verus! {

broadcast use vstd::string::group_string_axioms;

/// Why a value could not be set.
#[derive(Debug, PartialEq, Eq, Clone, Copy)]
pub enum SetErrorKind {
    /// A dotted key led through a value that is not an object.
    ExpectedObject,
    /// The value that should receive the member is not an object.
    RootNotObject,
}

/// A value could not be set under `key` (the part of the key still to be followed).
#[derive(Debug)]
pub struct SetError {
    pub kind: SetErrorKind,
    pub key: String,
}

/// An object with no members.
pub open spec fn empty_object() -> Json {
    Json::Object(Map::empty())
}

/// The document `v` with `value` set under the dotted `key`, or why that fails.
/// Missing objects along the way are created; an existing member that is not an
/// object stops the walk.
pub open spec fn json_set(v: Json, key: Seq<char>, value: Json) -> Result<Json, (SetErrorKind, Seq<char>)>
    decreases key.len(),
{
    match split_first(key, '.') {
        Some((first, rest)) => {
            proof { lemma_split_first(key, '.'); }
            match v {
                Json::Object(m) => {
                    let sub = if m.contains_key(first) { m[first] } else { empty_object() };
                    match json_set(sub, rest, value) {
                        Ok(sub2) => Ok(Json::Object(m.insert(first, sub2))),
                        Err(e) => Err(e),
                    }
                },
                _ => Err((SetErrorKind::ExpectedObject, key)),
            }
        },
        None => match v {
            Json::Object(m) => Ok(Json::Object(m.insert(key, value))),
            _ => Err((SetErrorKind::RootNotObject, key)),
        },
    }
}

/// The value found under the dotted `key` in `v`, if any.
pub open spec fn json_get(v: Json, key: Seq<char>) -> Option<Json>
    decreases key.len(),
{
    match v {
        Json::Object(m) => match split_first(key, '.') {
            Some((first, rest)) => {
                proof { lemma_split_first(key, '.'); }
                if m.contains_key(first) { json_get(m[first], rest) } else { None }
            },
            None => if m.contains_key(key) { Some(m[key]) } else { None },
        },
        _ => None,
    }
}

/// The document `v` with the member under the dotted `key` removed; objects on
/// the way that are left empty are removed too. Anything missing leaves `v` as it is.
pub open spec fn json_unset(v: Json, key: Seq<char>) -> Json
    decreases key.len(),
{
    match v {
        Json::Object(m) => match split_first(key, '.') {
            Some((first, rest)) => {
                proof { lemma_split_first(key, '.'); }
                if m.contains_key(first) {
                    let sub2 = json_unset(m[first], rest);
                    if sub2 == empty_object() {
                        Json::Object(m.remove(first))
                    } else {
                        Json::Object(m.insert(first, sub2))
                    }
                } else {
                    v
                }
            },
            None => Json::Object(m.remove(key)),
        },
        _ => v,
    }
}

/// Setting anything in an empty object succeeds.
pub proof fn lemma_set_in_empty_object(key: Seq<char>, value: Json)
    ensures
        json_set(empty_object(), key, value) is Ok,
    decreases key.len(),
{
    lemma_split_first(key, '.');
    if let Some((first, rest)) = split_first(key, '.') {
        lemma_set_in_empty_object(rest, value);
    }
}

/// Follows member `first` of an object (creating it as an empty object when it
/// is missing) and sets `value` under `rest` there.
fn set_in_member(entries: &mut Vec<(String, JsonValue)>, first: String, rest: &str, value: JsonValue)
    -> (res: Result<(), SetError>)
    ensures
        ({
            let m = entries_model(old(entries)@);
            let sub = if m.contains_key(first@) { m[first@] } else { empty_object() };
            match json_set(sub, rest@, value.model()) {
                Ok(r) => res is Ok && entries_model(final(entries)@) == m.insert(first@, r),
                Err((kind, k)) => res matches Err(e) && e.kind == kind && e.key@ == k
                    && entries_model(final(entries)@) == m,
            }
        }),
    decreases rest@.len(), 1nat,
{
    proof { lemma_entries_lookup(entries@, first@); }
    match find_key(entries, &first) {
        Some(i) => {
            let ghost before = entries@;
            let (k, mut sub) = entries.remove(i);
            let r = set_walk(&mut sub, rest, value);
            entries.insert(i, (k, sub));
            proof {
                assert(entries@ =~= before.update(i as int, (k, sub)));
                lemma_entries_update_last(before, i as int, (k, sub));
                if r is Err {
                    assert(entries_model(entries@) =~= entries_model(before));
                }
            }
            r
        },
        None => {
            let mut sub = JsonValue::Object(Vec::new());
            proof {
                lemma_set_in_empty_object(rest@, value.model());
                assert(sub.model() == empty_object());
            }
            let _ = set_walk(&mut sub, rest, value);
            proof { lemma_entries_push(entries@, (first, sub)); }
            entries.push((first, sub));
            Ok(())
        },
    }
}

/// Sets `value` under the dotted `key` in `m`, creating missing objects along the way;
/// on failure the document's content is left as it was.
fn set_walk(m: &mut JsonValue, key: &str, value: JsonValue) -> (res: Result<(), SetError>)
    ensures
        match json_set(old(m).model(), key@, value.model()) {
            Ok(r) => res is Ok && final(m).model() == r,
            Err((kind, k)) => res matches Err(e) && e.kind == kind && e.key@ == k
                && final(m).model() == old(m).model(),
        },
    decreases key@.len(), 0nat,
{
    let chars = chars_of(key);
    proof { lemma_split_first(key@, '.'); }
    match split_once(&chars, '.') {
        Some((first, rest)) => {
            let first = string_from_chars(&first);
            let rest = string_from_chars(&rest);
            match m {
                JsonValue::Object(entries) => set_in_member(entries, first, rest.as_str(), value),
                _ => Err(SetError { kind: SetErrorKind::ExpectedObject, key: key.to_string() }),
            }
        },
        None => {
            match m {
                JsonValue::Object(entries) => {
                    insert_member(entries, key.to_string(), value);
                    Ok(())
                },
                _ => Err(SetError { kind: SetErrorKind::RootNotObject, key: key.to_string() }),
            }
        },
    }
}


/// Why setting a value under the dotted `key` in `v` fails, if it does: the
/// walk along the key meets a member that is not an object.
pub open spec fn set_blocked(v: Json, key: Seq<char>) -> Option<(SetErrorKind, Seq<char>)>
    decreases key.len(),
{
    match split_first(key, '.') {
        Some((first, rest)) => {
            proof { lemma_split_first(key, '.'); }
            match v {
                Json::Object(m) => if m.contains_key(first) { set_blocked(m[first], rest) } else { None },
                _ => Some((SetErrorKind::ExpectedObject, key)),
            }
        },
        None => match v {
            Json::Object(_) => None,
            _ => Some((SetErrorKind::RootNotObject, key)),
        },
    }
}

/// Setting fails exactly where the walk is blocked, and for that reason.
pub proof fn lemma_set_blocked(v: Json, key: Seq<char>, value: Json)
    ensures
        match set_blocked(v, key) {
            Some(e) => json_set(v, key, value) == Err::<Json, (SetErrorKind, Seq<char>)>(e),
            None => json_set(v, key, value) is Ok,
        },
    decreases key.len(),
{
    lemma_split_first(key, '.');
    if let Some((first, rest)) = split_first(key, '.') {
        if let Json::Object(m) = v {
            if m.contains_key(first) {
                lemma_set_blocked(m[first], rest, value);
            } else {
                lemma_set_in_empty_object(rest, value);
            }
        }
    }
}

/// Whether setting a value under the dotted `key` in `m` would fail, and why.
fn check_set(m: &JsonValue, key: &str) -> (r: Result<(), SetError>)
    ensures
        match set_blocked(m.model(), key@) {
            Some((kind, k)) => r matches Err(e) && e.kind == kind && e.key@ == k,
            None => r is Ok,
        },
    decreases key@.len(),
{
    let chars = chars_of(key);
    proof { lemma_split_first(key@, '.'); }
    match split_once(&chars, '.') {
        Some((first, rest)) => {
            let first = string_from_chars(&first);
            let rest = string_from_chars(&rest);
            match m {
                JsonValue::Object(entries) => {
                    proof { lemma_entries_lookup(entries@, first@); }
                    match find_key(entries, &first) {
                        Some(i) => check_set(&entries[i].1, rest.as_str()),
                        None => Ok(()),
                    }
                },
                _ => Err(SetError { kind: SetErrorKind::ExpectedObject, key: key.to_string() }),
            }
        },
        None => match m {
            JsonValue::Object(_) => Ok(()),
            _ => Err(SetError { kind: SetErrorKind::RootNotObject, key: key.to_string() }),
        },
    }
}

/// Sets `value` under the dotted `key` in `m`, creating missing objects along the way.
/// Where an existing member on the way is not an object, it fails and leaves `m` as it was.
pub fn set_nested(m: &mut JsonValue, key: &str, value: JsonValue) -> (res: Result<(), SetError>)
    ensures
        match json_set(old(m).model(), key@, value.model()) {
            Ok(r) => res is Ok && final(m).model() == r,
            Err((kind, k)) => res matches Err(e) && e.kind == kind && e.key@ == k && *final(m) == *old(m),
        },
{
    proof { lemma_set_blocked(m.model(), key@, value.model()); }
    match check_set(m, key) {
        Err(e) => Err(e),
        Ok(()) => set_walk(m, key, value),
    }
}

/// Removes the member under `rest` from member `first` of an object, and then
/// `first` itself when that leaves it an empty object.
fn unset_in_member(entries: &mut Vec<(String, JsonValue)>, first: String, rest: &str)
    ensures
        ({
            let m = entries_model(old(entries)@);
            entries_model(final(entries)@) == if m.contains_key(first@) {
                let sub2 = json_unset(m[first@], rest@);
                if sub2 == empty_object() { m.remove(first@) } else { m.insert(first@, sub2) }
            } else {
                m
            }
        }),
    decreases rest@.len(), 1nat,
{
    proof { lemma_entries_lookup(entries@, first@); }
    if let Some(i) = find_key(entries, &first) {
        let ghost before = entries@;
        let (k, mut sub) = entries.remove(i);
        let _ = unset_nested(&mut sub, rest);
        let now_empty = match &sub {
            JsonValue::Object(members) => members.len() == 0,
            _ => false,
        };
        proof {
            if sub is Object {
                lemma_entries_empty(sub->Object_0@);
            }
        }
        entries.insert(i, (k, sub));
        proof {
            assert(entries@ =~= before.update(i as int, (k, sub)));
            lemma_entries_update_last(before, i as int, (k, sub));
        }
        if now_empty {
            remove_members(entries, &first);
            proof {
                assert(entries_model(entries@) =~= entries_model(before).remove(first@));
            }
        }
    }
}

/// Removes the member under the dotted `key` from `m`, and every object on the way
/// that this leaves empty. A key that is not there leaves `m` as it is; this never fails.
pub fn unset_nested(m: &mut JsonValue, key: &str) -> (res: Result<(), SetError>)
    ensures
        res is Ok,
        final(m).model() == json_unset(old(m).model(), key@),
    decreases key@.len(), 0nat,
{
    let chars = chars_of(key);
    proof { lemma_split_first(key@, '.'); }
    match split_once(&chars, '.') {
        Some((first, rest)) => {
            let first = string_from_chars(&first);
            let rest = string_from_chars(&rest);
            if let JsonValue::Object(entries) = m {
                unset_in_member(entries, first, rest.as_str());
            }
        },
        None => {
            if let JsonValue::Object(entries) = m {
                remove_members(entries, &key.to_string());
            }
        },
    }
    Ok(())
}


/// The first segment of a dotted key: the member of the document that a set or
/// unset under `key` may change.
pub open spec fn head_segment(key: Seq<char>) -> Seq<char> {
    match split_first(key, '.') {
        Some((first, _)) => first,
        None => key,
    }
}

/// Reading a key back after setting it gives the value that was set.
pub proof fn law_get_after_set(v: Json, key: Seq<char>, value: Json)
    requires
        json_set(v, key, value) is Ok,
    ensures
        json_get(json_set(v, key, value)->Ok_0, key) == Some(value),
    decreases key.len(),
{
    lemma_split_first(key, '.');
    if let Some((first, rest)) = split_first(key, '.') {
        if let Json::Object(m) = v {
            let sub = if m.contains_key(first) { m[first] } else { empty_object() };
            law_get_after_set(sub, rest, value);
        }
    }
}

/// Setting a key changes only the member named by its first segment: every
/// other member of the document stays as it was.
pub proof fn law_set_keeps_other_members(m: Map<Seq<char>, Json>, key: Seq<char>, value: Json)
    requires
        json_set(Json::Object(m), key, value) is Ok,
    ensures
        json_set(Json::Object(m), key, value)->Ok_0 matches Json::Object(m2)
            && m2.remove(head_segment(key)) == m.remove(head_segment(key)),
{
    lemma_split_first(key, '.');
    let r = json_set(Json::Object(m), key, value)->Ok_0;
    if let Json::Object(m2) = r {
        assert(m2.remove(head_segment(key)) =~= m.remove(head_segment(key)));
    }
}

/// Setting the same value under the same key twice is the same as setting it once.
pub proof fn law_set_idempotent(v: Json, key: Seq<char>, value: Json)
    requires
        json_set(v, key, value) is Ok,
    ensures
        json_set(json_set(v, key, value)->Ok_0, key, value) == json_set(v, key, value),
    decreases key.len(),
{
    lemma_split_first(key, '.');
    if let Some((first, rest)) = split_first(key, '.') {
        if let Json::Object(m) = v {
            let sub = if m.contains_key(first) { m[first] } else { empty_object() };
            law_set_idempotent(sub, rest, value);
            let sub2 = json_set(sub, rest, value)->Ok_0;
            assert(m.insert(first, sub2).insert(first, sub2) =~= m.insert(first, sub2));
        }
    } else {
        if let Json::Object(m) = v {
            assert(m.insert(key, value).insert(key, value) =~= m.insert(key, value));
        }
    }
}

/// After a key is unset, reading it finds nothing.
pub proof fn law_get_after_unset(v: Json, key: Seq<char>)
    ensures
        json_get(json_unset(v, key), key) is None,
    decreases key.len(),
{
    lemma_split_first(key, '.');
    if let Json::Object(m) = v {
        if let Some((first, rest)) = split_first(key, '.') {
            if m.contains_key(first) {
                law_get_after_unset(m[first], rest);
            }
        }
    }
}

/// Unsetting a key twice is the same as unsetting it once.
pub proof fn law_unset_idempotent(v: Json, key: Seq<char>)
    ensures
        json_unset(json_unset(v, key), key) == json_unset(v, key),
    decreases key.len(),
{
    lemma_split_first(key, '.');
    if let Json::Object(m) = v {
        if let Some((first, rest)) = split_first(key, '.') {
            if m.contains_key(first) {
                law_unset_idempotent(m[first], rest);
                let sub2 = json_unset(m[first], rest);
                if sub2 == empty_object() {
                } else {
                    assert(m.insert(first, sub2).insert(first, sub2) =~= m.insert(first, sub2));
                }
            }
        } else {
            assert(m.remove(key).remove(key) =~= m.remove(key));
        }
    }
}

/// Unsetting a key in a document that is not an object, or whose first segment
/// is not a member, leaves the document as it is.
pub proof fn law_unset_absent_is_noop(v: Json, key: Seq<char>)
    requires
        !(v matches Json::Object(m) && m.contains_key(head_segment(key))),
    ensures
        json_unset(v, key) == v,
{
    lemma_split_first(key, '.');
    if let Json::Object(m) = v {
        if split_first(key, '.') is None {
            assert(m.remove(key) =~= m);
        }
    }
}

/// Whatever is set under a key inside a new empty object, unsetting that key
/// again leaves an empty object.
proof fn lemma_unset_undoes_set_in_empty(key: Seq<char>, value: Json)
    ensures
        json_set(empty_object(), key, value) is Ok,
        json_unset(json_set(empty_object(), key, value)->Ok_0, key) == empty_object(),
    decreases key.len(),
{
    lemma_split_first(key, '.');
    lemma_set_in_empty_object(key, value);
    let e = Map::<Seq<char>, Json>::empty();
    if let Some((first, rest)) = split_first(key, '.') {
        lemma_unset_undoes_set_in_empty(rest, value);
        let s2 = json_set(empty_object(), rest, value)->Ok_0;
        assert(e.insert(first, s2).remove(first) =~= e);
    } else {
        assert(e.insert(key, value).remove(key) =~= e);
    }
}

/// Unsetting a key undoes setting it, where the key's first segment was not a
/// member of the document before.
pub proof fn law_unset_undoes_fresh_set(m: Map<Seq<char>, Json>, key: Seq<char>, value: Json)
    requires
        !m.contains_key(head_segment(key)),
    ensures
        json_set(Json::Object(m), key, value) is Ok,
        json_unset(json_set(Json::Object(m), key, value)->Ok_0, key) == Json::Object(m),
{
    lemma_split_first(key, '.');
    if let Some((first, rest)) = split_first(key, '.') {
        lemma_unset_undoes_set_in_empty(rest, value);
        let s2 = json_set(empty_object(), rest, value)->Ok_0;
        assert(m.insert(first, s2).remove(first) =~= m);
    } else {
        assert(m.insert(key, value).remove(key) =~= m);
    }
}

/// Dotted key `k` lies under dotted key `p`: it is `p`, a dot, and more.
pub open spec fn key_extends(k: Seq<char>, p: Seq<char>) -> bool {
    p.len() < k.len() && k.take(p.len() as int) == p && k[p.len() as int] == '.'
}

/// Two dotted keys are on one path: they are equal, or one lies under the other.
pub open spec fn keys_related(a: Seq<char>, b: Seq<char>) -> bool {
    a == b || key_extends(a, b) || key_extends(b, a)
}

/// Nothing is found in an empty object.
proof fn lemma_get_empty(key: Seq<char>)
    ensures
        json_get(empty_object(), key) is None,
{
    lemma_split_first(key, '.');
}

/// Keys with the same first segment are on one path where their rests are.
proof fn lemma_related_tails(f: Seq<char>, r: Seq<char>, r2: Seq<char>)
    ensures
        keys_related(r, r2) ==> keys_related(f + seq!['.'] + r, f + seq!['.'] + r2),
{
    let k = f + seq!['.'] + r;
    let k2 = f + seq!['.'] + r2;
    if r == r2 {
        assert(k =~= k2);
    } else if key_extends(r, r2) {
        assert(k.take(k2.len() as int) =~= k2) by {
            assert forall|i: int| 0 <= i < k2.len() implies k.take(k2.len() as int)[i] == k2[i] by {
                if i > f.len() {
                    assert(r.take(r2.len() as int)[i - f.len() - 1] == r[i - f.len() - 1]);
                }
            }
        }
        assert(k[k2.len() as int] == r[r2.len() as int]);
    } else if key_extends(r2, r) {
        assert(k2.take(k.len() as int) =~= k) by {
            assert forall|i: int| 0 <= i < k.len() implies k2.take(k.len() as int)[i] == k[i] by {
                if i > f.len() {
                    assert(r2.take(r.len() as int)[i - f.len() - 1] == r2[i - f.len() - 1]);
                }
            }
        }
        assert(k2[k.len() as int] == r2[r.len() as int]);
    }
}

/// A key lies under its first segment.
proof fn lemma_extends_first(f: Seq<char>, r: Seq<char>)
    ensures
        key_extends(f + seq!['.'] + r, f),
{
    assert((f + seq!['.'] + r).take(f.len() as int) =~= f);
}

/// Setting a value under a dotted key changes nothing under any key off its
/// path: every key that is not the set key, does not lie under it, and is not
/// one of its prefixes finds what it found before, at every depth.
pub proof fn law_set_keeps_unrelated_keys(v: Json, key: Seq<char>, value: Json, other: Seq<char>)
    requires
        json_set(v, key, value) is Ok,
        !keys_related(key, other),
    ensures
        json_get(json_set(v, key, value)->Ok_0, other) == json_get(v, other),
    decreases key.len(),
{
    lemma_split_first(key, '.');
    lemma_split_first(other, '.');
    if let Json::Object(m) = v {
        match split_first(key, '.') {
            Some((f, r)) => {
                let sub = if m.contains_key(f) { m[f] } else { empty_object() };
                match split_first(other, '.') {
                    Some((f2, r2)) => {
                        if f2 == f {
                            lemma_related_tails(f, r, r2);
                            law_set_keeps_unrelated_keys(sub, r, value, r2);
                            lemma_get_empty(r2);
                        }
                    },
                    None => {
                        lemma_extends_first(f, r);
                    },
                }
            },
            None => {
                if let Some((f2, r2)) = split_first(other, '.') {
                    lemma_extends_first(f2, r2);
                }
            },
        }
    }
}

/// Unsetting a dotted key changes nothing under any key off its path: every
/// key that is not the unset key, does not lie under it, and is not one of its
/// prefixes finds what it found before, at every depth.
pub proof fn law_unset_keeps_unrelated_keys(v: Json, key: Seq<char>, other: Seq<char>)
    requires
        !keys_related(key, other),
    ensures
        json_get(json_unset(v, key), other) == json_get(v, other),
    decreases key.len(),
{
    lemma_split_first(key, '.');
    lemma_split_first(other, '.');
    if let Json::Object(m) = v {
        match split_first(key, '.') {
            Some((f, r)) => {
                if m.contains_key(f) {
                    match split_first(other, '.') {
                        Some((f2, r2)) => {
                            if f2 == f {
                                lemma_related_tails(f, r, r2);
                                law_unset_keeps_unrelated_keys(m[f], r, r2);
                                lemma_get_empty(r2);
                            }
                        },
                        None => {
                            lemma_extends_first(f, r);
                        },
                    }
                }
            },
            None => {
                if let Some((f2, r2)) = split_first(other, '.') {
                    lemma_extends_first(f2, r2);
                }
            },
        }
    }
}

/// Unsetting removes only what lies under the key: where the walk along the key
/// meets a value that is not an object, there is nothing under the key and the
/// document is left as it is.
pub proof fn law_unset_blocked_is_noop(v: Json, key: Seq<char>, p: Seq<char>)
    requires
        key_extends(key, p),
        json_get(v, p) matches Some(x) && !(x is Object),
    ensures
        json_unset(v, key) == v,
    decreases key.len(),
{
    lemma_split_first(key, '.');
    lemma_split_first(p, '.');
    assert(key.contains('.')) by {
        assert(key[p.len() as int] == '.');
    }
    let (f, r) = split_first(key, '.')->0;
    if p.len() < f.len() {
        assert(f[p.len() as int] == key[p.len() as int]);
        assert(f.contains('.'));
    }
    if let Json::Object(m) = v {
        if p.len() == f.len() {
            assert(p =~= f);
            assert(split_first(p, '.') is None);
            assert(m.contains_key(f));
            assert(!(m[f] is Object));
            assert(json_unset(m[f], r) == m[f]);
            assert(m.insert(f, m[f]) =~= m);
        } else {
            let p2 = r.take(p.len() - f.len() - 1);
            assert(p =~= f + seq!['.'] + p2) by {
                assert forall|i: int| 0 <= i < p.len() implies p[i] == (f + seq!['.'] + p2)[i] by {
                    assert(p[i] == key[i]);
                }
            }
            lemma_split_first_of(f, p2, '.');
            assert(key_extends(r, p2)) by {
                assert(r[p2.len() as int] == key[p.len() as int]);
            }
            assert(m.contains_key(f));
            law_unset_blocked_is_noop(m[f], r, p2);
            lemma_get_empty(p2);
            assert(m[f] != empty_object());
            assert(m.insert(f, m[f]) =~= m);
        }
    }
}

} // verus!
