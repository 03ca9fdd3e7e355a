//! JSON documents: the executable value, its mathematical model, and the
//! object operations that the configuration logic is built from.

use vstd::prelude::*;

verus! {

/// A JSON value.
///
/// Numbers are kept as their decimal text. An object lists its members in
/// order; where a key occurs more than once, the last member with that key is
/// the one that counts, as when the members are inserted into a map in order.
#[derive(Debug, PartialEq)]
pub enum JsonValue {
    Null,
    Bool(bool),
    Number(String),
    Str(String),
    Array(Vec<JsonValue>),
    Object(Vec<(String, JsonValue)>),
}

/// The mathematical model of a JSON value: objects are finite maps from keys to values.
pub enum Json {
    Null,
    Bool(bool),
    Number(Seq<char>),
    Str(Seq<char>),
    Array(Seq<Json>),
    Object(Map<Seq<char>, Json>),
}

impl JsonValue {
    /// The model of this value.
    pub open spec fn model(&self) -> Json
        decreases *self,
    {
        match *self {
            JsonValue::Null => Json::Null,
            JsonValue::Bool(b) => Json::Bool(b),
            JsonValue::Number(n) => Json::Number(n@),
            JsonValue::Str(s) => Json::Str(s@),
            JsonValue::Array(items) => Json::Array(items_model(items@)),
            JsonValue::Object(entries) => Json::Object(entries_model(entries@)),
        }
    }
}

/// The models of a sequence of values.
pub open spec fn items_model(s: Seq<JsonValue>) -> Seq<Json>
    decreases s,
{
    if s.len() == 0 {
        Seq::empty()
    } else {
        items_model(s.drop_last()).push(s.last().model())
    }
}

/// The map that a sequence of members stands for: members are inserted in order,
/// so a later member overrides an earlier one with the same key.
pub open spec fn entries_model(s: Seq<(String, JsonValue)>) -> Map<Seq<char>, Json>
    decreases s,
{
    if s.len() == 0 {
        Map::empty()
    } else {
        entries_model(s.drop_last()).insert(s.last().0@, s.last().1.model())
    }
}


/// Index `i` holds the last member of `s` whose key is `k`.
pub open spec fn last_with_key(s: Seq<(String, JsonValue)>, k: Seq<char>, i: int) -> bool {
    &&& 0 <= i < s.len()
    &&& s[i].0@ == k
    &&& forall|j: int| i < j < s.len() ==> s[j].0@ != k
}

/// A key is in the model of a member list exactly when some member has it, and
/// its value there is that of the last such member.
pub proof fn lemma_entries_lookup(s: Seq<(String, JsonValue)>, k: Seq<char>)
    ensures
        entries_model(s).contains_key(k) <==> exists|i: int| 0 <= i < s.len() && s[i].0@ == k,
        forall|i: int| last_with_key(s, k, i) ==> entries_model(s)[k] == s[i].1.model(),
    decreases s.len(),
{
    if s.len() > 0 {
        let t = s.drop_last();
        lemma_entries_lookup(t, k);
        if entries_model(s).contains_key(k) && s.last().0@ != k {
            let i = choose|i: int| 0 <= i < t.len() && t[i].0@ == k;
            assert(s[i].0@ == k);
        }
        if exists|i: int| 0 <= i < s.len() && s[i].0@ == k {
            let i = choose|i: int| 0 <= i < s.len() && s[i].0@ == k;
            if i < s.len() - 1 {
                assert(t[i].0@ == k);
            }
        }
        assert forall|i: int| last_with_key(s, k, i) implies entries_model(s)[k] == s[i].1.model() by {
            if i < s.len() - 1 {
                assert(last_with_key(t, k, i));
            }
        }
    }
}

/// Appending a member inserts its key and value into the model.
pub proof fn lemma_entries_push(s: Seq<(String, JsonValue)>, e: (String, JsonValue))
    ensures
        entries_model(s.push(e)) == entries_model(s).insert(e.0@, e.1.model()),
{
    assert(s.push(e).drop_last() =~= s);
}

/// Replacing the last member with a given key by a new member with that key
/// sets the key to the new value in the model.
pub proof fn lemma_entries_update_last(s: Seq<(String, JsonValue)>, i: int, e: (String, JsonValue))
    requires
        last_with_key(s, e.0@, i),
    ensures
        entries_model(s.update(i, e)) == entries_model(s).insert(e.0@, e.1.model()),
    decreases s.len(),
{
    let u = s.update(i, e);
    let t = s.drop_last();
    if i == s.len() - 1 {
        assert(u.drop_last() =~= t);
        assert(entries_model(u) =~= entries_model(s).insert(e.0@, e.1.model()));
    } else {
        assert(u.drop_last() =~= t.update(i, e));
        lemma_entries_update_last(t, i, e);
        assert(entries_model(u) =~= entries_model(s).insert(e.0@, e.1.model()));
    }
}

/// The model of a member list is empty exactly when the list is.
pub proof fn lemma_entries_empty(s: Seq<(String, JsonValue)>)
    ensures
        entries_model(s) == Map::<Seq<char>, Json>::empty() <==> s.len() == 0,
{
    if s.len() > 0 {
        assert(entries_model(s).contains_key(s.last().0@));
    }
}

/// The index of the last member of `entries` whose key is `key`, if any.
pub fn find_key(entries: &Vec<(String, JsonValue)>, key: &String) -> (r: Option<usize>)
    ensures
        match r {
            Some(i) => last_with_key(entries@, key@, i as int),
            None => forall|j: int| 0 <= j < entries@.len() ==> entries@[j].0@ != key@,
        },
        r is Some <==> entries_model(entries@).contains_key(key@),
{
    proof { lemma_entries_lookup(entries@, key@); }
    let mut i = entries.len();
    while i > 0
        invariant
            i <= entries@.len(),
            forall|j: int| i <= j < entries@.len() ==> entries@[j].0@ != key@,
        decreases i,
    {
        i = i - 1;
        if entries[i].0 == *key {
            proof { lemma_entries_lookup(entries@, key@); }
            return Some(i);
        }
    }
    None
}

/// Sets member `key` to `value`: the last member with that key is replaced, or
/// a new member is appended.
pub fn insert_member(entries: &mut Vec<(String, JsonValue)>, key: String, value: JsonValue)
    ensures
        entries_model(final(entries)@) == entries_model(old(entries)@).insert(key@, value.model()),
{
    match find_key(entries, &key) {
        Some(i) => {
            proof { lemma_entries_update_last(entries@, i as int, (key, value)); }
            entries.set(i, (key, value));
        }
        None => {
            proof { lemma_entries_push(entries@, (key, value)); }
            entries.push((key, value));
        }
    }
}

/// Removes every member whose key is `key`.
pub fn remove_members(entries: &mut Vec<(String, JsonValue)>, key: &String)
    ensures
        entries_model(final(entries)@) == entries_model(old(entries)@).remove(key@),
{
    let ghost orig = entries@;
    let total = entries.len();
    let mut rest: Vec<(String, JsonValue)> = Vec::new();
    std::mem::swap(entries, &mut rest);
    let ghost n = orig.len();
    let mut done: usize = 0;
    while rest.len() > 0
        invariant
            done <= n == orig.len() == total,
            rest@ == orig.skip(done as int),
            entries_model(entries@) == entries_model(orig.take(done as int)).remove(key@),
        decreases rest.len(),
    {
        let e = rest.remove(0);
        proof {
            assert(orig.take(done + 1) =~= orig.take(done as int).push(e));
            lemma_entries_push(orig.take(done as int), e);
            lemma_entries_push(entries@, e);
        }
        if e.0 == *key {
            assert(entries_model(entries@) =~= entries_model(orig.take(done + 1)).remove(key@));
        } else {
            entries.push(e);
            assert(entries_model(entries@) =~= entries_model(orig.take(done + 1)).remove(key@));
        }
        done = done + 1;
        assert(rest@ =~= orig.skip(done as int));
    }
    assert(orig.take(done as int) =~= orig);
}

} // verus!
