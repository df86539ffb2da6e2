//! A model of JSON documents.
//!
//! Policy configuration, schemas and route match rules are JSON documents.
//! The library holds them in its own value type so that merging and
//! validation can be specified and proved; objects are ordered key/value
//! lists whose keys are unique, and numbers keep their literal text.
//! Contracts speak of `JsonV`, the mathematical view of a document.

use vstd::prelude::*;

verus! {

broadcast use vstd::std_specs::vec::group_vec_axioms;

/// A JSON document. Objects preserve insertion order; `Num` carries the
/// literal text of the number so that no precision is lost.
#[derive(Debug)]
pub enum Json {
    Null,
    Bool(bool),
    Num(String),
    Str(String),
    Arr(Vec<Json>),
    Obj(Vec<(String, Json)>),
}

/// The mathematical view of a document: strings are character sequences,
/// arrays and objects are sequences.
#[verifier::ext_equal]
pub enum JsonV {
    Null,
    Bool(bool),
    Num(Seq<char>),
    Str(Seq<char>),
    Arr(Seq<JsonV>),
    Obj(Seq<(Seq<char>, JsonV)>),
}

/// The view of a document.
pub open spec fn jview(v: Json) -> JsonV
    decreases v,
{
    match v {
        Json::Null => JsonV::Null,
        Json::Bool(b) => JsonV::Bool(b),
        Json::Num(t) => JsonV::Num(t@),
        Json::Str(t) => JsonV::Str(t@),
        Json::Arr(items) => JsonV::Arr(jview_seq(items@)),
        Json::Obj(entries) => JsonV::Obj(jview_entries(entries@)),
    }
}

/// The views of the elements of an array.
pub open spec fn jview_seq(s: Seq<Json>) -> Seq<JsonV>
    decreases s,
{
    if s.len() == 0 {
        Seq::empty()
    } else {
        seq![jview(s[0])] + jview_seq(s.drop_first())
    }
}

/// The views of the entries of an object.
pub open spec fn jview_entries(s: Seq<(String, Json)>) -> Seq<(Seq<char>, JsonV)>
    decreases s,
{
    if s.len() == 0 {
        Seq::empty()
    } else {
        seq![(s[0].0@, jview(s[0].1))] + jview_entries(s.drop_first())
    }
}

impl View for Json {
    type V = JsonV;

    open spec fn view(&self) -> JsonV {
        jview(*self)
    }
}

/// `jview_seq` maps the elements one for one.
pub proof fn lemma_jview_seq(s: Seq<Json>)
    ensures
        jview_seq(s).len() == s.len(),
        forall|i: int| 0 <= i < s.len() ==> jview_seq(s)[i] == jview(s[i]),
    decreases s.len(),
{
    if s.len() > 0 {
        lemma_jview_seq(s.drop_first());
    }
}

/// `jview_entries` maps the entries one for one.
pub proof fn lemma_jview_entries(s: Seq<(String, Json)>)
    ensures
        jview_entries(s).len() == s.len(),
        forall|i: int| 0 <= i < s.len() ==> jview_entries(s)[i]
            == (s[i].0@, jview(s[i].1)),
    decreases s.len(),
{
    if s.len() > 0 {
        lemma_jview_entries(s.drop_first());
    }
}

/// The size of a document, counting one for each node.
pub open spec fn jsize(v: JsonV) -> nat
    decreases v,
{
    match v {
        JsonV::Null => 1,
        JsonV::Bool(_) => 1,
        JsonV::Num(_) => 1,
        JsonV::Str(_) => 1,
        JsonV::Arr(items) => 1 + jsize_seq(items),
        JsonV::Obj(entries) => 1 + jsize_entries(entries),
    }
}

/// The total size of the elements of an array.
pub open spec fn jsize_seq(s: Seq<JsonV>) -> nat
    decreases s,
{
    if s.len() == 0 {
        0
    } else {
        jsize(s[0]) + jsize_seq(s.drop_first())
    }
}

/// The total size of the values of an object.
pub open spec fn jsize_entries(s: Seq<(Seq<char>, JsonV)>) -> nat
    decreases s,
{
    if s.len() == 0 {
        0
    } else {
        jsize(s[0].1) + jsize_entries(s.drop_first())
    }
}

/// Every document has positive size.
pub proof fn lemma_jsize_pos(v: JsonV)
    ensures
        jsize(v) >= 1,
{
}

/// Each element weighs no more than the whole array.
pub proof fn lemma_jsize_seq_index(s: Seq<JsonV>, i: int)
    requires
        0 <= i < s.len(),
    ensures
        jsize(s[i]) <= jsize_seq(s),
    decreases s.len(),
{
    if i > 0 {
        lemma_jsize_seq_index(s.drop_first(), i - 1);
    }
}

/// Each bound value weighs no more than the whole object.
pub proof fn lemma_jsize_entries_index(s: Seq<(Seq<char>, JsonV)>, i: int)
    requires
        0 <= i < s.len(),
    ensures
        jsize(s[i].1) <= jsize_entries(s),
    decreases s.len(),
{
    if i > 0 {
        lemma_jsize_entries_index(s.drop_first(), i - 1);
    }
}

/// Whether `entries` holds a binding for `key`.
pub open spec fn has_key(entries: Seq<(Seq<char>, JsonV)>, key: Seq<char>) -> bool {
    exists|i: int| 0 <= i < entries.len() && entries[i].0 == key
}

/// The index of the first binding for `key`, if any.
pub open spec fn index_of_key(entries: Seq<(Seq<char>, JsonV)>, key: Seq<char>) -> Option<int>
    decreases entries.len(),
{
    if entries.len() == 0 {
        None
    } else if entries[0].0 == key {
        Some(0int)
    } else {
        match index_of_key(entries.drop_first(), key) {
            Some(i) => Some(i + 1),
            None => None,
        }
    }
}

/// The value bound to `key`, if any (the first binding).
pub open spec fn lookup(entries: Seq<(Seq<char>, JsonV)>, key: Seq<char>) -> Option<JsonV>
    decreases entries.len(),
{
    if entries.len() == 0 {
        None
    } else if entries[0].0 == key {
        Some(entries[0].1)
    } else {
        lookup(entries.drop_first(), key)
    }
}

/// Keys are pairwise distinct.
pub open spec fn keys_unique(entries: Seq<(Seq<char>, JsonV)>) -> bool {
    forall|i: int, j: int|
        0 <= i < j < entries.len() ==> entries[i].0 != entries[j].0
}

/// Every object in the document has pairwise distinct keys.
pub open spec fn wf(v: JsonV) -> bool
    decreases v,
{
    match v {
        JsonV::Null => true,
        JsonV::Bool(_) => true,
        JsonV::Num(_) => true,
        JsonV::Str(_) => true,
        JsonV::Arr(items) => forall|i: int| 0 <= i < items.len() ==> wf(#[trigger] items[i]),
        JsonV::Obj(entries) => keys_unique(entries) && forall|i: int|
            0 <= i < entries.len() ==> wf(#[trigger] entries[i].1),
    }
}

/// `index_of_key` finds exactly the keys that `has_key` says are there,
/// and agrees with `lookup`.
pub proof fn lemma_index_of_key(entries: Seq<(Seq<char>, JsonV)>, key: Seq<char>)
    ensures
        index_of_key(entries, key) is Some <==> has_key(entries, key),
        index_of_key(entries, key) matches Some(i) ==> 0 <= i < entries.len()
            && entries[i].0 == key && lookup(entries, key) == Some(entries[i].1)
            && (forall|j: int| 0 <= j < i ==> entries[j].0 != key),
        index_of_key(entries, key) is None ==> lookup(entries, key) is None,
    decreases entries.len(),
{
    if entries.len() == 0 {
    } else if entries[0].0 == key {
    } else {
        let rest = entries.drop_first();
        lemma_index_of_key(rest, key);
        assert forall|i: int| 0 <= i < entries.len() && entries[i].0 == key implies
            has_key(rest, key) by {
            assert(rest[i - 1] == entries[i]);
        }
        if has_key(rest, key) {
            let i = index_of_key(rest, key)->Some_0;
            assert(entries[i + 1] == rest[i]);
            assert forall|j: int| 0 <= j < i + 1 implies entries[j].0 != key by {
                if j > 0 {
                    assert(rest[j - 1] == entries[j]);
                }
            }
        }
    }
}

/// A key is bound exactly when it is present.
pub proof fn lemma_lookup_has_key(entries: Seq<(Seq<char>, JsonV)>, key: Seq<char>)
    ensures
        lookup(entries, key) is Some <==> has_key(entries, key),
{
    lemma_index_of_key(entries, key);
}

/// Updating the value at one index changes exactly that key's binding.
pub proof fn lemma_lookup_update(
    entries: Seq<(Seq<char>, JsonV)>,
    i: int,
    v: JsonV,
    key: Seq<char>,
)
    requires
        keys_unique(entries),
        0 <= i < entries.len(),
    ensures
        lookup(entries.update(i, (entries[i].0, v)), key) == (if key == entries[i].0 {
            Some(v)
        } else {
            lookup(entries, key)
        }),
    decreases entries.len(),
{
    let upd = entries.update(i, (entries[i].0, v));
    if i == 0 {
        if key != entries[0].0 {
            assert(upd.drop_first() =~= entries.drop_first());
        }
    } else {
        assert(upd[0] == entries[0]);
        if key == entries[0].0 {
            assert(entries[i].0 != entries[0].0);
        } else {
            let rest = entries.drop_first();
            assert forall|a: int, b: int| 0 <= a < b < rest.len() implies
                rest[a].0 != rest[b].0 by {
                assert(rest[a] == entries[a + 1]);
                assert(rest[b] == entries[b + 1]);
            }
            assert(rest[i - 1] == entries[i]);
            lemma_lookup_update(rest, i - 1, v, key);
            assert(upd.drop_first() =~= rest.update(i - 1, (rest[i - 1].0, v)));
        }
    }
}

/// Appending a binding adds exactly that key, shadowed by existing ones.
pub proof fn lemma_lookup_push(
    entries: Seq<(Seq<char>, JsonV)>,
    k0: Seq<char>,
    v: JsonV,
    key: Seq<char>,
)
    ensures
        lookup(entries.push((k0, v)), key) == (match lookup(entries, key) {
            Some(x) => Some(x),
            None => if key == k0 {
                Some(v)
            } else {
                None
            },
        }),
    decreases entries.len(),
{
    let pushed = entries.push((k0, v));
    if entries.len() == 0 {
        assert(pushed[0] == (k0, v));
        if key == k0 {
            assert(pushed[0].0 == key);
            assert(lookup(pushed, key) == Some(v));
            assert(lookup(entries, key) is None);
        } else {
            assert(pushed.drop_first() =~= Seq::<(Seq<char>, JsonV)>::empty());
            assert(lookup(pushed, key) is None);
        }
    } else {
        assert(pushed[0] == entries[0]);
        if key == entries[0].0 {
            assert(lookup(pushed, key) == Some(entries[0].1));
            assert(lookup(entries, key) == Some(entries[0].1));
        } else {
            lemma_lookup_push(entries.drop_first(), k0, v, key);
            assert(pushed.drop_first() =~= entries.drop_first().push((k0, v)));
            assert(lookup(pushed, key) == lookup(pushed.drop_first(), key));
            assert(lookup(entries, key) == lookup(entries.drop_first(), key));
        }
    }
}

/// Dropping the first entry keeps the remaining keys pairwise distinct.
pub proof fn lemma_keys_unique_drop_first(entries: Seq<(Seq<char>, JsonV)>)
    requires
        keys_unique(entries),
        entries.len() > 0,
    ensures
        keys_unique(entries.drop_first()),
{
    let rest = entries.drop_first();
    assert forall|a: int, b: int| 0 <= a < b < rest.len() implies rest[a].0 != rest[b].0 by {
        assert(rest[a] == entries[a + 1]);
        assert(rest[b] == entries[b + 1]);
    }
}

impl Json {
    /// Whether `self` is an object.
    pub fn is_object(&self) -> (r: bool)
        ensures
            r == self@ is Obj,
    {
        match self {
            Json::Obj(_) => true,
            _ => false,
        }
    }

    /// A copy with the same view.
    pub fn deep_clone(&self) -> (r: Json)
        ensures
            r@ == self@,
        decreases jsize(self@),
    {
        match self {
            Json::Null => Json::Null,
            Json::Bool(b) => Json::Bool(*b),
            Json::Num(t) => Json::Num(t.clone()),
            Json::Str(t) => Json::Str(t.clone()),
            Json::Arr(items) => {
                let mut out: Vec<Json> = Vec::new();
                let mut i: usize = 0;
                while i < items.len()
                    invariant
                        i <= items.len(),
                        out@.len() == i,
                        forall|j: int| 0 <= j < i ==> jview(#[trigger] out@[j])
                            == jview(items@[j]),
                        *self == Json::Arr(*items),
                    decreases items.len() - i,
                {
                    proof {
                        lemma_jview_seq(items@);
                        lemma_jsize_seq_index(jview_seq(items@), i as int);
                        assert(jsize(items@[i as int]@) < jsize(self@));
                    }
                    out.push(items[i].deep_clone());
                    i = i + 1;
                }
                proof {
                    lemma_jview_seq(out@);
                    lemma_jview_seq(items@);
                    assert(jview_seq(out@) =~= jview_seq(items@));
                }
                Json::Arr(out)
            },
            Json::Obj(entries) => {
                let mut out: Vec<(String, Json)> = Vec::new();
                let mut i: usize = 0;
                while i < entries.len()
                    invariant
                        i <= entries.len(),
                        out@.len() == i,
                        forall|j: int| 0 <= j < i ==> (#[trigger] out@[j]).0@
                            == entries@[j].0@ && jview(out@[j].1) == jview(entries@[j].1),
                        *self == Json::Obj(*entries),
                    decreases entries.len() - i,
                {
                    proof {
                        lemma_jview_entries(entries@);
                        lemma_jsize_entries_index(jview_entries(entries@), i as int);
                        assert(jsize(entries@[i as int].1@) < jsize(self@));
                    }
                    let key = entries[i].0.clone();
                    let value = entries[i].1.deep_clone();
                    out.push((key, value));
                    i = i + 1;
                }
                proof {
                    lemma_jview_entries(out@);
                    lemma_jview_entries(entries@);
                    assert(jview_entries(out@) =~= jview_entries(entries@));
                }
                Json::Obj(out)
            },
        }
    }
}

/// The index of the first entry bound to `key`, if any.
pub fn find_key(entries: &Vec<(String, Json)>, key: &String) -> (r: Option<usize>)
    ensures
        match r {
            Some(i) => index_of_key(jview_entries(entries@), key@) == Some(i as int),
            None => index_of_key(jview_entries(entries@), key@) is None,
        },
{
    proof {
        lemma_jview_entries(entries@);
        lemma_index_of_key(jview_entries(entries@), key@);
    }
    let mut i: usize = 0;
    while i < entries.len()
        invariant
            i <= entries.len(),
            forall|j: int| 0 <= j < i ==> entries@[j].0@ != key@,
            jview_entries(entries@).len() == entries@.len(),
            forall|j: int| 0 <= j < entries@.len() ==> #[trigger] jview_entries(entries@)[j]
                == (entries@[j].0@, jview(entries@[j].1)),
        decreases entries.len() - i,
    {
        if entries[i].0 == *key {
            proof {
                let ents = jview_entries(entries@);
                assert(ents[i as int].0 == key@);
                assert(has_key(ents, key@));
                lemma_index_of_key(ents, key@);
                let i0 = index_of_key(ents, key@)->Some_0;
                assert forall|j: int| 0 <= j < i implies ents[j].0 != key@ by {
                    assert(ents[j] == (entries@[j].0@, jview(entries@[j].1)));
                }
                if i0 < i as int {
                    assert(ents[i0].0 == key@);
                }
            }
            return Some(i);
        }
        i = i + 1;
    }
    proof {
        let ents = jview_entries(entries@);
        assert forall|j: int| 0 <= j < ents.len() implies ents[j].0 != key@ by {
            assert(ents[j] == (entries@[j].0@, jview(entries@[j].1)));
        }
        lemma_index_of_key(ents, key@);
        if has_key(ents, key@) {
            let w = choose|w: int| 0 <= w < ents.len() && ents[w].0 == key@;
            assert(ents[w].0 != key@);
        }
    }
    None
}

} // verus!
