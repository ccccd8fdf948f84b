//! A JSON value as the request logic builds it, and its mathematical model.
use vstd::prelude::*;

verus! {

broadcast use vstd::std_specs::vec::axiom_spec_into_iter;

/// The model of a JSON value. An object is its members in order; `Raw` is
/// JSON text carried through verbatim.
pub enum Json {
    Null,
    Number(int),
    Text(Seq<char>),
    Array(Seq<Json>),
    Object(Seq<(Seq<char>, Json)>),
    Raw(Seq<char>),
}

/// A JSON value held by the library. `Raw` holds JSON text that the library
/// hands on without reading it.
#[derive(Debug, PartialEq)]
pub enum JsonValue {
    Null,
    Number(i128),
    Text(String),
    Array(Vec<JsonValue>),
    Object(Vec<(String, JsonValue)>),
    Raw(String),
}

impl JsonValue {
    pub open spec fn model(&self) -> Json
        decreases self,
    {
        match self {
            JsonValue::Null => Json::Null,
            JsonValue::Number(n) => Json::Number(*n as int),
            JsonValue::Text(s) => Json::Text(s@),
            JsonValue::Array(items) => Json::Array(
                Seq::new(
                    items@.len(),
                    |i: int|
                        if 0 <= i < items@.len() {
                            proof {
                                assert(decreases_to!(items => items@));
                                assert(decreases_to!(items@ => items@[i]));
                            }
                            items@[i].model()
                        } else {
                            Json::Null
                        },
                ),
            ),
            JsonValue::Object(members) => Json::Object(
                Seq::new(
                    members@.len(),
                    |i: int|
                        if 0 <= i < members@.len() {
                            proof {
                                assert(decreases_to!(members => members@));
                                assert(decreases_to!(members@ => members@[i]));
                                assert(decreases_to!(members@[i] => members@[i].1));
                            }
                            (members@[i].0@, members@[i].1.model())
                        } else {
                            (Seq::empty(), Json::Null)
                        },
                ),
            ),
            JsonValue::Raw(s) => Json::Raw(s@),
        }
    }
}

impl View for JsonValue {
    type V = Json;

    open spec fn view(&self) -> Json {
        self.model()
    }
}

/// The model of an element list.
pub open spec fn items_model(v: Seq<JsonValue>) -> Seq<Json> {
    Seq::new(v.len(), |i: int| v[i]@)
}

/// An array's model is the models of its elements.
pub proof fn lemma_array_model(items: Vec<JsonValue>)
    ensures
        JsonValue::Array(items)@ == Json::Array(items_model(items@)),
{
    assert(JsonValue::Array(items)@->Array_0 =~= items_model(items@));
}

/// An object's model is the names and models of its members.
pub proof fn lemma_object_model(members: Vec<(String, JsonValue)>)
    ensures
        JsonValue::Object(members)@ == Json::Object(members_model(members@)),
{
    assert(JsonValue::Object(members)@->Object_0 =~= members_model(members@));
}

/// A JSON string holding `s`.
pub fn text_value(s: &str) -> (v: JsonValue)
    ensures
        v@ == Json::Text(s@),
{
    JsonValue::Text(String::from_str(s))
}

/// An array of the given elements.
pub fn array_value(items: Vec<JsonValue>) -> (v: JsonValue)
    ensures
        v@ == Json::Array(items_model(items@)),
{
    proof {
        lemma_array_model(items);
    }
    JsonValue::Array(items)
}

/// An object of the given members.
pub fn object_value(members: Vec<(String, JsonValue)>) -> (v: JsonValue)
    ensures
        v@ == Json::Object(members_model(members@)),
{
    proof {
        lemma_object_model(members);
    }
    JsonValue::Object(members)
}

/// A member named by a literal.
pub fn member(name: &str, value: JsonValue) -> (m: (String, JsonValue))
    ensures
        m.0@ == name@,
        m.1 == value,
{
    (String::from_str(name), value)
}

impl JsonValue {
    /// A copy of the value, member for member.
    pub fn deep_copy(&self) -> (r: JsonValue)
        ensures
            r@ == self@,
        decreases self,
    {
        match self {
            JsonValue::Null => JsonValue::Null,
            JsonValue::Number(n) => JsonValue::Number(*n),
            JsonValue::Text(s) => JsonValue::Text(s.clone()),
            JsonValue::Raw(s) => JsonValue::Raw(s.clone()),
            JsonValue::Array(items) => {
                let mut out: Vec<JsonValue> = Vec::new();
                let n = items.len();
                let mut i: usize = 0;
                while i < n
                    invariant
                        n == items@.len(),
                        *self == JsonValue::Array(*items),
                        i <= n,
                        out@.len() == i,
                        forall|j: int| 0 <= j < i ==> #[trigger] out@[j]@ == items@[j]@,
                    decreases n - i,
                {
                    assert(decreases_to!(*self => self->Array_0));
                    assert(decreases_to!(*items => items@));
                    assert(decreases_to!(items@ => items@[i as int]));
                    assert(decreases_to!(*self => items@[i as int]));
                    out.push(items[i].deep_copy());
                    i = i + 1;
                }
                let r = array_value(out);
                proof {
                    lemma_array_model(*items);
                    assert(items_model(out@) =~= items_model(items@));
                }
                r
            },
            JsonValue::Object(members) => {
                let mut out: Vec<(String, JsonValue)> = Vec::new();
                let n = members.len();
                let mut i: usize = 0;
                while i < n
                    invariant
                        n == members@.len(),
                        *self == JsonValue::Object(*members),
                        i <= n,
                        out@.len() == i,
                        forall|j: int|
                            0 <= j < i ==> (#[trigger] out@[j]).0@ == members@[j].0@ && out@[j].1@
                                == members@[j].1@,
                    decreases n - i,
                {
                    assert(decreases_to!(*self => self->Object_0));
                    assert(decreases_to!(*members => members@));
                    assert(decreases_to!(members@ => members@[i as int]));
                    assert(decreases_to!(members@[i as int] => members@[i as int].1));
                    assert(decreases_to!(*self => members@[i as int].1));
                    let name = members[i].0.clone();
                    let value = members[i].1.deep_copy();
                    out.push((name, value));
                    i = i + 1;
                }
                let r = object_value(out);
                proof {
                    lemma_object_model(*members);
                    assert(members_model(out@) =~= members_model(members@));
                }
                r
            },
        }
    }
}

/// The model of a member list.
pub open spec fn members_model(v: Seq<(String, JsonValue)>) -> Seq<(Seq<char>, Json)> {
    Seq::new(v.len(), |i: int| (v[i].0@, v[i].1@))
}

/// No two members share a name.
pub open spec fn distinct_keys(m: Seq<(Seq<char>, Json)>) -> bool {
    forall|i: int, j: int| 0 <= i < j < m.len() ==> #[trigger] m[i].0 != #[trigger] m[j].0
}

/// Some member is named `key`.
pub open spec fn has_key(m: Seq<(Seq<char>, Json)>, key: Seq<char>) -> bool {
    exists|i: int| 0 <= i < m.len() && #[trigger] m[i].0 == key
}

/// The position of a member named `key`.
pub open spec fn key_index(m: Seq<(Seq<char>, Json)>, key: Seq<char>) -> int {
    choose|i: int| 0 <= i < m.len() && #[trigger] m[i].0 == key
}

/// The value of the member named `key`, where there is one.
pub open spec fn get_member(m: Seq<(Seq<char>, Json)>, key: Seq<char>) -> Option<Json> {
    if has_key(m, key) {
        Some(m[key_index(m, key)].1)
    } else {
        None
    }
}

/// Setting member `key` to `value`: a member of that name keeps its place
/// and takes the new value; otherwise the member is added at the end.
pub open spec fn object_insert(m: Seq<(Seq<char>, Json)>, key: Seq<char>, value: Json) -> Seq<
    (Seq<char>, Json),
> {
    if has_key(m, key) {
        m.update(key_index(m, key), (key, value))
    } else {
        m.push((key, value))
    }
}

/// Setting each member of `extra` in turn, first to last.
pub open spec fn object_merge(m: Seq<(Seq<char>, Json)>, extra: Seq<(Seq<char>, Json)>) -> Seq<
    (Seq<char>, Json),
>
    decreases extra.len(),
{
    if extra.len() == 0 {
        m
    } else {
        object_insert(object_merge(m, extra.drop_last()), extra.last().0, extra.last().1)
    }
}

/// The value of the last member of `extra` named `key`.
pub open spec fn last_value(extra: Seq<(Seq<char>, Json)>, key: Seq<char>) -> Option<Json>
    decreases extra.len(),
{
    if extra.len() == 0 {
        None
    } else if extra.last().0 == key {
        Some(extra.last().1)
    } else {
        last_value(extra.drop_last(), key)
    }
}

/// Inserting keeps the names distinct, sets the member named `key`, and
/// leaves every other member as it was.
pub proof fn lemma_insert(m: Seq<(Seq<char>, Json)>, key: Seq<char>, value: Json, other: Seq<char>)
    requires
        distinct_keys(m),
    ensures
        distinct_keys(object_insert(m, key, value)),
        get_member(object_insert(m, key, value), key) == Some(value),
        other != key ==> get_member(object_insert(m, key, value), other) == get_member(m, other),
        has_key(object_insert(m, key, value), other) <==> (has_key(m, other) || other == key),
{
    let r = object_insert(m, key, value);
    if has_key(m, key) {
        let k = key_index(m, key);
        assert(r[k].0 == key);
        if has_key(m, other) {
            let j = key_index(m, other);
            assert(r[j].0 == m[j].0 || j == k);
        }
        if has_key(r, other) {
            let j = key_index(r, other);
            if other != key {
                assert(m[j].0 == other);
            }
        }
    } else {
        assert(r[m.len() as int].0 == key);
        if has_key(m, other) {
            let j = key_index(m, other);
            assert(r[j].0 == other);
        }
        if has_key(r, other) {
            let j = key_index(r, other);
            if other != key {
                assert(j < m.len());
                assert(m[j].0 == other);
            }
        }
    }
}

/// Merging `extra` into an object with distinct names: the names stay
/// distinct, a name is present where it was present in either, and its
/// value is that of the last member of `extra` so named, or else the
/// object's own.
pub proof fn lemma_merge(m: Seq<(Seq<char>, Json)>, extra: Seq<(Seq<char>, Json)>, key: Seq<char>)
    requires
        distinct_keys(m),
    ensures
        distinct_keys(object_merge(m, extra)),
        has_key(object_merge(m, extra), key) <==> (has_key(m, key) || has_key(extra, key)),
        get_member(object_merge(m, extra), key) == (match last_value(extra, key) {
            Some(v) => Some(v),
            None => get_member(m, key),
        }),
    decreases extra.len(),
{
    if extra.len() > 0 {
        let prefix = extra.drop_last();
        lemma_merge(m, prefix, key);
        lemma_merge(m, prefix, extra.last().0);
        let mid = object_merge(m, prefix);
        lemma_insert(mid, extra.last().0, extra.last().1, key);
        if has_key(extra, key) && extra.last().0 != key {
            let i = choose|i: int| 0 <= i < extra.len() && #[trigger] extra[i].0 == key;
            assert(prefix[i].0 == key);
        }
        if has_key(prefix, key) {
            let i = choose|i: int| 0 <= i < prefix.len() && #[trigger] prefix[i].0 == key;
            assert(extra[i].0 == key);
        }
        if extra.last().0 == key {
            assert(extra[extra.len() - 1].0 == key);
        }
    }
}

/// A last member named `key` exists exactly where a member so named does.
pub proof fn lemma_last_value_has_key(extra: Seq<(Seq<char>, Json)>, key: Seq<char>)
    ensures
        last_value(extra, key) is Some <==> has_key(extra, key),
    decreases extra.len(),
{
    if extra.len() > 0 {
        let prefix = extra.drop_last();
        lemma_last_value_has_key(prefix, key);
        if has_key(extra, key) && extra.last().0 != key {
            let i = choose|i: int| 0 <= i < extra.len() && #[trigger] extra[i].0 == key;
            assert(prefix[i].0 == key);
        }
        if has_key(prefix, key) {
            let i = choose|i: int| 0 <= i < prefix.len() && #[trigger] prefix[i].0 == key;
            assert(extra[i].0 == key);
        }
        if extra.last().0 == key {
            assert(extra[extra.len() - 1].0 == key);
        }
    }
}

/// Sets member `key` of an object with distinct names to `value`.
pub fn insert_member(members: &mut Vec<(String, JsonValue)>, key: String, value: JsonValue)
    requires
        distinct_keys(members_model(old(members)@)),
    ensures
        members_model(final(members)@) == object_insert(members_model(old(members)@), key@, value@),
        distinct_keys(members_model(final(members)@)),
{
    let ghost m = members_model(members@);
    let n = members.len();
    let mut i: usize = 0;
    while i < n
        invariant
            n == members.len(),
            i <= n,
            m == members_model(members@),
            m == members_model(old(members)@),
            distinct_keys(m),
            forall|j: int| 0 <= j < i ==> #[trigger] m[j].0 != key@,
        decreases n - i,
    {
        let same = members[i].0 == key;
        if same {
            let ghost new_value = value@;
            assert(m[i as int].0 == key@);
            members.set(i, (key, value));
            proof {
                assert(has_key(m, key@) && m[i as int].0 == key@);
                let k = key_index(m, key@);
                if k != i {
                    assert(m[k].0 == m[i as int].0);
                }
                assert(members_model(members@) =~= object_insert(m, key@, new_value));
                lemma_insert(m, key@, new_value, key@);
            }
            return;
        }
        i = i + 1;
    }
    let ghost new_key = key@;
    let ghost new_value = value@;
    members.push((key, value));
    proof {
        assert(!has_key(m, new_key));
        assert(members_model(members@) =~= object_insert(m, new_key, new_value));
        lemma_insert(m, new_key, new_value, new_key);
    }
}

/// Sets each member of `extra`, first to last, in an object with distinct
/// names.
pub fn merge_members(members: &mut Vec<(String, JsonValue)>, extra: Vec<(String, JsonValue)>)
    requires
        distinct_keys(members_model(old(members)@)),
    ensures
        members_model(final(members)@) == object_merge(
            members_model(old(members)@),
            members_model(extra@),
        ),
        distinct_keys(members_model(final(members)@)),
{
    let ghost base = members_model(members@);
    let ghost em = members_model(extra@);
    let ghost ev = extra@;
    proof {
        assert(em.take(0) =~= Seq::<(Seq<char>, Json)>::empty());
    }
    for member in it: extra.into_iter()
        invariant
            it.seq() == ev,
            em == members_model(ev),
            distinct_keys(members_model(members@)),
            members_model(members@) == object_merge(base, em.take(it.index() as int)),
    {
        let ghost k = it.index();
        let (key, value) = member;
        insert_member(members, key, value);
        proof {
            assert(em.take(k + 1).drop_last() =~= em.take(k as int));
            assert(em.take(k + 1).last() == em[k as int]);
        }
    }
    proof {
        assert(em.take(em.len() as int) =~= em);
    }
}

} // verus!
