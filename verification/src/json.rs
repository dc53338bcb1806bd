//! JSON values as the library builds and reads them.
use vstd::prelude::*;
use crate::text::{owned, str_eq};

verus! {

/// The mathematical model of a JSON value: numbers are kept as their JSON
/// text, and an object is the sequence of its members in order.
pub enum Json {
    Null,
    Bool(bool),
    Number(Seq<char>),
    Str(Seq<char>),
    Array(Seq<Json>),
    Object(Seq<(Seq<char>, Json)>),
}

/// A JSON value. Numbers keep their JSON text; object members keep their order.
pub enum JsonValue {
    Null,
    Bool(bool),
    Number(String),
    Str(String),
    Array(Vec<JsonValue>),
    Object(Vec<(String, JsonValue)>),
}

impl View for JsonValue {
    type V = Json;

    open spec fn view(&self) -> Json {
        json_of(*self)
    }
}

/// The model of a value.
pub open spec fn json_of(v: JsonValue) -> Json
    decreases v,
{
    match v {
        JsonValue::Null => Json::Null,
        JsonValue::Bool(b) => Json::Bool(b),
        JsonValue::Number(n) => Json::Number(n@),
        JsonValue::Str(s) => Json::Str(s@),
        JsonValue::Array(items) => {
            proof {
                assert(decreases_to!(items => items@));
            }
            Json::Array(items_view(items@))
        },
        JsonValue::Object(members) => {
            proof {
                assert(decreases_to!(members => members@));
            }
            Json::Object(members_view(members@))
        },
    }
}

/// The models of a sequence of values.
pub open spec fn items_view(items: Seq<JsonValue>) -> Seq<Json>
    decreases items,
{
    if items.len() == 0 {
        Seq::empty()
    } else {
        items_view(items.drop_last()).push(json_of(items.last()))
    }
}

/// The models of a sequence of object members.
pub open spec fn members_view(members: Seq<(String, JsonValue)>) -> Seq<(Seq<char>, Json)>
    decreases members,
{
    if members.len() == 0 {
        Seq::empty()
    } else {
        proof {
            assert(decreases_to!(members => members.last()));
        }
        members_view(members.drop_last()).push((members.last().0@, json_of(members.last().1)))
    }
}

pub proof fn lemma_items_view(items: Seq<JsonValue>)
    ensures
        items_view(items).len() == items.len(),
        forall|i: int| 0 <= i < items.len() ==> #[trigger] items_view(items)[i] == items[i]@,
    decreases items.len(),
{
    if items.len() > 0 {
        lemma_items_view(items.drop_last());
    }
}

pub proof fn lemma_members_view(members: Seq<(String, JsonValue)>)
    ensures
        members_view(members).len() == members.len(),
        forall|i: int|
            0 <= i < members.len() ==> #[trigger] members_view(members)[i] == (
                members[i].0@,
                members[i].1@,
            ),
    decreases members.len(),
{
    if members.len() > 0 {
        lemma_members_view(members.drop_last());
    }
}

/// The index of the first member named `key`, or the number of members.
pub open spec fn member_index(members: Seq<(Seq<char>, Json)>, key: Seq<char>) -> int
    decreases members.len(),
{
    if members.len() == 0 {
        0
    } else if members[0].0 == key {
        0
    } else {
        1 + member_index(members.drop_first(), key)
    }
}

pub proof fn lemma_member_index(members: Seq<(Seq<char>, Json)>, key: Seq<char>)
    ensures
        0 <= member_index(members, key) <= members.len(),
        member_index(members, key) < members.len() ==> members[member_index(members, key)].0
            == key,
        forall|j: int| 0 <= j < member_index(members, key) ==> members[j].0 != key,
    decreases members.len(),
{
    if members.len() > 0 && members[0].0 != key {
        lemma_member_index(members.drop_first(), key);
        let k = member_index(members.drop_first(), key);
        assert forall|j: int| 0 <= j < member_index(members, key) implies members[j].0 != key by {
            if j > 0 {
                assert(members.drop_first()[j - 1] == members[j]);
            }
        }
    }
}

impl Json {
    /// The value of the first member named `key`, when this is an object that has one.
    pub open spec fn get(self, key: Seq<char>) -> Option<Json> {
        match self {
            Json::Object(members) => {
                let i = member_index(members, key);
                if i < members.len() {
                    Some(members[i].1)
                } else {
                    None
                }
            },
            _ => None,
        }
    }

    /// The text of a string value.
    pub open spec fn as_str(self) -> Option<Seq<char>> {
        match self {
            Json::Str(s) => Some(s),
            _ => None,
        }
    }

    /// The text of member `key`, when it is a string.
    pub open spec fn get_str(self, key: Seq<char>) -> Option<Seq<char>> {
        match self.get(key) {
            Some(v) => v.as_str(),
            None => None,
        }
    }

    /// The value of a boolean.
    pub open spec fn as_bool(self) -> Option<bool> {
        match self {
            Json::Bool(b) => Some(b),
            _ => None,
        }
    }

    /// Whether this is an object without members.
    pub open spec fn is_empty_object(self) -> bool {
        match self {
            Json::Object(members) => members.len() == 0,
            _ => false,
        }
    }

    /// The elements of an array value.
    pub open spec fn as_array(self) -> Option<Seq<Json>> {
        match self {
            Json::Array(items) => Some(items),
            _ => None,
        }
    }

    /// `self.get(key)` read as a string, or the empty string.
    pub open spec fn str_or_empty(self, key: Seq<char>) -> Seq<char> {
        match self.get(key) {
            Some(v) => match v.as_str() {
                Some(s) => s,
                None => Seq::empty(),
            },
            None => Seq::empty(),
        }
    }
}

impl JsonValue {
    /// The value of the first member named `key`, when this is an object that has one.
    pub fn get(&self, key: &str) -> (res: Option<&JsonValue>)
        ensures
            match res {
                Some(v) => self@.get(key@) == Some(v@),
                None => self@.get(key@) is None,
            },
    {
        match self {
            JsonValue::Object(members) => {
                proof {
                    lemma_member_index(members_view(members@), key@);
                    lemma_members_view(members@);
                }
                let ghost mv = members_view(members@);
                let mut i: usize = 0;
                while i < members.len()
                    invariant
                        i <= members.len(),
                        mv == members_view(members@),
                        mv.len() == members.len(),
                        forall|j: int|
                            0 <= j < members.len() ==> #[trigger] mv[j] == (
                                members@[j].0@,
                                members@[j].1@,
                            ),
                        *self == JsonValue::Object(*members),
                        self@ == Json::Object(mv),
                        forall|j: int| 0 <= j < i ==> mv[j].0 != key@,
                        0 <= member_index(mv, key@) <= mv.len(),
                        member_index(mv, key@) < mv.len() ==> mv[member_index(mv, key@)].0 == key@,
                        forall|j: int| 0 <= j < member_index(mv, key@) ==> mv[j].0 != key@,
                    decreases members.len() - i,
                {
                    if str_eq(members[i].0.as_str(), key) {
                        assert(mv[i as int].0 == key@);
                        assert(member_index(mv, key@) == i);
                        return Some(&members[i].1);
                    }
                    i = i + 1;
                }
                None
            },
            _ => None,
        }
    }

    /// The text of a string value.
    pub fn as_str(&self) -> (res: Option<&str>)
        ensures
            match res {
                Some(s) => self@.as_str() == Some(s@),
                None => self@.as_str() is None,
            },
    {
        match self {
            JsonValue::Str(s) => Some(s.as_str()),
            _ => None,
        }
    }

    /// The text of member `key`, when it is a string.
    pub fn get_str(&self, key: &str) -> (res: Option<&str>)
        ensures
            match res {
                Some(s) => self@.get_str(key@) == Some(s@),
                None => self@.get_str(key@) is None,
            },
    {
        match self.get(key) {
            Some(v) => v.as_str(),
            None => None,
        }
    }

    /// The value of a boolean.
    pub fn as_bool(&self) -> (res: Option<bool>)
        ensures
            res == self@.as_bool(),
    {
        match self {
            JsonValue::Bool(b) => Some(*b),
            _ => None,
        }
    }

    /// Whether this is an object without members.
    pub fn is_empty_object(&self) -> (res: bool)
        ensures
            res == self@.is_empty_object(),
    {
        match self {
            JsonValue::Object(members) => {
                proof {
                    lemma_members_view(members@);
                }
                members.len() == 0
            },
            _ => false,
        }
    }

    /// A deep copy of the value.
    pub fn duplicate(&self) -> (res: JsonValue)
        ensures
            res@ == self@,
        decreases self,
    {
        match self {
            JsonValue::Null => JsonValue::Null,
            JsonValue::Bool(b) => JsonValue::Bool(*b),
            JsonValue::Number(n) => JsonValue::Number(owned(n.as_str())),
            JsonValue::Str(t) => JsonValue::Str(owned(t.as_str())),
            JsonValue::Array(items) => {
                let mut out: Vec<JsonValue> = Vec::new();
                let mut i: usize = 0;
                while i < items.len()
                    invariant
                        i <= items.len(),
                        items_view(out@) == items_view(items@).take(i as int),
                        *self == JsonValue::Array(*items),
                    decreases items.len() - i,
                {
                    proof {
                        assert(decreases_to!(*self => self->Array_0));
                        assert(decreases_to!(self->Array_0 => items@));
                        assert(decreases_to!(items@ => items@[i as int]));
                        lemma_items_view(items@);
                    }
                    let c = items[i].duplicate();
                    let ghost before = out@;
                    out.push(c);
                    proof {
                        assert(out@.drop_last() == before);
                        assert(items_view(out@) =~= items_view(items@).take(i + 1));
                    }
                    i = i + 1;
                }
                proof {
                    lemma_items_view(items@);
                    assert(items_view(items@).take(items@.len() as int) =~= items_view(items@));
                }
                JsonValue::Array(out)
            },
            JsonValue::Object(members) => {
                let mut out: Vec<(String, JsonValue)> = Vec::new();
                let mut i: usize = 0;
                while i < members.len()
                    invariant
                        i <= members.len(),
                        members_view(out@) == members_view(members@).take(i as int),
                        *self == JsonValue::Object(*members),
                    decreases members.len() - i,
                {
                    proof {
                        assert(decreases_to!(*self => self->Object_0));
                        assert(decreases_to!(self->Object_0 => members@));
                        assert(decreases_to!(members@ => members@[i as int]));
                        assert(decreases_to!(members@[i as int] => members@[i as int].1));
                        lemma_members_view(members@);
                    }
                    let c = members[i].1.duplicate();
                    let k = owned(members[i].0.as_str());
                    let ghost before = out@;
                    out.push((k, c));
                    proof {
                        assert(out@.drop_last() == before);
                        assert(members_view(out@) =~= members_view(members@).take(i + 1));
                    }
                    i = i + 1;
                }
                proof {
                    lemma_members_view(members@);
                    assert(members_view(members@).take(members@.len() as int) =~= members_view(members@));
                }
                JsonValue::Object(out)
            },
        }
    }

    /// The elements of an array value.
    pub fn as_array(&self) -> (res: Option<&Vec<JsonValue>>)
        ensures
            match res {
                Some(items) => self@.as_array() == Some(items_view(items@)),
                None => self@.as_array() is None,
            },
    {
        match self {
            JsonValue::Array(items) => {
                Some(items)
            },
            _ => None,
        }
    }

    /// `self.get(key)` read as a string, or the empty string.
    pub fn str_or_empty(&self, key: &str) -> (res: String)
        ensures
            res@ == self@.str_or_empty(key@),
    {
        match self.get(key) {
            Some(v) => match v.as_str() {
                Some(s) => owned(s),
                None => String::new(),
            },
            None => String::new(),
        }
    }

    /// A string value.
    pub fn string(s: &str) -> (res: JsonValue)
        ensures
            res@ == Json::Str(s@),
    {
        JsonValue::Str(owned(s))
    }

    /// An object value with the given members, in order.
    pub fn object(members: Vec<(String, JsonValue)>) -> (res: JsonValue)
        ensures
            res@ == Json::Object(members_view(members@)),
    {
        JsonValue::Object(members)
    }

    /// An array value with the given elements, in order.
    pub fn array(items: Vec<JsonValue>) -> (res: JsonValue)
        ensures
            res@ == Json::Array(items_view(items@)),
    {
        JsonValue::Array(items)
    }
}

/// An object member whose name is `key`.
pub fn member(key: &str, value: JsonValue) -> (res: (String, JsonValue))
    ensures
        res.0@ == key@,
        res.1 == value,
{
    (owned(key), value)
}

/// Appends one member to an object's member list.
pub fn push_member(members: &mut Vec<(String, JsonValue)>, key: &str, value: JsonValue)
    ensures
        members_view(final(members)@) == members_view(old(members)@).push((key@, value@)),
{
    let ghost before = members@;
    members.push(member(key, value));
    proof {
        lemma_members_view(before);
        lemma_members_view(members@);
        assert(members_view(members@) =~= members_view(before).push((key@, value@)));
    }
}

/// Appends one value to an array's items.
pub fn push_item(items: &mut Vec<JsonValue>, value: JsonValue)
    ensures
        items_view(final(items)@) == items_view(old(items)@).push(value@),
{
    let ghost before = items@;
    items.push(value);
    proof {
        assert(items@.drop_last() =~= before);
    }
}

/// Looking up a key in an object finds the first member with that key.
pub proof fn lemma_get_first(members: Seq<(Seq<char>, Json)>, key: Seq<char>, k: int)
    requires
        0 <= k < members.len(),
        members[k].0 == key,
        forall|j: int| 0 <= j < k ==> #[trigger] members[j].0 != key,
    ensures
        Json::Object(members).get(key) == Some(members[k].1),
{
    lemma_member_index(members, key);
    let i = member_index(members, key);
    if i < k {
        assert(members[i].0 == key);
    } else if i > k {
        assert(members[k].0 != key);
    }
}

/// Looking up a key that no member has finds nothing.
pub proof fn lemma_get_absent(members: Seq<(Seq<char>, Json)>, key: Seq<char>)
    requires
        forall|j: int| 0 <= j < members.len() ==> #[trigger] members[j].0 != key,
    ensures
        Json::Object(members).get(key) is None,
{
    lemma_member_index(members, key);
}

/// Looking up a key in joined member lists: the first list's member where it
/// has one, else the second list's.
pub proof fn lemma_get_concat(a: Seq<(Seq<char>, Json)>, b: Seq<(Seq<char>, Json)>, key: Seq<char>)
    ensures
        Json::Object(a + b).get(key) == match Json::Object(a).get(key) {
            Some(v) => Some(v),
            None => Json::Object(b).get(key),
        },
{
    let ab = a + b;
    lemma_member_index(a, key);
    lemma_member_index(b, key);
    let i = member_index(a, key);
    if i < a.len() {
        assert forall|j: int| 0 <= j < i implies #[trigger] ab[j].0 != key by {
            assert(ab[j] == a[j]);
        }
        assert(ab[i] == a[i]);
        lemma_get_first(ab, key, i);
    } else {
        let k = member_index(b, key);
        if k < b.len() {
            assert forall|j: int| 0 <= j < a.len() + k implies #[trigger] ab[j].0 != key by {
                if j < a.len() {
                    assert(ab[j] == a[j]);
                } else {
                    assert(ab[j] == b[j - a.len()]);
                }
            }
            assert(ab[a.len() + k] == b[k]);
            lemma_get_first(ab, key, a.len() + k);
        } else {
            assert forall|j: int| 0 <= j < ab.len() implies #[trigger] ab[j].0 != key by {
                if j < a.len() {
                    assert(ab[j] == a[j]);
                } else {
                    assert(ab[j] == b[j - a.len()]);
                }
            }
            lemma_get_absent(ab, key);
        }
    }
}

/// Looking up a key in a one-member object.
pub proof fn lemma_get_single(k: Seq<char>, v: Json, key: Seq<char>)
    ensures
        Json::Object(seq![(k, v)]).get(key) == if k == key { Some(v) } else { None },
{
    let m = seq![(k, v)];
    if k == key {
        lemma_get_first(m, key, 0);
    } else {
        lemma_get_absent(m, key);
    }
}

/// Looking up a key in an empty object.
pub proof fn lemma_get_empty(key: Seq<char>)
    ensures
        Json::Object(Seq::empty()).get(key) is None,
{
    lemma_get_absent(Seq::empty(), key);
}

} // verus!
