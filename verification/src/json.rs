//! A JSON document tree as plain values: what the validators read of a
//! parsed `content.json`. Numbers keep the three shapes a JSON number can
//! take once parsed: a non-negative integer, a negative integer, or a binary
//! floating-point value (held as its IEEE-754 bit pattern).

use vstd::prelude::*;
use crate::text::str_eq;

verus! {

/// A parsed JSON number.
#[derive(Debug, Clone, Copy, PartialEq, Eq, Structural)]
pub enum JsonNumber {
    /// An integer `>= 0`.
    PosInt(u64),
    /// An integer `< 0`.
    NegInt(i64),
    /// Any other number, as the bits of its `f64` value.
    Float(u64),
}

/// A JSON value. Object members keep their document order and each key
/// occurs once.
#[derive(Debug)]
pub enum Json {
    Null,
    Bool(bool),
    Number(JsonNumber),
    Str(String),
    Array(Vec<Json>),
    Object(Vec<(String, Json)>),
}

/// Index of the first member named `key`, or -1.
pub open spec fn member_index(ms: Seq<(String, Json)>, key: Seq<char>) -> int
    decreases ms.len(),
{
    if ms.len() == 0 {
        -1
    } else if ms.last().0@ == key && member_index(ms.drop_last(), key) < 0 {
        ms.len() - 1
    } else {
        member_index(ms.drop_last(), key)
    }
}

pub proof fn lemma_member_index(ms: Seq<(String, Json)>, key: Seq<char>)
    ensures
        -1 <= member_index(ms, key) < ms.len(),
        member_index(ms, key) >= 0 ==> ms[member_index(ms, key)].0@ == key,
        forall|j: int| 0 <= j < ms.len() && (member_index(ms, key) < 0 || j < member_index(ms, key))
            ==> #[trigger] ms[j].0@ != key,
    decreases ms.len(),
{
    if ms.len() > 0 {
        lemma_member_index(ms.drop_last(), key);
        assert forall|j: int| 0 <= j < ms.len() && (member_index(ms, key) < 0 || j < member_index(ms, key))
            implies #[trigger] ms[j].0@ != key by {
            if j < ms.len() - 1 {
                assert(ms[j] == ms.drop_last()[j]);
            }
        }
    }
}

/// The member `key` of an object; nothing for other values.
pub open spec fn get(v: Json, key: Seq<char>) -> Option<Json> {
    match v {
        Json::Object(ms) => {
            let i = member_index(ms@, key);
            if i >= 0 {
                Some(ms@[i].1)
            } else {
                None
            }
        },
        _ => None,
    }
}

/// The text of a string value.
pub open spec fn str_of(v: Option<Json>) -> Option<Seq<char>> {
    match v {
        Some(Json::Str(s)) => Some(s@),
        _ => None,
    }
}

/// The elements of an array value.
pub open spec fn arr_of(v: Option<Json>) -> Option<Seq<Json>> {
    match v {
        Some(Json::Array(a)) => Some(a@),
        _ => None,
    }
}

/// An integer value that fits `i64`.
pub open spec fn i64_of(v: Option<Json>) -> Option<int> {
    match v {
        Some(Json::Number(JsonNumber::PosInt(u))) => if u <= i64::MAX {
            Some(u as int)
        } else {
            None
        },
        Some(Json::Number(JsonNumber::NegInt(i))) => Some(i as int),
        _ => None,
    }
}

/// A non-negative integer value.
pub open spec fn u64_of(v: Option<Json>) -> Option<nat> {
    match v {
        Some(Json::Number(JsonNumber::PosInt(u))) => Some(u as nat),
        _ => None,
    }
}

impl Json {
    /// The member `key` of an object (`None` for other values).
    pub fn get(&self, key: &str) -> (r: Option<&Json>)
        ensures
            match r {
                Some(x) => get(*self, key@) == Some(*x),
                None => get(*self, key@) is None,
            },
    {
        match self {
            Json::Object(ms) => {
                let mut i: usize = 0;
                while i < ms.len()
                    invariant
                        i <= ms.len(),
                        *self == Json::Object(*ms),
                        forall|j: int| 0 <= j < i ==> #[trigger] ms@[j].0@ != key@,
                    decreases ms.len() - i,
                {
                    if str_eq(ms[i].0.as_str(), key) {
                        proof {
                            lemma_member_index(ms@, key@);
                            let m = member_index(ms@, key@);
                            assert(ms@[i as int].0@ == key@);
                            if m < 0 || m > i {
                                assert(ms@[i as int].0@ != key@);
                            }
                            if 0 <= m < i {
                                assert(ms@[m].0@ != key@);
                            }
                            assert(m == i);
                        }
                        return Some(&ms[i].1);
                    }
                    i = i + 1;
                }
                proof {
                    lemma_member_index(ms@, key@);
                    let m = member_index(ms@, key@);
                    if m >= 0 {
                        assert(ms@[m].0@ != key@);
                    }
                }
                None
            },
            _ => None,
        }
    }

    /// The text of a string value.
    pub fn as_str(&self) -> (r: Option<&str>)
        ensures
            match r {
                Some(s) => str_of(Some(*self)) == Some(s@),
                None => str_of(Some(*self)) is None,
            },
    {
        match self {
            Json::Str(s) => Some(s.as_str()),
            _ => None,
        }
    }

    /// The elements of an array value.
    pub fn as_array(&self) -> (r: Option<&Vec<Json>>)
        ensures
            match r {
                Some(a) => arr_of(Some(*self)) == Some(a@),
                None => arr_of(Some(*self)) is None,
            },
    {
        match self {
            Json::Array(a) => Some(a),
            _ => None,
        }
    }

    /// An integer value that fits `i64`.
    pub fn as_i64(&self) -> (r: Option<i64>)
        ensures
            match r {
                Some(n) => i64_of(Some(*self)) == Some(n as int),
                None => i64_of(Some(*self)) is None,
            },
    {
        match self {
            Json::Number(JsonNumber::PosInt(u)) => {
                if *u <= 9223372036854775807u64 {
                    Some(*u as i64)
                } else {
                    None
                }
            },
            Json::Number(JsonNumber::NegInt(i)) => Some(*i),
            _ => None,
        }
    }

    /// A non-negative integer value.
    pub fn as_u64(&self) -> (r: Option<u64>)
        ensures
            match r {
                Some(n) => u64_of(Some(*self)) == Some(n as nat),
                None => u64_of(Some(*self)) is None,
            },
    {
        match self {
            Json::Number(JsonNumber::PosInt(u)) => Some(*u),
            _ => None,
        }
    }

    /// The text of the string member `key`.
    pub fn get_str(&self, key: &str) -> (r: Option<&str>)
        ensures
            match r {
                Some(s) => str_of(get(*self, key@)) == Some(s@),
                None => str_of(get(*self, key@)) is None,
            },
    {
        match self.get(key) {
            Some(x) => x.as_str(),
            None => None,
        }
    }

    /// The elements of the array member `key`.
    pub fn get_array(&self, key: &str) -> (r: Option<&Vec<Json>>)
        ensures
            match r {
                Some(a) => arr_of(get(*self, key@)) == Some(a@) && kids(*self, key@) == a@,
                None => arr_of(get(*self, key@)) is None && kids(*self, key@) == Seq::<Json>::empty(),
            },
    {
        match self.get(key) {
            Some(x) => x.as_array(),
            None => None,
        }
    }

    /// Whether the value is an object.
    pub fn is_object(&self) -> (r: bool)
        ensures
            r == (*self is Object),
    {
        match self {
            Json::Object(_) => true,
            _ => false,
        }
    }
}

/// The nodes of an array member, or none.
pub open spec fn kids(v: Json, key: Seq<char>) -> Seq<Json> {
    match arr_of(get(v, key)) {
        Some(a) => a,
        None => Seq::empty(),
    }
}

/// A non-empty array member lies inside its object.
pub proof fn lemma_kids_inside(v: Json, key: Seq<char>)
    ensures
        kids(v, key).len() > 0 ==> decreases_to!(v => kids(v, key)),
{
    match v {
        Json::Object(ms) => {
            let i = member_index(ms@, key);
            lemma_member_index(ms@, key);
            if i >= 0 {
                match ms@[i].1 {
                    Json::Array(a) => {
                        assert(decreases_to!(v => ms));
                        assert(decreases_to!(ms => ms@));
                        assert(decreases_to!(ms@ => ms@[i]));
                        assert(decreases_to!(ms@[i] => ms@[i].1));
                        assert(decreases_to!(ms@[i].1 => a));
                        assert(decreases_to!(a => a@));
                    },
                    _ => {},
                }
            }
        },
        _ => {},
    }
}

/// An element of a non-empty array member lies inside its object.
pub proof fn lemma_kid_inside(v: Json, key: Seq<char>, i: int)
    requires
        0 <= i < kids(v, key).len(),
    ensures
        decreases_to!(v => kids(v, key)[i]),
{
    lemma_kids_inside(v, key);
    let k = kids(v, key);
    assert(decreases_to!(k => k[i]));
}

// ------------------------------------------------------------------ values

/// A JSON value as plain values.
pub enum JsonV {
    Null,
    Bool(bool),
    Number(JsonNumber),
    Str(Seq<char>),
    Array(Seq<JsonV>),
    Object(Seq<(Seq<char>, JsonV)>),
}

/// The plain value of a JSON tree.
pub open spec fn jv(j: Json) -> JsonV
    decreases j, 1nat,
{
    match j {
        Json::Null => JsonV::Null,
        Json::Bool(b) => JsonV::Bool(b),
        Json::Number(n) => JsonV::Number(n),
        Json::Str(s) => JsonV::Str(s@),
        Json::Array(a) => {
            proof {
                assert(decreases_to!(j => a));
                assert(decreases_to!(a => a@));
            }
            JsonV::Array(jv_items(a@))
        },
        Json::Object(ms) => {
            proof {
                assert(decreases_to!(j => ms));
                assert(decreases_to!(ms => ms@));
            }
            JsonV::Object(jv_members(ms@))
        },
    }
}

/// The plain values of array elements.
pub open spec fn jv_items(s: Seq<Json>) -> Seq<JsonV>
    decreases s, 0nat,
{
    if s.len() == 0 {
        Seq::empty()
    } else {
        jv_items(s.drop_last()).push(jv(s.last()))
    }
}

/// The plain values of object members.
pub open spec fn jv_members(s: Seq<(String, Json)>) -> Seq<(Seq<char>, JsonV)>
    decreases s, 0nat,
{
    if s.len() == 0 {
        Seq::empty()
    } else {
        proof {
            assert(decreases_to!(s => s.last()));
            assert(decreases_to!(s.last() => s.last().1));
        }
        jv_members(s.drop_last()).push((s.last().0@, jv(s.last().1)))
    }
}

/// A string value.
pub fn jstr(s: &str) -> (r: Json)
    ensures
        jv(r) == JsonV::Str(s@),
{
    Json::Str(s.to_owned())
}

/// An integer value, as a JSON parser would hold it.
pub open spec fn int_v(i: int) -> JsonV {
    if i >= 0 {
        JsonV::Number(JsonNumber::PosInt(i as u64))
    } else {
        JsonV::Number(JsonNumber::NegInt(i as i64))
    }
}

/// An integer value.
pub fn jint(i: i64) -> (r: Json)
    ensures
        jv(r) == int_v(i as int),
{
    if i >= 0 {
        Json::Number(JsonNumber::PosInt(i as u64))
    } else {
        Json::Number(JsonNumber::NegInt(i))
    }
}

/// Appends an element to an array under construction.
pub fn push_item(items: &mut Vec<Json>, v: Json)
    ensures
        jv_items(final(items)@) == jv_items(old(items)@).push(jv(v)),
{
    let ghost before = items@;
    items.push(v);
    assert(items@.drop_last() =~= before);
}

/// Appends a member to an object under construction.
pub fn push_member(ms: &mut Vec<(String, Json)>, key: &str, v: Json)
    ensures
        jv_members(final(ms)@) == jv_members(old(ms)@).push((key@, jv(v))),
{
    let ghost before = ms@;
    ms.push((key.to_owned(), v));
    assert(ms@.drop_last() =~= before);
}

/// The plain values of two element lists, one after the other.
pub proof fn lemma_jv_items_concat(a: Seq<Json>, b: Seq<Json>)
    ensures
        jv_items(a + b) == jv_items(a) + jv_items(b),
    decreases b.len(),
{
    if b.len() == 0 {
        assert(a + b =~= a);
        assert(jv_items(a) + jv_items(b) =~= jv_items(a));
    } else {
        lemma_jv_items_concat(a, b.drop_last());
        assert((a + b).drop_last() =~= a + b.drop_last());
        assert((a + b).last() == b.last());
        assert(jv_items(a + b) =~= jv_items(a) + jv_items(b));
    }
}

/// Appends the elements of `more` to an array under construction.
pub fn append_items(items: &mut Vec<Json>, more: Vec<Json>)
    ensures
        jv_items(final(items)@) == jv_items(old(items)@) + jv_items(more@),
{
    let ghost a = items@;
    let ghost b = more@;
    let mut more = more;
    items.append(&mut more);
    proof { lemma_jv_items_concat(a, b); }
}

/// One plain value per element.
pub proof fn lemma_jv_items_len(s: Seq<Json>)
    ensures
        jv_items(s).len() == s.len(),
    decreases s.len(),
{
    if s.len() > 0 {
        lemma_jv_items_len(s.drop_last());
    }
}

/// Each element's plain value stands at its index.
pub proof fn lemma_jv_items_index(s: Seq<Json>)
    ensures
        jv_items(s).len() == s.len(),
        forall|k: int| 0 <= k < s.len() ==> #[trigger] jv_items(s)[k] == jv(s[k]),
    decreases s.len(),
{
    if s.len() > 0 {
        lemma_jv_items_index(s.drop_last());
        assert forall|k: int| 0 <= k < s.len() implies #[trigger] jv_items(s)[k] == jv(s[k]) by {
            if k < s.len() - 1 {
                assert(s.drop_last()[k] == s[k]);
            }
        }
    }
}

/// One plain member per member.
pub proof fn lemma_jv_members_len(s: Seq<(String, Json)>)
    ensures
        jv_members(s).len() == s.len(),
    decreases s.len(),
{
    if s.len() > 0 {
        lemma_jv_members_len(s.drop_last());
    }
}

} // verus!
