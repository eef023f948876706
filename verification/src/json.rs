//! JSON values as plain data.
use vstd::prelude::*;

verus! {

/// A JSON value.
#[derive(Debug)]
pub enum Json {
    /// `null`.
    Null,
    /// `true` or `false`.
    Bool(bool),
    /// A number, as its JSON text.
    Number(String),
    /// A string.
    Str(String),
    /// An array.
    Array(Vec<Json>),
    /// An object: its members in order, each key once.
    Object(Vec<(String, Json)>),
}

/// The content of a JSON value.
pub enum JsonData {
    Null,
    Bool(bool),
    Number(Seq<char>),
    Str(Seq<char>),
    Array(Seq<JsonData>),
    Object(Seq<(Seq<char>, JsonData)>),
}

/// The content of `j`.
pub open spec fn data_of(j: Json) -> JsonData
    decreases j,
{
    match j {
        Json::Null => JsonData::Null,
        Json::Bool(b) => JsonData::Bool(b),
        Json::Number(t) => JsonData::Number(t@),
        Json::Str(s) => JsonData::Str(s@),
        Json::Array(v) => JsonData::Array(data_seq(v@)),
        Json::Object(m) => JsonData::Object(data_members(m@)),
    }
}

/// The contents of the values in `s`.
pub open spec fn data_seq(s: Seq<Json>) -> Seq<JsonData>
    decreases s,
{
    if s.len() == 0 {
        Seq::empty()
    } else {
        data_seq(s.drop_last()).push(data_of(s.last()))
    }
}

/// The contents of the members in `s`.
pub open spec fn data_members(s: Seq<(String, Json)>) -> Seq<(Seq<char>, JsonData)>
    decreases s,
{
    if s.len() == 0 {
        Seq::empty()
    } else {
        data_members(s.drop_last()).push((s.last().0@, data_of(s.last().1)))
    }
}

impl Json {
    /// A copy of this value, with the same content.
    pub fn duplicate(&self) -> (r: Json)
        ensures
            data_of(r) == data_of(*self),
        decreases *self,
    {
        match self {
            Json::Null => Json::Null,
            Json::Bool(b) => Json::Bool(*b),
            Json::Number(t) => Json::Number(t.clone()),
            Json::Str(t) => Json::Str(t.clone()),
            Json::Array(v) => {
                let mut out: Vec<Json> = Vec::new();
                let mut i: usize = 0;
                while i < v.len()
                    invariant
                        0 <= i <= v@.len(),
                        *self == Json::Array(*v),
                        data_seq(out@) == data_seq(v@.subrange(0, i as int)),
                    decreases v@.len() - i,
                {
                    proof {
                        vstd::std_specs::vec::axiom_vec_index_decreases(*v, i as int);
                        assert((*self)->Array_0 == *v);
                        assert(decreases_to!(*self => (*self)->Array_0));
                    }
                    let e = v[i].duplicate();
                    let ghost before = out@;
                    out.push(e);
                    proof {
                        assert(out@.drop_last() =~= before);
                        assert(v@.subrange(0, i + 1).drop_last() =~= v@.subrange(0, i as int));
                    }
                    i = i + 1;
                }
                assert(v@.subrange(0, v@.len() as int) =~= v@);
                Json::Array(out)
            },
            Json::Object(m) => {
                let mut out: Vec<(String, Json)> = Vec::new();
                let mut i: usize = 0;
                while i < m.len()
                    invariant
                        0 <= i <= m@.len(),
                        *self == Json::Object(*m),
                        data_members(out@) == data_members(m@.subrange(0, i as int)),
                    decreases m@.len() - i,
                {
                    proof {
                        vstd::std_specs::vec::axiom_vec_index_decreases(*m, i as int);
                        assert((*self)->Object_0 == *m);
                        assert(decreases_to!(*self => (*self)->Object_0));
                        assert(decreases_to!(m[i as int] => m[i as int].1));
                    }
                    let e = m[i].1.duplicate();
                    let ghost before = out@;
                    out.push((m[i].0.clone(), e));
                    proof {
                        assert(out@.drop_last() =~= before);
                        assert(m@.subrange(0, i + 1).drop_last() =~= m@.subrange(0, i as int));
                    }
                    i = i + 1;
                }
                assert(m@.subrange(0, m@.len() as int) =~= m@);
                Json::Object(out)
            },
        }
    }
}

/// Member `i` of `m` is the first with key `k`.
pub open spec fn first_key(m: Seq<(String, Json)>, k: Seq<char>, i: int) -> bool {
    &&& 0 <= i < m.len()
    &&& m[i].0@ == k
    &&& forall|j: int| 0 <= j < i ==> m[j].0@ != k
}

/// The value of the first member of `m` with key `k`.
pub open spec fn lookup(m: Seq<(String, Json)>, k: Seq<char>) -> Option<Json> {
    if exists|i: int| 0 <= i < m.len() && m[i].0@ == k {
        Some(m[choose|i: int| first_key(m, k, i)].1)
    } else {
        None
    }
}

/// The member of `j` with key `k`: `None` unless `j` is an object with
/// such a member.
pub open spec fn member(j: Json, k: Seq<char>) -> Option<Json> {
    match j {
        Json::Object(m) => lookup(m@, k),
        _ => None,
    }
}

/// The content of element `i` of `s` is the `i`-th content.
pub proof fn lemma_data_seq_index(s: Seq<Json>, i: int)
    requires
        0 <= i < s.len(),
    ensures
        data_seq(s).len() == s.len(),
        data_seq(s)[i] == data_of(s[i]),
    decreases s.len(),
{
    lemma_data_seq_len(s);
    lemma_data_seq_len(s.drop_last());
    if i < s.len() - 1 {
        lemma_data_seq_index(s.drop_last(), i);
    }
}

/// The contents of a list have its length.
pub proof fn lemma_data_seq_len(s: Seq<Json>)
    ensures
        data_seq(s).len() == s.len(),
    decreases s.len(),
{
    if s.len() > 0 {
        lemma_data_seq_len(s.drop_last());
    }
}

impl Json {
    /// The value of this object's member with key `k`, if it is an object
    /// with such a member.
    pub fn get(&self, k: &String) -> (r: Option<&Json>)
        ensures
            match r {
                Some(v) => member(*self, k@) == Some(*v),
                None => member(*self, k@) is None,
            },
    {
        match self {
            Json::Object(m) => {
                let mut i: usize = 0;
                while i < m.len()
                    invariant
                        0 <= i <= m@.len(),
                        *self == Json::Object(*m),
                        forall|j: int| 0 <= j < i ==> m@[j].0@ != k@,
                    decreases m@.len() - i,
                {
                    if m[i].0 == *k {
                        assert(first_key(m@, k@, i as int));
                        let ghost c = choose|c: int| first_key(m@, k@, c);
                        assert(c == i) by {
                            if c < i {
                            } else if c > i {
                            }
                        }
                        return Some(&m[i].1);
                    }
                    i = i + 1;
                }
                None
            },
            _ => None,
        }
    }

    /// Whether this value is `null`.
    pub fn is_null(&self) -> (r: bool)
        ensures
            r == (*self is Null),
    {
        match self {
            Json::Null => true,
            _ => false,
        }
    }

    /// Whether this value is an array.
    pub fn is_array(&self) -> (r: bool)
        ensures
            r == (*self is Array),
    {
        match self {
            Json::Array(_) => true,
            _ => false,
        }
    }
}

/// The indented JSON text that `serde_json::to_string_pretty` writes for a
/// value with content `d`.
pub uninterp spec fn pretty_json_text(d: JsonData) -> Seq<char>;

/// Write `v` as indented JSON text.
///
/// Calls `serde_json::to_string_pretty`; the contract claims that the call
/// succeeds and returns the text named `pretty_json_text` of the value's
/// content, which depends on that content alone. A `Value` always serialises (its object keys are strings
/// and its numbers finite) and the text is written into memory, so no
/// error can come back; one would come back as serde_json's message.
#[verifier::external_body]
pub(crate) fn pretty_json(v: &serde_json::Value) -> (r: Result<String, String>)
    ensures
        r is Ok,
        r matches Ok(t) ==> t@ == pretty_json_text(json_data(*v)),
{
    serde_json::to_string_pretty(v).map_err(|e| e.to_string())
}

/// The content of the serde_json value `v`: its variant and what it holds,
/// a number as the text serde_json writes for it, an object's members in
/// the order serde_json keeps them (each key once).
pub uninterp spec fn json_data(v: serde_json::Value) -> JsonData;

/// What `serde_json::from_str` makes of `text` as a JSON value: its
/// content, or serde_json's error message.
pub uninterp spec fn parsed_json(text: Seq<char>) -> Result<JsonData, Seq<char>>;

/// The compact JSON text serde_json writes for a value with content `d`.
pub uninterp spec fn compact_json_text(d: JsonData) -> Seq<char>;

/// The JSON value `null`.
///
/// Builds `serde_json::Value::Null`; the contract claims its content is
/// null.
#[verifier::external_body]
pub(crate) fn json_null() -> (r: serde_json::Value)
    ensures
        json_data(r) == JsonData::Null,
{
    serde_json::Value::Null
}

/// The empty JSON object.
///
/// Builds `serde_json::Value::Object` of an empty `serde_json::Map`; the
/// contract claims its content is an object without members.
#[verifier::external_body]
pub(crate) fn json_empty_object() -> (r: serde_json::Value)
    ensures
        json_data(r) == JsonData::Object(Seq::empty()),
{
    serde_json::Value::Object(serde_json::Map::new())
}

/// Read `text` as a JSON value.
///
/// Calls `serde_json::from_str::<serde_json::Value>`; the contract claims
/// that the outcome is the one named `parsed_json(text)`, which depends on
/// the text alone: the value with that content, or serde_json's error
/// message.
#[verifier::external_body]
pub(crate) fn parse_json(text: &str) -> (r: Result<serde_json::Value, String>)
    ensures
        match parsed_json(text@) {
            Ok(d) => r matches Ok(v) && json_data(v) == d,
            Err(m) => r matches Err(e) && e@ == m,
        },
{
    serde_json::from_str::<serde_json::Value>(text).map_err(|e| e.to_string())
}

/// The member of `v` with key `key`.
///
/// Calls `serde_json::Value::get` with a `str` key, which looks the key up
/// when `v` is an object and gives nothing otherwise; the contract claims
/// the result is that member, whose content is the member's content.
#[verifier::external_body]
pub(crate) fn json_member<'a>(v: &'a serde_json::Value, key: &str) -> (r: Option<&'a serde_json::Value>)
    ensures
        match r {
            Some(x) => data_member(json_data(*v), key@) == Some(json_data(*x)),
            None => data_member(json_data(*v), key@) is None,
        },
{
    v.get(key)
}

/// The string `v` holds, when it is a string.
///
/// Calls `serde_json::Value::as_str` and copies the text; the contract
/// claims a text comes back exactly when `v` is a string, and that it is
/// that string.
#[verifier::external_body]
pub(crate) fn json_string(v: &serde_json::Value) -> (r: Option<String>)
    ensures
        match r {
            Some(s) => json_data(*v) == JsonData::Str(s@),
            None => !(json_data(*v) is Str),
        },
{
    v.as_str().map(String::from)
}

/// Whether `v` is `null`.
///
/// Calls `serde_json::Value::is_null`; the contract claims it answers
/// whether the content is null.
#[verifier::external_body]
pub(crate) fn json_is_null(v: &serde_json::Value) -> (r: bool)
    ensures
        r == (json_data(*v) is Null),
{
    v.is_null()
}

/// The items of `v`, when it is an array.
///
/// Calls `serde_json::Value::as_array` and copies the items; the contract
/// claims items come back exactly when `v` is an array, with its items'
/// contents in order.
#[verifier::external_body]
pub(crate) fn json_items(v: &serde_json::Value) -> (r: Option<Vec<serde_json::Value>>)
    ensures
        match r {
            Some(xs) => json_data(*v) == JsonData::Array(values_data(xs@)),
            None => !(json_data(*v) is Array),
        },
{
    v.as_array().cloned()
}

/// The members of `v`, when it is an object.
///
/// Calls `serde_json::Value::as_object` and copies its entries in the
/// map's order; the contract claims entries come back exactly when `v` is
/// an object, with its members' keys and contents in order.
#[verifier::external_body]
pub(crate) fn json_entries(v: &serde_json::Value) -> (r: Option<Vec<(String, serde_json::Value)>>)
    ensures
        match r {
            Some(es) => json_data(*v) == JsonData::Object(entries_data(es@)),
            None => !(json_data(*v) is Object),
        },
{
    v.as_object().map(|m| m.iter().map(|(k, x)| (k.clone(), x.clone())).collect())
}

/// The compact JSON text of `v`.
///
/// Calls `serde_json::Value`'s `to_string`, which writes compact JSON; the
/// contract claims the text is the one named `compact_json_text` of the
/// value's content.
#[verifier::external_body]
pub(crate) fn json_text(v: &serde_json::Value) -> (r: String)
    ensures
        r@ == compact_json_text(json_data(*v)),
{
    v.to_string()
}

/// The contents of the values in `s`.
pub open spec fn values_data(s: Seq<serde_json::Value>) -> Seq<JsonData> {
    s.map_values(|v: serde_json::Value| json_data(v))
}

/// The contents of the entries in `s`, with their keys.
pub open spec fn entries_data(s: Seq<(String, serde_json::Value)>) -> Seq<(Seq<char>, JsonData)> {
    s.map_values(|e: (String, serde_json::Value)| (e.0@, json_data(e.1)))
}

/// Member `i` of the contents `m` is the first with key `k`.
pub open spec fn data_first_key(m: Seq<(Seq<char>, JsonData)>, k: Seq<char>, i: int) -> bool {
    &&& 0 <= i < m.len()
    &&& m[i].0 == k
    &&& forall|j: int| 0 <= j < i ==> m[j].0 != k
}

/// The content of the member with key `k` of the content `d`: `None`
/// unless `d` is an object with such a member (the first one counts).
pub open spec fn data_member(d: JsonData, k: Seq<char>) -> Option<JsonData> {
    match d {
        JsonData::Object(m) => data_lookup(m, k),
        _ => None,
    }
}

/// The content of the first member of the contents `m` with key `k`.
pub open spec fn data_lookup(m: Seq<(Seq<char>, JsonData)>, k: Seq<char>) -> Option<JsonData> {
    if exists|i: int| 0 <= i < m.len() && m[i].0 == k {
        Some(m[choose|i: int| data_first_key(m, k, i)].1)
    } else {
        None
    }
}

/// The content of member `i` of a list of members.
pub proof fn lemma_data_members_index(s: Seq<(String, Json)>, i: int)
    requires
        0 <= i < s.len(),
    ensures
        data_members(s).len() == s.len(),
        data_members(s)[i] == (s[i].0@, data_of(s[i].1)),
    decreases s.len(),
{
    lemma_data_members_len(s);
    lemma_data_members_len(s.drop_last());
    if i < s.len() - 1 {
        lemma_data_members_index(s.drop_last(), i);
    }
}

/// The contents of a list of members have its length.
pub proof fn lemma_data_members_len(s: Seq<(String, Json)>)
    ensures
        data_members(s).len() == s.len(),
    decreases s.len(),
{
    if s.len() > 0 {
        lemma_data_members_len(s.drop_last());
    }
}

/// A member's content is the member of the content.
pub proof fn lemma_member_data(j: Json, k: Seq<char>)
    ensures
        match member(j, k) {
            Some(v) => data_member(data_of(j), k) == Some(data_of(v)),
            None => data_member(data_of(j), k) is None,
        },
{
    if let Json::Object(m) = j {
        let ms = m@;
        let dm = data_members(ms);
        lemma_data_members_len(ms);
        assert forall|i: int| 0 <= i < ms.len() implies #[trigger] dm[i] == (ms[i].0@, data_of(ms[i].1)) by {
            lemma_data_members_index(ms, i);
        }
        if exists|i: int| 0 <= i < ms.len() && ms[i].0@ == k {
            let w = choose|i: int| 0 <= i < ms.len() && ms[i].0@ == k;
            assert(0 <= w < dm.len() && dm[w].0 == k);
            lemma_first_index(ms, k, w);
            let c = choose|i: int| first_key(ms, k, i);
            assert(first_key(ms, k, c));
            assert(data_first_key(dm, k, c)) by {
                assert forall|j: int| 0 <= j < c implies dm[j].0 != k by {
                    assert(dm[j] == (ms[j].0@, data_of(ms[j].1)));
                }
            }
            let d = choose|i: int| data_first_key(dm, k, i);
            assert(d == c) by {
                if d < c {
                    assert(dm[d] == (ms[d].0@, data_of(ms[d].1)));
                } else if d > c {
                }
            }
            assert(dm[c] == (ms[c].0@, data_of(ms[c].1)));
            assert(data_of(j) == JsonData::Object(dm));
            assert(member(j, k) == Some(ms[c].1));
            assert(exists|i: int| 0 <= i < dm.len() && dm[i].0 == k) by {
                assert(0 <= w < dm.len() && dm[w].0 == k);
            }
            assert(data_member(data_of(j), k) == Some(dm[d].1));
        } else {
            assert forall|i: int| 0 <= i < dm.len() implies dm[i].0 != k by {
                assert(dm[i] == (ms[i].0@, data_of(ms[i].1)));
            }
        }
    }
}

/// When some member of `m` has key `k`, a first one does.
proof fn lemma_first_index(m: Seq<(String, Json)>, k: Seq<char>, w: int)
    requires
        0 <= w < m.len(),
        m[w].0@ == k,
    ensures
        exists|i: int| first_key(m, k, i),
    decreases w,
{
    if exists|j: int| 0 <= j < w && m[j].0@ == k {
        let j = choose|j: int| 0 <= j < w && m[j].0@ == k;
        lemma_first_index(m, k, j);
    } else {
        assert(first_key(m, k, w));
    }
}

/// The contents of two lists one after the other.
pub proof fn lemma_data_seq_concat(a: Seq<Json>, b: Seq<Json>)
    ensures
        data_seq(a + b) == data_seq(a) + data_seq(b),
    decreases b.len(),
{
    if b.len() == 0 {
        assert(a + b =~= a);
        assert(data_seq(a) + data_seq(b) =~= data_seq(a));
    } else {
        lemma_data_seq_concat(a, b.drop_last());
        assert((a + b).drop_last() =~= a + b.drop_last());
        assert((a + b).last() == b.last());
        assert(data_seq(a) + data_seq(b.drop_last()).push(data_of(b.last())) =~= (data_seq(a) + data_seq(
            b.drop_last(),
        )).push(data_of(b.last())));
    }
}

} // verus!
