//! A JSON value held as plain data, and the handful of operations the
//! interceptor performs on messages.

use vstd::prelude::*;

verus! {

/// A JSON number as the wire format carries it: a non-negative integer, a
/// negative integer, or any other number kept as its textual form.
pub enum JsonNumber {
    PosInt(u64),
    NegInt(i64),
    Float(String),
}

/// A JSON document. Objects keep their members in order; a key that occurs
/// twice is read from its first occurrence.
pub enum Json {
    Null,
    Bool(bool),
    Number(JsonNumber),
    String(String),
    Array(Vec<Json>),
    Object(Vec<(String, Json)>),
}

/// The mathematical model of a number.
pub enum NumberModel {
    PosInt(u64),
    NegInt(i64),
    Float(Seq<char>),
}

/// The mathematical model of a JSON document: an object is a map from keys to
/// values.
pub enum JsonModel {
    Null,
    Bool(bool),
    Number(NumberModel),
    String(Seq<char>),
    Array(Seq<JsonModel>),
    Object(Map<Seq<char>, JsonModel>),
}

impl JsonNumber {
    pub open spec fn view(&self) -> NumberModel {
        match self {
            JsonNumber::PosInt(u) => NumberModel::PosInt(*u),
            JsonNumber::NegInt(i) => NumberModel::NegInt(*i),
            JsonNumber::Float(t) => NumberModel::Float(t@),
        }
    }
}

pub open spec fn items_model(items: Seq<Json>) -> Seq<JsonModel>
    decreases items,
{
    if items.len() == 0 {
        Seq::empty()
    } else {
        seq![json_model(items[0])] + items_model(items.drop_first())
    }
}

pub open spec fn members_model(members: Seq<(String, Json)>) -> Map<Seq<char>, JsonModel>
    decreases members,
{
    if members.len() == 0 {
        Map::empty()
    } else {
        members_model(members.drop_first()).insert(members[0].0@, json_model(members[0].1))
    }
}

pub open spec fn json_model(j: Json) -> JsonModel
    decreases j,
{
    match j {
        Json::Null => JsonModel::Null,
        Json::Bool(b) => JsonModel::Bool(b),
        Json::Number(n) => JsonModel::Number(n.view()),
        Json::String(s) => JsonModel::String(s@),
        Json::Array(items) => JsonModel::Array(items_model(items@)),
        Json::Object(members) => JsonModel::Object(members_model(members@)),
    }
}


impl View for Json {
    type V = JsonModel;

    open spec fn view(&self) -> JsonModel {
        json_model(*self)
    }
}

// ---------------------------------------------------------------- reading a model

/// `value[key]`: the member of an object, or `null` for a missing key or a
/// value that is not an object.
pub open spec fn field(m: JsonModel, key: Seq<char>) -> JsonModel {
    match m {
        JsonModel::Object(map) => if map.dom().contains(key) {
            map[key]
        } else {
            JsonModel::Null
        },
        _ => JsonModel::Null,
    }
}

/// `value.get(key)`: the member of an object, when there is one.
pub open spec fn member(m: JsonModel, key: Seq<char>) -> Option<JsonModel> {
    match m {
        JsonModel::Object(map) => if map.dom().contains(key) {
            Some(map[key])
        } else {
            None
        },
        _ => None,
    }
}

/// `value[i]`: an element of an array, or `null`.
pub open spec fn element(m: JsonModel, i: int) -> JsonModel {
    match m {
        JsonModel::Array(items) => if 0 <= i < items.len() {
            items[i]
        } else {
            JsonModel::Null
        },
        _ => JsonModel::Null,
    }
}

/// `value.as_str()`.
pub open spec fn as_text(m: JsonModel) -> Option<Seq<char>> {
    match m {
        JsonModel::String(s) => Some(s),
        _ => None,
    }
}

/// `value.as_array()`.
pub open spec fn as_items(m: JsonModel) -> Option<Seq<JsonModel>> {
    match m {
        JsonModel::Array(items) => Some(items),
        _ => None,
    }
}

/// `value.as_i64()`: an integer that fits in 64 signed bits.
pub open spec fn as_int(m: JsonModel) -> Option<int> {
    match m {
        JsonModel::Number(NumberModel::PosInt(u)) => if u <= i64::MAX {
            Some(u as int)
        } else {
            None
        },
        JsonModel::Number(NumberModel::NegInt(i)) => Some(i as int),
        _ => None,
    }
}

/// `value == text`, comparing a JSON value with a string.
pub open spec fn is_text(m: JsonModel, t: Seq<char>) -> bool {
    m == JsonModel::String(t)
}

/// Whether `value[key] = ...` is defined: on an object, or on `null`, which
/// becomes an empty object first. Any other value makes serde_json panic.
pub open spec fn settable(m: JsonModel) -> bool {
    m is Object || m is Null
}

/// `value[key] = v`.
pub open spec fn with_field(m: JsonModel, key: Seq<char>, v: JsonModel) -> JsonModel {
    match m {
        JsonModel::Object(map) => JsonModel::Object(map.insert(key, v)),
        _ => JsonModel::Object(Map::empty().insert(key, v)),
    }
}

/// `value.to_string()` for a number.
pub open spec fn number_text(n: NumberModel) -> Seq<char> {
    match n {
        NumberModel::PosInt(u) => crate::text::decimal(u as nat),
        NumberModel::NegInt(i) => if i < 0 {
            seq!['-'] + crate::text::decimal((-i) as nat)
        } else {
            crate::text::decimal(i as nat)
        },
        NumberModel::Float(t) => t,
    }
}

// ---------------------------------------------------------------- lemmas

pub proof fn lemma_items_model(items: Seq<Json>)
    ensures
        items_model(items).len() == items.len(),
        forall|i: int| 0 <= i < items.len() ==> #[trigger] items_model(items)[i] == json_model(items[i]),
    decreases items.len(),
{
    if items.len() > 0 {
        lemma_items_model(items.drop_first());
        assert forall|i: int| 0 <= i < items.len() implies #[trigger] items_model(items)[i] == json_model(items[i]) by {
            if i > 0 {
                assert(items.drop_first()[i - 1] == items[i]);
            }
        }
    }
}

/// Two item lists with equal models element by element have equal models.
pub proof fn lemma_items_model_eq(a: Seq<Json>, b: Seq<Json>)
    requires
        a.len() == b.len(),
        forall|i: int| 0 <= i < a.len() ==> json_model(#[trigger] a[i]) == json_model(b[i]),
    ensures
        items_model(a) == items_model(b),
{
    lemma_items_model(a);
    lemma_items_model(b);
    assert(items_model(a) =~= items_model(b));
}

/// The model of an object is read from the first occurrence of each key.
pub proof fn lemma_members_lookup(ms: Seq<(String, Json)>, k: Seq<char>)
    ensures
        (exists|i: int| 0 <= i < ms.len() && (#[trigger] ms[i]).0@ == k) ==> ({
            let i0 = first_key_index(ms, k);
            &&& 0 <= i0 < ms.len()
            &&& ms[i0].0@ == k
            &&& forall|j: int| 0 <= j < i0 ==> (#[trigger] ms[j]).0@ != k
            &&& members_model(ms).dom().contains(k)
            &&& members_model(ms)[k] == json_model(ms[i0].1)
        }),
        (forall|i: int| 0 <= i < ms.len() ==> (#[trigger] ms[i]).0@ != k) ==> !members_model(
            ms,
        ).dom().contains(k),
    decreases ms.len(),
{
    if ms.len() > 0 {
        lemma_members_lookup(ms.drop_first(), k);
        if ms[0].0@ == k {
        } else {
            if exists|i: int| 0 <= i < ms.len() && (#[trigger] ms[i]).0@ == k {
                let w = choose|i: int| 0 <= i < ms.len() && (#[trigger] ms[i]).0@ == k;
                assert(ms.drop_first()[w - 1] == ms[w]);
                assert forall|j: int| 0 <= j < first_key_index(ms, k) implies (#[trigger] ms[j]).0@ != k by {
                    if j > 0 {
                        assert(ms.drop_first()[j - 1] == ms[j]);
                    }
                }
            }
            if forall|i: int| 0 <= i < ms.len() ==> (#[trigger] ms[i]).0@ != k {
                assert forall|i: int| 0 <= i < ms.drop_first().len() implies (#[trigger] ms.drop_first()[i]).0@ != k by {
                    assert(ms.drop_first()[i] == ms[i + 1]);
                }
            }
        }
    }
}

/// The index of the first member with key `k`.
pub open spec fn first_key_index(ms: Seq<(String, Json)>, k: Seq<char>) -> int
    decreases ms.len(),
{
    if ms.len() == 0 {
        0
    } else if ms[0].0@ == k {
        0
    } else {
        1 + first_key_index(ms.drop_first(), k)
    }
}

/// Two member lists with the same keys and equal value models have equal models.
pub proof fn lemma_members_model_eq(a: Seq<(String, Json)>, b: Seq<(String, Json)>)
    requires
        a.len() == b.len(),
        forall|i: int|
            0 <= i < a.len() ==> (#[trigger] a[i]).0@ == b[i].0@ && json_model(a[i].1)
                == json_model(b[i].1),
    ensures
        members_model(a) == members_model(b),
    decreases a.len(),
{
    if a.len() > 0 {
        assert forall|i: int| 0 <= i < a.drop_first().len() implies (#[trigger] a.drop_first()[i]).0@
            == b.drop_first()[i].0@ && json_model(a.drop_first()[i].1) == json_model(
            b.drop_first()[i].1,
        ) by {
            assert(a.drop_first()[i] == a[i + 1]);
            assert(b.drop_first()[i] == b[i + 1]);
        }
        lemma_members_model_eq(a.drop_first(), b.drop_first());
        assert(a[0].0@ == b[0].0@);
    }
}

/// Appending a member whose key is new adds it to the model.
pub proof fn lemma_members_push_new(ms: Seq<(String, Json)>, e: (String, Json))
    requires
        forall|i: int| 0 <= i < ms.len() ==> (#[trigger] ms[i]).0@ != e.0@,
    ensures
        members_model(ms.push(e)) == members_model(ms).insert(e.0@, json_model(e.1)),
    decreases ms.len(),
{
    if ms.len() == 0 {
        assert(ms.push(e).drop_first() =~= ms);
        assert(members_model(ms.push(e)) =~= members_model(ms).insert(e.0@, json_model(e.1)));
    } else {
        assert(ms.push(e).drop_first() =~= ms.drop_first().push(e));
        assert forall|i: int| 0 <= i < ms.drop_first().len() implies (#[trigger] ms.drop_first()[i]).0@ != e.0@ by {
            assert(ms.drop_first()[i] == ms[i + 1]);
        }
        lemma_members_push_new(ms.drop_first(), e);
        assert(ms.push(e)[0] == ms[0]);
        assert(ms[0].0@ != e.0@);
        assert(members_model(ms.push(e)) =~= members_model(ms).insert(e.0@, json_model(e.1)));
    }
}

/// Replacing the first member with key `k` sets `k` in the model.
pub proof fn lemma_members_update_first(ms: Seq<(String, Json)>, i: int, e: (String, Json))
    requires
        0 <= i < ms.len(),
        ms[i].0@ == e.0@,
        forall|j: int| 0 <= j < i ==> (#[trigger] ms[j]).0@ != e.0@,
    ensures
        members_model(ms.update(i, e)) == members_model(ms).insert(e.0@, json_model(e.1)),
    decreases ms.len(),
{
    if i == 0 {
        assert(ms.update(0, e).drop_first() =~= ms.drop_first());
        assert(members_model(ms.update(i, e)) =~= members_model(ms).insert(e.0@, json_model(e.1)));
    } else {
        assert(ms.update(i, e).drop_first() =~= ms.drop_first().update(i - 1, e));
        assert forall|j: int| 0 <= j < i - 1 implies (#[trigger] ms.drop_first()[j]).0@ != e.0@ by {
            assert(ms.drop_first()[j] == ms[j + 1]);
        }
        lemma_members_update_first(ms.drop_first(), i - 1, e);
        assert(ms[0].0@ != e.0@);
        assert(members_model(ms.update(i, e)) =~= members_model(ms).insert(e.0@, json_model(e.1)));
    }
}

// ---------------------------------------------------------------- executable operations

impl JsonNumber {
    /// A copy of the number.
    pub fn duplicate(&self) -> (r: JsonNumber)
        ensures
            r@ == self@,
    {
        match self {
            JsonNumber::PosInt(u) => JsonNumber::PosInt(*u),
            JsonNumber::NegInt(i) => JsonNumber::NegInt(*i),
            JsonNumber::Float(t) => JsonNumber::Float(t.clone()),
        }
    }

    /// The number as text, the way serde_json displays it.
    pub fn text(&self) -> (r: String)
        ensures
            r@ == number_text(self@),
    {
        match self {
            JsonNumber::PosInt(u) => {
                let v = crate::text::decimal_exec(*u);
                crate::text::string_of(v.as_slice())
            },
            JsonNumber::NegInt(i) => {
                if *i < 0 {
                    let magnitude: u64 = if *i == i64::MIN {
                        9223372036854775808u64
                    } else {
                        (-*i) as u64
                    };
                    let mut v = vec!['-'];
                    let digits = crate::text::decimal_exec(magnitude);
                    crate::text::append_chars(&mut v, digits.as_slice());
                    crate::text::string_of(v.as_slice())
                } else {
                    let v = crate::text::decimal_exec(*i as u64);
                    crate::text::string_of(v.as_slice())
                }
            },
            JsonNumber::Float(t) => t.clone(),
        }
    }
}

impl Json {
    /// A deep copy of the value.
    pub fn duplicate(&self) -> (r: Json)
        ensures
            r@ == self@,
        decreases self,
    {
        match self {
            Json::Null => Json::Null,
            Json::Bool(b) => Json::Bool(*b),
            Json::Number(n) => Json::Number(n.duplicate()),
            Json::String(s) => Json::String(s.clone()),
            Json::Array(items) => {
                let mut copy: Vec<Json> = Vec::new();
                let mut i: usize = 0;
                while i < items.len()
                    invariant
                        *self == Json::Array(*items),
                        0 <= i <= items@.len(),
                        copy@.len() == i,
                        forall|j: int|
                            0 <= j < i ==> json_model(#[trigger] copy@[j]) == json_model(items@[j]),
                    decreases items@.len() - i,
                {
                    assert(decreases_to!(*self => (*self)->Array_0));
                    assert(decreases_to!(*items => items@));
                    assert(decreases_to!(items@ => items@[i as int]));
                    copy.push(items[i].duplicate());
                    i += 1;
                }
                proof {
                    lemma_items_model_eq(copy@, items@);
                }
                Json::Array(copy)
            },
            Json::Object(members) => {
                let mut copy: Vec<(String, Json)> = Vec::new();
                let mut i: usize = 0;
                while i < members.len()
                    invariant
                        *self == Json::Object(*members),
                        0 <= i <= members@.len(),
                        copy@.len() == i,
                        forall|j: int|
                            0 <= j < i ==> (#[trigger] copy@[j]).0@ == members@[j].0@
                                && json_model(copy@[j].1) == json_model(members@[j].1),
                    decreases members@.len() - i,
                {
                    assert(decreases_to!(*self => (*self)->Object_0));
                    assert(decreases_to!(*members => members@));
                    assert(decreases_to!(members@ => members@[i as int]));
                    assert(decreases_to!(members@[i as int] => members@[i as int].1));
                    let v = members[i].1.duplicate();
                    copy.push((members[i].0.clone(), v));
                    i += 1;
                }
                proof {
                    lemma_members_model_eq(copy@, members@);
                }
                Json::Object(copy)
            },
        }
    }

    /// `value.get(key)`.
    pub fn get(&self, key: &str) -> (r: Option<&Json>)
        ensures
            match member(self@, key@) {
                Some(m) => r matches Some(v) && v@ == m,
                None => r is None,
            },
    {
        match self {
            Json::Object(members) => {
                let mut i: usize = 0;
                while i < members.len()
                    invariant
                        *self == Json::Object(*members),
                        0 <= i <= members@.len(),
                        forall|j: int| 0 <= j < i ==> (#[trigger] members@[j]).0@ != key@,
                    decreases members@.len() - i,
                {
                    if crate::text::str_eq(members[i].0.as_str(), key) {
                        proof {
                            assert(members@[i as int].0@ == key@);
                            lemma_members_lookup(members@, key@);
                            assert(first_key_index(members@, key@) == i) by {
                                lemma_first_key_index(members@, key@, i as int);
                            }
                        }
                        assert(*self == Json::Object(*members));
                        assert(self@ == JsonModel::Object(members_model(members@)));
                        assert(member(self@, key@) == Some(json_model(members@[i as int].1)));
                        return Some(&members[i].1);
                    }
                    i += 1;
                }
                proof {
                    lemma_members_lookup(members@, key@);
                }
                None
            },
            _ => None,
        }
    }

    /// `value[key].clone()`: the member, or `null`.
    pub fn field_copy(&self, key: &str) -> (r: Json)
        ensures
            r@ == field(self@, key@),
    {
        match self.get(key) {
            Some(v) => v.duplicate(),
            None => Json::Null,
        }
    }

    /// `value.as_str()`.
    pub fn as_str(&self) -> (r: Option<&String>)
        ensures
            match as_text(self@) {
                Some(t) => r matches Some(s) && s@ == t,
                None => r is None,
            },
    {
        match self {
            Json::String(s) => Some(s),
            _ => None,
        }
    }

    /// `value.as_array()`.
    pub fn as_array(&self) -> (r: Option<&Vec<Json>>)
        ensures
            match as_items(self@) {
                Some(t) => r matches Some(v) && items_model(v@) == t,
                None => r is None,
            },
    {
        match self {
            Json::Array(items) => Some(items),
            _ => None,
        }
    }

    /// `value.as_i64()`.
    pub fn as_i64(&self) -> (r: Option<i64>)
        ensures
            match as_int(self@) {
                Some(n) => r == Some(n as i64),
                None => r is None,
            },
    {
        match self {
            Json::Number(JsonNumber::PosInt(u)) => {
                if *u <= 9223372036854775807u64 {
                    Some(*u as i64)
                } else {
                    None
                }
            },
            Json::Number(JsonNumber::NegInt(i)) => Some(*i),
            _ => None,
        }
    }

    /// `value == text`.
    pub fn is_str(&self, t: &str) -> (r: bool)
        ensures
            r == is_text(self@, t@),
    {
        match self {
            Json::String(s) => crate::text::str_eq(s.as_str(), t),
            _ => false,
        }
    }

    /// `value[key] = v`, on an object or on `null`.
    pub fn with_field(self, key: &str, v: Json) -> (r: Json)
        requires
            settable(self@),
        ensures
            r@ == with_field(self@, key@, v@),
    {
        let ghost vm = v@;
        match self {
            Json::Object(members) => {
                let mut members = members;
                let ghost old_members = members@;
                let mut i: usize = 0;
                while i < members.len()
                    invariant
                        members@ == old_members,
                        v@ == vm,
                        self@ == JsonModel::Object(members_model(old_members)),
                        0 <= i <= members@.len(),
                        forall|j: int| 0 <= j < i ==> (#[trigger] members@[j]).0@ != key@,
                    decreases members@.len() - i,
                {
                    if crate::text::str_eq(members[i].0.as_str(), key) {
                        let e = (key.to_owned(), v);
                        assert(e.1 == v);
                        proof {
                            assert(members@[i as int].0@ == key@);
                            lemma_members_update_first(members@, i as int, e);
                        }
                        members.set(i, e);
                        assert(members@ == old_members.update(i as int, e));
                        assert(json_model(e.1) == vm);
                        return Json::Object(members);
                    }
                    i += 1;
                }
                let e = (key.to_owned(), v);
                proof {
                    lemma_members_push_new(members@, e);
                }
                members.push(e);
                Json::Object(members)
            },
            _ => {
                let e = (key.to_owned(), v);
                let members = vec![e];
                proof {
                    lemma_members_push_new(Seq::empty(), e);
                    assert(Seq::<(String, Json)>::empty().push(e) =~= members@);
                }
                Json::Object(members)
            },
        }
    }
}

pub proof fn lemma_first_key_index(ms: Seq<(String, Json)>, k: Seq<char>, i: int)
    requires
        0 <= i < ms.len(),
        ms[i].0@ == k,
        forall|j: int| 0 <= j < i ==> (#[trigger] ms[j]).0@ != k,
    ensures
        first_key_index(ms, k) == i,
    decreases i,
{
    if i > 0 {
        assert forall|j: int| 0 <= j < i - 1 implies (#[trigger] ms.drop_first()[j]).0@ != k by {
            assert(ms.drop_first()[j] == ms[j + 1]);
        }
        assert(ms[0].0@ != k);
        lemma_first_key_index(ms.drop_first(), k, i - 1);
    }
}

/// A deep copy of a list of values.
pub fn duplicate_items(items: &Vec<Json>) -> (r: Vec<Json>)
    ensures
        r@.len() == items@.len(),
        forall|j: int| 0 <= j < items@.len() ==> json_model(#[trigger] r@[j]) == json_model(items@[j]),
{
    let mut copy: Vec<Json> = Vec::new();
    let mut i: usize = 0;
    while i < items.len()
        invariant
            0 <= i <= items@.len(),
            copy@.len() == i,
            forall|j: int| 0 <= j < i ==> json_model(#[trigger] copy@[j]) == json_model(items@[j]),
        decreases items@.len() - i,
    {
        copy.push(items[i].duplicate());
        i += 1;
    }
    copy
}

// ---------------------------------------------------------------- reading through optional references

/// The value an optional reference stands for: a missing value reads as `null`.
pub open spec fn opt_model(o: Option<&Json>) -> JsonModel {
    match o {
        Some(v) => v@,
        None => JsonModel::Null,
    }
}

/// `value[key]`, on a value that may be missing.
pub fn at<'a>(o: Option<&'a Json>, key: &str) -> (r: Option<&'a Json>)
    ensures
        opt_model(r) == field(opt_model(o), key@),
{
    match o {
        Some(v) => {
            let r = v.get(key);
            r
        },
        None => None,
    }
}

/// `value[i]`, on a value that may be missing.
pub fn at_index<'a>(o: Option<&'a Json>, i: usize) -> (r: Option<&'a Json>)
    ensures
        opt_model(r) == element(opt_model(o), i as int),
{
    match o {
        Some(Json::Array(items)) => {
            if i < items.len() {
                proof {
                    lemma_items_model(items@);
                }
                Some(&items[i])
            } else {
                proof {
                    lemma_items_model(items@);
                }
                None
            }
        },
        _ => None,
    }
}

/// `value.as_str()`, on a value that may be missing.
pub fn opt_as_str<'a>(o: Option<&'a Json>) -> (r: Option<&'a String>)
    ensures
        match as_text(opt_model(o)) {
            Some(t) => r matches Some(s) && s@ == t,
            None => r is None,
        },
{
    match o {
        Some(v) => v.as_str(),
        None => None,
    }
}

/// `value.as_str().unwrap_or(default)`, as an owned string.
pub fn text_or(o: Option<&Json>, default: &str) -> (r: String)
    ensures
        r@ == (match as_text(opt_model(o)) {
            Some(t) => t,
            None => default@,
        }),
{
    match opt_as_str(o) {
        Some(s) => s.clone(),
        None => default.to_owned(),
    }
}

/// `value.as_array()`, on a value that may be missing.
pub fn opt_as_array<'a>(o: Option<&'a Json>) -> (r: Option<&'a Vec<Json>>)
    ensures
        match as_items(opt_model(o)) {
            Some(t) => r matches Some(v) && items_model(v@) == t,
            None => r is None,
        },
{
    match o {
        Some(v) => v.as_array(),
        None => None,
    }
}

/// `value.as_i64()`, on a value that may be missing.
pub fn opt_as_i64(o: Option<&Json>) -> (r: Option<i64>)
    ensures
        match as_int(opt_model(o)) {
            Some(n) => r == Some(n as i64),
            None => r is None,
        },
{
    match o {
        Some(v) => v.as_i64(),
        None => None,
    }
}

/// `value == text`, on a value that may be missing.
pub fn opt_is_str(o: Option<&Json>, t: &str) -> (r: bool)
    ensures
        r == is_text(opt_model(o), t@),
{
    match o {
        Some(v) => v.is_str(t),
        None => false,
    }
}

/// `value.clone()`, on a value that may be missing.
pub fn opt_copy(o: Option<&Json>) -> (r: Json)
    ensures
        r@ == opt_model(o),
{
    match o {
        Some(v) => v.duplicate(),
        None => Json::Null,
    }
}

// ---------------------------------------------------------------- building objects

/// An object with one member.
pub open spec fn object1(k1: Seq<char>, v1: JsonModel) -> JsonModel {
    JsonModel::Object(Map::empty().insert(k1, v1))
}

/// An object with three members, given in order.
pub open spec fn object3(
    k1: Seq<char>,
    v1: JsonModel,
    k2: Seq<char>,
    v2: JsonModel,
    k3: Seq<char>,
    v3: JsonModel,
) -> JsonModel {
    JsonModel::Object(Map::empty().insert(k3, v3).insert(k2, v2).insert(k1, v1))
}

/// `{k1: v1}`.
pub fn make_object1(k1: &str, v1: Json) -> (r: Json)
    ensures
        r@ == object1(k1@, v1@),
{
    let ghost m1 = v1@;
    let e1 = (k1.to_owned(), v1);
    let mut ms = Vec::new();
    ms.push(e1);
    proof {
        assert(ms@.drop_first() =~= Seq::<(String, Json)>::empty());
        assert(members_model(ms@.drop_first()) == Map::<Seq<char>, JsonModel>::empty());
        assert(ms@[0] == e1);
        assert(members_model(ms@) == Map::<Seq<char>, JsonModel>::empty().insert(k1@, m1));
    }
    Json::Object(ms)
}

/// `{k1: v1, k2: v2, k3: v3}`.
pub fn make_object3(k1: &str, v1: Json, k2: &str, v2: Json, k3: &str, v3: Json) -> (r: Json)
    ensures
        r@ == object3(k1@, v1@, k2@, v2@, k3@, v3@),
{
    let ghost (m1, m2, m3) = (v1@, v2@, v3@);
    let e1 = (k1.to_owned(), v1);
    let e2 = (k2.to_owned(), v2);
    let e3 = (k3.to_owned(), v3);
    let mut ms = Vec::new();
    ms.push(e1);
    ms.push(e2);
    ms.push(e3);
    proof {
        let s = ms@;
        assert(s.drop_first().drop_first().drop_first() =~= Seq::<(String, Json)>::empty());
        assert(members_model(s.drop_first().drop_first().drop_first()) == Map::<Seq<char>, JsonModel>::empty());
        assert(s.drop_first().drop_first()[0] == e3);
        assert(s.drop_first()[0] == e2);
        assert(s[0] == e1);
        assert(members_model(s.drop_first().drop_first()) == Map::<Seq<char>, JsonModel>::empty().insert(k3@, m3));
        assert(members_model(s.drop_first()) == Map::<Seq<char>, JsonModel>::empty().insert(k3@, m3).insert(k2@, m2));
        assert(members_model(s) == Map::<Seq<char>, JsonModel>::empty().insert(k3@, m3).insert(k2@, m2).insert(k1@, m1));
    }
    Json::Object(ms)
}
} // verus!
