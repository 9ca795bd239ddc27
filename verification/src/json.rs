//! JSON values.

use crate::text::no_texts;
use crate::text::push_text;
use crate::text::same;
use crate::text::texts;
use vstd::prelude::*;

verus! {

/// A number: its integer, if it is one of that range, and the number as it is
/// written.
#[derive(Debug, PartialEq, Eq)]
pub struct JsonNumber {
    pub integer: Option<i64>,
    pub text: String,
}

/// A JSON value. The keys of an object and its values stand in the same order.
#[derive(Debug, PartialEq, Eq)]
pub enum Json {
    Null,
    Bool(bool),
    Number(JsonNumber),
    Text(String),
    Array(Vec<Json>),
    Object { keys: Vec<String>, values: Vec<Json> },
}

/// What a [`Json`] holds.
pub enum JsonValue {
    Null,
    Bool(bool),
    Number { integer: Option<i64>, text: Seq<char> },
    Text(Seq<char>),
    Array(Seq<JsonValue>),
    Object { keys: Seq<Seq<char>>, values: Seq<JsonValue> },
}

impl Json {
    pub open spec fn model(&self) -> JsonValue
        decreases self,
    {
        match self {
            Json::Null => JsonValue::Null,
            Json::Bool(b) => JsonValue::Bool(*b),
            Json::Number(n) => JsonValue::Number { integer: n.integer, text: n.text@ },
            Json::Text(text) => JsonValue::Text(text@),
            Json::Array(items) => JsonValue::Array(
                Seq::new(
                    items@.len(),
                    |i: int|
                        if 0 <= i < items@.len() {
                            items@[i].model()
                        } else {
                            arbitrary()
                        },
                ),
            ),
            Json::Object { keys, values } => JsonValue::Object {
                keys: texts(keys@),
                values: Seq::new(
                    values@.len(),
                    |i: int|
                        if 0 <= i < values@.len() {
                            values@[i].model()
                        } else {
                            arbitrary()
                        },
                ),
            },
        }
    }
}

impl View for Json {
    type V = JsonValue;

    open spec fn view(&self) -> JsonValue {
        self.model()
    }
}

pub open spec fn values_of(values: Seq<Json>) -> Seq<JsonValue> {
    values.map_values(|value: Json| value@)
}

/// What the parts of a value hold.
pub proof fn lemma_json_view(value: Json)
    ensures
        match value {
            Json::Array(items) => value@ == JsonValue::Array(values_of(items@)),
            Json::Object { keys, values } => value@ == (JsonValue::Object {
                keys: texts(keys@),
                values: values_of(values@),
            }),
            _ => true,
        },
{
    reveal_with_fuel(Json::model, 2);
    match value {
        Json::Array(items) => {
            assert(value@->Array_0 =~= values_of(items@));
        },
        Json::Object { keys, values } => {
            assert(value@->Object_values =~= values_of(values@));
        },
        _ => {},
    }
}

#[verifier::external_type_specification]
#[verifier::external_body]
pub struct ExSerdeValue(serde_json::Value);

/// The JSON value that a text writes, if it writes one. An object keeps the last
/// value of a key that is there twice.
pub uninterp spec fn json_reading(text: Seq<char>) -> Option<JsonValue>;

/// A JSON value as compact text.
pub uninterp spec fn json_text(value: JsonValue) -> Seq<char>;

pub open spec fn opt_value(value: Option<Json>) -> Option<JsonValue> {
    match value {
        Some(v) => Some(v@),
        None => None,
    }
}

/// A `serde_json::Value`, variant by variant. A number is taken by its `as_i64` and
/// its `to_string`. Nothing is stated of it: only the two functions below that read
/// and write text use it.
#[verifier::external_body]
fn from_serde(value: serde_json::Value) -> Json {
    match value {
        serde_json::Value::Null => Json::Null,
        serde_json::Value::Bool(b) => Json::Bool(b),
        serde_json::Value::Number(n) => Json::Number(
            JsonNumber { integer: n.as_i64(), text: n.to_string() },
        ),
        serde_json::Value::String(text) => Json::Text(text),
        serde_json::Value::Array(items) => Json::Array(items.into_iter().map(from_serde).collect()),
        serde_json::Value::Object(members) => {
            let (keys, values): (Vec<String>, Vec<serde_json::Value>) = members.into_iter().unzip();
            Json::Object { keys, values: values.into_iter().map(from_serde).collect() }
        },
    }
}

/// The `serde_json::Value` of a value, variant by variant. A number is read from its
/// text.
#[verifier::external_body]
fn to_serde(value: &Json) -> serde_json::Value {
    match value {
        Json::Null => serde_json::Value::Null,
        Json::Bool(b) => serde_json::Value::Bool(*b),
        Json::Number(n) => serde_json::from_str(n.text.as_str()).unwrap_or_default(),
        Json::Text(text) => serde_json::Value::String(text.clone()),
        Json::Array(items) => serde_json::Value::Array(items.iter().map(to_serde).collect()),
        Json::Object { keys, values } => serde_json::Value::Object(
            keys.iter().cloned().zip(values.iter().map(to_serde)).collect(),
        ),
    }
}

/// `serde_json::from_str` into a `serde_json::Value`: the result is a function of
/// the text alone.
#[verifier::external_body]
pub(crate) fn read_json(text: &str) -> (r: Option<Json>)
    ensures
        opt_value(r) == json_reading(text@),
{
    match serde_json::from_str::<serde_json::Value>(text) {
        Ok(value) => Some(from_serde(value)),
        Err(_) => None,
    }
}

/// `to_string` of a `serde_json::Value`: the result is a function of the value
/// alone.
#[verifier::external_body]
pub(crate) fn write_json(value: &Json) -> (r: String)
    ensures
        r@ == json_text(value@),
{
    to_serde(value).to_string()
}

/// Where a key stands first among keys, from `from` on.
pub open spec fn key_index(keys: Seq<Seq<char>>, key: Seq<char>, from: int) -> Option<int>
    decreases keys.len() - from,
{
    if from < 0 || from >= keys.len() {
        None
    } else if keys[from] == key {
        Some(from)
    } else {
        key_index(keys, key, from + 1)
    }
}

/// The value under a key of an object. Another value has none.
pub open spec fn member(value: JsonValue, key: Seq<char>) -> Option<JsonValue> {
    match value {
        JsonValue::Object { keys, values } => match key_index(keys, key, 0) {
            Some(i) => if i < values.len() {
                Some(values[i])
            } else {
                None
            },
            None => None,
        },
        _ => None,
    }
}

/// What a reference to a value holds.
pub open spec fn ref_value(value: Option<&Json>) -> Option<JsonValue> {
    match value {
        Some(v) => Some(v@),
        None => None,
    }
}

/// Where a key stands first among keys.
pub fn position(keys: &Vec<String>, key: &str) -> (r: Option<usize>)
    ensures
        match r {
            Some(i) => key_index(texts(keys@), key@, 0) == Some(i as int) && i < keys@.len(),
            None => key_index(texts(keys@), key@, 0) is None,
        },
{
    let mut i: usize = 0;
    while i < keys.len()
        invariant
            i <= keys.len(),
            key_index(texts(keys@), key@, 0) == key_index(texts(keys@), key@, i as int),
        decreases keys.len() - i,
    {
        assert(texts(keys@)[i as int] == keys@[i as int]@);
        if same(keys[i].as_str(), key) {
            return Some(i);
        }
        i += 1;
    }
    assert(texts(keys@).len() == keys@.len());
    None
}

impl Json {
    /// The value under a key, if this is an object that has it.
    pub fn get(&self, key: &str) -> (r: Option<&Json>)
        ensures
            ref_value(r) == member(self@, key@),
    {
        proof {
            lemma_json_view(*self);
        }
        match self {
            Json::Object { keys, values } => match position(keys, key) {
                Some(i) => if i < values.len() {
                    assert(values_of(values@)[i as int] == values@[i as int]@);
                    Some(&values[i])
                } else {
                    None
                },
                None => None,
            },
            _ => None,
        }
    }
}

/// A list of paths through a value. A path is a list of keys.
pub struct Paths {
    pub list: Vec<Vec<String>>,
}

/// What [`Paths`] hold.
pub struct PathList {
    pub list: Seq<Seq<Seq<char>>>,
}

impl View for Paths {
    type V = PathList;

    open spec fn view(&self) -> PathList {
        PathList { list: self.list@.map_values(|path: Vec<String>| texts(path@)) }
    }
}

/// No paths.
pub open spec fn no_paths() -> PathList {
    PathList { list: Seq::empty() }
}

impl PathList {
    pub open spec fn one(self, a: Seq<char>) -> PathList {
        PathList { list: self.list.push(Seq::empty().push(a)) }
    }

    pub open spec fn two(self, a: Seq<char>, b: Seq<char>) -> PathList {
        PathList { list: self.list.push(Seq::empty().push(a).push(b)) }
    }

    pub open spec fn three(self, a: Seq<char>, b: Seq<char>, c: Seq<char>) -> PathList {
        PathList { list: self.list.push(Seq::empty().push(a).push(b).push(c)) }
    }

    pub open spec fn four(self, a: Seq<char>, b: Seq<char>, c: Seq<char>, d: Seq<char>) -> PathList {
        PathList { list: self.list.push(Seq::empty().push(a).push(b).push(c).push(d)) }
    }
}

impl Paths {
    /// No paths.
    pub fn none() -> (r: Self)
        ensures
            r@ == no_paths(),
    {
        let paths = Paths { list: Vec::new() };
        assert(paths@.list =~= Seq::empty());
        paths
    }

    fn with(self, path: Vec<String>) -> (r: Self)
        ensures
            r@ == (PathList { list: self@.list.push(texts(path@)) }),
    {
        let ghost before = self@;
        let mut paths = self;
        paths.list.push(path);
        assert(paths@.list =~= before.list.push(texts(path@)));
        paths
    }

    /// The paths and one more, of one key.
    pub fn one(self, a: &str) -> (r: Self)
        ensures
            r@ == self@.one(a@),
    {
        let mut path = no_texts();
        push_text(&mut path, a.to_owned());
        self.with(path)
    }

    /// The paths and one more, of two keys.
    pub fn two(self, a: &str, b: &str) -> (r: Self)
        ensures
            r@ == self@.two(a@, b@),
    {
        let mut path = no_texts();
        push_text(&mut path, a.to_owned());
        push_text(&mut path, b.to_owned());
        self.with(path)
    }

    /// The paths and one more, of three keys.
    pub fn three(self, a: &str, b: &str, c: &str) -> (r: Self)
        ensures
            r@ == self@.three(a@, b@, c@),
    {
        let mut path = no_texts();
        push_text(&mut path, a.to_owned());
        push_text(&mut path, b.to_owned());
        push_text(&mut path, c.to_owned());
        self.with(path)
    }

    /// The paths and one more, of four keys.
    pub fn four(self, a: &str, b: &str, c: &str, d: &str) -> (r: Self)
        ensures
            r@ == self@.four(a@, b@, c@, d@),
    {
        let mut path = no_texts();
        push_text(&mut path, a.to_owned());
        push_text(&mut path, b.to_owned());
        push_text(&mut path, c.to_owned());
        push_text(&mut path, d.to_owned());
        self.with(path)
    }
}

/// The value at the end of a path, if the path leads through the value.
pub open spec fn at_path(value: JsonValue, path: Seq<Seq<char>>) -> Option<JsonValue>
    decreases path.len(),
{
    if path.len() == 0 {
        Some(value)
    } else {
        match member(value, path[0]) {
            Some(next) => at_path(next, path.skip(1)),
            None => None,
        }
    }
}

/// The value at the end of a path, if the path leads through the value.
pub fn path_value<'a>(root: &'a Json, path: &Vec<String>) -> (r: Option<&'a Json>)
    ensures
        ref_value(r) == at_path(root@, texts(path@)),
{
    let ghost all = texts(path@);
    let mut current = root;
    let mut i: usize = 0;
    assert(all.skip(0) =~= all);
    while i < path.len()
        invariant
            i <= path.len(),
            all == texts(path@),
            at_path(root@, all) == at_path(current@, all.skip(i as int)),
        decreases path.len() - i,
    {
        assert(all.skip(i as int)[0] == path@[i as int]@);
        assert(all.skip(i as int).skip(1) =~= all.skip(i + 1));
        match current.get(path[i].as_str()) {
            Some(next) => {
                current = next;
            },
            None => {
                return None;
            },
        }
        i += 1;
    }
    assert(all.skip(i as int) =~= Seq::empty());
    Some(current)
}

/// The value at the end of the first path that leads through the value.
pub open spec fn at_first_path(value: JsonValue, paths: Seq<Seq<Seq<char>>>) -> Option<JsonValue>
    decreases paths.len(),
{
    if paths.len() == 0 {
        None
    } else {
        match at_path(value, paths[0]) {
            Some(found) => Some(found),
            None => at_first_path(value, paths.skip(1)),
        }
    }
}

/// The value at the end of the first path that leads through the value.
pub fn first_path_value<'a>(root: &'a Json, paths: &Paths) -> (r: Option<&'a Json>)
    ensures
        ref_value(r) == at_first_path(root@, paths@.list),
{
    let ghost all = paths@.list;
    let mut i: usize = 0;
    assert(all.skip(0) =~= all);
    while i < paths.list.len()
        invariant
            i <= paths.list.len(),
            all == paths@.list,
            at_first_path(root@, all) == at_first_path(root@, all.skip(i as int)),
        decreases paths.list.len() - i,
    {
        assert(all.skip(i as int)[0] == texts(paths.list@[i as int]@));
        assert(all.skip(i as int).skip(1) =~= all.skip(i + 1));
        let found = path_value(root, &paths.list[i]);
        if found.is_some() {
            return found;
        }
        i += 1;
    }
    assert(all.skip(i as int) =~= Seq::empty());
    None
}

proof fn lemma_key_index(keys: Seq<Seq<char>>, key: Seq<char>, from: int)
    requires
        0 <= from <= keys.len(),
    ensures
        match key_index(keys, key, from) {
            Some(i) => from <= i < keys.len() && keys[i] == key && forall|j: int|
                from <= j < i ==> #[trigger] keys[j] != key,
            None => forall|j: int| from <= j < keys.len() ==> #[trigger] keys[j] != key,
        },
    decreases keys.len() - from,
{
    if from < keys.len() {
        lemma_key_index(keys, key, from + 1);
    }
}

/// The member of an object under a key is the first value that stands under it; a value that is
/// no object has no members.
pub proof fn law_member(
    keys: Seq<Seq<char>>,
    values: Seq<JsonValue>,
    key: Seq<char>,
    other: JsonValue,
)
    requires
        keys.len() == values.len(),
    ensures
        match member(JsonValue::Object { keys, values }, key) {
            Some(value) => exists|i: int|
                0 <= i < keys.len() && #[trigger] keys[i] == key && values[i] == value && forall|
                    j: int,
                |
                    0 <= j < i ==> #[trigger] keys[j] != key,
            None => !keys.contains(key),
        },
        !(other is Object) ==> member(other, key) is None,
{
    lemma_key_index(keys, key, 0);
}

/// A path leads through members: what is found at a path is found, in the member under its first
/// part, at the rest of it; and of several paths the first that leads anywhere counts.
pub proof fn law_paths_lead_through_members(
    value: JsonValue,
    first: Seq<char>,
    rest: Seq<Seq<char>>,
    others: Seq<Seq<Seq<char>>>,
)
    ensures
        ({
            let path = seq![first] + rest;
            &&& at_path(value, path) == match member(value, first) {
                Some(inner) => at_path(inner, rest),
                None => None,
            }
            &&& at_path(value, Seq::empty()) == Some(value)
            &&& at_first_path(value, seq![path] + others) == match at_path(value, path) {
                Some(found) => Some(found),
                None => at_first_path(value, others),
            }
            &&& at_first_path(value, Seq::empty()) is None
        }),
{
    let path = seq![first] + rest;
    assert(path[0] == first);
    assert(path.skip(1) =~= rest);
    assert((seq![path] + others)[0] == path);
    assert((seq![path] + others).skip(1) =~= others);
}

} // verus!
