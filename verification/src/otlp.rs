//! Spans as OpenTelemetry exports them.

use crate::ingest::records::status_of;
use crate::json::Json;
use crate::json::JsonNumber;
use crate::json::JsonValue;
use crate::json::json_text;
use crate::json::lemma_json_view;
use crate::json::values_of;
use crate::json::write_json;
use crate::text::hex_char;
use crate::text::int_text;
use crate::text::integer_text;
use crate::text::is_less;
use crate::text::law_integer_text_reads_back;
use crate::text::law_text_order_is_total;
use crate::text::law_text_order_is_transitive;
use crate::text::nat_text;
use crate::text::opt_text;
use crate::text::parse_i64;
use crate::text::same;
use crate::text::text_less;
use crate::text::texts;
use crate::text::unsigned_text;
use vstd::prelude::*;
use vstd::string::StringExecFns;

verus! {

/// A value of an attribute.
#[derive(Debug, PartialEq, Eq)]
pub enum OtlpValue {
    Empty,
    Text(String),
    Bool(bool),
    Integer(i64),
    /// A floating-point number as JSON writes it, unless it is not finite.
    Double(Option<String>),
    Bytes(Vec<u8>),
    /// A text by its place in a table.
    TextIndex(i32),
    Array(Vec<OtlpValue>),
    KeyValues(Vec<OtlpAttribute>),
}

/// An attribute.
#[derive(Debug, PartialEq, Eq)]
pub struct OtlpAttribute {
    pub key: String,
    pub value: OtlpValue,
}

/// A span.
#[derive(Debug, PartialEq, Eq)]
pub struct OtlpSpan {
    pub trace_id: Vec<u8>,
    pub span_id: Vec<u8>,
    pub parent_span_id: Vec<u8>,
    pub name: String,
    pub start_time_unix_nano: u64,
    pub end_time_unix_nano: u64,
    pub status_code: Option<i32>,
    pub attributes: Vec<OtlpAttribute>,
}

/// The spans of one resource.
#[derive(Debug, PartialEq, Eq)]
pub struct OtlpResourceSpans {
    pub attributes: Vec<OtlpAttribute>,
    pub scope_spans: Vec<Vec<OtlpSpan>>,
}

/// A span as a record.
#[derive(Debug, PartialEq, Eq)]
pub struct SpanRecord {
    pub project_name: String,
    pub trace_id: String,
    pub span_id: String,
    pub parent_span_id: Option<String>,
    pub name: String,
    pub start_time_unix_nano: i64,
    pub end_time_unix_nano: i64,
    pub status_code: i32,
    pub attributes_json: String,
}

/// What a [`SpanRecord`] holds.
pub struct Span {
    pub project_name: Seq<char>,
    pub trace_id: Seq<char>,
    pub span_id: Seq<char>,
    pub parent_span_id: Option<Seq<char>>,
    pub name: Seq<char>,
    pub start: i64,
    pub end: i64,
    pub status_code: i32,
    pub attributes_json: Seq<char>,
}

impl View for SpanRecord {
    type V = Span;

    open spec fn view(&self) -> Span {
        Span {
            project_name: self.project_name@,
            trace_id: self.trace_id@,
            span_id: self.span_id@,
            parent_span_id: opt_text(self.parent_span_id),
            name: self.name@,
            start: self.start_time_unix_nano,
            end: self.end_time_unix_nano,
            status_code: self.status_code,
            attributes_json: self.attributes_json@,
        }
    }
}

/// Bytes in hexadecimal digits, two to a byte.
pub open spec fn hex_of(bytes: Seq<u8>) -> Seq<char>
    decreases bytes.len(),
{
    if bytes.len() == 0 {
        Seq::empty()
    } else {
        hex_of(bytes.drop_last()).push(hex_char(bytes.last() as int / 16)).push(
            hex_char(bytes.last() as int % 16),
        )
    }
}

/// `hex::encode`: each byte as two hexadecimal digits in lower case, the upper four
/// bits first.
#[verifier::external_body]
fn hex_encode(bytes: &Vec<u8>) -> (r: String)
    ensures
        r@ == hex_of(bytes@),
{
    hex::encode(bytes)
}

proof fn lemma_digits_are_told_apart(a: int, b: int)
    requires
        0 <= a < 16,
        0 <= b < 16,
        hex_char(a) == hex_char(b),
    ensures
        a == b,
{
}

/// Two ids that are written alike are alike.
pub proof fn law_ids_are_told_apart(a: Seq<u8>, b: Seq<u8>)
    requires
        hex_of(a) == hex_of(b),
    ensures
        a == b,
    decreases a.len(),
{
    let x = hex_of(a);
    let y = hex_of(b);
    if a.len() > 0 && b.len() > 0 {
        let last_a = a.last() as int;
        let last_b = b.last() as int;
        assert(x.last() == hex_char(last_a % 16));
        assert(y.last() == hex_char(last_b % 16));
        assert(x[x.len() - 2] == hex_char(last_a / 16));
        assert(y[y.len() - 2] == hex_char(last_b / 16));
        assert(x.take(x.len() - 2) =~= hex_of(a.drop_last()));
        assert(y.take(y.len() - 2) =~= hex_of(b.drop_last()));
        law_ids_are_told_apart(a.drop_last(), b.drop_last());
        lemma_digits_are_told_apart(last_a / 16, last_b / 16);
        lemma_digits_are_told_apart(last_a % 16, last_b % 16);
        assert(last_a == 16 * (last_a / 16) + last_a % 16);
        assert(last_b == 16 * (last_b / 16) + last_b % 16);
        assert(a.drop_last().push(a.last()) =~= a);
        assert(b.drop_last().push(b.last()) =~= b);
    } else {
        assert(a.len() == 0 <==> x.len() == 0);
        assert(b.len() == 0 <==> y.len() == 0);
        assert(a =~= b);
    }
}

/// A member of an object.
pub struct Member {
    pub key: Seq<char>,
    pub value: JsonValue,
}

/// The members with one more, in the order of keys. A value that was there is
/// replaced.
pub open spec fn with_member(members: Seq<Member>, key: Seq<char>, value: JsonValue) -> Seq<Member>
    decreases members.len(),
{
    if members.len() == 0 {
        seq![Member { key, value }]
    } else if text_less(key, members.last().key) {
        with_member(members.drop_last(), key, value).push(members.last())
    } else if key == members.last().key {
        members.drop_last().push(Member { key, value })
    } else {
        members.push(Member { key, value })
    }
}

/// Where a member goes: behind the last one whose key does not come after its own.
proof fn lemma_member_placed(members: Seq<Member>, at: int, key: Seq<char>, value: JsonValue)
    requires
        0 <= at <= members.len(),
        forall|k: int| at <= k < members.len() ==> text_less(key, (#[trigger] members[k]).key),
        at > 0 ==> !text_less(key, members[at - 1].key),
    ensures
        with_member(members, key, value) == if at > 0 && key == members[at - 1].key {
            members.update(at - 1, Member { key, value })
        } else {
            members.insert(at, Member { key, value })
        },
    decreases members.len(),
{
    let own = Member { key, value };
    if at < members.len() {
        let rest = members.drop_last();
        lemma_member_placed(rest, at, key, value);
        if at > 0 && key == members[at - 1].key {
            assert(rest.update(at - 1, own).push(members.last()) =~= members.update(at - 1, own));
        } else {
            assert(rest.insert(at, own).push(members.last()) =~= members.insert(at, own));
        }
    } else if members.len() > 0 {
        assert(members.drop_last().push(own) =~= members.update(at - 1, own));
        assert(members.push(own) =~= members.insert(at, own));
    } else {
        assert(seq![own] =~= members.insert(0, own));
    }
}

/// The members after those with these keys and values have come, one by one.
pub open spec fn with_members(
    members: Seq<Member>,
    prefix: Seq<char>,
    keys: Seq<Seq<char>>,
    values: Seq<JsonValue>,
    n: int,
) -> Seq<Member>
    decreases n,
{
    if n <= 0 {
        members
    } else {
        with_member(
            with_members(members, prefix, keys, values, n - 1),
            prefix + keys[n - 1],
            values[n - 1],
        )
    }
}

/// An object of members.
pub open spec fn object_of(members: Seq<Member>) -> JsonValue {
    JsonValue::Object {
        keys: members.map_values(|member: Member| member.key),
        values: members.map_values(|member: Member| member.value),
    }
}

pub open spec fn attribute_keys(attributes: Seq<OtlpAttribute>) -> Seq<Seq<char>> {
    attributes.map_values(|attribute: OtlpAttribute| attribute.key@)
}

/// The JSON value of a value.
pub open spec fn json_of(value: OtlpValue) -> JsonValue
    decreases value,
{
    match value {
        OtlpValue::Empty => JsonValue::Null,
        OtlpValue::Text(text) => JsonValue::Text(text@),
        OtlpValue::Bool(b) => JsonValue::Bool(b),
        OtlpValue::Integer(n) => JsonValue::Number { integer: Some(n), text: int_text(n as int) },
        OtlpValue::Double(Some(text)) => JsonValue::Number { integer: None, text: text@ },
        OtlpValue::Double(None) => JsonValue::Null,
        OtlpValue::Bytes(bytes) => JsonValue::Text(hex_of(bytes@)),
        OtlpValue::TextIndex(n) => JsonValue::Number {
            integer: Some(n as i64),
            text: int_text(n as int),
        },
        OtlpValue::Array(items) => JsonValue::Array(
            Seq::new(
                items@.len(),
                |i: int|
                    if 0 <= i < items@.len() {
                        json_of(items@[i])
                    } else {
                        arbitrary()
                    },
            ),
        ),
        OtlpValue::KeyValues(attributes) => object_of(
            with_members(
                Seq::empty(),
                Seq::empty(),
                attribute_keys(attributes@),
                attribute_values(attributes@),
                attributes@.len() as int,
            ),
        ),
    }
}

/// The JSON values of attributes.
pub open spec fn attribute_values(attributes: Seq<OtlpAttribute>) -> Seq<JsonValue>
    decreases attributes,
{
    if attributes.len() == 0 {
        Seq::empty()
    } else {
        attribute_values(attributes.subrange(0, attributes.len() - 1)).push(
            json_of(attributes[attributes.len() - 1].value),
        )
    }
}

/// There is a value for each attribute.
proof fn lemma_attribute_values(attributes: Seq<OtlpAttribute>)
    ensures
        attribute_values(attributes).len() == attributes.len(),
        forall|i: int|
            0 <= i < attributes.len() ==> #[trigger] attribute_values(attributes)[i] == json_of(
                attributes[i].value,
            ),
    decreases attributes.len(),
{
    if attributes.len() > 0 {
        lemma_attribute_values(attributes.subrange(0, attributes.len() - 1));
    }
}

/// The members after attributes have come, each under its key behind a prefix.
pub open spec fn with_attributes(
    members: Seq<Member>,
    prefix: Seq<char>,
    attributes: Seq<OtlpAttribute>,
) -> Seq<Member> {
    with_members(
        members,
        prefix,
        attribute_keys(attributes),
        attribute_values(attributes),
        attributes.len() as int,
    )
}

/// Members as they are put together.
struct Members {
    keys: Vec<String>,
    values: Vec<Json>,
}

impl View for Members {
    type V = Seq<Member>;

    closed spec fn view(&self) -> Seq<Member> {
        Seq::new(
            self.keys@.len(),
            |i: int| Member { key: self.keys@[i]@, value: self.values@[i]@ },
        )
    }
}

impl Members {
    spec fn is_valid(self) -> bool {
        self.keys@.len() == self.values@.len()
    }

    fn none() -> (r: Self)
        ensures
            r.is_valid(),
            r@ == Seq::<Member>::empty(),
    {
        let members = Members { keys: Vec::new(), values: Vec::new() };
        assert(members@ =~= Seq::<Member>::empty());
        members
    }

    fn put(&mut self, key: String, value: Json)
        requires
            old(self).is_valid(),
        ensures
            final(self).is_valid(),
            final(self)@ == with_member(old(self)@, key@, value@),
    {
        let ghost all = self@;
        let ghost own = Member { key: key@, value: value@ };
        let mut j: usize = self.keys.len();
        while j > 0 && is_less(key.as_str(), self.keys[j - 1].as_str())
            invariant
                j <= self.keys.len(),
                self.is_valid(),
                all == self@,
                *self == *old(self),
                forall|k: int| j <= k < all.len() ==> text_less(key@, (#[trigger] all[k]).key),
            decreases j,
        {
            assert(all[j - 1].key == self.keys@[j - 1]@);
            j -= 1;
        }
        assert(j > 0 ==> all[j - 1].key == self.keys@[j - 1]@);
        proof {
            lemma_member_placed(all, j as int, key@, value@);
        }
        if j > 0 && same(key.as_str(), self.keys[j - 1].as_str()) {
            self.values.set(j - 1, value);
            assert(self@ =~= all.update(j - 1, own));
        } else {
            self.keys.insert(j, key);
            self.values.insert(j, value);
            assert(self@ =~= all.insert(j as int, own));
        }
    }

    fn into_json(self) -> (r: Json)
        requires
            self.is_valid(),
        ensures
            r@ == object_of(self@),
    {
        let ghost members = self@;
        let object = Json::Object { keys: self.keys, values: self.values };
        proof {
            lemma_json_view(object);
            assert(texts(self.keys@) =~= members.map_values(|member: Member| member.key));
            assert(values_of(self.values@) =~= members.map_values(|member: Member| member.value));
        }
        object
    }
}

/// The JSON value of a value.
pub fn any_value_to_json(value: &OtlpValue) -> (r: Json)
    ensures
        r@ == json_of(*value),
    decreases value,
{
    match value {
        OtlpValue::Empty => Json::Null,
        OtlpValue::Text(text) => Json::Text(text.clone()),
        OtlpValue::Bool(b) => Json::Bool(*b),
        OtlpValue::Integer(n) => Json::Number(
            JsonNumber { integer: Some(*n), text: integer_text(*n) },
        ),
        OtlpValue::Double(Some(text)) => Json::Number(
            JsonNumber { integer: None, text: text.clone() },
        ),
        OtlpValue::Double(None) => Json::Null,
        OtlpValue::Bytes(bytes) => Json::Text(hex_encode(bytes)),
        OtlpValue::TextIndex(n) => Json::Number(
            JsonNumber { integer: Some(*n as i64), text: integer_text(*n as i64) },
        ),
        OtlpValue::Array(items) => {
            let ghost wanted = json_of(*value)->Array_0;
            let mut out: Vec<Json> = Vec::new();
            let mut i: usize = 0;
            while i < items.len()
                invariant
                    i <= items.len(),
                    *value == OtlpValue::Array(*items),
                    wanted == json_of(*value)->Array_0,
                    wanted.len() == items@.len(),
                    forall|k: int| 0 <= k < items@.len() ==> wanted[k] == json_of(#[trigger] items@[k]),
                    values_of(out@) =~= wanted.take(i as int),
                decreases items.len() - i,
            {
                let ghost before = out@;
                let item = any_value_to_json(&items[i]);
                assert(wanted[i as int] == json_of(items@[i as int]));
                out.push(item);
                assert(values_of(out@) =~= values_of(before).push(item@));
                i += 1;
            }
            let array = Json::Array(out);
            proof {
                lemma_json_view(array);
                assert(values_of(out@) =~= wanted);
            }
            array
        },
        OtlpValue::KeyValues(attributes) => {
            let ghost keys = attribute_keys(attributes@);
            let ghost values = attribute_values(attributes@);
            proof {
                lemma_attribute_values(attributes@);
            }
            let mut members = Members::none();
            let mut i: usize = 0;
            while i < attributes.len()
                invariant
                    i <= attributes.len(),
                    *value == OtlpValue::KeyValues(*attributes),
                    keys == attribute_keys(attributes@),
                    values == attribute_values(attributes@),
                    forall|k: int|
                        0 <= k < attributes@.len() ==> #[trigger] values[k] == json_of(
                            attributes@[k].value,
                        ),
                    members.is_valid(),
                    members@ == with_members(
                        Seq::empty(),
                        Seq::empty(),
                        keys,
                        values,
                        i as int,
                    ),
                decreases attributes.len() - i,
            {
                let attribute = &attributes[i];
                assert(decreases_to!(*value => value->KeyValues_0));
                assert(decreases_to!(attributes => attributes@[i as int]));
                assert(decreases_to!(*attribute => attribute.value));
                let item = any_value_to_json(&attribute.value);
                assert(Seq::<char>::empty() + keys[i as int] =~= attributes@[i as int].key@);
                members.put(attribute.key.clone(), item);
                i += 1;
            }
            members.into_json()
        },
    }
}

fn put_attributes(members: &mut Members, prefix: &str, attributes: &Vec<OtlpAttribute>)
    requires
        old(members).is_valid(),
    ensures
        final(members).is_valid(),
        final(members)@ == with_attributes(old(members)@, prefix@, attributes@),
{
    let ghost start = members@;
    let ghost keys = attribute_keys(attributes@);
    let ghost values = attribute_values(attributes@);
    proof {
        lemma_attribute_values(attributes@);
    }
    let mut i: usize = 0;
    while i < attributes.len()
        invariant
            i <= attributes.len(),
            keys == attribute_keys(attributes@),
            values == attribute_values(attributes@),
            forall|k: int|
                0 <= k < attributes@.len() ==> #[trigger] values[k] == json_of(
                    attributes@[k].value,
                ),
            members.is_valid(),
            members@ == with_members(start, prefix@, keys, values, i as int),
        decreases attributes.len() - i,
    {
        let item = any_value_to_json(&attributes[i].value);
        let mut key = prefix.to_owned();
        key.append(attributes[i].key.as_str());
        members.put(key, item);
        i += 1;
    }
}

/// The attributes of a span: those of its resource under their keys behind
/// `resource.`, and its own.
pub open spec fn span_members(resource: Seq<OtlpAttribute>, own: Seq<OtlpAttribute>) -> Seq<Member> {
    with_attributes(
        with_attributes(Seq::empty(), "resource."@, resource),
        Seq::empty(),
        own,
    )
}

/// Why bytes are no id, or the id.
pub open spec fn id_of(bytes: Seq<u8>, expected: int, field: Seq<char>) -> Result<
    Seq<char>,
    Seq<char>,
> {
    if bytes.len() != expected {
        Err(
            field + " must be "@ + nat_text(expected as nat) + " bytes, got "@ + nat_text(
                bytes.len(),
            ),
        )
    } else if forall|i: int| 0 <= i < bytes.len() ==> #[trigger] bytes[i] == 0 {
        Err(field + " must not be all zeroes"@)
    } else {
        Ok(hex_of(bytes))
    }
}

fn is_all_zeroes(bytes: &Vec<u8>) -> (r: bool)
    ensures
        r == forall|i: int| 0 <= i < bytes@.len() ==> #[trigger] bytes@[i] == 0,
{
    let mut i: usize = 0;
    while i < bytes.len()
        invariant
            i <= bytes.len(),
            forall|j: int| 0 <= j < i ==> #[trigger] bytes@[j] == 0,
        decreases bytes.len() - i,
    {
        if bytes[i] != 0 {
            return false;
        }
        i += 1;
    }
    true
}

/// The id that bytes write.
pub fn hex_id(bytes: &Vec<u8>, expected_len: usize, field: &str) -> (r: Result<String, String>)
    ensures
        match r {
            Ok(id) => id_of(bytes@, expected_len as int, field@) == Ok::<_, Seq<char>>(id@),
            Err(message) => id_of(bytes@, expected_len as int, field@) == Err::<Seq<char>, _>(
                message@,
            ),
        },
{
    if bytes.len() != expected_len {
        let mut message = field.to_owned();
        message.append(" must be ");
        message.append(unsigned_text(expected_len as u128).as_str());
        message.append(" bytes, got ");
        message.append(unsigned_text(bytes.len() as u128).as_str());
        return Err(message);
    }
    if is_all_zeroes(bytes) {
        let mut message = field.to_owned();
        message.append(" must not be all zeroes");
        return Err(message);
    }
    Ok(hex_encode(bytes))
}

/// A time as it is kept, or why it cannot be.
pub open spec fn time_of(nanos: u64, fault: Seq<char>) -> Result<i64, Seq<char>> {
    if nanos <= i64::MAX {
        Ok(nanos as i64)
    } else {
        Err(fault)
    }
}

/// The id of the parent, if there is one.
pub open spec fn parent_of(bytes: Seq<u8>) -> Result<Option<Seq<char>>, Seq<char>> {
    if bytes.len() == 0 {
        Ok(None)
    } else {
        match id_of(bytes, 8, "parent_span_id"@) {
            Ok(id) => Ok(Some(id)),
            Err(message) => Err(message),
        }
    }
}

/// The record of a span, or why there is none: the first fault counts.
pub open spec fn record_of(
    project_name: Seq<char>,
    resource: Seq<OtlpAttribute>,
    span: OtlpSpan,
) -> Result<Span, Seq<char>> {
    let trace_id = id_of(span.trace_id@, 16, "trace_id"@);
    let span_id = id_of(span.span_id@, 8, "span_id"@);
    let parent = parent_of(span.parent_span_id@);
    let start = time_of(
        span.start_time_unix_nano,
        "span start_time_unix_nano does not fit in postgres BIGINT"@,
    );
    let end = time_of(
        span.end_time_unix_nano,
        "span end_time_unix_nano does not fit in postgres BIGINT"@,
    );
    if trace_id is Err {
        Err(trace_id->Err_0)
    } else if span_id is Err {
        Err(span_id->Err_0)
    } else if parent is Err {
        Err(parent->Err_0)
    } else if start is Err {
        Err(start->Err_0)
    } else if end is Err {
        Err(end->Err_0)
    } else {
        Ok(
            Span {
                project_name,
                trace_id: trace_id->Ok_0,
                span_id: span_id->Ok_0,
                parent_span_id: parent->Ok_0,
                name: span.name@,
                start: start->Ok_0,
                end: end->Ok_0,
                status_code: match span.status_code {
                    Some(code) => code,
                    None => 0,
                },
                attributes_json: json_text(
                    object_of(span_members(resource, span.attributes@)),
                ),
            },
        )
    }
}

/// Whether bytes are an id: so many of them, and not all zeroes.
pub open spec fn is_id(bytes: Seq<u8>, count: int) -> bool {
    bytes.len() == count && exists|i: int| 0 <= i < bytes.len() && #[trigger] bytes[i] != 0
}

/// A span is taken in if and only if its ids are ids, a parent that it has among them, and
/// its times are in range. Its record has the status code of the span, whichever that is,
/// and none is zero; it has the span's name and times; and its ids are those of the span,
/// in hexadecimal digits.
pub proof fn law_record_is_of_its_span(
    project_name: Seq<char>,
    resource: Seq<OtlpAttribute>,
    span: OtlpSpan,
)
    ensures
        record_of(project_name, resource, span) is Ok <==> {
            &&& is_id(span.trace_id@, 16)
            &&& is_id(span.span_id@, 8)
            &&& span.parent_span_id@.len() == 0 || is_id(span.parent_span_id@, 8)
            &&& span.start_time_unix_nano <= i64::MAX
            &&& span.end_time_unix_nano <= i64::MAX
        },
        record_of(project_name, resource, span) matches Ok(record) ==> {
            &&& span.status_code is Some ==> record.status_code == span.status_code->0
            &&& span.status_code is None ==> record.status_code == 0
            &&& record.project_name == project_name
            &&& record.name == span.name@
            &&& record.start == span.start_time_unix_nano
            &&& record.end == span.end_time_unix_nano
            &&& record.trace_id == hex_of(span.trace_id@)
            &&& record.span_id == hex_of(span.span_id@)
            &&& span.parent_span_id@.len() == 0 ==> record.parent_span_id is None
            &&& span.parent_span_id@.len() > 0 ==> record.parent_span_id == Some(
                hex_of(span.parent_span_id@),
            )
        },
{
}

/// Two spans that are taken in have the same status code if and only if their records do,
/// and a span with the status of an error gives a run with that status.
pub proof fn law_status_is_kept(
    project_name: Seq<char>,
    resource: Seq<OtlpAttribute>,
    span: OtlpSpan,
    other: OtlpSpan,
)
    requires
        record_of(project_name, resource, span) is Ok,
        record_of(project_name, resource, other) is Ok,
        span.status_code is Some,
        other.status_code is Some,
    ensures
        ({
            let record = record_of(project_name, resource, span)->Ok_0;
            let second = record_of(project_name, resource, other)->Ok_0;
            &&& span.status_code == other.status_code <==> record.status_code
                == second.status_code
            &&& span.status_code == Some(2i32) ==> status_of(record.status_code, record.end)
                == "error"@
            &&& span.status_code == Some(1i32) && span.end_time_unix_nano > 0 ==> status_of(
                record.status_code,
                record.end,
            ) == "success"@
        }),
{
    law_record_is_of_its_span(project_name, resource, span);
    law_record_is_of_its_span(project_name, resource, other);
}

/// The records of spans are those of each of them, in order, and there are none if one of
/// them is not taken in.
pub proof fn law_records_are_of_their_spans(project_name: Seq<char>, spans: Seq<Exported>)
    ensures
        records_of(project_name, spans) is Ok <==> forall|i: int|
            0 <= i < spans.len() ==> record_of(
                project_name,
                (#[trigger] spans[i]).resource,
                spans[i].span,
            ) is Ok,
        records_of(project_name, spans) matches Ok(records) ==> {
            &&& records.len() == spans.len()
            &&& forall|i: int|
                0 <= i < spans.len() ==> record_of(
                    project_name,
                    (#[trigger] spans[i]).resource,
                    spans[i].span,
                ) == Ok::<Span, Seq<char>>(records[i])
        },
    decreases spans.len(),
{
    if spans.len() > 0 {
        let rest = spans.drop_last();
        let last = spans.len() - 1;
        law_records_are_of_their_spans(project_name, rest);
        assert forall|i: int| 0 <= i < rest.len() implies #[trigger] rest[i] == spans[i] by {}
        if records_of(project_name, spans) is Ok {
            let records = records_of(project_name, spans)->Ok_0;
            assert forall|i: int| 0 <= i < spans.len() implies record_of(
                project_name,
                (#[trigger] spans[i]).resource,
                spans[i].span,
            ) == Ok::<Span, Seq<char>>(records[i]) by {
                if i < last {
                    assert(rest[i] == spans[i]);
                }
            }
        } else if forall|i: int|
            0 <= i < spans.len() ==> record_of(
                project_name,
                (#[trigger] spans[i]).resource,
                spans[i].span,
            ) is Ok {
            assert forall|i: int| 0 <= i < rest.len() implies record_of(
                project_name,
                (#[trigger] rest[i]).resource,
                rest[i].span,
            ) is Ok by {
                assert(rest[i] == spans[i]);
            }
            assert(record_of(project_name, spans[last].resource, spans[last].span) is Ok);
        }
    }
}

/// The attributes of a span as an object.
pub fn span_attributes(resource: &Vec<OtlpAttribute>, own: &Vec<OtlpAttribute>) -> (r: Json)
    ensures
        r@ == object_of(span_members(resource@, own@)),
{
    let none = String::new();
    let mut members = Members::none();
    put_attributes(&mut members, "resource.", resource);
    put_attributes(&mut members, none.as_str(), own);
    members.into_json()
}

/// The record of a span.
pub fn span_record_from_span(
    project_name: &str,
    resource_attributes: &Vec<OtlpAttribute>,
    span: &OtlpSpan,
) -> (r: Result<SpanRecord, String>)
    ensures
        match r {
            Ok(record) => record_of(project_name@, resource_attributes@, *span) == Ok::<
                _,
                Seq<char>,
            >(record@),
            Err(message) => record_of(project_name@, resource_attributes@, *span) == Err::<
                Span,
                _,
            >(message@),
        },
        r matches Ok(record) ==> match span.status_code {
            Some(code) => record.status_code == code,
            None => record.status_code == 0,
        },
{
    let trace_id = match hex_id(&span.trace_id, 16, "trace_id") {
        Ok(id) => id,
        Err(message) => {
            return Err(message);
        },
    };
    let span_id = match hex_id(&span.span_id, 8, "span_id") {
        Ok(id) => id,
        Err(message) => {
            return Err(message);
        },
    };
    let parent_span_id = if span.parent_span_id.len() == 0 {
        None
    } else {
        match hex_id(&span.parent_span_id, 8, "parent_span_id") {
            Ok(id) => Some(id),
            Err(message) => {
                return Err(message);
            },
        }
    };
    if span.start_time_unix_nano > i64::MAX as u64 {
        return Err("span start_time_unix_nano does not fit in postgres BIGINT".to_owned());
    }
    if span.end_time_unix_nano > i64::MAX as u64 {
        return Err("span end_time_unix_nano does not fit in postgres BIGINT".to_owned());
    }
    let status_code: i32 = match span.status_code {
        Some(code) => code,
        None => 0,
    };
    let attributes = span_attributes(resource_attributes, &span.attributes);
    Ok(
        SpanRecord {
            project_name: project_name.to_owned(),
            trace_id,
            span_id,
            parent_span_id,
            name: span.name.clone(),
            start_time_unix_nano: span.start_time_unix_nano as i64,
            end_time_unix_nano: span.end_time_unix_nano as i64,
            status_code,
            attributes_json: write_json(&attributes),
        },
    )
}

/// A span, with the attributes of its resource.
pub struct Exported {
    pub resource: Seq<OtlpAttribute>,
    pub span: OtlpSpan,
}

/// The spans of one scope.
pub open spec fn exported_scope(resource: Seq<OtlpAttribute>, spans: Seq<OtlpSpan>) -> Seq<Exported> {
    spans.map_values(|span: OtlpSpan| Exported { resource, span })
}

/// The spans of several scopes, in order.
pub open spec fn exported_scopes(resource: Seq<OtlpAttribute>, scopes: Seq<Vec<OtlpSpan>>) -> Seq<
    Exported,
>
    decreases scopes.len(),
{
    if scopes.len() == 0 {
        Seq::empty()
    } else {
        exported_scopes(resource, scopes.drop_last()) + exported_scope(resource, scopes.last()@)
    }
}

/// The spans of an export, in order.
pub open spec fn exported(request: Seq<OtlpResourceSpans>) -> Seq<Exported>
    decreases request.len(),
{
    if request.len() == 0 {
        Seq::empty()
    } else {
        exported(request.drop_last()) + exported_scopes(
            request.last().attributes@,
            request.last().scope_spans@,
        )
    }
}

/// The records of spans, in order, or why there are none: the first fault counts.
pub open spec fn records_of(project_name: Seq<char>, spans: Seq<Exported>) -> Result<
    Seq<Span>,
    Seq<char>,
>
    decreases spans.len(),
{
    if spans.len() == 0 {
        Ok(Seq::empty())
    } else {
        match records_of(project_name, spans.drop_last()) {
            Ok(before) => match record_of(
                project_name,
                spans.last().resource,
                spans.last().span,
            ) {
                Ok(record) => Ok(before.push(record)),
                Err(message) => Err(message),
            },
            Err(message) => Err(message),
        }
    }
}

/// A fault in the first spans is a fault of all.
proof fn lemma_first_fault(project_name: Seq<char>, spans: Seq<Exported>, more: Seq<Exported>)
    requires
        records_of(project_name, spans) is Err,
    ensures
        records_of(project_name, spans + more) == records_of(project_name, spans),
    decreases more.len(),
{
    if more.len() == 0 {
        assert(spans + more =~= spans);
    } else {
        lemma_first_fault(project_name, spans, more.drop_last());
        assert((spans + more).drop_last() =~= spans + more.drop_last());
    }
}

pub open spec fn span_views(records: Seq<SpanRecord>) -> Seq<Span> {
    records.map_values(|record: SpanRecord| record@)
}

fn push_scope(
    out: &mut Vec<SpanRecord>,
    project_name: &str,
    resource: &Vec<OtlpAttribute>,
    spans: &Vec<OtlpSpan>,
    Ghost(done): Ghost<Seq<Exported>>,
) -> (r: Result<(), String>)
    requires
        records_of(project_name@, done) == Ok::<_, Seq<char>>(span_views(old(out)@)),
    ensures
        match r {
            Ok(_) => records_of(project_name@, done + exported_scope(resource@, spans@)) == Ok::<
                _,
                Seq<char>,
            >(span_views(final(out)@)),
            Err(message) => records_of(project_name@, done + exported_scope(resource@, spans@))
                == Err::<Seq<Span>, _>(message@),
        },
{
    let ghost all = exported_scope(resource@, spans@);
    let mut i: usize = 0;
    assert(done + all.take(0) =~= done);
    while i < spans.len()
        invariant
            i <= spans.len(),
            all == exported_scope(resource@, spans@),
            records_of(project_name@, done + all.take(i as int)) == Ok::<_, Seq<char>>(
                span_views(out@),
            ),
        decreases spans.len() - i,
    {
        let ghost now = done + all.take(i + 1);
        assert(now.drop_last() =~= done + all.take(i as int));
        assert(now.last() == all[i as int]);
        match span_record_from_span(project_name, resource, &spans[i]) {
            Ok(record) => {
                let ghost before = out@;
                out.push(record);
                assert(span_views(out@) =~= span_views(before).push(record@));
            },
            Err(message) => {
                proof {
                    lemma_first_fault(project_name@, now, all.skip(i + 1));
                    assert(now + all.skip(i + 1) =~= done + all);
                }
                return Err(message);
            },
        }
        i += 1;
    }
    assert(all.take(i as int) =~= all);
    Ok(())
}

/// The records of the spans of an export, in order.
pub fn span_records_from_export(project_name: &str, request: &Vec<OtlpResourceSpans>) -> (r: Result<
    Vec<SpanRecord>,
    String,
>)
    ensures
        match r {
            Ok(records) => records_of(project_name@, exported(request@)) == Ok::<_, Seq<char>>(
                span_views(records@),
            ),
            Err(message) => records_of(project_name@, exported(request@)) == Err::<Seq<Span>, _>(
                message@,
            ),
        },
{
    let mut out: Vec<SpanRecord> = Vec::new();
    let mut i: usize = 0;
    assert(request@.take(0) =~= Seq::<OtlpResourceSpans>::empty());
    assert(span_views(out@) =~= Seq::<Span>::empty());
    while i < request.len()
        invariant
            i <= request.len(),
            records_of(project_name@, exported(request@.take(i as int))) == Ok::<_, Seq<char>>(
                span_views(out@),
            ),
        decreases request.len() - i,
    {
        let ghost before = exported(request@.take(i as int));
        assert(request@.take(i + 1).drop_last() =~= request@.take(i as int));
        let group = &request[i];
        let scopes = &group.scope_spans;
        let ghost resource = group.attributes@;
        let mut j: usize = 0;
        assert(scopes@.take(0) =~= Seq::<Vec<OtlpSpan>>::empty());
        assert(before + Seq::<Exported>::empty() =~= before);
        while j < scopes.len()
            invariant
                i < request.len(),
                j <= scopes.len(),
                *scopes == request@[i as int].scope_spans,
                resource == request@[i as int].attributes@,
                *group == request@[i as int],
                before == exported(request@.take(i as int)),
                exported(request@.take(i + 1)) == before + exported_scopes(resource, scopes@),
                records_of(
                    project_name@,
                    before + exported_scopes(resource, scopes@.take(j as int)),
                ) == Ok::<_, Seq<char>>(span_views(out@)),
            decreases scopes.len() - j,
        {
            let ghost done = before + exported_scopes(resource, scopes@.take(j as int));
            assert(scopes@.take(j + 1).drop_last() =~= scopes@.take(j as int));
            let ghost own = exported_scope(resource, scopes@[j as int]@);
            assert(before + exported_scopes(resource, scopes@.take(j + 1)) =~= done + own);
            match push_scope(
                &mut out,
                project_name,
                &group.attributes,
                &scopes[j],
                Ghost(done),
            ) {
                Ok(_) => {},
                Err(message) => {
                    proof {
                        lemma_scopes_split(resource, scopes@, j + 1);
                        let later = exported_scopes(resource, scopes@.skip(j + 1));
                        lemma_first_fault(project_name@, done + own, later);
                        assert(exported(request@.take(i + 1)) =~= (done + own) + later);
                        lemma_export_split(request@, i + 1);
                        let rest = exported(request@.skip(i + 1));
                        lemma_first_fault(project_name@, exported(request@.take(i + 1)), rest);
                    }
                    return Err(message);
                },
            }
            j += 1;
        }
        assert(scopes@.take(j as int) =~= scopes@);
        i += 1;
    }
    assert(request@.take(i as int) =~= request@);
    Ok(out)
}

proof fn lemma_scopes_split(resource: Seq<OtlpAttribute>, scopes: Seq<Vec<OtlpSpan>>, n: int)
    requires
        0 <= n <= scopes.len(),
    ensures
        exported_scopes(resource, scopes) == exported_scopes(resource, scopes.take(n))
            + exported_scopes(resource, scopes.skip(n)),
    decreases scopes.len(),
{
    if n == scopes.len() {
        assert(scopes.take(n) =~= scopes);
        assert(scopes.skip(n) =~= Seq::empty());
        assert(exported_scopes(resource, scopes) =~= exported_scopes(resource, scopes.take(n))
            + exported_scopes(resource, scopes.skip(n)));
    } else {
        lemma_scopes_split(resource, scopes.drop_last(), n);
        assert(scopes.drop_last().take(n) =~= scopes.take(n));
        assert(scopes.skip(n).drop_last() =~= scopes.drop_last().skip(n));
        assert(exported_scopes(resource, scopes) =~= exported_scopes(resource, scopes.take(n))
            + exported_scopes(resource, scopes.skip(n)));
    }
}

proof fn lemma_export_split(request: Seq<OtlpResourceSpans>, n: int)
    requires
        0 <= n <= request.len(),
    ensures
        exported(request) == exported(request.take(n)) + exported(request.skip(n)),
    decreases request.len(),
{
    if n == request.len() {
        assert(request.take(n) =~= request);
        assert(request.skip(n) =~= Seq::empty());
        assert(exported(request) =~= exported(request.take(n)) + exported(request.skip(n)));
    } else {
        lemma_export_split(request.drop_last(), n);
        assert(request.drop_last().take(n) =~= request.take(n));
        assert(request.skip(n).drop_last() =~= request.drop_last().skip(n));
        assert(exported(request) =~= exported(request.take(n)) + exported(request.skip(n)));
    }
}

/// Whether the keys of members go up.
pub open spec fn keys_ascend(members: Seq<Member>) -> bool {
    forall|i: int, j: int|
        0 <= i < j < members.len() ==> text_less(
            (#[trigger] members[i]).key,
            (#[trigger] members[j]).key,
        )
}

/// Whether a key has a value.
pub open spec fn holds(members: Seq<Member>, key: Seq<char>, value: JsonValue) -> bool {
    members.contains(Member { key, value })
}

proof fn lemma_with_member(members: Seq<Member>, key: Seq<char>, value: JsonValue)
    requires
        keys_ascend(members),
    ensures
        keys_ascend(with_member(members, key, value)),
        holds(with_member(members, key, value), key, value),
        forall|other: Member|
            other.key != key && members.contains(other) ==> #[trigger] with_member(
                members,
                key,
                value,
            ).contains(other),
        forall|other: Member| #[trigger]
            with_member(members, key, value).contains(other) ==> members.contains(other) || other
                == (Member { key, value }),
    decreases members.len(),
{
    let own = Member { key, value };
    let now = with_member(members, key, value);
    if members.len() == 0 {
        assert(now[0] == own);
    } else {
        let last = members.last();
        let before = members.drop_last();
        assert forall|other: Member| members.contains(other) implies other == last
            || before.contains(other) by {
            let i = members.index_of(other);
            assert(members[i] == other);
            if i < members.len() - 1 {
                assert(before[i] == other);
            }
        }
        assert forall|other: Member| before.contains(other) implies text_less(other.key, last.key)
            && members.contains(other) by {
            let i = before.index_of(other);
            assert(members[i] == other);
            assert(text_less(members[i].key, members[members.len() - 1].key));
        }
        if text_less(key, last.key) {
            lemma_with_member(before, key, value);
            let first = with_member(before, key, value);
            assert forall|other: Member| now.contains(other) implies first.contains(other) || other
                == last by {
                let i = now.index_of(other);
                if i < first.len() {
                    assert(first[i] == other);
                }
            }
            assert forall|other: Member| first.contains(other) || other == last implies now.contains(
                other,
            ) by {
                if first.contains(other) {
                    assert(now[first.index_of(other)] == other);
                } else {
                    assert(now[first.len() as int] == other);
                }
            }
            assert(members[members.len() - 1] == last);
            assert forall|i: int, j: int| 0 <= i < j < now.len() implies text_less(
                (#[trigger] now[i]).key,
                (#[trigger] now[j]).key,
            ) by {
                assert(first.contains(first[i]));
                if j < first.len() {
                    assert(text_less(first[i].key, first[j].key));
                }
            }
        } else {
            law_text_order_is_total(key, last.key);
            let kept = if key == last.key {
                before
            } else {
                members
            };
            assert(now == kept.push(own));
            assert forall|other: Member| now.contains(other) implies members.contains(other)
                || other == own by {
                let i = now.index_of(other);
                if i < kept.len() {
                    assert(members[i] == other);
                }
            }
            assert(now[kept.len() as int] == own);
            assert forall|other: Member| kept.contains(other) implies now.contains(other) by {
                assert(now[kept.index_of(other)] == other);
            }
            assert forall|i: int, j: int| 0 <= i < j < now.len() implies text_less(
                (#[trigger] now[i]).key,
                (#[trigger] now[j]).key,
            ) by {
                assert(now[i] == members[i]);
                if j < kept.len() {
                    assert(now[j] == members[j]);
                } else if i < members.len() - 1 {
                    assert(text_less(members[i].key, members[members.len() - 1].key));
                    if key != last.key {
                        law_text_order_is_transitive(members[i].key, last.key, key);
                    }
                }
            }
        }
    }
}

proof fn lemma_with_members(
    members: Seq<Member>,
    prefix: Seq<char>,
    keys: Seq<Seq<char>>,
    values: Seq<JsonValue>,
    n: int,
)
    requires
        keys_ascend(members),
        0 <= n <= keys.len(),
    ensures
        keys_ascend(with_members(members, prefix, keys, values, n)),
        forall|i: int|
            0 <= i < n && (forall|j: int|
                i < j < n ==> prefix + #[trigger] keys[j] != prefix + keys[i]) ==> #[trigger] holds(
                with_members(members, prefix, keys, values, n),
                prefix + keys[i],
                values[i],
            ),
        forall|other: Member|
            members.contains(other) && (forall|j: int|
                0 <= j < n ==> prefix + #[trigger] keys[j] != other.key)
                ==> #[trigger] with_members(members, prefix, keys, values, n).contains(other),
    decreases n,
{
    if n > 0 {
        lemma_with_members(members, prefix, keys, values, n - 1);
        let before = with_members(members, prefix, keys, values, n - 1);
        lemma_with_member(before, prefix + keys[n - 1], values[n - 1]);
        let now = with_members(members, prefix, keys, values, n);
        assert forall|i: int|
            0 <= i < n && (forall|j: int|
                i < j < n ==> prefix + #[trigger] keys[j] != prefix
                    + keys[i]) implies #[trigger] holds(now, prefix + keys[i], values[i]) by {
            if i < n - 1 {
                assert(prefix + keys[n - 1] != prefix + keys[i]);
                assert(holds(before, prefix + keys[i], values[i]));
            }
        }
        assert forall|other: Member|
            members.contains(other) && (forall|j: int|
                0 <= j < n ==> prefix + #[trigger] keys[j]
                    != other.key) implies #[trigger] now.contains(other) by {
            assert(prefix + keys[n - 1] != other.key);
            assert(before.contains(other));
        }
    }
}

/// The attributes of a record stand in the order of their keys, each key once.
pub proof fn law_attributes_are_ordered(resource: Seq<OtlpAttribute>, own: Seq<OtlpAttribute>)
    ensures
        keys_ascend(span_members(resource, own)),
{
    let keys = attribute_keys(resource);
    let values = attribute_values(resource);
    lemma_with_members(Seq::empty(), "resource."@, keys, values, keys.len() as int);
    lemma_with_members(
        with_attributes(Seq::empty(), "resource."@, resource),
        Seq::empty(),
        attribute_keys(own),
        attribute_values(own),
        own.len() as int,
    );
}

/// An attribute of a span stands in its record under its key, unless a later one of
/// the span has that key.
pub proof fn law_own_attribute_is_kept(
    resource: Seq<OtlpAttribute>,
    own: Seq<OtlpAttribute>,
    i: int,
)
    requires
        0 <= i < own.len(),
        forall|j: int| i < j < own.len() ==> (#[trigger] own[j]).key@ != own[i].key@,
    ensures
        holds(span_members(resource, own), own[i].key@, json_of(own[i].value)),
{
    law_attributes_are_ordered(resource, Seq::empty());
    let members = with_attributes(Seq::empty(), "resource."@, resource);
    assert(members == span_members(resource, Seq::empty()));
    let keys = attribute_keys(own);
    let none = Seq::<char>::empty();
    lemma_attribute_values(own);
    lemma_with_members(members, none, keys, attribute_values(own), own.len() as int);
    assert(none + keys[i] =~= own[i].key@);
    assert forall|j: int| i < j < own.len() implies none + #[trigger] keys[j] != none + keys[i] by {
        assert(none + keys[j] =~= own[j].key@);
    }
    assert(attribute_values(own)[i] == json_of(own[i].value));
    assert(holds(span_members(resource, own), none + keys[i], attribute_values(own)[i]));
}

/// An attribute of a resource stands in the record of each of its spans under its key
/// behind `resource.`, unless a later one of the resource has that key or an attribute
/// of the span has the longer one.
pub proof fn law_resource_attribute_is_kept(
    resource: Seq<OtlpAttribute>,
    own: Seq<OtlpAttribute>,
    i: int,
)
    requires
        0 <= i < resource.len(),
        forall|j: int| i < j < resource.len() ==> (#[trigger] resource[j]).key@ != resource[i].key@,
        forall|j: int|
            0 <= j < own.len() ==> (#[trigger] own[j]).key@ != "resource."@ + resource[i].key@,
    ensures
        holds(
            span_members(resource, own),
            "resource."@ + resource[i].key@,
            json_of(resource[i].value),
        ),
{
    let prefix = "resource."@;
    let keys = attribute_keys(resource);
    let values = attribute_values(resource);
    lemma_attribute_values(resource);
    lemma_with_members(Seq::empty(), prefix, keys, values, keys.len() as int);
    let members = with_attributes(Seq::empty(), prefix, resource);
    assert forall|j: int| i < j < keys.len() implies prefix + #[trigger] keys[j] != prefix
        + keys[i] by {
        if prefix + keys[j] == prefix + keys[i] {
            assert((prefix + keys[j]).skip(prefix.len() as int) =~= keys[j]);
            assert((prefix + keys[i]).skip(prefix.len() as int) =~= keys[i]);
            assert(resource[j].key@ == resource[i].key@);
        }
    }
    assert(holds(members, prefix + keys[i], values[i]));
    let own_keys = attribute_keys(own);
    let none = Seq::<char>::empty();
    lemma_with_members(members, none, own_keys, attribute_values(own), own.len() as int);
    let member = Member { key: prefix + keys[i], value: values[i] };
    assert forall|j: int| 0 <= j < own.len() implies none + #[trigger] own_keys[j] != member.key by {
        assert(none + own_keys[j] =~= own[j].key@);
    }
    assert(span_members(resource, own).contains(member));
}

/// What a hexadecimal digit counts.
pub open spec fn digit_value(c: char) -> int {
    if '0' <= c <= '9' {
        c as int - '0' as int
    } else if 'a' <= c <= 'f' {
        c as int - 'a' as int + 10
    } else {
        -1
    }
}

/// An id is written with two hexadecimal digits for each byte, the higher one first.
pub proof fn law_ids_are_hexadecimal(bytes: Seq<u8>, i: int)
    requires
        0 <= i < bytes.len(),
    ensures
        hex_of(bytes).len() == 2 * bytes.len(),
        0 <= digit_value(hex_of(bytes)[2 * i]) < 16,
        0 <= digit_value(hex_of(bytes)[2 * i + 1]) < 16,
        16 * digit_value(hex_of(bytes)[2 * i]) + digit_value(hex_of(bytes)[2 * i + 1]) == bytes[i],
    decreases bytes.len(),
{
    let before = bytes.drop_last();
    let last = bytes.last();
    if before.len() > 0 {
        law_ids_are_hexadecimal(
            before,
            if i < before.len() {
                i
            } else {
                0
            },
        );
    } else {
        assert(hex_of(before).len() == 0);
    }
    if i < before.len() {
        assert(hex_of(bytes)[2 * i] == hex_of(before)[2 * i]);
        assert(hex_of(bytes)[2 * i + 1] == hex_of(before)[2 * i + 1]);
    } else {
        assert(hex_of(bytes)[2 * i] == hex_char(last as int / 16));
        assert(hex_of(bytes)[2 * i + 1] == hex_char(last as int % 16));
    }
}

/// A value is kept as what it is: a text as a text, a number as a number, a list as a list of as
/// many, each kept so, and bytes as they are written.
pub proof fn law_values_are_kept(value: OtlpValue)
    ensures
        match value {
            OtlpValue::Text(text) => json_of(value) == JsonValue::Text(text@),
            OtlpValue::Bool(b) => json_of(value) == JsonValue::Bool(b),
            OtlpValue::Integer(n) => json_of(value) matches JsonValue::Number { integer, text }
                && integer == Some(n) && parse_i64(text) == Some(n),
            OtlpValue::Double(Some(digits)) => json_of(value) matches JsonValue::Number {
                integer,
                text,
            } && integer is None && text == digits@,
            OtlpValue::Bytes(bytes) => json_of(value) == JsonValue::Text(hex_of(bytes@)),
            OtlpValue::Array(items) => json_of(value) matches JsonValue::Array(kept) && kept.len()
                == items@.len() && forall|i: int|
                0 <= i < items@.len() ==> #[trigger] kept[i] == json_of(items@[i]),
            OtlpValue::KeyValues(attributes) => json_of(value) == object_of(
                with_attributes(Seq::empty(), Seq::empty(), attributes@),
            ),
            OtlpValue::Empty | OtlpValue::Double(None) => json_of(value) == JsonValue::Null,
            OtlpValue::TextIndex(n) => json_of(value) matches JsonValue::Number { integer, text }
                && integer == Some(n as i64) && parse_i64(text) == Some(n as i64),
        },
{
    match value {
        OtlpValue::Integer(n) => {
            law_integer_text_reads_back(n);
        },
        OtlpValue::TextIndex(n) => {
            law_integer_text_reads_back(n as i64);
        },
        _ => {},
    }
}

/// Whether a span is one of a resource of a request.
pub open spec fn is_span_of(
    request: Seq<OtlpResourceSpans>,
    resource: Seq<OtlpAttribute>,
    span: OtlpSpan,
) -> bool {
    exists|r: int, s: int, k: int|
        {
            &&& 0 <= r < request.len()
            &&& 0 <= s < request[r].scope_spans@.len()
            &&& 0 <= k < request[r].scope_spans@[s]@.len()
            &&& request[r].attributes@ == resource
            &&& #[trigger] request[r].scope_spans@[s]@[k] == span
        }
}

proof fn lemma_exported_scopes(
    resource: Seq<OtlpAttribute>,
    scopes: Seq<Vec<OtlpSpan>>,
    one: Exported,
)
    ensures
        exported_scopes(resource, scopes).contains(one) <==> one.resource == resource && exists|
            s: int,
            k: int,
        |
            0 <= s < scopes.len() && 0 <= k < scopes[s]@.len() && #[trigger] scopes[s]@[k]
                == one.span,
    decreases scopes.len(),
{
    if scopes.len() > 0 {
        let before = scopes.drop_last();
        let last = scopes.len() - 1;
        let rest = exported_scopes(resource, before);
        let more = exported_scope(resource, scopes.last()@);
        let all = exported_scopes(resource, scopes);
        lemma_exported_scopes(resource, before, one);
        if all.contains(one) {
            let n = choose|n: int| 0 <= n < all.len() && all[n] == one;
            if n < rest.len() {
                assert(rest[n] == one);
                assert(rest.contains(one));
                let (s, k) = choose|s: int, k: int|
                    0 <= s < before.len() && 0 <= k < before[s]@.len() && #[trigger] before[s]@[k]
                        == one.span;
                assert(scopes[s]@[k] == one.span);
            } else {
                let k = n - rest.len();
                assert(more[k] == one);
                assert(scopes[last]@[k] == one.span);
            }
        }
        if one.resource == resource && exists|s: int, k: int|
            0 <= s < scopes.len() && 0 <= k < scopes[s]@.len() && #[trigger] scopes[s]@[k]
                == one.span {
            let (s, k) = choose|s: int, k: int|
                0 <= s < scopes.len() && 0 <= k < scopes[s]@.len() && #[trigger] scopes[s]@[k]
                    == one.span;
            if s < last {
                assert(before[s]@[k] == one.span);
                assert(rest.contains(one));
                let n = choose|n: int| 0 <= n < rest.len() && rest[n] == one;
                assert(all[n] == one);
            } else {
                assert(more[k] == one);
                assert(all[rest.len() + k] == one);
            }
        }
    }
}

/// The spans of a request are those of all its resources, each with the attributes of its own.
pub proof fn law_all_spans_are_exported(request: Seq<OtlpResourceSpans>, one: Exported)
    ensures
        exported(request).contains(one) <==> is_span_of(request, one.resource, one.span),
    decreases request.len(),
{
    if request.len() > 0 {
        let before = request.drop_last();
        let last = request.len() - 1;
        let own = request.last();
        let rest = exported(before);
        let more = exported_scopes(own.attributes@, own.scope_spans@);
        let all = exported(request);
        law_all_spans_are_exported(before, one);
        lemma_exported_scopes(own.attributes@, own.scope_spans@, one);
        if all.contains(one) {
            let n = choose|n: int| 0 <= n < all.len() && all[n] == one;
            if n < rest.len() {
                assert(rest[n] == one);
                assert(rest.contains(one));
                let (r, s, k) = choose|r: int, s: int, k: int|
                    {
                        &&& 0 <= r < before.len()
                        &&& 0 <= s < before[r].scope_spans@.len()
                        &&& 0 <= k < before[r].scope_spans@[s]@.len()
                        &&& before[r].attributes@ == one.resource
                        &&& #[trigger] before[r].scope_spans@[s]@[k] == one.span
                    };
                assert(request[r].scope_spans@[s]@[k] == one.span);
            } else {
                assert(more[n - rest.len()] == one);
                assert(more.contains(one));
                let (s, k) = choose|s: int, k: int|
                    0 <= s < own.scope_spans@.len() && 0 <= k < own.scope_spans@[s]@.len()
                        && #[trigger] own.scope_spans@[s]@[k] == one.span;
                assert(request[last].scope_spans@[s]@[k] == one.span);
            }
        }
        if is_span_of(request, one.resource, one.span) {
            let (r, s, k) = choose|r: int, s: int, k: int|
                {
                    &&& 0 <= r < request.len()
                    &&& 0 <= s < request[r].scope_spans@.len()
                    &&& 0 <= k < request[r].scope_spans@[s]@.len()
                    &&& request[r].attributes@ == one.resource
                    &&& #[trigger] request[r].scope_spans@[s]@[k] == one.span
                };
            if r < last {
                assert(before[r].scope_spans@[s]@[k] == one.span);
                assert(rest.contains(one));
                let n = choose|n: int| 0 <= n < rest.len() && rest[n] == one;
                assert(all[n] == one);
            } else {
                assert(own.scope_spans@[s]@[k] == one.span);
                assert(more.contains(one));
                let n = choose|n: int| 0 <= n < more.len() && more[n] == one;
                assert(all[rest.len() + n] == one);
            }
        }
    }
}

} // verus!
