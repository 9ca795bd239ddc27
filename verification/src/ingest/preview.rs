//! Short texts that show what went into a run and what came out of it.

use crate::json::Json;
use crate::json::JsonValue;
use crate::json::PathList;
use crate::json::Paths;
use crate::json::at_first_path;
use crate::json::at_path;
use crate::json::first_path_value;
use crate::json::json_reading;
use crate::json::json_text;
use crate::json::key_index;
use crate::json::lemma_json_view;
use crate::json::member;
use crate::json::no_paths;
use crate::json::position;
use crate::json::read_json;
use crate::json::values_of;
use crate::json::write_json;
use crate::metrics::first_token_time_paths;
use crate::metrics::paths_to_first_token_time;
use crate::metrics::time_in;
use crate::metrics::timestamp_unix_nanos;
use crate::text::byte_len;
use crate::text::clipped;
use crate::text::law_clipped_is_bounded;
use crate::text::no_texts;
use crate::text::opt_text;
use crate::text::push_text;
use crate::text::texts;
use crate::text::trim;
use crate::text::trimmed;
use crate::text::truncate_utf8;
use vstd::prelude::*;

verus! {

/// How long a preview may be, in bytes.
pub const MAX_PREVIEW_BYTES: usize = 512;

/// What is shown of a run.
#[derive(Debug, PartialEq, Eq)]
pub struct RunPreview {
    pub inputs_preview: Option<String>,
    pub outputs_preview: Option<String>,
    pub error_preview: Option<String>,
    pub first_token_time_unix_nano: Option<i64>,
}

/// What a [`RunPreview`] holds.
pub struct Preview {
    pub inputs: Option<Seq<char>>,
    pub outputs: Option<Seq<char>>,
    pub error: Option<Seq<char>>,
    pub first_token_time: Option<i64>,
}

impl View for RunPreview {
    type V = Preview;

    open spec fn view(&self) -> Preview {
        Preview {
            inputs: opt_text(self.inputs_preview),
            outputs: opt_text(self.outputs_preview),
            error: opt_text(self.error_preview),
            first_token_time: self.first_token_time_unix_nano,
        }
    }
}

/// A text as it is shown: without white space around it, and clipped. Nothing is
/// shown of an empty one.
pub open spec fn shown(text: Seq<char>) -> Option<Seq<char>> {
    if trim(text).len() == 0 {
        None
    } else {
        Some(clipped(trim(text), MAX_PREVIEW_BYTES as int))
    }
}

/// The first of two that there is.
pub open spec fn or_else<T>(first: Option<T>, second: Option<T>) -> Option<T> {
    match first {
        Some(x) => Some(x),
        None => second,
    }
}

/// A value as it is shown: a text as it is, another value as compact JSON.
pub open spec fn value_shown(value: JsonValue) -> Option<Seq<char>> {
    match value {
        JsonValue::Text(text) => shown(text),
        JsonValue::Number { integer, text } => shown(text),
        JsonValue::Bool(b) => shown(
            if b {
                "true"@
            } else {
                "false"@
            },
        ),
        JsonValue::Array(_) => shown(json_text(value)),
        JsonValue::Object { keys, values } => shown(json_text(value)),
        JsonValue::Null => None,
    }
}

/// A text as it is shown. Nothing is shown of another value.
pub open spec fn text_shown(value: JsonValue) -> Option<Seq<char>> {
    match value {
        JsonValue::Text(text) => shown(text),
        _ => None,
    }
}

/// A part of a message: a text, or an object with a text.
pub open spec fn part_shown(part: JsonValue) -> Option<Seq<char>> {
    match text_shown(part) {
        Some(text) => Some(text),
        None => match member(part, "text"@) {
            Some(value) => text_shown(value),
            None => None,
        },
    }
}

/// The first part of a message that shows something.
pub open spec fn first_part_shown(parts: Seq<JsonValue>) -> Option<Seq<char>>
    decreases parts.len(),
{
    if parts.len() == 0 {
        None
    } else {
        match part_shown(parts[0]) {
            Some(text) => Some(text),
            None => first_part_shown(parts.skip(1)),
        }
    }
}

/// The content of a message: a text, or parts.
pub open spec fn content_shown(content: JsonValue) -> Option<Seq<char>> {
    match content {
        JsonValue::Text(text) => shown(text),
        JsonValue::Array(parts) => first_part_shown(parts),
        _ => None,
    }
}

/// A message: a text, or an object with a content.
pub open spec fn message_shown(message: JsonValue) -> Option<Seq<char>> {
    match message {
        JsonValue::Text(text) => shown(text),
        JsonValue::Object { keys, values } => match member(message, "content"@) {
            Some(content) => content_shown(content),
            None => None,
        },
        _ => None,
    }
}

/// The last message that shows something.
pub open spec fn last_message_shown(messages: Seq<JsonValue>) -> Option<Seq<char>>
    decreases messages.len(),
{
    if messages.len() == 0 {
        None
    } else {
        match message_shown(messages.last()) {
            Some(text) => Some(text),
            None => last_message_shown(messages.drop_last()),
        }
    }
}

/// Where an object has its messages, if it has any.
pub open spec fn messages_index(keys: Seq<Seq<char>>, count: int) -> Option<int> {
    let many = key_index(keys, "messages"@, 0);
    if many is Some && 0 <= many->0 < count {
        many
    } else {
        let one = key_index(keys, "message"@, 0);
        if one is Some && 0 <= one->0 < count {
            one
        } else {
            None
        }
    }
}

/// What holds messages, at whatever depth: the last of them that shows something.
/// An object without them is a message itself, and another value is shown as it
/// is.
pub open spec fn container_shown(value: JsonValue) -> Option<Seq<char>>
    decreases value,
{
    match value {
        JsonValue::Array(messages) => last_message_shown(messages),
        JsonValue::Object { keys, values } => {
            let inner = match messages_index(keys, values.len() as int) {
                Some(i) => if 0 <= i < values.len() {
                    container_shown(values[i])
                } else {
                    None
                },
                None => None,
            };
            or_else(inner, message_shown(value))
        },
        _ => value_shown(value),
    }
}

/// The message of the first choice.
pub open spec fn choice_shown(value: JsonValue) -> Option<Seq<char>> {
    match member(value, "choices"@) {
        Some(JsonValue::Array(choices)) => if choices.len() > 0 {
            match or_else(member(choices[0], "message"@), member(choices[0], "delta"@)) {
                Some(message) => message_shown(message),
                None => None,
            }
        } else {
            None
        },
        _ => None,
    }
}

/// The first of the fields of an object that shows something.
pub open spec fn first_field_shown(value: JsonValue, fields: Seq<Seq<char>>) -> Option<Seq<char>>
    decreases fields.len(),
{
    if fields.len() == 0 {
        None
    } else {
        let own = match member(value, fields[0]) {
            Some(field) => value_shown(field),
            None => None,
        };
        or_else(own, first_field_shown(value, fields.skip(1)))
    }
}

/// The first of the fields of an object that shows something, or all of the
/// object. Nothing is shown of another value.
pub open spec fn fields_shown(value: JsonValue, fields: Seq<Seq<char>>) -> Option<Seq<char>> {
    match value {
        JsonValue::Object { keys, values } => or_else(
            first_field_shown(value, fields),
            value_shown(value),
        ),
        _ => None,
    }
}

pub open spec fn input_fields() -> Seq<Seq<char>> {
    Seq::empty().push("question"@).push("prompt"@).push("input"@).push("content"@).push("text"@)
}

pub open spec fn output_fields() -> Seq<Seq<char>> {
    Seq::empty().push("content"@).push("text"@).push("output"@).push("result"@)
}

pub open spec fn error_fields() -> Seq<Seq<char>> {
    Seq::empty().push("message"@).push("error"@)
}

/// What is shown of the inputs of a run.
pub open spec fn input_shown(value: JsonValue) -> Option<Seq<char>> {
    or_else(container_shown(value), fields_shown(value, input_fields()))
}

/// What is shown of the outputs of a run.
pub open spec fn output_shown(value: JsonValue) -> Option<Seq<char>> {
    or_else(
        choice_shown(value),
        or_else(container_shown(value), fields_shown(value, output_fields())),
    )
}

/// What is shown of the error of a run.
pub open spec fn error_shown(value: JsonValue) -> Option<Seq<char>> {
    or_else(text_shown(value), fields_shown(value, error_fields()))
}

pub open spec fn input_paths() -> PathList {
    no_paths().one("langsmith.inputs"@).one("inputs"@).one("input"@).one("messages"@)
}

pub open spec fn output_paths() -> PathList {
    no_paths().one("langsmith.outputs"@).one("outputs"@).one("output"@).one("result"@)
}

pub open spec fn error_paths() -> PathList {
    no_paths().one("langsmith.error"@).one("error"@)
}

/// What is shown of a run with these attributes.
pub open spec fn preview_in(root: JsonValue) -> Preview {
    Preview {
        inputs: match at_first_path(root, input_paths().list) {
            Some(value) => input_shown(value),
            None => None,
        },
        outputs: match at_first_path(root, output_paths().list) {
            Some(value) => output_shown(value),
            None => None,
        },
        error: match at_first_path(root, error_paths().list) {
            Some(value) => error_shown(value),
            None => None,
        },
        first_token_time: match at_first_path(root, first_token_time_paths().list) {
            Some(value) => time_in(value),
            None => None,
        },
    }
}

/// What is shown of a run: nothing, if its attributes are no JSON.
pub open spec fn preview_of(attributes_json: Seq<char>) -> Preview {
    match json_reading(attributes_json) {
        Some(root) => preview_in(root),
        None => Preview { inputs: None, outputs: None, error: None, first_token_time: None },
    }
}

/// A text as it is shown.
pub fn bounded_preview(text: &str) -> (r: Option<String>)
    ensures
        opt_text(r) == shown(text@),
{
    let plain = trimmed(text);
    if plain.as_str().is_empty() {
        None
    } else {
        Some(truncate_utf8(plain.as_str(), MAX_PREVIEW_BYTES))
    }
}

fn scalar_or_compact_preview(value: &Json) -> (r: Option<String>)
    ensures
        opt_text(r) == value_shown(value@),
{
    proof {
        lemma_json_view(*value);
    }
    match value {
        Json::Text(text) => bounded_preview(text.as_str()),
        Json::Number(n) => bounded_preview(n.text.as_str()),
        Json::Bool(b) => if *b {
            bounded_preview("true")
        } else {
            bounded_preview("false")
        },
        Json::Array(_) => bounded_preview(write_json(value).as_str()),
        Json::Object { keys: _, values: _ } => bounded_preview(write_json(value).as_str()),
        Json::Null => None,
    }
}

fn text_preview(value: &Json) -> (r: Option<String>)
    ensures
        opt_text(r) == text_shown(value@),
{
    match value {
        Json::Text(text) => bounded_preview(text.as_str()),
        _ => None,
    }
}

fn part_preview(part: &Json) -> (r: Option<String>)
    ensures
        opt_text(r) == part_shown(part@),
{
    let own = text_preview(part);
    if own.is_some() {
        return own;
    }
    match part.get("text") {
        Some(value) => text_preview(value),
        None => None,
    }
}

fn content_preview(content: &Json) -> (r: Option<String>)
    ensures
        opt_text(r) == content_shown(content@),
{
    proof {
        lemma_json_view(*content);
    }
    match content {
        Json::Text(text) => bounded_preview(text.as_str()),
        Json::Array(parts) => {
            let ghost all = values_of(parts@);
            let mut i: usize = 0;
            assert(all.skip(0) =~= all);
            while i < parts.len()
                invariant
                    i <= parts.len(),
                    all == values_of(parts@),
                    first_part_shown(all) == first_part_shown(all.skip(i as int)),
                    content_shown(content@) == first_part_shown(all),
                decreases parts.len() - i,
            {
                assert(all.skip(i as int)[0] == parts@[i as int]@);
                assert(all.skip(i as int).skip(1) =~= all.skip(i + 1));
                let own = part_preview(&parts[i]);
                if own.is_some() {
                    return own;
                }
                i += 1;
            }
            assert(all.skip(i as int) =~= Seq::empty());
            None
        },
        _ => None,
    }
}

fn message_content_preview(message: &Json) -> (r: Option<String>)
    ensures
        opt_text(r) == message_shown(message@),
{
    proof {
        lemma_json_view(*message);
    }
    match message {
        Json::Text(text) => bounded_preview(text.as_str()),
        Json::Object { keys: _, values: _ } => match message.get("content") {
            Some(content) => content_preview(content),
            None => None,
        },
        _ => None,
    }
}

fn last_message_preview(messages: &Vec<Json>) -> (r: Option<String>)
    ensures
        opt_text(r) == last_message_shown(values_of(messages@)),
{
    let ghost all = values_of(messages@);
    let mut i: usize = messages.len();
    assert(all.take(i as int) =~= all);
    while i > 0
        invariant
            i <= messages.len(),
            all == values_of(messages@),
            last_message_shown(all) == last_message_shown(all.take(i as int)),
        decreases i,
    {
        assert(all.take(i as int).last() == messages@[i - 1]@);
        assert(all.take(i as int).drop_last() =~= all.take(i - 1));
        let own = message_content_preview(&messages[i - 1]);
        if own.is_some() {
            return own;
        }
        i -= 1;
    }
    assert(all.take(0) =~= Seq::empty());
    None
}

fn find_messages(keys: &Vec<String>, count: usize) -> (r: Option<usize>)
    ensures
        match r {
            Some(i) => messages_index(texts(keys@), count as int) == Some(i as int) && i < count,
            None => messages_index(texts(keys@), count as int) is None,
        },
{
    if let Some(i) = position(keys, "messages") {
        if i < count {
            return Some(i);
        }
    }
    if let Some(i) = position(keys, "message") {
        if i < count {
            return Some(i);
        }
    }
    None
}

fn message_container_preview(value: &Json) -> (r: Option<String>)
    ensures
        opt_text(r) == container_shown(value@),
    decreases value,
{
    proof {
        lemma_json_view(*value);
    }
    match value {
        Json::Array(messages) => last_message_preview(messages),
        Json::Object { keys, values } => {
            let inner = match find_messages(keys, values.len()) {
                Some(i) => {
                    assert(values_of(values@)[i as int] == values@[i as int]@);
                    message_container_preview(&values[i])
                },
                None => None,
            };
            if inner.is_some() {
                inner
            } else {
                message_content_preview(value)
            }
        },
        _ => scalar_or_compact_preview(value),
    }
}

fn choice_message_preview(value: &Json) -> (r: Option<String>)
    ensures
        opt_text(r) == choice_shown(value@),
{
    match value.get("choices") {
        Some(found) => {
            proof {
                lemma_json_view(*found);
            }
            match found {
                Json::Array(choices) => {
                    if choices.len() == 0 {
                        return None;
                    }
                    assert(values_of(choices@)[0] == choices@[0]@);
                    match choices[0].get("message") {
                        Some(message) => message_content_preview(message),
                        None => match choices[0].get("delta") {
                            Some(message) => message_content_preview(message),
                            None => None,
                        },
                    }
                },
                _ => None,
            }
        },
        None => None,
    }
}

fn object_field_preview(value: &Json, fields: &Vec<String>) -> (r: Option<String>)
    ensures
        opt_text(r) == fields_shown(value@, texts(fields@)),
{
    proof {
        lemma_json_view(*value);
    }
    match value {
        Json::Object { keys: _, values: _ } => {
            let ghost all = texts(fields@);
            let mut i: usize = 0;
            assert(all.skip(0) =~= all);
            while i < fields.len()
                invariant
                    i <= fields.len(),
                    all == texts(fields@),
                    first_field_shown(value@, all) == first_field_shown(
                        value@,
                        all.skip(i as int),
                    ),
                    fields_shown(value@, all) == or_else(
                        first_field_shown(value@, all),
                        value_shown(value@),
                    ),
                decreases fields.len() - i,
            {
                assert(all.skip(i as int)[0] == fields@[i as int]@);
                assert(all.skip(i as int).skip(1) =~= all.skip(i + 1));
                if let Some(field) = value.get(fields[i].as_str()) {
                    let own = scalar_or_compact_preview(field);
                    if own.is_some() {
                        return own;
                    }
                }
                i += 1;
            }
            assert(all.skip(i as int) =~= Seq::empty());
            scalar_or_compact_preview(value)
        },
        _ => None,
    }
}

fn input_preview(value: &Json) -> (r: Option<String>)
    ensures
        opt_text(r) == input_shown(value@),
{
    let own = message_container_preview(value);
    if own.is_some() {
        return own;
    }
    let mut fields = no_texts();
    push_text(&mut fields, "question".to_owned());
    push_text(&mut fields, "prompt".to_owned());
    push_text(&mut fields, "input".to_owned());
    push_text(&mut fields, "content".to_owned());
    push_text(&mut fields, "text".to_owned());
    object_field_preview(value, &fields)
}

fn output_preview(value: &Json) -> (r: Option<String>)
    ensures
        opt_text(r) == output_shown(value@),
{
    let choice = choice_message_preview(value);
    if choice.is_some() {
        return choice;
    }
    let own = message_container_preview(value);
    if own.is_some() {
        return own;
    }
    let mut fields = no_texts();
    push_text(&mut fields, "content".to_owned());
    push_text(&mut fields, "text".to_owned());
    push_text(&mut fields, "output".to_owned());
    push_text(&mut fields, "result".to_owned());
    object_field_preview(value, &fields)
}

fn error_preview(value: &Json) -> (r: Option<String>)
    ensures
        opt_text(r) == error_shown(value@),
{
    let own = text_preview(value);
    if own.is_some() {
        return own;
    }
    let mut fields = no_texts();
    push_text(&mut fields, "message".to_owned());
    push_text(&mut fields, "error".to_owned());
    object_field_preview(value, &fields)
}

impl RunPreview {
    /// What is shown of a run with these attributes.
    pub fn from_attributes(root: &Json) -> (r: Self)
        ensures
            r@ == preview_in(root@),
    {
        let inputs = Paths::none().one("langsmith.inputs").one("inputs").one("input").one(
            "messages",
        );
        let outputs = Paths::none().one("langsmith.outputs").one("outputs").one("output").one(
            "result",
        );
        let errors = Paths::none().one("langsmith.error").one("error");
        RunPreview {
            inputs_preview: match first_path_value(root, &inputs) {
                Some(value) => input_preview(value),
                None => None,
            },
            outputs_preview: match first_path_value(root, &outputs) {
                Some(value) => output_preview(value),
                None => None,
            },
            error_preview: match first_path_value(root, &errors) {
                Some(value) => error_preview(value),
                None => None,
            },
            first_token_time_unix_nano: match first_path_value(root, &paths_to_first_token_time()) {
                Some(value) => timestamp_unix_nanos(value),
                None => None,
            },
        }
    }

    /// What is shown of a run: nothing, if its attributes are no JSON.
    pub fn from_attributes_json(attributes_json: &str) -> (r: Self)
        ensures
            r@ == preview_of(attributes_json@),
    {
        match read_json(attributes_json) {
            Some(root) => RunPreview::from_attributes(&root),
            None => RunPreview {
                inputs_preview: None,
                outputs_preview: None,
                error_preview: None,
                first_token_time_unix_nano: None,
            },
        }
    }
}

/// No preview is empty, and none is longer than it may be.
pub proof fn law_previews_are_bounded(text: Seq<char>)
    ensures
        match shown(text) {
            Some(preview) => 0 < preview.len() && byte_len(preview) <= MAX_PREVIEW_BYTES,
            None => trim(text).len() == 0,
        },
{
    law_clipped_is_bounded(trim(text), MAX_PREVIEW_BYTES as int);
}

proof fn lemma_single_path(root: JsonValue, word: Seq<char>)
    ensures
        at_path(root, Seq::empty().push(word)) == member(root, word),
{
    reveal_with_fuel(at_path, 2);
    let path = Seq::empty().push(word);
    assert(path.skip(1).len() == 0);
}

proof fn lemma_same_first_path(a: JsonValue, b: JsonValue, paths: Seq<Seq<Seq<char>>>)
    requires
        forall|i: int| 0 <= i < paths.len() ==> at_path(a, #[trigger] paths[i]) == at_path(
            b,
            paths[i],
        ),
    ensures
        at_first_path(a, paths) == at_first_path(b, paths),
    decreases paths.len(),
{
    if paths.len() > 0 {
        let rest = paths.skip(1);
        assert forall|i: int| 0 <= i < rest.len() implies at_path(a, #[trigger] rest[i])
            == at_path(b, rest[i]) by {
            assert(rest[i] == paths[i + 1]);
        }
        assert(at_path(a, paths[0]) == at_path(b, paths[0]));
        lemma_same_first_path(a, b, rest);
    }
}

/// The preview of the inputs is made from what the attributes name as inputs, that of the outputs
/// from what they name as outputs, and that of the error from what they name as the error,
/// whatever else they hold.
pub proof fn law_previews_are_of_their_part(a: JsonValue, b: JsonValue)
    ensures
        member(a, "langsmith.inputs"@) == member(b, "langsmith.inputs"@) && member(a, "inputs"@)
            == member(b, "inputs"@) && member(a, "input"@) == member(b, "input"@) && member(
            a,
            "messages"@,
        ) == member(b, "messages"@) ==> preview_in(a).inputs == preview_in(b).inputs,
        member(a, "langsmith.outputs"@) == member(b, "langsmith.outputs"@) && member(a, "outputs"@)
            == member(b, "outputs"@) && member(a, "output"@) == member(b, "output"@) && member(
            a,
            "result"@,
        ) == member(b, "result"@) ==> preview_in(a).outputs == preview_in(b).outputs,
        member(a, "langsmith.error"@) == member(b, "langsmith.error"@) && member(a, "error"@)
            == member(b, "error"@) ==> preview_in(a).error == preview_in(b).error,
{
    let inputs = input_paths().list;
    let outputs = output_paths().list;
    let errors = error_paths().list;
    assert(inputs.len() == 4 && outputs.len() == 4 && errors.len() == 2);
    lemma_single_path(a, "langsmith.inputs"@);
    lemma_single_path(b, "langsmith.inputs"@);
    lemma_single_path(a, "inputs"@);
    lemma_single_path(b, "inputs"@);
    lemma_single_path(a, "input"@);
    lemma_single_path(b, "input"@);
    lemma_single_path(a, "messages"@);
    lemma_single_path(b, "messages"@);
    lemma_single_path(a, "langsmith.outputs"@);
    lemma_single_path(b, "langsmith.outputs"@);
    lemma_single_path(a, "outputs"@);
    lemma_single_path(b, "outputs"@);
    lemma_single_path(a, "output"@);
    lemma_single_path(b, "output"@);
    lemma_single_path(a, "result"@);
    lemma_single_path(b, "result"@);
    lemma_single_path(a, "langsmith.error"@);
    lemma_single_path(b, "langsmith.error"@);
    lemma_single_path(a, "error"@);
    lemma_single_path(b, "error"@);
    if member(a, "langsmith.inputs"@) == member(b, "langsmith.inputs"@) && member(a, "inputs"@)
        == member(b, "inputs"@) && member(a, "input"@) == member(b, "input"@) && member(
        a,
        "messages"@,
    ) == member(b, "messages"@) {
        lemma_same_first_path(a, b, inputs);
    }
    if member(a, "langsmith.outputs"@) == member(b, "langsmith.outputs"@) && member(a, "outputs"@)
        == member(b, "outputs"@) && member(a, "output"@) == member(b, "output"@) && member(
        a,
        "result"@,
    ) == member(b, "result"@) {
        lemma_same_first_path(a, b, outputs);
    }
    if member(a, "langsmith.error"@) == member(b, "langsmith.error"@) && member(a, "error"@)
        == member(b, "error"@) {
        lemma_same_first_path(a, b, errors);
    }
}

/// A text that is the input, the output or the error of a run is shown as it is, as far as it
/// may be; what the attributes say in their own words comes before anything else.
pub proof fn law_texts_are_shown(root: JsonValue, text: Seq<char>)
    ensures
        member(root, "langsmith.inputs"@) == Some(JsonValue::Text(text)) ==> preview_in(root).inputs
            == shown(text),
        member(root, "langsmith.outputs"@) == Some(JsonValue::Text(text)) ==> preview_in(
            root,
        ).outputs == shown(text),
        member(root, "langsmith.error"@) == Some(JsonValue::Text(text)) ==> preview_in(root).error
            == shown(text),
{
    lemma_single_path(root, "langsmith.inputs"@);
    lemma_single_path(root, "langsmith.outputs"@);
    lemma_single_path(root, "langsmith.error"@);
    assert(input_paths().list[0] == Seq::empty().push("langsmith.inputs"@));
    assert(output_paths().list[0] == Seq::empty().push("langsmith.outputs"@));
    assert(error_paths().list[0] == Seq::empty().push("langsmith.error"@));
}

/// What is shown of a text is its beginning, without the space around it: all of it, if that is
/// not too long.
pub proof fn law_shown_text_is_its_beginning(text: Seq<char>)
    ensures
        shown(text) is None <==> trim(text).len() == 0,
        shown(text) matches Some(preview) ==> {
            &&& preview.len() <= trim(text).len()
            &&& preview == trim(text).take(preview.len() as int)
            &&& byte_len(trim(text)) <= 512 ==> preview == trim(text)
        },
{
    law_clipped_is_bounded(trim(text), MAX_PREVIEW_BYTES as int);
}

/// Of messages, the last one that can be shown is shown.
pub proof fn law_last_message_is_shown(messages: Seq<JsonValue>, message: JsonValue)
    ensures
        container_shown(JsonValue::Array(messages.push(message))) == match message_shown(message) {
            Some(text) => Some(text),
            None => container_shown(JsonValue::Array(messages)),
        },
        container_shown(JsonValue::Array(Seq::empty())) is None,
{
    assert(messages.push(message).drop_last() =~= messages);
}

/// Of a list of parts, the first that is or has a text is shown.
pub proof fn law_first_part_is_shown(parts: Seq<JsonValue>, part: JsonValue)
    ensures
        content_shown(JsonValue::Array(seq![part] + parts)) == match part_shown(part) {
            Some(text) => Some(text),
            None => content_shown(JsonValue::Array(parts)),
        },
        content_shown(JsonValue::Array(Seq::empty())) is None,
{
    assert((seq![part] + parts).skip(1) =~= parts);
    assert((seq![part] + parts)[0] == part);
}

/// A message is shown by its content, and an output by the message of its first choice, if it
/// has one that can be shown.
pub proof fn law_choice_is_shown(
    value: JsonValue,
    choices: Seq<JsonValue>,
    message: JsonValue,
    text: Seq<char>,
)
    requires
        member(value, "choices"@) == Some(JsonValue::Array(choices)),
        choices.len() > 0,
        member(choices[0], "message"@) == Some(message),
        member(message, "content"@) == Some(JsonValue::Text(text)),
        trim(text).len() > 0,
    ensures
        output_shown(value) == shown(text),
{
}

} // verus!
