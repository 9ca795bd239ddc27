//! What the attributes of a run say of its cost.

use crate::float::Cost;
use crate::float::Float;
use crate::float::FloatReading;
use crate::float::FloatReadings;
use crate::float::Reading;
use crate::float::finite_nonnegative;
use crate::float::is_finite_nonnegative;
use crate::float::opt_reading;
use crate::float::reading_of;
use crate::json::Json;
use crate::json::JsonValue;
use crate::json::PathList;
use crate::json::Paths;
use crate::json::at_first_path;
use crate::json::at_path;
use crate::json::first_path_value;
use crate::json::json_reading;
use crate::json::no_paths;
use crate::json::path_value;
use crate::json::read_json;
use crate::record::SpanRecord;
use crate::text::byte_len;
use crate::text::byte_length;
use crate::text::lower;
use crate::text::lowered;
use crate::text::no_texts;
use crate::text::opt_text;
use crate::text::parse_i64;
use crate::text::parsed_i64;
use crate::text::push_some;
use crate::text::same;
use crate::text::texts;
use crate::text::trim;
use crate::text::trimmed;
use crate::text::with;
use crate::time::clamped;
use crate::time::parse_rfc3339_nanos;
use crate::time::rfc3339_nanos;
use crate::time::saturating_sum;
use vstd::prelude::*;

verus! {

/// How long the name of a model or a provider may be, in bytes.
pub const MAX_NAME_BYTES: usize = 256;

/// What is said of a run in numbers, and of what ran.
#[derive(Debug, PartialEq, Eq)]
pub struct TypedRunMetrics {
    pub latency_nanos: i64,
    pub prompt_tokens: Option<i64>,
    pub completion_tokens: Option<i64>,
    pub total_tokens: Option<i64>,
    pub prompt_cost: Option<Float>,
    pub completion_cost: Option<Float>,
    pub total_cost: Cost,
    pub first_token_latency_nanos: Option<i64>,
    pub evaluator_score: Option<Float>,
    pub model_name: Option<String>,
    pub provider_name: Option<String>,
}

/// What [`TypedRunMetrics`] hold.
pub struct RunMetrics {
    pub latency_nanos: i64,
    pub prompt_tokens: Option<i64>,
    pub completion_tokens: Option<i64>,
    pub total_tokens: Option<i64>,
    pub prompt_cost: Option<Float>,
    pub completion_cost: Option<Float>,
    pub total_cost: Cost,
    pub first_token_latency_nanos: Option<i64>,
    pub evaluator_score: Option<Float>,
    pub model_name: Option<Seq<char>>,
    pub provider_name: Option<Seq<char>>,
}

impl View for TypedRunMetrics {
    type V = RunMetrics;

    open spec fn view(&self) -> RunMetrics {
        RunMetrics {
            latency_nanos: self.latency_nanos,
            prompt_tokens: self.prompt_tokens,
            completion_tokens: self.completion_tokens,
            total_tokens: self.total_tokens,
            prompt_cost: self.prompt_cost,
            completion_cost: self.completion_cost,
            total_cost: self.total_cost,
            first_token_latency_nanos: self.first_token_latency_nanos,
            evaluator_score: self.evaluator_score,
            model_name: opt_text(self.model_name),
            provider_name: opt_text(self.provider_name),
        }
    }
}

/// How long a run took: nothing, if it has not ended, ended before it started, or
/// took longer than can be said.
pub open spec fn latency(start: i64, end: i64) -> i64 {
    if 0 < end - start <= i64::MAX {
        (end - start) as i64
    } else {
        0
    }
}

/// How long a run took.
pub fn latency_nanos(start_time_unix_nano: i64, end_time_unix_nano: i64) -> (r: i64)
    ensures
        r == latency(start_time_unix_nano, end_time_unix_nano),
{
    match end_time_unix_nano.checked_sub(start_time_unix_nano) {
        Some(n) => if n > 0 {
            n
        } else {
            0
        },
        None => 0,
    }
}

/// The integer that a value is or writes.
pub open spec fn integer_in(value: JsonValue) -> Option<i64> {
    match value {
        JsonValue::Number { integer, text } => integer,
        JsonValue::Text(text) => parse_i64(trim(text)),
        _ => None,
    }
}

/// The text that is read as a floating-point number, if the value is or writes
/// one.
pub open spec fn float_text_in(value: JsonValue) -> Option<Seq<char>> {
    match value {
        JsonValue::Number { integer, text } => Some(text),
        JsonValue::Text(text) => Some(trim(text)),
        _ => None,
    }
}

/// How the floating-point number that a value is or writes is read.
pub open spec fn reading_in(value: JsonValue, readings: Map<Seq<char>, Reading>) -> Option<Reading> {
    match float_text_in(value) {
        Some(text) => reading_of(readings, text),
        None => None,
    }
}

/// A short text that a value is, or that its number or truth is written as: not
/// empty, and of no more than `max` bytes.
pub open spec fn name_in(value: JsonValue, max: int) -> Option<Seq<char>> {
    let text = match value {
        JsonValue::Text(text) => Some(trim(text)),
        JsonValue::Number { integer, text } => Some(text),
        JsonValue::Bool(b) => Some(
            if b {
                "true"@
            } else {
                "false"@
            },
        ),
        _ => None,
    };
    match text {
        Some(name) => if name.len() > 0 && byte_len(name) <= max {
            Some(name)
        } else {
            None
        },
        None => None,
    }
}

/// A point in time that a value is or writes, in nanoseconds.
pub open spec fn time_in(value: JsonValue) -> Option<i64> {
    match value {
        JsonValue::Number { integer, text } => integer,
        JsonValue::Text(text) => match parse_i64(text) {
            Some(n) => Some(n),
            None => rfc3339_nanos(text),
        },
        _ => None,
    }
}

/// An integer of at least zero at a path.
pub open spec fn count_at(root: JsonValue, path: Seq<Seq<char>>) -> Option<i64> {
    match at_path(root, path) {
        Some(value) => match integer_in(value) {
            Some(n) => if n >= 0 {
                Some(n)
            } else {
                None
            },
            None => None,
        },
        None => None,
    }
}

/// The first integer of at least zero at one of the paths.
pub open spec fn first_count(root: JsonValue, paths: Seq<Seq<Seq<char>>>) -> Option<i64>
    decreases paths.len(),
{
    if paths.len() == 0 {
        None
    } else {
        match count_at(root, paths[0]) {
            Some(n) => Some(n),
            None => first_count(root, paths.skip(1)),
        }
    }
}

/// A finite number of at least zero at a path.
pub open spec fn amount_at(
    root: JsonValue,
    path: Seq<Seq<char>>,
    readings: Map<Seq<char>, Reading>,
) -> Option<Reading> {
    match at_path(root, path) {
        Some(value) => match reading_in(value, readings) {
            Some(reading) => if finite_nonnegative(reading.bits) {
                Some(reading)
            } else {
                None
            },
            None => None,
        },
        None => None,
    }
}

/// The first finite number of at least zero at one of the paths.
pub open spec fn first_amount(
    root: JsonValue,
    paths: Seq<Seq<Seq<char>>>,
    readings: Map<Seq<char>, Reading>,
) -> Option<Float>
    decreases paths.len(),
{
    if paths.len() == 0 {
        None
    } else {
        match amount_at(root, paths[0], readings) {
            Some(reading) => Some(Float { bits: reading.bits }),
            None => first_amount(root, paths.skip(1), readings),
        }
    }
}

/// The first time in seconds at one of the paths, in nanoseconds.
pub open spec fn first_seconds(
    root: JsonValue,
    paths: Seq<Seq<Seq<char>>>,
    readings: Map<Seq<char>, Reading>,
) -> Option<i64>
    decreases paths.len(),
{
    if paths.len() == 0 {
        None
    } else {
        match amount_at(root, paths[0], readings) {
            Some(reading) => match reading.rounded_nanos {
                Some(nanos) => Some(nanos),
                None => first_seconds(root, paths.skip(1), readings),
            },
            None => first_seconds(root, paths.skip(1), readings),
        }
    }
}

/// The first short text at one of the paths.
pub open spec fn first_name(root: JsonValue, paths: Seq<Seq<Seq<char>>>) -> Option<Seq<char>>
    decreases paths.len(),
{
    if paths.len() == 0 {
        None
    } else {
        let found = match at_path(root, paths[0]) {
            Some(value) => name_in(value, MAX_NAME_BYTES as int),
            None => None,
        };
        match found {
            Some(name) => Some(name),
            None => first_name(root, paths.skip(1)),
        }
    }
}

/// The name of a model as it is kept.
pub open spec fn model_name(name: Seq<char>) -> Seq<char> {
    lower(trim(name))
}

/// The name of a provider as it is kept: some are known under several names.
pub open spec fn provider_name(name: Seq<char>) -> Seq<char> {
    let plain = lower(trim(name));
    if plain == "open_ai"@ || plain == "open-ai"@ {
        "openai"@
    } else if plain == "anthropic_ai"@ || plain == "anthropic-ai"@ {
        "anthropic"@
    } else {
        plain
    }
}

pub open spec fn prompt_token_paths() -> PathList {
    no_paths().one("prompt_tokens"@).one("input_tokens"@).two("metrics"@, "prompt_tokens"@).two(
        "metrics"@,
        "input_tokens"@,
    ).two("usage"@, "prompt_tokens"@).two("usage"@, "input_tokens"@).two(
        "token_usage"@,
        "prompt_tokens"@,
    ).three("llm_output"@, "token_usage"@, "prompt_tokens"@).one("gen_ai.usage.input_tokens"@).four(
        "langsmith.outputs"@,
        "llm_output"@,
        "token_usage"@,
        "prompt_tokens"@,
    ).three("langsmith.extra"@, "metadata"@, "prompt_tokens"@)
}

pub open spec fn completion_token_paths() -> PathList {
    no_paths().one("completion_tokens"@).one("output_tokens"@).two(
        "metrics"@,
        "completion_tokens"@,
    ).two("metrics"@, "output_tokens"@).two("usage"@, "completion_tokens"@).two(
        "usage"@,
        "output_tokens"@,
    ).two("token_usage"@, "completion_tokens"@).three(
        "llm_output"@,
        "token_usage"@,
        "completion_tokens"@,
    ).one("gen_ai.usage.output_tokens"@).four(
        "langsmith.outputs"@,
        "llm_output"@,
        "token_usage"@,
        "completion_tokens"@,
    ).three("langsmith.extra"@, "metadata"@, "completion_tokens"@)
}

pub open spec fn total_token_paths() -> PathList {
    no_paths().one("total_tokens"@).two("metrics"@, "total_tokens"@).two(
        "usage"@,
        "total_tokens"@,
    ).two("token_usage"@, "total_tokens"@).three(
        "llm_output"@,
        "token_usage"@,
        "total_tokens"@,
    ).one("gen_ai.usage.total_tokens"@).four(
        "langsmith.outputs"@,
        "llm_output"@,
        "token_usage"@,
        "total_tokens"@,
    ).three("langsmith.extra"@, "metadata"@, "total_tokens"@)
}

pub open spec fn prompt_cost_paths() -> PathList {
    no_paths().one("prompt_cost"@).one("input_cost"@).two("metrics"@, "prompt_cost"@).two(
        "metrics"@,
        "input_cost"@,
    ).two("usage"@, "prompt_cost"@).two("usage"@, "input_cost"@).three(
        "langsmith.extra"@,
        "metadata"@,
        "prompt_cost"@,
    )
}

pub open spec fn completion_cost_paths() -> PathList {
    no_paths().one("completion_cost"@).one("output_cost"@).two("metrics"@, "completion_cost"@).two(
        "metrics"@,
        "output_cost"@,
    ).two("usage"@, "completion_cost"@).two("usage"@, "output_cost"@).three(
        "langsmith.extra"@,
        "metadata"@,
        "completion_cost"@,
    )
}

pub open spec fn total_cost_paths() -> PathList {
    no_paths().one("total_cost"@).one("cost"@).two("metrics"@, "total_cost"@).two(
        "metrics"@,
        "cost"@,
    ).two("usage"@, "total_cost"@).two("usage"@, "cost"@).three(
        "langsmith.extra"@,
        "metadata"@,
        "total_cost"@,
    )
}

pub open spec fn first_token_latency_nanos_paths() -> PathList {
    no_paths().one("first_token_latency_nanos"@).two("metrics"@, "first_token_latency_nanos"@).three(
        "langsmith.extra"@,
        "metadata"@,
        "first_token_latency_nanos"@,
    )
}

pub open spec fn first_token_latency_seconds_paths() -> PathList {
    no_paths().one("first_token_latency"@).two("metrics"@, "first_token_latency"@).three(
        "langsmith.extra"@,
        "metadata"@,
        "first_token_latency"@,
    )
}

pub open spec fn first_token_time_paths() -> PathList {
    no_paths().one("first_token_time_unix_nano"@).one("first_token_time"@).two(
        "metrics"@,
        "first_token_time_unix_nano"@,
    ).two("metrics"@, "first_token_time"@).three(
        "langsmith.extra"@,
        "metadata"@,
        "first_token_time_unix_nano"@,
    ).three("langsmith.extra"@, "metadata"@, "first_token_time"@)
}

pub open spec fn evaluator_score_paths() -> PathList {
    no_paths().one("evaluator_score"@).one("score"@).two("metrics"@, "evaluator_score"@).two(
        "metrics"@,
        "score"@,
    ).two("feedback"@, "score"@).three("langsmith.extra"@, "metadata"@, "evaluator_score"@)
}

pub open spec fn model_paths() -> PathList {
    no_paths().one("gen_ai.request.model"@).one("gen_ai.response.model"@).one("model"@).one(
        "model_name"@,
    ).two("metadata"@, "model"@).two("metadata"@, "model_name"@).two(
        "metadata"@,
        "ls_model_name"@,
    ).two("invocation_params"@, "model"@).two("invocation_params"@, "model_name"@).three(
        "langsmith.extra"@,
        "metadata"@,
        "model"@,
    ).three("langsmith.extra"@, "metadata"@, "ls_model_name"@).three(
        "langsmith.extra"@,
        "invocation_params"@,
        "model"@,
    ).three("langsmith.outputs"@, "llm_output"@, "model_name"@)
}

pub open spec fn provider_paths() -> PathList {
    no_paths().one("gen_ai.system"@).one("provider"@).one("provider_name"@).two(
        "metadata"@,
        "provider"@,
    ).two("metadata"@, "provider_name"@).two("metadata"@, "ls_provider"@).three(
        "langsmith.extra"@,
        "metadata"@,
        "provider"@,
    ).three("langsmith.extra"@, "metadata"@, "ls_provider"@)
}

/// Both counts together, if there are both.
pub open spec fn both_counts(left: Option<i64>, right: Option<i64>) -> Option<i64> {
    match (left, right) {
        (Some(a), Some(b)) => Some(clamped(a + b)),
        _ => None,
    }
}

/// When the first token came after the start, if it did.
pub open spec fn first_token_latency(
    root: JsonValue,
    start: i64,
    readings: Map<Seq<char>, Reading>,
) -> Option<i64> {
    match first_count(root, first_token_latency_nanos_paths().list) {
        Some(nanos) => Some(nanos),
        None => match first_seconds(root, first_token_latency_seconds_paths().list, readings) {
            Some(nanos) => Some(nanos),
            None => match at_first_path(root, first_token_time_paths().list) {
                Some(value) => match time_in(value) {
                    Some(time) => if 0 <= time - start <= i64::MAX {
                        Some((time - start) as i64)
                    } else {
                        None
                    },
                    None => None,
                },
                None => None,
            },
        },
    }
}

/// What the attributes of a run say of it.
pub open spec fn metrics_in(
    root: JsonValue,
    start: i64,
    end: i64,
    readings: Map<Seq<char>, Reading>,
) -> RunMetrics {
    let prompt_tokens = first_count(root, prompt_token_paths().list);
    let completion_tokens = first_count(root, completion_token_paths().list);
    let prompt_cost = first_amount(root, prompt_cost_paths().list, readings);
    let completion_cost = first_amount(root, completion_cost_paths().list, readings);
    RunMetrics {
        latency_nanos: latency(start, end),
        prompt_tokens,
        completion_tokens,
        total_tokens: match first_count(root, total_token_paths().list) {
            Some(n) => Some(n),
            None => both_counts(prompt_tokens, completion_tokens),
        },
        prompt_cost,
        completion_cost,
        total_cost: match first_amount(root, total_cost_paths().list, readings) {
            Some(cost) => Cost::Stated(cost),
            None => match (prompt_cost, completion_cost) {
                (Some(a), Some(b)) => Cost::Summed(a, b),
                _ => Cost::Unknown,
            },
        },
        first_token_latency_nanos: first_token_latency(root, start, readings),
        evaluator_score: first_amount(root, evaluator_score_paths().list, readings),
        model_name: match first_name(root, model_paths().list) {
            Some(name) => Some(model_name(name)),
            None => None,
        },
        provider_name: match first_name(root, provider_paths().list) {
            Some(name) => Some(provider_name(name)),
            None => None,
        },
    }
}

/// The value that attributes write: none at all, if they are no JSON.
pub open spec fn attributes_value(attributes_json: Seq<char>) -> JsonValue {
    match json_reading(attributes_json) {
        Some(value) => value,
        None => JsonValue::Null,
    }
}

fn integer_of(value: &Json) -> (r: Option<i64>)
    ensures
        r == integer_in(value@),
{
    match value {
        Json::Number(n) => n.integer,
        Json::Text(text) => parsed_i64(trimmed(text.as_str()).as_str()),
        _ => None,
    }
}

fn float_text_of(value: &Json) -> (r: Option<String>)
    ensures
        opt_text(r) == float_text_in(value@),
{
    match value {
        Json::Number(n) => Some(n.text.clone()),
        Json::Text(text) => Some(trimmed(text.as_str())),
        _ => None,
    }
}

fn reading_of_value(value: &Json, readings: &FloatReadings) -> (r: Option<FloatReading>)
    ensures
        opt_reading(r) == reading_in(value@, readings@),
{
    match float_text_of(value) {
        Some(text) => readings.get(text.as_str()),
        None => None,
    }
}

/// A short text that a value is, or that its number or truth is written as.
pub fn name_of(value: &Json, max_bytes: usize) -> (r: Option<String>)
    ensures
        opt_text(r) == name_in(value@, max_bytes as int),
{
    let name = match value {
        Json::Text(text) => trimmed(text.as_str()),
        Json::Number(n) => n.text.clone(),
        Json::Bool(b) => if *b {
            "true".to_owned()
        } else {
            "false".to_owned()
        },
        _ => {
            return None;
        },
    };
    if !name.as_str().is_empty() && byte_length(name.as_str()) <= max_bytes {
        Some(name)
    } else {
        None
    }
}

/// A point in time that a value is or writes, in nanoseconds.
pub fn timestamp_unix_nanos(value: &Json) -> (r: Option<i64>)
    ensures
        r == time_in(value@),
{
    match value {
        Json::Number(n) => n.integer,
        Json::Text(text) => match parsed_i64(text.as_str()) {
            Some(n) => Some(n),
            None => parse_rfc3339_nanos(text.as_str()),
        },
        _ => None,
    }
}

fn scalar_i64(root: &Json, paths: Paths) -> (r: Option<i64>)
    ensures
        r == first_count(root@, paths@.list),
{
    let ghost all = paths@.list;
    let mut i: usize = 0;
    assert(all.skip(0) =~= all);
    while i < paths.list.len()
        invariant
            i <= paths.list.len(),
            all == paths@.list,
            first_count(root@, all) == first_count(root@, all.skip(i as int)),
        decreases paths.list.len() - i,
    {
        assert(all.skip(i as int)[0] == texts(paths.list@[i as int]@));
        assert(all.skip(i as int).skip(1) =~= all.skip(i + 1));
        if let Some(value) = path_value(root, &paths.list[i]) {
            if let Some(n) = integer_of(value) {
                if n >= 0 {
                    return Some(n);
                }
            }
        }
        i += 1;
    }
    assert(all.skip(i as int) =~= Seq::empty());
    None
}

fn amount_of(root: &Json, path: &Vec<String>, readings: &FloatReadings) -> (r: Option<FloatReading>)
    ensures
        opt_reading(r) == amount_at(root@, texts(path@), readings@),
{
    match path_value(root, path) {
        Some(value) => match reading_of_value(value, readings) {
            Some(reading) => if is_finite_nonnegative(reading.bits) {
                Some(reading)
            } else {
                None
            },
            None => None,
        },
        None => None,
    }
}

fn scalar_float(root: &Json, paths: Paths, readings: &FloatReadings) -> (r: Option<Float>)
    ensures
        r == first_amount(root@, paths@.list, readings@),
{
    let ghost all = paths@.list;
    let mut i: usize = 0;
    assert(all.skip(0) =~= all);
    while i < paths.list.len()
        invariant
            i <= paths.list.len(),
            all == paths@.list,
            first_amount(root@, all, readings@) == first_amount(
                root@,
                all.skip(i as int),
                readings@,
            ),
        decreases paths.list.len() - i,
    {
        assert(all.skip(i as int)[0] == texts(paths.list@[i as int]@));
        assert(all.skip(i as int).skip(1) =~= all.skip(i + 1));
        if let Some(reading) = amount_of(root, &paths.list[i], readings) {
            return Some(Float { bits: reading.bits });
        }
        i += 1;
    }
    assert(all.skip(i as int) =~= Seq::empty());
    None
}

fn scalar_seconds_as_nanos(root: &Json, paths: Paths, readings: &FloatReadings) -> (r: Option<i64>)
    ensures
        r == first_seconds(root@, paths@.list, readings@),
{
    let ghost all = paths@.list;
    let mut i: usize = 0;
    assert(all.skip(0) =~= all);
    while i < paths.list.len()
        invariant
            i <= paths.list.len(),
            all == paths@.list,
            first_seconds(root@, all, readings@) == first_seconds(
                root@,
                all.skip(i as int),
                readings@,
            ),
        decreases paths.list.len() - i,
    {
        assert(all.skip(i as int)[0] == texts(paths.list@[i as int]@));
        assert(all.skip(i as int).skip(1) =~= all.skip(i + 1));
        if let Some(reading) = amount_of(root, &paths.list[i], readings) {
            if let Some(nanos) = reading.rounded_nanos {
                return Some(nanos);
            }
        }
        i += 1;
    }
    assert(all.skip(i as int) =~= Seq::empty());
    None
}

fn scalar_string(root: &Json, paths: Paths) -> (r: Option<String>)
    ensures
        opt_text(r) == first_name(root@, paths@.list),
{
    let ghost all = paths@.list;
    let mut i: usize = 0;
    assert(all.skip(0) =~= all);
    while i < paths.list.len()
        invariant
            i <= paths.list.len(),
            all == paths@.list,
            first_name(root@, all) == first_name(root@, all.skip(i as int)),
        decreases paths.list.len() - i,
    {
        assert(all.skip(i as int)[0] == texts(paths.list@[i as int]@));
        assert(all.skip(i as int).skip(1) =~= all.skip(i + 1));
        if let Some(value) = path_value(root, &paths.list[i]) {
            let name = name_of(value, MAX_NAME_BYTES);
            if name.is_some() {
                return name;
            }
        }
        i += 1;
    }
    assert(all.skip(i as int) =~= Seq::empty());
    None
}

fn normalize_model_name(name: &str) -> (r: String)
    ensures
        r@ == model_name(name@),
{
    lowered(trimmed(name).as_str())
}

fn normalize_provider_name(name: &str) -> (r: String)
    ensures
        r@ == provider_name(name@),
{
    let plain = lowered(trimmed(name).as_str());
    if same(plain.as_str(), "open_ai") || same(plain.as_str(), "open-ai") {
        "openai".to_owned()
    } else if same(plain.as_str(), "anthropic_ai") || same(plain.as_str(), "anthropic-ai") {
        "anthropic".to_owned()
    } else {
        plain
    }
}

fn paths_to_prompt_tokens() -> (r: Paths)
    ensures
        r@ == prompt_token_paths(),
{
    Paths::none().one("prompt_tokens").one("input_tokens").two("metrics", "prompt_tokens").two(
        "metrics",
        "input_tokens",
    ).two("usage", "prompt_tokens").two("usage", "input_tokens").two(
        "token_usage",
        "prompt_tokens",
    ).three("llm_output", "token_usage", "prompt_tokens").one("gen_ai.usage.input_tokens").four(
        "langsmith.outputs",
        "llm_output",
        "token_usage",
        "prompt_tokens",
    ).three("langsmith.extra", "metadata", "prompt_tokens")
}

fn paths_to_completion_tokens() -> (r: Paths)
    ensures
        r@ == completion_token_paths(),
{
    Paths::none().one("completion_tokens").one("output_tokens").two(
        "metrics",
        "completion_tokens",
    ).two("metrics", "output_tokens").two("usage", "completion_tokens").two(
        "usage",
        "output_tokens",
    ).two("token_usage", "completion_tokens").three(
        "llm_output",
        "token_usage",
        "completion_tokens",
    ).one("gen_ai.usage.output_tokens").four(
        "langsmith.outputs",
        "llm_output",
        "token_usage",
        "completion_tokens",
    ).three("langsmith.extra", "metadata", "completion_tokens")
}

fn paths_to_total_tokens() -> (r: Paths)
    ensures
        r@ == total_token_paths(),
{
    Paths::none().one("total_tokens").two("metrics", "total_tokens").two(
        "usage",
        "total_tokens",
    ).two("token_usage", "total_tokens").three(
        "llm_output",
        "token_usage",
        "total_tokens",
    ).one("gen_ai.usage.total_tokens").four(
        "langsmith.outputs",
        "llm_output",
        "token_usage",
        "total_tokens",
    ).three("langsmith.extra", "metadata", "total_tokens")
}

fn paths_to_prompt_cost() -> (r: Paths)
    ensures
        r@ == prompt_cost_paths(),
{
    Paths::none().one("prompt_cost").one("input_cost").two("metrics", "prompt_cost").two(
        "metrics",
        "input_cost",
    ).two("usage", "prompt_cost").two("usage", "input_cost").three(
        "langsmith.extra",
        "metadata",
        "prompt_cost",
    )
}

fn paths_to_completion_cost() -> (r: Paths)
    ensures
        r@ == completion_cost_paths(),
{
    Paths::none().one("completion_cost").one("output_cost").two("metrics", "completion_cost").two(
        "metrics",
        "output_cost",
    ).two("usage", "completion_cost").two("usage", "output_cost").three(
        "langsmith.extra",
        "metadata",
        "completion_cost",
    )
}

fn paths_to_total_cost() -> (r: Paths)
    ensures
        r@ == total_cost_paths(),
{
    Paths::none().one("total_cost").one("cost").two("metrics", "total_cost").two(
        "metrics",
        "cost",
    ).two("usage", "total_cost").two("usage", "cost").three(
        "langsmith.extra",
        "metadata",
        "total_cost",
    )
}

fn paths_to_first_token_latency_nanos() -> (r: Paths)
    ensures
        r@ == first_token_latency_nanos_paths(),
{
    Paths::none().one("first_token_latency_nanos").two("metrics", "first_token_latency_nanos").three(
        "langsmith.extra",
        "metadata",
        "first_token_latency_nanos",
    )
}

fn paths_to_first_token_latency_seconds() -> (r: Paths)
    ensures
        r@ == first_token_latency_seconds_paths(),
{
    Paths::none().one("first_token_latency").two("metrics", "first_token_latency").three(
        "langsmith.extra",
        "metadata",
        "first_token_latency",
    )
}

/// The paths to the time of the first token.
pub fn paths_to_first_token_time() -> (r: Paths)
    ensures
        r@ == first_token_time_paths(),
{
    Paths::none().one("first_token_time_unix_nano").one("first_token_time").two(
        "metrics",
        "first_token_time_unix_nano",
    ).two("metrics", "first_token_time").three(
        "langsmith.extra",
        "metadata",
        "first_token_time_unix_nano",
    ).three("langsmith.extra", "metadata", "first_token_time")
}

fn paths_to_evaluator_score() -> (r: Paths)
    ensures
        r@ == evaluator_score_paths(),
{
    Paths::none().one("evaluator_score").one("score").two("metrics", "evaluator_score").two(
        "metrics",
        "score",
    ).two("feedback", "score").three("langsmith.extra", "metadata", "evaluator_score")
}

fn paths_to_model() -> (r: Paths)
    ensures
        r@ == model_paths(),
{
    Paths::none().one("gen_ai.request.model").one("gen_ai.response.model").one("model").one(
        "model_name",
    ).two("metadata", "model").two("metadata", "model_name").two(
        "metadata",
        "ls_model_name",
    ).two("invocation_params", "model").two("invocation_params", "model_name").three(
        "langsmith.extra",
        "metadata",
        "model",
    ).three("langsmith.extra", "metadata", "ls_model_name").three(
        "langsmith.extra",
        "invocation_params",
        "model",
    ).three("langsmith.outputs", "llm_output", "model_name")
}

fn paths_to_provider() -> (r: Paths)
    ensures
        r@ == provider_paths(),
{
    Paths::none().one("gen_ai.system").one("provider").one("provider_name").two(
        "metadata",
        "provider",
    ).two("metadata", "provider_name").two("metadata", "ls_provider").three(
        "langsmith.extra",
        "metadata",
        "provider",
    ).three("langsmith.extra", "metadata", "ls_provider")
}

fn sum_i64(left: Option<i64>, right: Option<i64>) -> (r: Option<i64>)
    ensures
        r == both_counts(left, right),
{
    match (left, right) {
        (Some(a), Some(b)) => Some(saturating_sum(a, b)),
        _ => None,
    }
}

fn first_token_latency_of(root: &Json, start: i64, readings: &FloatReadings) -> (r: Option<i64>)
    ensures
        r == first_token_latency(root@, start, readings@),
{
    if let Some(nanos) = scalar_i64(root, paths_to_first_token_latency_nanos()) {
        return Some(nanos);
    }
    if let Some(nanos) = scalar_seconds_as_nanos(
        root,
        paths_to_first_token_latency_seconds(),
        readings,
    ) {
        return Some(nanos);
    }
    match first_path_value(root, &paths_to_first_token_time()) {
        Some(value) => match timestamp_unix_nanos(value) {
            Some(time) => match time.checked_sub(start) {
                Some(n) => if n >= 0 {
                    Some(n)
                } else {
                    None
                },
                None => None,
            },
            None => None,
        },
        None => None,
    }
}

impl TypedRunMetrics {
    /// What attributes say of a run with these times.
    pub fn from_attributes(
        root: &Json,
        start_time_unix_nano: i64,
        end_time_unix_nano: i64,
        readings: &FloatReadings,
    ) -> (r: Self)
        ensures
            r@ == metrics_in(root@, start_time_unix_nano, end_time_unix_nano, readings@),
    {
        let prompt_tokens = scalar_i64(root, paths_to_prompt_tokens());
        let completion_tokens = scalar_i64(root, paths_to_completion_tokens());
        let total_tokens = match scalar_i64(root, paths_to_total_tokens()) {
            Some(n) => Some(n),
            None => sum_i64(prompt_tokens, completion_tokens),
        };
        let prompt_cost = scalar_float(root, paths_to_prompt_cost(), readings);
        let completion_cost = scalar_float(root, paths_to_completion_cost(), readings);
        let total_cost = match scalar_float(root, paths_to_total_cost(), readings) {
            Some(cost) => Cost::Stated(cost),
            None => match (prompt_cost, completion_cost) {
                (Some(a), Some(b)) => Cost::Summed(a, b),
                _ => Cost::Unknown,
            },
        };
        TypedRunMetrics {
            latency_nanos: latency_nanos(start_time_unix_nano, end_time_unix_nano),
            prompt_tokens,
            completion_tokens,
            total_tokens,
            prompt_cost,
            completion_cost,
            total_cost,
            first_token_latency_nanos: first_token_latency_of(
                root,
                start_time_unix_nano,
                readings,
            ),
            evaluator_score: scalar_float(root, paths_to_evaluator_score(), readings),
            model_name: match scalar_string(root, paths_to_model()) {
                Some(name) => Some(normalize_model_name(name.as_str())),
                None => None,
            },
            provider_name: match scalar_string(root, paths_to_provider()) {
                Some(name) => Some(normalize_provider_name(name.as_str())),
                None => None,
            },
        }
    }

    /// What the attributes of a record say of its run.
    pub fn from_record(record: &SpanRecord, readings: &FloatReadings) -> (r: Self)
        ensures
            r@ == metrics_in(
                attributes_value(record.attributes_json@),
                record.start_time_unix_nano,
                record.end_time_unix_nano,
                readings@,
            ),
    {
        let root = match read_json(record.attributes_json.as_str()) {
            Some(value) => value,
            None => Json::Null,
        };
        TypedRunMetrics::from_attributes(
            &root,
            record.start_time_unix_nano,
            record.end_time_unix_nano,
            readings,
        )
    }
}

/// The texts at paths that are read as floating-point numbers.
pub open spec fn float_texts_at(root: JsonValue, paths: Seq<Seq<Seq<char>>>) -> Seq<Seq<char>>
    decreases paths.len(),
{
    if paths.len() == 0 {
        Seq::empty()
    } else {
        let before = float_texts_at(root, paths.drop_last());
        match at_path(root, paths.last()) {
            Some(value) => with(before, float_text_in(value)),
            None => before,
        }
    }
}

/// The texts in attributes that are read as floating-point numbers.
pub open spec fn metric_texts(root: JsonValue) -> Seq<Seq<char>> {
    float_texts_at(root, prompt_cost_paths().list) + float_texts_at(
        root,
        completion_cost_paths().list,
    ) + float_texts_at(root, total_cost_paths().list) + float_texts_at(
        root,
        first_token_latency_seconds_paths().list,
    ) + float_texts_at(root, evaluator_score_paths().list)
}

fn push_float_texts(out: &mut Vec<String>, root: &Json, paths: Paths)
    ensures
        texts(final(out)@) == texts(old(out)@) + float_texts_at(root@, paths@.list),
{
    let ghost all = paths@.list;
    let ghost done = texts(out@);
    let mut i: usize = 0;
    assert(all.take(0) =~= Seq::empty());
    assert(done + Seq::<Seq<char>>::empty() =~= done);
    while i < paths.list.len()
        invariant
            i <= paths.list.len(),
            all == paths@.list,
            texts(out@) == done + float_texts_at(root@, all.take(i as int)),
        decreases paths.list.len() - i,
    {
        assert(all.take(i + 1).drop_last() =~= all.take(i as int));
        assert(all.take(i + 1).last() == texts(paths.list@[i as int]@));
        let ghost before = float_texts_at(root@, all.take(i as int));
        if let Some(value) = path_value(root, &paths.list[i]) {
            push_some(out, float_text_of(value));
            assert(texts(out@) =~= done + with(before, float_text_in(value@)));
        }
        i += 1;
    }
    assert(all.take(i as int) =~= all);
}

/// The texts in attributes that have to be read as floating-point numbers before the
/// metrics of their run can be told.
pub fn number_texts_of(root: &Json) -> (r: Vec<String>)
    ensures
        texts(r@) == metric_texts(root@),
{
    let mut out = no_texts();
    push_float_texts(&mut out, root, paths_to_prompt_cost());
    assert(texts(out@) =~= float_texts_at(root@, prompt_cost_paths().list));
    push_float_texts(&mut out, root, paths_to_completion_cost());
    push_float_texts(&mut out, root, paths_to_total_cost());
    push_float_texts(&mut out, root, paths_to_first_token_latency_seconds());
    push_float_texts(&mut out, root, paths_to_evaluator_score());
    out
}

/// The texts in the attributes of a record that have to be read as floating-point
/// numbers before its metrics can be told.
pub fn metric_number_texts(attributes_json: &str) -> (r: Vec<String>)
    ensures
        texts(r@) == metric_texts(attributes_value(attributes_json@)),
{
    let root = match read_json(attributes_json) {
        Some(value) => value,
        None => Json::Null,
    };
    number_texts_of(&root)
}

/// Whether a count stands at a place whose name is one of those that `is_name` knows.
pub open spec fn is_counted_under(
    root: JsonValue,
    n: i64,
    is_name: spec_fn(Seq<char>) -> bool,
) -> bool {
    exists|path: Seq<Seq<char>>|
        path.len() > 0 && is_name(path.last()) && #[trigger] count_at(root, path) == Some(n)
}

/// Whether an amount stands at a place whose name is one of those that `is_name` knows.
pub open spec fn is_amount_under(
    root: JsonValue,
    amount: Float,
    readings: Map<Seq<char>, Reading>,
    is_name: spec_fn(Seq<char>) -> bool,
) -> bool {
    exists|path: Seq<Seq<char>>|
        {
            &&& path.len() > 0
            &&& is_name(path.last())
            &&& #[trigger] amount_at(root, path, readings) is Some
            &&& amount_at(root, path, readings)->0.bits == amount.bits
        }
}

/// Whether a name stands at a place whose name is one of those that `is_name` knows.
pub open spec fn is_named_under(
    root: JsonValue,
    name: Seq<char>,
    is_name: spec_fn(Seq<char>) -> bool,
) -> bool {
    exists|path: Seq<Seq<char>>|
        {
            &&& path.len() > 0
            &&& is_name(path.last())
            &&& #[trigger] at_path(root, path) is Some
            &&& name_in(at_path(root, path)->0, MAX_NAME_BYTES as int) == Some(name)
        }
}

/// Whether all paths end in a name that `is_name` knows.
pub open spec fn end_in(
    paths: Seq<Seq<Seq<char>>>,
    is_name: spec_fn(Seq<char>) -> bool,
) -> bool {
    forall|i: int| 0 <= i < paths.len() ==> (#[trigger] paths[i]).len() > 0 && is_name(
        paths[i].last(),
    )
}

proof fn lemma_first_count(
    root: JsonValue,
    paths: Seq<Seq<Seq<char>>>,
    is_name: spec_fn(Seq<char>) -> bool,
)
    requires
        end_in(paths, is_name),
    ensures
        first_count(root, paths) matches Some(n) ==> 0 <= n && is_counted_under(root, n, is_name),
        paths.len() > 0 && count_at(root, paths[0]) is Some ==> first_count(root, paths)
            == count_at(root, paths[0]),
    decreases paths.len(),
{
    if paths.len() > 0 {
        assert(paths[0].len() > 0 && is_name(paths[0].last()));
        let rest = paths.skip(1);
        assert forall|i: int| 0 <= i < rest.len() implies (#[trigger] rest[i]).len() > 0 && is_name(
            rest[i].last(),
        ) by {
            assert(rest[i] == paths[i + 1]);
        }
        lemma_first_count(root, rest, is_name);
    }
}

proof fn lemma_first_amount(
    root: JsonValue,
    paths: Seq<Seq<Seq<char>>>,
    readings: Map<Seq<char>, Reading>,
    is_name: spec_fn(Seq<char>) -> bool,
)
    requires
        end_in(paths, is_name),
    ensures
        first_amount(root, paths, readings) matches Some(amount) ==> is_amount_under(
            root,
            amount,
            readings,
            is_name,
        ),
        paths.len() > 0 ==> (amount_at(root, paths[0], readings) matches Some(reading)
            ==> first_amount(root, paths, readings) == Some(Float { bits: reading.bits })),
    decreases paths.len(),
{
    if paths.len() > 0 {
        assert(paths[0].len() > 0 && is_name(paths[0].last()));
        let rest = paths.skip(1);
        assert forall|i: int| 0 <= i < rest.len() implies (#[trigger] rest[i]).len() > 0 && is_name(
            rest[i].last(),
        ) by {
            assert(rest[i] == paths[i + 1]);
        }
        lemma_first_amount(root, rest, readings, is_name);
    }
}

proof fn lemma_first_name(
    root: JsonValue,
    paths: Seq<Seq<Seq<char>>>,
    is_name: spec_fn(Seq<char>) -> bool,
)
    requires
        end_in(paths, is_name),
    ensures
        first_name(root, paths) matches Some(name) ==> is_named_under(root, name, is_name),
    decreases paths.len(),
{
    if paths.len() > 0 {
        assert(paths[0].len() > 0 && is_name(paths[0].last()));
        let rest = paths.skip(1);
        assert forall|i: int| 0 <= i < rest.len() implies (#[trigger] rest[i]).len() > 0 && is_name(
            rest[i].last(),
        ) by {
            assert(rest[i] == paths[i + 1]);
        }
        lemma_first_name(root, rest, is_name);
    }
}

pub open spec fn names_prompt_tokens(word: Seq<char>) -> bool {
    word == "prompt_tokens"@ || word == "input_tokens"@ || word == "gen_ai.usage.input_tokens"@
}

pub open spec fn names_completion_tokens(word: Seq<char>) -> bool {
    word == "completion_tokens"@ || word == "output_tokens"@ || word
        == "gen_ai.usage.output_tokens"@
}

pub open spec fn names_total_tokens(word: Seq<char>) -> bool {
    word == "total_tokens"@ || word == "gen_ai.usage.total_tokens"@
}

pub open spec fn names_prompt_cost(word: Seq<char>) -> bool {
    word == "prompt_cost"@ || word == "input_cost"@
}

pub open spec fn names_completion_cost(word: Seq<char>) -> bool {
    word == "completion_cost"@ || word == "output_cost"@
}

pub open spec fn names_total_cost(word: Seq<char>) -> bool {
    word == "total_cost"@ || word == "cost"@
}

pub open spec fn names_evaluator_score(word: Seq<char>) -> bool {
    word == "evaluator_score"@ || word == "score"@
}

pub open spec fn names_model(word: Seq<char>) -> bool {
    word == "model"@ || word == "model_name"@ || word == "ls_model_name"@ || word
        == "gen_ai.request.model"@ || word == "gen_ai.response.model"@
}

pub open spec fn names_provider(word: Seq<char>) -> bool {
    word == "provider"@ || word == "provider_name"@ || word == "ls_provider"@ || word
        == "gen_ai.system"@
}

/// Whether the attributes state the name of a model.
pub open spec fn states_model(root: JsonValue, name: Seq<char>) -> bool {
    is_named_under(root, name, |word: Seq<char>| names_model(word))
}

/// Whether the attributes state the name of a provider.
pub open spec fn states_provider(root: JsonValue, name: Seq<char>) -> bool {
    is_named_under(root, name, |word: Seq<char>| names_provider(word))
}

/// The tokens of a run are counts, none below zero, that its attributes state under a name for
/// them; what they state under the plain name comes before anything else. The total is what is
/// stated, and else the sum of the two, where both are known.
pub proof fn law_tokens_are_stated(
    root: JsonValue,
    start: i64,
    end: i64,
    readings: Map<Seq<char>, Reading>,
)
    ensures
        ({
            let metrics = metrics_in(root, start, end, readings);
            let plain = |word: Seq<char>| count_at(root, Seq::empty().push(word));
            &&& metrics.prompt_tokens matches Some(n) ==> 0 <= n && is_counted_under(
                root,
                n,
                |word: Seq<char>| names_prompt_tokens(word),
            )
            &&& metrics.completion_tokens matches Some(n) ==> 0 <= n && is_counted_under(
                root,
                n,
                |word: Seq<char>| names_completion_tokens(word),
            )
            &&& plain("prompt_tokens"@) is Some ==> metrics.prompt_tokens == plain(
                "prompt_tokens"@,
            )
            &&& plain("completion_tokens"@) is Some ==> metrics.completion_tokens == plain(
                "completion_tokens"@,
            )
            &&& plain("total_tokens"@) is Some ==> metrics.total_tokens == plain("total_tokens"@)
            &&& metrics.total_tokens matches Some(n) ==> is_counted_under(
                root,
                n,
                |word: Seq<char>| names_total_tokens(word),
            ) || {
                &&& metrics.prompt_tokens is Some
                &&& metrics.completion_tokens is Some
                &&& n == clamped(metrics.prompt_tokens->0 + metrics.completion_tokens->0)
            }
            &&& metrics.prompt_tokens is Some && metrics.completion_tokens is Some
                ==> metrics.total_tokens is Some
        }),
{
    let prompt = prompt_token_paths().list;
    let completion = completion_token_paths().list;
    let total = total_token_paths().list;
    let is_prompt = |word: Seq<char>| names_prompt_tokens(word);
    let is_completion = |word: Seq<char>| names_completion_tokens(word);
    let is_total = |word: Seq<char>| names_total_tokens(word);
    assert(prompt.len() == 11 && end_in(prompt, is_prompt));
    assert(completion.len() == 11 && end_in(completion, is_completion));
    assert(total.len() == 8 && end_in(total, is_total));
    assert(prompt[0] == Seq::empty().push("prompt_tokens"@));
    assert(completion[0] == Seq::empty().push("completion_tokens"@));
    assert(total[0] == Seq::empty().push("total_tokens"@));
    lemma_first_count(root, prompt, is_prompt);
    lemma_first_count(root, completion, is_completion);
    lemma_first_count(root, total, is_total);
}

/// The costs of a run are amounts that its attributes state under a name for them. The total is
/// what is stated, and else the sum of the two, where both are known; else it is not known.
pub proof fn law_costs_are_stated(
    root: JsonValue,
    start: i64,
    end: i64,
    readings: Map<Seq<char>, Reading>,
)
    ensures
        ({
            let metrics = metrics_in(root, start, end, readings);
            &&& metrics.prompt_cost matches Some(cost) ==> is_amount_under(
                root,
                cost,
                readings,
                |word: Seq<char>| names_prompt_cost(word),
            )
            &&& metrics.completion_cost matches Some(cost) ==> is_amount_under(
                root,
                cost,
                readings,
                |word: Seq<char>| names_completion_cost(word),
            )
            &&& metrics.evaluator_score matches Some(score) ==> is_amount_under(
                root,
                score,
                readings,
                |word: Seq<char>| names_evaluator_score(word),
            )
            &&& match metrics.total_cost {
                Cost::Stated(cost) => is_amount_under(
                    root,
                    cost,
                    readings,
                    |word: Seq<char>| names_total_cost(word),
                ),
                Cost::Summed(a, b) => metrics.prompt_cost == Some(a) && metrics.completion_cost
                    == Some(b),
                Cost::Unknown => metrics.prompt_cost is None || metrics.completion_cost is None,
            }
            &&& amount_at(root, Seq::empty().push("total_cost"@), readings) matches Some(reading)
                ==> metrics.total_cost == Cost::Stated(Float { bits: reading.bits })
            &&& amount_at(root, Seq::empty().push("prompt_cost"@), readings) matches Some(reading)
                ==> metrics.prompt_cost == Some(Float { bits: reading.bits })
            &&& amount_at(root, Seq::empty().push("completion_cost"@), readings) matches Some(
                reading,
            ) ==> metrics.completion_cost == Some(Float { bits: reading.bits })
            &&& amount_at(root, Seq::empty().push("evaluator_score"@), readings) matches Some(
                reading,
            ) ==> metrics.evaluator_score == Some(Float { bits: reading.bits })
        }),
{
    let prompt = prompt_cost_paths().list;
    let completion = completion_cost_paths().list;
    let total = total_cost_paths().list;
    let score = evaluator_score_paths().list;
    let is_prompt = |word: Seq<char>| names_prompt_cost(word);
    let is_completion = |word: Seq<char>| names_completion_cost(word);
    let is_total = |word: Seq<char>| names_total_cost(word);
    let is_score = |word: Seq<char>| names_evaluator_score(word);
    assert(prompt.len() == 7 && end_in(prompt, is_prompt));
    assert(completion.len() == 7 && end_in(completion, is_completion));
    assert(total.len() == 7 && end_in(total, is_total));
    assert(score.len() == 6 && end_in(score, is_score));
    assert(prompt[0] == Seq::empty().push("prompt_cost"@));
    assert(completion[0] == Seq::empty().push("completion_cost"@));
    assert(total[0] == Seq::empty().push("total_cost"@));
    assert(score[0] == Seq::empty().push("evaluator_score"@));
    lemma_first_amount(root, prompt, readings, is_prompt);
    lemma_first_amount(root, completion, readings, is_completion);
    lemma_first_amount(root, total, readings, is_total);
    lemma_first_amount(root, score, readings, is_score);
}

/// The model and the provider of a run are what its attributes state under a name for them, in
/// lower case; a provider goes by one name, whichever way it is written.
pub proof fn law_model_and_provider_are_stated(
    root: JsonValue,
    start: i64,
    end: i64,
    readings: Map<Seq<char>, Reading>,
)
    ensures
        ({
            let metrics = metrics_in(root, start, end, readings);
            &&& metrics.model_name matches Some(model) ==> exists|name: Seq<char>| #[trigger]
                states_model(root, name) && model == lower(trim(name))
            &&& metrics.provider_name matches Some(provider) ==> exists|name: Seq<char>| #[trigger]
                states_provider(root, name) && {
                    let plain = lower(trim(name));
                    &&& provider != "open_ai"@ && provider != "open-ai"@
                    &&& provider != "anthropic_ai"@ && provider != "anthropic-ai"@
                    &&& plain == "open_ai"@ || plain == "open-ai"@ || plain == "openai"@
                        <==> provider == "openai"@
                    &&& plain == "anthropic_ai"@ || plain == "anthropic-ai"@ || plain
                        == "anthropic"@ <==> provider == "anthropic"@
                    &&& provider == "openai"@ || provider == "anthropic"@ || provider == plain
                }
        }),
{
    let models = model_paths().list;
    let providers = provider_paths().list;
    let is_model = |word: Seq<char>| names_model(word);
    let is_provider = |word: Seq<char>| names_provider(word);
    assert(models.len() == 13 && end_in(models, is_model));
    assert(providers.len() == 8 && end_in(providers, is_provider));
    lemma_first_name(root, models, is_model);
    lemma_first_name(root, providers, is_provider);
    reveal_strlit("open_ai");
    reveal_strlit("open-ai");
    reveal_strlit("openai");
    reveal_strlit("anthropic_ai");
    reveal_strlit("anthropic-ai");
    reveal_strlit("anthropic");
    assert("open_ai"@.len() == 7 && "open-ai"@.len() == 7 && "openai"@.len() == 6);
    assert("anthropic_ai"@.len() == 12 && "anthropic-ai"@.len() == 12 && "anthropic"@.len() == 9);
    let metrics = metrics_in(root, start, end, readings);
    if metrics.model_name is Some {
        let name = first_name(root, models)->0;
        assert(states_model(root, name));
    }
    if metrics.provider_name is Some {
        let name = first_name(root, providers)->0;
        assert(states_provider(root, name));
    }
}

/// The latency of a run is the time from its start to its end, and nothing where it has not
/// ended or ended before it began. A run that ends later took longer.
pub proof fn law_latency(root: JsonValue, start: i64, end: i64, readings: Map<Seq<char>, Reading>)
    ensures
        ({
            let nanos = metrics_in(root, start, end, readings).latency_nanos;
            &&& 0 <= nanos
            &&& start <= end && end - start <= i64::MAX ==> start + nanos == end
            &&& end <= start ==> nanos == 0
        }),
{
}

/// The time to the first token is what is stated of it, in nanoseconds or in seconds, and else
/// the time from the start of the run to the stated time of the first token; it is never
/// negative.
pub proof fn law_first_token_latency(
    root: JsonValue,
    start: i64,
    readings: Map<Seq<char>, Reading>,
)
    ensures
        ({
            let plain = |word: Seq<char>| Seq::empty().push(word);
            let nanos = count_at(root, plain("first_token_latency_nanos"@));
            &&& nanos is Some ==> first_token_latency(root, start, readings) == nanos
            &&& first_count(root, first_token_latency_nanos_paths().list) is None && first_seconds(
                root,
                first_token_latency_seconds_paths().list,
                readings,
            ) is None ==> {
                &&& at_path(root, plain("first_token_time_unix_nano"@)) matches Some(value)
                    ==> match time_in(value) {
                    Some(time) => if start <= time && time - start <= i64::MAX {
                        first_token_latency(root, start, readings) matches Some(n) && start + n
                            == time
                    } else {
                        first_token_latency(root, start, readings) is None
                    },
                    None => first_token_latency(root, start, readings) is None,
                }
            }
        }),
{
    let paths = first_token_latency_nanos_paths().list;
    let times = first_token_time_paths().list;
    assert(paths.len() == 3);
    assert(paths[0] == Seq::empty().push("first_token_latency_nanos"@));
    assert(times.len() == 6);
    assert(times[0] == Seq::empty().push("first_token_time_unix_nano"@));
}

} // verus!
