//! What is kept of threads: which traces they go through, their messages, and a
//! summary.

use crate::float::Float;
use crate::ingest::preview::or_else;
use crate::metrics::latency;
use crate::metrics::latency_nanos;
use crate::query::planner::bytes_fit;
use crate::query::planner::sum_of;
use crate::text::after_prefix;
use crate::text::byte_len;
use crate::text::byte_length;
use crate::text::copy_option;
use crate::text::no_texts;
use crate::text::opt_text;
use crate::text::push_text;
use crate::text::starts_with;
use crate::text::texts;
use crate::text::trim;
use crate::text::trimmed;
use vstd::prelude::*;

verus! {

/// How long the id of a thread may be, in bytes.
pub const MAX_THREAD_ID_BYTES: usize = 256;

/// The id of a thread as it is kept: without white space around it, not empty, and
/// not too long.
pub open spec fn clean_id(id: Option<Seq<char>>) -> Option<Seq<char>> {
    match id {
        Some(text) => if trim(text).len() > 0 && byte_len(trim(text)) <= MAX_THREAD_ID_BYTES {
            Some(trim(text))
        } else {
            None
        },
        None => None,
    }
}

/// The id of a thread as it is kept.
pub fn clean_thread_id(value: &Option<String>) -> (r: Option<String>)
    ensures
        opt_text(r) == clean_id(opt_text(*value)),
{
    match value {
        Some(text) => {
            let plain = trimmed(text.as_str());
            if !plain.as_str().is_empty() && byte_length(plain.as_str()) <= MAX_THREAD_ID_BYTES {
                Some(plain)
            } else {
                None
            }
        },
        None => None,
    }
}

/// What follows the first of the prefixes that a tag starts with.
pub open spec fn behind_prefix(tag: Seq<char>, prefixes: Seq<Seq<char>>) -> Option<Seq<char>>
    decreases prefixes.len(),
{
    if prefixes.len() == 0 {
        None
    } else if starts_with(tag, prefixes[0]) {
        Some(tag.skip(prefixes[0].len() as int))
    } else {
        behind_prefix(tag, prefixes.skip(1))
    }
}

/// What follows a prefix in the first of the tags that starts with one.
pub open spec fn first_behind_prefix(tags: Seq<Seq<char>>, prefixes: Seq<Seq<char>>) -> Option<
    Seq<char>,
>
    decreases tags.len(),
{
    if tags.len() == 0 {
        None
    } else {
        or_else(behind_prefix(tags[0], prefixes), first_behind_prefix(tags.skip(1), prefixes))
    }
}

pub open spec fn thread_prefixes() -> Seq<Seq<char>> {
    Seq::empty().push("thread_id:"@).push("thread_id="@).push("thread:"@).push("thread="@)
}

pub open spec fn session_prefixes() -> Seq<Seq<char>> {
    Seq::empty().push("session_id:"@).push("session_id="@)
}

/// The thread that tags name: one that names a thread counts before one that names
/// a session.
pub open spec fn thread_in_tags(tags: Seq<Seq<char>>) -> Option<Seq<char>> {
    or_else(
        first_behind_prefix(tags, thread_prefixes()),
        first_behind_prefix(tags, session_prefixes()),
    )
}

fn tag_value(tag: &str, prefixes: &Vec<String>) -> (r: Option<String>)
    ensures
        opt_text(r) == behind_prefix(tag@, texts(prefixes@)),
{
    let ghost all = texts(prefixes@);
    let mut i: usize = 0;
    assert(all.skip(0) =~= all);
    while i < prefixes.len()
        invariant
            i <= prefixes.len(),
            all == texts(prefixes@),
            behind_prefix(tag@, all) == behind_prefix(tag@, all.skip(i as int)),
        decreases prefixes.len() - i,
    {
        assert(all.skip(i as int)[0] == prefixes@[i as int]@);
        assert(all.skip(i as int).skip(1) =~= all.skip(i + 1));
        let rest = after_prefix(tag, prefixes[i].as_str());
        if rest.is_some() {
            return rest;
        }
        i += 1;
    }
    assert(all.skip(i as int) =~= Seq::empty());
    None
}

fn first_tag_value(tags: &Vec<String>, prefixes: &Vec<String>) -> (r: Option<String>)
    ensures
        opt_text(r) == first_behind_prefix(texts(tags@), texts(prefixes@)),
{
    let ghost all = texts(tags@);
    let mut i: usize = 0;
    assert(all.skip(0) =~= all);
    while i < tags.len()
        invariant
            i <= tags.len(),
            all == texts(tags@),
            first_behind_prefix(all, texts(prefixes@)) == first_behind_prefix(
                all.skip(i as int),
                texts(prefixes@),
            ),
        decreases tags.len() - i,
    {
        assert(all.skip(i as int)[0] == tags@[i as int]@);
        assert(all.skip(i as int).skip(1) =~= all.skip(i + 1));
        let value = tag_value(tags[i].as_str(), prefixes);
        if value.is_some() {
            return value;
        }
        i += 1;
    }
    assert(all.skip(i as int) =~= Seq::empty());
    None
}

/// The thread that tags name.
pub fn thread_id_from_tags(tags: &Vec<String>) -> (r: Option<String>)
    ensures
        opt_text(r) == thread_in_tags(texts(tags@)),
{
    let mut prefixes = no_texts();
    push_text(&mut prefixes, "thread_id:".to_owned());
    push_text(&mut prefixes, "thread_id=".to_owned());
    push_text(&mut prefixes, "thread:".to_owned());
    push_text(&mut prefixes, "thread=".to_owned());
    let thread = first_tag_value(tags, &prefixes);
    if thread.is_some() {
        return thread;
    }
    let mut sessions = no_texts();
    push_text(&mut sessions, "session_id:".to_owned());
    push_text(&mut sessions, "session_id=".to_owned());
    first_tag_value(tags, &sessions)
}

/// The thread of a run: the one that its metadata names, else the session that they
/// name, else the one that its tags name.
pub open spec fn thread_of(
    metadata_thread: Option<Seq<char>>,
    metadata_session: Option<Seq<char>>,
    tags: Seq<Seq<char>>,
) -> Option<Seq<char>> {
    or_else(
        clean_id(metadata_thread),
        or_else(clean_id(metadata_session), clean_id(thread_in_tags(tags))),
    )
}

/// The thread of a run.
pub fn thread_id_of(
    metadata_thread_id: &Option<String>,
    metadata_session_id: &Option<String>,
    tags: &Vec<String>,
) -> (r: Option<String>)
    ensures
        opt_text(r) == thread_of(
            opt_text(*metadata_thread_id),
            opt_text(*metadata_session_id),
            texts(tags@),
        ),
{
    let thread = clean_thread_id(metadata_thread_id);
    if thread.is_some() {
        return thread;
    }
    let session = clean_thread_id(metadata_session_id);
    if session.is_some() {
        return session;
    }
    clean_thread_id(&thread_id_from_tags(tags))
}

/// A run of a trace, with the thread that it is in.
#[derive(Debug, PartialEq, Eq)]
pub struct ThreadRunRow {
    pub span_id: String,
    pub run_id: String,
    pub root_run_id: String,
    pub root_span_id: String,
    pub name: String,
    pub status: String,
    pub is_root: bool,
    pub start_time_unix_nano: i64,
    pub end_time_unix_nano: i64,
    pub prompt_tokens: Option<i64>,
    pub completion_tokens: Option<i64>,
    pub total_tokens: Option<i64>,
    pub prompt_cost: Option<Float>,
    pub completion_cost: Option<Float>,
    pub total_cost: Option<Float>,
    pub trace_segment_id: Option<i64>,
    pub row_index: Option<i64>,
    pub thread_id: Option<String>,
    pub inputs_preview: Option<String>,
    pub outputs_preview: Option<String>,
    pub error_preview: Option<String>,
    pub first_token_time_unix_nano: Option<i64>,
}

impl Clone for ThreadRunRow {
    fn clone(&self) -> (r: Self)
        ensures
            r == *self,
    {
        ThreadRunRow {
            span_id: self.span_id.clone(),
            run_id: self.run_id.clone(),
            root_run_id: self.root_run_id.clone(),
            root_span_id: self.root_span_id.clone(),
            name: self.name.clone(),
            status: self.status.clone(),
            is_root: self.is_root,
            start_time_unix_nano: self.start_time_unix_nano,
            end_time_unix_nano: self.end_time_unix_nano,
            prompt_tokens: self.prompt_tokens,
            completion_tokens: self.completion_tokens,
            total_tokens: self.total_tokens,
            prompt_cost: self.prompt_cost,
            completion_cost: self.completion_cost,
            total_cost: self.total_cost,
            trace_segment_id: self.trace_segment_id,
            row_index: self.row_index,
            thread_id: copy_option(&self.thread_id),
            inputs_preview: copy_option(&self.inputs_preview),
            outputs_preview: copy_option(&self.outputs_preview),
            error_preview: copy_option(&self.error_preview),
            first_token_time_unix_nano: self.first_token_time_unix_nano,
        }
    }
}

/// The first of the texts that is not empty.
pub open spec fn first_nonempty(a: Seq<char>, b: Seq<char>, otherwise: Seq<char>) -> Seq<char> {
    if a.len() > 0 {
        a
    } else if b.len() > 0 {
        b
    } else {
        otherwise
    }
}

/// The first of the texts that is not empty.
pub fn first_nonempty_text(a: &str, b: &str, otherwise: &str) -> (r: String)
    ensures
        r@ == first_nonempty(a@, b@, otherwise@),
{
    if !a.is_empty() {
        a.to_owned()
    } else if !b.is_empty() {
        b.to_owned()
    } else {
        otherwise.to_owned()
    }
}

/// The id that a run is known by.
pub open spec fn stable_id(run: ThreadRunRow) -> Seq<char> {
    first_nonempty(run.run_id@, run.root_run_id@, run.span_id@)
}

/// The id that a run is known by.
pub fn stable_run_id(run: &ThreadRunRow) -> (r: String)
    ensures
        r@ == stable_id(*run),
{
    first_nonempty_text(run.run_id.as_str(), run.root_run_id.as_str(), run.span_id.as_str())
}

/// Those of the numbers that there are.
pub open spec fn present<T>(numbers: Seq<Option<T>>) -> Seq<T>
    decreases numbers.len(),
{
    if numbers.len() == 0 {
        Seq::empty()
    } else {
        let before = present(numbers.drop_last());
        match numbers.last() {
            Some(n) => before.push(n),
            None => before,
        }
    }
}

/// The sum of those of the numbers that there are, if there are any.
pub open spec fn total_of(numbers: Seq<Option<i64>>) -> Option<i64> {
    if present(numbers).len() == 0 {
        None
    } else {
        Some(sum_of(present(numbers)) as i64)
    }
}

/// Those of the numbers that there are.
pub fn present_values<T: Copy>(numbers: &Vec<Option<T>>) -> (r: Vec<T>)
    ensures
        r@ == present(numbers@),
{
    let mut out: Vec<T> = Vec::new();
    let mut i: usize = 0;
    assert(numbers@.take(0) =~= Seq::empty());
    while i < numbers.len()
        invariant
            i <= numbers.len(),
            out@ == present(numbers@.take(i as int)),
        decreases numbers.len() - i,
    {
        assert(numbers@.take(i + 1).drop_last() =~= numbers@.take(i as int));
        match numbers[i] {
            Some(n) => {
                out.push(n);
            },
            None => {},
        }
        i += 1;
    }
    assert(numbers@.take(i as int) =~= numbers@);
    out
}

/// The sum of integers.
pub fn sum_integers(values: &Vec<i64>) -> (r: i64)
    requires
        bytes_fit(values@),
    ensures
        r == sum_of(values@),
{
    let mut total: i64 = 0;
    let mut i: usize = 0;
    assert(values@.take(0) =~= Seq::<i64>::empty());
    while i < values.len()
        invariant
            i <= values.len(),
            bytes_fit(values@),
            total == sum_of(values@.take(i as int)),
        decreases values.len() - i,
    {
        assert(values@.take(i + 1).drop_last() =~= values@.take(i as int));
        assert(i64::MIN <= sum_of(values@.take(i + 1)) <= i64::MAX);
        total = total + values[i];
        i += 1;
    }
    assert(values@.take(i as int) =~= values@);
    total
}

/// The sum of those of the numbers that there are, if there are any.
pub fn total(numbers: &Vec<Option<i64>>) -> (r: Option<i64>)
    requires
        bytes_fit(present(numbers@)),
    ensures
        r == total_of(numbers@),
{
    let values = present_values(numbers);
    if values.len() == 0 {
        None
    } else {
        proof {
            assert(values@.take(values@.len() as int) =~= values@);
        }
        Some(sum_integers(&values))
    }
}

/// The first preview that is not empty.
pub open spec fn first_preview(previews: Seq<Option<Seq<char>>>) -> Option<Seq<char>>
    decreases previews.len(),
{
    if previews.len() == 0 {
        None
    } else if previews[0] is Some && previews[0]->0.len() > 0 {
        previews[0]
    } else {
        first_preview(previews.skip(1))
    }
}

/// The last preview that is not empty.
pub open spec fn last_preview(previews: Seq<Option<Seq<char>>>) -> Option<Seq<char>>
    decreases previews.len(),
{
    if previews.len() == 0 {
        None
    } else if previews.last() is Some && previews.last()->0.len() > 0 {
        previews.last()
    } else {
        last_preview(previews.drop_last())
    }
}

pub open spec fn opt_texts(previews: Seq<Option<String>>) -> Seq<Option<Seq<char>>> {
    previews.map_values(|preview: Option<String>| opt_text(preview))
}

/// The first preview that is not empty.
pub fn find_first_preview(previews: &Vec<Option<String>>) -> (r: Option<String>)
    ensures
        opt_text(r) == first_preview(opt_texts(previews@)),
{
    let ghost all = opt_texts(previews@);
    let mut i: usize = 0;
    assert(all.skip(0) =~= all);
    while i < previews.len()
        invariant
            i <= previews.len(),
            all == opt_texts(previews@),
            first_preview(all) == first_preview(all.skip(i as int)),
        decreases previews.len() - i,
    {
        assert(all.skip(i as int)[0] == opt_text(previews@[i as int]));
        assert(all.skip(i as int).skip(1) =~= all.skip(i + 1));
        if let Some(text) = &previews[i] {
            if !text.as_str().is_empty() {
                return Some(text.clone());
            }
        }
        i += 1;
    }
    assert(all.skip(i as int) =~= Seq::empty());
    None
}

/// The last preview that is not empty.
pub fn find_last_preview(previews: &Vec<Option<String>>) -> (r: Option<String>)
    ensures
        opt_text(r) == last_preview(opt_texts(previews@)),
{
    let ghost all = opt_texts(previews@);
    let mut i: usize = previews.len();
    assert(all.take(i as int) =~= all);
    while i > 0
        invariant
            i <= previews.len(),
            all == opt_texts(previews@),
            last_preview(all) == last_preview(all.take(i as int)),
        decreases i,
    {
        assert(all.take(i as int).last() == opt_text(previews@[i - 1]));
        assert(all.take(i as int).drop_last() =~= all.take(i - 1));
        if let Some(text) = &previews[i - 1] {
            if !text.as_str().is_empty() {
                return Some(text.clone());
            }
        }
        i -= 1;
    }
    assert(all.take(0) =~= Seq::empty());
    None
}

/// The least of integers.
pub open spec fn least(values: Seq<i64>) -> i64
    decreases values.len(),
{
    if values.len() <= 1 {
        values[0]
    } else {
        let before = least(values.drop_last());
        if values.last() < before {
            values.last()
        } else {
            before
        }
    }
}

/// The greatest of integers.
pub open spec fn greatest(values: Seq<i64>) -> i64
    decreases values.len(),
{
    if values.len() <= 1 {
        values[0]
    } else {
        let before = greatest(values.drop_last());
        if values.last() > before {
            values.last()
        } else {
            before
        }
    }
}

/// The least of integers is one of them, and none is less.
pub proof fn law_least(values: Seq<i64>)
    requires
        values.len() > 0,
    ensures
        values.contains(least(values)),
        forall|i: int| 0 <= i < values.len() ==> least(values) <= #[trigger] values[i],
    decreases values.len(),
{
    if values.len() > 1 {
        let rest = values.drop_last();
        law_least(rest);
        let k = rest.index_of(least(rest));
        assert(values[k] == least(rest));
        assert(values[values.len() - 1] == values.last());
        assert forall|i: int| 0 <= i < values.len() implies least(values) <= #[trigger] values[i] by {
            if i < rest.len() {
                assert(values[i] == rest[i]);
            }
        }
    } else {
        assert(values[0] == least(values));
    }
}

/// The greatest of integers is one of them, and none is greater.
pub proof fn law_greatest(values: Seq<i64>)
    requires
        values.len() > 0,
    ensures
        values.contains(greatest(values)),
        forall|i: int| 0 <= i < values.len() ==> #[trigger] values[i] <= greatest(values),
    decreases values.len(),
{
    if values.len() > 1 {
        let rest = values.drop_last();
        law_greatest(rest);
        let k = rest.index_of(greatest(rest));
        assert(values[k] == greatest(rest));
        assert(values[values.len() - 1] == values.last());
        assert forall|i: int| 0 <= i < values.len() implies #[trigger] values[i] <= greatest(
            values,
        ) by {
            if i < rest.len() {
                assert(values[i] == rest[i]);
            }
        }
    } else {
        assert(values[0] == greatest(values));
    }
}

/// The least of integers.
pub fn least_of(values: &Vec<i64>) -> (r: i64)
    requires
        values@.len() > 0,
    ensures
        r == least(values@),
{
    let mut out: i64 = values[0];
    let mut i: usize = 1;
    while i < values.len()
        invariant
            1 <= i <= values.len(),
            out == least(values@.take(i as int)),
        decreases values.len() - i,
    {
        assert(values@.take(i + 1).drop_last() =~= values@.take(i as int));
        if values[i] < out {
            out = values[i];
        }
        i += 1;
    }
    assert(values@.take(i as int) =~= values@);
    out
}

/// The greatest of integers.
pub fn greatest_of(values: &Vec<i64>) -> (r: i64)
    requires
        values@.len() > 0,
    ensures
        r == greatest(values@),
{
    let mut out: i64 = values[0];
    let mut i: usize = 1;
    while i < values.len()
        invariant
            1 <= i <= values.len(),
            out == greatest(values@.take(i as int)),
        decreases values.len() - i,
    {
        assert(values@.take(i + 1).drop_last() =~= values@.take(i as int));
        if values[i] > out {
            out = values[i];
        }
        i += 1;
    }
    assert(values@.take(i as int) =~= values@);
    out
}

/// A trace of a thread, as it is kept.
#[derive(Debug, PartialEq, Eq)]
pub struct ThreadTraceUpsert {
    pub root_run_id: String,
    pub root_span_id: String,
    pub name: String,
    pub start_time_unix_nano: i64,
    pub end_time_unix_nano: i64,
    pub latency_nanos: i64,
    pub first_token_time_unix_nano: Option<i64>,
    pub inputs_preview: Option<String>,
    pub outputs_preview: Option<String>,
    pub error_preview: Option<String>,
    pub prompt_tokens: Option<i64>,
    pub completion_tokens: Option<i64>,
    pub total_tokens: Option<i64>,
    pub prompt_costs: Vec<Float>,
    pub completion_costs: Vec<Float>,
    pub total_costs: Vec<Float>,
}

/// What a [`ThreadTraceUpsert`] holds.
pub struct ThreadTrace {
    pub root_run_id: Seq<char>,
    pub root_span_id: Seq<char>,
    pub name: Seq<char>,
    pub start: i64,
    pub end: i64,
    pub latency: i64,
    pub first_token_time: Option<i64>,
    pub inputs: Option<Seq<char>>,
    pub outputs: Option<Seq<char>>,
    pub error: Option<Seq<char>>,
    pub prompt_tokens: Option<i64>,
    pub completion_tokens: Option<i64>,
    pub total_tokens: Option<i64>,
    pub prompt_costs: Seq<Float>,
    pub completion_costs: Seq<Float>,
    pub total_costs: Seq<Float>,
}

impl View for ThreadTraceUpsert {
    type V = ThreadTrace;

    open spec fn view(&self) -> ThreadTrace {
        ThreadTrace {
            root_run_id: self.root_run_id@,
            root_span_id: self.root_span_id@,
            name: self.name@,
            start: self.start_time_unix_nano,
            end: self.end_time_unix_nano,
            latency: self.latency_nanos,
            first_token_time: self.first_token_time_unix_nano,
            inputs: opt_text(self.inputs_preview),
            outputs: opt_text(self.outputs_preview),
            error: opt_text(self.error_preview),
            prompt_tokens: self.prompt_tokens,
            completion_tokens: self.completion_tokens,
            total_tokens: self.total_tokens,
            prompt_costs: self.prompt_costs@,
            completion_costs: self.completion_costs@,
            total_costs: self.total_costs@,
        }
    }
}

/// The place of the first root among runs, or the first place if there is none.
pub open spec fn root_place(runs: Seq<ThreadRunRow>, from: int) -> int
    decreases runs.len() - from,
{
    if from < 0 || from >= runs.len() {
        0
    } else if runs[from].is_root {
        from
    } else {
        root_place(runs, from + 1)
    }
}

/// The runs of a trace that are in one thread, taken together.
pub open spec fn thread_trace_of(runs: Seq<ThreadRunRow>) -> ThreadTrace {
    let root = runs[root_place(runs, 0)];
    let start = least(runs.map_values(|run: ThreadRunRow| run.start_time_unix_nano));
    let end = greatest(runs.map_values(|run: ThreadRunRow| run.end_time_unix_nano));
    let first_tokens = present(
        runs.map_values(|run: ThreadRunRow| run.first_token_time_unix_nano),
    );
    ThreadTrace {
        root_run_id: stable_id(root),
        root_span_id: first_nonempty(root.root_span_id@, root.span_id@, root.span_id@),
        name: root.name@,
        start,
        end,
        latency: latency(start, end),
        first_token_time: if first_tokens.len() == 0 {
            None
        } else {
            Some(least(first_tokens))
        },
        inputs: first_preview(runs.map_values(|run: ThreadRunRow| opt_text(run.inputs_preview))),
        outputs: last_preview(runs.map_values(|run: ThreadRunRow| opt_text(run.outputs_preview))),
        error: last_preview(runs.map_values(|run: ThreadRunRow| opt_text(run.error_preview))),
        prompt_tokens: total_of(runs.map_values(|run: ThreadRunRow| run.prompt_tokens)),
        completion_tokens: total_of(runs.map_values(|run: ThreadRunRow| run.completion_tokens)),
        total_tokens: total_of(runs.map_values(|run: ThreadRunRow| run.total_tokens)),
        prompt_costs: present(runs.map_values(|run: ThreadRunRow| run.prompt_cost)),
        completion_costs: present(runs.map_values(|run: ThreadRunRow| run.completion_cost)),
        total_costs: present(runs.map_values(|run: ThreadRunRow| run.total_cost)),
    }
}

/// Whether the tokens of runs are in the range of an `i64` as they are added up.
pub open spec fn tokens_fit(runs: Seq<ThreadRunRow>) -> bool {
    &&& bytes_fit(present(runs.map_values(|run: ThreadRunRow| run.prompt_tokens)))
    &&& bytes_fit(present(runs.map_values(|run: ThreadRunRow| run.completion_tokens)))
    &&& bytes_fit(present(runs.map_values(|run: ThreadRunRow| run.total_tokens)))
}

/// Something that is said of each of several runs, run by run.
struct RunColumns {
    starts: Vec<i64>,
    ends: Vec<i64>,
    first_tokens: Vec<Option<i64>>,
    inputs: Vec<Option<String>>,
    outputs: Vec<Option<String>>,
    errors: Vec<Option<String>>,
    prompt_tokens: Vec<Option<i64>>,
    completion_tokens: Vec<Option<i64>>,
    total_tokens: Vec<Option<i64>>,
    prompt_costs: Vec<Option<Float>>,
    completion_costs: Vec<Option<Float>>,
    total_costs: Vec<Option<Float>>,
}

spec fn are_columns_of(columns: RunColumns, runs: Seq<ThreadRunRow>) -> bool {
    &&& columns.starts@ =~= runs.map_values(|run: ThreadRunRow| run.start_time_unix_nano)
    &&& columns.ends@ =~= runs.map_values(|run: ThreadRunRow| run.end_time_unix_nano)
    &&& columns.first_tokens@ =~= runs.map_values(
        |run: ThreadRunRow| run.first_token_time_unix_nano,
    )
    &&& opt_texts(columns.inputs@) =~= runs.map_values(
        |run: ThreadRunRow| opt_text(run.inputs_preview),
    )
    &&& opt_texts(columns.outputs@) =~= runs.map_values(
        |run: ThreadRunRow| opt_text(run.outputs_preview),
    )
    &&& opt_texts(columns.errors@) =~= runs.map_values(
        |run: ThreadRunRow| opt_text(run.error_preview),
    )
    &&& columns.prompt_tokens@ =~= runs.map_values(|run: ThreadRunRow| run.prompt_tokens)
    &&& columns.completion_tokens@ =~= runs.map_values(|run: ThreadRunRow| run.completion_tokens)
    &&& columns.total_tokens@ =~= runs.map_values(|run: ThreadRunRow| run.total_tokens)
    &&& columns.prompt_costs@ =~= runs.map_values(|run: ThreadRunRow| run.prompt_cost)
    &&& columns.completion_costs@ =~= runs.map_values(|run: ThreadRunRow| run.completion_cost)
    &&& columns.total_costs@ =~= runs.map_values(|run: ThreadRunRow| run.total_cost)
}

fn columns_of(runs: &Vec<ThreadRunRow>) -> (r: RunColumns)
    ensures
        are_columns_of(r, runs@),
{
    let mut columns = RunColumns {
        starts: Vec::new(),
        ends: Vec::new(),
        first_tokens: Vec::new(),
        inputs: Vec::new(),
        outputs: Vec::new(),
        errors: Vec::new(),
        prompt_tokens: Vec::new(),
        completion_tokens: Vec::new(),
        total_tokens: Vec::new(),
        prompt_costs: Vec::new(),
        completion_costs: Vec::new(),
        total_costs: Vec::new(),
    };
    let mut i: usize = 0;
    while i < runs.len()
        invariant
            i <= runs.len(),
            are_columns_of(columns, runs@.take(i as int)),
        decreases runs.len() - i,
    {
        let run = &runs[i];
        assert(runs@.take(i + 1) =~= runs@.take(i as int).push(*run));
        let ghost inputs = opt_texts(columns.inputs@);
        let ghost outputs = opt_texts(columns.outputs@);
        let ghost errors = opt_texts(columns.errors@);
        columns.starts.push(run.start_time_unix_nano);
        columns.ends.push(run.end_time_unix_nano);
        columns.first_tokens.push(run.first_token_time_unix_nano);
        columns.inputs.push(copy_option(&run.inputs_preview));
        columns.outputs.push(copy_option(&run.outputs_preview));
        columns.errors.push(copy_option(&run.error_preview));
        columns.prompt_tokens.push(run.prompt_tokens);
        columns.completion_tokens.push(run.completion_tokens);
        columns.total_tokens.push(run.total_tokens);
        columns.prompt_costs.push(run.prompt_cost);
        columns.completion_costs.push(run.completion_cost);
        columns.total_costs.push(run.total_cost);
        assert(opt_texts(columns.inputs@) =~= inputs.push(opt_text(run.inputs_preview)));
        assert(opt_texts(columns.outputs@) =~= outputs.push(opt_text(run.outputs_preview)));
        assert(opt_texts(columns.errors@) =~= errors.push(opt_text(run.error_preview)));
        i += 1;
    }
    assert(runs@.take(i as int) =~= runs@);
    columns
}

fn find_root(runs: &Vec<ThreadRunRow>) -> (r: usize)
    requires
        runs@.len() > 0,
    ensures
        r == root_place(runs@, 0),
        r < runs@.len(),
{
    let mut i: usize = 0;
    while i < runs.len()
        invariant
            i <= runs.len(),
            runs@.len() > 0,
            root_place(runs@, 0) == root_place(runs@, i as int),
        decreases runs.len() - i,
    {
        if runs[i].is_root {
            return i;
        }
        i += 1;
    }
    0
}

/// The runs of a trace that are in one thread, taken together.
pub fn build_thread_trace_upsert(runs: &Vec<ThreadRunRow>) -> (r: ThreadTraceUpsert)
    requires
        runs@.len() > 0,
        tokens_fit(runs@),
    ensures
        r@ == thread_trace_of(runs@),
{
    let root = &runs[find_root(runs)];
    let columns = columns_of(runs);
    let start = least_of(&columns.starts);
    let end = greatest_of(&columns.ends);
    let first_tokens = present_values(&columns.first_tokens);
    let first_token = if first_tokens.len() == 0 {
        None
    } else {
        Some(least_of(&first_tokens))
    };
    ThreadTraceUpsert {
        root_run_id: stable_run_id(root),
        root_span_id: first_nonempty_text(
            root.root_span_id.as_str(),
            root.span_id.as_str(),
            root.span_id.as_str(),
        ),
        name: root.name.clone(),
        start_time_unix_nano: start,
        end_time_unix_nano: end,
        latency_nanos: latency_nanos(start, end),
        first_token_time_unix_nano: first_token,
        inputs_preview: find_first_preview(&columns.inputs),
        outputs_preview: find_last_preview(&columns.outputs),
        error_preview: find_last_preview(&columns.errors),
        prompt_tokens: total(&columns.prompt_tokens),
        completion_tokens: total(&columns.completion_tokens),
        total_tokens: total(&columns.total_tokens),
        prompt_costs: present_values(&columns.prompt_costs),
        completion_costs: present_values(&columns.completion_costs),
        total_costs: present_values(&columns.total_costs),
    }
}

/// A preview that says something.
pub open spec fn is_told(preview: Option<String>) -> bool {
    preview matches Some(text) && text@.len() > 0
}

/// Of two numbers that there may be the sum, or the one that there is.
pub open spec fn plus(a: Option<i64>, b: Option<i64>) -> Option<int> {
    match (a, b) {
        (Some(x), Some(y)) => Some(x + y),
        (Some(x), None) => Some(x as int),
        (None, Some(y)) => Some(y as int),
        (None, None) => None,
    }
}

/// A number, if there is one, without a bound.
pub open spec fn wide(n: Option<i64>) -> Option<int> {
    match n {
        Some(x) => Some(x as int),
        None => None,
    }
}

/// The numbers with one more, if there is one.
pub open spec fn with_one<T>(numbers: Seq<T>, more: Option<T>) -> Seq<T> {
    match more {
        Some(n) => numbers.push(n),
        None => numbers,
    }
}

pub proof fn lemma_last_preview(previews: Seq<Option<Seq<char>>>)
    ensures
        match last_preview(previews) {
            Some(text) => exists|i: int|
                0 <= i < previews.len() && #[trigger] previews[i] == Some(text) && text.len() > 0
                    && forall|j: int|
                    i < j < previews.len() ==> !((#[trigger] previews[j]) matches Some(later)
                        && later.len() > 0),
            None => forall|j: int|
                0 <= j < previews.len() ==> !((#[trigger] previews[j]) matches Some(text)
                    && text.len() > 0),
        },
    decreases previews.len(),
{
    if previews.len() > 0 {
        let rest = previews.drop_last();
        lemma_last_preview(rest);
        let last = previews.len() - 1;
        if previews.last() is Some && previews.last()->0.len() > 0 {
            assert(previews[last] == Some(previews.last()->0));
        } else {
            match last_preview(rest) {
                Some(text) => {
                    let i = choose|i: int|
                        0 <= i < rest.len() && #[trigger] rest[i] == Some(text) && text.len() > 0
                            && forall|j: int|
                            i < j < rest.len() ==> !((#[trigger] rest[j]) matches Some(later)
                                && later.len() > 0);
                    assert(previews[i] == Some(text));
                    assert forall|j: int| i < j < previews.len() implies !((
                    #[trigger] previews[j]) matches Some(later) && later.len() > 0) by {
                        if j < last {
                            assert(previews[j] == rest[j]);
                        }
                    }
                },
                None => {
                    assert forall|j: int| 0 <= j < previews.len() implies !((
                    #[trigger] previews[j]) matches Some(text) && text.len() > 0) by {
                        if j < last {
                            assert(previews[j] == rest[j]);
                        }
                    }
                },
            }
        }
    }
}

pub proof fn lemma_first_preview(previews: Seq<Option<Seq<char>>>)
    ensures
        match first_preview(previews) {
            Some(text) => exists|i: int|
                0 <= i < previews.len() && #[trigger] previews[i] == Some(text) && text.len() > 0
                    && forall|j: int|
                    0 <= j < i ==> !((#[trigger] previews[j]) matches Some(sooner) && sooner.len()
                        > 0),
            None => forall|j: int|
                0 <= j < previews.len() ==> !((#[trigger] previews[j]) matches Some(text)
                    && text.len() > 0),
        },
    decreases previews.len(),
{
    if previews.len() > 0 {
        let rest = previews.skip(1);
        lemma_first_preview(rest);
        if previews[0] is Some && previews[0]->0.len() > 0 {
            assert(previews[0] == Some(previews[0]->0));
        } else {
            match first_preview(rest) {
                Some(text) => {
                    let i = choose|i: int|
                        0 <= i < rest.len() && #[trigger] rest[i] == Some(text) && text.len() > 0
                            && forall|j: int|
                            0 <= j < i ==> !((#[trigger] rest[j]) matches Some(sooner)
                                && sooner.len() > 0);
                    assert(previews[i + 1] == Some(text));
                    assert forall|j: int| 0 <= j < i + 1 implies !((
                    #[trigger] previews[j]) matches Some(sooner) && sooner.len() > 0) by {
                        if j > 0 {
                            assert(previews[j] == rest[j - 1]);
                        }
                    }
                },
                None => {
                    assert forall|j: int| 0 <= j < previews.len() implies !((
                    #[trigger] previews[j]) matches Some(text) && text.len() > 0) by {
                        if j > 0 {
                            assert(previews[j] == rest[j - 1]);
                        }
                    }
                },
            }
        }
    }
}

/// The previews of a trace of a thread are those of its runs: what goes in is told by the
/// first run that tells any of it, and what comes out and what went wrong by the last; and
/// what no run tells is not told.
pub proof fn law_previews_of_a_thread_trace(runs: Seq<ThreadRunRow>)
    ensures
        match thread_trace_of(runs).inputs {
            Some(text) => exists|i: int|
                0 <= i < runs.len() && is_told((#[trigger] runs[i]).inputs_preview) && text
                    == runs[i].inputs_preview->0@ && forall|j: int|
                    0 <= j < i ==> !is_told((#[trigger] runs[j]).inputs_preview),
            None => forall|j: int|
                0 <= j < runs.len() ==> !is_told((#[trigger] runs[j]).inputs_preview),
        },
        match thread_trace_of(runs).outputs {
            Some(text) => exists|i: int|
                0 <= i < runs.len() && is_told((#[trigger] runs[i]).outputs_preview) && text
                    == runs[i].outputs_preview->0@ && forall|j: int|
                    i < j < runs.len() ==> !is_told((#[trigger] runs[j]).outputs_preview),
            None => forall|j: int|
                0 <= j < runs.len() ==> !is_told((#[trigger] runs[j]).outputs_preview),
        },
        match thread_trace_of(runs).error {
            Some(text) => exists|i: int|
                0 <= i < runs.len() && is_told((#[trigger] runs[i]).error_preview) && text
                    == runs[i].error_preview->0@ && forall|j: int|
                    i < j < runs.len() ==> !is_told((#[trigger] runs[j]).error_preview),
            None => forall|j: int|
                0 <= j < runs.len() ==> !is_told((#[trigger] runs[j]).error_preview),
        },
{
    let inputs = runs.map_values(|run: ThreadRunRow| opt_text(run.inputs_preview));
    let outputs = runs.map_values(|run: ThreadRunRow| opt_text(run.outputs_preview));
    let errors = runs.map_values(|run: ThreadRunRow| opt_text(run.error_preview));
    lemma_first_preview(inputs);
    lemma_last_preview(outputs);
    lemma_last_preview(errors);
    assert forall|j: int| 0 <= j < runs.len() implies is_told((#[trigger] runs[j]).inputs_preview)
        == (inputs[j] matches Some(text) && text.len() > 0) by {}
    assert forall|j: int| 0 <= j < runs.len() implies is_told((#[trigger] runs[j]).outputs_preview)
        == (outputs[j] matches Some(text) && text.len() > 0) by {}
    assert forall|j: int| 0 <= j < runs.len() implies is_told((#[trigger] runs[j]).error_preview)
        == (errors[j] matches Some(text) && text.len() > 0) by {}
    match thread_trace_of(runs).inputs {
        Some(text) => {
            let i = choose|i: int|
                0 <= i < inputs.len() && #[trigger] inputs[i] == Some(text) && text.len() > 0
                    && forall|j: int|
                    0 <= j < i ==> !((#[trigger] inputs[j]) matches Some(sooner) && sooner.len()
                        > 0);
            assert(is_told(runs[i].inputs_preview));
        },
        None => {},
    }
    match thread_trace_of(runs).outputs {
        Some(text) => {
            let i = choose|i: int|
                0 <= i < outputs.len() && #[trigger] outputs[i] == Some(text) && text.len() > 0
                    && forall|j: int|
                    i < j < outputs.len() ==> !((#[trigger] outputs[j]) matches Some(later)
                        && later.len() > 0);
            assert(is_told(runs[i].outputs_preview));
        },
        None => {},
    }
    match thread_trace_of(runs).error {
        Some(text) => {
            let i = choose|i: int|
                0 <= i < errors.len() && #[trigger] errors[i] == Some(text) && text.len() > 0
                    && forall|j: int|
                    i < j < errors.len() ==> !((#[trigger] errors[j]) matches Some(later)
                        && later.len() > 0);
            assert(is_told(runs[i].error_preview));
        },
        None => {},
    }
}

/// A trace of a thread with one run is that run.
pub proof fn law_thread_trace_of_one_run(run: ThreadRunRow)
    ensures
        ({
            let trace = thread_trace_of(seq![run]);
            &&& run.run_id@.len() > 0 ==> trace.root_run_id == run.run_id@
            &&& run.root_span_id@.len() > 0 ==> trace.root_span_id == run.root_span_id@
            &&& run.root_span_id@.len() == 0 ==> trace.root_span_id == run.span_id@
            &&& trace.name == run.name@
            &&& trace.start == run.start_time_unix_nano
            &&& trace.end == run.end_time_unix_nano
            &&& trace.first_token_time == run.first_token_time_unix_nano
            &&& trace.prompt_tokens == run.prompt_tokens
            &&& trace.completion_tokens == run.completion_tokens
            &&& trace.total_tokens == run.total_tokens
            &&& trace.prompt_costs == with_one(Seq::empty(), run.prompt_cost)
            &&& trace.completion_costs == with_one(Seq::empty(), run.completion_cost)
            &&& trace.total_costs == with_one(Seq::empty(), run.total_cost)
        }),
{
    let runs = seq![run];
    lemma_present_of_one(runs.map_values(|r: ThreadRunRow| r.first_token_time_unix_nano));
    lemma_present_of_one(runs.map_values(|r: ThreadRunRow| r.prompt_tokens));
    lemma_present_of_one(runs.map_values(|r: ThreadRunRow| r.completion_tokens));
    lemma_present_of_one(runs.map_values(|r: ThreadRunRow| r.total_tokens));
    lemma_present_of_one(runs.map_values(|r: ThreadRunRow| r.prompt_cost));
    lemma_present_of_one(runs.map_values(|r: ThreadRunRow| r.completion_cost));
    lemma_present_of_one(runs.map_values(|r: ThreadRunRow| r.total_cost));
    reveal_with_fuel(root_place, 2);
    reveal_with_fuel(sum_of, 2);
}

proof fn lemma_present_of_one<T>(numbers: Seq<Option<T>>)
    requires
        numbers.len() == 1,
    ensures
        present(numbers) == with_one(Seq::<T>::empty(), numbers[0]),
{
    assert(numbers.drop_last() =~= Seq::empty());
    assert(present(numbers.drop_last()) =~= Seq::<T>::empty());
}

pub proof fn lemma_total_of_more(numbers: Seq<Option<i64>>, more: Option<i64>)
    requires
        bytes_fit(present(numbers.push(more))),
    ensures
        wide(total_of(numbers.push(more))) == plus(total_of(numbers), more),
{
    let all = numbers.push(more);
    assert(all.drop_last() =~= numbers);
    let before = present(numbers);
    assert(before.take(before.len() as int) =~= before);
    if more is Some {
        let now = present(all);
        assert(now.take(now.len() as int) =~= now);
        assert(now.take(before.len() as int) =~= before);
        assert(now.drop_last() =~= before);
        assert(i64::MIN <= sum_of(now.take(before.len() as int)) <= i64::MAX);
        assert(i64::MIN <= sum_of(now.take(now.len() as int)) <= i64::MAX);
        if before.len() == 0 {
            assert(sum_of(before) == 0);
        }
    }
}

/// One more run at the end widens a trace of a thread to its times, adds its tokens and
/// costs, and tells what it tells of outputs and errors; the inputs stay if they are told,
/// and the root stays if there is one.
pub proof fn law_thread_trace_with_one_more_run(runs: Seq<ThreadRunRow>, run: ThreadRunRow)
    requires
        runs.len() > 0,
        tokens_fit(runs.push(run)),
    ensures
        ({
            let before = thread_trace_of(runs);
            let after = thread_trace_of(runs.push(run));
            &&& after.start == if run.start_time_unix_nano < before.start {
                run.start_time_unix_nano
            } else {
                before.start
            }
            &&& after.end == if run.end_time_unix_nano > before.end {
                run.end_time_unix_nano
            } else {
                before.end
            }
            &&& after.end >= after.start && after.end - after.start <= i64::MAX ==> after.latency
                == after.end - after.start
            &&& after.end < after.start ==> after.latency == 0
            &&& after.outputs == if is_told(run.outputs_preview) {
                opt_text(run.outputs_preview)
            } else {
                before.outputs
            }
            &&& after.error == if is_told(run.error_preview) {
                opt_text(run.error_preview)
            } else {
                before.error
            }
            &&& after.inputs == if before.inputs is Some {
                before.inputs
            } else if is_told(run.inputs_preview) {
                opt_text(run.inputs_preview)
            } else {
                None
            }
            &&& wide(after.prompt_tokens) == plus(before.prompt_tokens, run.prompt_tokens)
            &&& wide(after.completion_tokens) == plus(
                before.completion_tokens,
                run.completion_tokens,
            )
            &&& wide(after.total_tokens) == plus(before.total_tokens, run.total_tokens)
            &&& after.prompt_costs == with_one(before.prompt_costs, run.prompt_cost)
            &&& after.completion_costs == with_one(before.completion_costs, run.completion_cost)
            &&& after.total_costs == with_one(before.total_costs, run.total_cost)
            &&& after.first_token_time == match (
                before.first_token_time,
                run.first_token_time_unix_nano,
            ) {
                (Some(a), Some(b)) => Some(
                    if b < a {
                        b
                    } else {
                        a
                    },
                ),
                (Some(a), None) => Some(a),
                (None, b) => b,
            }
        }),
{
    let all = runs.push(run);
    let starts = |r: ThreadRunRow| r.start_time_unix_nano;
    let ends = |r: ThreadRunRow| r.end_time_unix_nano;
    let firsts = |r: ThreadRunRow| r.first_token_time_unix_nano;
    let inputs = |r: ThreadRunRow| opt_text(r.inputs_preview);
    let outputs = |r: ThreadRunRow| opt_text(r.outputs_preview);
    let errors = |r: ThreadRunRow| opt_text(r.error_preview);
    let prompts = |r: ThreadRunRow| r.prompt_tokens;
    let completions = |r: ThreadRunRow| r.completion_tokens;
    let totals = |r: ThreadRunRow| r.total_tokens;
    let prompt_costs = |r: ThreadRunRow| r.prompt_cost;
    let completion_costs = |r: ThreadRunRow| r.completion_cost;
    let total_costs = |r: ThreadRunRow| r.total_cost;
    lemma_map_of_more(runs, run, starts);
    lemma_map_of_more(runs, run, ends);
    lemma_map_of_more(runs, run, firsts);
    lemma_map_of_more(runs, run, inputs);
    lemma_map_of_more(runs, run, outputs);
    lemma_map_of_more(runs, run, errors);
    lemma_map_of_more(runs, run, prompts);
    lemma_map_of_more(runs, run, completions);
    lemma_map_of_more(runs, run, totals);
    lemma_map_of_more(runs, run, prompt_costs);
    lemma_map_of_more(runs, run, completion_costs);
    lemma_map_of_more(runs, run, total_costs);
    lemma_total_of_more(runs.map_values(prompts), run.prompt_tokens);
    lemma_total_of_more(runs.map_values(completions), run.completion_tokens);
    lemma_total_of_more(runs.map_values(totals), run.total_tokens);
    lemma_first_preview_of_more(runs.map_values(inputs), opt_text(run.inputs_preview));
    lemma_least_of_present(runs.map_values(firsts), run.first_token_time_unix_nano);
}

proof fn lemma_map_of_more<T>(
    runs: Seq<ThreadRunRow>,
    run: ThreadRunRow,
    told: spec_fn(ThreadRunRow) -> T,
)
    ensures
        runs.push(run).map_values(told) == runs.map_values(told).push(told(run)),
        runs.push(run).map_values(told).drop_last() == runs.map_values(told),
{
    assert(runs.push(run).map_values(told) =~= runs.map_values(told).push(told(run)));
    assert(runs.push(run).map_values(told).drop_last() =~= runs.map_values(told));
}

proof fn lemma_least_of_present(numbers: Seq<Option<i64>>, more: Option<i64>)
    ensures
        ({
            let before = present(numbers);
            let after = present(numbers.push(more));
            &&& more is None ==> after == before
            &&& more is Some ==> after == before.push(more->0) && after.drop_last() == before
            &&& more is Some && before.len() == 0 ==> least(after) == more->0
        }),
{
    assert(numbers.push(more).drop_last() =~= numbers);
    if more is Some {
        assert(present(numbers).push(more->0).drop_last() =~= present(numbers));
    }
}

proof fn lemma_first_preview_of_more(
    previews: Seq<Option<Seq<char>>>,
    more: Option<Seq<char>>,
)
    ensures
        first_preview(previews.push(more)) == if first_preview(previews) is Some {
            first_preview(previews)
        } else if more is Some && more->0.len() > 0 {
            more
        } else {
            None
        },
    decreases previews.len(),
{
    let all = previews.push(more);
    if previews.len() == 0 {
        assert(all.skip(1) =~= Seq::empty());
        assert(first_preview(all.skip(1)) is None);
    } else {
        assert(all.skip(1) =~= previews.skip(1).push(more));
        lemma_first_preview_of_more(previews.skip(1), more);
    }
}

/// The first root among the runs names the trace of a thread, and without one the first
/// run does.
pub proof fn law_root_names_the_thread_trace(runs: Seq<ThreadRunRow>, i: int)
    requires
        0 <= i < runs.len(),
        forall|j: int| 0 <= j < i ==> !(#[trigger] runs[j]).is_root,
        runs[i].is_root || i == 0 && forall|j: int|
            0 <= j < runs.len() ==> !(#[trigger] runs[j]).is_root,
    ensures
        thread_trace_of(runs).name == runs[i].name@,
        runs[i].run_id@.len() > 0 ==> thread_trace_of(runs).root_run_id == runs[i].run_id@,
        runs[i].root_span_id@.len() > 0 ==> thread_trace_of(runs).root_span_id
            == runs[i].root_span_id@,
{
    lemma_root_place(runs, 0, i);
}

proof fn lemma_root_place(runs: Seq<ThreadRunRow>, from: int, i: int)
    requires
        0 <= from <= runs.len(),
        0 <= i < runs.len(),
        forall|j: int| from <= j < i ==> !(#[trigger] runs[j]).is_root,
        runs[i].is_root && from <= i || i == 0 && forall|j: int|
            from <= j < runs.len() ==> !(#[trigger] runs[j]).is_root,
    ensures
        root_place(runs, from) == i,
    decreases runs.len() - from,
{
    if from < runs.len() && !runs[from].is_root {
        lemma_root_place(runs, from + 1, i);
    }
}

/// Whether a tag names a thread.
pub open spec fn names_thread(tag: Seq<char>, id: Seq<char>) -> bool {
    tag == "thread_id:"@ + id || tag == "thread_id="@ + id || tag == "thread:"@ + id || tag
        == "thread="@ + id
}

/// Whether a tag names a session.
pub open spec fn names_session(tag: Seq<char>, id: Seq<char>) -> bool {
    tag == "session_id:"@ + id || tag == "session_id="@ + id
}

proof fn lemma_behind_prefix(tag: Seq<char>, prefixes: Seq<Seq<char>>)
    ensures
        behind_prefix(tag, prefixes) matches Some(id) ==> exists|i: int|
            0 <= i < prefixes.len() && tag == #[trigger] prefixes[i] + id,
        behind_prefix(tag, prefixes) is None ==> forall|i: int, id: Seq<char>|
            0 <= i < prefixes.len() ==> tag != #[trigger] (prefixes[i] + id),
    decreases prefixes.len(),
{
    if prefixes.len() > 0 {
        let first = prefixes[0];
        let rest = prefixes.skip(1);
        lemma_behind_prefix(tag, rest);
        if starts_with(tag, first) {
            let id = tag.skip(first.len() as int);
            assert(tag =~= first + id);
            assert(tag == prefixes[0] + id);
        } else {
            if behind_prefix(tag, prefixes) is Some {
                let id = behind_prefix(tag, prefixes)->0;
                let i = choose|i: int| 0 <= i < rest.len() && tag == #[trigger] rest[i] + id;
                assert(prefixes[i + 1] == rest[i]);
                assert(tag == prefixes[i + 1] + id);
            } else {
                assert forall|i: int, id: Seq<char>| 0 <= i < prefixes.len() implies tag
                    != #[trigger] (prefixes[i] + id) by {
                    if i == 0 {
                        assert((first + id).take(first.len() as int) =~= first);
                    } else {
                        assert(prefixes[i] == rest[i - 1]);
                        assert(tag != rest[i - 1] + id);
                    }
                }
            }
        }
    }
}

proof fn lemma_first_behind_prefix(tags: Seq<Seq<char>>, prefixes: Seq<Seq<char>>)
    ensures
        first_behind_prefix(tags, prefixes) matches Some(id) ==> exists|k: int|
            0 <= k < tags.len() && #[trigger] behind_prefix(tags[k], prefixes) == Some(id),
        first_behind_prefix(tags, prefixes) is None ==> forall|k: int|
            0 <= k < tags.len() ==> #[trigger] behind_prefix(tags[k], prefixes) is None,
    decreases tags.len(),
{
    if tags.len() > 0 {
        let rest = tags.skip(1);
        lemma_first_behind_prefix(rest, prefixes);
        if behind_prefix(tags[0], prefixes) is None {
            if first_behind_prefix(tags, prefixes) is Some {
                let id = first_behind_prefix(tags, prefixes)->0;
                let k = choose|k: int|
                    0 <= k < rest.len() && #[trigger] behind_prefix(rest[k], prefixes) == Some(id);
                assert(tags[k + 1] == rest[k]);
                assert(behind_prefix(tags[k + 1], prefixes) == Some(id));
            } else {
                assert forall|k: int| 0 <= k < tags.len() implies #[trigger] behind_prefix(
                    tags[k],
                    prefixes,
                ) is None by {
                    if k > 0 {
                        assert(tags[k] == rest[k - 1]);
                        assert(behind_prefix(rest[k - 1], prefixes) is None);
                    }
                }
            }
        }
    }
}

proof fn lemma_thread_prefixes(tag: Seq<char>)
    ensures
        behind_prefix(tag, thread_prefixes()) matches Some(id) ==> names_thread(tag, id),
        behind_prefix(tag, thread_prefixes()) is None ==> forall|id: Seq<char>|
            !#[trigger] names_thread(tag, id),
        behind_prefix(tag, session_prefixes()) matches Some(id) ==> names_session(tag, id),
        behind_prefix(tag, session_prefixes()) is None ==> forall|id: Seq<char>|
            !#[trigger] names_session(tag, id),
{
    let threads = thread_prefixes();
    let sessions = session_prefixes();
    lemma_behind_prefix(tag, threads);
    lemma_behind_prefix(tag, sessions);
    assert(threads.len() == 4 && sessions.len() == 2);
    if behind_prefix(tag, threads) is None {
        assert forall|id: Seq<char>| !#[trigger] names_thread(tag, id) by {
            assert(tag != threads[0] + id);
            assert(tag != threads[1] + id);
            assert(tag != threads[2] + id);
            assert(tag != threads[3] + id);
        }
    }
    if behind_prefix(tag, sessions) is None {
        assert forall|id: Seq<char>| !#[trigger] names_session(tag, id) by {
            assert(tag != sessions[0] + id);
            assert(tag != sessions[1] + id);
        }
    }
}

/// A run's tags say which thread it is in by naming the thread, or, where none does, by naming a
/// session; and else they do not say.
pub proof fn law_thread_in_tags(tags: Seq<Seq<char>>)
    ensures
        match thread_in_tags(tags) {
            Some(id) => exists|k: int|
                #![trigger tags[k]]
                0 <= k < tags.len() && (names_thread(tags[k], id) || {
                    &&& names_session(tags[k], id)
                    &&& forall|j: int, other: Seq<char>|
                        0 <= j < tags.len() ==> !#[trigger] names_thread(tags[j], other)
                }),
            None => forall|k: int, id: Seq<char>|
                #![trigger names_thread(tags[k], id)]
                #![trigger names_session(tags[k], id)]
                0 <= k < tags.len() ==> !names_thread(tags[k], id) && !names_session(tags[k], id),
        },
{
    let threads = thread_prefixes();
    let sessions = session_prefixes();
    lemma_first_behind_prefix(tags, threads);
    lemma_first_behind_prefix(tags, sessions);
    if first_behind_prefix(tags, threads) is Some {
        let id = first_behind_prefix(tags, threads)->0;
        let k = choose|k: int|
            0 <= k < tags.len() && #[trigger] behind_prefix(tags[k], threads) == Some(id);
        lemma_thread_prefixes(tags[k]);
    } else {
        assert forall|j: int, other: Seq<char>| 0 <= j < tags.len() implies !#[trigger]
            names_thread(tags[j], other) by {
            assert(behind_prefix(tags[j], threads) is None);
            lemma_thread_prefixes(tags[j]);
        }
        if first_behind_prefix(tags, sessions) is Some {
            let id = first_behind_prefix(tags, sessions)->0;
            let k = choose|k: int|
                0 <= k < tags.len() && #[trigger] behind_prefix(tags[k], sessions) == Some(id);
            lemma_thread_prefixes(tags[k]);
            assert(names_session(tags[k], id));
        } else {
            assert forall|j: int, other: Seq<char>| 0 <= j < tags.len() implies !#[trigger]
                names_session(tags[j], other) by {
                assert(behind_prefix(tags[j], sessions) is None);
                lemma_thread_prefixes(tags[j]);
            }
        }
    }
}

/// Whether a text, without the space around it, can be the id of a thread.
pub open spec fn can_be_id(text: Option<Seq<char>>) -> bool {
    text is Some && 0 < trim(text->0).len() && byte_len(trim(text->0)) <= 256
}

/// The thread of a run is the one that its metadata names; else it is the session that its
/// metadata names; else what its tags say.
pub proof fn law_metadata_names_the_thread(
    thread: Option<Seq<char>>,
    session: Option<Seq<char>>,
    tags: Seq<Seq<char>>,
)
    ensures
        can_be_id(thread) ==> thread_of(thread, session, tags) == Some(trim(thread->0)),
        !can_be_id(thread) && can_be_id(session) ==> thread_of(thread, session, tags) == Some(
            trim(session->0),
        ),
        !can_be_id(thread) && !can_be_id(session) ==> match thread_of(thread, session, tags) {
            Some(id) => can_be_id(thread_in_tags(tags)) && id == trim(thread_in_tags(tags)->0),
            None => !can_be_id(thread_in_tags(tags)),
        },
{
}

/// A run goes by its own id, or by its root's, if it has none, or by its span, if neither has.
pub proof fn law_stable_id(run: ThreadRunRow)
    ensures
        run.run_id@.len() > 0 ==> stable_id(run) == run.run_id@,
        run.run_id@.len() == 0 && run.root_run_id@.len() > 0 ==> stable_id(run) == run.root_run_id@,
        run.span_id@.len() > 0 ==> stable_id(run).len() > 0,
{
}

} // verus!
