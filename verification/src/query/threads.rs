//! Threads: conversations that go through several traces.

use crate::float::Float;
use crate::query::filter::CompareOp;
use crate::query::filter::Filter;
use crate::query::filter::FilterExpr;
use crate::query::filter::compile::predicate_of;
use crate::query::filter::fault_text;
use crate::query::filter::meaning::op_holds;
use crate::query::filter::meaning::op_text;
use crate::query::number_is;
use crate::query::number_is_sql;
use crate::query::scan::RunQueryDiagnostics;
use crate::query::scan::metadata_diagnostics;
use crate::query::scan::metastore_only_diagnostics;
use crate::sorting::first;
use crate::sql::literal;
use crate::sql::sql_string_literal;
use crate::statement::Statement;
use crate::statement::call;
use crate::text::chars_of;
use crate::text::find_char;
use crate::text::int_text;
use crate::text::integer_text;
use crate::text::join;
use crate::text::joined;
use crate::text::law_integer_text_is_digits;
use crate::text::law_integer_text_reads_back;
use crate::text::lemma_next_index;
use crate::text::nat_text;
use crate::text::next_index;
use crate::text::one_text;
use crate::text::opt_text;
use crate::text::parse_i64;
use crate::text::parsed_i64;
use crate::text::push_some;
use crate::text::push_text;
use crate::text::same;
use crate::text::string_of;
use crate::text::unsigned_text;
use crate::text::with;
use crate::time::Duration;
use vstd::prelude::*;
use vstd::string::StringExecFns;

verus! {

pub const DEFAULT_THREAD_PAGE_SIZE: usize = 20;

pub const MAX_THREAD_PAGE_SIZE: usize = 100;

pub const MAX_THREAD_MESSAGES: usize = 1000;

/// Which traces of a thread are asked for.
#[derive(Debug, PartialEq, Eq)]
pub struct ThreadTraceQuery {
    pub project_name: String,
    pub thread_id: String,
    pub filter: Option<FilterExpr>,
    pub page_size: usize,
    pub cursor: Option<String>,
}

impl ThreadTraceQuery {
    /// The query for the first traces of a thread.
    pub fn new(project_name: &str, thread_id: &str) -> (r: Self)
        ensures
            r.project_name@ == project_name@,
            r.thread_id@ == thread_id@,
            r.filter is None,
            r.page_size == DEFAULT_THREAD_PAGE_SIZE,
            r.cursor is None,
    {
        ThreadTraceQuery {
            project_name: project_name.to_owned(),
            thread_id: thread_id.to_owned(),
            filter: None,
            page_size: DEFAULT_THREAD_PAGE_SIZE,
            cursor: None,
        }
    }
}

/// Which threads are asked for.
#[derive(Debug, PartialEq, Eq)]
pub struct ThreadListQuery {
    pub project_name: String,
    pub filter: Option<FilterExpr>,
    pub min_start_time_unix_nano: Option<i64>,
    pub max_start_time_unix_nano: Option<i64>,
    pub page_size: usize,
    pub cursor: Option<String>,
}

impl ThreadListQuery {
    /// The query for the latest threads of a project.
    pub fn new(project_name: &str) -> (r: Self)
        ensures
            r.project_name@ == project_name@,
            r.filter is None,
            r.min_start_time_unix_nano is None,
            r.max_start_time_unix_nano is None,
            r.page_size == DEFAULT_THREAD_PAGE_SIZE,
            r.cursor is None,
    {
        ThreadListQuery {
            project_name: project_name.to_owned(),
            filter: None,
            min_start_time_unix_nano: None,
            max_start_time_unix_nano: None,
            page_size: DEFAULT_THREAD_PAGE_SIZE,
            cursor: None,
        }
    }
}

/// A trace of a thread.
#[derive(Debug, PartialEq, Eq)]
pub struct ThreadTraceSummary {
    pub thread_id: String,
    pub trace_id: String,
    pub root_run_id: String,
    pub root_span_id: String,
    pub name: Option<String>,
    pub start_time_unix_nano: i64,
    pub end_time_unix_nano: i64,
    pub latency_nanos: i64,
    pub first_token_time_unix_nano: Option<i64>,
    pub inputs_preview: Option<String>,
    pub outputs_preview: Option<String>,
    pub error_preview: Option<String>,
    pub prompt_tokens: Option<i64>,
    pub completion_tokens: Option<i64>,
    pub total_tokens: Option<i64>,
    pub prompt_cost: Option<Float>,
    pub completion_cost: Option<Float>,
    pub total_cost: Option<Float>,
}

/// A thread.
#[derive(Debug, PartialEq, Eq)]
pub struct ThreadSummary {
    pub thread_id: String,
    pub trace_id: Option<String>,
    pub first_trace_id: Option<String>,
    pub last_trace_id: Option<String>,
    pub count: i64,
    pub min_start_time_unix_nano: Option<i64>,
    pub max_start_time_unix_nano: Option<i64>,
    pub first_inputs: Option<String>,
    pub last_outputs: Option<String>,
    pub last_error: Option<String>,
    pub prompt_tokens: Option<i64>,
    pub completion_tokens: Option<i64>,
    pub total_tokens: Option<i64>,
    pub total_cost: Option<Float>,
    pub latency_p50: Option<Float>,
    pub latency_p99: Option<Float>,
    pub num_errored_turns: i64,
}

/// A message of a thread.
#[derive(Debug, PartialEq, Eq)]
pub struct ThreadMessageSummary {
    pub thread_id: String,
    pub trace_id: String,
    pub span_id: String,
    pub run_id: String,
    pub role: String,
    pub preview: String,
    pub turn_order: i64,
    pub trace_segment_id: Option<i64>,
    pub row_index: Option<i64>,
    pub start_time_unix_nano: i64,
}

/// Traces of a thread, and where the next ones start.
#[derive(Debug, PartialEq, Eq)]
pub struct ThreadTracePage {
    pub items: Vec<ThreadTraceSummary>,
    pub next_cursor: Option<String>,
    pub diagnostics: RunQueryDiagnostics,
}

/// Threads, and where the next ones start.
#[derive(Debug, PartialEq, Eq)]
pub struct ThreadListPage {
    pub items: Vec<ThreadSummary>,
    pub next_cursor: Option<String>,
    pub diagnostics: RunQueryDiagnostics,
}

/// A place in a list: a time, and what stands there at that time.
pub struct Place {
    pub time: i64,
    pub id: Seq<char>,
}

/// A place as text, with the kind of list before it.
pub open spec fn cursor_text(kind: Seq<char>, place: Place) -> Seq<char> {
    kind + ":"@ + int_text(place.time as int) + ":"@ + place.id
}

/// The place that a text writes, or why it writes none. `what` names the kind of
/// cursor in the error.
pub open spec fn cursor_place(kind: Seq<char>, what: Seq<char>, text: Seq<char>) -> Result<
    Place,
    Seq<char>,
> {
    let first = next_index(text, ':', 0);
    let second = match first {
        Some(at) => next_index(text, ':', at + 1),
        None => None,
    };
    if first is Some && second is Some && text.take(first->0) == kind {
        match parse_i64(text.subrange(first->0 + 1, second->0)) {
            Some(time) => Ok(Place { time, id: text.skip(second->0 + 1) }),
            None => Err(what + " start time"@),
        }
    } else {
        Err(what)
    }
}

/// Reading a written cursor gives its place back, whatever the id is.
pub proof fn law_cursor_reads_back(kind: Seq<char>, what: Seq<char>, place: Place)
    requires
        !kind.contains(':'),
    ensures
        cursor_place(kind, what, cursor_text(kind, place)) == Ok::<_, Seq<char>>(place),
{
    reveal_strlit(":");
    let number = int_text(place.time as int);
    let text = cursor_text(kind, place);
    law_integer_text_is_digits(place.time);
    law_integer_text_reads_back(place.time);
    let first = kind.len() as int;
    let second = first + 1 + number.len();
    assert(text[first] == ':');
    assert(text[second] == ':');
    assert forall|i: int| 0 <= i < first implies #[trigger] text[i] != ':' by {
        assert(text[i] == kind[i]);
        assert(kind.contains(kind[i]));
    }
    assert forall|i: int| first + 1 <= i < second implies #[trigger] text[i] != ':' by {
        assert(text[i] == number[i - first - 1]);
    }
    lemma_next_index(text, ':', 0, first);
    lemma_next_index(text, ':', first + 1, second);
    assert(text.take(first) =~= kind);
    assert(text.subrange(first + 1, second) =~= number);
    assert(text.skip(second + 1) =~= place.id);
}

fn write_cursor(kind: &str, time: i64, id: &str) -> (r: String)
    ensures
        r@ == cursor_text(kind@, (Place { time, id: id@ })),
{
    let mut out = kind.to_owned();
    out.append(":");
    out.append(integer_text(time).as_str());
    out.append(":");
    out.append(id);
    out
}

fn read_cursor(kind: &str, what: &str, text: &str) -> (r: Result<(i64, String), String>)
    ensures
        match r {
            Ok((time, id)) => cursor_place(kind@, what@, text@) == Ok::<_, Seq<char>>(
                Place { time, id: id@ },
            ),
            Err(message) => cursor_place(kind@, what@, text@) == Err::<Place, _>(message@),
        },
{
    let chars = chars_of(text);
    if let Some(first) = find_char(&chars, ':', 0) {
        if let Some(second) = find_char(&chars, ':', first + 1) {
            let own = string_of(&chars, 0, first);
            assert(chars@.subrange(0, first as int) =~= text@.take(first as int));
            if same(own.as_str(), kind) {
                let number = string_of(&chars, first + 1, second);
                let id = string_of(&chars, second + 1, chars.len());
                assert(chars@.subrange(second + 1, chars@.len() as int) =~= text@.skip(second + 1));
                return match parsed_i64(number.as_str()) {
                    Some(time) => Ok((time, id)),
                    None => {
                        let mut message = what.to_owned();
                        message.append(" start time");
                        Err(message)
                    },
                };
            }
        }
    }
    Err(what.to_owned())
}

/// A place in the traces of a thread.
#[derive(Debug, PartialEq, Eq)]
pub struct TraceCursor {
    pub start_time_unix_nano: i64,
    pub trace_id: String,
}

impl View for TraceCursor {
    type V = Place;

    open spec fn view(&self) -> Place {
        Place { time: self.start_time_unix_nano, id: self.trace_id@ }
    }
}

/// The place that the text of a trace cursor writes.
pub open spec fn trace_place(text: Seq<char>) -> Result<Place, Seq<char>> {
    cursor_place("trace"@, "invalid thread trace cursor"@, text)
}

/// The place that the text of a thread cursor writes.
pub open spec fn thread_place(text: Seq<char>) -> Result<Place, Seq<char>> {
    cursor_place("thread"@, "invalid thread cursor"@, text)
}

impl TraceCursor {
    /// The place that a text writes.
    pub fn decode(value: &str) -> (r: Result<Self, String>)
        ensures
            match r {
                Ok(cursor) => trace_place(value@) == Ok::<_, Seq<char>>(cursor@),
                Err(message) => trace_place(value@) == Err::<Place, _>(message@),
            },
    {
        match read_cursor("trace", "invalid thread trace cursor", value) {
            Ok((start_time_unix_nano, trace_id)) => Ok(
                TraceCursor { start_time_unix_nano, trace_id },
            ),
            Err(message) => Err(message),
        }
    }

    /// The place as text.
    pub fn encode(&self) -> (r: String)
        ensures
            r@ == cursor_text("trace"@, self@),
            trace_place(r@) == Ok::<_, Seq<char>>(self@),
    {
        let out = write_cursor("trace", self.start_time_unix_nano, self.trace_id.as_str());
        proof {
            reveal_strlit("trace");
            law_cursor_reads_back("trace"@, "invalid thread trace cursor"@, self@);
        }
        out
    }

    /// The place of a trace.
    pub fn of_trace(trace: &ThreadTraceSummary) -> (r: Self)
        ensures
            r@ == (Place { time: trace.start_time_unix_nano, id: trace.trace_id@ }),
    {
        TraceCursor {
            start_time_unix_nano: trace.start_time_unix_nano,
            trace_id: trace.trace_id.clone(),
        }
    }
}

/// A place in the threads of a project.
#[derive(Debug, PartialEq, Eq)]
pub struct ThreadCursor {
    pub max_start_time_unix_nano: i64,
    pub thread_id: String,
}

impl View for ThreadCursor {
    type V = Place;

    open spec fn view(&self) -> Place {
        Place { time: self.max_start_time_unix_nano, id: self.thread_id@ }
    }
}

impl ThreadCursor {
    /// The place that a text writes.
    pub fn decode(value: &str) -> (r: Result<Self, String>)
        ensures
            match r {
                Ok(cursor) => thread_place(value@) == Ok::<_, Seq<char>>(cursor@),
                Err(message) => thread_place(value@) == Err::<Place, _>(message@),
            },
    {
        match read_cursor("thread", "invalid thread cursor", value) {
            Ok((max_start_time_unix_nano, thread_id)) => Ok(
                ThreadCursor { max_start_time_unix_nano, thread_id },
            ),
            Err(message) => Err(message),
        }
    }

    /// The place as text.
    pub fn encode(&self) -> (r: String)
        ensures
            r@ == cursor_text("thread"@, self@),
            thread_place(r@) == Ok::<_, Seq<char>>(self@),
    {
        let out = write_cursor("thread", self.max_start_time_unix_nano, self.thread_id.as_str());
        proof {
            reveal_strlit("thread");
            law_cursor_reads_back("thread"@, "invalid thread cursor"@, self@);
        }
        out
    }

    /// The place of a thread, if it has a latest start.
    pub fn of_thread(thread: &ThreadSummary) -> (r: Option<Self>)
        ensures
            match r {
                Some(cursor) => thread.max_start_time_unix_nano == Some(
                    cursor.max_start_time_unix_nano,
                ) && cursor.thread_id@ == thread.thread_id@,
                None => thread.max_start_time_unix_nano is None,
            },
    {
        match thread.max_start_time_unix_nano {
            Some(max_start_time_unix_nano) => Some(
                ThreadCursor { max_start_time_unix_nano, thread_id: thread.thread_id.clone() },
            ),
            None => None,
        }
    }
}

/// A page size that is allowed.
pub open spec fn page_size_of(page_size: usize) -> usize {
    if page_size < 1 {
        1
    } else if page_size > MAX_THREAD_PAGE_SIZE {
        MAX_THREAD_PAGE_SIZE
    } else {
        page_size
    }
}

/// A page size that is allowed.
pub fn normalized_page_size(page_size: usize) -> (r: usize)
    ensures
        r == page_size_of(page_size),
{
    if page_size < 1 {
        1
    } else if page_size > MAX_THREAD_PAGE_SIZE {
        MAX_THREAD_PAGE_SIZE
    } else {
        page_size
    }
}

/// That the root run of a trace meets a predicate.
pub open spec fn root_run_exists(
    trace_alias: Seq<char>,
    run_alias: Seq<char>,
    predicate: Seq<char>,
) -> Seq<char> {
    "EXISTS (\n            SELECT 1\n            FROM run_heads "@ + run_alias
        + "\n            WHERE "@ + run_alias + ".project_name = "@ + trace_alias
        + ".project_name\n                AND "@ + run_alias + ".trace_id = "@ + trace_alias
        + ".trace_id\n                AND "@ + run_alias + ".span_id = "@ + trace_alias
        + ".root_span_id\n                AND "@ + run_alias
        + ".deleted_at_unix_nano IS NULL\n                AND "@ + predicate + "\n        )"@
}

/// That the root run of a trace passes a filter, or why that cannot be said.
pub open spec fn root_run_filter(
    filter: Filter,
    trace_alias: Seq<char>,
    run_alias: Seq<char>,
    project_name: Seq<char>,
) -> Result<Seq<char>, Seq<char>> {
    match predicate_of(filter, run_alias, Some(seq![project_name])) {
        Ok(predicate) => Ok(root_run_exists(trace_alias, run_alias, predicate)),
        Err(fault) => Err(fault_text(fault)),
    }
}

fn root_run_filter_sql(
    filter: &FilterExpr,
    trace_alias: &str,
    run_alias: &str,
    project_name: &str,
) -> (r: Result<String, String>)
    ensures
        match r {
            Ok(sql) => root_run_filter(filter@, trace_alias@, run_alias@, project_name@) == Ok::<
                _,
                Seq<char>,
            >(sql@),
            Err(message) => root_run_filter(filter@, trace_alias@, run_alias@, project_name@)
                == Err::<Seq<char>, _>(message@),
        },
{
    let project_names = one_text(project_name.to_owned());
    match filter.compile_run_head_filter_for_projects(run_alias, &project_names) {
        Ok(compiled) => {
            let mut out =
                "EXISTS (\n            SELECT 1\n            FROM run_heads ".to_owned();
            out.append(run_alias);
            out.append("\n            WHERE ");
            out.append(run_alias);
            out.append(".project_name = ");
            out.append(trace_alias);
            out.append(".project_name\n                AND ");
            out.append(run_alias);
            out.append(".trace_id = ");
            out.append(trace_alias);
            out.append(".trace_id\n                AND ");
            out.append(run_alias);
            out.append(".span_id = ");
            out.append(trace_alias);
            out.append(".root_span_id\n                AND ");
            out.append(run_alias);
            out.append(".deleted_at_unix_nano IS NULL\n                AND ");
            out.append(compiled.predicate_sql.as_str());
            out.append("\n        )");
            Ok(out)
        },
        Err(error) => Err(error.to_text()),
    }
}

pub const THREAD_FILTER_SQL: &'static str = "threads.thread_id IN (
            SELECT filter_traces.thread_id
            FROM thread_traces filter_traces
            INNER JOIN run_heads filter_heads
                ON filter_heads.project_name = filter_traces.project_name
                AND filter_heads.trace_id = filter_traces.trace_id
                AND filter_heads.span_id = filter_traces.root_span_id
            WHERE filter_traces.project_name = ";

/// That the root run of some trace of a thread passes a filter, or why that cannot
/// be said.
pub open spec fn thread_filter(filter: Filter, project_name: Seq<char>) -> Result<
    Seq<char>,
    Seq<char>,
> {
    match predicate_of(filter, "filter_heads"@, Some(seq![project_name])) {
        Ok(predicate) => Ok(
            THREAD_FILTER_SQL@ + literal(project_name)
                + "\n                AND filter_heads.deleted_at_unix_nano IS NULL\n                AND "@
                + predicate + "\n        )"@,
        ),
        Err(fault) => Err(fault_text(fault)),
    }
}

fn thread_root_run_filter_sql(filter: &FilterExpr, project_name: &str) -> (r: Result<
    String,
    String,
>)
    ensures
        match r {
            Ok(sql) => thread_filter(filter@, project_name@) == Ok::<_, Seq<char>>(sql@),
            Err(message) => thread_filter(filter@, project_name@) == Err::<Seq<char>, _>(message@),
        },
{
    let project_names = one_text(project_name.to_owned());
    match filter.compile_run_head_filter_for_projects("filter_heads", &project_names) {
        Ok(compiled) => {
            let mut out = THREAD_FILTER_SQL.to_owned();
            out.append(sql_string_literal(project_name).as_str());
            out.append(
                "\n                AND filter_heads.deleted_at_unix_nano IS NULL\n                AND ",
            );
            out.append(compiled.predicate_sql.as_str());
            out.append("\n        )");
            Ok(out)
        },
        Err(error) => Err(error.to_text()),
    }
}

pub const THREAD_TRACE_COLUMNS_SQL: &'static str = "SELECT
            traces.thread_id,
            traces.trace_id,
            traces.root_run_id,
            traces.root_span_id,
            traces.name,
            traces.start_time_unix_nano,
            traces.end_time_unix_nano,
            traces.latency_nanos,
            traces.first_token_time_unix_nano,
            traces.inputs_preview,
            traces.outputs_preview,
            traces.error_preview,
            traces.prompt_tokens,
            traces.completion_tokens,
            traces.total_tokens,
            traces.prompt_cost,
            traces.completion_cost,
            traces.total_cost
        FROM thread_traces traces
        WHERE ";

pub const THREAD_COLUMNS_SQL: &'static str = "SELECT
            threads.thread_id,
            threads.last_trace_id AS trace_id,
            threads.first_trace_id,
            threads.last_trace_id,
            threads.count,
            threads.min_start_time_unix_nano,
            threads.max_start_time_unix_nano,
            threads.first_inputs,
            threads.last_outputs,
            threads.last_error,
            threads.prompt_tokens,
            threads.completion_tokens,
            threads.total_tokens,
            threads.prompt_cost,
            threads.completion_cost,
            threads.total_cost,
            threads.latency_p50,
            threads.latency_p99,
            threads.num_errored_turns
        FROM threads
        WHERE ";

/// That a trace comes behind a place.
pub open spec fn behind_trace(place: Place) -> Seq<char> {
    "(traces.start_time_unix_nano > "@ + int_text(place.time as int)
        + " OR (traces.start_time_unix_nano = "@ + int_text(place.time as int)
        + " AND traces.trace_id > "@ + literal(place.id) + "))"@
}

/// That a thread comes behind a place.
pub open spec fn behind_thread(place: Place) -> Seq<char> {
    "(threads.max_start_time_unix_nano < "@ + int_text(place.time as int)
        + " OR (threads.max_start_time_unix_nano = "@ + int_text(place.time as int)
        + " AND threads.thread_id > "@ + literal(place.id) + "))"@
}

/// The traces of a thread, in order, from the cursor on, or why they cannot be
/// asked for.
pub open spec fn thread_traces(query: ThreadTraceQuery, limit: usize) -> Result<
    Seq<char>,
    Seq<char>,
> {
    let p0 = seq!["traces.project_name = "@ + literal(query.project_name@)].push(
        "traces.thread_id = "@ + literal(query.thread_id@),
    );
    let placed = match query.cursor {
        Some(cursor) => match trace_place(cursor@) {
            Ok(place) => Ok(p0.push(behind_trace(place))),
            Err(message) => Err(message),
        },
        None => Ok(p0),
    };
    let filtered = match placed {
        Ok(p1) => match query.filter {
            Some(filter) => match root_run_filter(
                filter@,
                "traces"@,
                "filter_heads"@,
                query.project_name@,
            ) {
                Ok(predicate) => Ok(p1.push(predicate)),
                Err(message) => Err(message),
            },
            None => Ok(p1),
        },
        Err(message) => Err(message),
    };
    match filtered {
        Ok(p2) => Ok(
            THREAD_TRACE_COLUMNS_SQL@ + join(p2, " AND "@)
                + "\n        ORDER BY traces.start_time_unix_nano ASC, traces.trace_id ASC\n        LIMIT "@
                + nat_text(limit as nat),
        ),
        Err(message) => Err(message),
    }
}

/// The traces of a thread, in order, from the cursor on.
pub fn thread_trace_sql(query: &ThreadTraceQuery, limit: usize) -> (r: Result<String, String>)
    ensures
        match r {
            Ok(sql) => thread_traces(*query, limit) == Ok::<_, Seq<char>>(sql@),
            Err(message) => thread_traces(*query, limit) == Err::<Seq<char>, _>(message@),
        },
{
    let mut first = "traces.project_name = ".to_owned();
    first.append(sql_string_literal(query.project_name.as_str()).as_str());
    let mut second = "traces.thread_id = ".to_owned();
    second.append(sql_string_literal(query.thread_id.as_str()).as_str());
    let mut predicates = one_text(first);
    push_text(&mut predicates, second);
    if let Some(cursor) = &query.cursor {
        match TraceCursor::decode(cursor.as_str()) {
            Ok(place) => {
                let time = integer_text(place.start_time_unix_nano);
                let mut behind = "(traces.start_time_unix_nano > ".to_owned();
                behind.append(time.as_str());
                behind.append(" OR (traces.start_time_unix_nano = ");
                behind.append(time.as_str());
                behind.append(" AND traces.trace_id > ");
                behind.append(sql_string_literal(place.trace_id.as_str()).as_str());
                behind.append("))");
                push_text(&mut predicates, behind);
            },
            Err(message) => {
                return Err(message);
            },
        }
    }
    if let Some(filter) = &query.filter {
        match root_run_filter_sql(filter, "traces", "filter_heads", query.project_name.as_str()) {
            Ok(predicate) => {
                push_text(&mut predicates, predicate);
            },
            Err(message) => {
                return Err(message);
            },
        }
    }
    let mut out = THREAD_TRACE_COLUMNS_SQL.to_owned();
    out.append(joined(&predicates, " AND ").as_str());
    out.append(
        "\n        ORDER BY traces.start_time_unix_nano ASC, traces.trace_id ASC\n        LIMIT ",
    );
    out.append(unsigned_text(limit as u128).as_str());
    Ok(out)
}

/// The threads of a project, in order, from the cursor on, or why they cannot be
/// asked for.
pub open spec fn threads_of(query: ThreadListQuery, limit: usize) -> Result<Seq<char>, Seq<char>> {
    let p0 = seq!["threads.project_name = "@ + literal(query.project_name@)];
    let p1 = with(
        p0,
        number_is("threads.max_start_time_unix_nano"@, " >= "@, query.min_start_time_unix_nano),
    );
    let p2 = with(
        p1,
        number_is("threads.min_start_time_unix_nano"@, " <= "@, query.max_start_time_unix_nano),
    );
    let placed = match query.cursor {
        Some(cursor) => match thread_place(cursor@) {
            Ok(place) => Ok(p2.push(behind_thread(place))),
            Err(message) => Err(message),
        },
        None => Ok(p2),
    };
    let filtered = match placed {
        Ok(p3) => match query.filter {
            Some(filter) => match thread_filter(filter@, query.project_name@) {
                Ok(predicate) => Ok(p3.push(predicate)),
                Err(message) => Err(message),
            },
            None => Ok(p3),
        },
        Err(message) => Err(message),
    };
    match filtered {
        Ok(p4) => Ok(
            THREAD_COLUMNS_SQL@ + join(p4, " AND "@)
                + "\n        ORDER BY threads.max_start_time_unix_nano DESC NULLS LAST, threads.thread_id ASC\n        LIMIT "@
                + nat_text(limit as nat),
        ),
        Err(message) => Err(message),
    }
}

/// The threads of a project, in order, from the cursor on.
pub fn thread_sql(query: &ThreadListQuery, limit: usize) -> (r: Result<String, String>)
    ensures
        match r {
            Ok(sql) => threads_of(*query, limit) == Ok::<_, Seq<char>>(sql@),
            Err(message) => threads_of(*query, limit) == Err::<Seq<char>, _>(message@),
        },
{
    let mut first = "threads.project_name = ".to_owned();
    first.append(sql_string_literal(query.project_name.as_str()).as_str());
    let mut predicates = one_text(first);
    push_some(
        &mut predicates,
        number_is_sql(
            "threads.max_start_time_unix_nano",
            " >= ",
            query.min_start_time_unix_nano,
        ),
    );
    push_some(
        &mut predicates,
        number_is_sql(
            "threads.min_start_time_unix_nano",
            " <= ",
            query.max_start_time_unix_nano,
        ),
    );
    if let Some(cursor) = &query.cursor {
        match ThreadCursor::decode(cursor.as_str()) {
            Ok(place) => {
                let time = integer_text(place.max_start_time_unix_nano);
                let mut behind = "(threads.max_start_time_unix_nano < ".to_owned();
                behind.append(time.as_str());
                behind.append(" OR (threads.max_start_time_unix_nano = ");
                behind.append(time.as_str());
                behind.append(" AND threads.thread_id > ");
                behind.append(sql_string_literal(place.thread_id.as_str()).as_str());
                behind.append("))");
                push_text(&mut predicates, behind);
            },
            Err(message) => {
                return Err(message);
            },
        }
    }
    if let Some(filter) = &query.filter {
        match thread_root_run_filter_sql(filter, query.project_name.as_str()) {
            Ok(predicate) => {
                push_text(&mut predicates, predicate);
            },
            Err(message) => {
                return Err(message);
            },
        }
    }
    let mut out = THREAD_COLUMNS_SQL.to_owned();
    out.append(joined(&predicates, " AND ").as_str());
    out.append(
        "\n        ORDER BY threads.max_start_time_unix_nano DESC NULLS LAST, threads.thread_id ASC\n        LIMIT ",
    );
    out.append(unsigned_text(limit as u128).as_str());
    Ok(out)
}

/// The statement for a page of the traces of a thread: one more than the page
/// holds, to see whether there is a next one.
pub fn thread_traces_statement(query: &ThreadTraceQuery) -> (r: Result<Statement, String>)
    ensures
        ({
            let limit = (page_size_of(query.page_size) + 1) as usize;
            match r {
                Ok(statement) => thread_traces(*query, limit) is Ok && statement@ == call(
                    "list thread traces"@,
                    thread_traces(*query, limit)->Ok_0,
                ),
                Err(message) => thread_traces(*query, limit) == Err::<Seq<char>, _>(message@),
            }
        }),
{
    match thread_trace_sql(query, normalized_page_size(query.page_size) + 1) {
        Ok(sql) => Ok(Statement::new("list thread traces", sql.as_str())),
        Err(message) => Err(message),
    }
}

/// The statement for a page of threads: one more than the page holds, to see
/// whether there is a next one.
pub fn threads_statement(query: &ThreadListQuery) -> (r: Result<Statement, String>)
    ensures
        ({
            let limit = (page_size_of(query.page_size) + 1) as usize;
            match r {
                Ok(statement) => threads_of(*query, limit) is Ok && statement@ == call(
                    "list threads"@,
                    threads_of(*query, limit)->Ok_0,
                ),
                Err(message) => threads_of(*query, limit) == Err::<Seq<char>, _>(message@),
            }
        }),
{
    match thread_sql(query, normalized_page_size(query.page_size) + 1) {
        Ok(sql) => Ok(Statement::new("list threads", sql.as_str())),
        Err(message) => Err(message),
    }
}

pub const THREAD_MESSAGES_SQL: &'static str = "SELECT
                    thread_id, trace_id, span_id, run_id, role, preview, turn_order,
                    trace_segment_id, row_index, start_time_unix_nano
                FROM thread_messages
                WHERE project_name = $1 AND thread_id = $2
                ORDER BY
                    turn_order ASC,
                    trace_id ASC,
                    span_id ASC,
                    CASE role WHEN 'user' THEN 0 ELSE 1 END ASC,
                    role ASC
                LIMIT $3";

/// The statement for the first messages of a thread.
pub fn thread_messages_statement(project_name: &str, thread_id: &str, limit: usize) -> (r:
    Statement)
    ensures
        r@ == call("list thread messages"@, THREAD_MESSAGES_SQL@).text(project_name@).text(
            thread_id@,
        ).integer(
            if limit < MAX_THREAD_MESSAGES {
                limit as int
            } else {
                MAX_THREAD_MESSAGES as int
            },
        ),
{
    let most: usize = if limit < MAX_THREAD_MESSAGES {
        limit
    } else {
        MAX_THREAD_MESSAGES
    };
    Statement::new("list thread messages", THREAD_MESSAGES_SQL).text(project_name).text(
        thread_id,
    ).integer(most as i64)
}

/// The traces on a page, and where the next page starts: behind the last of them,
/// if there are more.
pub fn page_thread_trace_rows(rows: Vec<ThreadTraceSummary>, limit: usize) -> (r: (
    Vec<ThreadTraceSummary>,
    Option<String>,
))
    ensures
        r.0@ == first(rows@, limit as int),
        opt_text(r.1) == if rows@.len() > limit && limit > 0 {
            let last = rows@[limit - 1];
            Some(
                cursor_text(
                    "trace"@,
                    Place { time: last.start_time_unix_nano, id: last.trace_id@ },
                ),
            )
        } else {
            None
        },
{
    let mut items = rows;
    if items.len() > limit {
        items.truncate(limit);
        assert(items@ =~= rows@.take(limit as int));
        let next_cursor = if limit > 0 {
            Some(TraceCursor::of_trace(&items[limit - 1]).encode())
        } else {
            None
        };
        (items, next_cursor)
    } else {
        (items, None)
    }
}

/// The threads on a page, and where the next page starts: behind the last of them,
/// if there are more and it has a latest start.
pub fn page_thread_rows(rows: Vec<ThreadSummary>, limit: usize) -> (r: (
    Vec<ThreadSummary>,
    Option<String>,
))
    ensures
        r.0@ == first(rows@, limit as int),
        opt_text(r.1) == if rows@.len() > limit && limit > 0
            && rows@[limit - 1].max_start_time_unix_nano is Some {
            let last = rows@[limit - 1];
            Some(
                cursor_text(
                    "thread"@,
                    Place { time: last.max_start_time_unix_nano->0, id: last.thread_id@ },
                ),
            )
        } else {
            None
        },
{
    let mut items = rows;
    if items.len() > limit {
        items.truncate(limit);
        assert(items@ =~= rows@.take(limit as int));
        let next_cursor = if limit > 0 {
            match ThreadCursor::of_thread(&items[limit - 1]) {
                Some(cursor) => Some(cursor.encode()),
                None => None,
            }
        } else {
            None
        };
        (items, next_cursor)
    } else {
        (items, None)
    }
}

/// A page of the traces of a thread.
pub fn thread_trace_page(
    query: &ThreadTraceQuery,
    rows: Vec<ThreadTraceSummary>,
    postgres_query_time: Duration,
) -> (r: ThreadTracePage)
    ensures
        ({
            let limit = page_size_of(query.page_size) as int;
            &&& r.items@ == first(rows@, limit)
            &&& opt_text(r.next_cursor) == if rows@.len() > limit {
                let last = rows@[limit - 1];
                Some(
                    cursor_text(
                        "trace"@,
                        Place { time: last.start_time_unix_nano, id: last.trace_id@ },
                    ),
                )
            } else {
                None
            }
            &&& r.diagnostics == metadata_diagnostics(r.items@.len() as int, postgres_query_time)
        }),
{
    let (items, next_cursor) = page_thread_trace_rows(rows, normalized_page_size(query.page_size));
    let diagnostics = metastore_only_diagnostics(items.len(), postgres_query_time);
    ThreadTracePage { items, next_cursor, diagnostics }
}

/// A page of threads.
pub fn thread_list_page(
    query: &ThreadListQuery,
    rows: Vec<ThreadSummary>,
    postgres_query_time: Duration,
) -> (r: ThreadListPage)
    ensures
        ({
            let limit = page_size_of(query.page_size) as int;
            &&& r.items@ == first(rows@, limit)
            &&& opt_text(r.next_cursor) == if rows@.len() > limit
                && rows@[limit - 1].max_start_time_unix_nano is Some {
                let last = rows@[limit - 1];
                Some(
                    cursor_text(
                        "thread"@,
                        Place { time: last.max_start_time_unix_nano->0, id: last.thread_id@ },
                    ),
                )
            } else {
                None
            }
            &&& r.diagnostics == metadata_diagnostics(r.items@.len() as int, postgres_query_time)
        }),
{
    let (items, next_cursor) = page_thread_rows(rows, normalized_page_size(query.page_size));
    let diagnostics = metastore_only_diagnostics(items.len(), postgres_query_time);
    ThreadListPage { items, next_cursor, diagnostics }
}

/// That a row is at a time, or else at the same time with an id, that stand to those of a place
/// as the comparisons say.
pub open spec fn time_or_id(
    time_column: Seq<char>,
    id_column: Seq<char>,
    place: Place,
    first: CompareOp,
    tie: CompareOp,
    second: CompareOp,
) -> Seq<char> {
    "("@ + time_column + " "@ + op_text(first) + " "@ + int_text(place.time as int) + " OR ("@
        + time_column + " "@ + op_text(tie) + " "@ + int_text(place.time as int) + " AND "@
        + id_column + " "@ + op_text(second) + " "@ + literal(place.id) + "))"@
}

/// Whether a condition holds of just the rows that are wanted: `time` and `id` say how those of
/// the row stand to those of the place, below, equal or above.
pub open spec fn holds_of(
    condition: Seq<char>,
    time_column: Seq<char>,
    id_column: Seq<char>,
    place: Place,
    wanted: spec_fn(int, int) -> bool,
) -> bool {
    exists|first: CompareOp, tie: CompareOp, second: CompareOp|
        {
            &&& condition == #[trigger] time_or_id(
                time_column,
                id_column,
                place,
                first,
                tie,
                second,
            )
            &&& forall|time: int, id: int| #[trigger]
                wanted(time, id) == (op_holds(first, time) || op_holds(tie, time) && op_holds(
                    second,
                    id,
                ))
        }
}

/// The next page goes on behind the cursor: traces come in the order of their start and then of
/// their id; threads come with the latest first, and then in the order of their id.
pub proof fn law_next_page_goes_on_behind_the_cursor(place: Place)
    ensures
        holds_of(
            behind_trace(place),
            "traces.start_time_unix_nano"@,
            "traces.trace_id"@,
            place,
            |time: int, id: int| time > 0 || time == 0 && id > 0,
        ),
        holds_of(
            behind_thread(place),
            "threads.max_start_time_unix_nano"@,
            "threads.thread_id"@,
            place,
            |time: int, id: int| time < 0 || time == 0 && id > 0,
        ),
{
    let t1 = "traces.start_time_unix_nano"@;
    let i1 = "traces.trace_id"@;
    let t2 = "threads.max_start_time_unix_nano"@;
    let i2 = "threads.thread_id"@;
    reveal_strlit("traces.start_time_unix_nano");
    reveal_strlit("traces.trace_id");
    reveal_strlit("threads.max_start_time_unix_nano");
    reveal_strlit("threads.thread_id");
    reveal_strlit("(traces.start_time_unix_nano > ");
    reveal_strlit(" OR (traces.start_time_unix_nano = ");
    reveal_strlit(" AND traces.trace_id > ");
    reveal_strlit("(threads.max_start_time_unix_nano < ");
    reveal_strlit(" OR (threads.max_start_time_unix_nano = ");
    reveal_strlit(" AND threads.thread_id > ");
    reveal_strlit("(");
    reveal_strlit(" ");
    reveal_strlit("=");
    reveal_strlit(">");
    reveal_strlit("<");
    reveal_strlit(" OR (");
    reveal_strlit(" AND ");
    let time = int_text(place.time as int);
    let id = literal(place.id);
    assert("("@ + t1 + " "@ + ">"@ + " "@ =~= "(traces.start_time_unix_nano > "@);
    assert(" OR ("@ + t1 + " "@ + "="@ + " "@ =~= " OR (traces.start_time_unix_nano = "@);
    assert(" AND "@ + i1 + " "@ + ">"@ + " "@ =~= " AND traces.trace_id > "@);
    assert("("@ + t2 + " "@ + "<"@ + " "@ =~= "(threads.max_start_time_unix_nano < "@);
    assert(" OR ("@ + t2 + " "@ + "="@ + " "@ =~= " OR (threads.max_start_time_unix_nano = "@);
    assert(" AND "@ + i2 + " "@ + ">"@ + " "@ =~= " AND threads.thread_id > "@);
    assert(time_or_id(t1, i1, place, CompareOp::Gt, CompareOp::Eq, CompareOp::Gt) =~= ("("@ + t1
        + " "@ + ">"@ + " "@) + time + (" OR ("@ + t1 + " "@ + "="@ + " "@) + time + (" AND "@ + i1
        + " "@ + ">"@ + " "@) + id + "))"@);
    assert(time_or_id(t2, i2, place, CompareOp::Lt, CompareOp::Eq, CompareOp::Gt) =~= ("("@ + t2
        + " "@ + "<"@ + " "@) + time + (" OR ("@ + t2 + " "@ + "="@ + " "@) + time + (" AND "@ + i2
        + " "@ + ">"@ + " "@) + id + "))"@);
    assert(behind_trace(place) == time_or_id(
        t1,
        i1,
        place,
        CompareOp::Gt,
        CompareOp::Eq,
        CompareOp::Gt,
    ));
    assert(behind_thread(place) == time_or_id(
        t2,
        i2,
        place,
        CompareOp::Lt,
        CompareOp::Eq,
        CompareOp::Gt,
    ));
}

/// A page is as long as is asked for, but never empty and never longer than it may be.
pub proof fn law_page_sizes(page_size: usize)
    ensures
        1 <= page_size_of(page_size) <= 100,
        1 <= page_size <= 100 ==> page_size_of(page_size) == page_size,
        page_size_of(page_size) < page_size ==> page_size_of(page_size) == 100,
{
}

/// A thread, as the database holds it: its project, its id, and when its first and its last trace
/// started.
pub struct StoredThread {
    pub project_name: Seq<char>,
    pub thread_id: Seq<char>,
    pub first_start: int,
    pub last_start: int,
}

/// One thing that is asked of a thread.
pub enum ThreadAsk {
    ProjectIs(Seq<char>),
    LastStartsAtOrAfter(int),
    FirstStartsAtOrBefore(int),
}

pub open spec fn thread_ask_text(ask: ThreadAsk) -> Seq<char> {
    match ask {
        ThreadAsk::ProjectIs(name) => "threads.project_name = "@ + literal(name),
        ThreadAsk::LastStartsAtOrAfter(time) => "threads.max_start_time_unix_nano"@ + " >= "@
            + int_text(time),
        ThreadAsk::FirstStartsAtOrBefore(time) => "threads.min_start_time_unix_nano"@ + " <= "@
            + int_text(time),
    }
}

pub open spec fn thread_ask_texts(asks: Seq<ThreadAsk>) -> Seq<Seq<char>> {
    asks.map_values(|ask: ThreadAsk| thread_ask_text(ask))
}

pub open spec fn thread_ask_holds(ask: ThreadAsk, thread: StoredThread) -> bool {
    match ask {
        ThreadAsk::ProjectIs(name) => thread.project_name == name,
        ThreadAsk::LastStartsAtOrAfter(time) => thread.last_start >= time,
        ThreadAsk::FirstStartsAtOrBefore(time) => thread.first_start <= time,
    }
}

/// Whether a thread is of the project and was not over before the time that is asked for began,
/// nor began after it was over.
pub open spec fn is_thread_asked_for(query: ThreadListQuery, thread: StoredThread) -> bool {
    &&& thread.project_name == query.project_name@
    &&& query.min_start_time_unix_nano matches Some(time) ==> thread.last_start >= time
    &&& query.max_start_time_unix_nano matches Some(time) ==> thread.first_start <= time
}

/// A list of threads, from its beginning and without a filter, asks for the threads of the project
/// that overlap with the time that is asked for, and for no others.
pub proof fn law_threads_are_asked_for(query: ThreadListQuery, limit: usize)
    requires
        query.cursor is None,
        query.filter is None,
    ensures
        exists|asks: Seq<ThreadAsk>|
            {
                &&& threads_of(query, limit) == Ok::<_, Seq<char>>(
                    THREAD_COLUMNS_SQL@ + join(#[trigger] thread_ask_texts(asks), " AND "@)
                        + "\n        ORDER BY threads.max_start_time_unix_nano DESC NULLS LAST, threads.thread_id ASC\n        LIMIT "@
                        + nat_text(limit as nat),
                )
                &&& forall|thread: StoredThread|
                    #![trigger is_thread_asked_for(query, thread)]
                    is_thread_asked_for(query, thread) <==> forall|i: int|
                        0 <= i < asks.len() ==> thread_ask_holds(#[trigger] asks[i], thread)
            },
{
    let a0 = seq![ThreadAsk::ProjectIs(query.project_name@)];
    let a1 = match query.min_start_time_unix_nano {
        Some(time) => a0.push(ThreadAsk::LastStartsAtOrAfter(time as int)),
        None => a0,
    };
    let asks = match query.max_start_time_unix_nano {
        Some(time) => a1.push(ThreadAsk::FirstStartsAtOrBefore(time as int)),
        None => a1,
    };
    let p0 = seq!["threads.project_name = "@ + literal(query.project_name@)];
    let p1 = with(
        p0,
        number_is("threads.max_start_time_unix_nano"@, " >= "@, query.min_start_time_unix_nano),
    );
    let p2 = with(
        p1,
        number_is("threads.min_start_time_unix_nano"@, " <= "@, query.max_start_time_unix_nano),
    );
    assert(thread_ask_texts(asks) =~= p2);
    assert forall|thread: StoredThread|
        #![trigger is_thread_asked_for(query, thread)]
        is_thread_asked_for(query, thread) <==> forall|i: int|
            0 <= i < asks.len() ==> thread_ask_holds(#[trigger] asks[i], thread) by {
        if forall|i: int| 0 <= i < asks.len() ==> thread_ask_holds(#[trigger] asks[i], thread) {
            assert(thread_ask_holds(asks[0], thread));
            if query.min_start_time_unix_nano is Some {
                assert(asks[1] == ThreadAsk::LastStartsAtOrAfter(
                    query.min_start_time_unix_nano->0 as int,
                ));
            }
            if query.max_start_time_unix_nano is Some {
                assert(asks[asks.len() - 1] == ThreadAsk::FirstStartsAtOrBefore(
                    query.max_start_time_unix_nano->0 as int,
                ));
            }
        }
    }
}

} // verus!
