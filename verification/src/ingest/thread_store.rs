//! The statements that keep threads up to date.

use crate::float::Float;
use crate::ingest::preview::RunPreview;
use crate::ingest::preview::preview_of;
use crate::ingest::thread::ThreadRunRow;
use crate::ingest::thread::ThreadTrace;
use crate::ingest::thread::ThreadTraceUpsert;
use crate::ingest::thread::build_thread_trace_upsert;
use crate::ingest::thread::find_first_preview;
use crate::ingest::thread::find_last_preview;
use crate::ingest::thread::first_preview;
use crate::ingest::thread::is_told;
use crate::ingest::thread::last_preview;
use crate::ingest::thread::lemma_first_preview;
use crate::ingest::thread::lemma_last_preview;
use crate::ingest::thread::lemma_total_of_more;
use crate::ingest::thread::opt_texts;
use crate::ingest::thread::plus;
use crate::ingest::thread::present;
use crate::ingest::thread::present_values;
use crate::ingest::thread::stable_id;
use crate::ingest::thread::stable_run_id;
use crate::ingest::thread::thread_trace_of;
use crate::ingest::thread::tokens_fit;
use crate::ingest::thread::total;
use crate::ingest::thread::total_of;
use crate::ingest::thread::wide;
use crate::ingest::thread::with_one;
use crate::query::aggregates::stats::integer_order;
use crate::query::aggregates::stats::integer_stats;
use crate::query::aggregates::stats::is_percentile;
use crate::query::aggregates::stats::law_percentile_is_the_least_place;
use crate::query::aggregates::stats::percentile_of;
use crate::query::planner::bytes_fit;
use crate::record::SpanRecord;
use crate::sorting::law_ordered_set_holds_its_elements;
use crate::sorting::law_sort_keeps_elements;
use crate::sorting::lemma_filter_members;
use crate::sorting::lemma_sort_members;
use crate::sorting::ordered_set;
use crate::sorting::sort_by;
use crate::sorting::stable_sort;
use crate::statement::Call;
use crate::statement::Param;
use crate::statement::Statement;
use crate::statement::call;
use crate::statement::calls_of;
use crate::statement::no_statements;
use crate::statement::push_statement;
use crate::text::copy_option;
use crate::text::insert_text;
use crate::text::is_less;
use crate::text::law_text_order;
use crate::text::no_texts;
use crate::text::opt_text;
use crate::text::same;
use crate::text::text_less;
use crate::text::text_order;
use crate::text::texts;
use crate::text::with;
use vstd::prelude::*;

verus! {

pub const UPSERT_RUN_PREVIEW_SQL: &'static str = "INSERT INTO run_previews(
            project_name, trace_id, span_id, inputs_preview, outputs_preview,
            error_preview, first_token_time_unix_nano
        )
        VALUES ($1, $2, $3, $4, $5, $6, $7)
        ON CONFLICT (project_name, trace_id, span_id)
        DO UPDATE SET
            inputs_preview = EXCLUDED.inputs_preview,
            outputs_preview = EXCLUDED.outputs_preview,
            error_preview = EXCLUDED.error_preview,
            first_token_time_unix_nano = EXCLUDED.first_token_time_unix_nano";

pub const OLD_THREADS_SQL: &'static str = "SELECT DISTINCT thread_id
            FROM thread_traces
            WHERE project_name = $1 AND trace_id = $2";

pub const DELETE_THREAD_MESSAGES_SQL: &'static str = "DELETE FROM thread_messages WHERE project_name = $1 AND trace_id = $2";

pub const DELETE_THREAD_TRACES_SQL: &'static str = "DELETE FROM thread_traces WHERE project_name = $1 AND trace_id = $2";

pub const TRACE_THREAD_RUNS_SQL: &'static str = "SELECT
                heads.span_id,
                heads.run_id,
                heads.root_run_id,
                heads.root_span_id,
                heads.name,
                heads.status,
                heads.is_root,
                heads.start_time_unix_nano,
                heads.end_time_unix_nano,
                heads.prompt_tokens,
                heads.completion_tokens,
                heads.total_tokens,
                heads.prompt_cost,
                heads.completion_cost,
                heads.total_cost,
                heads.last_trace_segment_id,
                heads.last_row_index,
                thread_meta.value,
                session_meta.value,
                previews.inputs_preview,
                previews.outputs_preview,
                previews.error_preview,
                previews.first_token_time_unix_nano
            FROM run_heads heads
            LEFT JOIN run_metadata thread_meta
                ON thread_meta.project_name = heads.project_name
                AND thread_meta.trace_id = heads.trace_id
                AND thread_meta.span_id = heads.span_id
                AND thread_meta.key = 'thread_id'
            LEFT JOIN run_metadata session_meta
                ON session_meta.project_name = heads.project_name
                AND session_meta.trace_id = heads.trace_id
                AND session_meta.span_id = heads.span_id
                AND session_meta.key = 'session_id'
            LEFT JOIN run_previews previews
                ON previews.project_name = heads.project_name
                AND previews.trace_id = heads.trace_id
                AND previews.span_id = heads.span_id
            WHERE heads.project_name = $1
                AND heads.trace_id = $2
                AND heads.deleted_at_unix_nano IS NULL
            ORDER BY heads.start_time_unix_nano ASC, heads.span_id ASC";

pub const TRACE_TAGS_SQL: &'static str = "SELECT span_id, tag
            FROM run_tags
            WHERE project_name = $1 AND trace_id = $2
            ORDER BY span_id, tag";

pub const ENSURE_THREAD_SQL: &'static str = "INSERT INTO threads(project_name, thread_id)
        VALUES ($1, $2)
        ON CONFLICT (project_name, thread_id) DO NOTHING";

pub const UPSERT_THREAD_TRACE_SQL: &'static str = "INSERT INTO thread_traces(
            project_name, thread_id, trace_id, root_run_id, root_span_id, name,
            start_time_unix_nano, end_time_unix_nano, latency_nanos,
            first_token_time_unix_nano, inputs_preview, outputs_preview, error_preview,
            prompt_tokens, completion_tokens, total_tokens,
            prompt_cost, completion_cost, total_cost
        )
        VALUES (
            $1, $2, $3, $4, $5, $6, $7, $8, $9, $10, $11, $12, $13,
            $14, $15, $16, $17, $18, $19
        )
        ON CONFLICT (project_name, thread_id, trace_id)
        DO UPDATE SET
            root_run_id = EXCLUDED.root_run_id,
            root_span_id = EXCLUDED.root_span_id,
            name = EXCLUDED.name,
            start_time_unix_nano = EXCLUDED.start_time_unix_nano,
            end_time_unix_nano = EXCLUDED.end_time_unix_nano,
            latency_nanos = EXCLUDED.latency_nanos,
            first_token_time_unix_nano = EXCLUDED.first_token_time_unix_nano,
            inputs_preview = EXCLUDED.inputs_preview,
            outputs_preview = EXCLUDED.outputs_preview,
            error_preview = EXCLUDED.error_preview,
            prompt_tokens = EXCLUDED.prompt_tokens,
            completion_tokens = EXCLUDED.completion_tokens,
            total_tokens = EXCLUDED.total_tokens,
            prompt_cost = EXCLUDED.prompt_cost,
            completion_cost = EXCLUDED.completion_cost,
            total_cost = EXCLUDED.total_cost";

pub const UPSERT_THREAD_MESSAGE_SQL: &'static str = "INSERT INTO thread_messages(
            project_name, thread_id, trace_id, span_id, run_id, role, preview,
            turn_order, trace_segment_id, row_index, start_time_unix_nano
        )
        VALUES ($1, $2, $3, $4, $5, $6, $7, $8, $9, $10, $11)
        ON CONFLICT (project_name, thread_id, trace_id, span_id, role)
        DO UPDATE SET
            run_id = EXCLUDED.run_id,
            preview = EXCLUDED.preview,
            turn_order = EXCLUDED.turn_order,
            trace_segment_id = EXCLUDED.trace_segment_id,
            row_index = EXCLUDED.row_index,
            start_time_unix_nano = EXCLUDED.start_time_unix_nano";

pub const THREAD_TRACES_SQL: &'static str = "SELECT
                trace_id,
                start_time_unix_nano,
                latency_nanos,
                inputs_preview,
                outputs_preview,
                error_preview,
                prompt_tokens,
                completion_tokens,
                total_tokens,
                prompt_cost,
                completion_cost,
                total_cost
            FROM thread_traces
            WHERE project_name = $1 AND thread_id = $2
            ORDER BY start_time_unix_nano ASC, trace_id ASC";

pub const DELETE_THREAD_SQL: &'static str = "DELETE FROM threads WHERE project_name = $1 AND thread_id = $2";

pub const UPDATE_THREAD_SQL: &'static str = "UPDATE threads
        SET
            count = $3,
            first_trace_id = $4,
            last_trace_id = $5,
            min_start_time_unix_nano = $6,
            max_start_time_unix_nano = $7,
            first_inputs = $8,
            last_outputs = $9,
            last_error = $10,
            prompt_tokens = $11,
            completion_tokens = $12,
            total_tokens = $13,
            prompt_cost = $14,
            completion_cost = $15,
            total_cost = $16,
            latency_p50 = $17,
            latency_p99 = $18,
            num_errored_turns = $19
        WHERE project_name = $1 AND thread_id = $2";

/// The statement that keeps what is shown of a run.
pub open spec fn preview_call(record: SpanRecord) -> Call {
    let preview = preview_of(record.attributes_json@);
    call("upsert run preview"@, UPSERT_RUN_PREVIEW_SQL@).text(record.project_name@).text(
        record.trace_id@,
    ).text(record.span_id@).optional_text(preview.inputs).optional_text(preview.outputs).optional_text(
        preview.error,
    ).optional_integer(preview.first_token_time)
}

/// The statement that keeps what is shown of a run.
pub fn run_preview_statement(record: &SpanRecord) -> (r: Statement)
    ensures
        r@ == preview_call(*record),
{
    let preview = RunPreview::from_attributes_json(record.attributes_json.as_str());
    Statement::new("upsert run preview", UPSERT_RUN_PREVIEW_SQL).text(
        record.project_name.as_str(),
    ).text(record.trace_id.as_str()).text(record.span_id.as_str()).optional_text(
        &preview.inputs_preview,
    ).optional_text(&preview.outputs_preview).optional_text(
        &preview.error_preview,
    ).optional_integer(preview.first_token_time_unix_nano)
}

/// A statement about a trace.
pub open spec fn trace_call(
    purpose: Seq<char>,
    sql: Seq<char>,
    project_name: Seq<char>,
    trace_id: Seq<char>,
) -> Call {
    call(purpose, sql).text(project_name).text(trace_id)
}

fn trace_statement(purpose: &str, sql: &str, project_name: &str, trace_id: &str) -> (r: Statement)
    ensures
        r@ == trace_call(purpose@, sql@, project_name@, trace_id@),
{
    Statement::new(purpose, sql).text(project_name).text(trace_id)
}

/// The statement for the threads that a trace was in.
pub fn old_threads_statement(project_name: &str, trace_id: &str) -> (r: Statement)
    ensures
        r@ == trace_call(
            "load old trace thread ids"@,
            OLD_THREADS_SQL@,
            project_name@,
            trace_id@,
        ),
{
    trace_statement("load old trace thread ids", OLD_THREADS_SQL, project_name, trace_id)
}

/// The statements that take a trace out of its threads.
pub fn clear_trace_statements(project_name: &str, trace_id: &str) -> (r: Vec<Statement>)
    ensures
        calls_of(r@) == Seq::empty().push(
            trace_call(
                "delete stale thread messages"@,
                DELETE_THREAD_MESSAGES_SQL@,
                project_name@,
                trace_id@,
            ),
        ).push(
            trace_call(
                "delete stale thread traces"@,
                DELETE_THREAD_TRACES_SQL@,
                project_name@,
                trace_id@,
            ),
        ),
{
    let mut out = no_statements();
    push_statement(
        &mut out,
        trace_statement(
            "delete stale thread messages",
            DELETE_THREAD_MESSAGES_SQL,
            project_name,
            trace_id,
        ),
    );
    push_statement(
        &mut out,
        trace_statement(
            "delete stale thread traces",
            DELETE_THREAD_TRACES_SQL,
            project_name,
            trace_id,
        ),
    );
    out
}

/// The statement for the tags of the runs of a trace.
pub fn trace_tags_statement(project_name: &str, trace_id: &str) -> (r: Statement)
    ensures
        r@ == trace_call(
            "load trace tags for thread refresh"@,
            TRACE_TAGS_SQL@,
            project_name@,
            trace_id@,
        ),
{
    trace_statement("load trace tags for thread refresh", TRACE_TAGS_SQL, project_name, trace_id)
}

/// The statement for the runs of a trace.
pub fn trace_runs_statement(project_name: &str, trace_id: &str) -> (r: Statement)
    ensures
        r@ == trace_call(
            "load trace runs for thread refresh"@,
            TRACE_THREAD_RUNS_SQL@,
            project_name@,
            trace_id@,
        ),
{
    trace_statement(
        "load trace runs for thread refresh",
        TRACE_THREAD_RUNS_SQL,
        project_name,
        trace_id,
    )
}

/// The threads that runs are in.
pub open spec fn threads_of_runs(runs: Seq<ThreadRunRow>) -> Seq<Seq<char>>
    decreases runs.len(),
{
    if runs.len() == 0 {
        Seq::empty()
    } else {
        with(threads_of_runs(runs.drop_last()), opt_text(runs.last().thread_id))
    }
}

/// The order of the runs of a thread: by start, then by span.
pub open spec fn run_order() -> spec_fn(ThreadRunRow, ThreadRunRow) -> bool {
    |a: ThreadRunRow, b: ThreadRunRow|
        a.start_time_unix_nano < b.start_time_unix_nano || a.start_time_unix_nano
            == b.start_time_unix_nano && text_less(a.span_id@, b.span_id@)
}

fn is_run_earlier(a: &ThreadRunRow, b: &ThreadRunRow) -> (r: bool)
    ensures
        r == run_order()(*a, *b),
{
    a.start_time_unix_nano < b.start_time_unix_nano || a.start_time_unix_nano
        == b.start_time_unix_nano && is_less(a.span_id.as_str(), b.span_id.as_str())
}

/// The runs that are in a thread, in order.
pub open spec fn runs_in(runs: Seq<ThreadRunRow>, thread: Seq<char>) -> Seq<ThreadRunRow> {
    stable_sort(
        runs.filter(|run: ThreadRunRow| opt_text(run.thread_id) == Some(thread)),
        run_order(),
    )
}

fn collect_thread(runs: &Vec<ThreadRunRow>, thread_id: &str) -> (r: Vec<ThreadRunRow>)
    ensures
        r@ == runs_in(runs@, thread_id@),
{
    let ghost inside = |run: ThreadRunRow| opt_text(run.thread_id) == Some(thread_id@);
    let mut out: Vec<ThreadRunRow> = Vec::new();
    let mut i: usize = 0;
    proof {
        reveal(Seq::filter);
    }
    assert(runs@.take(0).filter(inside) =~= Seq::<ThreadRunRow>::empty());
    while i < runs.len()
        invariant
            i <= runs.len(),
            inside == (|run: ThreadRunRow| opt_text(run.thread_id) == Some(thread_id@)),
            out@ == runs@.take(i as int).filter(inside),
        decreases runs.len() - i,
    {
        proof {
            reveal(Seq::filter);
        }
        assert(runs@.take(i + 1).drop_last() =~= runs@.take(i as int));
        let is_inside = match &runs[i].thread_id {
            Some(own) => same(own.as_str(), thread_id),
            None => false,
        };
        if is_inside {
            out.push(runs[i].clone());
        }
        i += 1;
    }
    assert(runs@.take(i as int) =~= runs@);
    sort_by(out, is_run_earlier, Ghost(run_order()))
}

/// A message of a run in a thread.
pub open spec fn message_call(
    project_name: Seq<char>,
    thread: Seq<char>,
    trace_id: Seq<char>,
    run: ThreadRunRow,
    role: Seq<char>,
    preview: Seq<char>,
) -> Call {
    call("upsert thread message"@, UPSERT_THREAD_MESSAGE_SQL@).text(project_name).text(
        thread,
    ).text(trace_id).text(run.span_id@).text(stable_id(run)).text(role).text(preview).integer(
        run.start_time_unix_nano as int,
    ).optional_integer(run.trace_segment_id).optional_integer(run.row_index).integer(
        run.start_time_unix_nano as int,
    )
}

/// The statements for the messages of runs: what went in, then what came out.
pub open spec fn message_calls(
    project_name: Seq<char>,
    thread: Seq<char>,
    trace_id: Seq<char>,
    runs: Seq<ThreadRunRow>,
) -> Seq<Call>
    decreases runs.len(),
{
    if runs.len() == 0 {
        Seq::empty()
    } else {
        let before = message_calls(project_name, thread, trace_id, runs.drop_last());
        let run = runs.last();
        let asked = match run.inputs_preview {
            Some(preview) => before.push(
                message_call(project_name, thread, trace_id, run, "user"@, preview@),
            ),
            None => before,
        };
        match run.outputs_preview {
            Some(preview) => asked.push(
                message_call(project_name, thread, trace_id, run, "assistant"@, preview@),
            ),
            None => asked,
        }
    }
}

fn message_statement(
    project_name: &str,
    thread_id: &str,
    trace_id: &str,
    run: &ThreadRunRow,
    role: &str,
    preview: &str,
) -> (r: Statement)
    ensures
        r@ == message_call(project_name@, thread_id@, trace_id@, *run, role@, preview@),
{
    Statement::new("upsert thread message", UPSERT_THREAD_MESSAGE_SQL).text(project_name).text(
        thread_id,
    ).text(trace_id).text(run.span_id.as_str()).text(stable_run_id(run).as_str()).text(role).text(
        preview,
    ).integer(run.start_time_unix_nano).optional_integer(run.trace_segment_id).optional_integer(
        run.row_index,
    ).integer(run.start_time_unix_nano)
}

/// The statement that keeps a trace of a thread.
pub open spec fn thread_trace_call(
    project_name: Seq<char>,
    thread: Seq<char>,
    trace_id: Seq<char>,
    trace: ThreadTrace,
) -> Call {
    call("upsert thread trace"@, UPSERT_THREAD_TRACE_SQL@).text(project_name).text(thread).text(
        trace_id,
    ).text(trace.root_run_id).text(trace.root_span_id).text(trace.name).integer(
        trace.start as int,
    ).integer(trace.end as int).integer(trace.latency as int).optional_integer(
        trace.first_token_time,
    ).optional_text(trace.inputs).optional_text(trace.outputs).optional_text(
        trace.error,
    ).optional_integer(trace.prompt_tokens).optional_integer(
        trace.completion_tokens,
    ).optional_integer(trace.total_tokens).float_sum(trace.prompt_costs).float_sum(
        trace.completion_costs,
    ).float_sum(trace.total_costs)
}

fn thread_trace_statement(
    project_name: &str,
    thread_id: &str,
    trace_id: &str,
    trace: ThreadTraceUpsert,
) -> (r: Statement)
    ensures
        r@ == thread_trace_call(project_name@, thread_id@, trace_id@, trace@),
{
    Statement::new("upsert thread trace", UPSERT_THREAD_TRACE_SQL).text(project_name).text(
        thread_id,
    ).text(trace_id).text(trace.root_run_id.as_str()).text(trace.root_span_id.as_str()).text(
        trace.name.as_str(),
    ).integer(trace.start_time_unix_nano).integer(trace.end_time_unix_nano).integer(
        trace.latency_nanos,
    ).optional_integer(trace.first_token_time_unix_nano).optional_text(
        &trace.inputs_preview,
    ).optional_text(&trace.outputs_preview).optional_text(&trace.error_preview).optional_integer(
        trace.prompt_tokens,
    ).optional_integer(trace.completion_tokens).optional_integer(trace.total_tokens).float_sum(
        trace.prompt_costs,
    ).float_sum(trace.completion_costs).float_sum(trace.total_costs)
}

/// The statements that put the runs of a trace into one thread.
pub open spec fn thread_calls(
    project_name: Seq<char>,
    thread: Seq<char>,
    trace_id: Seq<char>,
    runs: Seq<ThreadRunRow>,
) -> Seq<Call> {
    Seq::empty().push(
        call("ensure thread row"@, ENSURE_THREAD_SQL@).text(project_name).text(thread),
    ).push(thread_trace_call(project_name, thread, trace_id, thread_trace_of(runs)))
        + message_calls(project_name, thread, trace_id, runs)
}

/// The statements that put the runs of a trace into their threads.
pub open spec fn all_thread_calls(
    project_name: Seq<char>,
    threads: Seq<Seq<char>>,
    trace_id: Seq<char>,
    runs: Seq<ThreadRunRow>,
) -> Seq<Call>
    decreases threads.len(),
{
    if threads.len() == 0 {
        Seq::empty()
    } else {
        all_thread_calls(project_name, threads.drop_last(), trace_id, runs) + thread_calls(
            project_name,
            threads.last(),
            trace_id,
            runs_in(runs, threads.last()),
        )
    }
}

fn push_thread_statements(
    out: &mut Vec<Statement>,
    project_name: &str,
    thread_id: &str,
    trace_id: &str,
    runs: &Vec<ThreadRunRow>,
)
    requires
        runs@.len() > 0,
        tokens_fit(runs@),
    ensures
        calls_of(final(out)@) == calls_of(old(out)@) + thread_calls(
            project_name@,
            thread_id@,
            trace_id@,
            runs@,
        ),
{
    let ghost done = calls_of(out@);
    push_statement(
        out,
        Statement::new("ensure thread row", ENSURE_THREAD_SQL).text(project_name).text(thread_id),
    );
    let trace = build_thread_trace_upsert(runs);
    push_statement(out, thread_trace_statement(project_name, thread_id, trace_id, trace));
    let ghost head = calls_of(out@);
    let mut i: usize = 0;
    assert(runs@.take(0) =~= Seq::<ThreadRunRow>::empty());
    assert(head + Seq::<Call>::empty() =~= head);
    while i < runs.len()
        invariant
            i <= runs.len(),
            calls_of(out@) == head + message_calls(
                project_name@,
                thread_id@,
                trace_id@,
                runs@.take(i as int),
            ),
        decreases runs.len() - i,
    {
        assert(runs@.take(i + 1).drop_last() =~= runs@.take(i as int));
        let run = &runs[i];
        let ghost before = message_calls(
            project_name@,
            thread_id@,
            trace_id@,
            runs@.take(i as int),
        );
        if let Some(preview) = &run.inputs_preview {
            push_statement(
                out,
                message_statement(
                    project_name,
                    thread_id,
                    trace_id,
                    run,
                    "user",
                    preview.as_str(),
                ),
            );
        }
        if let Some(preview) = &run.outputs_preview {
            push_statement(
                out,
                message_statement(
                    project_name,
                    thread_id,
                    trace_id,
                    run,
                    "assistant",
                    preview.as_str(),
                ),
            );
        }
        assert(calls_of(out@) =~= head + message_calls(
            project_name@,
            thread_id@,
            trace_id@,
            runs@.take(i + 1),
        ));
        i += 1;
    }
    assert(runs@.take(i as int) =~= runs@);
    assert(calls_of(out@) =~= done + thread_calls(project_name@, thread_id@, trace_id@, runs@));
}

fn distinct_threads(runs: &Vec<ThreadRunRow>) -> (r: Vec<String>)
    ensures
        texts(r@) == ordered_set(threads_of_runs(runs@), text_order()),
{
    let mut out = no_texts();
    let mut i: usize = 0;
    assert(runs@.take(0) =~= Seq::<ThreadRunRow>::empty());
    while i < runs.len()
        invariant
            i <= runs.len(),
            texts(out@) == ordered_set(threads_of_runs(runs@.take(i as int)), text_order()),
        decreases runs.len() - i,
    {
        assert(runs@.take(i + 1).drop_last() =~= runs@.take(i as int));
        let ghost before = threads_of_runs(runs@.take(i as int));
        if let Some(thread) = &runs[i].thread_id {
            assert(before.push(thread@).drop_last() =~= before);
            insert_text(&mut out, thread.clone());
        }
        i += 1;
    }
    assert(runs@.take(i as int) =~= runs@);
    out
}

/// Whether the tokens of the runs in each thread are in range.
pub open spec fn threads_fit(runs: Seq<ThreadRunRow>) -> bool {
    forall|thread: Seq<char>| tokens_fit(#[trigger] runs_in(runs, thread))
}

proof fn lemma_thread_has_runs(runs: Seq<ThreadRunRow>, thread: Seq<char>)
    requires
        threads_of_runs(runs).contains(thread),
    ensures
        runs_in(runs, thread).len() > 0,
    decreases runs.len(),
{
    let inside = |run: ThreadRunRow| opt_text(run.thread_id) == Some(thread);
    law_sort_keeps_elements(runs.filter(inside), run_order());
    reveal(Seq::filter);
    if runs.len() > 0 {
        let rest = runs.drop_last();
        if opt_text(runs.last().thread_id) != Some(thread) {
            let before = threads_of_runs(rest);
            let k = threads_of_runs(runs).index_of(thread);
            assert(before[k] == thread);
            lemma_thread_has_runs(rest, thread);
            law_sort_keeps_elements(rest.filter(inside), run_order());
        }
    }
}

/// The statements that put the runs of a trace into their threads.
pub fn thread_statements(project_name: &str, trace_id: &str, runs: &Vec<ThreadRunRow>) -> (r: Vec<
    Statement,
>)
    requires
        threads_fit(runs@),
    ensures
        calls_of(r@) == all_thread_calls(
            project_name@,
            ordered_set(threads_of_runs(runs@), text_order()),
            trace_id@,
            runs@,
        ),
{
    let threads = distinct_threads(runs);
    let ghost all = ordered_set(threads_of_runs(runs@), text_order());
    proof {
        law_text_order();
        law_ordered_set_holds_its_elements(threads_of_runs(runs@), text_order());
    }
    let mut out = no_statements();
    let mut i: usize = 0;
    assert(all.take(0) =~= Seq::<Seq<char>>::empty());
    assert(all.len() == threads@.len());
    while i < threads.len()
        invariant
            i <= threads.len(),
            all == texts(threads@),
            all.len() == threads@.len(),
            threads_fit(runs@),
            forall|thread: Seq<char>| #[trigger]
                all.contains(thread) ==> threads_of_runs(runs@).contains(thread),
            calls_of(out@) == all_thread_calls(
                project_name@,
                all.take(i as int),
                trace_id@,
                runs@,
            ),
        decreases threads.len() - i,
    {
        assert(all.take(i + 1).drop_last() =~= all.take(i as int));
        assert(all[i as int] == threads@[i as int]@);
        assert(all.contains(all[i as int]));
        proof {
            lemma_thread_has_runs(runs@, all[i as int]);
        }
        let own = collect_thread(runs, threads[i].as_str());
        push_thread_statements(&mut out, project_name, threads[i].as_str(), trace_id, &own);
        i += 1;
    }
    assert(all.take(i as int) =~= all);
    out
}

/// The threads whose summaries change: those that a trace was in, and those that it
/// is in now.
pub fn affected_threads(old_threads: &Vec<String>, runs: &Vec<ThreadRunRow>) -> (r: Vec<String>)
    ensures
        texts(r@) == ordered_set(texts(old_threads@) + threads_of_runs(runs@), text_order()),
{
    let ghost old_ids = texts(old_threads@);
    let mut out = no_texts();
    let mut i: usize = 0;
    assert(old_ids.take(0) =~= Seq::<Seq<char>>::empty());
    while i < old_threads.len()
        invariant
            i <= old_threads.len(),
            old_ids == texts(old_threads@),
            texts(out@) == ordered_set(old_ids.take(i as int), text_order()),
        decreases old_threads.len() - i,
    {
        assert(old_ids.take(i + 1).drop_last() =~= old_ids.take(i as int));
        assert(old_ids.take(i + 1).last() == old_threads@[i as int]@);
        insert_text(&mut out, old_threads[i].clone());
        i += 1;
    }
    assert(old_ids.take(i as int) =~= old_ids);
    let mut k: usize = 0;
    assert(runs@.take(0) =~= Seq::<ThreadRunRow>::empty());
    assert(old_ids + Seq::<Seq<char>>::empty() =~= old_ids);
    while k < runs.len()
        invariant
            k <= runs.len(),
            texts(out@) == ordered_set(
                old_ids + threads_of_runs(runs@.take(k as int)),
                text_order(),
            ),
        decreases runs.len() - k,
    {
        assert(runs@.take(k + 1).drop_last() =~= runs@.take(k as int));
        let ghost before = threads_of_runs(runs@.take(k as int));
        if let Some(thread) = &runs[k].thread_id {
            assert((old_ids + before.push(thread@)).drop_last() =~= old_ids + before);
            assert((old_ids + before.push(thread@)).last() == thread@);
            insert_text(&mut out, thread.clone());
        }
        k += 1;
    }
    assert(runs@.take(k as int) =~= runs@);
    out
}

/// A trace of a thread, as its summary reads it.
#[derive(Debug, PartialEq, Eq)]
pub struct ThreadTraceSummaryRow {
    pub trace_id: String,
    pub start_time_unix_nano: i64,
    pub latency_nanos: i64,
    pub inputs_preview: Option<String>,
    pub outputs_preview: Option<String>,
    pub error_preview: Option<String>,
    pub prompt_tokens: Option<i64>,
    pub completion_tokens: Option<i64>,
    pub total_tokens: Option<i64>,
    pub prompt_cost: Option<Float>,
    pub completion_cost: Option<Float>,
    pub total_cost: Option<Float>,
}

/// The statement for the traces of a thread, in order.
pub fn thread_traces_of_statement(project_name: &str, thread_id: &str) -> (r: Statement)
    ensures
        r@ == call("load thread trace summaries"@, THREAD_TRACES_SQL@).text(project_name@).text(
            thread_id@,
        ),
{
    Statement::new("load thread trace summaries", THREAD_TRACES_SQL).text(project_name).text(
        thread_id,
    )
}

/// How long traces took, at least nothing.
pub open spec fn latencies_of(traces: Seq<ThreadTraceSummaryRow>) -> Seq<i64> {
    traces.map_values(
        |trace: ThreadTraceSummaryRow|
            if trace.latency_nanos > 0 {
                trace.latency_nanos
            } else {
                0
            },
    )
}

/// How many traces have an error.
pub open spec fn errored(traces: Seq<ThreadTraceSummaryRow>) -> nat
    decreases traces.len(),
{
    if traces.len() == 0 {
        0
    } else {
        errored(traces.drop_last()) + if traces.last().error_preview is Some {
            1nat
        } else {
            0nat
        }
    }
}

/// The statement that brings the summary of a thread up to date: a thread without
/// traces goes.
pub open spec fn summary_call(
    project_name: Seq<char>,
    thread: Seq<char>,
    traces: Seq<ThreadTraceSummaryRow>,
) -> Call {
    if traces.len() == 0 {
        call("delete empty thread summary"@, DELETE_THREAD_SQL@).text(project_name).text(thread)
    } else {
        let latencies = stable_sort(latencies_of(traces), integer_order());
        call("update thread summary"@, UPDATE_THREAD_SQL@).text(project_name).text(thread).integer(
            traces.len() as int,
        ).text(traces[0].trace_id@).text(traces.last().trace_id@).integer(
            traces[0].start_time_unix_nano as int,
        ).integer(traces.last().start_time_unix_nano as int).optional_text(
            first_preview(
                traces.map_values(|trace: ThreadTraceSummaryRow| opt_text(trace.inputs_preview)),
            ),
        ).optional_text(
            last_preview(
                traces.map_values(|trace: ThreadTraceSummaryRow| opt_text(trace.outputs_preview)),
            ),
        ).optional_text(
            last_preview(
                traces.map_values(|trace: ThreadTraceSummaryRow| opt_text(trace.error_preview)),
            ),
        ).optional_integer(
            total_of(traces.map_values(|trace: ThreadTraceSummaryRow| trace.prompt_tokens)),
        ).optional_integer(
            total_of(traces.map_values(|trace: ThreadTraceSummaryRow| trace.completion_tokens)),
        ).optional_integer(
            total_of(traces.map_values(|trace: ThreadTraceSummaryRow| trace.total_tokens)),
        ).float_sum(
            present(traces.map_values(|trace: ThreadTraceSummaryRow| trace.prompt_cost)),
        ).float_sum(
            present(traces.map_values(|trace: ThreadTraceSummaryRow| trace.completion_cost)),
        ).float_sum(
            present(traces.map_values(|trace: ThreadTraceSummaryRow| trace.total_cost)),
        ).seconds(Some(percentile_of(latencies, 50))).seconds(
            Some(percentile_of(latencies, 99)),
        ).integer(errored(traces) as int)
    }
}

/// Whether the tokens of traces are in the range of an `i64` as they are added up,
/// and their number too.
pub open spec fn traces_fit(traces: Seq<ThreadTraceSummaryRow>) -> bool {
    &&& traces.len() <= i64::MAX
    &&& bytes_fit(present(traces.map_values(|trace: ThreadTraceSummaryRow| trace.prompt_tokens)))
    &&& bytes_fit(
        present(traces.map_values(|trace: ThreadTraceSummaryRow| trace.completion_tokens)),
    )
    &&& bytes_fit(present(traces.map_values(|trace: ThreadTraceSummaryRow| trace.total_tokens)))
}

struct TraceColumns {
    latencies: Vec<i64>,
    inputs: Vec<Option<String>>,
    outputs: Vec<Option<String>>,
    errors: Vec<Option<String>>,
    prompt_tokens: Vec<Option<i64>>,
    completion_tokens: Vec<Option<i64>>,
    total_tokens: Vec<Option<i64>>,
    prompt_costs: Vec<Option<Float>>,
    completion_costs: Vec<Option<Float>>,
    total_costs: Vec<Option<Float>>,
    errored: i64,
}

spec fn are_trace_columns_of(columns: TraceColumns, traces: Seq<ThreadTraceSummaryRow>) -> bool {
    &&& columns.latencies@ =~= latencies_of(traces)
    &&& opt_texts(columns.inputs@) =~= traces.map_values(
        |trace: ThreadTraceSummaryRow| opt_text(trace.inputs_preview),
    )
    &&& opt_texts(columns.outputs@) =~= traces.map_values(
        |trace: ThreadTraceSummaryRow| opt_text(trace.outputs_preview),
    )
    &&& opt_texts(columns.errors@) =~= traces.map_values(
        |trace: ThreadTraceSummaryRow| opt_text(trace.error_preview),
    )
    &&& columns.prompt_tokens@ =~= traces.map_values(
        |trace: ThreadTraceSummaryRow| trace.prompt_tokens,
    )
    &&& columns.completion_tokens@ =~= traces.map_values(
        |trace: ThreadTraceSummaryRow| trace.completion_tokens,
    )
    &&& columns.total_tokens@ =~= traces.map_values(
        |trace: ThreadTraceSummaryRow| trace.total_tokens,
    )
    &&& columns.prompt_costs@ =~= traces.map_values(
        |trace: ThreadTraceSummaryRow| trace.prompt_cost,
    )
    &&& columns.completion_costs@ =~= traces.map_values(
        |trace: ThreadTraceSummaryRow| trace.completion_cost,
    )
    &&& columns.total_costs@ =~= traces.map_values(
        |trace: ThreadTraceSummaryRow| trace.total_cost,
    )
    &&& columns.errored == errored(traces)
    &&& columns.errored <= traces.len()
}

fn trace_columns_of(traces: &Vec<ThreadTraceSummaryRow>) -> (r: TraceColumns)
    requires
        traces@.len() <= i64::MAX,
    ensures
        are_trace_columns_of(r, traces@),
{
    let mut columns = TraceColumns {
        latencies: Vec::new(),
        inputs: Vec::new(),
        outputs: Vec::new(),
        errors: Vec::new(),
        prompt_tokens: Vec::new(),
        completion_tokens: Vec::new(),
        total_tokens: Vec::new(),
        prompt_costs: Vec::new(),
        completion_costs: Vec::new(),
        total_costs: Vec::new(),
        errored: 0,
    };
    let mut i: usize = 0;
    while i < traces.len()
        invariant
            i <= traces.len(),
            traces@.len() <= i64::MAX,
            are_trace_columns_of(columns, traces@.take(i as int)),
        decreases traces.len() - i,
    {
        let trace = &traces[i];
        assert(traces@.take(i + 1) =~= traces@.take(i as int).push(*trace));
        assert(traces@.take(i + 1).drop_last() =~= traces@.take(i as int));
        let ghost inputs = opt_texts(columns.inputs@);
        let ghost outputs = opt_texts(columns.outputs@);
        let ghost errors = opt_texts(columns.errors@);
        columns.latencies.push(
            if trace.latency_nanos > 0 {
                trace.latency_nanos
            } else {
                0
            },
        );
        columns.inputs.push(copy_option(&trace.inputs_preview));
        columns.outputs.push(copy_option(&trace.outputs_preview));
        columns.errors.push(copy_option(&trace.error_preview));
        columns.prompt_tokens.push(trace.prompt_tokens);
        columns.completion_tokens.push(trace.completion_tokens);
        columns.total_tokens.push(trace.total_tokens);
        columns.prompt_costs.push(trace.prompt_cost);
        columns.completion_costs.push(trace.completion_cost);
        columns.total_costs.push(trace.total_cost);
        if trace.error_preview.is_some() {
            columns.errored = columns.errored + 1;
        }
        assert(opt_texts(columns.inputs@) =~= inputs.push(opt_text(trace.inputs_preview)));
        assert(opt_texts(columns.outputs@) =~= outputs.push(opt_text(trace.outputs_preview)));
        assert(opt_texts(columns.errors@) =~= errors.push(opt_text(trace.error_preview)));
        i += 1;
    }
    assert(traces@.take(i as int) =~= traces@);
    columns
}

/// The statement that brings the summary of a thread up to date.
pub fn thread_summary_statement(
    project_name: &str,
    thread_id: &str,
    traces: &Vec<ThreadTraceSummaryRow>,
) -> (r: Statement)
    requires
        traces_fit(traces@),
    ensures
        r@ == summary_call(project_name@, thread_id@, traces@),
{
    if traces.len() == 0 {
        return Statement::new("delete empty thread summary", DELETE_THREAD_SQL).text(
            project_name,
        ).text(thread_id);
    }
    let first = &traces[0];
    let last = &traces[traces.len() - 1];
    let columns = trace_columns_of(traces);
    let stats = integer_stats(columns.latencies, true);
    proof {
        law_sort_keeps_elements(latencies_of(traces@), integer_order());
    }
    let (p50, p99) = match stats {
        Some(told) => (told.p50, told.p99),
        None => (None, None),
    };
    Statement::new("update thread summary", UPDATE_THREAD_SQL).text(project_name).text(
        thread_id,
    ).integer(traces.len() as i64).text(first.trace_id.as_str()).text(
        last.trace_id.as_str(),
    ).integer(first.start_time_unix_nano).integer(last.start_time_unix_nano).optional_text(
        &find_first_preview(&columns.inputs),
    ).optional_text(&find_last_preview(&columns.outputs)).optional_text(
        &find_last_preview(&columns.errors),
    ).optional_integer(total(&columns.prompt_tokens)).optional_integer(
        total(&columns.completion_tokens),
    ).optional_integer(total(&columns.total_tokens)).float_sum(
        present_values(&columns.prompt_costs),
    ).float_sum(present_values(&columns.completion_costs)).float_sum(
        present_values(&columns.total_costs),
    ).seconds(p50).seconds(p99).integer(columns.errored)
}

/// What a run was asked is a message of the user, and what it answered one of the assistant; a
/// run adds the messages that it has, in this order, behind those of the runs before it.
pub proof fn law_messages_of_a_run(
    project_name: Seq<char>,
    thread: Seq<char>,
    trace_id: Seq<char>,
    runs: Seq<ThreadRunRow>,
    run: ThreadRunRow,
)
    ensures
        ({
            let before = message_calls(project_name, thread, trace_id, runs);
            let now = message_calls(project_name, thread, trace_id, runs.push(run));
            let added = now.skip(before.len() as int);
            &&& before.len() <= now.len()
            &&& now.take(before.len() as int) == before
            &&& added.len() == (if run.inputs_preview is Some {
                1int
            } else {
                0
            }) + (if run.outputs_preview is Some {
                1int
            } else {
                0
            })
            &&& run.inputs_preview matches Some(preview) ==> added[0].params[5] == Param::Text(
                "user"@,
            ) && added[0].params[6] == Param::Text(preview@)
            &&& run.outputs_preview matches Some(preview) ==> added.last().params[5]
                == Param::Text("assistant"@) && added.last().params[6] == Param::Text(preview@)
            &&& forall|i: int|
                0 <= i < added.len() ==> {
                    let message = #[trigger] added[i];
                    &&& message.sql == UPSERT_THREAD_MESSAGE_SQL@
                    &&& message.params[0] == Param::Text(project_name)
                    &&& message.params[1] == Param::Text(thread)
                    &&& message.params[2] == Param::Text(trace_id)
                    &&& message.params[3] == Param::Text(run.span_id@)
                    &&& message.params[4] == Param::Text(stable_id(run))
                    &&& message.params[7] == Param::Integer(run.start_time_unix_nano as int)
                }
        }),
{
    let more = runs.push(run);
    assert(more.drop_last() =~= runs);
    let before = message_calls(project_name, thread, trace_id, runs);
    let now = message_calls(project_name, thread, trace_id, more);
    assert(now.take(before.len() as int) =~= before);
}

proof fn lemma_errored(traces: Seq<ThreadTraceSummaryRow>)
    ensures
        errored(traces) == traces.filter(
            |trace: ThreadTraceSummaryRow| trace.error_preview is Some,
        ).len(),
    decreases traces.len(),
{
    reveal(Seq::filter);
    if traces.len() > 0 {
        lemma_errored(traces.drop_last());
    }
}

/// A thread is summed up by how many traces it has, by its first and its last trace, by the first
/// input, the last output and the last error that there is anything of, and by how many of its
/// traces failed.
pub proof fn law_thread_summary(
    project_name: Seq<char>,
    thread: Seq<char>,
    traces: Seq<ThreadTraceSummaryRow>,
)
    requires
        traces.len() > 0,
    ensures
        ({
            let params = summary_call(project_name, thread, traces).params;
            &&& params[0] == Param::Text(project_name)
            &&& params[1] == Param::Text(thread)
            &&& params[2] == Param::Integer(traces.len() as int)
            &&& params[3] == Param::Text(traces[0].trace_id@)
            &&& params[4] == Param::Text(traces[traces.len() - 1].trace_id@)
            &&& params[5] == Param::Integer(traces[0].start_time_unix_nano as int)
            &&& params[6] == Param::Integer(
                traces[traces.len() - 1].start_time_unix_nano as int,
            )
            &&& match params[7]->OptionalText_0 {
                Some(text) => exists|i: int|
                    0 <= i < traces.len() && is_told((#[trigger] traces[i]).inputs_preview) && text
                        == traces[i].inputs_preview->0@ && forall|j: int|
                        0 <= j < i ==> !is_told((#[trigger] traces[j]).inputs_preview),
                None => forall|j: int|
                    0 <= j < traces.len() ==> !is_told((#[trigger] traces[j]).inputs_preview),
            }
            &&& match params[8]->OptionalText_0 {
                Some(text) => exists|i: int|
                    0 <= i < traces.len() && is_told((#[trigger] traces[i]).outputs_preview)
                        && text == traces[i].outputs_preview->0@ && forall|j: int|
                        i < j < traces.len() ==> !is_told((#[trigger] traces[j]).outputs_preview),
                None => forall|j: int|
                    0 <= j < traces.len() ==> !is_told((#[trigger] traces[j]).outputs_preview),
            }
            &&& match params[9]->OptionalText_0 {
                Some(text) => exists|i: int|
                    0 <= i < traces.len() && is_told((#[trigger] traces[i]).error_preview) && text
                        == traces[i].error_preview->0@ && forall|j: int|
                        i < j < traces.len() ==> !is_told((#[trigger] traces[j]).error_preview),
                None => forall|j: int|
                    0 <= j < traces.len() ==> !is_told((#[trigger] traces[j]).error_preview),
            }
            &&& params[18] == Param::Integer(
                traces.filter(
                    |trace: ThreadTraceSummaryRow| trace.error_preview is Some,
                ).len() as int,
            )
        }),
{
    let inputs = traces.map_values(
        |trace: ThreadTraceSummaryRow| opt_text(trace.inputs_preview),
    );
    let outputs = traces.map_values(
        |trace: ThreadTraceSummaryRow| opt_text(trace.outputs_preview),
    );
    let errors = traces.map_values(|trace: ThreadTraceSummaryRow| opt_text(trace.error_preview));
    lemma_errored(traces);
    lemma_first_preview(inputs);
    lemma_last_preview(outputs);
    lemma_last_preview(errors);
    let params = summary_call(project_name, thread, traces).params;
    assert(params[7] == Param::OptionalText(first_preview(inputs)));
    assert(params[8] == Param::OptionalText(last_preview(outputs)));
    assert(params[9] == Param::OptionalText(last_preview(errors)));
    assert forall|j: int| 0 <= j < traces.len() implies {
        &&& is_told((#[trigger] traces[j]).inputs_preview) == (inputs[j] matches Some(text)
            && text.len() > 0)
        &&& is_told(traces[j].outputs_preview) == (outputs[j] matches Some(text) && text.len() > 0)
        &&& is_told(traces[j].error_preview) == (errors[j] matches Some(text) && text.len() > 0)
    } by {}
    if first_preview(inputs) is Some {
        let text = first_preview(inputs)->0;
        let i = choose|i: int|
            0 <= i < inputs.len() && #[trigger] inputs[i] == Some(text) && text.len() > 0
                && forall|j: int|
                0 <= j < i ==> !((#[trigger] inputs[j]) matches Some(sooner) && sooner.len() > 0);
        assert(is_told(traces[i].inputs_preview));
        assert forall|j: int| 0 <= j < i implies !is_told((#[trigger] traces[j]).inputs_preview) by {
            assert(!(inputs[j] matches Some(sooner) && sooner.len() > 0));
        }
    } else {
        assert forall|j: int| 0 <= j < traces.len() implies !is_told(
            (#[trigger] traces[j]).inputs_preview,
        ) by {
            assert(!(inputs[j] matches Some(text) && text.len() > 0));
        }
    }
    if last_preview(outputs) is Some {
        let text = last_preview(outputs)->0;
        let i = choose|i: int|
            0 <= i < outputs.len() && #[trigger] outputs[i] == Some(text) && text.len() > 0
                && forall|j: int|
                i < j < outputs.len() ==> !((#[trigger] outputs[j]) matches Some(later)
                    && later.len() > 0);
        assert(is_told(traces[i].outputs_preview));
        assert forall|j: int| i < j < traces.len() implies !is_told(
            (#[trigger] traces[j]).outputs_preview,
        ) by {
            assert(!(outputs[j] matches Some(later) && later.len() > 0));
        }
    } else {
        assert forall|j: int| 0 <= j < traces.len() implies !is_told(
            (#[trigger] traces[j]).outputs_preview,
        ) by {
            assert(!(outputs[j] matches Some(text) && text.len() > 0));
        }
    }
    if last_preview(errors) is Some {
        let text = last_preview(errors)->0;
        let i = choose|i: int|
            0 <= i < errors.len() && #[trigger] errors[i] == Some(text) && text.len() > 0
                && forall|j: int|
                i < j < errors.len() ==> !((#[trigger] errors[j]) matches Some(later)
                    && later.len() > 0);
        assert(is_told(traces[i].error_preview));
        assert forall|j: int| i < j < traces.len() implies !is_told(
            (#[trigger] traces[j]).error_preview,
        ) by {
            assert(!(errors[j] matches Some(later) && later.len() > 0));
        }
    } else {
        assert forall|j: int| 0 <= j < traces.len() implies !is_told(
            (#[trigger] traces[j]).error_preview,
        ) by {
            assert(!(errors[j] matches Some(text) && text.len() > 0));
        }
    }
}

/// One more trace adds its tokens and its costs to those of the thread, each to its own; and the
/// latencies that are said of a thread are percentiles of those of its traces.
pub proof fn law_thread_summary_with_one_more_trace(
    project_name: Seq<char>,
    thread: Seq<char>,
    traces: Seq<ThreadTraceSummaryRow>,
    trace: ThreadTraceSummaryRow,
)
    requires
        traces.len() > 0,
        traces_fit(traces.push(trace)),
    ensures
        ({
            let before = summary_call(project_name, thread, traces).params;
            let after = summary_call(project_name, thread, traces.push(trace)).params;
            &&& wide(after[10]->OptionalInteger_0) == plus(
                before[10]->OptionalInteger_0,
                trace.prompt_tokens,
            )
            &&& wide(after[11]->OptionalInteger_0) == plus(
                before[11]->OptionalInteger_0,
                trace.completion_tokens,
            )
            &&& wide(after[12]->OptionalInteger_0) == plus(
                before[12]->OptionalInteger_0,
                trace.total_tokens,
            )
            &&& after[13]->FloatSum_0 == with_one(before[13]->FloatSum_0, trace.prompt_cost)
            &&& after[14]->FloatSum_0 == with_one(before[14]->FloatSum_0, trace.completion_cost)
            &&& after[15]->FloatSum_0 == with_one(before[15]->FloatSum_0, trace.total_cost)
            &&& latencies_of(traces.push(trace)) == latencies_of(traces).push(
                if trace.latency_nanos > 0 {
                    trace.latency_nanos
                } else {
                    0
                },
            )
        }),
{
    let more = traces.push(trace);
    let prompt = |one: ThreadTraceSummaryRow| one.prompt_tokens;
    let completion = |one: ThreadTraceSummaryRow| one.completion_tokens;
    let total = |one: ThreadTraceSummaryRow| one.total_tokens;
    let prompt_cost = |one: ThreadTraceSummaryRow| one.prompt_cost;
    let completion_cost = |one: ThreadTraceSummaryRow| one.completion_cost;
    let total_cost = |one: ThreadTraceSummaryRow| one.total_cost;
    assert(more.map_values(prompt) =~= traces.map_values(prompt).push(trace.prompt_tokens));
    assert(more.map_values(completion) =~= traces.map_values(completion).push(
        trace.completion_tokens,
    ));
    assert(more.map_values(total) =~= traces.map_values(total).push(trace.total_tokens));
    assert(more.map_values(prompt_cost).drop_last() =~= traces.map_values(prompt_cost));
    assert(more.map_values(completion_cost).drop_last() =~= traces.map_values(completion_cost));
    assert(more.map_values(total_cost).drop_last() =~= traces.map_values(total_cost));
    lemma_total_of_more(traces.map_values(prompt), trace.prompt_tokens);
    lemma_total_of_more(traces.map_values(completion), trace.completion_tokens);
    lemma_total_of_more(traces.map_values(total), trace.total_tokens);
    assert(latencies_of(more) =~= latencies_of(traces).push(
        if trace.latency_nanos > 0 {
            trace.latency_nanos
        } else {
            0
        },
    ));
}

/// The latencies that are said of a thread are the percentiles of those of its traces that they
/// are named after.
pub proof fn law_latencies_of_a_thread(
    project_name: Seq<char>,
    thread: Seq<char>,
    traces: Seq<ThreadTraceSummaryRow>,
)
    requires
        traces.len() > 0,
    ensures
        ({
            let params = summary_call(project_name, thread, traces).params;
            let sorted_latencies = stable_sort(latencies_of(traces), integer_order());
            &&& is_percentile(params[16]->Seconds_0, sorted_latencies, 50)
            &&& is_percentile(params[17]->Seconds_0, sorted_latencies, 99)
            &&& sorted_latencies.to_multiset() == latencies_of(traces).to_multiset()
        }),
{
    let latencies = latencies_of(traces);
    let n = stable_sort(latencies, integer_order()).len() as int;
    law_sort_keeps_elements(latencies, integer_order());
    law_percentile_is_the_least_place(n, 50);
    law_percentile_is_the_least_place(n, 99);
}

/// The runs of a thread are those that name it, in the order of their start.
pub proof fn law_runs_of_a_thread(runs: Seq<ThreadRunRow>, thread: Seq<char>, run: ThreadRunRow)
    ensures
        runs_in(runs, thread).contains(run) <==> runs.contains(run) && opt_text(run.thread_id)
            == Some(thread),
        threads_of_runs(runs).contains(thread) <==> exists|i: int|
            0 <= i < runs.len() && opt_text((#[trigger] runs[i]).thread_id) == Some(thread),
    decreases runs.len(),
{
    let keeps = |one: ThreadRunRow| opt_text(one.thread_id) == Some(thread);
    lemma_filter_members(runs, keeps, run);
    let kept = runs.filter(keeps);
    let ordered = stable_sort(kept, run_order());
    lemma_sort_members(kept, run_order());
    law_sort_keeps_elements(kept, run_order());
    broadcast use vstd::seq_lib::group_to_multiset_ensures;

    assert(ordered.contains(run) <==> ordered.to_multiset().count(run) > 0);
    assert(kept.contains(run) <==> kept.to_multiset().count(run) > 0);
    if runs.len() > 0 {
        let before = runs.drop_last();
        let rest = threads_of_runs(before);
        let all = threads_of_runs(runs);
        law_runs_of_a_thread(before, thread, run);
        if all.contains(thread) {
            let n = choose|n: int| 0 <= n < all.len() && all[n] == thread;
            if n < rest.len() {
                assert(rest[n] == thread);
                assert(rest.contains(thread));
                let i = choose|i: int|
                    0 <= i < before.len() && opt_text((#[trigger] before[i]).thread_id) == Some(
                        thread,
                    );
                assert(runs[i] == before[i]);
            } else {
                assert(opt_text(runs[runs.len() - 1].thread_id) == Some(thread));
            }
        }
        if exists|i: int|
            0 <= i < runs.len() && opt_text((#[trigger] runs[i]).thread_id) == Some(thread) {
            let i = choose|i: int|
                0 <= i < runs.len() && opt_text((#[trigger] runs[i]).thread_id) == Some(thread);
            if i < before.len() {
                assert(before[i] == runs[i]);
                assert(rest.contains(thread));
                let n = choose|n: int| 0 <= n < rest.len() && rest[n] == thread;
                assert(all[n] == thread);
            } else {
                assert(all[rest.len() as int] == thread);
            }
        }
    }
}

/// What is shown of a run is stored as what it is: its inputs as inputs, its outputs as outputs
/// and its error as its error.
pub proof fn law_preview_is_stored(record: SpanRecord)
    ensures
        ({
            let preview = preview_of(record.attributes_json@);
            let params = preview_call(record).params;
            &&& params.len() == 7
            &&& params[0] == Param::Text(record.project_name@)
            &&& params[1] == Param::Text(record.trace_id@)
            &&& params[2] == Param::Text(record.span_id@)
            &&& params[3] == Param::OptionalText(preview.inputs)
            &&& params[4] == Param::OptionalText(preview.outputs)
            &&& params[5] == Param::OptionalText(preview.error)
            &&& params[6] == Param::OptionalInteger(preview.first_token_time)
        }),
{
}

/// A trace of a thread is stored with all that is known of it, each in its column.
pub proof fn law_thread_trace_is_stored(
    project_name: Seq<char>,
    thread: Seq<char>,
    trace_id: Seq<char>,
    trace: ThreadTrace,
)
    ensures
        ({
            let params = thread_trace_call(project_name, thread, trace_id, trace).params;
            &&& params.len() == 19
            &&& params[0] == Param::Text(project_name)
            &&& params[1] == Param::Text(thread)
            &&& params[2] == Param::Text(trace_id)
            &&& params[3] == Param::Text(trace.root_run_id)
            &&& params[4] == Param::Text(trace.root_span_id)
            &&& params[5] == Param::Text(trace.name)
            &&& params[6] == Param::Integer(trace.start as int)
            &&& params[7] == Param::Integer(trace.end as int)
            &&& params[8] == Param::Integer(trace.latency as int)
            &&& params[9] == Param::OptionalInteger(trace.first_token_time)
            &&& params[10] == Param::OptionalText(trace.inputs)
            &&& params[11] == Param::OptionalText(trace.outputs)
            &&& params[12] == Param::OptionalText(trace.error)
            &&& params[13] == Param::OptionalInteger(trace.prompt_tokens)
            &&& params[14] == Param::OptionalInteger(trace.completion_tokens)
            &&& params[15] == Param::OptionalInteger(trace.total_tokens)
            &&& params[16] == Param::FloatSum(trace.prompt_costs)
            &&& params[17] == Param::FloatSum(trace.completion_costs)
            &&& params[18] == Param::FloatSum(trace.total_costs)
        }),
{
}

} // verus!
