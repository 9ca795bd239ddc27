//! Aggregates from the segments themselves.

use crate::query::Key;
use crate::query::Query;
use crate::query::RunKey;
use crate::query::RunQuery;
use crate::query::SegmentSource;
use crate::query::aggregates::AggregateQuery;
use crate::query::aggregates::RunAggregateGroup;
use crate::query::aggregates::RunAggregateQuery;
use crate::query::aggregates::RunAggregateSource;
use crate::query::aggregates::grouping::AggregateRunRow;
use crate::query::aggregates::grouping::FeedbackScore;
use crate::query::aggregates::grouping::RunAggregateRow;
use crate::query::aggregates::grouping::RunFeedback;
use crate::query::aggregates::grouping::RunTag;
use crate::query::aggregates::grouping::aggregate_key;
use crate::query::aggregates::grouping::aggregate_rows;
use crate::query::aggregates::grouping::are_aggregates_of;
use crate::query::aggregates::grouping::buckets_fit;
use crate::query::aggregates::grouping::counted_runs;
use crate::query::all_predicates;
use crate::query::keys_of;
use crate::query::keys_predicates;
use crate::query::keys_sql;
use crate::query::object_path;
use crate::query::opt_keys;
use crate::query::planner::RunQueryPlan;
use crate::query::planner::query_predicates;
use crate::query::planner::run_query_where_sql;
use crate::query::run_source_pushdown_where_sql;
use crate::query::scan::ObjectStoreReadSnapshot;
use crate::query::scan::QueryTimes;
use crate::query::scan::RunQueryDiagnostics;
use crate::query::scan::listing_diagnostics;
use crate::query::scan::pushed_keys;
use crate::query::scan::some_segment_is_unrestricted;
use crate::query::segment_predicate;
use crate::query::segment_source_where_sql;
use crate::query::source_predicate;
use crate::query::sql_object_store_path;
use crate::query::text_in;
use crate::query::text_in_sql;
use crate::sorting::lemma_filter_members;
use crate::sorting::ordered_set;
use crate::sql::literal_list;
use crate::sql::sql_string_list;
use crate::statement::Call;
use crate::statement::Statement;
use crate::statement::call;
use crate::text::insert_text;
use crate::text::join;
use crate::text::joined;
use crate::text::no_texts;
use crate::text::one_text;
use crate::text::opt_text;
use crate::text::push_some;
use crate::text::push_text;
use crate::text::same;
use crate::text::text_order;
use crate::text::texts;
use crate::text::with;
use vstd::prelude::*;
use vstd::string::StringExecFns;

verus! {

pub const AGGREGATE_RUNS_SQL: &'static str = "SELECT
            project_name, run_id, trace_id, span_id, run_type, status,
            start_time_unix_nano, latency_nanos,
            prompt_tokens, completion_tokens, total_tokens,
            prompt_cost, completion_cost, total_cost,
            first_token_latency_nanos, evaluator_score, model_name, provider_name
        FROM (
            SELECT
                *,
                ROW_NUMBER() OVER (
                    PARTITION BY project_name, trace_id, span_id
                    ORDER BY event_time_unix_nano DESC, end_time_unix_nano DESC, start_time_unix_nano DESC, row_index DESC
                ) AS run_version
            FROM (
                SELECT
                    project_name,
                    NULLIF(run_id, '') AS run_id,
                    trace_id,
                    span_id,
                    run_type,
                    CASE
                        WHEN status_code = 2 THEN 'error'
                        WHEN end_time_unix_nano = 0 THEN 'pending'
                        ELSE 'success'
                    END AS status,
                    start_time_unix_nano,
                    end_time_unix_nano,
                    event_time_unix_nano,
                    row_index,
                    latency_nanos,
                    prompt_tokens,
                    completion_tokens,
                    total_tokens,
                    prompt_cost,
                    completion_cost,
                    total_cost,
                    first_token_latency_nanos,
                    evaluator_score,
                    model_name,
                    provider_name
                FROM (";

pub const AGGREGATE_COLUMNS_SQL: &'static str = "SELECT
            project_name, run_id, trace_id, span_id, run_type,
            start_time_unix_nano, end_time_unix_nano, status_code,
            event_time_unix_nano, row_index,
            latency_nanos, prompt_tokens, completion_tokens, total_tokens,
            prompt_cost, completion_cost, total_cost,
            first_token_latency_nanos, evaluator_score, model_name, provider_name
        FROM ";

/// The rows of a segment, as an aggregate reads them.
pub open spec fn aggregate_source(segment: SegmentSource, source: Seq<char>) -> Seq<char> {
    AGGREGATE_COLUMNS_SQL@ + object_path(segment.uri@) + "\n        WHERE "@ + segment_predicate(
        segment.candidate_rows@,
        source,
    )
}

pub open spec fn aggregate_sources(segments: Seq<SegmentSource>, source: Seq<char>) -> Seq<
    Seq<char>,
> {
    segments.map_values(|segment: SegmentSource| aggregate_source(segment, source))
}

/// The latest version of each run in the segments, as an aggregate reads it.
pub open spec fn aggregate_runs_sql(
    segments: Seq<SegmentSource>,
    query: Query,
    keys: Option<Seq<Key>>,
) -> Seq<char> {
    AGGREGATE_RUNS_SQL@ + join(
        aggregate_sources(segments, source_predicate(query, pushed_keys(segments, keys))),
        " UNION ALL "@,
    )
        + ") AS segment_spans\n            ) AS versioned_runs\n        ) AS runs\n        WHERE run_version = 1 AND "@
        + all_predicates(query_predicates(query, Seq::empty()))
}

fn aggregate_segment_source_sql(segment: &SegmentSource, source_where_sql: &str) -> (r: String)
    ensures
        r@ == aggregate_source(*segment, source_where_sql@),
{
    let mut out = AGGREGATE_COLUMNS_SQL.to_owned();
    out.append(sql_object_store_path(segment.uri.as_str()).as_str());
    out.append("\n        WHERE ");
    out.append(segment_source_where_sql(segment, source_where_sql).as_str());
    out
}

/// The latest version of each run in the segments, as an aggregate reads it.
pub fn aggregate_datafusion_sql(
    segments: &Vec<SegmentSource>,
    query: &RunQuery,
    candidate_run_keys: Option<&Vec<RunKey>>,
) -> (r: String)
    ensures
        r@ == aggregate_runs_sql(segments@, query@, opt_keys(candidate_run_keys)),
{
    let source_keys = if some_segment_is_unrestricted(segments) {
        candidate_run_keys
    } else {
        None
    };
    let source_where_sql = run_source_pushdown_where_sql(query, source_keys);
    let ghost wanted = aggregate_sources(segments@, source_where_sql@);
    let mut sources = no_texts();
    let mut i: usize = 0;
    while i < segments.len()
        invariant
            i <= segments.len(),
            wanted == aggregate_sources(segments@, source_where_sql@),
            texts(sources@) == wanted.take(i as int),
        decreases segments.len() - i,
    {
        push_text(
            &mut sources,
            aggregate_segment_source_sql(&segments[i], source_where_sql.as_str()),
        );
        i += 1;
        assert(wanted.take(i as int) =~= wanted.take(i - 1).push(wanted[i - 1]));
    }
    assert(wanted.take(i as int) =~= wanted);
    let mut out = AGGREGATE_RUNS_SQL.to_owned();
    out.append(joined(&sources, " UNION ALL ").as_str());
    out.append(
        ") AS segment_spans\n            ) AS versioned_runs\n        ) AS runs\n        WHERE run_version = 1 AND ",
    );
    out.append(run_query_where_sql(query).as_str());
    out
}

/// A run that a scan gives, with the id that it was given, if it was given one.
#[derive(Debug, PartialEq, Eq)]
pub struct ScannedRun {
    pub run_id: Option<String>,
    pub row: AggregateRunRow,
}

/// A score that was loaded for the run with this id.
#[derive(Debug, PartialEq, Eq)]
pub struct LoadedScore {
    pub run_id: String,
    pub score: FeedbackScore,
}

/// The runs of a scan that are candidates, in order.
pub open spec fn candidate_runs(runs: Seq<ScannedRun>, candidates: Seq<Key>) -> Seq<ScannedRun> {
    runs.filter(|run: ScannedRun| candidates.contains(aggregate_key(run.row)))
}

fn is_candidate(keys: &Vec<RunKey>, run: &ScannedRun) -> (r: bool)
    ensures
        r == keys_of(keys@).contains(aggregate_key(run.row)),
{
    let mut i: usize = 0;
    while i < keys.len()
        invariant
            i <= keys.len(),
            forall|j: int| 0 <= j < i ==> #[trigger] keys_of(keys@)[j] != aggregate_key(run.row),
        decreases keys.len() - i,
    {
        assert(keys_of(keys@)[i as int] == keys@[i as int]@);
        if run.row.has_key(&keys[i]) {
            return true;
        }
        i += 1;
    }
    false
}

/// The runs of a scan that are candidates, in order.
pub fn keep_candidates(runs: Vec<ScannedRun>, candidate_run_keys: &Vec<RunKey>) -> (r: Vec<
    ScannedRun,
>)
    ensures
        r@ == candidate_runs(runs@, keys_of(candidate_run_keys@)),
{
    let ghost all = runs@;
    let ghost candidates = keys_of(candidate_run_keys@);
    let ghost kept = |run: ScannedRun| candidates.contains(aggregate_key(run.row));
    let mut out: Vec<ScannedRun> = Vec::new();
    proof {
        reveal(Seq::filter);
    }
    assert(all.take(0).filter(kept) =~= Seq::<ScannedRun>::empty());
    for run in iter: runs
        invariant
            iter.seq() == all,
            candidates == keys_of(candidate_run_keys@),
            kept == (|run: ScannedRun| candidates.contains(aggregate_key(run.row))),
            out@ == all.take(iter.index() as int).filter(kept),
    {
        let ghost n = iter.index() as int;
        proof {
            reveal(Seq::filter);
        }
        assert(all.take(n + 1).drop_last() =~= all.take(n));
        assert(all.take(n + 1).last() == run);
        if is_candidate(candidate_run_keys, &run) {
            out.push(run);
        }
    }
    assert(all.take(all.len() as int) =~= all);
    out
}

/// The statement for the tags of runs.
pub open spec fn tags_call(keys: Seq<Key>) -> Call {
    call(
        "load aggregate tags"@,
        "SELECT project_name, trace_id, span_id, tag\n                FROM run_tags\n                WHERE "@
            + join(keys_predicates("run_tags."@, keys), " OR "@)
            + "\n                ORDER BY project_name, trace_id, span_id, tag"@,
    )
}

/// The statement for the tags of the candidates: none, if runs are not grouped by
/// tag or there are no candidates.
pub fn tags_statement(query: &RunAggregateQuery, candidate_run_keys: &Vec<RunKey>) -> (r: Option<
    Statement,
>)
    ensures
        match r {
            Some(statement) => query@.group_by.contains(RunAggregateGroup::Tag)
                && candidate_run_keys@.len() > 0 && statement@ == tags_call(
                keys_of(candidate_run_keys@),
            ),
            None => !query@.group_by.contains(RunAggregateGroup::Tag) || candidate_run_keys@.len()
                == 0,
        },
{
    if !query.groups_by(RunAggregateGroup::Tag) || candidate_run_keys.len() == 0 {
        return None;
    }
    let mut sql =
        "SELECT project_name, trace_id, span_id, tag\n                FROM run_tags\n                WHERE ".to_owned();
    sql.append(joined(&keys_sql("run_tags.", candidate_run_keys), " OR ").as_str());
    sql.append("\n                ORDER BY project_name, trace_id, span_id, tag");
    Some(Statement::new("load aggregate tags", sql.as_str()))
}

/// The ids that runs were given, those that are empty left out.
pub open spec fn given_ids(runs: Seq<ScannedRun>) -> Seq<Seq<char>>
    decreases runs.len(),
{
    if runs.len() == 0 {
        Seq::empty()
    } else {
        let before = given_ids(runs.drop_last());
        match runs.last().run_id {
            Some(id) => if id@.len() > 0 {
                before.push(id@)
            } else {
                before
            },
            None => before,
        }
    }
}

/// The statement for the scores of runs with these ids.
pub open spec fn feedback_call(ids: Seq<Seq<char>>, query: AggregateQuery) -> Call {
    let p0 = seq!["run_id IN ("@ + literal_list(ordered_set(ids, text_order())) + ")"@].push(
        "score_number IS NOT NULL"@,
    );
    let p1 = with(p0, text_in("project_name"@, query.project_names));
    let p2 = with(p1, text_in("key"@, query.feedback_keys));
    call(
        "load aggregate feedback scores"@,
        "SELECT run_id, key, score_number\n                FROM feedback\n                WHERE "@
            + join(p2, " AND "@)
            + "\n                ORDER BY run_id, key, created_at_unix_nano"@,
    )
}

/// Whether the scores of runs are needed.
pub open spec fn needs_feedback(query: AggregateQuery) -> bool {
    query.group_by.contains(RunAggregateGroup::FeedbackKey) || query.feedback_keys.len() > 0
}

/// The statement for the scores of runs: none, if no scores are needed or no run
/// was given an id.
pub fn feedback_statement(query: &RunAggregateQuery, runs: &Vec<ScannedRun>) -> (r: Option<
    Statement,
>)
    ensures
        match r {
            Some(statement) => needs_feedback(query@) && given_ids(runs@).len() > 0 && statement@
                == feedback_call(given_ids(runs@), query@),
            None => !needs_feedback(query@) || given_ids(runs@).len() == 0,
        },
{
    assert(query@.feedback_keys.len() == query.feedback_keys@.len());
    if !query.groups_by(RunAggregateGroup::FeedbackKey) && query.feedback_keys.len() == 0 {
        return None;
    }
    let mut found = false;
    let mut ids = no_texts();
    let mut i: usize = 0;
    assert(runs@.take(0) =~= Seq::<ScannedRun>::empty());
    while i < runs.len()
        invariant
            i <= runs.len(),
            texts(ids@) == ordered_set(given_ids(runs@.take(i as int)), text_order()),
            found == (given_ids(runs@.take(i as int)).len() > 0),
        decreases runs.len() - i,
    {
        let ghost before = given_ids(runs@.take(i as int));
        assert(runs@.take(i + 1).drop_last() =~= runs@.take(i as int));
        if let Some(id) = &runs[i].run_id {
            if !id.as_str().is_empty() {
                insert_text(&mut ids, id.clone());
                assert(before.push(id@).drop_last() =~= before);
                found = true;
            }
        }
        i += 1;
    }
    assert(runs@.take(i as int) =~= runs@);
    if !found {
        return None;
    }
    let mut first = "run_id IN (".to_owned();
    first.append(sql_string_list(&ids).as_str());
    first.append(")");
    let mut predicates = one_text(first);
    push_text(&mut predicates, "score_number IS NOT NULL".to_owned());
    push_some(&mut predicates, text_in_sql("project_name", &query.project_names));
    push_some(&mut predicates, text_in_sql("key", &query.feedback_keys));
    let mut sql =
        "SELECT run_id, key, score_number\n                FROM feedback\n                WHERE ".to_owned();
    sql.append(joined(&predicates, " AND ").as_str());
    sql.append("\n                ORDER BY run_id, key, created_at_unix_nano");
    Some(Statement::new("load aggregate feedback scores", sql.as_str()))
}

/// The scores of those that were loaded for an id, in order.
pub open spec fn loaded_for(loaded: Seq<LoadedScore>, id: Seq<char>) -> Seq<FeedbackScore>
    decreases loaded.len(),
{
    if loaded.len() == 0 {
        Seq::empty()
    } else {
        let before = loaded_for(loaded.drop_last(), id);
        if loaded.last().run_id@ == id {
            before.push(loaded.last().score)
        } else {
            before
        }
    }
}

/// A score that a run was given.
pub struct Given {
    pub run: Key,
    pub score: FeedbackScore,
}

pub open spec fn givens_of(feedback: Seq<RunFeedback>) -> Seq<Given> {
    feedback.map_values(|given: RunFeedback| Given { run: given.run@, score: given.score })
}

/// The scores of a run, by its key.
pub open spec fn given_to(run: ScannedRun, loaded: Seq<LoadedScore>) -> Seq<Given> {
    match run.run_id {
        Some(id) => loaded_for(loaded, id@).map_values(
            |score: FeedbackScore| Given { run: aggregate_key(run.row), score },
        ),
        None => Seq::empty(),
    }
}

/// Whether two runs of a scan are one: they go by the same key and the same id.
pub open spec fn same_scanned(a: ScannedRun, b: ScannedRun) -> bool {
    aggregate_key(a.row) == aggregate_key(b.row) && opt_text(a.run_id) == opt_text(b.run_id)
}

/// Whether a run is among runs.
pub open spec fn is_among(runs: Seq<ScannedRun>, run: ScannedRun) -> bool {
    exists|i: int| 0 <= i < runs.len() && same_scanned(#[trigger] runs[i], run)
}

/// The scores of runs, by their keys. A run that a scan gives twice has its scores
/// once.
pub open spec fn given_to_all(runs: Seq<ScannedRun>, loaded: Seq<LoadedScore>) -> Seq<Given>
    decreases runs.len(),
{
    if runs.len() == 0 {
        Seq::empty()
    } else {
        let before = given_to_all(runs.drop_last(), loaded);
        if is_among(runs.drop_last(), runs.last()) {
            before
        } else {
            before + given_to(runs.last(), loaded)
        }
    }
}

fn same_option(a: &Option<String>, b: &Option<String>) -> (r: bool)
    ensures
        r == (opt_text(*a) == opt_text(*b)),
{
    match (a, b) {
        (Some(x), Some(y)) => same(x.as_str(), y.as_str()),
        (None, None) => true,
        _ => false,
    }
}

/// Whether the run at a place came before.
fn came_before(runs: &Vec<ScannedRun>, at: usize) -> (r: bool)
    requires
        at < runs@.len(),
    ensures
        r == is_among(runs@.take(at as int), runs@[at as int]),
{
    let key = runs[at].row.run_key();
    let mut i: usize = 0;
    while i < at
        invariant
            i <= at < runs@.len(),
            key@ == aggregate_key(runs@[at as int].row),
            forall|k: int| 0 <= k < i ==> !same_scanned(#[trigger] runs@[k], runs@[at as int]),
        decreases at - i,
    {
        if runs[i].row.has_key(&key) && same_option(&runs[i].run_id, &runs[at].run_id) {
            assert(same_scanned(runs@.take(at as int)[i as int], runs@[at as int]));
            return true;
        }
        i += 1;
    }
    false
}

/// The scores of runs, by their keys.
pub fn feedback_by_run(runs: &Vec<ScannedRun>, loaded: &Vec<LoadedScore>) -> (r: Vec<RunFeedback>)
    ensures
        givens_of(r@) == given_to_all(runs@, loaded@),
{
    let mut out: Vec<RunFeedback> = Vec::new();
    let mut i: usize = 0;
    assert(runs@.take(0) =~= Seq::<ScannedRun>::empty());
    assert(givens_of(out@) =~= Seq::<Given>::empty());
    while i < runs.len()
        invariant
            i <= runs.len(),
            givens_of(out@) == given_to_all(runs@.take(i as int), loaded@),
        decreases runs.len() - i,
    {
        assert(runs@.take(i + 1).drop_last() =~= runs@.take(i as int));
        let run = &runs[i];
        let ghost done = givens_of(out@);
        assert(runs@.take(i + 1).last() == runs@[i as int]);
        if came_before(runs, i) {
            i += 1;
            continue;
        }
        if let Some(id) = &run.run_id {
            let ghost make = |score: FeedbackScore| Given { run: aggregate_key(run.row), score };
            let mut j: usize = 0;
            assert(loaded@.take(0) =~= Seq::<LoadedScore>::empty());
            assert(done + loaded_for(loaded@.take(0), id@).map_values(make) =~= done);
            while j < loaded.len()
                invariant
                    j <= loaded.len(),
                    make == (|score: FeedbackScore|
                        Given { run: aggregate_key(run.row), score }),
                    givens_of(out@) == done + loaded_for(loaded@.take(j as int), id@).map_values(
                        make,
                    ),
                decreases loaded.len() - j,
            {
                assert(loaded@.take(j + 1).drop_last() =~= loaded@.take(j as int));
                if same(loaded[j].run_id.as_str(), id.as_str()) {
                    let ghost before = out@;
                    let given = RunFeedback {
                        run: run.row.run_key(),
                        score: loaded[j].score.clone(),
                    };
                    out.push(given);
                    assert(givens_of(out@) =~= givens_of(before).push(
                        Given { run: given.run@, score: given.score },
                    ));
                    assert(done + loaded_for(loaded@.take(j + 1), id@).map_values(make) =~= (done
                        + loaded_for(loaded@.take(j as int), id@).map_values(make)).push(
                        Given { run: given.run@, score: given.score },
                    ));
                }
                j += 1;
            }
            assert(loaded@.take(j as int) =~= loaded@);
        } else {
            assert(done + Seq::<Given>::empty() =~= done);
        }
        i += 1;
    }
    assert(runs@.take(i as int) =~= runs@);
    out
}

/// The runs of a scan without the ids that they were given.
pub open spec fn rows_of_scan(runs: Seq<ScannedRun>) -> Seq<AggregateRunRow> {
    runs.map_values(|run: ScannedRun| run.row)
}

/// The runs of a scan without the ids that they were given.
pub fn scanned_rows(runs: Vec<ScannedRun>) -> (r: Vec<AggregateRunRow>)
    ensures
        r@ == rows_of_scan(runs@),
{
    let ghost all = runs@;
    let mut out: Vec<AggregateRunRow> = Vec::new();
    for run in iter: runs
        invariant
            iter.seq() == all,
            out@ =~= rows_of_scan(all).take(iter.index() as int),
    {
        out.push(run.row);
    }
    assert(out@ =~= rows_of_scan(all));
    out
}

/// An aggregate, and what it cost.
#[derive(Debug, PartialEq, Eq)]
pub struct RunAggregateResult {
    pub rows: Vec<RunAggregateRow>,
    pub diagnostics: RunQueryDiagnostics,
    pub source: RunAggregateSource,
}

/// An aggregate from the runs of a scan that are candidates, with their tags and
/// scores.
pub fn aggregate_result(
    query: &RunAggregateQuery,
    plan: &RunQueryPlan,
    rows: &Vec<AggregateRunRow>,
    tags: &Vec<RunTag>,
    feedback: &Vec<RunFeedback>,
    reads: ObjectStoreReadSnapshot,
    times: QueryTimes,
) -> (r: RunAggregateResult)
    requires
        buckets_fit(rows@, query@),
        reads.requests() <= u64::MAX,
    ensures
        are_aggregates_of(r.rows@, counted_runs(rows@, query@, tags@, feedback@)),
        r.diagnostics == listing_diagnostics(*plan, r.rows@.len() as int, reads, times),
        r.source == RunAggregateSource::Vortex,
{
    let aggregated = aggregate_rows(rows, query, tags, feedback);
    let rows_returned = aggregated.len();
    RunAggregateResult {
        rows: aggregated,
        diagnostics: RunQueryDiagnostics {
            candidate_segments: plan.segments.len(),
            candidate_runs: plan.candidate_runs,
            candidate_bytes: plan.candidate_bytes,
            estimated_object_store_requests: plan.estimated_object_store_requests,
            actual_object_store_requests: reads.request_count(),
            actual_object_store_bytes_read: reads.bytes_read,
            vortex_files_opened: plan.segments.len(),
            rows_returned,
            postgres_query_time: times.postgres,
            datafusion_planning_time: times.planning,
            datafusion_execution_time: times.execution,
        },
        source: RunAggregateSource::Vortex,
    }
}

proof fn lemma_loaded_for(loaded: Seq<LoadedScore>, id: Seq<char>, score: FeedbackScore)
    ensures
        loaded_for(loaded, id).contains(score) <==> exists|i: int|
            0 <= i < loaded.len() && (#[trigger] loaded[i]).run_id@ == id && loaded[i].score
                == score,
    decreases loaded.len(),
{
    if loaded.len() > 0 {
        let before = loaded.drop_last();
        let rest = loaded_for(before, id);
        let all = loaded_for(loaded, id);
        lemma_loaded_for(before, id, score);
        if all.contains(score) {
            let n = choose|n: int| 0 <= n < all.len() && all[n] == score;
            if n < rest.len() {
                assert(rest[n] == score);
                assert(rest.contains(score));
                let i = choose|i: int|
                    0 <= i < before.len() && (#[trigger] before[i]).run_id@ == id
                        && before[i].score == score;
                assert(loaded[i] == before[i]);
            } else {
                assert(loaded[loaded.len() - 1].run_id@ == id);
            }
        }
        if exists|i: int|
            0 <= i < loaded.len() && (#[trigger] loaded[i]).run_id@ == id && loaded[i].score
                == score {
            let i = choose|i: int|
                0 <= i < loaded.len() && (#[trigger] loaded[i]).run_id@ == id && loaded[i].score
                    == score;
            if i < before.len() {
                assert(before[i] == loaded[i]);
                assert(rest.contains(score));
                let n = choose|n: int| 0 <= n < rest.len() && rest[n] == score;
                assert(all[n] == score);
            } else {
                assert(all[rest.len() as int] == score);
            }
        }
    }
}

/// A run is given the scores that are loaded under its id, and no others; a run without one is
/// given none.
pub proof fn law_scores_go_to_their_run(
    run: ScannedRun,
    loaded: Seq<LoadedScore>,
    score: FeedbackScore,
)
    ensures
        given_to(run, loaded).contains(Given { run: aggregate_key(run.row), score }) <==> {
            &&& run.run_id is Some
            &&& exists|i: int|
                0 <= i < loaded.len() && (#[trigger] loaded[i]).run_id@ == run.run_id->0@
                    && loaded[i].score == score
        },
        forall|i: int|
            0 <= i < given_to(run, loaded).len() ==> (#[trigger] given_to(run, loaded)[i]).run
                == aggregate_key(run.row),
{
    let given = Given { run: aggregate_key(run.row), score };
    if run.run_id is Some {
        let id = run.run_id->0@;
        let scores = loaded_for(loaded, id);
        let all = given_to(run, loaded);
        lemma_loaded_for(loaded, id, score);
        if all.contains(given) {
            let n = choose|n: int| 0 <= n < all.len() && all[n] == given;
            assert(scores[n] == score);
            assert(scores.contains(score));
        }
        if scores.contains(score) {
            let n = choose|n: int| 0 <= n < scores.len() && scores[n] == score;
            assert(all[n] == given);
        }
    }
}

/// Runs are kept for an aggregate just if they are candidates; scores are loaded if runs are
/// grouped by them or if any are asked for, and for the runs that have an id.
pub proof fn law_candidates_are_aggregated(
    runs: Seq<ScannedRun>,
    candidates: Seq<Key>,
    run: ScannedRun,
    query: AggregateQuery,
)
    ensures
        candidate_runs(runs, candidates).contains(run) <==> runs.contains(run)
            && candidates.contains(aggregate_key(run.row)),
        needs_feedback(query) <==> !(query.feedback_keys.len() == 0
            && !query.group_by.contains(RunAggregateGroup::FeedbackKey)),
        given_ids(runs.push(run)) == given_ids(runs) + (if run.run_id is Some && run.run_id->0@.len()
            > 0 {
            seq![run.run_id->0@]
        } else {
            Seq::empty()
        }),
{
    lemma_filter_members(
        runs,
        |one: ScannedRun| candidates.contains(aggregate_key(one.row)),
        run,
    );
    assert(runs.push(run).drop_last() =~= runs);
}

} // verus!
