//! The rollups of an hour of a project.

use crate::float::Float;
use crate::float::finite;
use crate::ingest::thread::lemma_total_of_more;
use crate::ingest::thread::plus;
use crate::ingest::thread::present;
use crate::ingest::thread::present_values;
use crate::ingest::thread::sum_integers;
use crate::ingest::thread::total_of;
use crate::ingest::thread::wide;
use crate::ingest::thread::with_one;
use crate::query::aggregates::AGGREGATE_ROLLUP_BUCKET_UNIX_NANOS;
use crate::query::aggregates::grouping::known_or;
use crate::query::aggregates::rollups::RollupKind;
use crate::query::aggregates::rollups::rollup_word;
use crate::query::aggregates::stats::integer_order;
use crate::query::aggregates::stats::integer_stats;
use crate::query::aggregates::stats::is_percentile;
use crate::query::aggregates::stats::law_percentile_is_the_least_place;
use crate::query::aggregates::stats::percentile_of;
use crate::query::planner::bytes_fit;
use crate::query::planner::sum_of;
use crate::sorting::insert_distinct;
use crate::sorting::law_sort_keeps_elements;
use crate::sorting::law_sort_sorts;
use crate::sorting::lemma_filter_members;
use crate::sorting::lemma_ordered_insert_map;
use crate::sorting::lemma_sort_members;
use crate::sorting::ordered_set;
use crate::sorting::stable_sort;
use crate::sorting::strict_order;
use crate::sorting::total_order;
use crate::statement::Call;
use crate::statement::Param;
use crate::statement::Statement;
use crate::statement::call;
use crate::statement::calls_of;
use crate::statement::no_statements;
use crate::statement::push_statement;
use crate::text::is_less;
use crate::text::law_text_order_is_total;
use crate::text::law_text_order_is_transitive;
use crate::text::same;
use crate::text::text_less;
use crate::time::bucket_start;
use crate::time::bucket_start_of;
use crate::time::clamped;
use crate::time::law_bucket_holds_its_time;
use crate::time::saturating_sum;
use vstd::prelude::*;
use vstd::string::StringExecFns;

verus! {

pub const DELETE_ROLLUPS_SQL: &'static str = "DELETE FROM run_metric_rollups
        WHERE project_name = $1 AND time_bucket_start_unix_nano = $2";

pub const ROLLUP_RUNS_SQL: &'static str = "SELECT
                run_type, status, start_time_unix_nano, latency_nanos,
                prompt_tokens, completion_tokens, total_tokens,
                prompt_cost, completion_cost, total_cost,
                evaluator_score, model_name
            FROM run_heads heads
            LEFT JOIN run_deletions deletions
                ON deletions.project_name = heads.project_name
                AND deletions.trace_id = heads.trace_id
                AND deletions.span_id = heads.span_id
            WHERE heads.project_name = $1
                AND heads.start_time_unix_nano >= $2
                AND heads.start_time_unix_nano < $3
                AND heads.deleted_at_unix_nano IS NULL
                AND deletions.span_id IS NULL";

pub const INSERT_ROLLUP_SQL: &'static str = "INSERT INTO run_metric_rollups(
            project_name, bucket_size_unix_nanos, time_bucket_start_unix_nano,
            rollup_kind, group_value, run_count, error_count,
            latency_min_nanos, latency_max_nanos, latency_avg_nanos,
            latency_p50_nanos, latency_p95_nanos, latency_p99_nanos,
            prompt_tokens_sum, prompt_tokens_avg,
            completion_tokens_sum, completion_tokens_avg,
            total_tokens_sum, total_tokens_avg,
            prompt_cost_sum, prompt_cost_avg,
            completion_cost_sum, completion_cost_avg,
            total_cost_sum, total_cost_avg,
            evaluator_score_avg, updated_at
        )
        VALUES (
            $1, $2, $3, $4, $5, $6, $7, $8, $9, $10,
            $11, $12, $13, $14, $15, $16, $17, $18, $19, $20,
            $21, $22, $23, $24, $25, $26, CURRENT_TIMESTAMP
        )";

/// A run as a rollup reads it.
#[derive(Debug, PartialEq, Eq)]
pub struct RollupRun {
    pub run_type: String,
    pub status: String,
    pub start_time_unix_nano: i64,
    pub latency_nanos: i64,
    pub prompt_tokens: Option<i64>,
    pub completion_tokens: Option<i64>,
    pub total_tokens: Option<i64>,
    pub prompt_cost: Option<Float>,
    pub completion_cost: Option<Float>,
    pub total_cost: Option<Float>,
    pub evaluator_score: Option<Float>,
    pub model_name: Option<String>,
}

/// The hour that a time is in.
pub open spec fn rollup_hour_of(time: i64) -> int {
    bucket_start(time as int, AGGREGATE_ROLLUP_BUCKET_UNIX_NANOS as int)
}

/// The hour that a time is in.
pub fn rollup_time_bucket(start_time_unix_nano: i64) -> (r: i64)
    requires
        rollup_hour_of(start_time_unix_nano) >= i64::MIN,
    ensures
        r == rollup_hour_of(start_time_unix_nano),
{
    proof {
        law_bucket_holds_its_time(
            start_time_unix_nano as int,
            AGGREGATE_ROLLUP_BUCKET_UNIX_NANOS as int,
        );
    }
    bucket_start_of(start_time_unix_nano, AGGREGATE_ROLLUP_BUCKET_UNIX_NANOS) as i64
}

/// The statements that clear the rollups of an hour and ask for its runs.
pub fn rollup_load_statements(project_name: &str, time_bucket_start_unix_nano: i64) -> (r: (
    Statement,
    Statement,
))
    ensures
        r.0@ == call("delete old run aggregate rollups"@, DELETE_ROLLUPS_SQL@).text(
            project_name@,
        ).integer(time_bucket_start_unix_nano as int),
        r.1@ == call("load run heads for aggregate rollups"@, ROLLUP_RUNS_SQL@).text(
            project_name@,
        ).integer(time_bucket_start_unix_nano as int).integer(
            clamped(time_bucket_start_unix_nano + AGGREGATE_ROLLUP_BUCKET_UNIX_NANOS) as int,
        ),
{
    (
        Statement::new("delete old run aggregate rollups", DELETE_ROLLUPS_SQL).text(
            project_name,
        ).integer(time_bucket_start_unix_nano),
        Statement::new("load run heads for aggregate rollups", ROLLUP_RUNS_SQL).text(
            project_name,
        ).integer(time_bucket_start_unix_nano).integer(
            saturating_sum(time_bucket_start_unix_nano, AGGREGATE_ROLLUP_BUCKET_UNIX_NANOS),
        ),
    )
}

/// What a run is rolled up under, for each kind of rollups of runs.
pub open spec fn rollup_value(run: RollupRun, kind: RollupKind, project_name: Seq<char>) -> Seq<char> {
    match kind {
        RollupKind::Project => project_name,
        RollupKind::RunType => run.run_type@,
        RollupKind::Model => known_or(run.model_name, "unknown"@),
        RollupKind::Error => if run.status@ == "error"@ {
            "true"@
        } else {
            "false"@
        },
        RollupKind::Feedback => project_name,
    }
}

/// An hour, and what runs are rolled up under in it.
#[derive(Debug, PartialEq, Eq)]
pub struct RollupGroup {
    pub hour: i64,
    pub value: String,
}

/// What a [`RollupGroup`] holds.
pub struct HourGroup {
    pub hour: int,
    pub value: Seq<char>,
}

impl View for RollupGroup {
    type V = HourGroup;

    open spec fn view(&self) -> HourGroup {
        HourGroup { hour: self.hour as int, value: self.value@ }
    }
}

pub open spec fn hour_group_less(a: HourGroup, b: HourGroup) -> bool {
    a.hour < b.hour || a.hour == b.hour && text_less(a.value, b.value)
}

/// The order of rollups: by hour, then by what they are under.
pub open spec fn hour_group_order() -> spec_fn(HourGroup, HourGroup) -> bool {
    |a: HourGroup, b: HourGroup| hour_group_less(a, b)
}

/// The order of rollups is an order of all different ones.
pub proof fn law_hour_group_order()
    ensures
        total_order(hour_group_order()),
{
    let less = hour_group_order();
    assert forall|a: HourGroup, b: HourGroup| #[trigger] less(a, b) implies !less(b, a) by {
        law_text_order_is_total(a.value, b.value);
    }
    assert forall|a: HourGroup, b: HourGroup| !#[trigger] less(a, b) && !less(b, a) implies a
        == b by {
        law_text_order_is_total(a.value, b.value);
    }
    assert forall|a: HourGroup, b: HourGroup, c: HourGroup| #[trigger] less(a, b)
        && #[trigger] less(b, c) implies less(a, c) by {
        if a.hour == b.hour && b.hour == c.hour {
            law_text_order_is_transitive(a.value, b.value, c.value);
        }
    }
}

fn is_hour_group_less(a: &RollupGroup, b: &RollupGroup) -> (r: bool)
    ensures
        r == hour_group_less(a@, b@),
{
    a.hour < b.hour || a.hour == b.hour && is_less(a.value.as_str(), b.value.as_str())
}

/// The rollup that a run goes into.
pub open spec fn group_of_run(run: RollupRun, kind: RollupKind, project_name: Seq<char>) -> HourGroup {
    HourGroup {
        hour: rollup_hour_of(run.start_time_unix_nano),
        value: rollup_value(run, kind, project_name),
    }
}

pub open spec fn groups_of_runs(
    runs: Seq<RollupRun>,
    kind: RollupKind,
    project_name: Seq<char>,
) -> Seq<HourGroup> {
    runs.map_values(|run: RollupRun| group_of_run(run, kind, project_name))
}

/// The runs that go into a rollup.
pub open spec fn runs_of_group(
    runs: Seq<RollupRun>,
    kind: RollupKind,
    project_name: Seq<char>,
    group: HourGroup,
) -> Seq<RollupRun> {
    runs.filter(|run: RollupRun| group_of_run(run, kind, project_name) == group)
}

fn group_of(run: &RollupRun, kind: RollupKind, project_name: &str) -> (r: RollupGroup)
    requires
        rollup_hour_of(run.start_time_unix_nano) >= i64::MIN,
    ensures
        r@ == group_of_run(*run, kind, project_name@),
{
    let value = match kind {
        RollupKind::Project => project_name.to_owned(),
        RollupKind::RunType => run.run_type.clone(),
        RollupKind::Model => match &run.model_name {
            Some(name) => name.clone(),
            None => "unknown".to_owned(),
        },
        RollupKind::Error => if same(run.status.as_str(), "error") {
            "true".to_owned()
        } else {
            "false".to_owned()
        },
        RollupKind::Feedback => project_name.to_owned(),
    };
    RollupGroup { hour: rollup_time_bucket(run.start_time_unix_nano), value }
}

/// The finite ones of the numbers that there are.
pub open spec fn finite_present(numbers: Seq<Option<Float>>) -> Seq<Float>
    decreases numbers.len(),
{
    if numbers.len() == 0 {
        Seq::empty()
    } else {
        let before = finite_present(numbers.drop_last());
        match numbers.last() {
            Some(number) => if finite(number) {
                before.push(number)
            } else {
                before
            },
            None => before,
        }
    }
}

/// How many of the runs are errors.
pub open spec fn rollup_errors(runs: Seq<RollupRun>) -> nat
    decreases runs.len(),
{
    if runs.len() == 0 {
        0
    } else {
        rollup_errors(runs.drop_last()) + if runs.last().status@ == "error"@ {
            1nat
        } else {
            0nat
        }
    }
}

/// How an insertion of a rollup is named.
pub open spec fn rollup_purpose(kind: RollupKind) -> Seq<char> {
    "insert "@ + rollup_word(kind) + " aggregate rollup"@
}

/// A sum of integers and their mean, as parameters.
pub open spec fn with_integers(statement: Call, values: Seq<i64>) -> Call {
    statement.optional_integer(
        if values.len() == 0 {
            None
        } else {
            Some(sum_of(values) as i64)
        },
    ).integer_mean(sum_of(values), values.len() as int)
}

/// A sum of numbers and their mean, as parameters.
pub open spec fn with_floats(statement: Call, values: Seq<Float>) -> Call {
    statement.float_sum(values).float_mean(values)
}

/// The integers that are said of runs, of those of which there is one.
pub open spec fn prompt_tokens_of(runs: Seq<RollupRun>) -> Seq<i64> {
    present(runs.map_values(|run: RollupRun| run.prompt_tokens))
}

pub open spec fn completion_tokens_of(runs: Seq<RollupRun>) -> Seq<i64> {
    present(runs.map_values(|run: RollupRun| run.completion_tokens))
}

pub open spec fn total_tokens_of(runs: Seq<RollupRun>) -> Seq<i64> {
    present(runs.map_values(|run: RollupRun| run.total_tokens))
}

pub open spec fn latencies_of_runs(runs: Seq<RollupRun>) -> Seq<i64> {
    runs.map_values(|run: RollupRun| run.latency_nanos)
}

/// The statement that adds the rollup of runs.
pub open spec fn rollup_call(
    project_name: Seq<char>,
    kind: RollupKind,
    group: HourGroup,
    runs: Seq<RollupRun>,
) -> Call {
    let latencies = stable_sort(latencies_of_runs(runs), integer_order());
    let c0 = call(rollup_purpose(kind), INSERT_ROLLUP_SQL@).text(project_name).integer(
        AGGREGATE_ROLLUP_BUCKET_UNIX_NANOS as int,
    ).integer(group.hour).text(rollup_word(kind)).text(group.value).integer(
        runs.len() as int,
    ).integer(rollup_errors(runs) as int).optional_integer(
        if latencies.len() == 0 {
            None
        } else {
            Some(latencies[0])
        },
    ).optional_integer(
        if latencies.len() == 0 {
            None
        } else {
            Some(latencies.last())
        },
    ).integer_mean(sum_of(latencies), latencies.len() as int).integer_as_float(
        percentile_in(latencies, 50),
    ).integer_as_float(percentile_in(latencies, 95)).integer_as_float(
        percentile_in(latencies, 99),
    );
    let c1 = with_integers(c0, prompt_tokens_of(runs));
    let c2 = with_integers(c1, completion_tokens_of(runs));
    let c3 = with_integers(c2, total_tokens_of(runs));
    let c4 = with_floats(c3, finite_present(runs.map_values(|run: RollupRun| run.prompt_cost)));
    let c5 = with_floats(
        c4,
        finite_present(runs.map_values(|run: RollupRun| run.completion_cost)),
    );
    let c6 = with_floats(c5, finite_present(runs.map_values(|run: RollupRun| run.total_cost)));
    c6.float_mean(finite_present(runs.map_values(|run: RollupRun| run.evaluator_score)))
}

/// A percentile of values in ascending order, if there are any.
pub open spec fn percentile_in(values: Seq<i64>, percentile: int) -> Option<i64> {
    if values.len() == 0 {
        None
    } else {
        Some(percentile_of(values, percentile))
    }
}

/// Whether what is added up over runs is in the range of an `i64`, and their number
/// too.
pub open spec fn rollup_fits(runs: Seq<RollupRun>) -> bool {
    &&& runs.len() <= i64::MAX
    &&& bytes_fit(stable_sort(latencies_of_runs(runs), integer_order()))
    &&& bytes_fit(prompt_tokens_of(runs))
    &&& bytes_fit(completion_tokens_of(runs))
    &&& bytes_fit(total_tokens_of(runs))
}

struct RollupColumns {
    latencies: Vec<i64>,
    prompt_tokens: Vec<Option<i64>>,
    completion_tokens: Vec<Option<i64>>,
    total_tokens: Vec<Option<i64>>,
    prompt_costs: Vec<Option<Float>>,
    completion_costs: Vec<Option<Float>>,
    total_costs: Vec<Option<Float>>,
    scores: Vec<Option<Float>>,
    errors: i64,
}

spec fn are_rollup_columns_of(columns: RollupColumns, runs: Seq<RollupRun>) -> bool {
    &&& columns.latencies@ =~= latencies_of_runs(runs)
    &&& columns.prompt_tokens@ =~= runs.map_values(|run: RollupRun| run.prompt_tokens)
    &&& columns.completion_tokens@ =~= runs.map_values(|run: RollupRun| run.completion_tokens)
    &&& columns.total_tokens@ =~= runs.map_values(|run: RollupRun| run.total_tokens)
    &&& columns.prompt_costs@ =~= runs.map_values(|run: RollupRun| run.prompt_cost)
    &&& columns.completion_costs@ =~= runs.map_values(|run: RollupRun| run.completion_cost)
    &&& columns.total_costs@ =~= runs.map_values(|run: RollupRun| run.total_cost)
    &&& columns.scores@ =~= runs.map_values(|run: RollupRun| run.evaluator_score)
    &&& columns.errors == rollup_errors(runs)
    &&& columns.errors <= runs.len()
}

spec fn picked_runs(members: Seq<usize>, runs: Seq<RollupRun>) -> Seq<RollupRun> {
    members.map_values(|at: usize| runs[at as int])
}

spec fn places_known(members: Seq<usize>, runs: Seq<RollupRun>) -> bool {
    forall|k: int| 0 <= k < members.len() ==> (#[trigger] members[k]) < runs.len()
}

fn rollup_columns_of(members: &Vec<usize>, runs: &Vec<RollupRun>) -> (r: RollupColumns)
    requires
        places_known(members@, runs@),
        members@.len() <= i64::MAX,
    ensures
        are_rollup_columns_of(r, picked_runs(members@, runs@)),
{
    let ghost all = picked_runs(members@, runs@);
    let mut columns = RollupColumns {
        latencies: Vec::new(),
        prompt_tokens: Vec::new(),
        completion_tokens: Vec::new(),
        total_tokens: Vec::new(),
        prompt_costs: Vec::new(),
        completion_costs: Vec::new(),
        total_costs: Vec::new(),
        scores: Vec::new(),
        errors: 0,
    };
    let mut i: usize = 0;
    while i < members.len()
        invariant
            i <= members.len(),
            members@.len() <= i64::MAX,
            places_known(members@, runs@),
            all == picked_runs(members@, runs@),
            are_rollup_columns_of(columns, all.take(i as int)),
        decreases members.len() - i,
    {
        assert(members@[i as int] < runs@.len());
        let run = &runs[members[i]];
        assert(all.take(i + 1) =~= all.take(i as int).push(*run));
        assert(all.take(i + 1).drop_last() =~= all.take(i as int));
        columns.latencies.push(run.latency_nanos);
        columns.prompt_tokens.push(run.prompt_tokens);
        columns.completion_tokens.push(run.completion_tokens);
        columns.total_tokens.push(run.total_tokens);
        columns.prompt_costs.push(run.prompt_cost);
        columns.completion_costs.push(run.completion_cost);
        columns.total_costs.push(run.total_cost);
        columns.scores.push(run.evaluator_score);
        if same(run.status.as_str(), "error") {
            columns.errors = columns.errors + 1;
        }
        i += 1;
    }
    assert(all.take(i as int) =~= all);
    columns
}

fn finite_values(numbers: &Vec<Option<Float>>) -> (r: Vec<Float>)
    ensures
        r@ == finite_present(numbers@),
{
    let mut out: Vec<Float> = Vec::new();
    let mut i: usize = 0;
    assert(numbers@.take(0) =~= Seq::empty());
    while i < numbers.len()
        invariant
            i <= numbers.len(),
            out@ == finite_present(numbers@.take(i as int)),
        decreases numbers.len() - i,
    {
        assert(numbers@.take(i + 1).drop_last() =~= numbers@.take(i as int));
        match numbers[i] {
            Some(number) => {
                if number.is_finite() {
                    out.push(number);
                }
            },
            None => {},
        }
        i += 1;
    }
    assert(numbers@.take(i as int) =~= numbers@);
    out
}

fn add_integers(statement: Statement, values: &Vec<i64>) -> (r: Statement)
    requires
        bytes_fit(values@),
        values@.len() <= i64::MAX,
    ensures
        r@ == with_integers(statement@, values@),
{
    let sum = sum_integers(values);
    let stated = if values.len() == 0 {
        None
    } else {
        Some(sum)
    };
    statement.optional_integer(stated).integer_mean(sum, values.len() as i64)
}

fn add_floats(statement: Statement, values: Vec<Float>) -> (r: Statement)
    ensures
        r@ == with_floats(statement@, values@),
{
    let mut again: Vec<Float> = Vec::new();
    let mut i: usize = 0;
    while i < values.len()
        invariant
            i <= values.len(),
            again@ =~= values@.take(i as int),
        decreases values.len() - i,
    {
        again.push(values[i]);
        i += 1;
    }
    assert(again@ =~= values@);
    statement.float_sum(values).float_mean(again)
}

proof fn lemma_present_len<T>(numbers: Seq<Option<T>>)
    ensures
        present(numbers).len() <= numbers.len(),
    decreases numbers.len(),
{
    if numbers.len() > 0 {
        lemma_present_len(numbers.drop_last());
    }
}

fn rollup_statement(
    project_name: &str,
    kind: RollupKind,
    group: &RollupGroup,
    members: &Vec<usize>,
    runs: &Vec<RollupRun>,
) -> (r: Statement)
    requires
        places_known(members@, runs@),
        rollup_fits(picked_runs(members@, runs@)),
    ensures
        r@ == rollup_call(project_name@, kind, group@, picked_runs(members@, runs@)),
{
    let ghost own = picked_runs(members@, runs@);
    let columns = rollup_columns_of(members, runs);
    let prompt_tokens = present_values(&columns.prompt_tokens);
    let completion_tokens = present_values(&columns.completion_tokens);
    let total_tokens = present_values(&columns.total_tokens);
    let ghost latencies = stable_sort(latencies_of_runs(own), integer_order());
    proof {
        law_sort_keeps_elements(latencies_of_runs(own), integer_order());
        lemma_present_len(columns.prompt_tokens@);
        lemma_present_len(columns.completion_tokens@);
        lemma_present_len(columns.total_tokens@);
    }
    let mut purpose = "insert ".to_owned();
    purpose.append(kind.as_str());
    purpose.append(" aggregate rollup");
    let head = Statement::new(purpose.as_str(), INSERT_ROLLUP_SQL).text(project_name).integer(
        AGGREGATE_ROLLUP_BUCKET_UNIX_NANOS,
    ).integer(group.hour).text(kind.as_str()).text(group.value.as_str()).integer(
        members.len() as i64,
    ).integer(columns.errors);
    let timed = match integer_stats(columns.latencies, true) {
        Some(stats) => {
            let sum = sum_integers(&stats.values);
            head.optional_integer(Some(stats.min)).optional_integer(Some(stats.max)).integer_mean(
                sum,
                stats.values.len() as i64,
            ).integer_as_float(stats.p50).integer_as_float(stats.p95).integer_as_float(stats.p99)
        },
        None => head.optional_integer(None).optional_integer(None).integer_mean(
            0,
            0,
        ).integer_as_float(None).integer_as_float(None).integer_as_float(None),
    };
    let counted = add_integers(
        add_integers(add_integers(timed, &prompt_tokens), &completion_tokens),
        &total_tokens,
    );
    let costed = add_floats(
        add_floats(
            add_floats(counted, finite_values(&columns.prompt_costs)),
            finite_values(&columns.completion_costs),
        ),
        finite_values(&columns.total_costs),
    );
    costed.float_mean(finite_values(&columns.scores))
}

/// The statements that add the rollups of one kind, for some groups.
pub open spec fn rollup_calls_for(
    project_name: Seq<char>,
    kind: RollupKind,
    groups: Seq<HourGroup>,
    runs: Seq<RollupRun>,
) -> Seq<Call> {
    groups.map_values(
        |group: HourGroup|
            rollup_call(
                project_name,
                kind,
                group,
                runs_of_group(runs, kind, project_name, group),
            ),
    )
}

/// The statements that add the rollups of one kind.
pub open spec fn rollup_calls(
    project_name: Seq<char>,
    kind: RollupKind,
    runs: Seq<RollupRun>,
) -> Seq<Call> {
    rollup_calls_for(
        project_name,
        kind,
        ordered_set(groups_of_runs(runs, kind, project_name), hour_group_order()),
        runs,
    )
}

/// Whether the hours of runs are in the range of an `i64`, and what is added up over
/// those of each rollup.
pub open spec fn rollups_fit(runs: Seq<RollupRun>, project_name: Seq<char>) -> bool {
    &&& forall|i: int|
        0 <= i < runs.len() ==> rollup_hour_of((#[trigger] runs[i]).start_time_unix_nano)
            >= i64::MIN
    &&& forall|kind: RollupKind, group: HourGroup|
        rollup_fits(#[trigger] runs_of_group(runs, kind, project_name, group))
}

spec fn hour_groups(groups: Seq<RollupGroup>) -> Seq<HourGroup> {
    groups.map_values(|group: RollupGroup| group@)
}

fn distinct_rollups(runs: &Vec<RollupRun>, kind: RollupKind, project_name: &str) -> (r: Vec<
    RollupGroup,
>)
    requires
        rollups_fit(runs@, project_name@),
    ensures
        hour_groups(r@) == ordered_set(
            groups_of_runs(runs@, kind, project_name@),
            hour_group_order(),
        ),
{
    let ghost all = groups_of_runs(runs@, kind, project_name@);
    let ghost less = |a: RollupGroup, b: RollupGroup| hour_group_less(a@, b@);
    let ghost held = |group: RollupGroup| group@;
    let mut out: Vec<RollupGroup> = Vec::new();
    let mut i: usize = 0;
    assert(all.take(0) =~= Seq::<HourGroup>::empty());
    assert(hour_groups(out@) =~= Seq::<HourGroup>::empty());
    while i < runs.len()
        invariant
            i <= runs.len(),
            rollups_fit(runs@, project_name@),
            all == groups_of_runs(runs@, kind, project_name@),
            less == (|a: RollupGroup, b: RollupGroup| hour_group_less(a@, b@)),
            held == (|group: RollupGroup| group@),
            hour_groups(out@) == ordered_set(all.take(i as int), hour_group_order()),
        decreases runs.len() - i,
    {
        assert(all.take(i + 1).drop_last() =~= all.take(i as int));
        assert(rollup_hour_of(runs@[i as int].start_time_unix_nano) >= i64::MIN);
        let group = group_of(&runs[i], kind, project_name);
        assert(all.take(i + 1).last() == group@);
        proof {
            assert forall|a: RollupGroup, b: RollupGroup| #[trigger] less(a, b)
                == hour_group_order()(held(a), held(b)) by {}
            lemma_ordered_insert_map(out@, group, held, less, hour_group_order());
        }
        insert_distinct(&mut out, group, is_hour_group_less, Ghost(less));
        i += 1;
    }
    assert(all.take(i as int) =~= all);
    out
}

fn members_of_rollup(
    runs: &Vec<RollupRun>,
    kind: RollupKind,
    project_name: &str,
    group: &RollupGroup,
) -> (r: Vec<usize>)
    requires
        rollups_fit(runs@, project_name@),
    ensures
        places_known(r@, runs@),
        picked_runs(r@, runs@) == runs_of_group(runs@, kind, project_name@, group@),
{
    let ghost inside = |run: RollupRun| group_of_run(run, kind, project_name@) == group@;
    let mut out: Vec<usize> = Vec::new();
    let mut i: usize = 0;
    proof {
        reveal(Seq::filter);
    }
    assert(runs@.take(0).filter(inside) =~= Seq::<RollupRun>::empty());
    assert(picked_runs(out@, runs@) =~= Seq::<RollupRun>::empty());
    while i < runs.len()
        invariant
            i <= runs.len(),
            rollups_fit(runs@, project_name@),
            inside == (|run: RollupRun| group_of_run(run, kind, project_name@) == group@),
            places_known(out@, runs@),
            picked_runs(out@, runs@) == runs@.take(i as int).filter(inside),
        decreases runs.len() - i,
    {
        proof {
            reveal(Seq::filter);
        }
        assert(runs@.take(i + 1).drop_last() =~= runs@.take(i as int));
        assert(rollup_hour_of(runs@[i as int].start_time_unix_nano) >= i64::MIN);
        let own = group_of(&runs[i], kind, project_name);
        if own.hour == group.hour && same(own.value.as_str(), group.value.as_str()) {
            let ghost before = out@;
            out.push(i);
            assert(picked_runs(out@, runs@) =~= picked_runs(before, runs@).push(runs@[i as int]));
        }
        i += 1;
    }
    assert(runs@.take(i as int) =~= runs@);
    out
}

fn push_rollups(
    out: &mut Vec<Statement>,
    project_name: &str,
    kind: RollupKind,
    runs: &Vec<RollupRun>,
)
    requires
        rollups_fit(runs@, project_name@),
    ensures
        calls_of(final(out)@) == calls_of(old(out)@) + rollup_calls(project_name@, kind, runs@),
{
    let groups = distinct_rollups(runs, kind, project_name);
    let ghost wanted = rollup_calls(project_name@, kind, runs@);
    let ghost done = calls_of(out@);
    let mut i: usize = 0;
    assert(done + wanted.take(0) =~= done);
    assert(hour_groups(groups@).len() == groups@.len());
    while i < groups.len()
        invariant
            i <= groups.len(),
            rollups_fit(runs@, project_name@),
            wanted == rollup_calls_for(project_name@, kind, hour_groups(groups@), runs@),
            wanted.len() == groups@.len(),
            calls_of(out@) =~= done + wanted.take(i as int),
        decreases groups.len() - i,
    {
        assert(hour_groups(groups@)[i as int] == groups@[i as int]@);
        let members = members_of_rollup(runs, kind, project_name, &groups[i]);
        assert(rollup_fits(runs_of_group(runs@, kind, project_name@, groups@[i as int]@)));
        push_statement(out, rollup_statement(project_name, kind, &groups[i], &members, runs));
        i += 1;
        assert(wanted.take(i as int) =~= wanted.take(i - 1).push(wanted[i - 1]));
    }
    assert(wanted.take(i as int) =~= wanted);
}

/// The statements that add the rollups of runs, of all kinds.
pub fn rollup_statements(project_name: &str, runs: &Vec<RollupRun>) -> (r: Vec<Statement>)
    requires
        rollups_fit(runs@, project_name@),
    ensures
        calls_of(r@) == rollup_calls(project_name@, RollupKind::Project, runs@) + rollup_calls(
            project_name@,
            RollupKind::RunType,
            runs@,
        ) + rollup_calls(project_name@, RollupKind::Model, runs@) + rollup_calls(
            project_name@,
            RollupKind::Error,
            runs@,
        ),
{
    let mut out = no_statements();
    push_rollups(&mut out, project_name, RollupKind::Project, runs);
    assert(calls_of(out@) =~= rollup_calls(project_name@, RollupKind::Project, runs@));
    push_rollups(&mut out, project_name, RollupKind::RunType, runs);
    push_rollups(&mut out, project_name, RollupKind::Model, runs);
    push_rollups(&mut out, project_name, RollupKind::Error, runs);
    out
}

/// The hours of times, in order.
pub open spec fn hours_of(times: Seq<i64>) -> Seq<i64> {
    times.map_values(|time: i64| rollup_hour_of(time) as i64)
}

fn is_hour_less(a: &i64, b: &i64) -> (r: bool)
    ensures
        r == (*a < *b),
{
    *a < *b
}

/// The different hours of times, in order: those whose rollups change when runs that
/// started then do.
pub fn affected_hours(start_times: &Vec<i64>) -> (r: Vec<i64>)
    requires
        forall|i: int|
            0 <= i < start_times@.len() ==> rollup_hour_of(#[trigger] start_times@[i])
                >= i64::MIN,
    ensures
        r@ == ordered_set(hours_of(start_times@), integer_order()),
{
    let ghost all = hours_of(start_times@);
    let mut out: Vec<i64> = Vec::new();
    let mut i: usize = 0;
    assert(all.take(0) =~= Seq::<i64>::empty());
    while i < start_times.len()
        invariant
            i <= start_times.len(),
            forall|k: int|
                0 <= k < start_times@.len() ==> rollup_hour_of(#[trigger] start_times@[k])
                    >= i64::MIN,
            all == hours_of(start_times@),
            out@ == ordered_set(all.take(i as int), integer_order()),
        decreases start_times.len() - i,
    {
        assert(all.take(i + 1).drop_last() =~= all.take(i as int));
        assert(rollup_hour_of(start_times@[i as int]) >= i64::MIN);
        let hour = rollup_time_bucket(start_times[i]);
        assert(all.take(i + 1).last() == hour);
        insert_distinct(&mut out, hour, is_hour_less, Ghost(integer_order()));
        i += 1;
    }
    assert(all.take(i as int) =~= all);
    out
}

proof fn lemma_rollup_errors(runs: Seq<RollupRun>)
    ensures
        rollup_errors(runs) == runs.filter(|run: RollupRun| run.status@ == "error"@).len(),
    decreases runs.len(),
{
    reveal(Seq::filter);
    if runs.len() > 0 {
        lemma_rollup_errors(runs.drop_last());
    }
}

/// A rollup says of its runs how many there are and how many of them failed, their least and
/// greatest latency, and the percentiles of their latencies, each under its name.
pub proof fn law_rollup_of_runs(
    project_name: Seq<char>,
    kind: RollupKind,
    group: HourGroup,
    runs: Seq<RollupRun>,
)
    requires
        runs.len() > 0,
    ensures
        ({
            let params = rollup_call(project_name, kind, group, runs).params;
            let latencies = runs.map_values(|run: RollupRun| run.latency_nanos);
            let ordered = stable_sort(latencies, integer_order());
            &&& params[0] == Param::Text(project_name)
            &&& params[1] == Param::Integer(3_600_000_000_000)
            &&& params[2] == Param::Integer(group.hour)
            &&& params[3] == Param::Text(rollup_word(kind))
            &&& params[4] == Param::Text(group.value)
            &&& params[5] == Param::Integer(runs.len() as int)
            &&& params[6] == Param::Integer(
                runs.filter(|run: RollupRun| run.status@ == "error"@).len() as int,
            )
            &&& params[7]->OptionalInteger_0 matches Some(least) && latencies.contains(least)
                && forall|i: int|
                0 <= i < runs.len() ==> least <= (#[trigger] runs[i]).latency_nanos
            &&& params[8]->OptionalInteger_0 matches Some(most) && latencies.contains(most)
                && forall|i: int|
                0 <= i < runs.len() ==> (#[trigger] runs[i]).latency_nanos <= most
            &&& params[9] == Param::IntegerMean {
                sum: sum_of(ordered),
                count: runs.len() as int,
            }
            &&& ordered.to_multiset() == latencies.to_multiset()
            &&& is_percentile(params[10]->IntegerAsFloat_0, ordered, 50)
            &&& is_percentile(params[11]->IntegerAsFloat_0, ordered, 95)
            &&& is_percentile(params[12]->IntegerAsFloat_0, ordered, 99)
        }),
{
    let latencies = runs.map_values(|run: RollupRun| run.latency_nanos);
    let less = integer_order();
    let ordered = stable_sort(latencies, less);
    let params = rollup_call(project_name, kind, group, runs).params;
    assert(latencies =~= latencies_of_runs(runs));
    law_sort_keeps_elements(latencies, less);
    lemma_sort_members(latencies, less);
    assert(strict_order(less));
    law_sort_sorts(latencies, less);
    lemma_rollup_errors(runs);
    let n = ordered.len() as int;
    law_percentile_is_the_least_place(n, 50);
    law_percentile_is_the_least_place(n, 95);
    law_percentile_is_the_least_place(n, 99);
    assert(params[7] == Param::OptionalInteger(Some(ordered[0])));
    assert(params[8] == Param::OptionalInteger(Some(ordered[n - 1])));
    assert forall|i: int| 0 <= i < runs.len() implies ordered[0] <= (
    #[trigger] runs[i]).latency_nanos <= ordered[n - 1] by {
        assert(latencies[i] == runs[i].latency_nanos);
        assert(ordered.contains(latencies[i]));
        let k = choose|k: int| 0 <= k < ordered.len() && ordered[k] == latencies[i];
        if 0 < k {
            assert(!less(ordered[k], ordered[0]));
        }
        if k < n - 1 {
            assert(!less(ordered[n - 1], ordered[k]));
        }
    }
    assert(latencies.contains(ordered[0]) && latencies.contains(ordered[n - 1]));
}

/// One more run adds its tokens and its costs to those of its rollup, each to its own.
pub proof fn law_rollup_with_one_more_run(
    project_name: Seq<char>,
    kind: RollupKind,
    group: HourGroup,
    runs: Seq<RollupRun>,
    run: RollupRun,
)
    requires
        rollup_fits(runs.push(run)),
    ensures
        ({
            let before = rollup_call(project_name, kind, group, runs).params;
            let after = rollup_call(project_name, kind, group, runs.push(run)).params;
            let kept = |number: Option<Float>|
                match number {
                    Some(n) => if finite(n) {
                        Some(n)
                    } else {
                        None
                    },
                    None => None,
                };
            &&& wide(after[13]->OptionalInteger_0) == plus(
                before[13]->OptionalInteger_0,
                run.prompt_tokens,
            )
            &&& wide(after[15]->OptionalInteger_0) == plus(
                before[15]->OptionalInteger_0,
                run.completion_tokens,
            )
            &&& wide(after[17]->OptionalInteger_0) == plus(
                before[17]->OptionalInteger_0,
                run.total_tokens,
            )
            &&& after[19]->FloatSum_0 == with_one(before[19]->FloatSum_0, kept(run.prompt_cost))
            &&& after[21]->FloatSum_0 == with_one(
                before[21]->FloatSum_0,
                kept(run.completion_cost),
            )
            &&& after[23]->FloatSum_0 == with_one(before[23]->FloatSum_0, kept(run.total_cost))
            &&& after[25]->FloatMean_0 == with_one(
                before[25]->FloatMean_0,
                kept(run.evaluator_score),
            )
            &&& after[20]->FloatMean_0 == after[19]->FloatSum_0
            &&& after[22]->FloatMean_0 == after[21]->FloatSum_0
            &&& after[24]->FloatMean_0 == after[23]->FloatSum_0
        }),
{
    let more = runs.push(run);
    let prompt = |one: RollupRun| one.prompt_tokens;
    let completion = |one: RollupRun| one.completion_tokens;
    let total = |one: RollupRun| one.total_tokens;
    let prompt_cost = |one: RollupRun| one.prompt_cost;
    let completion_cost = |one: RollupRun| one.completion_cost;
    let total_cost = |one: RollupRun| one.total_cost;
    let score = |one: RollupRun| one.evaluator_score;
    assert(more.map_values(prompt) =~= runs.map_values(prompt).push(run.prompt_tokens));
    assert(more.map_values(completion) =~= runs.map_values(completion).push(
        run.completion_tokens,
    ));
    assert(more.map_values(total) =~= runs.map_values(total).push(run.total_tokens));
    lemma_total_of_more(runs.map_values(prompt), run.prompt_tokens);
    lemma_total_of_more(runs.map_values(completion), run.completion_tokens);
    lemma_total_of_more(runs.map_values(total), run.total_tokens);
    assert(more.map_values(prompt_cost).drop_last() =~= runs.map_values(prompt_cost));
    assert(more.map_values(completion_cost).drop_last() =~= runs.map_values(completion_cost));
    assert(more.map_values(total_cost).drop_last() =~= runs.map_values(total_cost));
    assert(more.map_values(score).drop_last() =~= runs.map_values(score));
    let before = rollup_call(project_name, kind, group, runs).params;
    let after = rollup_call(project_name, kind, group, more).params;
    assert(before[13] == Param::OptionalInteger(total_of(runs.map_values(prompt))));
    assert(after[13] == Param::OptionalInteger(total_of(more.map_values(prompt))));
    assert(before[15] == Param::OptionalInteger(total_of(runs.map_values(completion))));
    assert(after[15] == Param::OptionalInteger(total_of(more.map_values(completion))));
    assert(before[17] == Param::OptionalInteger(total_of(runs.map_values(total))));
    assert(after[17] == Param::OptionalInteger(total_of(more.map_values(total))));
    assert(before[19] == Param::FloatSum(finite_present(runs.map_values(prompt_cost))));
    assert(after[19] == Param::FloatSum(finite_present(more.map_values(prompt_cost))));
    assert(before[21] == Param::FloatSum(finite_present(runs.map_values(completion_cost))));
    assert(after[21] == Param::FloatSum(finite_present(more.map_values(completion_cost))));
    assert(before[23] == Param::FloatSum(finite_present(runs.map_values(total_cost))));
    assert(after[23] == Param::FloatSum(finite_present(more.map_values(total_cost))));
    assert(before[25] == Param::FloatMean(finite_present(runs.map_values(score))));
    assert(after[25] == Param::FloatMean(finite_present(more.map_values(score))));
}

/// A run is counted in the rollup of the hour in which it started and of what that kind of rollup
/// is for, and in no other of that kind.
pub proof fn law_run_is_in_its_rollup(
    runs: Seq<RollupRun>,
    kind: RollupKind,
    project_name: Seq<char>,
    group: HourGroup,
    run: RollupRun,
)
    ensures
        runs_of_group(runs, kind, project_name, group).contains(run) <==> {
            &&& runs.contains(run)
            &&& group.hour % 3_600_000_000_000 == 0
            &&& group.hour <= run.start_time_unix_nano < group.hour + 3_600_000_000_000
            &&& match kind {
                RollupKind::RunType => group.value == run.run_type@,
                RollupKind::Model => match run.model_name {
                    Some(name) => group.value == name@,
                    None => group.value == "unknown"@,
                },
                RollupKind::Error => if run.status@ == "error"@ {
                    group.value == "true"@
                } else {
                    group.value == "false"@
                },
                _ => group.value == project_name,
            }
        },
{
    let time = run.start_time_unix_nano as int;
    let size = 3_600_000_000_000int;
    lemma_filter_members(
        runs,
        |one: RollupRun| group_of_run(one, kind, project_name) == group,
        run,
    );
    law_bucket_holds_its_time(time, size);
    let own = rollup_hour_of(run.start_time_unix_nano);
    if group.hour % size == 0 && group.hour <= time < group.hour + size {
        assert(own == group.hour) by (nonlinear_arith)
            requires
                own % size == 0,
                group.hour % size == 0,
                own <= time < own + size,
                group.hour <= time < group.hour + size,
                size == 3_600_000_000_000int,
        ;
    }
}

} // verus!
