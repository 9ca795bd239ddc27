//! Aggregates that were made ahead, an hour at a time.

use crate::float::Float;
use crate::query::aggregates::AGGREGATE_ROLLUP_BUCKET_UNIX_NANOS;
use crate::query::aggregates::AggregateQuery;
use crate::query::aggregates::RunAggregateGroup;
use crate::query::aggregates::RunAggregateQuery;
use crate::query::aggregates::RunAggregateSource;
use crate::query::aggregates::grouping::Entry;
use crate::query::aggregates::grouping::Group;
use crate::query::aggregates::grouping::with_entry;
use crate::query::aggregates::has_group;
use crate::query::number_is;
use crate::query::number_is_sql;
use crate::query::scan::RunQueryDiagnostics;
use crate::query::text_in;
use crate::query::text_in_sql;
use crate::query::text_is;
use crate::query::text_is_sql;
use crate::sql::literal;
use crate::sql::literal_list;
use crate::sql::sql_string_list;
use crate::sql::sql_string_literal;
use crate::text::int_text;
use crate::text::integer_text;
use crate::text::join;
use crate::text::joined;
use crate::text::one_text;
use crate::text::push_some;
use crate::text::push_text;
use crate::text::same;
use crate::text::texts;
use crate::text::with;
use crate::time::Duration;
use vstd::prelude::*;
use vstd::string::StringExecFns;

verus! {

/// What the rollups are made by, besides project and hour.
#[derive(Debug, Clone, Copy, PartialEq, Eq, Structural)]
pub enum RollupKind {
    Project,
    RunType,
    Model,
    Error,
    Feedback,
}

/// What runs are grouped by in a rollup, besides project and hour.
pub open spec fn third_group(kind: RollupKind) -> Option<RunAggregateGroup> {
    match kind {
        RollupKind::Project => None,
        RollupKind::RunType => Some(RunAggregateGroup::RunType),
        RollupKind::Model => Some(RunAggregateGroup::Model),
        RollupKind::Error => Some(RunAggregateGroup::Error),
        RollupKind::Feedback => Some(RunAggregateGroup::FeedbackKey),
    }
}

/// Whether runs are grouped by project, by hour and by the third, if there is one,
/// and by nothing else.
pub open spec fn are_groups(groups: Seq<RunAggregateGroup>, third: Option<RunAggregateGroup>) -> bool {
    forall|group: RunAggregateGroup| #[trigger]
        groups.contains(group) <==> group == RunAggregateGroup::Project || group
            == RunAggregateGroup::TimeBucket || third == Some(group)
}

/// How the rollups of a kind are named.
pub open spec fn rollup_word(kind: RollupKind) -> Seq<char> {
    match kind {
        RollupKind::Project => "project"@,
        RollupKind::RunType => "run_type"@,
        RollupKind::Model => "model"@,
        RollupKind::Error => "error"@,
        RollupKind::Feedback => "feedback"@,
    }
}

/// Whether the rollups of this kind are grouped as the query groups.
pub open spec fn is_rollup_kind(query: AggregateQuery, kind: RollupKind) -> bool {
    are_groups(query.group_by, third_group(kind))
}

fn groups_by_exactly(groups: &Vec<RunAggregateGroup>, third: Option<RunAggregateGroup>) -> (r: bool)
    ensures
        r == are_groups(groups@, third),
{
    let mut i: usize = 0;
    while i < groups.len()
        invariant
            i <= groups.len(),
            forall|j: int|
                0 <= j < i ==> (#[trigger] groups@[j]) == RunAggregateGroup::Project || groups@[j]
                    == RunAggregateGroup::TimeBucket || third == Some(groups@[j]),
        decreases groups.len() - i,
    {
        let group = groups[i];
        let is_third = match third {
            Some(wanted) => wanted == group,
            None => false,
        };
        if group != RunAggregateGroup::Project && group != RunAggregateGroup::TimeBucket
            && !is_third {
            assert(groups@.contains(groups@[i as int]));
            return false;
        }
        i += 1;
    }
    let has_third = match third {
        Some(wanted) => has_group(groups, wanted),
        None => true,
    };
    has_group(groups, RunAggregateGroup::Project) && has_group(
        groups,
        RunAggregateGroup::TimeBucket,
    ) && has_third
}

/// The kind of rollups that are grouped as the query groups, if there is one.
pub fn rollup_kind(query: &RunAggregateQuery) -> (r: Option<RollupKind>)
    ensures
        match r {
            Some(kind) => is_rollup_kind(query@, kind),
            None => forall|kind: RollupKind| !#[trigger] is_rollup_kind(query@, kind),
        },
{
    if groups_by_exactly(&query.group_by, None) {
        return Some(RollupKind::Project);
    }
    if groups_by_exactly(&query.group_by, Some(RunAggregateGroup::RunType)) {
        return Some(RollupKind::RunType);
    }
    if groups_by_exactly(&query.group_by, Some(RunAggregateGroup::Model)) {
        return Some(RollupKind::Model);
    }
    if groups_by_exactly(&query.group_by, Some(RunAggregateGroup::Error)) {
        return Some(RollupKind::Error);
    }
    if groups_by_exactly(&query.group_by, Some(RunAggregateGroup::FeedbackKey)) {
        return Some(RollupKind::Feedback);
    }
    assert forall|kind: RollupKind| !#[trigger] is_rollup_kind(query@, kind) by {
        match kind {
            RollupKind::Project => {},
            RollupKind::RunType => {},
            RollupKind::Model => {},
            RollupKind::Error => {},
            RollupKind::Feedback => {},
        }
    }
    None
}

/// There is at most one kind of rollups that are grouped as a query groups.
pub proof fn law_rollup_kind_is_unique(query: AggregateQuery, a: RollupKind, b: RollupKind)
    requires
        is_rollup_kind(query, a),
        is_rollup_kind(query, b),
    ensures
        a == b,
{
    let run_type = RunAggregateGroup::RunType;
    let model = RunAggregateGroup::Model;
    let error = RunAggregateGroup::Error;
    let feedback = RunAggregateGroup::FeedbackKey;
    assert(query.group_by.contains(run_type) <==> third_group(a) == Some(run_type));
    assert(query.group_by.contains(model) <==> third_group(a) == Some(model));
    assert(query.group_by.contains(error) <==> third_group(a) == Some(error));
    assert(query.group_by.contains(feedback) <==> third_group(a) == Some(feedback));
}

/// Whether the rollups tell apart what the query asks of runs: a run type only
/// where they are made by run type, errors only where they are made by that.
pub open spec fn filters_are_exact(query: AggregateQuery, kind: RollupKind) -> bool {
    &&& query.run_type is Some ==> kind == RollupKind::RunType
    &&& query.error is Some ==> kind == RollupKind::Error
}

/// Whether the query asks for whole hours.
pub open spec fn asks_for_whole_buckets(query: AggregateQuery) -> bool {
    &&& query.start_time_min_unix_nano is Some ==> (query.start_time_min_unix_nano->0 as int)
        % AGGREGATE_ROLLUP_BUCKET_UNIX_NANOS as int == 0
    &&& query.start_time_max_unix_nano is Some ==> query.start_time_max_unix_nano->0 < i64::MAX && (
    query.start_time_max_unix_nano->0 + 1) % AGGREGATE_ROLLUP_BUCKET_UNIX_NANOS as int == 0
}

/// Whether rollups of this kind answer the query.
pub open spec fn answers(query: AggregateQuery, kind: RollupKind) -> bool {
    &&& is_rollup_kind(query, kind)
    &&& query.filter is None
    &&& query.trace_filter is None
    &&& query.tree_filter is None
    &&& !query.include_deleted
    &&& query.time_bucket_nanos == Some(AGGREGATE_ROLLUP_BUCKET_UNIX_NANOS)
    &&& filters_are_exact(query, kind)
    &&& asks_for_whole_buckets(query)
}

fn rollup_filters_are_exact(query: &RunAggregateQuery, kind: RollupKind) -> (r: bool)
    ensures
        r == filters_are_exact(query@, kind),
{
    match kind {
        RollupKind::RunType => query.error.is_none(),
        RollupKind::Error => query.run_type.is_none(),
        RollupKind::Project | RollupKind::Model | RollupKind::Feedback => query.run_type.is_none()
            && query.error.is_none(),
    }
}

fn is_bucket_bound(time: i64) -> (r: bool)
    ensures
        r == (time as int % AGGREGATE_ROLLUP_BUCKET_UNIX_NANOS as int == 0),
{
    match time.checked_rem_euclid(AGGREGATE_ROLLUP_BUCKET_UNIX_NANOS) {
        Some(rest) => rest == 0,
        None => false,
    }
}

fn time_filters_cover_whole_rollup_buckets(query: &RunAggregateQuery) -> (r: bool)
    ensures
        r == asks_for_whole_buckets(query@),
{
    let starts = match query.start_time_min_unix_nano {
        Some(min) => is_bucket_bound(min),
        None => true,
    };
    let ends = match query.start_time_max_unix_nano {
        Some(max) => match max.checked_add(1) {
            Some(end) => is_bucket_bound(end),
            None => false,
        },
        None => true,
    };
    starts && ends
}

/// Whether there are rollups that answer the query.
pub fn rollup_eligible(query: &RunAggregateQuery) -> (r: bool)
    ensures
        r == exists|kind: RollupKind| #[trigger] answers(query@, kind),
{
    match rollup_kind(query) {
        Some(kind) => {
            let hourly = match query.time_bucket_nanos {
                Some(length) => length == AGGREGATE_ROLLUP_BUCKET_UNIX_NANOS,
                None => false,
            };
            let eligible = query.filter.is_none() && query.trace_filter.is_none()
                && query.tree_filter.is_none() && !query.include_deleted && hourly
                && rollup_filters_are_exact(query, kind) && time_filters_cover_whole_rollup_buckets(
                query,
            );
            proof {
                if eligible {
                    assert(answers(query@, kind));
                }
                assert forall|other: RollupKind| #[trigger] answers(query@, other) implies other
                    == kind by {
                    law_rollup_kind_is_unique(query@, other, kind);
                }
            }
            eligible
        },
        None => false,
    }
}

/// An hour lies wholly within the times of a query that asks for whole hours, or
/// wholly outside of them: the rollup of an hour never holds runs that the query
/// leaves out beside runs that it asks for.
pub proof fn law_whole_buckets_are_not_cut(query: AggregateQuery, bucket: int, time: int)
    requires
        asks_for_whole_buckets(query),
        bucket % AGGREGATE_ROLLUP_BUCKET_UNIX_NANOS as int == 0,
        bucket <= time < bucket + AGGREGATE_ROLLUP_BUCKET_UNIX_NANOS,
    ensures
        query.start_time_min_unix_nano is Some ==> (query.start_time_min_unix_nano->0 <= bucket
            <==> query.start_time_min_unix_nano->0 <= time),
        query.start_time_max_unix_nano is Some ==> (bucket <= query.start_time_max_unix_nano->0
            <==> time <= query.start_time_max_unix_nano->0),
{
    let size = AGGREGATE_ROLLUP_BUCKET_UNIX_NANOS as int;
    vstd::arithmetic::div_mod::lemma_fundamental_div_mod(bucket, size);
    if query.start_time_min_unix_nano is Some {
        let min = query.start_time_min_unix_nano->0 as int;
        vstd::arithmetic::div_mod::lemma_fundamental_div_mod(min, size);
        if min > bucket {
            lemma_next_multiple(bucket / size, min / size, size);
        }
    }
    if query.start_time_max_unix_nano is Some {
        let end = query.start_time_max_unix_nano->0 + 1;
        vstd::arithmetic::div_mod::lemma_fundamental_div_mod(end, size);
        if end > bucket {
            lemma_next_multiple(bucket / size, end / size, size);
        }
    }
}

proof fn lemma_next_multiple(a: int, b: int, size: int)
    requires
        size > 0,
        size * a < size * b,
    ensures
        size * a + size <= size * b,
{
    assert(a < b) by (nonlinear_arith)
        requires
            size > 0,
            size * a < size * b,
    ;
    assert(size * (a + 1) <= size * b) by (nonlinear_arith)
        requires
            size > 0,
            a + 1 <= b,
    ;
    assert(size * (a + 1) == size * a + size) by (nonlinear_arith);
}

pub const FEEDBACK_ROLLUP_COLUMNS_SQL: &'static str = "SELECT project_name, time_bucket_start_unix_nano, feedback_key,
                feedback_count, score_count, score_min, score_max, score_avg,
                score_p50, score_p95, score_p99, score_distribution_json
            FROM feedback_metric_rollups
            WHERE ";

pub const RUN_ROLLUP_COLUMNS_SQL: &'static str = "SELECT project_name, time_bucket_start_unix_nano, rollup_kind, group_value,
            run_count, error_count, latency_min_nanos, latency_max_nanos,
            latency_avg_nanos, latency_p50_nanos, latency_p95_nanos, latency_p99_nanos,
            prompt_tokens_sum, prompt_tokens_avg, completion_tokens_sum,
            completion_tokens_avg, total_tokens_sum, total_tokens_avg,
            prompt_cost_sum, prompt_cost_avg, completion_cost_sum, completion_cost_avg,
            total_cost_sum, total_cost_avg, evaluator_score_avg
        FROM run_metric_rollups
        WHERE ";

/// The predicates over rollups of any kind that a query comes to.
pub open spec fn rollup_predicates(query: AggregateQuery) -> Seq<Seq<char>> {
    let p0 = seq!["project_name IN ("@ + literal_list(query.project_names) + ")"@].push(
        "bucket_size_unix_nanos = "@ + int_text(AGGREGATE_ROLLUP_BUCKET_UNIX_NANOS as int),
    );
    let p1 = with(
        p0,
        number_is("time_bucket_start_unix_nano"@, " >= "@, query.start_time_min_unix_nano),
    );
    with(
        p1,
        number_is("time_bucket_start_unix_nano"@, " <= "@, query.start_time_max_unix_nano),
    )
}

/// The rollups of a kind that answer a query.
pub open spec fn rollups_sql(query: AggregateQuery, kind: RollupKind) -> Seq<char> {
    let p0 = rollup_predicates(query);
    if kind == RollupKind::Feedback {
        FEEDBACK_ROLLUP_COLUMNS_SQL@ + join(
            with(p0, text_in("feedback_key"@, query.feedback_keys)),
            " AND "@,
        )
            + "\n            ORDER BY project_name, time_bucket_start_unix_nano, feedback_key"@
    } else {
        let p1 = p0.push("rollup_kind = "@ + literal(rollup_word(kind)));
        let p2 = if kind == RollupKind::RunType {
            with(p1, text_is("group_value"@, query.run_type))
        } else {
            p1
        };
        let p3 = if kind == RollupKind::Error && query.error is Some {
            p2.push(
                if query.error->0 {
                    "group_value = 'true'"@
                } else {
                    "group_value = 'false'"@
                },
            )
        } else {
            p2
        };
        RUN_ROLLUP_COLUMNS_SQL@ + join(p3, " AND "@)
            + "\n        ORDER BY project_name, time_bucket_start_unix_nano, rollup_kind, group_value"@
    }
}

/// Where the answer comes from.
pub open spec fn rollup_source(kind: RollupKind) -> RunAggregateSource {
    if kind == RollupKind::Feedback {
        RunAggregateSource::FeedbackRollup
    } else {
        RunAggregateSource::Rollup
    }
}

impl RollupKind {
    /// How the rollups of the kind are named.
    pub fn as_str(self) -> (r: &'static str)
        ensures
            r@ == rollup_word(self),
    {
        match self {
            RollupKind::Project => "project",
            RollupKind::RunType => "run_type",
            RollupKind::Model => "model",
            RollupKind::Error => "error",
            RollupKind::Feedback => "feedback",
        }
    }
}

fn rollup_base_predicates(query: &RunAggregateQuery) -> (r: Vec<String>)
    ensures
        texts(r@) == rollup_predicates(query@),
{
    let mut first = "project_name IN (".to_owned();
    first.append(sql_string_list(&query.project_names).as_str());
    first.append(")");
    let mut second = "bucket_size_unix_nanos = ".to_owned();
    second.append(integer_text(AGGREGATE_ROLLUP_BUCKET_UNIX_NANOS).as_str());
    let mut predicates = one_text(first);
    push_text(&mut predicates, second);
    push_some(
        &mut predicates,
        number_is_sql("time_bucket_start_unix_nano", " >= ", query.start_time_min_unix_nano),
    );
    push_some(
        &mut predicates,
        number_is_sql("time_bucket_start_unix_nano", " <= ", query.start_time_max_unix_nano),
    );
    predicates
}

/// The rollups that are grouped as the query groups, and where they come from.
pub fn rollup_sql(query: &RunAggregateQuery) -> (r: Result<(String, RunAggregateSource), String>)
    ensures
        match r {
            Ok((sql, source)) => exists|kind: RollupKind|
                #![trigger is_rollup_kind(query@, kind)]
                is_rollup_kind(query@, kind) && sql@ == rollups_sql(query@, kind) && source
                    == rollup_source(kind),
            Err(message) => (forall|kind: RollupKind| !#[trigger] is_rollup_kind(query@, kind))
                && message@ == "unsupported rollup shape"@,
        },
{
    let kind = match rollup_kind(query) {
        Some(kind) => kind,
        None => {
            return Err("unsupported rollup shape".to_owned());
        },
    };
    let mut predicates = rollup_base_predicates(query);
    if kind == RollupKind::Feedback {
        push_some(&mut predicates, text_in_sql("feedback_key", &query.feedback_keys));
        let mut sql = FEEDBACK_ROLLUP_COLUMNS_SQL.to_owned();
        sql.append(joined(&predicates, " AND ").as_str());
        sql.append(
            "\n            ORDER BY project_name, time_bucket_start_unix_nano, feedback_key",
        );
        return Ok((sql, RunAggregateSource::FeedbackRollup));
    }
    let mut own = "rollup_kind = ".to_owned();
    own.append(sql_string_literal(kind.as_str()).as_str());
    push_text(&mut predicates, own);
    if kind == RollupKind::RunType {
        push_some(&mut predicates, text_is_sql("group_value", &query.run_type));
    }
    if kind == RollupKind::Error {
        if let Some(error) = query.error {
            if error {
                push_text(&mut predicates, "group_value = 'true'".to_owned());
            } else {
                push_text(&mut predicates, "group_value = 'false'".to_owned());
            }
        }
    }
    let mut sql = RUN_ROLLUP_COLUMNS_SQL.to_owned();
    sql.append(joined(&predicates, " AND ").as_str());
    sql.append(
        "\n        ORDER BY project_name, time_bucket_start_unix_nano, rollup_kind, group_value",
    );
    Ok((sql, RunAggregateSource::Rollup))
}

/// A sum as a rollup gives it: as an integer, as a number, or as an average that
/// stands for each of so many.
#[derive(Debug, Clone, Copy, PartialEq, Eq, Structural)]
pub enum RollupSum {
    Integer(i64),
    Number(Float),
    AverageTimesCount(Float),
}

/// What a rollup says of numbers.
#[derive(Debug, Clone, Copy, PartialEq, Eq, Structural)]
pub struct RollupStats {
    pub count: u64,
    pub sum: Option<RollupSum>,
    pub avg: Option<Float>,
    pub min: Option<i64>,
    pub max: Option<i64>,
    pub p50: Option<Float>,
    pub p95: Option<Float>,
    pub p99: Option<Float>,
}

/// A rollup of runs.
#[derive(Debug, PartialEq, Eq)]
pub struct RunRollup {
    pub project_name: String,
    pub time_bucket_start_unix_nano: i64,
    pub rollup_kind: String,
    pub group_value: String,
    pub run_count: i64,
    pub error_count: i64,
    pub latency_min_nanos: Option<i64>,
    pub latency_max_nanos: Option<i64>,
    pub latency_avg_nanos: Option<Float>,
    pub latency_p50_nanos: Option<Float>,
    pub latency_p95_nanos: Option<Float>,
    pub latency_p99_nanos: Option<Float>,
    pub prompt_tokens_sum: Option<i64>,
    pub prompt_tokens_avg: Option<Float>,
    pub completion_tokens_sum: Option<i64>,
    pub completion_tokens_avg: Option<Float>,
    pub total_tokens_sum: Option<i64>,
    pub total_tokens_avg: Option<Float>,
    pub prompt_cost_sum: Option<Float>,
    pub prompt_cost_avg: Option<Float>,
    pub completion_cost_sum: Option<Float>,
    pub completion_cost_avg: Option<Float>,
    pub total_cost_sum: Option<Float>,
    pub total_cost_avg: Option<Float>,
    pub evaluator_score_avg: Option<Float>,
}

/// What a rollup of runs says of its group.
#[derive(Debug, PartialEq, Eq)]
pub struct RunRollupRow {
    pub group: Group,
    pub count: u64,
    pub error_count: u64,
    pub latency_nanos: RollupStats,
    pub prompt_tokens: Option<RollupStats>,
    pub completion_tokens: Option<RollupStats>,
    pub total_tokens: Option<RollupStats>,
    pub prompt_cost: Option<RollupStats>,
    pub completion_cost: Option<RollupStats>,
    pub total_cost: Option<RollupStats>,
    pub evaluator_score: Option<RollupStats>,
}

/// A count that is not negative.
pub open spec fn at_least_zero(n: i64) -> u64 {
    if n < 0 {
        0
    } else {
        n as u64
    }
}

fn count_of(n: i64) -> (r: u64)
    ensures
        r == at_least_zero(n),
{
    if n < 0 {
        0
    } else {
        n as u64
    }
}

/// The project and the hour of a rollup.
pub open spec fn rollup_hour(project_name: Seq<char>, bucket: i64) -> Seq<Entry> {
    with_entry(
        with_entry(Seq::empty(), "project_name"@, project_name),
        "time_bucket_start_unix_nano"@,
        int_text(bucket as int),
    )
}

/// The group of a rollup of runs.
pub open spec fn rollup_group(rollup: RunRollup) -> Seq<Entry> {
    let hour = rollup_hour(rollup.project_name@, rollup.time_bucket_start_unix_nano);
    if rollup.rollup_kind@ == "run_type"@ {
        with_entry(hour, "run_type"@, rollup.group_value@)
    } else if rollup.rollup_kind@ == "model"@ {
        with_entry(hour, "model_name"@, rollup.group_value@)
    } else if rollup.rollup_kind@ == "error"@ {
        with_entry(hour, "error"@, rollup.group_value@)
    } else {
        hour
    }
}

fn hour_group(project_name: &str, bucket: i64) -> (r: Group)
    ensures
        r@ == rollup_hour(project_name@, bucket),
{
    let none = Group { entries: Vec::new() };
    assert(none@ =~= Seq::<Entry>::empty());
    none.put("project_name", project_name).put(
        "time_bucket_start_unix_nano",
        integer_text(bucket).as_str(),
    )
}

/// What a sum and an average say, if there is one of them.
pub open spec fn rollup_numbers(sum: Option<RollupSum>, avg: Option<Float>, count: u64) -> Option<
    RollupStats,
> {
    if sum is None && avg is None {
        None
    } else {
        Some(
            RollupStats {
                count,
                sum,
                avg,
                min: None,
                max: None,
                p50: None,
                p95: None,
                p99: None,
            },
        )
    }
}

pub open spec fn integer_sum(sum: Option<i64>) -> Option<RollupSum> {
    match sum {
        Some(n) => Some(RollupSum::Integer(n)),
        None => None,
    }
}

pub open spec fn number_sum(sum: Option<Float>) -> Option<RollupSum> {
    match sum {
        Some(number) => Some(RollupSum::Number(number)),
        None => None,
    }
}

pub open spec fn average_sum(avg: Option<Float>) -> Option<RollupSum> {
    match avg {
        Some(number) => Some(RollupSum::AverageTimesCount(number)),
        None => None,
    }
}

fn rollup_stats(sum: Option<RollupSum>, avg: Option<Float>, count: u64) -> (r: Option<RollupStats>)
    ensures
        r == rollup_numbers(sum, avg, count),
{
    if sum.is_none() && avg.is_none() {
        return None;
    }
    Some(
        RollupStats { count, sum, avg, min: None, max: None, p50: None, p95: None, p99: None },
    )
}

fn rollup_numeric(sum: Option<i64>, avg: Option<Float>, count: u64) -> (r: Option<RollupStats>)
    ensures
        r == rollup_numbers(integer_sum(sum), avg, count),
{
    let total = match sum {
        Some(n) => Some(RollupSum::Integer(n)),
        None => None,
    };
    rollup_stats(total, avg, count)
}

fn rollup_numeric_float(sum: Option<Float>, avg: Option<Float>, count: u64) -> (r: Option<
    RollupStats,
>)
    ensures
        r == rollup_numbers(number_sum(sum), avg, count),
{
    let total = match sum {
        Some(number) => Some(RollupSum::Number(number)),
        None => None,
    };
    rollup_stats(total, avg, count)
}

/// What a rollup of runs says of its group.
pub fn run_rollup_row(rollup: &RunRollup) -> (r: RunRollupRow)
    ensures
        r.group@ == rollup_group(*rollup),
        r.count == at_least_zero(rollup.run_count),
        r.error_count == at_least_zero(rollup.error_count),
        r.latency_nanos == (RollupStats {
            count: r.count,
            sum: average_sum(rollup.latency_avg_nanos),
            avg: rollup.latency_avg_nanos,
            min: rollup.latency_min_nanos,
            max: rollup.latency_max_nanos,
            p50: rollup.latency_p50_nanos,
            p95: rollup.latency_p95_nanos,
            p99: rollup.latency_p99_nanos,
        }),
        r.prompt_tokens == rollup_numbers(
            integer_sum(rollup.prompt_tokens_sum),
            rollup.prompt_tokens_avg,
            r.count,
        ),
        r.completion_tokens == rollup_numbers(
            integer_sum(rollup.completion_tokens_sum),
            rollup.completion_tokens_avg,
            r.count,
        ),
        r.total_tokens == rollup_numbers(
            integer_sum(rollup.total_tokens_sum),
            rollup.total_tokens_avg,
            r.count,
        ),
        r.prompt_cost == rollup_numbers(
            number_sum(rollup.prompt_cost_sum),
            rollup.prompt_cost_avg,
            r.count,
        ),
        r.completion_cost == rollup_numbers(
            number_sum(rollup.completion_cost_sum),
            rollup.completion_cost_avg,
            r.count,
        ),
        r.total_cost == rollup_numbers(
            number_sum(rollup.total_cost_sum),
            rollup.total_cost_avg,
            r.count,
        ),
        r.evaluator_score == rollup_numbers(
            average_sum(rollup.evaluator_score_avg),
            rollup.evaluator_score_avg,
            r.count,
        ),
{
    let hour = hour_group(rollup.project_name.as_str(), rollup.time_bucket_start_unix_nano);
    let group = if same(rollup.rollup_kind.as_str(), "run_type") {
        hour.put("run_type", rollup.group_value.as_str())
    } else if same(rollup.rollup_kind.as_str(), "model") {
        hour.put("model_name", rollup.group_value.as_str())
    } else if same(rollup.rollup_kind.as_str(), "error") {
        hour.put("error", rollup.group_value.as_str())
    } else {
        hour
    };
    let count = count_of(rollup.run_count);
    let latency_sum = match rollup.latency_avg_nanos {
        Some(avg) => Some(RollupSum::AverageTimesCount(avg)),
        None => None,
    };
    let score_sum = match rollup.evaluator_score_avg {
        Some(avg) => Some(RollupSum::AverageTimesCount(avg)),
        None => None,
    };
    RunRollupRow {
        group,
        count,
        error_count: count_of(rollup.error_count),
        latency_nanos: RollupStats {
            count,
            sum: latency_sum,
            avg: rollup.latency_avg_nanos,
            min: rollup.latency_min_nanos,
            max: rollup.latency_max_nanos,
            p50: rollup.latency_p50_nanos,
            p95: rollup.latency_p95_nanos,
            p99: rollup.latency_p99_nanos,
        },
        prompt_tokens: rollup_numeric(rollup.prompt_tokens_sum, rollup.prompt_tokens_avg, count),
        completion_tokens: rollup_numeric(
            rollup.completion_tokens_sum,
            rollup.completion_tokens_avg,
            count,
        ),
        total_tokens: rollup_numeric(rollup.total_tokens_sum, rollup.total_tokens_avg, count),
        prompt_cost: rollup_numeric_float(rollup.prompt_cost_sum, rollup.prompt_cost_avg, count),
        completion_cost: rollup_numeric_float(
            rollup.completion_cost_sum,
            rollup.completion_cost_avg,
            count,
        ),
        total_cost: rollup_numeric_float(rollup.total_cost_sum, rollup.total_cost_avg, count),
        evaluator_score: rollup_stats(score_sum, rollup.evaluator_score_avg, count),
    }
}

/// The counts that a JSON object from texts to unsigned numbers holds, in the
/// order of its keys, the last of a key that is there twice; none for any other
/// text.
pub uninterp spec fn json_counts(text: Seq<char>) -> Option<Seq<(Seq<char>, u64)>>;

pub open spec fn counts_of(counts: Seq<(String, u64)>) -> Seq<(Seq<char>, u64)> {
    counts.map_values(|one: (String, u64)| (one.0@, one.1))
}

pub open spec fn opt_counts(counts: Option<Vec<(String, u64)>>) -> Option<Seq<(Seq<char>, u64)>> {
    match counts {
        Some(all) => Some(counts_of(all@)),
        None => None,
    }
}

/// `serde_json::from_str` into a `BTreeMap<String, u64>`, whose entries are handed
/// out in the order of their keys: the result is a function of the text alone.
#[verifier::external_body]
fn read_counts(text: &str) -> (r: Option<Vec<(String, u64)>>)
    ensures
        opt_counts(r) == json_counts(text@),
{
    match serde_json::from_str::<std::collections::BTreeMap<String, u64>>(text) {
        Ok(counts) => Some(counts.into_iter().collect()),
        Err(_) => None,
    }
}

/// A rollup of feedback.
#[derive(Debug, PartialEq, Eq)]
pub struct FeedbackRollup {
    pub project_name: String,
    pub time_bucket_start_unix_nano: i64,
    pub feedback_key: String,
    pub feedback_count: i64,
    pub score_count: i64,
    pub score_min: Option<Float>,
    pub score_max: Option<Float>,
    pub score_avg: Option<Float>,
    pub score_p50: Option<Float>,
    pub score_p95: Option<Float>,
    pub score_p99: Option<Float>,
    pub score_distribution_json: String,
}

/// What a rollup of feedback says of its group.
#[derive(Debug, PartialEq, Eq)]
pub struct FeedbackRollupRow {
    pub group: Group,
    pub count: u64,
    pub feedback_key: String,
    pub score_count: u64,
    pub min: Option<Float>,
    pub max: Option<Float>,
    pub avg: Option<Float>,
    pub p50: Option<Float>,
    pub p95: Option<Float>,
    pub p99: Option<Float>,
    pub distribution: Vec<(String, u64)>,
}

/// What a rollup of feedback says of its group, when its distribution comes to
/// `distribution`.
pub fn feedback_row(rollup: &FeedbackRollup, distribution: Option<Vec<(String, u64)>>) -> (r:
    Result<FeedbackRollupRow, String>)
    ensures
        match r {
            Ok(row) => {
                &&& distribution is Some
                &&& row.group@ == with_entry(
                    rollup_hour(rollup.project_name@, rollup.time_bucket_start_unix_nano),
                    "feedback_key"@,
                    rollup.feedback_key@,
                )
                &&& row.count == at_least_zero(rollup.feedback_count)
                &&& row.feedback_key@ == rollup.feedback_key@
                &&& row.score_count == at_least_zero(rollup.score_count)
                &&& row.min == rollup.score_min
                &&& row.max == rollup.score_max
                &&& row.avg == rollup.score_avg
                &&& row.p50 == rollup.score_p50
                &&& row.p95 == rollup.score_p95
                &&& row.p99 == rollup.score_p99
                &&& Some(row.distribution) == distribution
            },
            Err(message) => distribution is None && message@
                == "parse feedback score distribution: "@ + rollup.score_distribution_json@,
        },
{
    match distribution {
        Some(distribution) => {
            let hour = hour_group(
                rollup.project_name.as_str(),
                rollup.time_bucket_start_unix_nano,
            );
            Ok(
                FeedbackRollupRow {
                    group: hour.put("feedback_key", rollup.feedback_key.as_str()),
                    count: count_of(rollup.feedback_count),
                    feedback_key: rollup.feedback_key.clone(),
                    score_count: count_of(rollup.score_count),
                    min: rollup.score_min,
                    max: rollup.score_max,
                    avg: rollup.score_avg,
                    p50: rollup.score_p50,
                    p95: rollup.score_p95,
                    p99: rollup.score_p99,
                    distribution,
                },
            )
        },
        None => {
            let mut message = "parse feedback score distribution: ".to_owned();
            message.append(rollup.score_distribution_json.as_str());
            Err(message)
        },
    }
}

/// What a rollup of feedback says of its group.
pub fn feedback_rollup_row(rollup: &FeedbackRollup) -> (r: Result<FeedbackRollupRow, String>)
    ensures
        match r {
            Ok(row) => {
                &&& json_counts(rollup.score_distribution_json@) == Some(
                    counts_of(row.distribution@),
                )
                &&& row.group@ == with_entry(
                    rollup_hour(rollup.project_name@, rollup.time_bucket_start_unix_nano),
                    "feedback_key"@,
                    rollup.feedback_key@,
                )
                &&& row.count == at_least_zero(rollup.feedback_count)
                &&& row.feedback_key@ == rollup.feedback_key@
                &&& row.score_count == at_least_zero(rollup.score_count)
                &&& row.min == rollup.score_min
                &&& row.max == rollup.score_max
                &&& row.avg == rollup.score_avg
                &&& row.p50 == rollup.score_p50
                &&& row.p95 == rollup.score_p95
                &&& row.p99 == rollup.score_p99
            },
            Err(message) => json_counts(rollup.score_distribution_json@) is None && message@
                == "parse feedback score distribution: "@ + rollup.score_distribution_json@,
        },
{
    feedback_row(rollup, read_counts(rollup.score_distribution_json.as_str()))
}

/// What an aggregate cost that rollups answered.
pub fn rollup_diagnostics(rows_returned: usize, postgres_query_time: Duration) -> (r:
    RunQueryDiagnostics)
    ensures
        r == (RunQueryDiagnostics {
            rows_returned,
            postgres_query_time,
            ..RunQueryDiagnostics::nothing()
        }),
{
    let mut diagnostics = RunQueryDiagnostics::default();
    diagnostics.rows_returned = rows_returned;
    diagnostics.postgres_query_time = postgres_query_time;
    diagnostics
}

} // verus!
