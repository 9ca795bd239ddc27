//! Aggregates over runs: what is asked.

pub mod distributed;
pub mod grouping;
pub mod groups;
pub mod order;
pub mod rollup_rows;
pub mod rollups;
pub mod scan;
pub mod stats;

use crate::query::Query;
use crate::query::RunQuery;
use crate::query::RunQueryLimits;
use crate::query::SegmentSource;
use crate::query::copy_filter;
use crate::query::copy_tree_filter;
use crate::query::filter::Filter;
use crate::query::filter::FilterExpr;
use crate::query::filter::phase6::opt_filter;
use crate::query::opt_tree_filter;
use crate::query::plain_query;
use crate::query::tree_filter::TreeFilter;
use crate::query::tree_filter::TreeFilterExpr;
use crate::text::copy_option;
use crate::text::copy_texts;
use crate::text::int_text;
use crate::text::integer_text;
use crate::text::no_texts;
use crate::text::one_text;
use crate::text::opt_text;
use crate::text::texts;
use vstd::prelude::*;
use vstd::string::StringExecFns;

verus! {

/// How long the buckets of the rollups are: an hour.
pub const AGGREGATE_ROLLUP_BUCKET_UNIX_NANOS: i64 = 3_600_000_000_000;

/// What runs are grouped by.
#[derive(Debug, Clone, Copy, PartialEq, Eq, Structural)]
pub enum RunAggregateGroup {
    Project,
    TimeBucket,
    RunType,
    Tag,
    Model,
    Provider,
    Error,
    FeedbackKey,
}

/// Where an aggregate comes from.
#[derive(Debug, Clone, Copy, PartialEq, Eq, Structural)]
pub enum RunAggregateSource {
    Rollup,
    Vortex,
    FeedbackRollup,
}

/// Which aggregate is asked for.
#[derive(Debug, PartialEq, Eq)]
pub struct RunAggregateQuery {
    pub project_names: Vec<String>,
    pub start_time_min_unix_nano: Option<i64>,
    pub start_time_max_unix_nano: Option<i64>,
    pub run_type: Option<String>,
    pub error: Option<bool>,
    pub filter: Option<FilterExpr>,
    pub trace_filter: Option<FilterExpr>,
    pub tree_filter: Option<TreeFilterExpr>,
    pub group_by: Vec<RunAggregateGroup>,
    pub time_bucket_nanos: Option<i64>,
    pub feedback_keys: Vec<String>,
    pub include_deleted: bool,
    pub limits: RunQueryLimits,
}

/// What a [`RunAggregateQuery`] holds.
pub struct AggregateQuery {
    pub project_names: Seq<Seq<char>>,
    pub start_time_min_unix_nano: Option<i64>,
    pub start_time_max_unix_nano: Option<i64>,
    pub run_type: Option<Seq<char>>,
    pub error: Option<bool>,
    pub filter: Option<Filter>,
    pub trace_filter: Option<Filter>,
    pub tree_filter: Option<TreeFilter>,
    pub group_by: Seq<RunAggregateGroup>,
    pub time_bucket_nanos: Option<i64>,
    pub feedback_keys: Seq<Seq<char>>,
    pub include_deleted: bool,
    pub limits: RunQueryLimits,
}

impl View for RunAggregateQuery {
    type V = AggregateQuery;

    open spec fn view(&self) -> AggregateQuery {
        AggregateQuery {
            project_names: texts(self.project_names@),
            start_time_min_unix_nano: self.start_time_min_unix_nano,
            start_time_max_unix_nano: self.start_time_max_unix_nano,
            run_type: opt_text(self.run_type),
            error: self.error,
            filter: opt_filter(self.filter),
            trace_filter: opt_filter(self.trace_filter),
            tree_filter: opt_tree_filter(self.tree_filter),
            group_by: self.group_by@,
            time_bucket_nanos: self.time_bucket_nanos,
            feedback_keys: texts(self.feedback_keys@),
            include_deleted: self.include_deleted,
            limits: self.limits,
        }
    }
}

/// The query over runs that an aggregate is made from.
pub open spec fn runs_of(query: AggregateQuery) -> Query {
    Query {
        run_type: query.run_type,
        error: query.error,
        start_time_min_unix_nano: query.start_time_min_unix_nano,
        start_time_max_unix_nano: query.start_time_max_unix_nano,
        include_deleted: query.include_deleted,
        filter: query.filter,
        trace_filter: query.trace_filter,
        tree_filter: query.tree_filter,
        include_payload: false,
        limits: query.limits,
        ..plain_query(query.project_names)
    }
}

impl RunAggregateQuery {
    /// The aggregate over all runs of a project, in one group.
    pub fn new(project_name: &str) -> (r: Self)
        ensures
            r@ == (AggregateQuery {
                project_names: seq![project_name@],
                start_time_min_unix_nano: None,
                start_time_max_unix_nano: None,
                run_type: None,
                error: None,
                filter: None,
                trace_filter: None,
                tree_filter: None,
                group_by: Seq::empty(),
                time_bucket_nanos: None,
                feedback_keys: Seq::empty(),
                include_deleted: false,
                limits: RunQueryLimits::none(),
            }),
    {
        let query = RunAggregateQuery {
            project_names: one_text(project_name.to_owned()),
            start_time_min_unix_nano: None,
            start_time_max_unix_nano: None,
            run_type: None,
            error: None,
            filter: None,
            trace_filter: None,
            tree_filter: None,
            group_by: Vec::new(),
            time_bucket_nanos: None,
            feedback_keys: no_texts(),
            include_deleted: false,
            limits: RunQueryLimits::default(),
        };
        assert(query@.group_by =~= Seq::<RunAggregateGroup>::empty());
        query
    }

    /// The query over runs that the aggregate is made from.
    pub fn to_run_query(&self) -> (r: RunQuery)
        ensures
            r@ == runs_of(self@),
    {
        RunQuery {
            project_names: copy_texts(&self.project_names),
            trace_id: None,
            parent_run_id: None,
            parent_span_id: None,
            run_type: copy_option(&self.run_type),
            is_root: None,
            error: self.error,
            start_time_min_unix_nano: self.start_time_min_unix_nano,
            start_time_max_unix_nano: self.start_time_max_unix_nano,
            limit: None,
            offset: None,
            retention_cutoff_unix_nano: None,
            include_deleted: self.include_deleted,
            filter: copy_filter(&self.filter),
            trace_filter: copy_filter(&self.trace_filter),
            tree_filter: copy_tree_filter(&self.tree_filter),
            include_payload: false,
            newest_first: false,
            limits: self.limits,
        }
    }

    /// Whether runs are grouped by this, among others.
    pub fn groups_by(&self, group: RunAggregateGroup) -> (r: bool)
        ensures
            r == self@.group_by.contains(group),
    {
        has_group(&self.group_by, group)
    }
}

/// Whether the group is one of those.
pub fn has_group(groups: &Vec<RunAggregateGroup>, group: RunAggregateGroup) -> (r: bool)
    ensures
        r == groups@.contains(group),
{
    let mut i: usize = 0;
    while i < groups.len()
        invariant
            i <= groups.len(),
            forall|j: int| 0 <= j < i ==> #[trigger] groups@[j] != group,
        decreases groups.len() - i,
    {
        if groups[i] == group {
            return true;
        }
        i += 1;
    }
    false
}

/// The aggregate without a limit on its time.
pub fn aggregate_query_without_wall_time_limit(query: RunAggregateQuery) -> (r: RunAggregateQuery)
    ensures
        r@ == (AggregateQuery {
            limits: RunQueryLimits { max_wall_time: None, ..query@.limits },
            ..query@
        }),
{
    let mut query = query;
    query.limits.max_wall_time = None;
    query
}

/// Why an aggregate is refused.
pub open spec fn aggregate_fault(query: AggregateQuery) -> Option<Seq<char>> {
    if query.project_names.len() == 0 {
        Some("aggregate query rejected: project_names is required"@)
    } else if query.group_by.contains(RunAggregateGroup::TimeBucket) && (
    query.time_bucket_nanos is None || query.time_bucket_nanos->0 <= 0) {
        Some(
            "aggregate query rejected: time_bucket_nanos is required for time_bucket grouping"@,
        )
    } else {
        None
    }
}

/// Refuses an aggregate without a project, or by time without a length of time.
pub fn validate_aggregate_query(query: &RunAggregateQuery) -> (r: Result<(), String>)
    ensures
        match r {
            Ok(_) => aggregate_fault(query@) is None,
            Err(message) => aggregate_fault(query@) == Some(message@),
        },
{
    assert(query@.project_names.len() == query.project_names@.len());
    if query.project_names.len() == 0 {
        return Err("aggregate query rejected: project_names is required".to_owned());
    }
    let length: i64 = match query.time_bucket_nanos {
        Some(length) => length,
        None => 0,
    };
    if query.groups_by(RunAggregateGroup::TimeBucket) && length <= 0 {
        return Err(
            "aggregate query rejected: time_bucket_nanos is required for time_bucket grouping".to_owned(),
        );
    }
    Ok(())
}

/// What is said of a segment that is too old for aggregates.
pub open spec fn old_segment_text(segment: SegmentSource, required: i64) -> Seq<char> {
    "aggregate query rejected: segment "@ + segment.uri@ + " has schema version "@ + int_text(
        segment.schema_version as int,
    ) + ", typed metric columns require version "@ + int_text(required as int)
}

/// Why segments are refused: the first that is too old for aggregates.
pub open spec fn old_segment_fault(segments: Seq<SegmentSource>, required: i64) -> Option<Seq<char>>
    decreases segments.len(),
{
    if segments.len() == 0 {
        None
    } else {
        match old_segment_fault(segments.drop_last(), required) {
            Some(message) => Some(message),
            None => if segments.last().schema_version < required {
                Some(old_segment_text(segments.last(), required))
            } else {
                None
            },
        }
    }
}

proof fn lemma_old_segment_of_prefix(segments: Seq<SegmentSource>, required: i64, n: int)
    requires
        0 <= n <= segments.len(),
        old_segment_fault(segments.take(n), required) is Some,
    ensures
        old_segment_fault(segments, required) == old_segment_fault(segments.take(n), required),
    decreases segments.len(),
{
    if n == segments.len() {
        assert(segments.take(n) =~= segments);
    } else {
        assert(segments.drop_last().take(n) =~= segments.take(n));
        lemma_old_segment_of_prefix(segments.drop_last(), required, n);
    }
}

/// Refuses segments that were written before metrics had columns of their own,
/// which came with the required version.
pub fn reject_old_metric_segments(segments: &Vec<SegmentSource>, required_version: i64) -> (r:
    Result<(), String>)
    ensures
        match r {
            Ok(_) => old_segment_fault(segments@, required_version) is None,
            Err(message) => old_segment_fault(segments@, required_version) == Some(message@),
        },
{
    let mut i: usize = 0;
    assert(segments@.take(0) =~= Seq::<SegmentSource>::empty());
    while i < segments.len()
        invariant
            i <= segments.len(),
            old_segment_fault(segments@.take(i as int), required_version) is None,
        decreases segments.len() - i,
    {
        assert(segments@.take(i + 1).drop_last() =~= segments@.take(i as int));
        let segment = &segments[i];
        if segment.schema_version < required_version {
            let mut message = "aggregate query rejected: segment ".to_owned();
            message.append(segment.uri.as_str());
            message.append(" has schema version ");
            message.append(integer_text(segment.schema_version).as_str());
            message.append(", typed metric columns require version ");
            message.append(integer_text(required_version).as_str());
            proof {
                lemma_old_segment_of_prefix(segments@, required_version, i + 1);
            }
            return Err(message);
        }
        i += 1;
    }
    assert(segments@.take(i as int) =~= segments@);
    Ok(())
}

/// An aggregate is refused just if it names no project, or if it groups by buckets of time of
/// which it does not say how long they are.
pub proof fn law_aggregates_are_refused(query: AggregateQuery)
    ensures
        aggregate_fault(query) is None <==> {
            &&& query.project_names.len() > 0
            &&& query.group_by.contains(RunAggregateGroup::TimeBucket)
                ==> (query.time_bucket_nanos matches Some(n) && n >= 1)
        },
{
}

/// Segments are refused just if one of them was written before the required version.
pub proof fn law_old_segments_are_refused(segments: Seq<SegmentSource>, required: i64)
    ensures
        old_segment_fault(segments, required) is None <==> forall|i: int|
            0 <= i < segments.len() ==> required <= (#[trigger] segments[i]).schema_version,
    decreases segments.len(),
{
    if segments.len() > 0 {
        let before = segments.drop_last();
        let last = segments.len() - 1;
        law_old_segments_are_refused(before, required);
        assert(segments[last] == segments.last());
        assert forall|i: int| 0 <= i < before.len() implies #[trigger] before[i] == segments[i] by {}
        if old_segment_fault(segments, required) is None {
            assert forall|i: int| 0 <= i < segments.len() implies required <= (
            #[trigger] segments[i]).schema_version by {
                if i < last {
                    assert(before[i] == segments[i]);
                }
            }
        }
    }
}

} // verus!
