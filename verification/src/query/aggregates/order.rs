//! Aggregates do not depend on the order in which runs come.

use crate::float::Float;
use crate::float::finite;
use crate::float::float_order;
use crate::query::aggregates::AggregateQuery;
use crate::query::aggregates::grouping::AggregateRunRow;
use crate::query::aggregates::grouping::Counted;
use crate::query::aggregates::grouping::Entry;
use crate::query::aggregates::grouping::FeedbackScore;
use crate::query::aggregates::grouping::FloatMetric;
use crate::query::aggregates::grouping::IntegerMetric;
use crate::query::aggregates::grouping::KeyedScoreStats;
use crate::query::aggregates::grouping::RunAggregateMetrics;
use crate::query::aggregates::grouping::RunAggregateRow;
use crate::query::aggregates::grouping::RunFeedback;
use crate::query::aggregates::grouping::RunTag;
use crate::query::aggregates::grouping::are_aggregates_of;
use crate::query::aggregates::grouping::are_keyed_stats_of;
use crate::query::aggregates::grouping::are_metrics_of;
use crate::query::aggregates::grouping::counted_in;
use crate::query::aggregates::grouping::counted_run;
use crate::query::aggregates::grouping::counted_runs;
use crate::query::aggregates::grouping::errors_in;
use crate::query::aggregates::grouping::float_metric;
use crate::query::aggregates::grouping::floats_of;
use crate::query::aggregates::grouping::group_order;
use crate::query::aggregates::grouping::groups_of;
use crate::query::aggregates::grouping::integer_metric;
use crate::query::aggregates::grouping::integers_of;
use crate::query::aggregates::grouping::law_group_order;
use crate::query::aggregates::grouping::score_keys;
use crate::query::aggregates::grouping::scores_in;
use crate::query::aggregates::grouping::scores_under;
use crate::query::aggregates::grouping::sorted_floats;
use crate::query::aggregates::grouping::sorted_integers;
use crate::query::aggregates::stats::are_score_stats_of;
use crate::query::aggregates::stats::integer_order;
use crate::sorting::each_of;
use crate::sorting::law_each_of_ignores_order;
use crate::sorting::law_ordered_set_ignores_order;
use crate::sorting::law_sort_ignores_order;
use crate::sorting::ordered_set;
use crate::sorting::stable_sort;
use crate::text::law_text_order;
use crate::text::text_order;
use vstd::prelude::*;

verus! {

spec fn as_counted(
    query: AggregateQuery,
    tags: Seq<RunTag>,
    feedback: Seq<RunFeedback>,
) -> spec_fn(AggregateRunRow) -> Seq<Counted> {
    |row: AggregateRunRow| counted_run(row, query, tags, feedback)
}

proof fn lemma_counted_runs(
    rows: Seq<AggregateRunRow>,
    query: AggregateQuery,
    tags: Seq<RunTag>,
    feedback: Seq<RunFeedback>,
)
    ensures
        counted_runs(rows, query, tags, feedback) == each_of(
            rows,
            as_counted(query, tags, feedback),
        ),
    decreases rows.len(),
{
    if rows.len() > 0 {
        lemma_counted_runs(rows.drop_last(), query, tags, feedback);
    }
}

spec fn as_group() -> spec_fn(Counted) -> Seq<Seq<Entry>> {
    |one: Counted| seq![one.group]
}

proof fn lemma_groups_of(counted: Seq<Counted>)
    ensures
        groups_of(counted) == each_of(counted, as_group()),
    decreases counted.len(),
{
    if counted.len() > 0 {
        lemma_groups_of(counted.drop_last());
    }
    assert(groups_of(counted) =~= each_of(counted, as_group()));
}

spec fn as_member(group: Seq<Entry>) -> spec_fn(Counted) -> Seq<Counted> {
    |one: Counted|
        if one.group == group {
            seq![one]
        } else {
            Seq::empty()
        }
}

proof fn lemma_counted_in(counted: Seq<Counted>, group: Seq<Entry>)
    ensures
        counted_in(counted, group) == each_of(counted, as_member(group)),
    decreases counted.len(),
{
    reveal(Seq::filter);
    if counted.len() > 0 {
        lemma_counted_in(counted.drop_last(), group);
    }
    assert(counted_in(counted, group) =~= each_of(counted, as_member(group)));
}

spec fn as_integer(metric: IntegerMetric) -> spec_fn(Counted) -> Seq<i64> {
    |one: Counted|
        match integer_metric(one.row, metric) {
            Some(n) => seq![n],
            None => Seq::empty(),
        }
}

proof fn lemma_integers_of(counted: Seq<Counted>, metric: IntegerMetric)
    ensures
        integers_of(counted, metric) == each_of(counted, as_integer(metric)),
    decreases counted.len(),
{
    if counted.len() > 0 {
        lemma_integers_of(counted.drop_last(), metric);
    }
    assert(integers_of(counted, metric) =~= each_of(counted, as_integer(metric)));
}

spec fn as_float(metric: FloatMetric) -> spec_fn(Counted) -> Seq<Float> {
    |one: Counted|
        match float_metric(one.row, metric) {
            Some(number) => if finite(number) {
                seq![number]
            } else {
                Seq::empty()
            },
            None => Seq::empty(),
        }
}

proof fn lemma_floats_of(counted: Seq<Counted>, metric: FloatMetric)
    ensures
        floats_of(counted, metric) == each_of(counted, as_float(metric)),
    decreases counted.len(),
{
    if counted.len() > 0 {
        lemma_floats_of(counted.drop_last(), metric);
    }
    assert(floats_of(counted, metric) =~= each_of(counted, as_float(metric)));
}

spec fn as_error() -> spec_fn(Counted) -> Seq<bool> {
    |one: Counted|
        if one.row.status@ == "error"@ {
            seq![true]
        } else {
            Seq::empty()
        }
}

proof fn lemma_errors_in(counted: Seq<Counted>)
    ensures
        errors_in(counted) == each_of(counted, as_error()).len(),
    decreases counted.len(),
{
    if counted.len() > 0 {
        lemma_errors_in(counted.drop_last());
    }
}

spec fn as_scores() -> spec_fn(Counted) -> Seq<FeedbackScore> {
    |one: Counted| one.feedback
}

proof fn lemma_scores_in(counted: Seq<Counted>)
    ensures
        scores_in(counted) == each_of(counted, as_scores()),
    decreases counted.len(),
{
    if counted.len() > 0 {
        lemma_scores_in(counted.drop_last());
    }
}

spec fn as_score_under(key: Seq<char>) -> spec_fn(FeedbackScore) -> Seq<Float> {
    |score: FeedbackScore|
        if score.key@ == key && finite(score.score) {
            seq![score.score]
        } else {
            Seq::empty()
        }
}

proof fn lemma_scores_under(scores: Seq<FeedbackScore>, key: Seq<char>)
    ensures
        scores_under(scores, key) == each_of(scores, as_score_under(key)),
    decreases scores.len(),
{
    if scores.len() > 0 {
        lemma_scores_under(scores.drop_last(), key);
    }
    assert(scores_under(scores, key) =~= each_of(scores, as_score_under(key)));
}

proof fn lemma_sorted_integers(a: Seq<i64>, b: Seq<i64>)
    requires
        a.to_multiset() == b.to_multiset(),
    ensures
        stable_sort(a, integer_order()) == stable_sort(b, integer_order()),
{
    law_sort_ignores_order(a, b, integer_order());
}

proof fn lemma_sorted_floats(a: Seq<Float>, b: Seq<Float>)
    requires
        a.to_multiset() == b.to_multiset(),
    ensures
        stable_sort(a, float_order()) == stable_sort(b, float_order()),
{
    law_sort_ignores_order(a, b, float_order());
}

proof fn lemma_same_scores(
    stats: Seq<KeyedScoreStats>,
    a: Seq<FeedbackScore>,
    b: Seq<FeedbackScore>,
)
    requires
        a.to_multiset() == b.to_multiset(),
        are_keyed_stats_of(stats, a),
    ensures
        are_keyed_stats_of(stats, b),
{
    broadcast use vstd::seq_lib::group_to_multiset_ensures;

    let a_keys = score_keys(a);
    let b_keys = score_keys(b);
    assert forall|key: Seq<char>| #[trigger] a_keys.contains(key) <==> b_keys.contains(key) by {
        if a_keys.contains(key) {
            let score = a[a_keys.index_of(key)];
            assert(a.contains(score));
            assert(a.to_multiset().count(score) > 0);
            assert(b.contains(score));
            assert(b_keys[b.index_of(score)] == key);
        }
        if b_keys.contains(key) {
            let score = b[b_keys.index_of(key)];
            assert(b.contains(score));
            assert(b.to_multiset().count(score) > 0);
            assert(a.contains(score));
            assert(a_keys[a.index_of(score)] == key);
        }
    }
    law_text_order();
    law_ordered_set_ignores_order(a_keys, b_keys, text_order());
    let keys = ordered_set(b_keys, text_order());
    assert forall|i: int| 0 <= i < keys.len() implies {
        let one = #[trigger] stats[i];
        one.key@ == keys[i] && are_score_stats_of(
            one.stats,
            stable_sort(scores_under(b, keys[i]), float_order()),
        )
    } by {
        lemma_scores_under(a, keys[i]);
        lemma_scores_under(b, keys[i]);
        law_each_of_ignores_order(a, b, as_score_under(keys[i]));
        lemma_sorted_floats(scores_under(a, keys[i]), scores_under(b, keys[i]));
    }
}

proof fn lemma_same_integers(a: Seq<Counted>, b: Seq<Counted>, metric: IntegerMetric)
    requires
        a.to_multiset() == b.to_multiset(),
    ensures
        sorted_integers(a, metric) == sorted_integers(b, metric),
{
    lemma_integers_of(a, metric);
    lemma_integers_of(b, metric);
    law_each_of_ignores_order(a, b, as_integer(metric));
    lemma_sorted_integers(integers_of(a, metric), integers_of(b, metric));
}

proof fn lemma_same_floats(a: Seq<Counted>, b: Seq<Counted>, metric: FloatMetric)
    requires
        a.to_multiset() == b.to_multiset(),
    ensures
        sorted_floats(a, metric) == sorted_floats(b, metric),
{
    lemma_floats_of(a, metric);
    lemma_floats_of(b, metric);
    law_each_of_ignores_order(a, b, as_float(metric));
    lemma_sorted_floats(floats_of(a, metric), floats_of(b, metric));
}

proof fn lemma_same_metrics(metrics: RunAggregateMetrics, a: Seq<Counted>, b: Seq<Counted>)
    requires
        a.to_multiset() == b.to_multiset(),
        are_metrics_of(metrics, a),
    ensures
        are_metrics_of(metrics, b),
{
    broadcast use vstd::seq_lib::group_to_multiset_ensures;

    assert(a.len() == a.to_multiset().len() == b.len());
    lemma_errors_in(a);
    lemma_errors_in(b);
    law_each_of_ignores_order(a, b, as_error());
    assert(each_of(a, as_error()).len() == each_of(a, as_error()).to_multiset().len());
    assert(each_of(b, as_error()).len() == each_of(b, as_error()).to_multiset().len());
    lemma_same_integers(a, b, IntegerMetric::Latency);
    lemma_same_integers(a, b, IntegerMetric::PromptTokens);
    lemma_same_integers(a, b, IntegerMetric::CompletionTokens);
    lemma_same_integers(a, b, IntegerMetric::TotalTokens);
    lemma_same_integers(a, b, IntegerMetric::FirstTokenLatency);
    lemma_same_floats(a, b, FloatMetric::PromptCost);
    lemma_same_floats(a, b, FloatMetric::CompletionCost);
    lemma_same_floats(a, b, FloatMetric::TotalCost);
    lemma_same_floats(a, b, FloatMetric::EvaluatorScore);
    lemma_scores_in(a);
    lemma_scores_in(b);
    law_each_of_ignores_order(a, b, as_scores());
    lemma_same_scores(metrics.feedback_scores@, scores_in(a), scores_in(b));
}

/// The rows of an aggregate are the same in whichever order its runs come, such as
/// that in which workers find them.
pub proof fn law_aggregates_ignore_order(
    rows: Seq<RunAggregateRow>,
    a: Seq<AggregateRunRow>,
    b: Seq<AggregateRunRow>,
    query: AggregateQuery,
    tags: Seq<RunTag>,
    feedback: Seq<RunFeedback>,
)
    requires
        a.to_multiset() == b.to_multiset(),
        are_aggregates_of(rows, counted_runs(a, query, tags, feedback)),
    ensures
        are_aggregates_of(rows, counted_runs(b, query, tags, feedback)),
{
    broadcast use vstd::seq_lib::group_to_multiset_ensures;

    let counted_a = counted_runs(a, query, tags, feedback);
    let counted_b = counted_runs(b, query, tags, feedback);
    lemma_counted_runs(a, query, tags, feedback);
    lemma_counted_runs(b, query, tags, feedback);
    law_each_of_ignores_order(a, b, as_counted(query, tags, feedback));
    let groups_a = groups_of(counted_a);
    let groups_b = groups_of(counted_b);
    lemma_groups_of(counted_a);
    lemma_groups_of(counted_b);
    law_each_of_ignores_order(counted_a, counted_b, as_group());
    assert forall|group: Seq<Entry>| #[trigger] groups_a.contains(group) <==> groups_b.contains(
        group,
    ) by {
        assert(groups_a.contains(group) <==> groups_a.to_multiset().count(group) > 0);
        assert(groups_b.contains(group) <==> groups_b.to_multiset().count(group) > 0);
    }
    law_group_order();
    law_ordered_set_ignores_order(groups_a, groups_b, group_order());
    let groups = ordered_set(groups_b, group_order());
    assert forall|i: int| 0 <= i < groups.len() implies {
        let row = #[trigger] rows[i];
        row.group@ == groups[i] && are_metrics_of(row.metrics, counted_in(counted_b, groups[i]))
    } by {
        lemma_counted_in(counted_a, groups[i]);
        lemma_counted_in(counted_b, groups[i]);
        law_each_of_ignores_order(counted_a, counted_b, as_member(groups[i]));
        lemma_same_metrics(
            rows[i].metrics,
            counted_in(counted_a, groups[i]),
            counted_in(counted_b, groups[i]),
        );
    }
}

} // verus!
