//! What is said of the numbers in a group of runs.

use crate::float::Float;
use crate::float::float_order;
use crate::float::total_rank;
use crate::float::value_rank;
use crate::sorting::law_sort_keeps_elements;
use crate::sorting::law_sort_sorts;
use crate::sorting::lemma_sort_members;
use crate::sorting::sort_by;
use crate::sorting::stable_sort;
use crate::sorting::strict_order;
use vstd::prelude::*;

verus! {

/// What is said of numbers: all of them in ascending order, the least and the
/// greatest, and percentiles if they are asked for.
#[derive(Debug, PartialEq, Eq)]
pub struct NumericStats<T> {
    pub values: Vec<T>,
    pub min: T,
    pub max: T,
    pub p50: Option<T>,
    pub p95: Option<T>,
    pub p99: Option<T>,
}

/// The place of a percentile among so many values in ascending order.
pub open spec fn percentile_index(count: int, percentile: int) -> int {
    let index = ((count - 1) * percentile + 99) / 100;
    if index < count - 1 {
        index
    } else {
        count - 1
    }
}

/// A percentile is one of the values.
pub proof fn law_percentile_is_in_range(count: int, percentile: int)
    requires
        count > 0,
        percentile >= 0,
    ensures
        0 <= percentile_index(count, percentile) < count,
{
    assert((count - 1) * percentile >= 0) by (nonlinear_arith)
        requires
            count > 0,
            percentile >= 0,
    ;
}

/// A greater percentile is not a smaller value.
pub proof fn law_percentiles_ascend(count: int, lower: int, higher: int)
    requires
        count > 0,
        0 <= lower <= higher,
    ensures
        percentile_index(count, lower) <= percentile_index(count, higher),
{
    assert((count - 1) * lower <= (count - 1) * higher) by (nonlinear_arith)
        requires
            count > 0,
            lower <= higher,
    ;
}

/// Whether `place` is that of a percentile among so many values in ascending order: the
/// least one with as great a part of the way behind it.
pub open spec fn is_percentile_place(count: int, percentile: int, place: int) -> bool {
    &&& 0 <= place < count
    &&& 100 * place >= percentile * (count - 1)
    &&& place > 0 ==> 100 * (place - 1) < percentile * (count - 1)
}

/// A percentile stands at the least place with at least its part of the way from the
/// first value to the last behind it.
pub proof fn law_percentile_is_the_least_place(count: int, percentile: int)
    requires
        count > 0,
        0 <= percentile <= 100,
    ensures
        is_percentile_place(count, percentile, percentile_index(count, percentile)),
{
    let way = (count - 1) * percentile;
    assert(way == percentile * (count - 1)) by (nonlinear_arith)
        requires
            way == (count - 1) * percentile,
    ;
    assert(0 <= way <= 100 * (count - 1)) by (nonlinear_arith)
        requires
            way == (count - 1) * percentile,
            count > 0,
            0 <= percentile <= 100,
    ;
}

/// There is only one place of a percentile.
pub proof fn law_percentile_place_is_unique(count: int, percentile: int, a: int, b: int)
    requires
        is_percentile_place(count, percentile, a),
        is_percentile_place(count, percentile, b),
    ensures
        a == b,
{
}

/// The place of a percentile among so many values in ascending order.
pub fn percentile_place(count: usize, percentile: u8) -> (r: usize)
    requires
        count > 0,
        percentile <= 100,
    ensures
        r == percentile_index(count as int, percentile as int),
        r < count,
        is_percentile_place(count as int, percentile as int, r as int),
{
    proof {
        law_percentile_is_the_least_place(count as int, percentile as int);
        law_percentile_is_in_range(count as int, percentile as int);
        assert((count - 1) * percentile <= 0x1_0000_0000_0000_0000 * 100) by (nonlinear_arith)
            requires
                0 < count <= 0x1_0000_0000_0000_0000,
                0 <= percentile <= 100,
        ;
        assert((count - 1) * percentile >= 0) by (nonlinear_arith)
            requires
                0 < count,
                0 <= percentile,
        ;
    }
    let index: u128 = ((count - 1) as u128 * percentile as u128 + 99) / 100;
    if index < (count - 1) as u128 {
        index as usize
    } else {
        count - 1
    }
}

/// A percentile of values in ascending order.
pub open spec fn percentile_of<T>(values: Seq<T>, percentile: int) -> T {
    values[percentile_index(values.len() as int, percentile)]
}

/// Whether `stats` is what is said of the values, which are in ascending order.
pub open spec fn are_stats_of<T>(stats: Option<NumericStats<T>>, values: Seq<T>, percentiles: bool) -> bool {
    match stats {
        Some(told) => {
            &&& values.len() > 0
            &&& told.values@ == values
            &&& told.min == values[0]
            &&& told.max == values.last()
            &&& told.p50 == if percentiles {
                Some(percentile_of(values, 50))
            } else {
                None
            }
            &&& told.p95 == if percentiles {
                Some(percentile_of(values, 95))
            } else {
                None
            }
            &&& told.p99 == if percentiles {
                Some(percentile_of(values, 99))
            } else {
                None
            }
        },
        None => values.len() == 0,
    }
}

/// Whether a number is the percentile of values in ascending order.
pub open spec fn is_percentile<T>(told: Option<T>, values: Seq<T>, percentile: int) -> bool {
    exists|i: int|
        #[trigger] is_percentile_place(values.len() as int, percentile, i) && told == Some(
            values[i],
        )
}

/// What is said of integers holds of them: the least and the greatest are, and of three
/// percentiles, if they are asked for, each is the one of its name.
pub proof fn law_integer_stats(
    told: Option<NumericStats<i64>>,
    numbers: Seq<i64>,
    percentiles: bool,
)
    requires
        are_stats_of(told, stable_sort(numbers, integer_order()), percentiles),
    ensures
        told is None <==> numbers.len() == 0,
        told matches Some(stats) ==> {
            &&& stats.values@.to_multiset() == numbers.to_multiset()
            &&& forall|i: int, j: int|
                0 <= i <= j < stats.values@.len() ==> #[trigger] stats.values@[i]
                    <= #[trigger] stats.values@[j]
            &&& forall|i: int|
                0 <= i < numbers.len() ==> stats.min <= #[trigger] numbers[i] <= stats.max
            &&& numbers.contains(stats.min) && numbers.contains(stats.max)
            &&& percentiles ==> is_percentile(stats.p50, stats.values@, 50) && is_percentile(
                stats.p95,
                stats.values@,
                95,
            ) && is_percentile(stats.p99, stats.values@, 99)
            &&& !percentiles ==> stats.p50 is None && stats.p95 is None && stats.p99 is None
        },
{
    let less = integer_order();
    let values = stable_sort(numbers, less);
    law_sort_keeps_elements(numbers, less);
    lemma_sort_members(numbers, less);
    assert(strict_order(less));
    law_sort_sorts(numbers, less);
    if told is Some {
        let n = values.len() as int;
        law_percentile_is_the_least_place(n, 50);
        law_percentile_is_the_least_place(n, 95);
        law_percentile_is_the_least_place(n, 99);
        assert forall|i: int, j: int| 0 <= i <= j < values.len() implies #[trigger] values[i]
            <= #[trigger] values[j] by {
            if i < j {
                assert(!less(values[j], values[i]));
            }
        }
        assert forall|i: int| 0 <= i < numbers.len() implies values[0] <= #[trigger] numbers[i]
            <= values.last() by {
            assert(values.contains(numbers[i]));
            let k = values.index_of(numbers[i]);
            assert(values[0] <= values[k] <= values[n - 1]);
        }
        assert(numbers.contains(values[0]) && numbers.contains(values[n - 1]));
    }
}

/// What is said of floating-point numbers and of scores holds of them in the same way:
/// all of them, in order, and of the percentiles each is the one of its name.
pub proof fn law_float_stats(told: Option<NumericStats<Float>>, numbers: Seq<Float>)
    requires
        are_stats_of(told, stable_sort(numbers, float_order()), true),
    ensures
        told is None <==> numbers.len() == 0,
        told matches Some(stats) ==> {
            &&& stats.values@.to_multiset() == numbers.to_multiset()
            &&& forall|i: int, j: int|
                0 <= i <= j < stats.values@.len() ==> total_rank(#[trigger] stats.values@[i])
                    <= total_rank(#[trigger] stats.values@[j])
            &&& stats.min == stats.values@[0] && stats.max == stats.values@.last()
            &&& is_percentile(stats.p50, stats.values@, 50)
            &&& is_percentile(stats.p95, stats.values@, 95)
            &&& is_percentile(stats.p99, stats.values@, 99)
        },
{
    let less = float_order();
    let values = stable_sort(numbers, less);
    law_sort_keeps_elements(numbers, less);
    assert(strict_order(less));
    law_sort_sorts(numbers, less);
    if told is Some {
        let n = values.len() as int;
        law_percentile_is_the_least_place(n, 50);
        law_percentile_is_the_least_place(n, 95);
        law_percentile_is_the_least_place(n, 99);
        assert forall|i: int, j: int| 0 <= i <= j < values.len() implies total_rank(
            #[trigger] values[i],
        ) <= total_rank(#[trigger] values[j]) by {
            if i < j {
                assert(!less(values[j], values[i]));
            }
        }
    }
}

/// What is said of the scores under a feedback key holds of them.
pub proof fn law_score_stats(told: FeedbackScoreStats, scores: Seq<Float>)
    requires
        are_score_stats_of(told, stable_sort(scores, float_order())),
        scores.len() > 0,
    ensures
        told.values@.to_multiset() == scores.to_multiset(),
        forall|i: int, j: int|
            0 <= i <= j < told.values@.len() ==> total_rank(#[trigger] told.values@[i])
                <= total_rank(#[trigger] told.values@[j]),
        told.min == Some(told.values@[0]),
        told.max == Some(told.values@.last()),
        is_percentile(told.p50, told.values@, 50),
        is_percentile(told.p95, told.values@, 95),
        is_percentile(told.p99, told.values@, 99),
{
    let less = float_order();
    let values = stable_sort(scores, less);
    law_sort_keeps_elements(scores, less);
    assert(strict_order(less));
    law_sort_sorts(scores, less);
    let n = values.len() as int;
    law_percentile_is_the_least_place(n, 50);
    law_percentile_is_the_least_place(n, 95);
    law_percentile_is_the_least_place(n, 99);
    assert forall|i: int, j: int| 0 <= i <= j < values.len() implies total_rank(
        #[trigger] values[i],
    ) <= total_rank(#[trigger] values[j]) by {
        if i < j {
            assert(!less(values[j], values[i]));
        }
    }
}

fn stats_of_sorted<T: Copy>(values: Vec<T>, percentiles: bool) -> (r: Option<NumericStats<T>>)
    ensures
        are_stats_of(r, values@, percentiles),
{
    let count = values.len();
    if count == 0 {
        return None;
    }
    let min = values[0];
    let max = values[count - 1];
    let p50 = if percentiles {
        Some(values[percentile_place(count, 50)])
    } else {
        None
    };
    let p95 = if percentiles {
        Some(values[percentile_place(count, 95)])
    } else {
        None
    };
    let p99 = if percentiles {
        Some(values[percentile_place(count, 99)])
    } else {
        None
    };
    Some(NumericStats { values, min, max, p50, p95, p99 })
}

/// The order of integers.
pub open spec fn integer_order() -> spec_fn(i64, i64) -> bool {
    |a: i64, b: i64| a < b
}

fn is_integer_less(a: &i64, b: &i64) -> (r: bool)
    ensures
        r == (*a < *b),
{
    *a < *b
}

fn is_float_less(a: &Float, b: &Float) -> (r: bool)
    ensures
        r == (total_rank(*a) < total_rank(*b)),
{
    a.rank() < b.rank()
}

/// What is said of integers.
pub fn integer_stats(values: Vec<i64>, percentiles: bool) -> (r: Option<NumericStats<i64>>)
    ensures
        are_stats_of(r, stable_sort(values@, integer_order()), percentiles),
{
    stats_of_sorted(sort_by(values, is_integer_less, Ghost(integer_order())), percentiles)
}

/// What is said of floating-point numbers.
pub fn float_stats(values: Vec<Float>, percentiles: bool) -> (r: Option<NumericStats<Float>>)
    ensures
        are_stats_of(r, stable_sort(values@, float_order()), percentiles),
{
    stats_of_sorted(sort_by(values, is_float_less, Ghost(float_order())), percentiles)
}

/// How many scores lie in each part of the scale.
#[derive(Debug, Clone, Copy, PartialEq, Eq, Structural)]
pub struct ScoreDistribution {
    pub lt_0: u64,
    pub from_0_to_0_25: u64,
    pub from_0_25_to_0_5: u64,
    pub from_0_5_to_0_75: u64,
    pub from_0_75_to_1: u64,
    pub gt_1: u64,
}

/// A part of the scale of scores.
#[derive(Debug, Clone, Copy, PartialEq, Eq, Structural)]
pub enum ScorePart {
    BelowZero,
    FirstQuarter,
    SecondQuarter,
    ThirdQuarter,
    LastQuarter,
    AboveOne,
}

/// In which part of the scale a finite score lies. The bounds are the bits of a
/// quarter, a half, three quarters and one.
pub open spec fn score_part(score: Float) -> ScorePart {
    let rank = value_rank(score);
    if rank < 0 {
        ScorePart::BelowZero
    } else if rank < 0x3fd0_0000_0000_0000 {
        ScorePart::FirstQuarter
    } else if rank < 0x3fe0_0000_0000_0000 {
        ScorePart::SecondQuarter
    } else if rank < 0x3fe8_0000_0000_0000 {
        ScorePart::ThirdQuarter
    } else if rank <= 0x3ff0_0000_0000_0000 {
        ScorePart::LastQuarter
    } else {
        ScorePart::AboveOne
    }
}

/// How many of the scores lie in a part of the scale.
pub open spec fn in_part(scores: Seq<Float>, part: ScorePart) -> nat
    decreases scores.len(),
{
    if scores.len() == 0 {
        0
    } else {
        in_part(scores.drop_last(), part) + if score_part(scores.last()) == part {
            1nat
        } else {
            0nat
        }
    }
}

/// How scores are distributed over the scale.
pub open spec fn distribution_of(scores: Seq<Float>) -> ScoreDistribution {
    ScoreDistribution {
        lt_0: in_part(scores, ScorePart::BelowZero) as u64,
        from_0_to_0_25: in_part(scores, ScorePart::FirstQuarter) as u64,
        from_0_25_to_0_5: in_part(scores, ScorePart::SecondQuarter) as u64,
        from_0_5_to_0_75: in_part(scores, ScorePart::ThirdQuarter) as u64,
        from_0_75_to_1: in_part(scores, ScorePart::LastQuarter) as u64,
        gt_1: in_part(scores, ScorePart::AboveOne) as u64,
    }
}

/// Each score lies in exactly one part of the scale.
pub proof fn law_distribution_counts_each_score_once(scores: Seq<Float>)
    ensures
        in_part(scores, ScorePart::BelowZero) + in_part(scores, ScorePart::FirstQuarter) + in_part(
            scores,
            ScorePart::SecondQuarter,
        ) + in_part(scores, ScorePart::ThirdQuarter) + in_part(scores, ScorePart::LastQuarter)
            + in_part(scores, ScorePart::AboveOne) == scores.len(),
    decreases scores.len(),
{
    if scores.len() > 0 {
        law_distribution_counts_each_score_once(scores.drop_last());
    }
}

/// One more score is counted once: below zero; from zero to a quarter, a half, three
/// quarters and one, each without the upper bound but the last, which has it; or above
/// one. The bounds are doubles, by their bits.
pub proof fn law_one_more_score_is_counted(scores: Seq<Float>, score: Float)
    requires
        scores.len() < u64::MAX,
    ensures
        ({
            let before = distribution_of(scores);
            let after = distribution_of(scores.push(score));
            let rank = value_rank(score);
            let quarter = value_rank(Float { bits: 0x3fd0_0000_0000_0000 });
            let half = value_rank(Float { bits: 0x3fe0_0000_0000_0000 });
            let three_quarters = value_rank(Float { bits: 0x3fe8_0000_0000_0000 });
            let one = value_rank(Float { bits: 0x3ff0_0000_0000_0000 });
            &&& after.lt_0 - before.lt_0 == if rank < 0 {
                1int
            } else {
                0
            }
            &&& after.from_0_to_0_25 - before.from_0_to_0_25 == if 0 <= rank < quarter {
                1int
            } else {
                0
            }
            &&& after.from_0_25_to_0_5 - before.from_0_25_to_0_5 == if quarter <= rank < half {
                1int
            } else {
                0
            }
            &&& after.from_0_5_to_0_75 - before.from_0_5_to_0_75 == if half <= rank
                < three_quarters {
                1int
            } else {
                0
            }
            &&& after.from_0_75_to_1 - before.from_0_75_to_1 == if three_quarters <= rank <= one {
                1int
            } else {
                0
            }
            &&& after.gt_1 - before.gt_1 == if rank > one {
                1int
            } else {
                0
            }
        }),
        distribution_of(Seq::empty()) == (ScoreDistribution {
            lt_0: 0,
            from_0_to_0_25: 0,
            from_0_25_to_0_5: 0,
            from_0_5_to_0_75: 0,
            from_0_75_to_1: 0,
            gt_1: 0,
        }),
{
    assert(scores.push(score).drop_last() =~= scores);
    law_distribution_counts_each_score_once(scores);
    law_distribution_counts_each_score_once(scores.push(score));
}

fn part_of_score(score: &Float) -> (r: ScorePart)
    ensures
        r == score_part(*score),
{
    let rank: i128 = score.size_rank();
    if rank < 0 {
        ScorePart::BelowZero
    } else if rank < 0x3fd0_0000_0000_0000 {
        ScorePart::FirstQuarter
    } else if rank < 0x3fe0_0000_0000_0000 {
        ScorePart::SecondQuarter
    } else if rank < 0x3fe8_0000_0000_0000 {
        ScorePart::ThirdQuarter
    } else if rank <= 0x3ff0_0000_0000_0000 {
        ScorePart::LastQuarter
    } else {
        ScorePart::AboveOne
    }
}

/// How scores are distributed over the scale.
pub fn feedback_distribution(scores: &Vec<Float>) -> (r: ScoreDistribution)
    ensures
        r == distribution_of(scores@),
{
    let mut out = ScoreDistribution {
        lt_0: 0,
        from_0_to_0_25: 0,
        from_0_25_to_0_5: 0,
        from_0_5_to_0_75: 0,
        from_0_75_to_1: 0,
        gt_1: 0,
    };
    let mut i: usize = 0;
    assert(scores@.take(0) =~= Seq::<Float>::empty());
    while i < scores.len()
        invariant
            i <= scores.len(),
            out.lt_0 == in_part(scores@.take(i as int), ScorePart::BelowZero),
            out.from_0_to_0_25 == in_part(scores@.take(i as int), ScorePart::FirstQuarter),
            out.from_0_25_to_0_5 == in_part(scores@.take(i as int), ScorePart::SecondQuarter),
            out.from_0_5_to_0_75 == in_part(scores@.take(i as int), ScorePart::ThirdQuarter),
            out.from_0_75_to_1 == in_part(scores@.take(i as int), ScorePart::LastQuarter),
            out.gt_1 == in_part(scores@.take(i as int), ScorePart::AboveOne),
        decreases scores.len() - i,
    {
        assert(scores@.take(i + 1).drop_last() =~= scores@.take(i as int));
        proof {
            law_distribution_counts_each_score_once(scores@.take(i as int));
        }
        match part_of_score(&scores[i]) {
            ScorePart::BelowZero => {
                out.lt_0 = out.lt_0 + 1;
            },
            ScorePart::FirstQuarter => {
                out.from_0_to_0_25 = out.from_0_to_0_25 + 1;
            },
            ScorePart::SecondQuarter => {
                out.from_0_25_to_0_5 = out.from_0_25_to_0_5 + 1;
            },
            ScorePart::ThirdQuarter => {
                out.from_0_5_to_0_75 = out.from_0_5_to_0_75 + 1;
            },
            ScorePart::LastQuarter => {
                out.from_0_75_to_1 = out.from_0_75_to_1 + 1;
            },
            ScorePart::AboveOne => {
                out.gt_1 = out.gt_1 + 1;
            },
        }
        i += 1;
    }
    assert(scores@.take(i as int) =~= scores@);
    out
}

/// What is said of the scores under one feedback key.
#[derive(Debug, PartialEq, Eq)]
pub struct FeedbackScoreStats {
    pub values: Vec<Float>,
    pub min: Option<Float>,
    pub max: Option<Float>,
    pub p50: Option<Float>,
    pub p95: Option<Float>,
    pub p99: Option<Float>,
    pub distribution: ScoreDistribution,
}

/// Whether `stats` is what is said of scores, which are in ascending order.
pub open spec fn are_score_stats_of(stats: FeedbackScoreStats, scores: Seq<Float>) -> bool {
    &&& stats.values@ == scores
    &&& stats.distribution == distribution_of(scores)
    &&& scores.len() == 0 ==> {
        stats.min is None && stats.max is None && stats.p50 is None && stats.p95 is None
            && stats.p99 is None
    }
    &&& scores.len() > 0 ==> {
        &&& stats.min == Some(scores[0])
        &&& stats.max == Some(scores.last())
        &&& stats.p50 == Some(percentile_of(scores, 50))
        &&& stats.p95 == Some(percentile_of(scores, 95))
        &&& stats.p99 == Some(percentile_of(scores, 99))
    }
}

/// What is said of the scores under one feedback key.
pub fn score_stats(scores: Vec<Float>) -> (r: FeedbackScoreStats)
    ensures
        are_score_stats_of(r, stable_sort(scores@, float_order())),
{
    let values = sort_by(scores, is_float_less, Ghost(float_order()));
    let distribution = feedback_distribution(&values);
    let count = values.len();
    if count == 0 {
        FeedbackScoreStats {
            values,
            min: None,
            max: None,
            p50: None,
            p95: None,
            p99: None,
            distribution,
        }
    } else {
        FeedbackScoreStats {
            min: Some(values[0]),
            max: Some(values[count - 1]),
            p50: Some(values[percentile_place(count, 50)]),
            p95: Some(values[percentile_place(count, 95)]),
            p99: Some(values[percentile_place(count, 99)]),
            distribution,
            values,
        }
    }
}

} // verus!
