//! In which groups a run counts, and what is said of the runs of a group.

use crate::float::Float;
use crate::float::finite;
use crate::float::float_order;
use crate::query::matching::StoredRun;
use crate::query::Key;
use crate::query::aggregates::AggregateQuery;
use crate::query::aggregates::RunAggregateGroup;
use crate::query::aggregates::grouping::AggregateRunRow;
use crate::query::aggregates::grouping::Counted;
use crate::query::aggregates::grouping::Entry;
use crate::query::aggregates::grouping::FeedbackScore;
use crate::query::aggregates::grouping::FloatMetric;
use crate::query::aggregates::grouping::IntegerMetric;
use crate::query::aggregates::grouping::RunAggregateMetrics;
use crate::query::aggregates::grouping::RunFeedback;
use crate::query::aggregates::grouping::RunTag;
use crate::query::aggregates::grouping::Variant;
use crate::query::aggregates::grouping::aggregate_key;
use crate::query::aggregates::grouping::all_with_scores;
use crate::query::aggregates::grouping::all_with_values;
use crate::query::aggregates::grouping::are_metrics_of;
use crate::query::aggregates::grouping::bucket_length;
use crate::query::aggregates::grouping::errors_in;
use crate::query::aggregates::grouping::expanded;
use crate::query::aggregates::grouping::float_metric;
use crate::query::aggregates::grouping::floats_of;
use crate::query::aggregates::grouping::grouped;
use crate::query::aggregates::grouping::in_group;
use crate::query::aggregates::grouping::integer_metric;
use crate::query::aggregates::grouping::integers_of;
use crate::query::aggregates::grouping::known_or;
use crate::query::aggregates::grouping::score_keys;
use crate::query::aggregates::grouping::scores_in;
use crate::query::aggregates::grouping::scores_of;
use crate::query::aggregates::grouping::scores_under;
use crate::query::aggregates::grouping::tag_groups;
use crate::query::aggregates::grouping::tags_of;
use crate::query::aggregates::grouping::time_bucket_of;
use crate::query::aggregates::grouping::variants_of_run;
use crate::query::aggregates::grouping::with_entry;
use crate::query::aggregates::grouping::with_feedback;
use crate::query::aggregates::grouping::with_scores;
use crate::query::aggregates::grouping::with_values;
use crate::query::aggregates::rollups::RollupKind;
use crate::query::aggregates::rollups::RunRollup;
use crate::query::aggregates::rollups::answers;
use crate::query::aggregates::rollups::is_rollup_kind;
use crate::query::aggregates::rollups::rollup_group;
use crate::query::aggregates::rollups::rollup_hour;
use crate::query::aggregates::rollups::rollup_word;
use crate::query::aggregates::rollups::third_group;
use crate::query::aggregates::runs_of;
use crate::query::aggregates::stats::NumericStats;
use crate::query::aggregates::stats::are_score_stats_of;
use crate::query::aggregates::stats::are_stats_of;
use crate::query::aggregates::stats::integer_order;
use crate::query::matching::is_wanted;
use crate::sorting::law_ordered_set_holds_its_elements;
use crate::sorting::ordered_set;
use crate::sorting::stable_sort;
use crate::text::int_text;
use crate::text::law_text_order;
use crate::text::text_less;
use crate::text::text_order;
use crate::time::law_bucket_holds_its_time;
use vstd::prelude::*;

verus! {

/// What a run is grouped by: what is said of it, the query, and the tags and the scores of all
/// runs.
pub struct Grouped {
    pub row: AggregateRunRow,
    pub query: AggregateQuery,
    pub tags: Seq<RunTag>,
    pub feedback: Seq<RunFeedback>,
}

/// Under which key a group says what its runs have in common.
pub open spec fn word_of(group: RunAggregateGroup) -> Seq<char> {
    match group {
        RunAggregateGroup::Project => "project_name"@,
        RunAggregateGroup::TimeBucket => "time_bucket_start_unix_nano"@,
        RunAggregateGroup::RunType => "run_type"@,
        RunAggregateGroup::Tag => "tag"@,
        RunAggregateGroup::Model => "model_name"@,
        RunAggregateGroup::Provider => "provider_name"@,
        RunAggregateGroup::Error => "error"@,
        RunAggregateGroup::FeedbackKey => "feedback_key"@,
    }
}

/// Whether a run has a tag.
pub open spec fn has_tag(tags: Seq<RunTag>, run: Key, tag: Seq<char>) -> bool {
    exists|i: int| 0 <= i < tags.len() && (#[trigger] tags[i]).key@ == run && tags[i].tag@ == tag
}

/// Whether a run has any tag.
pub open spec fn is_tagged(tags: Seq<RunTag>, run: Key) -> bool {
    exists|i: int| 0 <= i < tags.len() && (#[trigger] tags[i]).key@ == run
}

/// Whether a run was given a score, under a key that is asked for, if any is.
pub open spec fn was_given(
    feedback: Seq<RunFeedback>,
    run: Key,
    keys: Seq<Seq<char>>,
    score: FeedbackScore,
) -> bool {
    &&& keys.len() > 0 ==> keys.contains(score.key@)
    &&& exists|i: int|
        0 <= i < feedback.len() && (#[trigger] feedback[i]).run@ == run && feedback[i].score
            == score
}

/// Whether a time is in the bucket that starts at `start`; buckets follow each other, each as
/// long as is asked for, and else an hour.
pub open spec fn is_in_bucket(time: int, start: int, length: Option<i64>) -> bool {
    let nanos: int = match length {
        Some(n) => if n >= 1 {
            n as int
        } else {
            1
        },
        None => 3_600_000_000_000,
    };
    start <= time < start + nanos && start % nanos == 0
}

/// Whether a text names the bucket that a time is in.
pub open spec fn names_bucket(text: Seq<char>, time: int, length: Option<i64>) -> bool {
    exists|start: int| text == #[trigger] int_text(start) && is_in_bucket(time, start, length)
}

/// Whether some score that a run was given is under this key.
pub open spec fn some_score_under(all: Grouped, key: Seq<char>) -> bool {
    exists|score: FeedbackScore|
        score.key@ == key && #[trigger] was_given(
            all.feedback,
            aggregate_key(all.row),
            all.query.feedback_keys,
            score,
        )
}

/// Whether a value is true of a run.
pub open spec fn is_value_of(group: RunAggregateGroup, value: Seq<char>, all: Grouped) -> bool {
    let row = all.row;
    match group {
        RunAggregateGroup::Project => value == row.project_name@,
        RunAggregateGroup::TimeBucket => names_bucket(
            value,
            row.start_time_unix_nano as int,
            all.query.time_bucket_nanos,
        ),
        RunAggregateGroup::RunType => value == row.run_type@,
        RunAggregateGroup::Tag => if is_tagged(all.tags, aggregate_key(row)) {
            has_tag(all.tags, aggregate_key(row), value)
        } else {
            value == "untagged"@
        },
        RunAggregateGroup::Model => match row.model_name {
            Some(name) => value == name@,
            None => value == "unknown"@,
        },
        RunAggregateGroup::Provider => match row.provider_name {
            Some(name) => value == name@,
            None => value == "unknown"@,
        },
        RunAggregateGroup::Error => value == (if row.status@ == "error"@ {
            "true"@
        } else {
            "false"@
        }),
        RunAggregateGroup::FeedbackKey => some_score_under(all, value),
    }
}

/// Whether an entry of a group says, of one of the things that runs are grouped by, what is true
/// of the run.
pub open spec fn is_due(entry: Entry, groups: Seq<RunAggregateGroup>, all: Grouped) -> bool {
    exists|group: RunAggregateGroup| #[trigger]
        groups.contains(group) && entry.key == word_of(group) && is_value_of(
            group,
            entry.value,
            all,
        )
}

/// Whether a group says something under a key.
pub open spec fn says(group: Seq<Entry>, key: Seq<char>) -> bool {
    exists|entry: Entry| #[trigger] group.contains(entry) && entry.key == key
}

/// Whether a group says of each of the things that runs are grouped by what is true of the run,
/// and nothing else.
pub open spec fn is_group_of(
    group: Seq<Entry>,
    groups: Seq<RunAggregateGroup>,
    all: Grouped,
) -> bool {
    &&& forall|entry: Entry| #[trigger] group.contains(entry) ==> is_due(entry, groups, all)
    &&& forall|one: RunAggregateGroup| #[trigger] groups.contains(one) ==> says(group, word_of(one))
}

/// Whether the only score that counts is the one whose key the group says.
pub open spec fn counts_its_score(variant: Variant) -> bool {
    variant.feedback.len() == 1 && variant.group.contains(
        Entry { key: "feedback_key"@, value: variant.feedback[0].key@ },
    )
}

proof fn lemma_words_differ(a: RunAggregateGroup, b: RunAggregateGroup)
    requires
        word_of(a) == word_of(b),
    ensures
        a == b,
{
    reveal_strlit("project_name");
    reveal_strlit("time_bucket_start_unix_nano");
    reveal_strlit("run_type");
    reveal_strlit("tag");
    reveal_strlit("model_name");
    reveal_strlit("provider_name");
    reveal_strlit("error");
    reveal_strlit("feedback_key");
    assert("project_name"@.len() == 12 && "project_name"@[0] == 'p');
    assert("time_bucket_start_unix_nano"@.len() == 27);
    assert("run_type"@.len() == 8);
    assert("tag"@.len() == 3);
    assert("model_name"@.len() == 10);
    assert("provider_name"@.len() == 13);
    assert("error"@.len() == 5);
    assert("feedback_key"@.len() == 12 && "feedback_key"@[0] == 'f');
}

proof fn lemma_with_entry(group: Seq<Entry>, key: Seq<char>, value: Seq<char>)
    ensures
        forall|entry: Entry| #[trigger]
            with_entry(group, key, value).contains(entry) ==> entry == (Entry { key, value })
                || group.contains(entry),
        with_entry(group, key, value).contains(Entry { key, value }),
        forall|entry: Entry| #[trigger]
            group.contains(entry) && entry.key != key ==> with_entry(group, key, value).contains(
                entry,
            ),
    decreases group.len(),
{
    let now = with_entry(group, key, value);
    let new = Entry { key, value };
    if group.len() == 0 || !text_less(key, group.last().key) {
        assert(now.last() == new);
        assert(now[now.len() - 1] == new);
        assert forall|entry: Entry| #[trigger] now.contains(entry) implies entry == new
            || group.contains(entry) by {
            let i = choose|i: int| 0 <= i < now.len() && now[i] == entry;
            if i < now.len() - 1 {
                assert(group[i] == entry);
            }
        }
        assert forall|entry: Entry| #[trigger]
            group.contains(entry) && entry.key != key implies now.contains(entry) by {
            let i = choose|i: int| 0 <= i < group.len() && group[i] == entry;
            assert(now[i] == entry);
        }
    } else {
        let rest = group.drop_last();
        let inner = with_entry(rest, key, value);
        lemma_with_entry(rest, key, value);
        assert(now =~= inner.push(group.last()));
        let n = choose|n: int| 0 <= n < inner.len() && inner[n] == new;
        assert(now[n] == new);
        assert forall|entry: Entry| #[trigger] now.contains(entry) implies entry == new
            || group.contains(entry) by {
            let i = choose|i: int| 0 <= i < now.len() && now[i] == entry;
            if i < inner.len() {
                assert(inner[i] == entry);
                assert(inner.contains(entry));
                if entry != new {
                    let k = choose|k: int| 0 <= k < rest.len() && rest[k] == entry;
                    assert(group[k] == entry);
                }
            } else {
                assert(group[group.len() - 1] == entry);
            }
        }
        assert forall|entry: Entry| #[trigger]
            group.contains(entry) && entry.key != key implies now.contains(entry) by {
            let i = choose|i: int| 0 <= i < group.len() && group[i] == entry;
            if i < rest.len() {
                assert(rest[i] == entry);
                assert(rest.contains(entry));
                let k = choose|k: int| 0 <= k < inner.len() && inner[k] == entry;
                assert(now[k] == entry);
            } else {
                assert(now[now.len() - 1] == entry);
            }
        }
    }
}

proof fn lemma_all_with_values(
    variants: Seq<Variant>,
    key: Seq<char>,
    values: Seq<Seq<char>>,
    made: Variant,
)
    requires
        all_with_values(variants, key, values).contains(made),
    ensures
        exists|variant: Variant, i: int|
            variants.contains(variant) && 0 <= i < values.len() && made == #[trigger] in_group(
                variant,
                key,
                values[i],
            ),
    decreases variants.len(),
{
    let rest = all_with_values(variants.drop_last(), key, values);
    let more = with_values(variants.last(), key, values);
    let n = choose|n: int|
        0 <= n < all_with_values(variants, key, values).len() && all_with_values(
            variants,
            key,
            values,
        )[n] == made;
    if n < rest.len() {
        assert(rest[n] == made);
        assert(rest.contains(made));
        lemma_all_with_values(variants.drop_last(), key, values, made);
        let (variant, i) = choose|variant: Variant, i: int|
            variants.drop_last().contains(variant) && 0 <= i < values.len() && made
                == #[trigger] in_group(variant, key, values[i]);
        let k = choose|k: int|
            0 <= k < variants.drop_last().len() && variants.drop_last()[k] == variant;
        assert(variants[k] == variant);
        assert(variants.contains(variant) && made == in_group(variant, key, values[i]));
    } else {
        let i = n - rest.len();
        assert(more[i] == made);
        assert(variants[variants.len() - 1] == variants.last());
        assert(variants.contains(variants.last()) && made == in_group(
            variants.last(),
            key,
            values[i],
        ));
    }
}

proof fn lemma_all_with_values_has(
    variants: Seq<Variant>,
    key: Seq<char>,
    values: Seq<Seq<char>>,
    k: int,
    i: int,
)
    requires
        0 <= k < variants.len(),
        0 <= i < values.len(),
    ensures
        all_with_values(variants, key, values).contains(in_group(variants[k], key, values[i])),
    decreases variants.len(),
{
    let rest = all_with_values(variants.drop_last(), key, values);
    let more = with_values(variants.last(), key, values);
    let all = all_with_values(variants, key, values);
    if k < variants.len() - 1 {
        lemma_all_with_values_has(variants.drop_last(), key, values, k, i);
        let made = in_group(variants[k], key, values[i]);
        let n = choose|n: int| 0 <= n < rest.len() && rest[n] == made;
        assert(all[n] == made);
    } else {
        assert(more[i] == in_group(variants[k], key, values[i]));
        assert(all[rest.len() + i] == more[i]);
    }
}

proof fn lemma_all_with_scores(variants: Seq<Variant>, scores: Seq<FeedbackScore>, made: Variant)
    requires
        all_with_scores(variants, scores).contains(made),
    ensures
        exists|variant: Variant, i: int|
            {
                &&& #[trigger] variants.contains(variant)
                &&& 0 <= i < scores.len()
                &&& made.feedback == seq![#[trigger] scores[i]]
                &&& made.group == with_entry(variant.group, "feedback_key"@, scores[i].key@)
            },
    decreases variants.len(),
{
    let rest = all_with_scores(variants.drop_last(), scores);
    let more = with_scores(variants.last(), scores);
    let all = all_with_scores(variants, scores);
    let n = choose|n: int| 0 <= n < all.len() && all[n] == made;
    if n < rest.len() {
        assert(rest[n] == made);
        assert(rest.contains(made));
        lemma_all_with_scores(variants.drop_last(), scores, made);
        let (variant, i) = choose|variant: Variant, i: int|
            {
                &&& #[trigger] variants.drop_last().contains(variant)
                &&& 0 <= i < scores.len()
                &&& made.feedback == seq![#[trigger] scores[i]]
                &&& made.group == with_entry(variant.group, "feedback_key"@, scores[i].key@)
            };
        let k = choose|k: int|
            0 <= k < variants.drop_last().len() && variants.drop_last()[k] == variant;
        assert(variants[k] == variant);
        assert(variants.contains(variant) && made.feedback == seq![scores[i]]);
    } else {
        let i = n - rest.len();
        assert(more[i] == made);
        assert(variants[variants.len() - 1] == variants.last());
        assert(variants.contains(variants.last()) && made.feedback == seq![scores[i]]);
    }
}

proof fn lemma_tags_of(tags: Seq<RunTag>, run: Key)
    ensures
        forall|tag: Seq<char>| #[trigger] tags_of(tags, run).contains(tag) <==> has_tag(
            tags,
            run,
            tag,
        ),
        tags_of(tags, run).len() > 0 <==> is_tagged(tags, run),
    decreases tags.len(),
{
    if tags.len() > 0 {
        let before = tags.drop_last();
        let rest = tags_of(before, run);
        let all = tags_of(tags, run);
        lemma_tags_of(before, run);
        assert forall|tag: Seq<char>| #[trigger] all.contains(tag) <==> has_tag(tags, run, tag) by {
            if all.contains(tag) {
                let i = choose|i: int| 0 <= i < all.len() && all[i] == tag;
                if i < rest.len() {
                    assert(rest[i] == tag);
                    assert(rest.contains(tag));
                    let k = choose|k: int|
                        0 <= k < before.len() && (#[trigger] before[k]).key@ == run
                            && before[k].tag@ == tag;
                    assert(tags[k].key@ == run);
                } else {
                    assert(tags[tags.len() - 1].key@ == run);
                }
            }
            if has_tag(tags, run, tag) {
                let k = choose|k: int|
                    0 <= k < tags.len() && (#[trigger] tags[k]).key@ == run && tags[k].tag@ == tag;
                if k < before.len() {
                    assert(before[k].key@ == run);
                    assert(rest.contains(tag));
                    let i = choose|i: int| 0 <= i < rest.len() && rest[i] == tag;
                    assert(all[i] == tag);
                } else {
                    assert(all[rest.len() as int] == tag);
                }
            }
        }
        if is_tagged(tags, run) {
            let k = choose|k: int| 0 <= k < tags.len() && (#[trigger] tags[k]).key@ == run;
            if k < before.len() {
                assert(before[k].key@ == run);
            }
        }
        if is_tagged(before, run) {
            let k = choose|k: int| 0 <= k < before.len() && (#[trigger] before[k]).key@ == run;
            assert(tags[k].key@ == run);
        }
        if tags.last().key@ == run {
            assert(tags[tags.len() - 1].key@ == run);
        }
    }
}

proof fn lemma_scores_of(feedback: Seq<RunFeedback>, run: Key, keys: Seq<Seq<char>>)
    ensures
        forall|score: FeedbackScore| #[trigger]
            scores_of(feedback, run, keys).contains(score) <==> was_given(
                feedback,
                run,
                keys,
                score,
            ),
    decreases feedback.len(),
{
    if feedback.len() > 0 {
        let before = feedback.drop_last();
        let rest = scores_of(before, run, keys);
        let all = scores_of(feedback, run, keys);
        lemma_scores_of(before, run, keys);
        assert forall|score: FeedbackScore| #[trigger] all.contains(score) <==> was_given(
            feedback,
            run,
            keys,
            score,
        ) by {
            if all.contains(score) {
                let i = choose|i: int| 0 <= i < all.len() && all[i] == score;
                if i < rest.len() {
                    assert(rest[i] == score);
                    assert(rest.contains(score));
                    let k = choose|k: int|
                        0 <= k < before.len() && (#[trigger] before[k]).run@ == run
                            && before[k].score == score;
                    assert(feedback[k].run@ == run);
                } else {
                    assert(feedback[feedback.len() - 1].run@ == run);
                }
            }
            if was_given(feedback, run, keys, score) {
                let k = choose|k: int|
                    0 <= k < feedback.len() && (#[trigger] feedback[k]).run@ == run
                        && feedback[k].score == score;
                if k < before.len() {
                    assert(before[k].run@ == run);
                    assert(rest.contains(score));
                    let i = choose|i: int| 0 <= i < rest.len() && rest[i] == score;
                    assert(all[i] == score);
                } else {
                    assert(all[rest.len() as int] == score);
                }
            }
        }
    }
}

/// The values that a run is grouped under, of all but its scores.
spec fn values_of(group: RunAggregateGroup, all: Grouped) -> Seq<Seq<char>> {
    let row = all.row;
    match group {
        RunAggregateGroup::Project => seq![row.project_name@],
        RunAggregateGroup::TimeBucket => seq![
            int_text(time_bucket_of(row.start_time_unix_nano, all.query.time_bucket_nanos)),
        ],
        RunAggregateGroup::RunType => seq![row.run_type@],
        RunAggregateGroup::Tag => tag_groups(all.tags, aggregate_key(row)),
        RunAggregateGroup::Model => seq![known_or(row.model_name, "unknown"@)],
        RunAggregateGroup::Provider => seq![known_or(row.provider_name, "unknown"@)],
        _ => seq![
            if row.status@ == "error"@ {
                "true"@
            } else {
                "false"@
            },
        ],
    }
}

proof fn lemma_values_of(group: RunAggregateGroup, all: Grouped, i: int)
    requires
        group != RunAggregateGroup::FeedbackKey,
        0 <= i < values_of(group, all).len(),
    ensures
        is_value_of(group, values_of(group, all)[i], all),
{
    let row = all.row;
    if group == RunAggregateGroup::TimeBucket {
        let length = bucket_length(all.query.time_bucket_nanos);
        let start = time_bucket_of(row.start_time_unix_nano, all.query.time_bucket_nanos);
        law_bucket_holds_its_time(row.start_time_unix_nano as int, length as int);
        assert(is_in_bucket(
            row.start_time_unix_nano as int,
            start,
            all.query.time_bucket_nanos,
        ));
        assert(values_of(group, all)[i] == int_text(start));
    } else if group == RunAggregateGroup::Tag {
        let run = aggregate_key(row);
        lemma_tags_of(all.tags, run);
        if tags_of(all.tags, run).len() > 0 {
            assert(tags_of(all.tags, run).contains(tags_of(all.tags, run)[i]));
        }
    }
}

proof fn lemma_expanded(variants: Seq<Variant>, group: RunAggregateGroup, all: Grouped)
    requires
        group != RunAggregateGroup::FeedbackKey,
    ensures
        expanded(variants, group, all.row, all.query, all.tags, all.feedback) == all_with_values(
            variants,
            word_of(group),
            values_of(group, all),
        ),
{
}

proof fn lemma_group_with(
    group: Seq<Entry>,
    groups: Seq<RunAggregateGroup>,
    one: RunAggregateGroup,
    value: Seq<char>,
    all: Grouped,
)
    requires
        is_group_of(group, groups, all),
        is_value_of(one, value, all),
    ensures
        is_group_of(with_entry(group, word_of(one), value), groups.push(one), all),
{
    let key = word_of(one);
    let now = with_entry(group, key, value);
    let more = groups.push(one);
    lemma_with_entry(group, key, value);
    assert(more[groups.len() as int] == one);
    assert(more.contains(one));
    assert forall|entry: Entry| #[trigger] now.contains(entry) implies is_due(entry, more, all) by {
        if entry != (Entry { key, value }) {
            assert(group.contains(entry));
            let g = choose|g: RunAggregateGroup| #[trigger]
                groups.contains(g) && entry.key == word_of(g) && is_value_of(g, entry.value, all);
            let k = choose|k: int| 0 <= k < groups.len() && groups[k] == g;
            assert(more[k] == g);
            assert(more.contains(g));
        }
    }
    assert forall|g: RunAggregateGroup| #[trigger] more.contains(g) implies says(
        now,
        word_of(g),
    ) by {
        if g == one {
            assert(now.contains(Entry { key, value }));
        } else {
            let k = choose|k: int| 0 <= k < more.len() && more[k] == g;
            assert(groups[k] == g);
            assert(groups.contains(g));
            assert(says(group, word_of(g)));
            let entry = choose|entry: Entry| #[trigger]
                group.contains(entry) && entry.key == word_of(g);
            if entry.key == key {
                lemma_words_differ(g, one);
            }
            assert(now.contains(entry));
        }
    }
}

proof fn lemma_grouped(groups: Seq<RunAggregateGroup>, all: Grouped, made: Variant)
    requires
        grouped(groups, all.row, all.query, all.tags, all.feedback).contains(made),
    ensures
        is_group_of(made.group, groups, all),
        groups.contains(RunAggregateGroup::FeedbackKey) ==> counts_its_score(made),
        !groups.contains(RunAggregateGroup::FeedbackKey) ==> made.feedback.len() == 0,
    decreases groups.len(),
{
    if groups.len() > 0 {
        let one = groups.last();
        let before = groups.drop_last();
        let variants = grouped(before, all.row, all.query, all.tags, all.feedback);
        assert(groups =~= before.push(one));
        if one == RunAggregateGroup::FeedbackKey {
            let scores = scores_of(
                all.feedback,
                aggregate_key(all.row),
                all.query.feedback_keys,
            );
            lemma_all_with_scores(variants, scores, made);
            let (variant, i) = choose|variant: Variant, i: int|
                {
                    &&& #[trigger] variants.contains(variant)
                    &&& 0 <= i < scores.len()
                    &&& made.feedback == seq![#[trigger] scores[i]]
                    &&& made.group == with_entry(variant.group, "feedback_key"@, scores[i].key@)
                };
            lemma_grouped(before, all, variant);
            lemma_scores_of(all.feedback, aggregate_key(all.row), all.query.feedback_keys);
            assert(scores.contains(scores[i]));
            assert(is_value_of(one, scores[i].key@, all));
            lemma_group_with(variant.group, before, one, scores[i].key@, all);
            lemma_with_entry(variant.group, "feedback_key"@, scores[i].key@);
            assert(groups[groups.len() - 1] == one);
            assert(groups.contains(one));
        } else {
            let values = values_of(one, all);
            lemma_expanded(variants, one, all);
            lemma_all_with_values(variants, word_of(one), values, made);
            let (variant, i) = choose|variant: Variant, i: int|
                variants.contains(variant) && 0 <= i < values.len() && made == #[trigger] in_group(
                    variant,
                    word_of(one),
                    values[i],
                );
            lemma_grouped(before, all, variant);
            lemma_values_of(one, all, i);
            lemma_group_with(variant.group, before, one, values[i], all);
            lemma_with_entry(variant.group, word_of(one), values[i]);
            let score = RunAggregateGroup::FeedbackKey;
            if word_of(one) == word_of(score) {
                lemma_words_differ(one, score);
            }
            if groups.contains(score) {
                let k = choose|k: int| 0 <= k < groups.len() && groups[k] == score;
                assert(before[k] == score);
                assert(before.contains(score));
            }
            if before.contains(score) {
                let k = choose|k: int| 0 <= k < before.len() && before[k] == score;
                assert(groups[k] == score);
            }
        }
    }
}

/// A group in which a run counts says of the run what is true of it: its project, its type, the
/// bucket of its start, whether it failed, its model and provider, if they are known, and one of
/// its tags and one of the keys under which it was given a score. It says so for each of the
/// things that runs are grouped by, and for nothing else. Grouped by the keys of scores, the run
/// counts with the score of that key; and else with all its scores that are asked for.
pub proof fn law_groups_say_what_is_true(all: Grouped, i: int)
    requires
        0 <= i < variants_of_run(all.row, all.query, all.tags, all.feedback).len(),
    ensures
        ({
            let variant = variants_of_run(all.row, all.query, all.tags, all.feedback)[i];
            &&& is_group_of(variant.group, all.query.group_by, all)
            &&& all.query.group_by.contains(RunAggregateGroup::FeedbackKey) ==> counts_its_score(
                variant,
            )
            &&& !all.query.group_by.contains(RunAggregateGroup::FeedbackKey) ==> forall|
                score: FeedbackScore,
            | #[trigger]
                variant.feedback.contains(score) <==> all.query.feedback_keys.len() > 0
                    && was_given(
                    all.feedback,
                    aggregate_key(all.row),
                    all.query.feedback_keys,
                    score,
                )
        }),
{
    let groups = all.query.group_by;
    let variants = grouped(groups, all.row, all.query, all.tags, all.feedback);
    assert(variants.contains(variants[i]));
    lemma_grouped(groups, all, variants[i]);
    lemma_scores_of(all.feedback, aggregate_key(all.row), all.query.feedback_keys);
    let variant = variants_of_run(all.row, all.query, all.tags, all.feedback)[i];
    let scores = scores_of(all.feedback, aggregate_key(all.row), all.query.feedback_keys);
    if !groups.contains(RunAggregateGroup::FeedbackKey) {
        if all.query.feedback_keys.len() > 0 {
            assert(variant == with_feedback(variants[i], scores));
            assert(variant.feedback =~= scores);
        }
        assert forall|score: FeedbackScore| #[trigger] variant.feedback.contains(score) <==> all.query.feedback_keys.len() > 0 && was_given(
            all.feedback,
            aggregate_key(all.row),
            all.query.feedback_keys,
            score,
        ) by {
            assert(scores.contains(score) <==> was_given(
                all.feedback,
                aggregate_key(all.row),
                all.query.feedback_keys,
                score,
            ));
        }
    }
}

proof fn lemma_each_tag(groups: Seq<RunAggregateGroup>, all: Grouped, tag: Seq<char>)
    requires
        !groups.contains(RunAggregateGroup::FeedbackKey),
        has_tag(all.tags, aggregate_key(all.row), tag),
    ensures
        grouped(groups, all.row, all.query, all.tags, all.feedback).len() > 0,
        groups.contains(RunAggregateGroup::Tag) ==> exists|i: int|
            0 <= i < grouped(groups, all.row, all.query, all.tags, all.feedback).len() && (
            #[trigger] grouped(
                groups,
                all.row,
                all.query,
                all.tags,
                all.feedback,
            )[i]).group.contains(Entry { key: "tag"@, value: tag }),
    decreases groups.len(),
{
    if groups.len() > 0 {
        let one = groups.last();
        let before = groups.drop_last();
        let run = aggregate_key(all.row);
        let variants = grouped(before, all.row, all.query, all.tags, all.feedback);
        let now = grouped(groups, all.row, all.query, all.tags, all.feedback);
        let values = values_of(one, all);
        let entry = Entry { key: "tag"@, value: tag };
        assert(groups[groups.len() - 1] == one);
        assert(groups.contains(one));
        assert forall|g: RunAggregateGroup| #[trigger] before.contains(g) implies groups.contains(
            g,
        ) by {
            let k = choose|k: int| 0 <= k < before.len() && before[k] == g;
            assert(groups[k] == g);
        }
        lemma_each_tag(before, all, tag);
        lemma_expanded(variants, one, all);
        lemma_tags_of(all.tags, run);
        assert(tags_of(all.tags, run).contains(tag));
        if one == RunAggregateGroup::Tag {
            let i = choose|i: int| 0 <= i < values.len() && values[i] == tag;
            let made = in_group(variants[0], word_of(one), values[i]);
            lemma_all_with_values_has(variants, word_of(one), values, 0, i);
            lemma_with_entry(variants[0].group, word_of(one), values[i]);
            let n = choose|n: int| 0 <= n < now.len() && now[n] == made;
            assert(now[n].group.contains(entry));
        } else {
            lemma_all_with_values_has(variants, word_of(one), values, 0, 0);
            if groups.contains(RunAggregateGroup::Tag) {
                let t = choose|t: int| 0 <= t < groups.len() && groups[t] == RunAggregateGroup::Tag;
                assert(before[t] == RunAggregateGroup::Tag);
                assert(before.contains(RunAggregateGroup::Tag));
                let k = choose|k: int|
                    0 <= k < variants.len() && (#[trigger] variants[k]).group.contains(entry);
                let made = in_group(variants[k], word_of(one), values[0]);
                lemma_all_with_values_has(variants, word_of(one), values, k, 0);
                lemma_with_entry(variants[k].group, word_of(one), values[0]);
                if word_of(one) == "tag"@ {
                    lemma_words_differ(one, RunAggregateGroup::Tag);
                }
                let n = choose|n: int| 0 <= n < now.len() && now[n] == made;
                assert(now[n].group.contains(entry));
            }
        }
    }
}

/// Grouped by tags, a run counts in a group of each of its tags.
pub proof fn law_each_tag_has_its_group(all: Grouped, tag: Seq<char>)
    requires
        all.query.group_by.contains(RunAggregateGroup::Tag),
        !all.query.group_by.contains(RunAggregateGroup::FeedbackKey),
        has_tag(all.tags, aggregate_key(all.row), tag),
    ensures
        exists|i: int|
            0 <= i < variants_of_run(all.row, all.query, all.tags, all.feedback).len() && (
            #[trigger] variants_of_run(
                all.row,
                all.query,
                all.tags,
                all.feedback,
            )[i]).group.contains(Entry { key: "tag"@, value: tag }),
{
    let variants = grouped(all.query.group_by, all.row, all.query, all.tags, all.feedback);
    lemma_each_tag(all.query.group_by, all, tag);
    let i = choose|i: int|
        0 <= i < variants.len() && (#[trigger] variants[i]).group.contains(
            Entry { key: "tag"@, value: tag },
        );
    assert(variants_of_run(all.row, all.query, all.tags, all.feedback)[i].group
        == variants[i].group);
}

/// The runs of a group, each with what is said of it.
pub open spec fn rows_in(counted: Seq<Counted>) -> Seq<AggregateRunRow> {
    counted.map_values(|one: Counted| one.row)
}

/// The integers that are said of runs, of those of which one is said.
pub open spec fn said(rows: Seq<AggregateRunRow>, what: spec_fn(AggregateRunRow) -> Option<i64>) -> Seq<
    i64,
>
    decreases rows.len(),
{
    if rows.len() == 0 {
        Seq::empty()
    } else {
        match what(rows.last()) {
            Some(n) => said(rows.drop_last(), what).push(n),
            None => said(rows.drop_last(), what),
        }
    }
}

/// The finite numbers that are said of runs, of those of which one is said.
pub open spec fn said_finite(
    rows: Seq<AggregateRunRow>,
    what: spec_fn(AggregateRunRow) -> Option<Float>,
) -> Seq<Float>
    decreases rows.len(),
{
    if rows.len() == 0 {
        Seq::empty()
    } else {
        match what(rows.last()) {
            Some(number) => if finite(number) {
                said_finite(rows.drop_last(), what).push(number)
            } else {
                said_finite(rows.drop_last(), what)
            },
            None => said_finite(rows.drop_last(), what),
        }
    }
}

proof fn lemma_said(
    counted: Seq<Counted>,
    metric: IntegerMetric,
    what: spec_fn(AggregateRunRow) -> Option<i64>,
)
    requires
        forall|row: AggregateRunRow| #[trigger] what(row) == integer_metric(row, metric),
    ensures
        integers_of(counted, metric) == said(rows_in(counted), what),
    decreases counted.len(),
{
    if counted.len() > 0 {
        lemma_said(counted.drop_last(), metric, what);
        assert(rows_in(counted.drop_last()) =~= rows_in(counted).drop_last());
    }
}

proof fn lemma_said_finite(
    counted: Seq<Counted>,
    metric: FloatMetric,
    what: spec_fn(AggregateRunRow) -> Option<Float>,
)
    requires
        forall|row: AggregateRunRow| #[trigger] what(row) == float_metric(row, metric),
    ensures
        floats_of(counted, metric) == said_finite(rows_in(counted), what),
    decreases counted.len(),
{
    if counted.len() > 0 {
        lemma_said_finite(counted.drop_last(), metric, what);
        assert(rows_in(counted.drop_last()) =~= rows_in(counted).drop_last());
    }
}

/// Whether these stats are what is to be said of integers.
pub open spec fn tell(
    stats: Option<NumericStats<i64>>,
    numbers: Seq<i64>,
    percentiles: bool,
) -> bool {
    are_stats_of(stats, stable_sort(numbers, integer_order()), percentiles)
}

/// Whether these stats are what is to be said of numbers.
pub open spec fn tell_finite(stats: Option<NumericStats<Float>>, numbers: Seq<Float>) -> bool {
    are_stats_of(stats, stable_sort(numbers, float_order()), false)
}

/// What is said of a group is said of what it is named after: of the latencies of its runs, of
/// the tokens and the costs of their prompts, of their completions and of both, of the time to
/// their first token and of their evaluators' scores. Percentiles are said of times alone.
pub proof fn law_metrics_are_of_the_runs(metrics: RunAggregateMetrics, counted: Seq<Counted>)
    requires
        are_metrics_of(metrics, counted),
    ensures
        ({
            let rows = rows_in(counted);
            &&& metrics.count == rows.len()
            &&& tell(
                metrics.latency_nanos,
                said(rows, |row: AggregateRunRow| Some(row.latency_nanos)),
                true,
            )
            &&& tell(
                metrics.first_token_latency_nanos,
                said(rows, |row: AggregateRunRow| row.first_token_latency_nanos),
                true,
            )
            &&& tell(
                metrics.prompt_tokens,
                said(rows, |row: AggregateRunRow| row.prompt_tokens),
                false,
            )
            &&& tell(
                metrics.completion_tokens,
                said(rows, |row: AggregateRunRow| row.completion_tokens),
                false,
            )
            &&& tell(
                metrics.total_tokens,
                said(rows, |row: AggregateRunRow| row.total_tokens),
                false,
            )
            &&& tell_finite(
                metrics.prompt_cost,
                said_finite(rows, |row: AggregateRunRow| row.prompt_cost),
            )
            &&& tell_finite(
                metrics.completion_cost,
                said_finite(rows, |row: AggregateRunRow| row.completion_cost),
            )
            &&& tell_finite(
                metrics.total_cost,
                said_finite(rows, |row: AggregateRunRow| row.total_cost),
            )
            &&& tell_finite(
                metrics.evaluator_score,
                said_finite(rows, |row: AggregateRunRow| row.evaluator_score),
            )
        }),
{
    lemma_said(
        counted,
        IntegerMetric::Latency,
        |row: AggregateRunRow| Some(row.latency_nanos),
    );
    lemma_said(
        counted,
        IntegerMetric::FirstTokenLatency,
        |row: AggregateRunRow| row.first_token_latency_nanos,
    );
    lemma_said(counted, IntegerMetric::PromptTokens, |row: AggregateRunRow| row.prompt_tokens);
    lemma_said(
        counted,
        IntegerMetric::CompletionTokens,
        |row: AggregateRunRow| row.completion_tokens,
    );
    lemma_said(counted, IntegerMetric::TotalTokens, |row: AggregateRunRow| row.total_tokens);
    lemma_said_finite(counted, FloatMetric::PromptCost, |row: AggregateRunRow| row.prompt_cost);
    lemma_said_finite(
        counted,
        FloatMetric::CompletionCost,
        |row: AggregateRunRow| row.completion_cost,
    );
    lemma_said_finite(counted, FloatMetric::TotalCost, |row: AggregateRunRow| row.total_cost);
    lemma_said_finite(
        counted,
        FloatMetric::EvaluatorScore,
        |row: AggregateRunRow| row.evaluator_score,
    );
}

proof fn lemma_errors_in(counted: Seq<Counted>)
    ensures
        errors_in(counted) == counted.filter(|one: Counted| one.row.status@ == "error"@).len(),
    decreases counted.len(),
{
    reveal(Seq::filter);
    if counted.len() > 0 {
        lemma_errors_in(counted.drop_last());
    }
}

/// The errors of a group are those of its runs whose status says so.
pub proof fn law_errors_are_counted(metrics: RunAggregateMetrics, counted: Seq<Counted>)
    requires
        are_metrics_of(metrics, counted),
    ensures
        metrics.error_count == counted.filter(|one: Counted| one.row.status@ == "error"@).len(),
{
    lemma_errors_in(counted);
}

proof fn lemma_scores_under(scores: Seq<FeedbackScore>, key: Seq<char>)
    ensures
        scores_under(scores, key) == scores.filter(
            |one: FeedbackScore| one.key@ == key && finite(one.score),
        ).map_values(|one: FeedbackScore| one.score),
    decreases scores.len(),
{
    reveal(Seq::filter);
    let keeps = |one: FeedbackScore| one.key@ == key && finite(one.score);
    let score = |one: FeedbackScore| one.score;
    if scores.len() > 0 {
        let before = scores.drop_last();
        lemma_scores_under(before, key);
        let rest = before.filter(keeps);
        if keeps(scores.last()) {
            assert(rest.push(scores.last()).map_values(score) =~= rest.map_values(score).push(
                scores.last().score,
            ));
        }
    } else {
        assert(scores.filter(keeps).map_values(score) =~= Seq::<Float>::empty());
    }
}

/// The scores under a key, of those that count in a group, are said as the finite scores of that
/// key; and there is something said of just the keys that there are.
pub proof fn law_scores_are_of_their_key(
    metrics: RunAggregateMetrics,
    counted: Seq<Counted>,
    key: Seq<char>,
)
    requires
        are_metrics_of(metrics, counted),
    ensures
        ({
            let scores = scores_in(counted);
            let told = metrics.feedback_scores@;
            &&& (exists|i: int| 0 <= i < told.len() && (#[trigger] told[i]).key@ == key) <==> (
            exists|j: int| 0 <= j < scores.len() && (#[trigger] scores[j]).key@ == key)
            &&& forall|i: int|
                0 <= i < told.len() && (#[trigger] told[i]).key@ == key ==> are_score_stats_of(
                    told[i].stats,
                    stable_sort(
                        scores.filter(
                            |one: FeedbackScore| one.key@ == key && finite(one.score),
                        ).map_values(|one: FeedbackScore| one.score),
                        float_order(),
                    ),
                )
        }),
{
    let scores = scores_in(counted);
    let told = metrics.feedback_scores@;
    let keys = score_keys(scores);
    let ordered = ordered_set(keys, text_order());
    law_text_order();
    law_ordered_set_holds_its_elements(keys, text_order());
    lemma_scores_under(scores, key);
    if exists|i: int| 0 <= i < told.len() && (#[trigger] told[i]).key@ == key {
        let i = choose|i: int| 0 <= i < told.len() && (#[trigger] told[i]).key@ == key;
        assert(ordered[i] == key);
        assert(ordered.contains(key));
        let j = choose|j: int| 0 <= j < keys.len() && keys[j] == key;
        assert(scores[j].key@ == key);
    }
    if exists|j: int| 0 <= j < scores.len() && (#[trigger] scores[j]).key@ == key {
        let j = choose|j: int| 0 <= j < scores.len() && (#[trigger] scores[j]).key@ == key;
        assert(keys[j] == key);
        assert(keys.contains(key));
        assert(ordered.contains(key));
        let i = choose|i: int| 0 <= i < ordered.len() && ordered[i] == key;
        assert(told[i].key@ == key);
    }
}

/// A rollup of a kind counts the runs of an hour and a project in the groups in which runs are
/// counted that are grouped by what that kind is for.
pub proof fn law_rollups_are_of_their_groups(
    rollup: RunRollup,
    kind: RollupKind,
    query: AggregateQuery,
)
    requires
        rollup.rollup_kind@ == rollup_word(kind),
        kind != RollupKind::Feedback,
        is_rollup_kind(query, kind),
    ensures
        ({
            let group = rollup_group(rollup);
            &&& group.contains(
                Entry {
                    key: word_of(RunAggregateGroup::Project),
                    value: rollup.project_name@,
                },
            )
            &&& group.contains(
                Entry {
                    key: word_of(RunAggregateGroup::TimeBucket),
                    value: int_text(rollup.time_bucket_start_unix_nano as int),
                },
            )
            &&& forall|one: RunAggregateGroup| #[trigger]
                query.group_by.contains(one) && one != RunAggregateGroup::Project && one
                    != RunAggregateGroup::TimeBucket ==> group.contains(
                    Entry { key: word_of(one), value: rollup.group_value@ },
                )
        }),
{
    let hour = rollup_hour(rollup.project_name@, rollup.time_bucket_start_unix_nano);
    let empty = Seq::<Entry>::empty();
    let bucket = int_text(rollup.time_bucket_start_unix_nano as int);
    let project = word_of(RunAggregateGroup::Project);
    let time = word_of(RunAggregateGroup::TimeBucket);
    reveal_strlit("project");
    reveal_strlit("run_type");
    reveal_strlit("model");
    reveal_strlit("error");
    assert("project"@.len() == 7);
    assert("run_type"@.len() == 8);
    assert("model"@.len() == 5 && "model"@[0] == 'm');
    assert("error"@.len() == 5 && "error"@[0] == 'e');
    lemma_with_entry(empty, project, rollup.project_name@);
    lemma_with_entry(with_entry(empty, project, rollup.project_name@), time, bucket);
    if project == time {
        lemma_words_differ(RunAggregateGroup::Project, RunAggregateGroup::TimeBucket);
    }
    assert(hour.contains(Entry { key: project, value: rollup.project_name@ }));
    assert(hour.contains(Entry { key: time, value: bucket }));
    match third_group(kind) {
        Some(third) => {
            lemma_with_entry(hour, word_of(third), rollup.group_value@);
            if word_of(third) == project {
                lemma_words_differ(third, RunAggregateGroup::Project);
            }
            if word_of(third) == time {
                lemma_words_differ(third, RunAggregateGroup::TimeBucket);
            }
        },
        None => {},
    }
}

/// A rollup answers a query only where it leaves out no run that the query asks for and counts
/// none that it does not: runs are not told apart by a filter, deleted runs are not counted, and
/// type and error are only asked of rollups that tell runs apart by them.
pub proof fn law_rollups_answer_what_they_count(query: AggregateQuery, kind: RollupKind)
    requires
        answers(query, kind),
    ensures
        runs_of(query).filter is None && runs_of(query).trace_filter is None,
        runs_of(query).tree_filter is None && !runs_of(query).include_deleted,
        query.run_type is Some ==> query.group_by.contains(RunAggregateGroup::RunType),
        query.error is Some ==> query.group_by.contains(RunAggregateGroup::Error),
        query.group_by.contains(RunAggregateGroup::Project),
        query.group_by.contains(RunAggregateGroup::TimeBucket),
        !query.group_by.contains(RunAggregateGroup::Tag),
        !query.group_by.contains(RunAggregateGroup::Provider),
        forall|time: int, start: int| #[trigger]
            is_in_bucket(time, start, query.time_bucket_nanos) <==> is_in_bucket(time, start, None),
{
}

/// A query for an aggregate asks for the runs that it names, and for no others.
pub proof fn law_aggregate_asks_for_its_runs(query: AggregateQuery, stored: StoredRun)
    ensures
        is_wanted(runs_of(query), stored) <==> {
            let run = stored.run;
            &&& query.project_names.len() > 0 ==> query.project_names.contains(run.project_name@)
            &&& query.run_type matches Some(word) ==> run.run_type@ == word
            &&& query.error matches Some(flag) ==> (run.status@ == "error"@) == flag
            &&& query.start_time_min_unix_nano matches Some(time) ==> time
                <= run.start_time_unix_nano
            &&& query.start_time_max_unix_nano matches Some(time) ==> run.start_time_unix_nano
                <= time
            &&& !stored.is_replaced
            &&& query.include_deleted || !(stored.is_marked || stored.is_on_record)
        },
        runs_of(query).filter == query.filter,
        runs_of(query).trace_filter == query.trace_filter,
        runs_of(query).tree_filter == query.tree_filter,
        runs_of(query).limits == query.limits,
        runs_of(query).limit is None && runs_of(query).offset is None,
        !runs_of(query).include_payload,
{
}

} // verus!
