//! Runs in groups, and what is said of each group.

use crate::float::Float;
use crate::float::finite;
use crate::float::float_order;
use crate::query::Key;
use crate::query::RunKey;
use crate::query::aggregates::AGGREGATE_ROLLUP_BUCKET_UNIX_NANOS;
use crate::query::aggregates::AggregateQuery;
use crate::query::aggregates::RunAggregateGroup;
use crate::query::aggregates::RunAggregateQuery;
use crate::query::aggregates::stats::FeedbackScoreStats;
use crate::query::aggregates::stats::NumericStats;
use crate::query::aggregates::stats::are_score_stats_of;
use crate::query::aggregates::stats::are_stats_of;
use crate::query::aggregates::stats::float_stats;
use crate::query::aggregates::stats::integer_order;
use crate::query::aggregates::stats::integer_stats;
use crate::query::aggregates::stats::score_stats;
use crate::sorting::insert_distinct;
use crate::sorting::law_ordered_set_holds_its_elements;
use crate::sorting::lemma_ordered_insert_map;
use crate::sorting::ordered_set;
use crate::sorting::stable_sort;
use crate::sorting::total_order;
use crate::text::insert_text;
use crate::text::int_text;
use crate::text::integer_text;
use crate::text::is_in;
use crate::text::is_less;
use crate::text::law_text_order_is_total;
use crate::text::law_text_order_is_transitive;
use crate::text::no_texts;
use crate::text::one_text;
use crate::text::opt_text;
use crate::text::push_text;
use crate::text::same;
use crate::text::text_less;
use crate::text::text_order;
use crate::text::texts;
use crate::time::bucket_start;
use crate::time::bucket_start_of;
use crate::time::law_bucket_holds_its_time;
use vstd::prelude::*;

verus! {

/// A run as an aggregate reads it.
#[derive(Debug, PartialEq, Eq)]
pub struct AggregateRunRow {
    pub project_name: String,
    pub trace_id: String,
    pub span_id: String,
    pub run_type: String,
    pub status: String,
    pub start_time_unix_nano: i64,
    pub latency_nanos: i64,
    pub prompt_tokens: Option<i64>,
    pub completion_tokens: Option<i64>,
    pub total_tokens: Option<i64>,
    pub prompt_cost: Option<Float>,
    pub completion_cost: Option<Float>,
    pub total_cost: Option<Float>,
    pub first_token_latency_nanos: Option<i64>,
    pub evaluator_score: Option<Float>,
    pub model_name: Option<String>,
    pub provider_name: Option<String>,
}

/// The key of a run.
pub open spec fn aggregate_key(row: AggregateRunRow) -> Key {
    Key { project_name: row.project_name@, trace_id: row.trace_id@, span_id: row.span_id@ }
}

impl AggregateRunRow {
    /// The key of the run.
    pub fn run_key(&self) -> (r: RunKey)
        ensures
            r@ == aggregate_key(*self),
    {
        RunKey {
            project_name: self.project_name.clone(),
            trace_id: self.trace_id.clone(),
            span_id: self.span_id.clone(),
        }
    }

    /// Whether the run has this key.
    pub fn has_key(&self, key: &RunKey) -> (r: bool)
        ensures
            r == (aggregate_key(*self) == key@),
    {
        same(self.project_name.as_str(), key.project_name.as_str()) && same(
            self.trace_id.as_str(),
            key.trace_id.as_str(),
        ) && same(self.span_id.as_str(), key.span_id.as_str())
    }
}

/// A tag of a run.
#[derive(Debug, PartialEq, Eq)]
pub struct RunTag {
    pub key: RunKey,
    pub tag: String,
}

/// A score under a feedback key.
#[derive(Debug, PartialEq, Eq)]
pub struct FeedbackScore {
    pub key: String,
    pub score: Float,
}

impl Clone for FeedbackScore {
    fn clone(&self) -> (r: Self)
        ensures
            r == *self,
    {
        FeedbackScore { key: self.key.clone(), score: self.score }
    }
}

/// A score that a run was given.
#[derive(Debug, PartialEq, Eq)]
pub struct RunFeedback {
    pub run: RunKey,
    pub score: FeedbackScore,
}

/// One of the values that make a group.
#[derive(Debug, PartialEq, Eq)]
pub struct GroupEntry {
    pub key: String,
    pub value: String,
}

/// What a [`GroupEntry`] holds.
pub struct Entry {
    pub key: Seq<char>,
    pub value: Seq<char>,
}

impl View for GroupEntry {
    type V = Entry;

    open spec fn view(&self) -> Entry {
        Entry { key: self.key@, value: self.value@ }
    }
}

impl Clone for GroupEntry {
    fn clone(&self) -> (r: Self)
        ensures
            r == *self,
    {
        GroupEntry { key: self.key.clone(), value: self.value.clone() }
    }
}

pub open spec fn entries_of(group: Seq<GroupEntry>) -> Seq<Entry> {
    group.map_values(|entry: GroupEntry| entry@)
}

/// The group with a value under a key, in the order of keys. A value that was
/// there is replaced.
pub open spec fn with_entry(group: Seq<Entry>, key: Seq<char>, value: Seq<char>) -> Seq<Entry>
    decreases group.len(),
{
    if group.len() == 0 {
        seq![Entry { key, value }]
    } else if text_less(key, group.last().key) {
        with_entry(group.drop_last(), key, value).push(group.last())
    } else if key == group.last().key {
        group.drop_last().push(Entry { key, value })
    } else {
        group.push(Entry { key, value })
    }
}

fn put_entry(group: &Vec<GroupEntry>, key: &str, value: &str) -> (r: Vec<GroupEntry>)
    ensures
        entries_of(r@) == with_entry(entries_of(group@), key@, value@),
{
    let ghost all = entries_of(group@);
    let mut j: usize = group.len();
    assert(all.take(j as int) =~= all);
    assert(all.skip(j as int) =~= Seq::<Entry>::empty());
    assert(with_entry(all, key@, value@) =~= with_entry(all.take(j as int), key@, value@)
        + all.skip(j as int));
    while j > 0 && is_less(key, group[j - 1].key.as_str())
        invariant
            j <= group.len(),
            all == entries_of(group@),
            with_entry(all, key@, value@) == with_entry(all.take(j as int), key@, value@)
                + all.skip(j as int),
        decreases j,
    {
        let ghost part = all.take(j as int);
        assert(part.last() == group@[j - 1]@);
        assert(part.drop_last() =~= all.take(j - 1));
        assert(with_entry(part, key@, value@) + all.skip(j as int) =~= with_entry(
            all.take(j - 1),
            key@,
            value@,
        ) + all.skip(j - 1));
        j -= 1;
    }
    let ghost part = all.take(j as int);
    assert(j > 0 ==> part.last() == group@[j - 1]@);
    let replaces = j > 0 && same(group[j - 1].key.as_str(), key);
    let kept: usize = if replaces {
        j - 1
    } else {
        j
    };
    let mut out: Vec<GroupEntry> = Vec::new();
    let mut i: usize = 0;
    while i < kept
        invariant
            i <= kept <= group.len(),
            all == entries_of(group@),
            entries_of(out@) =~= all.take(i as int),
        decreases kept - i,
    {
        let ghost before = out@;
        out.push(group[i].clone());
        assert(entries_of(out@) =~= entries_of(before).push(all[i as int]));
        i += 1;
    }
    out.push(GroupEntry { key: key.to_owned(), value: value.to_owned() });
    let ghost head = all.take(kept as int).push(Entry { key: key@, value: value@ });
    assert(entries_of(out@) =~= head);
    proof {
        if replaces {
            assert(part.drop_last() =~= all.take(kept as int));
        }
        if j == 0 {
            assert(head =~= seq![Entry { key: key@, value: value@ }]);
        }
        assert(head =~= with_entry(part, key@, value@));
    }
    let mut k: usize = j;
    assert(all.subrange(j as int, k as int) =~= Seq::<Entry>::empty());
    assert(entries_of(out@) =~= head + all.subrange(j as int, k as int));
    while k < group.len()
        invariant
            j <= k <= group.len(),
            all == entries_of(group@),
            entries_of(out@) =~= head + all.subrange(j as int, k as int),
        decreases group.len() - k,
    {
        let ghost before = out@;
        out.push(group[k].clone());
        assert(entries_of(out@) =~= entries_of(before).push(all[k as int]));
        k += 1;
    }
    assert(all.subrange(j as int, k as int) =~= all.skip(j as int));
    out
}

/// The order of groups: entry by entry, by key and then by value; a group comes
/// before those that go on where it ends.
pub open spec fn group_less(a: Seq<Entry>, b: Seq<Entry>) -> bool
    decreases a.len(),
{
    if b.len() == 0 {
        false
    } else if a.len() == 0 {
        true
    } else if a[0].key != b[0].key {
        text_less(a[0].key, b[0].key)
    } else if a[0].value != b[0].value {
        text_less(a[0].value, b[0].value)
    } else {
        group_less(a.drop_first(), b.drop_first())
    }
}

pub open spec fn group_order() -> spec_fn(Seq<Entry>, Seq<Entry>) -> bool {
    |a: Seq<Entry>, b: Seq<Entry>| group_less(a, b)
}

proof fn lemma_group_order_total(a: Seq<Entry>, b: Seq<Entry>)
    ensures
        !group_less(a, a),
        a != b ==> group_less(a, b) || group_less(b, a),
        !(group_less(a, b) && group_less(b, a)),
    decreases a.len(),
{
    if a.len() > 0 {
        lemma_group_order_total(a.drop_first(), b.drop_first());
        if b.len() > 0 {
            law_text_order_is_total(a[0].key, b[0].key);
            law_text_order_is_total(a[0].value, b[0].value);
            if a[0] == b[0] && a.drop_first() == b.drop_first() {
                assert(a =~= seq![a[0]] + a.drop_first());
                assert(b =~= seq![b[0]] + b.drop_first());
            }
        }
    } else if b.len() == 0 {
        assert(a =~= b);
    }
}

proof fn lemma_group_order_transitive(a: Seq<Entry>, b: Seq<Entry>, c: Seq<Entry>)
    requires
        group_less(a, b),
        group_less(b, c),
    ensures
        group_less(a, c),
    decreases a.len(),
{
    if a.len() > 0 {
        law_text_order_is_total(a[0].key, b[0].key);
        law_text_order_is_total(b[0].key, c[0].key);
        law_text_order_is_total(a[0].key, c[0].key);
        law_text_order_is_total(a[0].value, b[0].value);
        law_text_order_is_total(b[0].value, c[0].value);
        law_text_order_is_total(a[0].value, c[0].value);
        if a[0].key != b[0].key && b[0].key != c[0].key {
            law_text_order_is_transitive(a[0].key, b[0].key, c[0].key);
        } else if a[0].key == b[0].key && b[0].key == c[0].key {
            if a[0].value != b[0].value && b[0].value != c[0].value {
                law_text_order_is_transitive(a[0].value, b[0].value, c[0].value);
            } else if a[0].value == b[0].value && b[0].value == c[0].value {
                lemma_group_order_transitive(
                    a.drop_first(),
                    b.drop_first(),
                    c.drop_first(),
                );
            }
        }
    }
}

/// The order of groups is an order of all different groups.
pub proof fn law_group_order()
    ensures
        total_order(group_order()),
{
    let less = group_order();
    assert forall|a: Seq<Entry>, b: Seq<Entry>| #[trigger] less(a, b) implies !less(b, a) by {
        lemma_group_order_total(a, b);
    }
    assert forall|a: Seq<Entry>, b: Seq<Entry>| !#[trigger] less(a, b) && !less(b, a) implies a
        == b by {
        lemma_group_order_total(a, b);
    }
    assert forall|a: Seq<Entry>, b: Seq<Entry>, c: Seq<Entry>| #[trigger] less(a, b)
        && #[trigger] less(b, c) implies less(a, c) by {
        lemma_group_order_transitive(a, b, c);
    }
}

/// A group.
#[derive(Debug, PartialEq, Eq)]
pub struct Group {
    pub entries: Vec<GroupEntry>,
}

impl View for Group {
    type V = Seq<Entry>;

    open spec fn view(&self) -> Seq<Entry> {
        entries_of(self.entries@)
    }
}

/// The value under a key, from an entry on, if there is one.
pub open spec fn value_under(group: Seq<Entry>, key: Seq<char>, from: int) -> Option<Seq<char>>
    decreases group.len() - from,
{
    if from < 0 || from >= group.len() {
        None
    } else if group[from].key == key {
        Some(group[from].value)
    } else {
        value_under(group, key, from + 1)
    }
}

impl Group {
    /// The value under a key, if there is one.
    pub fn get(&self, key: &str) -> (r: Option<String>)
        ensures
            opt_text(r) == value_under(self@, key@, 0),
    {
        let mut i: usize = 0;
        while i < self.entries.len()
            invariant
                i <= self.entries.len(),
                value_under(self@, key@, 0) == value_under(self@, key@, i as int),
            decreases self.entries.len() - i,
        {
            assert(self@[i as int] == self.entries@[i as int]@);
            if same(self.entries[i].key.as_str(), key) {
                return Some(self.entries[i].value.clone());
            }
            i += 1;
        }
        None
    }

    /// The group with a value under a key.
    pub fn put(&self, key: &str, value: &str) -> (r: Self)
        ensures
            r@ == with_entry(self@, key@, value@),
    {
        Group { entries: put_entry(&self.entries, key, value) }
    }

    fn copy(&self) -> (r: Self)
        ensures
            r@ == self@,
    {
        let mut entries: Vec<GroupEntry> = Vec::new();
        let mut i: usize = 0;
        while i < self.entries.len()
            invariant
                i <= self.entries.len(),
                entries@ =~= self.entries@.take(i as int),
            decreases self.entries.len() - i,
        {
            entries.push(self.entries[i].clone());
            i += 1;
        }
        assert(entries@ =~= self.entries@);
        Group { entries }
    }
}

fn is_group_less(a: &Group, b: &Group) -> (r: bool)
    ensures
        r == group_less(a@, b@),
{
    let mut i: usize = 0;
    assert(a@.skip(0) =~= a@);
    assert(b@.skip(0) =~= b@);
    while i < a.entries.len() && i < b.entries.len()
        invariant
            i <= a.entries.len(),
            i <= b.entries.len(),
            group_less(a@, b@) == group_less(a@.skip(i as int), b@.skip(i as int)),
        decreases a.entries.len() - i,
    {
        assert(a@.skip(i as int)[0] == a.entries@[i as int]@);
        assert(b@.skip(i as int)[0] == b.entries@[i as int]@);
        assert(a@.skip(i as int).drop_first() =~= a@.skip(i + 1));
        assert(b@.skip(i as int).drop_first() =~= b@.skip(i + 1));
        if !same(a.entries[i].key.as_str(), b.entries[i].key.as_str()) {
            return is_less(a.entries[i].key.as_str(), b.entries[i].key.as_str());
        }
        if !same(a.entries[i].value.as_str(), b.entries[i].value.as_str()) {
            return is_less(a.entries[i].value.as_str(), b.entries[i].value.as_str());
        }
        i += 1;
    }
    assert(a@.skip(i as int).len() == a@.len() - i);
    assert(b@.skip(i as int).len() == b@.len() - i);
    i < b.entries.len()
}

/// A group that a run is in, with the scores that count there.
#[derive(Debug, PartialEq, Eq)]
pub struct GroupVariant {
    pub group: Group,
    pub feedback: Vec<FeedbackScore>,
}

/// What a [`GroupVariant`] holds.
pub struct Variant {
    pub group: Seq<Entry>,
    pub feedback: Seq<FeedbackScore>,
}

impl View for GroupVariant {
    type V = Variant;

    open spec fn view(&self) -> Variant {
        Variant { group: self.group@, feedback: self.feedback@ }
    }
}

pub open spec fn variants_of(variants: Seq<GroupVariant>) -> Seq<Variant> {
    variants.map_values(|variant: GroupVariant| variant@)
}

/// The variant with a value under a key.
pub open spec fn in_group(variant: Variant, key: Seq<char>, value: Seq<char>) -> Variant {
    Variant { group: with_entry(variant.group, key, value), ..variant }
}

/// The variant once for each value.
pub open spec fn with_values(variant: Variant, key: Seq<char>, values: Seq<Seq<char>>) -> Seq<
    Variant,
> {
    values.map_values(|value: Seq<char>| in_group(variant, key, value))
}

/// Each variant once for each value.
pub open spec fn all_with_values(
    variants: Seq<Variant>,
    key: Seq<char>,
    values: Seq<Seq<char>>,
) -> Seq<Variant>
    decreases variants.len(),
{
    if variants.len() == 0 {
        Seq::empty()
    } else {
        all_with_values(variants.drop_last(), key, values) + with_values(
            variants.last(),
            key,
            values,
        )
    }
}

/// The variant once for each score, in the group of its key.
pub open spec fn with_scores(variant: Variant, scores: Seq<FeedbackScore>) -> Seq<Variant> {
    scores.map_values(
        |score: FeedbackScore|
            Variant {
                group: with_entry(variant.group, "feedback_key"@, score.key@),
                feedback: seq![score],
            },
    )
}

/// Each variant once for each score.
pub open spec fn all_with_scores(variants: Seq<Variant>, scores: Seq<FeedbackScore>) -> Seq<Variant>
    decreases variants.len(),
{
    if variants.len() == 0 {
        Seq::empty()
    } else {
        all_with_scores(variants.drop_last(), scores) + with_scores(variants.last(), scores)
    }
}

fn copy_scores(scores: &Vec<FeedbackScore>) -> (r: Vec<FeedbackScore>)
    ensures
        r@ == scores@,
{
    let mut out: Vec<FeedbackScore> = Vec::new();
    let mut i: usize = 0;
    while i < scores.len()
        invariant
            i <= scores.len(),
            out@ =~= scores@.take(i as int),
        decreases scores.len() - i,
    {
        out.push(scores[i].clone());
        i += 1;
    }
    assert(out@ =~= scores@);
    out
}

fn append_group_values(variants: &Vec<GroupVariant>, key: &str, values: &Vec<String>) -> (r: Vec<
    GroupVariant,
>)
    ensures
        variants_of(r@) == all_with_values(variants_of(variants@), key@, texts(values@)),
{
    let ghost all = variants_of(variants@);
    let ghost wanted = texts(values@);
    let mut out: Vec<GroupVariant> = Vec::new();
    let mut i: usize = 0;
    assert(variants_of(out@) =~= Seq::<Variant>::empty());
    assert(all.take(0) =~= Seq::<Variant>::empty());
    while i < variants.len()
        invariant
            i <= variants.len(),
            all == variants_of(variants@),
            wanted == texts(values@),
            variants_of(out@) == all_with_values(all.take(i as int), key@, wanted),
        decreases variants.len() - i,
    {
        assert(all.take(i + 1).drop_last() =~= all.take(i as int));
        assert(all.take(i + 1).last() == variants@[i as int]@);
        let ghost done = variants_of(out@);
        let ghost own = with_values(variants@[i as int]@, key@, wanted);
        let mut j: usize = 0;
        assert(done + own.take(0) =~= done);
        while j < values.len()
            invariant
                i < variants.len(),
                j <= values.len(),
                wanted == texts(values@),
                own == with_values(variants@[i as int]@, key@, wanted),
                variants_of(out@) =~= done + own.take(j as int),
            decreases values.len() - j,
        {
            let ghost before = out@;
            let variant = GroupVariant {
                group: Group {
                    entries: put_entry(&variants[i].group.entries, key, values[j].as_str()),
                },
                feedback: copy_scores(&variants[i].feedback),
            };
            assert(wanted[j as int] == values@[j as int]@);
            assert(variant@ == own[j as int]);
            out.push(variant);
            assert(variants_of(out@) =~= variants_of(before).push(variant@));
            j += 1;
            assert(own.take(j as int) =~= own.take(j - 1).push(own[j - 1]));
        }
        assert(own.take(j as int) =~= own);
        i += 1;
    }
    assert(all.take(i as int) =~= all);
    out
}

fn append_group_value(variants: &Vec<GroupVariant>, key: &str, value: &str) -> (r: Vec<
    GroupVariant,
>)
    ensures
        variants_of(r@) == all_with_values(variants_of(variants@), key@, seq![value@]),
{
    let values = one_text(value.to_owned());
    append_group_values(variants, key, &values)
}

fn append_scores(variants: &Vec<GroupVariant>, scores: &Vec<FeedbackScore>) -> (r: Vec<
    GroupVariant,
>)
    ensures
        variants_of(r@) == all_with_scores(variants_of(variants@), scores@),
{
    let ghost all = variants_of(variants@);
    let mut out: Vec<GroupVariant> = Vec::new();
    let mut i: usize = 0;
    assert(variants_of(out@) =~= Seq::<Variant>::empty());
    assert(all.take(0) =~= Seq::<Variant>::empty());
    while i < variants.len()
        invariant
            i <= variants.len(),
            all == variants_of(variants@),
            variants_of(out@) == all_with_scores(all.take(i as int), scores@),
        decreases variants.len() - i,
    {
        assert(all.take(i + 1).drop_last() =~= all.take(i as int));
        assert(all.take(i + 1).last() == variants@[i as int]@);
        let ghost done = variants_of(out@);
        let ghost own = with_scores(variants@[i as int]@, scores@);
        let mut j: usize = 0;
        assert(done + own.take(0) =~= done);
        while j < scores.len()
            invariant
                i < variants.len(),
                j <= scores.len(),
                own == with_scores(variants@[i as int]@, scores@),
                variants_of(out@) =~= done + own.take(j as int),
            decreases scores.len() - j,
        {
            let ghost before = out@;
            let mut feedback: Vec<FeedbackScore> = Vec::new();
            feedback.push(scores[j].clone());
            assert(feedback@ =~= seq![scores@[j as int]]);
            let variant = GroupVariant {
                group: Group {
                    entries: put_entry(
                        &variants[i].group.entries,
                        "feedback_key",
                        scores[j].key.as_str(),
                    ),
                },
                feedback,
            };
            assert(variant@ == own[j as int]);
            out.push(variant);
            assert(variants_of(out@) =~= variants_of(before).push(variant@));
            j += 1;
            assert(own.take(j as int) =~= own.take(j - 1).push(own[j - 1]));
        }
        assert(own.take(j as int) =~= own);
        i += 1;
    }
    assert(all.take(i as int) =~= all);
    out
}

/// The bucket that a time is in. Buckets are an hour long, unless another length is
/// asked for.
pub open spec fn time_bucket_of(start: i64, length: Option<i64>) -> int {
    bucket_start(start as int, bucket_length(length) as int)
}

pub open spec fn bucket_length(length: Option<i64>) -> i64 {
    match length {
        Some(n) => if n < 1 {
            1
        } else {
            n
        },
        None => AGGREGATE_ROLLUP_BUCKET_UNIX_NANOS,
    }
}

/// The bucket that a time is in.
pub fn time_bucket(start_time_unix_nano: i64, bucket: Option<i64>) -> (r: i64)
    requires
        time_bucket_of(start_time_unix_nano, bucket) >= i64::MIN,
    ensures
        r == time_bucket_of(start_time_unix_nano, bucket),
{
    let length: i64 = match bucket {
        Some(n) => if n < 1 {
            1
        } else {
            n
        },
        None => AGGREGATE_ROLLUP_BUCKET_UNIX_NANOS,
    };
    proof {
        law_bucket_holds_its_time(start_time_unix_nano as int, length as int);
    }
    bucket_start_of(start_time_unix_nano, length) as i64
}

/// The tags of a run, in order.
pub open spec fn tags_of(tags: Seq<RunTag>, run: Key) -> Seq<Seq<char>>
    decreases tags.len(),
{
    if tags.len() == 0 {
        Seq::empty()
    } else {
        let before = tags_of(tags.drop_last(), run);
        if tags.last().key@ == run {
            before.push(tags.last().tag@)
        } else {
            before
        }
    }
}

/// The tags that a run is grouped under: a run without tags under one of its own.
pub open spec fn tag_groups(tags: Seq<RunTag>, run: Key) -> Seq<Seq<char>> {
    if tags_of(tags, run).len() == 0 {
        seq!["untagged"@]
    } else {
        tags_of(tags, run)
    }
}

fn tag_values(tags: &Vec<RunTag>, row: &AggregateRunRow) -> (r: Vec<String>)
    ensures
        texts(r@) == tag_groups(tags@, aggregate_key(*row)),
{
    let ghost run = aggregate_key(*row);
    let mut out = no_texts();
    let mut i: usize = 0;
    assert(tags@.take(0) =~= Seq::<RunTag>::empty());
    while i < tags.len()
        invariant
            i <= tags.len(),
            run == aggregate_key(*row),
            texts(out@) == tags_of(tags@.take(i as int), run),
        decreases tags.len() - i,
    {
        assert(tags@.take(i + 1).drop_last() =~= tags@.take(i as int));
        if row.has_key(&tags[i].key) {
            push_text(&mut out, tags[i].tag.clone());
        }
        i += 1;
    }
    assert(tags@.take(i as int) =~= tags@);
    assert(texts(out@).len() == out@.len());
    if out.len() == 0 {
        one_text("untagged".to_owned())
    } else {
        out
    }
}

/// Whether a score counts: it is one of the run, and under one of the keys, if
/// there are any.
pub open spec fn score_counts(given: RunFeedback, run: Key, keys: Seq<Seq<char>>) -> bool {
    given.run@ == run && (keys.len() == 0 || keys.contains(given.score.key@))
}

/// The scores of a run that count, in order.
pub open spec fn scores_of(feedback: Seq<RunFeedback>, run: Key, keys: Seq<Seq<char>>) -> Seq<
    FeedbackScore,
>
    decreases feedback.len(),
{
    if feedback.len() == 0 {
        Seq::empty()
    } else {
        let before = scores_of(feedback.drop_last(), run, keys);
        if score_counts(feedback.last(), run, keys) {
            before.push(feedback.last().score)
        } else {
            before
        }
    }
}

fn row_scores(feedback: &Vec<RunFeedback>, row: &AggregateRunRow, keys: &Vec<String>) -> (r: Vec<
    FeedbackScore,
>)
    ensures
        r@ == scores_of(feedback@, aggregate_key(*row), texts(keys@)),
{
    let ghost run = aggregate_key(*row);
    let ghost wanted = texts(keys@);
    assert(wanted.len() == keys@.len());
    let mut out: Vec<FeedbackScore> = Vec::new();
    let mut i: usize = 0;
    assert(feedback@.take(0) =~= Seq::<RunFeedback>::empty());
    while i < feedback.len()
        invariant
            i <= feedback.len(),
            run == aggregate_key(*row),
            wanted == texts(keys@),
            wanted.len() == keys@.len(),
            out@ == scores_of(feedback@.take(i as int), run, wanted),
        decreases feedback.len() - i,
    {
        assert(feedback@.take(i + 1).drop_last() =~= feedback@.take(i as int));
        let given = &feedback[i];
        if row.has_key(&given.run) && (keys.len() == 0 || is_in(given.score.key.as_str(), keys)) {
            out.push(given.score.clone());
        }
        i += 1;
    }
    assert(feedback@.take(i as int) =~= feedback@);
    out
}

/// A name, or what stands for one that is not known.
pub open spec fn known_or(name: Option<String>, otherwise: Seq<char>) -> Seq<char> {
    match name {
        Some(text) => text@,
        None => otherwise,
    }
}

/// The variants of a run with one more thing to group by.
pub open spec fn expanded(
    variants: Seq<Variant>,
    group: RunAggregateGroup,
    row: AggregateRunRow,
    query: AggregateQuery,
    tags: Seq<RunTag>,
    feedback: Seq<RunFeedback>,
) -> Seq<Variant> {
    match group {
        RunAggregateGroup::Project => all_with_values(
            variants,
            "project_name"@,
            seq![row.project_name@],
        ),
        RunAggregateGroup::TimeBucket => all_with_values(
            variants,
            "time_bucket_start_unix_nano"@,
            seq![int_text(time_bucket_of(row.start_time_unix_nano, query.time_bucket_nanos))],
        ),
        RunAggregateGroup::RunType => all_with_values(variants, "run_type"@, seq![row.run_type@]),
        RunAggregateGroup::Tag => all_with_values(
            variants,
            "tag"@,
            tag_groups(tags, aggregate_key(row)),
        ),
        RunAggregateGroup::Model => all_with_values(
            variants,
            "model_name"@,
            seq![known_or(row.model_name, "unknown"@)],
        ),
        RunAggregateGroup::Provider => all_with_values(
            variants,
            "provider_name"@,
            seq![known_or(row.provider_name, "unknown"@)],
        ),
        RunAggregateGroup::Error => all_with_values(
            variants,
            "error"@,
            seq![
                if row.status@ == "error"@ {
                    "true"@
                } else {
                    "false"@
                },
            ],
        ),
        RunAggregateGroup::FeedbackKey => all_with_scores(
            variants,
            scores_of(feedback, aggregate_key(row), query.feedback_keys),
        ),
    }
}

/// The variants of a run when it is grouped by all of these.
pub open spec fn grouped(
    groups: Seq<RunAggregateGroup>,
    row: AggregateRunRow,
    query: AggregateQuery,
    tags: Seq<RunTag>,
    feedback: Seq<RunFeedback>,
) -> Seq<Variant>
    decreases groups.len(),
{
    if groups.len() == 0 {
        seq![Variant { group: Seq::empty(), feedback: Seq::empty() }]
    } else {
        expanded(
            grouped(groups.drop_last(), row, query, tags, feedback),
            groups.last(),
            row,
            query,
            tags,
            feedback,
        )
    }
}

/// The variant with all scores of the run that are asked for, if it has any.
pub open spec fn with_feedback(variant: Variant, scores: Seq<FeedbackScore>) -> Variant {
    if scores.len() == 0 {
        variant
    } else {
        Variant { feedback: scores, ..variant }
    }
}

/// The groups that a run is in, with the scores that count there: those of the
/// group's feedback key, if runs are grouped by it, else all that are asked for.
pub open spec fn variants_of_run(
    row: AggregateRunRow,
    query: AggregateQuery,
    tags: Seq<RunTag>,
    feedback: Seq<RunFeedback>,
) -> Seq<Variant> {
    let variants = grouped(query.group_by, row, query, tags, feedback);
    if query.group_by.contains(RunAggregateGroup::FeedbackKey) || query.feedback_keys.len() == 0 {
        variants
    } else {
        let scores = scores_of(feedback, aggregate_key(row), query.feedback_keys);
        variants.map_values(|variant: Variant| with_feedback(variant, scores))
    }
}

/// Whether the time buckets of runs are in the range of an `i64`, if they are
/// grouped by them.
pub open spec fn buckets_fit(rows: Seq<AggregateRunRow>, query: AggregateQuery) -> bool {
    query.group_by.contains(RunAggregateGroup::TimeBucket) ==> forall|i: int|
        0 <= i < rows.len() ==> time_bucket_of(
            (#[trigger] rows[i]).start_time_unix_nano,
            query.time_bucket_nanos,
        ) >= i64::MIN
}

fn expand_group_variants(
    variants: &Vec<GroupVariant>,
    group: RunAggregateGroup,
    row: &AggregateRunRow,
    query: &RunAggregateQuery,
    tags: &Vec<RunTag>,
    feedback: &Vec<RunFeedback>,
) -> (r: Vec<GroupVariant>)
    requires
        group == RunAggregateGroup::TimeBucket ==> time_bucket_of(
            row.start_time_unix_nano,
            query@.time_bucket_nanos,
        ) >= i64::MIN,
    ensures
        variants_of(r@) == expanded(
            variants_of(variants@),
            group,
            *row,
            query@,
            tags@,
            feedback@,
        ),
{
    match group {
        RunAggregateGroup::Project => append_group_value(
            variants,
            "project_name",
            row.project_name.as_str(),
        ),
        RunAggregateGroup::TimeBucket => {
            let bucket = time_bucket(row.start_time_unix_nano, query.time_bucket_nanos);
            append_group_value(
                variants,
                "time_bucket_start_unix_nano",
                integer_text(bucket).as_str(),
            )
        },
        RunAggregateGroup::RunType => append_group_value(
            variants,
            "run_type",
            row.run_type.as_str(),
        ),
        RunAggregateGroup::Tag => {
            let values = tag_values(tags, row);
            append_group_values(variants, "tag", &values)
        },
        RunAggregateGroup::Model => match &row.model_name {
            Some(name) => append_group_value(variants, "model_name", name.as_str()),
            None => append_group_value(variants, "model_name", "unknown"),
        },
        RunAggregateGroup::Provider => match &row.provider_name {
            Some(name) => append_group_value(variants, "provider_name", name.as_str()),
            None => append_group_value(variants, "provider_name", "unknown"),
        },
        RunAggregateGroup::Error => if same(row.status.as_str(), "error") {
            append_group_value(variants, "error", "true")
        } else {
            append_group_value(variants, "error", "false")
        },
        RunAggregateGroup::FeedbackKey => {
            let scores = row_scores(feedback, row, &query.feedback_keys);
            append_scores(variants, &scores)
        },
    }
}

fn attach_feedback(variants: Vec<GroupVariant>, scores: &Vec<FeedbackScore>) -> (r: Vec<
    GroupVariant,
>)
    ensures
        variants_of(r@) == variants_of(variants@).map_values(
            |variant: Variant| with_feedback(variant, scores@),
        ),
{
    let ghost wanted = variants_of(variants@).map_values(
        |variant: Variant| with_feedback(variant, scores@),
    );
    if scores.len() == 0 {
        assert(wanted =~= variants_of(variants@));
        return variants;
    }
    let mut out: Vec<GroupVariant> = Vec::new();
    let mut i: usize = 0;
    while i < variants.len()
        invariant
            i <= variants.len(),
            scores@.len() > 0,
            wanted == variants_of(variants@).map_values(
                |variant: Variant| with_feedback(variant, scores@),
            ),
            variants_of(out@) =~= wanted.take(i as int),
        decreases variants.len() - i,
    {
        let ghost before = out@;
        let variant = GroupVariant {
            group: variants[i].group.copy(),
            feedback: copy_scores(scores),
        };
        assert(variants_of(variants@)[i as int] == variants@[i as int]@);
        assert(variant@ == wanted[i as int]);
        out.push(variant);
        assert(variants_of(out@) =~= variants_of(before).push(variant@));
        i += 1;
    }
    assert(variants_of(out@) =~= wanted);
    out
}

/// The groups that a run is in, with the scores that count there.
pub fn group_variants(
    row: &AggregateRunRow,
    query: &RunAggregateQuery,
    tags: &Vec<RunTag>,
    feedback: &Vec<RunFeedback>,
) -> (r: Vec<GroupVariant>)
    requires
        query@.group_by.contains(RunAggregateGroup::TimeBucket) ==> time_bucket_of(
            row.start_time_unix_nano,
            query@.time_bucket_nanos,
        ) >= i64::MIN,
    ensures
        variants_of(r@) == variants_of_run(*row, query@, tags@, feedback@),
{
    let mut variants: Vec<GroupVariant> = Vec::new();
    let start = GroupVariant { group: Group { entries: Vec::new() }, feedback: Vec::new() };
    assert(start@.group =~= Seq::<Entry>::empty());
    assert(start@.feedback =~= Seq::<FeedbackScore>::empty());
    variants.push(start);
    let ghost groups = query@.group_by;
    let mut i: usize = 0;
    assert(groups.take(0) =~= Seq::<RunAggregateGroup>::empty());
    assert(variants_of(variants@) =~= grouped(groups.take(0), *row, query@, tags@, feedback@));
    while i < query.group_by.len()
        invariant
            i <= query.group_by.len(),
            groups == query@.group_by,
            groups == query.group_by@,
            groups.contains(RunAggregateGroup::TimeBucket) ==> time_bucket_of(
                row.start_time_unix_nano,
                query@.time_bucket_nanos,
            ) >= i64::MIN,
            variants_of(variants@) == grouped(
                groups.take(i as int),
                *row,
                query@,
                tags@,
                feedback@,
            ),
        decreases query.group_by.len() - i,
    {
        assert(groups.take(i + 1).drop_last() =~= groups.take(i as int));
        assert(groups[i as int] == query.group_by@[i as int]);
        assert(groups.contains(groups[i as int]));
        variants = expand_group_variants(&variants, query.group_by[i], row, query, tags, feedback);
        i += 1;
    }
    assert(groups.take(i as int) =~= groups);
    assert(query@.feedback_keys.len() == query.feedback_keys@.len());
    if query.groups_by(RunAggregateGroup::FeedbackKey) || query.feedback_keys.len() == 0 {
        variants
    } else {
        let scores = row_scores(feedback, row, &query.feedback_keys);
        attach_feedback(variants, &scores)
    }
}

/// A run as it counts in a group.
pub struct Counted {
    pub group: Seq<Entry>,
    pub row: AggregateRunRow,
    pub feedback: Seq<FeedbackScore>,
}

/// How a run counts, in each of its groups.
pub open spec fn counted_run(
    row: AggregateRunRow,
    query: AggregateQuery,
    tags: Seq<RunTag>,
    feedback: Seq<RunFeedback>,
) -> Seq<Counted> {
    variants_of_run(row, query, tags, feedback).map_values(
        |variant: Variant| Counted { group: variant.group, row, feedback: variant.feedback },
    )
}

/// How runs count, run by run.
pub open spec fn counted_runs(
    rows: Seq<AggregateRunRow>,
    query: AggregateQuery,
    tags: Seq<RunTag>,
    feedback: Seq<RunFeedback>,
) -> Seq<Counted>
    decreases rows.len(),
{
    if rows.len() == 0 {
        Seq::empty()
    } else {
        counted_runs(rows.drop_last(), query, tags, feedback) + counted_run(
            rows.last(),
            query,
            tags,
            feedback,
        )
    }
}

/// The groups in which runs count.
pub open spec fn groups_of(counted: Seq<Counted>) -> Seq<Seq<Entry>> {
    counted.map_values(|one: Counted| one.group)
}

/// What counts in a group.
pub open spec fn counted_in(counted: Seq<Counted>, group: Seq<Entry>) -> Seq<Counted> {
    counted.filter(|one: Counted| one.group == group)
}

/// An integer that is said of a run.
#[derive(Debug, Clone, Copy, PartialEq, Eq, Structural)]
pub enum IntegerMetric {
    Latency,
    PromptTokens,
    CompletionTokens,
    TotalTokens,
    FirstTokenLatency,
}

/// A floating-point number that is said of a run.
#[derive(Debug, Clone, Copy, PartialEq, Eq, Structural)]
pub enum FloatMetric {
    PromptCost,
    CompletionCost,
    TotalCost,
    EvaluatorScore,
}

pub open spec fn integer_metric(row: AggregateRunRow, metric: IntegerMetric) -> Option<i64> {
    match metric {
        IntegerMetric::Latency => Some(row.latency_nanos),
        IntegerMetric::PromptTokens => row.prompt_tokens,
        IntegerMetric::CompletionTokens => row.completion_tokens,
        IntegerMetric::TotalTokens => row.total_tokens,
        IntegerMetric::FirstTokenLatency => row.first_token_latency_nanos,
    }
}

pub open spec fn float_metric(row: AggregateRunRow, metric: FloatMetric) -> Option<Float> {
    match metric {
        FloatMetric::PromptCost => row.prompt_cost,
        FloatMetric::CompletionCost => row.completion_cost,
        FloatMetric::TotalCost => row.total_cost,
        FloatMetric::EvaluatorScore => row.evaluator_score,
    }
}

/// The integers that are said of runs, of those of which there is one.
pub open spec fn integers_of(counted: Seq<Counted>, metric: IntegerMetric) -> Seq<i64>
    decreases counted.len(),
{
    if counted.len() == 0 {
        Seq::empty()
    } else {
        let before = integers_of(counted.drop_last(), metric);
        match integer_metric(counted.last().row, metric) {
            Some(n) => before.push(n),
            None => before,
        }
    }
}

/// The finite numbers that are said of runs, of those of which there is one.
pub open spec fn floats_of(counted: Seq<Counted>, metric: FloatMetric) -> Seq<Float>
    decreases counted.len(),
{
    if counted.len() == 0 {
        Seq::empty()
    } else {
        let before = floats_of(counted.drop_last(), metric);
        match float_metric(counted.last().row, metric) {
            Some(number) => if finite(number) {
                before.push(number)
            } else {
                before
            },
            None => before,
        }
    }
}

/// How many of the runs are errors.
pub open spec fn errors_in(counted: Seq<Counted>) -> nat
    decreases counted.len(),
{
    if counted.len() == 0 {
        0
    } else {
        errors_in(counted.drop_last()) + if counted.last().row.status@ == "error"@ {
            1nat
        } else {
            0nat
        }
    }
}

/// The scores that count.
pub open spec fn scores_in(counted: Seq<Counted>) -> Seq<FeedbackScore>
    decreases counted.len(),
{
    if counted.len() == 0 {
        Seq::empty()
    } else {
        scores_in(counted.drop_last()) + counted.last().feedback
    }
}

pub open spec fn score_keys(scores: Seq<FeedbackScore>) -> Seq<Seq<char>> {
    scores.map_values(|score: FeedbackScore| score.key@)
}

/// The finite scores under a key.
pub open spec fn scores_under(scores: Seq<FeedbackScore>, key: Seq<char>) -> Seq<Float>
    decreases scores.len(),
{
    if scores.len() == 0 {
        Seq::empty()
    } else {
        let before = scores_under(scores.drop_last(), key);
        if scores.last().key@ == key && finite(scores.last().score) {
            before.push(scores.last().score)
        } else {
            before
        }
    }
}

/// What is said of the scores under a key.
#[derive(Debug, PartialEq, Eq)]
pub struct KeyedScoreStats {
    pub key: String,
    pub stats: FeedbackScoreStats,
}

/// What is said of a group.
#[derive(Debug, PartialEq, Eq)]
pub struct RunAggregateMetrics {
    pub count: u64,
    pub error_count: u64,
    pub latency_nanos: Option<NumericStats<i64>>,
    pub prompt_tokens: Option<NumericStats<i64>>,
    pub completion_tokens: Option<NumericStats<i64>>,
    pub total_tokens: Option<NumericStats<i64>>,
    pub prompt_cost: Option<NumericStats<Float>>,
    pub completion_cost: Option<NumericStats<Float>>,
    pub total_cost: Option<NumericStats<Float>>,
    pub first_token_latency_nanos: Option<NumericStats<i64>>,
    pub evaluator_score: Option<NumericStats<Float>>,
    pub feedback_scores: Vec<KeyedScoreStats>,
}

/// A group, and what is said of it.
#[derive(Debug, PartialEq, Eq)]
pub struct RunAggregateRow {
    pub group: Group,
    pub metrics: RunAggregateMetrics,
}

/// Whether `stats` are what is said of scores, key by key.
pub open spec fn are_keyed_stats_of(stats: Seq<KeyedScoreStats>, scores: Seq<FeedbackScore>) -> bool {
    let keys = ordered_set(score_keys(scores), text_order());
    &&& stats.len() == keys.len()
    &&& forall|i: int|
        0 <= i < keys.len() ==> {
            let one = #[trigger] stats[i];
            one.key@ == keys[i] && are_score_stats_of(
                one.stats,
                stable_sort(scores_under(scores, keys[i]), float_order()),
            )
        }
}

pub open spec fn sorted_integers(counted: Seq<Counted>, metric: IntegerMetric) -> Seq<i64> {
    stable_sort(integers_of(counted, metric), integer_order())
}

pub open spec fn sorted_floats(counted: Seq<Counted>, metric: FloatMetric) -> Seq<Float> {
    stable_sort(floats_of(counted, metric), float_order())
}

/// Whether `metrics` are what is said of runs as they count in a group.
pub open spec fn are_metrics_of(metrics: RunAggregateMetrics, counted: Seq<Counted>) -> bool {
    &&& metrics.count == counted.len()
    &&& metrics.error_count == errors_in(counted)
    &&& are_stats_of(
        metrics.latency_nanos,
        sorted_integers(counted, IntegerMetric::Latency),
        true,
    )
    &&& are_stats_of(
        metrics.prompt_tokens,
        sorted_integers(counted, IntegerMetric::PromptTokens),
        false,
    )
    &&& are_stats_of(
        metrics.completion_tokens,
        sorted_integers(counted, IntegerMetric::CompletionTokens),
        false,
    )
    &&& are_stats_of(
        metrics.total_tokens,
        sorted_integers(counted, IntegerMetric::TotalTokens),
        false,
    )
    &&& are_stats_of(metrics.prompt_cost, sorted_floats(counted, FloatMetric::PromptCost), false)
    &&& are_stats_of(
        metrics.completion_cost,
        sorted_floats(counted, FloatMetric::CompletionCost),
        false,
    )
    &&& are_stats_of(metrics.total_cost, sorted_floats(counted, FloatMetric::TotalCost), false)
    &&& are_stats_of(
        metrics.first_token_latency_nanos,
        sorted_integers(counted, IntegerMetric::FirstTokenLatency),
        true,
    )
    &&& are_stats_of(
        metrics.evaluator_score,
        sorted_floats(counted, FloatMetric::EvaluatorScore),
        false,
    )
    &&& are_keyed_stats_of(metrics.feedback_scores@, scores_in(counted))
}

/// Whether `rows` are the groups in which runs count, in order, each with what is
/// said of it.
pub open spec fn are_aggregates_of(rows: Seq<RunAggregateRow>, counted: Seq<Counted>) -> bool {
    let groups = ordered_set(groups_of(counted), group_order());
    &&& rows.len() == groups.len()
    &&& forall|i: int|
        0 <= i < groups.len() ==> {
            let row = #[trigger] rows[i];
            row.group@ == groups[i] && are_metrics_of(
                row.metrics,
                counted_in(counted, groups[i]),
            )
        }
}

/// How a run counts in a group: which run it is, by its place among the rows.
struct CountedRun {
    group: Group,
    row: usize,
    feedback: Vec<FeedbackScore>,
}

spec fn counted_model(one: CountedRun, rows: Seq<AggregateRunRow>) -> Counted {
    Counted { group: one.group@, row: rows[one.row as int], feedback: one.feedback@ }
}

spec fn counted_models(counted: Seq<CountedRun>, rows: Seq<AggregateRunRow>) -> Seq<Counted> {
    counted.map_values(|one: CountedRun| counted_model(one, rows))
}

spec fn rows_known(counted: Seq<CountedRun>, rows: Seq<AggregateRunRow>) -> bool {
    forall|i: int| 0 <= i < counted.len() ==> (#[trigger] counted[i]).row < rows.len()
}

fn count_runs(
    rows: &Vec<AggregateRunRow>,
    query: &RunAggregateQuery,
    tags: &Vec<RunTag>,
    feedback: &Vec<RunFeedback>,
) -> (r: Vec<CountedRun>)
    requires
        buckets_fit(rows@, query@),
    ensures
        rows_known(r@, rows@),
        counted_models(r@, rows@) == counted_runs(rows@, query@, tags@, feedback@),
{
    let mut out: Vec<CountedRun> = Vec::new();
    let mut i: usize = 0;
    assert(rows@.take(0) =~= Seq::<AggregateRunRow>::empty());
    assert(counted_models(out@, rows@) =~= Seq::<Counted>::empty());
    while i < rows.len()
        invariant
            i <= rows.len(),
            buckets_fit(rows@, query@),
            rows_known(out@, rows@),
            counted_models(out@, rows@) == counted_runs(
                rows@.take(i as int),
                query@,
                tags@,
                feedback@,
            ),
        decreases rows.len() - i,
    {
        assert(rows@.take(i + 1).drop_last() =~= rows@.take(i as int));
        assert(rows@.take(i + 1).last() == rows@[i as int]);
        let variants = group_variants(&rows[i], query, tags, feedback);
        let ghost own = counted_run(rows@[i as int], query@, tags@, feedback@);
        let ghost done = counted_models(out@, rows@);
        let mut j: usize = 0;
        assert(done + own.take(0) =~= done);
        while j < variants.len()
            invariant
                i < rows.len(),
                j <= variants.len(),
                own.len() == variants@.len(),
                variants_of(variants@) == variants_of_run(
                    rows@[i as int],
                    query@,
                    tags@,
                    feedback@,
                ),
                own == counted_run(rows@[i as int], query@, tags@, feedback@),
                rows_known(out@, rows@),
                counted_models(out@, rows@) =~= done + own.take(j as int),
            decreases variants.len() - j,
        {
            let ghost before = out@;
            let one = CountedRun {
                group: variants[j].group.copy(),
                row: i,
                feedback: copy_scores(&variants[j].feedback),
            };
            assert(variants_of(variants@)[j as int] == variants@[j as int]@);
            assert(counted_model(one, rows@) == own[j as int]);
            out.push(one);
            assert(counted_models(out@, rows@) =~= counted_models(before, rows@).push(
                own[j as int],
            ));
            j += 1;
            assert(own.take(j as int) =~= own.take(j - 1).push(own[j - 1]));
        }
        assert(variants_of(variants@).len() == variants@.len());
        assert(own.take(j as int) =~= own);
        i += 1;
    }
    assert(rows@.take(i as int) =~= rows@);
    out
}

fn same_group(a: &Group, b: &Group) -> (r: bool)
    ensures
        r == (a@ == b@),
{
    proof {
        lemma_group_order_total(a@, b@);
        lemma_group_order_total(b@, a@);
    }
    !is_group_less(a, b) && !is_group_less(b, a)
}

spec fn picked(
    members: Seq<usize>,
    counted: Seq<CountedRun>,
    rows: Seq<AggregateRunRow>,
) -> Seq<Counted> {
    members.map_values(|at: usize| counted_model(counted[at as int], rows))
}

spec fn members_known(
    members: Seq<usize>,
    counted: Seq<CountedRun>,
    rows: Seq<AggregateRunRow>,
) -> bool {
    &&& rows_known(counted, rows)
    &&& forall|k: int| 0 <= k < members.len() ==> (#[trigger] members[k]) < counted.len()
}

fn members_of(counted: &Vec<CountedRun>, group: &Group, Ghost(rows): Ghost<Seq<AggregateRunRow>>)
    -> (r: Vec<usize>)
    requires
        rows_known(counted@, rows),
    ensures
        members_known(r@, counted@, rows),
        picked(r@, counted@, rows) == counted_in(counted_models(counted@, rows), group@),
{
    let ghost all = counted_models(counted@, rows);
    let ghost fits = |one: Counted| one.group == group@;
    let mut out: Vec<usize> = Vec::new();
    let mut i: usize = 0;
    proof {
        reveal(Seq::filter);
    }
    assert(all.take(0).filter(fits) =~= Seq::<Counted>::empty());
    assert(picked(out@, counted@, rows) =~= Seq::<Counted>::empty());
    while i < counted.len()
        invariant
            i <= counted.len(),
            all == counted_models(counted@, rows),
            fits == (|one: Counted| one.group == group@),
            rows_known(counted@, rows),
            members_known(out@, counted@, rows),
            picked(out@, counted@, rows) == all.take(i as int).filter(fits),
        decreases counted.len() - i,
    {
        proof {
            reveal(Seq::filter);
        }
        assert(all.take(i + 1).drop_last() =~= all.take(i as int));
        assert(all.take(i + 1).last() == counted_model(counted@[i as int], rows));
        if same_group(&counted[i].group, group) {
            let ghost before = out@;
            out.push(i);
            assert(picked(out@, counted@, rows) =~= picked(before, counted@, rows).push(
                all[i as int],
            ));
        }
        i += 1;
    }
    assert(all.take(i as int) =~= all);
    out
}

fn integer_of(row: &AggregateRunRow, metric: IntegerMetric) -> (r: Option<i64>)
    ensures
        r == integer_metric(*row, metric),
{
    match metric {
        IntegerMetric::Latency => Some(row.latency_nanos),
        IntegerMetric::PromptTokens => row.prompt_tokens,
        IntegerMetric::CompletionTokens => row.completion_tokens,
        IntegerMetric::TotalTokens => row.total_tokens,
        IntegerMetric::FirstTokenLatency => row.first_token_latency_nanos,
    }
}

fn float_of(row: &AggregateRunRow, metric: FloatMetric) -> (r: Option<Float>)
    ensures
        r == float_metric(*row, metric),
{
    match metric {
        FloatMetric::PromptCost => row.prompt_cost,
        FloatMetric::CompletionCost => row.completion_cost,
        FloatMetric::TotalCost => row.total_cost,
        FloatMetric::EvaluatorScore => row.evaluator_score,
    }
}

fn collect_integers(
    members: &Vec<usize>,
    counted: &Vec<CountedRun>,
    rows: &Vec<AggregateRunRow>,
    metric: IntegerMetric,
) -> (r: Vec<i64>)
    requires
        members_known(members@, counted@, rows@),
    ensures
        r@ == integers_of(picked(members@, counted@, rows@), metric),
{
    let ghost all = picked(members@, counted@, rows@);
    let mut out: Vec<i64> = Vec::new();
    let mut i: usize = 0;
    assert(all.take(0) =~= Seq::<Counted>::empty());
    while i < members.len()
        invariant
            i <= members.len(),
            members_known(members@, counted@, rows@),
            all == picked(members@, counted@, rows@),
            out@ == integers_of(all.take(i as int), metric),
        decreases members.len() - i,
    {
        assert(all.take(i + 1).drop_last() =~= all.take(i as int));
        assert(members@[i as int] < counted@.len());
        let one = &counted[members[i]];
        assert(counted@[members@[i as int] as int].row < rows@.len());
        assert(all.take(i + 1).last() == counted_model(*one, rows@));
        match integer_of(&rows[one.row], metric) {
            Some(n) => {
                out.push(n);
            },
            None => {},
        }
        i += 1;
    }
    assert(all.take(i as int) =~= all);
    out
}

fn collect_floats(
    members: &Vec<usize>,
    counted: &Vec<CountedRun>,
    rows: &Vec<AggregateRunRow>,
    metric: FloatMetric,
) -> (r: Vec<Float>)
    requires
        members_known(members@, counted@, rows@),
    ensures
        r@ == floats_of(picked(members@, counted@, rows@), metric),
{
    let ghost all = picked(members@, counted@, rows@);
    let mut out: Vec<Float> = Vec::new();
    let mut i: usize = 0;
    assert(all.take(0) =~= Seq::<Counted>::empty());
    while i < members.len()
        invariant
            i <= members.len(),
            members_known(members@, counted@, rows@),
            all == picked(members@, counted@, rows@),
            out@ == floats_of(all.take(i as int), metric),
        decreases members.len() - i,
    {
        assert(all.take(i + 1).drop_last() =~= all.take(i as int));
        assert(members@[i as int] < counted@.len());
        let one = &counted[members[i]];
        assert(counted@[members@[i as int] as int].row < rows@.len());
        assert(all.take(i + 1).last() == counted_model(*one, rows@));
        match float_of(&rows[one.row], metric) {
            Some(number) => {
                if number.is_finite() {
                    out.push(number);
                }
            },
            None => {},
        }
        i += 1;
    }
    assert(all.take(i as int) =~= all);
    out
}

fn count_errors(
    members: &Vec<usize>,
    counted: &Vec<CountedRun>,
    rows: &Vec<AggregateRunRow>,
) -> (r: u64)
    requires
        members_known(members@, counted@, rows@),
    ensures
        r == errors_in(picked(members@, counted@, rows@)),
{
    let ghost all = picked(members@, counted@, rows@);
    let mut out: u64 = 0;
    let mut i: usize = 0;
    assert(all.take(0) =~= Seq::<Counted>::empty());
    while i < members.len()
        invariant
            i <= members.len(),
            members_known(members@, counted@, rows@),
            all == picked(members@, counted@, rows@),
            out == errors_in(all.take(i as int)),
            out <= i,
        decreases members.len() - i,
    {
        assert(all.take(i + 1).drop_last() =~= all.take(i as int));
        assert(members@[i as int] < counted@.len());
        let one = &counted[members[i]];
        assert(counted@[members@[i as int] as int].row < rows@.len());
        assert(all.take(i + 1).last() == counted_model(*one, rows@));
        if same(rows[one.row].status.as_str(), "error") {
            out = out + 1;
        }
        i += 1;
    }
    assert(all.take(i as int) =~= all);
    out
}

fn collect_scores(
    members: &Vec<usize>,
    counted: &Vec<CountedRun>,
    Ghost(rows): Ghost<Seq<AggregateRunRow>>,
) -> (r: Vec<FeedbackScore>)
    requires
        members_known(members@, counted@, rows),
    ensures
        r@ == scores_in(picked(members@, counted@, rows)),
{
    let ghost all = picked(members@, counted@, rows);
    let mut out: Vec<FeedbackScore> = Vec::new();
    let mut i: usize = 0;
    assert(all.take(0) =~= Seq::<Counted>::empty());
    while i < members.len()
        invariant
            i <= members.len(),
            members_known(members@, counted@, rows),
            all == picked(members@, counted@, rows),
            out@ == scores_in(all.take(i as int)),
        decreases members.len() - i,
    {
        assert(all.take(i + 1).drop_last() =~= all.take(i as int));
        assert(members@[i as int] < counted@.len());
        let mut own = copy_scores(&counted[members[i]].feedback);
        out.append(&mut own);
        i += 1;
    }
    assert(all.take(i as int) =~= all);
    out
}

fn values_under(scores: &Vec<FeedbackScore>, key: &str) -> (r: Vec<Float>)
    ensures
        r@ == scores_under(scores@, key@),
{
    let mut out: Vec<Float> = Vec::new();
    let mut i: usize = 0;
    assert(scores@.take(0) =~= Seq::<FeedbackScore>::empty());
    while i < scores.len()
        invariant
            i <= scores.len(),
            out@ == scores_under(scores@.take(i as int), key@),
        decreases scores.len() - i,
    {
        assert(scores@.take(i + 1).drop_last() =~= scores@.take(i as int));
        if same(scores[i].key.as_str(), key) && scores[i].score.is_finite() {
            out.push(scores[i].score);
        }
        i += 1;
    }
    assert(scores@.take(i as int) =~= scores@);
    out
}

/// What is said of scores, key by key.
pub fn keyed_score_stats(scores: &Vec<FeedbackScore>) -> (r: Vec<KeyedScoreStats>)
    ensures
        are_keyed_stats_of(r@, scores@),
{
    let ghost all = score_keys(scores@);
    let mut keys = no_texts();
    let mut i: usize = 0;
    assert(all.take(0) =~= Seq::<Seq<char>>::empty());
    while i < scores.len()
        invariant
            i <= scores.len(),
            all == score_keys(scores@),
            texts(keys@) == ordered_set(all.take(i as int), text_order()),
        decreases scores.len() - i,
    {
        assert(all.take(i + 1).drop_last() =~= all.take(i as int));
        assert(all.take(i + 1).last() == scores@[i as int].key@);
        insert_text(&mut keys, scores[i].key.clone());
        i += 1;
    }
    assert(all.take(i as int) =~= all);
    let ghost wanted = ordered_set(all, text_order());
    assert(texts(keys@).len() == keys@.len());
    let mut out: Vec<KeyedScoreStats> = Vec::new();
    let mut k: usize = 0;
    while k < keys.len()
        invariant
            k <= keys.len(),
            texts(keys@) == wanted,
            wanted.len() == keys@.len(),
            out@.len() == k,
            forall|j: int|
                0 <= j < k ==> {
                    let one = #[trigger] out@[j];
                    one.key@ == wanted[j] && are_score_stats_of(
                        one.stats,
                        stable_sort(scores_under(scores@, wanted[j]), float_order()),
                    )
                },
        decreases keys.len() - k,
    {
        assert(texts(keys@)[k as int] == keys@[k as int]@);
        out.push(
            KeyedScoreStats {
                key: keys[k].clone(),
                stats: score_stats(values_under(scores, keys[k].as_str())),
            },
        );
        k += 1;
    }
    out
}

fn metrics_of(
    members: &Vec<usize>,
    counted: &Vec<CountedRun>,
    rows: &Vec<AggregateRunRow>,
) -> (r: RunAggregateMetrics)
    requires
        members_known(members@, counted@, rows@),
    ensures
        are_metrics_of(r, picked(members@, counted@, rows@)),
{
    let scores = collect_scores(members, counted, Ghost(rows@));
    RunAggregateMetrics {
        count: members.len() as u64,
        error_count: count_errors(members, counted, rows),
        latency_nanos: integer_stats(
            collect_integers(members, counted, rows, IntegerMetric::Latency),
            true,
        ),
        prompt_tokens: integer_stats(
            collect_integers(members, counted, rows, IntegerMetric::PromptTokens),
            false,
        ),
        completion_tokens: integer_stats(
            collect_integers(members, counted, rows, IntegerMetric::CompletionTokens),
            false,
        ),
        total_tokens: integer_stats(
            collect_integers(members, counted, rows, IntegerMetric::TotalTokens),
            false,
        ),
        prompt_cost: float_stats(
            collect_floats(members, counted, rows, FloatMetric::PromptCost),
            false,
        ),
        completion_cost: float_stats(
            collect_floats(members, counted, rows, FloatMetric::CompletionCost),
            false,
        ),
        total_cost: float_stats(
            collect_floats(members, counted, rows, FloatMetric::TotalCost),
            false,
        ),
        first_token_latency_nanos: integer_stats(
            collect_integers(members, counted, rows, IntegerMetric::FirstTokenLatency),
            true,
        ),
        evaluator_score: float_stats(
            collect_floats(members, counted, rows, FloatMetric::EvaluatorScore),
            false,
        ),
        feedback_scores: keyed_score_stats(&scores),
    }
}

spec fn group_models(groups: Seq<Group>) -> Seq<Seq<Entry>> {
    groups.map_values(|group: Group| group@)
}

fn distinct_groups(counted: &Vec<CountedRun>, Ghost(rows): Ghost<Seq<AggregateRunRow>>) -> (r: Vec<
    Group,
>)
    ensures
        group_models(r@) == ordered_set(
            groups_of(counted_models(counted@, rows)),
            group_order(),
        ),
{
    let ghost all = groups_of(counted_models(counted@, rows));
    let ghost less = |a: Group, b: Group| group_less(a@, b@);
    let ghost held = |group: Group| group@;
    let mut out: Vec<Group> = Vec::new();
    let mut i: usize = 0;
    assert(all.take(0) =~= Seq::<Seq<Entry>>::empty());
    assert(group_models(out@) =~= Seq::<Seq<Entry>>::empty());
    while i < counted.len()
        invariant
            i <= counted.len(),
            all == groups_of(counted_models(counted@, rows)),
            less == (|a: Group, b: Group| group_less(a@, b@)),
            held == (|group: Group| group@),
            group_models(out@) == ordered_set(all.take(i as int), group_order()),
        decreases counted.len() - i,
    {
        assert(all.take(i + 1).drop_last() =~= all.take(i as int));
        assert(all.take(i + 1).last() == counted@[i as int].group@);
        let group = counted[i].group.copy();
        proof {
            assert forall|a: Group, b: Group| #[trigger] less(a, b) == group_order()(
                held(a),
                held(b),
            ) by {}
            lemma_ordered_insert_map(out@, group, held, less, group_order());
        }
        insert_distinct(&mut out, group, is_group_less, Ghost(less));
        i += 1;
    }
    assert(all.take(i as int) =~= all);
    out
}

/// The groups that runs are in, in order, and what is said of each.
pub fn aggregate_rows(
    rows: &Vec<AggregateRunRow>,
    query: &RunAggregateQuery,
    tags: &Vec<RunTag>,
    feedback: &Vec<RunFeedback>,
) -> (r: Vec<RunAggregateRow>)
    requires
        buckets_fit(rows@, query@),
    ensures
        are_aggregates_of(r@, counted_runs(rows@, query@, tags@, feedback@)),
{
    let counted = count_runs(rows, query, tags, feedback);
    let ghost all = counted_runs(rows@, query@, tags@, feedback@);
    let groups = distinct_groups(&counted, Ghost(rows@));
    let ghost wanted = ordered_set(groups_of(all), group_order());
    assert(group_models(groups@).len() == groups@.len());
    let mut out: Vec<RunAggregateRow> = Vec::new();
    let mut i: usize = 0;
    while i < groups.len()
        invariant
            i <= groups.len(),
            rows_known(counted@, rows@),
            all == counted_models(counted@, rows@),
            group_models(groups@) == wanted,
            wanted.len() == groups@.len(),
            out@.len() == i,
            forall|j: int|
                0 <= j < i ==> {
                    let row = #[trigger] out@[j];
                    row.group@ == wanted[j] && are_metrics_of(
                        row.metrics,
                        counted_in(all, wanted[j]),
                    )
                },
        decreases groups.len() - i,
    {
        assert(group_models(groups@)[i as int] == groups@[i as int]@);
        let members = members_of(&counted, &groups[i], Ghost(rows@));
        let metrics = metrics_of(&members, &counted, rows);
        out.push(RunAggregateRow { group: groups[i].copy(), metrics });
        i += 1;
    }
    out
}

/// How many runs count in several groups.
pub open spec fn total_count(counted: Seq<Counted>, groups: Seq<Seq<Entry>>) -> nat
    decreases groups.len(),
{
    if groups.len() == 0 {
        0
    } else {
        total_count(counted, groups.drop_last()) + counted_in(counted, groups.last()).len()
    }
}

spec fn occurrences(groups: Seq<Seq<Entry>>, group: Seq<Entry>) -> nat
    decreases groups.len(),
{
    if groups.len() == 0 {
        0
    } else {
        occurrences(groups.drop_last(), group) + if groups.last() == group {
            1nat
        } else {
            0nat
        }
    }
}

proof fn lemma_total_count_of_none(groups: Seq<Seq<Entry>>)
    ensures
        total_count(Seq::empty(), groups) == 0,
    decreases groups.len(),
{
    reveal(Seq::filter);
    if groups.len() > 0 {
        lemma_total_count_of_none(groups.drop_last());
    }
}

proof fn lemma_total_count_of_one_more(
    counted: Seq<Counted>,
    one: Counted,
    groups: Seq<Seq<Entry>>,
)
    ensures
        total_count(counted.push(one), groups) == total_count(counted, groups) + occurrences(
            groups,
            one.group,
        ),
    decreases groups.len(),
{
    if groups.len() > 0 {
        lemma_total_count_of_one_more(counted, one, groups.drop_last());
        reveal(Seq::filter);
        assert(counted.push(one).drop_last() =~= counted);
    }
}

proof fn lemma_occurs_once(groups: Seq<Seq<Entry>>, group: Seq<Entry>)
    requires
        groups.no_duplicates(),
    ensures
        occurrences(groups, group) == if groups.contains(group) {
            1nat
        } else {
            0nat
        },
    decreases groups.len(),
{
    if groups.len() > 0 {
        let rest = groups.drop_last();
        assert(rest.no_duplicates());
        lemma_occurs_once(rest, group);
        if rest.contains(group) {
            let i = rest.index_of(group);
            assert(groups[i] == group);
            assert(groups[i] != groups[groups.len() - 1]);
        }
        if groups.contains(group) && groups.last() != group {
            let i = groups.index_of(group);
            assert(rest[i] == group);
        }
        if groups.last() == group {
            assert(groups[groups.len() - 1] == group);
        }
    }
}

proof fn lemma_total_count(counted: Seq<Counted>, groups: Seq<Seq<Entry>>)
    requires
        groups.no_duplicates(),
        forall|i: int| 0 <= i < counted.len() ==> groups.contains((#[trigger] counted[i]).group),
    ensures
        total_count(counted, groups) == counted.len(),
    decreases counted.len(),
{
    if counted.len() == 0 {
        assert(counted =~= Seq::empty());
        lemma_total_count_of_none(groups);
    } else {
        let rest = counted.drop_last();
        assert forall|i: int| 0 <= i < rest.len() implies groups.contains(
            (#[trigger] rest[i]).group,
        ) by {
            assert(rest[i] == counted[i]);
        }
        lemma_total_count(rest, groups);
        lemma_total_count_of_one_more(rest, counted.last(), groups);
        assert(rest.push(counted.last()) =~= counted);
        assert(groups.contains(counted[counted.len() - 1].group));
        lemma_occurs_once(groups, counted.last().group);
    }
}

proof fn lemma_one_value_keeps_count(variants: Seq<Variant>, key: Seq<char>, value: Seq<char>)
    ensures
        all_with_values(variants, key, seq![value]).len() == variants.len(),
    decreases variants.len(),
{
    if variants.len() > 0 {
        lemma_one_value_keeps_count(variants.drop_last(), key, value);
    }
}

proof fn lemma_one_variant(
    groups: Seq<RunAggregateGroup>,
    row: AggregateRunRow,
    query: AggregateQuery,
    tags: Seq<RunTag>,
    feedback: Seq<RunFeedback>,
)
    requires
        !groups.contains(RunAggregateGroup::Tag),
        !groups.contains(RunAggregateGroup::FeedbackKey),
    ensures
        grouped(groups, row, query, tags, feedback).len() == 1,
    decreases groups.len(),
{
    if groups.len() > 0 {
        let rest = groups.drop_last();
        assert forall|group: RunAggregateGroup| rest.contains(group) implies groups.contains(
            group,
        ) by {
            assert(groups[rest.index_of(group)] == group);
        }
        assert(groups[groups.len() - 1] == groups.last());
        lemma_one_variant(rest, row, query, tags, feedback);
        let before = grouped(rest, row, query, tags, feedback);
        lemma_one_value_keeps_count(before, "project_name"@, row.project_name@);
        lemma_one_value_keeps_count(
            before,
            "time_bucket_start_unix_nano"@,
            int_text(time_bucket_of(row.start_time_unix_nano, query.time_bucket_nanos)),
        );
        lemma_one_value_keeps_count(before, "run_type"@, row.run_type@);
        lemma_one_value_keeps_count(
            before,
            "model_name"@,
            known_or(row.model_name, "unknown"@),
        );
        lemma_one_value_keeps_count(
            before,
            "provider_name"@,
            known_or(row.provider_name, "unknown"@),
        );
        lemma_one_value_keeps_count(before, "error"@, "true"@);
        lemma_one_value_keeps_count(before, "error"@, "false"@);
    }
}

proof fn lemma_each_run_counts_once(
    rows: Seq<AggregateRunRow>,
    query: AggregateQuery,
    tags: Seq<RunTag>,
    feedback: Seq<RunFeedback>,
)
    requires
        !query.group_by.contains(RunAggregateGroup::Tag),
        !query.group_by.contains(RunAggregateGroup::FeedbackKey),
    ensures
        counted_runs(rows, query, tags, feedback).len() == rows.len(),
    decreases rows.len(),
{
    if rows.len() > 0 {
        lemma_each_run_counts_once(rows.drop_last(), query, tags, feedback);
        lemma_one_variant(query.group_by, rows.last(), query, tags, feedback);
    }
}

/// The counts of all groups add up to how often runs count at all; and unless runs
/// are grouped by tag or by feedback key, that is once for each run.
pub proof fn law_group_counts_add_up(
    rows: Seq<AggregateRunRow>,
    query: AggregateQuery,
    tags: Seq<RunTag>,
    feedback: Seq<RunFeedback>,
)
    ensures
        ({
            let counted = counted_runs(rows, query, tags, feedback);
            let groups = ordered_set(groups_of(counted), group_order());
            &&& total_count(counted, groups) == counted.len()
            &&& !query.group_by.contains(RunAggregateGroup::Tag) && !query.group_by.contains(
                RunAggregateGroup::FeedbackKey,
            ) ==> counted.len() == rows.len()
        }),
{
    let counted = counted_runs(rows, query, tags, feedback);
    let all = groups_of(counted);
    let groups = ordered_set(all, group_order());
    law_group_order();
    law_ordered_set_holds_its_elements(all, group_order());
    assert(groups.no_duplicates()) by {
        assert forall|i: int, j: int| 0 <= i < groups.len() && 0 <= j < groups.len() && i
            != j implies groups[i] != groups[j] by {
            lemma_group_order_total(groups[i], groups[j]);
            if i < j {
                assert(group_order()(groups[i], groups[j]));
            } else {
                assert(group_order()(groups[j], groups[i]));
            }
        }
    }
    assert forall|i: int| 0 <= i < counted.len() implies groups.contains(
        (#[trigger] counted[i]).group,
    ) by {
        assert(all[i] == counted[i].group);
        assert(all.contains(all[i]));
    }
    lemma_total_count(counted, groups);
    if !query.group_by.contains(RunAggregateGroup::Tag) && !query.group_by.contains(
        RunAggregateGroup::FeedbackKey,
    ) {
        lemma_each_run_counts_once(rows, query, tags, feedback);
    }
}

} // verus!
