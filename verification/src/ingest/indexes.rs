//! What is kept of a run to find it by.

use crate::float::FloatReadings;
use crate::float::Reading;
use crate::ingest::thread::first_nonempty;
use crate::ingest::thread::first_nonempty_text;
use crate::json::Json;
use crate::json::JsonValue;
use crate::json::PathList;
use crate::json::Paths;
use crate::json::at_path;
use crate::json::json_reading;
use crate::json::lemma_json_view;
use crate::json::no_paths;
use crate::json::path_value;
use crate::json::read_json;
use crate::json::values_of;
use crate::metrics::RunMetrics;
use crate::metrics::TypedRunMetrics;
use crate::metrics::metrics_in;
use crate::record::SpanRecord;
use crate::sorting::insert_distinct;
use crate::sorting::lemma_ordered_insert;
use crate::sorting::lemma_ordered_insert_map;
use crate::sorting::ordered_insert;
use crate::sorting::strictly_sorted;
use crate::sorting::total_order;
use crate::statement::Call;
use crate::statement::Param;
use crate::statement::Statement;
use crate::statement::call;
use crate::statement::calls_of;
use crate::statement::no_statements;
use crate::statement::push_statement;
use crate::text::byte_len;
use crate::text::byte_length;
use crate::text::insert_text;
use crate::text::is_less;
use crate::text::law_text_order;
use crate::text::law_text_order_is_total;
use crate::text::law_text_order_is_transitive;
use crate::text::lemma_byte_len_covers;
use crate::text::no_texts;
use crate::text::opt_text;
use crate::text::same;
use crate::text::text_less;
use crate::text::text_order;
use crate::text::texts;
use crate::text::with;
use vstd::prelude::*;

verus! {

pub const MAX_TAGS: usize = 32;

pub const MAX_TAG_BYTES: usize = 128;

pub const MAX_METADATA_PAIRS: usize = 32;

pub const MAX_METADATA_KEY_BYTES: usize = 128;

pub const MAX_METADATA_VALUE_BYTES: usize = 256;

pub const PARENT_ROOT_SQL: &'static str = "SELECT root_run_id, root_span_id, run_id, span_id
            FROM run_heads
            WHERE project_name = $1 AND trace_id = $2 AND span_id = $3
            LIMIT 1";

pub const DELETE_RUN_TAGS_SQL: &'static str = "DELETE FROM run_tags
        WHERE project_name = $1 AND trace_id = $2 AND span_id = $3";

pub const INSERT_RUN_TAG_SQL: &'static str = "INSERT INTO run_tags(project_name, trace_id, span_id, tag, updated_at)
            VALUES ($1, $2, $3, $4, CURRENT_TIMESTAMP)
            ON CONFLICT (project_name, trace_id, span_id, tag)
            DO UPDATE SET updated_at = CURRENT_TIMESTAMP";

pub const DELETE_RUN_METADATA_SQL: &'static str = "DELETE FROM run_metadata
        WHERE project_name = $1 AND trace_id = $2 AND span_id = $3";

pub const INSERT_RUN_METADATA_SQL: &'static str = "INSERT INTO run_metadata(project_name, trace_id, span_id, key, value, updated_at)
            VALUES ($1, $2, $3, $4, $5, CURRENT_TIMESTAMP)
            ON CONFLICT (project_name, trace_id, span_id, key, value)
            DO UPDATE SET updated_at = CURRENT_TIMESTAMP";

/// A text that is not empty and not too long.
pub open spec fn bounded(text: Seq<char>, max: int) -> Option<Seq<char>> {
    if text.len() > 0 && byte_len(text) <= max {
        Some(text)
    } else {
        None
    }
}

/// A text, a number or a truth as text, if it is not empty and not too long.
pub open spec fn scalar_text(value: JsonValue, max: int) -> Option<Seq<char>> {
    match value {
        JsonValue::Text(text) => bounded(text, max),
        JsonValue::Number { integer, text } => bounded(text, max),
        JsonValue::Bool(b) => bounded(
            if b {
                "true"@
            } else {
                "false"@
            },
            max,
        ),
        _ => None,
    }
}

fn bounded_raw_string(text: &str, max_bytes: usize) -> (r: Option<String>)
    ensures
        opt_text(r) == bounded(text@, max_bytes as int),
{
    if !text.is_empty() && byte_length(text) <= max_bytes {
        Some(text.to_owned())
    } else {
        None
    }
}

fn scalar_value_string(value: &Json, max_bytes: usize) -> (r: Option<String>)
    ensures
        opt_text(r) == scalar_text(value@, max_bytes as int),
{
    match value {
        Json::Text(text) => bounded_raw_string(text.as_str(), max_bytes),
        Json::Number(n) => bounded_raw_string(n.text.as_str(), max_bytes),
        Json::Bool(b) => if *b {
            bounded_raw_string("true", max_bytes)
        } else {
            bounded_raw_string("false", max_bytes)
        },
        _ => None,
    }
}

pub open spec fn tag_paths() -> PathList {
    no_paths().one("tags"@).one("langsmith.tags"@).two("langsmith.extra"@, "tags"@).two(
        "metadata"@,
        "tags"@,
    )
}

pub open spec fn metadata_paths() -> PathList {
    no_paths().one("metadata"@).two("langsmith.extra"@, "metadata"@).two("extra"@, "metadata"@)
}

fn paths_to_tags() -> (r: Paths)
    ensures
        r@ == tag_paths(),
{
    Paths::none().one("tags").one("langsmith.tags").two("langsmith.extra", "tags").two(
        "metadata",
        "tags",
    )
}

fn paths_to_metadata() -> (r: Paths)
    ensures
        r@ == metadata_paths(),
{
    Paths::none().one("metadata").two("langsmith.extra", "metadata").two("extra", "metadata")
}

/// The tags that values give, in order.
pub open spec fn tags_in(values: Seq<JsonValue>) -> Seq<Seq<char>>
    decreases values.len(),
{
    if values.len() == 0 {
        Seq::empty()
    } else {
        with(tags_in(values.drop_last()), scalar_text(values.last(), MAX_TAG_BYTES as int))
    }
}

/// The tags that the arrays at paths give, in order.
pub open spec fn tags_at(root: JsonValue, paths: Seq<Seq<Seq<char>>>) -> Seq<Seq<char>>
    decreases paths.len(),
{
    if paths.len() == 0 {
        Seq::empty()
    } else {
        let before = tags_at(root, paths.drop_last());
        match at_path(root, paths.last()) {
            Some(JsonValue::Array(values)) => before + tags_in(values),
            _ => before,
        }
    }
}

/// The different elements of `items` in order, of those that come first as long as
/// there are fewer than `most`.
pub open spec fn first_distinct<T>(items: Seq<T>, most: int, less: spec_fn(T, T) -> bool) -> Seq<T>
    decreases items.len(),
{
    if items.len() == 0 {
        items
    } else {
        let before = first_distinct(items.drop_last(), most, less);
        if before.len() >= most {
            before
        } else {
            ordered_insert(before, items.last(), less)
        }
    }
}

/// There are never more than there may be, they are in order, and each is one that
/// came.
pub proof fn law_first_distinct<T>(items: Seq<T>, most: int, less: spec_fn(T, T) -> bool)
    requires
        total_order(less),
        most >= 0,
    ensures
        first_distinct(items, most, less).len() <= most,
        strictly_sorted(first_distinct(items, most, less), less),
        forall|x: T| #[trigger] first_distinct(items, most, less).contains(x) ==> items.contains(x),
    decreases items.len(),
{
    if items.len() > 0 {
        let rest = items.drop_last();
        let before = first_distinct(rest, most, less);
        law_first_distinct(rest, most, less);
        lemma_ordered_insert(before, items.last(), less);
        assert forall|x: T| #[trigger] first_distinct(items, most, less).contains(
            x,
        ) implies items.contains(x) by {
            if rest.contains(x) {
                assert(items[rest.index_of(x)] == x);
            } else {
                assert(items[items.len() - 1] == x);
            }
        }
    }
}

/// The tags of a run with these attributes.
pub open spec fn tags_of_run(root: JsonValue) -> Seq<Seq<char>> {
    first_distinct(tags_at(root, tag_paths().list), MAX_TAGS as int, text_order())
}

fn add_tags(tags: &mut Vec<String>, values: &Vec<Json>, Ghost(done): Ghost<Seq<Seq<char>>>)
    requires
        texts(old(tags)@) == first_distinct(done, MAX_TAGS as int, text_order()),
    ensures
        texts(final(tags)@) == first_distinct(
            done + tags_in(values_of(values@)),
            MAX_TAGS as int,
            text_order(),
        ),
{
    let ghost all = values_of(values@);
    let mut i: usize = 0;
    assert(all.take(0) =~= Seq::<JsonValue>::empty());
    assert(done + Seq::<Seq<char>>::empty() =~= done);
    while i < values.len()
        invariant
            i <= values.len(),
            all == values_of(values@),
            texts(tags@) == first_distinct(
                done + tags_in(all.take(i as int)),
                MAX_TAGS as int,
                text_order(),
            ),
        decreases values.len() - i,
    {
        assert(all.take(i + 1).drop_last() =~= all.take(i as int));
        assert(all.take(i + 1).last() == values@[i as int]@);
        let ghost before = done + tags_in(all.take(i as int));
        assert(texts(tags@).len() == tags@.len());
        if let Some(tag) = scalar_value_string(&values[i], MAX_TAG_BYTES) {
            assert(done + tags_in(all.take(i + 1)) =~= before.push(tag@));
            assert(before.push(tag@).drop_last() =~= before);
            if tags.len() < MAX_TAGS {
                insert_text(tags, tag);
            }
        }
        i += 1;
    }
    assert(all.take(i as int) =~= all);
}

/// The tags of a run with these attributes.
pub fn extract_tags(root: &Json) -> (r: Vec<String>)
    ensures
        texts(r@) == tags_of_run(root@),
{
    let paths = paths_to_tags();
    let ghost all = paths@.list;
    let mut tags = no_texts();
    let mut i: usize = 0;
    assert(all.take(0) =~= Seq::empty());
    while i < paths.list.len()
        invariant
            i <= paths.list.len(),
            all == paths@.list,
            texts(tags@) == first_distinct(
                tags_at(root@, all.take(i as int)),
                MAX_TAGS as int,
                text_order(),
            ),
        decreases paths.list.len() - i,
    {
        assert(all.take(i + 1).drop_last() =~= all.take(i as int));
        assert(all.take(i + 1).last() == texts(paths.list@[i as int]@));
        match path_value(root, &paths.list[i]) {
            Some(found) => {
                proof {
                    lemma_json_view(*found);
                }
                match found {
                    Json::Array(values) => {
                        add_tags(&mut tags, values, Ghost(tags_at(root@, all.take(i as int))));
                    },
                    _ => {},
                }
            },
            None => {},
        }
        i += 1;
    }
    assert(all.take(i as int) =~= all);
    tags
}

/// A key of the metadata of a run, and its value.
#[derive(Debug, PartialEq, Eq)]
pub struct MetadataPair {
    pub key: String,
    pub value: String,
}

/// What a [`MetadataPair`] holds.
pub struct Pair {
    pub key: Seq<char>,
    pub value: Seq<char>,
}

impl View for MetadataPair {
    type V = Pair;

    open spec fn view(&self) -> Pair {
        Pair { key: self.key@, value: self.value@ }
    }
}

pub open spec fn pairs_of(pairs: Seq<MetadataPair>) -> Seq<Pair> {
    pairs.map_values(|pair: MetadataPair| pair@)
}

pub open spec fn pair_less(a: Pair, b: Pair) -> bool {
    if a.key != b.key {
        text_less(a.key, b.key)
    } else {
        text_less(a.value, b.value)
    }
}

/// The order of metadata: by key, then by value.
pub open spec fn pair_order() -> spec_fn(Pair, Pair) -> bool {
    |a: Pair, b: Pair| pair_less(a, b)
}

/// The order of metadata is an order of all different pairs.
pub proof fn law_pair_order()
    ensures
        total_order(pair_order()),
{
    let less = pair_order();
    assert forall|a: Pair, b: Pair| #[trigger] less(a, b) implies !less(b, a) by {
        law_text_order_is_total(a.key, b.key);
        law_text_order_is_total(a.value, b.value);
    }
    assert forall|a: Pair, b: Pair| !#[trigger] less(a, b) && !less(b, a) implies a == b by {
        law_text_order_is_total(a.key, b.key);
        law_text_order_is_total(a.value, b.value);
    }
    assert forall|a: Pair, b: Pair, c: Pair| #[trigger] less(a, b) && #[trigger] less(
        b,
        c,
    ) implies less(a, c) by {
        law_text_order_is_total(a.key, b.key);
        law_text_order_is_total(b.key, c.key);
        if a.key != b.key && b.key != c.key {
            law_text_order_is_transitive(a.key, b.key, c.key);
            law_text_order_is_total(a.key, c.key);
        } else if a.key == b.key && b.key == c.key {
            law_text_order_is_transitive(a.value, b.value, c.value);
        }
    }
}

fn is_pair_less(a: &MetadataPair, b: &MetadataPair) -> (r: bool)
    ensures
        r == pair_less(a@, b@),
{
    if same(a.key.as_str(), b.key.as_str()) {
        is_less(a.value.as_str(), b.value.as_str())
    } else {
        is_less(a.key.as_str(), b.key.as_str())
    }
}

/// The pairs with one more, if its key and its value are neither empty nor too long.
pub open spec fn with_pair(pairs: Seq<Pair>, key: Seq<char>, value: JsonValue) -> Seq<Pair> {
    let kept_key = bounded(key, MAX_METADATA_KEY_BYTES as int);
    let kept_value = scalar_text(value, MAX_METADATA_VALUE_BYTES as int);
    if kept_key is Some && kept_value is Some {
        pairs.push(Pair { key: kept_key->0, value: kept_value->0 })
    } else {
        pairs
    }
}

/// The pairs that the first members of an object give, in order.
pub open spec fn pairs_in(keys: Seq<Seq<char>>, values: Seq<JsonValue>, n: int) -> Seq<Pair>
    decreases n,
{
    if n <= 0 {
        Seq::empty()
    } else {
        with_pair(pairs_in(keys, values, n - 1), keys[n - 1], values[n - 1])
    }
}

pub open spec fn member_count(keys: Seq<Seq<char>>, values: Seq<JsonValue>) -> int {
    if keys.len() < values.len() {
        keys.len() as int
    } else {
        values.len() as int
    }
}

/// The pairs that the objects at paths give, in order.
pub open spec fn pairs_at(root: JsonValue, paths: Seq<Seq<Seq<char>>>) -> Seq<Pair>
    decreases paths.len(),
{
    if paths.len() == 0 {
        Seq::empty()
    } else {
        let before = pairs_at(root, paths.drop_last());
        match at_path(root, paths.last()) {
            Some(JsonValue::Object { keys, values }) => before + pairs_in(
                keys,
                values,
                member_count(keys, values),
            ),
            _ => before,
        }
    }
}

/// The metadata of a run with these attributes.
pub open spec fn metadata_of_run(root: JsonValue) -> Seq<Pair> {
    first_distinct(
        pairs_at(root, metadata_paths().list),
        MAX_METADATA_PAIRS as int,
        pair_order(),
    )
}

proof fn lemma_tags_in_are_bounded(values: Seq<JsonValue>)
    ensures
        forall|tag: Seq<char>| #[trigger]
            tags_in(values).contains(tag) ==> 0 < byte_len(tag) <= MAX_TAG_BYTES,
    decreases values.len(),
{
    if values.len() > 0 {
        lemma_tags_in_are_bounded(values.drop_last());
        let before = tags_in(values.drop_last());
        assert forall|tag: Seq<char>| #[trigger] tags_in(values).contains(tag) implies 0 < byte_len(
            tag,
        ) <= MAX_TAG_BYTES by {
            let i = tags_in(values).index_of(tag);
            if i < before.len() {
                assert(before[i] == tag);
                assert(before.contains(tag));
            } else {
                lemma_byte_len_covers(tag);
            }
        }
    }
}

proof fn lemma_tags_at_are_bounded(root: JsonValue, paths: Seq<Seq<Seq<char>>>)
    ensures
        forall|tag: Seq<char>| #[trigger]
            tags_at(root, paths).contains(tag) ==> 0 < byte_len(tag) <= MAX_TAG_BYTES,
    decreases paths.len(),
{
    if paths.len() > 0 {
        lemma_tags_at_are_bounded(root, paths.drop_last());
        let before = tags_at(root, paths.drop_last());
        if let Some(JsonValue::Array(values)) = at_path(root, paths.last()) {
            lemma_tags_in_are_bounded(values);
            assert forall|tag: Seq<char>| #[trigger]
                tags_at(root, paths).contains(tag) implies 0 < byte_len(tag) <= MAX_TAG_BYTES by {
                let i = tags_at(root, paths).index_of(tag);
                if i < before.len() {
                    assert(before[i] == tag);
                    assert(before.contains(tag));
                } else {
                    assert(tags_in(values)[i - before.len()] == tag);
                    assert(tags_in(values).contains(tag));
                }
            }
        }
    }
}

/// Whether a pair is neither empty nor too long.
pub open spec fn is_bounded_pair(pair: Pair) -> bool {
    &&& 0 < byte_len(pair.key) <= MAX_METADATA_KEY_BYTES
    &&& 0 < byte_len(pair.value) <= MAX_METADATA_VALUE_BYTES
}

proof fn lemma_pairs_in_are_bounded(keys: Seq<Seq<char>>, values: Seq<JsonValue>, n: int)
    ensures
        forall|pair: Pair| #[trigger]
            pairs_in(keys, values, n).contains(pair) ==> is_bounded_pair(pair),
    decreases n,
{
    if n > 0 {
        lemma_pairs_in_are_bounded(keys, values, n - 1);
        let before = pairs_in(keys, values, n - 1);
        let now = pairs_in(keys, values, n);
        assert forall|pair: Pair| #[trigger] now.contains(pair) implies is_bounded_pair(pair) by {
            let i = now.index_of(pair);
            if i < before.len() {
                assert(before[i] == pair);
                assert(before.contains(pair));
            } else {
                lemma_byte_len_covers(pair.key);
                lemma_byte_len_covers(pair.value);
            }
        }
    }
}

proof fn lemma_pairs_at_are_bounded(root: JsonValue, paths: Seq<Seq<Seq<char>>>)
    ensures
        forall|pair: Pair| #[trigger]
            pairs_at(root, paths).contains(pair) ==> is_bounded_pair(pair),
    decreases paths.len(),
{
    if paths.len() > 0 {
        lemma_pairs_at_are_bounded(root, paths.drop_last());
        let before = pairs_at(root, paths.drop_last());
        let now = pairs_at(root, paths);
        if let Some(JsonValue::Object { keys, values }) = at_path(root, paths.last()) {
            let n = member_count(keys, values);
            lemma_pairs_in_are_bounded(keys, values, n);
            assert forall|pair: Pair| #[trigger] now.contains(pair) implies is_bounded_pair(
                pair,
            ) by {
                let i = now.index_of(pair);
                if i < before.len() {
                    assert(before[i] == pair);
                    assert(before.contains(pair));
                } else {
                    assert(pairs_in(keys, values, n)[i - before.len()] == pair);
                    assert(pairs_in(keys, values, n).contains(pair));
                }
            }
        }
    }
}

/// The indexes of a run are bounded: it has so many tags and so many pairs of metadata
/// at most, each once, and none of them is empty or too long.
pub proof fn law_indexes_are_bounded(root: JsonValue)
    ensures
        tags_of_run(root).len() <= MAX_TAGS,
        strictly_sorted(tags_of_run(root), text_order()),
        forall|tag: Seq<char>| #[trigger]
            tags_of_run(root).contains(tag) ==> 0 < byte_len(tag) <= MAX_TAG_BYTES,
        metadata_of_run(root).len() <= MAX_METADATA_PAIRS,
        strictly_sorted(metadata_of_run(root), pair_order()),
        forall|pair: Pair| #[trigger]
            metadata_of_run(root).contains(pair) ==> is_bounded_pair(pair),
{
    law_text_order();
    law_pair_order();
    law_first_distinct(tags_at(root, tag_paths().list), MAX_TAGS as int, text_order());
    law_first_distinct(
        pairs_at(root, metadata_paths().list),
        MAX_METADATA_PAIRS as int,
        pair_order(),
    );
    lemma_tags_at_are_bounded(root, tag_paths().list);
    lemma_pairs_at_are_bounded(root, metadata_paths().list);
}

fn insert_pair(pairs: &mut Vec<MetadataPair>, pair: MetadataPair)
    ensures
        pairs_of(final(pairs)@) == ordered_insert(pairs_of(old(pairs)@), pair@, pair_order()),
{
    let ghost less = |a: MetadataPair, b: MetadataPair| pair_less(a@, b@);
    let ghost held = |one: MetadataPair| one@;
    proof {
        assert forall|a: MetadataPair, b: MetadataPair| #[trigger] less(a, b) == pair_order()(
            held(a),
            held(b),
        ) by {}
        lemma_ordered_insert_map(pairs@, pair, held, less, pair_order());
    }
    insert_distinct(pairs, pair, is_pair_less, Ghost(less));
}

fn add_pairs(
    pairs: &mut Vec<MetadataPair>,
    keys: &Vec<String>,
    values: &Vec<Json>,
    Ghost(done): Ghost<Seq<Pair>>,
)
    requires
        pairs_of(old(pairs)@) == first_distinct(done, MAX_METADATA_PAIRS as int, pair_order()),
    ensures
        pairs_of(final(pairs)@) == first_distinct(
            done + pairs_in(
                texts(keys@),
                values_of(values@),
                member_count(texts(keys@), values_of(values@)),
            ),
            MAX_METADATA_PAIRS as int,
            pair_order(),
        ),
{
    let ghost all_keys = texts(keys@);
    let ghost all_values = values_of(values@);
    let count: usize = if keys.len() < values.len() {
        keys.len()
    } else {
        values.len()
    };
    let mut i: usize = 0;
    assert(done + Seq::<Pair>::empty() =~= done);
    while i < count
        invariant
            i <= count,
            count <= keys.len(),
            count <= values.len(),
            all_keys == texts(keys@),
            all_values == values_of(values@),
            pairs_of(pairs@) == first_distinct(
                done + pairs_in(all_keys, all_values, i as int),
                MAX_METADATA_PAIRS as int,
                pair_order(),
            ),
        decreases count - i,
    {
        let ghost before = done + pairs_in(all_keys, all_values, i as int);
        assert(all_keys[i as int] == keys@[i as int]@);
        assert(all_values[i as int] == values@[i as int]@);
        assert(pairs_of(pairs@).len() == pairs@.len());
        let key = bounded_raw_string(keys[i].as_str(), MAX_METADATA_KEY_BYTES);
        let value = scalar_value_string(&values[i], MAX_METADATA_VALUE_BYTES);
        if let Some(key) = key {
            if let Some(value) = value {
                let pair = MetadataPair { key, value };
                assert(done + pairs_in(all_keys, all_values, i + 1) =~= before.push(pair@));
                assert(before.push(pair@).drop_last() =~= before);
                if pairs.len() < MAX_METADATA_PAIRS {
                    insert_pair(pairs, pair);
                }
            }
        }
        i += 1;
    }
    assert(all_keys.len() == keys@.len());
}

/// The metadata of a run with these attributes.
pub fn extract_metadata(root: &Json) -> (r: Vec<MetadataPair>)
    ensures
        pairs_of(r@) == metadata_of_run(root@),
{
    let paths = paths_to_metadata();
    let ghost all = paths@.list;
    let mut pairs: Vec<MetadataPair> = Vec::new();
    let mut i: usize = 0;
    assert(all.take(0) =~= Seq::empty());
    assert(pairs_of(pairs@) =~= Seq::<Pair>::empty());
    while i < paths.list.len()
        invariant
            i <= paths.list.len(),
            all == paths@.list,
            pairs_of(pairs@) == first_distinct(
                pairs_at(root@, all.take(i as int)),
                MAX_METADATA_PAIRS as int,
                pair_order(),
            ),
        decreases paths.list.len() - i,
    {
        assert(all.take(i + 1).drop_last() =~= all.take(i as int));
        assert(all.take(i + 1).last() == texts(paths.list@[i as int]@));
        match path_value(root, &paths.list[i]) {
            Some(found) => {
                proof {
                    lemma_json_view(*found);
                }
                match found {
                    Json::Object { keys, values } => {
                        add_pairs(
                            &mut pairs,
                            keys,
                            values,
                            Ghost(pairs_at(root@, all.take(i as int))),
                        );
                    },
                    _ => {},
                }
            },
            None => {},
        }
        i += 1;
    }
    assert(all.take(i as int) =~= all);
    pairs
}

/// The root of the trace that a run is in.
#[derive(Debug, PartialEq, Eq)]
pub struct RootLocator {
    pub run_id: String,
    pub span_id: String,
}

/// What the head of the parent of a run says.
#[derive(Debug, PartialEq, Eq)]
pub struct ParentHead {
    pub root_run_id: String,
    pub root_span_id: String,
    pub run_id: String,
    pub span_id: String,
}

/// The statement for the head of the parent of a run, if it has a parent.
pub fn parent_head_statement(record: &SpanRecord) -> (r: Option<Statement>)
    ensures
        match r {
            Some(statement) => record.parent_span_id is Some && statement@ == call(
                "load parent root locator"@,
                PARENT_ROOT_SQL@,
            ).text(record.project_name@).text(record.trace_id@).text(record.parent_span_id->0@),
            None => record.parent_span_id is None,
        },
{
    match &record.parent_span_id {
        Some(parent) => Some(
            Statement::new("load parent root locator", PARENT_ROOT_SQL).text(
                record.project_name.as_str(),
            ).text(record.trace_id.as_str()).text(parent.as_str()),
        ),
        None => None,
    }
}

/// What a [`RootLocator`] holds.
pub struct Root {
    pub run_id: Seq<char>,
    pub span_id: Seq<char>,
}

impl View for RootLocator {
    type V = Root;

    open spec fn view(&self) -> Root {
        Root { run_id: self.run_id@, span_id: self.span_id@ }
    }
}

/// The root of the trace of a run: that of its parent, or the parent, if there is a
/// head of it, and else the run itself.
pub open spec fn root_of(record: SpanRecord, parent: Option<ParentHead>) -> Root {
    match (record.parent_span_id, parent) {
        (Some(parent_span), Some(head)) => Root {
            run_id: first_nonempty(head.root_run_id@, head.run_id@, record.run_id@),
            span_id: first_nonempty(head.root_span_id@, head.span_id@, parent_span@),
        },
        _ => Root { run_id: record.run_id@, span_id: record.span_id@ },
    }
}

/// The root of the trace of a run.
pub fn root_locator_for_record(record: &SpanRecord, parent: &Option<ParentHead>) -> (r: RootLocator)
    ensures
        r@ == root_of(*record, *parent),
{
    match (&record.parent_span_id, parent) {
        (Some(parent_span), Some(head)) => RootLocator {
            run_id: first_nonempty_text(
                head.root_run_id.as_str(),
                head.run_id.as_str(),
                record.run_id.as_str(),
            ),
            span_id: first_nonempty_text(
                head.root_span_id.as_str(),
                head.span_id.as_str(),
                parent_span.as_str(),
            ),
        },
        _ => RootLocator { run_id: record.run_id.clone(), span_id: record.span_id.clone() },
    }
}

/// What is kept of a run to find it by.
#[derive(Debug, PartialEq, Eq)]
pub struct ScalarIndexes {
    pub root_run_id: String,
    pub root_span_id: String,
    pub metrics: TypedRunMetrics,
    pub tags: Vec<String>,
    pub metadata: Vec<MetadataPair>,
}

/// What [`ScalarIndexes`] hold.
pub struct Indexes {
    pub root_run_id: Seq<char>,
    pub root_span_id: Seq<char>,
    pub metrics: RunMetrics,
    pub tags: Seq<Seq<char>>,
    pub metadata: Seq<Pair>,
}

impl View for ScalarIndexes {
    type V = Indexes;

    open spec fn view(&self) -> Indexes {
        Indexes {
            root_run_id: self.root_run_id@,
            root_span_id: self.root_span_id@,
            metrics: self.metrics@,
            tags: texts(self.tags@),
            metadata: pairs_of(self.metadata@),
        }
    }
}

/// What is kept of a run with these attributes to find it by.
pub open spec fn indexes_in(
    value: JsonValue,
    record: SpanRecord,
    root: Root,
    readings: Map<Seq<char>, Reading>,
) -> Indexes {
    Indexes {
        root_run_id: root.run_id,
        root_span_id: root.span_id,
        metrics: metrics_in(
            value,
            record.start_time_unix_nano,
            record.end_time_unix_nano,
            readings,
        ),
        tags: tags_of_run(value),
        metadata: metadata_of_run(value),
    }
}

impl ScalarIndexes {
    /// What is kept of a run with these attributes to find it by.
    pub fn from_attributes(
        attributes: &Json,
        record: &SpanRecord,
        root: RootLocator,
        readings: &FloatReadings,
    ) -> (r: Self)
        ensures
            r@ == indexes_in(attributes@, *record, root@, readings@),
    {
        ScalarIndexes {
            metrics: TypedRunMetrics::from_attributes(
                attributes,
                record.start_time_unix_nano,
                record.end_time_unix_nano,
                readings,
            ),
            tags: extract_tags(attributes),
            metadata: extract_metadata(attributes),
            root_run_id: root.run_id,
            root_span_id: root.span_id,
        }
    }

    /// What is kept of a run to find it by, if its attributes are JSON.
    pub fn from_record(record: &SpanRecord, root: RootLocator, readings: &FloatReadings) -> (r:
        Result<Self, String>)
        ensures
            match r {
                Ok(indexes) => json_reading(record.attributes_json@) is Some && indexes@
                    == indexes_in(
                    json_reading(record.attributes_json@)->0,
                    *record,
                    root@,
                    readings@,
                ),
                Err(message) => json_reading(record.attributes_json@) is None && message@
                    == "parse attributes_json for scalar indexes"@,
            },
    {
        match read_json(record.attributes_json.as_str()) {
            Some(attributes) => Ok(
                ScalarIndexes::from_attributes(&attributes, record, root, readings),
            ),
            None => Err("parse attributes_json for scalar indexes".to_owned()),
        }
    }
}

/// A statement about a run.
pub open spec fn run_call(purpose: Seq<char>, sql: Seq<char>, record: SpanRecord) -> Call {
    call(purpose, sql).text(record.project_name@).text(record.trace_id@).text(record.span_id@)
}

fn run_statement(purpose: &str, sql: &str, record: &SpanRecord) -> (r: Statement)
    ensures
        r@ == run_call(purpose@, sql@, *record),
{
    Statement::new(purpose, sql).text(record.project_name.as_str()).text(
        record.trace_id.as_str(),
    ).text(record.span_id.as_str())
}

pub open spec fn tag_calls(record: SpanRecord, tags: Seq<Seq<char>>) -> Seq<Call> {
    tags.map_values(
        |tag: Seq<char>| run_call("insert run tag"@, INSERT_RUN_TAG_SQL@, record).text(tag),
    )
}

pub open spec fn metadata_calls(record: SpanRecord, pairs: Seq<Pair>) -> Seq<Call> {
    pairs.map_values(
        |pair: Pair|
            run_call("insert run metadata"@, INSERT_RUN_METADATA_SQL@, record).text(
                pair.key,
            ).text(pair.value),
    )
}

/// The statements that replace the tags and the metadata of a run.
pub open spec fn replace_indexes_calls(
    record: SpanRecord,
    tags: Seq<Seq<char>>,
    metadata: Seq<Pair>,
) -> Seq<Call> {
    Seq::empty().push(run_call("delete old run tags"@, DELETE_RUN_TAGS_SQL@, record)) + tag_calls(
        record,
        tags,
    ) + Seq::empty().push(
        run_call("delete old run metadata"@, DELETE_RUN_METADATA_SQL@, record),
    ) + metadata_calls(record, metadata)
}

/// The statements that replace the tags and the metadata of a run.
pub fn replace_indexes_statements(record: &SpanRecord, indexes: &ScalarIndexes) -> (r: Vec<
    Statement,
>)
    ensures
        calls_of(r@) == replace_indexes_calls(*record, indexes@.tags, indexes@.metadata),
{
    let mut out = no_statements();
    push_statement(
        &mut out,
        run_statement("delete old run tags", DELETE_RUN_TAGS_SQL, record),
    );
    let ghost first = calls_of(out@);
    let ghost tags = tag_calls(*record, indexes@.tags);
    let mut i: usize = 0;
    assert(first + tags.take(0) =~= first);
    while i < indexes.tags.len()
        invariant
            i <= indexes.tags.len(),
            tags == tag_calls(*record, indexes@.tags),
            tags.len() == indexes.tags@.len(),
            calls_of(out@) =~= first + tags.take(i as int),
        decreases indexes.tags.len() - i,
    {
        assert(indexes@.tags[i as int] == indexes.tags@[i as int]@);
        push_statement(
            &mut out,
            run_statement("insert run tag", INSERT_RUN_TAG_SQL, record).text(
                indexes.tags[i].as_str(),
            ),
        );
        i += 1;
        assert(tags.take(i as int) =~= tags.take(i - 1).push(tags[i - 1]));
    }
    assert(tags.take(i as int) =~= tags);
    push_statement(
        &mut out,
        run_statement("delete old run metadata", DELETE_RUN_METADATA_SQL, record),
    );
    let ghost second = calls_of(out@);
    let ghost pairs = metadata_calls(*record, indexes@.metadata);
    let mut k: usize = 0;
    assert(second + pairs.take(0) =~= second);
    while k < indexes.metadata.len()
        invariant
            k <= indexes.metadata.len(),
            pairs == metadata_calls(*record, indexes@.metadata),
            pairs.len() == indexes.metadata@.len(),
            calls_of(out@) =~= second + pairs.take(k as int),
        decreases indexes.metadata.len() - k,
    {
        assert(indexes@.metadata[k as int] == indexes.metadata@[k as int]@);
        push_statement(
            &mut out,
            run_statement("insert run metadata", INSERT_RUN_METADATA_SQL, record).text(
                indexes.metadata[k].key.as_str(),
            ).text(indexes.metadata[k].value.as_str()),
        );
        k += 1;
        assert(pairs.take(k as int) =~= pairs.take(k - 1).push(pairs[k - 1]));
    }
    assert(pairs.take(k as int) =~= pairs);
    assert(calls_of(out@) =~= replace_indexes_calls(*record, indexes@.tags, indexes@.metadata));
    out
}

/// Whether a tag stands in a list of tags of the attributes.
pub open spec fn is_tag_in(root: JsonValue, tag: Seq<char>) -> bool {
    exists|path: Seq<Seq<char>>, i: int|
        {
            &&& path.len() > 0
            &&& path.last() == "tags"@ || path.last() == "langsmith.tags"@
            &&& at_path(root, path) matches Some(JsonValue::Array(values))
            &&& 0 <= i < values.len()
            &&& #[trigger] tag_at(root, path, i) == Some(tag)
        }
}

/// The text at a place of a list, if it can be a tag.
pub open spec fn tag_at(root: JsonValue, path: Seq<Seq<char>>, i: int) -> Option<Seq<char>> {
    match at_path(root, path) {
        Some(JsonValue::Array(values)) => scalar_text(values[i], 128),
        _ => None,
    }
}

/// Whether a pair stands in the metadata of the attributes.
pub open spec fn is_pair_in(root: JsonValue, pair: Pair) -> bool {
    exists|path: Seq<Seq<char>>, i: int|
        path.len() > 0 && path.last() == "metadata"@ && #[trigger] pair_at(root, path, i) == Some(
            pair,
        )
}

/// The key and the value at a place of an object, if they can be metadata.
pub open spec fn pair_at(root: JsonValue, path: Seq<Seq<char>>, i: int) -> Option<Pair> {
    match at_path(root, path) {
        Some(JsonValue::Object { keys, values }) => if 0 <= i < keys.len() && i < values.len()
            && bounded(keys[i], 128) is Some {
            match scalar_text(values[i], 256) {
                Some(value) => Some(Pair { key: keys[i], value }),
                None => None,
            }
        } else {
            None
        },
        _ => None,
    }
}

proof fn lemma_tags_in(values: Seq<JsonValue>, tag: Seq<char>)
    requires
        tags_in(values).contains(tag),
    ensures
        exists|i: int| 0 <= i < values.len() && scalar_text(#[trigger] values[i], 128) == Some(tag),
    decreases values.len(),
{
    if values.len() > 0 {
        let before = values.drop_last();
        let rest = tags_in(before);
        let n = choose|n: int| 0 <= n < tags_in(values).len() && tags_in(values)[n] == tag;
        if n < rest.len() {
            assert(rest[n] == tag);
            assert(rest.contains(tag));
            lemma_tags_in(before, tag);
            let i = choose|i: int|
                0 <= i < before.len() && scalar_text(#[trigger] before[i], 128) == Some(tag);
            assert(values[i] == before[i]);
        } else {
            assert(values[values.len() - 1] == values.last());
        }
    }
}

proof fn lemma_tags_at(root: JsonValue, paths: Seq<Seq<Seq<char>>>, tag: Seq<char>)
    requires
        tags_at(root, paths).contains(tag),
        forall|k: int|
            0 <= k < paths.len() ==> (#[trigger] paths[k]).len() > 0 && (paths[k].last()
                == "tags"@ || paths[k].last() == "langsmith.tags"@),
    ensures
        is_tag_in(root, tag),
    decreases paths.len(),
{
    if paths.len() > 0 {
        let before = paths.drop_last();
        let rest = tags_at(root, before);
        let all = tags_at(root, paths);
        let n = choose|n: int| 0 <= n < all.len() && all[n] == tag;
        if n < rest.len() {
            assert(rest[n] == tag);
            assert(rest.contains(tag));
            assert forall|k: int| 0 <= k < before.len() implies (#[trigger] before[k]).len() > 0
                && (before[k].last() == "tags"@ || before[k].last() == "langsmith.tags"@) by {
                assert(before[k] == paths[k]);
            }
            lemma_tags_at(root, before, tag);
        } else {
            let path = paths.last();
            assert(paths[paths.len() - 1] == path);
            let values = at_path(root, path)->0->Array_0;
            assert(tags_in(values)[n - rest.len()] == tag);
            assert(tags_in(values).contains(tag));
            lemma_tags_in(values, tag);
            let i = choose|i: int|
                0 <= i < values.len() && scalar_text(#[trigger] values[i], 128) == Some(tag);
            assert(tag_at(root, path, i) == Some(tag));
        }
    }
}

proof fn lemma_pairs_in(keys: Seq<Seq<char>>, values: Seq<JsonValue>, n: int, pair: Pair)
    requires
        0 <= n <= keys.len(),
        n <= values.len(),
        pairs_in(keys, values, n).contains(pair),
    ensures
        exists|i: int|
            #![trigger keys[i]]
            0 <= i < n && keys[i] == pair.key && bounded(keys[i], 128) is Some && scalar_text(
                values[i],
                256,
            ) == Some(pair.value),
    decreases n,
{
    if n > 0 {
        let rest = pairs_in(keys, values, n - 1);
        let all = pairs_in(keys, values, n);
        let m = choose|m: int| 0 <= m < all.len() && all[m] == pair;
        if m < rest.len() {
            assert(rest[m] == pair);
            assert(rest.contains(pair));
            lemma_pairs_in(keys, values, n - 1, pair);
        } else {
            assert(keys[n - 1] == pair.key);
        }
    }
}

proof fn lemma_pairs_at(root: JsonValue, paths: Seq<Seq<Seq<char>>>, pair: Pair)
    requires
        pairs_at(root, paths).contains(pair),
        forall|k: int|
            0 <= k < paths.len() ==> (#[trigger] paths[k]).len() > 0 && paths[k].last()
                == "metadata"@,
    ensures
        is_pair_in(root, pair),
    decreases paths.len(),
{
    if paths.len() > 0 {
        let before = paths.drop_last();
        let rest = pairs_at(root, before);
        let all = pairs_at(root, paths);
        let n = choose|n: int| 0 <= n < all.len() && all[n] == pair;
        if n < rest.len() {
            assert(rest[n] == pair);
            assert(rest.contains(pair));
            assert forall|k: int| 0 <= k < before.len() implies (#[trigger] before[k]).len() > 0
                && before[k].last() == "metadata"@ by {
                assert(before[k] == paths[k]);
            }
            lemma_pairs_at(root, before, pair);
        } else {
            let path = paths.last();
            assert(paths[paths.len() - 1] == path);
            let keys = at_path(root, path)->0->Object_keys;
            let values = at_path(root, path)->0->Object_values;
            let count = member_count(keys, values);
            assert(pairs_in(keys, values, count)[n - rest.len()] == pair);
            assert(pairs_in(keys, values, count).contains(pair));
            lemma_pairs_in(keys, values, count, pair);
            let i = choose|i: int|
                #![trigger keys[i]]
                0 <= i < count && keys[i] == pair.key && bounded(keys[i], 128) is Some
                    && scalar_text(values[i], 256) == Some(pair.value);
            assert(pair_at(root, path, i) == Some(pair));
        }
    }
}

/// A run is found by the tags and the metadata that its attributes hold, and by no others.
pub proof fn law_indexes_are_of_the_attributes(root: JsonValue)
    ensures
        forall|tag: Seq<char>| #[trigger]
            tags_of_run(root).contains(tag) ==> is_tag_in(root, tag),
        forall|pair: Pair| #[trigger]
            metadata_of_run(root).contains(pair) ==> is_pair_in(root, pair),
{
    let tags = tag_paths().list;
    let pairs = metadata_paths().list;
    assert(tags.len() == 4);
    assert(pairs.len() == 3);
    law_text_order();
    law_pair_order();
    law_first_distinct(tags_at(root, tags), MAX_TAGS as int, text_order());
    law_first_distinct(pairs_at(root, pairs), MAX_METADATA_PAIRS as int, pair_order());
    assert forall|tag: Seq<char>| #[trigger] tags_of_run(root).contains(tag) implies is_tag_in(
        root,
        tag,
    ) by {
        lemma_tags_at(root, tags, tag);
    }
    assert forall|pair: Pair| #[trigger] metadata_of_run(root).contains(pair) implies is_pair_in(
        root,
        pair,
    ) by {
        lemma_pairs_at(root, pairs, pair);
    }
}

/// As long as there is room, nothing is left out.
pub proof fn law_first_distinct_leaves_nothing_out<T>(
    items: Seq<T>,
    most: int,
    less: spec_fn(T, T) -> bool,
)
    requires
        total_order(less),
        first_distinct(items, most, less).len() < most,
    ensures
        forall|x: T| #[trigger] items.contains(x) ==> first_distinct(items, most, less).contains(x),
    decreases items.len(),
{
    if items.len() > 0 {
        let rest = items.drop_last();
        let before = first_distinct(rest, most, less);
        law_first_distinct(rest, most, less);
        assert(before.len() < most);
        lemma_ordered_insert(before, items.last(), less);
        law_first_distinct_leaves_nothing_out(rest, most, less);
        assert forall|x: T| #[trigger] items.contains(x) implies first_distinct(
            items,
            most,
            less,
        ).contains(x) by {
            let m = choose|m: int| 0 <= m < items.len() && items[m] == x;
            if m < rest.len() {
                assert(rest[m] == x);
                assert(rest.contains(x));
            }
        }
    }
}

/// A run has the root of its parent; a run without one is its own root.
pub proof fn law_child_has_the_root_of_its_parent(
    parent: SpanRecord,
    grandparent: Option<ParentHead>,
    child: SpanRecord,
    head: ParentHead,
)
    requires
        head.root_run_id@ == root_of(parent, grandparent).run_id,
        head.root_span_id@ == root_of(parent, grandparent).span_id,
        head.root_run_id@.len() > 0,
        head.root_span_id@.len() > 0,
        child.parent_span_id is Some,
    ensures
        root_of(child, Some(head)) == root_of(parent, grandparent),
        parent.parent_span_id is None ==> root_of(parent, grandparent).span_id == parent.span_id@
            && root_of(parent, grandparent).run_id == parent.run_id@,
{
}

/// The tags and the metadata of a run take the place of those that it had: the old ones are
/// deleted, and behind that each of the new ones is stored, under the key of the run.
pub proof fn law_indexes_are_replaced(
    record: SpanRecord,
    tags: Seq<Seq<char>>,
    metadata: Seq<Pair>,
)
    ensures
        ({
            let calls = replace_indexes_calls(record, tags, metadata);
            let key = seq![
                Param::Text(record.project_name@),
                Param::Text(record.trace_id@),
                Param::Text(record.span_id@),
            ];
            &&& calls.len() == 2 + tags.len() + metadata.len()
            &&& calls[0].sql == DELETE_RUN_TAGS_SQL@ && calls[0].params == key
            &&& forall|i: int|
                #![trigger tags[i]]
                0 <= i < tags.len() ==> calls[1 + i].sql == INSERT_RUN_TAG_SQL@
                    && calls[1 + i].params == key.push(Param::Text(tags[i]))
            &&& calls[1 + tags.len() as int].sql == DELETE_RUN_METADATA_SQL@
            &&& calls[1 + tags.len() as int].params == key
            &&& forall|i: int|
                #![trigger metadata[i]]
                0 <= i < metadata.len() ==> calls[2 + tags.len() + i].sql
                    == INSERT_RUN_METADATA_SQL@ && calls[2 + tags.len() + i].params == key.push(
                    Param::Text(metadata[i].key),
                ).push(Param::Text(metadata[i].value))
        }),
{
    let calls = replace_indexes_calls(record, tags, metadata);
    let key = seq![
        Param::Text(record.project_name@),
        Param::Text(record.trace_id@),
        Param::Text(record.span_id@),
    ];
    let n = tags.len() as int;
    assert(run_call("delete old run tags"@, DELETE_RUN_TAGS_SQL@, record).params =~= key);
    assert(run_call("insert run tag"@, INSERT_RUN_TAG_SQL@, record).params =~= key);
    assert(run_call("delete old run metadata"@, DELETE_RUN_METADATA_SQL@, record).params =~= key);
    assert(run_call("insert run metadata"@, INSERT_RUN_METADATA_SQL@, record).params =~= key);
    assert forall|i: int| #![trigger tags[i]] 0 <= i < tags.len() implies calls[1 + i].sql
        == INSERT_RUN_TAG_SQL@ && calls[1 + i].params == key.push(Param::Text(tags[i])) by {
        assert(calls[1 + i] == tag_calls(record, tags)[i]);
    }
    assert forall|i: int|
        #![trigger metadata[i]]
        0 <= i < metadata.len() implies calls[2 + tags.len() + i].sql == INSERT_RUN_METADATA_SQL@
        && calls[2 + tags.len() + i].params == key.push(Param::Text(metadata[i].key)).push(
        Param::Text(metadata[i].value),
    ) by {
        assert(calls[2 + n + i] == metadata_calls(record, metadata)[i]);
    }
}

} // verus!
