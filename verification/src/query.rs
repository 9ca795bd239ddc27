//! Queries over runs: what is asked, and the SQL that asks it of segments.

pub mod aggregates;
pub mod cleanup;
pub mod deleted_rows;
pub mod deleting;
pub mod deletion;
pub mod distributed;
pub mod filter;
pub mod index_search;
pub mod matching;
pub mod planner;
pub mod random_access;
pub mod retention;
pub mod routing;
pub mod scan;
pub mod threads;
pub mod tree;
pub mod tree_filter;

use crate::query::filter::copy_expr;
use crate::query::filter::phase6::opt_filter;
use crate::query::filter::FilterExpr;
use crate::query::filter::Filter;
use crate::query::tree_filter::TreeFilter;
use crate::query::tree_filter::TreeFilterExpr;
use crate::sorting::insert_distinct;
use crate::sorting::lemma_ordered_insert_map;
use crate::sorting::ordered_insert;
use crate::sorting::ordered_set;
use crate::sorting::total_order;
use crate::sql::literal;
use crate::sql::literal_list;
use crate::sql::sql_string_list;
use crate::sql::sql_string_literal;
use crate::text::copy_option;
use crate::text::copy_texts;
use crate::text::int_text;
use crate::text::integer_text;
use crate::text::is_less;
use crate::text::join;
use crate::text::joined;
use crate::text::law_text_order_is_total;
use crate::text::law_text_order_is_transitive;
use crate::text::nat_text;
use crate::text::no_texts;
use crate::text::one_text;
use crate::text::opt_text;
use crate::text::push_some;
use crate::text::push_text;
use crate::text::same;
use crate::text::text_less;
use crate::text::texts;
use crate::text::unsigned_text;
use crate::text::with;
use crate::time::Duration;
use vstd::prelude::*;
use vstd::string::StrSliceExecFns;
use vstd::string::StringExecFns;

verus! {

/// How many segments one scan reads.
pub const MAX_DATAFUSION_SEGMENTS_PER_BATCH: usize = 8;

/// A run as a query gives it.
#[derive(Debug, PartialEq, Eq)]
pub struct RunSummary {
    pub project_name: String,
    pub run_id: Option<String>,
    pub trace_id: String,
    pub span_id: String,
    pub parent_run_id: Option<String>,
    pub parent_span_id: Option<String>,
    pub name: String,
    pub run_type: String,
    pub status: String,
    pub start_time_unix_nano: i64,
    pub end_time_unix_nano: i64,
    pub is_root: bool,
    pub attributes_json: String,
}

impl Clone for RunSummary {
    fn clone(&self) -> (r: Self)
        ensures
            r == *self,
    {
        RunSummary {
            project_name: self.project_name.clone(),
            run_id: copy_option(&self.run_id),
            trace_id: self.trace_id.clone(),
            span_id: self.span_id.clone(),
            parent_run_id: copy_option(&self.parent_run_id),
            parent_span_id: copy_option(&self.parent_span_id),
            name: self.name.clone(),
            run_type: self.run_type.clone(),
            status: self.status.clone(),
            start_time_unix_nano: self.start_time_unix_nano,
            end_time_unix_nano: self.end_time_unix_nano,
            is_root: self.is_root,
            attributes_json: self.attributes_json.clone(),
        }
    }
}

/// What a query may cost.
#[derive(Debug, Clone, Copy, PartialEq, Eq)]
pub struct RunQueryLimits {
    pub max_candidate_segments: Option<usize>,
    pub max_candidate_runs: Option<usize>,
    pub max_estimated_object_store_requests: Option<usize>,
    pub max_candidate_bytes: Option<i64>,
    pub max_wall_time: Option<Duration>,
}

impl RunQueryLimits {
    /// No limit at all.
    pub open spec fn none() -> Self {
        RunQueryLimits {
            max_candidate_segments: None,
            max_candidate_runs: None,
            max_estimated_object_store_requests: None,
            max_candidate_bytes: None,
            max_wall_time: None,
        }
    }
}

impl Default for RunQueryLimits {
    fn default() -> (r: Self)
        ensures
            r == RunQueryLimits::none(),
    {
        RunQueryLimits {
            max_candidate_segments: None,
            max_candidate_runs: None,
            max_estimated_object_store_requests: None,
            max_candidate_bytes: None,
            max_wall_time: None,
        }
    }
}

/// Which runs are asked for.
#[derive(Debug, PartialEq, Eq)]
pub struct RunQuery {
    pub project_names: Vec<String>,
    pub trace_id: Option<String>,
    pub parent_run_id: Option<String>,
    pub parent_span_id: Option<String>,
    pub run_type: Option<String>,
    pub is_root: Option<bool>,
    pub error: Option<bool>,
    pub start_time_min_unix_nano: Option<i64>,
    pub start_time_max_unix_nano: Option<i64>,
    pub limit: Option<usize>,
    pub offset: Option<usize>,
    pub retention_cutoff_unix_nano: Option<i64>,
    pub include_deleted: bool,
    pub filter: Option<FilterExpr>,
    pub trace_filter: Option<FilterExpr>,
    pub tree_filter: Option<TreeFilterExpr>,
    pub include_payload: bool,
    pub newest_first: bool,
    pub limits: RunQueryLimits,
}

/// What a [`RunQuery`] holds.
pub struct Query {
    pub project_names: Seq<Seq<char>>,
    pub trace_id: Option<Seq<char>>,
    pub parent_run_id: Option<Seq<char>>,
    pub parent_span_id: Option<Seq<char>>,
    pub run_type: Option<Seq<char>>,
    pub is_root: Option<bool>,
    pub error: Option<bool>,
    pub start_time_min_unix_nano: Option<i64>,
    pub start_time_max_unix_nano: Option<i64>,
    pub limit: Option<usize>,
    pub offset: Option<usize>,
    pub retention_cutoff_unix_nano: Option<i64>,
    pub include_deleted: bool,
    pub filter: Option<Filter>,
    pub trace_filter: Option<Filter>,
    pub tree_filter: Option<TreeFilter>,
    pub include_payload: bool,
    pub newest_first: bool,
    pub limits: RunQueryLimits,
}

/// What an optional tree filter holds.
pub open spec fn opt_tree_filter(expr: Option<TreeFilterExpr>) -> Option<TreeFilter> {
    match expr {
        Some(e) => Some(e@),
        None => None,
    }
}

impl View for RunQuery {
    type V = Query;

    open spec fn view(&self) -> Query {
        Query {
            project_names: texts(self.project_names@),
            trace_id: opt_text(self.trace_id),
            parent_run_id: opt_text(self.parent_run_id),
            parent_span_id: opt_text(self.parent_span_id),
            run_type: opt_text(self.run_type),
            is_root: self.is_root,
            error: self.error,
            start_time_min_unix_nano: self.start_time_min_unix_nano,
            start_time_max_unix_nano: self.start_time_max_unix_nano,
            limit: self.limit,
            offset: self.offset,
            retention_cutoff_unix_nano: self.retention_cutoff_unix_nano,
            include_deleted: self.include_deleted,
            filter: opt_filter(self.filter),
            trace_filter: opt_filter(self.trace_filter),
            tree_filter: opt_tree_filter(self.tree_filter),
            include_payload: self.include_payload,
            newest_first: self.newest_first,
            limits: self.limits,
        }
    }
}

/// The query for all runs of the projects, with their payload, oldest first.
pub open spec fn plain_query(project_names: Seq<Seq<char>>) -> Query {
    Query {
        project_names,
        trace_id: None,
        parent_run_id: None,
        parent_span_id: None,
        run_type: None,
        is_root: None,
        error: None,
        start_time_min_unix_nano: None,
        start_time_max_unix_nano: None,
        limit: None,
        offset: None,
        retention_cutoff_unix_nano: None,
        include_deleted: false,
        filter: None,
        trace_filter: None,
        tree_filter: None,
        include_payload: true,
        newest_first: false,
        limits: RunQueryLimits::none(),
    }
}

pub fn copy_filter(filter: &Option<FilterExpr>) -> (r: Option<FilterExpr>)
    ensures
        opt_filter(r) == opt_filter(*filter),
{
    match filter {
        Some(expr) => Some(copy_expr(expr)),
        None => None,
    }
}

pub fn copy_tree_filter(filter: &Option<TreeFilterExpr>) -> (r: Option<TreeFilterExpr>)
    ensures
        opt_tree_filter(r) == opt_tree_filter(*filter),
{
    match filter {
        Some(expr) => Some(expr.copy()),
        None => None,
    }
}

impl RunQuery {
    /// The query for all runs of a project, with their payload, oldest first.
    pub fn new(project_name: &str) -> (r: Self)
        ensures
            r@ == plain_query(seq![project_name@]),
    {
        RunQuery {
            project_names: one_text(project_name.to_owned()),
            trace_id: None,
            parent_run_id: None,
            parent_span_id: None,
            run_type: None,
            is_root: None,
            error: None,
            start_time_min_unix_nano: None,
            start_time_max_unix_nano: None,
            limit: None,
            offset: None,
            retention_cutoff_unix_nano: None,
            include_deleted: false,
            filter: None,
            trace_filter: None,
            tree_filter: None,
            include_payload: true,
            newest_first: false,
            limits: RunQueryLimits::default(),
        }
    }

    /// Another query that holds the same.
    pub fn copy(&self) -> (r: Self)
        ensures
            r@ == self@,
    {
        RunQuery {
            project_names: copy_texts(&self.project_names),
            trace_id: copy_option(&self.trace_id),
            parent_run_id: copy_option(&self.parent_run_id),
            parent_span_id: copy_option(&self.parent_span_id),
            run_type: copy_option(&self.run_type),
            is_root: self.is_root,
            error: self.error,
            start_time_min_unix_nano: self.start_time_min_unix_nano,
            start_time_max_unix_nano: self.start_time_max_unix_nano,
            limit: self.limit,
            offset: self.offset,
            retention_cutoff_unix_nano: self.retention_cutoff_unix_nano,
            include_deleted: self.include_deleted,
            filter: copy_filter(&self.filter),
            trace_filter: copy_filter(&self.trace_filter),
            tree_filter: copy_tree_filter(&self.tree_filter),
            include_payload: self.include_payload,
            newest_first: self.newest_first,
            limits: self.limits,
        }
    }
}

/// The query without a limit on its time.
pub open spec fn without_wall_time(query: Query) -> Query {
    Query { limits: RunQueryLimits { max_wall_time: None, ..query.limits }, ..query }
}

/// The query without a limit on its time.
pub fn query_without_wall_time_limit(query: RunQuery) -> (r: RunQuery)
    ensures
        r@ == without_wall_time(query@),
{
    let mut query = query;
    query.limits.max_wall_time = None;
    query
}

/// What tells a run from every other.
#[derive(Debug, PartialEq, Eq, Hash)]
pub struct RunKey {
    pub project_name: String,
    pub trace_id: String,
    pub span_id: String,
}

/// What a [`RunKey`] holds.
pub struct Key {
    pub project_name: Seq<char>,
    pub trace_id: Seq<char>,
    pub span_id: Seq<char>,
}

impl View for RunKey {
    type V = Key;

    open spec fn view(&self) -> Key {
        Key {
            project_name: self.project_name@,
            trace_id: self.trace_id@,
            span_id: self.span_id@,
        }
    }
}

impl Clone for RunKey {
    fn clone(&self) -> (r: Self)
        ensures
            r == *self,
    {
        RunKey {
            project_name: self.project_name.clone(),
            trace_id: self.trace_id.clone(),
            span_id: self.span_id.clone(),
        }
    }
}

pub open spec fn keys_of(keys: Seq<RunKey>) -> Seq<Key> {
    keys.map_values(|key: RunKey| key@)
}

/// The key of a run.
pub open spec fn run_key(run: RunSummary) -> Key {
    Key { project_name: run.project_name@, trace_id: run.trace_id@, span_id: run.span_id@ }
}

impl RunKey {
    /// The key of a run.
    pub fn of_run(run: &RunSummary) -> (r: Self)
        ensures
            r@ == run_key(*run),
    {
        RunKey {
            project_name: run.project_name.clone(),
            trace_id: run.trace_id.clone(),
            span_id: run.span_id.clone(),
        }
    }

    /// Whether this is the key of the run.
    pub fn is_of(&self, run: &RunSummary) -> (r: bool)
        ensures
            r == (self@ == run_key(*run)),
    {
        same(self.project_name.as_str(), run.project_name.as_str()) && same(
            self.trace_id.as_str(),
            run.trace_id.as_str(),
        ) && same(self.span_id.as_str(), run.span_id.as_str())
    }
}

/// Whether the run's key is one of `keys`.
pub fn has_run_key(keys: &Vec<RunKey>, run: &RunSummary) -> (r: bool)
    ensures
        r == keys_of(keys@).contains(run_key(*run)),
{
    let mut i: usize = 0;
    while i < keys.len()
        invariant
            i <= keys.len(),
            forall|j: int| 0 <= j < i ==> #[trigger] keys_of(keys@)[j] != run_key(*run),
        decreases keys.len() - i,
    {
        if keys[i].is_of(run) {
            assert(keys_of(keys@)[i as int] == run_key(*run));
            return true;
        }
        i += 1;
    }
    false
}

/// The order of keys: by project, then trace, then span.
pub open spec fn key_less(a: Key, b: Key) -> bool {
    if a.project_name != b.project_name {
        text_less(a.project_name, b.project_name)
    } else if a.trace_id != b.trace_id {
        text_less(a.trace_id, b.trace_id)
    } else {
        text_less(a.span_id, b.span_id)
    }
}

pub open spec fn key_order() -> spec_fn(Key, Key) -> bool {
    |a: Key, b: Key| key_less(a, b)
}

/// The order of keys is an order of all different keys.
pub proof fn law_key_order()
    ensures
        total_order(key_order()),
{
    let less = key_order();
    assert forall|a: Key, b: Key| #[trigger] less(a, b) implies !less(b, a) by {
        law_text_order_is_total(a.project_name, b.project_name);
        law_text_order_is_total(a.trace_id, b.trace_id);
        law_text_order_is_total(a.span_id, b.span_id);
    }
    assert forall|a: Key, b: Key| !#[trigger] less(a, b) && !less(b, a) implies a == b by {
        law_text_order_is_total(a.project_name, b.project_name);
        law_text_order_is_total(a.trace_id, b.trace_id);
        law_text_order_is_total(a.span_id, b.span_id);
    }
    assert forall|a: Key, b: Key, c: Key| #[trigger] less(a, b) && #[trigger] less(
        b,
        c,
    ) implies less(a, c) by {
        law_text_order_is_total(a.project_name, b.project_name);
        law_text_order_is_total(b.project_name, c.project_name);
        law_text_order_is_total(a.trace_id, b.trace_id);
        law_text_order_is_total(b.trace_id, c.trace_id);
        if a.project_name != b.project_name && b.project_name != c.project_name {
            law_text_order_is_transitive(a.project_name, b.project_name, c.project_name);
            law_text_order_is_total(a.project_name, c.project_name);
        } else if a.project_name == b.project_name && b.project_name == c.project_name {
            if a.trace_id != b.trace_id && b.trace_id != c.trace_id {
                law_text_order_is_transitive(a.trace_id, b.trace_id, c.trace_id);
                law_text_order_is_total(a.trace_id, c.trace_id);
            } else if a.trace_id == b.trace_id && b.trace_id == c.trace_id {
                law_text_order_is_transitive(a.span_id, b.span_id, c.span_id);
            }
        }
    }
}

fn is_key_less(a: &RunKey, b: &RunKey) -> (r: bool)
    ensures
        r == key_less(a@, b@),
{
    if !same(a.project_name.as_str(), b.project_name.as_str()) {
        is_less(a.project_name.as_str(), b.project_name.as_str())
    } else if !same(a.trace_id.as_str(), b.trace_id.as_str()) {
        is_less(a.trace_id.as_str(), b.trace_id.as_str())
    } else {
        is_less(a.span_id.as_str(), b.span_id.as_str())
    }
}

/// Puts `key` among `keys`, which are in order, if it is not one of them.
pub fn insert_key(keys: &mut Vec<RunKey>, key: RunKey)
    ensures
        keys_of(final(keys)@) == ordered_insert(keys_of(old(keys)@), key@, key_order()),
{
    let ghost less = |a: RunKey, b: RunKey| key_less(a@, b@);
    let ghost held = |k: RunKey| k@;
    proof {
        assert forall|a: RunKey, b: RunKey| #[trigger] less(a, b) == key_order()(
            held(a),
            held(b),
        ) by {}
        lemma_ordered_insert_map(keys@, key, held, less, key_order());
    }
    insert_distinct(keys, key, is_key_less, Ghost(less));
}

/// The different keys of `keys`, in order.
pub fn distinct_keys(keys: &Vec<RunKey>) -> (r: Vec<RunKey>)
    ensures
        keys_of(r@) == ordered_set(keys_of(keys@), key_order()),
{
    let ghost all = keys_of(keys@);
    let mut out: Vec<RunKey> = Vec::new();
    let mut i: usize = 0;
    assert(all.take(0) =~= Seq::<Key>::empty());
    assert(keys_of(out@) =~= Seq::<Key>::empty());
    while i < keys.len()
        invariant
            i <= keys.len(),
            all == keys_of(keys@),
            keys_of(out@) == ordered_set(all.take(i as int), key_order()),
        decreases keys.len() - i,
    {
        let ghost now = all.take(i + 1);
        assert(now.drop_last() =~= all.take(i as int));
        assert(now.last() == keys@[i as int]@);
        insert_key(&mut out, keys[i].clone());
        i += 1;
    }
    assert(all.take(i as int) =~= all);
    out
}

/// The spans of one trace.
pub struct TraceSpans {
    pub project_name: String,
    pub trace_id: String,
    pub span_ids: Vec<String>,
}

/// What [`TraceSpans`] hold.
pub struct Spans {
    pub project_name: Seq<char>,
    pub trace_id: Seq<char>,
    pub span_ids: Seq<Seq<char>>,
}

impl View for TraceSpans {
    type V = Spans;

    open spec fn view(&self) -> Spans {
        Spans {
            project_name: self.project_name@,
            trace_id: self.trace_id@,
            span_ids: texts(self.span_ids@),
        }
    }
}

pub open spec fn spans_of(groups: Seq<TraceSpans>) -> Seq<Spans> {
    groups.map_values(|group: TraceSpans| group@)
}

/// Keys in order, those of one trace taken together.
pub open spec fn grouped_by_trace(keys: Seq<Key>) -> Seq<Spans>
    decreases keys.len(),
{
    if keys.len() == 0 {
        Seq::empty()
    } else {
        let done = grouped_by_trace(keys.drop_last());
        let key = keys.last();
        if done.len() > 0 && done.last().project_name == key.project_name && done.last().trace_id
            == key.trace_id {
            done.drop_last().push(
                Spans { span_ids: done.last().span_ids.push(key.span_id), ..done.last() },
            )
        } else {
            done.push(
                Spans {
                    project_name: key.project_name,
                    trace_id: key.trace_id,
                    span_ids: seq![key.span_id],
                },
            )
        }
    }
}

/// That a run is one of the spans of a trace. `prefix` is put before each column.
pub open spec fn spans_predicate(prefix: Seq<char>, group: Spans) -> Seq<char> {
    "("@ + prefix + "project_name = "@ + literal(group.project_name) + " AND "@ + prefix
        + "trace_id = "@ + literal(group.trace_id) + " AND "@ + prefix + "span_id IN ("@
        + literal_list(group.span_ids) + "))"@
}

pub open spec fn spans_predicates(prefix: Seq<char>, groups: Seq<Spans>) -> Seq<Seq<char>> {
    groups.map_values(|group: Spans| spans_predicate(prefix, group))
}

/// That a run has one of the keys, trace by trace, in order.
pub open spec fn keys_predicates(prefix: Seq<char>, keys: Seq<Key>) -> Seq<Seq<char>> {
    spans_predicates(prefix, grouped_by_trace(ordered_set(keys, key_order())))
}

fn group_by_trace(keys: Vec<RunKey>) -> (r: Vec<TraceSpans>)
    ensures
        spans_of(r@) == grouped_by_trace(keys_of(keys@)),
{
    let ghost all = keys_of(keys@);
    let mut groups: Vec<TraceSpans> = Vec::new();
    let mut i: usize = 0;
    assert(all.take(0) =~= Seq::<Key>::empty());
    assert(spans_of(groups@) =~= Seq::<Spans>::empty());
    while i < keys.len()
        invariant
            i <= keys.len(),
            all == keys_of(keys@),
            spans_of(groups@) == grouped_by_trace(all.take(i as int)),
        decreases keys.len() - i,
    {
        let ghost now = all.take(i + 1);
        assert(now.drop_last() =~= all.take(i as int));
        assert(now.last() == keys@[i as int]@);
        let ghost before = groups@;
        let key = &keys[i];
        let n = groups.len();
        assert(spans_of(groups@).len() == n);
        assert(n > 0 ==> spans_of(groups@).last() == groups@[n - 1]@);
        if n > 0 && same(groups[n - 1].project_name.as_str(), key.project_name.as_str()) && same(
            groups[n - 1].trace_id.as_str(),
            key.trace_id.as_str(),
        ) {
            let last = groups.pop();
            match last {
                Some(mut group) => {
                    push_text(&mut group.span_ids, key.span_id.clone());
                    let ghost model = group@;
                    groups.push(group);
                    assert(spans_of(groups@) =~= spans_of(before).drop_last().push(model));
                },
                None => {},
            }
        } else {
            let group = TraceSpans {
                project_name: key.project_name.clone(),
                trace_id: key.trace_id.clone(),
                span_ids: one_text(key.span_id.clone()),
            };
            let ghost model = group@;
            groups.push(group);
            assert(spans_of(groups@) =~= spans_of(before).push(model));
        }
        i += 1;
    }
    assert(all.take(i as int) =~= all);
    groups
}

fn spans_sql(prefix: &str, group: &TraceSpans) -> (r: String)
    ensures
        r@ == spans_predicate(prefix@, group@),
{
    let mut out = "(".to_owned();
    out.append(prefix);
    out.append("project_name = ");
    out.append(sql_string_literal(group.project_name.as_str()).as_str());
    out.append(" AND ");
    out.append(prefix);
    out.append("trace_id = ");
    out.append(sql_string_literal(group.trace_id.as_str()).as_str());
    out.append(" AND ");
    out.append(prefix);
    out.append("span_id IN (");
    out.append(sql_string_list(&group.span_ids).as_str());
    out.append("))");
    out
}

/// That a run has one of the keys, trace by trace, in order.
pub fn keys_sql(prefix: &str, keys: &Vec<RunKey>) -> (r: Vec<String>)
    ensures
        texts(r@) == keys_predicates(prefix@, keys_of(keys@)),
{
    let groups = group_by_trace(distinct_keys(keys));
    let ghost wanted = keys_predicates(prefix@, keys_of(keys@));
    let mut out = no_texts();
    let mut i: usize = 0;
    while i < groups.len()
        invariant
            i <= groups.len(),
            wanted == spans_predicates(prefix@, spans_of(groups@)),
            texts(out@) == wanted.take(i as int),
        decreases groups.len() - i,
    {
        push_text(&mut out, spans_sql(prefix, &groups[i]));
        i += 1;
        assert(spans_of(groups@)[i - 1] == groups@[i - 1]@);
        assert(wanted.take(i as int) =~= wanted.take(i - 1).push(wanted[i - 1]));
    }
    assert(wanted.take(i as int) =~= wanted);
    out
}

/// A row of a segment that may hold a run that is asked for.
#[derive(Debug, PartialEq, Eq)]
pub struct SegmentCandidateRow {
    pub project_name: String,
    pub trace_id: String,
    pub span_id: String,
    pub row_index: i64,
}

impl Clone for SegmentCandidateRow {
    fn clone(&self) -> (r: Self)
        ensures
            r == *self,
    {
        SegmentCandidateRow {
            project_name: self.project_name.clone(),
            trace_id: self.trace_id.clone(),
            span_id: self.span_id.clone(),
            row_index: self.row_index,
        }
    }
}

/// A segment that may hold runs that are asked for.
#[derive(Debug, PartialEq, Eq)]
pub struct SegmentSource {
    pub uri: String,
    pub total_bytes: i64,
    pub schema_version: i64,
    pub search_index_uri: Option<String>,
    pub search_index_bytes: i64,
    pub search_index_schema_version: i64,
    pub candidate_rows: Vec<SegmentCandidateRow>,
}

pub open spec fn row_predicate(row: SegmentCandidateRow) -> Seq<char> {
    "(project_name = "@ + literal(row.project_name@) + " AND trace_id = "@ + literal(row.trace_id@)
        + " AND span_id = "@ + literal(row.span_id@) + " AND row_index = "@ + int_text(
        row.row_index as int,
    ) + ")"@
}

pub open spec fn row_predicates(rows: Seq<SegmentCandidateRow>) -> Seq<Seq<char>> {
    rows.map_values(|row: SegmentCandidateRow| row_predicate(row))
}

/// That a row is one of the candidate rows, if there are any.
pub open spec fn candidate_rows_predicate(rows: Seq<SegmentCandidateRow>) -> Option<Seq<char>> {
    if rows.len() == 0 {
        None
    } else {
        Some(join(row_predicates(rows), " OR "@))
    }
}

fn row_sql(row: &SegmentCandidateRow) -> (r: String)
    ensures
        r@ == row_predicate(*row),
{
    let mut out = "(project_name = ".to_owned();
    out.append(sql_string_literal(row.project_name.as_str()).as_str());
    out.append(" AND trace_id = ");
    out.append(sql_string_literal(row.trace_id.as_str()).as_str());
    out.append(" AND span_id = ");
    out.append(sql_string_literal(row.span_id.as_str()).as_str());
    out.append(" AND row_index = ");
    out.append(integer_text(row.row_index).as_str());
    out.append(")");
    out
}

/// That a row is one of the candidate rows of a segment, if it has any.
pub fn segment_candidate_rows_where_sql(segment: &SegmentSource) -> (r: Option<String>)
    ensures
        opt_text(r) == candidate_rows_predicate(segment.candidate_rows@),
{
    let rows = &segment.candidate_rows;
    if rows.len() == 0 {
        return None;
    }
    let ghost wanted = row_predicates(rows@);
    let mut parts = no_texts();
    let mut i: usize = 0;
    while i < rows.len()
        invariant
            i <= rows.len(),
            wanted == row_predicates(rows@),
            texts(parts@) == wanted.take(i as int),
        decreases rows.len() - i,
    {
        push_text(&mut parts, row_sql(&rows[i]));
        i += 1;
        assert(wanted.take(i as int) =~= wanted.take(i - 1).push(wanted[i - 1]));
    }
    assert(wanted.take(i as int) =~= wanted);
    Some(joined(&parts, " OR "))
}

/// That the column holds the text, if one is asked for.
pub open spec fn text_is(column: Seq<char>, value: Option<Seq<char>>) -> Option<Seq<char>> {
    match value {
        Some(text) => Some(column + " = "@ + literal(text)),
        None => None,
    }
}

/// That the column stands to a number as `relation` says, if one is asked for.
pub open spec fn number_is(column: Seq<char>, relation: Seq<char>, value: Option<i64>) -> Option<
    Seq<char>,
> {
    match value {
        Some(n) => Some(column + relation + int_text(n as int)),
        None => None,
    }
}

/// That the column holds one of the texts, if there are any.
pub open spec fn text_in(column: Seq<char>, values: Seq<Seq<char>>) -> Option<Seq<char>> {
    if values.len() == 0 {
        None
    } else {
        Some(column + " IN ("@ + literal_list(values) + ")"@)
    }
}

pub fn text_is_sql(column: &str, value: &Option<String>) -> (r: Option<String>)
    ensures
        opt_text(r) == text_is(column@, opt_text(*value)),
{
    match value {
        Some(text) => {
            let mut out = column.to_owned();
            out.append(" = ");
            out.append(sql_string_literal(text.as_str()).as_str());
            Some(out)
        },
        None => None,
    }
}

pub fn number_is_sql(column: &str, relation: &str, value: Option<i64>) -> (r: Option<String>)
    ensures
        opt_text(r) == number_is(column@, relation@, value),
{
    match value {
        Some(n) => {
            let mut out = column.to_owned();
            out.append(relation);
            out.append(integer_text(n).as_str());
            Some(out)
        },
        None => None,
    }
}

pub fn text_in_sql(column: &str, values: &Vec<String>) -> (r: Option<String>)
    ensures
        opt_text(r) == text_in(column@, texts(values@)),
{
    assert(texts(values@).len() == values@.len());
    if values.len() == 0 {
        None
    } else {
        let mut out = column.to_owned();
        out.append(" IN (");
        out.append(sql_string_list(values).as_str());
        out.append(")");
        Some(out)
    }
}

/// All of the predicates, or `true` if there are none.
pub open spec fn all_predicates(predicates: Seq<Seq<char>>) -> Seq<char> {
    if predicates.len() == 0 {
        "true"@
    } else {
        join(predicates, " AND "@)
    }
}

pub fn all_predicates_sql(predicates: &Vec<String>) -> (r: String)
    ensures
        r@ == all_predicates(texts(predicates@)),
{
    assert(texts(predicates@).len() == predicates@.len());
    if predicates.len() == 0 {
        "true".to_owned()
    } else {
        joined(predicates, " AND ")
    }
}

/// That a run has one of the candidate keys, if there are any.
pub open spec fn candidates_predicate(keys: Option<Seq<Key>>) -> Option<Seq<char>> {
    match keys {
        Some(all) => if all.len() == 0 {
            None
        } else {
            Some("("@ + join(keys_predicates(Seq::empty(), all), " OR "@) + ")"@)
        },
        None => None,
    }
}

/// What optional keys hold.
pub open spec fn opt_keys(keys: Option<&Vec<RunKey>>) -> Option<Seq<Key>> {
    match keys {
        Some(all) => Some(keys_of(all@)),
        None => None,
    }
}

/// That a run has one of the candidate keys, if there are any.
pub fn candidate_run_source_pushdown_sql(candidate_run_keys: Option<&Vec<RunKey>>) -> (r: Option<
    String,
>)
    ensures
        opt_text(r) == candidates_predicate(opt_keys(candidate_run_keys)),
{
    match candidate_run_keys {
        Some(keys) => {
            assert(keys_of(keys@).len() == keys@.len());
            if keys.len() == 0 {
                None
            } else {
                let none = String::new();
                let parts = keys_sql(none.as_str(), keys);
                let mut out = "(".to_owned();
                out.append(joined(&parts, " OR ").as_str());
                out.append(")");
                Some(out)
            }
        },
        None => None,
    }
}

/// The candidate predicate says the same of the same keys, in whatever order
/// they come.
pub proof fn law_candidates_ignore_order(a: Seq<Key>, b: Seq<Key>)
    requires
        forall|key: Key| #[trigger] a.contains(key) <==> b.contains(key),
    ensures
        candidates_predicate(Some(a)) == candidates_predicate(Some(b)),
{
    law_key_order();
    crate::sorting::law_ordered_set_ignores_order(a, b, key_order());
    if a.len() > 0 {
        assert(a.contains(a[0]));
        assert(b.contains(a[0]));
    }
    if b.len() > 0 {
        assert(b.contains(b[0]));
        assert(a.contains(b[0]));
    }
}

/// What the rows of a segment can be asked before runs are put together from them.
pub open spec fn source_predicate(query: Query, keys: Option<Seq<Key>>) -> Seq<char> {
    let p0 = Seq::<Seq<char>>::empty();
    let p1 = with(p0, text_in("project_name"@, query.project_names));
    let p2 = with(p1, text_is("trace_id"@, query.trace_id));
    let p3 = with(p2, text_is("parent_run_id"@, query.parent_run_id));
    let p4 = with(p3, text_is("parent_span_id"@, query.parent_span_id));
    let p5 = with(p4, text_is("run_type"@, query.run_type));
    let p6 = with(
        p5,
        number_is("start_time_unix_nano"@, " >= "@, query.start_time_min_unix_nano),
    );
    let p7 = with(
        p6,
        number_is("start_time_unix_nano"@, " <= "@, query.start_time_max_unix_nano),
    );
    let p8 = with(p7, candidates_predicate(keys));
    all_predicates(p8)
}

/// What the rows of a segment can be asked before runs are put together from them.
pub fn run_source_pushdown_where_sql(
    query: &RunQuery,
    candidate_run_keys: Option<&Vec<RunKey>>,
) -> (r: String)
    ensures
        r@ == source_predicate(query@, opt_keys(candidate_run_keys)),
{
    let mut predicates = no_texts();
    push_some(&mut predicates, text_in_sql("project_name", &query.project_names));
    push_some(&mut predicates, text_is_sql("trace_id", &query.trace_id));
    push_some(&mut predicates, text_is_sql("parent_run_id", &query.parent_run_id));
    push_some(&mut predicates, text_is_sql("parent_span_id", &query.parent_span_id));
    push_some(&mut predicates, text_is_sql("run_type", &query.run_type));
    push_some(
        &mut predicates,
        number_is_sql("start_time_unix_nano", " >= ", query.start_time_min_unix_nano),
    );
    push_some(
        &mut predicates,
        number_is_sql("start_time_unix_nano", " <= ", query.start_time_max_unix_nano),
    );
    push_some(&mut predicates, candidate_run_source_pushdown_sql(candidate_run_keys));
    all_predicates_sql(&predicates)
}

/// How the payload is selected.
pub open spec fn payload_column(include_payload: bool) -> Seq<char> {
    if include_payload {
        "attributes_json"@
    } else {
        "'{}' AS attributes_json"@
    }
}

/// How the payload is selected.
pub fn attributes_json_sql(include_payload: bool) -> (r: &'static str)
    ensures
        r@ == payload_column(include_payload),
{
    if include_payload {
        "attributes_json"
    } else {
        "'{}' AS attributes_json"
    }
}

/// The object at `uri`, as SQL names it: by its path from the root.
pub open spec fn object_path(uri: Seq<char>) -> Seq<char> {
    if uri.len() > 0 && uri[0] == '/' {
        literal(uri)
    } else {
        literal("/"@ + uri)
    }
}

/// The object at `uri`, as SQL names it: by its path from the root.
pub fn sql_object_store_path(uri: &str) -> (r: String)
    ensures
        r@ == object_path(uri@),
{
    if !uri.is_empty() && uri.get_char(0) == '/' {
        sql_string_literal(uri)
    } else {
        let mut path = "/".to_owned();
        path.append(uri);
        sql_string_literal(path.as_str())
    }
}

/// The restriction of a segment to its candidate rows.
pub open spec fn segment_predicate(rows: Seq<SegmentCandidateRow>, source: Seq<char>) -> Seq<
    char,
> {
    match candidate_rows_predicate(rows) {
        Some(candidates) => "("@ + source + ") AND ("@ + candidates + ")"@,
        None => source,
    }
}

/// The restriction of a segment to its candidate rows.
pub fn segment_source_where_sql(segment: &SegmentSource, source_where_sql: &str) -> (r: String)
    ensures
        r@ == segment_predicate(segment.candidate_rows@, source_where_sql@),
{
    match segment_candidate_rows_where_sql(segment) {
        Some(candidates) => {
            let mut out = "(".to_owned();
            out.append(source_where_sql);
            out.append(") AND (");
            out.append(candidates.as_str());
            out.append(")");
            out
        },
        None => source_where_sql.to_owned(),
    }
}

pub const SEGMENT_COLUMNS_SQL: &'static str = "SELECT
            project_name,
            run_id,
            trace_id,
            span_id,
            parent_run_id,
            parent_span_id,
            name,
            run_type,
            start_time_unix_nano,
            end_time_unix_nano,
            status_code,
            event_type,
            event_time_unix_nano,
            row_index,
            ";

/// The rows of a segment.
pub open spec fn segment_rows(
    segment: SegmentSource,
    include_payload: bool,
    source: Seq<char>,
) -> Seq<char> {
    SEGMENT_COLUMNS_SQL@
        + payload_column(include_payload) + "\n        FROM "@ + object_path(segment.uri@)
        + "\n        WHERE "@ + segment_predicate(segment.candidate_rows@, source)
}

/// The rows of a segment.
pub fn segment_source_sql(
    segment: &SegmentSource,
    include_payload: bool,
    source_where_sql: &str,
) -> (r: String)
    ensures
        r@ == segment_rows(*segment, include_payload, source_where_sql@),
{
    let mut out =
        SEGMENT_COLUMNS_SQL.to_owned();
    out.append(attributes_json_sql(include_payload));
    out.append("\n        FROM ");
    out.append(sql_object_store_path(segment.uri.as_str()).as_str());
    out.append("\n        WHERE ");
    out.append(segment_source_where_sql(segment, source_where_sql).as_str());
    out
}

/// How an order is written.
pub open spec fn direction(newest_first: bool) -> Seq<char> {
    if newest_first {
        "DESC"@
    } else {
        "ASC"@
    }
}

pub fn direction_sql(newest_first: bool) -> (r: &'static str)
    ensures
        r@ == direction(newest_first),
{
    if newest_first {
        "DESC"
    } else {
        "ASC"
    }
}

/// A limit, if there is one.
pub open spec fn limit_clause(limit: Option<usize>) -> Seq<char> {
    match limit {
        Some(n) => " LIMIT "@ + nat_text(n as nat),
        None => Seq::empty(),
    }
}

/// An offset, if there is one that is not zero.
pub open spec fn offset_clause(offset: Option<usize>) -> Seq<char> {
    match offset {
        Some(n) => if n > 0 {
            " OFFSET "@ + nat_text(n as nat)
        } else {
            Seq::empty()
        },
        None => Seq::empty(),
    }
}

pub fn limit_sql(limit: Option<usize>) -> (r: String)
    ensures
        r@ == limit_clause(limit),
{
    match limit {
        Some(n) => {
            let mut out = " LIMIT ".to_owned();
            out.append(unsigned_text(n as u128).as_str());
            out
        },
        None => String::new(),
    }
}

pub fn offset_sql(offset: Option<usize>) -> (r: String)
    ensures
        r@ == offset_clause(offset),
{
    match offset {
        Some(n) => if n > 0 {
            let mut out = " OFFSET ".to_owned();
            out.append(unsigned_text(n as u128).as_str());
            out
        } else {
            String::new()
        },
        None => String::new(),
    }
}

/// The tombstone key of a deletion.
pub open spec fn tombstone_key(
    project_name: Seq<char>,
    trace_id: Seq<char>,
    span_id: Seq<char>,
    deleted_at: i64,
) -> Seq<char> {
    "tombstone:"@ + project_name + ":"@ + trace_id + ":"@ + span_id + ":"@ + int_text(
        deleted_at as int,
    )
}

/// The tombstone key of a deletion.
pub fn tombstone_idempotency_key(
    project_name: &str,
    trace_id: &str,
    span_id: &str,
    deleted_at_unix_nano: i64,
) -> (r: String)
    ensures
        r@ == tombstone_key(project_name@, trace_id@, span_id@, deleted_at_unix_nano),
{
    let mut out = "tombstone:".to_owned();
    out.append(project_name);
    out.append(":");
    out.append(trace_id);
    out.append(":");
    out.append(span_id);
    out.append(":");
    out.append(integer_text(deleted_at_unix_nano).as_str());
    out
}

/// The version 5 UUID of a name in the URL namespace, written with hyphens.
pub uninterp spec fn uuid_of_url(name: Seq<char>) -> Seq<char>;

/// `uuid::Uuid::new_v5` in the URL namespace, and the `to_string` of what it
/// gives: the result is a function of the name alone, a hash of its UTF-8 bytes.
#[verifier::external_body]
fn uuid_v5_of_url(name: &str) -> (r: String)
    ensures
        r@ == uuid_of_url(name@),
{
    uuid::Uuid::new_v5(&uuid::Uuid::NAMESPACE_URL, name.as_bytes()).to_string()
}

/// The name that the id of a run without one is made from.
pub open spec fn run_name(project_name: Seq<char>, trace_id: Seq<char>, span_id: Seq<char>) -> Seq<
    char,
> {
    "kevindb:run:"@ + project_name + ":"@ + trace_id + ":"@ + span_id
}

/// The id that a run has without being given one.
pub open spec fn generated_id(
    project_name: Seq<char>,
    trace_id: Seq<char>,
    span_id: Seq<char>,
) -> Seq<char> {
    uuid_of_url(run_name(project_name, trace_id, span_id))
}

/// The id that a run has without being given one.
pub fn generated_run_id(project_name: &str, trace_id: &str, span_id: &str) -> (r: String)
    ensures
        r@ == generated_id(project_name@, trace_id@, span_id@),
{
    let mut name = "kevindb:run:".to_owned();
    name.append(project_name);
    name.append(":");
    name.append(trace_id);
    name.append(":");
    name.append(span_id);
    uuid_v5_of_url(name.as_str())
}

} // verus!
