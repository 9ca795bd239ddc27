//! Queries whose segments are shared out among workers.

use crate::query::Key;
use crate::query::Query;
use crate::query::RunKey;
use crate::query::RunQuery;
use crate::query::RunSummary;
use crate::query::SegmentCandidateRow;
use crate::query::SegmentSource;
use crate::query::insert_key;
use crate::query::key_order;
use crate::query::keys_of;
use crate::query::planner::bytes_fit;
use crate::query::planner::estimate_vortex_object_store_requests;
use crate::query::planner::estimated_requests;
use crate::query::planner::sum_of;
use crate::query::scan::ObjectStoreReadSnapshot;
use crate::query::scan::RunQueryDiagnostics;
use crate::query::scan::batch_query;
use crate::query::scan::enforce_runtime_object_store_limits;
use crate::query::scan::is_kept;
use crate::query::scan::keep_runs;
use crate::query::scan::kept_runs;
use crate::query::scan::law_page_of_parts;
use crate::query::scan::law_page_order;
use crate::query::scan::listed;
use crate::query::scan::page_datafusion_runs;
use crate::query::scan::page_of_runs;
use crate::query::scan::page_order;
use crate::query::scan::pages_of_parts;
use crate::query::scan::runtime_fault;
use crate::sorting::all_of;
use crate::sorting::law_sort_ignores_order;
use crate::sorting::law_sort_keeps_elements;
use crate::sorting::lemma_sort_members;
use crate::sorting::no_ties;
use crate::sorting::ordered_set;
use crate::sorting::stable_sort;
use crate::text::copy_option;
use crate::text::insert_text;
use crate::text::int_text;
use crate::text::integer_text;
use crate::text::nat_text;
use crate::text::no_texts;
use crate::text::text_order;
use crate::text::texts;
use crate::text::unsigned_text;
use crate::time::Duration;
use vstd::prelude::*;
use vstd::string::StringExecFns;

verus! {

/// How a query is shared out.
#[derive(Debug, Clone, Copy, PartialEq, Eq)]
pub struct DistributedQueryConfig {
    pub worker_count: usize,
    pub max_segments_per_partition: usize,
    pub max_in_flight_partitions: usize,
    pub max_queued_partitions: Option<usize>,
    pub max_estimated_object_store_requests_per_worker: Option<usize>,
    pub max_candidate_bytes_per_worker: Option<i64>,
}

impl DistributedQueryConfig {
    /// One worker, and eight segments to a partition.
    pub open spec fn standard() -> Self {
        DistributedQueryConfig {
            worker_count: 1,
            max_segments_per_partition: 8,
            max_in_flight_partitions: 1,
            max_queued_partitions: None,
            max_estimated_object_store_requests_per_worker: None,
            max_candidate_bytes_per_worker: None,
        }
    }
}

impl Default for DistributedQueryConfig {
    fn default() -> (r: Self)
        ensures
            r == DistributedQueryConfig::standard(),
    {
        DistributedQueryConfig {
            worker_count: 1,
            max_segments_per_partition: 8,
            max_in_flight_partitions: 1,
            max_queued_partitions: None,
            max_estimated_object_store_requests_per_worker: None,
            max_candidate_bytes_per_worker: None,
        }
    }
}

/// Why a configuration is refused.
pub open spec fn config_fault(config: DistributedQueryConfig) -> Option<Seq<char>> {
    if config.worker_count == 0 {
        Some("distributed query config requires at least one worker"@)
    } else if config.max_segments_per_partition == 0 {
        Some("distributed query config requires max_segments_per_partition > 0"@)
    } else if config.max_in_flight_partitions == 0 {
        Some("distributed query config requires max_in_flight_partitions > 0"@)
    } else {
        None
    }
}

/// Refuses a configuration under which nothing could be done.
pub fn validate_distributed_config(config: &DistributedQueryConfig) -> (r: Result<(), String>)
    ensures
        match r {
            Ok(_) => config_fault(*config) is None,
            Err(message) => config_fault(*config) == Some(message@),
        },
{
    if config.worker_count == 0 {
        return Err("distributed query config requires at least one worker".to_owned());
    }
    if config.max_segments_per_partition == 0 {
        return Err("distributed query config requires max_segments_per_partition > 0".to_owned());
    }
    if config.max_in_flight_partitions == 0 {
        return Err("distributed query config requires max_in_flight_partitions > 0".to_owned());
    }
    Ok(())
}

/// Refuses to go on once the query is cancelled.
pub fn reject_if_cancelled(cancelled: bool) -> (r: Result<(), String>)
    ensures
        match r {
            Ok(_) => !cancelled,
            Err(message) => cancelled && message@ == "query cancelled by coordinator"@,
        },
{
    if cancelled {
        Err("query cancelled by coordinator".to_owned())
    } else {
        Ok(())
    }
}

/// Why a query of so many partitions is shed.
pub open spec fn overload_fault(partitions: int, config: DistributedQueryConfig) -> Option<Seq<char>> {
    match config.max_queued_partitions {
        Some(limit) => if partitions > limit {
            Some(
                "query load-shed: planned partitions "@ + nat_text(partitions as nat)
                    + " exceed queue limit "@ + nat_text(limit as nat),
            )
        } else {
            None
        },
        None => None,
    }
}

/// Sheds a query of more partitions than may be queued.
pub fn shed_if_overloaded(partitions: usize, config: &DistributedQueryConfig) -> (r: Result<
    (),
    String,
>)
    ensures
        match r {
            Ok(_) => overload_fault(partitions as int, *config) is None,
            Err(message) => overload_fault(partitions as int, *config) == Some(message@),
        },
{
    if let Some(limit) = config.max_queued_partitions {
        if partitions > limit {
            let mut message = "query load-shed: planned partitions ".to_owned();
            message.append(unsigned_text(partitions as u128).as_str());
            message.append(" exceed queue limit ");
            message.append(unsigned_text(limit as u128).as_str());
            return Err(message);
        }
    }
    Ok(())
}

/// How many partitions run at a time.
pub open spec fn workers_at_once(config: DistributedQueryConfig) -> usize {
    let least = if config.max_in_flight_partitions < config.worker_count {
        config.max_in_flight_partitions
    } else {
        config.worker_count
    };
    if least < 1 {
        1
    } else {
        least
    }
}

/// How many partitions run at a time.
pub fn worker_limit(config: &DistributedQueryConfig) -> (r: usize)
    ensures
        r == workers_at_once(*config),
{
    let least: usize = if config.max_in_flight_partitions < config.worker_count {
        config.max_in_flight_partitions
    } else {
        config.worker_count
    };
    if least < 1 {
        1
    } else {
        least
    }
}

/// The share of a query that one worker takes.
#[derive(Debug, PartialEq, Eq)]
pub struct DistributedQueryPartition {
    pub worker_index: usize,
    pub project_names: Vec<String>,
    pub segments: Vec<SegmentSource>,
    pub candidate_runs: usize,
    pub candidate_bytes: i64,
    pub estimated_object_store_requests: usize,
}

/// Whether two segments hold the same.
pub open spec fn same_segment(a: SegmentSource, b: SegmentSource) -> bool {
    &&& a.uri == b.uri
    &&& a.total_bytes == b.total_bytes
    &&& a.schema_version == b.schema_version
    &&& a.search_index_uri == b.search_index_uri
    &&& a.search_index_bytes == b.search_index_bytes
    &&& a.search_index_schema_version == b.search_index_schema_version
    &&& a.candidate_rows@ == b.candidate_rows@
}

/// Another segment that holds the same.
pub fn copy_segment(segment: &SegmentSource) -> (r: SegmentSource)
    ensures
        same_segment(r, *segment),
{
    let mut candidate_rows: Vec<SegmentCandidateRow> = Vec::new();
    let mut i: usize = 0;
    while i < segment.candidate_rows.len()
        invariant
            i <= segment.candidate_rows.len(),
            candidate_rows@ =~= segment.candidate_rows@.take(i as int),
        decreases segment.candidate_rows.len() - i,
    {
        candidate_rows.push(segment.candidate_rows[i].clone());
        i += 1;
    }
    assert(candidate_rows@ =~= segment.candidate_rows@);
    SegmentSource {
        uri: segment.uri.clone(),
        total_bytes: segment.total_bytes,
        schema_version: segment.schema_version,
        search_index_uri: copy_option(&segment.search_index_uri),
        search_index_bytes: segment.search_index_bytes,
        search_index_schema_version: segment.search_index_schema_version,
        candidate_rows,
    }
}

/// All candidate rows of segments, in order.
pub open spec fn all_rows(segments: Seq<SegmentSource>) -> Seq<SegmentCandidateRow>
    decreases segments.len(),
{
    if segments.len() == 0 {
        Seq::empty()
    } else {
        all_rows(segments.drop_last()) + segments.last().candidate_rows@
    }
}

/// The key of the run in a candidate row.
pub open spec fn row_key(row: SegmentCandidateRow) -> Key {
    Key { project_name: row.project_name@, trace_id: row.trace_id@, span_id: row.span_id@ }
}

pub open spec fn row_keys(rows: Seq<SegmentCandidateRow>) -> Seq<Key> {
    rows.map_values(|row: SegmentCandidateRow| row_key(row))
}

pub open spec fn row_projects(rows: Seq<SegmentCandidateRow>) -> Seq<Seq<char>> {
    rows.map_values(|row: SegmentCandidateRow| row.project_name@)
}

pub open spec fn segment_sizes(segments: Seq<SegmentSource>) -> Seq<i64> {
    segments.map_values(|segment: SegmentSource| segment.total_bytes)
}

/// The key of the run in a candidate row.
pub fn key_of_row(row: &SegmentCandidateRow) -> (r: RunKey)
    ensures
        r@ == row_key(*row),
{
    RunKey {
        project_name: row.project_name.clone(),
        trace_id: row.trace_id.clone(),
        span_id: row.span_id.clone(),
    }
}

/// Adds the keys of candidate rows to `keys`, which are in order.
fn insert_row_keys(keys: &mut Vec<RunKey>, rows: &Vec<SegmentCandidateRow>, Ghost(done): Ghost<
    Seq<SegmentCandidateRow>,
>)
    requires
        keys_of(old(keys)@) == ordered_set(row_keys(done), key_order()),
    ensures
        keys_of(final(keys)@) == ordered_set(row_keys(done + rows@), key_order()),
{
    let mut i: usize = 0;
    assert(done + rows@.take(0) =~= done);
    while i < rows.len()
        invariant
            i <= rows.len(),
            keys_of(keys@) == ordered_set(row_keys(done + rows@.take(i as int)), key_order()),
        decreases rows.len() - i,
    {
        let ghost now = row_keys(done + rows@.take(i + 1));
        assert(now.drop_last() =~= row_keys(done + rows@.take(i as int)));
        assert(now.last() == row_key(rows@[i as int]));
        insert_key(keys, key_of_row(&rows[i]));
        i += 1;
    }
    assert(rows@.take(i as int) =~= rows@);
}

fn insert_row_projects(
    names: &mut Vec<String>,
    rows: &Vec<SegmentCandidateRow>,
    Ghost(done): Ghost<Seq<SegmentCandidateRow>>,
)
    requires
        texts(old(names)@) == ordered_set(row_projects(done), text_order()),
    ensures
        texts(final(names)@) == ordered_set(row_projects(done + rows@), text_order()),
{
    let mut i: usize = 0;
    assert(done + rows@.take(0) =~= done);
    while i < rows.len()
        invariant
            i <= rows.len(),
            texts(names@) == ordered_set(row_projects(done + rows@.take(i as int)), text_order()),
        decreases rows.len() - i,
    {
        let ghost now = row_projects(done + rows@.take(i + 1));
        assert(now.drop_last() =~= row_projects(done + rows@.take(i as int)));
        assert(now.last() == rows@[i as int].project_name@);
        insert_text(names, rows[i].project_name.clone());
        i += 1;
    }
    assert(rows@.take(i as int) =~= rows@);
}

/// The projects of the candidate rows of segments, in order.
pub fn partition_project_names(segments: &Vec<SegmentSource>) -> (r: Vec<String>)
    ensures
        texts(r@) == ordered_set(row_projects(all_rows(segments@)), text_order()),
{
    let mut names = no_texts();
    let mut i: usize = 0;
    assert(segments@.take(0) =~= Seq::<SegmentSource>::empty());
    assert(row_projects(all_rows(segments@.take(0))) =~= Seq::<Seq<char>>::empty());
    while i < segments.len()
        invariant
            i <= segments.len(),
            texts(names@) == ordered_set(
                row_projects(all_rows(segments@.take(i as int))),
                text_order(),
            ),
        decreases segments.len() - i,
    {
        assert(segments@.take(i + 1).drop_last() =~= segments@.take(i as int));
        insert_row_projects(
            &mut names,
            &segments[i].candidate_rows,
            Ghost(all_rows(segments@.take(i as int))),
        );
        i += 1;
    }
    assert(segments@.take(i as int) =~= segments@);
    names
}

/// The keys of the candidate rows of segments, in order.
pub fn partition_run_keys(segments: &Vec<SegmentSource>) -> (r: Vec<RunKey>)
    ensures
        keys_of(r@) == ordered_set(row_keys(all_rows(segments@)), key_order()),
{
    let mut keys: Vec<RunKey> = Vec::new();
    let mut i: usize = 0;
    assert(segments@.take(0) =~= Seq::<SegmentSource>::empty());
    assert(row_keys(all_rows(segments@.take(0))) =~= Seq::<Key>::empty());
    assert(keys_of(keys@) =~= Seq::<Key>::empty());
    while i < segments.len()
        invariant
            i <= segments.len(),
            keys_of(keys@) == ordered_set(
                row_keys(all_rows(segments@.take(i as int))),
                key_order(),
            ),
        decreases segments.len() - i,
    {
        assert(segments@.take(i + 1).drop_last() =~= segments@.take(i as int));
        insert_row_keys(
            &mut keys,
            &segments[i].candidate_rows,
            Ghost(all_rows(segments@.take(i as int))),
        );
        i += 1;
    }
    assert(segments@.take(i as int) =~= segments@);
    keys
}

/// How many different runs the candidate rows of segments are of.
pub fn partition_candidate_runs(segments: &Vec<SegmentSource>) -> (r: usize)
    ensures
        r == ordered_set(row_keys(all_rows(segments@)), key_order()).len(),
{
    let keys = partition_run_keys(segments);
    assert(keys_of(keys@).len() == keys@.len());
    keys.len()
}

/// The bytes of segments.
pub fn segments_bytes(segments: &Vec<SegmentSource>) -> (r: i64)
    requires
        bytes_fit(segment_sizes(segments@)),
    ensures
        r == sum_of(segment_sizes(segments@)),
{
    let ghost sizes = segment_sizes(segments@);
    let mut bytes: i64 = 0;
    let mut i: usize = 0;
    assert(sizes.take(0) =~= Seq::<i64>::empty());
    while i < segments.len()
        invariant
            i <= segments.len(),
            sizes == segment_sizes(segments@),
            bytes_fit(sizes),
            bytes == sum_of(sizes.take(i as int)),
        decreases segments.len() - i,
    {
        assert(sizes.take(i + 1).drop_last() =~= sizes.take(i as int));
        assert(i64::MIN <= sum_of(sizes.take(i + 1)) <= i64::MAX);
        bytes = bytes + segments[i].total_bytes;
        i += 1;
    }
    assert(sizes.take(i as int) =~= sizes);
    bytes
}

/// Where the share that starts at `from` ends.
pub open spec fn share_end(count: int, size: int, from: int) -> int {
    if from + size < count {
        from + size
    } else {
        count
    }
}

/// The segments of the share with this number.
pub open spec fn share(segments: Seq<SegmentSource>, size: int, number: int) -> Seq<SegmentSource> {
    segments.subrange(number * size, share_end(segments.len() as int, size, number * size))
}

/// How many shares there are.
pub open spec fn share_count(count: int, size: int) -> int {
    (count + size - 1) / size
}

/// Whether `partition` is the share with this number.
pub open spec fn is_partition(
    partition: DistributedQueryPartition,
    segments: Seq<SegmentSource>,
    config: DistributedQueryConfig,
    number: int,
) -> bool {
    let own = share(segments, config.max_segments_per_partition as int, number);
    &&& partition.worker_index == number % config.worker_count as int
    &&& partition.segments@.len() == own.len()
    &&& forall|k: int|
        0 <= k < own.len() ==> same_segment(#[trigger] partition.segments@[k], own[k])
    &&& texts(partition.project_names@) == ordered_set(row_projects(all_rows(own)), text_order())
    &&& partition.candidate_runs == ordered_set(row_keys(all_rows(own)), key_order()).len()
    &&& partition.candidate_bytes == sum_of(segment_sizes(own))
    &&& partition.estimated_object_store_requests == estimated_requests(own.len() as int)
}

/// Whether the bytes of each share are in the range of an `i64`.
pub open spec fn shares_fit(segments: Seq<SegmentSource>, size: int) -> bool {
    forall|number: int|
        0 <= number < share_count(segments.len() as int, size) ==> bytes_fit(
            segment_sizes(#[trigger] share(segments, size, number)),
        )
}

proof fn lemma_same_rows(a: Seq<SegmentSource>, b: Seq<SegmentSource>)
    requires
        a.len() == b.len(),
        forall|k: int| 0 <= k < a.len() ==> same_segment(#[trigger] a[k], b[k]),
    ensures
        all_rows(a) == all_rows(b),
        segment_sizes(a) == segment_sizes(b),
    decreases a.len(),
{
    assert(segment_sizes(a) =~= segment_sizes(b));
    if a.len() > 0 {
        let rest_a = a.drop_last();
        let rest_b = b.drop_last();
        assert forall|k: int| 0 <= k < rest_a.len() implies same_segment(
            #[trigger] rest_a[k],
            rest_b[k],
        ) by {
            assert(rest_a[k] == a[k] && rest_b[k] == b[k]);
        }
        lemma_same_rows(rest_a, rest_b);
        assert(same_segment(a[a.len() - 1], b[b.len() - 1]));
    }
}

/// The share with number `number` starts before the end of the segments exactly if
/// there is such a share.
proof fn lemma_share_count(count: int, size: int, number: int)
    requires
        count >= 0,
        size > 0,
        number >= 0,
    ensures
        number * size < count <==> number < share_count(count, size),
{
    let shares = share_count(count, size);
    vstd::arithmetic::div_mod::lemma_fundamental_div_mod(count + size - 1, size);
    vstd::arithmetic::div_mod::lemma_mod_bound(count + size - 1, size);
    assert(size * shares == count + size - 1 - (count + size - 1) % size);
    assert(count <= size * shares < count + size);
    if number < shares {
        assert(number * size <= (shares - 1) * size) by (nonlinear_arith)
            requires
                number <= shares - 1,
                size > 0,
        ;
        assert((shares - 1) * size == size * shares - size) by (nonlinear_arith);
    } else {
        assert(number * size >= shares * size) by (nonlinear_arith)
            requires
                number >= shares,
                size > 0,
        ;
        assert(shares * size == size * shares) by (nonlinear_arith);
    }
}

/// Whether there is someone to share with, and something in a share.
pub open spec fn can_share(config: DistributedQueryConfig) -> bool {
    config.worker_count > 0 && config.max_segments_per_partition > 0
}

/// Shares out segments among workers in turn.
pub fn plan_partitions(segments: &Vec<SegmentSource>, config: &DistributedQueryConfig) -> (r: Vec<
    DistributedQueryPartition,
>)
    requires
        can_share(*config),
        shares_fit(segments@, config.max_segments_per_partition as int),
    ensures
        r@.len() == share_count(segments@.len() as int, config.max_segments_per_partition as int),
        forall|number: int|
            0 <= number < r@.len() ==> is_partition(
                #[trigger] r@[number],
                segments@,
                *config,
                number,
            ),
{
    let size: usize = config.max_segments_per_partition;
    let count: usize = segments.len();
    let mut partitions: Vec<DistributedQueryPartition> = Vec::new();
    let mut from: usize = 0;
    assert(0 * size as int == 0) by (nonlinear_arith);
    while from < count
        invariant
            from <= count,
            count == segments@.len(),
            size == config.max_segments_per_partition,
            can_share(*config),
            shares_fit(segments@, size as int),
            from < count ==> from == partitions@.len() * size,
            from == count ==> partitions@.len() * size >= count,
            partitions@.len() > 0 ==> (partitions@.len() - 1) * size < count,
            forall|number: int|
                0 <= number < partitions@.len() ==> is_partition(
                    #[trigger] partitions@[number],
                    segments@,
                    *config,
                    number,
                ),
        decreases count - from,
    {
        let ghost number = partitions@.len() as int;
        let to: usize = if count - from > size {
            from + size
        } else {
            count
        };
        proof {
            lemma_share_count(count as int, size as int, number);
            assert(number * size == from as int);
            assert((number + 1) * size == number * size + size) by (nonlinear_arith);
        }
        let ghost own = share(segments@, size as int, number);
        assert(own =~= segments@.subrange(from as int, to as int));
        let mut some: Vec<SegmentSource> = Vec::new();
        let mut i: usize = from;
        while i < to
            invariant
                from <= i <= to <= count,
                count == segments@.len(),
                own == segments@.subrange(from as int, to as int),
                some@.len() == i - from,
                forall|k: int| 0 <= k < some@.len() ==> same_segment(#[trigger] some@[k], own[k]),
            decreases to - i,
        {
            some.push(copy_segment(&segments[i]));
            i += 1;
        }
        proof {
            lemma_same_rows(some@, own);
        }
        let partition = DistributedQueryPartition {
            worker_index: partitions.len() % config.worker_count,
            project_names: partition_project_names(&some),
            candidate_runs: partition_candidate_runs(&some),
            candidate_bytes: segments_bytes(&some),
            estimated_object_store_requests: estimate_vortex_object_store_requests(some.len()),
            segments: some,
        };
        assert(is_partition(partition, segments@, *config, number));
        partitions.push(partition);
        from = to;
    }
    proof {
        let n = partitions@.len() as int;
        lemma_share_count(count as int, size as int, n);
        if n > 0 {
            lemma_share_count(count as int, size as int, n - 1);
        } else {
            assert(n * size == 0) by (nonlinear_arith)
                requires
                    n == 0,
            ;
        }
        assert(n >= share_count(count as int, size as int));
        if count == 0 {
            vstd::arithmetic::div_mod::lemma_small_mod((size - 1) as nat, size as nat);
            vstd::arithmetic::div_mod::lemma_basic_div(size - 1, size as int);
        }
    }
    partitions
}

/// Each segment of a plan is in exactly one share.
pub proof fn law_each_segment_has_one_share(segments: Seq<SegmentSource>, size: int, at: int)
    requires
        size > 0,
        0 <= at < segments.len(),
    ensures
        0 <= at / size < share_count(segments.len() as int, size),
        0 <= at % size < share(segments, size, at / size).len(),
        share(segments, size, at / size)[at % size] == segments[at],
        forall|number: int|
            0 <= number < share_count(segments.len() as int, size) && number != at / size ==> !(
            number * size <= at < #[trigger] share_end(
                segments.len() as int,
                size,
                number * size,
            )),
{
    let own = at / size;
    vstd::arithmetic::div_mod::lemma_fundamental_div_mod(at, size);
    vstd::arithmetic::div_mod::lemma_mod_bound(at, size);
    vstd::arithmetic::div_mod::lemma_div_pos_is_pos(at, size);
    assert(size * own == own * size) by (nonlinear_arith);
    lemma_share_count(segments.len() as int, size, own);
    assert forall|number: int|
        0 <= number < share_count(segments.len() as int, size) && number != own implies !(number
        * size <= at < #[trigger] share_end(segments.len() as int, size, number * size)) by {
        if number < own {
            assert(number * size + size <= own * size) by (nonlinear_arith)
                requires
                    number + 1 <= own,
                    size > 0,
            ;
        } else {
            assert(own * size + size <= number * size) by (nonlinear_arith)
                requires
                    own + 1 <= number,
                    size > 0,
            ;
        }
    }
}

/// Why a share is too much for its worker. `rejected` says what is refused.
pub open spec fn budget_fault(
    partition: DistributedQueryPartition,
    config: DistributedQueryConfig,
    rejected: Seq<char>,
) -> Option<Seq<char>> {
    let requests = config.max_estimated_object_store_requests_per_worker;
    let bytes = config.max_candidate_bytes_per_worker;
    let worker = rejected + ": worker "@ + nat_text(partition.worker_index as nat);
    if requests is Some && partition.estimated_object_store_requests > requests->0 {
        Some(
            worker + " estimated object-store requests "@ + nat_text(
                partition.estimated_object_store_requests as nat,
            ) + " exceed per-worker limit "@ + nat_text(requests->0 as nat),
        )
    } else if bytes is Some && partition.candidate_bytes > bytes->0 {
        Some(
            worker + " candidate bytes "@ + int_text(partition.candidate_bytes as int)
                + " exceed per-worker limit "@ + int_text(bytes->0 as int),
        )
    } else {
        None
    }
}

/// The first fault of a share.
pub open spec fn first_budget_fault(
    partitions: Seq<DistributedQueryPartition>,
    config: DistributedQueryConfig,
    rejected: Seq<char>,
) -> Option<Seq<char>>
    decreases partitions.len(),
{
    if partitions.len() == 0 {
        None
    } else {
        match first_budget_fault(partitions.drop_last(), config, rejected) {
            Some(message) => Some(message),
            None => budget_fault(partitions.last(), config, rejected),
        }
    }
}

fn check_budget(
    partition: &DistributedQueryPartition,
    config: &DistributedQueryConfig,
    rejected: &str,
) -> (r: Result<(), String>)
    ensures
        match r {
            Ok(_) => budget_fault(*partition, *config, rejected@) is None,
            Err(message) => budget_fault(*partition, *config, rejected@) == Some(message@),
        },
{
    let mut message = rejected.to_owned();
    message.append(": worker ");
    message.append(unsigned_text(partition.worker_index as u128).as_str());
    if let Some(limit) = config.max_estimated_object_store_requests_per_worker {
        if partition.estimated_object_store_requests > limit {
            message.append(" estimated object-store requests ");
            message.append(
                unsigned_text(partition.estimated_object_store_requests as u128).as_str(),
            );
            message.append(" exceed per-worker limit ");
            message.append(unsigned_text(limit as u128).as_str());
            return Err(message);
        }
    }
    if let Some(limit) = config.max_candidate_bytes_per_worker {
        if partition.candidate_bytes > limit {
            message.append(" candidate bytes ");
            message.append(integer_text(partition.candidate_bytes).as_str());
            message.append(" exceed per-worker limit ");
            message.append(integer_text(limit).as_str());
            return Err(message);
        }
    }
    Ok(())
}

proof fn lemma_first_fault_of_prefix(
    partitions: Seq<DistributedQueryPartition>,
    config: DistributedQueryConfig,
    rejected: Seq<char>,
    n: int,
)
    requires
        0 <= n <= partitions.len(),
        first_budget_fault(partitions.take(n), config, rejected) is Some,
    ensures
        first_budget_fault(partitions, config, rejected) == first_budget_fault(
            partitions.take(n),
            config,
            rejected,
        ),
    decreases partitions.len(),
{
    if n == partitions.len() {
        assert(partitions.take(n) =~= partitions);
    } else {
        assert(partitions.drop_last().take(n) =~= partitions.take(n));
        lemma_first_fault_of_prefix(partitions.drop_last(), config, rejected, n);
    }
}

/// Refuses a query with a share that is too much for its worker.
pub fn enforce_worker_budgets(
    partitions: &Vec<DistributedQueryPartition>,
    config: &DistributedQueryConfig,
    rejected: &str,
) -> (r: Result<(), String>)
    ensures
        match r {
            Ok(_) => first_budget_fault(partitions@, *config, rejected@) is None,
            Err(message) => first_budget_fault(partitions@, *config, rejected@) == Some(message@),
        },
{
    let mut i: usize = 0;
    assert(partitions@.take(0) =~= Seq::<DistributedQueryPartition>::empty());
    while i < partitions.len()
        invariant
            i <= partitions.len(),
            first_budget_fault(partitions@.take(i as int), *config, rejected@) is None,
        decreases partitions.len() - i,
    {
        assert(partitions@.take(i + 1).drop_last() =~= partitions@.take(i as int));
        match check_budget(&partitions[i], config, rejected) {
            Ok(_) => {},
            Err(message) => {
                proof {
                    lemma_first_fault_of_prefix(partitions@, *config, rejected@, i + 1);
                }
                return Err(message);
            },
        }
        i += 1;
    }
    assert(partitions@.take(i as int) =~= partitions@);
    Ok(())
}

/// The shares of a plan, unless there are too many of them or one is too much for
/// its worker.
pub fn share_out(
    segments: &Vec<SegmentSource>,
    config: &DistributedQueryConfig,
    rejected: &str,
) -> (r: Result<Vec<DistributedQueryPartition>, String>)
    requires
        can_share(*config),
        shares_fit(segments@, config.max_segments_per_partition as int),
    ensures
        ({
            let count = share_count(
                segments@.len() as int,
                config.max_segments_per_partition as int,
            );
            match r {
                Ok(partitions) => {
                    &&& overload_fault(count, *config) is None
                    &&& first_budget_fault(partitions@, *config, rejected@) is None
                    &&& partitions@.len() == count
                    &&& forall|number: int|
                        0 <= number < count ==> is_partition(
                            #[trigger] partitions@[number],
                            segments@,
                            *config,
                            number,
                        )
                },
                Err(message) => {
                    ||| overload_fault(count, *config) == Some(message@)
                    ||| {
                        &&& overload_fault(count, *config) is None
                        &&& exists|partitions: Seq<DistributedQueryPartition>|
                            #![trigger first_budget_fault(partitions, *config, rejected@)]
                            {
                                &&& partitions.len() == count
                                &&& forall|number: int|
                                    0 <= number < count ==> is_partition(
                                        #[trigger] partitions[number],
                                        segments@,
                                        *config,
                                        number,
                                    )
                                &&& first_budget_fault(partitions, *config, rejected@) == Some(message@)
                            }
                    }
                },
            }
        }),
{
    let partitions = plan_partitions(segments, config);
    match shed_if_overloaded(partitions.len(), config) {
        Ok(_) => {},
        Err(message) => {
            return Err(message);
        },
    }
    match enforce_worker_budgets(&partitions, config, rejected) {
        Ok(_) => Ok(partitions),
        Err(message) => Err(message),
    }
}

/// The sum of two counts, within the range of a `u64`.
pub open spec fn count_sum(a: u64, b: u64) -> u64 {
    if a + b > u64::MAX {
        u64::MAX
    } else {
        (a + b) as u64
    }
}

/// What was read in all.
pub open spec fn reads_sum(
    left: ObjectStoreReadSnapshot,
    right: ObjectStoreReadSnapshot,
) -> ObjectStoreReadSnapshot {
    ObjectStoreReadSnapshot {
        get_requests: count_sum(left.get_requests, right.get_requests),
        get_ranges_requests: count_sum(left.get_ranges_requests, right.get_ranges_requests),
        head_requests: count_sum(left.head_requests, right.head_requests),
        list_requests: count_sum(left.list_requests, right.list_requests),
        bytes_read: count_sum(left.bytes_read, right.bytes_read),
    }
}

/// What was read in all.
pub fn add_snapshots(left: ObjectStoreReadSnapshot, right: ObjectStoreReadSnapshot) -> (r:
    ObjectStoreReadSnapshot)
    ensures
        r == reads_sum(left, right),
{
    ObjectStoreReadSnapshot {
        get_requests: left.get_requests.saturating_add(right.get_requests),
        get_ranges_requests: left.get_ranges_requests.saturating_add(right.get_ranges_requests),
        head_requests: left.head_requests.saturating_add(right.head_requests),
        list_requests: left.list_requests.saturating_add(right.list_requests),
        bytes_read: left.bytes_read.saturating_add(right.bytes_read),
    }
}

/// What one share of a query cost.
#[derive(Debug, PartialEq, Eq)]
pub struct DistributedQueryPartitionDiagnostics {
    pub worker_index: usize,
    pub project_names: Vec<String>,
    pub segment_count: usize,
    pub candidate_runs: usize,
    pub candidate_bytes: i64,
    pub estimated_object_store_requests: usize,
    pub rows_returned: usize,
    pub actual_object_store_requests: u64,
    pub actual_object_store_bytes_read: u64,
    pub datafusion_planning_time: Duration,
    pub datafusion_execution_time: Duration,
}

/// How a query was shared out.
#[derive(Debug, PartialEq, Eq)]
pub struct DistributedQueryDiagnostics {
    pub workers_configured: usize,
    pub partitions_planned: usize,
    pub partitions_executed: usize,
    pub max_in_flight_partitions: usize,
    pub load_shed: bool,
    pub cancelled: bool,
    pub partitions: Vec<DistributedQueryPartitionDiagnostics>,
}

/// The runs that a query gives, and what it cost.
#[derive(Debug, PartialEq, Eq)]
pub struct DistributedRunQueryResult {
    pub runs: Vec<RunSummary>,
    pub diagnostics: RunQueryDiagnostics,
    pub distributed: DistributedQueryDiagnostics,
}

/// What a worker gives back for its share.
#[derive(Debug, PartialEq, Eq)]
pub struct PartitionExecutionResult<T> {
    pub rows: Vec<T>,
    pub diagnostics: DistributedQueryPartitionDiagnostics,
    pub planning_time: Duration,
    pub execution_time: Duration,
    pub reads: ObjectStoreReadSnapshot,
}

/// Whether `told` is what is said of a share that gave so many rows.
pub open spec fn is_told_of(
    told: DistributedQueryPartitionDiagnostics,
    partition: DistributedQueryPartition,
    rows: int,
    reads: ObjectStoreReadSnapshot,
    planning_time: Duration,
    execution_time: Duration,
) -> bool {
    &&& told.worker_index == partition.worker_index
    &&& told.project_names@ == partition.project_names@
    &&& told.segment_count == partition.segments@.len()
    &&& told.candidate_runs == partition.candidate_runs
    &&& told.candidate_bytes == partition.candidate_bytes
    &&& told.estimated_object_store_requests == partition.estimated_object_store_requests
    &&& told.rows_returned == rows
    &&& told.actual_object_store_requests == reads.requests()
    &&& told.actual_object_store_bytes_read == reads.bytes_read
    &&& told.datafusion_planning_time == planning_time
    &&& told.datafusion_execution_time == execution_time
}

/// What a worker gives back for its share, when the scan of it has given `rows`.
pub fn worker_rows<T>(
    partition: DistributedQueryPartition,
    query: &RunQuery,
    rows: Vec<T>,
    reads: ObjectStoreReadSnapshot,
    planning_time: Duration,
    execution_time: Duration,
) -> (r: Result<PartitionExecutionResult<T>, String>)
    requires
        reads.requests() <= u64::MAX,
    ensures
        match r {
            Ok(result) => {
                &&& runtime_fault(query@, reads) is None
                &&& result.rows@ == rows@
                &&& result.reads == reads
                &&& result.planning_time == planning_time
                &&& result.execution_time == execution_time
                &&& is_told_of(
                    result.diagnostics,
                    partition,
                    rows@.len() as int,
                    reads,
                    planning_time,
                    execution_time,
                )
            },
            Err(message) => runtime_fault(query@, reads) == Some(message@),
        },
{
    match enforce_runtime_object_store_limits(query, reads) {
        Ok(_) => {},
        Err(message) => {
            return Err(message);
        },
    }
    let rows_returned = rows.len();
    Ok(
        PartitionExecutionResult {
            rows,
            diagnostics: DistributedQueryPartitionDiagnostics {
                worker_index: partition.worker_index,
                segment_count: partition.segments.len(),
                project_names: partition.project_names,
                candidate_runs: partition.candidate_runs,
                candidate_bytes: partition.candidate_bytes,
                estimated_object_store_requests: partition.estimated_object_store_requests,
                rows_returned,
                actual_object_store_requests: reads.request_count(),
                actual_object_store_bytes_read: reads.bytes_read,
                datafusion_planning_time: planning_time,
                datafusion_execution_time: execution_time,
            },
            planning_time,
            execution_time,
            reads,
        },
    )
}

/// What a worker gives back for its share of a listing, when the scan of it has
/// given `runs`: those on the page.
pub fn partition_result(
    partition: DistributedQueryPartition,
    query: &RunQuery,
    runs: Vec<RunSummary>,
    reads: ObjectStoreReadSnapshot,
    planning_time: Duration,
    execution_time: Duration,
) -> (r: Result<PartitionExecutionResult<RunSummary>, String>)
    requires
        reads.requests() <= u64::MAX,
    ensures
        match r {
            Ok(result) => {
                &&& runtime_fault(query@, reads) is None
                &&& result.rows@ == page_of_runs(runs@, query@)
                &&& result.reads == reads
                &&& result.planning_time == planning_time
                &&& result.execution_time == execution_time
                &&& is_told_of(
                    result.diagnostics,
                    partition,
                    result.rows@.len() as int,
                    reads,
                    planning_time,
                    execution_time,
                )
            },
            Err(message) => runtime_fault(query@, reads) == Some(message@),
        },
{
    let page = page_datafusion_runs(runs, query);
    worker_rows(partition, query, page, reads, planning_time, execution_time)
}

/// What failed first, if anything did.
pub open spec fn first_failure<T>(
    results: Seq<Result<PartitionExecutionResult<T>, String>>,
) -> Option<Seq<char>>
    decreases results.len(),
{
    if results.len() == 0 {
        None
    } else {
        match first_failure(results.drop_last()) {
            Some(message) => Some(message),
            None => match results.last() {
                Ok(_) => None,
                Err(message) => Some(message@),
            },
        }
    }
}

/// What all workers that did not fail gave back, in order.
pub struct Gathered<T> {
    pub rows: Seq<T>,
    pub told: Seq<DistributedQueryPartitionDiagnostics>,
    pub planning: int,
    pub execution: int,
    pub reads: ObjectStoreReadSnapshot,
}

pub open spec fn gathered<T>(
    results: Seq<Result<PartitionExecutionResult<T>, String>>,
) -> Gathered<T>
    decreases results.len(),
{
    if results.len() == 0 {
        Gathered {
            rows: Seq::empty(),
            told: Seq::empty(),
            planning: 0,
            execution: 0,
            reads: ObjectStoreReadSnapshot::nothing(),
        }
    } else {
        let before = gathered(results.drop_last());
        match results.last() {
            Ok(result) => Gathered {
                rows: before.rows + result.rows@,
                told: before.told.push(result.diagnostics),
                planning: before.planning + result.planning_time.nanos,
                execution: before.execution + result.execution_time.nanos,
                reads: reads_sum(before.reads, result.reads),
            },
            Err(_) => before,
        }
    }
}

/// Whether the times of the workers are in range when they are added up.
pub open spec fn times_fit<T>(results: Seq<Result<PartitionExecutionResult<T>, String>>) -> bool {
    gathered(results).planning <= u128::MAX && gathered(results).execution <= u128::MAX
}

proof fn lemma_gathered_prefix<T>(
    results: Seq<Result<PartitionExecutionResult<T>, String>>,
    n: int,
)
    requires
        0 <= n <= results.len(),
    ensures
        gathered(results.take(n)).planning <= gathered(results).planning,
        gathered(results.take(n)).execution <= gathered(results).execution,
        first_failure(results.take(n)) is Some ==> first_failure(results) == first_failure(
            results.take(n),
        ),
    decreases results.len(),
{
    if n == results.len() {
        assert(results.take(n) =~= results);
    } else {
        assert(results.drop_last().take(n) =~= results.take(n));
        lemma_gathered_prefix(results.drop_last(), n);
    }
}

/// What the workers gave back together.
#[derive(Debug, PartialEq, Eq)]
pub struct GatheredRows<T> {
    pub rows: Vec<T>,
    pub partitions: Vec<DistributedQueryPartitionDiagnostics>,
    pub planning_time: Duration,
    pub execution_time: Duration,
    pub reads: ObjectStoreReadSnapshot,
}

/// What the workers gave back together, unless one of them failed.
pub fn gather<T>(results: Vec<Result<PartitionExecutionResult<T>, String>>) -> (r: Result<
    GatheredRows<T>,
    String,
>)
    requires
        times_fit(results@),
    ensures
        match r {
            Ok(all) => {
                &&& first_failure(results@) is None
                &&& all.rows@ == gathered(results@).rows
                &&& all.partitions@ == gathered(results@).told
                &&& all.planning_time.nanos == gathered(results@).planning
                &&& all.execution_time.nanos == gathered(results@).execution
                &&& all.reads == gathered(results@).reads
            },
            Err(message) => first_failure(results@) == Some(message@),
        },
{
    let ghost all = results@;
    let mut rows: Vec<T> = Vec::new();
    let mut partitions: Vec<DistributedQueryPartitionDiagnostics> = Vec::new();
    let mut planning: u128 = 0;
    let mut execution: u128 = 0;
    let mut reads = ObjectStoreReadSnapshot::default();
    assert(all.take(0) =~= Seq::empty());
    for result in iter: results
        invariant
            iter.seq() == all,
            times_fit(all),
            first_failure(all.take(iter.index() as int)) is None,
            gathered(all.take(iter.index() as int)).rows == rows@,
            gathered(all.take(iter.index() as int)).told == partitions@,
            gathered(all.take(iter.index() as int)).planning == planning,
            gathered(all.take(iter.index() as int)).execution == execution,
            gathered(all.take(iter.index() as int)).reads == reads,
    {
        let ghost n = iter.index() as int;
        assert(all.take(n + 1).drop_last() =~= all.take(n));
        assert(all.take(n + 1).last() == result);
        proof {
            lemma_gathered_prefix(all, n + 1);
        }
        match result {
            Ok(mut given) => {
                rows.append(&mut given.rows);
                partitions.push(given.diagnostics);
                planning = planning + given.planning_time.nanos;
                execution = execution + given.execution_time.nanos;
                reads = add_snapshots(reads, given.reads);
            },
            Err(message) => {
                return Err(message);
            },
        }
    }
    assert(all.take(all.len() as int) =~= all);
    Ok(
        GatheredRows {
            rows,
            partitions,
            planning_time: Duration { nanos: planning },
            execution_time: Duration { nanos: execution },
            reads,
        },
    )
}

/// What stands of a plan in the diagnostics of a query.
#[derive(Debug, Clone, Copy, PartialEq, Eq)]
pub struct PlanFigures {
    pub candidate_segments: usize,
    pub candidate_runs: usize,
    pub candidate_bytes: i64,
    pub estimated_object_store_requests: usize,
    pub partitions: usize,
}

/// The runs that a shared-out query gives: of those that are kept, the page that
/// it asks for; or why it is refused.
pub open spec fn distributed_listing(
    query: Query,
    runs: Seq<RunSummary>,
    candidates: Seq<Key>,
    deleted: Seq<Key>,
    reads: ObjectStoreReadSnapshot,
) -> Result<Seq<RunSummary>, Seq<char>> {
    match runtime_fault(query, reads) {
        Some(message) => Err(message),
        None => Ok(page_of_runs(kept_runs(runs, Some(candidates), deleted, query), query)),
    }
}

/// What a shared-out query gives, from what its workers gave back.
pub fn distributed_result(
    query: &RunQuery,
    config: &DistributedQueryConfig,
    figures: PlanFigures,
    candidate_run_keys: &Vec<RunKey>,
    deleted_run_keys: &Vec<RunKey>,
    results: Vec<Result<PartitionExecutionResult<RunSummary>, String>>,
    search_index_reads: ObjectStoreReadSnapshot,
    postgres_query_time: Duration,
) -> (r: Result<DistributedRunQueryResult, String>)
    requires
        times_fit(results@),
        reads_sum(gathered(results@).reads, search_index_reads).requests() <= u64::MAX,
    ensures
        ({
            let all = gathered(results@);
            let reads = reads_sum(all.reads, search_index_reads);
            let listing = distributed_listing(
                query@,
                all.rows,
                keys_of(candidate_run_keys@),
                keys_of(deleted_run_keys@),
                reads,
            );
            match r {
                Ok(found) => {
                    &&& first_failure(results@) is None
                    &&& listing == Ok::<_, Seq<char>>(found.runs@)
                    &&& found.diagnostics == (RunQueryDiagnostics {
                        candidate_segments: figures.candidate_segments,
                        candidate_runs: figures.candidate_runs,
                        candidate_bytes: figures.candidate_bytes,
                        estimated_object_store_requests: figures.estimated_object_store_requests,
                        actual_object_store_requests: reads.requests() as u64,
                        actual_object_store_bytes_read: reads.bytes_read,
                        vortex_files_opened: figures.candidate_segments,
                        rows_returned: found.runs@.len() as usize,
                        postgres_query_time,
                        datafusion_planning_time: Duration { nanos: all.planning as u128 },
                        datafusion_execution_time: Duration { nanos: all.execution as u128 },
                    })
                    &&& found.distributed.workers_configured == config.worker_count
                    &&& found.distributed.partitions_planned == figures.partitions
                    &&& found.distributed.partitions_executed == all.told.len()
                    &&& found.distributed.max_in_flight_partitions == workers_at_once(*config)
                    &&& !found.distributed.load_shed
                    &&& !found.distributed.cancelled
                    &&& found.distributed.partitions@ == all.told
                },
                Err(message) => match first_failure(results@) {
                    Some(failure) => message@ == failure,
                    None => listing == Err::<Seq<RunSummary>, _>(message@),
                },
            }
        }),
{
    let all = match gather(results) {
        Ok(all) => all,
        Err(message) => {
            return Err(message);
        },
    };
    let kept = keep_runs(all.rows, Some(candidate_run_keys), deleted_run_keys, query);
    let page = page_datafusion_runs(kept, query);
    let total_reads = add_snapshots(all.reads, search_index_reads);
    match enforce_runtime_object_store_limits(query, total_reads) {
        Ok(_) => {},
        Err(message) => {
            return Err(message);
        },
    }
    let rows_returned = page.len();
    let partitions_executed = all.partitions.len();
    Ok(
        DistributedRunQueryResult {
            runs: page,
            diagnostics: RunQueryDiagnostics {
                candidate_segments: figures.candidate_segments,
                candidate_runs: figures.candidate_runs,
                candidate_bytes: figures.candidate_bytes,
                estimated_object_store_requests: figures.estimated_object_store_requests,
                actual_object_store_requests: total_reads.request_count(),
                actual_object_store_bytes_read: total_reads.bytes_read,
                vortex_files_opened: figures.candidate_segments,
                rows_returned,
                postgres_query_time,
                datafusion_planning_time: all.planning_time,
                datafusion_execution_time: all.execution_time,
            },
            distributed: DistributedQueryDiagnostics {
                workers_configured: config.worker_count,
                partitions_planned: figures.partitions,
                partitions_executed,
                max_in_flight_partitions: worker_limit(config),
                load_shed: false,
                cancelled: false,
                partitions: all.partitions,
            },
        },
    )
}

/// The page of a query does not depend on the order in which the workers finish,
/// as long as no two of their runs start at the same time in the same span.
pub proof fn law_page_ignores_worker_order(a: Seq<RunSummary>, b: Seq<RunSummary>, query: Query)
    requires
        a.to_multiset() == b.to_multiset(),
        no_ties(a, page_order(query.newest_first)),
    ensures
        page_of_runs(a, query) == page_of_runs(b, query),
{
    law_page_order(query.newest_first);
    law_sort_ignores_order(a, b, page_order(query.newest_first));
}

/// Whether a query keeps all runs.
pub open spec fn keeps_all(
    runs: Seq<RunSummary>,
    candidates: Seq<Key>,
    deleted: Seq<Key>,
    query: Query,
) -> bool {
    forall|run: RunSummary| #[trigger]
        runs.contains(run) ==> is_kept(run, Some(candidates), deleted, query)
}

proof fn lemma_keeps_all(
    runs: Seq<RunSummary>,
    candidates: Seq<Key>,
    deleted: Seq<Key>,
    query: Query,
)
    requires
        keeps_all(runs, candidates, deleted, query),
    ensures
        kept_runs(runs, Some(candidates), deleted, query) == runs,
    decreases runs.len(),
{
    reveal(Seq::filter);
    if runs.len() > 0 {
        let rest = runs.drop_last();
        assert forall|run: RunSummary| #[trigger] rest.contains(run) implies is_kept(
            run,
            Some(candidates),
            deleted,
            query,
        ) by {
            assert(runs[rest.index_of(run)] == run);
            assert(runs.contains(run));
        }
        lemma_keeps_all(rest, candidates, deleted, query);
        assert(runs.contains(runs.last()));
        assert(rest.push(runs.last()) =~= runs);
    } else {
        assert(kept_runs(runs, Some(candidates), deleted, query) =~= runs);
    }
}

proof fn lemma_page_members(runs: Seq<RunSummary>, query: Query)
    ensures
        forall|run: RunSummary| #[trigger]
            page_of_runs(runs, query).contains(run) ==> runs.contains(run),
{
    let less = page_order(query.newest_first);
    let ordered = stable_sort(runs, less);
    lemma_sort_members(runs, less);
    let page = page_of_runs(runs, query);
    assert forall|run: RunSummary| #[trigger] page.contains(run) implies runs.contains(run) by {
        let start = match query.offset {
            Some(n) => if n < ordered.len() {
                n as int
            } else {
                ordered.len() as int
            },
            None => 0,
        };
        let at = start + page.index_of(run);
        law_sort_keeps_elements(runs, less);
        assert(ordered.len() == runs.len());
        assert(page[page.index_of(run)] == run);
        assert(ordered[at] == run);
        assert(runs.contains(ordered[at]));
    }
}

proof fn lemma_pages_members(parts: Seq<Seq<RunSummary>>, query: Query)
    ensures
        forall|run: RunSummary| #[trigger]
            all_of(pages_of_parts(parts, query)).contains(run) ==> all_of(parts).contains(run),
    decreases parts.len(),
{
    let pages = pages_of_parts(parts, query);
    if parts.len() > 0 {
        let rest = parts.drop_last();
        lemma_pages_members(rest, query);
        assert(pages.drop_last() =~= pages_of_parts(rest, query));
        lemma_page_members(parts.last(), batch_query(query));
        let before = all_of(pages.drop_last());
        assert forall|run: RunSummary| #[trigger] all_of(pages).contains(run) implies all_of(
            parts,
        ).contains(run) by {
            let i = all_of(pages).index_of(run);
            if i < before.len() {
                assert(before[i] == run);
                assert(before.contains(run));
                assert(all_of(parts)[all_of(rest).index_of(run)] == run);
            } else {
                assert(pages.last()[i - before.len()] == run);
                assert(pages.last().contains(run));
                assert(all_of(parts)[all_of(rest).len() + parts.last().index_of(run)] == run);
            }
        }
    }
}

/// A query that is shared out gives the same as one that is not, as long as it keeps
/// all runs that it finds: the parts are what its workers find in their segments.
pub proof fn law_sharing_out_gives_the_same(
    parts: Seq<Seq<RunSummary>>,
    query: Query,
    candidates: Seq<Key>,
    deleted: Seq<Key>,
    reads: ObjectStoreReadSnapshot,
)
    requires
        all_of(parts).len() <= usize::MAX,
        keeps_all(all_of(parts), candidates, deleted, query),
    ensures
        distributed_listing(
            query,
            all_of(pages_of_parts(parts, query)),
            candidates,
            deleted,
            reads,
        ) == listed(query, all_of(parts), Some(candidates), deleted, reads),
{
    let runs = all_of(parts);
    let given = all_of(pages_of_parts(parts, query));
    law_page_of_parts(parts, query);
    lemma_pages_members(parts, query);
    lemma_page_members(runs, query);
    lemma_keeps_all(given, candidates, deleted, query);
    lemma_keeps_all(page_of_runs(runs, query), candidates, deleted, query);
}

/// A query can be shared out just if there is a worker, a share can hold a segment, and a share
/// can be worked on.
pub proof fn law_config_has_no_zeros(config: DistributedQueryConfig)
    ensures
        config_fault(config) is None <==> config.worker_count >= 1
            && config.max_segments_per_partition >= 1 && config.max_in_flight_partitions >= 1,
        config_fault(DistributedQueryConfig::standard()) is None,
{
}

/// As many workers are at work as there are, but no more than there may be shares in flight.
pub proof fn law_workers_at_once(config: DistributedQueryConfig)
    requires
        config_fault(config) is None,
    ensures
        workers_at_once(config) <= config.worker_count,
        workers_at_once(config) <= config.max_in_flight_partitions,
        workers_at_once(config) == config.worker_count || workers_at_once(config)
            == config.max_in_flight_partitions,
{
}

/// A query is shed just if it has more shares than may wait.
pub proof fn law_overload_is_shed(partitions: int, config: DistributedQueryConfig)
    ensures
        overload_fault(partitions, config) is None <==> (config.max_queued_partitions matches Some(
            most,
        ) ==> partitions <= most),
{
}

/// A query is refused just if one of its shares is more than a worker may take on.
pub proof fn law_shares_stay_in_budget(
    partitions: Seq<DistributedQueryPartition>,
    config: DistributedQueryConfig,
    rejected: Seq<char>,
)
    ensures
        first_budget_fault(partitions, config, rejected) is None <==> forall|i: int|
            0 <= i < partitions.len() ==> {
                let one = #[trigger] partitions[i];
                &&& config.max_estimated_object_store_requests_per_worker matches Some(most)
                    ==> one.estimated_object_store_requests <= most
                &&& config.max_candidate_bytes_per_worker matches Some(most) ==> one.candidate_bytes
                    <= most
            },
    decreases partitions.len(),
{
    if partitions.len() > 0 {
        let before = partitions.drop_last();
        let last = partitions.len() - 1;
        law_shares_stay_in_budget(before, config, rejected);
        assert(partitions[last] == partitions.last());
        assert forall|i: int| 0 <= i < before.len() implies #[trigger] before[i]
            == partitions[i] by {}
        if first_budget_fault(partitions, config, rejected) is None {
            assert forall|i: int| 0 <= i < partitions.len() implies {
                let one = #[trigger] partitions[i];
                &&& config.max_estimated_object_store_requests_per_worker matches Some(most)
                    ==> one.estimated_object_store_requests <= most
                &&& config.max_candidate_bytes_per_worker matches Some(most) ==> one.candidate_bytes
                    <= most
            } by {
                if i < last {
                    assert(before[i] == partitions[i]);
                }
            }
        }
    }
}

/// Reads of two workers add up, kind by kind.
pub proof fn law_reads_add_up(left: ObjectStoreReadSnapshot, right: ObjectStoreReadSnapshot)
    requires
        left.requests() + right.requests() <= u64::MAX,
        left.bytes_read + right.bytes_read <= u64::MAX,
    ensures
        ({
            let all = reads_sum(left, right);
            &&& all.requests() == left.requests() + right.requests()
            &&& all.bytes_read == left.bytes_read + right.bytes_read
            &&& all.get_requests - left.get_requests == right.get_requests
            &&& all.get_ranges_requests - left.get_ranges_requests == right.get_ranges_requests
            &&& all.head_requests - left.head_requests == right.head_requests
            &&& all.list_requests - left.list_requests == right.list_requests
            &&& reads_sum(right, left) == all
        }),
{
}

/// A query fails just if one of its workers does, and then with the fault of the first that did.
pub proof fn law_first_failure<T>(results: Seq<Result<PartitionExecutionResult<T>, String>>)
    ensures
        match first_failure(results) {
            Some(message) => exists|i: int|
                0 <= i < results.len() && (#[trigger] results[i] matches Err(text) && text@
                    == message) && forall|j: int| 0 <= j < i ==> (#[trigger] results[j]) is Ok,
            None => forall|j: int| 0 <= j < results.len() ==> (#[trigger] results[j]) is Ok,
        },
    decreases results.len(),
{
    if results.len() > 0 {
        let before = results.drop_last();
        let last = results.len() - 1;
        law_first_failure(before);
        assert(results[last] == results.last());
        if first_failure(before) is Some {
            let message = first_failure(before)->0;
            let i = choose|i: int|
                0 <= i < before.len() && (#[trigger] before[i] matches Err(text) && text@
                    == message) && forall|j: int| 0 <= j < i ==> (#[trigger] before[j]) is Ok;
            assert(results[i] == before[i]);
            assert forall|j: int| 0 <= j < i implies (#[trigger] results[j]) is Ok by {
                assert(results[j] == before[j]);
            }
        } else {
            assert forall|j: int| 0 <= j < last implies (#[trigger] results[j]) is Ok by {
                assert(results[j] == before[j]);
            }
        }
    }
}

/// What the workers found is put together, row behind row, in their order; their times add up.
pub proof fn law_gathering_loses_nothing<T>(
    results: Seq<Result<PartitionExecutionResult<T>, String>>,
    result: PartitionExecutionResult<T>,
)
    ensures
        ({
            let before = gathered(results);
            let after = gathered(results.push(Ok(result)));
            &&& after.rows == before.rows + result.rows@
            &&& after.told == before.told.push(result.diagnostics)
            &&& after.planning - before.planning == result.planning_time.nanos
            &&& after.execution - before.execution == result.execution_time.nanos
            &&& after.reads == reads_sum(before.reads, result.reads)
        }),
        gathered(Seq::<Result<PartitionExecutionResult<T>, String>>::empty()).rows.len() == 0,
{
    let more = results.push(Ok(result));
    assert(more.drop_last() =~= results);
}

} // verus!
