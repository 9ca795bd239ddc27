//! Records on their way into segments: their keys, their partitions, and the names
//! of segments.

use crate::json::json_reading;
use crate::json::read_json;
use crate::query::filter::lexer::debug_text;
use crate::query::filter::lexer::quoted;
use crate::record::SpanRecord;
use crate::sorting::insert_distinct;
use crate::sorting::law_ordered_set_holds_its_elements;
use crate::sorting::lemma_filter_members;
use crate::sorting::lemma_ordered_insert_map;
use crate::sorting::ordered_set;
use crate::sorting::total_order;
use crate::sql::literal;
use crate::sql::literal_list;
use crate::sql::sql_string_list;
use crate::sql::sql_string_literal;
use crate::statement::Call;
use crate::statement::Statement;
use crate::statement::call;
use crate::text::hex_text;
use crate::text::hexadecimal_text;
use crate::text::int_text;
use crate::text::integer_text;
use crate::text::is_in;
use crate::text::is_less;
use crate::text::law_integer_text_is_digits;
use crate::text::law_integer_text_reads_back;
use crate::text::law_number_text_is_digits;
use crate::text::law_text_order_is_total;
use crate::text::law_text_order_is_transitive;
use crate::text::lemma_same_around;
use crate::text::nat_text;
use crate::text::no_texts;
use crate::text::opt_text;
use crate::text::push_text;
use crate::text::same;
use crate::text::text_less;
use crate::text::texts;
use crate::text::trim;
use crate::text::trimmed;
use crate::text::unsigned_text;
use crate::time::bucket_start;
use crate::time::bucket_start_of;
use crate::time::clamp_i64;
use crate::time::clamped;
use crate::time::law_bucket_holds_its_time;
use vstd::hash_set::StringHashSet;
use vstd::prelude::*;
use vstd::string::StringExecFns;
use vstd::utf8::encode_utf8;
use vstd::utf8::encode_utf8_decode_utf8;
use vstd::wrapping::u64_specs;

verus! {

/// How long the time buckets of segments are: an hour.
pub const INGEST_TIME_BUCKET_UNIX_NANOS: i64 = 3_600_000_000_000;

/// How the status of a run is written: an error counts before an end that is
/// missing.
pub open spec fn status_of(status_code: i32, end: i64) -> Seq<char> {
    if status_code == 2 {
        "error"@
    } else if end == 0 {
        "pending"@
    } else {
        "success"@
    }
}

/// How the status of a run is written.
pub fn status_from_record(record: &SpanRecord) -> (r: &'static str)
    ensures
        r@ == status_of(record.status_code, record.end_time_unix_nano),
{
    if record.status_code == 2 {
        "error"
    } else if record.end_time_unix_nano == 0 {
        "pending"
    } else {
        "success"
    }
}

/// When the event of a record took place: when the run ended, or when it started if
/// it has not ended.
pub open spec fn event_time(record: SpanRecord) -> i64 {
    if record.end_time_unix_nano > 0 {
        record.end_time_unix_nano
    } else {
        record.start_time_unix_nano
    }
}

/// When the event of a record took place.
pub fn event_time_unix_nano(record: &SpanRecord) -> (r: i64)
    ensures
        r == event_time(*record),
{
    if record.end_time_unix_nano > 0 {
        record.end_time_unix_nano
    } else {
        record.start_time_unix_nano
    }
}

/// A hash of bytes that is the same everywhere: FNV-1a.
pub open spec fn hash_of(bytes: Seq<u8>) -> u64
    decreases bytes.len(),
{
    if bytes.len() == 0 {
        0xcbf2_9ce4_8422_2325
    } else {
        u64_specs::wrapping_mul(
            hash_of(bytes.drop_last()) ^ bytes.last() as u64,
            0x0000_0100_0000_01b3,
        )
    }
}

/// A hash of the bytes of a text that is the same everywhere.
pub fn stable_hash(text: &str) -> (r: u64)
    ensures
        r == hash_of(encode_utf8(text@)),
{
    let bytes = text.as_bytes();
    let mut hash: u64 = 0xcbf2_9ce4_8422_2325;
    let mut i: usize = 0;
    assert(bytes@.take(0) =~= Seq::<u8>::empty());
    while i < bytes.len()
        invariant
            i <= bytes.len(),
            bytes@ == encode_utf8(text@),
            hash == hash_of(bytes@.take(i as int)),
        decreases bytes.len() - i,
    {
        assert(bytes@.take(i + 1).drop_last() =~= bytes@.take(i as int));
        let mixed: u64 = hash ^ bytes[i] as u64;
        hash = mixed.wrapping_mul(0x0000_0100_0000_01b3);
        i += 1;
    }
    assert(bytes@.take(i as int) =~= bytes@);
    hash
}

/// The key by which a record that comes again is known: its own, or one made of all
/// that it says.
pub open spec fn record_key(record: SpanRecord) -> Seq<char> {
    match record.idempotency_key {
        Some(key) => key@,
        None => record.run_id@ + ":"@ + record.trace_id@ + ":"@ + record.span_id@ + ":"@
            + record.event_kind.word() + ":"@ + int_text(event_time(record) as int) + ":"@
            + int_text(record.start_time_unix_nano as int) + ":"@ + int_text(
            record.end_time_unix_nano as int,
        ) + ":"@ + int_text(record.status_code as int) + ":"@ + record.name@ + ":"@ + hex_text(
            hash_of(encode_utf8(record.attributes_json@)) as nat,
            16,
        ),
    }
}

/// The key by which a record that comes again is known.
pub fn run_event_idempotency_key(record: &SpanRecord) -> (r: String)
    ensures
        r@ == record_key(*record),
{
    if let Some(key) = &record.idempotency_key {
        return key.clone();
    }
    let mut out = record.run_id.clone();
    out.append(":");
    out.append(record.trace_id.as_str());
    out.append(":");
    out.append(record.span_id.as_str());
    out.append(":");
    out.append(record.event_kind.as_str());
    out.append(":");
    out.append(integer_text(event_time_unix_nano(record)).as_str());
    out.append(":");
    out.append(integer_text(record.start_time_unix_nano).as_str());
    out.append(":");
    out.append(integer_text(record.end_time_unix_nano).as_str());
    out.append(":");
    out.append(integer_text(record.status_code as i64).as_str());
    out.append(":");
    out.append(record.name.as_str());
    out.append(":");
    out.append(
        hexadecimal_text(stable_hash(record.attributes_json.as_str()), 16).as_str(),
    );
    out
}

pub open spec fn record_keys(records: Seq<SpanRecord>) -> Seq<Seq<char>> {
    records.map_values(|record: SpanRecord| record_key(record))
}

/// The keys of records.
pub fn keys_of_records(records: &Vec<SpanRecord>) -> (r: Vec<String>)
    ensures
        texts(r@) == record_keys(records@),
{
    let ghost wanted = record_keys(records@);
    let mut out = no_texts();
    let mut i: usize = 0;
    while i < records.len()
        invariant
            i <= records.len(),
            wanted == record_keys(records@),
            texts(out@) == wanted.take(i as int),
        decreases records.len() - i,
    {
        push_text(&mut out, run_event_idempotency_key(&records[i]));
        i += 1;
        assert(wanted.take(i as int) =~= wanted.take(i - 1).push(wanted[i - 1]));
    }
    assert(wanted.take(i as int) =~= wanted);
    out
}

/// The first record of each key, in order.
pub open spec fn first_of_each_key(records: Seq<SpanRecord>) -> Seq<SpanRecord>
    decreases records.len(),
{
    if records.len() == 0 {
        records
    } else {
        let rest = records.drop_last();
        let before = first_of_each_key(rest);
        if record_keys(rest).contains(record_key(records.last())) {
            before
        } else {
            before.push(records.last())
        }
    }
}

/// The first record of each key, in order.
pub fn deduplicate_records(records: Vec<SpanRecord>) -> (r: Vec<SpanRecord>)
    ensures
        r@ == first_of_each_key(records@),
{
    let ghost all = records@;
    let mut seen = StringHashSet::new();
    let mut out: Vec<SpanRecord> = Vec::new();
    assert(all.take(0) =~= Seq::<SpanRecord>::empty());
    for record in iter: records
        invariant
            iter.seq() == all,
            out@ == first_of_each_key(all.take(iter.index() as int)),
            forall|key: Seq<char>| #[trigger]
                seen@.contains(key) <==> record_keys(all.take(iter.index() as int)).contains(key),
    {
        let ghost n = iter.index() as int;
        let ghost rest = all.take(n);
        let ghost now = all.take(n + 1);
        assert(now.drop_last() =~= rest);
        assert(now.last() == record);
        let key = run_event_idempotency_key(&record);
        let ghost added = key@;
        assert forall|other: Seq<char>| #[trigger]
            record_keys(now).contains(other) <==> record_keys(rest).contains(other) || other
                == added by {
            assert(record_keys(now)[n] == added);
            assert(record_keys(now) =~= record_keys(rest).push(added));
            if record_keys(rest).contains(other) {
                let k = record_keys(rest).index_of(other);
                assert(record_keys(now)[k] == other);
            }
        }
        if !seen.contains(key.as_str()) {
            seen.insert(key);
            out.push(record);
        }
    }
    assert(all.take(all.len() as int) =~= all);
    out
}

/// Of the records of each key exactly one is kept, and it is one that came.
pub proof fn law_one_record_of_each_key(records: Seq<SpanRecord>)
    ensures
        record_keys(first_of_each_key(records)).no_duplicates(),
        forall|key: Seq<char>| #[trigger]
            record_keys(first_of_each_key(records)).contains(key) <==> record_keys(
                records,
            ).contains(key),
        forall|record: SpanRecord| #[trigger]
            first_of_each_key(records).contains(record) ==> records.contains(record),
    decreases records.len(),
{
    if records.len() > 0 {
        let rest = records.drop_last();
        let last = records.last();
        let before = first_of_each_key(rest);
        let out = first_of_each_key(records);
        law_one_record_of_each_key(rest);
        assert(record_keys(records) =~= record_keys(rest).push(record_key(last)));
        assert forall|key: Seq<char>| #[trigger]
            record_keys(records).contains(key) <==> record_keys(rest).contains(key) || key
                == record_key(last) by {
            assert(record_keys(records)[records.len() - 1] == record_key(last));
            if record_keys(rest).contains(key) {
                assert(record_keys(records)[record_keys(rest).index_of(key)] == key);
            }
        }
        if !record_keys(rest).contains(record_key(last)) {
            assert(record_keys(out) =~= record_keys(before).push(record_key(last)));
            assert forall|key: Seq<char>| #[trigger]
                record_keys(out).contains(key) <==> record_keys(before).contains(key) || key
                    == record_key(last) by {
                assert(record_keys(out)[out.len() - 1] == record_key(last));
                if record_keys(before).contains(key) {
                    assert(record_keys(out)[record_keys(before).index_of(key)] == key);
                }
            }
            assert forall|i: int, j: int|
                0 <= i < record_keys(out).len() && 0 <= j < record_keys(out).len() && i
                    != j implies record_keys(out)[i] != record_keys(out)[j] by {
                if i == out.len() - 1 {
                    assert(record_keys(before).contains(record_keys(before)[j]));
                } else if j == out.len() - 1 {
                    assert(record_keys(before).contains(record_keys(before)[i]));
                }
            }
        }
        assert forall|record: SpanRecord| #[trigger] out.contains(
            record,
        ) implies records.contains(record) by {
            if before.contains(record) {
                assert(rest.contains(record));
                assert(records[rest.index_of(record)] == record);
            } else {
                assert(records[records.len() - 1] == record);
            }
        }
    }
}

/// The records whose keys are not among `existing`, in order.
pub open spec fn new_records(records: Seq<SpanRecord>, existing: Seq<Seq<char>>) -> Seq<SpanRecord> {
    records.filter(|record: SpanRecord| !existing.contains(record_key(record)))
}

/// The records whose keys are not among `existing`, in order.
pub fn without_existing(records: Vec<SpanRecord>, existing: &Vec<String>) -> (r: Vec<SpanRecord>)
    ensures
        r@ == new_records(records@, texts(existing@)),
{
    let ghost all = records@;
    let ghost known = texts(existing@);
    let ghost kept = |record: SpanRecord| !known.contains(record_key(record));
    let mut out: Vec<SpanRecord> = Vec::new();
    proof {
        reveal(Seq::filter);
    }
    assert(all.take(0).filter(kept) =~= Seq::<SpanRecord>::empty());
    for record in iter: records
        invariant
            iter.seq() == all,
            known == texts(existing@),
            kept == (|record: SpanRecord| !known.contains(record_key(record))),
            out@ == all.take(iter.index() as int).filter(kept),
    {
        let ghost n = iter.index() as int;
        proof {
            reveal(Seq::filter);
        }
        assert(all.take(n + 1).drop_last() =~= all.take(n));
        assert(all.take(n + 1).last() == record);
        let key = run_event_idempotency_key(&record);
        if !is_in(key.as_str(), existing) {
            out.push(record);
        }
    }
    assert(all.take(all.len() as int) =~= all);
    out
}

/// Which of the keys of records are known already.
pub open spec fn existing_keys_call(records: Seq<SpanRecord>) -> Call {
    call(
        "load existing run event idempotency keys"@,
        "SELECT idempotency_key\n            FROM run_events\n            WHERE project_name = "@
            + literal(records[0].project_name@)
            + "\n                AND idempotency_key IN ("@ + literal_list(record_keys(records))
            + ")"@,
    )
}

/// The statement for the keys of records that are known already: none, if there are
/// no records.
pub fn existing_keys_statement(records: &Vec<SpanRecord>) -> (r: Option<Statement>)
    ensures
        match r {
            Some(statement) => records@.len() > 0 && statement@ == existing_keys_call(records@),
            None => records@.len() == 0,
        },
{
    if records.len() == 0 {
        return None;
    }
    let keys = keys_of_records(records);
    let mut sql =
        "SELECT idempotency_key\n            FROM run_events\n            WHERE project_name = ".to_owned();
    sql.append(sql_string_literal(records[0].project_name.as_str()).as_str());
    sql.append("\n                AND idempotency_key IN (");
    sql.append(sql_string_list(&keys).as_str());
    sql.append(")");
    Some(Statement::new("load existing run event idempotency keys", sql.as_str()))
}

/// Why records are refused before anything is done with them: attributes that are no
/// JSON.
pub open spec fn attributes_fault(records: Seq<SpanRecord>) -> Option<Seq<char>> {
    if exists|i: int|
        0 <= i < records.len() && json_reading(
            (#[trigger] records[i]).attributes_json@,
        ) is None {
        Some("parse attributes_json for scalar indexes"@)
    } else {
        None
    }
}

/// Refuses records whose attributes are no JSON.
pub fn validate_attributes(records: &Vec<SpanRecord>) -> (r: Result<(), String>)
    ensures
        match r {
            Ok(_) => attributes_fault(records@) is None,
            Err(message) => attributes_fault(records@) == Some(message@),
        },
{
    let mut i: usize = 0;
    while i < records.len()
        invariant
            i <= records.len(),
            forall|j: int|
                0 <= j < i ==> json_reading(
                    (#[trigger] records@[j]).attributes_json@,
                ) is Some,
        decreases records.len() - i,
    {
        if read_json(records[i].attributes_json.as_str()).is_none() {
            assert(json_reading(records@[i as int].attributes_json@) is None);
            return Err("parse attributes_json for scalar indexes".to_owned());
        }
        i += 1;
    }
    Ok(())
}

/// A project and an hour: what goes into one segment is of one of each.
#[derive(Debug, PartialEq, Eq)]
pub struct PartitionKey {
    pub project_name: String,
    pub time_bucket_start_unix_nano: i64,
}

/// What a [`PartitionKey`] holds.
pub struct Partition {
    pub project_name: Seq<char>,
    pub hour: i64,
}

impl View for PartitionKey {
    type V = Partition;

    open spec fn view(&self) -> Partition {
        Partition { project_name: self.project_name@, hour: self.time_bucket_start_unix_nano }
    }
}

impl Clone for PartitionKey {
    fn clone(&self) -> (r: Self)
        ensures
            r == *self,
    {
        PartitionKey {
            project_name: self.project_name.clone(),
            time_bucket_start_unix_nano: self.time_bucket_start_unix_nano,
        }
    }
}

/// The partition of a record: its project, and the hour that it started in.
pub open spec fn partition_of(record: SpanRecord) -> Partition {
    Partition {
        project_name: record.project_name@,
        hour: clamped(
            bucket_start(
                record.start_time_unix_nano as int,
                INGEST_TIME_BUCKET_UNIX_NANOS as int,
            ),
        ),
    }
}

/// The partition of a record.
pub fn record_partition_key(record: &SpanRecord) -> (r: PartitionKey)
    ensures
        r@ == partition_of(*record),
{
    PartitionKey {
        project_name: record.project_name.clone(),
        time_bucket_start_unix_nano: clamp_i64(
            bucket_start_of(record.start_time_unix_nano, INGEST_TIME_BUCKET_UNIX_NANOS),
        ),
    }
}

pub open spec fn partition_less(a: Partition, b: Partition) -> bool {
    if a.project_name != b.project_name {
        text_less(a.project_name, b.project_name)
    } else {
        a.hour < b.hour
    }
}

/// The order of partitions: by project, then by hour.
pub open spec fn partition_order() -> spec_fn(Partition, Partition) -> bool {
    |a: Partition, b: Partition| partition_less(a, b)
}

/// The order of partitions is an order of all different partitions.
pub proof fn law_partition_order()
    ensures
        total_order(partition_order()),
{
    let less = partition_order();
    assert forall|a: Partition, b: Partition| #[trigger] less(a, b) implies !less(b, a) by {
        law_text_order_is_total(a.project_name, b.project_name);
    }
    assert forall|a: Partition, b: Partition| !#[trigger] less(a, b) && !less(b, a) implies a
        == b by {
        law_text_order_is_total(a.project_name, b.project_name);
    }
    assert forall|a: Partition, b: Partition, c: Partition| #[trigger] less(a, b)
        && #[trigger] less(b, c) implies less(a, c) by {
        law_text_order_is_total(a.project_name, b.project_name);
        law_text_order_is_total(b.project_name, c.project_name);
        if a.project_name != b.project_name && b.project_name != c.project_name {
            law_text_order_is_transitive(a.project_name, b.project_name, c.project_name);
            law_text_order_is_total(a.project_name, c.project_name);
        }
    }
}

/// Whether one partition comes before another.
pub fn is_partition_less(a: &PartitionKey, b: &PartitionKey) -> (r: bool)
    ensures
        r == partition_less(a@, b@),
{
    if same(a.project_name.as_str(), b.project_name.as_str()) {
        a.time_bucket_start_unix_nano < b.time_bucket_start_unix_nano
    } else {
        is_less(a.project_name.as_str(), b.project_name.as_str())
    }
}

/// Whether two partitions are the same.
pub fn same_partition(a: &PartitionKey, b: &PartitionKey) -> (r: bool)
    ensures
        r == (a@ == b@),
{
    a.time_bucket_start_unix_nano == b.time_bucket_start_unix_nano && same(
        a.project_name.as_str(),
        b.project_name.as_str(),
    )
}

/// A partition as it is shown in an error.
pub open spec fn partition_text(partition: Partition) -> Seq<char> {
    "PartitionKey { project_name: "@ + debug_text(partition.project_name)
        + ", time_bucket_start_unix_nano: "@ + int_text(partition.hour as int) + " }"@
}

fn show_partition(partition: &PartitionKey) -> (r: String)
    ensures
        r@ == partition_text(partition@),
{
    let mut out = "PartitionKey { project_name: ".to_owned();
    out.append(quoted(partition.project_name.as_str()).as_str());
    out.append(", time_bucket_start_unix_nano: ");
    out.append(integer_text(partition.time_bucket_start_unix_nano).as_str());
    out.append(" }");
    out
}

/// What is said of a record in the wrong partition.
pub open spec fn mismatch_text(expected: Partition, found: Partition) -> Seq<char> {
    "record partition mismatch: expected "@ + partition_text(expected) + ", got "@
        + partition_text(found)
}

/// Why records cannot go into the segment of a partition: the first that is of
/// another one.
pub open spec fn partition_fault(partition: Partition, records: Seq<SpanRecord>) -> Option<Seq<char>>
    decreases records.len(),
{
    if records.len() == 0 {
        None
    } else {
        match partition_fault(partition, records.drop_last()) {
            Some(message) => Some(message),
            None => if partition_of(records.last()) != partition {
                Some(mismatch_text(partition, partition_of(records.last())))
            } else {
                None
            },
        }
    }
}

proof fn lemma_partition_fault_of_prefix(partition: Partition, records: Seq<SpanRecord>, n: int)
    requires
        0 <= n <= records.len(),
        partition_fault(partition, records.take(n)) is Some,
    ensures
        partition_fault(partition, records) == partition_fault(partition, records.take(n)),
    decreases records.len(),
{
    if n == records.len() {
        assert(records.take(n) =~= records);
    } else {
        assert(records.drop_last().take(n) =~= records.take(n));
        lemma_partition_fault_of_prefix(partition, records.drop_last(), n);
    }
}

/// Refuses records that are not all of the partition.
pub fn validate_partition_records(partition: &PartitionKey, records: &Vec<SpanRecord>) -> (r:
    Result<(), String>)
    ensures
        match r {
            Ok(_) => partition_fault(partition@, records@) is None,
            Err(message) => partition_fault(partition@, records@) == Some(message@),
        },
{
    let mut i: usize = 0;
    assert(records@.take(0) =~= Seq::<SpanRecord>::empty());
    while i < records.len()
        invariant
            i <= records.len(),
            partition_fault(partition@, records@.take(i as int)) is None,
        decreases records.len() - i,
    {
        assert(records@.take(i + 1).drop_last() =~= records@.take(i as int));
        let own = record_partition_key(&records[i]);
        if !same_partition(&own, partition) {
            let mut message = "record partition mismatch: expected ".to_owned();
            message.append(show_partition(partition).as_str());
            message.append(", got ");
            message.append(show_partition(&own).as_str());
            proof {
                lemma_partition_fault_of_prefix(partition@, records@, i + 1);
            }
            return Err(message);
        }
        i += 1;
    }
    assert(records@.take(i as int) =~= records@);
    Ok(())
}

/// The records of one partition.
#[derive(Debug, PartialEq, Eq)]
pub struct PartitionRecords {
    pub partition: PartitionKey,
    pub records: Vec<SpanRecord>,
}

pub open spec fn partitions_of(records: Seq<SpanRecord>) -> Seq<Partition> {
    records.map_values(|record: SpanRecord| partition_of(record))
}

/// The records of a partition, in order.
pub open spec fn records_in(records: Seq<SpanRecord>, partition: Partition) -> Seq<SpanRecord> {
    records.filter(|record: SpanRecord| partition_of(record) == partition)
}

/// The partitions of records, in order.
pub open spec fn distinct_partitions(records: Seq<SpanRecord>) -> Seq<Partition> {
    ordered_set(partitions_of(records), partition_order())
}

/// Whether these are the records, partition by partition.
pub open spec fn are_grouped(groups: Seq<PartitionRecords>, records: Seq<SpanRecord>) -> bool {
    let partitions = distinct_partitions(records);
    &&& groups.len() == partitions.len()
    &&& forall|i: int|
        0 <= i < groups.len() ==> (#[trigger] groups[i]).partition@ == partitions[i]
            && groups[i].records@ == records_in(records, partitions[i])
}

spec fn partition_models(keys: Seq<PartitionKey>) -> Seq<Partition> {
    keys.map_values(|key: PartitionKey| key@)
}

fn collect_partitions(records: &Vec<SpanRecord>) -> (r: Vec<PartitionKey>)
    ensures
        partition_models(r@) == distinct_partitions(records@),
{
    let ghost all = partitions_of(records@);
    let ghost less = |a: PartitionKey, b: PartitionKey| partition_less(a@, b@);
    let ghost held = |key: PartitionKey| key@;
    let mut out: Vec<PartitionKey> = Vec::new();
    let mut i: usize = 0;
    assert(all.take(0) =~= Seq::<Partition>::empty());
    assert(partition_models(out@) =~= Seq::<Partition>::empty());
    while i < records.len()
        invariant
            i <= records.len(),
            all == partitions_of(records@),
            less == (|a: PartitionKey, b: PartitionKey| partition_less(a@, b@)),
            held == (|key: PartitionKey| key@),
            partition_models(out@) == ordered_set(all.take(i as int), partition_order()),
        decreases records.len() - i,
    {
        assert(all.take(i + 1).drop_last() =~= all.take(i as int));
        let key = record_partition_key(&records[i]);
        assert(all.take(i + 1).last() == key@);
        proof {
            assert forall|a: PartitionKey, b: PartitionKey| #[trigger] less(a, b)
                == partition_order()(held(a), held(b)) by {}
            lemma_ordered_insert_map(out@, key, held, less, partition_order());
        }
        insert_distinct(&mut out, key, is_partition_less, Ghost(less));
        i += 1;
    }
    assert(all.take(i as int) =~= all);
    out
}

fn collect_records(records: &Vec<SpanRecord>, partition: &PartitionKey) -> (r: Vec<SpanRecord>)
    ensures
        r@ == records_in(records@, partition@),
{
    let ghost inside = |record: SpanRecord| partition_of(record) == partition@;
    let mut out: Vec<SpanRecord> = Vec::new();
    let mut i: usize = 0;
    proof {
        reveal(Seq::filter);
    }
    assert(records@.take(0).filter(inside) =~= Seq::<SpanRecord>::empty());
    while i < records.len()
        invariant
            i <= records.len(),
            inside == (|record: SpanRecord| partition_of(record) == partition@),
            out@ == records@.take(i as int).filter(inside),
        decreases records.len() - i,
    {
        proof {
            reveal(Seq::filter);
        }
        assert(records@.take(i + 1).drop_last() =~= records@.take(i as int));
        let own = record_partition_key(&records[i]);
        if same_partition(&own, partition) {
            out.push(records[i].clone());
        }
        i += 1;
    }
    assert(records@.take(i as int) =~= records@);
    out
}

/// The records, partition by partition.
pub fn group_records_by_partition(records: &Vec<SpanRecord>) -> (r: Vec<PartitionRecords>)
    ensures
        are_grouped(r@, records@),
{
    let keys = collect_partitions(records);
    let ghost partitions = distinct_partitions(records@);
    assert(partition_models(keys@).len() == keys@.len());
    let mut out: Vec<PartitionRecords> = Vec::new();
    let mut i: usize = 0;
    while i < keys.len()
        invariant
            i <= keys.len(),
            partition_models(keys@) == partitions,
            out@.len() == i,
            forall|k: int|
                0 <= k < i ==> (#[trigger] out@[k]).partition@ == partitions[k]
                    && out@[k].records@ == records_in(records@, partitions[k]),
        decreases keys.len() - i,
    {
        assert(partition_models(keys@)[i as int] == keys@[i as int]@);
        out.push(
            PartitionRecords {
                partition: keys[i].clone(),
                records: collect_records(records, &keys[i]),
            },
        );
        i += 1;
    }
    out
}

/// All records of several partitions, one partition behind the other.
pub open spec fn all_records_in(records: Seq<SpanRecord>, partitions: Seq<Partition>) -> Seq<
    SpanRecord,
>
    decreases partitions.len(),
{
    if partitions.len() == 0 {
        Seq::empty()
    } else {
        all_records_in(records, partitions.drop_last()) + records_in(records, partitions.last())
    }
}

proof fn lemma_all_records_in_none(partitions: Seq<Partition>)
    ensures
        all_records_in(Seq::empty(), partitions).len() == 0,
    decreases partitions.len(),
{
    reveal(Seq::filter);
    if partitions.len() > 0 {
        lemma_all_records_in_none(partitions.drop_last());
    }
}

proof fn lemma_one_more_record(
    records: Seq<SpanRecord>,
    record: SpanRecord,
    partitions: Seq<Partition>,
)
    requires
        partitions.no_duplicates(),
    ensures
        all_records_in(records.push(record), partitions).to_multiset() == if partitions.contains(
            partition_of(record),
        ) {
            all_records_in(records, partitions).to_multiset().insert(record)
        } else {
            all_records_in(records, partitions).to_multiset()
        },
    decreases partitions.len(),
{
    broadcast use vstd::seq_lib::group_to_multiset_ensures;

    if partitions.len() > 0 {
        let rest = partitions.drop_last();
        let last = partitions.last();
        assert(rest.no_duplicates());
        lemma_one_more_record(records, record, rest);
        reveal(Seq::filter);
        assert(records.push(record).drop_last() =~= records);
        let a = all_records_in(records, rest);
        let b = records_in(records, last);
        let a2 = all_records_in(records.push(record), rest);
        let b2 = records_in(records.push(record), last);
        vstd::seq_lib::lemma_multiset_commutative(a, b);
        vstd::seq_lib::lemma_multiset_commutative(a2, b2);
        if partition_of(record) == last {
            assert(b2 == b.push(record));
            if rest.contains(last) {
                let k = rest.index_of(last);
                assert(partitions[k] == partitions[partitions.len() - 1]);
            }
            assert(partitions[partitions.len() - 1] == last);
            assert((a2 + b2).to_multiset() =~= (a + b).to_multiset().insert(record));
        } else {
            assert(b2 == b);
            if rest.contains(partition_of(record)) {
                assert(partitions[rest.index_of(partition_of(record))] == partition_of(record));
                assert((a2 + b2).to_multiset() =~= (a + b).to_multiset().insert(record));
            } else {
                if partitions.contains(partition_of(record)) {
                    let k = partitions.index_of(partition_of(record));
                    assert(rest[k] == partition_of(record));
                }
                assert((a2 + b2).to_multiset() =~= (a + b).to_multiset());
            }
        }
    }
}

proof fn lemma_grouping(records: Seq<SpanRecord>, partitions: Seq<Partition>)
    requires
        partitions.no_duplicates(),
        forall|i: int|
            0 <= i < records.len() ==> partitions.contains(partition_of(#[trigger] records[i])),
    ensures
        all_records_in(records, partitions).to_multiset() == records.to_multiset(),
    decreases records.len(),
{
    broadcast use vstd::seq_lib::group_to_multiset_ensures;

    if records.len() == 0 {
        assert(records =~= Seq::empty());
        lemma_all_records_in_none(partitions);
        assert(all_records_in(records, partitions) =~= records);
    } else {
        let rest = records.drop_last();
        assert forall|i: int| 0 <= i < rest.len() implies partitions.contains(
            partition_of(#[trigger] rest[i]),
        ) by {
            assert(rest[i] == records[i]);
        }
        lemma_grouping(rest, partitions);
        lemma_one_more_record(rest, records.last(), partitions);
        assert(rest.push(records.last()) =~= records);
        assert(partitions.contains(partition_of(records[records.len() - 1])));
    }
}

/// To group records by partition loses none and doubles none.
pub proof fn law_grouping_loses_nothing(records: Seq<SpanRecord>)
    ensures
        all_records_in(records, distinct_partitions(records)).to_multiset()
            == records.to_multiset(),
{
    let all = partitions_of(records);
    let partitions = distinct_partitions(records);
    law_partition_order();
    law_ordered_set_holds_its_elements(all, partition_order());
    assert(partitions.no_duplicates()) by {
        assert forall|i: int, j: int| 0 <= i < partitions.len() && 0 <= j < partitions.len() && i
            != j implies partitions[i] != partitions[j] by {
            if i < j {
                assert(partition_order()(partitions[i], partitions[j]));
            } else {
                assert(partition_order()(partitions[j], partitions[i]));
            }
        }
    }
    assert forall|i: int| 0 <= i < records.len() implies partitions.contains(
        partition_of(#[trigger] records[i]),
    ) by {
        assert(all[i] == partition_of(records[i]));
        assert(all.contains(all[i]));
    }
    lemma_grouping(records, partitions);
}

/// The character of a hexadecimal digit, in upper case.
pub open spec fn upper_hex_char(digit: int) -> char {
    if digit < 10 {
        (digit + 48) as char
    } else {
        (digit + 55) as char
    }
}

/// Whether a byte stands for itself in the name of an object.
pub open spec fn is_plain(byte: u8) -> bool {
    ||| 97 <= byte <= 122
    ||| 65 <= byte <= 90
    ||| 48 <= byte <= 57
    ||| byte == 45
    ||| byte == 95
    ||| byte == 46
}

/// A byte as it stands in the name of an object: a letter, a digit, a hyphen, an
/// underscore or a dot as it is, another one as a percent sign and two hexadecimal
/// digits.
pub open spec fn escaped_byte(byte: u8) -> Seq<char> {
    if is_plain(byte) {
        seq![byte as char]
    } else {
        seq!['%', upper_hex_char(byte as int / 16), upper_hex_char(byte as int % 16)]
    }
}

/// Bytes as they stand in the name of an object.
pub open spec fn escaped(bytes: Seq<u8>) -> Seq<char>
    decreases bytes.len(),
{
    if bytes.len() == 0 {
        Seq::empty()
    } else {
        escaped(bytes.drop_last()) + escaped_byte(bytes.last())
    }
}

fn upper_hex_digit(digit: u8) -> (r: char)
    requires
        digit < 16,
    ensures
        r == upper_hex_char(digit as int),
{
    if digit < 10 {
        (digit + 48) as char
    } else {
        (digit + 55) as char
    }
}

/// A text as it stands in the name of an object.
pub fn escape_path_component(value: &str) -> (r: String)
    ensures
        r@ == escaped(encode_utf8(value@)),
{
    let bytes = value.as_bytes();
    let mut out = String::new();
    let mut i: usize = 0;
    assert(bytes@.take(0) =~= Seq::<u8>::empty());
    while i < bytes.len()
        invariant
            i <= bytes.len(),
            bytes@ == encode_utf8(value@),
            out@ == escaped(bytes@.take(i as int)),
        decreases bytes.len() - i,
    {
        assert(bytes@.take(i + 1).drop_last() =~= bytes@.take(i as int));
        let byte: u8 = bytes[i];
        let ghost before = out@;
        if (97 <= byte && byte <= 122) || (65 <= byte && byte <= 90) || (48 <= byte && byte <= 57)
            || byte == 45 || byte == 95 || byte == 46 {
            out.push(byte as char);
            assert(out@ =~= before + escaped_byte(byte));
        } else {
            out.push('%');
            out.push(upper_hex_digit(byte / 16));
            out.push(upper_hex_digit(byte % 16));
            assert(out@ =~= before + escaped_byte(byte));
        }
        i += 1;
    }
    assert(bytes@.take(i as int) =~= bytes@);
    out
}

/// No slash of a project's name is left in the name of an object.
pub proof fn law_escaped_has_no_slash(bytes: Seq<u8>)
    ensures
        !escaped(bytes).contains('/'),
    decreases bytes.len(),
{
    if bytes.len() > 0 {
        law_escaped_has_no_slash(bytes.drop_last());
        let before = escaped(bytes.drop_last());
        let own = escaped_byte(bytes.last());
        let all = escaped(bytes);
        if all.contains('/') {
            let k = all.index_of('/');
            if k < before.len() {
                assert(before[k] == '/');
            } else {
                assert(own[k - before.len()] == '/');
            }
        }
    }
}

proof fn lemma_escaped_add(a: Seq<u8>, b: Seq<u8>)
    ensures
        escaped(a + b) == escaped(a) + escaped(b),
    decreases b.len(),
{
    if b.len() == 0 {
        assert(a + b =~= a);
        assert(escaped(a) + escaped(b) =~= escaped(a));
    } else {
        lemma_escaped_add(a, b.drop_last());
        assert((a + b).drop_last() =~= a + b.drop_last());
        assert(escaped(a + b) =~= escaped(a) + escaped(b));
    }
}

proof fn lemma_escaped_first(bytes: Seq<u8>)
    requires
        bytes.len() > 0,
    ensures
        escaped(bytes) == escaped_byte(bytes[0]) + escaped(bytes.drop_first()),
{
    let first = seq![bytes[0]];
    lemma_escaped_add(first, bytes.drop_first());
    assert(first + bytes.drop_first() =~= bytes);
    assert(first.drop_last() =~= Seq::<u8>::empty());
    assert(escaped(first) =~= escaped_byte(bytes[0])) by {
        reveal_with_fuel(escaped, 2);
    }
}

proof fn lemma_first_byte_is_told(a: u8, behind_a: Seq<char>, b: u8, behind_b: Seq<char>)
    requires
        escaped_byte(a) + behind_a == escaped_byte(b) + behind_b,
    ensures
        a == b,
        behind_a == behind_b,
{
    let x = escaped_byte(a);
    let y = escaped_byte(b);
    let all = x + behind_a;
    let other = y + behind_b;
    assert(all[0] == x[0] && other[0] == y[0]);
    assert(x.len() == y.len());
    if x.len() == 3 {
        assert(all[1] == x[1] && other[1] == y[1]);
        assert(all[2] == x[2] && other[2] == y[2]);
        lemma_upper_hex_tells_apart(a as int / 16, b as int / 16);
        lemma_upper_hex_tells_apart(a as int % 16, b as int % 16);
    }
    assert(a == b);
    assert(all.skip(x.len() as int) =~= behind_a);
    assert(other.skip(y.len() as int) =~= behind_b);
}

proof fn lemma_escaped_tells_apart(a: Seq<u8>, b: Seq<u8>)
    requires
        escaped(a) == escaped(b),
    ensures
        a == b,
    decreases a.len(),
{
    if a.len() > 0 {
        lemma_escaped_first(a);
        assert(escaped_byte(a[0]).len() > 0);
        assert(escaped(a).len() > 0);
    }
    if b.len() > 0 {
        lemma_escaped_first(b);
        assert(escaped_byte(b[0]).len() > 0);
        assert(escaped(b).len() > 0);
    }
    if a.len() == 0 || b.len() == 0 {
        assert(escaped(Seq::<u8>::empty()).len() == 0);
        assert(a.len() == 0 ==> a =~= Seq::<u8>::empty());
        assert(b.len() == 0 ==> b =~= Seq::<u8>::empty());
    } else {
        lemma_first_byte_is_told(a[0], escaped(a.drop_first()), b[0], escaped(b.drop_first()));
        lemma_escaped_tells_apart(a.drop_first(), b.drop_first());
        assert(a =~= seq![a[0]] + a.drop_first());
        assert(b =~= seq![b[0]] + b.drop_first());
    }
}

proof fn lemma_upper_hex_tells_apart(a: int, b: int)
    requires
        0 <= a < 16,
        0 <= b < 16,
        upper_hex_char(a) == upper_hex_char(b),
    ensures
        a == b,
{
}

/// Two projects never share a name in the object store.
pub proof fn law_projects_have_own_names(a: Seq<char>, b: Seq<char>)
    requires
        escaped(encode_utf8(a)) == escaped(encode_utf8(b)),
    ensures
        a == b,
{
    lemma_escaped_tells_apart(encode_utf8(a), encode_utf8(b));
    encode_utf8_decode_utf8(a);
    encode_utf8_decode_utf8(b);
}

/// The name of a segment: its partition, when it was written, a number that no other
/// one has, and the trace of its first record.
pub open spec fn segment_name(partition: Partition, first_trace: Seq<char>, now: nat, number: nat) -> Seq<
    char,
> {
    "projects/"@ + escaped(encode_utf8(partition.project_name)) + "/time-buckets/"@ + int_text(
        partition.hour as int,
    ) + "/trace-segments/"@ + nat_text(now) + "-"@ + nat_text(number) + "-"@ + first_trace
        + ".vortex"@
}

spec fn behind_time(trace: Seq<char>, number: nat) -> Seq<char> {
    nat_text(number).push('-') + (trace + ".vortex"@)
}

spec fn behind_hour(trace: Seq<char>, now: nat, number: nat) -> Seq<char> {
    "trace-segments/"@ + (nat_text(now).push('-') + behind_time(trace, number))
}

spec fn behind_project(hour: i64, rest: Seq<char>) -> Seq<char> {
    "time-buckets/"@ + (int_text(hour as int).push('/') + rest)
}

proof fn lemma_segment_name(partition: Partition, trace: Seq<char>, now: nat, number: nat)
    ensures
        segment_name(partition, trace, now, number) == "projects/"@ + (escaped(
            encode_utf8(partition.project_name),
        ).push('/') + behind_project(partition.hour, behind_hour(trace, now, number))),
{
    reveal_strlit("/time-buckets/");
    reveal_strlit("time-buckets/");
    reveal_strlit("/trace-segments/");
    reveal_strlit("trace-segments/");
    reveal_strlit("-");
    assert("/time-buckets/"@ =~= seq!['/'] + "time-buckets/"@);
    assert("/trace-segments/"@ =~= seq!['/'] + "trace-segments/"@);
    assert("-"@ =~= seq!['-']);
    let project = escaped(encode_utf8(partition.project_name));
    let hour = int_text(partition.hour as int);
    let first = "projects/"@;
    let last = trace + ".vortex"@;
    let all = segment_name(partition, trace, now, number);
    assert(all =~= first + project + "/time-buckets/"@ + hour + "/trace-segments/"@ + nat_text(now)
        + "-"@ + (nat_text(number) + "-"@ + last));
    assert(nat_text(number) + "-"@ + last =~= behind_time(trace, number));
    assert(all =~= first + project + "/time-buckets/"@ + hour + ("/trace-segments/"@ + nat_text(now)
        + "-"@ + behind_time(trace, number)));
    assert("/trace-segments/"@ + nat_text(now) + "-"@ + behind_time(trace, number) =~= seq!['/']
        + behind_hour(trace, now, number));
    let times = behind_hour(trace, now, number);
    assert(all =~= first + project + ("/time-buckets/"@ + hour + (seq!['/'] + times)));
    assert("/time-buckets/"@ + hour + (seq!['/'] + times) =~= seq!['/'] + behind_project(
        partition.hour,
        times,
    ));
    assert(all =~= first + (project.push('/') + behind_project(partition.hour, times)));
}

proof fn lemma_same_behind(start: Seq<char>, a: Seq<char>, b: Seq<char>)
    requires
        start + a == start + b,
    ensures
        a == b,
{
    assert((start + a).skip(start.len() as int) =~= a);
    assert((start + b).skip(start.len() as int) =~= b);
}

/// Segments of two partitions, of two times or with two numbers never share a name.
pub proof fn law_segments_have_own_names(
    a: Partition,
    a_trace: Seq<char>,
    a_now: nat,
    a_number: nat,
    b: Partition,
    b_trace: Seq<char>,
    b_now: nat,
    b_number: nat,
)
    requires
        segment_name(a, a_trace, a_now, a_number) == segment_name(b, b_trace, b_now, b_number),
    ensures
        a == b,
        a_now == b_now,
        a_number == b_number,
{
    lemma_segment_name(a, a_trace, a_now, a_number);
    lemma_segment_name(b, b_trace, b_now, b_number);
    let a_rest = behind_time(a_trace, a_number);
    let b_rest = behind_time(b_trace, b_number);
    let a_times = behind_hour(a_trace, a_now, a_number);
    let b_times = behind_hour(b_trace, b_now, b_number);
    let a_hours = behind_project(a.hour, a_times);
    let b_hours = behind_project(b.hour, b_times);
    let a_project = escaped(encode_utf8(a.project_name));
    let b_project = escaped(encode_utf8(b.project_name));
    lemma_same_behind("projects/"@, a_project.push('/') + a_hours, b_project.push('/') + b_hours);
    law_escaped_has_no_slash(encode_utf8(a.project_name));
    law_escaped_has_no_slash(encode_utf8(b.project_name));
    lemma_same_around(a_project, a_hours, b_project, b_hours, '/');
    law_projects_have_own_names(a.project_name, b.project_name);
    let a_hour = int_text(a.hour as int);
    let b_hour = int_text(b.hour as int);
    lemma_same_behind("time-buckets/"@, a_hour.push('/') + a_times, b_hour.push('/') + b_times);
    law_integer_text_is_digits(a.hour);
    law_integer_text_is_digits(b.hour);
    lemma_same_around(a_hour, a_times, b_hour, b_times, '/');
    law_integer_text_reads_back(a.hour);
    law_integer_text_reads_back(b.hour);
    lemma_same_behind(
        "trace-segments/"@,
        nat_text(a_now).push('-') + a_rest,
        nat_text(b_now).push('-') + b_rest,
    );
    law_number_text_is_digits(a_now);
    law_number_text_is_digits(b_now);
    lemma_same_around(nat_text(a_now), a_rest, nat_text(b_now), b_rest, '-');
    law_number_text_is_digits(a_number);
    law_number_text_is_digits(b_number);
    lemma_same_around(
        nat_text(a_number),
        a_trace + ".vortex"@,
        nat_text(b_number),
        b_trace + ".vortex"@,
        '-',
    );
}

/// The name of a segment.
pub fn segment_uri(
    partition: &PartitionKey,
    records: &Vec<SpanRecord>,
    now_nanos: u128,
    sequence: u64,
) -> (r: Result<String, String>)
    ensures
        match r {
            Ok(uri) => records@.len() > 0 && uri@ == segment_name(
                partition@,
                records@[0].trace_id@,
                now_nanos as nat,
                sequence as nat,
            ),
            Err(message) => records@.len() == 0 && message@
                == "cannot build segment uri for empty records"@,
        },
{
    if records.len() == 0 {
        return Err("cannot build segment uri for empty records".to_owned());
    }
    let mut out = "projects/".to_owned();
    out.append(escape_path_component(partition.project_name.as_str()).as_str());
    out.append("/time-buckets/");
    out.append(integer_text(partition.time_bucket_start_unix_nano).as_str());
    out.append("/trace-segments/");
    out.append(unsigned_text(now_nanos).as_str());
    out.append("-");
    out.append(unsigned_text(sequence as u128).as_str());
    out.append("-");
    out.append(records[0].trace_id.as_str());
    out.append(".vortex");
    Ok(out)
}

/// The name of a node as it is kept: without white space around it, and not empty.
pub fn normalize_node_id(node_id: &str) -> (r: Option<String>)
    ensures
        opt_text(r) == if trim(node_id@).len() == 0 {
            None
        } else {
            Some(trim(node_id@))
        },
{
    let plain = trimmed(node_id);
    if plain.as_str().is_empty() {
        None
    } else {
        Some(plain)
    }
}

/// A run has failed just if its status code says so; and else it is pending until it ends.
pub proof fn law_status_of_a_record(status_code: i32, end: i64)
    ensures
        status_of(status_code, end) == "error"@ <==> status_code == 2,
        status_of(status_code, end) == "pending"@ <==> status_code != 2 && end == 0,
        status_of(status_code, end) == "success"@ <==> status_code != 2 && end != 0,
{
    reveal_strlit("error");
    reveal_strlit("pending");
    reveal_strlit("success");
    assert("error"@.len() == 5);
    assert("pending"@.len() == 7 && "pending"@[0] == 'p');
    assert("success"@.len() == 7 && "success"@[0] == 's');
}

/// What is told of a run when it ends is later than what was told when it started.
pub proof fn law_end_comes_after_start(started: SpanRecord, ended: SpanRecord)
    requires
        started.start_time_unix_nano == ended.start_time_unix_nano,
        started.end_time_unix_nano == 0,
        0 <= ended.start_time_unix_nano < ended.end_time_unix_nano,
    ensures
        event_time(started) < event_time(ended),
        event_time(ended) - event_time(started) == ended.end_time_unix_nano
            - started.start_time_unix_nano,
{
}

/// A record is in the partition of its project and of the hour in which it started.
pub proof fn law_partition_holds_the_start(record: SpanRecord)
    requires
        record.start_time_unix_nano >= i64::MIN + 3_600_000_000_000,
    ensures
        ({
            let partition = partition_of(record);
            &&& partition.project_name == record.project_name@
            &&& partition.hour as int % 3_600_000_000_000 == 0
            &&& partition.hour <= record.start_time_unix_nano < partition.hour + 3_600_000_000_000
        }),
{
    law_bucket_holds_its_time(record.start_time_unix_nano as int, 3_600_000_000_000);
}

/// A record is new just if its key is not among those that there are.
pub proof fn law_new_records_are_unknown(
    records: Seq<SpanRecord>,
    existing: Seq<Seq<char>>,
    record: SpanRecord,
)
    ensures
        new_records(records, existing).contains(record) <==> records.contains(record)
            && !existing.contains(record_key(record)),
{
    lemma_filter_members(
        records,
        |one: SpanRecord| !existing.contains(record_key(one)),
        record,
    );
}

/// A record that names its key goes by that key.
pub proof fn law_named_key_is_kept(record: SpanRecord, key: Seq<char>)
    requires
        opt_text(record.idempotency_key) == Some(key),
    ensures
        record_key(record) == key,
{
}

} // verus!
