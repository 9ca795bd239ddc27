//! Which event of a run its stored head and locators are those of.

use crate::ingest::indexes::Indexes;
use crate::ingest::metadata::Action;
use crate::ingest::metadata::MetadataReply;
use crate::ingest::metadata::MetadataStage;
use crate::ingest::metadata::MetadataWriter;
use crate::ingest::metadata::SegmentObject;
use crate::ingest::metadata::after_lookup;
use crate::ingest::metadata::answers_stage;
use crate::ingest::metadata::event_call;
use crate::ingest::metadata::run_locator_call;
use crate::ingest::metadata::segment_call;
use crate::ingest::metadata::span_call;
use crate::ingest::metadata::trace_locator_call;
use crate::ingest::metadata::upsert_head_call;
use crate::ingest::records::Partition;
use crate::ingest::records::event_time;
use crate::ingest::records::law_status_of_a_record;
use crate::ingest::records::record_key;
use crate::ingest::thread::greatest;
use crate::ingest::thread::law_greatest;
use crate::ingest::thread::law_least;
use crate::ingest::thread::least;
use crate::record::SpanRecord;
use crate::statement::Call;
use crate::statement::Param;
use crate::text::opt_text;
use vstd::prelude::*;

verus! {

/// The time of the event that a row of a head or a locator is that of. A row is what
/// the statement that wrote it was given.
pub open spec fn time_in(row: Seq<Param>) -> int {
    row[row.len() - 2]->Integer_0
}

/// The id of the event that a row of a head or a locator is that of.
pub open spec fn event_in(row: Seq<Param>) -> int {
    row[row.len() - 1]->Integer_0
}

/// Whether a row takes the place of the stored one: the condition under which the
/// statements for heads and locators update what is there.
pub open spec fn overtakes(row: Seq<Param>, stored: Seq<Param>) -> bool {
    time_in(stored) < time_in(row) || time_in(stored) == time_in(row) && event_in(stored)
        <= event_in(row)
}

/// What is stored once a row was brought.
pub open spec fn upserted(stored: Option<Seq<Param>>, row: Seq<Param>) -> Option<Seq<Param>> {
    match stored {
        Some(old_row) => if overtakes(row, old_row) {
            Some(row)
        } else {
            stored
        },
        None => Some(row),
    }
}

/// An event of a run, and where it is stored.
pub struct StoredEvent {
    pub segment_id: i64,
    pub row: int,
    pub record: SpanRecord,
    pub event_id: i64,
    pub indexes: Indexes,
}

impl StoredEvent {
    pub open spec fn head_call(self) -> Call {
        upsert_head_call(self.segment_id, self.row, self.record, self.event_id, self.indexes)
    }

    pub open spec fn run_locator_call(self) -> Call {
        run_locator_call(self.segment_id, self.row, self.record, self.event_id)
    }

    pub open spec fn trace_locator_call(self) -> Call {
        trace_locator_call(self.segment_id, self.row, self.record, self.event_id)
    }

    pub open spec fn time(self) -> i64 {
        event_time(self.record)
    }
}

/// What is stored of one run.
pub struct StoredRun {
    pub head: Option<Seq<Param>>,
    pub run_locator: Option<Seq<Param>>,
    pub trace_locator: Option<Seq<Param>>,
}

impl StoredRun {
    /// What is stored once the statements for an event are through.
    pub open spec fn with(self, event: StoredEvent) -> StoredRun {
        StoredRun {
            head: upserted(self.head, event.head_call().params),
            run_locator: upserted(self.run_locator, event.run_locator_call().params),
            trace_locator: upserted(self.trace_locator, event.trace_locator_call().params),
        }
    }

    /// Whether the head and both locators are those of an event.
    pub open spec fn is_of(self, event: StoredEvent) -> bool {
        &&& self.head == Some(event.head_call().params)
        &&& self.run_locator == Some(event.run_locator_call().params)
        &&& self.trace_locator == Some(event.trace_locator_call().params)
    }
}

/// What is stored of a run once its events have come, one after another.
pub open spec fn stored_run(events: Seq<StoredEvent>) -> StoredRun
    decreases events.len(),
{
    if events.len() == 0 {
        StoredRun { head: None, run_locator: None, trace_locator: None }
    } else {
        stored_run(events.drop_last()).with(events.last())
    }
}

/// Whether an event is the one with the greatest time, of several the one that came last.
pub open spec fn is_latest(events: Seq<StoredEvent>, w: int) -> bool {
    &&& 0 <= w < events.len()
    &&& forall|i: int|
        0 <= i < events.len() ==> (#[trigger] events[i]).time() < events[w].time()
            || events[i].time() == events[w].time() && i <= w
}

proof fn lemma_with(stored: StoredRun, old_event: StoredEvent, event: StoredEvent)
    requires
        stored.is_of(old_event),
    ensures
        old_event.time() < event.time() || old_event.time() == event.time() && old_event.event_id
            <= event.event_id ==> stored.with(event).is_of(event),
        !(old_event.time() < event.time() || old_event.time() == event.time()
            && old_event.event_id <= event.event_id) ==> stored.with(event) == stored,
{
    lemma_stamps(old_event);
    lemma_stamps(event);
}

/// The rows of an event hold its time and its id.
proof fn lemma_stamps(event: StoredEvent)
    ensures
        time_in(event.head_call().params) == event.time(),
        time_in(event.run_locator_call().params) == event.time(),
        time_in(event.trace_locator_call().params) == event.time(),
        event_in(event.head_call().params) == event.event_id,
        event_in(event.run_locator_call().params) == event.event_id,
        event_in(event.trace_locator_call().params) == event.event_id,
{
}

/// Once events of a run have come, with ids that grow, the head and both locators are
/// those of the event with the greatest time, and of several such events those of the
/// one that came last.
pub proof fn law_latest_event_is_stored(events: Seq<StoredEvent>)
    requires
        events.len() > 0,
        forall|i: int, j: int|
            0 <= i < j < events.len() ==> (#[trigger] events[i]).event_id < (
            #[trigger] events[j]).event_id,
    ensures
        exists|w: int| #[trigger] is_latest(events, w) && stored_run(events).is_of(events[w]),
    decreases events.len(),
{
    let rest = events.drop_last();
    let last = events.len() - 1;
    if rest.len() == 0 {
        assert(is_latest(events, last));
    } else {
        law_latest_event_is_stored(rest);
        let w = choose|w: int| #[trigger] is_latest(rest, w) && stored_run(rest).is_of(rest[w]);
        assert(rest[w] == events[w]);
        assert(events[w].event_id < events[last].event_id);
        lemma_with(stored_run(rest), events[w], events[last]);
        assert forall|i: int| 0 <= i < rest.len() implies events[i] == #[trigger] rest[i] by {}
        if events[w].time() <= events[last].time() {
            assert forall|i: int| 0 <= i < events.len() implies (#[trigger] events[i]).time()
                < events[last].time() || events[i].time() == events[last].time() && i <= last by {
                if i < last {
                    assert(events[i] == rest[i]);
                }
            }
            assert(is_latest(events, last));
        } else {
            assert forall|i: int| 0 <= i < events.len() implies (#[trigger] events[i]).time()
                < events[w].time() || events[i].time() == events[w].time() && i <= w by {
                if i < last {
                    assert(events[i] == rest[i]);
                }
            }
            assert(is_latest(events, w));
        }
    }
}

/// An event that is older than the one that is stored leaves the head and both locators
/// as they are.
pub proof fn law_older_event_changes_nothing(
    stored: StoredRun,
    stored_event: StoredEvent,
    event: StoredEvent,
)
    requires
        stored.is_of(stored_event),
        event.time() < stored_event.time(),
    ensures
        stored.with(event) == stored,
{
    lemma_with(stored, stored_event, event);
}

/// The event that a writer is about.
pub open spec fn event_of(writer: MetadataWriter) -> StoredEvent {
    StoredEvent {
        segment_id: writer.segment_id,
        row: writer.row as int,
        record: writer.record(),
        event_id: writer.event_id,
        indexes: writer.indexes->0@,
    }
}

/// A writer adds the event of a record, and brings the head and after that both
/// locators up to date with that event and no other, whether or not the head changed.
pub proof fn law_head_and_locators_are_of_one_event(
    before: MetadataWriter,
    after: MetadataWriter,
    reply: MetadataReply,
)
    requires
        before.is_valid(),
        answers_stage(before.stage, reply),
        after.same_job(before),
        after.follows(before, reply),
    ensures
        before.stage == MetadataStage::Event ==> before.next() == Action::QueryId(
            event_call(before.segment_id, before.row as int, before.record()),
        ) && (after.stage != MetadataStage::Duplicate ==> reply == MetadataReply::Id(
            Some(after.event_id),
        )),
        before.stage == MetadataStage::Head ==> before.next() == Action::Execute(
            event_of(before).head_call(),
        ) && (after.stage == MetadataStage::Indexes || after.stage == MetadataStage::RunLocator),
        before.stage == MetadataStage::Indexes ==> after.stage == MetadataStage::Refresh,
        before.stage == MetadataStage::Refresh ==> after.stage == MetadataStage::RunLocator,
        before.stage == MetadataStage::RunLocator ==> before.next() == Action::Execute(
            event_of(before).run_locator_call(),
        ) && after.stage == MetadataStage::TraceLocator,
        before.stage == MetadataStage::TraceLocator ==> before.next() == Action::Execute(
            event_of(before).trace_locator_call(),
        ),
        after_lookup(before.stage) && before.stage != MetadataStage::TraceLocator ==> event_of(
            after,
        ) == event_of(before),
{
}

/// The head of a run tells what its latest record does: the parameters of the statement that
/// stores it stand in the order of the columns, each with what the record says of it. A run is a
/// root just if it has no parent, and it failed just if its status code says so.
pub proof fn law_head_tells_what_the_record_does(event: StoredEvent)
    ensures
        ({
            let record = event.record;
            let metrics = event.indexes.metrics;
            let head = event.head_call().params;
            &&& head.len() == 32
            &&& head[0] == Param::Text(record.project_name@)
            &&& head[1] == Param::Text(record.run_id@)
            &&& head[3] == Param::Text(record.trace_id@)
            &&& head[4] == Param::Text(record.span_id@)
            &&& head[5] == Param::OptionalText(opt_text(record.parent_run_id))
            &&& head[6] == Param::OptionalText(opt_text(record.parent_span_id))
            &&& head[7] == Param::Text(record.name@)
            &&& head[8] == Param::Text(record.run_type@)
            &&& head[9] == Param::Integer(record.start_time_unix_nano as int)
            &&& head[10] == Param::Integer(record.end_time_unix_nano as int)
            &&& head[11] == Param::Small(record.status_code as int)
            &&& head[12] == Param::Text("error"@) <==> record.status_code == 2
            &&& head[13] == Param::Flag(opt_text(record.parent_span_id) is None)
            &&& head[14] == Param::Text(event.indexes.root_run_id)
            &&& head[15] == Param::Text(event.indexes.root_span_id)
            &&& head[16] == Param::Integer(metrics.latency_nanos as int)
            &&& head[17] == Param::OptionalInteger(metrics.prompt_tokens)
            &&& head[18] == Param::OptionalInteger(metrics.completion_tokens)
            &&& head[19] == Param::OptionalInteger(metrics.total_tokens)
            &&& head[20] == Param::OptionalFloat(metrics.prompt_cost)
            &&& head[21] == Param::OptionalFloat(metrics.completion_cost)
            &&& head[22] == Param::Cost(metrics.total_cost)
            &&& head[23] == Param::OptionalInteger(metrics.first_token_latency_nanos)
            &&& head[24] == Param::OptionalFloat(metrics.evaluator_score)
            &&& head[25] == Param::OptionalText(metrics.model_name)
            &&& head[26] == Param::OptionalText(metrics.provider_name)
            &&& head[27] == Param::Integer(event.segment_id as int)
            &&& head[28] == Param::Integer(event.row)
            &&& head[30] == Param::Integer(event.time() as int)
            &&& head[31] == Param::Integer(event.event_id as int)
        }),
{
    law_status_of_a_record(event.record.status_code, event.record.end_time_unix_nano);
}

/// The span of a record, its event, its head and its locators tell the same of it.
pub proof fn law_rows_of_a_record_agree(event: StoredEvent)
    ensures
        ({
            let head = event.head_call().params;
            let span = span_call(event.segment_id, event.row, event.record).params;
            let told = event_call(event.segment_id, event.row, event.record).params;
            let run = event.run_locator_call().params;
            let trace = event.trace_locator_call().params;
            &&& span[1] == head[0] && told[1] == head[0] && run[0] == head[0] && trace[0] == head[0]
            &&& span[2] == head[1] && told[2] == head[1] && run[1] == head[1]
            &&& run[2] == head[2]
            &&& span[3] == head[3] && told[3] == head[3] && run[3] == head[3] && trace[1] == head[3]
            &&& span[4] == head[4] && told[4] == head[4] && run[4] == head[4] && trace[2] == head[4]
            &&& forall|k: int| 5 <= k <= 13 ==> #[trigger] span[k] == head[k]
            &&& span[0] == head[27] && told[0] == head[27] && run[5] == head[27] && trace[3]
                == head[27]
            &&& span[14] == head[28] && told[7] == head[28] && run[6] == head[28] && trace[4]
                == head[28]
            &&& span[15] == head[29] && told[5] == head[29] && run[7] == head[29] && trace[5]
                == head[29]
            &&& span[16] == head[30] && told[6] == head[30] && run[8] == head[30] && trace[6]
                == head[30]
            &&& run[9] == head[31] && trace[7] == head[31]
            &&& told[8] == Param::Text(record_key(event.record))
        }),
{
}

/// A segment is listed with the first start and the last end of its records, with how many there
/// are, and under their project and the hour of its partition.
pub proof fn law_segment_spans_its_records(
    partition: Partition,
    object: SegmentObject,
    records: Seq<SpanRecord>,
    i: int,
)
    requires
        0 <= i < records.len(),
    ensures
        ({
            let params = segment_call(partition, object, records).params;
            &&& params[1] == Param::Text(object.segment_uri@)
            &&& params[3] == Param::Integer(object.total_bytes as int)
            &&& params[4] == Param::Integer(records.len() as int)
            &&& params[5]->Integer_0 <= records[i].start_time_unix_nano
            &&& params[6]->Integer_0 >= records[i].end_time_unix_nano
            &&& exists|k: int|
                0 <= k < records.len() && params[5]->Integer_0 == (
                #[trigger] records[k]).start_time_unix_nano
            &&& exists|k: int|
                0 <= k < records.len() && params[6]->Integer_0 == (
                #[trigger] records[k]).end_time_unix_nano
            &&& params[7] == Param::Integer(partition.hour as int)
            &&& params[9] == Param::Text(object.search_index_uri@)
            &&& params[10] == Param::Integer(object.search_index_bytes as int)
        }),
{
    let starts = records.map_values(|record: SpanRecord| record.start_time_unix_nano);
    let ends = records.map_values(|record: SpanRecord| record.end_time_unix_nano);
    law_least(starts);
    law_greatest(ends);
    assert(starts[i] == records[i].start_time_unix_nano);
    assert(ends[i] == records[i].end_time_unix_nano);
    let a = choose|k: int| 0 <= k < starts.len() && starts[k] == least(starts);
    let b = choose|k: int| 0 <= k < ends.len() && ends[k] == greatest(ends);
    assert(records[a].start_time_unix_nano == least(starts));
    assert(records[b].end_time_unix_nano == greatest(ends));
}

} // verus!
