//! Records that wait to be written: one buffer for each partition.

use crate::ingest::records::Partition;
use crate::ingest::records::PartitionKey;
use crate::ingest::records::PartitionRecords;
use crate::ingest::records::is_partition_less;
use crate::ingest::records::law_partition_order;
use crate::ingest::records::partition_less;
use crate::ingest::records::partition_order;
use crate::ingest::records::same_partition;
use crate::record::SpanRecord;
use crate::sorting::law_sort_keeps_elements;
use crate::sorting::law_sort_sorts;
use crate::sorting::sort_by;
use crate::sorting::stable_sort;
use crate::sorting::strict_order;
use crate::text::is_less;
use crate::text::law_text_order_is_total;
use crate::text::law_text_order_is_transitive;
use crate::text::text_less;
use crate::time::Duration;
use vstd::multiset::Multiset;
use vstd::prelude::*;

verus! {

/// When records are written.
#[derive(Debug, Clone, Copy, PartialEq, Eq)]
pub struct IngestConfig {
    pub max_spans_per_segment: usize,
    pub max_flush_delay: Duration,
}

impl Default for IngestConfig {
    fn default() -> (r: Self)
        ensures
            r.max_spans_per_segment == 1024,
            r.max_flush_delay.nanos == 500_000_000,
    {
        IngestConfig { max_spans_per_segment: 1024, max_flush_delay: Duration::from_millis(500) }
    }
}

impl IngestConfig {
    /// How many records a segment may hold, at least one.
    pub open spec fn segment_size(self) -> usize {
        if self.max_spans_per_segment < 1 {
            1
        } else {
            self.max_spans_per_segment
        }
    }

    /// How many records a segment may hold, at least one.
    pub fn max_spans(&self) -> (r: usize)
        ensures
            r == self.segment_size(),
    {
        if self.max_spans_per_segment < 1 {
            1
        } else {
            self.max_spans_per_segment
        }
    }
}

/// A segment that was written.
#[derive(Debug, PartialEq, Eq)]
pub struct FlushReceipt {
    pub segment_uri: String,
    pub span_count: usize,
    pub total_bytes: usize,
}

impl Clone for FlushReceipt {
    fn clone(&self) -> (r: Self)
        ensures
            r == *self,
    {
        FlushReceipt {
            segment_uri: self.segment_uri.clone(),
            span_count: self.span_count,
            total_bytes: self.total_bytes,
        }
    }
}

/// What became of records.
#[derive(Debug, PartialEq, Eq)]
pub struct IngestReceipt {
    pub accepted_spans: usize,
    pub flushed_segments: usize,
    pub flush: Option<FlushReceipt>,
    pub flushes: Vec<FlushReceipt>,
}

/// What became of records, from the segments that they were written to.
pub fn receipt_from_flushes(accepted_spans: usize, flushes: Vec<FlushReceipt>) -> (r: IngestReceipt)
    ensures
        r.accepted_spans == accepted_spans,
        r.flushed_segments == flushes@.len(),
        r.flush == if flushes@.len() > 0 {
            Some(flushes@[0])
        } else {
            None
        },
        r.flushes@ == flushes@,
{
    let flush = if flushes.len() > 0 {
        Some(flushes[0].clone())
    } else {
        None
    };
    IngestReceipt { accepted_spans, flushed_segments: flushes.len(), flush, flushes }
}

/// The order of segments that were written: by uri.
pub open spec fn receipt_order() -> spec_fn(FlushReceipt, FlushReceipt) -> bool {
    |a: FlushReceipt, b: FlushReceipt| text_less(a.segment_uri@, b.segment_uri@)
}

fn is_receipt_less(a: &FlushReceipt, b: &FlushReceipt) -> (r: bool)
    ensures
        r == text_less(a.segment_uri@, b.segment_uri@),
{
    is_less(a.segment_uri.as_str(), b.segment_uri.as_str())
}

/// What a flush told those who wait for it: segments, an error, or nothing because
/// it is gone.
#[derive(Debug, PartialEq, Eq)]
pub enum FlushNews {
    Written(Vec<FlushReceipt>),
    Failed(String),
    Dropped,
}

/// Why those who wait get an error: the first one that they are told.
pub open spec fn news_fault(news: Seq<FlushNews>) -> Option<Seq<char>>
    decreases news.len(),
{
    if news.len() == 0 {
        None
    } else {
        match news_fault(news.drop_last()) {
            Some(message) => Some(message),
            None => match news.last() {
                FlushNews::Written(_) => None,
                FlushNews::Failed(message) => Some(message@),
                FlushNews::Dropped => Some("ingest flush waiter dropped"@),
            },
        }
    }
}

/// The segments that those who wait are told of, one after the other.
pub open spec fn news_receipts(news: Seq<FlushNews>) -> Seq<FlushReceipt>
    decreases news.len(),
{
    if news.len() == 0 {
        Seq::empty()
    } else {
        let before = news_receipts(news.drop_last());
        match news.last() {
            FlushNews::Written(receipts) => before + receipts@,
            _ => before,
        }
    }
}

proof fn lemma_news_fault_of_prefix(news: Seq<FlushNews>, n: int)
    requires
        0 <= n <= news.len(),
        news_fault(news.take(n)) is Some,
    ensures
        news_fault(news) == news_fault(news.take(n)),
    decreases news.len(),
{
    if n == news.len() {
        assert(news.take(n) =~= news);
    } else {
        assert(news.drop_last().take(n) =~= news.take(n));
        lemma_news_fault_of_prefix(news.drop_last(), n);
    }
}

/// The segments that records were written to, by uri, from what those who wait for
/// them were told.
pub fn flushes_from_news(news: Vec<FlushNews>) -> (r: Result<Vec<FlushReceipt>, String>)
    ensures
        match r {
            Ok(flushes) => news_fault(news@) is None && flushes@ == stable_sort(
                news_receipts(news@),
                receipt_order(),
            ),
            Err(message) => news_fault(news@) == Some(message@),
        },
{
    let ghost all = news@;
    let mut flushes: Vec<FlushReceipt> = Vec::new();
    assert(all.take(0) =~= Seq::<FlushNews>::empty());
    for one in iter: news
        invariant
            iter.seq() == all,
            news_fault(all.take(iter.index() as int)) is None,
            flushes@ == news_receipts(all.take(iter.index() as int)),
    {
        let ghost n = iter.index() as int;
        assert(all.take(n + 1).drop_last() =~= all.take(n));
        assert(all.take(n + 1).last() == one);
        match one {
            FlushNews::Written(mut receipts) => {
                flushes.append(&mut receipts);
            },
            FlushNews::Failed(message) => {
                proof {
                    lemma_news_fault_of_prefix(all, n + 1);
                }
                return Err(message);
            },
            FlushNews::Dropped => {
                proof {
                    lemma_news_fault_of_prefix(all, n + 1);
                }
                return Err("ingest flush waiter dropped".to_owned());
            },
        }
    }
    assert(all.take(all.len() as int) =~= all);
    Ok(sort_by(flushes, is_receipt_less, Ghost(receipt_order())))
}

/// The records of a partition that wait, and who waits for them, by number.
#[derive(Debug, PartialEq, Eq)]
pub struct PendingBuffer {
    pub partition: PartitionKey,
    pub records: Vec<SpanRecord>,
    pub waiters: Vec<u64>,
    pub flushing: bool,
}

/// What a [`PendingBuffer`] holds.
pub struct Buffer {
    pub partition: Partition,
    pub records: Seq<SpanRecord>,
    pub waiters: Seq<u64>,
    pub flushing: bool,
}

impl View for PendingBuffer {
    type V = Buffer;

    open spec fn view(&self) -> Buffer {
        Buffer {
            partition: self.partition@,
            records: self.records@,
            waiters: self.waiters@,
            flushing: self.flushing,
        }
    }
}

/// All records that wait.
#[derive(Debug, PartialEq, Eq)]
pub struct PendingState {
    pub buffers: Vec<PendingBuffer>,
}

impl View for PendingState {
    type V = Seq<Buffer>;

    open spec fn view(&self) -> Seq<Buffer> {
        self.buffers@.map_values(|buffer: PendingBuffer| buffer@)
    }
}

/// Whether the buffers are in the order of their partitions, one for each.
pub open spec fn in_order(buffers: Seq<Buffer>) -> bool {
    forall|i: int, j: int|
        0 <= i < j < buffers.len() ==> partition_less(
            (#[trigger] buffers[i]).partition,
            (#[trigger] buffers[j]).partition,
        )
}

/// An empty buffer of a partition.
pub open spec fn empty_buffer(partition: Partition) -> Buffer {
    Buffer { partition, records: Seq::empty(), waiters: Seq::empty(), flushing: false }
}

/// Where the buffer of a partition is, from `from` on.
pub open spec fn place_of(buffers: Seq<Buffer>, partition: Partition, from: int) -> Option<int>
    decreases buffers.len() - from,
{
    if from < 0 || from >= buffers.len() {
        None
    } else if buffers[from].partition == partition {
        Some(from)
    } else {
        place_of(buffers, partition, from + 1)
    }
}

/// The buffer of a partition: an empty one, if there is none.
pub open spec fn buffer_of(buffers: Seq<Buffer>, partition: Partition) -> Buffer {
    match place_of(buffers, partition, 0) {
        Some(i) => buffers[i],
        None => empty_buffer(partition),
    }
}

/// The buffers with this one, in order, in place of the one of its partition if
/// there is one.
pub open spec fn with_buffer(buffers: Seq<Buffer>, buffer: Buffer) -> Seq<Buffer>
    decreases buffers.len(),
{
    if buffers.len() == 0 {
        seq![buffer]
    } else if partition_less(buffer.partition, buffers.last().partition) {
        with_buffer(buffers.drop_last(), buffer).push(buffers.last())
    } else if buffer.partition == buffers.last().partition {
        buffers.drop_last().push(buffer)
    } else {
        buffers.push(buffer)
    }
}

/// The records that wait, in all buffers.
pub open spec fn waiting(buffers: Seq<Buffer>) -> Seq<SpanRecord>
    decreases buffers.len(),
{
    if buffers.len() == 0 {
        Seq::empty()
    } else {
        waiting(buffers.drop_last()) + buffers.last().records
    }
}

/// Where the next buffer to write is, from `from` on: the first that has records and
/// is not being written.
pub open spec fn next_ready(buffers: Seq<Buffer>, from: int) -> Option<int>
    decreases buffers.len() - from,
{
    if from < 0 || from >= buffers.len() {
        None
    } else if !buffers[from].flushing && buffers[from].records.len() > 0 {
        Some(from)
    } else {
        next_ready(buffers, from + 1)
    }
}

pub open spec fn some_flushing(buffers: Seq<Buffer>) -> bool {
    exists|i: int| 0 <= i < buffers.len() && (#[trigger] buffers[i]).flushing
}

/// The buffers after more records of a partition have come, with one who waits for
/// them.
pub open spec fn after_arrival(
    buffers: Seq<Buffer>,
    partition: Partition,
    records: Seq<SpanRecord>,
    waiter: u64,
) -> Seq<Buffer> {
    let own = buffer_of(buffers, partition);
    with_buffer(
        buffers,
        Buffer { records: own.records + records, waiters: own.waiters.push(waiter), ..own },
    )
}

/// The buffers after the next one was taken to be written.
pub open spec fn after_taking(buffers: Seq<Buffer>, at: int) -> Seq<Buffer> {
    buffers.update(
        at,
        Buffer {
            records: Seq::empty(),
            waiters: Seq::empty(),
            flushing: true,
            ..buffers[at]
        },
    )
}

/// The buffers after that of a partition was written: it goes, if nothing came
/// meanwhile.
pub open spec fn after_writing(buffers: Seq<Buffer>, partition: Partition) -> Seq<Buffer> {
    match place_of(buffers, partition, 0) {
        Some(i) => if buffers[i].records.len() == 0 && buffers[i].waiters.len() == 0 {
            buffers.remove(i)
        } else {
            buffers.update(i, Buffer { flushing: false, ..buffers[i] })
        },
        None => buffers,
    }
}

/// The buffers after records of a partition could not be written: they are put back
/// ahead of those that came meanwhile, and nobody waits for them any more.
pub open spec fn after_failure(
    buffers: Seq<Buffer>,
    partition: Partition,
    records: Seq<SpanRecord>,
) -> Seq<Buffer> {
    let own = buffer_of(buffers, partition);
    with_buffer(
        buffers,
        Buffer {
            partition,
            records: records + own.records,
            waiters: Seq::empty(),
            flushing: false,
        },
    )
}

proof fn lemma_with_buffer_waits(buffers: Seq<Buffer>, buffer: Buffer)
    requires
        in_order(buffers),
    ensures
        in_order(with_buffer(buffers, buffer)),
        forall|i: int|
            0 <= i < with_buffer(buffers, buffer).len() ==> #[trigger] with_buffer(
                buffers,
                buffer,
            )[i] == buffer || buffers.contains(with_buffer(buffers, buffer)[i]),
        waiting(with_buffer(buffers, buffer)).to_multiset().add(
            buffer_of(buffers, buffer.partition).records.to_multiset(),
        ) == waiting(buffers).to_multiset().add(buffer.records.to_multiset()),
    decreases buffers.len(),
{
    broadcast use vstd::seq_lib::group_to_multiset_ensures;

    let out = with_buffer(buffers, buffer);
    if buffers.len() == 0 {
        assert(waiting(seq![buffer].drop_last()) =~= Seq::empty());
        assert(waiting(out) =~= buffer.records);
        assert(seq![buffer].drop_last() =~= Seq::empty());
    } else {
        let rest = buffers.drop_last();
        let last = buffers.last();
        assert(in_order(rest)) by {
            assert forall|i: int, j: int| 0 <= i < j < rest.len() implies partition_less(
                (#[trigger] rest[i]).partition,
                (#[trigger] rest[j]).partition,
            ) by {
                assert(rest[i] == buffers[i] && rest[j] == buffers[j]);
            }
        }
        law_partition_order();
        let less = partition_order();
        vstd::seq_lib::lemma_multiset_commutative(waiting(rest), last.records);
        assert(waiting(buffers).to_multiset() =~= waiting(rest).to_multiset().add(
            last.records.to_multiset(),
        ));
        if partition_less(buffer.partition, last.partition) {
            let before = with_buffer(rest, buffer);
            lemma_with_buffer_waits(rest, buffer);
            lemma_place_of_prefix(buffers, buffer.partition);
            assert(out.drop_last() =~= before);
            vstd::seq_lib::lemma_multiset_commutative(waiting(before), last.records);
            assert(waiting(out).to_multiset() =~= waiting(before).to_multiset().add(
                last.records.to_multiset(),
            ));
            let own = buffer_of(buffers, buffer.partition).records.to_multiset();
            let left = waiting(out).to_multiset().add(own);
            let right = waiting(buffers).to_multiset().add(buffer.records.to_multiset());
            assert forall|record: SpanRecord| #[trigger] left.count(record) == right.count(
                record,
            ) by {
                assert(waiting(before).to_multiset().add(own).count(record) == waiting(
                    rest,
                ).to_multiset().add(buffer.records.to_multiset()).count(record));
            }
            assert(left =~= right);
            assert forall|i: int, j: int| 0 <= i < j < out.len() implies partition_less(
                (#[trigger] out[i]).partition,
                (#[trigger] out[j]).partition,
            ) by {
                if j == out.len() - 1 {
                    assert(out[i] == before[i]);
                    if before[i] != buffer {
                        assert(rest.contains(before[i]));
                        let k = rest.index_of(before[i]);
                        assert(buffers[k] == before[i]);
                        assert(buffers[buffers.len() - 1] == last);
                    }
                } else {
                    assert(out[i] == before[i] && out[j] == before[j]);
                }
            }
            assert forall|i: int| 0 <= i < out.len() implies #[trigger] out[i] == buffer
                || buffers.contains(out[i]) by {
                if i < before.len() {
                    assert(out[i] == before[i]);
                    if before[i] != buffer {
                        assert(rest.contains(before[i]));
                        assert(buffers[rest.index_of(before[i])] == before[i]);
                    }
                } else {
                    assert(buffers[buffers.len() - 1] == out[i]);
                }
            }
        } else if buffer.partition == last.partition {
            assert(out.drop_last() =~= rest);
            lemma_place_of_last(buffers);
            vstd::seq_lib::lemma_multiset_commutative(waiting(rest), buffer.records);
            assert(waiting(out).to_multiset() =~= waiting(rest).to_multiset().add(
                buffer.records.to_multiset(),
            ));
            assert(waiting(out).to_multiset().add(last.records.to_multiset()) =~= waiting(
                buffers,
            ).to_multiset().add(buffer.records.to_multiset()));
            assert forall|i: int, j: int| 0 <= i < j < out.len() implies partition_less(
                (#[trigger] out[i]).partition,
                (#[trigger] out[j]).partition,
            ) by {
                assert(partition_less(buffers[i].partition, buffers[j].partition));
            }
            assert forall|i: int| 0 <= i < out.len() implies #[trigger] out[i] == buffer
                || buffers.contains(out[i]) by {
                if i < rest.len() {
                    assert(out[i] == buffers[i]);
                }
            }
        } else {
            assert(less(last.partition, buffer.partition));
            assert(out.drop_last() =~= buffers);
            lemma_not_placed(buffers, buffer.partition, 0);
            vstd::seq_lib::lemma_multiset_commutative(waiting(buffers), buffer.records);
            assert(waiting(out).to_multiset() =~= waiting(buffers).to_multiset().add(
                buffer.records.to_multiset(),
            ));
            assert(Seq::<SpanRecord>::empty().to_multiset() =~= Multiset::empty());
            assert(waiting(out).to_multiset().add(
                Seq::<SpanRecord>::empty().to_multiset(),
            ) =~= waiting(buffers).to_multiset().add(buffer.records.to_multiset()));
            assert forall|i: int, j: int| 0 <= i < j < out.len() implies partition_less(
                (#[trigger] out[i]).partition,
                (#[trigger] out[j]).partition,
            ) by {
                if j == out.len() - 1 {
                    if i < buffers.len() - 1 {
                        assert(less(buffers[i].partition, buffers[buffers.len() - 1].partition));
                    }
                } else {
                    assert(out[i] == buffers[i] && out[j] == buffers[j]);
                }
            }
            assert forall|i: int| 0 <= i < out.len() implies #[trigger] out[i] == buffer
                || buffers.contains(out[i]) by {
                if i < buffers.len() {
                    assert(out[i] == buffers[i]);
                }
            }
        }
    }
}

proof fn lemma_not_placed(buffers: Seq<Buffer>, partition: Partition, from: int)
    requires
        0 <= from,
        forall|i: int| from <= i < buffers.len() ==> (#[trigger] buffers[i]).partition != partition,
    ensures
        place_of(buffers, partition, from) is None,
    decreases buffers.len() - from,
{
    if from < buffers.len() {
        lemma_not_placed(buffers, partition, from + 1);
    }
}

proof fn lemma_placed(buffers: Seq<Buffer>, partition: Partition, from: int, at: int)
    requires
        0 <= from <= at < buffers.len(),
        buffers[at].partition == partition,
        forall|i: int| from <= i < at ==> (#[trigger] buffers[i]).partition != partition,
    ensures
        place_of(buffers, partition, from) == Some(at),
    decreases at - from,
{
    if from < at {
        lemma_placed(buffers, partition, from + 1, at);
    }
}

proof fn lemma_place_of_last(buffers: Seq<Buffer>)
    requires
        in_order(buffers),
        buffers.len() > 0,
    ensures
        place_of(buffers, buffers.last().partition, 0) == Some(buffers.len() - 1),
{
    law_partition_order();
    let n = buffers.len() - 1;
    assert forall|i: int| 0 <= i < n implies (#[trigger] buffers[i]).partition
        != buffers.last().partition by {
        assert(partition_order()(buffers[i].partition, buffers[n].partition));
    }
    lemma_placed(buffers, buffers.last().partition, 0, n);
}

proof fn lemma_place_found(buffers: Seq<Buffer>, partition: Partition, from: int)
    requires
        0 <= from,
    ensures
        match place_of(buffers, partition, from) {
            Some(at) => from <= at < buffers.len() && buffers[at].partition == partition
                && forall|i: int|
                from <= i < at ==> (#[trigger] buffers[i]).partition != partition,
            None => forall|i: int|
                from <= i < buffers.len() ==> (#[trigger] buffers[i]).partition != partition,
        },
    decreases buffers.len() - from,
{
    if from < buffers.len() && buffers[from].partition != partition {
        lemma_place_found(buffers, partition, from + 1);
    }
}

proof fn lemma_place_of_prefix(buffers: Seq<Buffer>, partition: Partition)
    requires
        buffers.len() > 0,
        buffers.last().partition != partition,
    ensures
        place_of(buffers, partition, 0) == place_of(buffers.drop_last(), partition, 0),
        buffer_of(buffers, partition) == buffer_of(buffers.drop_last(), partition),
{
    let rest = buffers.drop_last();
    lemma_place_found(rest, partition, 0);
    match place_of(rest, partition, 0) {
        Some(at) => {
            assert forall|i: int| 0 <= i < at implies (#[trigger] buffers[i]).partition
                != partition by {
                assert(rest[i] == buffers[i]);
            }
            lemma_placed(buffers, partition, 0, at);
        },
        None => {
            assert forall|i: int| 0 <= i < buffers.len() implies (#[trigger] buffers[i]).partition
                != partition by {
                if i < rest.len() {
                    assert(rest[i] == buffers[i]);
                }
            }
            lemma_not_placed(buffers, partition, 0);
        },
    }
}

/// Records that come are added to those that wait, and none is lost.
pub proof fn law_arrival_adds_records(
    buffers: Seq<Buffer>,
    partition: Partition,
    records: Seq<SpanRecord>,
    waiter: u64,
)
    requires
        in_order(buffers),
    ensures
        in_order(after_arrival(buffers, partition, records, waiter)),
        waiting(after_arrival(buffers, partition, records, waiter)).to_multiset() == waiting(
            buffers,
        ).to_multiset().add(records.to_multiset()),
{
    broadcast use vstd::seq_lib::group_to_multiset_ensures;

    let own = buffer_of(buffers, partition);
    lemma_place_found(buffers, partition, 0);
    let buffer = Buffer {
        records: own.records + records,
        waiters: own.waiters.push(waiter),
        ..own
    };
    lemma_with_buffer_waits(buffers, buffer);
    vstd::seq_lib::lemma_multiset_commutative(own.records, records);
    let after = waiting(after_arrival(buffers, partition, records, waiter)).to_multiset();
    assert(after =~= waiting(buffers).to_multiset().add(records.to_multiset())) by {
        assert forall|record: SpanRecord| #[trigger] after.count(record) == waiting(
            buffers,
        ).to_multiset().add(records.to_multiset()).count(record) by {
            assert(after.add(own.records.to_multiset()).count(record) == waiting(
                buffers,
            ).to_multiset().add(buffer.records.to_multiset()).count(record));
        }
    }
}

/// Records that could not be written wait again, and none is lost.
pub proof fn law_failure_keeps_records(
    buffers: Seq<Buffer>,
    partition: Partition,
    records: Seq<SpanRecord>,
)
    requires
        in_order(buffers),
    ensures
        in_order(after_failure(buffers, partition, records)),
        waiting(after_failure(buffers, partition, records)).to_multiset() == waiting(
            buffers,
        ).to_multiset().add(records.to_multiset()),
{
    broadcast use vstd::seq_lib::group_to_multiset_ensures;

    let own = buffer_of(buffers, partition);
    lemma_place_found(buffers, partition, 0);
    let buffer = Buffer {
        partition,
        records: records + own.records,
        waiters: Seq::empty(),
        flushing: false,
    };
    lemma_with_buffer_waits(buffers, buffer);
    vstd::seq_lib::lemma_multiset_commutative(records, own.records);
    let after = waiting(after_failure(buffers, partition, records)).to_multiset();
    assert(after =~= waiting(buffers).to_multiset().add(records.to_multiset())) by {
        assert forall|record: SpanRecord| #[trigger] after.count(record) == waiting(
            buffers,
        ).to_multiset().add(records.to_multiset()).count(record) by {
            assert(after.add(own.records.to_multiset()).count(record) == waiting(
                buffers,
            ).to_multiset().add(buffer.records.to_multiset()).count(record));
        }
    }
}

proof fn lemma_waiting_without(buffers: Seq<Buffer>, at: int, left: Buffer)
    requires
        0 <= at < buffers.len(),
        left.records.len() == 0,
    ensures
        waiting(buffers.update(at, left)).to_multiset().add(buffers[at].records.to_multiset())
            == waiting(buffers).to_multiset(),
        waiting(buffers.remove(at)).to_multiset().add(buffers[at].records.to_multiset())
            == waiting(buffers).to_multiset(),
    decreases buffers.len(),
{
    broadcast use vstd::seq_lib::group_to_multiset_ensures;

    let rest = buffers.drop_last();
    let last = buffers.last();
    let updated = buffers.update(at, left);
    let removed = buffers.remove(at);
    vstd::seq_lib::lemma_multiset_commutative(waiting(rest), last.records);
    if at == buffers.len() - 1 {
        assert(updated.drop_last() =~= rest);
        assert(removed =~= rest);
        assert(waiting(updated) =~= waiting(rest));
    } else {
        lemma_waiting_without(rest, at, left);
        assert(updated.drop_last() =~= rest.update(at, left));
        assert(updated.last() == last);
        assert(removed.drop_last() =~= rest.remove(at));
        assert(removed.last() == last);
        vstd::seq_lib::lemma_multiset_commutative(waiting(rest.update(at, left)), last.records);
        vstd::seq_lib::lemma_multiset_commutative(waiting(rest.remove(at)), last.records);
        assert(waiting(updated).to_multiset().add(buffers[at].records.to_multiset()) =~= waiting(
            buffers,
        ).to_multiset());
        assert(waiting(removed).to_multiset().add(buffers[at].records.to_multiset()) =~= waiting(
            buffers,
        ).to_multiset());
    }
}

/// What is taken to be written and what still waits are together what waited.
pub proof fn law_taking_splits_records(buffers: Seq<Buffer>, at: int)
    requires
        in_order(buffers),
        0 <= at < buffers.len(),
    ensures
        in_order(after_taking(buffers, at)),
        waiting(after_taking(buffers, at)).to_multiset().add(buffers[at].records.to_multiset())
            == waiting(buffers).to_multiset(),
{
    let left = Buffer {
        records: Seq::empty(),
        waiters: Seq::empty(),
        flushing: true,
        ..buffers[at]
    };
    lemma_waiting_without(buffers, at, left);
    let after = after_taking(buffers, at);
    assert forall|i: int, j: int| 0 <= i < j < after.len() implies partition_less(
        (#[trigger] after[i]).partition,
        (#[trigger] after[j]).partition,
    ) by {
        assert(partition_less(buffers[i].partition, buffers[j].partition));
    }
}

/// What still waits after a partition was written is what waited.
pub proof fn law_writing_keeps_the_rest(buffers: Seq<Buffer>, partition: Partition)
    requires
        in_order(buffers),
    ensures
        in_order(after_writing(buffers, partition)),
        waiting(after_writing(buffers, partition)).to_multiset() == waiting(
            buffers,
        ).to_multiset(),
{
    broadcast use vstd::seq_lib::group_to_multiset_ensures;

    lemma_place_found(buffers, partition, 0);
    let after = after_writing(buffers, partition);
    match place_of(buffers, partition, 0) {
        Some(at) => {
            if buffers[at].records.len() == 0 && buffers[at].waiters.len() == 0 {
                lemma_waiting_without(buffers, at, buffers[at]);
                assert(buffers[at].records =~= Seq::empty());
                assert(waiting(after).to_multiset() =~= waiting(buffers).to_multiset());
                assert forall|i: int, j: int| 0 <= i < j < after.len() implies partition_less(
                    (#[trigger] after[i]).partition,
                    (#[trigger] after[j]).partition,
                ) by {
                    let k = if i < at {
                        i
                    } else {
                        i + 1
                    };
                    let m = if j < at {
                        j
                    } else {
                        j + 1
                    };
                    assert(after[i] == buffers[k] && after[j] == buffers[m]);
                    assert(partition_less(buffers[k].partition, buffers[m].partition));
                }
            } else {
                lemma_same_waiting(buffers, at, Buffer { flushing: false, ..buffers[at] });
                assert forall|i: int, j: int| 0 <= i < j < after.len() implies partition_less(
                    (#[trigger] after[i]).partition,
                    (#[trigger] after[j]).partition,
                ) by {
                    assert(partition_less(buffers[i].partition, buffers[j].partition));
                }
            }
        },
        None => {},
    }
}

proof fn lemma_same_waiting(buffers: Seq<Buffer>, at: int, buffer: Buffer)
    requires
        0 <= at < buffers.len(),
        buffer.records == buffers[at].records,
    ensures
        waiting(buffers.update(at, buffer)) == waiting(buffers),
    decreases buffers.len(),
{
    let rest = buffers.drop_last();
    let updated = buffers.update(at, buffer);
    if at == buffers.len() - 1 {
        assert(updated.drop_last() =~= rest);
    } else {
        lemma_same_waiting(rest, at, buffer);
        assert(updated.drop_last() =~= rest.update(at, buffer));
    }
}

/// What is to be written next.
#[derive(Debug, PartialEq, Eq)]
pub struct FlushBatch {
    pub partition: PartitionKey,
    pub records: Vec<SpanRecord>,
    pub waiters: Vec<u64>,
}

/// What a flush does next.
#[derive(Debug, PartialEq, Eq)]
pub enum FlushStep {
    /// Write these records.
    Write(FlushBatch),
    /// Another flush is writing: wait until it is done, and ask again.
    Wait,
    /// Nothing waits.
    Done,
}

impl PendingState {
    /// Whether the buffers are in order.
    pub open spec fn is_valid(self) -> bool {
        in_order(self@)
    }

    /// Nothing waits.
    pub fn new() -> (r: Self)
        ensures
            r@ == Seq::<Buffer>::empty(),
            r.is_valid(),
    {
        let state = PendingState { buffers: Vec::new() };
        assert(state@ =~= Seq::<Buffer>::empty());
        state
    }

    fn find(&self, partition: &PartitionKey) -> (r: Option<usize>)
        ensures
            match r {
                Some(i) => place_of(self@, partition@, 0) == Some(i as int) && i
                    < self.buffers@.len(),
                None => place_of(self@, partition@, 0) is None,
            },
    {
        let mut i: usize = 0;
        while i < self.buffers.len()
            invariant
                i <= self.buffers.len(),
                place_of(self@, partition@, 0) == place_of(self@, partition@, i as int),
            decreases self.buffers.len() - i,
        {
            assert(self@[i as int] == self.buffers@[i as int]@);
            if same_partition(&self.buffers[i].partition, partition) {
                return Some(i);
            }
            i += 1;
        }
        None
    }

    fn put(&mut self, buffer: PendingBuffer)
        ensures
            final(self)@ == with_buffer(old(self)@, buffer@),
    {
        let ghost all = self@;
        let ghost own = buffer@;
        let mut j: usize = self.buffers.len();
        assert(all.take(j as int) =~= all);
        assert(all.skip(j as int) =~= Seq::<Buffer>::empty());
        assert(with_buffer(all, own) =~= with_buffer(all.take(j as int), own) + all.skip(j as int));
        while j > 0 && is_partition_less(&buffer.partition, &self.buffers[j - 1].partition)
            invariant
                j <= self.buffers.len(),
                all == self@,
                *self == *old(self),
                own == buffer@,
                with_buffer(all, own) == with_buffer(all.take(j as int), own) + all.skip(j as int),
            decreases j,
        {
            let ghost part = all.take(j as int);
            assert(part.last() == self.buffers@[j - 1]@);
            assert(part.drop_last() =~= all.take(j - 1));
            assert(with_buffer(part, own) + all.skip(j as int) =~= with_buffer(
                all.take(j - 1),
                own,
            ) + all.skip(j - 1));
            j -= 1;
        }
        let ghost part = all.take(j as int);
        assert(j > 0 ==> part.last() == self.buffers@[j - 1]@);
        if j > 0 && same_partition(&buffer.partition, &self.buffers[j - 1].partition) {
            self.buffers.set(j - 1, buffer);
            assert(part.drop_last().push(own) + all.skip(j as int) =~= all.update(j - 1, own));
            assert(self@ =~= all.update(j - 1, own));
        } else {
            self.buffers.insert(j, buffer);
            if j == 0 {
                assert(seq![own] + all.skip(0) =~= all.insert(0, own));
            } else {
                assert(part.push(own) + all.skip(j as int) =~= all.insert(j as int, own));
            }
            assert(self@ =~= all.insert(j as int, own));
        }
    }

    /// Adds records of a partition, with one who waits for them.
    pub fn add(&mut self, partition: PartitionKey, records: Vec<SpanRecord>, waiter: u64) -> (r:
        usize)
        requires
            old(self).is_valid(),
        ensures
            final(self)@ == after_arrival(old(self)@, partition@, records@, waiter),
            final(self).is_valid(),
            r == buffer_of(old(self)@, partition@).records.len() + records@.len(),
    {
        proof {
            law_arrival_adds_records(self@, partition@, records@, waiter);
        }
        let ghost own = buffer_of(self@, partition@);
        let mut records = records;
        let ghost added = records@;
        match self.find(&partition) {
            Some(i) => {
                let ghost all = self@;
                assert(all[i as int] == self.buffers@[i as int]@);
                let mut buffer = self.buffers.remove(i);
                buffer.records.append(&mut records);
                buffer.waiters.push(waiter);
                assert(buffer@.records =~= own.records + added);
                assert(buffer@.waiters =~= own.waiters.push(waiter));
                let count = buffer.records.len();
                let ghost changed = buffer@;
                proof {
                    lemma_place_found(all, partition@, 0);
                    lemma_put_again(all, i as int, changed);
                }
                self.buffers.insert(i, buffer);
                assert(self@ =~= all.update(i as int, changed));
                count
            },
            None => {
                let mut waiters: Vec<u64> = Vec::new();
                waiters.push(waiter);
                let buffer = PendingBuffer { partition, records, waiters, flushing: false };
                assert(buffer@.records =~= own.records + added);
                assert(buffer@.waiters =~= own.waiters.push(waiter));
                let count = buffer.records.len();
                self.put(buffer);
                count
            },
        }
    }

    /// What to write next: the records of the first partition that has any and is not
    /// being written.
    pub fn next_step(&mut self) -> (r: FlushStep)
        requires
            old(self).is_valid(),
        ensures
            final(self).is_valid(),
            match r {
                FlushStep::Write(batch) => {
                    let at = next_ready(old(self)@, 0);
                    &&& at is Some
                    &&& 0 <= at->0 < old(self)@.len()
                    &&& batch.partition@ == old(self)@[at->0].partition
                    &&& batch.records@ == old(self)@[at->0].records
                    &&& batch.records@.len() > 0
                    &&& batch.waiters@ == old(self)@[at->0].waiters
                    &&& final(self)@ == after_taking(old(self)@, at->0)
                },
                FlushStep::Wait => {
                    &&& next_ready(old(self)@, 0) is None
                    &&& some_flushing(old(self)@)
                    &&& final(self)@ == old(self)@
                },
                FlushStep::Done => {
                    &&& next_ready(old(self)@, 0) is None
                    &&& !some_flushing(old(self)@)
                    &&& final(self)@ == old(self)@
                },
            },
    {
        let ghost all = self@;
        let mut flushing = false;
        let mut i: usize = 0;
        while i < self.buffers.len()
            invariant
                i <= self.buffers.len(),
                *self == *old(self),
                all == self@,
                in_order(all),
                next_ready(all, 0) == next_ready(all, i as int),
                flushing == exists|k: int| 0 <= k < i && (#[trigger] all[k]).flushing,
            decreases self.buffers.len() - i,
        {
            assert(all[i as int] == self.buffers@[i as int]@);
            if self.buffers[i].flushing {
                flushing = true;
            } else if self.buffers[i].records.len() > 0 {
                proof {
                    law_taking_splits_records(all, i as int);
                }
                let taken = self.buffers.remove(i);
                self.buffers.insert(
                    i,
                    PendingBuffer {
                        partition: taken.partition.clone(),
                        records: Vec::new(),
                        waiters: Vec::new(),
                        flushing: true,
                    },
                );
                assert(self@ =~= after_taking(all, i as int));
                return FlushStep::Write(
                    FlushBatch {
                        partition: taken.partition,
                        records: taken.records,
                        waiters: taken.waiters,
                    },
                );
            }
            i += 1;
        }
        if flushing {
            FlushStep::Wait
        } else {
            FlushStep::Done
        }
    }

    /// Notes that what was taken of a partition has been written.
    pub fn written(&mut self, partition: &PartitionKey)
        requires
            old(self).is_valid(),
        ensures
            final(self)@ == after_writing(old(self)@, partition@),
            final(self).is_valid(),
    {
        let ghost all = self@;
        proof {
            law_writing_keeps_the_rest(all, partition@);
        }
        match self.find(partition) {
            Some(i) => {
                assert(all[i as int] == self.buffers@[i as int]@);
                let mut buffer = self.buffers.remove(i);
                assert(self@ =~= all.remove(i as int));
                if buffer.records.len() > 0 || buffer.waiters.len() > 0 {
                    buffer.flushing = false;
                    self.buffers.insert(i, buffer);
                    assert(self@ =~= all.update(
                        i as int,
                        Buffer { flushing: false, ..all[i as int] },
                    ));
                }
            },
            None => {},
        }
    }

    /// Puts back the records of a partition that could not be written. Those who
    /// waited for them, and for what came meanwhile, are to be told.
    pub fn failed(
        &mut self,
        partition: PartitionKey,
        records: Vec<SpanRecord>,
        waiters: Vec<u64>,
    ) -> (r: Vec<u64>)
        requires
            old(self).is_valid(),
        ensures
            final(self)@ == after_failure(old(self)@, partition@, records@),
            final(self).is_valid(),
            r@ == waiters@ + buffer_of(old(self)@, partition@).waiters,
    {
        let ghost all = self@;
        proof {
            law_failure_keeps_records(all, partition@, records@);
        }
        let ghost own = buffer_of(all, partition@);
        let mut records = records;
        let mut told = waiters;
        let ghost back = records@;
        let ghost first = told@;
        match self.find(&partition) {
            Some(i) => {
                assert(all[i as int] == self.buffers@[i as int]@);
                let taken = self.buffers.remove(i);
                let mut later = taken.records;
                records.append(&mut later);
                let mut others = taken.waiters;
                told.append(&mut others);
                let buffer = PendingBuffer {
                    partition,
                    records,
                    waiters: Vec::new(),
                    flushing: false,
                };
                assert(buffer@.records =~= back + own.records);
                assert(buffer@.waiters =~= Seq::<u64>::empty());
                assert(told@ =~= first + own.waiters);
                let ghost changed = buffer@;
                proof {
                    lemma_place_found(all, partition@, 0);
                    lemma_put_again(all, i as int, changed);
                }
                self.buffers.insert(i, buffer);
                assert(self@ =~= all.update(i as int, changed));
            },
            None => {
                let buffer = PendingBuffer {
                    partition,
                    records,
                    waiters: Vec::new(),
                    flushing: false,
                };
                assert(buffer@.records =~= back + own.records);
                assert(buffer@.waiters =~= Seq::<u64>::empty());
                assert(told@ =~= first + own.waiters);
                self.put(buffer);
            },
        }
        told
    }
}

/// To put a buffer where one of its partition is, is to replace that one.
proof fn lemma_put_again(buffers: Seq<Buffer>, at: int, buffer: Buffer)
    requires
        in_order(buffers),
        0 <= at < buffers.len(),
        buffers[at].partition == buffer.partition,
    ensures
        with_buffer(buffers, buffer) == buffers.update(at, buffer),
    decreases buffers.len(),
{
    law_partition_order();
    let rest = buffers.drop_last();
    if at == buffers.len() - 1 {
        assert(!partition_order()(buffer.partition, buffer.partition));
        assert(with_buffer(buffers, buffer) =~= buffers.update(at, buffer));
    } else {
        assert(partition_less(buffers[at].partition, buffers[buffers.len() - 1].partition));
        assert(in_order(rest)) by {
            assert forall|i: int, j: int| 0 <= i < j < rest.len() implies partition_less(
                (#[trigger] rest[i]).partition,
                (#[trigger] rest[j]).partition,
            ) by {
                assert(rest[i] == buffers[i] && rest[j] == buffers[j]);
            }
        }
        lemma_put_again(rest, at, buffer);
        assert(with_buffer(buffers, buffer) =~= buffers.update(at, buffer));
    }
}

/// The buffers after the records of several partitions have come, each with one who
/// waits for them, numbered from `first_waiter` on.
pub open spec fn after_arrivals(
    buffers: Seq<Buffer>,
    groups: Seq<PartitionRecords>,
    first_waiter: u64,
) -> Seq<Buffer>
    decreases groups.len(),
{
    if groups.len() == 0 {
        buffers
    } else {
        after_arrival(
            after_arrivals(buffers, groups.drop_last(), first_waiter),
            groups.last().partition@,
            groups.last().records@,
            (first_waiter + groups.len() - 1) as u64,
        )
    }
}

/// Whether records that have come are to be written at once: there is nothing to
/// wait for, or one of their buffers is full.
pub open spec fn fills_up(
    buffers: Seq<Buffer>,
    groups: Seq<PartitionRecords>,
    first_waiter: u64,
    config: IngestConfig,
) -> bool
    decreases groups.len(),
{
    if groups.len() == 0 {
        false
    } else {
        let before = after_arrivals(buffers, groups.drop_last(), first_waiter);
        let count = buffer_of(before, groups.last().partition@).records.len()
            + groups.last().records@.len();
        fills_up(buffers, groups.drop_last(), first_waiter, config) || count
            >= config.segment_size() || config.max_flush_delay.nanos == 0
    }
}

/// The records of several partitions, one partition behind the other.
pub open spec fn records_of_groups(groups: Seq<PartitionRecords>) -> Seq<SpanRecord>
    decreases groups.len(),
{
    if groups.len() == 0 {
        Seq::empty()
    } else {
        records_of_groups(groups.drop_last()) + groups.last().records@
    }
}

/// Records that come, of whatever partitions, are added to those that wait, and none
/// is lost.
pub proof fn law_arrivals_add_records(
    buffers: Seq<Buffer>,
    groups: Seq<PartitionRecords>,
    first_waiter: u64,
)
    requires
        in_order(buffers),
    ensures
        in_order(after_arrivals(buffers, groups, first_waiter)),
        waiting(after_arrivals(buffers, groups, first_waiter)).to_multiset() == waiting(
            buffers,
        ).to_multiset().add(records_of_groups(groups).to_multiset()),
    decreases groups.len(),
{
    broadcast use vstd::seq_lib::group_to_multiset_ensures;

    if groups.len() == 0 {
        assert(Seq::<SpanRecord>::empty().to_multiset() =~= Multiset::empty());
        assert(waiting(buffers).to_multiset() =~= waiting(buffers).to_multiset().add(
            Seq::<SpanRecord>::empty().to_multiset(),
        ));
    } else {
        let rest = groups.drop_last();
        let last = groups.last();
        law_arrivals_add_records(buffers, rest, first_waiter);
        law_arrival_adds_records(
            after_arrivals(buffers, rest, first_waiter),
            last.partition@,
            last.records@,
            (first_waiter + groups.len() - 1) as u64,
        );
        vstd::seq_lib::lemma_multiset_commutative(records_of_groups(rest), last.records@);
        assert(waiting(after_arrivals(buffers, groups, first_waiter)).to_multiset() =~= waiting(
            buffers,
        ).to_multiset().add(records_of_groups(groups).to_multiset()));
    }
}

/// A flush that fails leaves every record waiting.
pub proof fn law_failed_flush_loses_nothing(buffers: Seq<Buffer>, at: int)
    requires
        in_order(buffers),
        0 <= at < buffers.len(),
    ensures
        waiting(
            after_failure(
                after_taking(buffers, at),
                buffers[at].partition,
                buffers[at].records,
            ),
        ).to_multiset() == waiting(buffers).to_multiset(),
{
    law_taking_splits_records(buffers, at);
    law_failure_keeps_records(
        after_taking(buffers, at),
        buffers[at].partition,
        buffers[at].records,
    );
}

impl PendingState {
    /// Adds the records of several partitions, each with one who waits for them,
    /// numbered from `first_waiter` on. Says whether they are to be written at once.
    pub fn accept(
        &mut self,
        groups: Vec<PartitionRecords>,
        first_waiter: u64,
        config: &IngestConfig,
    ) -> (r: bool)
        requires
            old(self).is_valid(),
            first_waiter + groups@.len() <= u64::MAX,
        ensures
            final(self)@ == after_arrivals(old(self)@, groups@, first_waiter),
            final(self).is_valid(),
            r == fills_up(old(self)@, groups@, first_waiter, *config),
    {
        let ghost start = self@;
        let ghost all = groups@;
        let mut flush = false;
        let mut waiter: u64 = first_waiter;
        assert(all.take(0) =~= Seq::<PartitionRecords>::empty());
        for group in iter: groups
            invariant
                iter.seq() == all,
                self.is_valid(),
                first_waiter + all.len() <= u64::MAX,
                waiter == first_waiter + iter.index(),
                self@ == after_arrivals(start, all.take(iter.index() as int), first_waiter),
                flush == fills_up(
                    start,
                    all.take(iter.index() as int),
                    first_waiter,
                    *config,
                ),
        {
            let ghost n = iter.index() as int;
            assert(all.take(n + 1).drop_last() =~= all.take(n));
            assert(all.take(n + 1).last() == group);
            let count = self.add(group.partition, group.records, waiter);
            if count >= config.max_spans() || config.max_flush_delay.is_zero() {
                flush = true;
            }
            waiter = waiter + 1;
        }
        assert(all.take(all.len() as int) =~= all);
        flush
    }
}

/// The buffer that is written next is the first that holds records and is not being written; and
/// there is one unless none is.
pub proof fn law_first_ready_is_next(buffers: Seq<Buffer>, from: int)
    requires
        0 <= from <= buffers.len(),
    ensures
        match next_ready(buffers, from) {
            Some(at) => {
                &&& from <= at < buffers.len()
                &&& !buffers[at].flushing && buffers[at].records.len() > 0
                &&& forall|i: int|
                    from <= i < at ==> (#[trigger] buffers[i]).flushing || buffers[i].records.len()
                        == 0
            },
            None => forall|i: int|
                from <= i < buffers.len() ==> (#[trigger] buffers[i]).flushing
                    || buffers[i].records.len() == 0,
        },
    decreases buffers.len() - from,
{
    if from < buffers.len() {
        law_first_ready_is_next(buffers, from + 1);
    }
}

/// Records are written at once if a segment of them is full, which takes at least one, or if they
/// are not to wait; what was to be written still is when more arrive.
pub proof fn law_full_buffers_are_written(
    buffers: Seq<Buffer>,
    groups: Seq<PartitionRecords>,
    group: PartitionRecords,
    first_waiter: u64,
    config: IngestConfig,
)
    ensures
        fills_up(Seq::empty(), seq![group], first_waiter, config) <==> config.max_flush_delay.nanos
            == 0 || group.records@.len() >= 1 && group.records@.len()
            >= config.max_spans_per_segment,
        fills_up(buffers, groups, first_waiter, config) ==> fills_up(
            buffers,
            groups.push(group),
            first_waiter,
            config,
        ),
        config.max_flush_delay.nanos == 0 ==> fills_up(
            buffers,
            groups.push(group),
            first_waiter,
            config,
        ),
        !fills_up(buffers, Seq::empty(), first_waiter, config),
        config.segment_size() >= 1 && (config.max_spans_per_segment >= 1 ==> config.segment_size()
            == config.max_spans_per_segment),
{
    assert(groups.push(group).drop_last() =~= groups);
    let one = seq![group];
    let none = Seq::<PartitionRecords>::empty();
    assert(one.drop_last() =~= none);
    assert(!fills_up(Seq::empty(), none, first_waiter, config));
    assert(after_arrivals(Seq::empty(), none, first_waiter) == Seq::<Buffer>::empty());
    assert(buffer_of(Seq::empty(), group.partition@).records.len() == 0);
}

/// Flushes have failed just if one of them did or was dropped; and else what they wrote is told in
/// the order of the names of the segments, and all of it.
pub proof fn law_news_of_flushes(news: Seq<FlushNews>, receipts: Vec<FlushReceipt>)
    ensures
        news_fault(news) is None <==> forall|i: int|
            0 <= i < news.len() ==> (#[trigger] news[i]) is Written,
        news_receipts(news.push(FlushNews::Written(receipts))) == news_receipts(news)
            + receipts@,
        ({
            let told = stable_sort(news_receipts(news), receipt_order());
            &&& told.to_multiset() == news_receipts(news).to_multiset()
            &&& forall|i: int, j: int|
                0 <= i < j < told.len() ==> !text_less(
                    (#[trigger] told[j]).segment_uri@,
                    (#[trigger] told[i]).segment_uri@,
                )
        }),
    decreases news.len(),
{
    assert(news.push(FlushNews::Written(receipts)).drop_last() =~= news);
    if news.len() > 0 {
        let before = news.drop_last();
        let last = news.len() - 1;
        law_news_of_flushes(before, receipts);
        assert(news[last] == news.last());
        assert forall|i: int| 0 <= i < before.len() implies #[trigger] before[i] == news[i] by {}
        if news_fault(news) is None {
            assert forall|i: int| 0 <= i < news.len() implies (#[trigger] news[i]) is Written by {
                if i < last {
                    assert(before[i] == news[i]);
                }
            }
        }
    }
    let less = receipt_order();
    let all = news_receipts(news);
    law_sort_keeps_elements(all, less);
    assert(strict_order(less)) by {
        assert forall|a: FlushReceipt, b: FlushReceipt| #[trigger] less(a, b) implies !less(
            b,
            a,
        ) by {
            law_text_order_is_total(a.segment_uri@, b.segment_uri@);
        }
        assert forall|a: FlushReceipt, b: FlushReceipt, c: FlushReceipt|
            !#[trigger] less(b, a) && !#[trigger] less(c, b) implies !less(c, a) by {
            law_text_order_is_total(a.segment_uri@, b.segment_uri@);
            law_text_order_is_total(b.segment_uri@, c.segment_uri@);
            law_text_order_is_total(a.segment_uri@, c.segment_uri@);
            if less(a, b) && less(b, c) {
                law_text_order_is_transitive(a.segment_uri@, b.segment_uri@, c.segment_uri@);
            }
        }
    }
    law_sort_sorts(all, less);
    let told = stable_sort(all, less);
    assert forall|i: int, j: int| 0 <= i < j < told.len() implies !text_less(
        (#[trigger] told[j]).segment_uri@,
        (#[trigger] told[i]).segment_uri@,
    ) by {
        assert(!less(told[j], told[i]));
    }
}

} // verus!
