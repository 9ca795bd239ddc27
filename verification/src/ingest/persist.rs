//! How the records of a partition are written, segment by segment.

use crate::ingest::pending::FlushReceipt;
use crate::ingest::records::PartitionKey;
use crate::ingest::records::deduplicate_records;
use crate::ingest::records::first_of_each_key;
use crate::ingest::records::law_one_record_of_each_key;
use crate::ingest::records::new_records;
use crate::ingest::records::partition_fault;
use crate::ingest::records::record_key;
use crate::ingest::records::record_keys;
use crate::ingest::records::segment_name;
use crate::ingest::records::segment_uri;
use crate::ingest::records::validate_partition_records;
use crate::ingest::records::without_existing;
use crate::record::SpanRecord;
use crate::text::texts;
use vstd::arithmetic::div_mod::lemma_fundamental_div_mod_converse;
use vstd::prelude::*;
use vstd::string::StringExecFns;

verus! {

/// How often a segment may turn out to hold records that another one wrote
/// meanwhile.
pub const MAX_DUPLICATE_CONFLICT_RETRIES: usize = 3;

/// What became of the records of a segment.
#[derive(Debug, PartialEq, Eq)]
pub enum SegmentOutcome {
    Written(FlushReceipt),
    /// Some were written meanwhile by another segment.
    DuplicateConflict(Vec<SpanRecord>),
    Failed(PersistError),
}

/// Records that were not written, and why.
#[derive(Debug, PartialEq, Eq)]
pub struct PersistError {
    pub records: Vec<SpanRecord>,
    pub error: String,
}

/// The records of a partition on their way into segments.
#[derive(Debug, PartialEq, Eq)]
pub struct PersistState {
    pub remaining: Vec<SpanRecord>,
    pub receipts: Vec<FlushReceipt>,
    pub duplicate_conflicts: usize,
    pub max_spans_per_segment: usize,
}

/// What a [`PersistState`] holds.
pub struct Persisting {
    pub remaining: Seq<SpanRecord>,
    pub receipts: Seq<FlushReceipt>,
    pub conflicts: int,
    pub size: int,
}

impl View for PersistState {
    type V = Persisting;

    open spec fn view(&self) -> Persisting {
        Persisting {
            remaining: self.remaining@,
            receipts: self.receipts@,
            conflicts: self.duplicate_conflicts as int,
            size: self.max_spans_per_segment as int,
        }
    }
}

/// What is done next with the records of a partition.
#[derive(Debug, PartialEq, Eq)]
pub enum PersistAction {
    /// Write these into a segment.
    Write(Vec<SpanRecord>),
    /// All are written, in these segments.
    Done(Vec<FlushReceipt>),
}

/// How many records a full segment holds.
pub open spec fn full_size(size: int) -> int {
    if size < 1 {
        1
    } else {
        size
    }
}

/// How many records the next segment takes: at least one, and no more than there
/// are.
pub open spec fn next_size(size: int, remaining: int) -> int {
    let wanted = full_size(size);
    if wanted < remaining {
        wanted
    } else {
        remaining
    }
}

impl Persisting {
    /// The records of the next segment.
    pub open spec fn segment(self) -> Seq<SpanRecord> {
        self.remaining.take(next_size(self.size, self.remaining.len() as int))
    }

    /// What is left when the records of the next segment are taken.
    pub open spec fn taken(self) -> Persisting {
        Persisting {
            remaining: self.remaining.skip(next_size(self.size, self.remaining.len() as int)),
            ..self
        }
    }

    /// What is left without the records whose keys are known already, and with the first
    /// of each key alone.
    pub open spec fn without_known(self, existing: Seq<Seq<char>>) -> Persisting {
        Persisting {
            remaining: new_records(first_of_each_key(self.remaining), existing),
            ..self
        }
    }
}

/// The records of a partition, none of them written.
pub open spec fn first_state(records: Seq<SpanRecord>, size: int) -> Persisting {
    Persisting { remaining: records, receipts: Seq::empty(), conflicts: 0, size }
}

/// What is said when other segments got in the way too often.
pub open spec fn no_progress_text() -> Seq<char> {
    "ingest made no progress after 3 idempotency conflicts"@
}

/// What follows from what became of a segment: what is left to do, or what was not
/// written and why.
pub open spec fn after_segment(state: Persisting, outcome: SegmentOutcome) -> Result<
    Persisting,
    (Seq<SpanRecord>, Seq<char>),
> {
    match outcome {
        SegmentOutcome::Written(receipt) => Ok(
            Persisting { receipts: state.receipts.push(receipt), ..state },
        ),
        SegmentOutcome::DuplicateConflict(records) => if state.conflicts
            >= MAX_DUPLICATE_CONFLICT_RETRIES {
            Err((records@ + state.remaining, no_progress_text()))
        } else {
            Ok(
                Persisting {
                    remaining: records@ + state.remaining,
                    conflicts: state.conflicts + 1,
                    ..state
                },
            )
        },
        SegmentOutcome::Failed(failure) => Err(
            (failure.records@ + state.remaining, failure.error@),
        ),
    }
}

impl PersistState {
    /// The records of a partition, none of them written.
    pub fn new(records: Vec<SpanRecord>, max_spans_per_segment: usize) -> (r: Self)
        ensures
            r@ == first_state(records@, max_spans_per_segment as int),
    {
        let state = PersistState {
            remaining: records,
            receipts: Vec::new(),
            duplicate_conflicts: 0,
            max_spans_per_segment,
        };
        assert(state@.receipts =~= Seq::<FlushReceipt>::empty());
        state
    }

    /// What is left after the records with keys that are known already are taken out,
    /// and all but the first of each key.
    pub fn without_duplicates(&mut self, existing: &Vec<String>)
        ensures
            final(self)@ == old(self)@.without_known(texts(existing@)),
    {
        let mut records: Vec<SpanRecord> = Vec::new();
        let ghost all = self.remaining@;
        records.append(&mut self.remaining);
        assert(records@ =~= all);
        let distinct = deduplicate_records(records);
        self.remaining = without_existing(distinct, existing);
    }

    /// The next segment: the first of the records that are left.
    pub fn next_action(&mut self) -> (r: PersistAction)
        ensures
            match r {
                PersistAction::Write(records) => {
                    &&& old(self)@.remaining.len() > 0
                    &&& records@ == old(self)@.segment()
                    &&& records@.len() > 0
                    &&& final(self)@ == old(self)@.taken()
                },
                PersistAction::Done(receipts) => {
                    &&& old(self)@.remaining.len() == 0
                    &&& receipts@ == old(self)@.receipts
                },
            },
    {
        let count = self.remaining.len();
        if count == 0 {
            let mut receipts: Vec<FlushReceipt> = Vec::new();
            let ghost told = self.receipts@;
            receipts.append(&mut self.receipts);
            assert(receipts@ =~= told);
            return PersistAction::Done(receipts);
        }
        let wanted: usize = if self.max_spans_per_segment < 1 {
            1
        } else {
            self.max_spans_per_segment
        };
        let n: usize = if wanted < count {
            wanted
        } else {
            count
        };
        let ghost all = self.remaining@;
        let rest = self.remaining.split_off(n);
        let mut records: Vec<SpanRecord> = Vec::new();
        records.append(&mut self.remaining);
        self.remaining = rest;
        assert(records@ =~= all.take(n as int));
        assert(self.remaining@ =~= all.skip(n as int));
        PersistAction::Write(records)
    }

    /// Notes what became of a segment. An error names all records that were not
    /// written.
    pub fn note(&mut self, outcome: SegmentOutcome) -> (r: Result<(), PersistError>)
        ensures
            match r {
                Ok(_) => after_segment(old(self)@, outcome) == Ok::<
                    _,
                    (Seq<SpanRecord>, Seq<char>),
                >(final(self)@),
                Err(failure) => after_segment(old(self)@, outcome) == Err::<Persisting, _>(
                    (failure.records@, failure.error@),
                ),
            },
    {
        match outcome {
            SegmentOutcome::Written(receipt) => {
                self.receipts.push(receipt);
                Ok(())
            },
            SegmentOutcome::DuplicateConflict(records) => {
                let mut records = records;
                records.append(&mut self.remaining);
                if self.duplicate_conflicts >= MAX_DUPLICATE_CONFLICT_RETRIES {
                    return Err(
                        PersistError {
                            records,
                            error: "ingest made no progress after 3 idempotency conflicts".to_owned(),
                        },
                    );
                }
                self.duplicate_conflicts = self.duplicate_conflicts + 1;
                self.remaining = records;
                Ok(())
            },
            SegmentOutcome::Failed(failure) => {
                let mut failure = failure;
                failure.records.append(&mut self.remaining);
                Err(failure)
            },
        }
    }
}

/// The records of the next segment and those that are left are together those that
/// were left, in order.
pub proof fn law_segments_split_records(state: Persisting)
    requires
        state.remaining.len() > 0,
    ensures
        ({
            let n = next_size(state.size, state.remaining.len() as int);
            &&& 0 < n <= state.remaining.len()
            &&& n <= full_size(state.size)
            &&& state.remaining.take(n) + state.remaining.skip(n) == state.remaining
        }),
{
    let n = next_size(state.size, state.remaining.len() as int);
    assert(state.remaining.take(n) + state.remaining.skip(n) =~= state.remaining);
}

/// Whatever becomes of a segment that was not written, its records are either left to
/// do, ahead of the others, or named in the error with all others: none is lost.
pub proof fn law_unwritten_records_are_kept(state: Persisting, outcome: SegmentOutcome)
    ensures
        match (outcome, after_segment(state, outcome)) {
            (SegmentOutcome::Written(_), Ok(next)) => next.remaining == state.remaining,
            (SegmentOutcome::Written(_), Err(_)) => false,
            (SegmentOutcome::DuplicateConflict(records), Ok(next)) => next.remaining == records@
                + state.remaining,
            (SegmentOutcome::DuplicateConflict(records), Err((kept, _))) => kept == records@
                + state.remaining,
            (SegmentOutcome::Failed(failure), Err((kept, _))) => kept == failure.records@
                + state.remaining,
            (SegmentOutcome::Failed(_), Ok(_)) => false,
        },
{
}

/// One round of writing: what became of a segment, and which keys are known then.
pub struct Round {
    pub outcome: SegmentOutcome,
    pub existing: Seq<Seq<char>>,
}

/// Whether none of the keys of records is known.
pub open spec fn are_new(records: Seq<SpanRecord>, existing: Seq<Seq<char>>) -> bool {
    forall|i: int|
        0 <= i < records.len() ==> !existing.contains(record_key(#[trigger] records[i]))
}

/// Whether an outcome is that of a segment: one that was written counts its records, and
/// one that got in the way of another gives them back.
pub open spec fn is_outcome_of(outcome: SegmentOutcome, segment: Seq<SpanRecord>) -> bool {
    match outcome {
        SegmentOutcome::Written(receipt) => receipt.span_count == segment.len(),
        SegmentOutcome::DuplicateConflict(records) => records@ == segment,
        SegmentOutcome::Failed(_) => false,
    }
}

/// What a round leaves to do.
pub open spec fn after_round(state: Persisting, round: Round) -> Persisting {
    match after_segment(state.taken(), round.outcome) {
        Ok(next) => next.without_known(round.existing),
        Err(_) => state,
    }
}

/// Whether a round goes on: there is a segment, nothing fails, and what is left is new.
pub open spec fn goes_on(state: Persisting, round: Round) -> bool {
    &&& state.remaining.len() > 0
    &&& is_outcome_of(round.outcome, state.segment())
    &&& after_segment(state.taken(), round.outcome) matches Ok(next) && are_new(
        next.remaining,
        round.existing,
    )
}

/// What rounds leave to do, one after another.
pub open spec fn after_rounds(state: Persisting, rounds: Seq<Round>) -> Persisting
    decreases rounds.len(),
{
    if rounds.len() == 0 {
        state
    } else {
        after_round(after_rounds(state, rounds.drop_last()), rounds.last())
    }
}

/// Whether each of the rounds goes on.
pub open spec fn all_go_on(state: Persisting, rounds: Seq<Round>) -> bool
    decreases rounds.len(),
{
    rounds.len() > 0 ==> {
        &&& all_go_on(state, rounds.drop_last())
        &&& goes_on(after_rounds(state, rounds.drop_last()), rounds.last())
    }
}

/// How many spans segments hold together.
pub open spec fn span_total(receipts: Seq<FlushReceipt>) -> int
    decreases receipts.len(),
{
    if receipts.len() == 0 {
        0
    } else {
        span_total(receipts.drop_last()) + receipts.last().span_count
    }
}

/// How many of `n` records so many segments hold.
spec fn held(n: int, segments: int, size: int) -> int {
    if segments * size < n {
        segments * size
    } else {
        n
    }
}

proof fn lemma_keys_of_rest(records: Seq<SpanRecord>, from: int)
    requires
        record_keys(records).no_duplicates(),
        0 <= from <= records.len(),
    ensures
        record_keys(records.skip(from)).no_duplicates(),
{
    let keys = record_keys(records);
    let rest = record_keys(records.skip(from));
    assert forall|i: int, j: int| 0 <= i < rest.len() && 0 <= j < rest.len() && i != j implies rest[i]
        != rest[j] by {
        assert(rest[i] == keys[i + from] && rest[j] == keys[j + from]);
    }
}

/// Of records with different keys the first of each key are all of them.
proof fn lemma_first_of_different_keys(records: Seq<SpanRecord>)
    requires
        record_keys(records).no_duplicates(),
    ensures
        first_of_each_key(records) == records,
    decreases records.len(),
{
    if records.len() > 0 {
        let rest = records.drop_last();
        let keys = record_keys(records);
        assert(record_keys(rest) =~= keys.drop_last());
        assert(record_keys(rest).no_duplicates());
        lemma_first_of_different_keys(rest);
        if record_keys(rest).contains(record_key(records.last())) {
            let i = record_keys(rest).index_of(record_key(records.last()));
            assert(keys[i] == keys[records.len() - 1]);
        }
        assert(rest.push(records.last()) =~= records);
    }
}

/// Of new records all are new.
proof fn lemma_all_new(records: Seq<SpanRecord>, existing: Seq<Seq<char>>)
    requires
        are_new(records, existing),
    ensures
        new_records(records, existing) == records,
    decreases records.len(),
{
    reveal(Seq::filter);
    if records.len() > 0 {
        let rest = records.drop_last();
        assert forall|i: int| 0 <= i < rest.len() implies !existing.contains(
            record_key(#[trigger] rest[i]),
        ) by {
            assert(rest[i] == records[i]);
        }
        lemma_all_new(rest, existing);
        assert(!existing.contains(record_key(records[records.len() - 1])));
        assert(rest.push(records.last()) =~= records);
    }
}

/// The new records have different keys.
proof fn lemma_keys_of_new(records: Seq<SpanRecord>, existing: Seq<Seq<char>>)
    requires
        record_keys(records).no_duplicates(),
    ensures
        record_keys(new_records(records, existing)).no_duplicates(),
        forall|record: SpanRecord| #[trigger]
            new_records(records, existing).contains(record) ==> records.contains(record),
    decreases records.len(),
{
    reveal(Seq::filter);
    if records.len() > 0 {
        let rest = records.drop_last();
        let last = records.last();
        let keys = record_keys(records);
        assert(record_keys(rest) =~= keys.drop_last());
        lemma_keys_of_new(rest, existing);
        let before = new_records(rest, existing);
        let out = new_records(records, existing);
        assert forall|record: SpanRecord| #[trigger] out.contains(
            record,
        ) implies records.contains(record) by {
            let i = out.index_of(record);
            if i < before.len() {
                assert(before[i] == record);
                assert(before.contains(record));
                assert(records[rest.index_of(record)] == record);
            } else {
                assert(records[records.len() - 1] == record);
            }
        }
        if !existing.contains(record_key(last)) {
            assert(out =~= before.push(last));
            assert forall|i: int| 0 <= i < before.len() implies record_key(#[trigger] before[i])
                != record_key(last) by {
                assert(before.contains(before[i]));
                let j = rest.index_of(before[i]);
                assert(keys[j] == record_key(before[i]));
                assert(keys[records.len() - 1] == record_key(last));
            }
            assert forall|i: int, j: int|
                0 <= i < out.len() && 0 <= j < out.len() && i != j implies record_keys(out)[i]
                != record_keys(out)[j] by {
                if i < before.len() && j < before.len() {
                    assert(record_keys(out)[i] == record_keys(before)[i]);
                    assert(record_keys(out)[j] == record_keys(before)[j]);
                } else if i < before.len() {
                    assert(record_key(before[i]) != record_key(last));
                } else {
                    assert(record_key(before[j]) != record_key(last));
                }
            }
        } else {
            assert(out =~= before);
        }
    }
}

/// After rounds that go on, the segments that were written hold the first of the
/// records, each but the last of them in full, and the others are left.
proof fn lemma_after_rounds(start: Persisting, rounds: Seq<Round>)
    requires
        record_keys(start.remaining).no_duplicates(),
        start.receipts.len() == 0,
        all_go_on(start, rounds),
    ensures
        ({
            let end = after_rounds(start, rounds);
            let n = start.remaining.len() as int;
            let size = full_size(start.size);
            let w = end.receipts.len() as int;
            &&& end.size == start.size
            &&& 0 <= held(n, w, size) <= n
            &&& end.remaining == start.remaining.skip(held(n, w, size))
            &&& span_total(end.receipts) == held(n, w, size)
            &&& (w - 1) * size < n || w == 0
            &&& forall|i: int|
                0 <= i < w - 1 || 0 <= i < w && w * size < n ==> (
                #[trigger] end.receipts[i]).span_count == size
        }),
    decreases rounds.len(),
{
    let n = start.remaining.len() as int;
    let size = full_size(start.size);
    if rounds.len() == 0 {
        assert(start.remaining.skip(0) =~= start.remaining);
        assert(0 * size == 0);
    } else {
        let before = after_rounds(start, rounds.drop_last());
        let round = rounds.last();
        lemma_after_rounds(start, rounds.drop_last());
        let w = before.receipts.len() as int;
        let done = held(n, w, size);
        let k = next_size(before.size, before.remaining.len() as int);
        assert(done == w * size);
        assert(before.remaining.len() == n - done);
        assert((w + 1) * size == w * size + size) by (nonlinear_arith);
        assert(before.segment().len() == k);
        let next = after_segment(before.taken(), round.outcome)->Ok_0;
        match round.outcome {
            SegmentOutcome::Written(receipt) => {
                assert(next.receipts.drop_last() =~= before.receipts);
                assert(held(n, w + 1, size) == done + k);
                assert(next.remaining =~= start.remaining.skip(done + k));
                lemma_keys_of_rest(start.remaining, done + k);
            },
            SegmentOutcome::DuplicateConflict(records) => {
                assert(next.remaining =~= before.remaining);
                lemma_keys_of_rest(start.remaining, done);
            },
            SegmentOutcome::Failed(_) => {},
        }
        lemma_first_of_different_keys(next.remaining);
        lemma_all_new(next.remaining, round.existing);
    }
}

/// When all new records of a partition are written, there are as many segments as it
/// takes, full but for the last, and together they hold as many spans as there were new
/// records: of each key one, unless it was known already.
pub proof fn law_segments_count_the_new_records(
    records: Seq<SpanRecord>,
    existing: Seq<Seq<char>>,
    size: int,
    rounds: Seq<Round>,
)
    requires
        ({
            let start = first_state(records, size).without_known(existing);
            all_go_on(start, rounds) && after_rounds(start, rounds).remaining.len() == 0
        }),
    ensures
        ({
            let n = new_records(first_of_each_key(records), existing).len() as int;
            let end = after_rounds(first_state(records, size).without_known(existing), rounds);
            &&& end.receipts.len() == (n + full_size(size) - 1) / full_size(size)
            &&& span_total(end.receipts) == n
            &&& forall|i: int|
                0 <= i < end.receipts.len() - 1 ==> (#[trigger] end.receipts[i]).span_count
                    == full_size(size)
            &&& record_keys(records).no_duplicates() && are_new(records, existing) ==> n
                == records.len()
        }),
{
    let start = first_state(records, size).without_known(existing);
    let n = start.remaining.len() as int;
    let m = full_size(size);
    law_one_record_of_each_key(records);
    lemma_keys_of_new(first_of_each_key(records), existing);
    lemma_after_rounds(start, rounds);
    let end = after_rounds(start, rounds);
    let w = end.receipts.len() as int;
    assert(held(n, w, m) == n);
    assert((w - 1) * m == w * m - m) by (nonlinear_arith);
    if w == 0 {
        assert(w * m == 0) by (nonlinear_arith)
            requires
                w == 0,
        ;
    }
    lemma_fundamental_div_mod_converse(n + m - 1, m, w, n + m - 1 - w * m);
    if record_keys(records).no_duplicates() && are_new(records, existing) {
        lemma_first_of_different_keys(records);
        lemma_all_new(records, existing);
    }
}

/// When writing ends in an error after some segments, whose records were the first of the
/// new ones, the error names all the others, in order.
pub proof fn law_error_names_the_rest(
    records: Seq<SpanRecord>,
    existing: Seq<Seq<char>>,
    size: int,
    rounds: Seq<Round>,
    outcome: SegmentOutcome,
)
    requires
        ({
            let start = first_state(records, size).without_known(existing);
            let end = after_rounds(start, rounds);
            &&& all_go_on(start, rounds)
            &&& end.remaining.len() > 0
            &&& match outcome {
                SegmentOutcome::Written(_) => false,
                SegmentOutcome::DuplicateConflict(kept) => kept@ == end.segment()
                    && end.conflicts >= MAX_DUPLICATE_CONFLICT_RETRIES,
                SegmentOutcome::Failed(failure) => failure.records@ == end.segment(),
            }
        }),
    ensures
        ({
            let start = first_state(records, size).without_known(existing);
            let end = after_rounds(start, rounds);
            let written = span_total(end.receipts);
            &&& 0 <= written <= start.remaining.len()
            &&& after_segment(end.taken(), outcome) matches Err((kept, _)) && kept
                == start.remaining.skip(written)
        }),
{
    let start = first_state(records, size).without_known(existing);
    let end = after_rounds(start, rounds);
    law_one_record_of_each_key(records);
    lemma_keys_of_new(first_of_each_key(records), existing);
    lemma_after_rounds(start, rounds);
    assert(end.segment() + end.taken().remaining =~= end.remaining);
}

/// What became of the records of a segment whose objects were written: they count if
/// their metadata went in, and else some of them are another segment's.
pub fn segment_outcome(
    records: Vec<SpanRecord>,
    segment_uri: &str,
    total_bytes: usize,
    metadata_inserted: bool,
) -> (r: SegmentOutcome)
    ensures
        is_outcome_of(r, records@),
        match r {
            SegmentOutcome::Written(receipt) => {
                &&& metadata_inserted
                &&& receipt.segment_uri@ == segment_uri@
                &&& receipt.span_count == records@.len()
                &&& receipt.total_bytes == total_bytes
            },
            SegmentOutcome::DuplicateConflict(kept) => !metadata_inserted && kept@ == records@,
            SegmentOutcome::Failed(_) => false,
        },
{
    if metadata_inserted {
        SegmentOutcome::Written(
            FlushReceipt {
                segment_uri: segment_uri.to_owned(),
                span_count: records.len(),
                total_bytes,
            },
        )
    } else {
        SegmentOutcome::DuplicateConflict(records)
    }
}

/// What is needed to write the objects of a segment: its name, if its records are all
/// of its partition.
pub fn prepare_segment(
    partition: &PartitionKey,
    records: Vec<SpanRecord>,
    now_nanos: u128,
    sequence: u64,
) -> (r: Result<(String, Vec<SpanRecord>), PersistError>)
    ensures
        match r {
            Ok((uri, kept)) => {
                &&& partition_fault(partition@, records@) is None
                &&& records@.len() > 0
                &&& kept@ == records@
                &&& uri@ == segment_name(
                    partition@,
                    records@[0].trace_id@,
                    now_nanos as nat,
                    sequence as nat,
                )
            },
            Err(failure) => {
                &&& failure.records@ == records@
                &&& match partition_fault(partition@, records@) {
                    Some(message) => failure.error@ == message,
                    None => records@.len() == 0 && failure.error@
                        == "cannot build segment uri for empty records"@,
                }
            },
        },
{
    match validate_partition_records(partition, &records) {
        Ok(_) => {},
        Err(error) => {
            return Err(PersistError { records, error });
        },
    }
    match segment_uri(partition, &records, now_nanos, sequence) {
        Ok(uri) => Ok((uri, records)),
        Err(error) => Err(PersistError { records, error }),
    }
}

} // verus!
