//! Search indexes: which parts of them are read, and what they leave of a plan.

use crate::query::RunQueryLimits;
use crate::query::SegmentCandidateRow;
use crate::query::SegmentSource;
use crate::query::distributed::all_rows;
use crate::query::distributed::partition_run_keys;
use crate::query::distributed::row_keys;
use crate::query::key_order;
use crate::query::keys_of;
use crate::query::planner::RunQueryPlan;
use crate::query::planner::estimate_vortex_object_store_requests;
use crate::query::planner::estimated_requests;
use crate::query::planner::rejection;
use crate::sorting::law_sort_keeps_elements;
use crate::sorting::law_sort_sorts;
use crate::sorting::lemma_filter_members;
use crate::sorting::lemma_sort_members;
use crate::sorting::ordered_set;
use crate::sorting::sort_by;
use crate::sorting::sorted;
use crate::sorting::stable_sort;
use crate::sorting::strict_order;
use crate::text::copy_option;
use crate::text::int_text;
use crate::text::integer_text;
use crate::text::nat_text;
use crate::text::unsigned_text;
use vstd::prelude::*;
use vstd::string::StringExecFns;

verus! {

/// Ranges that are no further apart than this are read as one.
pub const COALESCE_GAP_BYTES: u64 = 1_048_576;

/// How long a range that was put together from several may be.
pub const COALESCE_MAX_BYTES: u64 = 16_777_216;

/// How many reads the search index of a segment is taken to need: its header, its
/// directory, its dictionaries, and the terms.
pub const SEARCH_INDEX_REQUESTS_PER_SEGMENT: usize = 4;

/// The bytes from `start` to before `end`.
#[derive(Debug, Clone, Copy, PartialEq, Eq, Structural)]
pub struct ByteRange {
    pub start: u64,
    pub end: u64,
}

/// Where a range is found among those that are read.
#[derive(Debug, Clone, Copy, PartialEq, Eq, Structural)]
pub struct CoalescedRangePlan {
    pub original_index: usize,
    pub coalesced_index: usize,
    pub start: u64,
    pub end: u64,
}

/// A range with its number.
#[derive(Debug, Clone, Copy, PartialEq, Eq, Structural)]
pub struct NumberedRange {
    pub index: usize,
    pub range: ByteRange,
}

/// The ranges that are read, and where each range that was asked for is in them.
#[derive(Debug, PartialEq, Eq)]
pub struct Coalesced {
    pub ranges: Vec<ByteRange>,
    pub plans: Vec<CoalescedRangePlan>,
}

/// What [`Coalesced`] holds.
pub struct Coalescence {
    pub ranges: Seq<ByteRange>,
    pub plans: Seq<CoalescedRangePlan>,
}

impl View for Coalesced {
    type V = Coalescence;

    open spec fn view(&self) -> Coalescence {
        Coalescence { ranges: self.ranges@, plans: self.plans@ }
    }
}

pub open spec fn range_less(a: NumberedRange, b: NumberedRange) -> bool {
    a.range.start < b.range.start || a.range.start == b.range.start && a.range.end < b.range.end
}

/// The order of ranges: by start, then by end.
pub open spec fn range_order() -> spec_fn(NumberedRange, NumberedRange) -> bool {
    |a: NumberedRange, b: NumberedRange| range_less(a, b)
}

fn is_range_less(a: &NumberedRange, b: &NumberedRange) -> (r: bool)
    ensures
        r == range_less(*a, *b),
{
    a.range.start < b.range.start || a.range.start == b.range.start && a.range.end < b.range.end
}

pub open spec fn numbered(ranges: Seq<ByteRange>) -> Seq<NumberedRange> {
    Seq::new(ranges.len(), |i: int| NumberedRange { index: i as usize, range: ranges[i] })
}

/// Whether a range is read together with the one before it: it starts not far
/// behind its end, and the two together are not too long.
pub open spec fn joins(last: ByteRange, range: ByteRange) -> bool {
    &&& range.start <= last.end + COALESCE_GAP_BYTES
    &&& range.end <= last.start + COALESCE_MAX_BYTES
}

pub open spec fn later(a: u64, b: u64) -> u64 {
    if a < b {
        b
    } else {
        a
    }
}

/// The ranges that are read for ranges in order.
pub open spec fn coalescence_of(ranges: Seq<NumberedRange>) -> Coalescence
    decreases ranges.len(),
{
    if ranges.len() == 0 {
        Coalescence { ranges: Seq::empty(), plans: Seq::empty() }
    } else {
        let before = coalescence_of(ranges.drop_last());
        let next = ranges.last();
        let now = if before.ranges.len() > 0 && joins(before.ranges.last(), next.range) {
            before.ranges.drop_last().push(
                ByteRange {
                    start: before.ranges.last().start,
                    end: later(before.ranges.last().end, next.range.end),
                },
            )
        } else {
            before.ranges.push(next.range)
        };
        Coalescence {
            ranges: now,
            plans: before.plans.push(
                CoalescedRangePlan {
                    original_index: next.index,
                    coalesced_index: (now.len() - 1) as usize,
                    start: next.range.start,
                    end: next.range.end,
                },
            ),
        }
    }
}

/// The ranges that are read for those that are asked for.
pub open spec fn coalescence(ranges: Seq<ByteRange>) -> Coalescence {
    coalescence_of(stable_sort(numbered(ranges), range_order()))
}

fn does_join(last: &ByteRange, range: &ByteRange) -> (r: bool)
    ensures
        r == joins(*last, *range),
{
    let near = match last.end.checked_add(COALESCE_GAP_BYTES) {
        Some(reach) => range.start <= reach,
        None => true,
    };
    let length: u64 = range.end.saturating_sub(last.start);
    near && length <= COALESCE_MAX_BYTES
}

/// Puts together ranges that are near to each other, so that they are read at
/// once.
pub fn coalesce_ranges(ranges: &Vec<ByteRange>) -> (r: Coalesced)
    ensures
        r@ == coalescence(ranges@),
{
    let mut indexed: Vec<NumberedRange> = Vec::new();
    let mut i: usize = 0;
    while i < ranges.len()
        invariant
            i <= ranges.len(),
            indexed@ =~= numbered(ranges@).take(i as int),
        decreases ranges.len() - i,
    {
        indexed.push(NumberedRange { index: i, range: ranges[i] });
        i += 1;
    }
    assert(indexed@ =~= numbered(ranges@));
    let ordered = sort_by(indexed, is_range_less, Ghost(range_order()));
    let mut coalesced: Vec<ByteRange> = Vec::new();
    let mut plans: Vec<CoalescedRangePlan> = Vec::new();
    let mut k: usize = 0;
    assert(ordered@.take(0) =~= Seq::<NumberedRange>::empty());
    while k < ordered.len()
        invariant
            k <= ordered.len(),
            coalesced@ == coalescence_of(ordered@.take(k as int)).ranges,
            plans@ == coalescence_of(ordered@.take(k as int)).plans,
        decreases ordered.len() - k,
    {
        assert(ordered@.take(k + 1).drop_last() =~= ordered@.take(k as int));
        let next = ordered[k];
        let n = coalesced.len();
        if n > 0 && does_join(&coalesced[n - 1], &next.range) {
            let ghost before = coalesced@;
            let start: u64 = coalesced[n - 1].start;
            let end: u64 = if coalesced[n - 1].end < next.range.end {
                next.range.end
            } else {
                coalesced[n - 1].end
            };
            coalesced.set(n - 1, ByteRange { start, end });
            assert(coalesced@ =~= before.drop_last().push(ByteRange { start, end }));
        } else {
            coalesced.push(next.range);
        }
        let coalesced_index: usize = coalesced.len() - 1;
        plans.push(
            CoalescedRangePlan {
                original_index: next.index,
                coalesced_index,
                start: next.range.start,
                end: next.range.end,
            },
        );
        k += 1;
    }
    assert(ordered@.take(k as int) =~= ordered@);
    Coalesced { ranges: coalesced, plans }
}

/// The order of ranges is a strict one.
pub proof fn law_range_order()
    ensures
        strict_order(range_order()),
{
}

/// Whether a range lies within another.
pub open spec fn within(inner: ByteRange, outer: ByteRange) -> bool {
    outer.start <= inner.start && inner.end <= outer.end
}

/// Whether the plan says of the ranges that are read where the range is.
pub open spec fn finds(
    plan: CoalescedRangePlan,
    next: NumberedRange,
    coalesced: Seq<ByteRange>,
) -> bool {
    &&& plan.original_index == next.index
    &&& plan.start == next.range.start
    &&& plan.end == next.range.end
    &&& plan.coalesced_index < coalesced.len()
    &&& within(next.range, coalesced[plan.coalesced_index as int])
}

/// Whether a range that is read is not too long, or is one that was asked for.
pub open spec fn short_or_asked(range: ByteRange, asked: Seq<NumberedRange>) -> bool {
    ||| range.end <= range.start + COALESCE_MAX_BYTES
    ||| exists|k: int| 0 <= k < asked.len() && #[trigger] asked[k].range == range
}

/// Whether the range that is read with this number is read for some range that was
/// asked for.
pub open spec fn is_used(plans: Seq<CoalescedRangePlan>, number: int) -> bool {
    exists|k: int| 0 <= k < plans.len() && #[trigger] plans[k].coalesced_index == number
}

/// Whether a range that is read ends where one ends that was asked for.
pub open spec fn ends_as_asked(range: ByteRange, asked: Seq<NumberedRange>) -> bool {
    exists|k: int| 0 <= k < asked.len() && (#[trigger] asked[k]).range.end == range.end
}

proof fn lemma_coalescence(ranges: Seq<NumberedRange>)
    requires
        sorted(ranges, range_order()),
        ranges.len() <= usize::MAX,
    ensures
        ({
            let all = coalescence_of(ranges);
            &&& all.plans.len() == ranges.len()
            &&& all.ranges.len() <= ranges.len()
            &&& ranges.len() > 0 ==> all.ranges.len() > 0 && all.ranges.last().start
                <= ranges.last().range.start
            &&& forall|k: int|
                0 <= k < ranges.len() ==> finds(#[trigger] all.plans[k], ranges[k], all.ranges)
            &&& forall|c: int|
                0 <= c < all.ranges.len() ==> short_or_asked(#[trigger] all.ranges[c], ranges)
            &&& forall|c: int|
                0 <= c < all.ranges.len() ==> ends_as_asked(#[trigger] all.ranges[c], ranges)
            &&& forall|c: int| 0 <= c < all.ranges.len() ==> #[trigger] is_used(all.plans, c)
        }),
    decreases ranges.len(),
{
    if ranges.len() > 0 {
        let rest = ranges.drop_last();
        assert(sorted(rest, range_order())) by {
            assert forall|i: int, j: int| 0 <= i < j < rest.len() implies !range_order()(
                #[trigger] rest[j],
                #[trigger] rest[i],
            ) by {
                assert(rest[j] == ranges[j] && rest[i] == ranges[i]);
            }
        }
        lemma_coalescence(rest);
        let before = coalescence_of(rest);
        let all = coalescence_of(ranges);
        let next = ranges.last();
        if rest.len() > 0 {
            assert(!range_order()(ranges[ranges.len() - 1], ranges[ranges.len() - 2]));
            assert(rest.last() == ranges[ranges.len() - 2]);
        }
        assert forall|k: int| 0 <= k < ranges.len() implies finds(
            #[trigger] all.plans[k],
            ranges[k],
            all.ranges,
        ) by {
            if k < rest.len() {
                assert(all.plans[k] == before.plans[k]);
                assert(rest[k] == ranges[k]);
                assert(finds(before.plans[k], rest[k], before.ranges));
            }
        }
        assert forall|c: int| 0 <= c < all.ranges.len() implies short_or_asked(
            #[trigger] all.ranges[c],
            ranges,
        ) by {
            if c < before.ranges.len() {
                assert(short_or_asked(before.ranges[c], rest));
                if all.ranges[c] == before.ranges[c] {
                    if exists|k: int| 0 <= k < rest.len() && #[trigger] rest[k].range
                        == all.ranges[c] {
                        let k = choose|k: int|
                            0 <= k < rest.len() && #[trigger] rest[k].range == all.ranges[c];
                        assert(ranges[k] == rest[k]);
                    }
                } else {
                    let last = before.ranges[c];
                    assert(joins(last, next.range));
                    if exists|k: int| 0 <= k < rest.len() && #[trigger] rest[k].range == last {
                        if last.end < next.range.end {
                            assert(all.ranges[c].end == next.range.end);
                        }
                    }
                }
            } else {
                assert(ranges[ranges.len() - 1].range == all.ranges[c]);
            }
        }
        assert forall|c: int| 0 <= c < all.ranges.len() implies ends_as_asked(
            #[trigger] all.ranges[c],
            ranges,
        ) by {
            assert(ranges[ranges.len() - 1] == next);
            if c < before.ranges.len() && all.ranges[c].end == before.ranges[c].end {
                assert(ends_as_asked(before.ranges[c], rest));
                let k = choose|k: int|
                    0 <= k < rest.len() && (#[trigger] rest[k]).range.end == before.ranges[c].end;
                assert(ranges[k] == rest[k]);
            }
        }
        assert forall|c: int| 0 <= c < all.ranges.len() implies #[trigger] is_used(
            all.plans,
            c,
        ) by {
            if c == all.ranges.len() - 1 {
                assert(all.plans[ranges.len() - 1].coalesced_index == c);
            } else {
                assert(is_used(before.plans, c));
                let k = choose|k: int|
                    0 <= k < before.plans.len() && #[trigger] before.plans[k].coalesced_index == c;
                assert(all.plans[k] == before.plans[k]);
            }
        }
    }
}

/// Whether the range that was asked for with this number is found.
pub open spec fn is_planned(plans: Seq<CoalescedRangePlan>, number: int) -> bool {
    exists|k: int| 0 <= k < plans.len() && (#[trigger] plans[k]).original_index == number
}

spec fn has_number(ranges: Seq<NumberedRange>, number: int) -> bool {
    exists|k: int| 0 <= k < ranges.len() && (#[trigger] ranges[k]).index == number
}

proof fn lemma_numbered_once(ranges: Seq<ByteRange>)
    requires
        ranges.len() <= usize::MAX,
    ensures
        ({
            let ordered = stable_sort(numbered(ranges), range_order());
            &&& ordered.len() == ranges.len()
            &&& forall|k: int|
                0 <= k < ordered.len() ==> (#[trigger] ordered[k]).index < ranges.len()
                    && ordered[k].range == ranges[ordered[k].index as int]
            &&& forall|i: int| 0 <= i < ranges.len() ==> #[trigger] has_number(ordered, i)
            &&& forall|j: int, k: int|
                0 <= j < ordered.len() && 0 <= k < ordered.len() && j != k ==> (
                #[trigger] ordered[j]).index != (#[trigger] ordered[k]).index
        }),
{
    broadcast use vstd::seq_lib::group_to_multiset_ensures;

    let asked = numbered(ranges);
    let ordered = stable_sort(asked, range_order());
    law_sort_keeps_elements(asked, range_order());
    lemma_sort_members(asked, range_order());
    assert forall|k: int| 0 <= k < ordered.len() implies (#[trigger] ordered[k]).index
        < ranges.len() && ordered[k].range == ranges[ordered[k].index as int] by {
        assert(asked.contains(ordered[k]));
        let i = asked.index_of(ordered[k]);
        assert(asked[i] == ordered[k]);
    }
    assert forall|i: int| 0 <= i < ranges.len() implies #[trigger] has_number(ordered, i) by {
        assert(ordered.contains(asked[i]));
        let k = ordered.index_of(asked[i]);
        assert(ordered[k].index == i);
    }
    assert(asked.no_duplicates()) by {
        assert forall|i: int, j: int| 0 <= i < asked.len() && 0 <= j < asked.len() && i
            != j implies asked[i] != asked[j] by {
            assert(asked[i].index == i && asked[j].index == j);
        }
    }
    asked.lemma_multiset_has_no_duplicates();
    ordered.lemma_multiset_has_no_duplicates_conv();
    assert forall|j: int, k: int|
        0 <= j < ordered.len() && 0 <= k < ordered.len() && j != k implies (
    #[trigger] ordered[j]).index != (#[trigger] ordered[k]).index by {
        assert(asked.contains(ordered[j]) && asked.contains(ordered[k]));
        let p = asked.index_of(ordered[j]);
        let q = asked.index_of(ordered[k]);
        assert(asked[p].index == p && asked[q].index == q);
    }
}

/// Each range that is asked for is found, once, within one of those that are read;
/// no range is read for nothing, and none is longer than the limit unless it was
/// asked for as it is.
pub proof fn law_coalescence_covers(ranges: Seq<ByteRange>)
    requires
        ranges.len() <= usize::MAX,
    ensures
        ({
            let all = coalescence(ranges);
            &&& all.plans.len() == ranges.len()
            &&& all.ranges.len() <= ranges.len()
            &&& forall|k: int|
                0 <= k < all.plans.len() ==> {
                    let plan = #[trigger] all.plans[k];
                    &&& plan.original_index < ranges.len()
                    &&& plan.coalesced_index < all.ranges.len()
                    &&& plan.start == ranges[plan.original_index as int].start
                    &&& plan.end == ranges[plan.original_index as int].end
                    &&& within(
                        ranges[plan.original_index as int],
                        all.ranges[plan.coalesced_index as int],
                    )
                }
            &&& forall|i: int| 0 <= i < ranges.len() ==> #[trigger] is_planned(all.plans, i)
            &&& forall|j: int, k: int|
                0 <= j < all.plans.len() && 0 <= k < all.plans.len() && j != k ==> (
                #[trigger] all.plans[j]).original_index != (
                #[trigger] all.plans[k]).original_index
            &&& forall|c: int|
                0 <= c < all.ranges.len() ==> {
                    ||| (#[trigger] all.ranges[c]).end <= all.ranges[c].start + COALESCE_MAX_BYTES
                    ||| ranges.contains(all.ranges[c])
                }
            &&& forall|c: int|
                0 <= c < all.ranges.len() ==> exists|i: int|
                    0 <= i < ranges.len() && ranges[i].end == (#[trigger] all.ranges[c]).end
            &&& forall|c: int| 0 <= c < all.ranges.len() ==> #[trigger] is_used(all.plans, c)
        }),
{
    let ordered = stable_sort(numbered(ranges), range_order());
    let all = coalescence(ranges);
    law_range_order();
    law_sort_sorts(numbered(ranges), range_order());
    lemma_numbered_once(ranges);
    lemma_coalescence(ordered);
    assert forall|k: int| 0 <= k < all.plans.len() implies {
        let plan = #[trigger] all.plans[k];
        &&& plan.original_index < ranges.len()
        &&& plan.coalesced_index < all.ranges.len()
        &&& plan.start == ranges[plan.original_index as int].start
        &&& plan.end == ranges[plan.original_index as int].end
        &&& within(
            ranges[plan.original_index as int],
            all.ranges[plan.coalesced_index as int],
        )
    } by {
        assert(finds(all.plans[k], ordered[k], all.ranges));
    }
    assert forall|i: int| 0 <= i < ranges.len() implies #[trigger] is_planned(all.plans, i) by {
        assert(has_number(ordered, i));
        let k = choose|k: int| 0 <= k < ordered.len() && (#[trigger] ordered[k]).index == i;
        assert(finds(all.plans[k], ordered[k], all.ranges));
    }
    assert forall|j: int, k: int|
        0 <= j < all.plans.len() && 0 <= k < all.plans.len() && j != k implies (
    #[trigger] all.plans[j]).original_index != (#[trigger] all.plans[k]).original_index by {
        assert(finds(all.plans[j], ordered[j], all.ranges));
        assert(finds(all.plans[k], ordered[k], all.ranges));
        assert(ordered[j].index != ordered[k].index);
    }
    assert forall|c: int| 0 <= c < all.ranges.len() implies {
        ||| (#[trigger] all.ranges[c]).end <= all.ranges[c].start + COALESCE_MAX_BYTES
        ||| ranges.contains(all.ranges[c])
    } by {
        assert(short_or_asked(all.ranges[c], ordered));
        if exists|k: int| 0 <= k < ordered.len() && #[trigger] ordered[k].range == all.ranges[c] {
            let k = choose|k: int|
                0 <= k < ordered.len() && #[trigger] ordered[k].range == all.ranges[c];
            assert(ranges[ordered[k].index as int] == all.ranges[c]);
        }
    }
    assert forall|c: int| 0 <= c < all.ranges.len() implies exists|i: int|
        0 <= i < ranges.len() && ranges[i].end == (#[trigger] all.ranges[c]).end by {
        assert(ends_as_asked(all.ranges[c], ordered));
        let k = choose|k: int|
            0 <= k < ordered.len() && (#[trigger] ordered[k]).range.end == all.ranges[c].end;
        assert(ranges[ordered[k].index as int].end == all.ranges[c].end);
    }
}

/// Whether a range does not end before it starts.
pub open spec fn proper(range: ByteRange) -> bool {
    range.start <= range.end
}

/// The bytes of a range within those of one that was read.
pub open spec fn cut(chunk: Seq<u8>, from: ByteRange, plan: CoalescedRangePlan) -> Seq<u8> {
    chunk.subrange(plan.start - from.start, plan.end - from.start)
}

/// Whether each range that is read got at least its bytes.
pub open spec fn long_enough(chunks: Seq<Vec<u8>>, ranges: Seq<ByteRange>) -> bool {
    forall|c: int|
        #![trigger chunks[c]]
        0 <= c < chunks.len() && c < ranges.len() ==> chunks[c]@.len() >= ranges[c].end
            - ranges[c].start
}

fn cut_chunk(chunk: &Vec<u8>, from: ByteRange, plan: CoalescedRangePlan) -> (r: Vec<u8>)
    requires
        from.start <= plan.start <= plan.end <= from.end,
        chunk@.len() >= from.end - from.start,
    ensures
        r@ == cut(chunk@, from, plan),
{
    let length: usize = chunk.len();
    assert(plan.end - from.start <= length);
    let start: usize = (plan.start - from.start) as usize;
    let end: usize = (plan.end - from.start) as usize;
    let mut out: Vec<u8> = Vec::new();
    let mut i: usize = start;
    while i < end
        invariant
            start <= i <= end <= chunk.len(),
            out@ =~= chunk@.subrange(start as int, i as int),
        decreases end - i,
    {
        out.push(chunk[i]);
        i += 1;
    }
    out
}

/// The bytes of each range that was asked for, from those that were read for them
/// together.
pub fn cut_ranges(ranges: &Vec<ByteRange>, chunks: &Vec<Vec<u8>>) -> (r: Result<
    Vec<Vec<u8>>,
    String,
>)
    requires
        forall|i: int| 0 <= i < ranges@.len() ==> proper(#[trigger] ranges@[i]),
        long_enough(chunks@, coalescence(ranges@).ranges),
    ensures
        ({
            let all = coalescence(ranges@);
            match r {
                Ok(out) => {
                    &&& chunks@.len() >= all.ranges.len()
                    &&& out@.len() == ranges@.len()
                    &&& forall|k: int|
                        0 <= k < all.plans.len() ==> {
                            let plan = #[trigger] all.plans[k];
                            out@[plan.original_index as int]@ == cut(
                                chunks@[plan.coalesced_index as int]@,
                                all.ranges[plan.coalesced_index as int],
                                plan,
                            )
                        }
                },
                Err(message) => chunks@.len() < all.ranges.len() && message@
                    == "missing coalesced search range"@,
            }
        }),
{
    let coalesced = coalesce_ranges(ranges);
    let ghost all = coalescence(ranges@);
    let asked: usize = ranges.len();
    proof {
        law_coalescence_covers(ranges@);
    }
    if chunks.len() < coalesced.ranges.len() {
        return Err("missing coalesced search range".to_owned());
    }
    let mut out: Vec<Vec<u8>> = Vec::new();
    let mut i: usize = 0;
    while i < asked
        invariant
            i <= asked,
            out@.len() == i,
        decreases asked - i,
    {
        out.push(Vec::new());
        i += 1;
    }
    let mut k: usize = 0;
    while k < coalesced.plans.len()
        invariant
            k <= coalesced.plans.len(),
            coalesced@ == all,
            all == coalescence(ranges@),
            all.plans.len() == ranges@.len(),
            out@.len() == ranges@.len(),
            chunks@.len() >= all.ranges.len(),
            long_enough(chunks@, all.ranges),
            forall|i: int| 0 <= i < ranges@.len() ==> proper(#[trigger] ranges@[i]),
            forall|j: int|
                0 <= j < all.plans.len() ==> {
                    let plan = #[trigger] all.plans[j];
                    &&& plan.original_index < ranges@.len()
                    &&& plan.coalesced_index < all.ranges.len()
                    &&& plan.start == ranges@[plan.original_index as int].start
                    &&& plan.end == ranges@[plan.original_index as int].end
                    &&& within(
                        ranges@[plan.original_index as int],
                        all.ranges[plan.coalesced_index as int],
                    )
                },
            forall|i: int, j: int|
                0 <= i < all.plans.len() && 0 <= j < all.plans.len() && i != j ==> (
                #[trigger] all.plans[i]).original_index != (
                #[trigger] all.plans[j]).original_index,
            forall|j: int|
                0 <= j < k ==> {
                    let plan = #[trigger] all.plans[j];
                    out@[plan.original_index as int]@ == cut(
                        chunks@[plan.coalesced_index as int]@,
                        all.ranges[plan.coalesced_index as int],
                        plan,
                    )
                },
        decreases coalesced.plans.len() - k,
    {
        let plan = coalesced.plans[k];
        assert(plan == all.plans[k as int]);
        let from = coalesced.ranges[plan.coalesced_index];
        assert(proper(ranges@[plan.original_index as int]));
        let piece = cut_chunk(&chunks[plan.coalesced_index], from, plan);
        let ghost before = out@;
        out.set(plan.original_index, piece);
        assert forall|j: int| 0 <= j < k + 1 implies {
            let plan = #[trigger] all.plans[j];
            out@[plan.original_index as int]@ == cut(
                chunks@[plan.coalesced_index as int]@,
                all.ranges[plan.coalesced_index as int],
                plan,
            )
        } by {
            if j < k {
                assert(all.plans[j].original_index != all.plans[k as int].original_index);
                assert(out@[all.plans[j].original_index as int]
                    == before[all.plans[j].original_index as int]);
            }
        }
        k += 1;
    }
    Ok(out)
}

/// Where the ranges that were read hold what an object holds there, the pieces cut
/// out of them are what the object holds in the ranges that were asked for.
pub proof fn law_cut_ranges_are_the_bytes(object: Seq<u8>, ranges: Seq<ByteRange>, k: int)
    requires
        ranges.len() <= usize::MAX,
        forall|i: int|
            0 <= i < ranges.len() ==> proper(#[trigger] ranges[i]) && ranges[i].end
                <= object.len(),
        0 <= k < ranges.len(),
    ensures
        ({
            let all = coalescence(ranges);
            let plan = all.plans[k];
            let from = all.ranges[plan.coalesced_index as int];
            &&& from.end <= object.len()
            &&& cut(
                object.subrange(from.start as int, from.end as int),
                from,
                plan,
            ) == object.subrange(
                ranges[plan.original_index as int].start as int,
                ranges[plan.original_index as int].end as int,
            )
        }),
{
    law_coalescence_covers(ranges);
    let all = coalescence(ranges);
    let plan = all.plans[k];
    let from = all.ranges[plan.coalesced_index as int];
    assert(proper(ranges[plan.original_index as int]));
    let i = choose|i: int| 0 <= i < ranges.len() && ranges[i].end == from.end;
    assert(proper(ranges[i]) && ranges[i].end <= object.len());
    assert(cut(object.subrange(from.start as int, from.end as int), from, plan) =~= object.subrange(
        ranges[plan.original_index as int].start as int,
        ranges[plan.original_index as int].end as int,
    ));
}

/// A part of a search index.
#[derive(Debug, Clone, Copy, PartialEq, Eq, Structural)]
pub struct SearchIndexRange {
    pub offset: u64,
    pub len: u64,
}

impl SearchIndexRange {
    /// Whether the end of the range is in the range of a `u64`.
    pub open spec fn fits(self) -> bool {
        self.offset + self.len <= u64::MAX
    }

    pub open spec fn bytes(self) -> ByteRange {
        ByteRange { start: self.offset, end: (self.offset + self.len) as u64 }
    }

    /// The bytes of the range.
    pub fn as_range(self) -> (r: ByteRange)
        requires
            self.fits(),
        ensures
            r == self.bytes(),
    {
        ByteRange { start: self.offset, end: self.offset + self.len }
    }
}

/// Where the parts of a group of terms are.
#[derive(Debug, Clone, Copy, PartialEq, Eq, Structural)]
pub struct SearchIndexGroupDirectory {
    pub fst: SearchIndexRange,
    pub term_infos: SearchIndexRange,
    pub term_info_count: u32,
    pub postings: SearchIndexRange,
    pub positions: SearchIndexRange,
}

/// What an index says of a term: in how many documents it is, and where its
/// postings and positions are within those of its group.
#[derive(Debug, Clone, Copy, PartialEq, Eq, Structural)]
pub struct SearchIndexTermInfo {
    pub doc_count: u32,
    pub postings_offset: u32,
    pub postings_len: u32,
    pub positions_offset: u32,
    pub positions_len: u32,
}

/// Which of the ranges that are read hold the dictionary of a group.
#[derive(Debug, Clone, Copy, PartialEq, Eq, Structural)]
pub struct DictionaryRangePlan {
    pub group_index: usize,
    pub fst: usize,
    pub term_infos: usize,
}

/// A part of a part of a search index, or why there is no such part.
pub open spec fn part_of(base: SearchIndexRange, offset: u32, len: u32) -> Result<
    SearchIndexRange,
    Seq<char>,
> {
    if base.offset + offset > u64::MAX {
        Err("search term range offset overflow"@)
    } else if base.offset + offset + len > u64::MAX {
        Err("search term range end overflow"@)
    } else if base.offset + base.len > u64::MAX {
        Err("search group range end overflow"@)
    } else if offset + len > base.len {
        Err("search term range exceeds row group range"@)
    } else {
        Ok(SearchIndexRange { offset: (base.offset + offset) as u64, len: len as u64 })
    }
}

/// A part of a part of a search index.
pub fn subrange(base: SearchIndexRange, offset: u32, len: u32) -> (r: Result<
    SearchIndexRange,
    String,
>)
    ensures
        match r {
            Ok(range) => part_of(base, offset, len) == Ok::<_, Seq<char>>(range),
            Err(message) => part_of(base, offset, len) == Err::<SearchIndexRange, _>(message@),
        },
{
    let from: u64 = match base.offset.checked_add(offset as u64) {
        Some(from) => from,
        None => {
            return Err("search term range offset overflow".to_owned());
        },
    };
    let end: u64 = match from.checked_add(len as u64) {
        Some(end) => end,
        None => {
            return Err("search term range end overflow".to_owned());
        },
    };
    let base_end: u64 = match base.offset.checked_add(base.len) {
        Some(end) => end,
        None => {
            return Err("search group range end overflow".to_owned());
        },
    };
    if end > base_end {
        return Err("search term range exceeds row group range".to_owned());
    }
    Ok(SearchIndexRange { offset: from, len: len as u64 })
}

/// The groups that the directory has, of those that are selected.
pub open spec fn known_groups(selected: Seq<usize>, groups: int) -> Seq<usize> {
    selected.filter(|group: usize| group < groups)
}

/// The ranges of the dictionaries of groups, two to a group.
pub open spec fn dictionary_ranges(
    groups: Seq<usize>,
    directories: Seq<SearchIndexGroupDirectory>,
) -> Seq<ByteRange>
    decreases groups.len(),
{
    if groups.len() == 0 {
        Seq::empty()
    } else {
        let directory = directories[groups.last() as int];
        dictionary_ranges(groups.drop_last(), directories).push(directory.fst.bytes()).push(
            directory.term_infos.bytes(),
        )
    }
}

/// Where the dictionaries of groups are, when there are `before` other ranges.
pub open spec fn dictionary_plans(groups: Seq<usize>, before: int) -> Seq<DictionaryRangePlan> {
    Seq::new(
        groups.len(),
        |i: int|
            DictionaryRangePlan {
                group_index: groups[i],
                fst: (before + 2 * i) as usize,
                term_infos: (before + 2 * i + 1) as usize,
            },
    )
}

/// Plans to read the dictionaries of the selected groups, behind the ranges that
/// are planned already.
pub fn plan_dictionary_ranges(
    group_indexes: &Vec<usize>,
    directories: &Vec<SearchIndexGroupDirectory>,
    ranges: &mut Vec<ByteRange>,
) -> (r: Vec<DictionaryRangePlan>)
    requires
        forall|g: int|
            0 <= g < directories@.len() ==> (#[trigger] directories@[g]).fst.fits()
                && directories@[g].term_infos.fits(),
    ensures
        final(ranges)@ == old(ranges)@ + dictionary_ranges(
            known_groups(group_indexes@, directories@.len() as int),
            directories@,
        ),
        r@ == dictionary_plans(
            known_groups(group_indexes@, directories@.len() as int),
            old(ranges)@.len() as int,
        ),
{
    let ghost planned = ranges@;
    let ghost known = |group: usize| group < directories@.len();
    let mut plans: Vec<DictionaryRangePlan> = Vec::new();
    let mut i: usize = 0;
    proof {
        reveal(Seq::filter);
    }
    assert(group_indexes@.take(0).filter(known) =~= Seq::<usize>::empty());
    assert(planned + dictionary_ranges(Seq::<usize>::empty(), directories@) =~= planned);
    assert(plans@ =~= dictionary_plans(Seq::<usize>::empty(), planned.len() as int));
    while i < group_indexes.len()
        invariant
            i <= group_indexes.len(),
            known == (|group: usize| group < directories@.len()),
            forall|g: int|
                0 <= g < directories@.len() ==> (#[trigger] directories@[g]).fst.fits()
                    && directories@[g].term_infos.fits(),
            ranges@ == planned + dictionary_ranges(
                group_indexes@.take(i as int).filter(known),
                directories@,
            ),
            ranges@.len() == planned.len() + 2 * group_indexes@.take(i as int).filter(known).len(),
            plans@ == dictionary_plans(
                group_indexes@.take(i as int).filter(known),
                planned.len() as int,
            ),
        decreases group_indexes.len() - i,
    {
        let ghost done = group_indexes@.take(i as int).filter(known);
        let ghost now = group_indexes@.take(i + 1).filter(known);
        proof {
            reveal(Seq::filter);
            assert(group_indexes@.take(i + 1).drop_last() =~= group_indexes@.take(i as int));
        }
        let group = group_indexes[i];
        if group < directories.len() {
            let directory = directories[group];
            let fst: usize = ranges.len();
            ranges.push(directory.fst.as_range());
            let term_infos: usize = ranges.len();
            ranges.push(directory.term_infos.as_range());
            plans.push(DictionaryRangePlan { group_index: group, fst, term_infos });
            assert(now == done.push(group));
            assert(now.drop_last() =~= done);
            assert(ranges@ =~= planned + dictionary_ranges(now, directories@));
            assert(plans@ =~= dictionary_plans(now, planned.len() as int));
        }
        i += 1;
    }
    assert(group_indexes@.take(i as int) =~= group_indexes@);
    plans
}

/// A term of a group that a search needs.
#[derive(Debug, Clone, Copy, PartialEq, Eq, Structural)]
pub struct SearchIndexTermSlice {
    pub ordinal: usize,
    pub info: SearchIndexTermInfo,
    pub include_positions: bool,
}

/// Which of the ranges that are read hold the postings and positions of a term.
#[derive(Debug, Clone, Copy, PartialEq, Eq, Structural)]
pub struct TermDataPlan {
    pub ordinal: usize,
    pub info: SearchIndexTermInfo,
    pub postings: usize,
    pub positions: Option<usize>,
}

/// What is planned to be read: ranges, and where each term is in them.
pub struct TermPlans {
    pub ranges: Seq<ByteRange>,
    pub terms: Seq<TermDataPlan>,
}

/// Whether the positions of a term are read.
pub open spec fn reads_positions(term: SearchIndexTermSlice, allow_positions: bool) -> bool {
    allow_positions && term.include_positions && term.info.positions_len > 0
}

/// The plan with one more term, or why it cannot be read.
pub open spec fn with_term(
    plans: TermPlans,
    term: SearchIndexTermSlice,
    directory: SearchIndexGroupDirectory,
    allow_positions: bool,
) -> Result<TermPlans, Seq<char>> {
    match part_of(directory.postings, term.info.postings_offset, term.info.postings_len) {
        Ok(postings) => {
            let first = plans.ranges.push(postings.bytes());
            if reads_positions(term, allow_positions) {
                match part_of(
                    directory.positions,
                    term.info.positions_offset,
                    term.info.positions_len,
                ) {
                    Ok(positions) => Ok(
                        TermPlans {
                            ranges: first.push(positions.bytes()),
                            terms: plans.terms.push(
                                TermDataPlan {
                                    ordinal: term.ordinal,
                                    info: term.info,
                                    postings: plans.ranges.len() as usize,
                                    positions: Some((plans.ranges.len() + 1) as usize),
                                },
                            ),
                        },
                    ),
                    Err(message) => Err(message),
                }
            } else {
                Ok(
                    TermPlans {
                        ranges: first,
                        terms: plans.terms.push(
                            TermDataPlan {
                                ordinal: term.ordinal,
                                info: term.info,
                                postings: plans.ranges.len() as usize,
                                positions: None,
                            },
                        ),
                    },
                )
            }
        },
        Err(message) => Err(message),
    }
}

/// The plan for the terms of a group, behind the ranges that are planned already,
/// or why one of them cannot be read.
pub open spec fn term_plans(
    ranges: Seq<ByteRange>,
    terms: Seq<SearchIndexTermSlice>,
    directory: SearchIndexGroupDirectory,
    allow_positions: bool,
) -> Result<TermPlans, Seq<char>>
    decreases terms.len(),
{
    if terms.len() == 0 {
        Ok(TermPlans { ranges, terms: Seq::empty() })
    } else {
        match term_plans(ranges, terms.drop_last(), directory, allow_positions) {
            Ok(plans) => with_term(plans, terms.last(), directory, allow_positions),
            Err(message) => Err(message),
        }
    }
}

proof fn lemma_term_plans_prefix(
    ranges: Seq<ByteRange>,
    terms: Seq<SearchIndexTermSlice>,
    directory: SearchIndexGroupDirectory,
    allow_positions: bool,
    n: int,
)
    requires
        0 <= n <= terms.len(),
        term_plans(ranges, terms.take(n), directory, allow_positions) is Err,
    ensures
        term_plans(ranges, terms, directory, allow_positions) == term_plans(
            ranges,
            terms.take(n),
            directory,
            allow_positions,
        ),
    decreases terms.len(),
{
    if n == terms.len() {
        assert(terms.take(n) =~= terms);
    } else {
        assert(terms.drop_last().take(n) =~= terms.take(n));
        lemma_term_plans_prefix(ranges, terms.drop_last(), directory, allow_positions, n);
    }
}

/// Plans to read the terms of a group, behind the ranges that are planned already.
pub fn plan_group_terms(
    terms: &Vec<SearchIndexTermSlice>,
    directory: &SearchIndexGroupDirectory,
    allow_positions: bool,
    ranges: &mut Vec<ByteRange>,
) -> (r: Result<Vec<TermDataPlan>, String>)
    ensures
        match r {
            Ok(plans) => term_plans(old(ranges)@, terms@, *directory, allow_positions) == Ok::<
                _,
                Seq<char>,
            >(TermPlans { ranges: final(ranges)@, terms: plans@ }),
            Err(message) => term_plans(old(ranges)@, terms@, *directory, allow_positions)
                == Err::<TermPlans, _>(message@),
        },
{
    let ghost planned = ranges@;
    let mut plans: Vec<TermDataPlan> = Vec::new();
    let mut i: usize = 0;
    assert(terms@.take(0) =~= Seq::<SearchIndexTermSlice>::empty());
    while i < terms.len()
        invariant
            i <= terms.len(),
            planned == old(ranges)@,
            term_plans(planned, terms@.take(i as int), *directory, allow_positions) == Ok::<
                _,
                Seq<char>,
            >(TermPlans { ranges: ranges@, terms: plans@ }),
        decreases terms.len() - i,
    {
        let ghost now = terms@.take(i + 1);
        assert(now.drop_last() =~= terms@.take(i as int));
        assert(now.last() == terms@[i as int]);
        let term = terms[i];
        let postings: usize = ranges.len();
        match subrange(directory.postings, term.info.postings_offset, term.info.postings_len) {
            Ok(range) => {
                ranges.push(range.as_range());
            },
            Err(message) => {
                proof {
                    lemma_term_plans_prefix(planned, terms@, *directory, allow_positions, i + 1);
                }
                return Err(message);
            },
        }
        let positions: Option<usize> = if allow_positions && term.include_positions
            && term.info.positions_len > 0 {
            let index: usize = ranges.len();
            match subrange(
                directory.positions,
                term.info.positions_offset,
                term.info.positions_len,
            ) {
                Ok(range) => {
                    ranges.push(range.as_range());
                },
                Err(message) => {
                    proof {
                        lemma_term_plans_prefix(
                            planned,
                            terms@,
                            *directory,
                            allow_positions,
                            i + 1,
                        );
                    }
                    return Err(message);
                },
            }
            Some(index)
        } else {
            None
        };
        plans.push(
            TermDataPlan { ordinal: term.ordinal, info: term.info, postings, positions },
        );
        i += 1;
    }
    assert(terms@.take(i as int) =~= terms@);
    Ok(plans)
}

/// The terms of a group that a search needs.
#[derive(Debug, PartialEq, Eq)]
pub struct SearchIndexGroupTermSlices {
    pub group_index: usize,
    pub fst_bytes: Vec<u8>,
    pub term_info_count: u32,
    pub terms: Vec<SearchIndexTermSlice>,
}

/// Which of the ranges that are read hold the terms of a group.
#[derive(Debug, PartialEq, Eq)]
pub struct TermDataGroupPlan {
    pub group_index: usize,
    pub fst_bytes: Vec<u8>,
    pub term_info_count: u32,
    pub terms: Vec<TermDataPlan>,
}

/// What a [`TermDataGroupPlan`] holds.
pub struct GroupPlan {
    pub group_index: usize,
    pub fst_bytes: Seq<u8>,
    pub term_info_count: u32,
    pub terms: Seq<TermDataPlan>,
}

impl View for TermDataGroupPlan {
    type V = GroupPlan;

    open spec fn view(&self) -> GroupPlan {
        GroupPlan {
            group_index: self.group_index,
            fst_bytes: self.fst_bytes@,
            term_info_count: self.term_info_count,
            terms: self.terms@,
        }
    }
}

pub open spec fn group_plans_of(plans: Seq<TermDataGroupPlan>) -> Seq<GroupPlan> {
    plans.map_values(|plan: TermDataGroupPlan| plan@)
}

/// What is planned to be read for several groups.
pub struct GroupPlans {
    pub ranges: Seq<ByteRange>,
    pub groups: Seq<GroupPlan>,
}

/// The plan for the terms of several groups, behind the ranges that are planned
/// already, or why one of them cannot be read.
pub open spec fn group_plans(
    ranges: Seq<ByteRange>,
    groups: Seq<SearchIndexGroupTermSlices>,
    directories: Seq<SearchIndexGroupDirectory>,
    allow_positions: bool,
) -> Result<GroupPlans, Seq<char>>
    decreases groups.len(),
{
    if groups.len() == 0 {
        Ok(GroupPlans { ranges, groups: Seq::empty() })
    } else {
        let group = groups.last();
        match group_plans(ranges, groups.drop_last(), directories, allow_positions) {
            Ok(plans) => if group.group_index >= directories.len() {
                Err("term data plan group out of bounds"@)
            } else {
                match term_plans(
                    plans.ranges,
                    group.terms@,
                    directories[group.group_index as int],
                    allow_positions,
                ) {
                    Ok(own) => Ok(
                        GroupPlans {
                            ranges: own.ranges,
                            groups: plans.groups.push(
                                GroupPlan {
                                    group_index: group.group_index,
                                    fst_bytes: group.fst_bytes@,
                                    term_info_count: group.term_info_count,
                                    terms: own.terms,
                                },
                            ),
                        },
                    ),
                    Err(message) => Err(message),
                }
            },
            Err(message) => Err(message),
        }
    }
}

proof fn lemma_group_plans_prefix(
    ranges: Seq<ByteRange>,
    groups: Seq<SearchIndexGroupTermSlices>,
    directories: Seq<SearchIndexGroupDirectory>,
    allow_positions: bool,
    n: int,
)
    requires
        0 <= n <= groups.len(),
        group_plans(ranges, groups.take(n), directories, allow_positions) is Err,
    ensures
        group_plans(ranges, groups, directories, allow_positions) == group_plans(
            ranges,
            groups.take(n),
            directories,
            allow_positions,
        ),
    decreases groups.len(),
{
    if n == groups.len() {
        assert(groups.take(n) =~= groups);
    } else {
        assert(groups.drop_last().take(n) =~= groups.take(n));
        lemma_group_plans_prefix(ranges, groups.drop_last(), directories, allow_positions, n);
    }
}

fn copy_bytes(bytes: &Vec<u8>) -> (r: Vec<u8>)
    ensures
        r@ == bytes@,
{
    let mut out: Vec<u8> = Vec::new();
    append_bytes(&mut out, bytes);
    assert(out@ =~= bytes@);
    out
}

fn append_bytes(out: &mut Vec<u8>, bytes: &Vec<u8>)
    ensures
        final(out)@ == old(out)@ + bytes@,
{
    let ghost before = out@;
    let mut i: usize = 0;
    while i < bytes.len()
        invariant
            i <= bytes.len(),
            out@ =~= before + bytes@.take(i as int),
        decreases bytes.len() - i,
    {
        out.push(bytes[i]);
        i += 1;
    }
    assert(bytes@.take(i as int) =~= bytes@);
}

/// Plans to read the terms of groups, behind the ranges that are planned already.
/// Positions are left out unless they are allowed.
pub fn plan_term_data_ranges(
    groups: &Vec<SearchIndexGroupTermSlices>,
    directories: &Vec<SearchIndexGroupDirectory>,
    allow_positions: bool,
    ranges: &mut Vec<ByteRange>,
) -> (r: Result<Vec<TermDataGroupPlan>, String>)
    ensures
        match r {
            Ok(plans) => group_plans(old(ranges)@, groups@, directories@, allow_positions)
                == Ok::<_, Seq<char>>(
                GroupPlans { ranges: final(ranges)@, groups: group_plans_of(plans@) },
            ),
            Err(message) => group_plans(old(ranges)@, groups@, directories@, allow_positions)
                == Err::<GroupPlans, _>(message@),
        },
{
    let ghost planned = ranges@;
    let mut plans: Vec<TermDataGroupPlan> = Vec::new();
    let mut i: usize = 0;
    assert(groups@.take(0) =~= Seq::<SearchIndexGroupTermSlices>::empty());
    assert(group_plans_of(plans@) =~= Seq::<GroupPlan>::empty());
    while i < groups.len()
        invariant
            i <= groups.len(),
            planned == old(ranges)@,
            group_plans(planned, groups@.take(i as int), directories@, allow_positions) == Ok::<
                _,
                Seq<char>,
            >(GroupPlans { ranges: ranges@, groups: group_plans_of(plans@) }),
        decreases groups.len() - i,
    {
        let ghost now = groups@.take(i + 1);
        assert(now.drop_last() =~= groups@.take(i as int));
        assert(now.last() == groups@[i as int]);
        let group = &groups[i];
        if group.group_index >= directories.len() {
            proof {
                lemma_group_plans_prefix(planned, groups@, directories@, allow_positions, i + 1);
            }
            return Err("term data plan group out of bounds".to_owned());
        }
        let directory = &directories[group.group_index];
        match plan_group_terms(&group.terms, directory, allow_positions, ranges) {
            Ok(terms) => {
                let plan = TermDataGroupPlan {
                    group_index: group.group_index,
                    fst_bytes: copy_bytes(&group.fst_bytes),
                    term_info_count: group.term_info_count,
                    terms,
                };
                let ghost before = plans@;
                plans.push(plan);
                assert(group_plans_of(plans@) =~= group_plans_of(before).push(plan@));
            },
            Err(message) => {
                proof {
                    lemma_group_plans_prefix(
                        planned,
                        groups@,
                        directories@,
                        allow_positions,
                        i + 1,
                    );
                }
                return Err(message);
            },
        }
        i += 1;
    }
    assert(groups@.take(i as int) =~= groups@);
    Ok(plans)
}

/// The terms of a group with only what a search needs: what is said of each term,
/// with its place among the postings and positions that were read.
#[derive(Debug, PartialEq, Eq)]
pub struct TermDataGroup {
    pub infos: Vec<SearchIndexTermInfo>,
    pub postings: Vec<u8>,
    pub positions: Vec<u8>,
}

/// What a [`TermDataGroup`] holds.
pub struct GroupData {
    pub infos: Seq<SearchIndexTermInfo>,
    pub postings: Seq<u8>,
    pub positions: Seq<u8>,
}

impl View for TermDataGroup {
    type V = GroupData;

    open spec fn view(&self) -> GroupData {
        GroupData { infos: self.infos@, postings: self.postings@, positions: self.positions@ }
    }
}

/// What is said of a term that no search needs.
pub open spec fn no_info() -> SearchIndexTermInfo {
    SearchIndexTermInfo {
        doc_count: 0,
        postings_offset: 0,
        postings_len: 0,
        positions_offset: 0,
        positions_len: 0,
    }
}

/// The data of a group with one more term, or why there is none.
pub open spec fn with_term_data(data: GroupData, term: TermDataPlan, chunks: Seq<Vec<u8>>) -> Result<
    GroupData,
    Seq<char>,
> {
    if data.postings.len() > u32::MAX {
        Err("local postings offset does not fit in u32"@)
    } else if term.postings >= chunks.len() {
        Err("missing postings chunk for selected term"@)
    } else if data.positions.len() > u32::MAX {
        Err("local positions offset does not fit in u32"@)
    } else if term.positions is Some && term.positions->0 >= chunks.len() {
        Err("missing positions chunk for selected term"@)
    } else {
        let postings = chunks[term.postings as int]@;
        let positions = match term.positions {
            Some(index) => chunks[index as int]@,
            None => Seq::empty(),
        };
        if positions.len() > u32::MAX {
            Err("local positions len does not fit in u32"@)
        } else if term.ordinal < data.infos.len() && postings.len() > u32::MAX {
            Err("local postings len does not fit in u32"@)
        } else {
            Ok(
                GroupData {
                    infos: if term.ordinal < data.infos.len() {
                        data.infos.update(
                            term.ordinal as int,
                            SearchIndexTermInfo {
                                doc_count: term.info.doc_count,
                                postings_offset: data.postings.len() as u32,
                                postings_len: postings.len() as u32,
                                positions_offset: data.positions.len() as u32,
                                positions_len: positions.len() as u32,
                            },
                        )
                    } else {
                        data.infos
                    },
                    postings: data.postings + postings,
                    positions: data.positions + positions,
                },
            )
        }
    }
}

/// The data of a group, from what was read for its terms.
pub open spec fn group_data(count: nat, terms: Seq<TermDataPlan>, chunks: Seq<Vec<u8>>) -> Result<
    GroupData,
    Seq<char>,
>
    decreases terms.len(),
{
    if terms.len() == 0 {
        Ok(
            GroupData {
                infos: Seq::new(count, |i: int| no_info()),
                postings: Seq::empty(),
                positions: Seq::empty(),
            },
        )
    } else {
        match group_data(count, terms.drop_last(), chunks) {
            Ok(data) => with_term_data(data, terms.last(), chunks),
            Err(message) => Err(message),
        }
    }
}

proof fn lemma_group_data_prefix(
    count: nat,
    terms: Seq<TermDataPlan>,
    chunks: Seq<Vec<u8>>,
    n: int,
)
    requires
        0 <= n <= terms.len(),
        group_data(count, terms.take(n), chunks) is Err,
    ensures
        group_data(count, terms, chunks) == group_data(count, terms.take(n), chunks),
    decreases terms.len(),
{
    if n == terms.len() {
        assert(terms.take(n) =~= terms);
    } else {
        assert(terms.drop_last().take(n) =~= terms.take(n));
        lemma_group_data_prefix(count, terms.drop_last(), chunks, n);
    }
}

fn add_term_data(data: &mut TermDataGroup, term: &TermDataPlan, chunks: &Vec<Vec<u8>>) -> (r:
    Result<(), String>)
    ensures
        match r {
            Ok(_) => with_term_data(old(data)@, *term, chunks@) == Ok::<_, Seq<char>>(
                final(data)@,
            ),
            Err(message) => with_term_data(old(data)@, *term, chunks@) == Err::<GroupData, _>(
                message@,
            ),
        },
{
    let postings_offset: usize = data.postings.len();
    if postings_offset > u32::MAX as usize {
        return Err("local postings offset does not fit in u32".to_owned());
    }
    if term.postings >= chunks.len() {
        return Err("missing postings chunk for selected term".to_owned());
    }
    let positions_offset: usize = data.positions.len();
    if positions_offset > u32::MAX as usize {
        return Err("local positions offset does not fit in u32".to_owned());
    }
    let positions_len: usize = match term.positions {
        Some(index) => {
            if index >= chunks.len() {
                return Err("missing positions chunk for selected term".to_owned());
            }
            chunks[index].len()
        },
        None => 0,
    };
    if positions_len > u32::MAX as usize {
        return Err("local positions len does not fit in u32".to_owned());
    }
    let postings_len: usize = chunks[term.postings].len();
    if term.ordinal < data.infos.len() {
        if postings_len > u32::MAX as usize {
            return Err("local postings len does not fit in u32".to_owned());
        }
        data.infos.set(
            term.ordinal,
            SearchIndexTermInfo {
                doc_count: term.info.doc_count,
                postings_offset: postings_offset as u32,
                postings_len: postings_len as u32,
                positions_offset: positions_offset as u32,
                positions_len: positions_len as u32,
            },
        );
    }
    append_bytes(&mut data.postings, &chunks[term.postings]);
    match term.positions {
        Some(index) => {
            append_bytes(&mut data.positions, &chunks[index]);
        },
        None => {
            assert(data.positions@ + Seq::<u8>::empty() =~= data.positions@);
        },
    }
    Ok(())
}

/// The data of a group, from what was read for its terms.
pub fn materialize_term_data(plan: &TermDataGroupPlan, chunks: &Vec<Vec<u8>>) -> (r: Result<
    TermDataGroup,
    String,
>)
    ensures
        match r {
            Ok(data) => group_data(plan.term_info_count as nat, plan.terms@, chunks@) == Ok::<
                _,
                Seq<char>,
            >(data@),
            Err(message) => group_data(plan.term_info_count as nat, plan.terms@, chunks@)
                == Err::<GroupData, _>(message@),
        },
{
    let ghost count = plan.term_info_count as nat;
    let mut infos: Vec<SearchIndexTermInfo> = Vec::new();
    let mut n: u32 = 0;
    while n < plan.term_info_count
        invariant
            n <= plan.term_info_count,
            infos@ =~= Seq::new(n as nat, |i: int| no_info()),
        decreases plan.term_info_count - n,
    {
        infos.push(
            SearchIndexTermInfo {
                doc_count: 0,
                postings_offset: 0,
                postings_len: 0,
                positions_offset: 0,
                positions_len: 0,
            },
        );
        n += 1;
    }
    let mut data = TermDataGroup { infos, postings: Vec::new(), positions: Vec::new() };
    let mut i: usize = 0;
    assert(plan.terms@.take(0) =~= Seq::<TermDataPlan>::empty());
    assert(data@.postings =~= Seq::<u8>::empty());
    assert(data@.positions =~= Seq::<u8>::empty());
    while i < plan.terms.len()
        invariant
            i <= plan.terms.len(),
            count == plan.term_info_count as nat,
            group_data(count, plan.terms@.take(i as int), chunks@) == Ok::<_, Seq<char>>(data@),
        decreases plan.terms.len() - i,
    {
        assert(plan.terms@.take(i + 1).drop_last() =~= plan.terms@.take(i as int));
        assert(plan.terms@.take(i + 1).last() == plan.terms@[i as int]);
        match add_term_data(&mut data, &plan.terms[i], chunks) {
            Ok(_) => {},
            Err(message) => {
                proof {
                    lemma_group_data_prefix(count, plan.terms@, chunks@, i + 1);
                }
                return Err(message);
            },
        }
        i += 1;
    }
    assert(plan.terms@.take(i as int) =~= plan.terms@);
    Ok(data)
}

/// Why the search index of a segment cannot be asked.
pub open spec fn index_fault(segment: SegmentSource, supported: i64) -> Option<Seq<char>> {
    if segment.search_index_uri is None {
        Some(
            "query rejected: segment "@ + segment.uri@
                + " is missing its Phase 6 search index; unsafe payload scan disabled"@,
        )
    } else if segment.search_index_schema_version != supported {
        Some(
            "query rejected: segment "@ + segment.uri@
                + " has unsupported search index schema version "@ + int_text(
                segment.search_index_schema_version as int,
            ),
        )
    } else {
        None
    }
}

/// The search index of a segment, if it has one of the version that can be read.
pub fn search_index_of(segment: &SegmentSource, supported_version: i64) -> (r: Result<
    String,
    String,
>)
    ensures
        match r {
            Ok(uri) => index_fault(*segment, supported_version) is None && segment.search_index_uri
                == Some(uri),
            Err(message) => index_fault(*segment, supported_version) == Some(message@),
        },
{
    match &segment.search_index_uri {
        Some(uri) => if segment.search_index_schema_version != supported_version {
            let mut message = "query rejected: segment ".to_owned();
            message.append(segment.uri.as_str());
            message.append(" has unsupported search index schema version ");
            message.append(integer_text(segment.search_index_schema_version).as_str());
            Err(message)
        } else {
            Ok(uri.clone())
        },
        None => {
            let mut message = "query rejected: segment ".to_owned();
            message.append(segment.uri.as_str());
            message.append(" is missing its Phase 6 search index; unsafe payload scan disabled");
            Err(message)
        },
    }
}

/// Where the directory of a search index is: right behind its header, unless it
/// is empty.
pub fn directory_range(header_len: u64, directory_len: u32) -> (r: Option<ByteRange>)
    ensures
        match r {
            Some(range) => {
                &&& directory_len > 0
                &&& range.start == header_len
                &&& range.end == if header_len + directory_len > u64::MAX {
                    u64::MAX as int
                } else {
                    header_len + directory_len
                }
            },
            None => directory_len == 0,
        },
{
    if directory_len == 0 {
        None
    } else {
        Some(
            ByteRange { start: header_len, end: header_len.saturating_add(directory_len as u64) },
        )
    }
}

/// Whether a candidate row is one of those that a search found.
pub open spec fn is_match(row: SegmentCandidateRow, matching: Seq<u32>) -> bool {
    0 <= row.row_index <= u32::MAX && matching.contains(row.row_index as u32)
}

/// The candidate rows that a search found, in order.
pub open spec fn matching_rows(rows: Seq<SegmentCandidateRow>, matching: Seq<u32>) -> Seq<
    SegmentCandidateRow,
> {
    rows.filter(|row: SegmentCandidateRow| is_match(row, matching))
}

fn has_row(matching: &Vec<u32>, row: u32) -> (r: bool)
    ensures
        r == matching@.contains(row),
{
    let mut i: usize = 0;
    while i < matching.len()
        invariant
            i <= matching.len(),
            forall|j: int| 0 <= j < i ==> #[trigger] matching@[j] != row,
        decreases matching.len() - i,
    {
        if matching[i] == row {
            return true;
        }
        i += 1;
    }
    false
}

/// The candidate rows that a search found, in order.
pub fn filter_candidate_rows(rows: &Vec<SegmentCandidateRow>, matching: &Vec<u32>) -> (r: Vec<
    SegmentCandidateRow,
>)
    ensures
        r@ == matching_rows(rows@, matching@),
{
    let ghost kept = |row: SegmentCandidateRow| is_match(row, matching@);
    let mut out: Vec<SegmentCandidateRow> = Vec::new();
    let mut i: usize = 0;
    proof {
        reveal(Seq::filter);
    }
    assert(rows@.take(0).filter(kept) =~= Seq::<SegmentCandidateRow>::empty());
    while i < rows.len()
        invariant
            i <= rows.len(),
            kept == (|row: SegmentCandidateRow| is_match(row, matching@)),
            out@ == rows@.take(i as int).filter(kept),
        decreases rows.len() - i,
    {
        proof {
            reveal(Seq::filter);
        }
        assert(rows@.take(i + 1).drop_last() =~= rows@.take(i as int));
        let index: i64 = rows[i].row_index;
        if 0 <= index && index <= u32::MAX as i64 && has_row(matching, index as u32) {
            out.push(rows[i].clone());
        }
        i += 1;
    }
    assert(rows@.take(i as int) =~= rows@);
    out
}

/// The numbers of the segments in which a search found candidate rows.
pub open spec fn found_in(segments: Seq<SegmentSource>, matching: Seq<Vec<u32>>) -> Seq<int>
    decreases segments.len(),
{
    if segments.len() == 0 {
        Seq::empty()
    } else {
        let n = segments.len() - 1;
        let before = found_in(segments.drop_last(), matching);
        if matching_rows(segments[n].candidate_rows@, matching[n]@).len() > 0 {
            before.push(n)
        } else {
            before
        }
    }
}

/// Whether a segment is left of another by a search that found `matching` in it.
pub open spec fn is_narrowed(left: SegmentSource, segment: SegmentSource, matching: Seq<u32>) -> bool {
    &&& left.uri == segment.uri
    &&& left.total_bytes == segment.total_bytes
    &&& left.schema_version == segment.schema_version
    &&& left.search_index_uri == segment.search_index_uri
    &&& left.search_index_bytes == segment.search_index_bytes
    &&& left.search_index_schema_version == segment.search_index_schema_version
    &&& left.candidate_rows@ == matching_rows(segment.candidate_rows@, matching)
}

/// Whether these segments are what a search leaves of others.
pub open spec fn are_narrowed(
    left: Seq<SegmentSource>,
    segments: Seq<SegmentSource>,
    matching: Seq<Vec<u32>>,
) -> bool {
    let found = found_in(segments, matching);
    &&& left.len() == found.len()
    &&& forall|i: int|
        0 <= i < left.len() ==> is_narrowed(
            #[trigger] left[i],
            segments[found[i]],
            matching[found[i]]@,
        )
}

/// The bytes of the segments in which a search found something, with their search
/// indexes.
pub open spec fn found_bytes(segments: Seq<SegmentSource>, matching: Seq<Vec<u32>>) -> int
    decreases segments.len(),
{
    if segments.len() == 0 {
        0
    } else {
        let n = segments.len() - 1;
        found_bytes(segments.drop_last(), matching) + if matching_rows(
            segments[n].candidate_rows@,
            matching[n]@,
        ).len() > 0 {
            segments[n].total_bytes + segments[n].search_index_bytes
        } else {
            0
        }
    }
}

/// Whether the bytes of segments, with their search indexes, are in the range of
/// an `i64`, each and as they are added up.
pub open spec fn found_bytes_fit(segments: Seq<SegmentSource>, matching: Seq<Vec<u32>>) -> bool {
    forall|n: int|
        0 <= n < segments.len() ==> {
            &&& i64::MIN <= (#[trigger] segments[n]).total_bytes + segments[n].search_index_bytes
                <= i64::MAX
            &&& i64::MIN <= found_bytes(segments.take(n + 1), matching) <= i64::MAX
        }
}

/// How many requests the read of segments with their search indexes is taken to
/// need.
pub open spec fn estimated_requests_with_index(segments: int) -> usize {
    let index = if segments * 4 > usize::MAX {
        usize::MAX as int
    } else {
        segments * 4
    };
    let total = estimated_requests(segments) + index;
    if total > usize::MAX {
        usize::MAX
    } else {
        total as usize
    }
}

fn estimate_requests_with_index(segments: usize) -> (r: usize)
    ensures
        r == estimated_requests_with_index(segments as int),
{
    let index: usize = match segments.checked_mul(SEARCH_INDEX_REQUESTS_PER_SEGMENT) {
        Some(n) => n,
        None => usize::MAX,
    };
    estimate_vortex_object_store_requests(segments).saturating_add(index)
}

/// Why a plan is refused after a search: it has more candidates than the query
/// lets it.
pub open spec fn candidate_runs_fault(limits: RunQueryLimits, runs: int) -> Option<Seq<char>> {
    match limits.max_candidate_runs {
        Some(limit) => if runs > limit {
            Some(
                "query rejected: candidate runs "@ + nat_text(runs as nat) + " exceed limit "@
                    + nat_text(limit as nat),
            )
        } else {
            None
        },
        None => None,
    }
}

/// What a search leaves of a plan, when it found `matching` in its segments.
pub fn narrow_plan(
    segments: &Vec<SegmentSource>,
    matching: &Vec<Vec<u32>>,
    limits: &RunQueryLimits,
) -> (r: Result<RunQueryPlan, String>)
    requires
        matching@.len() == segments@.len(),
        found_bytes_fit(segments@, matching@),
    ensures
        match r {
            Ok(plan) => {
                &&& are_narrowed(plan.segments@, segments@, matching@)
                &&& keys_of(plan.candidate_run_keys@) == ordered_set(
                    row_keys(all_rows(plan.segments@)),
                    key_order(),
                )
                &&& plan.candidate_runs == plan.candidate_run_keys@.len()
                &&& candidate_runs_fault(*limits, plan.candidate_runs as int) is None
                &&& plan.candidate_bytes == found_bytes(segments@, matching@)
                &&& plan.estimated_object_store_requests == estimated_requests_with_index(
                    plan.segments@.len() as int,
                )
            },
            Err(message) => exists|left: Seq<SegmentSource>|
                #![trigger all_rows(left)]
                are_narrowed(left, segments@, matching@) && candidate_runs_fault(
                    *limits,
                    ordered_set(row_keys(all_rows(left)), key_order()).len() as int,
                ) == Some(message@),
        },
{
    let mut left: Vec<SegmentSource> = Vec::new();
    let mut bytes: i64 = 0;
    let mut i: usize = 0;
    assert(segments@.take(0) =~= Seq::<SegmentSource>::empty());
    while i < segments.len()
        invariant
            i <= segments.len(),
            matching@.len() == segments@.len(),
            found_bytes_fit(segments@, matching@),
            are_narrowed(left@, segments@.take(i as int), matching@),
            forall|k: int|
                0 <= k < found_in(segments@.take(i as int), matching@).len() ==> 0 <= (
                #[trigger] found_in(segments@.take(i as int), matching@)[k]) < i,
            bytes == found_bytes(segments@.take(i as int), matching@),
        decreases segments.len() - i,
    {
        let ghost done = segments@.take(i as int);
        let ghost now = segments@.take(i + 1);
        let ghost found = found_in(done, matching@);
        assert(now.drop_last() =~= done);
        assert(now[i as int] == segments@[i as int]);
        assert(i64::MIN <= found_bytes(now, matching@) <= i64::MAX);
        let segment = &segments[i];
        let rows = filter_candidate_rows(&segment.candidate_rows, &matching[i]);
        let ghost before = left@;
        if rows.len() > 0 {
            assert(i64::MIN <= segments@[i as int].total_bytes
                + segments@[i as int].search_index_bytes <= i64::MAX);
            let own: i64 = segment.total_bytes + segment.search_index_bytes;
            bytes = bytes + own;
            left.push(
                SegmentSource {
                    uri: segment.uri.clone(),
                    total_bytes: segment.total_bytes,
                    schema_version: segment.schema_version,
                    search_index_uri: copy_option(&segment.search_index_uri),
                    search_index_bytes: segment.search_index_bytes,
                    search_index_schema_version: segment.search_index_schema_version,
                    candidate_rows: rows,
                },
            );
            assert(found_in(now, matching@) == found.push(i as int));
        }
        assert forall|k: int| 0 <= k < left@.len() implies is_narrowed(
            #[trigger] left@[k],
            now[found_in(now, matching@)[k]],
            matching@[found_in(now, matching@)[k]]@,
        ) by {
            if k < before.len() {
                assert(left@[k] == before[k]);
                assert(is_narrowed(before[k], done[found[k]], matching@[found[k]]@));
                assert(now[found[k]] == done[found[k]]);
            }
        }
        i += 1;
    }
    assert(segments@.take(i as int) =~= segments@);
    let keys = partition_run_keys(&left);
    assert(keys_of(keys@).len() == keys@.len());
    let candidate_runs = keys.len();
    if let Some(limit) = limits.max_candidate_runs {
        if candidate_runs > limit {
            let message = rejection(
                "query rejected: candidate runs ",
                unsigned_text(candidate_runs as u128).as_str(),
                unsigned_text(limit as u128).as_str(),
            );
            return Err(message);
        }
    }
    let estimated = estimate_requests_with_index(left.len());
    Ok(
        RunQueryPlan {
            segments: left,
            candidate_run_keys: keys,
            candidate_runs,
            candidate_bytes: bytes,
            estimated_object_store_requests: estimated,
        },
    )
}

/// A part of a range lies in it, where it is asked for and as long as is asked; it is refused
/// just if it does not, or if its end cannot be said.
pub proof fn law_part_lies_in_its_range(base: SearchIndexRange, offset: u32, len: u32)
    ensures
        part_of(base, offset, len) is Ok <==> base.fits() && offset + len <= base.len,
        part_of(base, offset, len) matches Ok(part) ==> {
            &&& part.offset - base.offset == offset
            &&& part.len == len
            &&& part.fits()
            &&& within(part.bytes(), base.bytes())
        },
{
}

/// A row is left just if it is one that matches.
pub proof fn law_matching_rows_are_left(
    rows: Seq<SegmentCandidateRow>,
    matching: Seq<u32>,
    row: SegmentCandidateRow,
)
    ensures
        matching_rows(rows, matching).contains(row) <==> rows.contains(row) && exists|i: int|
            0 <= i < matching.len() && #[trigger] matching[i] == row.row_index,
{
    lemma_filter_members(rows, |one: SegmentCandidateRow| is_match(one, matching), row);
    if exists|i: int| 0 <= i < matching.len() && #[trigger] matching[i] == row.row_index {
        let i = choose|i: int| 0 <= i < matching.len() && #[trigger] matching[i] == row.row_index;
        assert(matching.contains(matching[i]));
    }
    if is_match(row, matching) {
        let i = choose|i: int| 0 <= i < matching.len() && matching[i] == row.row_index as u32;
        assert(matching[i] == row.row_index);
    }
}

/// A segment is read just if one of its rows matches; the others are not.
pub proof fn law_segments_with_a_match_are_left(
    segments: Seq<SegmentSource>,
    matching: Seq<Vec<u32>>,
    n: int,
)
    ensures
        found_in(segments, matching).contains(n) <==> 0 <= n < segments.len() && exists|k: int|
            0 <= k < segments[n].candidate_rows@.len() && is_match(
                #[trigger] segments[n].candidate_rows@[k],
                matching[n]@,
            ),
    decreases segments.len(),
{
    if segments.len() > 0 {
        let last = segments.len() - 1;
        let before = segments.drop_last();
        let rest = found_in(before, matching);
        let all = found_in(segments, matching);
        law_segments_with_a_match_are_left(before, matching, n);
        let rows = segments[last].candidate_rows@;
        let kept = matching_rows(rows, matching[last]@);
        let keeps = |one: SegmentCandidateRow| is_match(one, matching[last]@);
        if kept.len() > 0 {
            lemma_filter_members(rows, keeps, kept[0]);
            assert(kept.contains(kept[0]));
            let k = choose|k: int| 0 <= k < rows.len() && rows[k] == kept[0];
            assert(is_match(rows[k], matching[last]@));
            assert(all[rest.len() as int] == last);
        }
        if exists|k: int| 0 <= k < rows.len() && is_match(#[trigger] rows[k], matching[last]@) {
            let k = choose|k: int| 0 <= k < rows.len() && is_match(#[trigger] rows[k], matching[last]@);
            lemma_filter_members(rows, keeps, rows[k]);
            assert(rows.contains(rows[k]));
            assert(kept.contains(rows[k]));
        }
        if all.contains(n) {
            let i = choose|i: int| 0 <= i < all.len() && all[i] == n;
            if i < rest.len() {
                assert(rest[i] == n);
                assert(rest.contains(n));
                assert(before[n] == segments[n]);
            }
        }
        if rest.contains(n) {
            let i = choose|i: int| 0 <= i < rest.len() && rest[i] == n;
            assert(all[i] == n);
        }
        if 0 <= n < before.len() {
            assert(before[n] == segments[n]);
        }
    }
}

/// A segment with an index takes 52 requests: one more takes 52 more, as long as the number can
/// be said.
pub proof fn law_requests_with_index_go_by_segment(segments: int)
    requires
        0 <= segments,
        (segments + 1) * 52 <= usize::MAX,
    ensures
        estimated_requests_with_index(0) == 0,
        estimated_requests_with_index(segments + 1) == estimated_requests_with_index(segments) + 52,
{
}

/// A query is refused just if it finds more runs than it may.
pub proof fn law_found_runs_stay_in_limits(limits: RunQueryLimits, runs: int)
    ensures
        candidate_runs_fault(limits, runs) is None <==> (limits.max_candidate_runs matches Some(
            most,
        ) ==> runs <= most),
{
}

/// Whether the ranges that are read for a term hold its postings and, where they are wanted and
/// there are any, its positions.
pub open spec fn reads_term(
    plan: TermDataPlan,
    term: SearchIndexTermSlice,
    directory: SearchIndexGroupDirectory,
    allow_positions: bool,
    ranges: Seq<ByteRange>,
) -> bool {
    &&& plan.ordinal == term.ordinal
    &&& plan.info == term.info
    &&& plan.postings < ranges.len()
    &&& ranges[plan.postings as int].start == directory.postings.offset + term.info.postings_offset
    &&& ranges[plan.postings as int].end - ranges[plan.postings as int].start
        == term.info.postings_len
    &&& plan.positions is Some <==> allow_positions && term.include_positions
        && term.info.positions_len > 0
    &&& plan.positions matches Some(at) ==> {
        &&& at < ranges.len()
        &&& ranges[at as int].start == directory.positions.offset + term.info.positions_offset
        &&& ranges[at as int].end - ranges[at as int].start == term.info.positions_len
    }
}

/// What is read for the terms of a group is, for each of them, where its directory says that its
/// postings and positions are.
pub proof fn law_terms_are_read(
    ranges: Seq<ByteRange>,
    terms: Seq<SearchIndexTermSlice>,
    directory: SearchIndexGroupDirectory,
    allow_positions: bool,
    k: int,
)
    requires
        term_plans(ranges, terms, directory, allow_positions) is Ok,
        term_plans(ranges, terms, directory, allow_positions)->Ok_0.ranges.len() <= usize::MAX,
        0 <= k < terms.len(),
    ensures
        ({
            let plans = term_plans(ranges, terms, directory, allow_positions)->Ok_0;
            &&& plans.terms.len() == terms.len()
            &&& ranges.len() <= plans.ranges.len()
            &&& plans.ranges.take(ranges.len() as int) == ranges
            &&& reads_term(plans.terms[k], terms[k], directory, allow_positions, plans.ranges)
        }),
    decreases terms.len(),
{
    let before = terms.drop_last();
    let plans = term_plans(ranges, terms, directory, allow_positions)->Ok_0;
    let earlier = term_plans(ranges, before, directory, allow_positions)->Ok_0;
    let last = terms.last();
    law_part_lies_in_its_range(
        directory.postings,
        last.info.postings_offset,
        last.info.postings_len,
    );
    law_part_lies_in_its_range(
        directory.positions,
        last.info.positions_offset,
        last.info.positions_len,
    );
    assert(earlier.ranges.len() < plans.ranges.len());
    if before.len() == 0 {
        assert(plans.ranges.take(ranges.len() as int) =~= ranges);
        assert(plans.terms[0].postings == ranges.len());
    } else {
        let j = if k < before.len() {
            k
        } else {
            0
        };
        law_terms_are_read(ranges, before, directory, allow_positions, j);
        assert(plans.ranges.take(ranges.len() as int) =~= earlier.ranges.take(
            ranges.len() as int,
        ));
        if k < before.len() {
            assert(before[k] == terms[k]);
            assert(plans.terms[k] == earlier.terms[k]);
            let at = earlier.terms[k].postings as int;
            assert(plans.ranges[at] == earlier.ranges[at]);
            if earlier.terms[k].positions is Some {
                let to = earlier.terms[k].positions->0 as int;
                assert(plans.ranges[to] == earlier.ranges[to]);
            }
        }
    }
}

/// Whether the entry of a term says where its bytes are among those of its group.
pub open spec fn finds_term(data: GroupData, term: TermDataPlan, chunks: Seq<Vec<u8>>) -> bool {
    let info = data.infos[term.ordinal as int];
    &&& info.doc_count == term.info.doc_count
    &&& info.postings_offset + info.postings_len <= data.postings.len()
    &&& data.postings.subrange(
        info.postings_offset as int,
        info.postings_offset + info.postings_len,
    ) == chunks[term.postings as int]@
    &&& info.positions_offset + info.positions_len <= data.positions.len()
    &&& data.positions.subrange(
        info.positions_offset as int,
        info.positions_offset + info.positions_len,
    ) == (match term.positions {
        Some(at) => chunks[at as int]@,
        None => Seq::empty(),
    })
}

/// The bytes of a term are found where the entry of the term says, among those of all terms of
/// its group.
pub proof fn law_terms_are_found(
    count: nat,
    terms: Seq<TermDataPlan>,
    chunks: Seq<Vec<u8>>,
    k: int,
)
    requires
        group_data(count, terms, chunks) is Ok,
        0 <= k < terms.len(),
        terms[k].ordinal < count,
        forall|j: int| k < j < terms.len() ==> (#[trigger] terms[j]).ordinal != terms[k].ordinal,
    ensures
        group_data(count, terms, chunks)->Ok_0.infos.len() == count,
        finds_term(group_data(count, terms, chunks)->Ok_0, terms[k], chunks),
    decreases terms.len(),
{
    let before = terms.drop_last();
    let last = terms.last();
    let data = group_data(count, terms, chunks)->Ok_0;
    let earlier = group_data(count, before, chunks)->Ok_0;
    lemma_infos(count, terms, chunks);
    lemma_infos(count, before, chunks);
    let postings = chunks[last.postings as int]@;
    let positions = match last.positions {
        Some(at) => chunks[at as int]@,
        None => Seq::empty(),
    };
    assert(data.postings == earlier.postings + postings);
    assert(data.positions == earlier.positions + positions);
    if k < before.len() {
        assert(before[k] == terms[k]);
        assert forall|j: int| k < j < before.len() implies (#[trigger] before[j]).ordinal
            != before[k].ordinal by {
            assert(before[j] == terms[j]);
        }
        law_terms_are_found(count, before, chunks, k);
        assert(terms[terms.len() - 1].ordinal != terms[k].ordinal);
        let info = data.infos[terms[k].ordinal as int];
        assert(info == earlier.infos[terms[k].ordinal as int]);
        assert(data.postings.subrange(
            info.postings_offset as int,
            info.postings_offset + info.postings_len,
        ) =~= earlier.postings.subrange(
            info.postings_offset as int,
            info.postings_offset + info.postings_len,
        ));
        assert(data.positions.subrange(
            info.positions_offset as int,
            info.positions_offset + info.positions_len,
        ) =~= earlier.positions.subrange(
            info.positions_offset as int,
            info.positions_offset + info.positions_len,
        ));
    } else {
        let info = data.infos[last.ordinal as int];
        assert(data.postings.subrange(
            info.postings_offset as int,
            info.postings_offset + info.postings_len,
        ) =~= postings);
        assert(data.positions.subrange(
            info.positions_offset as int,
            info.positions_offset + info.positions_len,
        ) =~= positions);
    }
}

proof fn lemma_infos(count: nat, terms: Seq<TermDataPlan>, chunks: Seq<Vec<u8>>)
    requires
        group_data(count, terms, chunks) is Ok,
    ensures
        group_data(count, terms, chunks)->Ok_0.infos.len() == count,
    decreases terms.len(),
{
    if terms.len() > 0 {
        lemma_infos(count, terms.drop_last(), chunks);
    }
}

} // verus!
