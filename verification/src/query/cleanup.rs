//! Removal of objects that nothing refers to any more.

use crate::query::deletion::count_yes;
use crate::query::deletion::yes_count;
use crate::query::planner::bytes_fit;
use crate::query::planner::sum_of;
use crate::sorting::law_sort_keeps_elements;
use crate::sorting::lemma_sort_members;
use crate::sorting::sort_by;
use crate::sorting::stable_sort;
use crate::sql::integer_list;
use crate::sql::joined_integers;
use crate::statement::Call;
use crate::statement::Statement;
use crate::statement::call;
use crate::text::copy_option;
use crate::text::is_less;
use crate::text::no_texts;
use crate::text::opt_text;
use crate::text::push_some;
use crate::text::push_text;
use crate::text::text_less;
use crate::text::texts;
use crate::text::with;
use crate::time::Duration;
use crate::time::clamped;
use crate::time::saturating_sum;
use vstd::hash_set::StringHashSet;
use vstd::prelude::*;
use vstd::string::StringExecFns;

verus! {

/// How many segments one clean-up takes.
pub const MAX_CLEANUP_CANDIDATES: i64 = 1000;

/// How many objects a search for orphans looks at.
pub const MAX_ORPHAN_OBJECTS_SCANNED: usize = 100_000;

/// How many references a search for orphans looks at, of each sort.
pub const MAX_ORPHAN_REFERENCES: i64 = 100_000;

pub const CLEANUP_CANDIDATES_SQL: &'static str = "SELECT id, uri, total_bytes, search_index_uri, search_index_bytes
                FROM trace_segments
                WHERE compacted_at IS NOT NULL
                    AND object_deleted_at_unix_nano IS NULL
                    AND COALESCE(compacted_at_unix_nano, 0) <= $1
                ORDER BY id
                LIMIT $2";

pub const REFERENCED_SEGMENTS_SQL: &'static str = "SELECT uri
                FROM trace_segments
                WHERE object_deleted_at_unix_nano IS NULL
                LIMIT $1";

pub const REFERENCED_SEARCH_INDEXES_SQL: &'static str = "SELECT search_index_uri
                FROM trace_segments
                WHERE search_index_uri IS NOT NULL
                    AND object_deleted_at_unix_nano IS NULL
                LIMIT $1";

/// A compacted segment whose objects can go.
#[derive(Debug, PartialEq, Eq)]
pub struct ObjectCleanupCandidate {
    pub trace_segment_id: i64,
    pub segment_uri: String,
    pub segment_bytes: i64,
    pub search_index_uri: Option<String>,
    pub search_index_bytes: i64,
}

/// What a clean-up of compacted segments did.
#[derive(Debug, PartialEq, Eq)]
pub struct ObjectCleanupReceipt {
    pub dry_run: bool,
    pub candidates: Vec<ObjectCleanupCandidate>,
    pub reclaimable_bytes: i64,
    pub deleted_objects: usize,
}

/// An object that nothing refers to.
#[derive(Debug, PartialEq, Eq)]
pub struct OrphanObjectCandidate {
    pub uri: String,
    pub bytes: u64,
}

/// What a clean-up of orphans did.
#[derive(Debug, PartialEq, Eq)]
pub struct OrphanObjectCleanupReceipt {
    pub dry_run: bool,
    pub candidates: Vec<OrphanObjectCandidate>,
    pub reclaimable_bytes: u64,
    pub deleted_objects: usize,
}

/// Up to when a segment must have been compacted for its objects to go, or why
/// there is no such time.
pub open spec fn cleanup_cutoff(now: i64, grace: Duration) -> Result<i64, Seq<char>> {
    if grace.nanos > i64::MAX {
        Err("cleanup grace period does not fit in i64 nanos"@)
    } else if now - grace.nanos < i64::MIN {
        Err("cleanup cutoff underflow"@)
    } else {
        Ok((now - grace.nanos) as i64)
    }
}

/// The statement for the segments whose objects can go.
pub open spec fn cleanup_candidates_call(cutoff: i64) -> Call {
    call("load compacted object cleanup candidates"@, CLEANUP_CANDIDATES_SQL@).integer(
        cutoff as int,
    ).integer(MAX_CLEANUP_CANDIDATES as int)
}

/// The statement for the segments whose objects can go.
pub fn cleanup_candidates_statement(now_unix_nano: i64, grace_period: Duration) -> (r: Result<
    Statement,
    String,
>)
    ensures
        match r {
            Ok(statement) => cleanup_cutoff(now_unix_nano, grace_period) is Ok && statement@
                == cleanup_candidates_call(cleanup_cutoff(now_unix_nano, grace_period)->Ok_0),
            Err(message) => cleanup_cutoff(now_unix_nano, grace_period) == Err::<i64, _>(message@),
        },
{
    if grace_period.nanos > i64::MAX as u128 {
        return Err("cleanup grace period does not fit in i64 nanos".to_owned());
    }
    let grace: i64 = grace_period.nanos as i64;
    match now_unix_nano.checked_sub(grace) {
        Some(cutoff) => Ok(
            Statement::new(
                "load compacted object cleanup candidates",
                CLEANUP_CANDIDATES_SQL,
            ).integer(cutoff).integer(MAX_CLEANUP_CANDIDATES),
        ),
        None => Err("cleanup cutoff underflow".to_owned()),
    }
}

/// The bytes of the objects of a segment, within the range of an `i64`.
pub open spec fn candidate_size(candidate: ObjectCleanupCandidate) -> i64 {
    clamped(candidate.segment_bytes + candidate.search_index_bytes)
}

pub open spec fn candidate_sizes(candidates: Seq<ObjectCleanupCandidate>) -> Seq<i64> {
    candidates.map_values(|candidate: ObjectCleanupCandidate| candidate_size(candidate))
}

/// The bytes of the objects of a segment, within the range of an `i64`.
pub fn candidate_bytes(candidate: &ObjectCleanupCandidate) -> (r: i64)
    ensures
        r == candidate_size(*candidate),
{
    saturating_sum(candidate.segment_bytes, candidate.search_index_bytes)
}

/// The objects of a segment.
pub open spec fn objects_of(candidate: ObjectCleanupCandidate) -> Seq<Seq<char>> {
    with(seq![candidate.segment_uri@], opt_text(candidate.search_index_uri))
}

/// The objects of segments, in order.
pub open spec fn objects_of_all(candidates: Seq<ObjectCleanupCandidate>) -> Seq<Seq<char>>
    decreases candidates.len(),
{
    if candidates.len() == 0 {
        Seq::empty()
    } else {
        objects_of_all(candidates.drop_last()) + objects_of(candidates.last())
    }
}

/// The objects that a clean-up deletes: none, if it is a dry run.
pub fn objects_to_delete(candidates: &Vec<ObjectCleanupCandidate>, dry_run: bool) -> (r: Vec<
    String,
>)
    ensures
        texts(r@) == if dry_run {
            Seq::<Seq<char>>::empty()
        } else {
            objects_of_all(candidates@)
        },
{
    let mut out = no_texts();
    if dry_run {
        return out;
    }
    let mut i: usize = 0;
    assert(candidates@.take(0) =~= Seq::<ObjectCleanupCandidate>::empty());
    while i < candidates.len()
        invariant
            i <= candidates.len(),
            texts(out@) == objects_of_all(candidates@.take(i as int)),
        decreases candidates.len() - i,
    {
        assert(candidates@.take(i + 1).drop_last() =~= candidates@.take(i as int));
        let ghost before = texts(out@);
        let candidate = &candidates[i];
        push_text(&mut out, candidate.segment_uri.clone());
        push_some(&mut out, copy_option(&candidate.search_index_uri));
        assert(texts(out@) =~= before + objects_of(*candidate));
        i += 1;
    }
    assert(candidates@.take(i as int) =~= candidates@);
    out
}

pub open spec fn candidate_ids(candidates: Seq<ObjectCleanupCandidate>) -> Seq<i64> {
    candidates.map_values(|candidate: ObjectCleanupCandidate| candidate.trace_segment_id)
}

/// The statement that marks the objects of segments deleted.
pub open spec fn mark_cleaned_call(candidates: Seq<ObjectCleanupCandidate>, deleted_at: i64) -> Call {
    call(
        "mark compacted objects cleaned"@,
        "UPDATE trace_segments\n                    SET object_deleted_at_unix_nano = $1\n                    WHERE id IN ("@
            + integer_list(candidate_ids(candidates), ", "@) + ")"@,
    ).integer(deleted_at as int)
}

/// The statement that marks the objects of segments deleted: none, if nothing was
/// deleted.
pub fn mark_cleaned_statement(
    candidates: &Vec<ObjectCleanupCandidate>,
    dry_run: bool,
    deleted_at_unix_nano: i64,
) -> (r: Option<Statement>)
    ensures
        match r {
            Some(statement) => !dry_run && candidates@.len() > 0 && statement@
                == mark_cleaned_call(candidates@, deleted_at_unix_nano),
            None => dry_run || candidates@.len() == 0,
        },
{
    if dry_run || candidates.len() == 0 {
        return None;
    }
    let mut ids: Vec<i64> = Vec::new();
    let mut i: usize = 0;
    while i < candidates.len()
        invariant
            i <= candidates.len(),
            ids@ =~= candidate_ids(candidates@).take(i as int),
        decreases candidates.len() - i,
    {
        ids.push(candidates[i].trace_segment_id);
        i += 1;
    }
    assert(ids@ =~= candidate_ids(candidates@));
    let mut sql =
        "UPDATE trace_segments\n                    SET object_deleted_at_unix_nano = $1\n                    WHERE id IN (".to_owned();
    sql.append(joined_integers(&ids, ", ").as_str());
    sql.append(")");
    Some(
        Statement::new("mark compacted objects cleaned", sql.as_str()).integer(
            deleted_at_unix_nano,
        ),
    )
}

/// What a clean-up of compacted segments did, when `deleted` says of each object
/// whether it was there to delete.
pub fn cleanup_receipt(
    dry_run: bool,
    candidates: Vec<ObjectCleanupCandidate>,
    deleted: &Vec<bool>,
) -> (r: ObjectCleanupReceipt)
    requires
        bytes_fit(candidate_sizes(candidates@)),
    ensures
        r.dry_run == dry_run,
        r.candidates@ == candidates@,
        r.reclaimable_bytes == sum_of(candidate_sizes(candidates@)),
        r.deleted_objects == yes_count(deleted@),
{
    let ghost sizes = candidate_sizes(candidates@);
    let mut bytes: i64 = 0;
    let mut i: usize = 0;
    assert(sizes.take(0) =~= Seq::<i64>::empty());
    while i < candidates.len()
        invariant
            i <= candidates.len(),
            sizes == candidate_sizes(candidates@),
            bytes_fit(sizes),
            bytes == sum_of(sizes.take(i as int)),
        decreases candidates.len() - i,
    {
        assert(sizes.take(i + 1).drop_last() =~= sizes.take(i as int));
        assert(i64::MIN <= sum_of(sizes.take(i + 1)) <= i64::MAX);
        bytes = bytes + candidate_bytes(&candidates[i]);
        i += 1;
    }
    assert(sizes.take(i as int) =~= sizes);
    let deleted_objects = count_yes(deleted);
    ObjectCleanupReceipt { dry_run, candidates, reclaimable_bytes: bytes, deleted_objects }
}

/// The statements for all objects that something refers to.
pub fn referenced_objects_statements() -> (r: (Statement, Statement))
    ensures
        r.0@ == call("load referenced segment uris"@, REFERENCED_SEGMENTS_SQL@).integer(
            MAX_ORPHAN_REFERENCES + 1,
        ),
        r.1@ == call("load referenced search index uris"@, REFERENCED_SEARCH_INDEXES_SQL@).integer(
            MAX_ORPHAN_REFERENCES + 1,
        ),
{
    (
        Statement::new("load referenced segment uris", REFERENCED_SEGMENTS_SQL).integer(
            MAX_ORPHAN_REFERENCES + 1,
        ),
        Statement::new("load referenced search index uris", REFERENCED_SEARCH_INDEXES_SQL).integer(
            MAX_ORPHAN_REFERENCES + 1,
        ),
    )
}

pub open spec fn objects_size(objects: Seq<OrphanObjectCandidate>) -> int
    decreases objects.len(),
{
    if objects.len() == 0 {
        0
    } else {
        objects_size(objects.drop_last()) + objects.last().bytes
    }
}

/// The order of objects: by uri.
pub open spec fn object_order() -> spec_fn(OrphanObjectCandidate, OrphanObjectCandidate) -> bool {
    |a: OrphanObjectCandidate, b: OrphanObjectCandidate| text_less(a.uri@, b.uri@)
}

fn is_object_less(a: &OrphanObjectCandidate, b: &OrphanObjectCandidate) -> (r: bool)
    ensures
        r == text_less(a.uri@, b.uri@),
{
    is_less(a.uri.as_str(), b.uri.as_str())
}

/// Whether something refers to the object.
pub open spec fn is_referenced(
    object: OrphanObjectCandidate,
    segments: Seq<Seq<char>>,
    search_indexes: Seq<Seq<char>>,
) -> bool {
    segments.contains(object.uri@) || search_indexes.contains(object.uri@)
}

/// The objects that nothing refers to, by uri.
pub open spec fn orphans(
    objects: Seq<OrphanObjectCandidate>,
    segments: Seq<Seq<char>>,
    search_indexes: Seq<Seq<char>>,
) -> Seq<OrphanObjectCandidate> {
    stable_sort(
        objects.filter(
            |object: OrphanObjectCandidate| !is_referenced(object, segments, search_indexes),
        ),
        object_order(),
    )
}

/// Why a search for orphans is refused.
pub open spec fn orphan_search_fault(objects: int, segments: int, search_indexes: int) -> Option<
    Seq<char>,
> {
    if segments > MAX_ORPHAN_REFERENCES || search_indexes > MAX_ORPHAN_REFERENCES {
        Some("orphan cleanup rejected: metadata reference count exceeds 100000"@)
    } else if objects > MAX_ORPHAN_OBJECTS_SCANNED {
        Some("orphan cleanup rejected: object count exceeds 100000"@)
    } else {
        None
    }
}

fn set_of(texts_list: &Vec<String>, set: &mut StringHashSet)
    ensures
        forall|text: Seq<char>| #[trigger]
            final(set)@.contains(text) <==> old(set)@.contains(text) || texts(
                texts_list@,
            ).contains(text),
{
    let ghost all = texts(texts_list@);
    let mut i: usize = 0;
    while i < texts_list.len()
        invariant
            i <= texts_list.len(),
            all == texts(texts_list@),
            forall|text: Seq<char>| #[trigger]
                set@.contains(text) <==> old(set)@.contains(text) || exists|j: int|
                    0 <= j < i && #[trigger] all[j] == text,
        decreases texts_list.len() - i,
    {
        assert(all[i as int] == texts_list@[i as int]@);
        set.insert(texts_list[i].clone());
        i += 1;
    }
}

/// The objects that nothing refers to, by uri.
pub fn orphan_candidates(
    objects: Vec<OrphanObjectCandidate>,
    segment_uris: &Vec<String>,
    search_index_uris: &Vec<String>,
) -> (r: Result<Vec<OrphanObjectCandidate>, String>)
    ensures
        ({
            let fault = orphan_search_fault(
                objects@.len() as int,
                segment_uris@.len() as int,
                search_index_uris@.len() as int,
            );
            match r {
                Ok(found) => fault is None && found@ == orphans(
                    objects@,
                    texts(segment_uris@),
                    texts(search_index_uris@),
                ),
                Err(message) => fault == Some(message@),
            }
        }),
{
    if segment_uris.len() > MAX_ORPHAN_REFERENCES as usize || search_index_uris.len()
        > MAX_ORPHAN_REFERENCES as usize {
        return Err("orphan cleanup rejected: metadata reference count exceeds 100000".to_owned());
    }
    if objects.len() > MAX_ORPHAN_OBJECTS_SCANNED {
        return Err("orphan cleanup rejected: object count exceeds 100000".to_owned());
    }
    let mut referenced = StringHashSet::new();
    set_of(segment_uris, &mut referenced);
    set_of(search_index_uris, &mut referenced);
    let ghost segments = texts(segment_uris@);
    let ghost indexes = texts(search_index_uris@);
    let ghost kept = |object: OrphanObjectCandidate| !is_referenced(object, segments, indexes);
    let mut found: Vec<OrphanObjectCandidate> = Vec::new();
    let mut i: usize = 0;
    proof {
        reveal(Seq::filter);
    }
    assert(objects@.take(0).filter(kept) =~= Seq::<OrphanObjectCandidate>::empty());
    while i < objects.len()
        invariant
            i <= objects.len(),
            kept == (|object: OrphanObjectCandidate| !is_referenced(object, segments, indexes)),
            forall|text: Seq<char>| #[trigger]
                referenced@.contains(text) <==> segments.contains(text) || indexes.contains(text),
            found@ == objects@.take(i as int).filter(kept),
        decreases objects.len() - i,
    {
        proof {
            reveal(Seq::filter);
        }
        assert(objects@.take(i + 1).drop_last() =~= objects@.take(i as int));
        if !referenced.contains(objects[i].uri.as_str()) {
            found.push(
                OrphanObjectCandidate { uri: objects[i].uri.clone(), bytes: objects[i].bytes },
            );
        }
        i += 1;
    }
    assert(objects@.take(i as int) =~= objects@);
    Ok(sort_by(found, is_object_less, Ghost(object_order())))
}

/// What a clean-up of orphans did, when `deleted` says of each object whether it
/// was there to delete.
pub fn orphan_cleanup_receipt(
    dry_run: bool,
    candidates: Vec<OrphanObjectCandidate>,
    deleted: &Vec<bool>,
) -> (r: OrphanObjectCleanupReceipt)
    requires
        objects_size(candidates@) <= u64::MAX,
    ensures
        r.dry_run == dry_run,
        r.candidates@ == candidates@,
        r.reclaimable_bytes == objects_size(candidates@),
        r.deleted_objects == yes_count(deleted@),
{
    let mut bytes: u64 = 0;
    let mut i: usize = 0;
    assert(candidates@.take(0) =~= Seq::<OrphanObjectCandidate>::empty());
    while i < candidates.len()
        invariant
            i <= candidates.len(),
            objects_size(candidates@) <= u64::MAX,
            bytes == objects_size(candidates@.take(i as int)),
        decreases candidates.len() - i,
    {
        assert(candidates@.take(i + 1).drop_last() =~= candidates@.take(i as int));
        proof {
            lemma_prefix_size(candidates@, i + 1);
        }
        bytes = bytes + candidates[i].bytes;
        i += 1;
    }
    assert(candidates@.take(i as int) =~= candidates@);
    let deleted_objects = count_yes(deleted);
    OrphanObjectCleanupReceipt { dry_run, candidates, reclaimable_bytes: bytes, deleted_objects }
}

proof fn lemma_prefix_size(objects: Seq<OrphanObjectCandidate>, n: int)
    requires
        0 <= n <= objects.len(),
    ensures
        objects_size(objects.take(n)) <= objects_size(objects),
    decreases objects.len(),
{
    if n == objects.len() {
        assert(objects.take(n) =~= objects);
    } else {
        lemma_prefix_size(objects.drop_last(), n);
        assert(objects.drop_last().take(n) =~= objects.take(n));
    }
}

/// A clean-up of orphans never takes an object that a segment or a search index
/// refers to.
pub proof fn law_orphans_are_unreferenced(
    objects: Seq<OrphanObjectCandidate>,
    segments: Seq<Seq<char>>,
    search_indexes: Seq<Seq<char>>,
)
    ensures
        forall|object: OrphanObjectCandidate| #[trigger]
            orphans(objects, segments, search_indexes).contains(object) <==> objects.contains(
                object,
            ) && !is_referenced(object, segments, search_indexes),
{
    broadcast use vstd::seq_lib::group_filter_ensures;

    let kept = |object: OrphanObjectCandidate| !is_referenced(object, segments, search_indexes);
    let some = objects.filter(kept);
    let out = orphans(objects, segments, search_indexes);
    lemma_sort_members(some, object_order());
    law_sort_keeps_elements(some, object_order());
    assert forall|object: OrphanObjectCandidate| #[trigger] out.contains(object) <==> objects.contains(
        object,
    ) && !is_referenced(object, segments, search_indexes) by {
        if out.contains(object) {
            let i = out.index_of(object);
            assert(some.contains(out[i]));
        }
        if some.contains(object) {
            let i = some.index_of(object);
            assert(out.contains(some[i]));
        }
        if some.contains(object) {
            objects.lemma_filter_contains_rev(kept, object);
        }
    }
}

/// A compacted segment can be cleaned up just if it was compacted at least a grace period ago.
pub proof fn law_cleanup_waits_for_the_grace_period(now: i64, grace: Duration, compacted_at: i64)
    requires
        cleanup_cutoff(now, grace) is Ok,
    ensures
        compacted_at <= cleanup_cutoff(now, grace)->Ok_0 <==> now - compacted_at >= grace.nanos,
{
}

/// What is deleted of candidates is their segments, and their search indexes, where they have
/// one, and nothing else.
pub proof fn law_objects_of_candidates(candidates: Seq<ObjectCleanupCandidate>, uri: Seq<char>)
    ensures
        objects_of_all(candidates).contains(uri) <==> exists|i: int|
            0 <= i < candidates.len() && ((#[trigger] candidates[i]).segment_uri@ == uri
                || opt_text(candidates[i].search_index_uri) == Some(uri)),
    decreases candidates.len(),
{
    if candidates.len() > 0 {
        let before = candidates.drop_last();
        let last = candidates.last();
        law_objects_of_candidates(before, uri);
        let rest = objects_of_all(before);
        let more = objects_of(last);
        let all = objects_of_all(candidates);
        assert(more[0] == last.segment_uri@);
        if all.contains(uri) {
            let n = choose|n: int| 0 <= n < all.len() && all[n] == uri;
            if n < rest.len() {
                assert(rest[n] == uri);
                assert(rest.contains(uri));
                let i = choose|i: int|
                    0 <= i < before.len() && ((#[trigger] before[i]).segment_uri@ == uri
                        || opt_text(before[i].search_index_uri) == Some(uri));
                assert(candidates[i] == before[i]);
            } else {
                assert(more[n - rest.len()] == uri);
                assert(candidates[candidates.len() - 1] == last);
            }
        }
        if exists|i: int|
            0 <= i < candidates.len() && ((#[trigger] candidates[i]).segment_uri@ == uri
                || opt_text(candidates[i].search_index_uri) == Some(uri)) {
            let i = choose|i: int|
                0 <= i < candidates.len() && ((#[trigger] candidates[i]).segment_uri@ == uri
                    || opt_text(candidates[i].search_index_uri) == Some(uri));
            if i < before.len() {
                assert(before[i] == candidates[i]);
                assert(rest.contains(uri));
                let n = choose|n: int| 0 <= n < rest.len() && rest[n] == uri;
                assert(all[n] == uri);
            } else if last.segment_uri@ == uri {
                assert(all[rest.len() as int] == uri);
            } else {
                assert(more[1] == uri);
                assert(all[rest.len() as int + 1] == uri);
            }
        }
    }
}

/// A candidate takes up what its segment and its search index do together.
pub proof fn law_candidate_takes_up_both(candidate: ObjectCleanupCandidate)
    requires
        i64::MIN <= candidate.segment_bytes + candidate.search_index_bytes <= i64::MAX,
    ensures
        candidate_size(candidate) - candidate.segment_bytes == candidate.search_index_bytes,
{
}

/// An object is an orphan just if it is neither a segment nor a search index that is known. The
/// search is given up just if there is more than it may look at.
pub proof fn law_orphans_are_unknown(
    objects: Seq<OrphanObjectCandidate>,
    segments: Seq<Seq<char>>,
    search_indexes: Seq<Seq<char>>,
    object: OrphanObjectCandidate,
)
    ensures
        orphans(objects, segments, search_indexes).contains(object) <==> objects.contains(object)
            && !segments.contains(object.uri@) && !search_indexes.contains(object.uri@),
        orphan_search_fault(
            objects.len() as int,
            segments.len() as int,
            search_indexes.len() as int,
        ) is None <==> objects.len() <= 100_000 && segments.len() <= 100_000
            && search_indexes.len() <= 100_000,
{
    law_orphans_are_unreferenced(objects, segments, search_indexes);
}

} // verus!
