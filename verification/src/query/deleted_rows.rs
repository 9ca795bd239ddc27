//! What the statements of a deletion leave in the rows of a run.

use crate::query::deleting::DeletionReply;
use crate::query::deleting::DeletionStep;
use crate::query::deleting::deletion_of;
use crate::query::deletion::ADVANCE_RUN_HEAD_SQL;
use crate::query::deletion::DeletedHead;
use crate::query::deletion::INSERT_TOMBSTONE_SQL;
use crate::query::deletion::MARK_RUN_HEAD_DELETED_SQL;
use crate::query::deletion::RunDeletion;
use crate::query::deletion::UPSERT_RUN_DELETION_SQL;
use crate::query::deletion::WRITE_DELETE_VECTORS_SQL;
use crate::query::deletion::yes_count;
use crate::record::RunEventKind;
use crate::statement::Call;
use vstd::prelude::*;

verus! {

/// An event of a run.
pub struct EventRow {
    pub kind: Seq<char>,
    pub time: int,
}

/// What the head of a run says of its deletion and of its last event.
pub struct HeadRow {
    pub deleted_at: Option<int>,
    pub last_kind: Seq<char>,
    pub last_time: int,
    pub last_event: int,
}

/// The rows of one run that a deletion reads or writes.
#[verifier::ext_equal]
pub struct RunRows {
    pub project: Seq<char>,
    pub trace: Seq<char>,
    pub span: Seq<char>,
    pub head: Option<HeadRow>,
    /// By the ids of the events.
    pub events: Map<int, EventRow>,
    /// When the run was deleted, by the table of deletions.
    pub deletion: Option<int>,
    /// The segments that hold the span.
    pub segments: Set<int>,
    /// When the span was deleted, by the segment.
    pub delete_vectors: Map<int, int>,
}

/// A parameter that is a text.
pub open spec fn text_in(call: Call, at: int) -> Seq<char> {
    call.params[at]->Text_0
}

/// A parameter that is an integer.
pub open spec fn integer_in(call: Call, at: int) -> int {
    call.params[at]->Integer_0
}

/// Whether a statement is the one with this purpose and this text.
pub open spec fn is_call(call: Call, purpose: Seq<char>, sql: Seq<char>) -> bool {
    call.purpose == purpose && call.sql == sql
}

impl RunRows {
    /// Whether a statement is about the run, which it names from a parameter on.
    pub open spec fn named_by(self, call: Call, project: int, trace: int, span: int) -> bool {
        &&& text_in(call, project) == self.project
        &&& text_in(call, trace) == self.trace
        &&& text_in(call, span) == self.span
    }

    /// Whether there is a head to mark: one that is not deleted.
    pub open spec fn can_be_marked(self) -> bool {
        self.head matches Some(head) && head.deleted_at is None
    }

    pub open spec fn with_head(self, head: HeadRow) -> RunRows {
        RunRows { head: Some(head), ..self }
    }

    /// What is left of the rows by the statement that marks a head: it is deleted, if
    /// it is there and was not.
    pub open spec fn marked(self, call: Call) -> RunRows {
        if self.named_by(call, 0, 1, 2) && self.can_be_marked() {
            self.with_head(
                HeadRow { deleted_at: Some(integer_in(call, 3)), ..self.head->0 },
            )
        } else {
            self
        }
    }

    /// What is left of the rows by the statement that adds the tombstone event, which
    /// has an id: the event is there. One that was there, of the same time, is the same.
    pub open spec fn with_tombstone(self, call: Call, id: int) -> RunRows {
        if self.named_by(call, 1, 3, 4) {
            RunRows {
                events: self.events.insert(
                    id,
                    EventRow { kind: text_in(call, 5), time: integer_in(call, 6) },
                ),
                ..self
            }
        } else {
            self
        }
    }

    /// What is left of the rows by the statement for the table of deletions.
    pub open spec fn with_deletion(self, call: Call) -> RunRows {
        if self.named_by(call, 0, 1, 2) {
            RunRows { deletion: Some(integer_in(call, 3)), ..self }
        } else {
            self
        }
    }

    /// What is left of the rows by the statement for delete vectors: one for each
    /// segment that holds the span.
    pub open spec fn with_vectors(self, call: Call) -> RunRows {
        if self.named_by(call, 0, 1, 2) {
            RunRows {
                delete_vectors: Map::new(
                    |segment: int|
                        self.segments.contains(segment) || self.delete_vectors.contains_key(segment),
                    |segment: int|
                        if self.segments.contains(segment) {
                            integer_in(call, 3)
                        } else {
                            self.delete_vectors[segment]
                        },
                ),
                ..self
            }
        } else {
            self
        }
    }

    /// What is left of the rows by the statement that tells the head of its last event.
    pub open spec fn advanced(self, call: Call) -> RunRows {
        if self.named_by(call, 0, 1, 2) && self.head is Some {
            self.with_head(
                HeadRow {
                    last_kind: text_in(call, 3),
                    last_time: integer_in(call, 4),
                    last_event: integer_in(call, 5),
                    ..self.head->0
                },
            )
        } else {
            self
        }
    }

    /// What a statement leaves of the rows, with the id that it was answered. The
    /// statements of a deletion that are not named here write no row of these.
    pub open spec fn executed(self, call: Call, id: int) -> RunRows {
        if is_call(call, "mark run head deleted"@, MARK_RUN_HEAD_DELETED_SQL@) {
            self.marked(call)
        } else if is_call(call, "insert tombstone run event"@, INSERT_TOMBSTONE_SQL@) {
            self.with_tombstone(call, id)
        } else if is_call(call, "upsert run deletion"@, UPSERT_RUN_DELETION_SQL@) {
            self.with_deletion(call)
        } else if is_call(call, "write trace segment delete vectors"@, WRITE_DELETE_VECTORS_SQL@) {
            self.with_vectors(call)
        } else if is_call(call, "advance deleted run head tombstone"@, ADVANCE_RUN_HEAD_SQL@) {
            self.advanced(call)
        } else {
            self
        }
    }

    pub open spec fn executed_all(self, calls: Seq<Call>, id: int) -> RunRows
        decreases calls.len(),
    {
        if calls.len() == 0 {
            self
        } else {
            self.executed_all(calls.drop_last(), id).executed(calls.last(), id)
        }
    }

    /// What a step of a deletion leaves of the rows, with the id that the tombstone
    /// event has.
    pub open spec fn stepped(self, step: DeletionStep, id: int) -> RunRows {
        match step {
            DeletionStep::Execute(call) => self.executed(call, id),
            DeletionStep::ExecuteAll(calls) => self.executed_all(calls, id),
            DeletionStep::QueryHead(call) => self.executed(call, id),
            DeletionStep::QueryId(call) => self.executed(call, id),
            DeletionStep::QueryTimes(call) => self.executed(call, id),
            DeletionStep::Refresh(_) => self,
            DeletionStep::Finished(_) => self,
        }
    }

    /// Whether the run is deleted as of a time, with an event as its tombstone.
    pub open spec fn is_deleted(self, time: int, event: int) -> bool {
        let tombstone = RunEventKind::Tombstone.word();
        &&& self.head == Some(
            HeadRow {
                deleted_at: Some(time),
                last_kind: tombstone,
                last_time: time,
                last_event: event,
            },
        )
        &&& self.events.contains_key(event)
        &&& self.events[event] == EventRow { kind: tombstone, time }
        &&& self.deletion == Some(time)
        &&& forall|segment: int|
            self.segments.contains(segment) ==> #[trigger] self.delete_vectors.contains_key(
                segment,
            ) && self.delete_vectors[segment] == time
    }
}

/// The rows of the run that a deletion is about.
pub open spec fn rows_of(rows: RunRows, run: RunDeletion) -> bool {
    &&& rows.project == run.project_name@
    &&& rows.trace == run.trace_id@
    &&& rows.span == run.span_id@
}

proof fn lemma_purposes()
    ensures
        "lock project"@ != "mark run head deleted"@,
        "lock project"@ != "insert tombstone run event"@,
        "lock project"@ != "upsert run deletion"@,
        "lock project"@ != "write trace segment delete vectors"@,
        "lock project"@ != "advance deleted run head tombstone"@,
        "insert tombstone run event"@ != "mark run head deleted"@,
        "upsert run deletion"@ != "mark run head deleted"@,
        "upsert run deletion"@ != "insert tombstone run event"@,
        "write trace segment delete vectors"@ != "mark run head deleted"@,
        "write trace segment delete vectors"@ != "insert tombstone run event"@,
        "write trace segment delete vectors"@ != "upsert run deletion"@,
        "advance deleted run head tombstone"@ != "mark run head deleted"@,
        "advance deleted run head tombstone"@ != "insert tombstone run event"@,
        "advance deleted run head tombstone"@ != "upsert run deletion"@,
        "advance deleted run head tombstone"@ != "write trace segment delete vectors"@,
        "advance deleted run locator tombstone"@ != "mark run head deleted"@,
        "advance deleted run locator tombstone"@ != "insert tombstone run event"@,
        "advance deleted run locator tombstone"@ != "upsert run deletion"@,
        "advance deleted run locator tombstone"@ != "write trace segment delete vectors"@,
        "advance deleted run locator tombstone"@ != "advance deleted run head tombstone"@,
        "advance deleted trace locator tombstone"@ != "mark run head deleted"@,
        "advance deleted trace locator tombstone"@ != "insert tombstone run event"@,
        "advance deleted trace locator tombstone"@ != "upsert run deletion"@,
        "advance deleted trace locator tombstone"@ != "write trace segment delete vectors"@,
        "advance deleted trace locator tombstone"@ != "advance deleted run head tombstone"@,
{
    reveal_strlit("lock project");
    reveal_strlit("mark run head deleted");
    reveal_strlit("insert tombstone run event");
    reveal_strlit("upsert run deletion");
    reveal_strlit("write trace segment delete vectors");
    reveal_strlit("advance deleted run head tombstone");
    reveal_strlit("advance deleted run locator tombstone");
    reveal_strlit("advance deleted trace locator tombstone");
    assert("lock project"@.len() == 12);
    assert("mark run head deleted"@.len() == 21);
    assert("insert tombstone run event"@.len() == 26);
    assert("upsert run deletion"@.len() == 19);
    assert("write trace segment delete vectors"@.len() == 34);
    assert("advance deleted run head tombstone"@.len() == 34);
    assert("advance deleted run locator tombstone"@.len() == 37);
    assert("advance deleted trace locator tombstone"@.len() == 39);
    assert("write trace segment delete vectors"@[0] == 'w');
    assert("advance deleted run head tombstone"@[0] == 'a');
}

/// What the follow-up statements leave of the rows.
proof fn lemma_followed_up(rows: RunRows, run: RunDeletion, event_id: i64)
    ensures
        rows.executed_all(run.follow_up_calls(event_id), event_id as int) == rows.with_deletion(
            run.dated("upsert run deletion"@, UPSERT_RUN_DELETION_SQL@),
        ).with_vectors(
            run.dated("write trace segment delete vectors"@, WRITE_DELETE_VECTORS_SQL@),
        ).advanced(
            run.advance("advance deleted run head tombstone"@, ADVANCE_RUN_HEAD_SQL@, event_id),
        ),
{
    lemma_purposes();
    let calls = run.follow_up_calls(event_id);
    let id = event_id as int;
    assert(calls.drop_last() =~= calls.take(4));
    assert(calls.take(4).drop_last() =~= calls.take(3));
    assert(calls.take(3).drop_last() =~= calls.take(2));
    assert(calls.take(2).drop_last() =~= calls.take(1));
    assert(calls.take(1).drop_last() =~= calls.take(0));
    assert(rows.executed_all(calls.take(0), id) == rows);
    assert(rows.executed_all(calls.take(1), id) == rows.executed(calls[0], id));
    assert(rows.executed_all(calls.take(2), id) == rows.executed_all(
        calls.take(1),
        id,
    ).executed(calls[1], id));
    assert(rows.executed_all(calls.take(3), id) == rows.executed_all(
        calls.take(2),
        id,
    ).executed(calls[2], id));
    assert(rows.executed_all(calls.take(4), id) == rows.executed_all(
        calls.take(3),
        id,
    ).executed(calls[3], id));
}

/// What the steps of a deletion that finds no head leave of the rows.
pub open spec fn rows_without_head(rows: RunRows, run: RunDeletion) -> RunRows {
    let locked = deletion_of(run.project_name@, seq![run]).after(DeletionReply::Done);
    rows.stepped(deletion_of(run.project_name@, seq![run]).next(), 0).stepped(locked.next(), 0)
}

/// What the steps of a deletion that finds a head leave of the rows.
pub open spec fn rows_with_head(
    rows: RunRows,
    run: RunDeletion,
    head: DeletedHead,
    event_id: i64,
) -> RunRows {
    let id = event_id as int;
    let start = deletion_of(run.project_name@, seq![run]);
    let locked = start.after(DeletionReply::Done);
    let marked = locked.after(DeletionReply::Head(Some(head)));
    let dead = marked.after(DeletionReply::Id(event_id));
    rows.stepped(start.next(), id).stepped(locked.next(), id).stepped(marked.next(), id).stepped(
        dead.next(),
        id,
    )
}

/// A deletion that finds no head to mark, because there is none or because it is deleted,
/// ends with none deleted and leaves all rows as they were.
pub proof fn law_nothing_to_delete(rows: RunRows, run: RunDeletion)
    requires
        rows_of(rows, run),
        !rows.can_be_marked(),
    ensures
        rows_without_head(rows, run) == rows,
        deletion_of(run.project_name@, seq![run]).after(DeletionReply::Done).after(
            DeletionReply::Head(None),
        ).next() == DeletionStep::Finished(0),
{
    lemma_purposes();
    lemma_missing_is_finished(run);
}

proof fn lemma_missing_is_finished(run: RunDeletion)
    ensures
        deletion_of(run.project_name@, seq![run]).after(DeletionReply::Done).after(
            DeletionReply::Head(None),
        ).next() == DeletionStep::Finished(0),
{
    let missing = deletion_of(run.project_name@, seq![run]).after(DeletionReply::Done).after(
        DeletionReply::Head(None),
    );
    assert(missing.answers.drop_last() =~= Seq::<bool>::empty());
    assert(yes_count(missing.answers.drop_last()) == 0);
}

/// A deletion that finds a head to mark leaves the run deleted as of its time: the head
/// is marked, the tombstone is its last event, and each segment that holds the span has
/// a delete vector for it. The run counts as deleted, and to delete it once more finds
/// no head.
pub proof fn law_deletion_deletes(
    rows: RunRows,
    run: RunDeletion,
    head: DeletedHead,
    event_id: i64,
)
    requires
        rows_of(rows, run),
        rows.can_be_marked(),
    ensures
        rows_with_head(rows, run, head, event_id).is_deleted(
            run.deleted_at_unix_nano as int,
            event_id as int,
        ),
        rows_with_head(rows, run, head, event_id).segments == rows.segments,
        rows_of(rows_with_head(rows, run, head, event_id), run),
        !rows_with_head(rows, run, head, event_id).can_be_marked(),
        deletion_of(run.project_name@, seq![run]).after(DeletionReply::Done).after(
            DeletionReply::Head(Some(head)),
        ).after(DeletionReply::Id(event_id)).after(DeletionReply::Done).answers == seq![true],
{
    lemma_purposes();
    let id = event_id as int;
    let marked = rows.marked(run.mark_call());
    assert(rows.stepped(deletion_of(run.project_name@, seq![run]).next(), id) == rows);
    let dead = marked.with_tombstone(run.tombstone_call(head), id);
    assert(dead.events.contains_key(id));
    lemma_followed_up(dead, run, event_id);
    assert(deletion_of(run.project_name@, seq![run]).after(DeletionReply::Done).after(
        DeletionReply::Head(Some(head)),
    ).after(DeletionReply::Id(event_id)).after(DeletionReply::Done).answers =~= seq![true]);
}

/// Whether a reply is the one to the statement that marks a head: a head, if and only if
/// there was one to mark.
pub open spec fn answers_mark(rows: RunRows, reply: DeletionReply) -> bool {
    reply matches DeletionReply::Head(head) && (head is Some <==> rows.can_be_marked())
}

/// A run counts as deleted if and only if there was a head of it that was not deleted.
pub proof fn law_deleted_if_there_was_a_head(
    rows: RunRows,
    run: RunDeletion,
    reply: DeletionReply,
    event_id: i64,
)
    requires
        rows_of(rows, run),
        answers_mark(rows, reply),
    ensures
        ({
            let told = deletion_of(run.project_name@, seq![run]).after(DeletionReply::Done).after(
                reply,
            );
            if rows.can_be_marked() {
                &&& told.next() is QueryId
                &&& told.after(DeletionReply::Id(event_id)).next() is ExecuteAll
                &&& told.after(DeletionReply::Id(event_id)).after(DeletionReply::Done).answers
                    == seq![true]
            } else {
                told.answers == seq![false] && told.next() == DeletionStep::Finished(0)
            }
        }),
{
    if rows.can_be_marked() {
        law_deletion_deletes(rows, run, reply->Head_0->0, event_id);
    } else {
        lemma_missing_is_finished(run);
        assert(deletion_of(run.project_name@, seq![run]).after(DeletionReply::Done).after(
            reply,
        ).answers =~= seq![false]);
    }
}

/// A deletion leaves the rows of every other run as they were.
pub proof fn law_deletion_spares_others(
    rows: RunRows,
    run: RunDeletion,
    head: DeletedHead,
    event_id: i64,
)
    requires
        !rows_of(rows, run),
    ensures
        rows_without_head(rows, run) == rows,
        rows_with_head(rows, run, head, event_id) == rows,
{
    lemma_purposes();
    lemma_followed_up(rows, run, event_id);
}

} // verus!
