//! Deletion of runs: a tombstone event, a mark on the head, and delete vectors.

use crate::query::tombstone_idempotency_key;
use crate::query::tombstone_key;
use crate::record::RunEventKind;
use crate::statement::Call;
use crate::statement::Param;
use crate::statement::Statement;
use crate::statement::call;
use crate::statement::calls_of;
use crate::statement::no_statements;
use crate::statement::push_statement;
use crate::text::copy_option;
use crate::text::opt_text;
use vstd::prelude::*;

verus! {

pub const MARK_RUN_HEAD_DELETED_SQL: &'static str = "UPDATE run_heads
            SET deleted_at_unix_nano = $4,
                deletion_reason = $5,
                updated_at = CURRENT_TIMESTAMP
            WHERE project_name = $1
                AND trace_id = $2
                AND span_id = $3
                AND deleted_at_unix_nano IS NULL
            RETURNING run_id, generated_run_id, last_trace_segment_id, last_row_index";

pub const INSERT_TOMBSTONE_SQL: &'static str = "INSERT INTO run_events(
                trace_segment_id, project_name, run_id, trace_id, span_id,
                event_type, event_time_unix_nano, row_index, idempotency_key
            )
            VALUES ($1, $2, $3, $4, $5, $6, $7, $8, $9)
            ON CONFLICT (project_name, idempotency_key)
            DO UPDATE SET idempotency_key = EXCLUDED.idempotency_key
            RETURNING id";

pub const UPSERT_RUN_DELETION_SQL: &'static str = "INSERT INTO run_deletions(
            project_name, trace_id, span_id, deleted_at_unix_nano, reason
        )
        VALUES ($1, $2, $3, $4, $5)
        ON CONFLICT (project_name, trace_id, span_id)
        DO UPDATE SET
            deleted_at_unix_nano = EXCLUDED.deleted_at_unix_nano,
            reason = EXCLUDED.reason";

pub const WRITE_DELETE_VECTORS_SQL: &'static str = "INSERT INTO trace_segment_delete_vectors(
            trace_segment_id, project_name, trace_id, span_id, deleted_at_unix_nano, reason
        )
        SELECT DISTINCT trace_segment_id, project_name, trace_id, span_id, $4::BIGINT, $5::TEXT
        FROM trace_segment_spans
        WHERE project_name = $1 AND trace_id = $2 AND span_id = $3
        ON CONFLICT (trace_segment_id, project_name, trace_id, span_id)
        DO UPDATE SET
            deleted_at_unix_nano = EXCLUDED.deleted_at_unix_nano,
            reason = EXCLUDED.reason";

pub const ADVANCE_RUN_HEAD_SQL: &'static str = "UPDATE run_heads
        SET last_event_type = $4,
            last_event_time_unix_nano = $5,
            last_run_event_id = $6,
            updated_at = CURRENT_TIMESTAMP
        WHERE project_name = $1
            AND trace_id = $2
            AND span_id = $3";

pub const ADVANCE_RUN_LOCATOR_SQL: &'static str = "UPDATE run_locators
        SET event_type = $4,
            event_time_unix_nano = $5,
            run_event_id = $6,
            updated_at = CURRENT_TIMESTAMP
        WHERE project_name = $1
            AND trace_id = $2
            AND span_id = $3";

pub const ADVANCE_TRACE_LOCATOR_SQL: &'static str = "UPDATE trace_locators
        SET event_type = $4,
            event_time_unix_nano = $5,
            run_event_id = $6,
            updated_at = CURRENT_TIMESTAMP
        WHERE project_name = $1
            AND trace_id = $2
            AND span_id = $3";

pub const EXPIRATION_CANDIDATES_SQL: &'static str = "SELECT trace_id, span_id
                FROM run_heads
                WHERE project_name = $1
                    AND start_time_unix_nano < $2
                    AND deleted_at_unix_nano IS NULL
                ORDER BY trace_id, span_id";

/// The deletion of a run.
#[derive(Debug, PartialEq, Eq)]
pub struct RunDeletion {
    pub project_name: String,
    pub trace_id: String,
    pub span_id: String,
    pub deleted_at_unix_nano: i64,
    pub reason: Option<String>,
}

/// What the head of a run says when it has been marked deleted.
#[derive(Debug, PartialEq, Eq)]
pub struct DeletedHead {
    pub run_id: String,
    pub trace_segment_id: i64,
    pub row_index: i64,
}

impl RunDeletion {
    pub open spec fn about(self, purpose: Seq<char>, sql: Seq<char>) -> Call {
        call(purpose, sql).text(self.project_name@).text(self.trace_id@).text(self.span_id@)
    }

    /// The statement that marks the head of the run deleted, unless it is.
    pub open spec fn mark_call(self) -> Call {
        self.about("mark run head deleted"@, MARK_RUN_HEAD_DELETED_SQL@).integer(
            self.deleted_at_unix_nano as int,
        ).optional_text(opt_text(self.reason))
    }

    /// The statement that adds the tombstone event.
    pub open spec fn tombstone_call(self, head: DeletedHead) -> Call {
        call("insert tombstone run event"@, INSERT_TOMBSTONE_SQL@).integer(
            head.trace_segment_id as int,
        ).text(self.project_name@).text(head.run_id@).text(self.trace_id@).text(
            self.span_id@,
        ).text(RunEventKind::Tombstone.word()).integer(self.deleted_at_unix_nano as int).integer(
            head.row_index as int,
        ).text(
            tombstone_key(
                self.project_name@,
                self.trace_id@,
                self.span_id@,
                self.deleted_at_unix_nano,
            ),
        )
    }

    pub open spec fn dated(self, purpose: Seq<char>, sql: Seq<char>) -> Call {
        self.about(purpose, sql).integer(self.deleted_at_unix_nano as int).optional_text(
            opt_text(self.reason),
        )
    }

    pub open spec fn advance(self, purpose: Seq<char>, sql: Seq<char>, event_id: i64) -> Call {
        self.about(purpose, sql).text(RunEventKind::Tombstone.word()).integer(
            self.deleted_at_unix_nano as int,
        ).integer(event_id as int)
    }

    /// The statements that follow once the tombstone event has its id.
    pub open spec fn follow_up_calls(self, event_id: i64) -> Seq<Call> {
        Seq::empty().push(self.dated("upsert run deletion"@, UPSERT_RUN_DELETION_SQL@)).push(
            self.dated("write trace segment delete vectors"@, WRITE_DELETE_VECTORS_SQL@),
        ).push(
            self.advance("advance deleted run head tombstone"@, ADVANCE_RUN_HEAD_SQL@, event_id),
        ).push(
            self.advance(
                "advance deleted run locator tombstone"@,
                ADVANCE_RUN_LOCATOR_SQL@,
                event_id,
            ),
        ).push(
            self.advance(
                "advance deleted trace locator tombstone"@,
                ADVANCE_TRACE_LOCATOR_SQL@,
                event_id,
            ),
        )
    }

    /// The deletion of a run.
    pub fn new(
        project_name: &str,
        trace_id: &str,
        span_id: &str,
        deleted_at_unix_nano: i64,
        reason: &Option<String>,
    ) -> (r: Self)
        ensures
            r.project_name@ == project_name@,
            r.trace_id@ == trace_id@,
            r.span_id@ == span_id@,
            r.deleted_at_unix_nano == deleted_at_unix_nano,
            r.reason == *reason,
    {
        RunDeletion {
            project_name: project_name.to_owned(),
            trace_id: trace_id.to_owned(),
            span_id: span_id.to_owned(),
            deleted_at_unix_nano,
            reason: copy_option(reason),
        }
    }

    /// The deletion of a run that is past the retention of its project.
    pub fn expired(project_name: &str, trace_id: &str, span_id: &str, deleted_at_unix_nano: i64)
        -> (r: Self)
        ensures
            r.project_name@ == project_name@,
            r.trace_id@ == trace_id@,
            r.span_id@ == span_id@,
            r.deleted_at_unix_nano == deleted_at_unix_nano,
            opt_text(r.reason) == Some("retention_expired"@),
    {
        RunDeletion {
            project_name: project_name.to_owned(),
            trace_id: trace_id.to_owned(),
            span_id: span_id.to_owned(),
            deleted_at_unix_nano,
            reason: Some("retention_expired".to_owned()),
        }
    }

    fn about_statement(&self, purpose: &str, sql: &str) -> (r: Statement)
        ensures
            r@ == self.about(purpose@, sql@),
    {
        Statement::new(purpose, sql).text(self.project_name.as_str()).text(
            self.trace_id.as_str(),
        ).text(self.span_id.as_str())
    }

    fn dated_statement(&self, purpose: &str, sql: &str) -> (r: Statement)
        ensures
            r@ == self.dated(purpose@, sql@),
    {
        self.about_statement(purpose, sql).integer(self.deleted_at_unix_nano).optional_text(
            &self.reason,
        )
    }

    fn advance_statement(&self, purpose: &str, sql: &str, event_id: i64) -> (r: Statement)
        ensures
            r@ == self.advance(purpose@, sql@, event_id),
    {
        self.about_statement(purpose, sql).text(RunEventKind::Tombstone.as_str()).integer(
            self.deleted_at_unix_nano,
        ).integer(event_id)
    }

    /// The statement that marks the head of the run deleted, unless it is. What it
    /// returns goes to [`RunDeletion::tombstone_statement`].
    pub fn mark_statement(&self) -> (r: Statement)
        ensures
            r@ == self.mark_call(),
    {
        self.dated_statement("mark run head deleted", MARK_RUN_HEAD_DELETED_SQL)
    }

    /// The statement that adds the tombstone event, if a head was marked: without
    /// one there is nothing to delete.
    pub fn tombstone_statement(&self, head: &Option<DeletedHead>) -> (r: Option<Statement>)
        ensures
            match r {
                Some(statement) => head is Some && statement@ == self.tombstone_call(head->0),
                None => head is None,
            },
    {
        match head {
            Some(head) => {
                let key = tombstone_idempotency_key(
                    self.project_name.as_str(),
                    self.trace_id.as_str(),
                    self.span_id.as_str(),
                    self.deleted_at_unix_nano,
                );
                Some(
                    Statement::new("insert tombstone run event", INSERT_TOMBSTONE_SQL).integer(
                        head.trace_segment_id,
                    ).text(self.project_name.as_str()).text(head.run_id.as_str()).text(
                        self.trace_id.as_str(),
                    ).text(self.span_id.as_str()).text(RunEventKind::Tombstone.as_str()).integer(
                        self.deleted_at_unix_nano,
                    ).integer(head.row_index).text(key.as_str()),
                )
            },
            None => None,
        }
    }

    /// The statements that follow once the tombstone event has its id.
    pub fn follow_up_statements(&self, event_id: i64) -> (r: Vec<Statement>)
        ensures
            calls_of(r@) == self.follow_up_calls(event_id),
    {
        let mut out = no_statements();
        push_statement(
            &mut out,
            self.dated_statement("upsert run deletion", UPSERT_RUN_DELETION_SQL),
        );
        push_statement(
            &mut out,
            self.dated_statement("write trace segment delete vectors", WRITE_DELETE_VECTORS_SQL),
        );
        push_statement(
            &mut out,
            self.advance_statement(
                "advance deleted run head tombstone",
                ADVANCE_RUN_HEAD_SQL,
                event_id,
            ),
        );
        push_statement(
            &mut out,
            self.advance_statement(
                "advance deleted run locator tombstone",
                ADVANCE_RUN_LOCATOR_SQL,
                event_id,
            ),
        );
        push_statement(
            &mut out,
            self.advance_statement(
                "advance deleted trace locator tombstone",
                ADVANCE_TRACE_LOCATOR_SQL,
                event_id,
            ),
        );
        out
    }
}

/// Whose runs are past a cutoff and not deleted yet.
pub open spec fn expiration_candidates_call(project_name: Seq<char>, cutoff: i64) -> Call {
    call("load retention expiration candidates"@, EXPIRATION_CANDIDATES_SQL@).text(
        project_name,
    ).integer(cutoff as int)
}

/// The statement for the runs of a project that are past a cutoff.
pub fn expiration_candidates_statement(project_name: &str, cutoff_unix_nano: i64) -> (r: Statement)
    ensures
        r@ == expiration_candidates_call(project_name@, cutoff_unix_nano),
{
    Statement::new("load retention expiration candidates", EXPIRATION_CANDIDATES_SQL).text(
        project_name,
    ).integer(cutoff_unix_nano)
}

/// How often an answer was yes.
pub open spec fn yes_count(answers: Seq<bool>) -> int
    decreases answers.len(),
{
    if answers.len() == 0 {
        0
    } else {
        yes_count(answers.drop_last()) + if answers.last() {
            1int
        } else {
            0int
        }
    }
}

/// How often an answer was yes.
pub fn count_yes(answers: &Vec<bool>) -> (r: usize)
    ensures
        r == yes_count(answers@),
{
    let mut n: usize = 0;
    let mut i: usize = 0;
    assert(answers@.take(0) =~= Seq::<bool>::empty());
    while i < answers.len()
        invariant
            i <= answers.len(),
            n <= i,
            n == yes_count(answers@.take(i as int)),
        decreases answers.len() - i,
    {
        assert(answers@.take(i + 1).drop_last() =~= answers@.take(i as int));
        if answers[i] {
            n += 1;
        }
        i += 1;
    }
    assert(answers@.take(i as int) =~= answers@);
    n
}

/// Each statement of a deletion is about the run that is deleted, and about no other; what is
/// advanced is advanced to the event of the deletion, at its time.
pub proof fn law_deletion_is_about_its_run(deletion: RunDeletion, head: DeletedHead, event_id: i64)
    ensures
        ({
            let key = seq![
                Param::Text(deletion.project_name@),
                Param::Text(deletion.trace_id@),
                Param::Text(deletion.span_id@),
            ];
            let time = Param::Integer(deletion.deleted_at_unix_nano as int);
            let mark = deletion.mark_call().params;
            let tombstone = deletion.tombstone_call(head).params;
            let calls = deletion.follow_up_calls(event_id);
            &&& mark.take(3) == key && mark[3] == time
            &&& tombstone[1] == key[0] && tombstone[3] == key[1] && tombstone[4] == key[2]
            &&& tombstone[0] == Param::Integer(head.trace_segment_id as int)
            &&& tombstone[6] == time
            &&& calls.len() == 5
            &&& forall|i: int| 0 <= i < calls.len() ==> (#[trigger] calls[i]).params.take(3) == key
            &&& forall|i: int| 0 <= i < 2 ==> (#[trigger] calls[i]).params[3] == time
            &&& forall|i: int|
                2 <= i < 5 ==> (#[trigger] calls[i]).params[4] == time && calls[i].params[5]
                    == Param::Integer(event_id as int)
        }),
{
    let key = seq![
        Param::Text(deletion.project_name@),
        Param::Text(deletion.trace_id@),
        Param::Text(deletion.span_id@),
    ];
    let calls = deletion.follow_up_calls(event_id);
    assert(deletion.mark_call().params.take(3) =~= key);
    assert(calls[0].params.take(3) =~= key);
    assert(calls[1].params.take(3) =~= key);
    assert(calls[2].params.take(3) =~= key);
    assert(calls[3].params.take(3) =~= key);
    assert(calls[4].params.take(3) =~= key);
}

/// The answers that are counted are those that say yes.
pub proof fn law_yes_is_counted(answers: Seq<bool>)
    ensures
        yes_count(answers) == answers.filter(|answer: bool| answer).len(),
    decreases answers.len(),
{
    reveal(Seq::filter);
    if answers.len() > 0 {
        law_yes_is_counted(answers.drop_last());
    }
}

} // verus!
