//! The records that are ingested.

use crate::text::copy_option;
use vstd::prelude::*;

verus! {

/// What an event says of a run.
#[derive(Debug, Clone, Copy, PartialEq, Eq, Structural)]
pub enum RunEventKind {
    Start,
    Update,
    End,
    Compact,
    Tombstone,
}

impl RunEventKind {
    /// How the kind is written.
    pub open spec fn word(self) -> Seq<char> {
        match self {
            RunEventKind::Start => "start"@,
            RunEventKind::Update => "update"@,
            RunEventKind::End => "end"@,
            RunEventKind::Compact => "compact"@,
            RunEventKind::Tombstone => "tombstone"@,
        }
    }

    /// How the kind is written.
    pub fn as_str(self) -> (r: &'static str)
        ensures
            r@ == self.word(),
    {
        match self {
            RunEventKind::Start => "start",
            RunEventKind::Update => "update",
            RunEventKind::End => "end",
            RunEventKind::Compact => "compact",
            RunEventKind::Tombstone => "tombstone",
        }
    }
}

/// An event of a run, with the run as it then was.
#[derive(Debug, PartialEq, Eq)]
pub struct SpanRecord {
    pub project_name: String,
    pub run_id: String,
    pub trace_id: String,
    pub span_id: String,
    pub parent_run_id: Option<String>,
    pub parent_span_id: Option<String>,
    pub name: String,
    pub run_type: String,
    pub start_time_unix_nano: i64,
    pub end_time_unix_nano: i64,
    pub status_code: i32,
    pub event_kind: RunEventKind,
    pub attributes_json: String,
    pub idempotency_key: Option<String>,
}

impl Clone for SpanRecord {
    fn clone(&self) -> (r: Self)
        ensures
            r == *self,
    {
        SpanRecord {
            project_name: self.project_name.clone(),
            run_id: self.run_id.clone(),
            trace_id: self.trace_id.clone(),
            span_id: self.span_id.clone(),
            parent_run_id: copy_option(&self.parent_run_id),
            parent_span_id: copy_option(&self.parent_span_id),
            name: self.name.clone(),
            run_type: self.run_type.clone(),
            start_time_unix_nano: self.start_time_unix_nano,
            end_time_unix_nano: self.end_time_unix_nano,
            status_code: self.status_code,
            event_kind: self.event_kind,
            attributes_json: self.attributes_json.clone(),
            idempotency_key: copy_option(&self.idempotency_key),
        }
    }
}

/// No two kinds of events are written the same.
pub proof fn law_kinds_are_told_apart(a: RunEventKind, b: RunEventKind)
    requires
        a.word() == b.word(),
    ensures
        a == b,
{
    reveal_strlit("start");
    reveal_strlit("update");
    reveal_strlit("end");
    reveal_strlit("compact");
    reveal_strlit("tombstone");
    assert("start"@.len() == 5);
    assert("update"@.len() == 6);
    assert("end"@.len() == 3);
    assert("compact"@.len() == 7);
    assert("tombstone"@.len() == 9);
}

} // verus!
