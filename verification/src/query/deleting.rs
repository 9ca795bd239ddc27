//! Runs on their way out of the database, step by step.

use crate::ingest::refresh::RefreshStep;
use crate::ingest::refresh::Step;
use crate::ingest::refresh::copy_step;
use crate::ingest::refresh::project_lock_call;
use crate::ingest::refresh::project_lock_statement;
use crate::ingest::refresh::refresh_steps;
use crate::ingest::refresh::steps_for;
use crate::ingest::refresh::steps_of;
use crate::ingest::refresh::trace_start_times_call;
use crate::ingest::refresh::trace_start_times_statement;
use crate::ingest::refresh::trace_steps;
use crate::ingest::rollups::hours_of;
use crate::ingest::rollups::rollup_hour_of;
use crate::query::aggregates::stats::integer_order;
use crate::query::deletion::DeletedHead;
use crate::query::deletion::RunDeletion;
use crate::query::deletion::count_yes;
use crate::query::deletion::yes_count;
use crate::sorting::law_ordered_set_holds_its_elements;
use crate::sorting::lemma_ordered_insert;
use crate::sorting::ordered_insert;
use crate::sorting::ordered_set;
use crate::sorting::strictly_sorted;
use crate::statement::Call;
use crate::statement::Statement;
use crate::statement::calls_of;
use crate::text::insert_text;
use crate::text::law_text_order;
use crate::text::text_order;
use crate::text::texts;
use vstd::prelude::*;

verus! {

/// Which step comes next.
#[derive(Debug, Clone, Copy, PartialEq, Eq, Structural)]
pub enum DeletionStage {
    Lock,
    Mark,
    Tombstone,
    FollowUp,
    Times,
    Refresh,
    Finished,
}

/// What to do next.
#[derive(Debug, PartialEq, Eq)]
pub enum DeletionAction {
    Execute(Statement),
    ExecuteAll(Vec<Statement>),
    /// Ask for a head, which there may not be.
    QueryHead(Statement),
    QueryId(Statement),
    QueryTimes(Statement),
    Refresh(RefreshStep),
    /// So many runs are deleted; the others were not there any more.
    Finished(usize),
}

/// What a [`DeletionAction`] holds.
pub enum DeletionStep {
    Execute(Call),
    ExecuteAll(Seq<Call>),
    QueryHead(Call),
    QueryId(Call),
    QueryTimes(Call),
    Refresh(Step),
    Finished(int),
}

impl View for DeletionAction {
    type V = DeletionStep;

    open spec fn view(&self) -> DeletionStep {
        match *self {
            DeletionAction::Execute(statement) => DeletionStep::Execute(statement@),
            DeletionAction::ExecuteAll(statements) => DeletionStep::ExecuteAll(
                calls_of(statements@),
            ),
            DeletionAction::QueryHead(statement) => DeletionStep::QueryHead(statement@),
            DeletionAction::QueryId(statement) => DeletionStep::QueryId(statement@),
            DeletionAction::QueryTimes(statement) => DeletionStep::QueryTimes(statement@),
            DeletionAction::Refresh(step) => DeletionStep::Refresh(step@),
            DeletionAction::Finished(n) => DeletionStep::Finished(n as int),
        }
    }
}

/// What came back from a step.
#[derive(Debug, PartialEq, Eq)]
pub enum DeletionReply {
    Done,
    Head(Option<DeletedHead>),
    Id(i64),
    Times(Vec<i64>),
}

/// Runs of a project on their way out of the database.
pub struct DeletionWriter {
    pub project_name: String,
    pub runs: Vec<RunDeletion>,
    pub stage: DeletionStage,
    /// Which run, trace or refresh step the stage is about.
    pub at: usize,
    pub head: Option<DeletedHead>,
    pub event_id: i64,
    /// For each run that is through, whether it was deleted.
    pub answers: Vec<bool>,
    /// The traces that runs were deleted from.
    pub trace_ids: Vec<String>,
    pub start_times: Vec<i64>,
    pub steps: Vec<RefreshStep>,
}

/// What a [`DeletionWriter`] holds.
pub struct Deletion {
    pub project: Seq<char>,
    pub runs: Seq<RunDeletion>,
    pub stage: DeletionStage,
    pub at: int,
    pub head: Option<DeletedHead>,
    pub event_id: i64,
    pub answers: Seq<bool>,
    pub traces: Seq<Seq<char>>,
    pub starts: Seq<i64>,
    pub steps: Seq<Step>,
}

impl View for DeletionWriter {
    type V = Deletion;

    open spec fn view(&self) -> Deletion {
        Deletion {
            project: self.project_name@,
            runs: self.runs@,
            stage: self.stage,
            at: self.at as int,
            head: self.head,
            event_id: self.event_id,
            answers: self.answers@,
            traces: texts(self.trace_ids@),
            starts: self.start_times@,
            steps: steps_of(self.steps@),
        }
    }
}

/// The traces that runs were deleted from, each once, in order.
pub open spec fn deleted_traces(runs: Seq<RunDeletion>, answers: Seq<bool>) -> Seq<Seq<char>>
    decreases answers.len(),
{
    if answers.len() == 0 {
        Seq::empty()
    } else {
        let rest = deleted_traces(runs, answers.drop_last());
        if answers.last() {
            ordered_insert(rest, runs[answers.len() - 1].trace_id@, text_order())
        } else {
            rest
        }
    }
}

/// Whether the hours of all the times are in range.
pub open spec fn hours_in_range(times: Seq<i64>) -> bool {
    forall|i: int|
        0 <= i < times.len() ==> rollup_hour_of(#[trigger] times[i]) >= i64::MIN
}

/// Whether a reply answers a step.
pub open spec fn answers_deletion(stage: DeletionStage, reply: DeletionReply) -> bool {
    match stage {
        DeletionStage::Mark => reply is Head,
        DeletionStage::Tombstone => reply is Id,
        DeletionStage::Times => reply matches DeletionReply::Times(times) && hours_in_range(
            times@,
        ),
        DeletionStage::Finished => false,
        _ => reply is Done,
    }
}

/// The deletion of runs, none of them deleted.
pub open spec fn deletion_of(project: Seq<char>, runs: Seq<RunDeletion>) -> Deletion {
    Deletion {
        project,
        runs,
        stage: if runs.len() > 0 {
            DeletionStage::Lock
        } else {
            DeletionStage::Finished
        },
        at: 0,
        head: None,
        event_id: 0,
        answers: Seq::empty(),
        traces: Seq::empty(),
        starts: Seq::empty(),
        steps: Seq::empty(),
    }
}

impl Deletion {
    /// Whether each step is about a run, a trace or a refresh that there is.
    pub open spec fn is_valid(self) -> bool {
        &&& forall|i: int|
            0 <= i < self.runs.len() ==> (#[trigger] self.runs[i]).project_name@ == self.project
        &&& self.traces == deleted_traces(self.runs, self.answers)
        &&& hours_in_range(self.starts)
        &&& match self.stage {
            DeletionStage::Lock => {
                &&& self.runs.len() > 0
                &&& self.at == 0
                &&& self.answers.len() == 0
                &&& self.steps.len() == 0
            },
            DeletionStage::Mark => {
                &&& self.answers.len() == self.at
                &&& 0 <= self.at < self.runs.len()
                &&& self.steps.len() == 0
            },
            DeletionStage::Tombstone | DeletionStage::FollowUp => {
                &&& self.answers.len() == self.at
                &&& 0 <= self.at < self.runs.len()
                &&& self.head is Some
                &&& self.steps.len() == 0
            },
            DeletionStage::Times => {
                &&& self.answers.len() == self.runs.len()
                &&& 0 <= self.at < self.traces.len()
                &&& self.steps.len() == 0
            },
            DeletionStage::Refresh => {
                &&& self.answers.len() == self.runs.len()
                &&& self.traces.len() > 0
                &&& 0 <= self.at < self.steps.len()
                &&& self.steps == steps_for(self.traces, self.starts)
            },
            DeletionStage::Finished => {
                &&& self.answers.len() == self.runs.len()
                &&& self.at == self.steps.len()
                &&& if self.traces.len() > 0 {
                    self.steps == steps_for(self.traces, self.starts)
                } else {
                    self.steps.len() == 0
                }
            },
        }
    }

    pub open spec fn run(self) -> RunDeletion {
        self.runs[self.at]
    }

    /// What is to be done.
    pub open spec fn next(self) -> DeletionStep {
        match self.stage {
            DeletionStage::Lock => DeletionStep::Execute(project_lock_call(self.project)),
            DeletionStage::Mark => DeletionStep::QueryHead(self.run().mark_call()),
            DeletionStage::Tombstone => DeletionStep::QueryId(
                self.run().tombstone_call(self.head->0),
            ),
            DeletionStage::FollowUp => DeletionStep::ExecuteAll(
                self.run().follow_up_calls(self.event_id),
            ),
            DeletionStage::Times => DeletionStep::QueryTimes(
                trace_start_times_call(self.project, self.traces[self.at]),
            ),
            DeletionStage::Refresh => DeletionStep::Refresh(self.steps[self.at]),
            DeletionStage::Finished => DeletionStep::Finished(yes_count(self.answers)),
        }
    }

    /// What has been brought up to date.
    pub open spec fn refreshed(self) -> Seq<Step> {
        if self.stage == DeletionStage::Refresh || self.stage == DeletionStage::Finished {
            self.steps.take(self.at)
        } else {
            Seq::empty()
        }
    }

    /// The next run, or what comes after all of them.
    pub open spec fn answered(self, deleted: bool) -> Deletion {
        let answers = self.answers.push(deleted);
        let traces = if deleted {
            ordered_insert(self.traces, self.run().trace_id@, text_order())
        } else {
            self.traces
        };
        if self.at + 1 < self.runs.len() {
            Deletion { stage: DeletionStage::Mark, at: self.at + 1, answers, traces, ..self }
        } else if traces.len() > 0 {
            Deletion { stage: DeletionStage::Times, at: 0, answers, traces, ..self }
        } else {
            Deletion { stage: DeletionStage::Finished, at: 0, answers, traces, ..self }
        }
    }

    /// What follows a reply.
    pub open spec fn after(self, reply: DeletionReply) -> Deletion {
        match (self.stage, reply) {
            (DeletionStage::Lock, _) => Deletion { stage: DeletionStage::Mark, ..self },
            (DeletionStage::Mark, DeletionReply::Head(None)) => self.answered(false),
            (DeletionStage::Mark, DeletionReply::Head(Some(head))) => Deletion {
                stage: DeletionStage::Tombstone,
                head: Some(head),
                ..self
            },
            (DeletionStage::Tombstone, DeletionReply::Id(event_id)) => Deletion {
                stage: DeletionStage::FollowUp,
                event_id,
                ..self
            },
            (DeletionStage::FollowUp, _) => self.answered(true),
            (DeletionStage::Times, DeletionReply::Times(times)) => {
                let starts = self.starts + times@;
                if self.at + 1 < self.traces.len() {
                    Deletion { at: self.at + 1, starts, ..self }
                } else {
                    Deletion {
                        stage: DeletionStage::Refresh,
                        at: 0,
                        starts,
                        steps: steps_for(self.traces, starts),
                        ..self
                    }
                }
            },
            (DeletionStage::Refresh, _) => Deletion {
                stage: if self.at + 1 < self.steps.len() {
                    DeletionStage::Refresh
                } else {
                    DeletionStage::Finished
                },
                at: self.at + 1,
                ..self
            },
            _ => self,
        }
    }
}

proof fn lemma_answered_is_valid(deletion: Deletion, deleted: bool)
    requires
        deletion.is_valid(),
        deletion.stage == DeletionStage::Mark || deletion.stage == DeletionStage::FollowUp,
    ensures
        deletion.answered(deleted).is_valid(),
{
    let after = deletion.answered(deleted);
    assert(after.answers.drop_last() =~= deletion.answers);
    assert(after.traces == deleted_traces(after.runs, after.answers));
}

/// There are steps wherever there is a trace.
proof fn lemma_steps_for_traces(traces: Seq<Seq<char>>, starts: Seq<i64>)
    requires
        traces.len() > 0,
    ensures
        steps_for(traces, starts).len() > 0,
{
    let ordered = ordered_set(traces, text_order());
    assert(ordered.len() > 0);
    assert(trace_steps(ordered).len() > 0);
}

/// What follows a reply is valid.
proof fn lemma_after_is_valid(deletion: Deletion, reply: DeletionReply)
    requires
        deletion.is_valid(),
        answers_deletion(deletion.stage, reply),
    ensures
        deletion.after(reply).is_valid(),
{
    match deletion.stage {
        DeletionStage::Mark => {
            lemma_answered_is_valid(deletion, false);
        },
        DeletionStage::FollowUp => {
            lemma_answered_is_valid(deletion, true);
        },
        DeletionStage::Times => {
            let starts = deletion.starts + reply->Times_0@;
            assert(hours_in_range(starts)) by {
                assert forall|i: int| 0 <= i < starts.len() implies rollup_hour_of(
                    #[trigger] starts[i],
                ) >= i64::MIN by {
                    if i >= deletion.starts.len() {
                        assert(starts[i] == reply->Times_0@[i - deletion.starts.len()]);
                    } else {
                        assert(starts[i] == deletion.starts[i]);
                    }
                }
            }
            lemma_steps_for_traces(deletion.traces, starts);
        },
        _ => {},
    }
}

impl DeletionWriter {
    /// The deletion of runs of a project, none of them deleted.
    pub fn new(project_name: &str, runs: Vec<RunDeletion>) -> (r: Self)
        requires
            forall|i: int|
                0 <= i < runs@.len() ==> (#[trigger] runs@[i]).project_name@ == project_name@,
        ensures
            r@ == deletion_of(project_name@, runs@),
            r@.is_valid(),
    {
        let stage = if runs.len() > 0 {
            DeletionStage::Lock
        } else {
            DeletionStage::Finished
        };
        let writer = DeletionWriter {
            project_name: project_name.to_owned(),
            runs,
            stage,
            at: 0,
            head: None,
            event_id: 0,
            answers: Vec::new(),
            trace_ids: Vec::new(),
            start_times: Vec::new(),
            steps: Vec::new(),
        };
        assert(writer@.traces =~= Seq::empty());
        assert(writer@.steps =~= Seq::empty());
        writer
    }

    /// What is to be done.
    pub fn action(&self) -> (r: DeletionAction)
        requires
            self@.is_valid(),
        ensures
            r@ == self@.next(),
    {
        match self.stage {
            DeletionStage::Lock => DeletionAction::Execute(
                project_lock_statement(self.project_name.as_str()),
            ),
            DeletionStage::Mark => DeletionAction::QueryHead(self.runs[self.at].mark_statement()),
            DeletionStage::Tombstone => match self.runs[self.at].tombstone_statement(&self.head) {
                Some(statement) => DeletionAction::QueryId(statement),
                None => DeletionAction::Finished(0),
            },
            DeletionStage::FollowUp => DeletionAction::ExecuteAll(
                self.runs[self.at].follow_up_statements(self.event_id),
            ),
            DeletionStage::Times => DeletionAction::QueryTimes(
                trace_start_times_statement(
                    self.project_name.as_str(),
                    self.trace_ids[self.at].as_str(),
                ),
            ),
            DeletionStage::Refresh => DeletionAction::Refresh(copy_step(&self.steps[self.at])),
            DeletionStage::Finished => DeletionAction::Finished(count_yes(&self.answers)),
        }
    }

    fn answer(&mut self, deleted: bool)
        requires
            old(self)@.is_valid(),
            old(self).stage == DeletionStage::Mark || old(self).stage == DeletionStage::FollowUp,
        ensures
            final(self)@ == old(self)@.answered(deleted),
    {
        let count: usize = self.runs.len();
        self.answers.push(deleted);
        if deleted {
            insert_text(&mut self.trace_ids, self.runs[self.at].trace_id.clone());
        }
        if self.at + 1 < count {
            self.at = self.at + 1;
            self.stage = DeletionStage::Mark;
        } else if self.trace_ids.len() > 0 {
            self.at = 0;
            self.stage = DeletionStage::Times;
        } else {
            self.at = 0;
            self.stage = DeletionStage::Finished;
        }
    }

    /// Goes on to the step that follows a reply.
    pub fn advance(&mut self, reply: DeletionReply)
        requires
            old(self)@.is_valid(),
            answers_deletion(old(self).stage, reply),
        ensures
            final(self)@ == old(self)@.after(reply),
            final(self)@.is_valid(),
    {
        proof {
            lemma_after_is_valid(self@, reply);
        }
        match self.stage {
            DeletionStage::Lock => {
                self.stage = DeletionStage::Mark;
            },
            DeletionStage::Mark => {
                if let DeletionReply::Head(head) = reply {
                    match head {
                        Some(head) => {
                            self.head = Some(head);
                            self.stage = DeletionStage::Tombstone;
                        },
                        None => {
                            self.answer(false);
                        },
                    }
                }
            },
            DeletionStage::Tombstone => {
                if let DeletionReply::Id(event_id) = reply {
                    self.event_id = event_id;
                    self.stage = DeletionStage::FollowUp;
                }
            },
            DeletionStage::FollowUp => {
                self.answer(true);
            },
            DeletionStage::Times => {
                if let DeletionReply::Times(times) = reply {
                    let count: usize = self.trace_ids.len();
                    let mut times = times;
                    self.start_times.append(&mut times);
                    if self.at + 1 < count {
                        self.at = self.at + 1;
                    } else {
                        self.steps = refresh_steps(&self.trace_ids, &self.start_times);
                        self.at = 0;
                        self.stage = DeletionStage::Refresh;
                    }
                }
            },
            DeletionStage::Refresh => {
                let count: usize = self.steps.len();
                self.at = self.at + 1;
                if self.at >= count {
                    self.stage = DeletionStage::Finished;
                }
            },
            DeletionStage::Finished => {},
        }
    }
}

/// What is brought up to date is what was said to be, one step after another; and a run
/// counts as deleted once all of its statements are through, and as not deleted as soon
/// as there was no head to mark.
pub proof fn law_deletion_goes_step_by_step(deletion: Deletion, reply: DeletionReply)
    requires
        deletion.is_valid(),
        answers_deletion(deletion.stage, reply),
    ensures
        deletion.after(reply).is_valid(),
        deletion.after(reply).project == deletion.project,
        deletion.after(reply).runs == deletion.runs,
        deletion.after(reply).refreshed() == match deletion.next() {
            DeletionStep::Refresh(step) => deletion.refreshed().push(step),
            _ => deletion.refreshed(),
        },
        deletion.after(reply).answers == match (deletion.stage, reply) {
            (DeletionStage::Mark, DeletionReply::Head(None)) => deletion.answers.push(false),
            (DeletionStage::FollowUp, _) => deletion.answers.push(true),
            _ => deletion.answers,
        },
{
    lemma_after_is_valid(deletion, reply);
    assert(deletion.after(reply).refreshed() =~= match deletion.next() {
        DeletionStep::Refresh(step) => deletion.refreshed().push(step),
        _ => deletion.refreshed(),
    });
}

proof fn lemma_deleted_traces(runs: Seq<RunDeletion>, answers: Seq<bool>)
    requires
        answers.len() <= runs.len(),
    ensures
        strictly_sorted(deleted_traces(runs, answers), text_order()),
        forall|i: int|
            0 <= i < answers.len() && #[trigger] answers[i] ==> deleted_traces(
                runs,
                answers,
            ).contains(runs[i].trace_id@),
        deleted_traces(runs, answers).len() > 0 <==> yes_count(answers) > 0,
        yes_count(answers) >= 0,
    decreases answers.len(),
{
    if answers.len() > 0 {
        let rest = answers.drop_last();
        let last = answers.len() - 1;
        lemma_deleted_traces(runs, rest);
        if answers.last() {
            law_text_order();
            lemma_ordered_insert(
                deleted_traces(runs, rest),
                runs[last].trace_id@,
                text_order(),
            );
        }
        assert forall|i: int|
            0 <= i < answers.len() && #[trigger] answers[i] implies deleted_traces(
            runs,
            answers,
        ).contains(runs[i].trace_id@) by {
            if i < last {
                assert(rest[i] == answers[i]);
                assert(deleted_traces(runs, rest).contains(runs[i].trace_id@));
            }
        }
    }
}

proof fn lemma_trace_steps(traces: Seq<Seq<char>>, i: int)
    requires
        0 <= i < traces.len(),
    ensures
        trace_steps(traces).len() == 2 * traces.len(),
        trace_steps(traces)[2 * i] == Step::Tree(traces[i]),
        trace_steps(traces)[2 * i + 1] == Step::Threads(traces[i]),
    decreases traces.len(),
{
    let rest = traces.drop_last();
    if i < rest.len() {
        lemma_trace_steps(rest, i);
    } else if rest.len() > 0 {
        lemma_trace_steps(rest, 0);
    } else {
        assert(trace_steps(rest).len() == 0);
    }
}

/// Whether the tree of a trace is among the steps, and after it the threads.
pub open spec fn brings_up(steps: Seq<Step>, trace_id: Seq<char>) -> bool {
    exists|i: int|
        0 <= i && i + 1 < steps.len() && #[trigger] steps[i] == Step::Tree(trace_id) && steps[i + 1]
            == Step::Threads(trace_id)
}

/// A deletion that is through has brought up to date the tree and the threads of each
/// trace that a run was deleted from, and the hours of the times that it was told of;
/// and nothing, if no run was deleted. It says how many were.
pub proof fn law_deletions_are_refreshed(deletion: Deletion)
    requires
        deletion.is_valid(),
        deletion.stage == DeletionStage::Finished,
    ensures
        deletion.next() == DeletionStep::Finished(yes_count(deletion.answers)),
        deletion.answers.len() == deletion.runs.len(),
        deletion.refreshed() == if yes_count(deletion.answers) > 0 {
            steps_for(deleted_traces(deletion.runs, deletion.answers), deletion.starts)
        } else {
            Seq::empty()
        },
        forall|i: int|
            0 <= i < deletion.runs.len() && #[trigger] deletion.answers[i] ==> brings_up(
                deletion.refreshed(),
                deletion.runs[i].trace_id@,
            ),
{
    lemma_deleted_traces(deletion.runs, deletion.answers);
    let traces = deletion.traces;
    let ordered = ordered_set(traces, text_order());
    law_text_order();
    law_ordered_set_holds_its_elements(traces, text_order());
    assert(deletion.refreshed() =~= deletion.steps);
    assert forall|i: int| 0 <= i < deletion.runs.len() && #[trigger] deletion.answers[i] implies
        brings_up(deletion.refreshed(), deletion.runs[i].trace_id@) by {
        let trace = deletion.runs[i].trace_id@;
        assert(traces.contains(trace));
        assert(ordered.contains(trace));
        let k = choose|k: int| 0 <= k < ordered.len() && ordered[k] == trace;
        lemma_trace_steps(ordered, k);
        assert(deletion.steps[2 * k] == Step::Tree(trace));
        assert(deletion.steps[2 * k + 1] == Step::Threads(trace));
    }
}

/// The deletion of runs starts with the lock of their project, and takes it once: what it
/// brings up to date no other writer of the project brings up to date at the same time.
pub proof fn law_deletion_is_locked(
    project: Seq<char>,
    runs: Seq<RunDeletion>,
    deletion: Deletion,
    reply: DeletionReply,
)
    requires
        deletion.is_valid(),
        answers_deletion(deletion.stage, reply),
    ensures
        runs.len() > 0 ==> deletion_of(project, runs).next() == DeletionStep::Execute(
            project_lock_call(project),
        ),
        runs.len() == 0 ==> deletion_of(project, runs).next() == DeletionStep::Finished(0),
        deletion.after(reply).stage != DeletionStage::Lock,
{
}

/// The deletion of one run: the project is locked and the head marked; if there was
/// none, that is all; else the tombstone event, what follows it, and the refresh of the
/// trace.
pub proof fn law_one_deletion(
    project: Seq<char>,
    run: RunDeletion,
    head: DeletedHead,
    event_id: i64,
    times: Vec<i64>,
)
    requires
        run.project_name@ == project,
        hours_in_range(times@),
    ensures
        ({
            let start = deletion_of(project, seq![run]);
            let locked = start.after(DeletionReply::Done);
            let missing = locked.after(DeletionReply::Head(None));
            let marked = locked.after(DeletionReply::Head(Some(head)));
            let dead = marked.after(DeletionReply::Id(event_id));
            let gone = dead.after(DeletionReply::Done);
            let timed = gone.after(DeletionReply::Times(times));
            &&& start.is_valid()
            &&& start.next() == DeletionStep::Execute(project_lock_call(project))
            &&& locked.next() == DeletionStep::QueryHead(run.mark_call())
            &&& missing.next() == DeletionStep::Finished(0)
            &&& marked.next() == DeletionStep::QueryId(run.tombstone_call(head))
            &&& dead.next() == DeletionStep::ExecuteAll(run.follow_up_calls(event_id))
            &&& gone.next() == DeletionStep::QueryTimes(
                trace_start_times_call(project, run.trace_id@),
            )
            &&& timed.is_valid()
            &&& timed.answers == seq![true]
            &&& timed.next() == DeletionStep::Refresh(Step::Tree(run.trace_id@))
            &&& timed.after(DeletionReply::Done).next() == DeletionStep::Refresh(
                Step::Threads(run.trace_id@),
            )
            &&& timed.steps == trace_steps(seq![run.trace_id@]) + ordered_set(
                hours_of(times@),
                integer_order(),
            ).map_values(|hour: i64| Step::Rollups(hour))
        }),
{
    let start = deletion_of(project, seq![run]);
    let locked = start.after(DeletionReply::Done);
    let missing = locked.after(DeletionReply::Head(None));
    let marked = locked.after(DeletionReply::Head(Some(head)));
    let dead = marked.after(DeletionReply::Id(event_id));
    let gone = dead.after(DeletionReply::Done);
    let timed = gone.after(DeletionReply::Times(times));
    let trace = run.trace_id@;
    lemma_after_is_valid(start, DeletionReply::Done);
    lemma_after_is_valid(locked, DeletionReply::Head(None));
    lemma_after_is_valid(locked, DeletionReply::Head(Some(head)));
    lemma_after_is_valid(marked, DeletionReply::Id(event_id));
    lemma_after_is_valid(dead, DeletionReply::Done);
    assert(missing.answers =~= seq![false]);
    assert(missing.answers.drop_last() =~= Seq::<bool>::empty());
    assert(yes_count(missing.answers.drop_last()) == 0);
    assert(gone.traces =~= seq![trace]);
    lemma_after_is_valid(gone, DeletionReply::Times(times));
    assert(timed.answers =~= seq![true]);
    assert(timed.starts =~= times@);
    assert(seq![trace].drop_last() =~= Seq::<Seq<char>>::empty());
    assert(ordered_set(seq![trace].drop_last(), text_order()) =~= Seq::<Seq<char>>::empty());
    assert(ordered_set(seq![trace], text_order()) =~= seq![trace]);
    lemma_trace_steps(seq![trace], 0);
}

/// The traces that deletions leave to be brought up to date are those of the runs that were
/// deleted, and no others.
pub proof fn law_traces_of_deleted_runs(
    runs: Seq<RunDeletion>,
    answers: Seq<bool>,
    trace: Seq<char>,
)
    ensures
        deleted_traces(runs, answers).contains(trace) <==> exists|i: int|
            0 <= i < answers.len() && #[trigger] answers[i] && runs[i].trace_id@ == trace,
        strictly_sorted(deleted_traces(runs, answers), text_order()),
    decreases answers.len(),
{
    law_text_order();
    if answers.len() > 0 {
        let before = answers.drop_last();
        let last = answers.len() - 1;
        let rest = deleted_traces(runs, before);
        law_traces_of_deleted_runs(runs, before, trace);
        assert(answers[last] == answers.last());
        lemma_ordered_insert(rest, runs[last].trace_id@, text_order());
        if exists|i: int|
            0 <= i < before.len() && #[trigger] before[i] && runs[i].trace_id@ == trace {
            let i = choose|i: int|
                0 <= i < before.len() && #[trigger] before[i] && runs[i].trace_id@ == trace;
            assert(answers[i] == before[i]);
        }
        if exists|i: int|
            0 <= i < answers.len() && #[trigger] answers[i] && runs[i].trace_id@ == trace {
            let i = choose|i: int|
                0 <= i < answers.len() && #[trigger] answers[i] && runs[i].trace_id@ == trace;
            if i < last {
                assert(before[i] == answers[i]);
            }
        }
    }
}

} // verus!
