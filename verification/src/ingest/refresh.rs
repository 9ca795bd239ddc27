//! What is brought up to date when runs of some traces have changed.

use crate::ingest::rollups::affected_hours;
use crate::ingest::rollups::hours_of;
use crate::ingest::rollups::rollup_hour_of;
use crate::query::aggregates::stats::integer_order;
use crate::sorting::law_ordered_set_holds_its_elements;
use crate::sorting::ordered_set;
use crate::sorting::total_order;
use crate::statement::Call;
use crate::statement::Statement;
use crate::statement::call;
use crate::text::insert_text;
use crate::text::law_text_order;
use crate::text::text_order;
use crate::text::texts;
use crate::time::law_bucket_holds_its_time;
use vstd::prelude::*;

verus! {

/// One thing to bring up to date.
#[derive(Debug, PartialEq, Eq)]
pub enum RefreshStep {
    /// The tree of a trace.
    Tree(String),
    /// The threads of a trace.
    Threads(String),
    /// The rollups of an hour.
    Rollups(i64),
}

/// What a [`RefreshStep`] holds.
pub enum Step {
    Tree(Seq<char>),
    Threads(Seq<char>),
    Rollups(i64),
}

impl View for RefreshStep {
    type V = Step;

    open spec fn view(&self) -> Step {
        match *self {
            RefreshStep::Tree(trace_id) => Step::Tree(trace_id@),
            RefreshStep::Threads(trace_id) => Step::Threads(trace_id@),
            RefreshStep::Rollups(hour) => Step::Rollups(hour),
        }
    }
}

/// A step like another.
pub fn copy_step(step: &RefreshStep) -> (r: RefreshStep)
    ensures
        r@ == step@,
{
    match step {
        RefreshStep::Tree(trace_id) => RefreshStep::Tree(trace_id.clone()),
        RefreshStep::Threads(trace_id) => RefreshStep::Threads(trace_id.clone()),
        RefreshStep::Rollups(hour) => RefreshStep::Rollups(*hour),
    }
}

pub open spec fn steps_of(steps: Seq<RefreshStep>) -> Seq<Step> {
    steps.map_values(|step: RefreshStep| step@)
}

/// The steps for traces: of each its tree, and after that its threads.
pub open spec fn trace_steps(trace_ids: Seq<Seq<char>>) -> Seq<Step>
    decreases trace_ids.len(),
{
    if trace_ids.len() == 0 {
        Seq::empty()
    } else {
        trace_steps(trace_ids.drop_last()).push(Step::Tree(trace_ids.last())).push(
            Step::Threads(trace_ids.last()),
        )
    }
}

/// The steps for traces with runs that changed and for the times at which those runs
/// started: each trace once, in order, and after all of them each hour once, in order.
pub open spec fn steps_for(trace_ids: Seq<Seq<char>>, start_times: Seq<i64>) -> Seq<Step> {
    trace_steps(ordered_set(trace_ids, text_order())) + ordered_set(
        hours_of(start_times),
        integer_order(),
    ).map_values(|hour: i64| Step::Rollups(hour))
}

/// Texts in order, each once.
fn sorted_distinct(list: &Vec<String>) -> (r: Vec<String>)
    ensures
        texts(r@) == ordered_set(texts(list@), text_order()),
{
    let ghost all = texts(list@);
    let mut out: Vec<String> = Vec::new();
    let mut i: usize = 0;
    assert(all.take(0) =~= Seq::<Seq<char>>::empty());
    assert(texts(out@) =~= Seq::<Seq<char>>::empty());
    while i < list.len()
        invariant
            i <= list.len(),
            all == texts(list@),
            texts(out@) == ordered_set(all.take(i as int), text_order()),
        decreases list.len() - i,
    {
        assert(all.take(i + 1).drop_last() =~= all.take(i as int));
        insert_text(&mut out, list[i].clone());
        i += 1;
    }
    assert(all.take(i as int) =~= all);
    out
}

/// What has to be brought up to date, in order.
pub fn refresh_steps(trace_ids: &Vec<String>, start_times: &Vec<i64>) -> (r: Vec<RefreshStep>)
    requires
        forall|i: int|
            0 <= i < start_times@.len() ==> rollup_hour_of(#[trigger] start_times@[i])
                >= i64::MIN,
    ensures
        steps_of(r@) == steps_for(texts(trace_ids@), start_times@),
{
    let traces = sorted_distinct(trace_ids);
    let ghost ids = texts(traces@);
    let mut out: Vec<RefreshStep> = Vec::new();
    let mut i: usize = 0;
    assert(ids.take(0) =~= Seq::<Seq<char>>::empty());
    assert(steps_of(out@) =~= Seq::<Step>::empty());
    while i < traces.len()
        invariant
            i <= traces.len(),
            ids == texts(traces@),
            steps_of(out@) == trace_steps(ids.take(i as int)),
        decreases traces.len() - i,
    {
        let ghost before = out@;
        assert(ids.take(i + 1).drop_last() =~= ids.take(i as int));
        out.push(RefreshStep::Tree(traces[i].clone()));
        out.push(RefreshStep::Threads(traces[i].clone()));
        assert(steps_of(out@) =~= steps_of(before).push(Step::Tree(ids[i as int])).push(
            Step::Threads(ids[i as int]),
        ));
        i += 1;
    }
    assert(ids.take(i as int) =~= ids);
    let hours = affected_hours(start_times);
    let ghost rollups = hours@.map_values(|hour: i64| Step::Rollups(hour));
    let ghost first = steps_of(out@);
    let mut j: usize = 0;
    assert(first + rollups.take(0) =~= first);
    while j < hours.len()
        invariant
            j <= hours.len(),
            rollups == hours@.map_values(|hour: i64| Step::Rollups(hour)),
            steps_of(out@) == first + rollups.take(j as int),
        decreases hours.len() - j,
    {
        let ghost before = out@;
        out.push(RefreshStep::Rollups(hours[j]));
        assert(steps_of(out@) =~= steps_of(before).push(Step::Rollups(hours@[j as int])));
        assert(first + rollups.take(j + 1) =~= (first + rollups.take(j as int)).push(
            rollups[j as int],
        ));
        j += 1;
    }
    assert(rollups.take(j as int) =~= rollups);
    out
}

pub const LOCK_PROJECT_SQL: &'static str = "SELECT name FROM projects WHERE name = $1 FOR UPDATE";

/// The statement that keeps other writers of a project waiting until this one is
/// through.
pub open spec fn project_lock_call(project_name: Seq<char>) -> Call {
    call("lock project"@, LOCK_PROJECT_SQL@).text(project_name)
}

/// The statement that keeps other writers of a project waiting until this one is
/// through.
pub fn project_lock_statement(project_name: &str) -> (r: Statement)
    ensures
        r@ == project_lock_call(project_name@),
{
    Statement::new("lock project", LOCK_PROJECT_SQL).text(project_name)
}

pub const TRACE_START_TIMES_SQL: &'static str = "SELECT DISTINCT start_time_unix_nano
            FROM run_heads
            WHERE project_name = $1 AND trace_id = $2";

/// The statement for the times at which the runs of a trace started.
pub open spec fn trace_start_times_call(project_name: Seq<char>, trace_id: Seq<char>) -> Call {
    call("load trace aggregate buckets"@, TRACE_START_TIMES_SQL@).text(project_name).text(trace_id)
}

/// The statement for the times at which the runs of a trace started.
pub fn trace_start_times_statement(project_name: &str, trace_id: &str) -> (r: Statement)
    ensures
        r@ == trace_start_times_call(project_name@, trace_id@),
{
    Statement::new("load trace aggregate buckets", TRACE_START_TIMES_SQL).text(project_name).text(
        trace_id,
    )
}

proof fn lemma_trace_steps(trace_ids: Seq<Seq<char>>, step: Step)
    ensures
        trace_steps(trace_ids).contains(step) <==> match step {
            Step::Tree(id) => trace_ids.contains(id),
            Step::Threads(id) => trace_ids.contains(id),
            Step::Rollups(_) => false,
        },
    decreases trace_ids.len(),
{
    if trace_ids.len() > 0 {
        let before = trace_ids.drop_last();
        let last = trace_ids.last();
        let rest = trace_steps(before);
        let all = trace_steps(trace_ids);
        lemma_trace_steps(before, step);
        assert(all[rest.len() as int] == Step::Tree(last));
        assert(all[rest.len() as int + 1] == Step::Threads(last));
        assert(trace_ids[trace_ids.len() - 1] == last);
        assert forall|id: Seq<char>| #[trigger] trace_ids.contains(id) <==> before.contains(id)
            || id == last by {
            if trace_ids.contains(id) {
                let k = choose|k: int| 0 <= k < trace_ids.len() && trace_ids[k] == id;
                if k < before.len() {
                    assert(before[k] == id);
                }
            }
            if before.contains(id) {
                let k = choose|k: int| 0 <= k < before.len() && before[k] == id;
                assert(trace_ids[k] == id);
            }
        }
        if all.contains(step) {
            let n = choose|n: int| 0 <= n < all.len() && all[n] == step;
            if n < rest.len() {
                assert(rest[n] == step);
                assert(rest.contains(step));
            }
        }
        if rest.contains(step) {
            let n = choose|n: int| 0 <= n < rest.len() && rest[n] == step;
            assert(all[n] == step);
        }
    }
}

/// What is brought up to date is the tree and the threads of each trace, and the rollups of each
/// hour in which a run started, and nothing else.
pub proof fn law_refresh_steps(trace_ids: Seq<Seq<char>>, start_times: Seq<i64>, step: Step)
    requires
        forall|i: int|
            0 <= i < start_times.len() ==> rollup_hour_of(#[trigger] start_times[i]) >= i64::MIN,
    ensures
        steps_for(trace_ids, start_times).contains(step) <==> match step {
            Step::Tree(id) => trace_ids.contains(id),
            Step::Threads(id) => trace_ids.contains(id),
            Step::Rollups(hour) => exists|i: int|
                0 <= i < start_times.len() && rollup_hour_of(#[trigger] start_times[i]) == hour,
        },
{
    let ids = ordered_set(trace_ids, text_order());
    let all_hours = hours_of(start_times);
    let hours = ordered_set(all_hours, integer_order());
    let first = trace_steps(ids);
    let second = hours.map_values(|hour: i64| Step::Rollups(hour));
    let all = steps_for(trace_ids, start_times);
    law_text_order();
    law_ordered_set_holds_its_elements(trace_ids, text_order());
    assert(total_order(integer_order()));
    law_ordered_set_holds_its_elements(all_hours, integer_order());
    lemma_trace_steps(ids, step);
    assert(all == first + second);
    if all.contains(step) {
        let n = choose|n: int| 0 <= n < all.len() && all[n] == step;
        if n < first.len() {
            assert(first[n] == step);
            assert(first.contains(step));
        } else {
            assert(second[n - first.len()] == step);
            let hour = hours[n - first.len()];
            assert(hours.contains(hour));
            let i = choose|i: int| 0 <= i < all_hours.len() && all_hours[i] == hour;
            law_bucket_holds_its_time(start_times[i] as int, 3_600_000_000_000);
            assert(rollup_hour_of(start_times[i]) == hour);
        }
    }
    if first.contains(step) {
        let n = choose|n: int| 0 <= n < first.len() && first[n] == step;
        assert(all[n] == step);
    }
    match step {
        Step::Rollups(hour) => {
            if exists|i: int|
                0 <= i < start_times.len() && rollup_hour_of(#[trigger] start_times[i]) == hour {
                let i = choose|i: int|
                    0 <= i < start_times.len() && rollup_hour_of(#[trigger] start_times[i]) == hour;
                assert(all_hours[i] == hour);
                assert(all_hours.contains(hour));
                assert(hours.contains(hour));
                let k = choose|k: int| 0 <= k < hours.len() && hours[k] == hour;
                assert(second[k] == step);
                assert(all[first.len() + k] == step);
            }
        },
        _ => {},
    }
}

} // verus!
