//! How long the runs of a project are kept.

use crate::query::RunSummary;
use crate::query::planner::within_retention;
use crate::statement::Call;
use crate::statement::Statement;
use crate::statement::call;
use crate::statement::calls_of;
use crate::statement::no_statements;
use crate::statement::push_statement;
use crate::time::Duration;
use vstd::prelude::*;
use vstd::string::StringExecFns;

verus! {

pub const ENSURE_PROJECT_SQL: &'static str =
    "INSERT INTO projects(name) VALUES ($1) ON CONFLICT (name) DO NOTHING";

pub const UPSERT_RETENTION_POLICY_SQL: &'static str = "INSERT INTO project_retention_policies(
                    project_name, ttl_unix_nanos, updated_at
                )
                VALUES ($1, $2, CURRENT_TIMESTAMP)
                ON CONFLICT (project_name)
                DO UPDATE SET
                    ttl_unix_nanos = EXCLUDED.ttl_unix_nanos,
                    updated_at = CURRENT_TIMESTAMP";

pub const LOAD_RETENTION_POLICY_SQL: &'static str = "SELECT project_name, ttl_unix_nanos
                FROM project_retention_policies
                WHERE project_name = $1";

pub const LIST_RETENTION_POLICIES_SQL: &'static str = "SELECT project_name, ttl_unix_nanos
                FROM project_retention_policies
                ORDER BY project_name";

/// How long the runs of a project are kept.
#[derive(Debug, PartialEq, Eq)]
pub struct ProjectRetentionPolicy {
    pub project_name: String,
    pub retention_period_nanos: i64,
}

/// What an enforcement of the policies did.
#[derive(Debug, Clone, Copy, PartialEq, Eq)]
pub struct RetentionEnforcementReceipt {
    pub projects_checked: usize,
    pub expired_runs: usize,
}

/// A retention period in nanoseconds, or why it is none.
pub open spec fn retention_nanos(period: Duration) -> Result<i64, Seq<char>> {
    if period.nanos == 0 {
        Err("retention period must be greater than zero"@)
    } else if period.nanos > i64::MAX {
        Err("retention period does not fit in i64 nanoseconds"@)
    } else {
        Ok(period.nanos as i64)
    }
}

/// A retention period in nanoseconds.
pub fn retention_period_nanos(period: Duration) -> (r: Result<i64, String>)
    ensures
        match r {
            Ok(nanos) => retention_nanos(period) == Ok::<_, Seq<char>>(nanos),
            Err(message) => retention_nanos(period) == Err::<i64, _>(message@),
        },
{
    if period.is_zero() {
        Err("retention period must be greater than zero".to_owned())
    } else if period.nanos > i64::MAX as u128 {
        Err("retention period does not fit in i64 nanoseconds".to_owned())
    } else {
        Ok(period.nanos as i64)
    }
}

/// The statements that set the retention policy of a project.
pub open spec fn set_policy_calls(project_name: Seq<char>, nanos: i64) -> Seq<Call> {
    Seq::empty().push(
        call("ensure retention policy project"@, ENSURE_PROJECT_SQL@).text(project_name),
    ).push(
        call("upsert project retention policy"@, UPSERT_RETENTION_POLICY_SQL@).text(
            project_name,
        ).integer(nanos as int),
    )
}

/// The statements that set the retention policy of a project.
pub fn set_policy_statements(project_name: &str, retention_period: Duration) -> (r: Result<
    Vec<Statement>,
    String,
>)
    ensures
        match r {
            Ok(statements) => retention_nanos(retention_period) is Ok && calls_of(statements@)
                == set_policy_calls(project_name@, retention_nanos(retention_period)->Ok_0),
            Err(message) => retention_nanos(retention_period) == Err::<i64, _>(message@),
        },
{
    match retention_period_nanos(retention_period) {
        Ok(nanos) => {
            let mut out = no_statements();
            push_statement(
                &mut out,
                Statement::new("ensure retention policy project", ENSURE_PROJECT_SQL).text(
                    project_name,
                ),
            );
            push_statement(
                &mut out,
                Statement::new(
                    "upsert project retention policy",
                    UPSERT_RETENTION_POLICY_SQL,
                ).text(project_name).integer(nanos),
            );
            Ok(out)
        },
        Err(message) => Err(message),
    }
}

/// The statement for the retention policy of a project.
pub fn load_policy_statement(project_name: &str) -> (r: Statement)
    ensures
        r@ == call("load project retention policy"@, LOAD_RETENTION_POLICY_SQL@).text(
            project_name@,
        ),
{
    Statement::new("load project retention policy", LOAD_RETENTION_POLICY_SQL).text(project_name)
}

/// The statement for all retention policies.
pub fn list_policies_statement() -> (r: Statement)
    ensures
        r@ == call("list project retention policies"@, LIST_RETENTION_POLICIES_SQL@),
{
    Statement::new("list project retention policies", LIST_RETENTION_POLICIES_SQL)
}

/// Before which time the runs of a project are past its policy, or why there is
/// no such time.
pub open spec fn retention_cutoff(policy: ProjectRetentionPolicy, now: i64) -> Result<
    i64,
    Seq<char>,
> {
    let cutoff = now - policy.retention_period_nanos;
    if i64::MIN <= cutoff <= i64::MAX {
        Ok(cutoff as i64)
    } else {
        Err("retention cutoff underflow for "@ + policy.project_name@)
    }
}

/// What to do next when the policies are enforced.
#[derive(Debug, PartialEq, Eq)]
pub enum RetentionAction {
    /// Expire the runs of the project that started before the cutoff.
    Expire { project_name: String, cutoff_unix_nano: i64 },
    Finished(RetentionEnforcementReceipt),
    Failed(String),
}

pub open spec fn sum_of_sizes(sizes: Seq<usize>) -> int
    decreases sizes.len(),
{
    if sizes.len() == 0 {
        0
    } else {
        sum_of_sizes(sizes.drop_last()) + sizes.last()
    }
}

/// How many there are in all.
pub fn sum_sizes(sizes: &Vec<usize>) -> (r: usize)
    requires
        sum_of_sizes(sizes@) <= usize::MAX,
    ensures
        r == sum_of_sizes(sizes@),
{
    let mut total: usize = 0;
    let mut i: usize = 0;
    assert(sizes@.take(0) =~= Seq::<usize>::empty());
    while i < sizes.len()
        invariant
            i <= sizes.len(),
            sum_of_sizes(sizes@) <= usize::MAX,
            total == sum_of_sizes(sizes@.take(i as int)),
        decreases sizes.len() - i,
    {
        assert(sizes@.take(i + 1).drop_last() =~= sizes@.take(i as int));
        proof {
            lemma_sum_of_prefix(sizes@, i + 1);
        }
        total += sizes[i];
        i += 1;
    }
    assert(sizes@.take(i as int) =~= sizes@);
    total
}

proof fn lemma_sum_of_prefix(sizes: Seq<usize>, n: int)
    requires
        0 <= n <= sizes.len(),
    ensures
        sum_of_sizes(sizes.take(n)) <= sum_of_sizes(sizes),
    decreases sizes.len(),
{
    if n == sizes.len() {
        assert(sizes.take(n) =~= sizes);
    } else {
        lemma_sum_of_prefix(sizes.drop_last(), n);
        assert(sizes.drop_last().take(n) =~= sizes.take(n));
    }
}

/// What to do next when the policies are enforced one by one, and `expired` says
/// how many runs were expired for each of the first.
pub fn next_retention_action(
    policies: &Vec<ProjectRetentionPolicy>,
    now_unix_nano: i64,
    expired: &Vec<usize>,
) -> (r: RetentionAction)
    requires
        sum_of_sizes(expired@) <= usize::MAX,
    ensures
        expired@.len() >= policies@.len() ==> r == RetentionAction::Finished(
            RetentionEnforcementReceipt {
                projects_checked: policies@.len() as usize,
                expired_runs: sum_of_sizes(expired@) as usize,
            },
        ),
        expired@.len() < policies@.len() ==> {
            let policy = policies@[expired@.len() as int];
            match retention_cutoff(policy, now_unix_nano) {
                Ok(cutoff) => r matches RetentionAction::Expire { project_name, cutoff_unix_nano }
                    && project_name@ == policy.project_name@ && cutoff_unix_nano == cutoff,
                Err(message) => r matches RetentionAction::Failed(text) && text@ == message,
            }
        },
{
    let done = expired.len();
    if done >= policies.len() {
        return RetentionAction::Finished(
            RetentionEnforcementReceipt {
                projects_checked: policies.len(),
                expired_runs: sum_sizes(expired),
            },
        );
    }
    let policy = &policies[done];
    match now_unix_nano.checked_sub(policy.retention_period_nanos) {
        Some(cutoff_unix_nano) => RetentionAction::Expire {
            project_name: policy.project_name.clone(),
            cutoff_unix_nano,
        },
        None => {
            let mut message = "retention cutoff underflow for ".to_owned();
            message.append(policy.project_name.as_str());
            RetentionAction::Failed(message)
        },
    }
}

/// A run is kept, as of the cutoff of its project, just if it is no older than the retention
/// period.
pub proof fn law_runs_are_kept_for_the_period(
    policy: ProjectRetentionPolicy,
    now: i64,
    run: RunSummary,
)
    requires
        retention_cutoff(policy, now) is Ok,
    ensures
        within_retention(run, Some(retention_cutoff(policy, now)->Ok_0)) <==> now
            - run.start_time_unix_nano <= policy.retention_period_nanos,
{
}

/// A retention period is taken as it is, if it is one: not nothing, and not more than can be
/// said. For such a period there is a cutoff at every time since the epoch.
pub proof fn law_retention_periods(period: Duration, project_name: String, now: i64)
    ensures
        retention_nanos(period) is Ok <==> 0 < period.nanos <= i64::MAX,
        retention_nanos(period) matches Ok(nanos) ==> nanos == period.nanos && (0 <= now
            ==> retention_cutoff(
            ProjectRetentionPolicy { project_name, retention_period_nanos: nanos },
            now,
        ) is Ok),
{
}

} // verus!
