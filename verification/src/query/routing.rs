//! Which node ingested a project last.

use crate::statement::Call;
use crate::statement::Statement;
use crate::statement::call;
use vstd::prelude::*;

verus! {

pub const LOAD_PROJECT_ROUTE_SQL: &'static str = "SELECT project_name, node_id, last_segment_uri
                FROM project_routes
                WHERE project_name = $1";

pub const RECORD_PROJECT_ROUTE_SQL: &'static str = "INSERT INTO project_routes(project_name, node_id, last_segment_uri, updated_at)
        VALUES ($1, $2, $3, CURRENT_TIMESTAMP)
        ON CONFLICT (project_name)
        DO UPDATE SET
            node_id = EXCLUDED.node_id,
            last_segment_uri = EXCLUDED.last_segment_uri,
            updated_at = CURRENT_TIMESTAMP";

/// Which node ingested a project last, and into which segment.
#[derive(Debug, PartialEq, Eq)]
pub struct ProjectRoute {
    pub project_name: String,
    pub node_id: String,
    pub last_segment_uri: String,
}

/// The statement for the route of a project.
pub fn project_route_statement(project_name: &str) -> (r: Statement)
    ensures
        r@ == call("load project route"@, LOAD_PROJECT_ROUTE_SQL@).text(project_name@),
{
    Statement::new("load project route", LOAD_PROJECT_ROUTE_SQL).text(project_name)
}

/// The statement that records the route of a project.
pub open spec fn record_route_call(
    project_name: Seq<char>,
    node_id: Seq<char>,
    last_segment_uri: Seq<char>,
) -> Call {
    call("upsert project route"@, RECORD_PROJECT_ROUTE_SQL@).text(project_name).text(node_id).text(
        last_segment_uri,
    )
}

/// The statement that records the route of a project.
pub fn record_project_route_statement(project_name: &str, node_id: &str, last_segment_uri: &str)
    -> (r: Statement)
    ensures
        r@ == record_route_call(project_name@, node_id@, last_segment_uri@),
{
    Statement::new("upsert project route", RECORD_PROJECT_ROUTE_SQL).text(project_name).text(
        node_id,
    ).text(last_segment_uri)
}

} // verus!
