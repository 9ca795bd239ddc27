//! The statements that keep the tree of a trace up to date.

use crate::ingest::tree::RunTreeIndexNode;
use crate::ingest::tree::RunTreeInput;
use crate::ingest::tree::TreeNode;
use crate::ingest::tree::build_trace_tree_index;
use crate::ingest::tree::distinct_spans;
use crate::ingest::tree::node_views;
use crate::ingest::tree::trace_tree_index;
use crate::statement::Call;
use crate::statement::Param;
use crate::statement::Statement;
use crate::statement::call;
use crate::statement::calls_of;
use crate::statement::no_statements;
use crate::statement::push_statement;
use vstd::prelude::*;

verus! {

pub const TREE_RUNS_SQL: &'static str = "SELECT
                heads.span_id,
                heads.parent_span_id,
                heads.run_id,
                heads.start_time_unix_nano
            FROM run_heads heads
            WHERE heads.project_name = $1
                AND heads.trace_id = $2
                AND heads.deleted_at_unix_nano IS NULL
            ORDER BY heads.start_time_unix_nano ASC, heads.span_id ASC";

pub const DELETE_TREE_EDGES_SQL: &'static str = "DELETE FROM run_tree_edges WHERE project_name = $1 AND trace_id = $2";

pub const DELETE_TREE_NODES_SQL: &'static str = "DELETE FROM run_tree_nodes WHERE project_name = $1 AND trace_id = $2";

pub const INSERT_TREE_NODE_SQL: &'static str = "INSERT INTO run_tree_nodes(
                project_name, trace_id, span_id, run_id, parent_span_id,
                root_span_id, root_run_id, depth, sibling_order, subtree_start, subtree_end,
                descendant_count, unresolved_parent, cycle_detected
            )
            VALUES ($1, $2, $3, $4, $5, $6, $7, $8, $9, $10, $11, $12, $13, $14)";

pub const INSERT_TREE_EDGE_SQL: &'static str = "INSERT INTO run_tree_edges(
                    project_name, trace_id, parent_span_id, child_span_id,
                    sibling_order, depth
                )
                VALUES ($1, $2, $3, $4, $5, $6)";

pub const UPDATE_HEAD_TREE_SQL: &'static str = "UPDATE run_heads
            SET root_run_id = $4,
                root_span_id = $5,
                is_root = $6
            WHERE project_name = $1 AND trace_id = $2 AND span_id = $3";

/// A statement about a trace.
pub open spec fn tree_call(
    purpose: Seq<char>,
    sql: Seq<char>,
    project_name: Seq<char>,
    trace_id: Seq<char>,
) -> Call {
    call(purpose, sql).text(project_name).text(trace_id)
}

fn tree_statement(purpose: &str, sql: &str, project_name: &str, trace_id: &str) -> (r: Statement)
    ensures
        r@ == tree_call(purpose@, sql@, project_name@, trace_id@),
{
    Statement::new(purpose, sql).text(project_name).text(trace_id)
}

/// The statement for the runs of a trace.
pub fn tree_runs_statement(project_name: &str, trace_id: &str) -> (r: Statement)
    ensures
        r@ == tree_call(
            "load run heads for tree refresh"@,
            TREE_RUNS_SQL@,
            project_name@,
            trace_id@,
        ),
{
    tree_statement("load run heads for tree refresh", TREE_RUNS_SQL, project_name, trace_id)
}

/// The statement that adds a node.
pub open spec fn node_call(project_name: Seq<char>, trace_id: Seq<char>, node: TreeNode) -> Call {
    tree_call("insert run tree node"@, INSERT_TREE_NODE_SQL@, project_name, trace_id).text(
        node.span_id,
    ).text(node.run_id).optional_text(node.parent_span_id).text(node.root_span_id).text(
        node.root_run_id,
    ).integer(node.depth).integer(node.sibling_order).integer(node.subtree_start).integer(
        node.subtree_end,
    ).integer(node.descendant_count).flag(node.unresolved_parent).flag(node.cycle_detected)
}

/// The statement that adds the edge from a node to its parent.
pub open spec fn edge_call(
    project_name: Seq<char>,
    trace_id: Seq<char>,
    node: TreeNode,
    parent: Seq<char>,
) -> Call {
    tree_call("insert run tree edge"@, INSERT_TREE_EDGE_SQL@, project_name, trace_id).text(
        parent,
    ).text(node.span_id).integer(node.sibling_order).integer(node.depth)
}

/// The statement that tells the head of a run its place in the tree.
pub open spec fn head_call(project_name: Seq<char>, trace_id: Seq<char>, node: TreeNode) -> Call {
    tree_call("refresh run head tree fields"@, UPDATE_HEAD_TREE_SQL@, project_name, trace_id).text(
        node.span_id,
    ).text(node.root_run_id).text(node.root_span_id).flag(node.parent_span_id is None)
}

/// The statements that keep one node.
pub open spec fn node_calls(project_name: Seq<char>, trace_id: Seq<char>, node: TreeNode) -> Seq<
    Call,
> {
    let first = Seq::empty().push(node_call(project_name, trace_id, node));
    let edged = match node.parent_span_id {
        Some(parent) => first.push(edge_call(project_name, trace_id, node, parent)),
        None => first,
    };
    edged.push(head_call(project_name, trace_id, node))
}

/// The statements that keep nodes, in order.
pub open spec fn all_node_calls(
    project_name: Seq<char>,
    trace_id: Seq<char>,
    nodes: Seq<TreeNode>,
) -> Seq<Call>
    decreases nodes.len(),
{
    if nodes.len() == 0 {
        Seq::empty()
    } else {
        all_node_calls(project_name, trace_id, nodes.drop_last()) + node_calls(
            project_name,
            trace_id,
            nodes.last(),
        )
    }
}

/// The statements that replace the tree of a trace.
pub open spec fn replace_tree_calls(
    project_name: Seq<char>,
    trace_id: Seq<char>,
    nodes: Seq<TreeNode>,
) -> Seq<Call> {
    Seq::empty().push(
        tree_call("delete stale run tree edges"@, DELETE_TREE_EDGES_SQL@, project_name, trace_id),
    ).push(
        tree_call("delete stale run tree nodes"@, DELETE_TREE_NODES_SQL@, project_name, trace_id),
    ) + all_node_calls(project_name, trace_id, nodes)
}

fn push_node_statements(
    out: &mut Vec<Statement>,
    project_name: &str,
    trace_id: &str,
    node: &RunTreeIndexNode,
)
    ensures
        calls_of(final(out)@) == calls_of(old(out)@) + node_calls(
            project_name@,
            trace_id@,
            node@,
        ),
{
    let ghost done = calls_of(out@);
    push_statement(
        out,
        tree_statement("insert run tree node", INSERT_TREE_NODE_SQL, project_name, trace_id).text(
            node.span_id.as_str(),
        ).text(node.run_id.as_str()).optional_text(&node.parent_span_id).text(
            node.root_span_id.as_str(),
        ).text(node.root_run_id.as_str()).integer(node.depth).integer(node.sibling_order).integer(
            node.subtree_start,
        ).integer(node.subtree_end).integer(node.descendant_count).flag(
            node.unresolved_parent,
        ).flag(node.cycle_detected),
    );
    if let Some(parent) = &node.parent_span_id {
        push_statement(
            out,
            tree_statement(
                "insert run tree edge",
                INSERT_TREE_EDGE_SQL,
                project_name,
                trace_id,
            ).text(parent.as_str()).text(node.span_id.as_str()).integer(
                node.sibling_order,
            ).integer(node.depth),
        );
    }
    push_statement(
        out,
        tree_statement(
            "refresh run head tree fields",
            UPDATE_HEAD_TREE_SQL,
            project_name,
            trace_id,
        ).text(node.span_id.as_str()).text(node.root_run_id.as_str()).text(
            node.root_span_id.as_str(),
        ).flag(node.parent_span_id.is_none()),
    );
    assert(calls_of(out@) =~= done + node_calls(project_name@, trace_id@, node@));
}

/// The statements that replace the tree of a trace, from its runs.
pub fn replace_tree_statements(project_name: &str, trace_id: &str, runs: Vec<RunTreeInput>) -> (r:
    Vec<Statement>)
    requires
        distinct_spans(runs@),
        2 * runs@.len() <= i64::MAX,
    ensures
        calls_of(r@) == replace_tree_calls(project_name@, trace_id@, trace_tree_index(runs@)),
{
    let nodes = build_trace_tree_index(runs);
    let ghost all = node_views(nodes@);
    let mut out = no_statements();
    push_statement(
        &mut out,
        tree_statement(
            "delete stale run tree edges",
            DELETE_TREE_EDGES_SQL,
            project_name,
            trace_id,
        ),
    );
    push_statement(
        &mut out,
        tree_statement(
            "delete stale run tree nodes",
            DELETE_TREE_NODES_SQL,
            project_name,
            trace_id,
        ),
    );
    let ghost head = calls_of(out@);
    let mut i: usize = 0;
    assert(all.take(0) =~= Seq::<TreeNode>::empty());
    assert(head + Seq::<Call>::empty() =~= head);
    while i < nodes.len()
        invariant
            i <= nodes.len(),
            all == node_views(nodes@),
            calls_of(out@) == head + all_node_calls(
                project_name@,
                trace_id@,
                all.take(i as int),
            ),
        decreases nodes.len() - i,
    {
        assert(all.take(i + 1).drop_last() =~= all.take(i as int));
        assert(all.take(i + 1).last() == nodes@[i as int]@);
        push_node_statements(&mut out, project_name, trace_id, &nodes[i]);
        i += 1;
        assert(calls_of(out@) =~= head + all_node_calls(
            project_name@,
            trace_id@,
            all.take(i as int),
        ));
    }
    assert(all.take(i as int) =~= all);
    out
}

/// A run of a tree is stored with its place in it; it has an edge just if it has a parent, from
/// that parent to it; and its head says that it is a root just if it has none.
pub proof fn law_tree_rows_of_a_run(project_name: Seq<char>, trace_id: Seq<char>, node: TreeNode)
    ensures
        ({
            let calls = node_calls(project_name, trace_id, node);
            let stored = calls[0].params;
            let head = calls.last().params;
            &&& calls.len() == (if node.parent_span_id is Some {
                3int
            } else {
                2
            })
            &&& stored.len() == 14
            &&& stored[2] == Param::Text(node.span_id)
            &&& stored[3] == Param::Text(node.run_id)
            &&& stored[4] == Param::OptionalText(node.parent_span_id)
            &&& stored[5] == Param::Text(node.root_span_id)
            &&& stored[6] == Param::Text(node.root_run_id)
            &&& stored[7] == Param::Integer(node.depth)
            &&& stored[8] == Param::Integer(node.sibling_order)
            &&& stored[9] == Param::Integer(node.subtree_start)
            &&& stored[10] == Param::Integer(node.subtree_end)
            &&& stored[11] == Param::Integer(node.descendant_count)
            &&& stored[12] == Param::Flag(node.unresolved_parent)
            &&& stored[13] == Param::Flag(node.cycle_detected)
            &&& node.parent_span_id matches Some(parent) ==> {
                let edge = calls[1].params;
                &&& edge[2] == Param::Text(parent)
                &&& edge[3] == stored[2]
                &&& edge[4] == stored[8]
                &&& edge[5] == stored[7]
            }
            &&& head[2] == stored[2]
            &&& head[3] == stored[6]
            &&& head[4] == stored[5]
            &&& head[5] == Param::Flag(node.parent_span_id is None)
            &&& forall|i: int|
                0 <= i < calls.len() ==> (#[trigger] calls[i]).params[0] == Param::Text(
                    project_name,
                ) && calls[i].params[1] == Param::Text(trace_id)
        }),
{
}

} // verus!
