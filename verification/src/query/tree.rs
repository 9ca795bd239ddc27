//! The tree of a trace, put together from its runs.

use crate::query::RunSummary;
use crate::query::scan::RunQueryDiagnostics;
use crate::query::scan::metadata_diagnostics;
use crate::query::scan::metastore_only_diagnostics;
use crate::statement::Statement;
use crate::statement::call;
use crate::text::same;
use crate::time::Duration;
use vstd::hash_set::StringHashSet;
use vstd::prelude::*;
use vstd::std_specs::hash::*;

verus! {

/// A run with the runs under it.
#[derive(Debug, PartialEq, Eq)]
pub struct RunNode {
    pub run: RunSummary,
    pub children: Vec<RunNode>,
}

/// What a [`RunNode`] holds.
pub struct Node {
    pub run: RunSummary,
    pub children: Seq<Node>,
}

impl RunNode {
    pub open spec fn model(&self) -> Node
        decreases self,
    {
        Node {
            run: self.run,
            children: Seq::new(
                self.children@.len(),
                |i: int|
                    if 0 <= i < self.children@.len() {
                        self.children@[i].model()
                    } else {
                        arbitrary()
                    },
            ),
        }
    }
}

impl View for RunNode {
    type V = Node;

    open spec fn view(&self) -> Node {
        self.model()
    }
}

pub open spec fn nodes_of(nodes: Seq<RunNode>) -> Seq<Node> {
    nodes.map_values(|node: RunNode| node@)
}

proof fn lemma_node_view(node: RunNode)
    ensures
        node@ == (Node { run: node.run, children: nodes_of(node.children@) }),
{
    reveal_with_fuel(RunNode::model, 2);
    assert(node@.children =~= nodes_of(node.children@));
}

/// The tree of a trace.
#[derive(Debug, PartialEq, Eq)]
pub struct TraceTree {
    pub project_name: String,
    pub trace_id: String,
    pub roots: Vec<RunNode>,
}

/// The spans of runs, in order.
pub open spec fn span_ids(runs: Seq<RunSummary>) -> Seq<Seq<char>> {
    runs.map_values(|run: RunSummary| run.span_id@)
}

/// The span that a run stands under: none, if its parent is not among the runs.
pub open spec fn known_parent(runs: Seq<RunSummary>, run: RunSummary) -> Option<Seq<char>> {
    match run.parent_span_id {
        Some(parent) => if span_ids(runs).contains(parent@) {
            Some(parent@)
        } else {
            None
        },
        None => None,
    }
}

/// The spans of those of the first `n` runs that stand under `parent`, in order.
pub open spec fn spans_under(runs: Seq<RunSummary>, parent: Option<Seq<char>>, n: int) -> Seq<
    Seq<char>,
>
    decreases n,
{
    if n <= 0 {
        Seq::empty()
    } else {
        let rest = spans_under(runs, parent, n - 1);
        if known_parent(runs, runs[n - 1]) == parent {
            rest.push(runs[n - 1].span_id@)
        } else {
            rest
        }
    }
}

/// The spans that stand under `parent`, in order.
pub open spec fn children_of(runs: Seq<RunSummary>, parent: Option<Seq<char>>) -> Seq<Seq<char>> {
    spans_under(runs, parent, runs.len() as int)
}

/// The run of a span: the last one, if there are several.
pub open spec fn run_of(runs: Seq<RunSummary>, id: Seq<char>) -> RunSummary
    decreases runs.len(),
{
    if runs.len() == 0 {
        arbitrary()
    } else if runs.last().span_id@ == id {
        runs.last()
    } else {
        run_of(runs.drop_last(), id)
    }
}

/// How many spans were not visited.
pub open spec fn unvisited(runs: Seq<RunSummary>, visited: Set<Seq<char>>) -> nat {
    span_ids(runs).to_set().difference(visited).len()
}

/// The node of a span with all that stands under it and was not visited before,
/// and what has been visited then; or none, if the span was.
pub open spec fn grown(runs: Seq<RunSummary>, id: Seq<char>, visited: Set<Seq<char>>) -> (
    Option<Node>,
    Set<Seq<char>>,
)
    decreases unvisited(runs, visited), 0nat,
{
    let now = visited.insert(id);
    if visited.contains(id) || unvisited(runs, now) >= unvisited(runs, visited) {
        (None, visited)
    } else {
        let (children, after) = all_grown(runs, children_of(runs, Some(id)), now);
        (Some(Node { run: run_of(runs, id), children }), after)
    }
}

/// The nodes of several spans, one after the other.
pub open spec fn all_grown(
    runs: Seq<RunSummary>,
    ids: Seq<Seq<char>>,
    visited: Set<Seq<char>>,
) -> (Seq<Node>, Set<Seq<char>>)
    decreases unvisited(runs, visited), 1 + ids.len(),
{
    if ids.len() == 0 {
        (Seq::empty(), visited)
    } else {
        let (nodes, between) = all_grown(runs, ids.drop_last(), visited);
        if unvisited(runs, between) <= unvisited(runs, visited) {
            let (node, after) = grown(runs, ids.last(), between);
            (with_node(nodes, node), after)
        } else {
            (nodes, between)
        }
    }
}

pub open spec fn with_node(nodes: Seq<Node>, node: Option<Node>) -> Seq<Node> {
    match node {
        Some(n) => nodes.push(n),
        None => nodes,
    }
}

/// The trees of the runs: first those under a run without a known parent, then
/// those that are left, which stand in a circle.
pub open spec fn forest(runs: Seq<RunSummary>) -> Seq<Node> {
    let (roots, visited) = all_grown(runs, children_of(runs, None), Set::empty());
    roots + all_grown(runs, span_ids(runs), visited).0
}

pub open spec fn opt_node(node: Option<RunNode>) -> Option<Node> {
    match node {
        Some(n) => Some(n@),
        None => None,
    }
}

proof fn lemma_unvisited(runs: Seq<RunSummary>, visited: Set<Seq<char>>, more: Set<Seq<char>>)
    requires
        visited.subset_of(more),
    ensures
        unvisited(runs, more) <= unvisited(runs, visited),
        forall|id: Seq<char>|
            #![trigger visited.insert(id)]
            span_ids(runs).contains(id) && !visited.contains(id) ==> unvisited(
                runs,
                visited.insert(id),
            ) < unvisited(runs, visited),
{
    let ids = span_ids(runs).to_set();
    vstd::seq_lib::seq_to_set_is_finite(span_ids(runs));
    let left = ids.difference(visited);
    assert(ids.difference(more).subset_of(left));
    assert(left.finite());
    vstd::set_lib::lemma_len_subset(ids.difference(more), left);
    assert forall|id: Seq<char>|
        #![trigger visited.insert(id)]
        span_ids(runs).contains(id) && !visited.contains(id) implies unvisited(
        runs,
        visited.insert(id),
    ) < unvisited(runs, visited) by {
        assert(ids.contains(id));
        assert(left.contains(id));
        assert(ids.difference(visited.insert(id)) =~= left.remove(id));
    }
}

proof fn lemma_under_are_known(runs: Seq<RunSummary>, parent: Option<Seq<char>>, n: int)
    requires
        0 <= n <= runs.len(),
    ensures
        forall|k: int|
            0 <= k < spans_under(runs, parent, n).len() ==> span_ids(runs).contains(
                #[trigger] spans_under(runs, parent, n)[k],
            ),
    decreases n,
{
    if n > 0 {
        lemma_under_are_known(runs, parent, n - 1);
        assert(span_ids(runs)[n - 1] == runs[n - 1].span_id@);
        let rest = spans_under(runs, parent, n - 1);
        let all = spans_under(runs, parent, n);
        assert forall|k: int| 0 <= k < all.len() implies span_ids(runs).contains(
            #[trigger] all[k],
        ) by {
            if k < rest.len() {
                assert(all[k] == rest[k]);
            }
        }
    }
}

/// Nothing that was visited is forgotten.
proof fn lemma_grown_visits(runs: Seq<RunSummary>, id: Seq<char>, visited: Set<Seq<char>>)
    ensures
        visited.subset_of(grown(runs, id, visited).1),
    decreases unvisited(runs, visited), 0nat,
{
    let now = visited.insert(id);
    if !(visited.contains(id) || unvisited(runs, now) >= unvisited(runs, visited)) {
        lemma_all_grown_visits(runs, children_of(runs, Some(id)), now);
    }
}

proof fn lemma_all_grown_visits(
    runs: Seq<RunSummary>,
    ids: Seq<Seq<char>>,
    visited: Set<Seq<char>>,
)
    ensures
        visited.subset_of(all_grown(runs, ids, visited).1),
    decreases unvisited(runs, visited), 1 + ids.len(),
{
    if ids.len() > 0 {
        lemma_all_grown_visits(runs, ids.drop_last(), visited);
        let between = all_grown(runs, ids.drop_last(), visited).1;
        lemma_unvisited(runs, visited, between);
        lemma_grown_visits(runs, ids.last(), between);
    }
}

fn is_known(runs: &Vec<RunSummary>, id: &str) -> (r: bool)
    ensures
        r == span_ids(runs@).contains(id@),
{
    let mut i: usize = 0;
    while i < runs.len()
        invariant
            i <= runs.len(),
            forall|j: int| 0 <= j < i ==> #[trigger] span_ids(runs@)[j] != id@,
        decreases runs.len() - i,
    {
        if same(runs[i].span_id.as_str(), id) {
            assert(span_ids(runs@)[i as int] == id@);
            return true;
        }
        i += 1;
    }
    false
}

fn last_run_of(runs: &Vec<RunSummary>, id: &str) -> (r: RunSummary)
    requires
        span_ids(runs@).contains(id@),
    ensures
        r == run_of(runs@, id@),
{
    let mut i: usize = runs.len();
    assert(runs@.take(i as int) =~= runs@);
    while i > 0
        invariant
            0 <= i <= runs.len(),
            span_ids(runs@.take(i as int)).contains(id@),
            run_of(runs@, id@) == run_of(runs@.take(i as int), id@),
        decreases i,
    {
        let ghost part = runs@.take(i as int);
        assert(part.drop_last() =~= runs@.take(i - 1));
        if same(runs[i - 1].span_id.as_str(), id) {
            return runs[i - 1].clone();
        }
        proof {
            let k = choose|k: int| 0 <= k < span_ids(part).len() && span_ids(part)[k] == id@;
            assert(span_ids(runs@.take(i - 1))[k] == id@);
        }
        i -= 1;
    }
    runs[0].clone()
}

/// Whether the run stands under the span.
fn stands_under(runs: &Vec<RunSummary>, run: &RunSummary, parent: &Option<String>) -> (r: bool)
    ensures
        r == (known_parent(runs@, *run) == crate::text::opt_text(*parent)),
{
    let known = match &run.parent_span_id {
        Some(id) => is_known(runs, id.as_str()),
        None => false,
    };
    match parent {
        Some(wanted) => match &run.parent_span_id {
            Some(id) => known && same(id.as_str(), wanted.as_str()),
            None => false,
        },
        None => !known,
    }
}

fn build_run_node(runs: &Vec<RunSummary>, id: &str, visited: &mut StringHashSet) -> (r: Option<
    RunNode,
>)
    requires
        span_ids(runs@).contains(id@),
    ensures
        opt_node(r) == grown(runs@, id@, old(visited)@).0,
        final(visited)@ == grown(runs@, id@, old(visited)@).1,
    decreases unvisited(runs@, old(visited)@), 0nat, 0nat,
{
    let ghost before = visited@;
    proof {
        lemma_unvisited(runs@, before, before);
    }
    if visited.contains(id) {
        return None;
    }
    visited.insert(id.to_owned());
    let children = build_under(runs, &Some(id.to_owned()), visited);
    let node = RunNode { run: last_run_of(runs, id), children };
    proof {
        lemma_node_view(node);
    }
    Some(node)
}

/// The nodes of the spans that stand under `parent`, one after the other.
fn build_under(runs: &Vec<RunSummary>, parent: &Option<String>, visited: &mut StringHashSet) -> (r:
    Vec<RunNode>)
    ensures
        nodes_of(r@) == all_grown(
            runs@,
            children_of(runs@, crate::text::opt_text(*parent)),
            old(visited)@,
        ).0,
        final(visited)@ == all_grown(
            runs@,
            children_of(runs@, crate::text::opt_text(*parent)),
            old(visited)@,
        ).1,
    decreases unvisited(runs@, old(visited)@), 1nat, 0nat,
{
    let ghost under = crate::text::opt_text(*parent);
    let ghost before = visited@;
    let mut nodes: Vec<RunNode> = Vec::new();
    let mut i: usize = 0;
    assert(nodes_of(nodes@) =~= Seq::<Node>::empty());
    while i < runs.len()
        invariant
            i <= runs.len(),
            under == crate::text::opt_text(*parent),
            nodes_of(nodes@) == all_grown(runs@, spans_under(runs@, under, i as int), before).0,
            visited@ == all_grown(runs@, spans_under(runs@, under, i as int), before).1,
            before == old(visited)@,
        decreases runs.len() - i,
    {
        let ghost ids = spans_under(runs@, under, i + 1);
        proof {
            lemma_all_grown_visits(runs@, spans_under(runs@, under, i as int), before);
            lemma_unvisited(runs@, before, visited@);
        }
        let run = &runs[i];
        if stands_under(runs, run, parent) {
            assert(span_ids(runs@)[i as int] == run.span_id@);
            assert(ids.drop_last() =~= spans_under(runs@, under, i as int));
            let ghost had = nodes@;
            match build_run_node(runs, run.span_id.as_str(), visited) {
                Some(node) => {
                    nodes.push(node);
                    assert(nodes_of(nodes@) =~= nodes_of(had).push(node@));
                },
                None => {},
            }
        }
        i += 1;
    }
    nodes
}

fn build_rest(runs: &Vec<RunSummary>, visited: &mut StringHashSet) -> (r: Vec<RunNode>)
    ensures
        nodes_of(r@) == all_grown(runs@, span_ids(runs@), old(visited)@).0,
        final(visited)@ == all_grown(runs@, span_ids(runs@), old(visited)@).1,
{
    let ghost before = visited@;
    let mut nodes: Vec<RunNode> = Vec::new();
    let mut i: usize = 0;
    assert(nodes_of(nodes@) =~= Seq::<Node>::empty());
    assert(span_ids(runs@).take(0) =~= Seq::<Seq<char>>::empty());
    while i < runs.len()
        invariant
            i <= runs.len(),
            nodes_of(nodes@) == all_grown(runs@, span_ids(runs@).take(i as int), before).0,
            visited@ == all_grown(runs@, span_ids(runs@).take(i as int), before).1,
        decreases runs.len() - i,
    {
        let ghost ids = span_ids(runs@).take(i + 1);
        assert(ids.drop_last() =~= span_ids(runs@).take(i as int));
        assert(ids.last() == runs@[i as int].span_id@);
        assert(span_ids(runs@)[i as int] == runs@[i as int].span_id@);
        proof {
            lemma_all_grown_visits(runs@, ids.drop_last(), before);
            lemma_unvisited(runs@, before, visited@);
        }
        let ghost had = nodes@;
        match build_run_node(runs, runs[i].span_id.as_str(), visited) {
            Some(node) => {
                nodes.push(node);
                assert(nodes_of(nodes@) =~= nodes_of(had).push(node@));
            },
            None => {},
        }
        i += 1;
    }
    assert(span_ids(runs@).take(i as int) =~= span_ids(runs@));
    nodes
}

/// The tree of a trace, put together from its runs.
pub fn trace_tree_from_runs(project_name: &str, trace_id: &str, runs: &Vec<RunSummary>) -> (r:
    TraceTree)
    ensures
        r.project_name@ == project_name@,
        r.trace_id@ == trace_id@,
        nodes_of(r.roots@) == forest(runs@),
{
    let mut visited = StringHashSet::new();
    let mut roots = build_under(runs, &None, &mut visited);
    let mut rest = build_rest(runs, &mut visited);
    let ghost first = roots@;
    let ghost second = rest@;
    roots.append(&mut rest);
    assert(nodes_of(roots@) =~= nodes_of(first) + nodes_of(second));
    TraceTree { project_name: project_name.to_owned(), trace_id: trace_id.to_owned(), roots }
}

/// The spans of a tree: that of the node, then those under it.
pub open spec fn spans_in(node: Node) -> Seq<Seq<char>>
    decreases node, 0nat,
{
    seq![node.run.span_id@] + spans_in_all(node.children)
}

/// The spans of several trees.
pub open spec fn spans_in_all(nodes: Seq<Node>) -> Seq<Seq<char>>
    decreases nodes, 1nat,
{
    if nodes.len() == 0 {
        Seq::empty()
    } else {
        spans_in_all(nodes.drop_last()) + spans_in(nodes.last())
    }
}

/// Whether these are different spans, none of them visited before, and all that
/// was visited in between.
pub open spec fn newly_visited(
    spans: Seq<Seq<char>>,
    before: Set<Seq<char>>,
    after: Set<Seq<char>>,
) -> bool {
    &&& spans.no_duplicates()
    &&& forall|id: Seq<char>| #[trigger] spans.contains(id) ==> !before.contains(id)
    &&& forall|id: Seq<char>| #[trigger]
        after.contains(id) <==> before.contains(id) || spans.contains(id)
}

proof fn lemma_newly_visited_chain(
    a: Seq<Seq<char>>,
    b: Seq<Seq<char>>,
    s0: Set<Seq<char>>,
    s1: Set<Seq<char>>,
    s2: Set<Seq<char>>,
)
    requires
        newly_visited(a, s0, s1),
        newly_visited(b, s1, s2),
    ensures
        newly_visited(a + b, s0, s2),
{
    let c = a + b;
    assert forall|id: Seq<char>| #[trigger] c.contains(id) <==> a.contains(id) || b.contains(
        id,
    ) by {
        if a.contains(id) {
            let k = a.index_of(id);
            assert(c[k] == id);
        }
        if b.contains(id) {
            let k = b.index_of(id);
            assert(c[a.len() + k] == id);
        }
    }
    assert forall|i: int, j: int| 0 <= i < c.len() && 0 <= j < c.len() && i != j implies c[i]
        != c[j] by {
        if i < a.len() && j >= a.len() {
            assert(a.contains(c[i]) && b.contains(c[j]));
        }
        if j < a.len() && i >= a.len() {
            assert(a.contains(c[j]) && b.contains(c[i]));
        }
    }
}

proof fn lemma_run_of_has_span(runs: Seq<RunSummary>, id: Seq<char>)
    requires
        span_ids(runs).contains(id),
    ensures
        run_of(runs, id).span_id@ == id,
        runs.contains(run_of(runs, id)),
    decreases runs.len(),
{
    let k = choose|k: int| 0 <= k < span_ids(runs).len() && span_ids(runs)[k] == id;
    if runs.last().span_id@ == id {
        assert(runs[runs.len() - 1] == runs.last());
    } else {
        let rest = runs.drop_last();
        assert(span_ids(rest)[k] == id);
        lemma_run_of_has_span(rest, id);
        let at = choose|at: int| 0 <= at < rest.len() && rest[at] == run_of(rest, id);
        assert(runs[at] == run_of(rest, id));
    }
}

proof fn lemma_grown_once(runs: Seq<RunSummary>, id: Seq<char>, visited: Set<Seq<char>>)
    requires
        span_ids(runs).contains(id),
    ensures
        ({
            let (node, after) = grown(runs, id, visited);
            &&& after.contains(id)
            &&& node is None ==> after == visited
            &&& node is Some ==> newly_visited(spans_in(node->0), visited, after)
        }),
    decreases unvisited(runs, visited), 0nat,
{
    let now = visited.insert(id);
    lemma_unvisited(runs, visited, visited);
    if !visited.contains(id) {
        let ids = children_of(runs, Some(id));
        lemma_under_are_known(runs, Some(id), runs.len() as int);
        lemma_all_grown_once(runs, ids, now);
        let (children, after) = all_grown(runs, ids, now);
        lemma_run_of_has_span(runs, id);
        let own = seq![id];
        assert(newly_visited(own, visited, now)) by {
            assert(own.contains(id)) by {
                assert(own[0] == id);
            }
        }
        lemma_newly_visited_chain(own, spans_in_all(children), visited, now, after);
    }
}

proof fn lemma_all_grown_once(runs: Seq<RunSummary>, ids: Seq<Seq<char>>, visited: Set<Seq<char>>)
    requires
        forall|k: int| 0 <= k < ids.len() ==> span_ids(runs).contains(#[trigger] ids[k]),
    ensures
        ({
            let (nodes, after) = all_grown(runs, ids, visited);
            &&& newly_visited(spans_in_all(nodes), visited, after)
            &&& forall|k: int| 0 <= k < ids.len() ==> after.contains(#[trigger] ids[k])
        }),
    decreases unvisited(runs, visited), 1 + ids.len(),
{
    if ids.len() > 0 {
        let rest = ids.drop_last();
        assert forall|k: int| 0 <= k < rest.len() implies span_ids(runs).contains(
            #[trigger] rest[k],
        ) by {
            assert(rest[k] == ids[k]);
        }
        lemma_all_grown_once(runs, rest, visited);
        let (nodes, between) = all_grown(runs, rest, visited);
        lemma_all_grown_visits(runs, rest, visited);
        lemma_unvisited(runs, visited, between);
        assert(ids[ids.len() - 1] == ids.last());
        lemma_grown_once(runs, ids.last(), between);
        lemma_grown_visits(runs, ids.last(), between);
        let (node, after) = grown(runs, ids.last(), between);
        if node is Some {
            lemma_newly_visited_chain(
                spans_in_all(nodes),
                spans_in(node->0),
                visited,
                between,
                after,
            );
            assert(nodes.push(node->0).drop_last() =~= nodes);
        }
        assert forall|k: int| 0 <= k < ids.len() implies after.contains(#[trigger] ids[k]) by {
            if k < ids.len() - 1 {
                assert(rest[k] == ids[k]);
            }
        }
    }
}

proof fn lemma_spans_in_all_of_two(a: Seq<Node>, b: Seq<Node>)
    ensures
        spans_in_all(a + b) == spans_in_all(a) + spans_in_all(b),
    decreases b.len(),
{
    if b.len() == 0 {
        assert(a + b =~= a);
        assert(spans_in_all(a) + spans_in_all(b) =~= spans_in_all(a));
    } else {
        assert((a + b).drop_last() =~= a + b.drop_last());
        lemma_spans_in_all_of_two(a, b.drop_last());
        assert(spans_in_all(a) + (spans_in_all(b.drop_last()) + spans_in(b.last())) =~= (
        spans_in_all(a) + spans_in_all(b.drop_last())) + spans_in(b.last()));
    }
}

/// Each span of the runs stands in the tree of its trace exactly once, whatever
/// the parents say: none is lost, in a circle or below a parent that is missing,
/// and none stands there twice.
pub proof fn law_tree_holds_each_span_once(runs: Seq<RunSummary>)
    ensures
        spans_in_all(forest(runs)).no_duplicates(),
        forall|id: Seq<char>| #[trigger]
            spans_in_all(forest(runs)).contains(id) <==> span_ids(runs).contains(id),
{
    let none = Set::<Seq<char>>::empty();
    let ids = children_of(runs, None);
    lemma_under_are_known(runs, None, runs.len() as int);
    lemma_all_grown_once(runs, ids, none);
    let (roots, visited) = all_grown(runs, ids, none);
    assert forall|k: int| 0 <= k < span_ids(runs).len() implies span_ids(runs).contains(
        #[trigger] span_ids(runs)[k],
    ) by {}
    lemma_all_grown_once(runs, span_ids(runs), visited);
    let (rest, after) = all_grown(runs, span_ids(runs), visited);
    lemma_newly_visited_chain(spans_in_all(roots), spans_in_all(rest), none, visited, after);
    lemma_spans_in_all_of_two(roots, rest);
    assert forall|id: Seq<char>| #[trigger]
        spans_in_all(forest(runs)).contains(id) <==> span_ids(runs).contains(id) by {
        if span_ids(runs).contains(id) {
            let k = span_ids(runs).index_of(id);
            assert(span_ids(runs)[k] == id);
            assert(after.contains(id));
        }
        if spans_in_all(forest(runs)).contains(id) {
            lemma_visited_are_known(runs, ids, none);
            lemma_visited_are_known(runs, span_ids(runs), visited);
            assert(after.contains(id));
        }
    }
}

proof fn lemma_visited_are_known(
    runs: Seq<RunSummary>,
    ids: Seq<Seq<char>>,
    visited: Set<Seq<char>>,
)
    requires
        forall|id: Seq<char>| #[trigger] visited.contains(id) ==> span_ids(runs).contains(id),
        forall|k: int| 0 <= k < ids.len() ==> span_ids(runs).contains(#[trigger] ids[k]),
    ensures
        forall|id: Seq<char>| #[trigger]
            all_grown(runs, ids, visited).1.contains(id) ==> span_ids(runs).contains(id),
    decreases unvisited(runs, visited), ids.len(),
{
    if ids.len() > 0 {
        let rest = ids.drop_last();
        assert forall|k: int| 0 <= k < rest.len() implies span_ids(runs).contains(
            #[trigger] rest[k],
        ) by {
            assert(rest[k] == ids[k]);
        }
        lemma_visited_are_known(runs, rest, visited);
        let between = all_grown(runs, rest, visited).1;
        lemma_all_grown_visits(runs, rest, visited);
        lemma_unvisited(runs, visited, between);
        lemma_unvisited(runs, between, between);
        let id = ids.last();
        assert(ids[ids.len() - 1] == id);
        if !between.contains(id) {
            let now = between.insert(id);
            lemma_under_are_known(runs, Some(id), runs.len() as int);
            lemma_visited_are_known(runs, children_of(runs, Some(id)), now);
            assert(grown(runs, id, between).1 == all_grown(
                runs,
                children_of(runs, Some(id)),
                now,
            ).1);
        }
        assert(all_grown(runs, ids, visited).1 == grown(runs, id, between).1);
    }
}

/// Whether each run below the node names the span right above it as its parent.
pub open spec fn linked(node: Node) -> bool
    decreases node,
{
    forall|k: int|
        0 <= k < node.children.len() ==> {
            let child = #[trigger] node.children[k];
            &&& child.run.parent_span_id is Some
            &&& child.run.parent_span_id->0@ == node.run.span_id@
            &&& linked(child)
        }
}

proof fn lemma_only_run_of(runs: Seq<RunSummary>, k: int)
    requires
        span_ids(runs).no_duplicates(),
        0 <= k < runs.len(),
    ensures
        run_of(runs, runs[k].span_id@) == runs[k],
    decreases runs.len(),
{
    assert(span_ids(runs)[k] == runs[k].span_id@);
    assert(span_ids(runs)[runs.len() - 1] == runs.last().span_id@);
    if k < runs.len() - 1 {
        let rest = runs.drop_last();
        assert(span_ids(rest) =~= span_ids(runs).drop_last());
        assert(span_ids(rest).no_duplicates());
        assert(rest[k] == runs[k]);
        lemma_only_run_of(rest, k);
    }
}

proof fn lemma_under_names_parent(runs: Seq<RunSummary>, parent: Seq<char>, n: int)
    requires
        span_ids(runs).no_duplicates(),
        0 <= n <= runs.len(),
    ensures
        forall|k: int|
            0 <= k < spans_under(runs, Some(parent), n).len() ==> {
                let run = run_of(runs, #[trigger] spans_under(runs, Some(parent), n)[k]);
                run.parent_span_id is Some && run.parent_span_id->0@ == parent
            },
    decreases n,
{
    if n > 0 {
        lemma_under_names_parent(runs, parent, n - 1);
        lemma_only_run_of(runs, n - 1);
        let rest = spans_under(runs, Some(parent), n - 1);
        let all = spans_under(runs, Some(parent), n);
        assert forall|k: int| 0 <= k < all.len() implies {
            let run = run_of(runs, #[trigger] all[k]);
            run.parent_span_id is Some && run.parent_span_id->0@ == parent
        } by {
            if k < rest.len() {
                assert(all[k] == rest[k]);
            }
        }
    }
}

proof fn lemma_grown_linked(runs: Seq<RunSummary>, id: Seq<char>, visited: Set<Seq<char>>)
    requires
        span_ids(runs).no_duplicates(),
        span_ids(runs).contains(id),
    ensures
        ({
            let node = grown(runs, id, visited).0;
            node is Some ==> node->0.run == run_of(runs, id) && linked(node->0)
        }),
    decreases unvisited(runs, visited), 0nat,
{
    lemma_unvisited(runs, visited, visited);
    if !visited.contains(id) {
        let now = visited.insert(id);
        let ids = children_of(runs, Some(id));
        lemma_under_are_known(runs, Some(id), runs.len() as int);
        lemma_under_names_parent(runs, id, runs.len() as int);
        lemma_all_grown_linked(runs, ids, now);
        lemma_run_of_has_span(runs, id);
        let children = all_grown(runs, ids, now).0;
        let node = grown(runs, id, visited).0->0;
        assert(node.children == children);
        assert forall|k: int| 0 <= k < children.len() implies {
            let child = #[trigger] node.children[k];
            &&& child.run.parent_span_id is Some
            &&& child.run.parent_span_id->0@ == node.run.span_id@
            &&& linked(child)
        } by {
            assert(grown_from(children[k], runs, ids));
            let j = choose|j: int|
                0 <= j < ids.len() && children[k].run == run_of(runs, #[trigger] ids[j]);
            assert(ids[j] == spans_under(runs, Some(id), runs.len() as int)[j]);
        }
    }
}

spec fn grown_from(node: Node, runs: Seq<RunSummary>, ids: Seq<Seq<char>>) -> bool {
    linked(node) && exists|j: int|
        0 <= j < ids.len() && node.run == run_of(runs, #[trigger] ids[j])
}

proof fn lemma_all_grown_linked(
    runs: Seq<RunSummary>,
    ids: Seq<Seq<char>>,
    visited: Set<Seq<char>>,
)
    requires
        span_ids(runs).no_duplicates(),
        forall|k: int| 0 <= k < ids.len() ==> span_ids(runs).contains(#[trigger] ids[k]),
    ensures
        forall|k: int|
            0 <= k < all_grown(runs, ids, visited).0.len() ==> grown_from(
                #[trigger] all_grown(runs, ids, visited).0[k],
                runs,
                ids,
            ),
    decreases unvisited(runs, visited), 1 + ids.len(),
{
    if ids.len() > 0 {
        let rest = ids.drop_last();
        assert forall|k: int| 0 <= k < rest.len() implies span_ids(runs).contains(
            #[trigger] rest[k],
        ) by {
            assert(rest[k] == ids[k]);
        }
        lemma_all_grown_linked(runs, rest, visited);
        let (nodes, between) = all_grown(runs, rest, visited);
        lemma_all_grown_visits(runs, rest, visited);
        lemma_unvisited(runs, visited, between);
        assert(ids[ids.len() - 1] == ids.last());
        lemma_grown_linked(runs, ids.last(), between);
        let all = all_grown(runs, ids, visited).0;
        assert forall|k: int| 0 <= k < all.len() implies grown_from(
            #[trigger] all[k],
            runs,
            ids,
        ) by {
            if k < nodes.len() {
                assert(all[k] == nodes[k]);
                assert(grown_from(nodes[k], runs, rest));
                let j = choose|j: int|
                    0 <= j < rest.len() && nodes[k].run == run_of(runs, #[trigger] rest[j]);
                assert(ids[j] == rest[j]);
            }
        }
    }
}

/// In the tree of a trace whose runs have different spans, each run below
/// another names it as its parent.
pub proof fn law_tree_follows_parents(runs: Seq<RunSummary>)
    requires
        span_ids(runs).no_duplicates(),
    ensures
        forall|k: int| 0 <= k < forest(runs).len() ==> linked(#[trigger] forest(runs)[k]),
{
    let none = Set::<Seq<char>>::empty();
    let ids = children_of(runs, None);
    lemma_under_are_known(runs, None, runs.len() as int);
    lemma_all_grown_linked(runs, ids, none);
    let (roots, visited) = all_grown(runs, ids, none);
    assert forall|k: int| 0 <= k < span_ids(runs).len() implies span_ids(runs).contains(
        #[trigger] span_ids(runs)[k],
    ) by {}
    lemma_all_grown_linked(runs, span_ids(runs), visited);
    let rest = all_grown(runs, span_ids(runs), visited).0;
    assert forall|k: int| 0 <= k < forest(runs).len() implies linked(
        #[trigger] forest(runs)[k],
    ) by {
        if k < roots.len() {
            assert(forest(runs)[k] == roots[k]);
            assert(grown_from(roots[k], runs, ids));
        } else {
            assert(forest(runs)[k] == rest[k - roots.len()]);
            assert(grown_from(rest[k - roots.len()], runs, span_ids(runs)));
        }
    }
}

/// The tree of a trace, and what it cost to load it.
#[derive(Debug, PartialEq, Eq)]
pub struct TraceTreeQueryResult {
    pub trace_tree: TraceTree,
    pub diagnostics: RunQueryDiagnostics,
}

/// The tree of a trace from the runs that were loaded for it.
pub fn trace_tree_result(
    project_name: &str,
    trace_id: &str,
    runs: &Vec<RunSummary>,
    postgres_query_time: Duration,
) -> (r: TraceTreeQueryResult)
    ensures
        r.trace_tree.project_name@ == project_name@,
        r.trace_tree.trace_id@ == trace_id@,
        nodes_of(r.trace_tree.roots@) == forest(runs@),
        r.diagnostics == metadata_diagnostics(runs@.len() as int, postgres_query_time),
{
    TraceTreeQueryResult {
        trace_tree: trace_tree_from_runs(project_name, trace_id, runs),
        diagnostics: metastore_only_diagnostics(runs.len(), postgres_query_time),
    }
}

pub const TRACE_TREE_RUNS_SQL: &'static str = "SELECT
                heads.project_name,
                heads.run_id,
                heads.trace_id,
                heads.span_id,
                CASE
                    WHEN tree.parent_span_id IS NULL
                        OR parent_heads.span_id IS NULL
                        OR parent_heads.deleted_at_unix_nano IS NOT NULL
                    THEN NULL
                    ELSE heads.parent_run_id
                END AS parent_run_id,
                CASE
                    WHEN tree.parent_span_id IS NULL
                        OR parent_heads.span_id IS NULL
                        OR parent_heads.deleted_at_unix_nano IS NOT NULL
                    THEN NULL
                    ELSE tree.parent_span_id
                END AS parent_span_id,
                heads.name,
                heads.run_type,
                heads.status,
                heads.start_time_unix_nano,
                heads.end_time_unix_nano,
                tree.parent_span_id IS NULL AS is_root
            FROM run_tree_nodes tree
            INNER JOIN run_heads heads
                ON heads.project_name = tree.project_name
                AND heads.trace_id = tree.trace_id
                AND heads.span_id = tree.span_id
            LEFT JOIN run_heads parent_heads
                ON parent_heads.project_name = tree.project_name
                AND parent_heads.trace_id = tree.trace_id
                AND parent_heads.span_id = tree.parent_span_id
            WHERE tree.project_name = $1
                AND tree.trace_id = $2
                AND heads.deleted_at_unix_nano IS NULL
            ORDER BY tree.subtree_start ASC, heads.start_time_unix_nano ASC, heads.span_id ASC";

/// The statement for the runs of a trace, in the order of its tree.
pub fn trace_tree_runs_statement(project_name: &str, trace_id: &str) -> (r: Statement)
    ensures
        r@ == call("load trace tree metadata rows"@, TRACE_TREE_RUNS_SQL@).text(
            project_name@,
        ).text(trace_id@),
{
    Statement::new("load trace tree metadata rows", TRACE_TREE_RUNS_SQL).text(project_name).text(
        trace_id,
    )
}

} // verus!
