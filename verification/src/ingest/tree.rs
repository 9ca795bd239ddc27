//! The nested-set index of a trace: where each run stands in its tree.

use crate::sorting::law_sort_ignores_order;
use crate::sorting::law_sort_keeps_elements;
use crate::sorting::law_sort_sorts;
use crate::sorting::lemma_sort_map;
use crate::sorting::lemma_sort_members;
use crate::sorting::sort_by;
use crate::sorting::stable_sort;
use crate::sorting::strict_order;
use crate::text::is_less;
use crate::text::law_text_order_is_total;
use crate::text::law_text_order_is_transitive;
use crate::text::opt_text;
use crate::text::text_less;
use vstd::hash_map::StringHashMap;
use vstd::prelude::*;

verus! {

/// A run as the tree index reads it.
#[derive(Debug, PartialEq, Eq)]
pub struct RunTreeInput {
    pub span_id: String,
    pub parent_span_id: Option<String>,
    pub run_id: String,
    pub start_time_unix_nano: i64,
}

/// Where a run stands: the numbers of a nested set, and what became of its
/// parent link.
#[derive(Debug, PartialEq, Eq)]
pub struct RunTreeIndexNode {
    pub span_id: String,
    pub run_id: String,
    pub parent_span_id: Option<String>,
    pub root_span_id: String,
    pub root_run_id: String,
    pub depth: i64,
    pub sibling_order: i64,
    pub subtree_start: i64,
    pub subtree_end: i64,
    pub descendant_count: i64,
    pub unresolved_parent: bool,
    pub cycle_detected: bool,
}

/// What a [`RunTreeIndexNode`] holds.
pub struct TreeNode {
    pub span_id: Seq<char>,
    pub run_id: Seq<char>,
    pub parent_span_id: Option<Seq<char>>,
    pub root_span_id: Seq<char>,
    pub root_run_id: Seq<char>,
    pub depth: int,
    pub sibling_order: int,
    pub subtree_start: int,
    pub subtree_end: int,
    pub descendant_count: int,
    pub unresolved_parent: bool,
    pub cycle_detected: bool,
}

impl View for RunTreeIndexNode {
    type V = TreeNode;

    open spec fn view(&self) -> TreeNode {
        TreeNode {
            span_id: self.span_id@,
            run_id: self.run_id@,
            parent_span_id: opt_text(self.parent_span_id),
            root_span_id: self.root_span_id@,
            root_run_id: self.root_run_id@,
            depth: self.depth as int,
            sibling_order: self.sibling_order as int,
            subtree_start: self.subtree_start as int,
            subtree_end: self.subtree_end as int,
            descendant_count: self.descendant_count as int,
            unresolved_parent: self.unresolved_parent,
            cycle_detected: self.cycle_detected,
        }
    }
}

/// Runs are told apart by their span ids.
pub open spec fn distinct_spans(runs: Seq<RunTreeInput>) -> bool {
    forall|i: int, j: int|
        0 <= i < j < runs.len() ==> (#[trigger] runs[i]).span_id@ != (#[trigger] runs[j]).span_id@
}

/// The order of runs: by start time, then by span id.
pub open spec fn run_before(a: RunTreeInput, b: RunTreeInput) -> bool {
    a.start_time_unix_nano < b.start_time_unix_nano || (a.start_time_unix_nano
        == b.start_time_unix_nano && text_less(a.span_id@, b.span_id@))
}

/// Where the run with this span id stands.
pub open spec fn position_of(runs: Seq<RunTreeInput>, span_id: Seq<char>) -> Option<int> {
    if exists|i: int| 0 <= i < runs.len() && (#[trigger] runs[i]).span_id@ == span_id {
        Some(choose|i: int| 0 <= i < runs.len() && (#[trigger] runs[i]).span_id@ == span_id)
    } else {
        None
    }
}

/// The position of each run's parent, for those whose parent is among the runs.
pub open spec fn parent_links(runs: Seq<RunTreeInput>) -> Seq<Option<int>> {
    Seq::new(
        runs.len(),
        |i: int|
            match runs[i].parent_span_id {
                Some(parent) => position_of(runs, parent@),
                None => None,
            },
    )
}

/// The run that `steps` parent links lead to from run `i`.
pub open spec fn ancestor(links: Seq<Option<int>>, i: int, steps: nat) -> Option<int>
    decreases steps,
{
    if steps == 0 {
        Some(i)
    } else {
        match ancestor(links, i, (steps - 1) as nat) {
            Some(j) => if 0 <= j < links.len() {
                links[j]
            } else {
                None
            },
            None => None,
        }
    }
}

/// Whether the parent links of run `i` lead back to it.
pub open spec fn on_cycle(links: Seq<Option<int>>, i: int) -> bool {
    exists|steps: nat| steps > 0 && #[trigger] ancestor(links, i, steps) == Some(i)
}

/// The parent links that the tree keeps: those of runs on a cycle are cut.
pub open spec fn tree_links(links: Seq<Option<int>>) -> Seq<Option<int>> {
    Seq::new(
        links.len(),
        |i: int|
            if on_cycle(links, i) {
                None
            } else {
                links[i]
            },
    )
}

/// The first `upto` runs of those whose link is `parent`, in order.
pub open spec fn children_upto(
    links: Seq<Option<int>>,
    parent: Option<int>,
    upto: int,
) -> Seq<int>
    decreases upto,
{
    if upto <= 0 {
        Seq::empty()
    } else {
        let rest = children_upto(links, parent, upto - 1);
        if links[upto - 1] == parent {
            rest.push(upto - 1)
        } else {
            rest
        }
    }
}

/// The runs whose link is `parent`, in order.
pub open spec fn children(links: Seq<Option<int>>, parent: Option<int>) -> Seq<int> {
    children_upto(links, parent, links.len() as int)
}

/// The place of one run in the numbering.
pub struct Place {
    pub run: int,
    pub root: int,
    pub depth: int,
    pub order: int,
    pub start: int,
    pub end: int,
    pub descendants: int,
}

/// The places of run `i` and all below it, each behind those below it. The
/// numbers from `next` on are dealt out, one on the way in and one on the way
/// out of each run.
pub open spec fn subtree(
    links: Seq<Option<int>>,
    i: int,
    root: int,
    depth: nat,
    order: int,
    next: int,
) -> Seq<Place>
    decreases links.len() - depth, 1int, 0int,
{
    if depth >= links.len() {
        Seq::empty()
    } else {
        let below = row(
            links,
            children(links, Some(i)),
            Some(root),
            depth + 1,
            next + 1,
        );
        below.push(
            Place {
                run: i,
                root,
                depth: depth as int,
                order,
                start: next,
                end: next + 1 + 2 * below.len(),
                descendants: below.len() as int,
            },
        )
    }
}

/// The places of the runs of `members` and all below them, one subtree after
/// the other. Without a `root`, each member is its own.
pub open spec fn row(
    links: Seq<Option<int>>,
    members: Seq<int>,
    root: Option<int>,
    depth: nat,
    next: int,
) -> Seq<Place>
    decreases links.len() - depth, 2int, members.len(),
{
    if members.len() == 0 {
        Seq::empty()
    } else {
        let ahead = row(links, members.drop_last(), root, depth, next);
        let last = members.last();
        let own = match root {
            Some(r) => r,
            None => last,
        };
        ahead + subtree(links, last, own, depth, members.len() - 1, next + 2 * ahead.len())
    }
}

/// The places of all runs.
pub open spec fn places(links: Seq<Option<int>>) -> Seq<Place> {
    row(links, children(links, None), None, 0, 0)
}

/// What the index says of the run in `place`.
pub open spec fn node_at(runs: Seq<RunTreeInput>, place: Place) -> TreeNode {
    let raw = parent_links(runs);
    let links = tree_links(raw);
    let run = runs[place.run];
    TreeNode {
        span_id: run.span_id@,
        run_id: run.run_id@,
        parent_span_id: match links[place.run] {
            Some(parent) => Some(runs[parent].span_id@),
            None => None,
        },
        root_span_id: runs[place.root].span_id@,
        root_run_id: runs[place.root].run_id@,
        depth: place.depth,
        sibling_order: place.order,
        subtree_start: place.start,
        subtree_end: place.end,
        descendant_count: place.descendants,
        unresolved_parent: run.parent_span_id is Some && raw[place.run] is None,
        cycle_detected: on_cycle(raw, place.run),
    }
}

pub open spec fn nodes_at(runs: Seq<RunTreeInput>, all: Seq<Place>) -> Seq<TreeNode> {
    all.map_values(|place: Place| node_at(runs, place))
}

/// What the nodes hold.
pub open spec fn node_views(nodes: Seq<RunTreeIndexNode>) -> Seq<TreeNode> {
    nodes.map_values(|node: RunTreeIndexNode| node@)
}

/// The index of a trace: one node for each place, by where its subtree starts.
pub open spec fn trace_tree_index(runs: Seq<RunTreeInput>) -> Seq<TreeNode> {
    let ordered = stable_sort(runs, |a: RunTreeInput, b: RunTreeInput| run_before(a, b));
    let links = tree_links(parent_links(ordered));
    stable_sort(
        nodes_at(ordered, places(links)),
        |a: TreeNode, b: TreeNode| a.subtree_start < b.subtree_start,
    )
}

/// Whether every link leads to a run.
pub open spec fn links_in_range(links: Seq<Option<int>>) -> bool {
    forall|i: int|
        0 <= i < links.len() ==> match #[trigger] links[i] {
            Some(j) => 0 <= j < links.len(),
            None => true,
        }
}

/// Whether no run is its own ancestor.
pub open spec fn acyclic(links: Seq<Option<int>>) -> bool {
    forall|i: int, steps: nat|
        0 <= i < links.len() && steps > 0 ==> #[trigger] ancestor(links, i, steps) != Some(i)
}

proof fn lemma_ancestor_add(links: Seq<Option<int>>, i: int, a: nat, b: nat)
    ensures
        ancestor(links, i, a + b) == match ancestor(links, i, a) {
            Some(j) => ancestor(links, j, b),
            None => None,
        },
    decreases b,
{
    if b > 0 {
        lemma_ancestor_add(links, i, a, (b - 1) as nat);
        assert((a + b - 1) as nat == a + (b - 1) as nat);
    }
}

proof fn lemma_ancestor_range(links: Seq<Option<int>>, i: int, steps: nat)
    requires
        links_in_range(links),
        0 <= i < links.len(),
    ensures
        match ancestor(links, i, steps) {
            Some(j) => 0 <= j < links.len(),
            None => true,
        },
    decreases steps,
{
    if steps > 0 {
        lemma_ancestor_range(links, i, (steps - 1) as nat);
    }
}

/// A chain of distinct positions is no longer than there are positions.
proof fn lemma_distinct_bound(chain: Seq<int>, n: nat)
    requires
        chain.no_duplicates(),
        forall|k: int| 0 <= k < chain.len() ==> 0 <= #[trigger] chain[k] < n,
    ensures
        chain.len() <= n,
{
    chain.unique_seq_to_set();
    let bound = vstd::set_lib::set_int_range(0, n as int);
    vstd::set_lib::lemma_int_range(0, n as int);
    assert(chain.to_set().subset_of(bound));
    vstd::set_lib::lemma_len_subset(chain.to_set(), bound);
}

/// Without cycles, a chain of ancestors ends before it has met every run.
proof fn lemma_depth_bound(links: Seq<Option<int>>, i: int, steps: nat)
    requires
        links_in_range(links),
        acyclic(links),
        0 <= i < links.len(),
        ancestor(links, i, steps) is Some,
    ensures
        steps < links.len(),
{
    let chain = Seq::new((steps + 1) as nat, |k: int| ancestor(links, i, k as nat)->0);
    assert forall|k: nat| k <= steps implies (#[trigger] ancestor(links, i, k)) is Some by {
        lemma_ancestor_add(links, i, k, (steps - k) as nat);
        assert(k + (steps - k) as nat == steps);
    }
    assert forall|k: int| 0 <= k < chain.len() implies 0 <= #[trigger] chain[k] < links.len() by {
        lemma_ancestor_range(links, i, k as nat);
        assert(ancestor(links, i, k as nat) is Some);
    }
    assert forall|a: int, b: int| 0 <= a < b < chain.len() implies chain[a] != chain[b] by {
        lemma_ancestor_range(links, i, a as nat);
        lemma_ancestor_add(links, i, a as nat, (b - a) as nat);
        assert(a as nat + (b - a) as nat == b as nat);
        assert(ancestor(links, i, a as nat) is Some);
        assert(ancestor(links, i, b as nat) is Some);
        let j = ancestor(links, i, a as nat)->0;
        assert(ancestor(links, j, (b - a) as nat) != Some(j));
    }
    assert(chain.no_duplicates());
    lemma_distinct_bound(chain, links.len());
}

/// Cutting the links of the runs on cycles leaves no cycle.
pub proof fn law_cut_links_are_acyclic(links: Seq<Option<int>>)
    requires
        links_in_range(links),
    ensures
        links_in_range(tree_links(links)),
        acyclic(tree_links(links)),
{
    let cut = tree_links(links);
    assert forall|i: int, steps: nat| 0 <= i < cut.len() && steps > 0 implies #[trigger] ancestor(
        cut,
        i,
        steps,
    ) != Some(i) by {
        if ancestor(cut, i, steps) == Some(i) {
            lemma_cut_follows(links, i, steps);
            assert(on_cycle(links, i));
            lemma_ancestor_add(cut, i, 1, (steps - 1) as nat);
            assert(ancestor(cut, i, 0) == Some(i));
            assert(ancestor(cut, i, 1) == cut[i]);
            assert(1 + (steps - 1) as nat == steps);
        }
    }
    assert forall|i: int| 0 <= i < cut.len() implies match #[trigger] cut[i] {
        Some(j) => 0 <= j < cut.len(),
        None => true,
    } by {
        assert(links[i] == links[i]);
    }
}

proof fn lemma_cut_follows(links: Seq<Option<int>>, i: int, steps: nat)
    ensures
        match ancestor(tree_links(links), i, steps) {
            Some(j) => ancestor(links, i, steps) == Some(j),
            None => true,
        },
    decreases steps,
{
    if steps > 0 {
        lemma_cut_follows(links, i, (steps - 1) as nat);
    }
}

/// Whether parent links lead from run `j` to run `i`, or they are one run.
pub open spec fn below(links: Seq<Option<int>>, i: int, j: int) -> bool {
    exists|steps: nat| #[trigger] ancestor(links, j, steps) == Some(i)
}

proof fn lemma_children(links: Seq<Option<int>>, parent: Option<int>, upto: int)
    requires
        0 <= upto <= links.len(),
    ensures
        forall|c: int|
            children_upto(links, parent, upto).contains(c) <==> 0 <= c < upto && #[trigger] links[c]
                == parent,
        forall|a: int, b: int|
            0 <= a < b < children_upto(links, parent, upto).len() ==> #[trigger] children_upto(
                links,
                parent,
                upto,
            )[a] < #[trigger] children_upto(links, parent, upto)[b],
    decreases upto,
{
    if upto > 0 {
        lemma_children(links, parent, upto - 1);
        let rest = children_upto(links, parent, upto - 1);
        let all = children_upto(links, parent, upto);
        assert forall|c: int| all.contains(c) <==> 0 <= c < upto && #[trigger] links[c] == parent by {
            if all.contains(c) {
                let k = choose|k: int| 0 <= k < all.len() && all[k] == c;
                if k < rest.len() {
                    assert(rest[k] == c);
                    assert(rest.contains(c));
                }
            }
            if 0 <= c < upto && links[c] == parent {
                if c < upto - 1 {
                    assert(rest.contains(c));
                    let k = choose|k: int| 0 <= k < rest.len() && rest[k] == c;
                    assert(all[k] == c);
                } else {
                    assert(all[all.len() - 1] == c);
                }
            }
        }
        assert forall|a: int, b: int| 0 <= a < b < all.len() implies #[trigger] all[a]
            < #[trigger] all[b] by {
            assert(all[a] == rest[a]);
            assert(rest.contains(rest[a]));
            assert(links[rest[a]] == parent);
        }
    }
}

/// What holds of a row of siblings: each is a run with the one link `parent`,
/// at the one depth.
spec fn siblings(
    links: Seq<Option<int>>,
    members: Seq<int>,
    parent: Option<int>,
    depth: nat,
) -> bool {
    &&& forall|a: int|
        0 <= a < members.len() ==> {
            &&& 0 <= #[trigger] members[a] < links.len()
            &&& links[members[a]] == parent
            &&& ancestor(links, members[a], depth) is Some
        }
    &&& forall|a: int, b: int|
        0 <= a < b < members.len() ==> #[trigger] members[a] < #[trigger] members[b]
}

proof fn lemma_children_are_siblings(links: Seq<Option<int>>, i: int, depth: nat)
    requires
        0 <= i < links.len(),
        ancestor(links, i, depth) is Some,
    ensures
        siblings(links, children(links, Some(i)), Some(i), depth + 1),
{
    lemma_children(links, Some(i), links.len() as int);
    let all = children(links, Some(i));
    assert forall|a: int| 0 <= a < all.len() implies {
        &&& 0 <= #[trigger] all[a] < links.len()
        &&& links[all[a]] == Some(i)
        &&& ancestor(links, all[a], depth + 1) is Some
    } by {
        assert(all.contains(all[a]));
        assert(links[all[a]] == Some(i));
        lemma_ancestor_add(links, all[a], 1, depth);
        assert(ancestor(links, all[a], 0) == Some(all[a]));
        assert(ancestor(links, all[a], 1) == Some(i));
    }
}

proof fn lemma_roots_are_siblings(links: Seq<Option<int>>)
    ensures
        siblings(links, children(links, None), None, 0),
{
    lemma_children(links, None, links.len() as int);
    let all = children(links, None);
    assert forall|a: int| 0 <= a < all.len() implies {
        &&& 0 <= #[trigger] all[a] < links.len()
        &&& links[all[a]] == None::<int>
        &&& ancestor(links, all[a], 0) is Some
    } by {
        assert(all.contains(all[a]));
        assert(links[all[a]] == None::<int>);
    }
}

/// Two different siblings have no run below both.
proof fn lemma_siblings_apart(
    links: Seq<Option<int>>,
    a: int,
    b: int,
    j: int,
    steps_a: nat,
    steps_b: nat,
)
    requires
        links_in_range(links),
        acyclic(links),
        0 <= a < links.len(),
        0 <= b < links.len(),
        links[a] == links[b],
        ancestor(links, j, steps_a) == Some(a),
        ancestor(links, j, steps_b) == Some(b),
        steps_a <= steps_b,
    ensures
        a == b,
{
    if steps_a < steps_b {
        let more = (steps_b - steps_a) as nat;
        lemma_ancestor_add(links, j, steps_a, more);
        assert(steps_a + more == steps_b);
        assert(ancestor(links, a, more) == Some(b));
        lemma_ancestor_add(links, a, 1, (more - 1) as nat);
        assert(1 + (more - 1) as nat == more);
        assert(ancestor(links, a, 0) == Some(a));
        assert(ancestor(links, a, 1) == links[a]);
        let up = links[a]->0;
        assert(ancestor(links, up, (more - 1) as nat) == Some(b));
        lemma_ancestor_add(links, up, (more - 1) as nat, 1);
        assert(ancestor(links, b, 0) == Some(b));
        assert(ancestor(links, b, 1) == links[b]);
        assert((more - 1) as nat + 1 == more);
        assert(ancestor(links, up, more) == Some(up));
        assert(false);
    }
}

proof fn lemma_below_both(links: Seq<Option<int>>, a: int, b: int, j: int)
    requires
        links_in_range(links),
        acyclic(links),
        0 <= a < links.len(),
        0 <= b < links.len(),
        links[a] == links[b],
        below(links, a, j),
        below(links, b, j),
    ensures
        a == b,
{
    let sa = choose|steps: nat| #[trigger] ancestor(links, j, steps) == Some(a);
    let sb = choose|steps: nat| #[trigger] ancestor(links, j, steps) == Some(b);
    if sa <= sb {
        lemma_siblings_apart(links, a, b, j, sa, sb);
    } else {
        lemma_siblings_apart(links, b, a, j, sb, sa);
    }
}

proof fn lemma_below_transitive(links: Seq<Option<int>>, a: int, b: int, c: int)
    requires
        below(links, a, b),
        below(links, b, c),
    ensures
        below(links, a, c),
{
    let up = choose|steps: nat| #[trigger] ancestor(links, b, steps) == Some(a);
    let low = choose|steps: nat| #[trigger] ancestor(links, c, steps) == Some(b);
    lemma_ancestor_add(links, c, low, up);
    assert(ancestor(links, c, low + up) == Some(a));
}

/// One run is below another, or is it, if it is below one of its children.
proof fn lemma_below_child(links: Seq<Option<int>>, i: int, j: int)
    requires
        links_in_range(links),
        0 <= i < links.len(),
        0 <= j < links.len(),
    ensures
        below(links, i, j) <==> i == j || exists|c: int|
            0 <= c < links.len() && #[trigger] links[c] == Some(i) && below(links, c, j),
{
    if below(links, i, j) {
        let steps = choose|steps: nat| #[trigger] ancestor(links, j, steps) == Some(i);
        if steps > 0 {
            lemma_ancestor_range(links, j, (steps - 1) as nat);
            let c = ancestor(links, j, (steps - 1) as nat)->0;
            assert(links[c] == Some(i));
            assert(below(links, c, j));
        }
    }
    if i == j {
        assert(ancestor(links, j, 0) == Some(i));
    }
    if exists|c: int| 0 <= c < links.len() && #[trigger] links[c] == Some(i) && below(links, c, j) {
        let c = choose|c: int|
            0 <= c < links.len() && #[trigger] links[c] == Some(i) && below(links, c, j);
        assert(ancestor(links, c, 0) == Some(c));
        assert(ancestor(links, c, 1) == Some(i));
        lemma_below_transitive(links, i, c, j);
    }
}

/// One place encloses another: its run was entered before and left after.
pub open spec fn encloses(outer: Place, inner: Place) -> bool {
    outer.start < inner.start && inner.end < outer.end
}

/// Whether `place` stands one deeper than, and inside, that of its run's parent.
pub open spec fn under_parent(links: Seq<Option<int>>, all: Seq<Place>, place: Place) -> bool {
    exists|l: int|
        0 <= l < all.len() && {
            let up = #[trigger] all[l];
            &&& links[place.run] == Some(up.run)
            &&& encloses(up, place)
            &&& place.depth == up.depth + 1
            &&& place.root == up.root
            &&& 0 <= place.order < children(links, Some(up.run)).len()
            &&& children(links, Some(up.run))[place.order] == place.run
        }
}

/// Each place is of a run below a member, and its numbers are of this row.
spec fn bounded_places(
    links: Seq<Option<int>>,
    members: Seq<int>,
    next: int,
    all: Seq<Place>,
) -> bool {
    forall|k: int|
        0 <= k < all.len() ==> {
            let place = #[trigger] all[k];
            &&& 0 <= place.run < links.len()
            &&& exists|m: int|
                0 <= m < members.len() && below(links, #[trigger] members[m], place.run)
            &&& next <= place.start
            &&& place.end == place.start + 1 + 2 * place.descendants
            &&& place.descendants >= 0
            &&& place.end < next + 2 * all.len()
        }
}

/// Each run below a member has a place.
spec fn covering_places(links: Seq<Option<int>>, members: Seq<int>, all: Seq<Place>) -> bool {
    forall|j: int, m: int|
        0 <= j < links.len() && 0 <= m < members.len() && #[trigger] below(links, members[m], j)
            ==> exists|k: int| 0 <= k < all.len() && (#[trigger] all[k]).run == j
}

/// No run has two places, and one place is inside another if and only if its
/// run is below the other's.
spec fn nested_places(links: Seq<Option<int>>, all: Seq<Place>) -> bool {
    forall|k: int, l: int|
        0 <= k < all.len() && 0 <= l < all.len() && k != l ==> {
            let a = #[trigger] all[k];
            let b = #[trigger] all[l];
            &&& a.run != b.run
            &&& encloses(a, b) <==> below(links, a.run, b.run)
            &&& encloses(a, b) || encloses(b, a) || a.end < b.start || b.end < a.start
        }
}

/// Whether `place` is that of a member of the row.
spec fn member_place(members: Seq<int>, root: Option<int>, depth: nat, place: Place) -> bool {
    &&& place.depth == depth
    &&& place.root == (match root {
        Some(r) => r,
        None => place.run,
    })
    &&& 0 <= place.order < members.len()
    &&& members[place.order] == place.run
}

/// A place is a member's, or stands under that of the run's parent.
spec fn linked_places(
    links: Seq<Option<int>>,
    members: Seq<int>,
    root: Option<int>,
    depth: nat,
    all: Seq<Place>,
) -> bool {
    forall|k: int|
        0 <= k < all.len() ==> member_place(members, root, depth, #[trigger] all[k])
            || under_parent(links, all, all[k])
}

/// What holds of the places of a row.
spec fn good_row(
    links: Seq<Option<int>>,
    members: Seq<int>,
    root: Option<int>,
    depth: nat,
    next: int,
    all: Seq<Place>,
) -> bool {
    &&& bounded_places(links, members, next, all)
    &&& covering_places(links, members, all)
    &&& nested_places(links, all)
    &&& linked_places(links, members, root, depth, all)
}

proof fn lemma_subtree_good(
    links: Seq<Option<int>>,
    i: int,
    root: int,
    depth: nat,
    order: int,
    next: int,
)
    requires
        links_in_range(links),
        acyclic(links),
        0 <= i < links.len(),
        ancestor(links, i, depth) is Some,
    ensures
        bounded_places(links, seq![i], next, subtree(links, i, root, depth, order, next)),
        covering_places(links, seq![i], subtree(links, i, root, depth, order, next)),
        nested_places(links, subtree(links, i, root, depth, order, next)),
        forall|k: int|
            0 <= k < subtree(links, i, root, depth, order, next).len() ==> {
                let all = subtree(links, i, root, depth, order, next);
                let place = #[trigger] subtree(links, i, root, depth, order, next)[k];
                ||| place.run == i && place.depth == depth && place.root == root && place.order
                    == order
                ||| under_parent(links, all, place)
            },
    decreases links.len() - depth, 1int, 0int,
{
    lemma_depth_bound(links, i, depth);
    lemma_children_are_siblings(links, i, depth);
    lemma_children(links, Some(i), links.len() as int);
    let kids = children(links, Some(i));
    let inner = row(links, kids, Some(root), depth + 1, next + 1);
    lemma_row_good(links, kids, Some(i), Some(root), depth + 1, next + 1);
    let all = subtree(links, i, root, depth, order, next);
    let last = (all.len() - 1) as int;
    assert(all =~= inner.push(all[last]));
    assert(ancestor(links, i, 0) == Some(i));
    assert(seq![i][0] == i);
    assert forall|k: int| 0 <= k < inner.len() implies {
        &&& (#[trigger] all[k]) == inner[k]
        &&& below(links, i, inner[k].run)
        &&& inner[k].run != i
        &&& !below(links, inner[k].run, i)
    } by {
        let j = inner[k].run;
        let m = choose|m: int|
            0 <= m < kids.len() && below(links, #[trigger] kids[m], j);
        assert(links[kids[m]] == Some(i));
        lemma_below_child(links, i, j);
        if below(links, j, i) {
            // from i up to j, and from j up to i
            lemma_below_transitive(links, kids[m], j, i);
            let steps = choose|steps: nat| #[trigger] ancestor(links, i, steps) == Some(kids[m]);
            assert(ancestor(links, i, (steps + 1) as nat) == Some(i));
            assert(false);
        }
        if j == i {
            assert(ancestor(links, i, 0) == Some(i));
            assert(below(links, j, i));
        }
    }
    assert(covering_places(links, seq![i], all)) by {
        assert forall|j: int, m: int|
            0 <= j < links.len() && 0 <= m < seq![i].len() && #[trigger] below(
                links,
                seq![i][m],
                j,
            ) implies exists|k: int| 0 <= k < all.len() && (#[trigger] all[k]).run == j by {
            lemma_below_child(links, i, j);
            if j == i {
                assert(all[last].run == j);
            } else {
                let c = choose|c: int|
                    0 <= c < links.len() && #[trigger] links[c] == Some(i) && below(links, c, j);
                assert(kids.contains(c));
                let m = choose|m: int| 0 <= m < kids.len() && kids[m] == c;
                assert(below(links, kids[m], j));
                let k = choose|k: int| 0 <= k < inner.len() && (#[trigger] inner[k]).run == j;
                assert(all[k].run == j);
            }
        }
    }
    assert(bounded_places(links, seq![i], next, all)) by {
        assert forall|k: int| 0 <= k < all.len() implies {
            let place = #[trigger] all[k];
            &&& 0 <= place.run < links.len()
            &&& exists|m: int|
                0 <= m < seq![i].len() && below(links, #[trigger] seq![i][m], place.run)
            &&& next <= place.start
            &&& place.end == place.start + 1 + 2 * place.descendants
            &&& place.descendants >= 0
            &&& place.end < next + 2 * all.len()
        } by {
            assert(below(links, i, i));
            if k < last {
                assert(all[k] == inner[k]);
            }
            assert(below(links, seq![i][0], all[k].run));
        }
    }
    assert(nested_places(links, all)) by {
        assert forall|k: int, l: int| 0 <= k < all.len() && 0 <= l < all.len() && k != l implies {
            let a = #[trigger] all[k];
            let b = #[trigger] all[l];
            &&& a.run != b.run
            &&& encloses(a, b) <==> below(links, a.run, b.run)
            &&& encloses(a, b) || encloses(b, a) || a.end < b.start || b.end < a.start
        } by {
            if k < last && l < last {
                assert(all[k] == inner[k] && all[l] == inner[l]);
            } else if k < last {
                assert(all[k] == inner[k]);
            } else {
                assert(all[l] == inner[l]);
            }
        }
    }
    assert forall|k: int| 0 <= k < all.len() implies {
        let place = #[trigger] all[k];
        ||| place.run == i && place.depth == depth && place.root == root && place.order == order
        ||| under_parent(links, all, place)
    } by {
        if k < last {
            let place = inner[k];
            assert(all[k] == place);
            if under_parent(links, inner, place) {
                lemma_under_more(links, inner, all, 0, place);
            } else {
                assert(member_place(kids, Some(root), depth + 1, place));
                assert(kids.contains(place.run));
                assert(links[place.run] == Some(i));
                assert(encloses(all[last], place));
                assert(all[last].run == i);
            }
        }
    }
}

/// A parent's place is found where its sequence is part of another.
proof fn lemma_under_more(
    links: Seq<Option<int>>,
    some: Seq<Place>,
    all: Seq<Place>,
    from: int,
    place: Place,
)
    requires
        under_parent(links, some, place),
        0 <= from,
        from + some.len() <= all.len(),
        forall|k: int| 0 <= k < some.len() ==> #[trigger] some[k] == all[from + k],
    ensures
        under_parent(links, all, place),
{
    let l = choose|l: int|
        0 <= l < some.len() && {
            let up = #[trigger] some[l];
            &&& links[place.run] == Some(up.run)
            &&& encloses(up, place)
            &&& place.depth == up.depth + 1
            &&& place.root == up.root
            &&& 0 <= place.order < children(links, Some(up.run)).len()
            &&& children(links, Some(up.run))[place.order] == place.run
        };
    assert(some[l] == all[from + l]);
}

/// Two rows of siblings, numbered one behind the other, make one that is nested.
proof fn lemma_nested_join(
    links: Seq<Option<int>>,
    rest: Seq<int>,
    last: int,
    next: int,
    ahead: Seq<Place>,
    tail: Seq<Place>,
)
    requires
        links_in_range(links),
        acyclic(links),
        0 <= last < links.len(),
        forall|m: int|
            0 <= m < rest.len() ==> 0 <= #[trigger] rest[m] < links.len() && rest[m] != last
                && links[rest[m]] == links[last],
        bounded_places(links, rest, next, ahead),
        bounded_places(links, seq![last], next + 2 * ahead.len(), tail),
        nested_places(links, ahead),
        nested_places(links, tail),
    ensures
        nested_places(links, ahead + tail),
{
    let all = ahead + tail;
    let n = ahead.len() as int;
    assert forall|k: int, l: int| 0 <= k < n && n <= l < all.len() implies {
        let a = #[trigger] all[k];
        let b = #[trigger] all[l];
        &&& a.run != b.run
        &&& !below(links, a.run, b.run)
        &&& !below(links, b.run, a.run)
        &&& a.end < b.start
        &&& a.start < a.end
        &&& b.start < b.end
    } by {
        let a = ahead[k];
        let b = tail[l - n];
        let m = choose|m: int| 0 <= m < rest.len() && below(links, #[trigger] rest[m], a.run);
        let one = choose|one: int|
            0 <= one < seq![last].len() && below(links, #[trigger] seq![last][one], b.run);
        assert(below(links, last, b.run));
        if below(links, a.run, b.run) {
            lemma_below_transitive(links, rest[m], a.run, b.run);
            lemma_below_both(links, rest[m], last, b.run);
        }
        if below(links, b.run, a.run) {
            lemma_below_transitive(links, last, b.run, a.run);
            lemma_below_both(links, rest[m], last, a.run);
        }
        if a.run == b.run {
            assert(ancestor(links, a.run, 0) == Some(b.run));
            assert(below(links, a.run, b.run));
        }
    }
    assert forall|k: int, l: int| 0 <= k < all.len() && 0 <= l < all.len() && k != l implies {
        let a = #[trigger] all[k];
        let b = #[trigger] all[l];
        &&& a.run != b.run
        &&& encloses(a, b) <==> below(links, a.run, b.run)
        &&& encloses(a, b) || encloses(b, a) || a.end < b.start || b.end < a.start
    } by {
        if k < n && l < n {
            assert(all[k] == ahead[k] && all[l] == ahead[l]);
        } else if k >= n && l >= n {
            assert(all[k] == tail[k - n] && all[l] == tail[l - n]);
        } else if k < n {
            assert(all[k].end < all[l].start);
        } else {
            assert(all[l].end < all[k].start);
        }
    }
}

proof fn lemma_row_good(
    links: Seq<Option<int>>,
    members: Seq<int>,
    parent: Option<int>,
    root: Option<int>,
    depth: nat,
    next: int,
)
    requires
        links_in_range(links),
        acyclic(links),
        siblings(links, members, parent, depth),
    ensures
        good_row(links, members, root, depth, next, row(links, members, root, depth, next)),
    decreases links.len() - depth, 2int, members.len(),
{
    if members.len() > 0 {
        let rest = members.drop_last();
        let last = members.last();
        assert forall|a: int| 0 <= a < rest.len() implies {
            &&& 0 <= #[trigger] rest[a] < links.len()
            &&& links[rest[a]] == parent
            &&& rest[a] != last
            &&& ancestor(links, rest[a], depth) is Some
        } by {
            assert(rest[a] == members[a]);
            assert(members[a] < members[members.len() - 1]);
        }
        assert(siblings(links, rest, parent, depth)) by {
            assert forall|a: int, b: int| 0 <= a < b < rest.len() implies #[trigger] rest[a]
                < #[trigger] rest[b] by {
                assert(members[a] < members[b]);
            }
        }
        lemma_row_good(links, rest, parent, root, depth, next);
        let ahead = row(links, rest, root, depth, next);
        let own = match root {
            Some(r) => r,
            None => last,
        };
        let order = members.len() - 1;
        let from = next + 2 * ahead.len();
        assert(members[members.len() - 1] == last);
        lemma_depth_bound(links, last, depth);
        lemma_subtree_good(links, last, own, depth, order, from);
        let tail = subtree(links, last, own, depth, order, from);
        let all = row(links, members, root, depth, next);
        assert(all =~= ahead + tail);
        lemma_nested_join(links, rest, last, next, ahead, tail);
        let n = ahead.len() as int;
        assert(bounded_places(links, members, next, all)) by {
            assert forall|k: int| 0 <= k < all.len() implies {
                let place = #[trigger] all[k];
                &&& 0 <= place.run < links.len()
                &&& exists|m: int|
                    0 <= m < members.len() && below(links, #[trigger] members[m], place.run)
                &&& next <= place.start
                &&& place.end == place.start + 1 + 2 * place.descendants
                &&& place.descendants >= 0
                &&& place.end < next + 2 * all.len()
            } by {
                if k < n {
                    assert(all[k] == ahead[k]);
                    let m = choose|m: int|
                        0 <= m < rest.len() && below(links, #[trigger] rest[m], ahead[k].run);
                    assert(members[m] == rest[m]);
                } else {
                    assert(all[k] == tail[k - n]);
                    let one = choose|one: int|
                        0 <= one < seq![last].len() && below(
                            links,
                            #[trigger] seq![last][one],
                            tail[k - n].run,
                        );
                    assert(below(links, members[members.len() - 1], tail[k - n].run));
                }
            }
        }
        assert(covering_places(links, members, all)) by {
            assert forall|j: int, m: int|
                0 <= j < links.len() && 0 <= m < members.len() && #[trigger] below(
                    links,
                    members[m],
                    j,
                ) implies exists|k: int| 0 <= k < all.len() && (#[trigger] all[k]).run == j by {
                if m < rest.len() {
                    assert(below(links, rest[m], j));
                    let k = choose|k: int| 0 <= k < ahead.len() && (#[trigger] ahead[k]).run == j;
                    assert(all[k].run == j);
                } else {
                    assert(below(links, seq![last][0], j));
                    let k = choose|k: int| 0 <= k < tail.len() && (#[trigger] tail[k]).run == j;
                    assert(all[n + k].run == j);
                }
            }
        }
        assert(linked_places(links, members, root, depth, all)) by {
            assert forall|k: int| 0 <= k < all.len() implies member_place(
                members,
                root,
                depth,
                #[trigger] all[k],
            ) || under_parent(links, all, all[k]) by {
                if k < n {
                    let place = ahead[k];
                    assert(all[k] == place);
                    if under_parent(links, ahead, place) {
                        lemma_under_more(links, ahead, all, 0, place);
                    } else {
                        assert(rest[place.order] == members[place.order]);
                    }
                } else {
                    let place = tail[k - n];
                    assert(all[k] == place);
                    if under_parent(links, tail, place) {
                        lemma_under_more(links, tail, all, n, place);
                    }
                }
            }
        }
    }
}

proof fn lemma_has_root(links: Seq<Option<int>>, j: int, steps: nat)
    requires
        links_in_range(links),
        acyclic(links),
        0 <= j < links.len(),
        ancestor(links, j, steps) is Some,
    ensures
        exists|r: int| 0 <= r < links.len() && #[trigger] links[r] is None && below(links, r, j),
    decreases links.len() - steps,
{
    lemma_depth_bound(links, j, steps);
    lemma_ancestor_range(links, j, steps);
    let r = ancestor(links, j, steps)->0;
    if links[r] is None {
        assert(below(links, r, j));
    } else {
        assert(ancestor(links, j, steps + 1) == links[r]);
        lemma_has_root(links, j, steps + 1);
    }
}

/// Whether run `j` has a place.
pub open spec fn has_place(all: Seq<Place>, j: int) -> bool {
    exists|k: int| 0 <= k < all.len() && (#[trigger] all[k]).run == j
}

/// Of links without cycles: every run has one place; a place is inside another
/// if and only if its run is below the other's, and else they are apart; it
/// takes two numbers for itself and for each run below it; a run without a link
/// is its own root at depth zero, and any other stands inside its parent's
/// place, one deeper, under the same root, in the order of the parent's children.
pub proof fn law_places_are_a_nested_set(links: Seq<Option<int>>)
    requires
        links_in_range(links),
        acyclic(links),
    ensures
        places(links).len() == links.len(),
        forall|j: int| 0 <= j < links.len() ==> #[trigger] has_place(places(links), j),
        forall|k: int, l: int|
            0 <= k < links.len() && 0 <= l < links.len() && k != l ==> {
                let a = #[trigger] places(links)[k];
                let b = #[trigger] places(links)[l];
                &&& a.run != b.run
                &&& encloses(a, b) <==> below(links, a.run, b.run)
                &&& encloses(a, b) || encloses(b, a) || a.end < b.start || b.end < a.start
            },
        forall|k: int|
            0 <= k < links.len() ==> {
                let place = #[trigger] places(links)[k];
                &&& 0 <= place.run < links.len()
                &&& 0 <= place.start < place.end < 2 * links.len()
                &&& place.end == place.start + 1 + 2 * place.descendants
                &&& links[place.run] is None ==> place.depth == 0 && place.root == place.run && 0
                    <= place.order < children(links, None).len() && children(
                    links,
                    None,
                )[place.order] == place.run
                &&& links[place.run] is Some ==> under_parent(links, places(links), place)
            },
{
    let all = places(links);
    let roots = children(links, None);
    lemma_roots_are_siblings(links);
    lemma_children(links, None, links.len() as int);
    lemma_row_good(links, roots, None, None, 0, 0);
    assert forall|j: int| 0 <= j < links.len() implies #[trigger] has_place(all, j) by {
        assert(ancestor(links, j, 0) == Some(j));
        lemma_has_root(links, j, 0);
        let r = choose|r: int|
            0 <= r < links.len() && #[trigger] links[r] is None && below(links, r, j);
        assert(roots.contains(r));
        let m = choose|m: int| 0 <= m < roots.len() && roots[m] == r;
        assert(below(links, roots[m], j));
    }
    let runs = all.map_values(|place: Place| place.run);
    assert(runs.no_duplicates());
    assert forall|k: int| 0 <= k < runs.len() implies 0 <= #[trigger] runs[k] < links.len() by {
        assert(runs[k] == all[k].run);
    }
    lemma_distinct_bound(runs, links.len());
    let range = vstd::set_lib::set_int_range(0, links.len() as int);
    vstd::set_lib::lemma_int_range(0, links.len() as int);
    runs.unique_seq_to_set();
    assert(range.subset_of(runs.to_set())) by {
        assert forall|j: int| range.contains(j) implies runs.to_set().contains(j) by {
            assert(has_place(all, j));
            let k = choose|k: int| 0 <= k < all.len() && (#[trigger] all[k]).run == j;
            assert(runs[k] == j);
        }
    }
    vstd::set_lib::lemma_len_subset(range, runs.to_set());
    assert forall|k: int| 0 <= k < all.len() implies {
        let place = #[trigger] all[k];
        &&& links[place.run] is None ==> place.depth == 0 && place.root == place.run && 0
            <= place.order < children(links, None).len() && children(links, None)[place.order]
            == place.run
        &&& links[place.run] is Some ==> under_parent(links, all, place)
    } by {
        let place = all[k];
        if member_place(roots, None, 0, place) {
            assert(roots.contains(place.run));
        } else {
            assert(under_parent(links, all, place));
        }
    }
}

proof fn lemma_sorted_distinct(runs: Seq<RunTreeInput>, less: spec_fn(RunTreeInput, RunTreeInput) -> bool)
    requires
        distinct_spans(runs),
    ensures
        distinct_spans(stable_sort(runs, less)),
        stable_sort(runs, less).len() == runs.len(),
{
    let out = stable_sort(runs, less);
    law_sort_keeps_elements(runs, less);
    lemma_sort_members(runs, less);
    assert(runs.no_duplicates());
    runs.lemma_multiset_has_no_duplicates();
    assert(out.to_multiset() == runs.to_multiset());
    out.lemma_multiset_has_no_duplicates_conv();
    assert forall|i: int, j: int| 0 <= i < j < out.len() implies (#[trigger] out[i]).span_id@ != (
    #[trigger] out[j]).span_id@ by {
        assert(runs.contains(out[i]));
        assert(runs.contains(out[j]));
        let p = choose|p: int| 0 <= p < runs.len() && runs[p] == out[i];
        let q = choose|q: int| 0 <= q < runs.len() && runs[q] == out[j];
        assert(out[i] != out[j]);
        if p < q {
            assert(runs[p].span_id@ != runs[q].span_id@);
        } else {
            assert(runs[q].span_id@ != runs[p].span_id@);
        }
    }
}

pub proof fn lemma_parent_links_in_range(runs: Seq<RunTreeInput>)
    ensures
        links_in_range(parent_links(runs)),
{
    let links = parent_links(runs);
    assert forall|i: int| 0 <= i < links.len() implies match #[trigger] links[i] {
        Some(j) => 0 <= j < links.len(),
        None => true,
    } by {}
}

/// The index holds each run exactly once, whatever its parent links are.
pub proof fn law_tree_index_keeps_every_run(runs: Seq<RunTreeInput>)
    requires
        distinct_spans(runs),
    ensures
        trace_tree_index(runs).len() == runs.len(),
        forall|i: int|
            0 <= i < runs.len() ==> exists|k: int|
                0 <= k < runs.len() && (#[trigger] trace_tree_index(runs)[k]).span_id == (
                #[trigger] runs[i]).span_id@,
        forall|k: int, l: int|
            0 <= k < l < runs.len() ==> (#[trigger] trace_tree_index(runs)[k]).span_id != (
            #[trigger] trace_tree_index(runs)[l]).span_id,
{
    let less = |a: RunTreeInput, b: RunTreeInput| run_before(a, b);
    let by_start = |a: TreeNode, b: TreeNode| a.subtree_start < b.subtree_start;
    let ordered = stable_sort(runs, less);
    lemma_sorted_distinct(runs, less);
    lemma_sort_members(runs, less);
    let raw = parent_links(ordered);
    lemma_parent_links_in_range(ordered);
    law_cut_links_are_acyclic(raw);
    let links = tree_links(raw);
    law_places_are_a_nested_set(links);
    let all = places(links);
    let nodes = nodes_at(ordered, all);
    law_sort_keeps_elements(nodes, by_start);
    lemma_sort_members(nodes, by_start);
    let index = trace_tree_index(runs);
    assert forall|i: int| 0 <= i < runs.len() implies exists|k: int|
        0 <= k < runs.len() && (#[trigger] index[k]).span_id == (#[trigger] runs[i]).span_id@ by {
        assert(ordered.contains(runs[i]));
        let j = choose|j: int| 0 <= j < ordered.len() && ordered[j] == runs[i];
        assert(has_place(all, j));
        let k = choose|k: int| 0 <= k < all.len() && (#[trigger] all[k]).run == j;
        assert(nodes[k].span_id == runs[i].span_id@);
        assert(index.contains(nodes[k]));
        let p = choose|p: int| 0 <= p < index.len() && index[p] == nodes[k];
        assert(index[p].span_id == runs[i].span_id@);
    }
    assert(nodes.no_duplicates()) by {
        assert forall|k: int, l: int| 0 <= k < nodes.len() && 0 <= l < nodes.len() && k != l implies
            nodes[k] != nodes[l] by {
            let a = all[k].run;
            let b = all[l].run;
            assert(a != b);
            if a < b {
                assert(ordered[a].span_id@ != ordered[b].span_id@);
            } else {
                assert(ordered[b].span_id@ != ordered[a].span_id@);
            }
            assert(nodes[k].span_id == ordered[a].span_id@);
            assert(nodes[l].span_id == ordered[b].span_id@);
        }
    }
    nodes.lemma_multiset_has_no_duplicates();
    index.lemma_multiset_has_no_duplicates_conv();
    assert forall|k: int, l: int| 0 <= k < l < runs.len() implies (#[trigger] index[k]).span_id != (
    #[trigger] index[l]).span_id by {
        assert(nodes.contains(index[k]));
        assert(nodes.contains(index[l]));
        let p = choose|p: int| 0 <= p < nodes.len() && nodes[p] == index[k];
        let q = choose|q: int| 0 <= q < nodes.len() && nodes[q] == index[l];
        assert(p != q);
        let a = all[p].run;
        let b = all[q].run;
        assert(nodes[p].span_id == ordered[a].span_id@);
        assert(nodes[q].span_id == ordered[b].span_id@);
        if a < b {
            assert(ordered[a].span_id@ != ordered[b].span_id@);
        } else {
            assert(ordered[b].span_id@ != ordered[a].span_id@);
        }
    }
}

/// The index is the same in whichever order the runs come: a parent that comes late
/// stands where it would have stood if it had come first.
pub proof fn law_tree_index_ignores_order(a: Seq<RunTreeInput>, b: Seq<RunTreeInput>)
    requires
        a.to_multiset() == b.to_multiset(),
        distinct_spans(a),
    ensures
        trace_tree_index(a) == trace_tree_index(b),
{
    let less = |x: RunTreeInput, y: RunTreeInput| run_before(x, y);
    lemma_run_order();
    assert forall|x: RunTreeInput, y: RunTreeInput|
        #![trigger a.contains(x), a.contains(y)]
        a.contains(x) && a.contains(y) && x != y implies less(x, y) || less(y, x) by {
        let i = a.index_of(x);
        let j = a.index_of(y);
        if i < j {
            assert(a[i].span_id@ != a[j].span_id@);
        } else {
            assert(a[j].span_id@ != a[i].span_id@);
        }
        law_text_order_is_total(x.span_id@, y.span_id@);
    }
    law_sort_ignores_order(a, b, less);
}

/// In the index, a node without a parent is its own root at depth zero; a node
/// whose parent is another node stands inside its interval, one deeper, under
/// the same root; and each interval has two numbers for every run in it.
pub proof fn law_tree_index_nests(runs: Seq<RunTreeInput>)
    requires
        distinct_spans(runs),
    ensures
        forall|k: int|
            0 <= k < runs.len() ==> {
                let node = #[trigger] trace_tree_index(runs)[k];
                &&& node.subtree_end == node.subtree_start + 1 + 2 * node.descendant_count
                &&& node.parent_span_id is None ==> node.depth == 0 && node.root_span_id
                    == node.span_id
            },
        forall|k: int, l: int|
            0 <= k < runs.len() && 0 <= l < runs.len() && (#[trigger] trace_tree_index(
                runs,
            )[l]).parent_span_id == Some((#[trigger] trace_tree_index(runs)[k]).span_id) ==> {
                let up = trace_tree_index(runs)[k];
                let node = trace_tree_index(runs)[l];
                &&& up.subtree_start < node.subtree_start
                &&& node.subtree_end < up.subtree_end
                &&& node.depth == up.depth + 1
                &&& node.root_span_id == up.root_span_id
            },
{
    let less = |a: RunTreeInput, b: RunTreeInput| run_before(a, b);
    let by_start = |a: TreeNode, b: TreeNode| a.subtree_start < b.subtree_start;
    let ordered = stable_sort(runs, less);
    lemma_sorted_distinct(runs, less);
    let raw = parent_links(ordered);
    lemma_parent_links_in_range(ordered);
    law_cut_links_are_acyclic(raw);
    let links = tree_links(raw);
    law_places_are_a_nested_set(links);
    let all = places(links);
    let nodes = nodes_at(ordered, all);
    law_sort_keeps_elements(nodes, by_start);
    lemma_sort_members(nodes, by_start);
    let index = trace_tree_index(runs);
    assert forall|k: int| 0 <= k < runs.len() implies {
        let node = #[trigger] index[k];
        &&& node.subtree_end == node.subtree_start + 1 + 2 * node.descendant_count
        &&& node.parent_span_id is None ==> node.depth == 0 && node.root_span_id == node.span_id
    } by {
        assert(nodes.contains(index[k]));
        let p = choose|p: int| 0 <= p < nodes.len() && nodes[p] == index[k];
        assert(nodes[p] == node_at(ordered, all[p]));
    }
    assert forall|k: int, l: int|
        0 <= k < runs.len() && 0 <= l < runs.len() && (#[trigger] index[l]).parent_span_id == Some(
            (#[trigger] index[k]).span_id,
        ) implies {
        let up = index[k];
        let node = index[l];
        &&& up.subtree_start < node.subtree_start
        &&& node.subtree_end < up.subtree_end
        &&& node.depth == up.depth + 1
        &&& node.root_span_id == up.root_span_id
    } by {
        assert(nodes.contains(index[k]));
        assert(nodes.contains(index[l]));
        let p = choose|p: int| 0 <= p < nodes.len() && nodes[p] == index[k];
        let q = choose|q: int| 0 <= q < nodes.len() && nodes[q] == index[l];
        assert(nodes[p] == node_at(ordered, all[p]));
        assert(nodes[q] == node_at(ordered, all[q]));
        let place = all[q];
        assert(links[place.run] is Some);
        assert(under_parent(links, all, place));
        let r = choose|r: int|
            0 <= r < all.len() && {
                let up = #[trigger] all[r];
                &&& links[place.run] == Some(up.run)
                &&& encloses(up, place)
                &&& place.depth == up.depth + 1
                &&& place.root == up.root
                &&& 0 <= place.order < children(links, Some(up.run)).len()
                &&& children(links, Some(up.run))[place.order] == place.run
            };
        let a = all[r].run;
        let b = all[p].run;
        assert(ordered[a].span_id@ == ordered[b].span_id@);
        if a < b {
            assert(ordered[a].span_id@ != ordered[b].span_id@);
        } else if b < a {
            assert(ordered[b].span_id@ != ordered[a].span_id@);
        }
        assert(r == p);
    }
}

/// A run below another is that run, or its parent is below it too.
proof fn lemma_parent_below(links: Seq<Option<int>>, a: int, j: int)
    requires
        links_in_range(links),
        0 <= j < links.len(),
        below(links, a, j),
        a != j,
    ensures
        links[j] is Some,
        below(links, a, links[j]->0),
{
    let steps = choose|steps: nat| #[trigger] ancestor(links, j, steps) == Some(a);
    assert(ancestor(links, j, 0) == Some(j));
    let rest = (steps - 1) as nat;
    lemma_ancestor_add(links, j, 1, rest);
    assert(ancestor(links, j, 1 + rest) == Some(a));
    assert(ancestor(links, j, 1) == links[j]);
    assert(ancestor(links, links[j]->0, rest) == Some(a));
}

/// No run is below its own child.
proof fn lemma_not_below_child(links: Seq<Option<int>>, j: int)
    requires
        links_in_range(links),
        acyclic(links),
        0 <= j < links.len(),
        links[j] is Some,
    ensures
        !below(links, j, links[j]->0),
{
    let up = links[j]->0;
    if below(links, j, up) {
        let steps = choose|steps: nat| #[trigger] ancestor(links, up, steps) == Some(j);
        assert(ancestor(links, j, 0) == Some(j));
        assert(ancestor(links, j, 1) == Some(up));
        lemma_ancestor_add(links, j, 1, steps);
        assert(ancestor(links, j, 1 + steps) == Some(j));
    }
}

/// Runs below two different siblings are siblings only if they are those.
proof fn lemma_siblings_below(links: Seq<Option<int>>, a: int, b: int, i: int, j: int)
    requires
        links_in_range(links),
        acyclic(links),
        0 <= a < links.len(),
        0 <= b < links.len(),
        0 <= i < links.len(),
        0 <= j < links.len(),
        a != b,
        links[a] == links[b],
        below(links, a, i),
        below(links, b, j),
        links[i] == links[j],
    ensures
        i == a,
        j == b,
{
    if i != a {
        lemma_parent_below(links, a, i);
        if j != b {
            lemma_parent_below(links, b, j);
            lemma_below_both(links, a, b, links[i]->0);
        } else {
            lemma_not_below_child(links, a);
        }
    }
    if j != b {
        lemma_parent_below(links, b, j);
        lemma_not_below_child(links, b);
    }
}

/// Whether the places of siblings follow one another as their runs do.
pub open spec fn in_sibling_order(links: Seq<Option<int>>, all: Seq<Place>) -> bool {
    forall|k: int, l: int|
        0 <= k < all.len() && 0 <= l < all.len() && links[(#[trigger] all[k]).run] == links[(
        #[trigger] all[l]).run] && all[k].run < all[l].run ==> all[k].start < all[l].start
}

proof fn lemma_subtree_in_order(
    links: Seq<Option<int>>,
    i: int,
    root: int,
    depth: nat,
    order: int,
    next: int,
)
    requires
        links_in_range(links),
        acyclic(links),
        0 <= i < links.len(),
        ancestor(links, i, depth) is Some,
    ensures
        in_sibling_order(links, subtree(links, i, root, depth, order, next)),
    decreases links.len() - depth, 1int, 0int,
{
    lemma_depth_bound(links, i, depth);
    lemma_children_are_siblings(links, i, depth);
    let kids = children(links, Some(i));
    let inner = row(links, kids, Some(root), depth + 1, next + 1);
    lemma_row_good(links, kids, Some(i), Some(root), depth + 1, next + 1);
    lemma_row_in_order(links, kids, Some(i), Some(root), depth + 1, next + 1);
    let all = subtree(links, i, root, depth, order, next);
    let last = (all.len() - 1) as int;
    assert(all =~= inner.push(all[last]));
    assert forall|k: int| 0 <= k < inner.len() implies links[(#[trigger] inner[k]).run]
        != links[i] by {
        let j = inner[k].run;
        let m = choose|m: int| 0 <= m < kids.len() && below(links, #[trigger] kids[m], j);
        assert(links[kids[m]] == Some(i));
        if links[j] == links[i] {
            lemma_below_child(links, i, j);
            if j == i {
                lemma_not_below_child(links, kids[m]);
            } else {
                lemma_parent_below(links, i, j);
                lemma_not_below_child(links, i);
            }
        }
    }
    assert forall|k: int, l: int|
        0 <= k < all.len() && 0 <= l < all.len() && links[(#[trigger] all[k]).run] == links[(
        #[trigger] all[l]).run] && all[k].run < all[l].run implies all[k].start
        < all[l].start by {
        if k < last && l < last {
            assert(all[k] == inner[k] && all[l] == inner[l]);
        } else if k < last {
            assert(all[k] == inner[k]);
        } else if l < last {
            assert(all[l] == inner[l]);
        }
    }
}

proof fn lemma_row_in_order(
    links: Seq<Option<int>>,
    members: Seq<int>,
    parent: Option<int>,
    root: Option<int>,
    depth: nat,
    next: int,
)
    requires
        links_in_range(links),
        acyclic(links),
        siblings(links, members, parent, depth),
    ensures
        in_sibling_order(links, row(links, members, root, depth, next)),
    decreases links.len() - depth, 2int, members.len(),
{
    if members.len() > 0 {
        let rest = members.drop_last();
        let last = members.last();
        assert forall|a: int| 0 <= a < rest.len() implies {
            &&& 0 <= #[trigger] rest[a] < links.len()
            &&& links[rest[a]] == parent
            &&& rest[a] < last
            &&& ancestor(links, rest[a], depth) is Some
        } by {
            assert(rest[a] == members[a]);
            assert(members[a] < members[members.len() - 1]);
        }
        assert(siblings(links, rest, parent, depth)) by {
            assert forall|a: int, b: int| 0 <= a < b < rest.len() implies #[trigger] rest[a]
                < #[trigger] rest[b] by {
                assert(members[a] < members[b]);
            }
        }
        assert(members[members.len() - 1] == last);
        let ahead = row(links, rest, root, depth, next);
        let own = match root {
            Some(r) => r,
            None => last,
        };
        let order = members.len() - 1;
        let from = next + 2 * ahead.len();
        lemma_depth_bound(links, last, depth);
        lemma_row_good(links, rest, parent, root, depth, next);
        lemma_row_in_order(links, rest, parent, root, depth, next);
        lemma_subtree_good(links, last, own, depth, order, from);
        lemma_subtree_in_order(links, last, own, depth, order, from);
        let tail = subtree(links, last, own, depth, order, from);
        let all = row(links, members, root, depth, next);
        assert(all =~= ahead + tail);
        let n = ahead.len() as int;
        assert forall|k: int, l: int|
            0 <= k < n && 0 <= l < tail.len() && links[(#[trigger] ahead[k]).run] == links[(
            #[trigger] tail[l]).run] implies ahead[k].run < tail[l].run && ahead[k].start
            < tail[l].start by {
            let a = ahead[k];
            let b = tail[l];
            let m = choose|m: int| 0 <= m < rest.len() && below(links, #[trigger] rest[m], a.run);
            let one = choose|one: int|
                0 <= one < seq![last].len() && below(links, #[trigger] seq![last][one], b.run);
            assert(below(links, last, b.run));
            lemma_siblings_below(links, rest[m], last, a.run, b.run);
        }
        assert forall|k: int, l: int|
            0 <= k < all.len() && 0 <= l < all.len() && links[(#[trigger] all[k]).run] == links[(
            #[trigger] all[l]).run] && all[k].run < all[l].run implies all[k].start
            < all[l].start by {
            if k < n && l < n {
                assert(all[k] == ahead[k] && all[l] == ahead[l]);
            } else if k >= n && l >= n {
                assert(all[k] == tail[k - n] && all[l] == tail[l - n]);
            } else if k < n {
                assert(all[k] == ahead[k] && all[l] == tail[l - n]);
            } else {
                assert(all[k] == tail[k - n] && all[l] == ahead[l]);
            }
        }
    }
}

/// Whether a node is that of the sibling that comes next to another in order.
pub open spec fn comes_before(up: TreeNode, node: TreeNode) -> bool {
    up.parent_span_id == node.parent_span_id && up.sibling_order == node.sibling_order - 1
}

/// Of the places of two siblings, the one whose run comes first has the smaller order and
/// the smaller start.
proof fn lemma_place_order(links: Seq<Option<int>>, k: int, l: int)
    requires
        links_in_range(links),
        acyclic(links),
        0 <= k < places(links).len(),
        0 <= l < places(links).len(),
        links[places(links)[k].run] == links[places(links)[l].run],
        places(links)[k].run < places(links)[l].run,
    ensures
        places(links)[k].order < places(links)[l].order,
        places(links)[k].start < places(links)[l].start,
{
    law_places_are_a_nested_set(links);
    lemma_roots_are_siblings(links);
    lemma_row_in_order(links, children(links, None), None, None, 0, 0);
    let a = places(links)[k];
    let b = places(links)[l];
    let kin = children(links, links[a.run]);
    lemma_children(links, links[a.run], links.len() as int);
    assert(kin[a.order] == a.run && kin[b.order] == b.run);
    if b.order < a.order {
        assert(kin[b.order] < kin[a.order]);
    }
}

/// Before a place that is not the first of its siblings' comes that of another.
proof fn lemma_place_before(links: Seq<Option<int>>, k: int) -> (l: int)
    requires
        links_in_range(links),
        acyclic(links),
        0 <= k < places(links).len(),
        places(links)[k].order > 0,
    ensures
        0 <= l < places(links).len(),
        links[places(links)[l].run] == links[places(links)[k].run],
        places(links)[l].order == places(links)[k].order - 1,
{
    law_places_are_a_nested_set(links);
    let all = places(links);
    let place = all[k];
    let kin = children(links, links[place.run]);
    lemma_children(links, links[place.run], links.len() as int);
    assert(under_parent(links, all, place) || links[place.run] is None);
    assert(0 <= place.order < kin.len());
    let other = kin[place.order - 1];
    assert(kin.contains(other));
    assert(links[other] == links[place.run]);
    assert(has_place(all, other));
    let l = choose|l: int| 0 <= l < all.len() && (#[trigger] all[l]).run == other;
    assert(kin[all[l].order] == other);
    lemma_children_distinct(links, links[place.run], all[l].order, place.order - 1);
    l
}

proof fn lemma_place_orders_start(links: Seq<Option<int>>)
    requires
        links_in_range(links),
        acyclic(links),
    ensures
        forall|k: int| 0 <= k < places(links).len() ==> (#[trigger] places(links)[k]).order >= 0,
{
    law_places_are_a_nested_set(links);
}

/// What the runs are when they are sorted, and where each node of the index stands.
proof fn lemma_index_places(runs: Seq<RunTreeInput>, ordered: Seq<RunTreeInput>)
    requires
        distinct_spans(runs),
        ordered == stable_sort(runs, |a: RunTreeInput, b: RunTreeInput| run_before(a, b)),
    ensures
        distinct_spans(ordered),
        ordered.len() == runs.len(),
        trace_tree_index(runs).len() == runs.len(),
        links_in_range(tree_links(parent_links(ordered))),
        acyclic(tree_links(parent_links(ordered))),
        places(tree_links(parent_links(ordered))).len() == runs.len(),
        forall|k: int|
            0 <= k < runs.len() ==> has_node_at(ordered, #[trigger] trace_tree_index(runs)[k]),
        forall|p: int|
            0 <= p < runs.len() ==> trace_tree_index(runs).contains(
                node_at(ordered, #[trigger] places(tree_links(parent_links(ordered)))[p]),
            ),
        forall|p: int|
            0 <= p < runs.len() ==> 0 <= (#[trigger] places(
                tree_links(parent_links(ordered)),
            )[p]).run < runs.len(),
{
    let less = |a: RunTreeInput, b: RunTreeInput| run_before(a, b);
    let by_start = |a: TreeNode, b: TreeNode| a.subtree_start < b.subtree_start;
    lemma_sorted_distinct(runs, less);
    let raw = parent_links(ordered);
    lemma_parent_links_in_range(ordered);
    law_cut_links_are_acyclic(raw);
    let links = tree_links(raw);
    law_places_are_a_nested_set(links);
    let all = places(links);
    let nodes = nodes_at(ordered, all);
    law_sort_keeps_elements(nodes, by_start);
    lemma_sort_members(nodes, by_start);
    let index = trace_tree_index(runs);
    assert forall|k: int| 0 <= k < runs.len() implies has_node_at(
        ordered,
        #[trigger] index[k],
    ) by {
        assert(nodes.contains(index[k]));
        let p = choose|p: int| 0 <= p < nodes.len() && nodes[p] == index[k];
        assert(nodes[p] == node_at(ordered, all[p]));
    }
    assert forall|p: int| 0 <= p < runs.len() implies index.contains(
        node_at(ordered, #[trigger] all[p]),
    ) by {
        assert(nodes[p] == node_at(ordered, all[p]));
        assert(index.contains(nodes[p]));
    }
}

/// Whether `node` is that of one of the places of the sorted runs.
spec fn has_node_at(ordered: Seq<RunTreeInput>, node: TreeNode) -> bool {
    exists|p: int|
        0 <= p < ordered.len() && node == node_at(
            ordered,
            #[trigger] places(tree_links(parent_links(ordered)))[p],
        )
}

proof fn lemma_node_place(ordered: Seq<RunTreeInput>, node: TreeNode) -> (p: int)
    requires
        has_node_at(ordered, node),
    ensures
        0 <= p < ordered.len(),
        node == node_at(ordered, places(tree_links(parent_links(ordered)))[p]),
{
    choose|p: int|
        0 <= p < ordered.len() && node == node_at(
            ordered,
            #[trigger] places(tree_links(parent_links(ordered)))[p],
        )
}

/// Among nodes with one parent, or with none, the orders are zero, one, two and so on,
/// as their runs start and by their span ids where they start together; and the subtree
/// of one that comes later starts later.
pub proof fn law_siblings_are_in_order(runs: Seq<RunTreeInput>)
    requires
        distinct_spans(runs),
    ensures
        forall|k: int|
            0 <= k < runs.len() ==> {
                let node = #[trigger] trace_tree_index(runs)[k];
                &&& node.sibling_order >= 0
                &&& node.sibling_order > 0 ==> exists|l: int|
                    0 <= l < runs.len() && comes_before(
                        #[trigger] trace_tree_index(runs)[l],
                        node,
                    )
            },
        forall|k: int, l: int|
            0 <= k < runs.len() && 0 <= l < runs.len() && k != l && (#[trigger] trace_tree_index(
                runs,
            )[k]).parent_span_id == (#[trigger] trace_tree_index(runs)[l]).parent_span_id ==> {
                let a = trace_tree_index(runs)[k];
                let b = trace_tree_index(runs)[l];
                &&& a.sibling_order != b.sibling_order
                &&& a.sibling_order < b.sibling_order <==> a.subtree_start < b.subtree_start
            },
        forall|i: int, j: int, k: int, l: int|
            0 <= i < runs.len() && 0 <= j < runs.len() && 0 <= k < runs.len() && 0 <= l
                < runs.len() && run_before(#[trigger] runs[i], #[trigger] runs[j]) && (
            #[trigger] trace_tree_index(runs)[k]).span_id == runs[i].span_id@ && (
            #[trigger] trace_tree_index(runs)[l]).span_id == runs[j].span_id@
                && trace_tree_index(runs)[k].parent_span_id == trace_tree_index(
                runs,
            )[l].parent_span_id ==> trace_tree_index(runs)[k].sibling_order < trace_tree_index(
                runs,
            )[l].sibling_order,
{
    let less = |a: RunTreeInput, b: RunTreeInput| run_before(a, b);
    let ordered = stable_sort(runs, less);
    lemma_index_places(runs, ordered);
    let links = tree_links(parent_links(ordered));
    let index = trace_tree_index(runs);
    assert forall|k: int| 0 <= k < runs.len() implies {
        let node = #[trigger] index[k];
        &&& node.sibling_order >= 0
        &&& node.sibling_order > 0 ==> exists|l: int|
            0 <= l < runs.len() && comes_before(#[trigger] index[l], node)
    } by {
        let p = lemma_node_place(ordered, index[k]);
        lemma_place_orders_start(links);
        if index[k].sibling_order > 0 {
            let q = lemma_place_before(links, p);
            assert(index.contains(node_at(ordered, places(links)[q])));
            let l = choose|l: int|
                0 <= l < index.len() && index[l] == node_at(ordered, places(links)[q]);
            assert(comes_before(index[l], index[k]));
        }
    }
    assert forall|k: int, l: int|
        0 <= k < runs.len() && 0 <= l < runs.len() && k != l && (
        #[trigger] index[k]).parent_span_id == (#[trigger] index[l]).parent_span_id implies {
        &&& index[k].sibling_order != index[l].sibling_order
        &&& index[k].sibling_order < index[l].sibling_order <==> index[k].subtree_start
            < index[l].subtree_start
    } by {
        let p = lemma_node_place(ordered, index[k]);
        let q = lemma_node_place(ordered, index[l]);
        lemma_same_link(ordered, places(links)[p], places(links)[q]);
        law_tree_index_keeps_every_run(runs);
        if k < l {
            assert(index[k].span_id != index[l].span_id);
        } else {
            assert(index[l].span_id != index[k].span_id);
        }
        if places(links)[p].run < places(links)[q].run {
            lemma_place_order(links, p, q);
        } else {
            lemma_place_order(links, q, p);
        }
    }
    assert forall|i: int, j: int, k: int, l: int|
        0 <= i < runs.len() && 0 <= j < runs.len() && 0 <= k < runs.len() && 0 <= l < runs.len()
            && run_before(#[trigger] runs[i], #[trigger] runs[j]) && (
        #[trigger] index[k]).span_id == runs[i].span_id@ && (#[trigger] index[l]).span_id
            == runs[j].span_id@ && index[k].parent_span_id
            == index[l].parent_span_id implies index[k].sibling_order
        < index[l].sibling_order by {
        let p = lemma_node_place(ordered, index[k]);
        let q = lemma_node_place(ordered, index[l]);
        lemma_same_link(ordered, places(links)[p], places(links)[q]);
        lemma_runs_in_order(runs, ordered, i, j, places(links)[p].run, places(links)[q].run);
        lemma_place_order(links, p, q);
    }
}

/// A run that comes before another does so when they are sorted.
proof fn lemma_runs_in_order(
    runs: Seq<RunTreeInput>,
    ordered: Seq<RunTreeInput>,
    i: int,
    j: int,
    a: int,
    b: int,
)
    requires
        distinct_spans(ordered),
        ordered == stable_sort(runs, |a: RunTreeInput, b: RunTreeInput| run_before(a, b)),
        ordered.len() == runs.len(),
        0 <= i < runs.len(),
        0 <= j < runs.len(),
        0 <= a < runs.len(),
        0 <= b < runs.len(),
        run_before(runs[i], runs[j]),
        ordered[a].span_id@ == runs[i].span_id@,
        ordered[b].span_id@ == runs[j].span_id@,
    ensures
        a < b,
{
    let less = |a: RunTreeInput, b: RunTreeInput| run_before(a, b);
    lemma_sort_members(runs, less);
    lemma_run_order();
    law_sort_sorts(runs, less);
    lemma_same_run(runs, ordered, i, a);
    lemma_same_run(runs, ordered, j, b);
    law_text_order_is_total(runs[i].span_id@, runs[j].span_id@);
    if b < a {
        assert(!less(ordered[a], ordered[b]));
    }
}

proof fn lemma_run_order()
    ensures
        strict_order(|a: RunTreeInput, b: RunTreeInput| run_before(a, b)),
{
    let less = |x: RunTreeInput, y: RunTreeInput| run_before(x, y);
    assert forall|x: RunTreeInput, y: RunTreeInput| #[trigger] less(x, y) implies !less(y, x) by {
        law_text_order_is_total(x.span_id@, y.span_id@);
    }
    assert forall|x: RunTreeInput, y: RunTreeInput, z: RunTreeInput|
        !#[trigger] less(y, x) && !#[trigger] less(z, y) implies !less(z, x) by {
        law_text_order_is_total(x.span_id@, y.span_id@);
        law_text_order_is_total(y.span_id@, z.span_id@);
        law_text_order_is_total(x.span_id@, z.span_id@);
        if text_less(x.span_id@, y.span_id@) && text_less(y.span_id@, z.span_id@) {
            law_text_order_is_transitive(x.span_id@, y.span_id@, z.span_id@);
        }
    }
}

proof fn lemma_children_distinct(links: Seq<Option<int>>, parent: Option<int>, a: int, b: int)
    requires
        0 <= a < children(links, parent).len(),
        0 <= b < children(links, parent).len(),
        children(links, parent)[a] == children(links, parent)[b],
    ensures
        a == b,
{
    lemma_children(links, parent, links.len() as int);
    let kin = children(links, parent);
    if a < b {
        assert(kin[a] < kin[b]);
    } else if b < a {
        assert(kin[b] < kin[a]);
    }
}

proof fn lemma_same_link(runs: Seq<RunTreeInput>, a: Place, b: Place)
    requires
        distinct_spans(runs),
        0 <= a.run < runs.len(),
        0 <= b.run < runs.len(),
        node_at(runs, a).parent_span_id == node_at(runs, b).parent_span_id,
    ensures
        tree_links(parent_links(runs))[a.run] == tree_links(parent_links(runs))[b.run],
{
    let raw = parent_links(runs);
    lemma_parent_links_in_range(runs);
    law_cut_links_are_acyclic(raw);
    let links = tree_links(raw);
    if links[a.run] is Some && links[b.run] is Some {
        let p = links[a.run]->0;
        let q = links[b.run]->0;
        if p < q {
            assert(runs[p].span_id@ != runs[q].span_id@);
        } else if q < p {
            assert(runs[q].span_id@ != runs[p].span_id@);
        }
    }
}

proof fn lemma_same_run(runs: Seq<RunTreeInput>, ordered: Seq<RunTreeInput>, i: int, a: int)
    requires
        distinct_spans(ordered),
        0 <= i < runs.len(),
        0 <= a < ordered.len(),
        ordered.contains(runs[i]),
        ordered[a].span_id@ == runs[i].span_id@,
    ensures
        ordered[a] == runs[i],
{
    let b = choose|b: int| 0 <= b < ordered.len() && ordered[b] == runs[i];
    if a < b {
        assert(ordered[a].span_id@ != ordered[b].span_id@);
    } else if b < a {
        assert(ordered[b].span_id@ != ordered[a].span_id@);
    }
}

/// Whether a node is a root whose parent is not there.
pub open spec fn is_left_root(node: TreeNode) -> bool {
    &&& node.parent_span_id is None
    &&& node.root_span_id == node.span_id
    &&& node.root_run_id == node.run_id
    &&& node.depth == 0
    &&& node.unresolved_parent
}

/// A run whose parent is not among the runs, such as one whose parent was deleted, is a
/// root of its own.
pub proof fn law_left_run_is_root(runs: Seq<RunTreeInput>, i: int)
    requires
        distinct_spans(runs),
        0 <= i < runs.len(),
        runs[i].parent_span_id is Some,
        forall|j: int|
            0 <= j < runs.len() ==> (#[trigger] runs[j]).span_id@ != runs[i].parent_span_id->0@,
    ensures
        exists|k: int|
            0 <= k < runs.len() && (#[trigger] trace_tree_index(runs)[k]).span_id
                == runs[i].span_id@ && is_left_root(trace_tree_index(runs)[k]),
{
    let less = |a: RunTreeInput, b: RunTreeInput| run_before(a, b);
    let ordered = stable_sort(runs, less);
    lemma_sort_members(runs, less);
    lemma_index_places(runs, ordered);
    let raw = parent_links(ordered);
    let links = tree_links(raw);
    law_places_are_a_nested_set(links);
    let all = places(links);
    let index = trace_tree_index(runs);
    assert(ordered.contains(runs[i]));
    let a = choose|a: int| 0 <= a < ordered.len() && ordered[a] == runs[i];
    assert forall|b: int| 0 <= b < ordered.len() implies (#[trigger] ordered[b]).span_id@
        != runs[i].parent_span_id->0@ by {
        assert(runs.contains(ordered[b]));
    }
    assert(raw[a] is None);
    assert(has_place(all, a));
    let p = choose|p: int| 0 <= p < all.len() && (#[trigger] all[p]).run == a;
    let node = node_at(ordered, all[p]);
    assert(is_left_root(node));
    assert(index.contains(node));
    let k = choose|k: int| 0 <= k < index.len() && index[k] == node;
    assert(index[k].span_id == runs[i].span_id@);
}

/// When a run is taken out, the runs that it was the parent of are roots of their own.
pub proof fn law_children_of_deleted_are_roots(runs: Seq<RunTreeInput>, p: int, i: int)
    requires
        distinct_spans(runs),
        0 <= p < runs.len(),
        0 <= i < runs.len(),
        i != p,
        runs[i].parent_span_id is Some,
        runs[i].parent_span_id->0@ == runs[p].span_id@,
    ensures
        exists|k: int|
            0 <= k < runs.len() - 1 && (#[trigger] trace_tree_index(runs.remove(p))[k]).span_id
                == runs[i].span_id@ && is_left_root(trace_tree_index(runs.remove(p))[k]),
{
    let rest = runs.remove(p);
    assert forall|a: int, b: int| 0 <= a < b < rest.len() implies (#[trigger] rest[a]).span_id@
        != (#[trigger] rest[b]).span_id@ by {
        let c = if a < p {
            a
        } else {
            a + 1
        };
        let d = if b < p {
            b
        } else {
            b + 1
        };
        assert(rest[a] == runs[c] && rest[b] == runs[d]);
    }
    let j = if i < p {
        i
    } else {
        i - 1
    };
    assert(rest[j] == runs[i]);
    assert forall|b: int| 0 <= b < rest.len() implies (#[trigger] rest[b]).span_id@
        != runs[i].parent_span_id->0@ by {
        let d = if b < p {
            b
        } else {
            b + 1
        };
        assert(rest[b] == runs[d]);
        if d < p {
            assert(runs[d].span_id@ != runs[p].span_id@);
        } else {
            assert(runs[p].span_id@ != runs[d].span_id@);
        }
    }
    law_left_run_is_root(rest, j);
}

/// The links that `parents` holds.
pub open spec fn link_views(parents: Seq<Option<usize>>) -> Seq<Option<int>> {
    parents.map_values(
        |parent: Option<usize>|
            match parent {
                Some(p) => Some(p as int),
                None => None,
            },
    )
}

/// The tables that the visit of a tree reads: the links that the tree keeps, the
/// children that follow from them, and what became of each parent link.
struct TreeTables {
    parents: Vec<Option<usize>>,
    children: Vec<Vec<usize>>,
    unresolved: Vec<bool>,
    cyclic: Vec<bool>,
}

spec fn position_views(positions: Seq<usize>) -> Seq<int> {
    positions.map_values(|p: usize| p as int)
}

impl TreeTables {
    spec fn describes(&self, runs: Seq<RunTreeInput>) -> bool {
        let raw = parent_links(runs);
        let links = tree_links(raw);
        &&& link_views(self.parents@) == links
        &&& self.parents.len() == runs.len()
        &&& self.children.len() == runs.len()
        &&& self.unresolved.len() == runs.len()
        &&& self.cyclic.len() == runs.len()
        &&& forall|i: int| 0 <= i < runs.len() ==> #[trigger] self.describes_run(runs, i)
    }

    spec fn describes_run(&self, runs: Seq<RunTreeInput>, i: int) -> bool {
        let raw = parent_links(runs);
        &&& position_views(self.children@[i]@) == children(tree_links(raw), Some(i))
        &&& self.unresolved@[i] == (runs[i].parent_span_id is Some && raw[i] is None)
        &&& self.cyclic@[i] == on_cycle(raw, i)
    }
}

/// Where each span id stands among the runs.
fn span_positions(runs: &Vec<RunTreeInput>) -> (r: StringHashMap<usize>)
    requires
        distinct_spans(runs@),
    ensures
        forall|id: Seq<char>|
            #![trigger r@.contains_key(id)]
            match position_of(runs@, id) {
                Some(i) => r@.contains_key(id) && r@[id] == i,
                None => !r@.contains_key(id),
            },
{
    let mut positions: StringHashMap<usize> = StringHashMap::new();
    let mut i: usize = 0;
    while i < runs.len()
        invariant
            i <= runs.len(),
            distinct_spans(runs@),
            forall|j: int|
                0 <= j < i ==> positions@.contains_key((#[trigger] runs@[j]).span_id@)
                    && positions@[runs@[j].span_id@] == j,
            forall|id: Seq<char>| #[trigger]
                positions@.contains_key(id) ==> exists|j: int|
                    0 <= j < i && (#[trigger] runs@[j]).span_id@ == id,
        decreases runs.len() - i,
    {
        let ghost before = positions@;
        positions.insert(runs[i].span_id.clone(), i);
        assert forall|id: Seq<char>| #[trigger] positions@.contains_key(id) implies exists|j: int|
            0 <= j < i + 1 && (#[trigger] runs@[j]).span_id@ == id by {
            if id == runs@[i as int].span_id@ {
            } else {
                assert(before.contains_key(id));
            }
        }
        i += 1;
    }
    assert forall|id: Seq<char>|
        #![trigger positions@.contains_key(id)]
        match position_of(runs@, id) {
            Some(i) => positions@.contains_key(id) && positions@[id] == i,
            None => !positions@.contains_key(id),
        } by {
        if positions@.contains_key(id) {
            let j = choose|j: int| 0 <= j < runs@.len() && (#[trigger] runs@[j]).span_id@ == id;
            assert(position_of(runs@, id) is Some);
        }
        match position_of(runs@, id) {
            Some(p) => {
                assert(runs@[p].span_id@ == id);
            },
            None => {},
        }
    }
    positions
}

/// Whether the parent links of run `i` lead back to it.
fn parent_creates_cycle(i: usize, parents: &Vec<Option<usize>>) -> (r: bool)
    requires
        i < parents.len(),
        links_in_range(link_views(parents@)),
    ensures
        r == on_cycle(link_views(parents@), i as int),
{
    let ghost links = link_views(parents@);
    let mut seen: Vec<bool> = Vec::new();
    let mut k: usize = 0;
    while k < parents.len()
        invariant
            k <= parents.len(),
            seen.len() == k,
            forall|j: int| 0 <= j < k ==> !seen@[j],
        decreases parents.len() - k,
    {
        seen.push(false);
        k += 1;
    }
    let mut current: Option<usize> = parents[i];
    let ghost mut path: Seq<int> = Seq::empty();
    proof {
        assert(ancestor(links, i as int, 0) == Some(i as int));
        assert(ancestor(links, i as int, 1) == links[i as int]);
    }
    while current.is_some()
        invariant
            i < parents.len(),
            links == link_views(parents@),
            links_in_range(links),
            seen.len() == parents.len(),
            path.no_duplicates(),
            current == (match ancestor(links, i as int, path.len() + 1) {
                Some(j) => Some(j as usize),
                None => None,
            }),
            ancestor(links, i as int, path.len() + 1) is Some ==> 0 <= ancestor(
                links,
                i as int,
                path.len() + 1,
            )->0 < links.len(),
            forall|k: int|
                0 <= k < path.len() ==> {
                    &&& 0 <= #[trigger] path[k] < links.len()
                    &&& path[k] != i
                    &&& ancestor(links, i as int, (k + 1) as nat) == Some(path[k])
                },
            forall|j: int| 0 <= j < links.len() ==> (#[trigger] seen@[j] <==> path.contains(j)),
        decreases links.len() - path.len(),
    {
        let at: usize = current.unwrap();
        if at == i {
            return true;
        }
        if seen[at] {
            proof {
                let loop_from = choose|k: int| 0 <= k < path.len() && path[k] == at;
                lemma_closed_chain(links, i as int, path, loop_from);
            }
            return false;
        }
        seen.set(at, true);
        let ghost before = path;
        proof {
            path = path.push(at as int);
            assert(path.no_duplicates()) by {
                assert forall|a: int, b: int|
                    0 <= a < path.len() && 0 <= b < path.len() && a != b implies path[a]
                    != path[b] by {
                    if a < before.len() {
                        assert(before.contains(before[a]));
                    }
                    if b < before.len() {
                        assert(before.contains(before[b]));
                    }
                }
            }
            assert forall|j: int| 0 <= j < links.len() implies (#[trigger] seen@[j]
                <==> path.contains(j)) by {
                if path.contains(j) {
                    let k = choose|k: int| 0 <= k < path.len() && path[k] == j;
                    if k < before.len() {
                        assert(before.contains(j));
                    }
                }
                if j == at {
                    assert(path[path.len() - 1] == j);
                } else if before.contains(j) {
                    let k = choose|k: int| 0 <= k < before.len() && before[k] == j;
                    assert(path[k] == j);
                }
            }
            lemma_distinct_bound(path, links.len());
            lemma_ancestor_range(links, i as int, path.len() + 1);
            assert(ancestor(links, i as int, path.len() + 1) == links[at as int]);
        }
        current = parents[at];
    }
    proof {
        if on_cycle(links, i as int) {
            let steps = choose|steps: nat|
                steps > 0 && #[trigger] ancestor(links, i as int, steps) == Some(i as int);
            if steps <= path.len() {
                assert(path[steps - 1] != i);
            } else {
                let end = path.len() + 1;
                lemma_ancestor_add(links, i as int, end, (steps - end) as nat);
                assert(end + (steps - end) as nat == steps);
            }
        }
    }
    false
}

/// A chain that runs into itself without having met its start never meets it.
proof fn lemma_closed_chain(links: Seq<Option<int>>, i: int, path: Seq<int>, back: int)
    requires
        0 <= back < path.len(),
        forall|k: int|
            0 <= k < path.len() ==> #[trigger] path[k] != i && ancestor(links, i, (k + 1) as nat)
                == Some(path[k]),
        ancestor(links, i, path.len() + 1) == Some(path[back]),
    ensures
        !on_cycle(links, i),
{
    if on_cycle(links, i) {
        let steps = choose|steps: nat| steps > 0 && #[trigger] ancestor(links, i, steps) == Some(i);
        lemma_chain_stays(links, i, path, back, steps);
        let k = choose|k: int|
            0 <= k < path.len() && ancestor(links, i, steps) == Some(#[trigger] path[k]);
        assert(path[k] != i);
    }
}

proof fn lemma_chain_stays(links: Seq<Option<int>>, i: int, path: Seq<int>, back: int, steps: nat)
    requires
        0 <= back < path.len(),
        steps > 0,
        forall|k: int|
            0 <= k < path.len() ==> #[trigger] path[k] != i && ancestor(links, i, (k + 1) as nat)
                == Some(path[k]),
        ancestor(links, i, path.len() + 1) == Some(path[back]),
    ensures
        exists|k: int|
            0 <= k < path.len() && ancestor(links, i, steps) == Some(#[trigger] path[k]),
    decreases steps,
{
    if steps <= path.len() {
        assert(ancestor(links, i, steps) == Some(path[steps - 1]));
    } else {
        lemma_chain_stays(links, i, path, back, (steps - 1) as nat);
        let k = choose|k: int|
            0 <= k < path.len() && ancestor(links, i, (steps - 1) as nat) == Some(
                #[trigger] path[k],
            );
        assert(ancestor(links, i, (k + 1) as nat) == Some(path[k]));
        assert(ancestor(links, i, (k + 2) as nat) == ancestor(links, i, steps));
        if k + 1 < path.len() {
            assert(ancestor(links, i, (k + 2) as nat) == Some(path[k + 1]));
        } else {
            assert(ancestor(links, i, (k + 2) as nat) == Some(path[back]));
        }
    }
}

/// The position of each run's parent.
fn parent_positions(runs: &Vec<RunTreeInput>) -> (r: Vec<Option<usize>>)
    requires
        distinct_spans(runs@),
    ensures
        link_views(r@) == parent_links(runs@),
        r.len() == runs.len(),
{
    let positions = span_positions(runs);
    let mut parents: Vec<Option<usize>> = Vec::new();
    let mut i: usize = 0;
    while i < runs.len()
        invariant
            i <= runs.len(),
            parents.len() == i,
            forall|id: Seq<char>|
                #![trigger positions@.contains_key(id)]
                match position_of(runs@, id) {
                    Some(i) => positions@.contains_key(id) && positions@[id] == i,
                    None => !positions@.contains_key(id),
                },
            forall|j: int|
                0 <= j < i ==> #[trigger] link_views(parents@)[j] == parent_links(runs@)[j],
        decreases runs.len() - i,
    {
        let ghost before = parents@;
        let parent: Option<usize> = match &runs[i].parent_span_id {
            Some(id) => match positions.get(id.as_str()) {
                Some(p) => Some(*p),
                None => None,
            },
            None => None,
        };
        parents.push(parent);
        i += 1;
        assert forall|j: int| 0 <= j < i implies #[trigger] link_views(parents@)[j]
            == parent_links(runs@)[j] by {
            if j < i - 1 {
                assert(link_views(parents@)[j] == link_views(before)[j]);
            }
        }
    }
    assert(link_views(parents@) =~= parent_links(runs@));
    parents
}

/// The runs whose link is `parent`, in order.
fn children_positions(parents: &Vec<Option<usize>>, parent: Option<usize>) -> (r: Vec<usize>)
    ensures
        position_views(r@) == children(
            link_views(parents@),
            match parent {
                Some(p) => Some(p as int),
                None => None,
            },
        ),
        forall|k: int| 0 <= k < r.len() ==> #[trigger] r@[k] < parents.len(),
{
    let ghost links = link_views(parents@);
    let ghost link = match parent {
        Some(p) => Some(p as int),
        None => None::<int>,
    };
    let mut found: Vec<usize> = Vec::new();
    let mut i: usize = 0;
    while i < parents.len()
        invariant
            i <= parents.len(),
            links == link_views(parents@),
            link == (match parent {
                Some(p) => Some(p as int),
                None => None::<int>,
            }),
            position_views(found@) == children_upto(links, link, i as int),
            forall|k: int| 0 <= k < found.len() ==> #[trigger] found@[k] < parents.len(),
        decreases parents.len() - i,
    {
        let matches = match (parents[i], parent) {
            (Some(a), Some(b)) => a == b,
            (None, None) => true,
            _ => false,
        };
        if matches {
            let ghost before = found@;
            found.push(i);
            assert(position_views(found@) =~= position_views(before).push(i as int));
        }
        i += 1;
    }
    found
}

fn tree_tables(runs: &Vec<RunTreeInput>) -> (tables: TreeTables)
    requires
        distinct_spans(runs@),
    ensures
        tables.describes(runs@),
{
    let raw = parent_positions(runs);
    proof {
        lemma_parent_links_in_range(runs@);
    }
    let mut parents: Vec<Option<usize>> = Vec::new();
    let mut unresolved: Vec<bool> = Vec::new();
    let mut cyclic: Vec<bool> = Vec::new();
    let ghost links = tree_links(parent_links(runs@));
    let mut i: usize = 0;
    while i < runs.len()
        invariant
            i <= runs.len(),
            raw.len() == runs.len(),
            link_views(raw@) == parent_links(runs@),
            links_in_range(link_views(raw@)),
            links == tree_links(parent_links(runs@)),
            parents.len() == i,
            unresolved.len() == i,
            cyclic.len() == i,
            forall|j: int|
                0 <= j < i ==> {
                    &&& #[trigger] link_views(parents@)[j] == links[j]
                    &&& unresolved@[j] == (runs@[j].parent_span_id is Some && parent_links(
                        runs@,
                    )[j] is None)
                    &&& cyclic@[j] == on_cycle(parent_links(runs@), j)
                },
        decreases runs.len() - i,
    {
        let ghost before = parents@;
        assert(link_views(raw@)[i as int] == parent_links(runs@)[i as int]);
        let cycle = parent_creates_cycle(i, &raw);
        cyclic.push(cycle);
        unresolved.push(runs[i].parent_span_id.is_some() && raw[i].is_none());
        parents.push(
            if cycle {
                None
            } else {
                raw[i]
            },
        );
        i += 1;
        assert forall|j: int| 0 <= j < i implies {
            &&& #[trigger] link_views(parents@)[j] == links[j]
            &&& unresolved@[j] == (runs@[j].parent_span_id is Some && parent_links(
                runs@,
            )[j] is None)
            &&& cyclic@[j] == on_cycle(parent_links(runs@), j)
        } by {
            if j < i - 1 {
                assert(link_views(parents@)[j] == link_views(before)[j]);
            }
        }
    }
    assert(link_views(parents@) =~= links);
    let mut all: Vec<Vec<usize>> = Vec::new();
    let mut k: usize = 0;
    while k < runs.len()
        invariant
            k <= runs.len(),
            all.len() == k,
            link_views(parents@) == links,
            forall|j: int|
                0 <= j < k ==> position_views((#[trigger] all@[j])@) == children(links, Some(j)),
        decreases runs.len() - k,
    {
        let found = children_positions(&parents, Some(k));
        all.push(found);
        k += 1;
    }
    let tables = TreeTables { parents, children: all, unresolved, cyclic };
    assert forall|j: int| 0 <= j < runs@.len() implies #[trigger] tables.describes_run(
        runs@,
        j,
    ) by {
        assert(link_views(tables.parents@)[j] == links[j]);
        assert(position_views(tables.children@[j]@) == children(links, Some(j)));
    }
    tables
}

proof fn lemma_row_grows(
    links: Seq<Option<int>>,
    members: Seq<int>,
    upto: int,
    root: Option<int>,
    depth: nat,
    next: int,
)
    requires
        0 <= upto <= members.len(),
    ensures
        row(links, members.take(upto), root, depth, next).len() <= row(
            links,
            members,
            root,
            depth,
            next,
        ).len(),
    decreases members.len(),
{
    if upto < members.len() {
        lemma_row_grows(links, members.drop_last(), upto, root, depth, next);
        assert(members.drop_last().take(upto) =~= members.take(upto));
    } else {
        assert(members.take(upto) =~= members);
    }
}

/// Numbers run `i` and all below it. Gives how many are below.
fn visit_tree_node(
    i: usize,
    depth: usize,
    order: usize,
    root: usize,
    runs: &Vec<RunTreeInput>,
    tables: &TreeTables,
    next_order: &mut i64,
    nodes: &mut Vec<RunTreeIndexNode>,
) -> (descendants: i64)
    requires
        tables.describes(runs@),
        links_in_range(tree_links(parent_links(runs@))),
        acyclic(tree_links(parent_links(runs@))),
        i < runs.len(),
        root < runs.len(),
        order < runs.len(),
        2 * runs.len() <= i64::MAX,
        ancestor(tree_links(parent_links(runs@)), i as int, depth as nat) is Some,
        *old(next_order) >= 0,
        *old(next_order) + 2 * subtree(
            tree_links(parent_links(runs@)),
            i as int,
            root as int,
            depth as nat,
            order as int,
            *old(next_order) as int,
        ).len() <= 2 * runs.len(),
    ensures
        node_views(final(nodes)@) == node_views(old(nodes)@) + nodes_at(
            runs@,
            subtree(
                tree_links(parent_links(runs@)),
                i as int,
                root as int,
                depth as nat,
                order as int,
                *old(next_order) as int,
            ),
        ),
        *final(next_order) == *old(next_order) + 2 * subtree(
            tree_links(parent_links(runs@)),
            i as int,
            root as int,
            depth as nat,
            order as int,
            *old(next_order) as int,
        ).len(),
        descendants + 1 == subtree(
            tree_links(parent_links(runs@)),
            i as int,
            root as int,
            depth as nat,
            order as int,
            *old(next_order) as int,
        ).len(),
    decreases runs.len() - depth,
{
    let ghost links = tree_links(parent_links(runs@));
    proof {
        lemma_depth_bound(links, i as int, depth as nat);
        lemma_children_are_siblings(links, i as int, depth as nat);
    }
    let ghost kids = children(links, Some(i as int));
    let ghost first = *next_order as int;
    let ghost start_nodes = node_views(nodes@);
    let ghost below_all = row(links, kids, Some(root as int), (depth + 1) as nat, first + 1);
    let subtree_start: i64 = *next_order;
    *next_order = *next_order + 1;
    let mut descendant_count: i64 = 0;
    let mut c: usize = 0;
    assert(tables.describes_run(runs@, i as int));
    assert(position_views(tables.children@[i as int]@) == kids);
    assert(tables.children@[i as int]@.len() == kids.len());
    assert(kids.take(0) =~= Seq::<int>::empty());
    assert(nodes_at(runs@, Seq::<Place>::empty()) =~= Seq::<TreeNode>::empty());
    assert(node_views(nodes@) =~= start_nodes + nodes_at(runs@, Seq::<Place>::empty()));
    while c < tables.children[i].len()
        invariant
            tables.describes(runs@),
            links == tree_links(parent_links(runs@)),
            links_in_range(links),
            acyclic(links),
            i < runs.len(),
            root < runs.len(),
            depth < runs.len(),
            runs.len() == links.len(),
            2 * runs.len() <= i64::MAX,
            kids == children(links, Some(i as int)),
            position_views(tables.children@[i as int]@) == kids,
            siblings(links, kids, Some(i as int), (depth + 1) as nat),
            c <= kids.len(),
            kids.len() == tables.children@[i as int].len(),
            first >= 0,
            below_all == row(links, kids, Some(root as int), (depth + 1) as nat, first + 1),
            first + 2 + 2 * below_all.len() <= 2 * runs.len(),
            ({
                let done = row(
                    links,
                    kids.take(c as int),
                    Some(root as int),
                    (depth + 1) as nat,
                    first + 1,
                );
                &&& node_views(nodes@) == start_nodes + nodes_at(runs@, done)
                &&& *next_order == first + 1 + 2 * done.len()
                &&& descendant_count == done.len()
            }),
        decreases kids.len() - c,
    {
        let child: usize = tables.children[i][c];
        let ghost done = row(
            links,
            kids.take(c as int),
            Some(root as int),
            (depth + 1) as nat,
            first + 1,
        );
        let ghost more = kids.take(c + 1);
        assert(position_views(tables.children@[i as int]@)[c as int] == child as int);
        assert(kids[c as int] == child);
        assert(more.drop_last() =~= kids.take(c as int));
        assert(more.last() == child);
        proof {
            lemma_row_grows(links, kids, c + 1, Some(root as int), (depth + 1) as nat, first + 1);
            lemma_distinct_bound_members(kids, links.len());
        }
        let ghost part = subtree(
            links,
            child as int,
            root as int,
            (depth + 1) as nat,
            c as int,
            *next_order as int,
        );
        assert(row(links, more, Some(root as int), (depth + 1) as nat, first + 1) == done + part);
        let below_child = visit_tree_node(
            child,
            depth + 1,
            c,
            root,
            runs,
            tables,
            next_order,
            nodes,
        );
        descendant_count = descendant_count + 1 + below_child;
        assert(nodes_at(runs@, done + part) =~= nodes_at(runs@, done) + nodes_at(runs@, part));
        c += 1;
    }
    assert(kids.take(c as int) =~= kids);
    let subtree_end: i64 = *next_order;
    *next_order = *next_order + 1;
    let ghost place = Place {
        run: i as int,
        root: root as int,
        depth: depth as int,
        order: order as int,
        start: first,
        end: first + 1 + 2 * below_all.len(),
        descendants: below_all.len() as int,
    };
    assert(subtree(links, i as int, root as int, depth as nat, order as int, first)
        == below_all.push(place));
    let parent_span_id = match tables.parents[i] {
        Some(p) => {
            assert(link_views(tables.parents@)[i as int] == Some(p as int));
            assert(links[i as int] == Some(p as int));
            Some(runs[p].span_id.clone())
        },
        None => {
            assert(link_views(tables.parents@)[i as int] == None::<int>);
            None
        },
    };
    let node = RunTreeIndexNode {
        span_id: runs[i].span_id.clone(),
        run_id: runs[i].run_id.clone(),
        parent_span_id,
        root_span_id: runs[root].span_id.clone(),
        root_run_id: runs[root].run_id.clone(),
        depth: depth as i64,
        sibling_order: order as i64,
        subtree_start,
        subtree_end,
        descendant_count,
        unresolved_parent: tables.unresolved[i],
        cycle_detected: tables.cyclic[i],
    };
    assert(node@ == node_at(runs@, place)) by {
        assert(tables.describes_run(runs@, i as int));
    }
    let ghost before = nodes@;
    nodes.push(node);
    assert(node_views(nodes@) =~= node_views(before).push(node@));
    assert(nodes_at(runs@, below_all.push(place)) =~= nodes_at(runs@, below_all).push(
        node_at(runs@, place),
    ));
    assert(node_views(nodes@) =~= start_nodes + nodes_at(runs@, below_all.push(place)));
    descendant_count
}

proof fn lemma_distinct_bound_members(members: Seq<int>, n: nat)
    requires
        forall|a: int| 0 <= a < members.len() ==> 0 <= #[trigger] members[a] < n,
        forall|a: int, b: int|
            0 <= a < b < members.len() ==> #[trigger] members[a] < #[trigger] members[b],
    ensures
        members.len() <= n,
{
    assert(members.no_duplicates());
    lemma_distinct_bound(members, n);
}

fn is_run_before(a: &RunTreeInput, b: &RunTreeInput) -> (r: bool)
    ensures
        r == run_before(*a, *b),
{
    a.start_time_unix_nano < b.start_time_unix_nano || (a.start_time_unix_nano
        == b.start_time_unix_nano && is_less(a.span_id.as_str(), b.span_id.as_str()))
}

fn starts_before(a: &RunTreeIndexNode, b: &RunTreeIndexNode) -> (r: bool)
    ensures
        r == (a.subtree_start < b.subtree_start),
{
    a.subtree_start < b.subtree_start
}

/// The nested-set index of a trace: each run once, by where its subtree starts.
/// A run whose parent is not among the runs, or whose parent links lead back to
/// it, is the root of a tree of its own.
pub fn build_trace_tree_index(runs: Vec<RunTreeInput>) -> (nodes: Vec<RunTreeIndexNode>)
    requires
        distinct_spans(runs@),
        2 * runs.len() <= i64::MAX,
    ensures
        node_views(nodes@) == trace_tree_index(runs@),
{
    let ghost less = |a: RunTreeInput, b: RunTreeInput| run_before(a, b);
    proof {
        lemma_sorted_distinct(runs@, less);
    }
    let runs = sort_by(
        runs,
        is_run_before,
        Ghost(less),
    );
    let tables = tree_tables(&runs);
    let ghost links = tree_links(parent_links(runs@));
    proof {
        lemma_parent_links_in_range(runs@);
        law_cut_links_are_acyclic(parent_links(runs@));
        law_places_are_a_nested_set(links);
        lemma_roots_are_siblings(links);
    }
    let roots = children_positions(&tables.parents, None);
    let ghost tops = children(links, None);
    assert(position_views(roots@) == tops);
    assert(roots@.len() == tops.len());
    let mut nodes: Vec<RunTreeIndexNode> = Vec::new();
    let mut next_order: i64 = 0;
    let mut k: usize = 0;
    assert(tops.take(0) =~= Seq::<int>::empty());
    assert(node_views(nodes@) =~= nodes_at(runs@, Seq::<Place>::empty()));
    while k < roots.len()
        invariant
            tables.describes(runs@),
            links == tree_links(parent_links(runs@)),
            links_in_range(links),
            acyclic(links),
            runs.len() == links.len(),
            2 * runs.len() <= i64::MAX,
            tops == children(links, None),
            position_views(roots@) == tops,
            roots@.len() == tops.len(),
            siblings(links, tops, None, 0),
            places(links).len() == links.len(),
            k <= roots.len(),
            ({
                let done = row(links, tops.take(k as int), None, 0, 0);
                &&& node_views(nodes@) == nodes_at(runs@, done)
                &&& next_order == 2 * done.len()
            }),
        decreases roots.len() - k,
    {
        let root: usize = roots[k];
        let ghost done = row(links, tops.take(k as int), None, 0, 0);
        let ghost more = tops.take(k + 1);
        assert(position_views(roots@)[k as int] == root as int);
        assert(tops[k as int] == root);
        assert(more.drop_last() =~= tops.take(k as int));
        assert(more.last() == root);
        proof {
            lemma_row_grows(links, tops, k + 1, None, 0, 0);
            lemma_distinct_bound_members(tops, links.len());
        }
        let ghost part = subtree(
            links,
            root as int,
            root as int,
            0,
            k as int,
            next_order as int,
        );
        assert(row(links, more, None, 0, 0) == done + part);
        visit_tree_node(root, 0, k, root, &runs, &tables, &mut next_order, &mut nodes);
        assert(nodes_at(runs@, done + part) =~= nodes_at(runs@, done) + nodes_at(runs@, part));
        k += 1;
    }
    assert(tops.take(k as int) =~= tops);
    let ghost by_start = |a: TreeNode, b: TreeNode| a.subtree_start < b.subtree_start;
    let ghost node_less = |a: RunTreeIndexNode, b: RunTreeIndexNode| a.subtree_start < b.subtree_start;
    proof {
        lemma_sort_map(
            nodes@,
            |node: RunTreeIndexNode| node@,
            node_less,
            by_start,
        );
    }
    sort_by(
        nodes,
        starts_before,
        Ghost(node_less),
    )
}

} // verus!
