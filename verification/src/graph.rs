//! Build graphs: nodes, dependency edges, and the dependency-ordered
//! scheduling of one build.
//!
//! `topological_sort` turns a validated graph into a linear execution
//! order.  It follows Kahn's scheme — repeatedly take a node whose every
//! in-edge comes from an already-scheduled node — with ties broken by
//! node-list position, so the order is deterministic.  Its contract pins
//! down exactly when a graph is rejected: a duplicate node id, an edge
//! naming an unknown node, or a graph that admits no topological order.

use vstd::pervasive::VecAdditionalExecFns;
use vstd::prelude::*;
use vstd::string::StringExecFns;

verus! {

/// Per-type configuration of one build step.
#[derive(Debug, Clone, PartialEq)]
pub enum NodeConfig {
    /// One shell command, run in `cwd` (or the build directory when absent);
    /// `$PROJECT_ROOT` in `cwd` stands for the build directory.
    Command { command: String, cwd: Option<String> },
    /// A script body written to a temporary file and run with `shell`.
    Script { script: String, shell: String },
    /// A glob pattern, relative to the build directory, whose matches are
    /// collected as artifacts.
    Artifact { path: String },
    /// A release publication; `$VERSION` in `tag` and `title` stands for
    /// the build's version.
    Release { tag: String, title: String, body: String, draft: bool, prerelease: bool },
    /// A node type this engine does not recognize; skipped with a warning.
    Other { kind: String },
}

/// One step of a build graph.
#[derive(Debug, Clone, PartialEq)]
pub struct BuildNode {
    pub id: String,
    pub name: String,
    pub config: NodeConfig,
}

/// A dependency: `target` may only run after `source` has completed.
#[derive(Debug, Clone, PartialEq)]
pub struct BuildEdge {
    pub id: String,
    pub source: String,
    pub target: String,
}

/// Why a graph was rejected.
#[derive(Debug, Clone, PartialEq)]
pub enum GraphError {
    DuplicateNodeId { id: String },
    UnknownNodeId { id: String },
    CircularDependency,
}

pub enum NodeConfigView {
    Command { command: Seq<char>, cwd: Option<Seq<char>> },
    Script { script: Seq<char>, shell: Seq<char> },
    Artifact { path: Seq<char> },
    Release { tag: Seq<char>, title: Seq<char>, body: Seq<char>, draft: bool, prerelease: bool },
    Other { kind: Seq<char> },
}

pub struct BuildNodeView {
    pub id: Seq<char>,
    pub name: Seq<char>,
    pub config: NodeConfigView,
}

pub struct BuildEdgeView {
    pub id: Seq<char>,
    pub source: Seq<char>,
    pub target: Seq<char>,
}

impl View for NodeConfig {
    type V = NodeConfigView;

    open spec fn view(&self) -> NodeConfigView {
        match self {
            NodeConfig::Command { command, cwd } => NodeConfigView::Command {
                command: command@,
                cwd: match cwd {
                    Some(c) => Some(c@),
                    None => None,
                },
            },
            NodeConfig::Script { script, shell } => NodeConfigView::Script {
                script: script@,
                shell: shell@,
            },
            NodeConfig::Artifact { path } => NodeConfigView::Artifact { path: path@ },
            NodeConfig::Release { tag, title, body, draft, prerelease } => NodeConfigView::Release {
                tag: tag@,
                title: title@,
                body: body@,
                draft: *draft,
                prerelease: *prerelease,
            },
            NodeConfig::Other { kind } => NodeConfigView::Other { kind: kind@ },
        }
    }
}

impl DeepView for NodeConfig {
    type V = NodeConfigView;

    open spec fn deep_view(&self) -> NodeConfigView {
        self.view()
    }
}

impl View for BuildNode {
    type V = BuildNodeView;

    open spec fn view(&self) -> BuildNodeView {
        BuildNodeView { id: self.id@, name: self.name@, config: self.config@ }
    }
}

impl DeepView for BuildNode {
    type V = BuildNodeView;

    open spec fn deep_view(&self) -> BuildNodeView {
        self.view()
    }
}

impl View for BuildEdge {
    type V = BuildEdgeView;

    open spec fn view(&self) -> BuildEdgeView {
        BuildEdgeView { id: self.id@, source: self.source@, target: self.target@ }
    }
}

impl DeepView for BuildEdge {
    type V = BuildEdgeView;

    open spec fn deep_view(&self) -> BuildEdgeView {
        self.view()
    }
}

impl NodeConfig {
    /// An equal copy (`Clone` on types with `String` fields says nothing to
    /// the verifier, so copying is spelled out here).
    pub fn duplicate(&self) -> (r: NodeConfig)
        ensures
            r == *self,
    {
        match self {
            NodeConfig::Command { command, cwd } => NodeConfig::Command {
                command: command.clone(),
                cwd: match cwd {
                    Some(c) => Some(c.clone()),
                    None => None,
                },
            },
            NodeConfig::Script { script, shell } => NodeConfig::Script {
                script: script.clone(),
                shell: shell.clone(),
            },
            NodeConfig::Artifact { path } => NodeConfig::Artifact { path: path.clone() },
            NodeConfig::Release { tag, title, body, draft, prerelease } => NodeConfig::Release {
                tag: tag.clone(),
                title: title.clone(),
                body: body.clone(),
                draft: *draft,
                prerelease: *prerelease,
            },
            NodeConfig::Other { kind } => NodeConfig::Other { kind: kind.clone() },
        }
    }
}

impl BuildNode {
    /// An equal copy.
    pub fn duplicate(&self) -> (r: BuildNode)
        ensures
            r == *self,
    {
        BuildNode { id: self.id.clone(), name: self.name.clone(), config: self.config.duplicate() }
    }
}

impl BuildEdge {
    /// An equal copy.
    pub fn duplicate(&self) -> (r: BuildEdge)
        ensures
            r == *self,
    {
        BuildEdge { id: self.id.clone(), source: self.source.clone(), target: self.target.clone() }
    }
}

/// The message attached to a rejected graph.
pub open spec fn graph_error_text(e: GraphError) -> Seq<char> {
    match e {
        GraphError::DuplicateNodeId { id } => "Duplicate node id: "@ + id@,
        GraphError::UnknownNodeId { id } => "Unknown node id: "@ + id@,
        GraphError::CircularDependency => "Circular dependency detected in build nodes"@,
    }
}

impl GraphError {
    /// This error, worded for logs and completion events.
    pub fn describe(&self) -> (r: String)
        ensures
            r@ == graph_error_text(*self),
    {
        match self {
            GraphError::DuplicateNodeId { id } => {
                let mut s = String::from_str("Duplicate node id: ");
                s.append(id.as_str());
                s
            },
            GraphError::UnknownNodeId { id } => {
                let mut s = String::from_str("Unknown node id: ");
                s.append(id.as_str());
                s
            },
            GraphError::CircularDependency => String::from_str(
                "Circular dependency detected in build nodes",
            ),
        }
    }
}

/// No two nodes share an id.
pub open spec fn distinct_ids(nodes: Seq<BuildNode>) -> bool {
    forall|i: int, j: int| 0 <= i < j < nodes.len() ==> nodes[i].id@ != nodes[j].id@
}

/// Some node carries this id.
pub open spec fn id_resolves(nodes: Seq<BuildNode>, id: Seq<char>) -> bool {
    exists|i: int| 0 <= i < nodes.len() && nodes[i].id@ == id
}

/// Every edge endpoint names a node of the graph.
pub open spec fn edges_resolve(nodes: Seq<BuildNode>, edges: Seq<BuildEdge>) -> bool {
    forall|k: int|
        0 <= k < edges.len() ==> id_resolves(nodes, (#[trigger] edges[k]).source@)
            && id_resolves(nodes, edges[k].target@)
}

/// A well-formed graph: distinct node ids, and edges that resolve.
pub open spec fn graph_wf(nodes: Seq<BuildNode>, edges: Seq<BuildEdge>) -> bool {
    distinct_ids(nodes) && edges_resolve(nodes, edges)
}

/// Every edge goes forward in `order`: a source appears strictly before
/// any occurrence of its target.
pub open spec fn respects_edges(order: Seq<BuildNode>, edges: Seq<BuildEdge>) -> bool {
    forall|k: int, i: int, j: int|
        #![trigger edges[k], order[i], order[j]]
        0 <= k < edges.len() && 0 <= i < order.len() && 0 <= j < order.len()
            && order[i].id@ == edges[k].source@ && order[j].id@ == edges[k].target@ ==> i < j
}

/// `order` schedules every node of the graph exactly once (given distinct
/// ids) and never runs a node before one of its dependencies.
pub open spec fn is_topo_order(
    order: Seq<BuildNode>,
    nodes: Seq<BuildNode>,
    edges: Seq<BuildEdge>,
) -> bool {
    &&& order.len() == nodes.len()
    &&& forall|i: int| 0 <= i < nodes.len() ==> order.contains(#[trigger] nodes[i])
    &&& respects_edges(order, edges)
}

/// The graph admits some topological order.
pub open spec fn orderable(nodes: Seq<BuildNode>, edges: Seq<BuildEdge>) -> bool {
    exists|order: Seq<BuildNode>| is_topo_order(order, nodes, edges)
}

/// An edge leads from id `a` to id `b`.
pub open spec fn edge_between(edges: Seq<BuildEdge>, a: Seq<char>, b: Seq<char>) -> bool {
    exists|k: int| 0 <= k < edges.len() && (#[trigger] edges[k]).source@ == a && edges[k].target@ == b
}

/// `ids` walks a directed cycle: each step follows an edge, and the last
/// id steps back to the first.
pub open spec fn is_cycle(edges: Seq<BuildEdge>, ids: Seq<Seq<char>>) -> bool {
    &&& ids.len() >= 1
    &&& forall|i: int| 0 <= i < ids.len() - 1 ==> edge_between(edges, #[trigger] ids[i], ids[i + 1])
    &&& edge_between(edges, ids[ids.len() - 1], ids[0])
}

/// Some cycle runs through the edge set.
pub open spec fn has_cycle(edges: Seq<BuildEdge>) -> bool {
    exists|ids: Seq<Seq<char>>| is_cycle(edges, ids)
}

/// A position in `order` holding the id `ids[m]`.
spec fn cycle_pos(order: Seq<BuildNode>, ids: Seq<Seq<char>>, m: int) -> int {
    choose|p: int| 0 <= p < order.len() && order[p].id@ == ids[m]
}

proof fn lemma_cycle_chain(
    order: Seq<BuildNode>,
    edges: Seq<BuildEdge>,
    ids: Seq<Seq<char>>,
    i: int,
)
    requires
        respects_edges(order, edges),
        forall|m: int|
            0 <= m < ids.len() ==> exists|p: int|
                0 <= p < order.len() && (#[trigger] order[p]).id@ == #[trigger] ids[m],
        forall|m: int| 0 <= m < ids.len() - 1 ==> edge_between(edges, #[trigger] ids[m], ids[m + 1]),
        1 <= i < ids.len(),
    ensures
        cycle_pos(order, ids, 0) < cycle_pos(order, ids, i),
    decreases i,
{
    let p_prev = cycle_pos(order, ids, i - 1);
    let p_i = cycle_pos(order, ids, i);
    assert(exists|p: int| 0 <= p < order.len() && (#[trigger] order[p]).id@ == ids[i - 1]);
    assert(exists|p: int| 0 <= p < order.len() && (#[trigger] order[p]).id@ == ids[i]);
    assert(0 <= p_prev < order.len() && order[p_prev].id@ == ids[i - 1]);
    assert(0 <= p_i < order.len() && order[p_i].id@ == ids[i]);
    assert(edge_between(edges, ids[i - 1], ids[i]));
    let k = choose|k: int|
        0 <= k < edges.len() && (#[trigger] edges[k]).source@ == ids[i - 1] && edges[k].target@
            == ids[i];
    assert(p_prev < p_i);  // respects_edges at (k, p_prev, p_i)
    if i > 1 {
        lemma_cycle_chain(order, edges, ids, i - 1);
    }
}

/// A graph that contains a cycle admits no topological order: following
/// the cycle's edges, positions in any such order would increase strictly
/// and still return to their start.  With the contract of
/// `topological_sort`, this means a build whose graph has a cycle is
/// rejected with `CircularDependency` before any node runs.
pub proof fn lemma_cycle_has_no_topo_order(
    nodes: Seq<BuildNode>,
    edges: Seq<BuildEdge>,
    ids: Seq<Seq<char>>,
)
    requires
        is_cycle(edges, ids),
        edges_resolve(nodes, edges),
    ensures
        !orderable(nodes, edges),
{
    if orderable(nodes, edges) {
        let order = choose|order: Seq<BuildNode>| is_topo_order(order, nodes, edges);
        // every id on the cycle occurs in the order
        assert forall|m: int| 0 <= m < ids.len() implies exists|p: int|
            0 <= p < order.len() && (#[trigger] order[p]).id@ == #[trigger] ids[m] by {
            // ids[m] is the endpoint of some edge, so it resolves to a node
            let k = if m < ids.len() - 1 {
                choose|k: int|
                    0 <= k < edges.len() && (#[trigger] edges[k]).source@ == ids[m]
                        && edges[k].target@ == ids[m + 1]
            } else {
                choose|k: int|
                    0 <= k < edges.len() && (#[trigger] edges[k]).source@ == ids[m]
                        && edges[k].target@ == ids[0]
            };
            assert(id_resolves(nodes, edges[k].source@));
            let v = choose|v: int| 0 <= v < nodes.len() && (#[trigger] nodes[v]).id@ == ids[m];
            assert(order.contains(nodes[v]));
            let p = choose|p: int| 0 <= p < order.len() && order[p] == nodes[v];
            assert(order[p].id@ == ids[m]);
        }
        let last = ids.len() - 1;
        let p_last = cycle_pos(order, ids, last);
        let p_first = cycle_pos(order, ids, 0);
        assert(0 <= p_last < order.len() && order[p_last].id@ == ids[last]);
        assert(0 <= p_first < order.len() && order[p_first].id@ == ids[0]);
        let k = choose|k: int|
            0 <= k < edges.len() && (#[trigger] edges[k]).source@ == ids[last] && edges[k].target@
                == ids[0];
        assert(p_last < p_first);  // respects_edges at (k, p_last, p_first)
        if last >= 1 {
            lemma_cycle_chain(order, edges, ids, last);
        }
        assert(false);
    }
}

/// How many entries of `s` are true.
pub closed spec fn count_true(s: Seq<bool>) -> int
    decreases s.len(),
{
    if s.len() == 0 {
        0
    } else {
        count_true(s.drop_last()) + if s.last() {
            1int
        } else {
            0int
        }
    }
}

proof fn lemma_count_true_none(s: Seq<bool>)
    requires
        forall|i: int| 0 <= i < s.len() ==> !s[i],
    ensures
        count_true(s) == 0,
    decreases s.len(),
{
    if s.len() > 0 {
        lemma_count_true_none(s.drop_last());
    }
}

proof fn lemma_count_true_update(s: Seq<bool>, i: int)
    requires
        0 <= i < s.len(),
        !s[i],
    ensures
        count_true(s.update(i, true)) == count_true(s) + 1,
    decreases s.len(),
{
    let t = s.update(i, true);
    if i == s.len() - 1 {
        assert(t.drop_last() =~= s.drop_last());
    } else {
        assert(t.drop_last() =~= s.drop_last().update(i, true));
        assert(t.last() == s.last());
        lemma_count_true_update(s.drop_last(), i);
    }
}

proof fn lemma_count_true_all(s: Seq<bool>)
    requires
        forall|i: int| 0 <= i < s.len() ==> s[i],
    ensures
        count_true(s) == s.len(),
    decreases s.len(),
{
    if s.len() > 0 {
        lemma_count_true_all(s.drop_last());
    }
}

/// The least index below `n` satisfying `p`, given that some index does.
proof fn lemma_least(p: spec_fn(int) -> bool, n: int)
    requires
        exists|i: int| 0 <= i < n && #[trigger] p(i),
    ensures
        exists|i: int|
            0 <= i < n && #[trigger] p(i) && (forall|j: int| 0 <= j < i ==> !(#[trigger] p(j))),
    decreases n,
{
    let w = choose|i: int| 0 <= i < n && #[trigger] p(i);
    if exists|i: int| 0 <= i < w && #[trigger] p(i) {
        lemma_least(p, w);
        let i = choose|i: int|
            0 <= i < w && #[trigger] p(i) && (forall|j: int| 0 <= j < i ==> !(#[trigger] p(j)));
        assert(0 <= i < n && p(i) && (forall|j: int| 0 <= j < i ==> !(#[trigger] p(j))));
    } else {
        assert(0 <= w < n && p(w) && (forall|j: int| 0 <= j < w ==> !(#[trigger] p(j))));
    }
}

/// First node carrying `id`, scanning from the front.
pub fn find_node_index(nodes: &Vec<BuildNode>, id: &String) -> (r: Option<usize>)
    ensures
        match r {
            Some(i) => i < nodes@.len() && nodes@[i as int].id@ == id@ && (forall|j: int|
                0 <= j < i ==> nodes@[j].id@ != id@),
            None => !id_resolves(nodes@, id@),
        },
{
    let mut i: usize = 0;
    while i < nodes.len()
        invariant
            i <= nodes@.len(),
            forall|j: int| 0 <= j < i ==> nodes@[j].id@ != id@,
        decreases nodes@.len() - i,
    {
        if nodes[i].id == *id {
            return Some(i);
        }
        i += 1;
    }
    None
}

/// In a graph with distinct ids, equal ids mean equal indices.
proof fn lemma_distinct_index(nodes: Seq<BuildNode>, a: int, b: int)
    requires
        distinct_ids(nodes),
        0 <= a < nodes.len(),
        0 <= b < nodes.len(),
        nodes[a].id@ == nodes[b].id@,
    ensures
        a == b,
{
}

fn find_duplicate(nodes: &Vec<BuildNode>) -> (r: Option<usize>)
    ensures
        match r {
            Some(i) => i < nodes@.len() && exists|j: int|
                0 <= j < i && nodes@[j].id@ == nodes@[i as int].id@,
            None => distinct_ids(nodes@),
        },
{
    let mut i: usize = 0;
    while i < nodes.len()
        invariant
            i <= nodes@.len(),
            forall|a: int, b: int| 0 <= a < b < i ==> nodes@[a].id@ != nodes@[b].id@,
        decreases nodes@.len() - i,
    {
        let mut j: usize = 0;
        while j < i
            invariant
                i < nodes@.len(),
                j <= i,
                forall|b: int| 0 <= b < j ==> nodes@[b].id@ != nodes@[i as int].id@,
            decreases i - j,
        {
            if nodes[j].id == nodes[i].id {
                return Some(i);
            }
            j += 1;
        }
        i += 1;
    }
    None
}

fn resolve_edges(nodes: &Vec<BuildNode>, edges: &Vec<BuildEdge>) -> (r: Result<
    Vec<(usize, usize)>,
    GraphError,
>)
    ensures
        match r {
            Ok(res) => edges_resolve(nodes@, edges@) && res@.len() == edges@.len() && (forall|
                k: int,
            |
                0 <= k < edges@.len() ==> (#[trigger] res@[k]).0 < nodes@.len() && res@[k].1
                    < nodes@.len() && nodes@[res@[k].0 as int].id@ == edges@[k].source@
                    && nodes@[res@[k].1 as int].id@ == edges@[k].target@),
            Err(e) => !edges_resolve(nodes@, edges@) && (e matches GraphError::UnknownNodeId {
                id,
            } && !id_resolves(nodes@, id@) && exists|k: int|
                0 <= k < edges@.len() && ((#[trigger] edges@[k]).source@ == id@
                    || edges@[k].target@ == id@)),
        },
{
    let mut res: Vec<(usize, usize)> = Vec::new();
    let mut k: usize = 0;
    while k < edges.len()
        invariant
            k <= edges@.len(),
            res@.len() == k,
            forall|m: int|
                0 <= m < k ==> (#[trigger] res@[m]).0 < nodes@.len() && res@[m].1 < nodes@.len()
                    && nodes@[res@[m].0 as int].id@ == edges@[m].source@ && nodes@[res@[m].1
                    as int].id@ == edges@[m].target@,
        decreases edges@.len() - k,
    {
        let si = match find_node_index(nodes, &edges[k].source) {
            Some(i) => i,
            None => {
                return Err(GraphError::UnknownNodeId { id: edges[k].source.clone() });
            },
        };
        let ti = match find_node_index(nodes, &edges[k].target) {
            Some(i) => i,
            None => {
                return Err(GraphError::UnknownNodeId { id: edges[k].target.clone() });
            },
        };
        res.push((si, ti));
        k += 1;
    }
    assert(edges_resolve(nodes@, edges@)) by {
        assert forall|m: int| 0 <= m < edges@.len() implies id_resolves(
            nodes@,
            (#[trigger] edges@[m]).source@,
        ) && id_resolves(nodes@, edges@[m].target@) by {
            assert(nodes@[res@[m].0 as int].id@ == edges@[m].source@);
            assert(nodes@[res@[m].1 as int].id@ == edges@[m].target@);
        }
    }
    Ok(res)
}

/// The exact condition under which ordering rejects a graph with error
/// `e`: a duplicate id, an edge endpoint naming no node, or a graph that
/// admits no topological order.
pub open spec fn rejects_graph(nodes: Seq<BuildNode>, edges: Seq<BuildEdge>, e: GraphError) -> bool {
    match e {
        GraphError::DuplicateNodeId { id } => !distinct_ids(nodes) && exists|i: int, j: int|
            #![trigger nodes[i].id@, nodes[j].id@]
            0 <= i < j < nodes.len() && nodes[i].id@ == id@ && nodes[j].id@ == id@,
        GraphError::UnknownNodeId { id } => distinct_ids(nodes) && !edges_resolve(nodes, edges)
            && !id_resolves(nodes, id@) && exists|k: int|
            0 <= k < edges.len() && ((#[trigger] edges[k]).source@ == id@ || edges[k].target@
                == id@),
        GraphError::CircularDependency => graph_wf(nodes, edges) && !orderable(nodes, edges),
    }
}

/// When every unscheduled node still waits on an unscheduled dependency,
/// no topological order can exist: the earliest unscheduled node of such
/// an order would have an unscheduled dependency that the order places
/// both before and not before it.
proof fn lemma_stuck_unorderable(
    nodes: Seq<BuildNode>,
    edges: Seq<BuildEdge>,
    resolved: Seq<(usize, usize)>,
    taken: Seq<bool>,
)
    requires
        taken.len() == nodes.len(),
        resolved.len() == edges.len(),
        forall|k: int|
            0 <= k < edges.len() ==> (#[trigger] resolved[k]).0 < nodes.len() && resolved[k].1
                < nodes.len() && nodes[resolved[k].0 as int].id@ == edges[k].source@
                && nodes[resolved[k].1 as int].id@ == edges[k].target@,
        exists|v: int| 0 <= v < nodes.len() && !taken[v],
        forall|w: int| 0 <= w < nodes.len() ==> taken[w] || !spec_ready(resolved, taken, w),
    ensures
        !orderable(nodes, edges),
{
    if orderable(nodes, edges) {
        let order = choose|order: Seq<BuildNode>| is_topo_order(order, nodes, edges);
        let p = |t: int|
            exists|v: int|
                0 <= v < nodes.len() && #[trigger] nodes[v] == order[t] && !taken[v];
        assert(exists|t: int| 0 <= t < order.len() && #[trigger] p(t)) by {
            let v0 = choose|v: int| 0 <= v < nodes.len() && !taken[v];
            assert(order.contains(nodes[v0]));
            let t0 = choose|t: int| 0 <= t < order.len() && order[t] == nodes[v0];
            assert(p(t0));
        }
        lemma_least(p, order.len() as int);
        let t = choose|t: int|
            0 <= t < order.len() && #[trigger] p(t) && (forall|j: int|
                0 <= j < t ==> !(#[trigger] p(j)));
        let v = choose|v: int|
            0 <= v < nodes.len() && #[trigger] nodes[v] == order[t] && !taken[v];
        assert(!spec_ready(resolved, taken, v));
        let k = choose|k: int|
            0 <= k < resolved.len() && (#[trigger] resolved[k]).1 as int == v
                && !taken[resolved[k].0 as int];
        let uu = resolved[k].0 as int;
        assert(order.contains(nodes[uu]));
        let s = choose|s: int| 0 <= s < order.len() && order[s] == nodes[uu];
        assert(p(s));
        assert(s >= t);
        // order[s] is the source, order[t] the target of edge k
        assert(order[s].id@ == edges[k].source@);
        assert(order[t].id@ == edges[k].target@);
        assert(s < t);  // respects_edges
        assert(false);
    }
}

/// Every dependency of node `u` (by node index) is already scheduled.
spec fn spec_ready(resolved: Seq<(usize, usize)>, taken: Seq<bool>, u: int) -> bool {
    forall|k: int|
        0 <= k < resolved.len() && (#[trigger] resolved[k]).1 as int == u ==> taken[resolved[k].0 as int]
}

fn ready_in(resolved: &Vec<(usize, usize)>, taken: &Vec<bool>, u: usize) -> (r: bool)
    requires
        forall|k: int| 0 <= k < resolved@.len() ==> (#[trigger] resolved@[k]).0 < taken@.len(),
    ensures
        r == spec_ready(resolved@, taken@, u as int),
{
    let mut k: usize = 0;
    while k < resolved.len()
        invariant
            k <= resolved@.len(),
            forall|m: int| 0 <= m < resolved@.len() ==> (#[trigger] resolved@[m]).0 < taken@.len(),
            forall|m: int|
                0 <= m < k && (#[trigger] resolved@[m]).1 == u ==> taken@[resolved@[m].0 as int],
        decreases resolved@.len() - k,
    {
        if resolved[k].1 == u {
            if !taken[resolved[k].0] {
                return false;
            }
        }
        k += 1;
    }
    true
}

/// Computes a dependency-respecting execution order for the graph, or says
/// exactly why none exists.  Among simultaneously-ready nodes the one
/// earliest in the node list goes first.
pub fn topological_sort(nodes: &Vec<BuildNode>, edges: &Vec<BuildEdge>) -> (r: Result<
    Vec<BuildNode>,
    GraphError,
>)
    ensures
        match r {
            Ok(order) => graph_wf(nodes@, edges@) && is_topo_order(order@, nodes@, edges@),
            Err(e) => rejects_graph(nodes@, edges@, e),
        },
        r is Ok <==> graph_wf(nodes@, edges@) && orderable(nodes@, edges@),
{
    match find_duplicate(nodes) {
        Some(i) => {
            let ghost iw = i as int;
            let ghost jw = choose|j: int| 0 <= j < iw && nodes@[j].id@ == nodes@[iw].id@;
            return Err(GraphError::DuplicateNodeId { id: nodes[i].id.clone() });
        },
        None => {},
    }
    let resolved = match resolve_edges(nodes, edges) {
        Ok(res) => res,
        Err(e) => {
            return Err(e);
        },
    };
    let n = nodes.len();
    let mut taken: Vec<bool> = vec![false; n];
    let mut picked: Vec<usize> = Vec::new();
    proof {
        lemma_count_true_none(taken@);
    }
    while picked.len() < n
        invariant
            n == nodes@.len(),
            taken@.len() == n,
            distinct_ids(nodes@),
            edges_resolve(nodes@, edges@),
            resolved@.len() == edges@.len(),
            forall|k: int|
                0 <= k < edges@.len() ==> (#[trigger] resolved@[k]).0 < n && resolved@[k].1 < n
                    && nodes@[resolved@[k].0 as int].id@ == edges@[k].source@
                    && nodes@[resolved@[k].1 as int].id@ == edges@[k].target@,
            picked@.len() == count_true(taken@),
            picked@.len() <= n,
            forall|a: int| 0 <= a < picked@.len() ==> (#[trigger] picked@[a]) < n,
            forall|a: int, b: int| 0 <= a < b < picked@.len() ==> picked@[a] != picked@[b],
            forall|v: int|
                0 <= v < n ==> ((#[trigger] taken@[v]) <==> exists|a: int|
                    0 <= a < picked@.len() && #[trigger] picked@[a] as int == v),
            forall|a: int, k: int|
                0 <= a < picked@.len() && 0 <= k < resolved@.len() && (#[trigger] resolved@[k]).1
                    == #[trigger] picked@[a] ==> exists|b: int|
                    0 <= b < a && picked@[b] == resolved@[k].0,
        decreases n - picked@.len(),
    {
        let mut u: usize = 0;
        let mut found: bool = false;
        let mut pick: usize = 0;
        while u < n
            invariant
                n == nodes@.len(),
                taken@.len() == n,
                forall|k: int| 0 <= k < resolved@.len() ==> (#[trigger] resolved@[k]).0 < n,
                u <= n,
                found ==> pick < n && !taken@[pick as int] && spec_ready(
                    resolved@,
                    taken@,
                    pick as int,
                ),
                !found ==> forall|w: int|
                    0 <= w < u ==> taken@[w] || !spec_ready(resolved@, taken@, w),
            decreases n - u,
        {
            if !found && !taken[u] {
                if ready_in(&resolved, &taken, u) {
                    found = true;
                    pick = u;
                }
            }
            u += 1;
        }
        if !found {
            proof {
                // every unscheduled node still waits on an unscheduled
                // dependency, so no topological order can exist
                assert(exists|v: int| 0 <= v < n && !taken@[v]) by {
                    if forall|v: int| 0 <= v < n ==> taken@[v] {
                        lemma_count_true_all(taken@);
                    }
                }
                lemma_stuck_unorderable(nodes@, edges@, resolved@, taken@);
            }
            return Err(GraphError::CircularDependency);
        }
        proof {
            lemma_count_true_update(taken@, pick as int);
        }
        let ghost taken_old = taken@;
        let ghost picked_old = picked@;
        taken.set(pick, true);
        picked.push(pick);
        proof {
            assert forall|v: int|
                0 <= v < n implies ((#[trigger] taken@[v]) <==> exists|a: int|
                0 <= a < picked@.len() && #[trigger] picked@[a] as int == v) by {
                if v == pick as int {
                    assert(picked@[picked@.len() - 1] as int == v);
                } else {
                    assert(taken@[v] == taken_old[v]);
                    assert(picked@[picked@.len() - 1] == pick);
                    if taken_old[v] {
                        let a = choose|a: int|
                            0 <= a < picked_old.len() && #[trigger] picked_old[a] as int == v;
                        assert(picked@[a] as int == v);
                    }
                    if exists|a: int| 0 <= a < picked@.len() && #[trigger] picked@[a] as int == v {
                        let a = choose|a: int|
                            0 <= a < picked@.len() && #[trigger] picked@[a] as int == v;
                        assert(a < picked_old.len());
                        assert(picked_old[a] as int == v);
                        assert(taken_old[v]);
                    }
                }
            }
            assert forall|a: int, k: int|
                0 <= a < picked@.len() && 0 <= k < resolved@.len() && (#[trigger] resolved@[k]).1
                    == #[trigger] picked@[a] implies exists|b: int|
                0 <= b < a && picked@[b] == resolved@[k].0 by {
                if a < picked_old.len() {
                    assert(picked_old[a] == picked@[a]);
                    let b = choose|b: int| 0 <= b < a && picked_old[b] == resolved@[k].0;
                    assert(picked@[b] == resolved@[k].0);
                } else {
                    // the new element: it was ready, so its dependency
                    // sources were already taken, hence already picked
                    assert(picked@[a] == pick);
                    assert(spec_ready(resolved@, taken_old, pick as int));
                    assert(taken_old[resolved@[k].0 as int]);
                    let b = choose|b: int|
                        0 <= b < picked_old.len() && #[trigger] picked_old[b] as int
                            == resolved@[k].0 as int;
                    assert(picked@[b] == resolved@[k].0);
                }
            }
        }
    }
    // all nodes scheduled: emit them in the picked order
    proof {
        assert forall|v: int| 0 <= v < n implies taken@[v] by {
            if !taken@[v] {
                lemma_count_true_strict(taken@, v);
            }
        }
    }
    let mut order: Vec<BuildNode> = Vec::new();
    let mut p: usize = 0;
    while p < n
        invariant
            n == nodes@.len(),
            picked@.len() == n,
            forall|a: int| 0 <= a < n ==> (#[trigger] picked@[a]) < n,
            p <= n,
            order@.len() == p,
            forall|a: int| 0 <= a < p ==> order@[a] == nodes@[picked@[a] as int],
        decreases n - p,
    {
        let idx = picked[p];
        order.push(nodes[idx].duplicate());
        p += 1;
    }
    proof {
        assert forall|i: int| 0 <= i < nodes@.len() implies order@.contains(
            #[trigger] nodes@[i],
        ) by {
            assert(taken@[i]);
            let a = choose|a: int| 0 <= a < picked@.len() && #[trigger] picked@[a] as int == i;
            assert(order@[a] == nodes@[i]);
        }
        assert forall|k: int, i: int, j: int|
            0 <= k < edges@.len() && 0 <= i < order@.len() && 0 <= j < order@.len()
                && (#[trigger] order@[i]).id@ == (#[trigger] edges@[k]).source@
                && (#[trigger] order@[j]).id@ == edges@[k].target@ implies i < j by {
            assert(order@[i] == nodes@[picked@[i] as int]);
            assert(order@[j] == nodes@[picked@[j] as int]);
            lemma_distinct_index(nodes@, picked@[i] as int, resolved@[k].0 as int);
            lemma_distinct_index(nodes@, picked@[j] as int, resolved@[k].1 as int);
            assert(resolved@[k].1 == picked@[j]);
            let b = choose|b: int| 0 <= b < j && picked@[b] == resolved@[k].0;
            if b != i {
                assert(picked@[b] != picked@[i]);
                assert(false);
            }
        }
        assert(respects_edges(order@, edges@));
        assert(is_topo_order(order@, nodes@, edges@));
        assert(orderable(nodes@, edges@));
    }
    Ok(order)
}

/// If some entry is false, fewer than all entries are true.
proof fn lemma_count_true_strict(s: Seq<bool>, i: int)
    requires
        0 <= i < s.len(),
        !s[i],
    ensures
        count_true(s) < s.len(),
    decreases s.len(),
{
    lemma_count_true_bound(s);
    if i == s.len() - 1 {
        lemma_count_true_bound(s.drop_last());
    } else {
        lemma_count_true_strict(s.drop_last(), i);
    }
}

proof fn lemma_count_true_bound(s: Seq<bool>)
    ensures
        0 <= count_true(s) <= s.len(),
    decreases s.len(),
{
    if s.len() > 0 {
        lemma_count_true_bound(s.drop_last());
    }
}

} // verus!
