use vstd::prelude::*;
use vstd::set_lib::*;
use crate::debug::{DebugPassNode, SlotInfo};
use crate::overlay::{overlay_pass_post, OverlayDriverNode, OverlayPassNode, RenderGraphContext, OVERLAY_GRAPH};
use crate::debug::debug_pass_post;
use crate::pass::{NodeRunError, RenderContext};
use crate::world::{RenderResources, World};

verus! {

broadcast use vstd::std_specs::vec::group_vec_axioms;

/// The work that a node of a render graph does.
pub enum Node {
    /// The graph's input node, which hands the graph's inputs on.
    Input,
    /// A node without work of its own, used to order other nodes around it.
    Marker,
    DebugPass(DebugPassNode),
    OverlayPass(OverlayPassNode),
    OverlayDriver(OverlayDriverNode),
}

/// Why a graph could not be built as asked.
#[derive(Clone, Copy, Debug, PartialEq, Eq, Structural)]
pub enum RenderGraphError {
    /// An edge names a node that the graph does not have.
    InvalidNode,
    /// A node of that name is already in the graph.
    DuplicateNode,
    /// A sub-graph of that name is already in the graph.
    DuplicateSubGraph,
    /// A node declares more inputs than the graph binds.
    MissingInputSlot,
}

/// How many input slots a node of this kind declares.
pub open spec fn node_inputs(n: Node) -> nat {
    match n {
        Node::OverlayPass(_) => 1,
        _ => 0,
    }
}

/// The name of the main graph's node that the main pass hangs from.
pub const MAIN_PASS_DRIVER: &'static str = "main_pass_driver";

/// The name of a graph's input node.
pub const GRAPH_INPUT: &'static str = "input";

/// A graph of named nodes with ordering edges between them, and named sub-graphs that
/// driver nodes run. Edges are pairs of node indices.
pub struct RenderGraph {
    pub names: Vec<String>,
    pub nodes: Vec<Node>,
    pub edges: Vec<(usize, usize)>,
    pub sub_graphs: Vec<(String, RenderGraph)>,
    pub input_slots: Vec<SlotInfo>,
}

/// No node of `nodes` does work of its own.
pub open spec fn all_inert(nodes: Seq<Node>) -> bool {
    forall|i: int| 0 <= i < nodes.len() ==> (#[trigger] nodes[i] is Input || nodes[i] is Marker)
}

/// Every edge goes from a lower rank to a higher one.
pub open spec fn edges_ranked(edges: Seq<(usize, usize)>, rank: Seq<nat>) -> bool {
    forall|k: int|
        0 <= k < edges.len() ==> rank[(#[trigger] edges[k]).0 as int] < rank[edges[k].1 as int]
}

/// A graph of `n` nodes is acyclic exactly when its nodes can be ranked so that every edge
/// goes from a lower rank to a higher one.
pub open spec fn is_acyclic(n: nat, edges: Seq<(usize, usize)>) -> bool {
    exists|rank: Seq<nat>| rank.len() == n && edges_ranked(edges, rank)
}

/// `order` lists each of the `n` nodes once, and every edge goes forward in it.
pub open spec fn is_topological_order(n: nat, edges: Seq<(usize, usize)>, order: Seq<usize>) -> bool {
    &&& order.len() == n
    &&& forall|i: int| 0 <= i < n ==> #[trigger] order[i] < n
    &&& order.no_duplicates()
    &&& forall|i: int, j: int, k: int|
        #![trigger edges[k], order[i], order[j]]
        0 <= i < n && 0 <= j < n && 0 <= k < edges.len() && edges[k] == (order[i], order[j])
            ==> i < j
}

/// Node `v` has an incoming edge from a node that is not placed.
pub open spec fn blocked(edges: Seq<(usize, usize)>, placed: Seq<bool>, v: int) -> bool {
    exists|k: int| 0 <= k < edges.len() && (#[trigger] edges[k]).1 == v && !placed[edges[k].0 as int]
}

/// When every unplaced node has an unplaced predecessor, no ranking exists: following
/// predecessors would lower the rank forever.
proof fn lemma_stuck_has_no_rank(
    edges: Seq<(usize, usize)>,
    placed: Seq<bool>,
    rank: Seq<nat>,
    u: int,
)
    requires
        0 <= u < placed.len(),
        rank.len() == placed.len(),
        !placed[u],
        forall|k: int| 0 <= k < edges.len() ==> (#[trigger] edges[k]).0 < placed.len(),
        forall|v: int| 0 <= v < placed.len() && !placed[v] ==> #[trigger] blocked(edges, placed, v),
    ensures
        !edges_ranked(edges, rank),
    decreases rank[u],
{
    if edges_ranked(edges, rank) {
        assert(blocked(edges, placed, u));
        let k = choose|k: int|
            0 <= k < edges.len() && (#[trigger] edges[k]).1 == u && !placed[edges[k].0 as int];
        lemma_stuck_has_no_rank(edges, placed, rank, edges[k].0 as int);
    }
}

/// `edges` has an edge from `a` to `b`.
pub open spec fn has_edge(edges: Seq<(usize, usize)>, a: usize, b: usize) -> bool {
    exists|k: int| 0 <= k < edges.len() && #[trigger] edges[k] == (a, b)
}

/// Along a path of edges the rank grows by at least one per step.
proof fn lemma_rank_grows_along_path(edges: Seq<(usize, usize)>, rank: Seq<nat>, path: Seq<usize>, i: int)
    requires
        edges_ranked(edges, rank),
        0 <= i < path.len(),
        forall|j: int| 0 <= j < path.len() - 1 ==> has_edge(edges, #[trigger] path[j], path[j + 1]),
    ensures
        rank[path[i] as int] >= rank[path[0] as int] + i,
    decreases i,
{
    if i > 0 {
        lemma_rank_grows_along_path(edges, rank, path, i - 1);
        assert(has_edge(edges, path[i - 1], path[i]));
        let k = choose|k: int| 0 <= k < edges.len() && #[trigger] edges[k] == (path[i - 1], path[i]);
    }
}

/// A graph whose edges lead along `path` and from its last node back to its first has a
/// cycle: no ranking orders it, so `topological_order` returns `None` and `run` rejects
/// the graph before any node runs.
pub proof fn cyclic_graph_is_rejected(n: nat, edges: Seq<(usize, usize)>, path: Seq<usize>)
    requires
        path.len() > 0,
        forall|j: int| 0 <= j < path.len() - 1 ==> has_edge(edges, #[trigger] path[j], path[j + 1]),
        has_edge(edges, path.last(), path[0]),
    ensures
        !is_acyclic(n, edges),
{
    if is_acyclic(n, edges) {
        let rank = choose|rank: Seq<nat>| rank.len() == n && edges_ranked(edges, rank);
        lemma_rank_grows_along_path(edges, rank, path, path.len() - 1);
        let k = choose|k: int| 0 <= k < edges.len() && #[trigger] edges[k] == (path.last(), path[0]);
        assert(rank[edges[k].0 as int] < rank[edges[k].1 as int]);
    }
}

/// `node_post` for a node of a sub-graph: the same, except that a driver nested in a
/// sub-graph is only stated to find its sub-graph or fail with `MissingSubGraph`.
pub open spec fn node_post_leaf(
    g: RenderGraph,
    idx: int,
    inputs: Seq<Option<u32>>,
    res: RenderResources,
    c0: RenderContext,
    w0: World,
    c1: RenderContext,
    w1: World,
    r: Result<(), NodeRunError>,
) -> bool {
    match g.nodes@[idx] {
        Node::Input => r is Ok && c1 == c0 && w1 == w0,
        Node::Marker => r is Ok && c1 == c0 && w1 == w0,
        Node::DebugPass(_) => debug_pass_post(res.render_target, w0, c0, w1, c1, r),
        Node::OverlayPass(_) => overlay_pass_post(inputs, c0, w0, c1, w1, r),
        Node::OverlayDriver(_) => {
            (!(exists|si: int| 0 <= si < g.sub_graphs@.len() && g.sub_graphs@[si].0@ == OVERLAY_GRAPH@)
                && r == Err::<(), NodeRunError>(NodeRunError::MissingSubGraph) && c1 == c0 && w1 == w0)
            || (exists|si: int|
                0 <= si < g.sub_graphs@.len() && #[trigger] g.sub_graphs@[si].0@ == OVERLAY_GRAPH@)
        },
    }
}

/// `run_trace` for a sub-graph.
pub open spec fn run_trace_leaf(
    g: RenderGraph,
    inputs: Seq<Option<u32>>,
    res: RenderResources,
    order: Seq<usize>,
    cs: Seq<RenderContext>,
    ws: Seq<World>,
    k: int,
) -> bool {
    &&& is_topological_order(g.nodes@.len(), g.edges@, order)
    &&& 0 <= k <= order.len()
    &&& cs.len() == k + 1
    &&& ws.len() == k + 1
    &&& forall|j: int|
        0 <= j < k ==> #[trigger] node_post_leaf(g, order[j] as int, inputs, res, cs[j], ws[j], cs[j + 1], ws[j + 1], Ok(()))
}

/// `graph_post` for a sub-graph that a driver runs.
pub open spec fn graph_post_leaf(
    g: RenderGraph,
    inputs: Seq<Option<u32>>,
    res: RenderResources,
    c0: RenderContext,
    w0: World,
    c1: RenderContext,
    w1: World,
    r: Result<(), NodeRunError>,
) -> bool {
    if !g.edges_valid() {
        r == Err::<(), NodeRunError>(NodeRunError::InvalidEdge) && c1 == c0 && w1 == w0
    } else if !is_acyclic(g.nodes@.len(), g.edges@) {
        r == Err::<(), NodeRunError>(NodeRunError::Cycle) && c1 == c0 && w1 == w0
    } else {
        exists|order: Seq<usize>, cs: Seq<RenderContext>, ws: Seq<World>, k: int|
            #[trigger] run_trace_leaf(g, inputs, res, order, cs, ws, k) && cs[0] == c0 && ws[0] == w0
                && if k == order.len() {
                r is Ok && c1 == cs[k] && w1 == ws[k]
            } else {
                r is Err && node_post_leaf(g, order[k] as int, inputs, res, cs[k], ws[k], c1, w1, r)
            }
    }
}

/// What node `idx` of `g` does when it runs, given the graph's inputs. A driver fails with
/// `MissingSubGraph` when the graph has no sub-graph `OVERLAY_GRAPH`; otherwise it runs that
/// sub-graph on the render target, as `graph_post_leaf` states: the sub-graph's own nodes, in
/// topological order, each as its contract says.
pub open spec fn node_post(
    g: RenderGraph,
    idx: int,
    inputs: Seq<Option<u32>>,
    res: RenderResources,
    c0: RenderContext,
    w0: World,
    c1: RenderContext,
    w1: World,
    r: Result<(), NodeRunError>,
) -> bool {
    match g.nodes@[idx] {
        Node::Input => r is Ok && c1 == c0 && w1 == w0,
        Node::Marker => r is Ok && c1 == c0 && w1 == w0,
        Node::DebugPass(_) => debug_pass_post(res.render_target, w0, c0, w1, c1, r),
        Node::OverlayPass(_) => overlay_pass_post(inputs, c0, w0, c1, w1, r),
        Node::OverlayDriver(_) => {
            (!(exists|si: int| 0 <= si < g.sub_graphs@.len() && g.sub_graphs@[si].0@ == OVERLAY_GRAPH@)
                && r == Err::<(), NodeRunError>(NodeRunError::MissingSubGraph) && c1 == c0 && w1 == w0)
            || (exists|si: int|
                0 <= si < g.sub_graphs@.len() && g.sub_graphs@[si].0@ == OVERLAY_GRAPH@
                    && #[trigger] graph_post_leaf(
                    g.sub_graphs@[si].1,
                    seq![res.render_target],
                    res,
                    c0,
                    w0,
                    c1,
                    w1,
                    r,
                ))
        },
    }
}

/// `cs` and `ws` are the contexts and worlds before and after each of the first `k` nodes
/// of `order`, each of which ran and succeeded.
pub open spec fn run_trace(
    g: RenderGraph,
    inputs: Seq<Option<u32>>,
    res: RenderResources,
    order: Seq<usize>,
    cs: Seq<RenderContext>,
    ws: Seq<World>,
    k: int,
) -> bool {
    &&& is_topological_order(g.nodes@.len(), g.edges@, order)
    &&& 0 <= k <= order.len()
    &&& cs.len() == k + 1
    &&& ws.len() == k + 1
    &&& forall|j: int|
        0 <= j < k ==> #[trigger] node_post(g, order[j] as int, inputs, res, cs[j], ws[j], cs[j + 1], ws[j + 1], Ok(()))
}

/// What running `g` does: an invalid or cyclic graph is rejected untouched; otherwise the
/// nodes run one after another in a topological order, each as its own contract says,
/// until all have run (`Ok`) or one fails, whose error is returned.
pub open spec fn graph_post(
    g: RenderGraph,
    inputs: Seq<Option<u32>>,
    res: RenderResources,
    c0: RenderContext,
    w0: World,
    c1: RenderContext,
    w1: World,
    r: Result<(), NodeRunError>,
) -> bool {
    if !g.edges_valid() {
        r == Err::<(), NodeRunError>(NodeRunError::InvalidEdge) && c1 == c0 && w1 == w0
    } else if !is_acyclic(g.nodes@.len(), g.edges@) {
        r == Err::<(), NodeRunError>(NodeRunError::Cycle) && c1 == c0 && w1 == w0
    } else {
        exists|order: Seq<usize>, cs: Seq<RenderContext>, ws: Seq<World>, k: int|
            #[trigger] run_trace(g, inputs, res, order, cs, ws, k) && cs[0] == c0 && ws[0] == w0
                && if k == order.len() {
                r is Ok && c1 == cs[k] && w1 == ws[k]
            } else {
                r is Err && node_post(g, order[k] as int, inputs, res, cs[k], ws[k], c1, w1, r)
            }
    }
}


/// A run stated by `graph_post` is also stated by `graph_post_leaf`, which says less of
/// nested drivers.
proof fn lemma_graph_post_leaf(
    g: RenderGraph,
    inputs: Seq<Option<u32>>,
    res: RenderResources,
    c0: RenderContext,
    w0: World,
    c1: RenderContext,
    w1: World,
    r: Result<(), NodeRunError>,
)
    requires
        graph_post(g, inputs, res, c0, w0, c1, w1, r),
    ensures
        graph_post_leaf(g, inputs, res, c0, w0, c1, w1, r),
{
    if g.edges_valid() && is_acyclic(g.nodes@.len(), g.edges@) {
        let (order, cs, ws, k) = choose|order: Seq<usize>, cs: Seq<RenderContext>, ws: Seq<World>, k: int|
            #[trigger] run_trace(g, inputs, res, order, cs, ws, k) && cs[0] == c0 && ws[0] == w0
                && if k == order.len() {
                r is Ok && c1 == cs[k] && w1 == ws[k]
            } else {
                r is Err && node_post(g, order[k] as int, inputs, res, cs[k], ws[k], c1, w1, r)
            };
        assert forall|j: int| 0 <= j < k implies #[trigger] node_post_leaf(g, order[j] as int, inputs, res, cs[j], ws[j], cs[j + 1], ws[j + 1], Ok(())) by {
            assert(node_post(g, order[j] as int, inputs, res, cs[j], ws[j], cs[j + 1], ws[j + 1], Ok(())));
        }
        assert(run_trace_leaf(g, inputs, res, order, cs, ws, k));
        if k != order.len() {
            assert(node_post(g, order[k] as int, inputs, res, cs[k], ws[k], c1, w1, r));
            assert(node_post_leaf(g, order[k] as int, inputs, res, cs[k], ws[k], c1, w1, r));
        }
    }
}

impl RenderGraph {
    /// The graph's nodes and edges fit together, and node names are unique.
    pub open spec fn wf(&self) -> bool {
        &&& self.names@.len() == self.nodes@.len()
        &&& forall|k: int|
            0 <= k < self.edges@.len() ==> (#[trigger] self.edges@[k]).0 < self.nodes@.len()
                && self.edges@[k].1 < self.nodes@.len()
        &&& forall|i: int, j: int|
            0 <= i < j < self.names@.len() ==> self.names@[i]@ != self.names@[j]@
    }

    /// Every edge joins two nodes of the graph.
    pub open spec fn edges_valid(&self) -> bool {
        forall|k: int|
            0 <= k < self.edges@.len() ==> (#[trigger] self.edges@[k]).0 < self.nodes@.len()
                && self.edges@[k].1 < self.nodes@.len()
    }

    pub open spec fn node_count(&self) -> nat {
        self.nodes@.len()
    }

    /// An empty graph.
    pub fn new() -> (r: Self)
        ensures
            r.wf(),
            r.names@.len() == 0,
            r.edges@.len() == 0,
            r.sub_graphs@.len() == 0,
    {
        RenderGraph {
            names: Vec::new(),
            nodes: Vec::new(),
            edges: Vec::new(),
            sub_graphs: Vec::new(),
            input_slots: Vec::new(),
        }
    }

    /// The index of the node called `name`.
    pub fn find_node(&self, name: &String) -> (r: Option<usize>)
        requires
            self.wf(),
        ensures
            r matches Some(i) ==> i < self.names@.len() && self.names@[i as int]@ == name@,
            r is None ==> forall|i: int| 0 <= i < self.names@.len() ==> self.names@[i]@ != name@,
    {
        let mut i: usize = 0;
        while i < self.names.len()
            invariant
                i <= self.names@.len(),
                forall|m: int| 0 <= m < i ==> self.names@[m]@ != name@,
            decreases self.names@.len() - i,
        {
            if self.names[i] == *name {
                return Some(i);
            }
            i = i + 1;
        }
        None
    }

    /// Adds a node under a name that the graph does not have yet.
    pub fn add_node(&mut self, name: &str, node: Node) -> (r: Result<usize, RenderGraphError>)
        requires
            old(self).wf(),
        ensures
            final(self).wf(),
            final(self).edges@ == old(self).edges@,
            final(self).sub_graphs@ == old(self).sub_graphs@,
            (exists|i: int| 0 <= i < old(self).names@.len() && old(self).names@[i]@ == name@)
                ==> r == Err::<usize, RenderGraphError>(RenderGraphError::DuplicateNode)
                && final(self).names@ == old(self).names@,
            r is Ok ==> r->Ok_0 == old(self).names@.len() && final(self).names@.len()
                == old(self).names@.len() + 1 && final(self).names@.last()@ == name@
                && final(self).names@.drop_last() == old(self).names@,
            !(exists|i: int| 0 <= i < old(self).names@.len() && old(self).names@[i]@ == name@)
                ==> r is Ok,
            r is Err ==> *final(self) == *old(self),
            r is Ok ==> final(self).nodes@ == old(self).nodes@.push(node),
            final(self).input_slots@ == old(self).input_slots@,
    {
        let owned = name.to_owned();
        match self.find_node(&owned) {
            Some(_) => Err(RenderGraphError::DuplicateNode),
            None => {
                let idx = self.names.len();
                self.names.push(owned);
                self.nodes.push(node);
                assert(self.names@.drop_last() =~= old(self).names@);
                Ok(idx)
            },
        }
    }

    /// Adds an ordering edge: `a` runs before `b`.
    pub fn add_node_edge(&mut self, a: &str, b: &str) -> (r: Result<(), RenderGraphError>)
        requires
            old(self).wf(),
        ensures
            final(self).wf(),
            final(self).names@ == old(self).names@,
            final(self).sub_graphs@ == old(self).sub_graphs@,
            r is Ok <==> (exists|i: int| 0 <= i < old(self).names@.len() && old(self).names@[i]@ == a@)
                && (exists|j: int| 0 <= j < old(self).names@.len() && old(self).names@[j]@ == b@),
            r is Err ==> r == Err::<(), RenderGraphError>(RenderGraphError::InvalidNode)
                && final(self).edges@ == old(self).edges@,
            r is Ok ==> final(self).edges@.drop_last() == old(self).edges@ && final(self).edges@.len()
                == old(self).edges@.len() + 1 && old(self).names@[final(self).edges@.last().0 as int]@ == a@
                && old(self).names@[final(self).edges@.last().1 as int]@ == b@,
            r is Err ==> *final(self) == *old(self),
            final(self).nodes@ == old(self).nodes@,
            final(self).input_slots@ == old(self).input_slots@,
    {
        let an = a.to_owned();
        let bn = b.to_owned();
        let ia = match self.find_node(&an) {
            Some(i) => i,
            None => {
                return Err(RenderGraphError::InvalidNode);
            },
        };
        let ib = match self.find_node(&bn) {
            Some(i) => i,
            None => {
                return Err(RenderGraphError::InvalidNode);
            },
        };
        self.edges.push((ia, ib));
        assert(self.edges@.drop_last() =~= old(self).edges@);
        Ok(())
    }

    /// Declares the graph's inputs and adds its input node, named `GRAPH_INPUT`.
    pub fn set_input(&mut self, slots: Vec<SlotInfo>) -> (r: Result<usize, RenderGraphError>)
        requires
            old(self).wf(),
        ensures
            final(self).wf(),
            final(self).edges@ == old(self).edges@,
            final(self).sub_graphs@ == old(self).sub_graphs@,
            (exists|i: int| 0 <= i < old(self).names@.len() && old(self).names@[i]@ == GRAPH_INPUT@)
                <==> r is Err,
            r is Ok ==> r->Ok_0 == old(self).names@.len() && final(self).names@.last()@ == GRAPH_INPUT@
                && final(self).names@.drop_last() == old(self).names@
                && final(self).nodes@ == old(self).nodes@.push(Node::Input)
                && final(self).input_slots@ == slots@,
            r is Err ==> *final(self) == *old(self),
    {
        let r = self.add_node(GRAPH_INPUT, Node::Input);
        if r.is_ok() {
            self.input_slots = slots;
        }
        r
    }

    /// Nests `graph` under `name`, for driver nodes to run.
    pub fn add_sub_graph(&mut self, name: &str, graph: RenderGraph) -> (r: Result<(), RenderGraphError>)
        requires
            old(self).wf(),
        ensures
            final(self).wf(),
            final(self).names@ == old(self).names@,
            final(self).edges@ == old(self).edges@,
            (exists|i: int| 0 <= i < old(self).sub_graphs@.len() && old(self).sub_graphs@[i].0@ == name@)
                ==> r == Err::<(), RenderGraphError>(RenderGraphError::DuplicateSubGraph),
            !(exists|i: int| 0 <= i < old(self).sub_graphs@.len() && old(self).sub_graphs@[i].0@ == name@)
                && !graph.inputs_bound() ==> r == Err::<(), RenderGraphError>(
                RenderGraphError::MissingInputSlot,
            ),
            r is Ok <==> !(exists|i: int| 0 <= i < old(self).sub_graphs@.len() && old(self).sub_graphs@[i].0@ == name@)
                && graph.inputs_bound(),
            r is Ok ==> final(self).sub_graphs@.len() == old(self).sub_graphs@.len() + 1
                && final(self).sub_graphs@.last().0@ == name@ && final(self).sub_graphs@.last().1 == graph
                && final(self).sub_graphs@.drop_last() == old(self).sub_graphs@,
            r is Err ==> *final(self) == *old(self),
            final(self).nodes@ == old(self).nodes@,
            final(self).input_slots@ == old(self).input_slots@,
    {
        let owned = name.to_owned();
        match self.find_sub_graph(&owned) {
            Some(_) => Err(RenderGraphError::DuplicateSubGraph),
            None => {
                let bound = graph.check_input_slots();
                if bound.is_err() {
                    return bound;
                }
                self.sub_graphs.push((owned, graph));
                assert(self.sub_graphs@.drop_last() =~= old(self).sub_graphs@);
                Ok(())
            },
        }
    }

    /// The index of the sub-graph called `name`.
    pub fn find_sub_graph(&self, name: &String) -> (r: Option<usize>)
        ensures
            r matches Some(i) ==> i < self.sub_graphs@.len() && self.sub_graphs@[i as int].0@ == name@,
            r is None ==> forall|i: int|
                0 <= i < self.sub_graphs@.len() ==> self.sub_graphs@[i].0@ != name@,
    {
        let mut i: usize = 0;
        while i < self.sub_graphs.len()
            invariant
                i <= self.sub_graphs@.len(),
                forall|m: int| 0 <= m < i ==> self.sub_graphs@[m].0@ != name@,
            decreases self.sub_graphs@.len() - i,
        {
            if self.sub_graphs[i].0 == *name {
                return Some(i);
            }
            i = i + 1;
        }
        None
    }

    /// Whether every incoming edge of `v` comes from a placed node.
    fn ready(&self, placed: &Vec<bool>, v: usize) -> (r: bool)
        requires
            self.edges_valid(),
            placed@.len() == self.nodes@.len(),
        ensures
            r == !blocked(self.edges@, placed@, v as int),
    {
        let mut k: usize = 0;
        while k < self.edges.len()
            invariant
                self.edges_valid(),
                placed@.len() == self.nodes@.len(),
                k <= self.edges@.len(),
                forall|m: int|
                    0 <= m < k && (#[trigger] self.edges@[m]).1 == v ==> placed@[self.edges@[m].0 as int],
            decreases self.edges@.len() - k,
        {
            let (a, b) = self.edges[k];
            if b == v && !placed[a] {
                return false;
            }
            k = k + 1;
        }
        true
    }

    /// An order in which the nodes can run, every edge going forward, or `None` when the
    /// edges form a cycle.
    pub fn topological_order(&self) -> (r: Option<Vec<usize>>)
        requires
            self.edges_valid(),
        ensures
            r is Some <==> is_acyclic(self.node_count(), self.edges@),
            r matches Some(order) ==> is_topological_order(self.node_count(), self.edges@, order@),
    {
        let n = self.nodes.len();
        let mut placed: Vec<bool> = Vec::new();
        let mut z: usize = 0;
        while z < n
            invariant
                z <= n,
                placed@.len() == z,
                forall|v: int| 0 <= v < z ==> !placed@[v],
            decreases n - z,
        {
            placed.push(false);
            z = z + 1;
        }
        let mut order: Vec<usize> = Vec::new();
        let ghost mut pos: Seq<nat> = Seq::new(n as nat, |v: int| 0nat);
        let ghost mut unplaced: Set<int> = set_int_range(0, n as int);
        proof {
            lemma_int_range(0, n as int);
        }
        let mut round: usize = 0;
        while round < n
            invariant
                self.edges_valid(),
                n == self.nodes@.len(),
                round <= n,
                placed@.len() == n,
                pos.len() == n,
                order@.len() == round,
                unplaced.finite(),
                unplaced.len() == n - round,
                forall|v: int| #[trigger] unplaced.contains(v) <==> (0 <= v < n && !placed@[v]),
                forall|i: int|
                    0 <= i < round ==> #[trigger] order@[i] < n && placed@[order@[i] as int] && pos[order@[i] as int] == i,
                forall|v: int| 0 <= v < n && #[trigger] placed@[v] ==> pos[v] < round && order@[pos[v] as int] == v,
                forall|k: int|
                    0 <= k < self.edges@.len() && placed@[(#[trigger] self.edges@[k]).1 as int] ==> placed@[self.edges@[k].0 as int]
                        && pos[self.edges@[k].0 as int] < pos[self.edges@[k].1 as int],
            decreases n - round,
        {
            let mut v: usize = 0;
            let mut found: Option<usize> = None;
            while v < n
                invariant
                    self.edges_valid(),
                    n == self.nodes@.len(),
                    placed@.len() == n,
                    v <= n,
                    found matches Some(f) ==> f < n && !placed@[f as int] && !blocked(self.edges@, placed@, f as int),
                    found is None ==> forall|w: int| 0 <= w < v && !placed@[w] ==> #[trigger] blocked(self.edges@, placed@, w),
                decreases n - v,
            {
                if found.is_none() && !placed[v] && self.ready(&placed, v) {
                    found = Some(v);
                }
                v = v + 1;
            }
            match found {
                None => {
                    proof {
                        if unplaced =~= Set::<int>::empty() {
                            assert(false);
                        }
                        let u = choose|u: int| unplaced.contains(u);
                        if is_acyclic(self.node_count(), self.edges@) {
                            let rank = choose|rank: Seq<nat>| rank.len() == n && edges_ranked(self.edges@, rank);
                            lemma_stuck_has_no_rank(self.edges@, placed@, rank, u);
                        }
                    }
                    return None;
                },
                Some(f) => {
                    let ghost old_placed = placed@;
                    placed[f] = true;
                    order.push(f);
                    proof {
                        pos = pos.update(f as int, round as nat);
                        unplaced = unplaced.remove(f as int);
                        assert forall|k: int|
                            0 <= k < self.edges@.len() && placed@[(#[trigger] self.edges@[k]).1 as int] implies placed@[self.edges@[k].0 as int]
                                && pos[self.edges@[k].0 as int] < pos[self.edges@[k].1 as int] by {
                            if self.edges@[k].1 == f {
                                assert(!blocked(self.edges@, old_placed, f as int));
                                assert(old_placed[self.edges@[k].0 as int]);
                            }
                        }
                    }
                    round = round + 1;
                },
            }
        }
        proof {
            if exists|v: int| 0 <= v < n && !placed@[v] {
                let v = choose|v: int| 0 <= v < n && !placed@[v];
                assert(unplaced.contains(v));
                unplaced.lemma_len0_is_empty();
                assert(false);
            }
            assert(edges_ranked(self.edges@, pos));
            assert forall|i: int, j: int| 0 <= i < j < n implies order@[i] != order@[j] by {
                assert(pos[order@[i] as int] == i);
            }
            assert forall|i: int, j: int, k: int|
                #![trigger self.edges@[k], order@[i], order@[j]]
                0 <= i < n && 0 <= j < n && 0 <= k < self.edges@.len() && self.edges@[k] == (
                    order@[i],
                    order@[j],
                ) implies i < j by {
                assert(pos[order@[i] as int] == i);
                assert(pos[order@[j] as int] == j);
            }
        }
        Some(order)
    }

    /// Every node's declared inputs are among the graph's input slots.
    pub open spec fn inputs_bound(&self) -> bool {
        forall|i: int| 0 <= i < self.nodes@.len() ==> node_inputs(#[trigger] self.nodes@[i]) <= self.input_slots@.len()
    }

    /// Checks, when the graph is built, that the graph binds every input its nodes declare.
    pub fn check_input_slots(&self) -> (r: Result<(), RenderGraphError>)
        ensures
            r is Ok <==> self.inputs_bound(),
            r is Err ==> r == Err::<(), RenderGraphError>(RenderGraphError::MissingInputSlot),
    {
        let mut i: usize = 0;
        while i < self.nodes.len()
            invariant
                i <= self.nodes@.len(),
                forall|m: int| 0 <= m < i ==> node_inputs(#[trigger] self.nodes@[m]) <= self.input_slots@.len(),
            decreases self.nodes@.len() - i,
        {
            let needed: usize = match &self.nodes[i] {
                Node::OverlayPass(_) => 1,
                _ => 0,
            };
            if needed > self.input_slots.len() {
                return Err(RenderGraphError::MissingInputSlot);
            }
            i = i + 1;
        }
        Ok(())
    }

    /// Whether every edge joins two nodes of the graph.
    pub fn check_edges(&self) -> (r: bool)
        ensures
            r == self.edges_valid(),
    {
        let mut k: usize = 0;
        while k < self.edges.len()
            invariant
                k <= self.edges@.len(),
                forall|m: int|
                    0 <= m < k ==> (#[trigger] self.edges@[m]).0 < self.nodes@.len()
                        && self.edges@[m].1 < self.nodes@.len(),
            decreases self.edges@.len() - k,
        {
            let (a, b) = self.edges[k];
            if a >= self.nodes.len() || b >= self.nodes.len() {
                return false;
            }
            k = k + 1;
        }
        true
    }

    /// Runs every node once in an order that respects the edges, handing `inputs` to the
    /// nodes as the graph's inputs. A driver node runs the sub-graph `OVERLAY_GRAPH` on the
    /// render target. A graph whose edges form a cycle is rejected before any node runs; the
    /// first node that fails stops the run, and its error is returned.
    pub fn run(
        &self,
        inputs: Vec<Option<u32>>,
        ctx: &mut RenderContext,
        resources: &RenderResources,
        world: &mut World,
    ) -> (r: Result<(), NodeRunError>)
        ensures
            graph_post(*self, inputs@, *resources, *old(ctx), *old(world), *final(ctx), *final(world), r),
            !self.edges_valid() ==> r == Err::<(), NodeRunError>(NodeRunError::InvalidEdge)
                && *final(ctx) == *old(ctx) && *final(world) == *old(world),
            self.edges_valid() && !is_acyclic(self.node_count(), self.edges@) ==> r == Err::<
                (),
                NodeRunError,
            >(NodeRunError::Cycle) && *final(ctx) == *old(ctx) && *final(world) == *old(world),
            self.edges_valid() && is_acyclic(self.node_count(), self.edges@) && all_inert(
                self.nodes@,
            ) ==> r is Ok && *final(ctx) == *old(ctx) && *final(world) == *old(world),
        decreases self,
    {
        let ghost ins = inputs@;
        if !self.check_edges() {
            assert(graph_post(*self, ins, *resources, *old(ctx), *old(world), *ctx, *world, Err(NodeRunError::InvalidEdge)));
            return Err(NodeRunError::InvalidEdge);
        }
        let order = match self.topological_order() {
            Some(o) => o,
            None => {
                assert(graph_post(*self, ins, *resources, *old(ctx), *old(world), *ctx, *world, Err(NodeRunError::Cycle)));
                return Err(NodeRunError::Cycle);
            },
        };
        let graph_ctx = RenderGraphContext { inputs };
        let ghost mut cs: Seq<RenderContext> = seq![*ctx];
        let ghost mut ws: Seq<World> = seq![*world];
        let mut i: usize = 0;
        while i < order.len()
            invariant
                self.edges_valid(),
                is_acyclic(self.node_count(), self.edges@),
                is_topological_order(self.node_count(), self.edges@, order@),
                i <= order@.len(),
                graph_ctx.inputs@ == ins,
                inputs@ == ins,
                run_trace(*self, ins, *resources, order@, cs, ws, i as int),
                cs[0] == *old(ctx),
                ws[0] == *old(world),
                cs.last() == *ctx,
                ws.last() == *world,
                all_inert(self.nodes@) ==> *ctx == *old(ctx) && *world == *old(world),
            decreases order@.len() - i,
        {
            let idx = order[i];
            let ghost c_before = *ctx;
            let ghost w_before = *world;
            let res: Result<(), NodeRunError> = match &self.nodes[idx] {
                Node::Input => Ok(()),
                Node::Marker => Ok(()),
                Node::DebugPass(node) => node.run(ctx, resources, world),
                Node::OverlayPass(node) => node.run(&graph_ctx, ctx, world),
                Node::OverlayDriver(_) => {
                    let name = crate::overlay::OVERLAY_GRAPH.to_owned();
                    match self.find_sub_graph(&name) {
                        None => Err(NodeRunError::MissingSubGraph),
                        Some(si) => {
                            let mut sub_inputs: Vec<Option<u32>> = Vec::new();
                            sub_inputs.push(resources.render_target);
                            proof {
                                assert(decreases_to!(self.sub_graphs => self.sub_graphs@[si as int]));
                                assert(sub_inputs@ =~= seq![resources.render_target]);
                            }
                            let sub_res = self.sub_graphs[si].1.run(sub_inputs, ctx, resources, world);
                            proof {
                                lemma_graph_post_leaf(self.sub_graphs@[si as int].1, seq![resources.render_target], *resources, c_before, w_before, *ctx, *world, sub_res);
                            }
                            sub_res
                        },
                    }
                },
            };
            assert(node_post(*self, idx as int, ins, *resources, c_before, w_before, *ctx, *world, res));
            if res.is_err() {
                assert(cs[i as int] == c_before && ws[i as int] == w_before);
                assert(order@[i as int] == idx);
                assert(i < order@.len());
                assert(run_trace(*self, ins, *resources, order@, cs, ws, i as int));
                assert(graph_post(*self, ins, *resources, *old(ctx), *old(world), *ctx, *world, res));
                return res;
            }
            proof {
                let cs0 = cs;
                let ws0 = ws;
                cs = cs.push(*ctx);
                ws = ws.push(*world);
                assert forall|j: int| 0 <= j < i + 1 implies #[trigger] node_post(*self, order@[j] as int, ins, *resources, cs[j], ws[j], cs[j + 1], ws[j + 1], Ok(())) by {
                    if j < i {
                        assert(cs[j] == cs0[j] && cs[j + 1] == cs0[j + 1]);
                        assert(ws[j] == ws0[j] && ws[j + 1] == ws0[j + 1]);
                    } else {
                        assert(cs[j] == c_before && ws[j] == w_before);
                        assert(cs[j + 1] == *ctx && ws[j + 1] == *world);
                        assert(order@[j] == idx);
                        assert(res is Ok);
                        let u: () = res->Ok_0;
                        assert(res == Ok::<(), NodeRunError>(u));
                    }
                }
            }
            i = i + 1;
        }
        assert(run_trace(*self, ins, *resources, order@, cs, ws, i as int));
        assert(graph_post(*self, ins, *resources, *old(ctx), *old(world), *ctx, *world, Ok(())));
        Ok(())
    }
}

} // verus!
