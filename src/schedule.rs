use vstd::prelude::*;
use crate::graph::{Node, RenderGraph, RenderGraphError, GRAPH_INPUT, MAIN_PASS_DRIVER};
use crate::overlay::{
    queue_overlay_system, text_count, text_items, OverlayDriverNode, OverlayItem, OverlayPassNode,
    OVERLAY_DRIVER, OVERLAY_GRAPH, OVERLAY_PASS,
};
use crate::pass::{NodeRunError, RenderContext};
use crate::world::{overlay_phase_initialised, RenderResources, World};

verus! {

/// The stages of a frame, in the order they run.
#[derive(Clone, Copy, Debug, PartialEq, Eq, Structural)]
pub enum RenderStageLabel {
    Extract,
    Prepare,
    Queue,
    Render,
}

/// A system: work on the world that a stage runs once per frame.
#[derive(Clone, Copy, Debug, PartialEq, Eq, Structural)]
pub enum System {
    /// Fills the overlay phase from the world's overlay texts.
    QueueOverlay,
}

/// The systems of one stage.
pub struct SystemStage {
    pub systems: Vec<System>,
}

impl SystemStage {
    pub fn new() -> (r: Self)
        ensures
            r.systems@.len() == 0,
    {
        SystemStage { systems: Vec::new() }
    }

    pub fn with_system(self, system: System) -> (r: Self)
        ensures
            r.systems@ == self.systems@.push(system),
    {
        let mut s = self;
        s.systems.push(system);
        s
    }
}

/// `s` written `c` times one after another.
pub open spec fn repeated<T>(s: Seq<T>, c: nat) -> Seq<T>
    decreases c,
{
    if c == 0 {
        Seq::empty()
    } else {
        repeated(s, (c - 1) as nat) + s
    }
}

/// What running the systems `systems` in order does to the world: each fills the overlay
/// phase once, which must be present.
pub open spec fn stage_post(systems: Seq<System>, w0: World, w1: World, r: Result<(), NodeRunError>) -> bool {
    &&& systems.len() == 0 ==> r is Ok && w1 == w0
    &&& systems.len() > 0 && w0.overlay_phase is None ==> r == Err::<(), NodeRunError>(
        NodeRunError::MissingResource,
    ) && w1 == w0
    &&& w0.overlay_phase is Some ==> r is Ok && w1.overlay_phase is Some
        && w1.overlay_phase->Some_0.items@ == w0.overlay_phase->Some_0.items@ + repeated(
        text_items(text_count(w0)),
        systems.len(),
    )
    &&& w1.overlay_texts == w0.overlay_texts
    &&& w1.overlay_text_renderer == w0.overlay_text_renderer
    &&& w1.tile_debug_phase == w0.tile_debug_phase
    &&& w1.text_renderer == w0.text_renderer
    &&& w1.labels == w0.labels
}

/// Writing `s` first `a` times and then `b` times writes it `a + b` times.
proof fn lemma_repeated_add<T>(s: Seq<T>, a: nat, b: nat)
    ensures
        repeated(s, a) + repeated(s, b) == repeated(s, a + b),
    decreases b,
{
    if b == 0 {
        assert(repeated(s, a) + repeated(s, 0) =~= repeated(s, a));
    } else {
        lemma_repeated_add(s, a, (b - 1) as nat);
        assert(repeated(s, a) + repeated(s, b) =~= repeated(s, a) + repeated(s, (b - 1) as nat) + s);
        assert(repeated(s, (a + b) as nat) == repeated(s, (a + b - 1) as nat) + s);
    }
}

/// Runs the systems of `stage` in order; the first that fails stops the stage.
pub fn run_stage(stage: &SystemStage, world: &mut World) -> (r: Result<(), NodeRunError>)
    ensures
        stage_post(stage.systems@, *old(world), *final(world), r),
        stage.systems@.len() == 0 ==> r is Ok && *final(world) == *old(world),
        stage.systems@.len() > 0 && old(world).overlay_phase is None ==> r == Err::<
            (),
            NodeRunError,
        >(NodeRunError::MissingResource) && *final(world) == *old(world),
        old(world).overlay_phase is Some ==> r is Ok && final(world).overlay_phase is Some
            && final(world).overlay_phase->Some_0.items@ == old(world).overlay_phase->Some_0.items@
            + repeated(text_items(text_count(*old(world))), stage.systems@.len()),
        final(world).overlay_texts == old(world).overlay_texts,
        final(world).overlay_text_renderer == old(world).overlay_text_renderer,
        final(world).tile_debug_phase == old(world).tile_debug_phase,
        final(world).text_renderer == old(world).text_renderer,
        final(world).labels == old(world).labels,
{
    let ghost n = text_count(*world);
    let mut i: usize = 0;
    while i < stage.systems.len()
        invariant
            i <= stage.systems@.len(),
            i == 0 ==> *world == *old(world),
            i > 0 ==> old(world).overlay_phase is Some,
            text_count(*world) == n,
            (world.overlay_phase is Some) == (old(world).overlay_phase is Some),
            old(world).overlay_phase is Some ==> world.overlay_phase->Some_0.items@ == old(
                world,
            ).overlay_phase->Some_0.items@ + repeated(text_items(n), i as nat),
            world.overlay_texts == old(world).overlay_texts,
            world.overlay_text_renderer == old(world).overlay_text_renderer,
            world.tile_debug_phase == old(world).tile_debug_phase,
            world.text_renderer == old(world).text_renderer,
            world.labels == old(world).labels,
        decreases stage.systems@.len() - i,
    {
        let res = match stage.systems[i] {
            System::QueueOverlay => queue_overlay_system(world),
        };
        if res.is_err() {
            return res;
        }
        proof {
            let prev = old(world).overlay_phase->Some_0.items@;
            assert(prev + repeated(text_items(n), (i + 1) as nat) =~= prev + repeated(
                text_items(n),
                i as nat,
            ) + text_items(n));
        }
        i = i + 1;
    }
    Ok(())
}

/// The fixed stages of a frame, each with its systems.
pub struct Schedule {
    pub extract: SystemStage,
    pub prepare: SystemStage,
    pub queue: SystemStage,
    pub render: SystemStage,
}

impl Schedule {
    pub fn new() -> (r: Self)
        ensures
            r.extract.systems@.len() == 0,
            r.prepare.systems@.len() == 0,
            r.queue.systems@.len() == 0,
            r.render.systems@.len() == 0,
    {
        Schedule {
            extract: SystemStage::new(),
            prepare: SystemStage::new(),
            queue: SystemStage::new(),
            render: SystemStage::new(),
        }
    }

    /// The systems of stage `i`, the stages counted in the order they run.
    pub open spec fn stage_systems(&self, i: int) -> Seq<System> {
        if i == 0 {
            self.extract.systems@
        } else if i == 1 {
            self.prepare.systems@
        } else if i == 2 {
            self.queue.systems@
        } else {
            self.render.systems@
        }
    }

    /// How many systems the schedule has in all.
    pub open spec fn system_count(&self) -> nat {
        self.extract.systems@.len() + self.prepare.systems@.len() + self.queue.systems@.len()
            + self.render.systems@.len()
    }

    /// No stage has a system.
    pub open spec fn all_empty(&self) -> bool {
        &&& self.extract.systems@.len() == 0
        &&& self.prepare.systems@.len() == 0
        &&& self.queue.systems@.len() == 0
        &&& self.render.systems@.len() == 0
    }

    /// The systems of the stage labelled `label`.
    pub open spec fn systems_of(&self, label: RenderStageLabel) -> Seq<System> {
        match label {
            RenderStageLabel::Extract => self.extract.systems@,
            RenderStageLabel::Prepare => self.prepare.systems@,
            RenderStageLabel::Queue => self.queue.systems@,
            RenderStageLabel::Render => self.render.systems@,
        }
    }

    /// Adds the systems of `stage` to the stage labelled `label`, after those it has.
    pub fn add_stage(&mut self, label: RenderStageLabel, stage: SystemStage)
        ensures
            forall|l: RenderStageLabel|
                #[trigger] final(self).systems_of(l) == if l == label {
                    old(self).systems_of(l) + stage.systems@
                } else {
                    old(self).systems_of(l)
                },
    {
        let target = match label {
            RenderStageLabel::Extract => &mut self.extract,
            RenderStageLabel::Prepare => &mut self.prepare,
            RenderStageLabel::Queue => &mut self.queue,
            RenderStageLabel::Render => &mut self.render,
        };
        let mut extra = stage.systems;
        target.systems.append(&mut extra);
    }

    /// Runs one frame: the extract, prepare, queue and render stages in that order, then
    /// the render graph on the render target. The first failure stops the frame.
    pub fn run(
        &self,
        graph: &RenderGraph,
        ctx: &mut RenderContext,
        resources: &RenderResources,
        world: &mut World,
    ) -> (r: Result<(), NodeRunError>)
        ensures
            frame_post(*self, *graph, *resources, *old(ctx), *old(world), *final(ctx), *final(world), r),
            old(world).overlay_phase is Some && graph.edges_valid() && crate::graph::is_acyclic(
                graph.node_count(),
                graph.edges@,
            ) && crate::graph::all_inert(graph.nodes@) ==> r is Ok && *final(ctx) == *old(ctx)
                && final(world).overlay_phase is Some
                && final(world).overlay_phase->Some_0.items@ == old(world).overlay_phase->Some_0.items@
                + repeated(text_items(text_count(*old(world))), self.system_count()),
            old(world).overlay_phase is None && !self.all_empty() ==> r == Err::<
                (),
                NodeRunError,
            >(NodeRunError::MissingResource) && *final(world) == *old(world) && *final(ctx)
                == *old(ctx),
            self.all_empty() && graph.edges_valid() && !crate::graph::is_acyclic(
                graph.node_count(),
                graph.edges@,
            ) ==> r == Err::<(), NodeRunError>(NodeRunError::Cycle) && *final(world) == *old(world)
                && *final(ctx) == *old(ctx),
            self.all_empty() && graph.edges_valid() && crate::graph::is_acyclic(
                graph.node_count(),
                graph.edges@,
            ) && crate::graph::all_inert(graph.nodes@) ==> r is Ok && *final(world) == *old(world)
                && *final(ctx) == *old(ctx),
    {
        let ghost mut ws: Seq<World> = seq![*world];
        let res = run_stage(&self.extract, world);
        if res.is_err() {
            assert(stages_ran(*self, ws, 0) && ws[0] == *old(world));
            return res;
        }
        proof { ws = ws.push(*world); }
        let res = run_stage(&self.prepare, world);
        if res.is_err() {
            assert(stages_ran(*self, ws, 1) && ws[0] == *old(world));
            return res;
        }
        proof { ws = ws.push(*world); }
        let res = run_stage(&self.queue, world);
        if res.is_err() {
            assert(stages_ran(*self, ws, 2) && ws[0] == *old(world));
            return res;
        }
        proof { ws = ws.push(*world); }
        let res = run_stage(&self.render, world);
        if res.is_err() {
            assert(stages_ran(*self, ws, 3) && ws[0] == *old(world));
            return res;
        }
        proof {
            ws = ws.push(*world);
            assert(stages_ran(*self, ws, 4));
            if old(world).overlay_phase is Some {
                let t = text_items(text_count(*old(world)));
                let e = self.extract.systems@.len();
                let p = self.prepare.systems@.len();
                let q = self.queue.systems@.len();
                let rn = self.render.systems@.len();
                lemma_repeated_add(t, e, p);
                lemma_repeated_add(t, e + p, q);
                lemma_repeated_add(t, e + p + q, rn);
                assert(ws[4].overlay_phase->Some_0.items@ =~= old(world).overlay_phase->Some_0.items@
                    + repeated(t, self.system_count()));
            }
        }
        let mut inputs: Vec<Option<u32>> = Vec::new();
        inputs.push(resources.render_target);
        assert(inputs@ =~= seq![resources.render_target]);
        let r = graph.run(inputs, ctx, resources, world);
        assert(frame_post(*self, *graph, *resources, *old(ctx), *old(world), *ctx, *world, r));
        r
    }
}

/// `ws` are the worlds before and after each of the first `k` stages, each of which ran
/// and succeeded.
pub open spec fn stages_ran(s: Schedule, ws: Seq<World>, k: int) -> bool {
    &&& 0 <= k <= 4
    &&& ws.len() == k + 1
    &&& forall|i: int| 0 <= i < k ==> #[trigger] stage_post(s.stage_systems(i), ws[i], ws[i + 1], Ok(()))
}

/// What a frame does: the stages Extract, Prepare, Queue and Render run in that order, each
/// on the world the one before left, and then the graph runs on the render target. The
/// first stage that fails ends the frame with its error and records nothing.
pub open spec fn frame_post(
    s: Schedule,
    graph: RenderGraph,
    res: RenderResources,
    c0: RenderContext,
    w0: World,
    c1: RenderContext,
    w1: World,
    r: Result<(), NodeRunError>,
) -> bool {
    exists|ws: Seq<World>, k: int|
        #[trigger] stages_ran(s, ws, k) && ws[0] == w0 && if k < 4 {
            r is Err && stage_post(s.stage_systems(k), ws[k], w1, r) && c1 == c0
        } else {
            crate::graph::graph_post(graph, seq![res.render_target], res, c0, ws[4], c1, w1, r)
        }
}

/// Whether a name is among `names`.
pub open spec fn has_name(names: Seq<String>, name: Seq<char>) -> bool {
    exists|i: int| 0 <= i < names.len() && names[i]@ == name
}

pub open spec fn has_sub_graph(subs: Seq<(String, RenderGraph)>, name: Seq<char>) -> bool {
    exists|i: int| 0 <= i < subs.len() && subs[i].0@ == name
}

/// The overlay feature: its phase, its sub-graph and driver node, and its queue system.
pub struct OverlayPlugin {}

impl OverlayPlugin {
    pub fn new() -> (r: Self) {
        OverlayPlugin {}
    }

    /// Registers the overlay feature: an empty overlay phase in the world, the sub-graph
    /// `OVERLAY_GRAPH` of `overlay_sub_graph`, a node `OVERLAY_DRIVER` that runs it after
    /// `MAIN_PASS_DRIVER`, and the queue system. The graph and the schedule are checked
    /// first and left as they were when registration fails.
    pub fn build(&self, schedule: &mut Schedule, world: &mut World, graph: &mut RenderGraph) -> (r:
        Result<(), RenderGraphError>)
        requires
            old(graph).wf(),
        ensures
            final(graph).wf(),
            overlay_phase_initialised(*old(world), *final(world)),
            has_sub_graph(old(graph).sub_graphs@, OVERLAY_GRAPH@) ==> r == Err::<
                (),
                RenderGraphError,
            >(RenderGraphError::DuplicateSubGraph),
            !has_sub_graph(old(graph).sub_graphs@, OVERLAY_GRAPH@) && has_name(
                old(graph).names@,
                OVERLAY_DRIVER@,
            ) ==> r == Err::<(), RenderGraphError>(RenderGraphError::DuplicateNode),
            !has_sub_graph(old(graph).sub_graphs@, OVERLAY_GRAPH@) && !has_name(
                old(graph).names@,
                OVERLAY_DRIVER@,
            ) && !has_name(old(graph).names@, MAIN_PASS_DRIVER@) ==> r == Err::<
                (),
                RenderGraphError,
            >(RenderGraphError::InvalidNode),
            r is Ok <==> !has_sub_graph(old(graph).sub_graphs@, OVERLAY_GRAPH@) && !has_name(
                old(graph).names@,
                OVERLAY_DRIVER@,
            ) && has_name(old(graph).names@, MAIN_PASS_DRIVER@),
            r is Err ==> *final(schedule) == *old(schedule) && *final(graph) == *old(graph),
            r is Ok ==> {
                &&& final(graph).sub_graphs@.drop_last() == old(graph).sub_graphs@
                &&& final(graph).sub_graphs@.len() == old(graph).sub_graphs@.len() + 1
                &&& final(graph).sub_graphs@.last().0@ == OVERLAY_GRAPH@
                &&& is_overlay_sub_graph(final(graph).sub_graphs@.last().1)
                &&& final(graph).names@.drop_last() == old(graph).names@
                &&& final(graph).names@.len() == old(graph).names@.len() + 1
                &&& final(graph).names@.last()@ == OVERLAY_DRIVER@
                &&& final(graph).nodes@.drop_last() == old(graph).nodes@
                &&& final(graph).nodes@.len() == old(graph).nodes@.len() + 1
                &&& final(graph).nodes@.last() is OverlayDriver
                &&& final(graph).input_slots@ == old(graph).input_slots@
                &&& final(graph).edges@.drop_last() == old(graph).edges@
                &&& final(graph).edges@.len() == old(graph).edges@.len() + 1
                &&& final(graph).edges@.last().0 < old(graph).names@.len()
                &&& old(graph).names@[final(graph).edges@.last().0 as int]@ == MAIN_PASS_DRIVER@
                &&& final(graph).edges@.last().1 == old(graph).names@.len()
                &&& final(schedule).queue.systems@ == old(schedule).queue.systems@.push(
                    System::QueueOverlay,
                )
                &&& final(schedule).extract.systems@ == old(schedule).extract.systems@
                &&& final(schedule).prepare.systems@ == old(schedule).prepare.systems@
                &&& final(schedule).render.systems@ == old(schedule).render.systems@
            },
    {
        world.init_overlay_phase();
        proof {
            reveal_strlit("main_pass_driver");
            reveal_strlit("overlay_driver");
            assert(MAIN_PASS_DRIVER@ != OVERLAY_DRIVER@) by {
                assert(MAIN_PASS_DRIVER@[0] != OVERLAY_DRIVER@[0]);
            }
        }
        if graph.find_sub_graph(&OVERLAY_GRAPH.to_owned()).is_some() {
            return Err(RenderGraphError::DuplicateSubGraph);
        }
        if graph.find_node(&OVERLAY_DRIVER.to_owned()).is_some() {
            return Err(RenderGraphError::DuplicateNode);
        }
        if graph.find_node(&MAIN_PASS_DRIVER.to_owned()).is_none() {
            return Err(RenderGraphError::InvalidNode);
        }
        let overlay_graph = overlay_sub_graph();
        let _ = graph.add_sub_graph(OVERLAY_GRAPH, overlay_graph);
        let ghost before_node = *graph;
        let _ = graph.add_node(OVERLAY_DRIVER, Node::OverlayDriver(OverlayDriverNode {}));
        let ghost before_edge = *graph;
        let _ = graph.add_node_edge(MAIN_PASS_DRIVER, OVERLAY_DRIVER);
        proof {
            let n0 = old(graph).names@.len() as int;
            let e = graph.edges@.last();
            assert(before_edge.names@[n0]@ == OVERLAY_DRIVER@);
            if e.1 < n0 {
                assert(old(graph).names@[e.1 as int] == before_edge.names@[e.1 as int]);
            }
            assert(e.0 != n0);
            assert(old(graph).names@[e.0 as int] == before_edge.names@[e.0 as int]);
            assert(graph.nodes@.drop_last() =~= old(graph).nodes@);
        }
        schedule.add_stage(RenderStageLabel::Prepare, SystemStage::new());
        schedule.add_stage(
            RenderStageLabel::Queue,
            SystemStage::new().with_system(System::QueueOverlay),
        );
        schedule.add_stage(RenderStageLabel::Render, SystemStage::new());
        proof {
            assert(schedule.systems_of(RenderStageLabel::Extract) =~= old(schedule).systems_of(RenderStageLabel::Extract));
            assert(schedule.systems_of(RenderStageLabel::Prepare) =~= old(schedule).systems_of(RenderStageLabel::Prepare));
            assert(schedule.systems_of(RenderStageLabel::Queue) =~= old(schedule).systems_of(RenderStageLabel::Queue).push(System::QueueOverlay));
            assert(schedule.systems_of(RenderStageLabel::Render) =~= old(schedule).systems_of(RenderStageLabel::Render));
        }
        Ok(())
    }
}

/// The overlay sub-graph: node 0 is the overlay pass `OVERLAY_PASS`, node 1 the input node,
/// one edge runs from the input to the pass, and the graph binds the pass's one input.
pub open spec fn is_overlay_sub_graph(g: RenderGraph) -> bool {
    &&& g.wf()
    &&& g.nodes@.len() == 2
    &&& g.names@[0]@ == OVERLAY_PASS@
    &&& g.nodes@[0] is OverlayPass
    &&& g.names@[1]@ == GRAPH_INPUT@
    &&& g.nodes@[1] is Input
    &&& g.edges@ == seq![(1usize, 0usize)]
    &&& g.sub_graphs@.len() == 0
    &&& g.input_slots@.len() == 1
    &&& g.inputs_bound()
}

/// Builds the overlay feature's sub-graph.
pub fn overlay_sub_graph() -> (g: RenderGraph)
    ensures
        is_overlay_sub_graph(g),
{
    let mut g = RenderGraph::new();
    let pass = OverlayPassNode::new();
    let slots = pass.input();
    let _ = g.add_node(OVERLAY_PASS, Node::OverlayPass(pass));
    proof {
        reveal_strlit("input");
        reveal_strlit("overlay_pass");
        assert(GRAPH_INPUT@ != OVERLAY_PASS@) by {
            assert(GRAPH_INPUT@[0] != OVERLAY_PASS@[0]);
        }
    }
    let _ = g.set_input(slots);
    let ghost before = g;
    let _ = g.add_node_edge(GRAPH_INPUT, OVERLAY_PASS);
    proof {
        let e = g.edges@.last();
        assert(e.0 == 1);
        assert(e.1 == 0);
        assert(g.edges@ =~= seq![(1usize, 0usize)]);
    }
    g
}

/// Registering the overlay feature adds one node and one edge into it from an existing
/// node. Such an edge closes no cycle, and the old edges stay: the graph is acyclic after
/// `build` exactly when it was before, so a cycle stays and is rejected by `run`.
pub proof fn build_keeps_acyclicity(n: usize, edges: Seq<(usize, usize)>, from: usize)
    requires
        from < n,
        forall|k: int| 0 <= k < edges.len() ==> (#[trigger] edges[k]).0 < n && edges[k].1 < n,
    ensures
        crate::graph::is_acyclic(n as nat, edges) <==> crate::graph::is_acyclic((n + 1) as nat, edges.push((from, n))),
{
    let e2 = edges.push((from, n));
    if crate::graph::is_acyclic(n as nat, edges) {
        let rank = choose|rank: Seq<nat>| rank.len() == n && crate::graph::edges_ranked(edges, rank);
        let r2 = rank.push(rank[from as int] + 1);
        assert forall|k: int| 0 <= k < e2.len() implies r2[(#[trigger] e2[k]).0 as int] < r2[e2[k].1 as int] by {
            if k < edges.len() {
                assert(e2[k] == edges[k]);
                assert(r2[edges[k].0 as int] == rank[edges[k].0 as int]);
                assert(r2[edges[k].1 as int] == rank[edges[k].1 as int]);
            } else {
                assert(e2[k] == (from, n));
                assert(r2[from as int] == rank[from as int]);
            }
        }
        assert(r2.len() == n + 1 && crate::graph::edges_ranked(e2, r2));
    }
    if crate::graph::is_acyclic((n + 1) as nat, e2) {
        let rank = choose|rank: Seq<nat>| rank.len() == n + 1 && crate::graph::edges_ranked(e2, rank);
        let r1 = rank.subrange(0, n as int);
        assert forall|k: int| 0 <= k < edges.len() implies r1[(#[trigger] edges[k]).0 as int] < r1[edges[k].1 as int] by {
            assert(e2[k] == edges[k]);
            assert(rank[(e2[k]).0 as int] < rank[e2[k].1 as int]);
        }
        assert(r1.len() == n && crate::graph::edges_ranked(edges, r1));
    }
}

} // verus!
