use vstd::prelude::*;
use crate::font::BMFont;
use crate::pass::{NodeRunError, RenderCommand, RenderContext, TrackedRenderPass};
use crate::phase::{PhaseItem, RenderPhase};
use crate::text::{layout, layout_text, vertices_match, OverlayText, TextVertex, MAX_TEXT_CHARS};
use crate::world::World;
use crate::debug::{SlotInfo, SlotType};

verus! {

/// The kinds of overlay that the overlay phase draws.
#[derive(Clone, Copy, Debug, PartialEq, Eq, Structural)]
pub enum OverlayKind {
    Text,
}

/// One overlay draw item: its kind, its depth, and the index of what it draws in the
/// world's list for that kind.
#[derive(Clone, Copy, Debug, PartialEq, Eq, Structural)]
pub struct OverlayItem {
    pub kind: OverlayKind,
    pub z: u32,
    pub source: usize,
}

/// The depth given to text overlays, above everything else of the overlay phase.
pub const TEXT_OVERLAY_Z: u32 = 10000;

impl PhaseItem for OverlayItem {
    open spec fn key(&self) -> u32 {
        self.z
    }

    fn sort_key(&self) -> (r: u32) {
        self.z
    }
}

/// Draws text overlays: the font, the screen size in pixels, and handles of the GPU
/// pipeline, bind group and vertex buffer it draws with.
pub struct OverlayTextRenderer {
    pub font: BMFont,
    pub screen_w: u32,
    pub screen_h: u32,
    pub pipeline: u32,
    pub bind_group: u32,
    pub vertex_buffer: u32,
}

impl OverlayTextRenderer {
    /// The vertices of `t`: two triangles per character that has a glyph.
    pub fn build_text_vertices(&self, t: &OverlayText) -> (r: Vec<TextVertex>)
        requires
            t.text@.len() <= MAX_TEXT_CHARS,
        ensures
            vertices_match(
                r@,
                layout(self.font.chars@, t.text@, t.position.x as int, t.position.y as int),
            ),
    {
        layout_text(&self.font, &t.text, t.position.x, t.position.y)
    }
}

/// The items that extraction adds for `n` texts, one per text, in order.
pub open spec fn text_items(n: nat) -> Seq<OverlayItem> {
    Seq::new(n, |i: int| (OverlayItem { kind: OverlayKind::Text, z: TEXT_OVERLAY_Z, source: i as usize }))
}

/// How many texts the world asks to draw.
pub open spec fn text_count(world: World) -> nat {
    match world.overlay_texts {
        Some(v) => v@.len(),
        None => 0,
    }
}

/// Appends one text item to `phase` for each overlay text in the world.
pub fn extract_text(world: &World, phase: &mut RenderPhase<OverlayItem>)
    ensures
        final(phase).items@ == old(phase).items@ + text_items(text_count(*world)),
{
    let ghost start = phase.items@;
    if let Some(arr) = &world.overlay_texts {
        let mut i: usize = 0;
        while i < arr.len()
            invariant
                i <= arr@.len(),
                world.overlay_texts == Some(*arr),
                phase.items@ == start + text_items(i as nat),
            decreases arr@.len() - i,
        {
            phase.items.push(OverlayItem { kind: OverlayKind::Text, z: TEXT_OVERLAY_Z, source: i });
            i = i + 1;
            assert(phase.items@ =~= start + text_items(i as nat));
        }
    } else {
        assert(phase.items@ =~= start + text_items(0));
    }
}

/// The queue-stage system of the overlay feature: fills the overlay phase from the
/// world's texts. The phase is a required resource.
pub fn queue_overlay_system(world: &mut World) -> (r: Result<(), NodeRunError>)
    ensures
        old(world).overlay_phase is None ==> r == Err::<(), NodeRunError>(
            NodeRunError::MissingResource,
        ) && *final(world) == *old(world),
        old(world).overlay_phase is Some ==> r is Ok && final(world).overlay_phase is Some
            && final(world).overlay_phase->Some_0.items@ == old(world).overlay_phase->Some_0.items@ + text_items(text_count(*old(world))),
        final(world).tile_debug_phase == old(world).tile_debug_phase,
        final(world).overlay_texts == old(world).overlay_texts,
        final(world).overlay_text_renderer == old(world).overlay_text_renderer,
        final(world).text_renderer == old(world).text_renderer,
        final(world).labels == old(world).labels,
{
    match world.overlay_phase.take() {
        None => Err(NodeRunError::MissingResource),
        Some(mut phase) => {
            extract_text(world, &mut phase);
            world.overlay_phase = Some(phase);
            Ok(())
        },
    }
}

/// `item` can be drawn from what `world` holds.
pub open spec fn item_drawable(world: World, item: OverlayItem) -> bool {
    &&& world.overlay_text_renderer is Some
    &&& world.overlay_texts matches Some(texts)
    &&& item.source < texts@.len()
    &&& texts@[item.source as int].text@.len() <= MAX_TEXT_CHARS
}

/// The state-binding command that binding `want` records when `have` is bound.
pub open spec fn bind_pipeline_cmd(have: Option<u32>, want: u32) -> Seq<RenderCommand> {
    if have == Some(want) {
        Seq::empty()
    } else {
        seq![RenderCommand::SetPipeline { pipeline: want }]
    }
}

pub open spec fn bind_group_cmd(have: Option<(u32, u32)>, index: u32, want: u32) -> Seq<
    RenderCommand,
> {
    if have == Some((index, want)) {
        Seq::empty()
    } else {
        seq![RenderCommand::SetBindGroup { index, bind_group: want }]
    }
}

pub open spec fn vertex_buffer_cmd(have: Option<(u32, u32)>, slot: u32, want: u32) -> Seq<
    RenderCommand,
> {
    if have == Some((slot, want)) {
        Seq::empty()
    } else {
        seq![RenderCommand::SetVertexBuffer { slot, buffer: want }]
    }
}

/// `after` is `before` with text `t` drawn by renderer `tr`: its pipeline and bind group
/// bound, its vertices uploaded, the vertex buffer bound, and one draw of every vertex.
pub open spec fn text_drawn(
    before: TrackedRenderPass,
    after: TrackedRenderPass,
    tr: OverlayTextRenderer,
    t: OverlayText,
) -> bool {
    let verts = layout(tr.font.chars@, t.text@, t.position.x as int, t.position.y as int);
    let head = before.commands@ + bind_pipeline_cmd(before.pipeline, tr.pipeline)
        + bind_group_cmd(before.bind_group, 0, tr.bind_group);
    let tail = vertex_buffer_cmd(before.vertex_buffer, 0, tr.vertex_buffer) + seq![
        RenderCommand::Draw { vertex_count: verts.len() as u32, instance_count: 1 },
    ];
    &&& after.commands@.len() == head.len() + 1 + tail.len()
    &&& after.commands@.subrange(0, head.len() as int) == head
    &&& after.commands@[head.len() as int] matches RenderCommand::WriteVertices {
        buffer,
        vertices,
        color,
    } && buffer == tr.vertex_buffer && color == t.color && vertices_match(vertices@, verts)
    &&& after.commands@.subrange((head.len() + 1) as int, after.commands@.len() as int) == tail
    &&& after.target == before.target
    &&& after.pipeline == Some(tr.pipeline)
    &&& after.bind_group == Some((0u32, tr.bind_group))
    &&& after.vertex_buffer == Some((0u32, tr.vertex_buffer))
}

/// A laid-out text has at most six vertices per character.
pub proof fn lemma_layout_len(chars: Map<u32, crate::font::BMChar>, text: Seq<char>, x0: int, y0: int)
    ensures
        layout(chars, text, x0, y0).len() <= 6 * text.len(),
    decreases text.len(),
{
    if text.len() > 0 {
        lemma_layout_len(chars, text.drop_last(), x0, y0);
    }
}

/// Whether `item` can be drawn from `world`, and if not, why.
pub fn check_overlay_item(world: &World, item: &OverlayItem) -> (r: Result<(), NodeRunError>)
    ensures
        r is Ok <==> item_drawable(*world, *item),
        !item_drawable(*world, *item) ==> r == Err::<(), NodeRunError>(
            if world.overlay_text_renderer is Some && (world.overlay_texts matches Some(texts)
                && item.source < texts@.len()) {
                NodeRunError::TextTooLong
            } else {
                NodeRunError::MissingResource
            },
        ),
{
    if world.overlay_text_renderer.is_none() {
        return Err(NodeRunError::MissingResource);
    }
    match &world.overlay_texts {
        None => Err(NodeRunError::MissingResource),
        Some(texts) => {
            if item.source >= texts.len() {
                Err(NodeRunError::MissingResource)
            } else if texts[item.source].text.len() > MAX_TEXT_CHARS {
                Err(NodeRunError::TextTooLong)
            } else {
                Ok(())
            }
        },
    }
}

/// Records the draw of one overlay item into `pass`.
pub fn draw(pass: &mut TrackedRenderPass, world: &World, item: &OverlayItem) -> (r:
    Result<(), NodeRunError>)
    ensures
        r is Ok <==> item_drawable(*world, *item),
        r is Err ==> *final(pass) == *old(pass),
        !item_drawable(*world, *item) ==> r == Err::<(), NodeRunError>(
            if world.overlay_text_renderer is Some && (world.overlay_texts matches Some(texts)
                && item.source < texts@.len()) {
                NodeRunError::TextTooLong
            } else {
                NodeRunError::MissingResource
            },
        ),
        r is Ok ==> text_drawn(
            *old(pass),
            *final(pass),
            world.overlay_text_renderer->Some_0,
            world.overlay_texts->Some_0@[item.source as int],
        ),
{
    match item.kind {
        OverlayKind::Text => {
            let renderer = match &world.overlay_text_renderer {
                Some(tr) => tr,
                None => {
                    return Err(NodeRunError::MissingResource);
                },
            };
            let texts = match &world.overlay_texts {
                Some(v) => v,
                None => {
                    return Err(NodeRunError::MissingResource);
                },
            };
            if item.source >= texts.len() {
                return Err(NodeRunError::MissingResource);
            }
            let t = &texts[item.source];
            if t.text.len() > MAX_TEXT_CHARS {
                return Err(NodeRunError::TextTooLong);
            }
            let ghost before = *pass;
            pass.set_render_pipeline(renderer.pipeline);
            pass.set_bind_group(0, renderer.bind_group);
            let ghost mid = *pass;
            let verts = renderer.build_text_vertices(t);
            proof {
                lemma_layout_len(
                    renderer.font.chars@,
                    t.text@,
                    t.position.x as int,
                    t.position.y as int,
                );
            }
            let count = verts.len() as u32;
            pass.write_vertices(renderer.vertex_buffer, verts, t.color);
            let ghost written = *pass;
            pass.set_vertex_buffer(0, renderer.vertex_buffer);
            pass.draw(count, 1);
            proof {
                let head = before.commands@ + bind_pipeline_cmd(before.pipeline, renderer.pipeline)
                    + bind_group_cmd(before.bind_group, 0, renderer.bind_group);
                assert(mid.commands@ == head);
                assert(pass.commands@.subrange(0, head.len() as int) =~= head);
                assert(pass.commands@[head.len() as int] == written.commands@[head.len() as int]);
                assert(pass.commands@.subrange((head.len() + 1) as int, pass.commands@.len() as int)
                    =~= vertex_buffer_cmd(before.vertex_buffer, 0, renderer.vertex_buffer) + seq![
                    RenderCommand::Draw { vertex_count: count, instance_count: 1 },
                ]);
            }
            Ok(())
        },
    }
}

/// The graph's inputs handed to a running node: texture views by slot.
pub struct RenderGraphContext {
    pub inputs: Vec<Option<u32>>,
}

impl RenderGraphContext {
    /// The texture view bound to input slot `index`, if any.
    pub fn get_input_texture_view(&self, index: usize) -> (r: Option<u32>)
        ensures
            r == (if index < self.inputs@.len() {
                self.inputs@[index as int]
            } else {
                None
            }),
    {
        if index < self.inputs.len() {
            self.inputs[index]
        } else {
            None
        }
    }
}

/// `chain` runs through the passes recorded while drawing `items` in order from `world`:
/// each step draws the text of the next item.
pub open spec fn draws_items(world: World, items: Seq<OverlayItem>, chain: Seq<TrackedRenderPass>) -> bool {
    &&& chain.len() == items.len() + 1
    &&& forall|i: int|
        0 <= i < items.len() ==> text_drawn(
            #[trigger] chain[i],
            chain[i + 1],
            world.overlay_text_renderer->Some_0,
            world.overlay_texts->Some_0@[items[i].source as int],
        )
}

/// Every item of `items` can be drawn from `world`.
pub open spec fn all_drawable(world: World, items: Seq<OverlayItem>) -> bool {
    forall|k: int| 0 <= k < items.len() ==> item_drawable(world, #[trigger] items[k])
}

/// The node of the main graph that runs the overlay sub-graph, `OVERLAY_GRAPH`.
pub struct OverlayDriverNode {}

/// The name of the overlay feature's sub-graph.
pub const OVERLAY_GRAPH: &'static str = "overlay_graph";

/// The name of the node that draws the overlay phase.
pub const OVERLAY_PASS: &'static str = "overlay_pass";

/// The name of the main graph's node that runs the overlay sub-graph.
pub const OVERLAY_DRIVER: &'static str = "overlay_driver";

/// The node that draws the overlay phase into the graph's input view.
pub struct OverlayPassNode {}

impl OverlayPassNode {
    pub fn new() -> (r: Self) {
        OverlayPassNode {}
    }

    /// The node reads one input: the texture view it draws into.
    pub fn input(&self) -> (r: Vec<SlotInfo>)
        ensures
            r@.len() == 1,
            r@[0].slot_type == SlotType::TextureView,
    {
        let mut v: Vec<SlotInfo> = Vec::new();
        v.push(SlotInfo { name: "view".to_owned(), slot_type: SlotType::TextureView });
        v
    }

    /// Draws the overlay phase into input view 0 as `render_overlay` does. Without a bound
    /// view nothing is drawn, and the phase is emptied all the same: its items never outlive
    /// the frame.
    pub fn run(&self, graph: &RenderGraphContext, ctx: &mut RenderContext, world: &mut World) -> (r:
        Result<(), NodeRunError>)
        ensures
            overlay_pass_post(graph.inputs@, *old(ctx), *old(world), *final(ctx), *final(world), r),
    {
        match graph.get_input_texture_view(0) {
            Some(view) => {
                if world.overlay_phase.is_none() {
                    ctx.passes.push(TrackedRenderPass::new(view));
                    assert(ctx.passes@.drop_last() =~= old(ctx).passes@);
                    return Ok(());
                }
                render_overlay(ctx, world, view)
            },
            None => {
                if let Some(phase) = &mut world.overlay_phase {
                    phase.clear();
                }
                Ok(())
            },
        }
    }
}

/// The world after the overlay phase was emptied: every other slot is kept, and a phase
/// that was present is present and empty.
pub open spec fn phase_emptied(before: World, after: World) -> bool {
    &&& after.overlay_texts == before.overlay_texts
    &&& after.overlay_text_renderer == before.overlay_text_renderer
    &&& after.tile_debug_phase == before.tile_debug_phase
    &&& after.text_renderer == before.text_renderer
    &&& after.labels == before.labels
    &&& (after.overlay_phase is Some) == (before.overlay_phase is Some)
    &&& after.overlay_phase is Some ==> after.overlay_phase->Some_0.items@.len() == 0
}

/// `pass` is a pass on `target` with nothing recorded and nothing bound.
pub open spec fn fresh_pass(pass: TrackedRenderPass, target: u32) -> bool {
    pass.commands@.len() == 0 && pass.pipeline is None && pass.bind_group is None
        && pass.vertex_buffer is None && pass.target == target
}

/// What `render_overlay` does: the phase is required; every item must be drawable, and
/// then one new pass on `target` holds the draws of the items in stable key order. The phase
/// ends empty whether or not the draw succeeded.
pub open spec fn render_overlay_post(
    target: u32,
    c0: RenderContext,
    w0: World,
    c1: RenderContext,
    w1: World,
    r: Result<(), NodeRunError>,
) -> bool {
    if w0.overlay_phase is None {
        r == Err::<(), NodeRunError>(NodeRunError::MissingResource) && c1 == c0 && w1 == w0
    } else {
        &&& phase_emptied(w0, w1)
        &&& (r is Ok <==> all_drawable(w0, w0.overlay_phase->Some_0.items@))
        &&& r is Err ==> c1 == c0
        &&& r is Ok ==> {
            &&& c1.passes@.len() == c0.passes@.len() + 1
            &&& c1.passes@.drop_last() == c0.passes@
            &&& exists|sorted: Seq<OverlayItem>, chain: Seq<TrackedRenderPass>|
                crate::phase::is_stable_sort_of(w0.overlay_phase->Some_0.items@, sorted)
                    && #[trigger] draws_items(w0, sorted, chain) && fresh_pass(chain[0], target)
                    && chain.last() == c1.passes@.last()
        }
    }
}

/// What the overlay pass node does with the graph inputs `inputs`.
pub open spec fn overlay_pass_post(
    inputs: Seq<Option<u32>>,
    c0: RenderContext,
    w0: World,
    c1: RenderContext,
    w1: World,
    r: Result<(), NodeRunError>,
) -> bool {
    if inputs.len() == 0 || inputs[0] is None {
        r is Ok && c1 == c0 && phase_emptied(w0, w1)
    } else if w0.overlay_phase is None {
        r is Ok && w1 == w0 && c1.passes@.len() == c0.passes@.len() + 1
            && c1.passes@.drop_last() == c0.passes@ && fresh_pass(c1.passes@.last(), inputs[0]->Some_0)
    } else {
        render_overlay_post(inputs[0]->Some_0, c0, w0, c1, w1, r)
    }
}

/// Draws the overlay phase into a new pass on `target`: checks that every item can be
/// drawn, sorts the phase, draws each item once in that order, and empties the phase.
/// The phase is a required resource.
pub fn render_overlay(ctx: &mut RenderContext, world: &mut World, target: u32) -> (r: Result<
    (),
    NodeRunError,
>)
    ensures
        render_overlay_post(target, *old(ctx), *old(world), *final(ctx), *final(world), r),
{
    let taken = world.overlay_phase.take();
    let mut phase = match taken {
        Some(p) => p,
        None => {
            return Err(NodeRunError::MissingResource);
        },
    };
    let mut pass = TrackedRenderPass::new(target);
    let mut k: usize = 0;
    while k < phase.items.len()
        invariant
            k <= phase.items@.len(),
            old(world).overlay_phase == Some(phase),
            world.overlay_texts == old(world).overlay_texts,
            world.overlay_text_renderer == old(world).overlay_text_renderer,
            world.tile_debug_phase == old(world).tile_debug_phase,
            world.text_renderer == old(world).text_renderer,
            world.labels == old(world).labels,
            world.overlay_phase is None,
            forall|m: int| 0 <= m < k ==> item_drawable(*old(world), #[trigger] phase.items@[m]),
        decreases phase.items@.len() - k,
    {
        let checked = check_overlay_item(world, &phase.items[k]);
        if checked.is_err() {
            phase.clear();
            world.overlay_phase = Some(phase);
            return checked;
        }
        k = k + 1;
    }
    let ghost unsorted = phase.items@;
    phase.sort();
    let ghost p = choose|p: Seq<int>| crate::phase::stable_witness(unsorted, phase.items@, p);
    let ghost sorted = phase.items@;
    let ghost mut chain: Seq<TrackedRenderPass> = seq![pass];
    let mut k: usize = 0;
    while k < phase.items.len()
        invariant
            k <= phase.items@.len(),
            crate::phase::stable_witness(unsorted, phase.items@, p),
            world.overlay_texts == old(world).overlay_texts,
            world.overlay_text_renderer == old(world).overlay_text_renderer,
            world.tile_debug_phase == old(world).tile_debug_phase,
            world.text_renderer == old(world).text_renderer,
            world.labels == old(world).labels,
            world.overlay_phase is None,
            forall|m: int| 0 <= m < unsorted.len() ==> item_drawable(*old(world), #[trigger] unsorted[m]),
            pass.target == target,
            phase.items@ == sorted,
            chain.len() == k + 1,
            fresh_pass(chain[0], target),
            chain.last() == pass,
            forall|i: int|
                0 <= i < k ==> text_drawn(
                    #[trigger] chain[i],
                    chain[i + 1],
                    old(world).overlay_text_renderer->Some_0,
                    old(world).overlay_texts->Some_0@[sorted[i].source as int],
                ),
        decreases phase.items@.len() - k,
    {
        assert(phase.items@[k as int] == unsorted[p[k as int]]);
        let _ = draw(&mut pass, world, &phase.items[k]);
        proof {
            chain = chain.push(pass);
        }
        k = k + 1;
    }
    proof {
        assert(crate::phase::stable_witness(unsorted, sorted, p));
        assert(draws_items(*old(world), sorted, chain));
        assert forall|m: int| 0 <= m < unsorted.len() implies item_drawable(*old(world), #[trigger] unsorted[m]) by {}
    }
    phase.clear();
    world.overlay_phase = Some(phase);
    ctx.passes.push(pass);
    assert(ctx.passes@.drop_last() =~= old(ctx).passes@);
    Ok(())
}

} // verus!
