use vstd::prelude::*;
use crate::font::BMFont;
use crate::overlay::{bind_group_cmd, bind_pipeline_cmd, vertex_buffer_cmd};
use crate::pass::{NodeRunError, RenderContext, TrackedRenderPass};
use crate::phase::PhaseItem;
use crate::text::{layout, layout_text, vertices_match, TextVertex, MAX_TEXT_CHARS};
use crate::world::{RenderResources, World};

verus! {

/// A debug draw item of the tile phase: the pipeline and vertex buffer of its outline
/// geometry, how many vertices it has, and its depth.
#[derive(Clone, Copy, Debug, PartialEq, Eq, Structural)]
pub struct TileDebugItem {
    pub pipeline: u32,
    pub vertex_buffer: u32,
    pub vertex_count: u32,
    pub z: u32,
}

impl PhaseItem for TileDebugItem {
    open spec fn key(&self) -> u32 {
        self.z
    }

    fn sort_key(&self) -> (r: u32) {
        self.z
    }
}

impl TileDebugItem {
    /// Records the outline: pipeline, vertex buffer, one draw of every vertex.
    pub fn draw(&self, pass: &mut TrackedRenderPass)
        ensures
            final(pass).target == old(pass).target,
            final(pass).pipeline == Some(self.pipeline),
            final(pass).vertex_buffer == Some((0u32, self.vertex_buffer)),
            final(pass).bind_group == old(pass).bind_group,
            final(pass).commands@ == old(pass).commands@ + bind_pipeline_cmd(
                old(pass).pipeline,
                self.pipeline,
            ) + vertex_buffer_cmd(old(pass).vertex_buffer, 0, self.vertex_buffer) + seq![
                (crate::pass::RenderCommand::Draw { vertex_count: self.vertex_count, instance_count: 1 }),
            ],
    {
        let ghost before = *pass;
        pass.set_render_pipeline(self.pipeline);
        pass.set_vertex_buffer(0, self.vertex_buffer);
        pass.draw(self.vertex_count, 1);
        assert(pass.commands@ =~= before.commands@ + bind_pipeline_cmd(
            before.pipeline,
            self.pipeline,
        ) + vertex_buffer_cmd(before.vertex_buffer, 0, self.vertex_buffer) + seq![
            crate::pass::RenderCommand::Draw { vertex_count: self.vertex_count, instance_count: 1 },
        ]);
    }
}

/// The debug text renderer: a font, handles of its GPU objects, the screen size in
/// pixels, and how many vertices the buffer holds for the current text.
pub struct TextRenderer {
    pub font: BMFont,
    pub pipeline: u32,
    pub bind_group: u32,
    pub vertex_buffer: u32,
    pub vertex_count: u32,
    pub screen_w: u32,
    pub screen_h: u32,
}

impl TextRenderer {
    pub fn new(
        font: BMFont,
        pipeline: u32,
        bind_group: u32,
        vertex_buffer: u32,
        screen_w: u32,
        screen_h: u32,
    ) -> (r: Self)
        ensures
            r.font == font,
            r.pipeline == pipeline,
            r.bind_group == bind_group,
            r.vertex_buffer == vertex_buffer,
            r.vertex_count == 0,
            r.screen_w == screen_w,
            r.screen_h == screen_h,
    {
        TextRenderer { font, pipeline, bind_group, vertex_buffer, vertex_count: 0, screen_w, screen_h }
    }

    /// Lays out `text` at `(px, py)`. Returns the vertices to upload into the vertex
    /// buffer, or `None` when no character has a glyph and there is nothing to draw.
    pub fn set_text(&mut self, text: &Vec<char>, px: i32, py: i32) -> (r: Option<Vec<TextVertex>>)
        requires
            text@.len() <= MAX_TEXT_CHARS,
        ensures
            final(self).font == old(self).font,
            final(self).pipeline == old(self).pipeline,
            final(self).bind_group == old(self).bind_group,
            final(self).vertex_buffer == old(self).vertex_buffer,
            final(self).screen_w == old(self).screen_w,
            final(self).screen_h == old(self).screen_h,
            final(self).vertex_count == layout(old(self).font.chars@, text@, px as int, py as int).len(),
            r is None <==> layout(old(self).font.chars@, text@, px as int, py as int).len() == 0,
            r matches Some(v) ==> vertices_match(
                v@,
                layout(old(self).font.chars@, text@, px as int, py as int),
            ),
    {
        let vertices = layout_text(&self.font, text, px, py);
        proof {
            crate::overlay::lemma_layout_len(self.font.chars@, text@, px as int, py as int);
        }
        if vertices.len() == 0 {
            self.vertex_count = 0;
            return None;
        }
        self.vertex_count = vertices.len() as u32;
        Some(vertices)
    }

    /// Records the draw of the current text; records nothing when there is none.
    pub fn draw(&self, pass: &mut TrackedRenderPass)
        ensures
            self.vertex_count == 0 ==> *final(pass) == *old(pass),
            final(pass).target == old(pass).target,
            self.vertex_count != 0 ==> final(pass).commands@ == old(pass).commands@
                + bind_pipeline_cmd(old(pass).pipeline, self.pipeline) + bind_group_cmd(
                old(pass).bind_group,
                0,
                self.bind_group,
            ) + vertex_buffer_cmd(old(pass).vertex_buffer, 0, self.vertex_buffer) + seq![
                (crate::pass::RenderCommand::Draw { vertex_count: self.vertex_count, instance_count: 1 }),
            ],
    {
        if self.vertex_count == 0 {
            return;
        }
        let ghost before = *pass;
        pass.set_render_pipeline(self.pipeline);
        pass.set_bind_group(0, self.bind_group);
        pass.set_vertex_buffer(0, self.vertex_buffer);
        pass.draw(self.vertex_count, 1);
        assert(pass.commands@ =~= before.commands@ + bind_pipeline_cmd(before.pipeline, self.pipeline)
            + bind_group_cmd(before.bind_group, 0, self.bind_group) + vertex_buffer_cmd(
            before.vertex_buffer,
            0,
            self.vertex_buffer,
        ) + seq![
            crate::pass::RenderCommand::Draw { vertex_count: self.vertex_count, instance_count: 1 },
        ]);
    }
}

/// The debug text renderer once it has been created.
pub struct TextRendererResource {
    pub renderer: Option<TextRenderer>,
}

/// A debug label at a screen position in pixels.
pub struct Label {
    pub text: String,
    pub x: i32,
    pub y: i32,
}

pub struct LabelResource {
    pub labels: Vec<Label>,
}

/// Declares one input of a node: its name and the kind of value bound to it.
#[derive(Clone, Copy, Debug, PartialEq, Eq, Structural)]
pub enum SlotType {
    TextureView,
}

pub struct SlotInfo {
    pub name: String,
    pub slot_type: SlotType,
}

/// `after` is `before` with tile item `t` drawn.
pub open spec fn tile_drawn(before: TrackedRenderPass, after: TrackedRenderPass, t: TileDebugItem) -> bool {
    &&& after.commands@ == before.commands@ + bind_pipeline_cmd(before.pipeline, t.pipeline)
        + vertex_buffer_cmd(before.vertex_buffer, 0, t.vertex_buffer) + seq![
        crate::pass::RenderCommand::Draw { vertex_count: t.vertex_count, instance_count: 1 },
    ]
    &&& after.target == before.target
    &&& after.pipeline == Some(t.pipeline)
    &&& after.bind_group == before.bind_group
    &&& after.vertex_buffer == Some((0u32, t.vertex_buffer))
}

/// `chain` runs through the passes recorded while drawing `items` in order.
pub open spec fn draws_tiles(items: Seq<TileDebugItem>, chain: Seq<TrackedRenderPass>) -> bool {
    &&& chain.len() == items.len() + 1
    &&& forall|i: int| 0 <= i < items.len() ==> tile_drawn(#[trigger] chain[i], chain[i + 1], items[i])
}

/// The items of the world's tile debug phase, none when it has none.
pub open spec fn tile_items(world: World) -> Seq<TileDebugItem> {
    match world.tile_debug_phase {
        Some(p) => p.items@,
        None => Seq::empty(),
    }
}

/// `after` is `before` with the debug text drawn by `tr`, or `before` itself when there
/// is no text.
pub open spec fn debug_text_drawn(before: TrackedRenderPass, after: TrackedRenderPass, tr: TextRenderer) -> bool {
    if tr.vertex_count == 0 {
        after == before
    } else {
        after.target == before.target && after.commands@ == before.commands@ + bind_pipeline_cmd(
            before.pipeline,
            tr.pipeline,
        ) + bind_group_cmd(before.bind_group, 0, tr.bind_group) + vertex_buffer_cmd(
            before.vertex_buffer,
            0,
            tr.vertex_buffer,
        ) + seq![
            crate::pass::RenderCommand::Draw { vertex_count: tr.vertex_count, instance_count: 1 },
        ]
    }
}

/// The world after the tile debug phase was emptied: every other slot is kept, and a phase
/// that was present is present and empty.
pub open spec fn tiles_emptied(before: World, after: World) -> bool {
    &&& after.overlay_phase == before.overlay_phase
    &&& after.overlay_texts == before.overlay_texts
    &&& after.overlay_text_renderer == before.overlay_text_renderer
    &&& after.text_renderer == before.text_renderer
    &&& after.labels == before.labels
    &&& (after.tile_debug_phase is Some) == (before.tile_debug_phase is Some)
    &&& after.tile_debug_phase is Some ==> after.tile_debug_phase->Some_0.items@.len() == 0
}

/// What the debug pass does: the tile phase is emptied in every case; without a render
/// target nothing is recorded; with one, a new pass on it holds the tile draws in stable
/// key order and then the debug text, if there is any.
pub open spec fn debug_pass_post(
    target: Option<u32>,
    w0: World,
    c0: RenderContext,
    w1: World,
    c1: RenderContext,
    r: Result<(), NodeRunError>,
) -> bool {
    &&& r is Ok
    &&& tiles_emptied(w0, w1)
    &&& target is None ==> c1 == c0
    &&& target matches Some(t) ==> {
        let pass = c1.passes@.last();
        &&& c1.passes@ == c0.passes@.push(pass)
        &&& pass.target == t
        &&& exists|sorted: Seq<TileDebugItem>, chain: Seq<TrackedRenderPass>| {
            &&& crate::phase::is_stable_sort_of(tile_items(w0), sorted)
            &&& #[trigger] draws_tiles(sorted, chain)
            &&& chain[0].commands@.len() == 0 && chain[0].pipeline is None
                && chain[0].bind_group is None && chain[0].vertex_buffer is None
                && chain[0].target == t
            &&& if w0.text_renderer is Some && w0.text_renderer->Some_0.renderer is Some {
                debug_text_drawn(chain.last(), pass, w0.text_renderer->Some_0.renderer->Some_0)
            } else {
                pass == chain.last()
            }
        }
    }
}

/// The node that draws tile debug outlines and the debug text over the frame.
pub struct DebugPassNode {}

impl DebugPassNode {
    pub fn new() -> (r: Self) {
        DebugPassNode {}
    }

    /// The node reads no input slot.
    pub fn input(&self) -> (r: Vec<SlotInfo>)
        ensures
            r@.len() == 0,
    {
        Vec::new()
    }

    /// Opens a pass on the render target, sorts the tile phase, draws every tile debug item
    /// in that order and then the debug text, and empties the tile phase. A missing tile phase
    /// or text renderer is skipped; without a render target nothing is recorded.
    pub fn run(&self, ctx: &mut RenderContext, resources: &RenderResources, world: &mut World) -> (r:
        Result<(), NodeRunError>)
        ensures
            debug_pass_post(resources.render_target, *old(world), *old(ctx), *final(world), *final(ctx), r),
    {
        let taken = world.tile_debug_phase.take();
        let target = match resources.render_target {
            Some(t) => t,
            None => {
                if let Some(mut phase) = taken {
                    phase.clear();
                    world.tile_debug_phase = Some(phase);
                }
                return Ok(());
            },
        };
        let mut pass = TrackedRenderPass::new(target);
        let ghost mut chain: Seq<TrackedRenderPass> = seq![pass];
        let ghost mut sorted: Seq<TileDebugItem> = Seq::empty();
        if let Some(mut items) = taken {
            items.sort();
            proof {
                sorted = items.items@;
            }
            let mut k: usize = 0;
            while k < items.items.len()
                invariant
                    k <= items.items@.len(),
                    items.items@ == sorted,
                    pass.target == target,
                    chain.len() == k + 1,
                    chain[0].commands@.len() == 0 && chain[0].pipeline is None
                        && chain[0].bind_group is None && chain[0].vertex_buffer is None
                        && chain[0].target == target,
                    chain.last() == pass,
                    forall|i: int|
                        0 <= i < k ==> tile_drawn(#[trigger] chain[i], chain[i + 1], sorted[i]),
                decreases items.items@.len() - k,
            {
                items.items[k].draw(&mut pass);
                proof {
                    chain = chain.push(pass);
                }
                k = k + 1;
            }
            assert(draws_tiles(sorted, chain));
            items.clear();
            world.tile_debug_phase = Some(items);
        } else {
            proof {
                let p: Seq<int> = Seq::empty();
                assert(crate::phase::stable_witness(tile_items(*old(world)), sorted, p));
            }
            assert(draws_tiles(sorted, chain));
        }
        let ghost tiles_done = pass;
        if let Some(text_res) = &world.text_renderer {
            if let Some(renderer) = &text_res.renderer {
                renderer.draw(&mut pass);
            }
        }
        proof {
            if world.text_renderer is Some && world.text_renderer->Some_0.renderer is Some {
                assert(debug_text_drawn(tiles_done, pass, world.text_renderer->Some_0.renderer->Some_0));
            }
            assert(crate::phase::is_stable_sort_of(tile_items(*old(world)), sorted));
        }
        ctx.passes.push(pass);
        Ok(())
    }
}

} // verus!
