use vstd::prelude::*;
use crate::text::{Color, TextVertex};

verus! {

/// One call recorded into a render pass. GPU objects are named by handles that the
/// owner of the device hands out.
pub enum RenderCommand {
    SetPipeline { pipeline: u32 },
    SetBindGroup { index: u32, bind_group: u32 },
    SetVertexBuffer { slot: u32, buffer: u32 },
    /// Upload of text vertices into `buffer` before the next draw.
    WriteVertices { buffer: u32, vertices: Vec<TextVertex>, color: Color },
    Draw { vertex_count: u32, instance_count: u32 },
}

/// A render pass recorder that drops state-binding calls which would bind what is
/// already bound.
pub struct TrackedRenderPass {
    pub target: u32,
    pub commands: Vec<RenderCommand>,
    pub pipeline: Option<u32>,
    pub bind_group: Option<(u32, u32)>,
    pub vertex_buffer: Option<(u32, u32)>,
}

impl TrackedRenderPass {
    /// Opens a pass that draws into the texture view `target`.
    pub fn new(target: u32) -> (r: Self)
        ensures
            r.target == target,
            r.commands@.len() == 0,
            r.pipeline is None,
            r.bind_group is None,
            r.vertex_buffer is None,
    {
        TrackedRenderPass {
            target,
            commands: Vec::new(),
            pipeline: None,
            bind_group: None,
            vertex_buffer: None,
        }
    }

    pub fn set_render_pipeline(&mut self, pipeline: u32)
        ensures
            final(self).target == old(self).target,
            final(self).pipeline == Some(pipeline),
            final(self).bind_group == old(self).bind_group,
            final(self).vertex_buffer == old(self).vertex_buffer,
            old(self).pipeline == Some(pipeline) ==> final(self).commands@ == old(self).commands@,
            old(self).pipeline != Some(pipeline) ==> final(self).commands@ == old(self).commands@.push(
                (RenderCommand::SetPipeline { pipeline }),
            ),
    {
        if self.pipeline != Some(pipeline) {
            self.commands.push(RenderCommand::SetPipeline { pipeline });
            self.pipeline = Some(pipeline);
        }
    }

    pub fn set_bind_group(&mut self, index: u32, bind_group: u32)
        ensures
            final(self).target == old(self).target,
            final(self).pipeline == old(self).pipeline,
            final(self).bind_group == Some((index, bind_group)),
            final(self).vertex_buffer == old(self).vertex_buffer,
            old(self).bind_group == Some((index, bind_group)) ==> final(self).commands@ == old(self).commands@,
            old(self).bind_group != Some((index, bind_group)) ==> final(self).commands@ == old(self).commands@.push(
                (RenderCommand::SetBindGroup { index, bind_group }),
            ),
    {
        if self.bind_group != Some((index, bind_group)) {
            self.commands.push(RenderCommand::SetBindGroup { index, bind_group });
            self.bind_group = Some((index, bind_group));
        }
    }

    pub fn set_vertex_buffer(&mut self, slot: u32, buffer: u32)
        ensures
            final(self).target == old(self).target,
            final(self).pipeline == old(self).pipeline,
            final(self).bind_group == old(self).bind_group,
            final(self).vertex_buffer == Some((slot, buffer)),
            old(self).vertex_buffer == Some((slot, buffer)) ==> final(self).commands@ == old(self).commands@,
            old(self).vertex_buffer != Some((slot, buffer)) ==> final(self).commands@ == old(self).commands@.push(
                (RenderCommand::SetVertexBuffer { slot, buffer }),
            ),
    {
        if self.vertex_buffer != Some((slot, buffer)) {
            self.commands.push(RenderCommand::SetVertexBuffer { slot, buffer });
            self.vertex_buffer = Some((slot, buffer));
        }
    }

    /// Records new contents of a vertex buffer.
    pub fn write_vertices(&mut self, buffer: u32, vertices: Vec<TextVertex>, color: Color)
        ensures
            final(self).target == old(self).target,
            final(self).pipeline == old(self).pipeline,
            final(self).bind_group == old(self).bind_group,
            final(self).vertex_buffer == old(self).vertex_buffer,
            final(self).commands@ == old(self).commands@.push(
                (RenderCommand::WriteVertices { buffer, vertices, color }),
            ),
    {
        self.commands.push(RenderCommand::WriteVertices { buffer, vertices, color });
    }

    pub fn draw(&mut self, vertex_count: u32, instance_count: u32)
        ensures
            final(self).target == old(self).target,
            final(self).pipeline == old(self).pipeline,
            final(self).bind_group == old(self).bind_group,
            final(self).vertex_buffer == old(self).vertex_buffer,
            final(self).commands@ == old(self).commands@.push(
                (RenderCommand::Draw { vertex_count, instance_count }),
            ),
    {
        self.commands.push(RenderCommand::Draw { vertex_count, instance_count });
    }
}

/// The per-frame execution context: the passes recorded so far, in order.
pub struct RenderContext {
    pub passes: Vec<TrackedRenderPass>,
}

impl RenderContext {
    pub fn new() -> (r: Self)
        ensures
            r.passes@.len() == 0,
    {
        RenderContext { passes: Vec::new() }
    }
}

/// Why a node could not complete its work.
#[derive(Clone, Copy, Debug, PartialEq, Eq, Structural)]
pub enum NodeRunError {
    /// A resource that the node requires is not in the world.
    MissingResource,
    /// A driver named a sub-graph that does not exist.
    MissingSubGraph,
    /// The graph's edges form a cycle.
    Cycle,
    /// An edge names a node index that the graph does not have.
    InvalidEdge,
    /// A text has more characters than one draw call can cover.
    TextTooLong,
}

} // verus!
