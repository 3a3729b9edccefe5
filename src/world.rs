use vstd::prelude::*;
use crate::debug::{LabelResource, TextRendererResource, TileDebugItem};
use crate::overlay::{OverlayItem, OverlayTextRenderer};
use crate::phase::RenderPhase;
use crate::text::OverlayText;

verus! {

/// GPU resources of the frame: the texture view that passes draw into, once it exists.
pub struct RenderResources {
    pub render_target: Option<u32>,
}

/// The registry of resources that systems and nodes share. Each resource type has one
/// slot, so at most one instance of it exists; an empty slot means it was never inserted.
pub struct World {
    pub overlay_phase: Option<RenderPhase<OverlayItem>>,
    pub tile_debug_phase: Option<RenderPhase<TileDebugItem>>,
    pub overlay_texts: Option<Vec<OverlayText>>,
    pub overlay_text_renderer: Option<OverlayTextRenderer>,
    pub text_renderer: Option<TextRendererResource>,
    pub labels: Option<LabelResource>,
}

/// `after` is `before` after `init` of the overlay phase: a phase that was present is
/// kept as it was, an absent one becomes an empty phase, and no other slot changes.
pub open spec fn overlay_phase_initialised(before: World, after: World) -> bool {
    &&& after.overlay_phase is Some
    &&& before.overlay_phase is Some ==> after.overlay_phase == before.overlay_phase
    &&& before.overlay_phase is None ==> after.overlay_phase->Some_0.items@.len() == 0
    &&& after.tile_debug_phase == before.tile_debug_phase
    &&& after.overlay_texts == before.overlay_texts
    &&& after.overlay_text_renderer == before.overlay_text_renderer
    &&& after.text_renderer == before.text_renderer
    &&& after.labels == before.labels
}

/// Calling `init` twice leaves exactly the phase that the first call left, and a phase
/// that was present before is never reset.
pub proof fn init_is_idempotent(w0: World, w1: World, w2: World)
    requires
        overlay_phase_initialised(w0, w1),
        overlay_phase_initialised(w1, w2),
    ensures
        w2 == w1,
        w2.overlay_phase is Some,
        w0.overlay_phase is Some ==> w2.overlay_phase == w0.overlay_phase,
{
}

impl World {
    /// A world that holds no resource.
    pub fn new() -> (r: Self)
        ensures
            r.overlay_phase is None,
            r.tile_debug_phase is None,
            r.overlay_texts is None,
            r.overlay_text_renderer is None,
            r.text_renderer is None,
            r.labels is None,
    {
        World {
            overlay_phase: None,
            tile_debug_phase: None,
            overlay_texts: None,
            overlay_text_renderer: None,
            text_renderer: None,
            labels: None,
        }
    }

    /// Inserts an empty overlay phase unless one is present.
    pub fn init_overlay_phase(&mut self)
        ensures
            overlay_phase_initialised(*old(self), *final(self)),
    {
        if self.overlay_phase.is_none() {
            self.overlay_phase = Some(RenderPhase::new());
        }
    }
}

} // verus!
