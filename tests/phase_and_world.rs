use maplibre_render::overlay::{OverlayItem, OverlayKind};
use maplibre_render::pass::{RenderCommand, TrackedRenderPass};
use maplibre_render::phase::RenderPhase;
use maplibre_render::world::World;

fn item(z: u32, source: usize) -> OverlayItem {
    OverlayItem { kind: OverlayKind::Text, z, source }
}

#[test]
fn sort_is_stable_by_key() {
    let mut phase = RenderPhase::new();
    phase.add(item(5, 0));
    phase.add(item(1, 1));
    phase.add(item(5, 2));
    phase.add(item(3, 3));
    phase.sort();
    let keys: Vec<u32> = phase.items.iter().map(|i| i.z).collect();
    assert_eq!(keys, vec![1, 3, 5, 5]);
    let sources: Vec<usize> = phase.items.iter().map(|i| i.source).collect();
    assert_eq!(sources, vec![1, 3, 0, 2]);
}

#[test]
fn sort_of_empty_and_equal_keys() {
    let mut empty: RenderPhase<OverlayItem> = RenderPhase::new();
    empty.sort();
    assert_eq!(empty.len(), 0);
    let mut same = RenderPhase::new();
    for s in 0..5 {
        same.add(item(7, s));
    }
    same.sort();
    let sources: Vec<usize> = same.items.iter().map(|i| i.source).collect();
    assert_eq!(sources, vec![0, 1, 2, 3, 4]);
}

#[test]
fn sort_descending_input() {
    let mut phase = RenderPhase::new();
    for (s, z) in [9u32, 7, 4, 4, 0].iter().enumerate() {
        phase.add(item(*z, s));
    }
    phase.sort();
    let pairs: Vec<(u32, usize)> = phase.items.iter().map(|i| (i.z, i.source)).collect();
    assert_eq!(pairs, vec![(0, 4), (4, 2), (4, 3), (7, 1), (9, 0)]);
}

#[test]
fn clear_empties_phase() {
    let mut phase = RenderPhase::new();
    phase.add(item(1, 0));
    phase.add(item(2, 1));
    phase.clear();
    assert_eq!(phase.len(), 0);
}

#[test]
fn init_twice_keeps_one_phase() {
    let mut world = World::new();
    world.init_overlay_phase();
    world.overlay_phase.as_mut().unwrap().add(item(3, 0));
    world.init_overlay_phase();
    assert_eq!(world.overlay_phase.as_ref().unwrap().len(), 1);
    world.init_overlay_phase();
    assert_eq!(world.overlay_phase.as_ref().unwrap().items[0].z, 3);
}

#[test]
fn init_on_empty_world_creates_empty_phase() {
    let mut world = World::new();
    assert!(world.overlay_phase.is_none());
    world.init_overlay_phase();
    assert_eq!(world.overlay_phase.as_ref().unwrap().len(), 0);
}

#[test]
fn tracked_pass_elides_repeated_state() {
    let mut pass = TrackedRenderPass::new(1);
    pass.set_render_pipeline(4);
    pass.set_render_pipeline(4);
    pass.set_bind_group(0, 9);
    pass.set_bind_group(0, 9);
    pass.set_vertex_buffer(0, 2);
    pass.set_vertex_buffer(0, 2);
    pass.set_render_pipeline(5);
    pass.draw(6, 1);
    assert_eq!(pass.commands.len(), 5);
    assert!(matches!(pass.commands[0], RenderCommand::SetPipeline { pipeline: 4 }));
    assert!(matches!(pass.commands[1], RenderCommand::SetBindGroup { index: 0, bind_group: 9 }));
    assert!(matches!(pass.commands[2], RenderCommand::SetVertexBuffer { slot: 0, buffer: 2 }));
    assert!(matches!(pass.commands[3], RenderCommand::SetPipeline { pipeline: 5 }));
    assert!(matches!(pass.commands[4], RenderCommand::Draw { vertex_count: 6, instance_count: 1 }));
}
