use maplibre_render::debug::{DebugPassNode, TextRenderer, TextRendererResource, TileDebugItem};
use maplibre_render::font::BMFont;
use maplibre_render::graph::{Node, RenderGraph, RenderGraphError, MAIN_PASS_DRIVER};
use maplibre_render::overlay::{
    extract_text, queue_overlay_system, render_overlay, OverlayItem, OverlayKind, OverlayPassNode,
    OverlayTextRenderer, RenderGraphContext, OVERLAY_GRAPH, TEXT_OVERLAY_Z,
};
use maplibre_render::pass::{NodeRunError, RenderCommand, RenderContext};
use maplibre_render::phase::RenderPhase;
use maplibre_render::schedule::{overlay_sub_graph, OverlayPlugin, RenderStageLabel, Schedule, SystemStage, System};
use maplibre_render::text::{Color, OverlayText, Point, TextVertex};
use maplibre_render::world::{RenderResources, World};

const FONT: &str = "common lineHeight=30 base=24 scaleW=256 scaleH=128\nchar id=65 x=16 y=32 width=10 height=20 xoffset=0 yoffset=0 xadvance=12\n";

fn overlay_renderer() -> OverlayTextRenderer {
    OverlayTextRenderer {
        font: BMFont::from_fnt(FONT).unwrap(),
        screen_w: 800,
        screen_h: 600,
        pipeline: 1,
        bind_group: 2,
        vertex_buffer: 3,
    }
}

fn text_a() -> OverlayText {
    OverlayText {
        text: vec!['A'],
        position: Point { x: 10, y: 10 },
        color: Color { r: 255, g: 255, b: 255, a: 255 },
        size: 16,
    }
}

fn overlay_world(texts: Vec<OverlayText>) -> World {
    let mut world = World::new();
    world.init_overlay_phase();
    world.overlay_texts = Some(texts);
    world.overlay_text_renderer = Some(overlay_renderer());
    world
}

#[test]
fn node_names_are_unique() {
    let mut g = RenderGraph::new();
    assert_eq!(g.add_node("a", Node::Marker), Ok(0));
    assert_eq!(g.add_node("b", Node::Marker), Ok(1));
    assert_eq!(g.add_node("a", Node::Marker), Err(RenderGraphError::DuplicateNode));
    assert_eq!(g.names.len(), 2);
}

#[test]
fn edge_to_unknown_node_is_rejected() {
    let mut g = RenderGraph::new();
    g.add_node("a", Node::Marker).unwrap();
    assert_eq!(g.add_node_edge("a", "zz"), Err(RenderGraphError::InvalidNode));
    assert_eq!(g.add_node_edge("zz", "a"), Err(RenderGraphError::InvalidNode));
    assert!(g.edges.is_empty());
}

#[test]
fn topological_order_follows_edges() {
    let mut g = RenderGraph::new();
    for n in ["c", "b", "a"] {
        g.add_node(n, Node::Marker).unwrap();
    }
    g.add_node_edge("a", "b").unwrap();
    g.add_node_edge("b", "c").unwrap();
    assert_eq!(g.topological_order(), Some(vec![2, 1, 0]));
}

#[test]
fn cycle_is_rejected_before_running() {
    let mut g = RenderGraph::new();
    g.add_node("debug", Node::DebugPass(DebugPassNode::new())).unwrap();
    g.add_node("a", Node::Marker).unwrap();
    g.add_node_edge("debug", "a").unwrap();
    g.add_node_edge("a", "debug").unwrap();
    assert_eq!(g.topological_order(), None);
    let mut ctx = RenderContext::new();
    let mut world = World::new();
    let res = g.run(vec![Some(1)], &mut ctx, &RenderResources { render_target: Some(1) }, &mut world);
    assert_eq!(res, Err(NodeRunError::Cycle));
    assert!(ctx.passes.is_empty());
}

#[test]
fn self_loop_is_a_cycle() {
    let mut g = RenderGraph::new();
    g.add_node("a", Node::Marker).unwrap();
    g.add_node_edge("a", "a").unwrap();
    assert_eq!(g.topological_order(), None);
}

#[test]
fn sub_graph_names_are_unique() {
    let mut g = RenderGraph::new();
    assert_eq!(g.add_sub_graph("s", RenderGraph::new()), Ok(()));
    assert_eq!(g.add_sub_graph("s", RenderGraph::new()), Err(RenderGraphError::DuplicateSubGraph));
    assert_eq!(g.find_sub_graph(&"s".to_string()), Some(0));
}

#[test]
fn extraction_adds_one_item_per_text() {
    let world = overlay_world(vec![text_a(), text_a()]);
    let mut phase = RenderPhase::new();
    extract_text(&world, &mut phase);
    assert_eq!(phase.len(), 2);
    assert_eq!(phase.items[1], OverlayItem { kind: OverlayKind::Text, z: TEXT_OVERLAY_Z, source: 1 });
}

#[test]
fn queue_without_phase_is_missing_resource() {
    let mut world = World::new();
    assert_eq!(queue_overlay_system(&mut world), Err(NodeRunError::MissingResource));
}

fn check_quad(verts: &[TextVertex]) {
    assert_eq!(verts.len(), 6);
    let expected = [(10, 10, 16, 32), (20, 10, 26, 32), (20, 30, 26, 52), (10, 10, 16, 32), (20, 30, 26, 52), (10, 30, 16, 52)];
    for (v, e) in verts.iter().zip(expected.iter()) {
        assert_eq!((v.x, v.y, v.u, v.v), (e.0 as i64, e.1 as i64, e.2 as u64, e.3 as u64));
    }
    let (u1, v1) = (verts[0].u as f32 / 256.0, verts[0].v as f32 / 128.0);
    let (u2, v2) = (verts[2].u as f32 / 256.0, verts[2].v as f32 / 128.0);
    assert_eq!((u1, v1, u2 - u1, v2 - v1), (16.0 / 256.0, 32.0 / 128.0, 10.0 / 256.0, 20.0 / 128.0));
    let ndc_x = (verts[0].x as f32 / 800.0) * 2.0 - 1.0;
    let ndc_y = 1.0 - (verts[0].y as f32 / 600.0) * 2.0;
    assert!((ndc_x - (-0.975)).abs() < 1e-6);
    assert!((ndc_y - (1.0 - 20.0 / 600.0)).abs() < 1e-6);
}

#[test]
fn overlay_text_end_to_end() {
    let mut world = overlay_world(vec![text_a()]);
    assert_eq!(queue_overlay_system(&mut world), Ok(()));
    assert_eq!(world.overlay_phase.as_ref().unwrap().len(), 1);
    let mut ctx = RenderContext::new();
    let graph_ctx = RenderGraphContext { inputs: vec![Some(7)] };
    assert_eq!(OverlayPassNode::new().run(&graph_ctx, &mut ctx, &mut world), Ok(()));
    assert_eq!(ctx.passes.len(), 1);
    let pass = &ctx.passes[0];
    assert_eq!(pass.target, 7);
    let draws = pass.commands.iter().filter(|c| matches!(c, RenderCommand::Draw { .. })).count();
    assert_eq!(draws, 1);
    assert_eq!(pass.commands.len(), 5);
    assert!(matches!(pass.commands[0], RenderCommand::SetPipeline { pipeline: 1 }));
    assert!(matches!(pass.commands[1], RenderCommand::SetBindGroup { index: 0, bind_group: 2 }));
    match &pass.commands[2] {
        RenderCommand::WriteVertices { buffer, vertices, .. } => {
            assert_eq!(*buffer, 3);
            check_quad(vertices);
        }
        _ => panic!("expected a vertex upload"),
    }
    assert!(matches!(pass.commands[3], RenderCommand::SetVertexBuffer { slot: 0, buffer: 3 }));
    assert!(matches!(pass.commands[4], RenderCommand::Draw { vertex_count: 6, instance_count: 1 }));
    assert_eq!(world.overlay_phase.as_ref().unwrap().len(), 0);
}

#[test]
fn overlay_pass_clears_phase_for_any_count() {
    for n in [0usize, 1, 3] {
        let mut world = overlay_world((0..n).map(|_| text_a()).collect());
        queue_overlay_system(&mut world).unwrap();
        assert_eq!(world.overlay_phase.as_ref().unwrap().len(), n);
        let mut ctx = RenderContext::new();
        let graph_ctx = RenderGraphContext { inputs: vec![Some(1)] };
        OverlayPassNode::new().run(&graph_ctx, &mut ctx, &mut world).unwrap();
        assert_eq!(world.overlay_phase.as_ref().unwrap().len(), 0);
        let draws = ctx.passes[0].commands.iter().filter(|c| matches!(c, RenderCommand::Draw { .. })).count();
        assert_eq!(draws, n);
    }
}

#[test]
fn overlay_pass_without_input_empties_phase() {
    let mut world = overlay_world(vec![text_a()]);
    queue_overlay_system(&mut world).unwrap();
    let mut ctx = RenderContext::new();
    let graph_ctx = RenderGraphContext { inputs: vec![] };
    assert_eq!(OverlayPassNode::new().run(&graph_ctx, &mut ctx, &mut world), Ok(()));
    assert!(ctx.passes.is_empty());
    assert_eq!(world.overlay_phase.as_ref().unwrap().len(), 0);
}

#[test]
fn overlay_pass_without_renderer_fails() {
    let mut world = overlay_world(vec![text_a()]);
    world.overlay_text_renderer = None;
    queue_overlay_system(&mut world).unwrap();
    let mut ctx = RenderContext::new();
    let graph_ctx = RenderGraphContext { inputs: vec![Some(1)] };
    assert_eq!(OverlayPassNode::new().run(&graph_ctx, &mut ctx, &mut world), Err(NodeRunError::MissingResource));
    assert!(ctx.passes.is_empty());
}

fn tile_world() -> World {
    let mut world = World::new();
    let mut tiles = RenderPhase::new();
    tiles.add(TileDebugItem { pipeline: 8, vertex_buffer: 4, vertex_count: 24, z: 0 });
    world.tile_debug_phase = Some(tiles);
    world
}

#[test]
fn debug_pass_without_text_resource_draws_tiles_only() {
    let mut world = tile_world();
    let mut ctx = RenderContext::new();
    let res = DebugPassNode::new().run(&mut ctx, &RenderResources { render_target: Some(5) }, &mut world);
    assert_eq!(res, Ok(()));
    assert_eq!(ctx.passes.len(), 1);
    let cmds = &ctx.passes[0].commands;
    assert_eq!(cmds.len(), 3);
    assert!(matches!(cmds[2], RenderCommand::Draw { vertex_count: 24, instance_count: 1 }));
    assert_eq!(world.tile_debug_phase.as_ref().unwrap().len(), 0);
}

#[test]
fn debug_pass_draws_tiles_in_key_order() {
    let mut world = World::new();
    let mut tiles = RenderPhase::new();
    tiles.add(TileDebugItem { pipeline: 8, vertex_buffer: 4, vertex_count: 10, z: 2 });
    tiles.add(TileDebugItem { pipeline: 8, vertex_buffer: 4, vertex_count: 20, z: 1 });
    world.tile_debug_phase = Some(tiles);
    let mut ctx = RenderContext::new();
    DebugPassNode::new().run(&mut ctx, &RenderResources { render_target: Some(5) }, &mut world).unwrap();
    let counts: Vec<u32> = ctx.passes[0]
        .commands
        .iter()
        .filter_map(|c| match c {
            RenderCommand::Draw { vertex_count, .. } => Some(*vertex_count),
            _ => None,
        })
        .collect();
    assert_eq!(counts, vec![20, 10]);
    assert_eq!(world.tile_debug_phase.as_ref().unwrap().len(), 0);
}

#[test]
fn debug_pass_draws_text_after_tiles() {
    let mut world = tile_world();
    let mut renderer = TextRenderer::new(BMFont::from_fnt(FONT).unwrap(), 11, 12, 13, 800, 600);
    let uploaded = renderer.set_text(&vec!['A', 'A'], 0, 0);
    assert_eq!(uploaded.map(|v| v.len()), Some(12));
    assert_eq!(renderer.vertex_count, 12);
    world.text_renderer = Some(TextRendererResource { renderer: Some(renderer) });
    let mut ctx = RenderContext::new();
    DebugPassNode::new().run(&mut ctx, &RenderResources { render_target: Some(5) }, &mut world).unwrap();
    let cmds = &ctx.passes[0].commands;
    assert!(matches!(cmds[cmds.len() - 1], RenderCommand::Draw { vertex_count: 12, instance_count: 1 }));
    assert_eq!(cmds.len(), 7);
}

#[test]
fn debug_pass_without_target_records_nothing() {
    let mut world = tile_world();
    let mut ctx = RenderContext::new();
    assert_eq!(DebugPassNode::new().run(&mut ctx, &RenderResources { render_target: None }, &mut world), Ok(()));
    assert!(ctx.passes.is_empty());
}

#[test]
fn set_text_without_glyphs_clears_count() {
    let mut renderer = TextRenderer::new(BMFont::from_fnt(FONT).unwrap(), 1, 2, 3, 10, 10);
    assert!(renderer.set_text(&vec!['A'], 0, 0).is_some());
    assert!(renderer.set_text(&vec!['q'], 0, 0).is_none());
    assert_eq!(renderer.vertex_count, 0);
}

#[test]
fn plugin_needs_main_pass_driver() {
    let mut schedule = Schedule::new();
    let mut world = World::new();
    let mut graph = RenderGraph::new();
    let res = OverlayPlugin::new().build(&mut schedule, &mut world, &mut graph);
    assert_eq!(res, Err(RenderGraphError::InvalidNode));
    assert!(schedule.queue.systems.is_empty());
}

#[test]
fn plugin_registers_and_frame_draws_overlay() {
    let mut schedule = Schedule::new();
    let mut world = World::new();
    let mut graph = RenderGraph::new();
    graph.add_node(MAIN_PASS_DRIVER, Node::Marker).unwrap();
    assert_eq!(OverlayPlugin::new().build(&mut schedule, &mut world, &mut graph), Ok(()));
    assert_eq!(schedule.queue.systems, vec![System::QueueOverlay]);
    assert_eq!(graph.find_sub_graph(&OVERLAY_GRAPH.to_string()), Some(0));
    assert_eq!(graph.edges, vec![(0, 1)]);
    assert_eq!(
        OverlayPlugin::new().build(&mut schedule, &mut world, &mut graph),
        Err(RenderGraphError::DuplicateSubGraph)
    );
    world.overlay_texts = Some(vec![text_a()]);
    world.overlay_text_renderer = Some(overlay_renderer());
    let mut ctx = RenderContext::new();
    let res = schedule.run(&graph, &mut ctx, &RenderResources { render_target: Some(9) }, &mut world);
    assert_eq!(res, Ok(()));
    assert_eq!(ctx.passes.len(), 1);
    assert_eq!(ctx.passes[0].target, 9);
    assert!(matches!(ctx.passes[0].commands[4], RenderCommand::Draw { vertex_count: 6, instance_count: 1 }));
    assert_eq!(world.overlay_phase.as_ref().unwrap().len(), 0);
}

#[test]
fn add_stage_appends_to_labelled_stage() {
    let mut schedule = Schedule::new();
    schedule.add_stage(RenderStageLabel::Queue, SystemStage::new().with_system(System::QueueOverlay));
    schedule.add_stage(RenderStageLabel::Queue, SystemStage::new().with_system(System::QueueOverlay));
    assert_eq!(schedule.queue.systems.len(), 2);
    assert!(schedule.extract.systems.is_empty());
    assert!(schedule.render.systems.is_empty());
}

#[test]
fn render_overlay_sorts_draws_and_clears() {
    let mut world = overlay_world(vec![text_a(), text_a()]);
    queue_overlay_system(&mut world).unwrap();
    world.overlay_phase.as_mut().unwrap().items[0].z = 20000;
    let mut ctx = RenderContext::new();
    assert_eq!(render_overlay(&mut ctx, &mut world, 3), Ok(()));
    assert_eq!(ctx.passes[0].target, 3);
    let draws = ctx.passes[0].commands.iter().filter(|c| matches!(c, RenderCommand::Draw { .. })).count();
    assert_eq!(draws, 2);
    assert_eq!(world.overlay_phase.as_ref().unwrap().len(), 0);
    let mut empty = World::new();
    let mut ctx = RenderContext::new();
    assert_eq!(render_overlay(&mut ctx, &mut empty, 3), Err(NodeRunError::MissingResource));
    assert!(ctx.passes.is_empty());
}

#[test]
fn failed_overlay_draw_still_empties_phase() {
    let mut world = overlay_world(vec![text_a()]);
    queue_overlay_system(&mut world).unwrap();
    world.overlay_texts = Some(vec![]);
    let mut ctx = RenderContext::new();
    assert_eq!(render_overlay(&mut ctx, &mut world, 3), Err(NodeRunError::MissingResource));
    assert!(ctx.passes.is_empty());
    assert_eq!(world.overlay_phase.as_ref().unwrap().len(), 0);
}

#[test]
fn sub_graph_must_bind_declared_inputs() {
    let mut sub = RenderGraph::new();
    sub.add_node("pass", Node::OverlayPass(OverlayPassNode::new())).unwrap();
    let mut g = RenderGraph::new();
    assert_eq!(g.add_sub_graph("s", sub), Err(RenderGraphError::MissingInputSlot));
    assert!(g.sub_graphs.is_empty());
    let built = overlay_sub_graph();
    assert_eq!(built.input_slots.len(), 1);
    assert_eq!(built.edges, vec![(1, 0)]);
    assert_eq!(OverlayPassNode::new().input().len(), 1);
}

#[test]
fn failed_build_leaves_graph_unchanged() {
    let mut schedule = Schedule::new();
    let mut world = World::new();
    let mut graph = RenderGraph::new();
    graph.add_node("other", Node::Marker).unwrap();
    assert_eq!(OverlayPlugin::new().build(&mut schedule, &mut world, &mut graph), Err(RenderGraphError::InvalidNode));
    assert!(graph.sub_graphs.is_empty());
    assert_eq!(graph.names.len(), 1);
    assert!(world.overlay_phase.is_some());
}

#[test]
fn frame_with_cyclic_graph_is_rejected() {
    let schedule = Schedule::new();
    let mut graph = RenderGraph::new();
    for n in ["a", "b", "c"] {
        graph.add_node(n, Node::Marker).unwrap();
    }
    graph.add_node_edge("a", "b").unwrap();
    graph.add_node_edge("b", "c").unwrap();
    graph.add_node_edge("c", "a").unwrap();
    let mut world = World::new();
    let mut ctx = RenderContext::new();
    let res = schedule.run(&graph, &mut ctx, &RenderResources { render_target: Some(1) }, &mut world);
    assert_eq!(res, Err(NodeRunError::Cycle));
    assert!(ctx.passes.is_empty());
}

#[test]
fn frame_without_overlay_phase_fails_in_queue() {
    let mut schedule = Schedule::new();
    schedule.add_stage(RenderStageLabel::Queue, SystemStage::new().with_system(System::QueueOverlay));
    let graph = RenderGraph::new();
    let mut world = World::new();
    let mut ctx = RenderContext::new();
    let res = schedule.run(&graph, &mut ctx, &RenderResources { render_target: Some(1) }, &mut world);
    assert_eq!(res, Err(NodeRunError::MissingResource));
}

#[test]
fn overlay_pass_draws_in_stable_key_order() {
    let texts: Vec<OverlayText> = (1..=4)
        .map(|n| OverlayText { text: vec!['A'; n], ..text_a() })
        .collect();
    let mut world = overlay_world(texts);
    queue_overlay_system(&mut world).unwrap();
    for (item, z) in world.overlay_phase.as_mut().unwrap().items.iter_mut().zip([5u32, 1, 5, 3]) {
        item.z = z;
    }
    let mut ctx = RenderContext::new();
    let graph_ctx = RenderGraphContext { inputs: vec![Some(1)] };
    OverlayPassNode::new().run(&graph_ctx, &mut ctx, &mut world).unwrap();
    let counts: Vec<u32> = ctx.passes[0]
        .commands
        .iter()
        .filter_map(|c| match c {
            RenderCommand::Draw { vertex_count, .. } => Some(*vertex_count),
            _ => None,
        })
        .collect();
    assert_eq!(counts, vec![12, 24, 6, 18]);
}
