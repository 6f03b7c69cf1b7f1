use bevy_ecs::world::World;
use render_graph::context::{MemoryResourceContext, ResourceContext};
use render_graph::graph::{GraphError, RenderGraph};
use render_graph::node::{NodeKind, RecordingSink, TextureNode, TextureReadoutNode};
use render_graph::resource::{
    Extent3d, TextureDescriptor, TextureDimension, TextureFormat, TEXTURE_USAGE_COPY_SRC,
    TEXTURE_USAGE_OUTPUT_ATTACHMENT,
};

fn descriptor(width: u32, height: u32) -> TextureDescriptor {
    TextureDescriptor {
        size: Extent3d {
            width,
            height,
            depth: 1,
        },
        mip_level_count: 1,
        sample_count: 1,
        dimension: TextureDimension::D2,
        format: TextureFormat::Rgba8UnormSrgb,
        usage: TEXTURE_USAGE_COPY_SRC | TEXTURE_USAGE_OUTPUT_ATTACHMENT,
    }
}

fn producer(width: u32, height: u32) -> NodeKind<RecordingSink> {
    NodeKind::Texture(TextureNode::new(descriptor(width, height)))
}

fn readout(width: u32, height: u32) -> NodeKind<RecordingSink> {
    NodeKind::TextureReadout(TextureReadoutNode::new(
        descriptor(width, height),
        RecordingSink::new(),
    ))
}

fn position(order: &[usize], v: usize) -> usize {
    order.iter().position(|&x| x == v).expect("node missing from order")
}

#[test]
fn order_respects_every_edge() {
    let mut graph: RenderGraph<RecordingSink> = RenderGraph::new();
    // insert in an order that disagrees with the dependencies
    graph.add_node("sink".to_string(), readout(8, 8)).unwrap();
    graph.add_node("mid".to_string(), producer(8, 8)).unwrap();
    graph.add_node("root".to_string(), producer(8, 8)).unwrap();
    graph.add_node_edge("root", "mid").unwrap();
    graph.add_slot_edge("mid", "texture", "sink", "texture").unwrap();
    let order = graph.execution_order().unwrap();
    assert_eq!(order.len(), 3);
    // sink = 0, mid = 1, root = 2 by insertion
    assert!(position(&order, 2) < position(&order, 1));
    assert!(position(&order, 1) < position(&order, 0));
}

#[test]
fn independent_chains_keep_insertion_order() {
    let mut graph: RenderGraph<RecordingSink> = RenderGraph::new();
    for name in ["a1", "a2", "b1", "b2", "c1", "c2"] {
        graph.add_node(name.to_string(), producer(4, 4)).unwrap();
    }
    graph.add_node_edge("a1", "a2").unwrap();
    graph.add_node_edge("b1", "b2").unwrap();
    graph.add_node_edge("c1", "c2").unwrap();
    let order = graph.execution_order().unwrap();
    assert_eq!(order, vec![0, 1, 2, 3, 4, 5]);
}

#[test]
fn cycle_is_rejected() {
    let mut graph: RenderGraph<RecordingSink> = RenderGraph::new();
    graph.add_node("x".to_string(), producer(4, 4)).unwrap();
    graph.add_node("y".to_string(), producer(4, 4)).unwrap();
    graph.add_node_edge("x", "y").unwrap();
    graph.add_node_edge("y", "x").unwrap();
    assert_eq!(graph.execution_order(), Err(GraphError::CycleDetected));
}

#[test]
fn self_loop_is_rejected() {
    let mut graph: RenderGraph<RecordingSink> = RenderGraph::new();
    graph.add_node("x".to_string(), producer(4, 4)).unwrap();
    graph.add_node_edge("x", "x").unwrap();
    assert_eq!(graph.execution_order(), Err(GraphError::CycleDetected));
    let world = World::new();
    let mut ctx = MemoryResourceContext::new();
    assert_eq!(
        graph.run_frame(&world, &mut ctx),
        Err(GraphError::CycleDetected)
    );
    // rejected before any node executed
    assert_eq!(ctx.copy_calls(), 0);
    assert_eq!(ctx.buffer_count(), 0);
}

#[test]
fn duplicate_node_name_keeps_first_node() {
    let mut graph: RenderGraph<RecordingSink> = RenderGraph::new();
    graph.add_node("x".to_string(), producer(4, 4)).unwrap();
    assert_eq!(
        graph.add_node("x".to_string(), readout(4, 4)),
        Err(GraphError::DuplicateNodeName)
    );
    match graph.get_node("x") {
        Some(NodeKind::Texture(_)) => {}
        _ => panic!("first node was not retained"),
    }
    assert_eq!(graph.execution_order().unwrap().len(), 1);
}

#[test]
fn add_system_node_shares_namespace() {
    let mut graph: RenderGraph<RecordingSink> = RenderGraph::new();
    graph.add_system_node("x".to_string(), producer(4, 4)).unwrap();
    assert_eq!(
        graph.add_node("x".to_string(), producer(4, 4)),
        Err(GraphError::DuplicateNodeName)
    );
}

#[test]
fn duplicate_inbound_slot_edge_is_rejected_transactionally() {
    let mut graph: RenderGraph<RecordingSink> = RenderGraph::new();
    graph.add_node("p1".to_string(), producer(8, 8)).unwrap();
    graph.add_node("p2".to_string(), producer(8, 8)).unwrap();
    graph.add_node("r".to_string(), readout(8, 8)).unwrap();
    graph.add_slot_edge("p1", "texture", "r", "texture").unwrap();
    assert_eq!(
        graph.add_slot_edge("p2", "texture", "r", "texture"),
        Err(GraphError::SlotAlreadyOccupied)
    );
    // the existing edge still stands: p1 must precede r, p2 is unconstrained
    let order = graph.execution_order().unwrap();
    assert!(position(&order, 0) < position(&order, 2));
}

#[test]
fn unknown_node_and_slot_are_rejected() {
    let mut graph: RenderGraph<RecordingSink> = RenderGraph::new();
    graph.add_node("p".to_string(), producer(8, 8)).unwrap();
    graph.add_node("r".to_string(), readout(8, 8)).unwrap();
    assert_eq!(
        graph.add_slot_edge("ghost", "texture", "r", "texture"),
        Err(GraphError::UnknownNode)
    );
    assert_eq!(
        graph.add_slot_edge("p", "texture", "ghost", "texture"),
        Err(GraphError::UnknownNode)
    );
    assert_eq!(
        graph.add_slot_edge("p", "nosuch", "r", "texture"),
        Err(GraphError::UnknownSlot)
    );
    assert_eq!(
        graph.add_slot_edge("p", "texture", "r", "nosuch"),
        Err(GraphError::UnknownSlot)
    );
    assert_eq!(graph.add_node_edge("p", "ghost"), Err(GraphError::UnknownNode));
    assert_eq!(graph.add_node_edge("ghost", "r"), Err(GraphError::UnknownNode));
}

#[test]
fn repeated_node_edge_is_a_no_op() {
    let mut graph: RenderGraph<RecordingSink> = RenderGraph::new();
    graph.add_node("a".to_string(), producer(4, 4)).unwrap();
    graph.add_node("b".to_string(), producer(4, 4)).unwrap();
    graph.add_node_edge("a", "b").unwrap();
    graph.add_node_edge("a", "b").unwrap();
    assert_eq!(graph.execution_order().unwrap(), vec![0, 1]);
}

#[test]
fn get_node_mut_finds_known_nodes_only() {
    let mut graph: RenderGraph<RecordingSink> = RenderGraph::new();
    graph.add_node("a".to_string(), producer(4, 4)).unwrap();
    assert!(graph.get_node_mut("a").is_some());
    assert!(graph.get_node_mut("b").is_none());
    assert!(graph.get_node("b").is_none());
}

#[test]
fn produce_then_read_back_one_frame() {
    let desc = descriptor(64, 64);
    let mut graph: RenderGraph<RecordingSink> = RenderGraph::new();
    graph.add_node("produce".to_string(), producer(64, 64)).unwrap();
    graph.add_node("read".to_string(), readout(64, 64)).unwrap();
    graph
        .add_slot_edge("produce", "texture", "read", "texture")
        .unwrap();
    graph.add_node_edge("produce", "read").unwrap();
    let world = World::new();
    let mut ctx = MemoryResourceContext::new();
    graph.run_frame(&world, &mut ctx).unwrap();
    let sink = match graph.get_node("read") {
        Some(NodeKind::TextureReadout(n)) => n.reader(),
        _ => panic!("readout node missing"),
    };
    assert_eq!(sink.count(), 1);
    assert!(sink.bytes_len(0) >= 64 * 64 * 4);
    assert_eq!(sink.descriptor_at(0), desc);
    assert_eq!(ctx.copy_calls(), 1);
    assert_eq!(ctx.map_calls(), 1);
    assert_eq!(ctx.unmap_calls(), 1);
    assert_eq!(ctx.buffer_count(), 1);
}

#[test]
fn second_frame_reuses_the_staging_buffer() {
    let mut graph: RenderGraph<RecordingSink> = RenderGraph::new();
    graph.add_node("produce".to_string(), producer(16, 16)).unwrap();
    graph.add_node("read".to_string(), readout(16, 16)).unwrap();
    graph
        .add_slot_edge("produce", "texture", "read", "texture")
        .unwrap();
    let world = World::new();
    let mut ctx = MemoryResourceContext::new();
    graph.run_frame(&world, &mut ctx).unwrap();
    graph.run_frame(&world, &mut ctx).unwrap();
    // one staging buffer serves both frames; the callback ran each frame
    assert_eq!(ctx.buffer_count(), 1);
    assert_eq!(ctx.copy_calls(), 2);
    assert_eq!(ctx.map_calls(), 2);
    assert_eq!(ctx.unmap_calls(), 2);
    let sink = match graph.get_node("read") {
        Some(NodeKind::TextureReadout(n)) => n.reader(),
        _ => panic!("readout node missing"),
    };
    assert_eq!(sink.count(), 2);
    assert_eq!(sink.bytes_len(0), sink.bytes_len(1));
}

#[test]
fn readout_without_producer_is_idle() {
    let mut graph: RenderGraph<RecordingSink> = RenderGraph::new();
    graph.add_node("read".to_string(), readout(16, 16)).unwrap();
    let world = World::new();
    let mut ctx = MemoryResourceContext::new();
    graph.run_frame(&world, &mut ctx).unwrap();
    assert_eq!(ctx.copy_calls(), 0);
    assert_eq!(ctx.map_calls(), 0);
    assert_eq!(ctx.buffer_count(), 0);
    let sink = match graph.get_node("read") {
        Some(NodeKind::TextureReadout(n)) => n.reader(),
        _ => panic!("readout node missing"),
    };
    assert_eq!(sink.count(), 0);
}

#[test]
fn row_padding_inflates_readout_length() {
    // 10 texels per row pad up to 256, so each row carries padding bytes
    let mut graph: RenderGraph<RecordingSink> = RenderGraph::new();
    graph.add_node("produce".to_string(), producer(10, 3)).unwrap();
    graph.add_node("read".to_string(), readout(10, 3)).unwrap();
    graph
        .add_slot_edge("produce", "texture", "read", "texture")
        .unwrap();
    let world = World::new();
    let mut ctx = MemoryResourceContext::new();
    graph.run_frame(&world, &mut ctx).unwrap();
    let sink = match graph.get_node("read") {
        Some(NodeKind::TextureReadout(n)) => n.reader(),
        _ => panic!("readout node missing"),
    };
    assert_eq!(sink.count(), 1);
    // 256-texel aligned rows at 4 bytes each, 3 rows, 1 layer
    assert_eq!(sink.bytes_len(0), 256 * 4 * 3);
}

#[test]
fn slot_edge_by_index_feeds_the_readout() {
    let mut graph: RenderGraph<RecordingSink> = RenderGraph::new();
    graph.add_node("produce".to_string(), producer(16, 16)).unwrap();
    graph.add_node("read".to_string(), readout(16, 16)).unwrap();
    graph.add_slot_edge_by_index("produce", 0, "read", 0).unwrap();
    let world = World::new();
    let mut ctx = MemoryResourceContext::new();
    graph.run_frame(&world, &mut ctx).unwrap();
    let sink = match graph.get_node("read") {
        Some(NodeKind::TextureReadout(n)) => n.reader(),
        _ => panic!("readout node missing"),
    };
    assert_eq!(sink.count(), 1);
}

#[test]
fn slot_edge_by_index_rejects_bad_indices_and_duplicates() {
    let mut graph: RenderGraph<RecordingSink> = RenderGraph::new();
    graph.add_node("p".to_string(), producer(8, 8)).unwrap();
    graph.add_node("r".to_string(), readout(8, 8)).unwrap();
    assert_eq!(
        graph.add_slot_edge_by_index("p", 1, "r", 0),
        Err(GraphError::UnknownSlot)
    );
    assert_eq!(
        graph.add_slot_edge_by_index("p", 0, "r", 7),
        Err(GraphError::UnknownSlot)
    );
    assert_eq!(
        graph.add_slot_edge_by_index("ghost", 0, "r", 0),
        Err(GraphError::UnknownNode)
    );
    graph.add_slot_edge_by_index("p", 0, "r", 0).unwrap();
    assert_eq!(
        graph.add_slot_edge("p", "texture", "r", "texture"),
        Err(GraphError::SlotAlreadyOccupied)
    );
}
