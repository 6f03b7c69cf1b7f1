use bevy_ecs::world::World;
use render_graph::context::{MemoryResourceContext, ResourceContext};
use render_graph::node::{RecordingSink, TextureNode, TextureReadoutNode};
use render_graph::resource::{
    Extent3d, RenderResourceId, TextureDescriptor, TextureDimension, TextureFormat,
    TEXTURE_USAGE_COPY_SRC,
};
use render_graph::slot::ResourceSlots;

fn descriptor(width: u32, height: u32) -> TextureDescriptor {
    TextureDescriptor {
        size: Extent3d {
            width,
            height,
            depth: 1,
        },
        mip_level_count: 1,
        sample_count: 1,
        dimension: TextureDimension::D2,
        format: TextureFormat::Rgba8UnormSrgb,
        usage: TEXTURE_USAGE_COPY_SRC,
    }
}

#[test]
fn resource_slots_reads_and_writes() {
    let mut slots = ResourceSlots::new(2);
    assert_eq!(slots.len(), 2);
    assert_eq!(slots.get(0), None);
    assert_eq!(slots.get(5), None); // out of range reads are absent
    let id = RenderResourceId::Texture(render_graph::resource::TextureId(7));
    slots.set(1, id);
    assert_eq!(slots.get(1), Some(id));
    assert_eq!(slots.get(0), None);
}

#[test]
fn texture_node_allocates_once() {
    let world = World::new();
    let mut ctx = MemoryResourceContext::new();
    let mut node = TextureNode::new(descriptor(32, 32));
    let inputs = ResourceSlots::new(0);
    let mut outputs = ResourceSlots::new(1);
    node.update(&world, &mut ctx, &inputs, &mut outputs);
    let first = outputs.get(0).expect("output slot not resolved");
    node.update(&world, &mut ctx, &inputs, &mut outputs);
    node.update(&world, &mut ctx, &inputs, &mut outputs);
    // the resolved handle is stable across later calls (idempotent allocation)
    assert_eq!(outputs.get(0), Some(first));
    match first {
        RenderResourceId::Texture(_) => {}
        _ => panic!("texture node published a non-texture handle"),
    }
}

#[test]
fn readout_with_unresolved_input_does_nothing() {
    let world = World::new();
    let mut ctx = MemoryResourceContext::new();
    let mut node = TextureReadoutNode::new(descriptor(32, 32), RecordingSink::new());
    let inputs = ResourceSlots::new(1); // declared but unresolved
    let mut outputs = ResourceSlots::new(0);
    node.update(&world, &mut ctx, &inputs, &mut outputs);
    assert_eq!(ctx.copy_calls(), 0);
    assert_eq!(ctx.map_calls(), 0);
    assert_eq!(ctx.unmap_calls(), 0);
    assert_eq!(ctx.buffer_count(), 0);
    assert_eq!(node.reader().count(), 0);
}

#[test]
fn readout_reuses_staging_buffer_across_frames() {
    let world = World::new();
    let mut ctx = MemoryResourceContext::new();
    let texture = ctx.create_texture(descriptor(32, 32));
    let mut node = TextureReadoutNode::new(descriptor(32, 32), RecordingSink::new());
    let mut inputs = ResourceSlots::new(1);
    inputs.set(0, RenderResourceId::Texture(texture));
    let mut outputs = ResourceSlots::new(0);
    node.update(&world, &mut ctx, &inputs, &mut outputs);
    node.update(&world, &mut ctx, &inputs, &mut outputs);
    // one buffer allocation, two deliveries of the same length
    assert_eq!(ctx.buffer_count(), 1);
    assert_eq!(node.reader().count(), 2);
    assert_eq!(node.reader().bytes_len(0), node.reader().bytes_len(1));
    assert_eq!(node.reader().descriptor_at(0), descriptor(32, 32));
}

#[test]
fn pixel_sizes_match_formats() {
    assert_eq!(TextureFormat::R8Unorm.pixel_size(), 1);
    assert_eq!(TextureFormat::Rg8Unorm.pixel_size(), 2);
    assert_eq!(TextureFormat::Rgba8UnormSrgb.pixel_size(), 4);
    assert_eq!(TextureFormat::Rgba16Uint.pixel_size(), 8);
    assert_eq!(TextureFormat::Rgba32Uint.pixel_size(), 16);
}

#[test]
fn extent_volume_counts_texels() {
    let e = Extent3d {
        width: 4,
        height: 3,
        depth: 2,
    };
    assert_eq!(e.volume(), 24);
    let flat = Extent3d {
        width: 9,
        height: 0,
        depth: 5,
    };
    assert_eq!(flat.volume(), 0);
}

#[test]
fn aligned_size_pads_to_device_rule() {
    let ctx = MemoryResourceContext::new();
    assert_eq!(ctx.get_aligned_texture_size(1), 256);
    assert_eq!(ctx.get_aligned_texture_size(256), 256);
    assert_eq!(ctx.get_aligned_texture_size(257), 512);
}
