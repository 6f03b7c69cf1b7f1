//! The units of graph work.  `TextureNode` allocates a texture once and
//! publishes it through its single output slot; `TextureReadoutNode` copies a
//! texture produced upstream into a cached host-mappable staging buffer and
//! delivers the mapped bytes to a user-supplied sink.  `NodeKind` is the
//! tagged collection of node types a graph can own.

use vstd::prelude::*;

use bevy_ecs::world::World;

use crate::context::{DeviceOp, ResourceContext};
use crate::resource::{
    BufferId, BufferInfo, BufferMapMode, RenderResourceId, RenderResourceType, TextureDescriptor,
    BUFFER_USAGE_COPY_DST, BUFFER_USAGE_MAP_READ,
};
use crate::slot::{ResourceSlotInfo, ResourceSlots};

verus! {

/// The destination of a texture readout.  `read` is invoked synchronously
/// with the raw mapped bytes — row padding included — and the texture's
/// descriptor; the data is borrowed only for the duration of the call.  Every
/// implementation logs its deliveries in the ghost sequence `calls`, so
/// callers can state how often and with what a sink was invoked.
pub trait ReadoutSink: Sized {
    /// The deliveries this sink has observed: the bytes and the descriptor of
    /// each call, oldest first.
    spec fn calls(&self) -> Seq<(Seq<u8>, TextureDescriptor)>;

    /// Deliver one readout.
    fn read(&mut self, data: &[u8], descriptor: TextureDescriptor)
        ensures
            final(self).calls() == old(self).calls().push((data@, descriptor)),
    ;
}

/// A sink that stores every delivery, so a test or caller can inspect what
/// came back from the device.
pub struct RecordingSink {
    received: Vec<(Vec<u8>, TextureDescriptor)>,
}

impl RecordingSink {
    /// An empty sink.
    pub fn new() -> (r: Self)
        ensures
            r.calls() == Seq::<(Seq<u8>, TextureDescriptor)>::empty(),
    {
        let r = RecordingSink { received: Vec::new() };
        proof {
            assert(r.calls() =~= Seq::<(Seq<u8>, TextureDescriptor)>::empty());
        }
        r
    }

    /// How many times the sink has been invoked.
    pub fn count(&self) -> (r: usize)
        ensures
            r == self.calls().len(),
    {
        self.received.len()
    }

    /// Byte length of the `i`-th delivery.
    pub fn bytes_len(&self, i: usize) -> (r: usize)
        requires
            i < self.calls().len(),
        ensures
            r == self.calls()[i as int].0.len(),
    {
        self.received[i].0.len()
    }

    /// Descriptor of the `i`-th delivery.
    pub fn descriptor_at(&self, i: usize) -> (r: TextureDescriptor)
        requires
            i < self.calls().len(),
        ensures
            r == self.calls()[i as int].1,
    {
        self.received[i].1
    }
}

impl ReadoutSink for RecordingSink {
    closed spec fn calls(&self) -> Seq<(Seq<u8>, TextureDescriptor)> {
        self.received@.map(|i: int, p: (Vec<u8>, TextureDescriptor)| (p.0@, p.1))
    }

    fn read(&mut self, data: &[u8], descriptor: TextureDescriptor) {
        let copied: Vec<u8> = vstd::slice::slice_to_vec(data);
        self.received.push((copied, descriptor));
        proof {
            assert(self.calls() =~= old(self).calls().push((data@, descriptor)));
        }
    }
}

/// A node that owns a texture descriptor and, on its first `update`,
/// allocates the texture and publishes the handle through output slot 0;
/// every later `update` is a true no-op.
pub struct TextureNode {
    descriptor: TextureDescriptor,
}

impl TextureNode {
    /// Name of the single output slot.
    pub const OUT_TEXTURE: &'static str = "texture";

    /// The descriptor the node allocates from.
    pub closed spec fn descriptor(&self) -> TextureDescriptor {
        self.descriptor
    }

    pub fn new(descriptor: TextureDescriptor) -> (r: Self)
        ensures
            r.descriptor() == descriptor,
    {
        TextureNode { descriptor }
    }

    /// The single declared output slot: a texture named "texture".
    pub fn output(&self) -> (r: Vec<ResourceSlotInfo>)
        ensures
            r@.len() == 1,
            r@[0].resource_type == RenderResourceType::Texture,
            r@[0].name@ == "texture"@,
    {
        let mut r: Vec<ResourceSlotInfo> = Vec::new();
        r.push(ResourceSlotInfo {
            name: "texture".to_owned(),
            resource_type: RenderResourceType::Texture,
        });
        r
    }

    /// Allocate the texture if output slot 0 is still unresolved; otherwise
    /// do nothing at all.  Once resolved, the slot's handle never changes.
    pub fn update<C: ResourceContext>(
        &mut self,
        _world: &World,
        render_context: &mut C,
        _input: &ResourceSlots,
        output: &mut ResourceSlots,
    )
        requires
            old(output)@.len() == 1,
        ensures
            *final(self) == *old(self),
            final(output)@.len() == old(output)@.len(),
            old(output)@[0] is Some ==> *final(output) == *old(output)
                && *final(render_context) == *old(render_context),
            old(output)@[0] is None ==> {
                &&& final(output)@[0] matches Some(RenderResourceId::Texture(t))
                &&& !old(render_context).textures().contains_key(t)
                &&& final(render_context).textures() == old(render_context).textures().insert(
                    t,
                    old(self).descriptor(),
                )
                &&& final(output)@ == old(output)@.update(0, final(output)@[0])
                &&& final(render_context).ops() == old(render_context).ops().push(
                    DeviceOp::CreateTexture {
                        descriptor: old(self).descriptor(),
                        texture: t,
                    },
                )
            },
            final(render_context).buffers() == old(render_context).buffers(),
            final(render_context).mapped() == old(render_context).mapped(),
            old(render_context).textures().submap_of(final(render_context).textures()),
            forall|w: nat|
                #![trigger old(render_context).aligned_spec(w)]
                #![trigger final(render_context).aligned_spec(w)]
                final(render_context).aligned_spec(w) == old(render_context).aligned_spec(w),
    {
        if output.get(0).is_none() {
            let texture = render_context.create_texture(self.descriptor);
            output.set(0, RenderResourceId::Texture(texture));
        }
    }
}

/// A node that reads back the texture arriving at its input slot 0: it copies
/// the texture into a lazily created, cached staging buffer sized from the
/// row-aligned pitch, maps the buffer, hands the raw bytes to its sink, and
/// unmaps.  With no resolved input it does nothing at all for the frame.
pub struct TextureReadoutNode<S: ReadoutSink> {
    descriptor: TextureDescriptor,
    texture_buffer: Option<BufferId>,
    texture_buffer_size: usize,
    read: S,
    observed: Ghost<Option<RenderResourceId>>,
}

impl<S: ReadoutSink> TextureReadoutNode<S> {
    /// Name of the single input slot.
    pub const IN_TEXTURE: &'static str = "texture";

    /// The descriptor of the texture this node reads back.
    pub closed spec fn descriptor(&self) -> TextureDescriptor {
        self.descriptor
    }

    /// The cached staging buffer, if one has been created.
    pub closed spec fn staging_buffer(&self) -> Option<BufferId> {
        self.texture_buffer
    }

    /// Byte size the staging buffer was created with.
    pub closed spec fn staging_size(&self) -> usize {
        self.texture_buffer_size
    }

    /// The sink deliveries go to.
    pub closed spec fn sink(&self) -> S {
        self.read
    }

    /// The input-slot value the most recent working `update` consumed.
    pub closed spec fn observed_input(&self) -> Option<RenderResourceId> {
        self.observed@
    }

    /// The descriptor's byte sizing stays within machine limits.
    pub open spec fn wf(&self) -> bool {
        self.descriptor().sizes_fit()
    }

    /// The staging buffer's byte size, as this node computes it against a
    /// given context's row alignment.
    pub open spec fn staging_size_for<C: ResourceContext>(&self, ctx: &C) -> int {
        self.descriptor().format.pixel_size_spec() * ctx.aligned_spec(
            self.descriptor().size.width as nat,
        ) * self.descriptor().size.height * self.descriptor().size.depth
    }

    /// The cached staging buffer, if any, is live in `ctx`, unmapped, and its
    /// recorded size is both its allocated size and the size this node's
    /// descriptor demands under `ctx`'s alignment rule.
    pub open spec fn buffer_resident<C: ResourceContext>(&self, ctx: &C) -> bool {
        self.staging_buffer() matches Some(b) ==> {
            &&& ctx.buffers().contains_key(b)
            &&& ctx.buffers()[b] == self.staging_size() as nat
            &&& !ctx.mapped().contains(b)
            &&& self.staging_size() == self.staging_size_for(ctx)
        }
    }

    pub fn new(descriptor: TextureDescriptor, read: S) -> (r: Self)
        requires
            descriptor.sizes_fit(),
        ensures
            r.descriptor() == descriptor,
            r.staging_buffer() is None,
            r.staging_size() == 0,
            r.sink() == read,
            r.observed_input() is None,
            r.wf(),
    {
        TextureReadoutNode {
            descriptor,
            texture_buffer: None,
            texture_buffer_size: 0,
            read,
            observed: Ghost(None),
        }
    }

    /// The single declared input slot: a texture named "texture".
    pub fn input(&self) -> (r: Vec<ResourceSlotInfo>)
        ensures
            r@.len() == 1,
            r@[0].resource_type == RenderResourceType::Texture,
            r@[0].name@ == "texture"@,
    {
        let mut r: Vec<ResourceSlotInfo> = Vec::new();
        r.push(ResourceSlotInfo {
            name: "texture".to_owned(),
            resource_type: RenderResourceType::Texture,
        });
        r
    }

    /// Access the sink, e.g. to inspect what a recording sink received.
    pub fn reader(&self) -> (r: &S)
        ensures
            *r == self.sink(),
    {
        &self.read
    }

    /// One frame of readout work.  With an unresolved input the node touches
    /// neither the context nor its own state.  With a resolved input it
    /// reuses (never resizes) the cached staging buffer or creates it once,
    /// copies, maps, delivers the bytes to the sink exactly once, and unmaps.
    pub fn update<C: ResourceContext>(
        &mut self,
        _world: &World,
        render_context: &mut C,
        input: &ResourceSlots,
        _output: &mut ResourceSlots,
    )
        requires
            old(self).wf(),
            match input.get_spec(0) {
                Some(id) => id matches RenderResourceId::Texture(t)
                    && old(render_context).textures().contains_key(t),
                None => true,
            },
            old(self).buffer_resident(&*old(render_context)),
        ensures
            final(self).wf(),
            final(self).descriptor() == old(self).descriptor(),
            final(self).buffer_resident(&*final(render_context)),
            *final(_output) == *old(_output),
            final(render_context).textures() == old(render_context).textures(),
            final(render_context).mapped() == old(render_context).mapped(),
            old(render_context).buffers().submap_of(final(render_context).buffers()),
            forall|w: nat|
                #![trigger old(render_context).aligned_spec(w)]
                #![trigger final(render_context).aligned_spec(w)]
                final(render_context).aligned_spec(w) == old(render_context).aligned_spec(w),
            input.get_spec(0) is None ==> *final(self) == *old(self)
                && *final(render_context) == *old(render_context),
            input.get_spec(0) is Some ==> {
                &&& old(self).staging_buffer() is Some ==> {
                    &&& final(self).staging_buffer() == old(self).staging_buffer()
                    &&& final(self).staging_size() == old(self).staging_size()
                    &&& final(render_context).buffers() == old(render_context).buffers()
                }
                &&& final(self).staging_buffer() is Some
                &&& old(self).staging_buffer() is None ==> {
                    &&& final(self).staging_buffer() matches Some(b)
                    &&& !old(render_context).buffers().contains_key(b)
                    &&& final(render_context).buffers() == old(render_context).buffers().insert(
                        b,
                        final(self).staging_size() as nat,
                    )
                }
                &&& final(self).observed_input() == input.get_spec(0)
                &&& exists|bytes: Seq<u8>|
                    bytes.len() == final(self).staging_size() && final(self).sink().calls()
                        == old(self).sink().calls().push((bytes, old(self).descriptor()))
            },
            input.get_spec(0) matches Some(RenderResourceId::Texture(t)) ==> {
                &&& final(self).staging_buffer() matches Some(b) && {
                    let rp = (old(self).descriptor().format.pixel_size_spec() * old(
                        render_context,
                    ).aligned_spec(old(self).descriptor().size.width as nat)) as usize;
                    let tail = seq![
                        DeviceOp::CopyTextureToBuffer {
                            texture: t,
                            origin: (0u32, 0u32, 0u32),
                            mip_level: 0u32,
                            buffer: b,
                            offset: 0usize,
                            row_pitch: rp,
                            size: old(self).descriptor().size,
                        },
                        DeviceOp::MapBuffer { buffer: b, mode: BufferMapMode::Read },
                        DeviceOp::ReadMappedBuffer {
                            buffer: b,
                            start: 0usize,
                            end: final(self).staging_size(),
                        },
                        DeviceOp::UnmapBuffer { buffer: b },
                    ];
                    if old(self).staging_buffer() is Some {
                        final(render_context).ops() == old(render_context).ops() + tail
                    } else {
                        final(render_context).ops() == old(render_context).ops().push(
                            DeviceOp::CreateBuffer {
                                info: BufferInfo {
                                    size: final(self).staging_size(),
                                    buffer_usage: BUFFER_USAGE_MAP_READ | BUFFER_USAGE_COPY_DST,
                                    mapped_at_creation: false,
                                },
                                buffer: b,
                            },
                        ) + tail
                    }
                }
            },
    {
        if let Some(id) = input.get(0) {
            match id {
                RenderResourceId::Texture(texture) => {
                    self.observed = Ghost(Some(id));
                    let width = self.descriptor.size.width as usize;
                    let aligned_width = render_context.get_aligned_texture_size(width);
                    let format_size = self.descriptor.format.pixel_size();
                    proof {
                        let aw: int = aligned_width as int;
                        let wp: int = self.descriptor.size.width as int + 255;
                        let px: int = format_size as int;
                        let h: int = self.descriptor.size.height as int;
                        let d: int = self.descriptor.size.depth as int;
                        assert(px * aw <= wp * px && px * aw * h <= wp * px * h && px * aw * h * d
                            <= wp * px * h * d) by (nonlinear_arith)
                            requires
                                0 <= aw <= wp,
                                px >= 0,
                                h >= 0,
                                d >= 0,
                        ;
                    }
                    let row_pitch = format_size * aligned_width;
                    let texture_buffer = match self.texture_buffer {
                        Some(buffer) => buffer,
                        None => {
                            let rows = self.descriptor.size.height as usize;
                            let layers = self.descriptor.size.depth as usize;
                            let buffer_size = row_pitch * rows * layers;
                            let buffer = render_context.create_buffer(BufferInfo {
                                size: buffer_size,
                                buffer_usage: BUFFER_USAGE_MAP_READ | BUFFER_USAGE_COPY_DST,
                                mapped_at_creation: false,
                            });
                            self.texture_buffer = Some(buffer);
                            self.texture_buffer_size = buffer_size;
                            buffer
                        },
                    };
                    render_context.copy_texture_to_buffer(
                        texture,
                        (0, 0, 0),
                        0,
                        texture_buffer,
                        0,
                        row_pitch,
                        self.descriptor.size,
                    );
                    render_context.map_buffer(texture_buffer, BufferMapMode::Read);
                    let data = render_context.read_mapped_buffer(
                        texture_buffer,
                        0,
                        self.texture_buffer_size,
                    );
                    self.read.read(data.as_slice(), self.descriptor);
                    render_context.unmap_buffer(texture_buffer);
                    proof {
                        assert(render_context.mapped() =~= old(render_context).mapped());
                        let rp = (self.descriptor().format.pixel_size_spec()
                            * old(render_context).aligned_spec(
                            self.descriptor().size.width as nat,
                        )) as usize;
                        assert(row_pitch == rp);
                        let tail = seq![
                            DeviceOp::CopyTextureToBuffer {
                                texture,
                                origin: (0u32, 0u32, 0u32),
                                mip_level: 0u32,
                                buffer: texture_buffer,
                                offset: 0usize,
                                row_pitch: rp,
                                size: self.descriptor().size,
                            },
                            DeviceOp::MapBuffer {
                                buffer: texture_buffer,
                                mode: BufferMapMode::Read,
                            },
                            DeviceOp::ReadMappedBuffer {
                                buffer: texture_buffer,
                                start: 0usize,
                                end: self.staging_size(),
                            },
                            DeviceOp::UnmapBuffer { buffer: texture_buffer },
                        ];
                        if old(self).staging_buffer() is Some {
                            assert(render_context.ops() =~= old(render_context).ops() + tail);
                        } else {
                            assert(render_context.ops() =~= old(render_context).ops().push(
                                DeviceOp::CreateBuffer {
                                    info: BufferInfo {
                                        size: self.staging_size(),
                                        buffer_usage: BUFFER_USAGE_MAP_READ
                                            | BUFFER_USAGE_COPY_DST,
                                        mapped_at_creation: false,
                                    },
                                    buffer: texture_buffer,
                                },
                            ) + tail);
                        }
                    }
                },
                _ => {
                    proof {
                        assert(false);
                    }
                },
            }
        }
    }
}

/// Every slot value in `s` that is resolved has the kind declared for its
/// index, and the table has exactly the declared length.
pub open spec fn slots_conform(
    s: Seq<Option<RenderResourceId>>,
    types: Seq<RenderResourceType>,
) -> bool {
    &&& s.len() == types.len()
    &&& forall|i: int|
        0 <= i < s.len() ==> (#[trigger] s[i] matches Some(id) ==> id.resource_type() == types[i])
}

/// Every resolved handle in `s` refers to a resource that is live in `ctx`.
pub open spec fn slots_live<C: ResourceContext>(
    s: Seq<Option<RenderResourceId>>,
    ctx: &C,
) -> bool {
    forall|i: int|
        0 <= i < s.len() ==> match #[trigger] s[i] {
            Some(RenderResourceId::Texture(t)) => ctx.textures().contains_key(t),
            Some(RenderResourceId::Buffer(b)) => ctx.buffers().contains_key(b),
            Some(RenderResourceId::Sampler(_)) => true,
            None => true,
        }
}

/// Liveness of resolved handles survives any context step that only grows
/// the texture and buffer tables.
pub proof fn lemma_live_preserved<C: ResourceContext>(
    s: Seq<Option<RenderResourceId>>,
    a: &C,
    b: &C,
)
    requires
        slots_live(s, a),
        a.textures().submap_of(b.textures()),
        a.buffers().submap_of(b.buffers()),
    ensures
        slots_live(s, b),
{
    assert forall|i: int| 0 <= i < s.len() implies match #[trigger] s[i] {
        Some(RenderResourceId::Texture(t)) => b.textures().contains_key(t),
        Some(RenderResourceId::Buffer(bu)) => b.buffers().contains_key(bu),
        Some(RenderResourceId::Sampler(_)) => true,
        None => true,
    } by {
        match s[i] {
            Some(RenderResourceId::Texture(t)) => {
                assert(a.textures().dom().contains(t));
            },
            Some(RenderResourceId::Buffer(bu)) => {
                assert(a.buffers().dom().contains(bu));
            },
            _ => {},
        }
    }
}

/// The tagged collection of node types a graph can own.
pub enum NodeKind<S: ReadoutSink> {
    Texture(TextureNode),
    TextureReadout(TextureReadoutNode<S>),
}

impl<S: ReadoutSink> NodeKind<S> {
    /// Declared kinds of the input slots, in slot order.
    pub open spec fn input_types(self) -> Seq<RenderResourceType> {
        match self {
            NodeKind::Texture(_) => Seq::empty(),
            NodeKind::TextureReadout(_) => seq![RenderResourceType::Texture],
        }
    }

    /// Declared names of the input slots, in slot order.
    pub open spec fn input_names(self) -> Seq<Seq<char>> {
        match self {
            NodeKind::Texture(_) => Seq::empty(),
            NodeKind::TextureReadout(_) => seq!["texture"@],
        }
    }

    /// Declared kinds of the output slots, in slot order.
    pub open spec fn output_types(self) -> Seq<RenderResourceType> {
        match self {
            NodeKind::Texture(_) => seq![RenderResourceType::Texture],
            NodeKind::TextureReadout(_) => Seq::empty(),
        }
    }

    /// Declared names of the output slots, in slot order.
    pub open spec fn output_names(self) -> Seq<Seq<char>> {
        match self {
            NodeKind::Texture(_) => seq!["texture"@],
            NodeKind::TextureReadout(_) => Seq::empty(),
        }
    }

    /// Two nodes of the same variant.
    pub open spec fn same_kind(self, other: Self) -> bool {
        match (self, other) {
            (NodeKind::Texture(_), NodeKind::Texture(_)) => true,
            (NodeKind::TextureReadout(_), NodeKind::TextureReadout(_)) => true,
            _ => false,
        }
    }

    /// The node's descriptor arithmetic stays within machine limits.
    pub open spec fn wf(self) -> bool {
        match self {
            NodeKind::Texture(_) => true,
            NodeKind::TextureReadout(n) => n.wf(),
        }
    }

    /// The node's privately cached device resources are live in `ctx`.
    pub open spec fn resident<C: ResourceContext>(self, ctx: &C) -> bool {
        match self {
            NodeKind::Texture(_) => true,
            NodeKind::TextureReadout(n) => n.buffer_resident(ctx),
        }
    }

    /// No two declared slots of one node share a name, on either side.
    pub proof fn lemma_slot_names_unique(self)
        ensures
            forall|i: int, j: int|
                0 <= i < j < self.input_names().len() ==> self.input_names()[i]
                    != self.input_names()[j],
            forall|i: int, j: int|
                0 <= i < j < self.output_names().len() ==> self.output_names()[i]
                    != self.output_names()[j],
    {
        match self {
            NodeKind::Texture(_) => {
                assert(self.input_names().len() == 0);
                assert(self.output_names().len() == 1);
            },
            NodeKind::TextureReadout(_) => {
                assert(self.input_names().len() == 1);
                assert(self.output_names().len() == 0);
            },
        }
    }

    /// A node's cached resources stay live across any context step that
    /// grows the tables, keeps sizes, and keeps the mapping set and the
    /// alignment rule.
    pub proof fn lemma_resident_preserved<C: ResourceContext>(self, a: &C, b: &C)
        requires
            self.resident(a),
            a.textures().submap_of(b.textures()),
            a.buffers().submap_of(b.buffers()),
            b.mapped() == a.mapped(),
            forall|w: nat| #![trigger a.aligned_spec(w)] #![trigger b.aligned_spec(w)]
                b.aligned_spec(w) == a.aligned_spec(w),
        ensures
            self.resident(b),
    {
        match self {
            NodeKind::Texture(_) => {},
            NodeKind::TextureReadout(nn) => {
                match nn.staging_buffer() {
                    Some(bid) => {
                        assert(a.buffers().dom().contains(bid));
                        let ghost probe = b.buffers().dom().contains(bid);
                        assert(b.buffers()[bid] == a.buffers()[bid]);
                        assert(nn.staging_size_for(b) == nn.staging_size_for(a));
                    },
                    None => {},
                }
            },
        }
    }

    /// Declared input slot metadata.
    pub fn input(&self) -> (r: Vec<ResourceSlotInfo>)
        ensures
            r@.len() == self.input_types().len(),
            forall|i: int|
                0 <= i < r@.len() ==> ((#[trigger] r@[i]).resource_type == self.input_types()[i]
                    && r@[i].name@ == self.input_names()[i]),
    {
        match self {
            NodeKind::Texture(_) => Vec::new(),
            NodeKind::TextureReadout(n) => n.input(),
        }
    }

    /// Declared output slot metadata.
    pub fn output(&self) -> (r: Vec<ResourceSlotInfo>)
        ensures
            r@.len() == self.output_types().len(),
            forall|i: int|
                0 <= i < r@.len() ==> ((#[trigger] r@[i]).resource_type == self.output_types()[i]
                    && r@[i].name@ == self.output_names()[i]),
    {
        match self {
            NodeKind::Texture(n) => n.output(),
            NodeKind::TextureReadout(_) => Vec::new(),
        }
    }

    /// Run one frame of this node's work in dependency order: read resolved
    /// inputs, talk to the resource context, publish outputs.  Already
    /// resolved output slots are never overwritten, the context only grows,
    /// and no buffer is left mapped.
    pub fn update<C: ResourceContext>(
        &mut self,
        world: &World,
        render_context: &mut C,
        input: &ResourceSlots,
        output: &mut ResourceSlots,
    )
        requires
            old(self).wf(),
            old(self).resident(&*old(render_context)),
            slots_conform(input@, old(self).input_types()),
            slots_live(input@, &*old(render_context)),
            slots_conform(old(output)@, old(self).output_types()),
            slots_live(old(output)@, &*old(render_context)),
        ensures
            final(self).wf(),
            final(self).same_kind(*old(self)),
            final(self).input_types() == old(self).input_types(),
            final(self).input_names() == old(self).input_names(),
            final(self).output_types() == old(self).output_types(),
            final(self).output_names() == old(self).output_names(),
            final(self).resident(&*final(render_context)),
            slots_conform(final(output)@, old(self).output_types()),
            slots_live(final(output)@, &*final(render_context)),
            forall|i: int|
                0 <= i < old(output)@.len() && old(output)@[i] is Some ==> final(output)@[i]
                    == old(output)@[i],
            old(render_context).textures().submap_of(final(render_context).textures()),
            old(render_context).buffers().submap_of(final(render_context).buffers()),
            final(render_context).mapped() == old(render_context).mapped(),
            forall|w: nat|
                #![trigger old(render_context).aligned_spec(w)]
                #![trigger final(render_context).aligned_spec(w)]
                final(render_context).aligned_spec(w) == old(render_context).aligned_spec(w),
            (*old(self)) matches NodeKind::Texture(n) ==> {
                &&& *final(self) == *old(self)
                &&& old(output)@[0] is Some ==> *final(output) == *old(output)
                    && *final(render_context) == *old(render_context)
                &&& old(output)@[0] is None ==> {
                    &&& final(output)@[0] matches Some(RenderResourceId::Texture(t))
                    &&& !old(render_context).textures().contains_key(t)
                    &&& final(render_context).textures() == old(
                        render_context,
                    ).textures().insert(t, n.descriptor())
                    &&& final(output)@ == old(output)@.update(0, final(output)@[0])
                }
            },
            (*old(self)) matches NodeKind::TextureReadout(n) ==> {
                &&& *final(output) == *old(output)
                &&& (*final(self)) matches NodeKind::TextureReadout(n2) && {
                    &&& n2.descriptor() == n.descriptor()
                    &&& input.get_spec(0) is None ==> *final(self) == *old(self)
                        && *final(render_context) == *old(render_context)
                    &&& input.get_spec(0) is Some ==> {
                        &&& n.staging_buffer() is Some ==> n2.staging_buffer() == n.staging_buffer()
                            && n2.staging_size() == n.staging_size()
                            && final(render_context).buffers() == old(render_context).buffers()
                        &&& n2.staging_buffer() is Some
                        &&& n2.observed_input() == input.get_spec(0)
                        &&& exists|bytes: Seq<u8>|
                            bytes.len() == n2.staging_size() && n2.sink().calls()
                                == n.sink().calls().push((bytes, n.descriptor()))
                    }
                }
            },
    {
        match self {
            NodeKind::Texture(n) => {
                n.update(world, render_context, input, output);
            },
            NodeKind::TextureReadout(n) => {
                proof {
                    assert(input.get_spec(0) == input@[0]);
                }
                n.update(world, render_context, input, output);
            },
        }
    }
}

} // verus!
