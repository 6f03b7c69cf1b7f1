//! The resource-context capability: the abstract device surface through which
//! nodes allocate textures and buffers, copy texture contents into buffers,
//! and map buffers for host reads — plus an in-memory implementation of it
//! that tracks allocations and call counts without a GPU.

use vstd::prelude::*;

use vstd::pervasive::VecAdditionalExecFns;

use crate::resource::{BufferId, BufferInfo, BufferMapMode, Extent3d, TextureDescriptor, TextureId};

verus! {

/// One call into the resource context, recorded with the arguments that
/// matter to callers auditing a frame's device traffic.
pub enum DeviceOp {
    CreateTexture { descriptor: TextureDescriptor, texture: TextureId },
    CreateBuffer { info: BufferInfo, buffer: BufferId },
    CopyTextureToBuffer {
        texture: TextureId,
        origin: (u32, u32, u32),
        mip_level: u32,
        buffer: BufferId,
        offset: usize,
        row_pitch: usize,
        size: Extent3d,
    },
    MapBuffer { buffer: BufferId, mode: BufferMapMode },
    ReadMappedBuffer { buffer: BufferId, start: usize, end: usize },
    UnmapBuffer { buffer: BufferId },
}

/// Abstract device capability consumed by graph nodes.  Its ghost state is
/// the set of live textures (with their descriptors), the set of live buffers
/// (with their byte sizes), which buffers are currently mapped, and the
/// device's row-alignment rule.  Allocation failure and device loss are fatal
/// and reported through the implementation's own channel, never as a
/// recoverable result; an implementation of these operations returns only on
/// success.
pub trait ResourceContext: Sized {
    /// Live textures and the descriptors they were allocated from.
    spec fn textures(&self) -> Map<TextureId, TextureDescriptor>;

    /// Live buffers and their byte sizes.
    spec fn buffers(&self) -> Map<BufferId, nat>;

    /// Buffers currently mapped for host access.
    spec fn mapped(&self) -> Set<BufferId>;

    /// The device's row-alignment rule: the padded texel width of a copy row.
    spec fn aligned_spec(&self, width: nat) -> nat;

    /// Every call made through this context so far, oldest first.
    spec fn ops(&self) -> Seq<DeviceOp>;

    /// Allocate a texture from `descriptor`; the handle is fresh.
    fn create_texture(&mut self, descriptor: TextureDescriptor) -> (r: TextureId)
        ensures
            !old(self).textures().contains_key(r),
            final(self).textures() == old(self).textures().insert(r, descriptor),
            final(self).buffers() == old(self).buffers(),
            final(self).mapped() == old(self).mapped(),
            forall|w: nat| #![trigger old(self).aligned_spec(w)] #![trigger final(self).aligned_spec(w)]
                final(self).aligned_spec(w) == old(self).aligned_spec(w),
            final(self).ops() == old(self).ops().push(
                DeviceOp::CreateTexture { descriptor, texture: r },
            ),
    ;

    /// Allocate a buffer of `info.size` bytes; the handle is fresh and the
    /// buffer starts unmapped.
    fn create_buffer(&mut self, info: BufferInfo) -> (r: BufferId)
        requires
            !info.mapped_at_creation,
        ensures
            !old(self).buffers().contains_key(r),
            final(self).buffers() == old(self).buffers().insert(r, info.size as nat),
            final(self).textures() == old(self).textures(),
            final(self).mapped() == old(self).mapped(),
            !final(self).mapped().contains(r),
            forall|w: nat| #![trigger old(self).aligned_spec(w)] #![trigger final(self).aligned_spec(w)]
                final(self).aligned_spec(w) == old(self).aligned_spec(w),
            final(self).ops() == old(self).ops().push(DeviceOp::CreateBuffer { info, buffer: r }),
    ;

    /// Pad a row of `width` texels to the device's copy alignment.  The
    /// padding never exceeds 255 texels.
    fn get_aligned_texture_size(&self, width: usize) -> (r: usize)
        requires
            width + 255 <= usize::MAX,
        ensures
            r == self.aligned_spec(width as nat),
            width <= r <= width + 255,
    ;

    /// Copy the full `size` extent of `texture` into `buffer` at `offset`,
    /// writing `row_pitch` bytes per row.  The destination range must lie
    /// within the buffer and the buffer must not be mapped; violating either
    /// is a fatal programming error, so callers prove both.
    fn copy_texture_to_buffer(
        &mut self,
        texture: TextureId,
        origin: (u32, u32, u32),
        mip_level: u32,
        buffer: BufferId,
        offset: usize,
        row_pitch: usize,
        size: Extent3d,
    )
        requires
            old(self).textures().contains_key(texture),
            old(self).buffers().contains_key(buffer),
            !old(self).mapped().contains(buffer),
            offset + row_pitch * size.height * size.depth <= old(self).buffers()[buffer],
        ensures
            final(self).textures() == old(self).textures(),
            final(self).buffers() == old(self).buffers(),
            final(self).mapped() == old(self).mapped(),
            forall|w: nat| #![trigger old(self).aligned_spec(w)] #![trigger final(self).aligned_spec(w)]
                final(self).aligned_spec(w) == old(self).aligned_spec(w),
            final(self).ops() == old(self).ops().push(
                DeviceOp::CopyTextureToBuffer {
                    texture,
                    origin,
                    mip_level,
                    buffer,
                    offset,
                    row_pitch,
                    size,
                },
            ),
    ;

    /// Map `buffer` for host access; mapping an already mapped buffer is a
    /// fatal programming error, so callers prove it is unmapped.
    fn map_buffer(&mut self, buffer: BufferId, mode: BufferMapMode)
        requires
            old(self).buffers().contains_key(buffer),
            !old(self).mapped().contains(buffer),
        ensures
            final(self).mapped() == old(self).mapped().insert(buffer),
            final(self).textures() == old(self).textures(),
            final(self).buffers() == old(self).buffers(),
            forall|w: nat| #![trigger old(self).aligned_spec(w)] #![trigger final(self).aligned_spec(w)]
                final(self).aligned_spec(w) == old(self).aligned_spec(w),
            final(self).ops() == old(self).ops().push(DeviceOp::MapBuffer { buffer, mode }),
    ;

    /// Read the byte range `[start, end)` of a mapped buffer into host
    /// memory.
    fn read_mapped_buffer(&mut self, buffer: BufferId, start: usize, end: usize) -> (r: Vec<u8>)
        requires
            old(self).buffers().contains_key(buffer),
            old(self).mapped().contains(buffer),
            start <= end,
            end <= old(self).buffers()[buffer],
        ensures
            r@.len() == end - start,
            final(self).textures() == old(self).textures(),
            final(self).buffers() == old(self).buffers(),
            final(self).mapped() == old(self).mapped(),
            forall|w: nat| #![trigger old(self).aligned_spec(w)] #![trigger final(self).aligned_spec(w)]
                final(self).aligned_spec(w) == old(self).aligned_spec(w),
            final(self).ops() == old(self).ops().push(
                DeviceOp::ReadMappedBuffer { buffer, start, end },
            ),
    ;

    /// Unmap `buffer`.
    fn unmap_buffer(&mut self, buffer: BufferId)
        requires
            old(self).buffers().contains_key(buffer),
        ensures
            final(self).mapped() == old(self).mapped().remove(buffer),
            final(self).textures() == old(self).textures(),
            final(self).buffers() == old(self).buffers(),
            forall|w: nat| #![trigger old(self).aligned_spec(w)] #![trigger final(self).aligned_spec(w)]
                final(self).aligned_spec(w) == old(self).aligned_spec(w),
            final(self).ops() == old(self).ops().push(DeviceOp::UnmapBuffer { buffer }),
    ;
}

/// An in-memory resource context: allocates handles sequentially, tracks
/// buffer sizes and mapping state, pads copy rows to 256 texels, and counts
/// copy/map/unmap calls so a headless run can observe exactly what a graph
/// asked of its device.
pub struct MemoryResourceContext {
    texture_descs: Vec<TextureDescriptor>,
    buffer_entries: Vec<(usize, bool)>,
    copy_calls: u64,
    map_calls: u64,
    unmap_calls: u64,
    ops_log: Ghost<Seq<DeviceOp>>,
}

impl MemoryResourceContext {
    /// Number of `copy_texture_to_buffer` calls seen (saturating).
    pub closed spec fn copy_call_count(&self) -> u64 {
        self.copy_calls
    }

    /// Number of `map_buffer` calls seen (saturating).
    pub closed spec fn map_call_count(&self) -> u64 {
        self.map_calls
    }

    /// Number of `unmap_buffer` calls seen (saturating).
    pub closed spec fn unmap_call_count(&self) -> u64 {
        self.unmap_calls
    }

    /// Number of buffers ever allocated from this context.
    pub closed spec fn buffer_alloc_count(&self) -> nat {
        self.buffer_entries@.len()
    }

    /// A fresh context: nothing allocated, nothing mapped, no calls counted.
    pub fn new() -> (r: Self)
        ensures
            r.textures() == Map::<TextureId, TextureDescriptor>::empty(),
            r.buffers() == Map::<BufferId, nat>::empty(),
            r.mapped() == Set::<BufferId>::empty(),
            r.ops() == Seq::<DeviceOp>::empty(),
            r.buffer_alloc_count() == 0,
            r.copy_call_count() == 0,
            r.map_call_count() == 0,
            r.unmap_call_count() == 0,
    {
        let r = MemoryResourceContext {
            texture_descs: Vec::new(),
            buffer_entries: Vec::new(),
            copy_calls: 0,
            map_calls: 0,
            unmap_calls: 0,
            ops_log: Ghost(Seq::empty()),
        };
        proof {
            assert(r.textures() =~= Map::<TextureId, TextureDescriptor>::empty());
            assert(r.buffers() =~= Map::<BufferId, nat>::empty());
            assert(r.mapped() =~= Set::<BufferId>::empty());
        }
        r
    }

    /// Buffers allocated so far.
    pub fn buffer_count(&self) -> (r: usize)
        ensures
            r == self.buffer_alloc_count(),
    {
        self.buffer_entries.len()
    }

    /// Copy calls seen so far.
    pub fn copy_calls(&self) -> (r: u64)
        ensures
            r == self.copy_call_count(),
    {
        self.copy_calls
    }

    /// Map calls seen so far.
    pub fn map_calls(&self) -> (r: u64)
        ensures
            r == self.map_call_count(),
    {
        self.map_calls
    }

    /// Unmap calls seen so far.
    pub fn unmap_calls(&self) -> (r: u64)
        ensures
            r == self.unmap_call_count(),
    {
        self.unmap_calls
    }

    fn bump(counter: u64) -> (r: u64)
        ensures
            counter < u64::MAX ==> r == counter + 1,
    {
        if counter < u64::MAX {
            counter + 1
        } else {
            counter
        }
    }
}

impl ResourceContext for MemoryResourceContext {
    closed spec fn textures(&self) -> Map<TextureId, TextureDescriptor> {
        Map::new(
            |t: TextureId| t.0 < self.texture_descs@.len(),
            |t: TextureId| self.texture_descs@[t.0 as int],
        )
    }

    closed spec fn buffers(&self) -> Map<BufferId, nat> {
        Map::new(
            |b: BufferId| b.0 < self.buffer_entries@.len(),
            |b: BufferId| self.buffer_entries@[b.0 as int].0 as nat,
        )
    }

    closed spec fn mapped(&self) -> Set<BufferId> {
        Set::new(|b: BufferId| b.0 < self.buffer_entries@.len() && self.buffer_entries@[b.0 as int].1)
    }

    closed spec fn aligned_spec(&self, width: nat) -> nat {
        ((width + 255) / 256) * 256
    }

    closed spec fn ops(&self) -> Seq<DeviceOp> {
        self.ops_log@
    }

    fn create_texture(&mut self, descriptor: TextureDescriptor) -> (r: TextureId) {
        let id = TextureId(self.texture_descs.len() as u64);
        self.texture_descs.push(descriptor);
        self.ops_log = Ghost(
            self.ops_log@.push(DeviceOp::CreateTexture { descriptor, texture: id }),
        );
        proof {
            assert(self.textures() =~= old(self).textures().insert(id, descriptor));
            assert(self.buffers() =~= old(self).buffers());
            assert(self.mapped() =~= old(self).mapped());
        }
        id
    }

    fn create_buffer(&mut self, info: BufferInfo) -> (r: BufferId) {
        let id = BufferId(self.buffer_entries.len() as u64);
        self.buffer_entries.push((info.size, false));
        self.ops_log = Ghost(self.ops_log@.push(DeviceOp::CreateBuffer { info, buffer: id }));
        proof {
            assert(self.buffers() =~= old(self).buffers().insert(id, info.size as nat));
            assert(self.textures() =~= old(self).textures());
            assert(self.mapped() =~= old(self).mapped());
        }
        id
    }

    fn get_aligned_texture_size(&self, width: usize) -> (r: usize) {
        let padded: usize = width + 255;
        let r: usize = (padded / 256) * 256;
        proof {
            assert(padded == (padded / 256) * 256 + padded % 256) by (nonlinear_arith);
            assert(width <= r <= width + 255);
        }
        r
    }

    fn copy_texture_to_buffer(
        &mut self,
        texture: TextureId,
        origin: (u32, u32, u32),
        mip_level: u32,
        buffer: BufferId,
        offset: usize,
        row_pitch: usize,
        size: Extent3d,
    ) {
        self.copy_calls = Self::bump(self.copy_calls);
        self.ops_log = Ghost(
            self.ops_log@.push(
                DeviceOp::CopyTextureToBuffer {
                    texture,
                    origin,
                    mip_level,
                    buffer,
                    offset,
                    row_pitch,
                    size,
                },
            ),
        );
    }

    fn map_buffer(&mut self, buffer: BufferId, mode: BufferMapMode) {
        let n = self.buffer_entries.len();
        proof {
            assert(old(self).buffers().contains_key(buffer));
            assert(buffer.0 < n);
        }
        let idx = buffer.0 as usize;
        let sz = self.buffer_entries[idx].0;
        self.buffer_entries.set(idx, (sz, true));
        self.map_calls = Self::bump(self.map_calls);
        self.ops_log = Ghost(self.ops_log@.push(DeviceOp::MapBuffer { buffer, mode }));
        proof {
            assert(self.mapped() =~= old(self).mapped().insert(buffer));
            assert(self.textures() =~= old(self).textures());
            assert(self.buffers() =~= old(self).buffers());
        }
    }

    fn read_mapped_buffer(&mut self, buffer: BufferId, start: usize, end: usize) -> (r: Vec<u8>) {
        self.ops_log = Ghost(
            self.ops_log@.push(DeviceOp::ReadMappedBuffer { buffer, start, end }),
        );
        let mut r: Vec<u8> = Vec::new();
        let mut i: usize = start;
        while i < end
            invariant
                start <= i <= end,
                r@.len() == i - start,
            decreases end - i,
        {
            r.push(0u8);
            i = i + 1;
        }
        r
    }

    fn unmap_buffer(&mut self, buffer: BufferId) {
        let n = self.buffer_entries.len();
        proof {
            assert(old(self).buffers().contains_key(buffer));
            assert(buffer.0 < n);
        }
        let idx = buffer.0 as usize;
        let sz = self.buffer_entries[idx].0;
        self.buffer_entries.set(idx, (sz, false));
        self.unmap_calls = Self::bump(self.unmap_calls);
        self.ops_log = Ghost(self.ops_log@.push(DeviceOp::UnmapBuffer { buffer }));
        proof {
            assert(self.mapped() =~= old(self).mapped().remove(buffer));
            assert(self.textures() =~= old(self).textures());
            assert(self.buffers() =~= old(self).buffers());
        }
    }
}

} // verus!
