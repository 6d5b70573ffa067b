//! GPU command and descriptor objects, as the records of what was encoded
//! into them. Buffers and pipeline states are other objects of the runtime,
//! named by their handles.
use vstd::prelude::*;
use core::ops::Range;
use crate::runtime::Id;

verus! {

/// How many buffer slots a command or a pipeline has.
pub const BUFFER_SLOTS: usize = 31;

/// Options for making a function.
#[derive(Clone, Copy, Debug, PartialEq, Eq, Structural)]
pub enum FunctionOptions {
    /// No option.
    Nothing,
    CompileToBinary,
}

/// Whether a pipeline may write a buffer.
#[derive(Clone, Copy, Debug, PartialEq, Eq, Structural)]
pub enum Mutability {
    Default,
    Mutable,
    Immutable,
}

impl Default for Mutability {
    fn default() -> (r: Mutability)
        ensures
            r == Mutability::Default,
    {
        Mutability::Default
    }
}

/// What the vertices of a draw call make.
#[derive(Clone, Copy, Debug, PartialEq, Eq, Structural)]
pub enum Primitive {
    Point,
    Line,
    LineStrip,
    Triangle,
    TriangleStrip,
}

/// The width of an index.
#[derive(Clone, Copy, Debug, PartialEq, Eq, Structural)]
pub enum IndexType {
    U16,
    U32,
}

#[derive(Clone, Copy, Debug, PartialEq, Eq, Structural)]
pub struct Size {
    pub width: usize,
    pub height: usize,
    pub depth: usize,
}

#[derive(Clone, Copy, Debug, PartialEq, Eq, Structural)]
pub struct Origin {
    pub x: usize,
    pub y: usize,
    pub z: usize,
}

#[derive(Clone, Copy, Debug, PartialEq, Eq, Structural)]
pub struct Region {
    pub origin: Origin,
    pub size: Size,
}

/// A buffer bound to a slot, from a byte offset.
#[derive(Clone, Copy, Debug, PartialEq, Eq, Structural)]
pub struct BufBinding {
    pub buf: Id,
    pub offset: usize,
}

/// The patch draw calls' common arguments.
#[derive(Clone, Copy, Debug, PartialEq, Eq, Structural)]
pub struct PatchDraw {
    pub number_of_patch_ctrl_points: usize,
    pub patch_start: usize,
    pub patch_count: usize,
    pub patch_index_buf: Option<Id>,
    pub patch_index_buf_offset: usize,
    pub instance_count: usize,
    pub base_instance: usize,
    pub tessellation_factor_buf: Id,
    pub tessellation_factor_buf_offset: usize,
    pub tessellation_factor_buf_instance_stride: usize,
}

/// The draw call encoded into a render command.
#[derive(Clone, Copy, Debug, PartialEq, Eq, Structural)]
pub enum Draw {
    Nothing,
    Patches(PatchDraw),
    IndexedPatches(PatchDraw, BufBinding),
    Primitives {
        primitive_type: Primitive,
        vertex_start: usize,
        vertex_count: usize,
        instance_count: usize,
        base_instance: usize,
    },
    IndexedPrimitives {
        primitive_type: Primitive,
        index_count: usize,
        index_type: IndexType,
        index_buf: BufBinding,
        instance_count: usize,
        base_vertex: isize,
        base_instance: usize,
    },
}

/// The number of values in `start..end`.
pub open spec fn range_len(r: Range<usize>) -> nat {
    if r.start < r.end {
        (r.end - r.start) as nat
    } else {
        0
    }
}

fn range_count(r: &Range<usize>) -> (n: usize)
    ensures
        n == range_len(*r),
{
    if r.start < r.end {
        r.end - r.start
    } else {
        0
    }
}

fn empty_slots() -> (r: Vec<Option<BufBinding>>)
    ensures
        r@ == Seq::new(BUFFER_SLOTS as nat, |i: int| None::<BufBinding>),
{
    let mut r: Vec<Option<BufBinding>> = Vec::new();
    let mut i: usize = 0;
    while i < BUFFER_SLOTS
        invariant
            i <= BUFFER_SLOTS,
            r@ == Seq::new(i as nat, |j: int| None::<BufBinding>),
        decreases BUFFER_SLOTS - i,
    {
        r.push(None);
        i = i + 1;
        proof {
            assert(r@ =~= Seq::new(i as nat, |j: int| None::<BufBinding>));
        }
    }
    r
}

/// A render command in an indirect command buffer.
pub struct IndirectRenderCmd {
    pub pipeline_state: Option<Id>,
    pub vertex_bufs: Vec<Option<BufBinding>>,
    pub fragment_bufs: Vec<Option<BufBinding>>,
    pub draw: Draw,
}

impl IndirectRenderCmd {
    pub open spec fn is_reset(&self) -> bool {
        &&& self.pipeline_state is None
        &&& self.vertex_bufs@ == Seq::new(BUFFER_SLOTS as nat, |i: int| None::<BufBinding>)
        &&& self.fragment_bufs@ == Seq::new(BUFFER_SLOTS as nat, |i: int| None::<BufBinding>)
        &&& self.draw == Draw::Nothing
    }

    /// A command with nothing encoded.
    pub fn new() -> (r: IndirectRenderCmd)
        ensures
            r.is_reset(),
    {
        IndirectRenderCmd {
            pipeline_state: None,
            vertex_bufs: empty_slots(),
            fragment_bufs: empty_slots(),
            draw: Draw::Nothing,
        }
    }

    pub fn set_render_ps(&mut self, ps: Id)
        ensures
            *final(self) == (IndirectRenderCmd { pipeline_state: Some(ps), ..*old(self) }),
    {
        self.pipeline_state = Some(ps);
    }

    pub fn set_vertex_buf_at(&mut self, buf: Id, offset: usize, index: usize)
        requires
            index < old(self).vertex_bufs@.len(),
        ensures
            final(self).vertex_bufs@ == old(self).vertex_bufs@.update(
                index as int,
                Some(BufBinding { buf, offset }),
            ),
            *final(self) == (IndirectRenderCmd { vertex_bufs: final(self).vertex_bufs, ..*old(self) }),
    {
        self.vertex_bufs.set(index, Some(BufBinding { buf, offset }));
    }

    pub fn set_fragment_buf_at(&mut self, buf: Id, offset: usize, index: usize)
        requires
            index < old(self).fragment_bufs@.len(),
        ensures
            final(self).fragment_bufs@ == old(self).fragment_bufs@.update(
                index as int,
                Some(BufBinding { buf, offset }),
            ),
            *final(self) == (IndirectRenderCmd { fragment_bufs: final(self).fragment_bufs, ..*old(self) }),
    {
        self.fragment_bufs.set(index, Some(BufBinding { buf, offset }));
    }

    pub fn draw_patches(
        &mut self,
        number_of_patch_ctrl_points: usize,
        patch_start: usize,
        patch_count: usize,
        patch_index_buf: Id,
        patch_index_buf_offset: usize,
        instance_count: usize,
        base_instance: usize,
        tessellation_factor_buf: Id,
        tessellation_factor_buf_offset: usize,
        tessellation_factor_buf_instance_stride: usize,
    )
        ensures
            *final(self) == (IndirectRenderCmd {
                draw: Draw::Patches(
                    PatchDraw {
                        number_of_patch_ctrl_points,
                        patch_start,
                        patch_count,
                        patch_index_buf: Some(patch_index_buf),
                        patch_index_buf_offset,
                        instance_count,
                        base_instance,
                        tessellation_factor_buf,
                        tessellation_factor_buf_offset,
                        tessellation_factor_buf_instance_stride,
                    },
                ),
                ..*old(self)
            }),
    {
        self.draw = Draw::Patches(
            PatchDraw {
                number_of_patch_ctrl_points,
                patch_start,
                patch_count,
                patch_index_buf: Some(patch_index_buf),
                patch_index_buf_offset,
                instance_count,
                base_instance,
                tessellation_factor_buf,
                tessellation_factor_buf_offset,
                tessellation_factor_buf_instance_stride,
            },
        );
    }

    pub fn draw_indexed_patches(
        &mut self,
        number_of_patch_ctrl_points: usize,
        patch_start: usize,
        patch_count: usize,
        patch_index_buf: Option<Id>,
        patch_index_buff_offset: usize,
        ctrl_point_index_buf: Id,
        ctrl_point_index_buf_offset: usize,
        instance_count: usize,
        base_instance: usize,
        tessellation_factor_buf: Id,
        tessellation_factor_buf_offset: usize,
        tessellation_factor_buf_instance_stride: usize,
    )
        ensures
            *final(self) == (IndirectRenderCmd {
                draw: Draw::IndexedPatches(
                    PatchDraw {
                        number_of_patch_ctrl_points,
                        patch_start,
                        patch_count,
                        patch_index_buf,
                        patch_index_buf_offset: patch_index_buff_offset,
                        instance_count,
                        base_instance,
                        tessellation_factor_buf,
                        tessellation_factor_buf_offset,
                        tessellation_factor_buf_instance_stride,
                    },
                    BufBinding { buf: ctrl_point_index_buf, offset: ctrl_point_index_buf_offset },
                ),
                ..*old(self)
            }),
    {
        self.draw = Draw::IndexedPatches(
            PatchDraw {
                number_of_patch_ctrl_points,
                patch_start,
                patch_count,
                patch_index_buf,
                patch_index_buf_offset: patch_index_buff_offset,
                instance_count,
                base_instance,
                tessellation_factor_buf,
                tessellation_factor_buf_offset,
                tessellation_factor_buf_instance_stride,
            },
            BufBinding { buf: ctrl_point_index_buf, offset: ctrl_point_index_buf_offset },
        );
    }

    pub fn draw_primitives(
        &mut self,
        primitive_type: Primitive,
        vertex_start: usize,
        vertex_count: usize,
        instance_count: usize,
        base_instance: usize,
    )
        ensures
            *final(self) == (IndirectRenderCmd {
                draw: Draw::Primitives {
                    primitive_type,
                    vertex_start,
                    vertex_count,
                    instance_count,
                    base_instance,
                },
                ..*old(self)
            }),
    {
        self.draw = Draw::Primitives {
            primitive_type,
            vertex_start,
            vertex_count,
            instance_count,
            base_instance,
        };
    }

    pub fn draw_indexed_primitives_index_type_index_count_instance_count(
        &mut self,
        primitive_type: Primitive,
        index_count: usize,
        index_type: IndexType,
        index_buf: Id,
        index_buf_offset: usize,
        instance_count: usize,
        base_vertex: isize,
        base_instance: usize,
    )
        ensures
            *final(self) == (IndirectRenderCmd {
                draw: Draw::IndexedPrimitives {
                    primitive_type,
                    index_count,
                    index_type,
                    index_buf: BufBinding { buf: index_buf, offset: index_buf_offset },
                    instance_count,
                    base_vertex,
                    base_instance,
                },
                ..*old(self)
            }),
    {
        self.draw = Draw::IndexedPrimitives {
            primitive_type,
            index_count,
            index_type,
            index_buf: BufBinding { buf: index_buf, offset: index_buf_offset },
            instance_count,
            base_vertex,
            base_instance,
        };
    }

    /// Draws triangles from the 16-bit indices `index_range` of
    /// `index_buffer`, for the instances `instance_range`: the offset is the
    /// range's start in bytes.
    pub fn draw_indexed_triangles_u16(
        &mut self,
        index_buffer: Id,
        index_range: &Range<usize>,
        instance_range: &Range<usize>,
    )
        requires
            index_range.start * 2 <= usize::MAX,
        ensures
            *final(self) == (IndirectRenderCmd {
                draw: Draw::IndexedPrimitives {
                    primitive_type: Primitive::Triangle,
                    index_count: range_len(*index_range) as usize,
                    index_type: IndexType::U16,
                    index_buf: BufBinding { buf: index_buffer, offset: (index_range.start * 2) as usize },
                    instance_count: range_len(*instance_range) as usize,
                    base_vertex: 0,
                    base_instance: instance_range.start,
                },
                ..*old(self)
            }),
    {
        self.draw_indexed_primitives_index_type_index_count_instance_count(
            Primitive::Triangle,
            range_count(index_range),
            IndexType::U16,
            index_buffer,
            index_range.start * 2,
            range_count(instance_range),
            0,
            instance_range.start,
        );
    }

    /// As `draw_indexed_triangles_u16`, with 32-bit indices.
    pub fn draw_indexed_triangles_u32(
        &mut self,
        index_buffer: Id,
        index_range: &Range<usize>,
        instance_range: &Range<usize>,
    )
        requires
            index_range.start * 4 <= usize::MAX,
        ensures
            *final(self) == (IndirectRenderCmd {
                draw: Draw::IndexedPrimitives {
                    primitive_type: Primitive::Triangle,
                    index_count: range_len(*index_range) as usize,
                    index_type: IndexType::U32,
                    index_buf: BufBinding { buf: index_buffer, offset: (index_range.start * 4) as usize },
                    instance_count: range_len(*instance_range) as usize,
                    base_vertex: 0,
                    base_instance: instance_range.start,
                },
                ..*old(self)
            }),
    {
        self.draw_indexed_primitives_index_type_index_count_instance_count(
            Primitive::Triangle,
            range_count(index_range),
            IndexType::U32,
            index_buffer,
            index_range.start * 4,
            range_count(instance_range),
            0,
            instance_range.start,
        );
    }

    /// Clears everything encoded.
    pub fn reset(&mut self)
        ensures
            final(self).is_reset(),
    {
        *self = Self::new();
    }
}

/// The dispatch encoded into a compute command.
#[derive(Clone, Copy, Debug, PartialEq, Eq, Structural)]
pub enum Dispatch {
    Nothing,
    ThreadGroups { threadgroups_per_grid: Size, threads_per_threadgroup: Size },
    Threads { threads_per_grid: Size, threads_per_threadgroup: Size },
}

fn zero_lens() -> (r: Vec<usize>)
    ensures
        r@ == Seq::new(BUFFER_SLOTS as nat, |i: int| 0usize),
{
    let mut r: Vec<usize> = Vec::new();
    let mut i: usize = 0;
    while i < BUFFER_SLOTS
        invariant
            i <= BUFFER_SLOTS,
            r@ == Seq::new(i as nat, |j: int| 0usize),
        decreases BUFFER_SLOTS - i,
    {
        r.push(0);
        i = i + 1;
        proof {
            assert(r@ =~= Seq::new(i as nat, |j: int| 0usize));
        }
    }
    r
}

/// A compute command in an indirect command buffer.
pub struct IndirectComputeCmd {
    pub pipeline_state: Option<Id>,
    pub kernel_bufs: Vec<Option<BufBinding>>,
    pub threadgroup_memory_lens: Vec<usize>,
    pub dispatch: Dispatch,
    pub barrier: bool,
    pub image_block_size: (usize, usize),
    pub stage_in_region: Option<Region>,
}

impl IndirectComputeCmd {
    pub open spec fn is_reset(&self) -> bool {
        &&& self.pipeline_state is None
        &&& self.kernel_bufs@ == Seq::new(BUFFER_SLOTS as nat, |i: int| None::<BufBinding>)
        &&& self.threadgroup_memory_lens@ == Seq::new(BUFFER_SLOTS as nat, |i: int| 0usize)
        &&& self.dispatch == Dispatch::Nothing
        &&& !self.barrier
        &&& self.image_block_size == (0usize, 0usize)
        &&& self.stage_in_region is None
    }

    /// A command with nothing encoded.
    pub fn new() -> (r: IndirectComputeCmd)
        ensures
            r.is_reset(),
    {
        IndirectComputeCmd {
            pipeline_state: None,
            kernel_bufs: empty_slots(),
            threadgroup_memory_lens: zero_lens(),
            dispatch: Dispatch::Nothing,
            barrier: false,
            image_block_size: (0, 0),
            stage_in_region: None,
        }
    }

    pub fn set_compute_ps(&mut self, ps: Id)
        ensures
            *final(self) == (IndirectComputeCmd { pipeline_state: Some(ps), ..*old(self) }),
    {
        self.pipeline_state = Some(ps);
    }

    pub fn set_kernel_buf_at(&mut self, buf: Id, offset: usize, index: usize)
        requires
            index < old(self).kernel_bufs@.len(),
        ensures
            final(self).kernel_bufs@ == old(self).kernel_bufs@.update(
                index as int,
                Some(BufBinding { buf, offset }),
            ),
            *final(self) == (IndirectComputeCmd { kernel_bufs: final(self).kernel_bufs, ..*old(self) }),
    {
        self.kernel_bufs.set(index, Some(BufBinding { buf, offset }));
    }

    pub fn concurrent_dispatch_thread_groups(
        &mut self,
        threadgroups_per_grid: Size,
        threads_per_threadgroup: Size,
    )
        ensures
            *final(self) == (IndirectComputeCmd {
                dispatch: Dispatch::ThreadGroups { threadgroups_per_grid, threads_per_threadgroup },
                ..*old(self)
            }),
    {
        self.dispatch = Dispatch::ThreadGroups { threadgroups_per_grid, threads_per_threadgroup };
    }

    pub fn concurrent_dispatch_threads(&mut self, threads_per_grid: Size, threads_per_threadgroup: Size)
        ensures
            *final(self) == (IndirectComputeCmd {
                dispatch: Dispatch::Threads { threads_per_grid, threads_per_threadgroup },
                ..*old(self)
            }),
    {
        self.dispatch = Dispatch::Threads { threads_per_grid, threads_per_threadgroup };
    }

    pub fn set_barrier(&mut self)
        ensures
            *final(self) == (IndirectComputeCmd { barrier: true, ..*old(self) }),
    {
        self.barrier = true;
    }

    pub fn clear_barrier(&mut self)
        ensures
            *final(self) == (IndirectComputeCmd { barrier: false, ..*old(self) }),
    {
        self.barrier = false;
    }

    pub fn set_image_block_size(&mut self, width: usize, height: usize)
        ensures
            *final(self) == (IndirectComputeCmd { image_block_size: (width, height), ..*old(self) }),
    {
        self.image_block_size = (width, height);
    }

    /// Clears everything encoded.
    pub fn reset(&mut self)
        ensures
            final(self).is_reset(),
    {
        *self = Self::new();
    }

    pub fn set_threadgroup_memory_len_at(&mut self, length: usize, index: usize)
        requires
            index < old(self).threadgroup_memory_lens@.len(),
        ensures
            final(self).threadgroup_memory_lens@ == old(self).threadgroup_memory_lens@.update(
                index as int,
                length,
            ),
            *final(self) == (IndirectComputeCmd {
                threadgroup_memory_lens: final(self).threadgroup_memory_lens,
                ..*old(self)
            }),
    {
        self.threadgroup_memory_lens.set(index, length);
    }

    pub fn set_stage_in_region(&mut self, region: Region)
        ensures
            *final(self) == (IndirectComputeCmd { stage_in_region: Some(region), ..*old(self) }),
    {
        self.stage_in_region = Some(region);
    }
}

/// How a pipeline uses one buffer slot.
#[derive(Clone, Copy, Debug, PartialEq, Eq, Structural)]
pub struct PipelineBufDesc {
    pub mutability: Mutability,
}

impl PipelineBufDesc {
    pub fn new() -> (r: PipelineBufDesc)
        ensures
            r.mutability == Mutability::Default,
    {
        PipelineBufDesc { mutability: Mutability::Default }
    }

    pub fn mutability(&self) -> (r: Mutability)
        ensures
            r == self.mutability,
    {
        self.mutability
    }

    pub fn set_mutability(&mut self, val: Mutability)
        ensures
            final(self).mutability == val,
    {
        self.mutability = val;
    }
}

/// One descriptor per buffer slot of a pipeline.
pub struct PipelineBufDescArray {
    pub descs: Vec<PipelineBufDesc>,
}

impl PipelineBufDescArray {
    /// Every slot with a default descriptor.
    pub fn new() -> (r: PipelineBufDescArray)
        ensures
            r.descs@ == Seq::new(BUFFER_SLOTS as nat, |i: int| PipelineBufDesc { mutability: Mutability::Default }),
    {
        let mut descs: Vec<PipelineBufDesc> = Vec::new();
        let mut i: usize = 0;
        while i < BUFFER_SLOTS
            invariant
                i <= BUFFER_SLOTS,
                descs@ == Seq::new(i as nat, |j: int| PipelineBufDesc { mutability: Mutability::Default }),
            decreases BUFFER_SLOTS - i,
        {
            descs.push(PipelineBufDesc::new());
            i = i + 1;
            proof {
                assert(descs@ =~= Seq::new(i as nat, |j: int| PipelineBufDesc { mutability: Mutability::Default }));
            }
        }
        PipelineBufDescArray { descs }
    }

    pub fn get(&self, index: usize) -> (r: &PipelineBufDesc)
        requires
            index < self.descs@.len(),
        ensures
            *r == self.descs@[index as int],
    {
        &self.descs[index]
    }

    pub fn get_mut(&mut self, index: usize) -> (r: &mut PipelineBufDesc)
        requires
            index < old(self).descs@.len(),
        ensures
            *r == old(self).descs@[index as int],
            final(self).descs@ == old(self).descs@.update(index as int, *final(r)),
    {
        &mut self.descs[index]
    }

    /// A copy of the descriptor at `index`.
    pub fn get_at(&self, index: usize) -> (r: PipelineBufDesc)
        requires
            index < self.descs@.len(),
        ensures
            r == self.descs@[index as int],
    {
        self.descs[index]
    }

    /// Puts a copy of `val` at `at_index`, or a default descriptor for `None`.
    pub fn set(&mut self, val: Option<&PipelineBufDesc>, at_index: usize)
        requires
            at_index < old(self).descs@.len(),
        ensures
            final(self).descs@ == old(self).descs@.update(
                at_index as int,
                match val {
                    Some(d) => *d,
                    None => PipelineBufDesc { mutability: Mutability::Default },
                },
            ),
    {
        let d = match val {
            Some(d) => *d,
            None => PipelineBufDesc::new(),
        };
        self.descs.set(at_index, d);
    }
}

/// The sample buffers attached to a blit pass, one optional buffer per slot.
pub struct SampleBufAttachmentDescriptorArray {
    pub slots: Vec<Option<Id>>,
}

/// Describes a blit pass.
pub struct Descriptor {
    pub attachments: SampleBufAttachmentDescriptorArray,
}

impl Descriptor {
    /// A descriptor with no sample buffer attached.
    pub fn new() -> (r: Descriptor)
        ensures
            r.attachments.slots@.len() == 0,
    {
        Descriptor { attachments: SampleBufAttachmentDescriptorArray { slots: Vec::new() } }
    }

    pub fn sample_buf_attachments(&self) -> (r: &SampleBufAttachmentDescriptorArray)
        ensures
            *r == self.attachments,
    {
        &self.attachments
    }

    pub fn sample_buf_attachments_mut(&mut self) -> (r: &mut SampleBufAttachmentDescriptorArray)
        ensures
            *r == old(self).attachments,
            *final(self) == (Descriptor { attachments: *final(r) }),
    {
        &mut self.attachments
    }
}

} // verus!
