//! Bookkeeping of gpu memory: aligned sub-allocation in a device memory block,
//! storage slices and vertex buffers.

use vstd::prelude::*;
use vstd::arithmetic::power2::pow2;

verus! {

/// `a` is a power of two that fits in 64 bits.
pub open spec fn is_power_of_two(a: int) -> bool {
    exists|k: nat| k < 64 && #[trigger] pow2(k) == a
}

/// The smallest multiple of `align` that is greater or equal to `addr`.
pub open spec fn align_up(addr: int, align: int) -> int {
    ((addr + align - 1) / align) * align
}

proof fn lemma_align_bits(y: u64, a: u64)
    requires
        is_power_of_two(a as int),
    ensures
        a >= 1,
        y & !((a - 1) as u64) == y - y % a,
{
    let k = choose|k: nat| k < 64 && #[trigger] pow2(k) == a as int;
    vstd::arithmetic::power2::lemma_pow2_pos(k);
    vstd::bits::lemma_u64_low_bits_mask_is_mod(y, k);
    assert(vstd::bits::low_bits_mask(k) == pow2(k) - 1);
    let m = (a - 1) as u64;
    assert(y & !m == y - (y & m)) by (bit_vector);
    assert(y & m <= y) by (bit_vector);
}

/// A power of two is at least one.
pub proof fn lemma_power_of_two_positive(a: int)
    requires
        is_power_of_two(a),
    ensures
        a >= 1,
{
    let k = choose|k: nat| k < 64 && #[trigger] pow2(k) == a;
    vstd::arithmetic::power2::lemma_pow2_pos(k);
}

/// Rounds `addr` up to the next multiple of `align`. `align` must be a power of two.
pub fn align_device(addr: u64, align: u64) -> (r: u64)
    requires
        is_power_of_two(align as int),
        addr + align - 1 <= i64::MAX,
    ensures
        r == align_up(addr as int, align as int),
{
    proof {
        lemma_align_bits(addr, align);
    }
    let y = addr + (align - 1);
    proof {
        lemma_align_bits(y, align);
        vstd::arithmetic::div_mod::lemma_fundamental_div_mod(y as int, align as int);
    }
    y & !(align - 1)
}

/// The offset returned by `align_device` is a multiple of the alignment and
/// is the first such offset at or after the address.
pub proof fn lemma_align_up(addr: int, align: int)
    requires
        addr >= 0,
        align > 0,
    ensures
        align_up(addr, align) % align == 0,
        addr <= align_up(addr, align) < addr + align,
{
    let y = addr + align - 1;
    vstd::arithmetic::div_mod::lemma_fundamental_div_mod(y, align);
    vstd::arithmetic::div_mod::lemma_mod_multiples_basic(y / align, align);
    vstd::arithmetic::mul::lemma_mul_is_commutative(y / align, align);
    assert(align_up(addr, align) == y - y % align);
}

/// Rounds `addr` up to the next multiple of `align`.
pub fn pad_device(addr: u64, align: u64) -> (r: u64)
    requires
        align > 0,
        addr + align - 1 <= u64::MAX,
    ensures
        r == align_up(addr as int, align as int),
{
    proof {
        lemma_align_up(addr as int, align as int);
    }
    ((addr + (align - 1)) / align) * align
}

/// Bytes per kilobyte of device memory.
pub const KB: u64 = 1024;
/// Bytes per megabyte of device memory.
pub const MB: u64 = KB * 1000;
/// Bytes per gigabyte of device memory.
pub const GB: u64 = MB * 1000;

/// Bit of `MemoryRange::base` that marks a freed range.
pub const FREED_BIT: u64 = 0x8000_0000_0000_0000;

/// Size, alignment and allowed memory types of a gpu resource.
#[derive(Copy, Clone, PartialEq, Eq, Structural, Debug)]
pub struct MemoryRequirements {
    pub size: u64,
    pub alignment: u64,
    pub memory_type_bits: u32,
}

/// A memory range in a memory allocation: where the allocator stood before
/// the allocation (`base`) and the aligned start of the allocation (`offset`).
/// The most significant bit of `base` means the allocation was freed.
#[derive(Copy, Clone, PartialEq, Eq, Structural, Debug)]
pub struct MemoryRange {
    pub base: u64,
    pub offset: u64,
}

/// Memory allocator for gpu resources that are not recreated often: a bump
/// allocator inside one device memory block.
pub struct DeviceMemoryAlloc {
    pub handle: u64,
    pub size: u64,
    pub next_offset: u64,
    pub allocations: Vec<MemoryRange>,
}

/// The allocations after freeing the allocation at `offset`: the first range
/// that starts at `offset` is marked as freed; without such a range nothing
/// changes.
pub open spec fn freed_ranges(allocs: Seq<MemoryRange>, offset: u64) -> Seq<MemoryRange> {
    if exists|i: int| 0 <= i < allocs.len() && #[trigger] allocs[i].offset == offset {
        let i = choose|i: int|
            0 <= i < allocs.len() && #[trigger] allocs[i].offset == offset && forall|j: int|
                0 <= j < i ==> allocs[j].offset != offset;
        allocs.update(i, MemoryRange { base: allocs[i].base | FREED_BIT, offset })
    } else {
        allocs
    }
}

impl DeviceMemoryAlloc {
    /// The allocations are in the order of their offsets, and all of them
    /// start before the next free offset, which is inside the block.
    pub open spec fn wf(&self) -> bool {
        let allocs = self.allocations@;
        &&& self.next_offset <= self.size
        &&& forall|i: int, j: int| 0 <= i < j < allocs.len() ==> (#[trigger] allocs[i]).offset <= (#[trigger] allocs[j]).offset
        &&& forall|i: int| 0 <= i < allocs.len() ==> (#[trigger] allocs[i]).offset <= self.next_offset
    }

    /// An allocator over the device memory block `handle` of `size` bytes.
    pub fn new(handle: u64, size: u64, alloc_capacity: usize) -> (a: Self)
        ensures
            a.wf(),
            a.handle == handle,
            a.size == size,
            a.next_offset == 0,
            a.allocations@.len() == 0,
    {
        DeviceMemoryAlloc { handle, size, next_offset: 0, allocations: Vec::with_capacity(alloc_capacity) }
    }

    /// An allocator without memory.
    pub fn default() -> (a: Self)
        ensures
            a.wf(),
            a.handle == 0,
            a.size == 0,
            a.next_offset == 0,
            a.allocations@.len() == 0,
    {
        DeviceMemoryAlloc { handle: 0, size: 0, next_offset: 0, allocations: Vec::new() }
    }

    /// Allocates a range for `info` after the previous allocations and returns
    /// its offset, the next offset aligned to `info.alignment`.
    pub fn allocate_memory(&mut self, info: &MemoryRequirements) -> (r: u64)
        requires
            is_power_of_two(info.alignment as int),
            old(self).next_offset + info.alignment - 1 <= i64::MAX,
            align_up(old(self).next_offset as int, info.alignment as int) + info.size <= old(self).size,
        ensures
            old(self).wf() ==> final(self).wf(),
            r == align_up(old(self).next_offset as int, info.alignment as int),
            final(self).next_offset == r + info.size,
            final(self).allocations@ == old(self).allocations@.push(
                MemoryRange { base: old(self).next_offset, offset: r },
            ),
            final(self).handle == old(self).handle,
            final(self).size == old(self).size,
    {
        let aligned_offset = align_device(self.next_offset, info.alignment);
        proof {
            lemma_power_of_two_positive(info.alignment as int);
            lemma_align_up(self.next_offset as int, info.alignment as int);
        }
        let next_offset = aligned_offset + info.size;
        self.allocations.push(MemoryRange { base: self.next_offset, offset: aligned_offset });
        self.next_offset = next_offset;
        aligned_offset
    }

    /// Marks the allocation at `offset` as freed.
    pub fn free_memory(&mut self, offset: u64)
        ensures
            old(self).wf() ==> final(self).wf(),
            final(self).allocations@ == freed_ranges(old(self).allocations@, offset),
            final(self).next_offset == old(self).next_offset,
            final(self).handle == old(self).handle,
            final(self).size == old(self).size,
    {
        let ghost allocs = self.allocations@;
        let mut i: usize = 0;
        while i < self.allocations.len()
            invariant
                i <= allocs.len(),
                self.allocations@ == allocs,
                self.next_offset == old(self).next_offset,
                self.handle == old(self).handle,
                self.size == old(self).size,
                allocs == old(self).allocations@,
                forall|j: int| 0 <= j < i ==> allocs[j].offset != offset,
            decreases allocs.len() - i,
        {
            if self.allocations[i].offset == offset {
                let range = self.allocations[i];
                self.allocations.set(i, MemoryRange { base: range.base | FREED_BIT, offset: range.offset });
                proof {
                    let k = choose|k: int|
                        0 <= k < allocs.len() && #[trigger] allocs[k].offset == offset && forall|j: int|
                            0 <= j < k ==> allocs[j].offset != offset;
                    assert(k == i);
                }
                return;
            }
            i += 1;
        }
    }
}

/// Allocating twice in a row gives ranges that do not overlap: the second
/// starts at or after the end of the first.
pub proof fn lemma_allocations_disjoint(next: int, align1: int, size1: int, align2: int)
    requires
        next >= 0,
        align1 > 0,
        align2 > 0,
        size1 >= 0,
    ensures
        next <= align_up(next, align1),
        align_up(next, align1) + size1 <= align_up(align_up(next, align1) + size1, align2),
{
    lemma_align_up(next, align1);
    lemma_align_up(align_up(next, align1) + size1, align2);
}

/// Memory for uniforms and storage data: one host visible buffer in which
/// slices are sub-allocated one after another.
pub struct StorageMemoryAlloc {
    pub memory: u64,
    pub buffer: u64,
    pub size: u64,
    pub next_offset: u64,
}

impl StorageMemoryAlloc {
    /// An allocator over the buffer `buffer` bound to `memory`, of `size` bytes.
    pub fn new(memory: u64, buffer: u64, size: u64) -> (a: Self)
        ensures
            a.memory == memory,
            a.buffer == buffer,
            a.size == size,
            a.next_offset == 0,
    {
        StorageMemoryAlloc { memory, buffer, size, next_offset: 0 }
    }

    /// Allocates room for `capacity` values of type `V`, aligned to
    /// `alignment`, and returns its offset in the mapped buffer.
    pub fn allocate_slice<V>(&mut self, alignment: u64, capacity: usize) -> (r: u64)
        requires
            is_power_of_two(alignment as int),
            old(self).next_offset + alignment - 1 <= i64::MAX,
            capacity * vstd::layout::size_of::<V>() <= usize::MAX,
            align_up(old(self).next_offset as int, alignment as int) + capacity * vstd::layout::size_of::<V>()
                <= old(self).size,
        ensures
            r == align_up(old(self).next_offset as int, alignment as int),
            final(self).next_offset == r + capacity * vstd::layout::size_of::<V>(),
            final(self).memory == old(self).memory,
            final(self).buffer == old(self).buffer,
            final(self).size == old(self).size,
    {
        let data_size = (capacity * core::mem::size_of::<V>()) as u64;
        let aligned_offset = align_device(self.next_offset, alignment);
        let next_offset = aligned_offset + data_size;
        self.next_offset = next_offset;
        aligned_offset
    }
}

/// A slice of values of type `V` in gpu visible memory: `capacity` values
/// starting at `offset` in the mapped storage buffer.
pub struct DeviceSlice<V> {
    pub capacity: usize,
    pub ptr: u64,
    pub data: core::marker::PhantomData<V>,
}

impl<V> DeviceSlice<V> {
    /// Number of values in the slice.
    pub closed spec fn spec_capacity(&self) -> int {
        self.capacity as int
    }

    /// Offset of the slice in the mapped buffer.
    pub closed spec fn spec_ptr(&self) -> u64 {
        self.ptr
    }

    /// Allocates room for `capacity` values in `storage`.
    pub fn new_default(storage: &mut StorageMemoryAlloc, storage_align: u64, capacity: usize) -> (s: Self)
        requires
            is_power_of_two(storage_align as int),
            old(storage).next_offset + storage_align - 1 <= i64::MAX,
            capacity * vstd::layout::size_of::<V>() <= usize::MAX,
            align_up(old(storage).next_offset as int, storage_align as int) + capacity
                * vstd::layout::size_of::<V>() <= old(storage).size,
        ensures
            s.spec_capacity() == capacity,
            s.spec_ptr() == align_up(old(storage).next_offset as int, storage_align as int),
            final(storage).next_offset == s.spec_ptr() + capacity * vstd::layout::size_of::<V>(),
            final(storage).memory == old(storage).memory,
            final(storage).buffer == old(storage).buffer,
            final(storage).size == old(storage).size,
    {
        let ptr = storage.allocate_slice::<V>(storage_align, capacity);
        DeviceSlice { capacity, ptr, data: core::marker::PhantomData }
    }

    /// An empty slice.
    pub fn default() -> (s: Self)
        ensures
            s.spec_capacity() == 0,
            s.spec_ptr() == 0,
    {
        DeviceSlice { capacity: 0, ptr: 0, data: core::marker::PhantomData }
    }

    /// The total size of the slice in bytes.
    pub fn range(&self) -> (r: usize)
        requires
            self.spec_capacity() * vstd::layout::size_of::<V>() <= usize::MAX,
        ensures
            r == self.spec_capacity() * vstd::layout::size_of::<V>(),
    {
        self.capacity * core::mem::size_of::<V>()
    }

    /// Offset of the slice in the mapped buffer.
    pub fn ptr(&self) -> (r: u64)
        ensures
            r == self.spec_ptr(),
    {
        self.ptr
    }

    /// Offset in the mapped buffer of the value at `index`.
    pub fn write(&self, index: usize) -> (r: u64)
        requires
            index < self.spec_capacity(),
            self.spec_ptr() + self.spec_capacity() * vstd::layout::size_of::<V>() <= u64::MAX,
        ensures
            r == self.spec_ptr() + index * vstd::layout::size_of::<V>(),
    {
        proof {
            assert(index * vstd::layout::size_of::<V>() <= self.spec_capacity() * vstd::layout::size_of::<V>())
                by (nonlinear_arith)
                requires
                    index < self.spec_capacity(),
            ;
        }
        self.ptr + (index as u64) * (core::mem::size_of::<V>() as u64)
    }
}

/// A copy from the staging buffer into another buffer.
#[derive(Copy, Clone, PartialEq, Eq, Structural, Debug)]
pub struct BufferCopy {
    pub src_offset: u64,
    pub dst_offset: u64,
    pub size: u64,
}

/// A pending copy from the staging buffer into `dst_buffer`.
#[derive(Copy, Clone, PartialEq, Eq, Structural, Debug)]
pub struct StagingBufferCopy {
    pub dst_buffer: u64,
    pub copy: BufferCopy,
}

/// A pending copy from the staging buffer into the image `dst_image`, of
/// `extent` texels, reading from `buffer_offset`.
#[derive(Copy, Clone, PartialEq, Eq, Structural, Debug)]
pub struct StagingImageCopy {
    pub dst_image: u64,
    pub buffer_offset: u64,
    pub width: u32,
    pub height: u32,
    pub depth: u32,
}

/// Image layout: contents undefined.
pub const LAYOUT_UNDEFINED: i32 = 0;
/// Image layout: ready to be sampled by shaders.
pub const LAYOUT_SHADER_READ_ONLY_OPTIMAL: i32 = 5;
/// Image layout: destination of transfers.
pub const LAYOUT_TRANSFER_DST_OPTIMAL: i32 = 7;
/// Access: none.
pub const ACCESS_NONE: u64 = 0;
/// Access: shader reads.
pub const ACCESS_SHADER_READ: u64 = 0x20;
/// Access: transfer writes.
pub const ACCESS_TRANSFER_WRITE: u64 = 0x1000;
/// Pipeline stage: none.
pub const STAGE_NONE: u64 = 0;
/// Pipeline stage: fragment shading.
pub const STAGE_FRAGMENT_SHADER: u64 = 0x80;
/// Pipeline stage: every transfer.
pub const STAGE_ALL_TRANSFER: u64 = 0x1000;

/// A layout transition of `image`, waiting for `src_access` in
/// `src_stage` and making it available to `dst_access` in `dst_stage`.
#[derive(Copy, Clone, PartialEq, Eq, Structural, Debug)]
pub struct ImageBarrier {
    pub image: u64,
    pub old_layout: i32,
    pub new_layout: i32,
    pub src_access: u64,
    pub src_stage: u64,
    pub dst_access: u64,
    pub dst_stage: u64,
}

/// The transition of `image` before its pixels are copied in.
pub open spec fn prepare_barrier(image: u64) -> ImageBarrier {
    ImageBarrier {
        image,
        old_layout: LAYOUT_UNDEFINED,
        new_layout: LAYOUT_TRANSFER_DST_OPTIMAL,
        src_access: ACCESS_NONE,
        src_stage: STAGE_NONE,
        dst_access: ACCESS_TRANSFER_WRITE,
        dst_stage: STAGE_ALL_TRANSFER,
    }
}

/// The transition of `image` after its pixels were copied in, for sampling.
pub open spec fn final_barrier(image: u64) -> ImageBarrier {
    ImageBarrier {
        image,
        old_layout: LAYOUT_TRANSFER_DST_OPTIMAL,
        new_layout: LAYOUT_SHADER_READ_ONLY_OPTIMAL,
        src_access: ACCESS_TRANSFER_WRITE,
        src_stage: STAGE_ALL_TRANSFER,
        dst_access: ACCESS_SHADER_READ,
        dst_stage: STAGE_FRAGMENT_SHADER,
    }
}

/// The staging buffer: data to upload is placed one after another in a host
/// visible buffer of `buffer_capacity` bytes, and copies are recorded.
pub struct VulkanStaging {
    pub upload_offset: u64,
    pub buffer_capacity: u64,
    pub vertex_buffer_copies: Vec<StagingBufferCopy>,
    pub image_barrier_prepare: Vec<ImageBarrier>,
    pub image_copies: Vec<StagingImageCopy>,
    pub image_barrier_final: Vec<ImageBarrier>,
}

impl VulkanStaging {
    /// An empty staging area of `buffer_capacity` bytes.
    pub fn new(buffer_capacity: u64) -> (s: Self)
        ensures
            s.upload_offset == 0,
            s.buffer_capacity == buffer_capacity,
            s.vertex_buffer_copies@.len() == 0,
            s.image_barrier_prepare@.len() == 0,
            s.image_copies@.len() == 0,
            s.image_barrier_final@.len() == 0,
    {
        VulkanStaging {
            upload_offset: 0,
            buffer_capacity,
            vertex_buffer_copies: Vec::with_capacity(16),
            image_barrier_prepare: Vec::with_capacity(8),
            image_copies: Vec::with_capacity(8),
            image_barrier_final: Vec::with_capacity(8),
        }
    }

    /// Records a copy into `dst_buffer`.
    pub fn vertex_buffer_copy(&mut self, dst_buffer: u64, copy: BufferCopy)
        ensures
            final(self).vertex_buffer_copies@ == old(self).vertex_buffer_copies@.push(
                StagingBufferCopy { dst_buffer, copy },
            ),
            final(self).upload_offset == old(self).upload_offset,
            final(self).buffer_capacity == old(self).buffer_capacity,
            final(self).image_barrier_prepare == old(self).image_barrier_prepare,
            final(self).image_copies == old(self).image_copies,
            final(self).image_barrier_final == old(self).image_barrier_final,
    {
        self.vertex_buffer_copies.push(StagingBufferCopy { dst_buffer, copy });
    }

    /// Records the upload of the pixels placed at `buffer_offset` into
    /// `image`: the transition to a transfer destination, the copy, and the
    /// transition to a sampled image.
    pub fn upload_image_shared(&mut self, image: u64, buffer_offset: u64, width: u32, height: u32, depth: u32)
        ensures
            final(self).image_copies@ == old(self).image_copies@.push(
                StagingImageCopy { dst_image: image, buffer_offset, width, height, depth },
            ),
            final(self).image_barrier_prepare@ == old(self).image_barrier_prepare@.push(prepare_barrier(image)),
            final(self).image_barrier_final@ == old(self).image_barrier_final@.push(final_barrier(image)),
            final(self).upload_offset == old(self).upload_offset,
            final(self).buffer_capacity == old(self).buffer_capacity,
            final(self).vertex_buffer_copies == old(self).vertex_buffer_copies,
    {
        self.image_copies.push(StagingImageCopy { dst_image: image, buffer_offset, width, height, depth });
        self.image_barrier_prepare.push(
            ImageBarrier {
                image,
                old_layout: LAYOUT_UNDEFINED,
                new_layout: LAYOUT_TRANSFER_DST_OPTIMAL,
                src_access: ACCESS_NONE,
                src_stage: STAGE_NONE,
                dst_access: ACCESS_TRANSFER_WRITE,
                dst_stage: STAGE_ALL_TRANSFER,
            },
        );
        self.image_barrier_final.push(
            ImageBarrier {
                image,
                old_layout: LAYOUT_TRANSFER_DST_OPTIMAL,
                new_layout: LAYOUT_SHADER_READ_ONLY_OPTIMAL,
                src_access: ACCESS_TRANSFER_WRITE,
                src_stage: STAGE_ALL_TRANSFER,
                dst_access: ACCESS_SHADER_READ,
                dst_stage: STAGE_FRAGMENT_SHADER,
            },
        );
    }

    /// Places `size_bytes` bytes at the current upload offset padded to
    /// `align`. Returns the place, or `None` when it does not fit, in which
    /// case nothing changes. The upload offset grows by `size_bytes`.
    pub fn copy_data_with_align(&mut self, size_bytes: u64, align: u64) -> (r: Option<u64>)
        requires
            align > 0,
            old(self).upload_offset + align - 1 <= u64::MAX,
            old(self).upload_offset + size_bytes <= u64::MAX,
        ensures
            ({
                let offset = align_up(old(self).upload_offset as int, align as int);
                if offset + size_bytes > old(self).buffer_capacity {
                    &&& r is None
                    &&& final(self).upload_offset == old(self).upload_offset
                } else {
                    &&& r == Some(offset as u64)
                    &&& final(self).upload_offset == old(self).upload_offset + size_bytes
                }
            }),
            final(self).buffer_capacity == old(self).buffer_capacity,
            final(self).vertex_buffer_copies == old(self).vertex_buffer_copies,
            final(self).image_barrier_prepare == old(self).image_barrier_prepare,
            final(self).image_copies == old(self).image_copies,
            final(self).image_barrier_final == old(self).image_barrier_final,
    {
        let offset = pad_device(self.upload_offset, align);
        if offset > self.buffer_capacity || size_bytes > self.buffer_capacity - offset {
            return None;
        }
        self.upload_offset = self.upload_offset + size_bytes;
        Some(offset)
    }

    /// Forgets the recorded copies and starts placing data from the start.
    pub fn clear_data(&mut self)
        ensures
            final(self).vertex_buffer_copies@.len() == 0,
            final(self).image_barrier_prepare@.len() == 0,
            final(self).image_copies@.len() == 0,
            final(self).image_barrier_final@.len() == 0,
            final(self).upload_offset == 0,
            final(self).buffer_capacity == old(self).buffer_capacity,
    {
        self.vertex_buffer_copies.clear();
        self.image_barrier_prepare.clear();
        self.image_barrier_final.clear();
        self.image_copies.clear();
        self.upload_offset = 0;
    }

    /// Places `size_bytes` bytes of pixels aligned to `align` and records
    /// their upload into `image`. The pixels are read from the start of the
    /// buffer when they do not fit.
    pub fn upload_image_memory(&mut self, image: u64, size_bytes: u64, align: u64, width: u32, height: u32, depth: u32) -> (r: u64)
        requires
            align > 0,
            old(self).upload_offset + align - 1 <= u64::MAX,
            old(self).upload_offset + size_bytes <= u64::MAX,
        ensures
            ({
                let offset = align_up(old(self).upload_offset as int, align as int);
                let fits = offset + size_bytes <= old(self).buffer_capacity;
                &&& r == if fits { offset as u64 } else { 0u64 }
                &&& final(self).upload_offset == if fits { old(self).upload_offset + size_bytes } else { old(self).upload_offset as int }
                &&& final(self).image_copies@ == old(self).image_copies@.push(
                    StagingImageCopy { dst_image: image, buffer_offset: r, width, height, depth },
                )
                &&& final(self).image_barrier_prepare@ == old(self).image_barrier_prepare@.push(prepare_barrier(image))
                &&& final(self).image_barrier_final@ == old(self).image_barrier_final@.push(final_barrier(image))
            }),
            final(self).buffer_capacity == old(self).buffer_capacity,
            final(self).vertex_buffer_copies == old(self).vertex_buffer_copies,
    {
        let buffer_offset = match self.copy_data_with_align(size_bytes, align) {
            Some(o) => o,
            None => 0,
        };
        self.upload_image_shared(image, buffer_offset, width, height, depth);
        buffer_offset
    }
}

/// Alignment of the sections of a vertex buffer.
pub const BUFFER_ALIGN: u64 = 64;

/// A buffer that holds 32 bit indices followed by interleaved vertex
/// attributes, backed by device memory.
pub struct VertexAlloc<V> {
    pub buffer: u64,
    pub offset: u64,
    pub index_capacity: u32,
    pub vertex_capacity: u32,
    pub data: core::marker::PhantomData<V>,
}

/// Size in bytes of the index section and of the vertex section of a vertex
/// buffer, each rounded up to `BUFFER_ALIGN`.
pub open spec fn vertex_buffer_sections(index_capacity: int, vertex_capacity: int, vertex_size: int) -> (int, int) {
    (align_up(index_capacity * 4, 64), align_up(vertex_capacity * vertex_size, 64))
}

impl<V> VertexAlloc<V> {
    /// Capacity in indices.
    pub closed spec fn spec_index_capacity(&self) -> int {
        self.index_capacity as int
    }

    /// Capacity in vertices.
    pub closed spec fn spec_vertex_capacity(&self) -> int {
        self.vertex_capacity as int
    }

    /// Offset of the buffer in its device memory.
    pub closed spec fn spec_offset(&self) -> int {
        self.offset as int
    }

    /// The byte sizes of the index section, of the vertex section, and of the
    /// whole buffer for the given capacities.
    pub fn buffer_sizes(index_capacity: u32, vertex_capacity: u32) -> (r: (u32, u32, u32))
        requires
            align_up(index_capacity * 4, 64) + align_up(
                vertex_capacity * vstd::layout::size_of::<V>(),
                64,
            ) <= u32::MAX,
            vertex_capacity * vstd::layout::size_of::<V>() <= u32::MAX,
            index_capacity * 4 <= u32::MAX,
        ensures
            r.0 == vertex_buffer_sections(
                index_capacity as int,
                vertex_capacity as int,
                vstd::layout::size_of::<V>() as int,
            ).0,
            r.1 == vertex_buffer_sections(
                index_capacity as int,
                vertex_capacity as int,
                vstd::layout::size_of::<V>() as int,
            ).1,
            r.2 == r.0 + r.1,
    {
        proof {
            lemma_pow2_64();
            lemma_align_up((index_capacity * 4) as int, 64);
            lemma_align_up(vertex_capacity * vstd::layout::size_of::<V>(), 64);
        }
        let mut index_size = index_capacity * 4;
        index_size = align_device(index_size as u64, BUFFER_ALIGN) as u32;
        let vsize = core::mem::size_of::<V>() as u64;
        let vertex_bytes = (vertex_capacity as u64) * vsize;
        let vertex_size = align_device(vertex_bytes, BUFFER_ALIGN) as u32;
        let total_size = index_size + vertex_size;
        (index_size, vertex_size, total_size)
    }

    /// A vertex buffer `buffer` bound at `offset` of its device memory.
    pub fn new(buffer: u64, offset: u64, index_capacity: u32, vertex_capacity: u32) -> (a: Self)
        ensures
            a.buffer == buffer,
            a.spec_offset() == offset,
            a.spec_index_capacity() == index_capacity,
            a.spec_vertex_capacity() == vertex_capacity,
    {
        VertexAlloc { buffer, offset, index_capacity, vertex_capacity, data: core::marker::PhantomData }
    }

    /// An empty vertex buffer.
    pub fn default() -> (a: Self)
        ensures
            a.buffer == 0,
            a.spec_offset() == 0,
            a.spec_index_capacity() == 0,
            a.spec_vertex_capacity() == 0,
    {
        VertexAlloc { buffer: 0, offset: 0, index_capacity: 0, vertex_capacity: 0, data: core::marker::PhantomData }
    }

    /// Offset of the buffer in its device memory.
    pub fn memory_offset(&self) -> (r: u64)
        ensures
            r == self.spec_offset(),
    {
        self.offset
    }

    /// Offset of the indices in the buffer.
    pub fn index_offset(&self) -> (r: u64)
        ensures
            r == 0,
    {
        0
    }

    /// Offset of the vertices in the buffer: right after the index capacity.
    pub fn vertex_offset(&self) -> (r: [u64; 1])
        ensures
            r@ == seq![(self.spec_index_capacity() * 4) as u64],
    {
        let index_size_bytes = (self.index_capacity as u64) * 4;
        [index_size_bytes]
    }

    /// Places `index_count` indices and `vertex_count` vertices in `staging`
    /// and records the copies into this buffer, truncated to its capacity.
    /// Returns where the indices and the vertices were placed in the staging
    /// buffer, or `None` without doing anything when either set is empty.
    pub fn set_data(&self, staging: &mut VulkanStaging, index_count: usize, vertex_count: usize) -> (r:
        Option<(u64, u64)>)
        requires
            old(staging).upload_offset + 4 * index_count + vstd::layout::size_of::<V>() * vertex_count
                + vstd::layout::align_of::<V>() + 4 <= u64::MAX,
            self.spec_vertex_capacity() * vstd::layout::size_of::<V>() <= u64::MAX,
            4 * index_count <= usize::MAX,
            vstd::layout::size_of::<V>() * vertex_count <= usize::MAX,
        ensures
            index_count == 0 || vertex_count == 0 ==> r is None && *final(staging) == *old(staging),
            index_count > 0 && vertex_count > 0 ==> {
                let isize = 4 * index_count;
                let vsize = vstd::layout::size_of::<V>() * vertex_count;
                let io = align_up(old(staging).upload_offset as int, 4);
                let ifits = io + isize <= old(staging).buffer_capacity;
                let up1 = if ifits { old(staging).upload_offset + isize } else { old(staging).upload_offset as int };
                let vo = align_up(up1, vstd::layout::align_of::<V>() as int);
                let vfits = vo + vsize <= old(staging).buffer_capacity;
                let ic = if index_count < self.spec_index_capacity() { index_count as int } else { self.spec_index_capacity() };
                let vc = if vertex_count < self.spec_vertex_capacity() { vertex_count as int } else { self.spec_vertex_capacity() };
                let src_i = if ifits { io } else { 0 };
                let src_v = if vfits { vo } else { 0 };
                &&& r == Some((src_i as u64, src_v as u64))
                &&& final(staging).upload_offset == if vfits { up1 + vsize } else { up1 }
                &&& final(staging).buffer_capacity == old(staging).buffer_capacity
                &&& final(staging).image_barrier_prepare == old(staging).image_barrier_prepare
                &&& final(staging).image_copies == old(staging).image_copies
                &&& final(staging).image_barrier_final == old(staging).image_barrier_final
                &&& final(staging).vertex_buffer_copies@ == old(staging).vertex_buffer_copies@.push(
                    StagingBufferCopy {
                        dst_buffer: self.buffer,
                        copy: BufferCopy { src_offset: src_i as u64, dst_offset: 0, size: (ic * 4) as u64 },
                    },
                ).push(
                    StagingBufferCopy {
                        dst_buffer: self.buffer,
                        copy: BufferCopy {
                            src_offset: src_v as u64,
                            dst_offset: (self.spec_index_capacity() * 4) as u64,
                            size: (vc * vstd::layout::size_of::<V>()) as u64,
                        },
                    },
                )
            },
    {
        if index_count == 0 || vertex_count == 0 {
            return None;
        }
        let index_len = if index_count < self.index_capacity as usize { index_count as u64 } else { self.index_capacity as u64 };
        let vertex_len = if vertex_count < self.vertex_capacity as usize { vertex_count as u64 } else { self.vertex_capacity as u64 };
        let index_offset = self.index_offset();
        let vertex_offset = self.vertex_offset()[0];
        let vsize = core::mem::size_of::<V>();
        let valign = core::mem::align_of::<V>();
        proof {
            broadcast use vstd::layout::align_nonzero;
            lemma_align_up(old(staging).upload_offset as int, 4);
        }
        let src_index_offset = match staging.copy_data_with_align((4 * index_count) as u64, 4) {
            Some(o) => o,
            None => 0,
        };
        proof {
            lemma_align_up(staging.upload_offset as int, valign as int);
        }
        let src_vertex_offset = match staging.copy_data_with_align((vsize * vertex_count) as u64, valign as u64) {
            Some(o) => o,
            None => 0,
        };
        proof {
            assert(vertex_len * vsize <= self.vertex_capacity * vsize) by (nonlinear_arith)
                requires
                    vertex_len <= self.vertex_capacity,
            ;
        }
        let index_copy = BufferCopy { size: index_len * 4, src_offset: src_index_offset, dst_offset: index_offset };
        let vertex_copy = BufferCopy {
            size: vertex_len * (vsize as u64),
            src_offset: src_vertex_offset,
            dst_offset: vertex_offset,
        };
        staging.vertex_buffer_copy(self.buffer, index_copy);
        staging.vertex_buffer_copy(self.buffer, vertex_copy);
        Some((src_index_offset, src_vertex_offset))
    }
}

proof fn lemma_pow2_64()
    ensures
        is_power_of_two(64),
{
    vstd::arithmetic::power2::lemma2_to64();
    assert(pow2(6) == 64);
}

} // verus!
