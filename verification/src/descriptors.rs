//! Descriptor bookkeeping: the pool sizes of a descriptor allocator, its
//! collections of preallocated descriptor sets, and the descriptor writes
//! waiting to be submitted.
//!
//! Gpu handles are plain `u64` values and descriptor types the `i32` codes
//! of the graphics api.

use vstd::prelude::*;

verus! {

/// The number of descriptors of one type a pool must hold.
#[derive(Copy, Clone, PartialEq, Eq, Structural, Debug)]
pub struct PoolSize {
    pub ty: i32,
    pub descriptor_count: u32,
}

/// `count` descriptor sets of layout `layout`, whose bindings have the
/// types `binding_types`.
pub struct DescriptorsAllocation {
    pub layout: u64,
    pub binding_types: Vec<i32>,
    pub count: u32,
}

/// Errors of the descriptor allocator.
#[derive(Copy, Clone, PartialEq, Eq, Structural, Debug)]
pub enum DescriptorError {
    /// The allocations ask for no descriptor set at all.
    NoCapacity,
    /// Every set of this layout is in use.
    NoMoreSets(usize),
}

/// The pool sizes after counting `count` more descriptors of type `ty`: the
/// entry of that type grows, or a new entry is added at the end.
pub open spec fn add_pool_size(pool: Seq<(i32, nat)>, ty: i32, count: nat) -> Seq<(i32, nat)> {
    if exists|i: int| 0 <= i < pool.len() && #[trigger] pool[i].0 == ty {
        let i = choose|i: int| 0 <= i < pool.len() && #[trigger] pool[i].0 == ty;
        pool.update(i, (ty, pool[i].1 + count))
    } else {
        pool.push((ty, count))
    }
}

/// The pool sizes after counting `count` descriptors for each binding type
/// in `types`.
pub open spec fn pool_after_types(pool: Seq<(i32, nat)>, types: Seq<i32>, count: nat) -> Seq<(i32, nat)>
    decreases types.len(),
{
    if types.len() == 0 {
        pool
    } else {
        add_pool_size(pool_after_types(pool, types.drop_last(), count), types.last(), count)
    }
}

/// The pool sizes needed by the first `k` allocations.
pub open spec fn pool_after(allocs: Seq<DescriptorsAllocation>, k: int) -> Seq<(i32, nat)>
    decreases k,
{
    if k <= 0 {
        Seq::empty()
    } else {
        pool_after_types(pool_after(allocs, k - 1), allocs[k - 1].binding_types@, allocs[k - 1].count as nat)
    }
}

/// The number of sets of the first `k` allocations.
pub open spec fn total_sets(allocs: Seq<DescriptorsAllocation>, k: int) -> nat
    decreases k,
{
    if k <= 0 {
        0
    } else {
        total_sets(allocs, k - 1) + allocs[k - 1].count as nat
    }
}

/// No two pool entries have the same type.
pub open spec fn distinct_types(pool: Seq<(i32, nat)>) -> bool {
    forall|i: int, j: int| 0 <= i < j < pool.len() ==> #[trigger] pool[i].0 != #[trigger] pool[j].0
}

/// Counting descriptors keeps one entry per type, never removes an entry
/// and never lowers a count.
pub proof fn lemma_add_pool_size(pool: Seq<(i32, nat)>, ty: i32, count: nat)
    requires
        distinct_types(pool),
    ensures
        distinct_types(add_pool_size(pool, ty, count)),
        pool.len() <= add_pool_size(pool, ty, count).len() <= pool.len() + 1,
        forall|i: int| 0 <= i < pool.len() ==> #[trigger] add_pool_size(pool, ty, count)[i].0 == pool[i].0,
        forall|i: int| 0 <= i < pool.len() ==> pool[i].1 <= #[trigger] add_pool_size(pool, ty, count)[i].1,
        exists|i: int| 0 <= i < add_pool_size(pool, ty, count).len() && #[trigger] add_pool_size(pool, ty, count)[i].0 == ty,
{
    if exists|i: int| 0 <= i < pool.len() && #[trigger] pool[i].0 == ty {
        let i = choose|i: int| 0 <= i < pool.len() && #[trigger] pool[i].0 == ty;
        assert(add_pool_size(pool, ty, count)[i].0 == ty);
    } else {
        assert(add_pool_size(pool, ty, count)[pool.len() as int].0 == ty);
    }
}

/// The pool sizes computed for any allocations have one entry per type.
pub proof fn lemma_pool_after_distinct(allocs: Seq<DescriptorsAllocation>, k: int)
    requires
        0 <= k <= allocs.len(),
    ensures
        distinct_types(pool_after(allocs, k)),
    decreases k,
{
    if k > 0 {
        lemma_pool_after_distinct(allocs, k - 1);
        lemma_pool_after_types_distinct(pool_after(allocs, k - 1), allocs[k - 1].binding_types@, allocs[k - 1].count as nat);
    }
}

proof fn lemma_pool_after_types_distinct(pool: Seq<(i32, nat)>, types: Seq<i32>, count: nat)
    requires
        distinct_types(pool),
    ensures
        distinct_types(pool_after_types(pool, types, count)),
        pool.len() <= pool_after_types(pool, types, count).len(),
        forall|i: int| 0 <= i < pool.len() ==> pool[i].1 <= #[trigger] pool_after_types(pool, types, count)[i].1,
    decreases types.len(),
{
    if types.len() > 0 {
        let p = pool_after_types(pool, types.drop_last(), count);
        lemma_pool_after_types_distinct(pool, types.drop_last(), count);
        lemma_add_pool_size(p, types.last(), count);
        assert forall|i: int| 0 <= i < pool.len() implies pool[i].1 <= #[trigger] pool_after_types(pool, types, count)[i].1 by {
            assert(pool[i].1 <= p[i].1);
        }
    }
}

proof fn lemma_pool_after_grows(allocs: Seq<DescriptorsAllocation>, j: int, k: int)
    requires
        0 <= j <= k <= allocs.len(),
    ensures
        pool_after(allocs, j).len() <= pool_after(allocs, k).len(),
        forall|i: int| 0 <= i < pool_after(allocs, j).len() ==> pool_after(allocs, j)[i].1 <= #[trigger] pool_after(allocs, k)[i].1,
    decreases k - j,
{
    if j < k {
        lemma_pool_after_grows(allocs, j, k - 1);
        lemma_pool_after_distinct(allocs, k - 1);
        lemma_pool_after_types_distinct(pool_after(allocs, k - 1), allocs[k - 1].binding_types@, allocs[k - 1].count as nat);
    }
}

proof fn lemma_total_sets_grows(allocs: Seq<DescriptorsAllocation>, j: int, k: int)
    requires
        0 <= j <= k,
    ensures
        total_sets(allocs, j) <= total_sets(allocs, k),
    decreases k - j,
{
    if j < k {
        lemma_total_sets_grows(allocs, j, k - 1);
    }
}

/// The pool fits in the pool size table of the allocator and its counts in
/// 32 bits.
pub open spec fn pool_fits(pool: Seq<(i32, nat)>) -> bool {
    &&& pool.len() <= 10
    &&& forall|i: int| 0 <= i < pool.len() ==> #[trigger] pool[i].1 <= u32::MAX
}

/// The pool sizes as the graphics api takes them.
pub open spec fn pool_matches(r: Seq<PoolSize>, pool: Seq<(i32, nat)>) -> bool {
    &&& r.len() == pool.len()
    &&& forall|i: int| 0 <= i < r.len() ==> #[trigger] r[i].ty == pool[i].0 && r[i].descriptor_count == pool[i].1
}

/// The number of descriptor sets and the pool sizes a descriptor pool
/// needs for `allocations`: one entry per descriptor type, in order of first
/// use, counting `count` descriptors for every binding of that type in an
/// allocation of `count` sets. Allocations asking for no set are refused.
pub fn compile_allocations(allocations: &[DescriptorsAllocation]) -> (r: Result<(u32, Vec<PoolSize>), DescriptorError>)
    requires
        pool_fits(pool_after(allocations@, allocations@.len() as int)),
        total_sets(allocations@, allocations@.len() as int) <= u32::MAX,
    ensures
        allocations@.len() == 0 || total_sets(allocations@, allocations@.len() as int) == 0 ==> r
            == Err::<(u32, Vec<PoolSize>), DescriptorError>(DescriptorError::NoCapacity),
        !(allocations@.len() == 0 || total_sets(allocations@, allocations@.len() as int) == 0) ==> {
            &&& r is Ok
            &&& r->Ok_0.0 == total_sets(allocations@, allocations@.len() as int)
            &&& pool_matches(r->Ok_0.1@, pool_after(allocations@, allocations@.len() as int))
        },
{
    let ghost allocs = allocations@;
    let ghost n = allocs.len() as int;
    let mut max_sets: u32 = 0;
    let mut pool_sizes: Vec<PoolSize> = Vec::new();
    let mut a: usize = 0;
    while a < allocations.len()
        invariant
            allocs == allocations@,
            n == allocs.len(),
            pool_fits(pool_after(allocs, n)),
            total_sets(allocs, n) <= u32::MAX,
            a <= n,
            max_sets == total_sets(allocs, a as int),
            pool_matches(pool_sizes@, pool_after(allocs, a as int)),
        decreases n - a,
    {
        let alloc = &allocations[a];
        proof {
            lemma_total_sets_grows(allocs, a + 1, n);
            lemma_pool_after_grows(allocs, a + 1, n);
            lemma_pool_after_distinct(allocs, a as int);
        }
        max_sets = max_sets + alloc.count;
        let ghost base = pool_after(allocs, a as int);
        let ghost types = alloc.binding_types@;
        let ghost count = alloc.count as nat;
        proof {
            assert(pool_after(allocs, a + 1) == pool_after_types(base, types, count));
            let pn = pool_after(allocs, n);
            let pa = pool_after(allocs, a + 1);
            assert forall|i: int| 0 <= i < pa.len() implies #[trigger] pa[i].1 <= u32::MAX by {
                assert(pa[i].1 <= pn[i].1);
            }
        }
        let mut t: usize = 0;
        while t < alloc.binding_types.len()
            invariant
                types == alloc.binding_types@,
                count == alloc.count,
                distinct_types(base),
                pool_fits(pool_after_types(base, types, count)),
                t <= types.len(),
                pool_matches(pool_sizes@, pool_after_types(base, types.take(t as int), count)),
            decreases types.len() - t,
        {
            let ty = alloc.binding_types[t];
            let ghost cur = pool_after_types(base, types.take(t as int), count);
            proof {
                assert(types.take(t + 1).drop_last() =~= types.take(t as int));
                lemma_pool_after_types_distinct(base, types.take(t as int), count);
                lemma_pool_after_types_distinct(base, types.take(t + 1), count);
                lemma_prefix_pool_bound(base, types, count, t + 1);
                lemma_add_pool_size(cur, ty, count);
            }
            let mut i: usize = 0;
            let mut found = false;
            while i < pool_sizes.len()
                invariant_except_break
                    !found,
                invariant
                    pool_matches(pool_sizes@, cur),
                    i <= pool_sizes@.len(),
                    forall|j: int| 0 <= j < i ==> #[trigger] pool_sizes@[j].ty != ty,
                ensures
                    pool_matches(pool_sizes@, cur),
                    found ==> i < pool_sizes@.len() && pool_sizes@[i as int].ty == ty,
                    !found ==> forall|j: int| 0 <= j < pool_sizes@.len() ==> #[trigger] pool_sizes@[j].ty != ty,
                decreases pool_sizes@.len() - i,
            {
                if pool_sizes[i].ty == ty {
                    found = true;
                    break;
                }
                i = i + 1;
            }
            proof {
                assert(distinct_types(cur));
            }
            if found {
                proof {
                    let k = choose|k: int| 0 <= k < cur.len() && #[trigger] cur[k].0 == ty;
                    assert(cur[i as int].0 == ty);
                    assert(k == i);
                    assert(add_pool_size(cur, ty, count)[i as int].1 == cur[i as int].1 + count);
                }
                let old_count = pool_sizes[i].descriptor_count;
                pool_sizes.set(i, PoolSize { ty, descriptor_count: old_count + alloc.count });
                proof {
                    assert(pool_matches(pool_sizes@, add_pool_size(cur, ty, count)));
                }
            } else {
                pool_sizes.push(PoolSize { ty, descriptor_count: alloc.count });
                proof {
                    assert forall|k: int| 0 <= k < cur.len() implies #[trigger] cur[k].0 != ty by {
                        assert(pool_sizes@[k].ty != ty);
                    }
                    assert(!exists|k: int| 0 <= k < cur.len() && #[trigger] cur[k].0 == ty);
                    assert(pool_matches(pool_sizes@, add_pool_size(cur, ty, count)));
                }
            }
            t = t + 1;
        }
        proof {
            assert(types.take(types.len() as int) =~= types);
        }
        a = a + 1;
    }
    if allocations.len() == 0 || max_sets == 0 {
        return Err(DescriptorError::NoCapacity);
    }
    Ok((max_sets, pool_sizes))
}

proof fn lemma_prefix_pool_bound(base: Seq<(i32, nat)>, types: Seq<i32>, count: nat, t: int)
    requires
        distinct_types(base),
        0 <= t <= types.len(),
        pool_fits(pool_after_types(base, types, count)),
    ensures
        pool_fits(pool_after_types(base, types.take(t), count)),
    decreases types.len() - t,
{
    if t < types.len() {
        lemma_prefix_pool_bound(base, types, count, t + 1);
        let p = pool_after_types(base, types.take(t), count);
        assert(types.take(t + 1).drop_last() =~= types.take(t));
        lemma_pool_after_types_distinct(base, types.take(t), count);
        lemma_add_pool_size(p, types[t], count);
        let q = pool_after_types(base, types.take(t + 1), count);
        assert(types.take(t + 1).last() == types[t]);
        assert(q == add_pool_size(p, types[t], count));
        assert forall|i: int| 0 <= i < p.len() implies #[trigger] p[i].1 <= u32::MAX by {
            assert(p[i].1 <= q[i].1);
        }
    } else {
        assert(types.take(t) =~= types);
    }
}


/// What one binding of a descriptor set is written with.
#[derive(Copy, Clone, PartialEq, Eq, Structural, Debug)]
pub enum DescriptorWriteBinding {
    Image { image_view: u64, sampler: u64, image_layout: i32 },
    Buffer { buffer: u64, offset: u64, range: u64 },
}

impl DescriptorWriteBinding {
    /// A binding written with the range `offset..offset + range` of the
    /// storage buffer `buffer`.
    pub fn from_storage_buffer(buffer: u64, offset: u64, range: u64) -> (b: Self)
        ensures
            b == (DescriptorWriteBinding::Buffer { buffer, offset, range }),
    {
        DescriptorWriteBinding::Buffer { buffer, offset, range }
    }

    /// A binding written with an image view, its sampler and its layout.
    pub fn from_image_and_sampler(image_view: u64, sampler: u64, image_layout: i32) -> (b: Self)
        ensures
            b == (DescriptorWriteBinding::Image { image_view, sampler, image_layout }),
    {
        DescriptorWriteBinding::Image { image_view, sampler, image_layout }
    }
}

/// An image descriptor waiting to be written.
#[derive(Copy, Clone, PartialEq, Eq, Structural, Debug)]
pub struct DescriptorImageInfo {
    pub image_view: u64,
    pub sampler: u64,
    pub image_layout: i32,
}

/// A buffer descriptor waiting to be written.
#[derive(Copy, Clone, PartialEq, Eq, Structural, Debug)]
pub struct DescriptorBufferInfo {
    pub buffer: u64,
    pub offset: u64,
    pub range: u64,
}

/// Where the data of a descriptor write is: the image or buffer info at
/// that index of the submit.
#[derive(Copy, Clone, PartialEq, Eq, Structural, Debug)]
pub enum WriteSource {
    Image(usize),
    Buffer(usize),
}

/// One descriptor write: binding `dst_binding` of `dst_set`.
#[derive(Copy, Clone, PartialEq, Eq, Structural, Debug)]
pub struct WriteDescriptorSet {
    pub dst_set: u64,
    pub dst_binding: u32,
    pub descriptor_type: i32,
    pub source: WriteSource,
}

/// The descriptor writes recorded since the last submit.
pub struct VulkanDescriptorSubmit {
    pub images: Vec<DescriptorImageInfo>,
    pub buffers: Vec<DescriptorBufferInfo>,
    pub writes: Vec<WriteDescriptorSet>,
}

/// The recorded writes as plain sequences.
pub struct SubmitView {
    pub images: Seq<DescriptorImageInfo>,
    pub buffers: Seq<DescriptorBufferInfo>,
    pub writes: Seq<WriteDescriptorSet>,
}

/// The recorded writes after writing `binding_write` in binding `binding`
/// of `set`.
pub open spec fn apply_write(s: SubmitView, set: u64, binding: int, ty: i32, binding_write: DescriptorWriteBinding) -> SubmitView {
    match binding_write {
        DescriptorWriteBinding::Buffer { buffer, offset, range } => SubmitView {
            images: s.images,
            buffers: s.buffers.push(DescriptorBufferInfo { buffer, offset, range }),
            writes: s.writes.push(
                WriteDescriptorSet {
                    dst_set: set,
                    dst_binding: binding as u32,
                    descriptor_type: ty,
                    source: WriteSource::Buffer(s.buffers.len() as usize),
                },
            ),
        },
        DescriptorWriteBinding::Image { image_view, sampler, image_layout } => SubmitView {
            images: s.images.push(DescriptorImageInfo { image_view, sampler, image_layout }),
            buffers: s.buffers,
            writes: s.writes.push(
                WriteDescriptorSet {
                    dst_set: set,
                    dst_binding: binding as u32,
                    descriptor_type: ty,
                    source: WriteSource::Image(s.images.len() as usize),
                },
            ),
        },
    }
}

/// The recorded writes after writing the bindings `writes` of `set` in
/// order, binding `b` having the type `types[b]`.
pub open spec fn apply_writes(s: SubmitView, set: u64, writes: Seq<DescriptorWriteBinding>, types: Seq<i32>) -> SubmitView
    decreases writes.len(),
{
    if writes.len() == 0 {
        s
    } else {
        let b = writes.len() - 1;
        apply_write(apply_writes(s, set, writes.drop_last(), types), set, b, types[b], writes.last())
    }
}

impl VulkanDescriptorSubmit {
    /// The recorded writes.
    pub open spec fn view(&self) -> SubmitView {
        SubmitView { images: self.images@, buffers: self.buffers@, writes: self.writes@ }
    }

    /// Nothing recorded.
    pub fn new() -> (s: Self)
        ensures
            s.images@.len() == 0,
            s.buffers@.len() == 0,
            s.writes@.len() == 0,
    {
        VulkanDescriptorSubmit { images: Vec::new(), buffers: Vec::new(), writes: Vec::new() }
    }

    /// Records the write of a buffer in binding `dst_binding` of `dst_set`.
    pub fn write_buffer(
        &mut self,
        dst_set: u64,
        buffer: u64,
        offset: u64,
        range: u64,
        dst_binding: u32,
        descriptor_type: i32,
    )
        ensures
            final(self).view() == apply_write(
                old(self).view(),
                dst_set,
                dst_binding as int,
                descriptor_type,
                DescriptorWriteBinding::Buffer { buffer, offset, range },
            ),
    {
        let buffer_index = self.buffers.len();
        self.buffers.push(DescriptorBufferInfo { buffer, offset, range });
        self.writes.push(
            WriteDescriptorSet { dst_set, dst_binding, descriptor_type, source: WriteSource::Buffer(buffer_index) },
        );
    }

    /// Records the write of an image in binding `dst_binding` of `dst_set`.
    pub fn write_image(
        &mut self,
        dst_set: u64,
        image_view: u64,
        sampler: u64,
        image_layout: i32,
        dst_binding: u32,
        descriptor_type: i32,
    )
        ensures
            final(self).view() == apply_write(
                old(self).view(),
                dst_set,
                dst_binding as int,
                descriptor_type,
                DescriptorWriteBinding::Image { image_view, sampler, image_layout },
            ),
    {
        let image_index = self.images.len();
        self.images.push(DescriptorImageInfo { image_view, sampler, image_layout });
        self.writes.push(
            WriteDescriptorSet { dst_set, dst_binding, descriptor_type, source: WriteSource::Image(image_index) },
        );
    }

    /// Forgets the recorded writes once they were submitted.
    pub fn clear(&mut self)
        ensures
            final(self).images@.len() == 0,
            final(self).buffers@.len() == 0,
            final(self).writes@.len() == 0,
    {
        self.images.clear();
        self.buffers.clear();
        self.writes.clear();
    }
}

/// Preallocated descriptor sets of one layout: `next` is the first set not
/// handed out yet.
pub struct DescriptorSetsCollection {
    pub next: usize,
    pub binding_types: Vec<i32>,
    pub sets: Vec<u64>,
}

/// A descriptor pool and its collections of preallocated sets, one per
/// layout.
pub struct DescriptorsAllocator {
    pub pool: u64,
    pub collections: Vec<DescriptorSetsCollection>,
}

impl DescriptorsAllocator {
    /// No set is handed out beyond the preallocated ones.
    pub open spec fn wf(&self) -> bool {
        forall|c: int| 0 <= c < self.collections@.len() ==> (#[trigger] self.collections@[c]).next <= self.collections@[c].sets@.len()
    }

    /// An allocator without pool nor collections.
    pub fn default() -> (a: Self)
        ensures
            a.wf(),
            a.pool == 0,
            a.collections@.len() == 0,
    {
        DescriptorsAllocator { pool: 0, collections: Vec::new() }
    }

    /// An allocator over `pool` whose layout `c` preallocated the sets
    /// `sets[c]` for bindings of types `binding_types[c]`.
    pub fn new(pool: u64, collections: Vec<DescriptorSetsCollection>) -> (a: Self)
        requires
            forall|c: int| 0 <= c < collections@.len() ==> (#[trigger] collections@[c]).next == 0,
        ensures
            a.wf(),
            a.pool == pool,
            a.collections@ == collections@,
    {
        DescriptorsAllocator { pool, collections }
    }

    /// Makes every set of `layout` available again.
    pub fn reset_layout(&mut self, layout: usize)
        requires
            old(self).wf(),
            layout < old(self).collections@.len(),
        ensures
            final(self).wf(),
            final(self).pool == old(self).pool,
            final(self).collections@.len() == old(self).collections@.len(),
            forall|c: int|
                0 <= c < old(self).collections@.len() && c != layout ==> #[trigger] final(self).collections@[c] == old(
                    self,
                ).collections@[c],
            final(self).collections@[layout as int].next == 0,
            final(self).collections@[layout as int].sets@ == old(self).collections@[layout as int].sets@,
            final(self).collections@[layout as int].binding_types@ == old(self).collections@[layout as int].binding_types@,
    {
        let mut col = DescriptorSetsCollection { next: 0, binding_types: Vec::new(), sets: Vec::new() };
        self.collections.set_and_swap(layout, &mut col);
        col.next = 0;
        self.collections.set_and_swap(layout, &mut col);
    }

    /// Hands out the next set of `layout` and records the writes of its
    /// bindings, binding `b` being written with `binding_writes[b]`. When
    /// every set of the layout is in use nothing happens and an error is
    /// returned.
    pub fn write_set(
        &mut self,
        layout: usize,
        binding_writes: &[DescriptorWriteBinding],
        updates: &mut VulkanDescriptorSubmit,
    ) -> (r: Result<u64, DescriptorError>)
        requires
            old(self).wf(),
            layout < old(self).collections@.len(),
            binding_writes@.len() <= old(self).collections@[layout as int].binding_types@.len(),
            binding_writes@.len() <= u32::MAX,
        ensures
            final(self).wf(),
            final(self).pool == old(self).pool,
            final(self).collections@.len() == old(self).collections@.len(),
            forall|c: int|
                0 <= c < old(self).collections@.len() && c != layout ==> #[trigger] final(self).collections@[c] == old(
                    self,
                ).collections@[c],
            final(self).collections@[layout as int].sets@ == old(self).collections@[layout as int].sets@,
            final(self).collections@[layout as int].binding_types@ == old(self).collections@[layout as int].binding_types@,
            ({
                let col = old(self).collections@[layout as int];
                if col.next == col.sets@.len() {
                    &&& r == Err::<u64, DescriptorError>(DescriptorError::NoMoreSets(layout))
                    &&& final(self).collections@[layout as int].next == col.next
                    &&& final(updates).view() == old(updates).view()
                } else {
                    &&& r == Ok::<u64, DescriptorError>(col.sets@[col.next as int])
                    &&& final(self).collections@[layout as int].next == col.next + 1
                    &&& final(updates).view() == apply_writes(
                        old(updates).view(),
                        col.sets@[col.next as int],
                        binding_writes@,
                        col.binding_types@,
                    )
                }
            }),
    {
        let mut col = DescriptorSetsCollection { next: 0, binding_types: Vec::new(), sets: Vec::new() };
        self.collections.set_and_swap(layout, &mut col);
        if col.next == col.sets.len() {
            self.collections.set_and_swap(layout, &mut col);
            return Err(DescriptorError::NoMoreSets(layout));
        }
        let set = col.sets[col.next];
        let mut b: usize = 0;
        while b < binding_writes.len()
            invariant
                b <= binding_writes@.len(),
                binding_writes@.len() <= col.binding_types@.len(),
                binding_writes@.len() <= u32::MAX,
                updates.view() == apply_writes(old(updates).view(), set, binding_writes@.take(b as int), col.binding_types@),
            decreases binding_writes@.len() - b,
        {
            proof {
                assert(binding_writes@.take(b + 1).drop_last() =~= binding_writes@.take(b as int));
            }
            match binding_writes[b] {
                DescriptorWriteBinding::Buffer { buffer, offset, range } => {
                    updates.write_buffer(set, buffer, offset, range, b as u32, col.binding_types[b]);
                },
                DescriptorWriteBinding::Image { image_view, sampler, image_layout } => {
                    updates.write_image(set, image_view, sampler, image_layout, b as u32, col.binding_types[b]);
                },
            }
            b = b + 1;
        }
        proof {
            assert(binding_writes@.take(binding_writes@.len() as int) =~= binding_writes@);
        }
        col.next = col.next + 1;
        self.collections.set_and_swap(layout, &mut col);
        Ok(set)
    }
}

} // verus!
