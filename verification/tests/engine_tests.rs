use loomz::cache::TextureCache;
use loomz::descriptors::{
    compile_allocations, DescriptorBufferInfo, DescriptorError, DescriptorImageInfo, DescriptorSetsCollection,
    DescriptorWriteBinding, DescriptorsAllocation, DescriptorsAllocator, PoolSize, VulkanDescriptorSubmit,
    WriteDescriptorSet, WriteSource,
};
use loomz::frame::{AcquireReturn, AcquireStep, FrameError, FrameOutput, SubmitValues, VkStatus};
use loomz::memory::{
    align_device, pad_device, BufferCopy, DeviceMemoryAlloc, DeviceSlice, MemoryRange, MemoryRequirements,
    StagingBufferCopy, StagingImageCopy, StorageMemoryAlloc, VertexAlloc, VulkanStaging, BUFFER_ALIGN, FREED_BIT,
    GB, KB, MB, LAYOUT_SHADER_READ_ONLY_OPTIMAL, LAYOUT_TRANSFER_DST_OPTIMAL, LAYOUT_UNDEFINED,
};
use loomz::texture::{font_texture_from_header, font_texture_from_png, TextureError, TextureInfo, FORMAT_R8G8B8A8_UNORM};

#[test]
fn align_and_pad() {
    assert_eq!(align_device(13, 8), 16);
    assert_eq!(align_device(16, 8), 16);
    assert_eq!(align_device(0, 64), 0);
    assert_eq!(align_device(1, 1), 1);
    assert_eq!(pad_device(13, 24), 24);
    assert_eq!(pad_device(25, 24), 48);
    assert_eq!(pad_device(48, 24), 48);
    assert_eq!((KB, MB, GB), (1024, 1_024_000, 1_024_000_000));
}

#[test]
fn device_memory_allocations() {
    let mut alloc = DeviceMemoryAlloc::new(99, 1024, 4);
    let a = alloc.allocate_memory(&MemoryRequirements { size: 100, alignment: 16, memory_type_bits: 1 });
    let b = alloc.allocate_memory(&MemoryRequirements { size: 10, alignment: 64, memory_type_bits: 1 });
    assert_eq!((a, b), (0, 128));
    assert_eq!(alloc.next_offset, 138);
    assert_eq!(alloc.allocations, vec![MemoryRange { base: 0, offset: 0 }, MemoryRange { base: 100, offset: 128 }]);
    alloc.free_memory(128);
    assert_eq!(alloc.allocations[1].base, 100 | FREED_BIT);
    alloc.free_memory(5);
    assert_eq!(alloc.allocations[0].base, 0);
    assert_eq!(alloc.handle, 99);
    let empty = DeviceMemoryAlloc::default();
    assert_eq!((empty.handle, empty.size, empty.next_offset), (0, 0, 0));
}

#[test]
fn storage_slices() {
    let mut storage = StorageMemoryAlloc::new(1, 2, 4096);
    assert_eq!(storage.allocate_slice::<u64>(256, 10), 0);
    assert_eq!(storage.next_offset, 80);
    let slice = DeviceSlice::<u32>::new_default(&mut storage, 256, 4);
    assert_eq!(slice.ptr(), 256);
    assert_eq!(storage.next_offset, 272);
    assert_eq!(slice.range(), 16);
    assert_eq!(slice.write(3), 268);
    let empty = DeviceSlice::<u32>::default();
    assert_eq!((empty.ptr(), empty.range()), (0, 0));
}

#[test]
fn staging_places_data() {
    let mut staging = VulkanStaging::new(100);
    assert_eq!(staging.copy_data_with_align(10, 8), Some(0));
    assert_eq!(staging.upload_offset, 10);
    // The offset grows by the size only, not by the padding.
    assert_eq!(staging.copy_data_with_align(10, 8), Some(16));
    assert_eq!(staging.upload_offset, 20);
    assert_eq!(staging.copy_data_with_align(90, 4), None);
    assert_eq!(staging.upload_offset, 20);
    staging.vertex_buffer_copy(3, BufferCopy { src_offset: 0, dst_offset: 0, size: 10 });
    staging.upload_image_shared(8, 16, 4, 4, 1);
    assert_eq!(staging.image_copies, vec![StagingImageCopy { dst_image: 8, buffer_offset: 16, width: 4, height: 4, depth: 1 }]);
    assert_eq!(staging.image_barrier_prepare[0].old_layout, LAYOUT_UNDEFINED);
    assert_eq!(staging.image_barrier_prepare[0].new_layout, LAYOUT_TRANSFER_DST_OPTIMAL);
    assert_eq!(staging.image_barrier_final[0].new_layout, LAYOUT_SHADER_READ_ONLY_OPTIMAL);
    staging.clear_data();
    assert_eq!(staging.upload_offset, 0);
    assert!(staging.vertex_buffer_copies.is_empty());
    assert!(staging.image_copies.is_empty());
    assert!(staging.image_barrier_prepare.is_empty());
    assert!(staging.image_barrier_final.is_empty());
}

#[test]
fn image_upload_without_room_reads_from_zero() {
    let mut staging = VulkanStaging::new(32);
    assert_eq!(staging.upload_image_memory(5, 16, 16, 2, 2, 1), 0);
    assert_eq!(staging.upload_image_memory(6, 16, 16, 2, 2, 1), 16);
    assert_eq!(staging.upload_image_memory(7, 16, 16, 2, 2, 1), 0);
    assert_eq!(staging.upload_offset, 32);
    assert_eq!(staging.image_copies.len(), 3);
    assert_eq!(staging.image_copies[2].buffer_offset, 0);
}

#[test]
fn vertex_buffers() {
    assert_eq!(VertexAlloc::<u32>::buffer_sizes(10, 3), (64, 64, 128));
    assert_eq!(VertexAlloc::<u64>::buffer_sizes(16, 16), (64, 128, 192));
    assert_eq!(BUFFER_ALIGN, 64);
    let alloc = VertexAlloc::<u32>::new(77, 512, 10, 3);
    assert_eq!(alloc.memory_offset(), 512);
    assert_eq!(alloc.index_offset(), 0);
    assert_eq!(alloc.vertex_offset(), [40]);
    let mut staging = VulkanStaging::new(1000);
    assert_eq!(alloc.set_data(&mut staging, 4, 2), Some((0, 16)));
    assert_eq!(staging.upload_offset, 24);
    assert_eq!(
        staging.vertex_buffer_copies,
        vec![
            StagingBufferCopy { dst_buffer: 77, copy: BufferCopy { src_offset: 0, dst_offset: 0, size: 16 } },
            StagingBufferCopy { dst_buffer: 77, copy: BufferCopy { src_offset: 16, dst_offset: 40, size: 8 } },
        ]
    );
    // More than the capacity: the copies are cut to it.
    assert_eq!(alloc.set_data(&mut staging, 20, 5), Some((24, 104)));
    assert_eq!(staging.vertex_buffer_copies[2].copy.size, 40);
    assert_eq!(staging.vertex_buffer_copies[3].copy.size, 12);
    assert_eq!(alloc.set_data(&mut staging, 0, 2), None);
    assert_eq!(staging.vertex_buffer_copies.len(), 4);
}

#[test]
fn pool_sizes() {
    let allocations = vec![
        DescriptorsAllocation { layout: 1, binding_types: vec![7, 1], count: 2 },
        DescriptorsAllocation { layout: 2, binding_types: vec![1, 1], count: 3 },
    ];
    let (max_sets, pool) = compile_allocations(&allocations).ok().unwrap();
    assert_eq!(max_sets, 5);
    assert_eq!(pool, vec![PoolSize { ty: 7, descriptor_count: 2 }, PoolSize { ty: 1, descriptor_count: 8 }]);
}

#[test]
fn pool_sizes_need_capacity() {
    assert!(matches!(compile_allocations(&[]), Err(DescriptorError::NoCapacity)));
    let zero = vec![DescriptorsAllocation { layout: 1, binding_types: vec![7], count: 0 }];
    assert!(matches!(compile_allocations(&zero), Err(DescriptorError::NoCapacity)));
}

#[test]
fn descriptor_sets_handed_out_in_order() {
    let collection = DescriptorSetsCollection { next: 0, binding_types: vec![6, 8], sets: vec![100, 101] };
    let mut alloc = DescriptorsAllocator::new(5, vec![collection]);
    let mut submit = VulkanDescriptorSubmit::new();
    let writes = [
        DescriptorWriteBinding::Buffer { buffer: 9, offset: 0, range: 64 },
        DescriptorWriteBinding::Image { image_view: 3, sampler: 4, image_layout: 5 },
    ];
    assert_eq!(alloc.write_set(0, &writes, &mut submit), Ok(100));
    assert_eq!(submit.buffers, vec![DescriptorBufferInfo { buffer: 9, offset: 0, range: 64 }]);
    assert_eq!(submit.images, vec![DescriptorImageInfo { image_view: 3, sampler: 4, image_layout: 5 }]);
    assert_eq!(
        submit.writes,
        vec![
            WriteDescriptorSet { dst_set: 100, dst_binding: 0, descriptor_type: 6, source: WriteSource::Buffer(0) },
            WriteDescriptorSet { dst_set: 100, dst_binding: 1, descriptor_type: 8, source: WriteSource::Image(0) },
        ]
    );
    assert_eq!(alloc.write_set(0, &writes[0..1], &mut submit), Ok(101));
    assert_eq!(submit.writes[2].source, WriteSource::Buffer(1));
    assert_eq!(alloc.write_set(0, &writes, &mut submit), Err(DescriptorError::NoMoreSets(0)));
    assert_eq!(submit.writes.len(), 3);
    alloc.reset_layout(0);
    assert_eq!(alloc.write_set(0, &[], &mut submit), Ok(100));
    submit.clear();
    assert!(submit.writes.is_empty() && submit.buffers.is_empty() && submit.images.is_empty());
    assert!(DescriptorsAllocator::default().collections.is_empty());
}

#[test]
fn frame_loop() {
    let mut output = FrameOutput::new();
    assert_eq!(output.acquired_image_index, u32::MAX);
    assert_eq!(output.acquire_step(), AcquireStep::Done(AcquireReturn::Invalid));
    assert!(output.set_output(800, 600));
    assert_eq!(output.acquire_step(), AcquireStep::Done(AcquireReturn::Invalid));
    output.swapchain = 5;
    assert_eq!(output.acquire_step(), AcquireStep::SyncAndAcquire);
    let r = output.acquired(VkStatus::Success, 1, 3);
    assert_eq!(r, Ok((AcquireReturn::Render, Some(SubmitValues { upload_signal: 1, render_wait: 1, render_signal: 2 }))));
    assert_eq!(output.acquired_image_index, 1);
    assert_eq!(output.drawings_value, 2);
    let r = output.acquired(VkStatus::Success, 0, 3);
    assert_eq!(r, Ok((AcquireReturn::Render, Some(SubmitValues { upload_signal: 3, render_wait: 3, render_signal: 4 }))));
    assert_eq!(output.acquired(VkStatus::Suboptimal, 0, 3), Ok((AcquireReturn::Rebuild, None)));
    assert_eq!(output.acquired(VkStatus::Error(-4), 0, 3), Err(FrameError::Acquire(-4)));
    assert_eq!(output.drawings_value, 4);

    assert_eq!(output.present_result(VkStatus::Suboptimal, VkStatus::Success), Ok(()));
    assert!(output.rebuild);
    assert_eq!(output.acquire_step(), AcquireStep::Done(AcquireReturn::Rebuild));
    output.rebuilt();
    assert!(!output.rebuild);
    assert_eq!(output.present_result(VkStatus::Error(-4), VkStatus::Error(-1)), Err(FrameError::PresentCall(-4)));
    assert_eq!(output.present_result(VkStatus::Success, VkStatus::Error(-1)), Err(FrameError::Present(-1)));
    assert_eq!(output.present_result(VkStatus::Success, VkStatus::Suboptimal), Ok(()));
    assert!(output.rebuild);
}

#[test]
fn resize_decisions() {
    let mut output = FrameOutput::new();
    assert!(!output.set_output(0, 600));
    assert!(!output.valid);
    assert!(output.set_output(800, 600));
    assert!(!output.resize_output(800, 600));
    assert!(!output.resize_output(0, 10));
    assert!(!output.valid);
    assert!(output.resize_output(1024, 768));
    assert!(output.valid);
    assert_eq!((output.window_width, output.window_height), (1024, 768));
}

fn png_bytes(color: png::ColorType, depth: png::BitDepth, samples: usize) -> Vec<u8> {
    let mut bytes = Vec::new();
    {
        let mut encoder = png::Encoder::new(&mut bytes, 3, 2);
        encoder.set_color(color);
        encoder.set_depth(depth);
        let mut writer = encoder.write_header().unwrap();
        writer.write_image_data(&vec![0u8; 3 * 2 * samples]).unwrap();
    }
    bytes
}

#[test]
fn font_textures_from_png() {
    let rgba = png_bytes(png::ColorType::Rgba, png::BitDepth::Eight, 4);
    assert_eq!(
        font_texture_from_png(&rgba),
        Ok(TextureInfo { format: FORMAT_R8G8B8A8_UNORM, width: 3, height: 2, depth: 1 })
    );
    let rgb = png_bytes(png::ColorType::Rgb, png::BitDepth::Eight, 3);
    assert_eq!(font_texture_from_png(&rgb), Err(TextureError::UnsupportedFormat(2, 8)));
    assert_eq!(font_texture_from_png(&[1, 2, 3]), Err(TextureError::InvalidImage));
    assert_eq!(font_texture_from_header(8, 8, 6, 16), Err(TextureError::UnsupportedFormat(6, 16)));
}

#[test]
fn texture_cache_read_back() {
    let mut cache = TextureCache::new();
    assert_eq!(cache.cached(5), None);
    cache.store(5, 10, 20);
    cache.store(6, 11, 21);
    assert_eq!(cache.cached(5), Some((10, 20)));
    cache.store(5, 12, 22);
    assert_eq!(cache.cached(5), Some((12, 22)));
    assert_eq!(cache.cached(6), Some((11, 21)));
}

#[test]
fn write_binding_constructors() {
    assert_eq!(
        DescriptorWriteBinding::from_storage_buffer(3, 64, 128),
        DescriptorWriteBinding::Buffer { buffer: 3, offset: 64, range: 128 }
    );
    assert_eq!(
        DescriptorWriteBinding::from_image_and_sampler(5, 6, 7),
        DescriptorWriteBinding::Image { image_view: 5, sampler: 6, image_layout: 7 }
    );
}
