use loomz::pipelines::{
    descriptor_set_layout_bindings, shader_code_words, DescriptorSetLayoutBinding, GraphicsPipeline,
    GraphicsShaderModules, PipelineLayoutSetBinding, PipelineVertexFormat, VertexInputAttribute, FORMAT_UNDEFINED,
    SAMPLE_COUNT_1,
};
use loomz::setup::{
    attachments_memory_layout, check_layers_and_extensions, color_format, depth_format, fetch_attachments_memory_index,
    linux_surface_extensions, max_sample, names_equal, select_image_count, select_names, select_physical_device,
    select_present_mode, select_swapchain_extent, required_device_extensions, requested_instance_extensions,
    requested_instance_layers, linux_surface_candidates, setup_device_choice, select_swapchain_format, select_transform, validate_queues,
    DeviceFeatures, DeviceInfo, FailureKind, SetupError, SurfaceFormat, FEATURE_COLOR_ATTACHMENT,
    FEATURE_DEPTH_STENCIL_ATTACHMENT, PRESENT_MODE_FIFO, PRESENT_MODE_IMMEDIATE, TRANSFORM_IDENTITY,
};

fn name(s: &str) -> Vec<u8> {
    s.as_bytes().to_vec()
}

#[test]
fn names_compare_bytes() {
    assert!(names_equal(&name("VK_KHR_surface"), &name("VK_KHR_surface")));
    assert!(!names_equal(&name("VK_KHR_surface"), &name("VK_KHR_surfac")));
    assert!(!names_equal(&name("abc"), &name("abd")));
}

#[test]
fn select_found_and_missing_names() {
    let requested = vec![name("a"), name("b"), name("c")];
    let available = vec![name("c"), name("a")];
    assert_eq!(select_names(&requested, &available), (vec![0, 2], vec![1]));
}

#[test]
fn layers_checked_before_extensions() {
    let layers = vec![name("VK_LAYER_KHRONOS_validation")];
    let extensions = vec![name("VK_KHR_surface"), name("VK_EXT_debug_utils")];
    let all_ext = vec![name("VK_EXT_debug_utils"), name("VK_KHR_surface")];
    match check_layers_and_extensions(&layers, &[], &extensions, &[]) {
        Err(SetupError::MissingLayers(m)) => assert_eq!(m, vec![0]),
        _ => panic!("expected missing layers"),
    }
    match check_layers_and_extensions(&layers, &layers, &extensions, &[name("VK_KHR_surface")]) {
        Err(SetupError::MissingExtensions(m)) => assert_eq!(m, vec![1]),
        _ => panic!("expected missing extensions"),
    }
    match check_layers_and_extensions(&layers, &layers, &extensions, &all_ext) {
        Ok((l, e)) => {
            assert_eq!(l, vec![0]);
            assert_eq!(e, vec![0, 1]);
        }
        _ => panic!("expected success"),
    }
}

#[test]
fn linux_surface_extensions_repeat_duplicates() {
    let candidates = vec![name("VK_KHR_wayland_surface"), name("VK_KHR_xcb_surface"), name("VK_KHR_xlib_surface")];
    let available = vec![name("VK_KHR_xlib_surface"), name("VK_KHR_wayland_surface"), name("VK_KHR_xlib_surface")];
    assert_eq!(linux_surface_extensions(&candidates, &available), vec![0, 2, 2]);
}

fn features(dynamic_rendering: u32, timeline: u32) -> DeviceFeatures {
    DeviceFeatures {
        timeline_semaphore: timeline,
        shader_sampled_image_array_non_uniform_indexing: 1,
        runtime_descriptor_array: 1,
        descriptor_binding_partially_bound: 1,
        descriptor_binding_variable_descriptor_count: 1,
        dynamic_rendering,
    }
}

#[test]
fn physical_device_selection() {
    let required = vec![name("VK_KHR_swapchain")];
    let devices = vec![
        DeviceInfo { features: features(0, 1), extensions: Some(vec![name("VK_KHR_swapchain")]), queue_flags: vec![1] },
        DeviceInfo { features: features(1, 0), extensions: None, queue_flags: vec![1] },
        DeviceInfo { features: features(1, 1), extensions: Some(vec![]), queue_flags: vec![1] },
        DeviceInfo { features: features(1, 1), extensions: Some(vec![name("VK_KHR_swapchain")]), queue_flags: vec![4] },
    ];
    let reasons = match select_physical_device(&devices, &required) {
        Err(reasons) => reasons,
        Ok(_) => panic!("no device is usable"),
    };
    let kinds: Vec<(usize, FailureKind)> = reasons.iter().map(|r| (r.device, r.kind)).collect();
    assert_eq!(
        kinds,
        vec![
            (0, FailureKind::MissingDynamicRendering),
            (1, FailureKind::MissingFeature(0)),
            (1, FailureKind::ExtensionsUnavailable),
            (2, FailureKind::MissingExtensions),
            (3, FailureKind::NoGraphicsQueue),
        ]
    );
    assert_eq!(reasons[3].missing, vec![0]);

    let mut usable = devices;
    usable.push(DeviceInfo {
        features: features(1, 0),
        extensions: Some(vec![name("VK_KHR_swapchain")]),
        queue_flags: vec![2, 3, 1],
    });
    match select_physical_device(&usable, &required) {
        Ok((device, queue)) => assert_eq!((device, queue), (4, 1)),
        Err(_) => panic!("the last device is usable"),
    }
}

#[test]
fn graphics_queue() {
    assert_eq!(validate_queues(&[2, 4, 7, 1]), Some(2));
    assert_eq!(validate_queues(&[2, 4]), None);
}

#[test]
fn swapchain_choices() {
    assert_eq!(select_swapchain_extent((u32::MAX, u32::MAX), (800, 600)), (800, 600));
    assert_eq!(select_swapchain_extent((1024, 768), (800, 600)), (1024, 768));
    assert!(matches!(select_image_count(1, 0), Ok(2)));
    assert!(matches!(select_image_count(3, 8), Ok(3)));
    assert!(matches!(select_image_count(1, 1), Err(SetupError::ImageCount { min_image_count: 1, max_image_count: 1 })));
    assert_eq!(select_present_mode(&[PRESENT_MODE_IMMEDIATE, PRESENT_MODE_FIFO], true), PRESENT_MODE_FIFO);
    assert_eq!(select_present_mode(&[PRESENT_MODE_IMMEDIATE, PRESENT_MODE_FIFO], false), PRESENT_MODE_IMMEDIATE);
    assert_eq!(select_present_mode(&[PRESENT_MODE_FIFO], false), PRESENT_MODE_FIFO);
    assert_eq!(select_transform(4, 5), TRANSFORM_IDENTITY);
    assert_eq!(select_transform(4, 4), 4);
    let formats = [
        SurfaceFormat { format: 37, color_space: 0 },
        SurfaceFormat { format: 44, color_space: 1 },
        SurfaceFormat { format: 44, color_space: 2 },
    ];
    assert!(matches!(select_swapchain_format(&formats), Ok(SurfaceFormat { format: 44, color_space: 1 })));
    assert!(matches!(select_swapchain_format(&formats[0..1]), Ok(SurfaceFormat { format: 37, color_space: 0 })));
    assert!(matches!(select_swapchain_format(&[SurfaceFormat { format: 50, color_space: 0 }]), Err(SetupError::UnsupportedFormat)));
}

#[test]
fn samples_and_memory() {
    assert_eq!(max_sample(0b1111), 8);
    assert_eq!(max_sample(0b11111), 16);
    assert_eq!(max_sample(0), 1);
    assert_eq!(max_sample(0b101), 4);
    assert_eq!(fetch_attachments_memory_index(&[6, 1, 3]), 1);
    assert_eq!(fetch_attachments_memory_index(&[3, 5, 6]), 1);
    assert_eq!(fetch_attachments_memory_index(&[7, 2]), 0);
    assert_eq!(attachments_memory_layout([100, 50], [64, 256]), ([0, 256], 306));
}

#[test]
fn attachment_formats() {
    assert_eq!(color_format(&[0, FEATURE_COLOR_ATTACHMENT]), Some(43));
    assert_eq!(color_format(&[FEATURE_COLOR_ATTACHMENT | 1, 0]), Some(50));
    assert_eq!(color_format(&[0, 0]), None);
    assert_eq!(depth_format(&[0, 0, FEATURE_DEPTH_STENCIL_ATTACHMENT, FEATURE_DEPTH_STENCIL_ATTACHMENT, 0]), Some(130));
    assert_eq!(depth_format(&[0; 5]), None);
}

#[test]
fn pipeline_description() {
    let mut pipeline = GraphicsPipeline::new();
    assert_eq!(pipeline.handle(), 0);
    assert_eq!(pipeline.sample_count, SAMPLE_COUNT_1);
    assert_eq!(pipeline.color_attachment_format, FORMAT_UNDEFINED);
    assert_eq!((pipeline.depth_test_enable, pipeline.depth_write_enable), (1, 1));
    pipeline.set_handle(9);
    pipeline.set_pipeline_layout(10);
    pipeline.set_descriptor_set_layout(2, 11);
    pipeline.set_shader_modules(GraphicsShaderModules { vert: 1, frag: 2 });
    pipeline.set_depth_testing(false);
    pipeline.set_sample_count(4);
    pipeline.set_color_attachment_format(43);
    pipeline.set_depth_attachment_format(126);
    let fmt = [
        PipelineVertexFormat { location: 0, offset: 0, format: 103 },
        PipelineVertexFormat { location: 1, offset: 8, format: 103 },
    ];
    pipeline.set_vertex_format::<[f32; 5]>(&fmt);
    assert_eq!(pipeline.handle(), 9);
    assert_eq!(pipeline.pipeline_layout(), 10);
    assert_eq!(pipeline.descriptor_set_layout(2), 11);
    assert_eq!(pipeline.descriptor_set_layout(0), 0);
    assert_eq!(pipeline.modules(), GraphicsShaderModules { vert: 1, frag: 2 });
    assert_eq!(pipeline.stage_count, 2);
    assert_eq!((pipeline.depth_test_enable, pipeline.depth_write_enable), (0, 0));
    assert_eq!(pipeline.vertex_stride, 20);
    assert_eq!(pipeline.vertex_binding_count, 1);
    assert_eq!(pipeline.vertex_attributes[1], VertexInputAttribute { binding: 0, location: 1, offset: 8, format: 103 });
}

#[test]
fn layout_bindings_and_shader_words() {
    let bindings = descriptor_set_layout_bindings(&[
        PipelineLayoutSetBinding { descriptor_type: 1, stage_flags: 16 },
        PipelineLayoutSetBinding { descriptor_type: 7, stage_flags: 1 },
    ]);
    assert_eq!(
        bindings,
        vec![
            DescriptorSetLayoutBinding { binding: 0, descriptor_type: 1, descriptor_count: 1, stage_flags: 16 },
            DescriptorSetLayoutBinding { binding: 1, descriptor_type: 7, descriptor_count: 1, stage_flags: 1 },
        ]
    );
    assert_eq!(shader_code_words(&[0x03, 0x02, 0x23, 0x07, 1, 0, 0, 0]), vec![0x07230203, 1]);
}

#[test]
fn device_extensions_of_the_renderer() {
    let base = vec![
        name("VK_KHR_swapchain"),
        name("VK_EXT_descriptor_indexing"),
        name("VK_KHR_dynamic_rendering"),
        name("VK_KHR_synchronization2"),
    ];
    assert_eq!(required_device_extensions(false), base);
    let mut mac = base.clone();
    mac.push(name("VK_KHR_portability_subset"));
    assert_eq!(required_device_extensions(true), mac);
}

#[test]
fn instance_names_of_each_build() {
    assert_eq!(requested_instance_layers(true), vec![name("VK_LAYER_KHRONOS_validation")]);
    assert!(requested_instance_layers(false).is_empty());
    assert_eq!(requested_instance_extensions(false, false, false), vec![name("VK_KHR_surface")]);
    assert_eq!(
        requested_instance_extensions(true, true, false),
        vec![name("VK_KHR_surface"), name("VK_EXT_debug_utils"), name("VK_KHR_win32_surface")]
    );
    assert_eq!(
        requested_instance_extensions(false, false, true),
        vec![name("VK_KHR_surface"), name("VK_KHR_portability_enumeration"), name("VK_EXT_metal_surface")]
    );
    assert_eq!(
        linux_surface_candidates(),
        vec![name("VK_KHR_wayland_surface"), name("VK_KHR_xcb_surface"), name("VK_KHR_xlib_surface")]
    );
}

#[test]
fn device_choice_needs_every_renderer_extension() {
    let partial = DeviceInfo {
        features: features(1, 1),
        extensions: Some(vec![name("VK_KHR_swapchain"), name("VK_KHR_dynamic_rendering")]),
        queue_flags: vec![1],
    };
    let full = DeviceInfo {
        features: features(1, 1),
        extensions: Some(required_device_extensions(false)),
        queue_flags: vec![2, 1],
    };
    let (required, choice) = setup_device_choice(&[partial, full], false);
    assert_eq!(required, required_device_extensions(false));
    match choice {
        Ok((device, queue)) => assert_eq!((device, queue), (1, 1)),
        Err(_) => panic!("the second device has every extension"),
    }
    let mac_only = DeviceInfo {
        features: features(1, 1),
        extensions: Some(required_device_extensions(false)),
        queue_flags: vec![1],
    };
    let (_, mac_choice) = setup_device_choice(&[mac_only], true);
    match mac_choice {
        Err(reasons) => {
            assert_eq!(reasons.len(), 1);
            assert_eq!(reasons[0].kind, FailureKind::MissingExtensions);
            assert_eq!(reasons[0].missing, vec![4]);
        }
        Ok(_) => panic!("the portability subset is missing"),
    }
}
