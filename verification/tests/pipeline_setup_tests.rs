use loomz::cache::TextureCache;
use loomz::descriptors::{
    compile_allocations, DescriptorError, DescriptorImageInfo, DescriptorSetsCollection, DescriptorsAllocator, PoolSize,
    VulkanDescriptorSubmit, WriteDescriptorSet, WriteSource,
};
use loomz::memory::LAYOUT_SHADER_READ_ONLY_OPTIMAL;
use loomz::world::{store_actor_texture, ACTOR_BATCH_LAYOUT_ID};
use loomz::gui_layout::layout_plan;
use loomz::gui_builder::{GuiBuildError, GuiBuilder, GuiLabelCallback, GuiLayoutNode};
use loomz::gui_state::{on_click, GuiComponentBase, GuiComponentCallbacksValue, GuiLabelCallbackValues, GuiLayoutType, GuiStyleBuilder, GuiStyleState};
use loomz::module_setup::{
    configure_pipeline, gui_descriptor_allocations, gui_pipeline_shader, gui_reload_target, gui_vertex_format,
    push_constant_range, setup_gui_pipeline, setup_world_pipeline, world_descriptor_allocations, world_layout_bindings,
    world_pipeline_set_layouts, world_pipeline_shader, world_reload_target, world_vertex_format, AttachmentsInfo,
    GuiPipelineKind, PushConstantRange, WorldPipelineKind, WorldSetLayout, DESCRIPTOR_COMBINED_IMAGE_SAMPLER,
    DESCRIPTOR_STORAGE_BUFFER, FORMAT_R32G32_SFLOAT, SHADER_STAGE_FRAGMENT, SHADER_STAGE_VERTEX,
};
use loomz::pipelines::{
    BlendAttachment, GraphicsPipeline, GraphicsShaderModules, PipelineLayoutSetBinding, PipelineVertexFormat,
    RasterizationState, VertexInputAttribute, BLEND_FACTOR_ONE, BLEND_FACTOR_ONE_MINUS_SRC_ALPHA,
    BLEND_FACTOR_SRC_ALPHA, BLEND_FACTOR_ZERO, COMPARE_OP_ALWAYS, COMPARE_OP_LESS, CULL_MODE_BACK, CULL_MODE_NONE,
    DYNAMIC_STATE_SCISSOR, DYNAMIC_STATE_VIEWPORT, FRONT_FACE_CLOCKWISE, FRONT_FACE_COUNTER_CLOCKWISE,
    POLYGON_MODE_FILL, TOPOLOGY_TRIANGLE_LIST,
};

const ATTACHMENTS: AttachmentsInfo = AttachmentsInfo { sample_count: 4, color_format: 44, depth_format: 126 };

#[test]
fn pipeline_defaults_and_create_info() {
    let mut pipeline = GraphicsPipeline::new();
    assert_eq!(pipeline.topology, TOPOLOGY_TRIANGLE_LIST);
    assert_eq!((pipeline.viewport_count, pipeline.scissor_count), (1, 1));
    assert_eq!(
        pipeline.rasterization,
        RasterizationState { polygon_mode: POLYGON_MODE_FILL, cull_mode: CULL_MODE_BACK, front_face: FRONT_FACE_CLOCKWISE }
    );
    assert_eq!((pipeline.depth_compare_op, pipeline.stencil_back_compare_op), (COMPARE_OP_LESS, COMPARE_OP_ALWAYS));
    assert_eq!(pipeline.blend_attachment, BlendAttachment::off());
    assert_eq!(pipeline.dynamic_states, [DYNAMIC_STATE_VIEWPORT, DYNAMIC_STATE_SCISSOR]);
    pipeline.blending(BlendAttachment::alpha(), 1);
    pipeline.set_pipeline_layout(77);
    let info = pipeline.create_info();
    assert_eq!(info.blend_attachment_count, 1);
    assert_eq!(info.dynamic_state_count, 2);
    assert_eq!(info.color_attachment_count, 1);
    assert_eq!(info.vertex_attribute_count, 0);
    assert_eq!(info.layout, 77);
    assert_eq!(info.blend_attachment.src_color_blend_factor, BLEND_FACTOR_SRC_ALPHA);
    assert_eq!(info.blend_attachment.dst_color_blend_factor, BLEND_FACTOR_ONE_MINUS_SRC_ALPHA);
    assert_eq!(info.blend_attachment.src_alpha_blend_factor, BLEND_FACTOR_ZERO);
    assert_eq!(info.blend_attachment.dst_alpha_blend_factor, BLEND_FACTOR_ONE);
}

#[test]
fn world_pipelines_setup() {
    let modules = GraphicsShaderModules { vert: 5, frag: 6 };
    let mut terrain = GraphicsPipeline::new();
    setup_world_pipeline::<[f32; 2]>(&mut terrain, WorldPipelineKind::Terrain, modules, 30, ATTACHMENTS);
    assert_eq!(terrain.modules(), modules);
    assert_eq!(terrain.stage_count, 2);
    assert_eq!(terrain.pipeline_layout(), 30);
    assert_eq!(terrain.vertex_stride, 8);
    assert_eq!(terrain.vertex_attributes, vec![VertexInputAttribute { binding: 0, location: 0, offset: 0, format: FORMAT_R32G32_SFLOAT }]);
    assert_eq!((terrain.depth_test_enable, terrain.depth_write_enable), (0, 0));
    assert_eq!(
        terrain.rasterization,
        RasterizationState { polygon_mode: POLYGON_MODE_FILL, cull_mode: CULL_MODE_NONE, front_face: FRONT_FACE_COUNTER_CLOCKWISE }
    );
    assert_eq!(terrain.blend_attachment, BlendAttachment::off());
    assert_eq!(terrain.color_blend_attachment_count, 1);
    assert_eq!((terrain.sample_count, terrain.color_attachment_format, terrain.depth_attachment_format), (4, 44, 126));

    let mut actors = GraphicsPipeline::new();
    setup_world_pipeline::<[f32; 2]>(&mut actors, WorldPipelineKind::Actors, modules, 31, ATTACHMENTS);
    assert_eq!(actors.blend_attachment, BlendAttachment::alpha());
    assert_eq!(actors.blend_attachment.blend_enable, 1);

    let mut debug = GraphicsPipeline::new();
    setup_world_pipeline::<[u32; 3]>(&mut debug, WorldPipelineKind::Debug, modules, 32, ATTACHMENTS);
    assert_eq!(debug.vertex_stride, 12);
    assert_eq!(debug.vertex_attributes.len(), 2);
    assert_eq!(debug.vertex_attributes[1], VertexInputAttribute { binding: 0, location: 1, offset: 8, format: 37 });
    assert_eq!(debug.blend_attachment, BlendAttachment::off());
}

#[test]
fn gui_pipelines_setup() {
    let fmt = gui_vertex_format();
    assert_eq!(
        fmt,
        vec![
            PipelineVertexFormat { location: 0, offset: 0, format: FORMAT_R32G32_SFLOAT },
            PipelineVertexFormat { location: 1, offset: 8, format: FORMAT_R32G32_SFLOAT },
            PipelineVertexFormat { location: 2, offset: 16, format: 37 },
        ]
    );
    let mut image = GraphicsPipeline::new();
    setup_gui_pipeline::<[u32; 5]>(&mut image, GraphicsShaderModules { vert: 1, frag: 2 }, 9, ATTACHMENTS);
    assert_eq!(image.vertex_stride, 20);
    assert_eq!(image.vertex_attributes.len(), 3);
    assert_eq!(image.blend_attachment, BlendAttachment::alpha());
    assert_eq!(image.pipeline_layout(), 9);

    // The common setup with a format of its own.
    let mut other = GraphicsPipeline::new();
    other.set_handle(3);
    configure_pipeline::<u64>(&mut other, GraphicsShaderModules { vert: 7, frag: 8 }, &fmt[..1], 4, BlendAttachment::off(), ATTACHMENTS);
    assert_eq!(other.handle(), 3);
    assert_eq!(other.vertex_stride, 8);
    assert_eq!(other.vertex_attributes.len(), 1);
}

#[test]
fn shader_names_and_layouts() {
    assert_eq!(world_pipeline_shader(WorldPipelineKind::Terrain), "world_terrain");
    assert_eq!(world_pipeline_shader(WorldPipelineKind::Actors), "world_actors");
    assert_eq!(world_pipeline_shader(WorldPipelineKind::Debug), "world_debug");
    assert_eq!(gui_pipeline_shader(GuiPipelineKind::Image), "gui_component");
    assert_eq!(gui_pipeline_shader(GuiPipelineKind::Text), "gui_text");

    let sampler = PipelineLayoutSetBinding { descriptor_type: DESCRIPTOR_COMBINED_IMAGE_SAMPLER, stage_flags: SHADER_STAGE_FRAGMENT };
    let storage = PipelineLayoutSetBinding { descriptor_type: DESCRIPTOR_STORAGE_BUFFER, stage_flags: SHADER_STAGE_VERTEX };
    assert_eq!(world_layout_bindings(WorldSetLayout::TerrainGlobal), vec![sampler]);
    assert_eq!(world_layout_bindings(WorldSetLayout::ActorBatch), vec![sampler]);
    assert_eq!(world_layout_bindings(WorldSetLayout::ActorGlobal), vec![storage]);

    assert_eq!(world_pipeline_set_layouts(WorldPipelineKind::Terrain, 1, 2, 3), vec![1]);
    assert_eq!(world_pipeline_set_layouts(WorldPipelineKind::Actors, 1, 2, 3), vec![2, 3]);
    assert_eq!(world_pipeline_set_layouts(WorldPipelineKind::Debug, 1, 2, 3), Vec::<u64>::new());
    assert_eq!(push_constant_range(16), PushConstantRange { offset: 0, size: 16, stage_flags: SHADER_STAGE_VERTEX });
    assert_eq!(world_vertex_format(WorldPipelineKind::Actors).len(), 1);
}

#[test]
fn reload_targets() {
    assert_eq!(world_reload_target(4, 4, 5, 6), Some(WorldPipelineKind::Terrain));
    assert_eq!(world_reload_target(5, 4, 5, 6), Some(WorldPipelineKind::Actors));
    assert_eq!(world_reload_target(6, 4, 5, 6), Some(WorldPipelineKind::Debug));
    assert_eq!(world_reload_target(7, 4, 5, 6), None);
    // The first match wins.
    assert_eq!(world_reload_target(4, 4, 4, 4), Some(WorldPipelineKind::Terrain));
    assert_eq!(gui_reload_target(1, 1, 2), Some(GuiPipelineKind::Text));
    assert_eq!(gui_reload_target(2, 1, 2), Some(GuiPipelineKind::Image));
    assert_eq!(gui_reload_target(3, 1, 2), None);
}

#[test]
fn module_descriptor_pools() {
    let world = world_descriptor_allocations(10, 11, 12);
    assert_eq!(world.len(), 3);
    assert_eq!((world[2].layout, world[2].count), (12, 10));
    let (max_sets, pool) = compile_allocations(&world).ok().unwrap();
    assert_eq!(max_sets, 12);
    assert_eq!(
        pool,
        vec![
            PoolSize { ty: DESCRIPTOR_COMBINED_IMAGE_SAMPLER, descriptor_count: 11 },
            PoolSize { ty: DESCRIPTOR_STORAGE_BUFFER, descriptor_count: 1 },
        ]
    );
    let gui = gui_descriptor_allocations(5);
    let (max_sets, pool) = compile_allocations(&gui).ok().unwrap();
    assert_eq!(max_sets, 8);
    assert_eq!(pool, vec![PoolSize { ty: DESCRIPTOR_COMBINED_IMAGE_SAMPLER, descriptor_count: 8 }]);
}

fn menu_styles() -> GuiStyleBuilder<u32, u64> {
    let mut styles: GuiStyleBuilder<u32, u64> = GuiStyleBuilder::new();
    styles.frame("panel", GuiStyleState::Base, Some(10)).unwrap();
    styles.font("item", GuiStyleState::Base, Some(1)).unwrap();
    styles
}

#[test]
fn builder_records_tree() {
    let styles = menu_styles();
    let mut gui = GuiBuilder::new(&styles);
    gui.layout(GuiLayoutType::HBox);
    assert_eq!(gui.frame(&styles, "panel"), Some(0));
    gui.label_callback(GuiLabelCallback::Click, 1000u64);
    assert_eq!(gui.label(&styles, "item"), Some(1));
    assert_eq!(gui.label(&styles, "item"), Some(1));
    gui.end_frame();
    assert_eq!(gui.finish(), Ok(()));

    assert_eq!(gui.item_index, 3);
    assert_eq!(gui.item_has_layout, vec![true, false, false]);
    assert_eq!(
        gui.component_base,
        vec![
            GuiComponentBase { callbacks_index: u32::MAX, style_index: 0 },
            GuiComponentBase { callbacks_index: 0, style_index: 1 },
            GuiComponentBase { callbacks_index: u32::MAX, style_index: 1 },
        ]
    );
    assert_eq!(gui.callbacks, vec![GuiComponentCallbacksValue::Label(GuiLabelCallbackValues { click: 1000 })]);
    assert_eq!(gui.last_callbacks, GuiComponentCallbacksValue::Empty);
    // The root holds the frame, the frame's row holds the two labels.
    assert_eq!(
        gui.layouts,
        vec![
            GuiLayoutNode { ty: GuiLayoutType::VBox, children_count: 1 },
            GuiLayoutNode { ty: GuiLayoutType::HBox, children_count: 2 },
        ]
    );
    assert_eq!(gui.layouts_stack.len(), 1);
}

#[test]
fn builder_missing_styles() {
    let styles = menu_styles();
    let mut gui = GuiBuilder::new(&styles);
    gui.label_callback(GuiLabelCallback::Click, 7u64);
    // The label has no style: its item and its callbacks are still taken.
    assert_eq!(gui.label(&styles, "title"), None);
    assert_eq!(gui.frame(&styles, "item"), None);
    assert_eq!(gui.item_has_layout, vec![false, true]);
    assert_eq!(gui.component_base.len(), 0);
    assert_eq!(gui.callbacks.len(), 1);
    assert_eq!(gui.layouts.len(), 1);
    assert_eq!(
        gui.finish(),
        Err(vec![
            GuiBuildError::MissingLabelStyle("title".to_string()),
            GuiBuildError::MissingFrameStyle("item".to_string()),
        ])
    );
    assert_eq!(gui.errors.len(), 0);
    assert_eq!(gui.finish(), Ok(()));
}

#[test]
fn actor_textures_get_sets() {
    let collection = |ty: i32, sets: Vec<u64>| DescriptorSetsCollection { next: 0, binding_types: vec![ty], sets };
    let mut allocator = DescriptorsAllocator::new(
        1,
        vec![
            collection(DESCRIPTOR_COMBINED_IMAGE_SAMPLER, vec![100]),
            collection(DESCRIPTOR_STORAGE_BUFFER, vec![200]),
            collection(DESCRIPTOR_COMBINED_IMAGE_SAMPLER, vec![300, 301]),
        ],
    );
    let mut cache = TextureCache::new();
    let mut updates = VulkanDescriptorSubmit::new();

    assert_eq!(store_actor_texture(&mut cache, &mut allocator, &mut updates, 7, 70, 5), Ok(300));
    assert_eq!(cache.cached(7), Some((70, 300)));
    assert_eq!(updates.images, vec![DescriptorImageInfo { image_view: 70, sampler: 5, image_layout: LAYOUT_SHADER_READ_ONLY_OPTIMAL }]);
    assert_eq!(
        updates.writes,
        vec![WriteDescriptorSet { dst_set: 300, dst_binding: 0, descriptor_type: DESCRIPTOR_COMBINED_IMAGE_SAMPLER, source: WriteSource::Image(0) }]
    );
    assert_eq!(store_actor_texture(&mut cache, &mut allocator, &mut updates, 8, 80, 5), Ok(301));
    // Every set of the layout is in use.
    assert_eq!(
        store_actor_texture(&mut cache, &mut allocator, &mut updates, 9, 90, 5),
        Err(DescriptorError::NoMoreSets(ACTOR_BATCH_LAYOUT_ID))
    );
    assert_eq!(cache.cached(9), None);
    assert_eq!(updates.writes.len(), 2);
    assert_eq!(allocator.collections[0].next, 0);
}

#[test]
fn layout_plan_walks_depth_first() {
    // Two frames in the root, each holding a frame.
    assert_eq!(layout_plan(&[2, 1, 0, 1, 0], &[true, true, true, true]), Some(vec![0, 1, 0, 3]));
    // A label after a nested frame goes back to the outer layout.
    assert_eq!(layout_plan(&[1, 2, 0], &[true, true, false]), Some(vec![0, 1, 1]));
    // An empty root places nothing.
    assert_eq!(layout_plan(&[0], &[false, false]), Some(vec![]));
    assert_eq!(layout_plan(&[], &[true]), Some(vec![]));
    // Items after the root's children are not placed.
    assert_eq!(layout_plan(&[1], &[false, false]), Some(vec![0]));
    // An item holds a layout that does not exist.
    assert_eq!(layout_plan(&[1], &[true]), None);
    // A layout has more children than there are items.
    assert_eq!(layout_plan(&[3], &[false, false]), None);
}

#[test]
fn built_gui_is_walked_back() {
    let styles = menu_styles();
    let mut gui = GuiBuilder::new(&styles);
    for _ in 0..2 {
        gui.frame(&styles, "panel");
        gui.frame(&styles, "panel");
        gui.end_frame();
        gui.end_frame();
    }
    gui.label(&styles, "item");
    assert_eq!(gui.finish(), Ok(()));
    let counts: Vec<u32> = gui.layouts.iter().map(|layout| layout.children_count).collect();
    assert_eq!(counts, vec![3, 1, 0, 1, 0]);
    assert_eq!(layout_plan(&counts, &gui.item_has_layout), Some(vec![0, 1, 0, 3, 0]));
}

#[test]
fn built_label_sends_its_callback() {
    let styles = menu_styles();
    let mut gui = GuiBuilder::new(&styles);
    gui.label_callback(GuiLabelCallback::Click, 1001u64);
    gui.label(&styles, "item");
    gui.label(&styles, "item");
    let mut events = Vec::new();
    on_click(&gui.component_base, &gui.callbacks, &mut events, 0);
    on_click(&gui.component_base, &gui.callbacks, &mut events, 1);
    assert_eq!(events, vec![1001]);
}

#[test]
fn frame_layout_counts_its_own_children() {
    let styles = menu_styles();
    let mut gui = GuiBuilder::new(&styles);
    gui.layout(GuiLayoutType::HBox);
    let n = gui.layouts.len();
    assert_eq!(gui.frame(&styles, "panel"), Some(0));
    assert_eq!(gui.label(&styles, "item"), Some(1));
    assert_eq!(gui.label(&styles, "missing"), None);
    gui.layout(GuiLayoutType::VBox);
    assert_eq!(gui.frame(&styles, "panel"), Some(0));
    assert_eq!(gui.label(&styles, "item"), Some(1));
    assert_eq!(gui.label(&styles, "item"), Some(1));
    assert_eq!(gui.label(&styles, "item"), Some(1));
    gui.end_frame();
    assert_eq!(gui.label(&styles, "item"), Some(1));
    gui.end_frame();
    // The first frame holds a label, the inner frame and a label; the
    // label without a style is not one of its children.
    assert_eq!(gui.layouts[n], GuiLayoutNode { ty: GuiLayoutType::HBox, children_count: 3 });
    assert_eq!(gui.layouts[n + 1], GuiLayoutNode { ty: GuiLayoutType::VBox, children_count: 3 });
}

#[test]
fn root_layout_of_the_styles() {
    let mut styles = menu_styles();
    styles.root_layout(GuiLayoutType::HBox);
    let mut gui = GuiBuilder::new(&styles);
    assert_eq!(gui.label(&styles, "item"), Some(1));
    assert_eq!(gui.finish(), Ok(()));
    assert_eq!(gui.layouts[0], GuiLayoutNode { ty: GuiLayoutType::HBox, children_count: 1 });
    let column = GuiBuilder::new(&menu_styles());
    assert_eq!(column.layouts[0].ty, GuiLayoutType::VBox);
}
