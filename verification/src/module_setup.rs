//! How the world and gui modules set up their pipelines: the descriptor
//! set layouts and pipeline layouts, the shaders, vertex formats and fixed
//! function states of each pipeline, the descriptor sets they preallocate,
//! and which pipeline a reloaded shader belongs to.

use vstd::prelude::*;
use crate::descriptors::DescriptorsAllocation;
use crate::pipelines::{
    blend_alpha, blend_off, vertex_attributes_of, BlendAttachment, GraphicsPipeline, GraphicsShaderModules,
    PipelineLayoutSetBinding, PipelineVertexFormat, RasterizationState, CULL_MODE_NONE,
    FRONT_FACE_COUNTER_CLOCKWISE, MAX_VERTEX_ATTRIBUTES, POLYGON_MODE_FILL,
};
use crate::setup::FORMAT_R8G8B8A8_UNORM;

verus! {

/// Descriptor type of an image with its sampler.
pub const DESCRIPTOR_COMBINED_IMAGE_SAMPLER: i32 = 1;

/// Descriptor type of a storage buffer.
pub const DESCRIPTOR_STORAGE_BUFFER: i32 = 7;

/// Vertex shader stage.
pub const SHADER_STAGE_VERTEX: u32 = 0x1;

/// Fragment shader stage.
pub const SHADER_STAGE_FRAGMENT: u32 = 0x10;

/// Format of two 32 bit floats.
pub const FORMAT_R32G32_SFLOAT: i32 = 103;

/// The pipelines of the world module.
#[derive(Copy, Clone, PartialEq, Eq, Structural, Debug)]
pub enum WorldPipelineKind {
    Terrain,
    Actors,
    Debug,
}

/// The pipelines of the gui module.
#[derive(Copy, Clone, PartialEq, Eq, Structural, Debug)]
pub enum GuiPipelineKind {
    Image,
    Text,
}

/// The descriptor set layouts of the world module.
#[derive(Copy, Clone, PartialEq, Eq, Structural, Debug)]
pub enum WorldSetLayout {
    TerrainGlobal,
    ActorGlobal,
    ActorBatch,
}

/// The attachments and the sample count every pipeline is built for.
#[derive(Copy, Clone, PartialEq, Eq, Structural, Debug)]
pub struct AttachmentsInfo {
    pub sample_count: u32,
    pub color_format: i32,
    pub depth_format: i32,
}

/// A range of push constants.
#[derive(Copy, Clone, PartialEq, Eq, Structural, Debug)]
pub struct PushConstantRange {
    pub offset: u32,
    pub size: u32,
    pub stage_flags: u32,
}

/// The name of the shader of a world pipeline.
pub open spec fn world_shader_name(kind: WorldPipelineKind) -> Seq<char> {
    match kind {
        WorldPipelineKind::Terrain => "world_terrain"@,
        WorldPipelineKind::Actors => "world_actors"@,
        WorldPipelineKind::Debug => "world_debug"@,
    }
}

/// The name of the shader of a gui pipeline.
pub open spec fn gui_shader_name(kind: GuiPipelineKind) -> Seq<char> {
    match kind {
        GuiPipelineKind::Image => "gui_component"@,
        GuiPipelineKind::Text => "gui_text"@,
    }
}

/// The name of the shader of a world pipeline.
pub fn world_pipeline_shader(kind: WorldPipelineKind) -> (name: &'static str)
    ensures
        name@ == world_shader_name(kind),
{
    match kind {
        WorldPipelineKind::Terrain => "world_terrain",
        WorldPipelineKind::Actors => "world_actors",
        WorldPipelineKind::Debug => "world_debug",
    }
}

/// The name of the shader of a gui pipeline.
pub fn gui_pipeline_shader(kind: GuiPipelineKind) -> (name: &'static str)
    ensures
        name@ == gui_shader_name(kind),
{
    match kind {
        GuiPipelineKind::Image => "gui_component",
        GuiPipelineKind::Text => "gui_text",
    }
}

/// A sampled image read by the fragment shader.
pub open spec fn sampler_binding() -> PipelineLayoutSetBinding {
    PipelineLayoutSetBinding { descriptor_type: DESCRIPTOR_COMBINED_IMAGE_SAMPLER, stage_flags: SHADER_STAGE_FRAGMENT }
}

/// A storage buffer read by the vertex shader.
pub open spec fn storage_binding() -> PipelineLayoutSetBinding {
    PipelineLayoutSetBinding { descriptor_type: DESCRIPTOR_STORAGE_BUFFER, stage_flags: SHADER_STAGE_VERTEX }
}

/// The bindings of a descriptor set layout of the world module: the
/// terrain texture and the texture of an actor batch are one sampled
/// image each, the sprites of the actors one storage buffer.
pub fn world_layout_bindings(layout: WorldSetLayout) -> (b: Vec<PipelineLayoutSetBinding>)
    ensures
        b@ == match layout {
            WorldSetLayout::ActorGlobal => seq![storage_binding()],
            _ => seq![sampler_binding()],
        },
{
    let binding = match layout {
        WorldSetLayout::ActorGlobal => PipelineLayoutSetBinding {
            descriptor_type: DESCRIPTOR_STORAGE_BUFFER,
            stage_flags: SHADER_STAGE_VERTEX,
        },
        _ => PipelineLayoutSetBinding {
            descriptor_type: DESCRIPTOR_COMBINED_IMAGE_SAMPLER,
            stage_flags: SHADER_STAGE_FRAGMENT,
        },
    };
    let mut b: Vec<PipelineLayoutSetBinding> = Vec::new();
    b.push(binding);
    proof {
        assert(b@ =~= seq![binding]);
    }
    b
}

/// The bindings of the descriptor set layout of a gui batch: its texture.
pub fn gui_batch_layout_bindings() -> (b: Vec<PipelineLayoutSetBinding>)
    ensures
        b@ == seq![sampler_binding()],
{
    let mut b: Vec<PipelineLayoutSetBinding> = Vec::new();
    b.push(PipelineLayoutSetBinding {
        descriptor_type: DESCRIPTOR_COMBINED_IMAGE_SAMPLER,
        stage_flags: SHADER_STAGE_FRAGMENT,
    });
    proof {
        assert(b@ =~= seq![sampler_binding()]);
    }
    b
}

/// The push constants of every pipeline: `size` bytes from the start,
/// read by the vertex shader.
pub fn push_constant_range(size: u32) -> (r: PushConstantRange)
    ensures
        r == (PushConstantRange { offset: 0, size, stage_flags: SHADER_STAGE_VERTEX }),
{
    PushConstantRange { offset: 0, size, stage_flags: SHADER_STAGE_VERTEX }
}

/// The descriptor set layouts of the layout of a world pipeline, in set
/// order.
pub open spec fn world_set_layouts(kind: WorldPipelineKind, terrain_global: u64, actor_global: u64, actor_batch: u64) -> Seq<u64> {
    match kind {
        WorldPipelineKind::Terrain => seq![terrain_global],
        WorldPipelineKind::Actors => seq![actor_global, actor_batch],
        WorldPipelineKind::Debug => Seq::empty(),
    }
}

/// The descriptor set layouts of the layout of a world pipeline: the
/// terrain reads its texture, the actors their sprites then the texture
/// of their batch, the debug grid nothing.
pub fn world_pipeline_set_layouts(kind: WorldPipelineKind, terrain_global: u64, actor_global: u64, actor_batch: u64) -> (r: Vec<u64>)
    ensures
        r@ == world_set_layouts(kind, terrain_global, actor_global, actor_batch),
{
    let mut r: Vec<u64> = Vec::new();
    match kind {
        WorldPipelineKind::Terrain => {
            r.push(terrain_global);
        },
        WorldPipelineKind::Actors => {
            r.push(actor_global);
            r.push(actor_batch);
        },
        WorldPipelineKind::Debug => {},
    }
    proof {
        assert(r@ =~= world_set_layouts(kind, terrain_global, actor_global, actor_batch));
    }
    r
}

/// The vertex format of a world pipeline: a position of two floats, and
/// for the debug grid a color of four bytes after it.
pub open spec fn world_vertex_fields(kind: WorldPipelineKind) -> Seq<PipelineVertexFormat> {
    let pos = PipelineVertexFormat { location: 0, offset: 0, format: FORMAT_R32G32_SFLOAT };
    match kind {
        WorldPipelineKind::Debug => seq![pos, PipelineVertexFormat { location: 1, offset: 8, format: FORMAT_R8G8B8A8_UNORM }],
        _ => seq![pos],
    }
}

/// The vertex format of the gui pipelines: a position and texture
/// coordinates of two floats each, then a color of four bytes.
pub open spec fn gui_vertex_fields() -> Seq<PipelineVertexFormat> {
    seq![
        PipelineVertexFormat { location: 0, offset: 0, format: FORMAT_R32G32_SFLOAT },
        PipelineVertexFormat { location: 1, offset: 8, format: FORMAT_R32G32_SFLOAT },
        PipelineVertexFormat { location: 2, offset: 16, format: FORMAT_R8G8B8A8_UNORM },
    ]
}

/// The vertex format of a world pipeline.
pub fn world_vertex_format(kind: WorldPipelineKind) -> (r: Vec<PipelineVertexFormat>)
    ensures
        r@ == world_vertex_fields(kind),
{
    let mut r: Vec<PipelineVertexFormat> = Vec::new();
    r.push(PipelineVertexFormat { location: 0, offset: 0, format: FORMAT_R32G32_SFLOAT });
    if kind == WorldPipelineKind::Debug {
        r.push(PipelineVertexFormat { location: 1, offset: 8, format: FORMAT_R8G8B8A8_UNORM });
    }
    proof {
        assert(r@ =~= world_vertex_fields(kind));
    }
    r
}

/// The vertex format of the gui pipelines.
pub fn gui_vertex_format() -> (r: Vec<PipelineVertexFormat>)
    ensures
        r@ == gui_vertex_fields(),
{
    let mut r: Vec<PipelineVertexFormat> = Vec::new();
    r.push(PipelineVertexFormat { location: 0, offset: 0, format: FORMAT_R32G32_SFLOAT });
    r.push(PipelineVertexFormat { location: 1, offset: 8, format: FORMAT_R32G32_SFLOAT });
    r.push(PipelineVertexFormat { location: 2, offset: 16, format: FORMAT_R8G8B8A8_UNORM });
    proof {
        assert(r@ =~= gui_vertex_fields());
    }
    r
}

/// The blending of a world pipeline: only the actors blend by alpha.
pub open spec fn world_blend(kind: WorldPipelineKind) -> BlendAttachment {
    match kind {
        WorldPipelineKind::Actors => blend_alpha(),
        _ => blend_off(),
    }
}

/// The rasterization of every pipeline of the modules: filled triangles,
/// no culling, counter clockwise front faces.
pub open spec fn module_rasterization() -> RasterizationState {
    RasterizationState {
        polygon_mode: POLYGON_MODE_FILL,
        cull_mode: CULL_MODE_NONE,
        front_face: FRONT_FACE_COUNTER_CLOCKWISE,
    }
}

/// `p` is `old` set up with these shaders, vertex attributes and stride,
/// layout and blending for these attachments, without depth testing and
/// with the rasterization of the modules.
pub open spec fn set_up_from(
    p: GraphicsPipeline,
    old: GraphicsPipeline,
    modules: GraphicsShaderModules,
    fmt: Seq<PipelineVertexFormat>,
    stride: u32,
    layout: u64,
    blend: BlendAttachment,
    attachments: AttachmentsInfo,
) -> bool {
    &&& p.vertex_attributes@ == vertex_attributes_of(fmt)
    &&& p == (GraphicsPipeline {
        modules,
        stage_count: 2,
        vertex_attributes: p.vertex_attributes,
        vertex_binding_count: 1,
        vertex_stride: stride,
        pipeline_layout: layout,
        depth_test_enable: 0,
        depth_write_enable: 0,
        rasterization: module_rasterization(),
        blend_attachment: blend,
        color_blend_attachment_count: 1,
        sample_count: attachments.sample_count,
        color_attachment_format: attachments.color_format,
        depth_attachment_format: attachments.depth_format,
        ..old
    })
}

/// Sets up a pipeline of the modules: its shaders, its vertex format of
/// vertices `V`, its layout, no depth testing, the rasterization of the
/// modules, the blending of its one color attachment, and the sample count
/// and formats of the attachments.
pub fn configure_pipeline<V>(
    pipeline: &mut GraphicsPipeline,
    modules: GraphicsShaderModules,
    fmt: &[PipelineVertexFormat],
    layout: u64,
    blend: BlendAttachment,
    attachments: AttachmentsInfo,
)
    requires
        fmt@.len() <= MAX_VERTEX_ATTRIBUTES,
        vstd::layout::size_of::<V>() <= u32::MAX,
    ensures
        set_up_from(*final(pipeline), *old(pipeline), modules, fmt@, vstd::layout::size_of::<V>() as u32, layout, blend, attachments),
{
    pipeline.set_shader_modules(modules);
    pipeline.set_vertex_format::<V>(fmt);
    pipeline.set_pipeline_layout(layout);
    pipeline.set_depth_testing(false);
    pipeline.rasterization(
        RasterizationState {
            polygon_mode: POLYGON_MODE_FILL,
            cull_mode: CULL_MODE_NONE,
            front_face: FRONT_FACE_COUNTER_CLOCKWISE,
        },
    );
    pipeline.blending(blend, 1);
    pipeline.set_sample_count(attachments.sample_count);
    pipeline.set_color_attachment_format(attachments.color_format);
    pipeline.set_depth_attachment_format(attachments.depth_format);
}

/// Sets up a world pipeline with its vertex format, of vertices `V`, and
/// its blending.
pub fn setup_world_pipeline<V>(
    pipeline: &mut GraphicsPipeline,
    kind: WorldPipelineKind,
    modules: GraphicsShaderModules,
    layout: u64,
    attachments: AttachmentsInfo,
)
    requires
        vstd::layout::size_of::<V>() <= u32::MAX,
    ensures
        set_up_from(
            *final(pipeline),
            *old(pipeline),
            modules,
            world_vertex_fields(kind),
            vstd::layout::size_of::<V>() as u32,
            layout,
            world_blend(kind),
            attachments,
        ),
{
    let fmt = world_vertex_format(kind);
    let blend = match kind {
        WorldPipelineKind::Actors => BlendAttachment::alpha(),
        _ => BlendAttachment::off(),
    };
    configure_pipeline::<V>(pipeline, modules, fmt.as_slice(), layout, blend, attachments);
}

/// Sets up a gui pipeline: both have the vertex format of the gui, of
/// vertices `V`, and blend by alpha.
pub fn setup_gui_pipeline<V>(
    pipeline: &mut GraphicsPipeline,
    modules: GraphicsShaderModules,
    layout: u64,
    attachments: AttachmentsInfo,
)
    requires
        vstd::layout::size_of::<V>() <= u32::MAX,
    ensures
        set_up_from(
            *final(pipeline),
            *old(pipeline),
            modules,
            gui_vertex_fields(),
            vstd::layout::size_of::<V>() as u32,
            layout,
            blend_alpha(),
            attachments,
        ),
{
    let fmt = gui_vertex_format();
    configure_pipeline::<V>(pipeline, modules, fmt.as_slice(), layout, BlendAttachment::alpha(), attachments);
}

/// The world pipeline that a reloaded shader belongs to, if any: the
/// first of terrain, actors and debug grid whose shader it is.
pub fn world_reload_target(shader_id: u32, terrain_id: u32, actors_id: u32, debug_id: u32) -> (r: Option<WorldPipelineKind>)
    ensures
        r == if shader_id == terrain_id {
            Some(WorldPipelineKind::Terrain)
        } else if shader_id == actors_id {
            Some(WorldPipelineKind::Actors)
        } else if shader_id == debug_id {
            Some(WorldPipelineKind::Debug)
        } else {
            None
        },
{
    if shader_id == terrain_id {
        Some(WorldPipelineKind::Terrain)
    } else if shader_id == actors_id {
        Some(WorldPipelineKind::Actors)
    } else if shader_id == debug_id {
        Some(WorldPipelineKind::Debug)
    } else {
        None
    }
}

/// The gui pipeline that a reloaded shader belongs to, if any: the text
/// pipeline first, then the image pipeline.
pub fn gui_reload_target(shader_id: u32, text_id: u32, image_id: u32) -> (r: Option<GuiPipelineKind>)
    ensures
        r == if shader_id == text_id {
            Some(GuiPipelineKind::Text)
        } else if shader_id == image_id {
            Some(GuiPipelineKind::Image)
        } else {
            None
        },
{
    if shader_id == text_id {
        Some(GuiPipelineKind::Text)
    } else if shader_id == image_id {
        Some(GuiPipelineKind::Image)
    } else {
        None
    }
}

/// `a` is `count` sets of layout `layout` with one binding of type `ty`.
pub open spec fn single_binding_allocation(a: DescriptorsAllocation, layout: u64, ty: i32, count: u32) -> bool {
    a.layout == layout && a.binding_types@ == seq![ty] && a.count == count
}

/// One binding of type `ty`.
fn single_type(ty: i32) -> (r: Vec<i32>)
    ensures
        r@ == seq![ty],
{
    let mut r: Vec<i32> = Vec::new();
    r.push(ty);
    proof {
        assert(r@ =~= seq![ty]);
    }
    r
}

/// The descriptor sets the world module preallocates: one for the terrain
/// texture, one for the sprites, and ten for the textures of actor
/// batches.
pub fn world_descriptor_allocations(terrain_global: u64, actor_global: u64, actor_batch: u64) -> (r: Vec<DescriptorsAllocation>)
    ensures
        r@.len() == 3,
        single_binding_allocation(r@[0], terrain_global, DESCRIPTOR_COMBINED_IMAGE_SAMPLER, 1),
        single_binding_allocation(r@[1], actor_global, DESCRIPTOR_STORAGE_BUFFER, 1),
        single_binding_allocation(r@[2], actor_batch, DESCRIPTOR_COMBINED_IMAGE_SAMPLER, 10),
{
    let mut r: Vec<DescriptorsAllocation> = Vec::new();
    r.push(DescriptorsAllocation {
        layout: terrain_global,
        binding_types: single_type(DESCRIPTOR_COMBINED_IMAGE_SAMPLER),
        count: 1,
    });
    r.push(DescriptorsAllocation {
        layout: actor_global,
        binding_types: single_type(DESCRIPTOR_STORAGE_BUFFER),
        count: 1,
    });
    r.push(DescriptorsAllocation {
        layout: actor_batch,
        binding_types: single_type(DESCRIPTOR_COMBINED_IMAGE_SAMPLER),
        count: 10,
    });
    r
}

/// The descriptor sets the gui module preallocates: eight for the
/// textures of its batches.
pub fn gui_descriptor_allocations(batch_layout: u64) -> (r: Vec<DescriptorsAllocation>)
    ensures
        r@.len() == 1,
        single_binding_allocation(r@[0], batch_layout, DESCRIPTOR_COMBINED_IMAGE_SAMPLER, 8),
{
    let mut r: Vec<DescriptorsAllocation> = Vec::new();
    r.push(DescriptorsAllocation {
        layout: batch_layout,
        binding_types: single_type(DESCRIPTOR_COMBINED_IMAGE_SAMPLER),
        count: 8,
    });
    r
}

} // verus!
