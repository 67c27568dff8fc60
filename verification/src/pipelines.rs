//! The description of a graphics pipeline before it is compiled: its
//! shaders, its vertex format, its descriptor set layouts and its
//! attachments. The fixed function states with floating point values
//! (rasterization, blending) are kept by the caller.

use vstd::prelude::*;
use crate::store::{pack_words, SaveFileReader};

verus! {

/// Number of descriptor set layouts a pipeline can have.
pub const MAX_PIPELINE_SET_LAYOUT: usize = 3;

/// Number of vertex attributes a pipeline can have.
pub const MAX_VERTEX_ATTRIBUTES: usize = 4;

/// Format code of an undefined format.
pub const FORMAT_UNDEFINED: i32 = 0;

/// Sample count flag of one sample per pixel.
pub const SAMPLE_COUNT_1: u32 = 0x1;

/// One vertex attribute of a vertex format.
#[derive(Copy, Clone, PartialEq, Eq, Structural, Debug)]
pub struct PipelineVertexFormat {
    pub location: u32,
    pub offset: u32,
    pub format: i32,
}

/// A vertex attribute of the single vertex binding.
#[derive(Copy, Clone, PartialEq, Eq, Structural, Debug)]
pub struct VertexInputAttribute {
    pub binding: u32,
    pub location: u32,
    pub offset: u32,
    pub format: i32,
}

/// The vertex and fragment shader modules of a pipeline.
#[derive(Copy, Clone, PartialEq, Eq, Structural, Debug)]
pub struct GraphicsShaderModules {
    pub vert: u64,
    pub frag: u64,
}

/// A binding of a descriptor set layout.
#[derive(Copy, Clone, PartialEq, Eq, Structural, Debug)]
pub struct PipelineLayoutSetBinding {
    pub descriptor_type: i32,
    pub stage_flags: u32,
}

/// A binding as the descriptor set layout is created with it.
#[derive(Copy, Clone, PartialEq, Eq, Structural, Debug)]
pub struct DescriptorSetLayoutBinding {
    pub binding: u32,
    pub descriptor_type: i32,
    pub descriptor_count: u32,
    pub stage_flags: u32,
}

/// The bindings of a descriptor set layout: binding `i` has the type and
/// stages of `bindings_info[i]` and one descriptor.
pub fn descriptor_set_layout_bindings(bindings_info: &[PipelineLayoutSetBinding]) -> (r: Vec<DescriptorSetLayoutBinding>)
    requires
        bindings_info@.len() <= u32::MAX,
    ensures
        r@.len() == bindings_info@.len(),
        forall|i: int|
            0 <= i < r@.len() ==> #[trigger] r@[i] == (DescriptorSetLayoutBinding {
                binding: i as u32,
                descriptor_type: bindings_info@[i].descriptor_type,
                descriptor_count: 1,
                stage_flags: bindings_info@[i].stage_flags,
            }),
{
    let mut bindings: Vec<DescriptorSetLayoutBinding> = Vec::new();
    let mut i: usize = 0;
    while i < bindings_info.len()
        invariant
            i <= bindings_info@.len(),
            bindings_info@.len() <= u32::MAX,
            bindings@.len() == i,
            forall|j: int|
                0 <= j < i ==> #[trigger] bindings@[j] == (DescriptorSetLayoutBinding {
                    binding: j as u32,
                    descriptor_type: bindings_info@[j].descriptor_type,
                    descriptor_count: 1,
                    stage_flags: bindings_info@[j].stage_flags,
                }),
        decreases bindings_info@.len() - i,
    {
        let info = bindings_info[i];
        bindings.push(
            DescriptorSetLayoutBinding {
                binding: i as u32,
                descriptor_type: info.descriptor_type,
                descriptor_count: 1,
                stage_flags: info.stage_flags,
            },
        );
        i = i + 1;
    }
    bindings
}

/// The code of a shader module as words: the bytes read four by four as
/// little endian words. The code is a whole number of words.
pub fn shader_code_words(bytes: &[u8]) -> (r: Vec<u32>)
    requires
        bytes@.len() % 4 == 0,
    ensures
        r@ == pack_words(bytes@),
        r@.len() * 4 == bytes@.len(),
{
    SaveFileReader::validate_data_integrity(bytes)
}

/// Primitive topology of a list of triangles.
pub const TOPOLOGY_TRIANGLE_LIST: i32 = 3;

/// Polygon mode that fills the triangles.
pub const POLYGON_MODE_FILL: i32 = 0;

/// Cull mode that culls no face.
pub const CULL_MODE_NONE: u32 = 0;

/// Cull mode that culls the back faces.
pub const CULL_MODE_BACK: u32 = 0x2;

/// Front faces wind counter clockwise.
pub const FRONT_FACE_COUNTER_CLOCKWISE: i32 = 0;

/// Front faces wind clockwise.
pub const FRONT_FACE_CLOCKWISE: i32 = 1;

/// Depth comparison that passes when the new depth is less.
pub const COMPARE_OP_LESS: i32 = 1;

/// Comparison that always passes.
pub const COMPARE_OP_ALWAYS: i32 = 7;

/// Blend factor zero.
pub const BLEND_FACTOR_ZERO: i32 = 0;

/// Blend factor one.
pub const BLEND_FACTOR_ONE: i32 = 1;

/// Blend factor of the source alpha.
pub const BLEND_FACTOR_SRC_ALPHA: i32 = 6;

/// Blend factor of one minus the source alpha.
pub const BLEND_FACTOR_ONE_MINUS_SRC_ALPHA: i32 = 7;

/// Dynamic viewport.
pub const DYNAMIC_STATE_VIEWPORT: i32 = 0;

/// Dynamic scissor.
pub const DYNAMIC_STATE_SCISSOR: i32 = 1;

/// How triangles are rasterized. The line width is always one and is
/// not held here.
#[derive(Copy, Clone, PartialEq, Eq, Structural, Debug)]
pub struct RasterizationState {
    pub polygon_mode: i32,
    pub cull_mode: u32,
    pub front_face: i32,
}

/// How the color attachment blends what the fragments write.
#[derive(Copy, Clone, PartialEq, Eq, Structural, Debug)]
pub struct BlendAttachment {
    pub blend_enable: u32,
    pub src_color_blend_factor: i32,
    pub dst_color_blend_factor: i32,
    pub color_blend_op: i32,
    pub src_alpha_blend_factor: i32,
    pub dst_alpha_blend_factor: i32,
    pub alpha_blend_op: i32,
    pub color_write_mask: u32,
}

/// The blend attachment with every field zero: blending off.
pub open spec fn blend_off() -> BlendAttachment {
    BlendAttachment {
        blend_enable: 0,
        src_color_blend_factor: BLEND_FACTOR_ZERO,
        dst_color_blend_factor: BLEND_FACTOR_ZERO,
        color_blend_op: 0,
        src_alpha_blend_factor: BLEND_FACTOR_ZERO,
        dst_alpha_blend_factor: BLEND_FACTOR_ZERO,
        alpha_blend_op: 0,
        color_write_mask: 0,
    }
}

/// Alpha blending: the color is mixed by the source alpha and the alpha
/// of the attachment is kept.
pub open spec fn blend_alpha() -> BlendAttachment {
    BlendAttachment {
        blend_enable: 1,
        src_color_blend_factor: BLEND_FACTOR_SRC_ALPHA,
        dst_color_blend_factor: BLEND_FACTOR_ONE_MINUS_SRC_ALPHA,
        color_blend_op: 0,
        src_alpha_blend_factor: BLEND_FACTOR_ZERO,
        dst_alpha_blend_factor: BLEND_FACTOR_ONE,
        alpha_blend_op: 0,
        color_write_mask: 0,
    }
}

impl BlendAttachment {
    /// Blending off.
    pub fn off() -> (b: Self)
        ensures
            b == blend_off(),
    {
        BlendAttachment {
            blend_enable: 0,
            src_color_blend_factor: BLEND_FACTOR_ZERO,
            dst_color_blend_factor: BLEND_FACTOR_ZERO,
            color_blend_op: 0,
            src_alpha_blend_factor: BLEND_FACTOR_ZERO,
            dst_alpha_blend_factor: BLEND_FACTOR_ZERO,
            alpha_blend_op: 0,
            color_write_mask: 0,
        }
    }

    /// Alpha blending.
    pub fn alpha() -> (b: Self)
        ensures
            b == blend_alpha(),
    {
        BlendAttachment {
            blend_enable: 1,
            src_color_blend_factor: BLEND_FACTOR_SRC_ALPHA,
            dst_color_blend_factor: BLEND_FACTOR_ONE_MINUS_SRC_ALPHA,
            color_blend_op: 0,
            src_alpha_blend_factor: BLEND_FACTOR_ZERO,
            dst_alpha_blend_factor: BLEND_FACTOR_ONE,
            alpha_blend_op: 0,
            color_write_mask: 0,
        }
    }
}

/// A graphics pipeline: its handle once compiled, its layout, and what it
/// is built from.
pub struct GraphicsPipeline {
    pub handle: u64,
    pub pipeline_layout: u64,
    pub descriptor_set_layouts: [u64; 3],
    pub modules: GraphicsShaderModules,
    pub stage_count: u32,
    pub vertex_attributes: Vec<VertexInputAttribute>,
    pub vertex_binding_count: u32,
    pub vertex_stride: u32,
    pub topology: i32,
    pub viewport_count: u32,
    pub scissor_count: u32,
    pub rasterization: RasterizationState,
    pub sample_count: u32,
    pub depth_test_enable: u32,
    pub depth_write_enable: u32,
    pub depth_compare_op: i32,
    pub stencil_back_compare_op: i32,
    pub blend_attachment: BlendAttachment,
    pub color_blend_attachment_count: u32,
    pub dynamic_states: [i32; 2],
    pub color_attachment_format: i32,
    pub depth_attachment_format: i32,
}

/// What a pipeline is compiled from: the counts of each array, which the
/// arrays of the pipeline give, and the states.
#[derive(Copy, Clone, PartialEq, Eq, Structural, Debug)]
pub struct PipelineCreateInfo {
    pub stage_count: u32,
    pub modules: GraphicsShaderModules,
    pub vertex_binding_count: u32,
    pub vertex_attribute_count: u32,
    pub vertex_stride: u32,
    pub topology: i32,
    pub rasterization: RasterizationState,
    pub sample_count: u32,
    pub depth_test_enable: u32,
    pub depth_write_enable: u32,
    pub blend_attachment_count: u32,
    pub blend_attachment: BlendAttachment,
    pub dynamic_state_count: u32,
    pub color_attachment_count: u32,
    pub color_attachment_format: i32,
    pub depth_attachment_format: i32,
    pub layout: u64,
}

impl GraphicsPipeline {
    /// A pipeline with nothing set: no handle, no layouts nor shaders, no
    /// vertex input, a list of triangles, one viewport and one scissor,
    /// both dynamic, filled polygons with back faces culled and clockwise
    /// front faces, one sample, depth testing and writing on with the
    /// `less` comparison, blending off, and undefined attachment formats.
    pub fn new() -> (p: Self)
        ensures
            p.handle == 0,
            p.pipeline_layout == 0,
            p.descriptor_set_layouts@ == seq![0u64, 0u64, 0u64],
            p.modules == (GraphicsShaderModules { vert: 0, frag: 0 }),
            p.stage_count == 0,
            p.vertex_attributes@.len() == 0,
            p.vertex_binding_count == 0,
            p.vertex_stride == 0,
            p.topology == TOPOLOGY_TRIANGLE_LIST,
            p.viewport_count == 1,
            p.scissor_count == 1,
            p.rasterization == (RasterizationState {
                polygon_mode: POLYGON_MODE_FILL,
                cull_mode: CULL_MODE_BACK,
                front_face: FRONT_FACE_CLOCKWISE,
            }),
            p.sample_count == SAMPLE_COUNT_1,
            p.depth_test_enable == 1,
            p.depth_write_enable == 1,
            p.depth_compare_op == COMPARE_OP_LESS,
            p.stencil_back_compare_op == COMPARE_OP_ALWAYS,
            p.blend_attachment == blend_off(),
            p.color_blend_attachment_count == 0,
            p.dynamic_states@ == seq![DYNAMIC_STATE_VIEWPORT, DYNAMIC_STATE_SCISSOR],
            p.color_attachment_format == FORMAT_UNDEFINED,
            p.depth_attachment_format == FORMAT_UNDEFINED,
    {
        let p = GraphicsPipeline {
            handle: 0,
            pipeline_layout: 0,
            descriptor_set_layouts: [0, 0, 0],
            modules: GraphicsShaderModules { vert: 0, frag: 0 },
            stage_count: 0,
            vertex_attributes: Vec::new(),
            vertex_binding_count: 0,
            vertex_stride: 0,
            topology: TOPOLOGY_TRIANGLE_LIST,
            viewport_count: 1,
            scissor_count: 1,
            rasterization: RasterizationState {
                polygon_mode: POLYGON_MODE_FILL,
                cull_mode: CULL_MODE_BACK,
                front_face: FRONT_FACE_CLOCKWISE,
            },
            sample_count: SAMPLE_COUNT_1,
            depth_test_enable: 1,
            depth_write_enable: 1,
            depth_compare_op: COMPARE_OP_LESS,
            stencil_back_compare_op: COMPARE_OP_ALWAYS,
            blend_attachment: BlendAttachment::off(),
            color_blend_attachment_count: 0,
            dynamic_states: [DYNAMIC_STATE_VIEWPORT, DYNAMIC_STATE_SCISSOR],
            color_attachment_format: FORMAT_UNDEFINED,
            depth_attachment_format: FORMAT_UNDEFINED,
        };
        assert(p.descriptor_set_layouts@ =~= seq![0u64, 0u64, 0u64]);
        assert(p.dynamic_states@ =~= seq![DYNAMIC_STATE_VIEWPORT, DYNAMIC_STATE_SCISSOR]);
        p
    }

    /// The compiled pipeline.
    pub fn handle(&self) -> (h: u64)
        ensures
            h == self.handle,
    {
        self.handle
    }

    /// The pipeline layout.
    pub fn pipeline_layout(&self) -> (l: u64)
        ensures
            l == self.pipeline_layout,
    {
        self.pipeline_layout
    }

    /// The descriptor set layout at `index`.
    pub fn descriptor_set_layout(&self, index: usize) -> (l: u64)
        requires
            index < MAX_PIPELINE_SET_LAYOUT,
        ensures
            l == self.descriptor_set_layouts@[index as int],
    {
        self.descriptor_set_layouts[index]
    }

    /// The shader modules.
    pub fn modules(&self) -> (m: GraphicsShaderModules)
        ensures
            m == self.modules,
    {
        self.modules
    }

    /// Sets the compiled pipeline.
    pub fn set_handle(&mut self, pipeline: u64)
        ensures
            *final(self) == (GraphicsPipeline { handle: pipeline, ..*old(self) }),
    {
        self.handle = pipeline;
    }

    /// Sets the pipeline layout.
    pub fn set_pipeline_layout(&mut self, pipeline_layout: u64)
        ensures
            *final(self) == (GraphicsPipeline { pipeline_layout, ..*old(self) }),
    {
        self.pipeline_layout = pipeline_layout;
    }

    /// Sets the descriptor set layout at `index`.
    pub fn set_descriptor_set_layout(&mut self, index: usize, layout: u64)
        requires
            index < MAX_PIPELINE_SET_LAYOUT,
        ensures
            final(self).descriptor_set_layouts@ == old(self).descriptor_set_layouts@.update(index as int, layout),
            *final(self) == (GraphicsPipeline { descriptor_set_layouts: final(self).descriptor_set_layouts, ..*old(self) }),
    {
        self.descriptor_set_layouts.set(index, layout);
    }

    /// Sets the number of samples per pixel.
    pub fn set_sample_count(&mut self, sample_count: u32)
        ensures
            *final(self) == (GraphicsPipeline { sample_count, ..*old(self) }),
    {
        self.sample_count = sample_count;
    }

    /// Sets the format of the color attachment.
    pub fn set_color_attachment_format(&mut self, format: i32)
        ensures
            *final(self) == (GraphicsPipeline { color_attachment_format: format, ..*old(self) }),
    {
        self.color_attachment_format = format;
    }

    /// Sets the format of the depth attachment.
    pub fn set_depth_attachment_format(&mut self, format: i32)
        ensures
            *final(self) == (GraphicsPipeline { depth_attachment_format: format, ..*old(self) }),
    {
        self.depth_attachment_format = format;
    }

    /// Sets the shaders: a vertex and a fragment stage.
    pub fn set_shader_modules(&mut self, modules: GraphicsShaderModules)
        ensures
            *final(self) == (GraphicsPipeline { modules, stage_count: 2, ..*old(self) }),
    {
        self.modules = modules;
        self.stage_count = 2;
    }

    /// Sets the vertex format: the attributes of one packed vertex binding
    /// whose stride is the size of `V`.
    pub fn set_vertex_format<V>(&mut self, fmt: &[PipelineVertexFormat])
        requires
            fmt@.len() <= MAX_VERTEX_ATTRIBUTES,
            vstd::layout::size_of::<V>() <= u32::MAX,
        ensures
            final(self).vertex_attributes@ == vertex_attributes_of(fmt@),
            *final(self) == (GraphicsPipeline {
                vertex_attributes: final(self).vertex_attributes,
                vertex_binding_count: 1,
                vertex_stride: vstd::layout::size_of::<V>() as u32,
                ..*old(self)
            }),
    {
        let mut attributes: Vec<VertexInputAttribute> = Vec::new();
        let mut i: usize = 0;
        while i < fmt.len()
            invariant
                i <= fmt@.len(),
                attributes@ == vertex_attributes_of(fmt@.take(i as int)),
            decreases fmt@.len() - i,
        {
            let attr = fmt[i];
            attributes.push(VertexInputAttribute { binding: 0, location: attr.location, offset: attr.offset, format: attr.format });
            proof {
                assert(fmt@.take(i + 1) =~= fmt@.take(i as int).push(attr));
            }
            i = i + 1;
        }
        proof {
            assert(fmt@.take(fmt@.len() as int) =~= fmt@);
        }
        self.vertex_attributes = attributes;
        self.vertex_binding_count = 1;
        self.vertex_stride = core::mem::size_of::<V>() as u32;
    }

    /// Turns depth testing and depth writing on or off.
    pub fn set_depth_testing(&mut self, enabled: bool)
        ensures
            *final(self) == (GraphicsPipeline {
                depth_test_enable: if enabled { 1u32 } else { 0u32 },
                depth_write_enable: if enabled { 1u32 } else { 0u32 },
                ..*old(self)
            }),
    {
        let value: u32 = if enabled { 1 } else { 0 };
        self.depth_test_enable = value;
        self.depth_write_enable = value;
    }

    /// Sets how triangles are rasterized.
    pub fn rasterization(&mut self, state: RasterizationState)
        ensures
            *final(self) == (GraphicsPipeline { rasterization: state, ..*old(self) }),
    {
        self.rasterization = state;
    }

    /// Sets the blending of the color attachment, of which there is at
    /// most one.
    pub fn blending(&mut self, attach: BlendAttachment, attachment_count: u32)
        requires
            attachment_count <= 1,
        ensures
            *final(self) == (GraphicsPipeline {
                blend_attachment: attach,
                color_blend_attachment_count: attachment_count,
                ..*old(self)
            }),
    {
        self.blend_attachment = attach;
        self.color_blend_attachment_count = attachment_count;
    }

    /// What the pipeline is compiled from, with its layout: one blend
    /// attachment, the two dynamic states and one color attachment.
    pub fn create_info(&self) -> (info: PipelineCreateInfo)
        requires
            self.vertex_attributes@.len() <= u32::MAX,
        ensures
            info == (PipelineCreateInfo {
                stage_count: self.stage_count,
                modules: self.modules,
                vertex_binding_count: self.vertex_binding_count,
                vertex_attribute_count: self.vertex_attributes@.len() as u32,
                vertex_stride: self.vertex_stride,
                topology: self.topology,
                rasterization: self.rasterization,
                sample_count: self.sample_count,
                depth_test_enable: self.depth_test_enable,
                depth_write_enable: self.depth_write_enable,
                blend_attachment_count: 1,
                blend_attachment: self.blend_attachment,
                dynamic_state_count: 2,
                color_attachment_count: 1,
                color_attachment_format: self.color_attachment_format,
                depth_attachment_format: self.depth_attachment_format,
                layout: self.pipeline_layout,
            }),
    {
        PipelineCreateInfo {
            stage_count: self.stage_count,
            modules: self.modules,
            vertex_binding_count: self.vertex_binding_count,
            vertex_attribute_count: self.vertex_attributes.len() as u32,
            vertex_stride: self.vertex_stride,
            topology: self.topology,
            rasterization: self.rasterization,
            sample_count: self.sample_count,
            depth_test_enable: self.depth_test_enable,
            depth_write_enable: self.depth_write_enable,
            blend_attachment_count: 1,
            blend_attachment: self.blend_attachment,
            dynamic_state_count: 2,
            color_attachment_count: 1,
            color_attachment_format: self.color_attachment_format,
            depth_attachment_format: self.depth_attachment_format,
            layout: self.pipeline_layout,
        }
    }
}

/// The vertex attributes of a vertex format, all of binding zero.
pub open spec fn vertex_attributes_of(fmt: Seq<PipelineVertexFormat>) -> Seq<VertexInputAttribute> {
    fmt.map_values(|f: PipelineVertexFormat| VertexInputAttribute {
        binding: 0,
        location: f.location,
        offset: f.offset,
        format: f.format,
    })
}

} // verus!
