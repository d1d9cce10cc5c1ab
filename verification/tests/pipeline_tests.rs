use wgpu_engine::binding::{
    BindingGroupType, BindingKind, BindingResource, BindingResourceType, ShaderBindingDescriptor,
    Visibility,
};
use wgpu_engine::layout::{synthesize, SynthesisError};
use wgpu_engine::pipeline::{
    BindError, CompareFunction, DrawStatus, Face, PipelineError, RenderPipeline,
    RenderPipelineSettings, TextureFormat, VertexStepMode,
};
use wgpu_engine::reflect::ReflectError;
use wgpu_engine::registry::{BufferRegistry, BufferUsage};
use wgpu_engine::server::PipelineRegistry;

const TWO_GROUP_SHADER: &str = "
struct Camera {
    mvp: mat4x4<f32>,
}
struct Objects {
    model: mat4x4<f32>,
}
@group(0) @binding(0) var<uniform> camera: Camera;
@group(1) @binding(0) var<storage, read> objects: Objects;
@vertex
fn vs_main() -> @builtin(position) vec4<f32> {
    return vec4<f32>(0.0, 0.0, 0.0, 1.0);
}
@fragment
fn fs_main() -> @location(0) vec4<f32> {
    return vec4<f32>(1.0, 1.0, 1.0, 1.0);
}
";

fn usage() -> BufferUsage {
    BufferUsage {
        vertex: false,
        index: false,
        uniform: true,
        storage: true,
        copy_dst: true,
        copy_src: false,
    }
}

fn descriptor(group: u32, binding: u32, kind: BindingKind) -> ShaderBindingDescriptor {
    ShaderBindingDescriptor { group, binding, kind, visibility: Visibility::Both }
}

fn buffer_ref(id: &str) -> BindingResource {
    BindingResource {
        id: id.to_string(),
        resource_type: BindingResourceType::Buffer,
        entire_binding: true,
        offset: 0,
        size: 0,
    }
}

fn two_group_pipeline() -> RenderPipeline {
    let mut builder = RenderPipeline::new();
    builder.new_shader(TWO_GROUP_SHADER);
    builder.build("main").unwrap()
}

#[test]
fn build_synthesizes_one_layout_per_group() {
    let pipeline = two_group_pipeline();
    assert_eq!(pipeline.get_id(), "main");
    assert_eq!(pipeline.group_layouts.len(), 2);
    assert_eq!(pipeline.group_layouts[0].group_index, 0);
    assert_eq!(pipeline.group_layouts[0].entries.len(), 1);
    assert_eq!(pipeline.group_layouts[0].entries[0].kind, BindingKind::UniformBuffer);
    assert_eq!(pipeline.group_layouts[1].group_index, 1);
    assert_eq!(
        pipeline.group_layouts[1].entries[0].kind,
        BindingKind::StorageBuffer { read_only: true }
    );
}

#[test]
fn drawable_only_after_every_group_is_bound() {
    let mut reg = BufferRegistry::new(256, 256);
    reg.create("camera_buffer", 64, usage()).unwrap();
    reg.create("mesh_buffer", 256 * 16, usage()).unwrap();
    let mut pipeline = two_group_pipeline();
    // Fresh from build: no groups bound yet.
    assert!(!pipeline.is_drawable());
    assert_eq!(pipeline.draw_status(), DrawStatus::Skipped);
    pipeline.bind_resource(&reg, 0, &vec![buffer_ref("camera_buffer")]).unwrap();
    assert!(!pipeline.is_drawable());
    pipeline.bind_resource(&reg, 1, &vec![buffer_ref("mesh_buffer")]).unwrap();
    assert!(pipeline.is_drawable());
    assert_eq!(pipeline.draw_status(), DrawStatus::Ready);
}

#[test]
fn bind_twice_keeps_the_first_record() {
    let mut reg = BufferRegistry::new(256, 256);
    reg.create("camera_buffer", 64, usage()).unwrap();
    let mut pipeline = two_group_pipeline();
    pipeline.bind_resource(&reg, 0, &vec![buffer_ref("camera_buffer")]).unwrap();
    assert_eq!(pipeline.bind_groups.len(), 1);
    let first_stamp = pipeline.bind_groups[0].stamp;
    // The second bind with identical arguments is a no-op: same record,
    // nothing created.
    pipeline.bind_resource(&reg, 0, &vec![buffer_ref("camera_buffer")]).unwrap();
    assert_eq!(pipeline.bind_groups.len(), 1);
    assert_eq!(pipeline.bind_groups[0].stamp, first_stamp);
    assert_eq!(pipeline.next_stamp, first_stamp + 1);
}

#[test]
fn rebind_replaces_the_record() {
    let mut reg = BufferRegistry::new(256, 256);
    reg.create("camera_buffer", 64, usage()).unwrap();
    reg.create("other_buffer", 32, usage()).unwrap();
    let mut pipeline = two_group_pipeline();
    pipeline.bind_resource(&reg, 0, &vec![buffer_ref("camera_buffer")]).unwrap();
    let first_stamp = pipeline.bind_groups[0].stamp;
    pipeline.rebind(&reg, 0, &vec![buffer_ref("other_buffer")]).unwrap();
    assert_eq!(pipeline.bind_groups.len(), 1);
    assert_eq!(pipeline.bind_groups[0].entries[0].buffer_id, "other_buffer");
    assert!(pipeline.bind_groups[0].stamp > first_stamp);
}

#[test]
fn bind_unknown_group_is_reported() {
    let reg = BufferRegistry::new(256, 256);
    let mut pipeline = two_group_pipeline();
    match pipeline.bind_resource(&reg, 5, &vec![]) {
        Err(BindError::UnknownGroup(g)) => assert_eq!(g, 5),
        other => panic!("expected an unknown group, got {:?}", other),
    }
}

#[test]
fn bind_missing_buffer_is_reported_and_changes_nothing() {
    let reg = BufferRegistry::new(256, 256);
    let mut pipeline = two_group_pipeline();
    match pipeline.bind_resource(&reg, 0, &vec![buffer_ref("nope")]) {
        Err(BindError::BufferNotFound(id)) => assert_eq!(id, "nope"),
        other => panic!("expected a missing buffer, got {:?}", other),
    }
    assert_eq!(pipeline.bind_groups.len(), 0);
    assert_eq!(pipeline.next_stamp, 0);
}

#[test]
fn bind_non_buffer_reference_is_reported() {
    let mut reg = BufferRegistry::new(256, 256);
    reg.create("t", 4, usage()).unwrap();
    let mut pipeline = two_group_pipeline();
    let mut resource = buffer_ref("t");
    resource.resource_type = BindingResourceType::TextureView;
    match pipeline.bind_resource(&reg, 0, &vec![resource]) {
        Err(BindError::UnsupportedResourceType(t)) => {
            assert_eq!(t, BindingResourceType::TextureView)
        },
        other => panic!("expected an unsupported resource type, got {:?}", other),
    }
}

#[test]
fn entire_binding_resolves_to_whole_buffer() {
    let mut reg = BufferRegistry::new(256, 256);
    reg.create("camera_buffer", 64, usage()).unwrap();
    let mut pipeline = two_group_pipeline();
    pipeline.bind_resource(&reg, 0, &vec![buffer_ref("camera_buffer")]).unwrap();
    let record = &pipeline.bind_groups[0];
    assert_eq!(record.group_index, 0);
    assert_eq!(record.entries.len(), 1);
    assert_eq!(record.entries[0].binding, 0);
    assert_eq!(record.entries[0].buffer_id, "camera_buffer");
    assert_eq!(record.entries[0].offset, 0);
    assert_eq!(record.entries[0].size, 64);
    assert!(record.entries[0].entire_binding);
}

#[test]
fn ranged_binding_keeps_offset_and_size() {
    let mut reg = BufferRegistry::new(256, 256);
    reg.create("mesh_buffer", 4096, usage()).unwrap();
    let mut pipeline = two_group_pipeline();
    let resource = BindingResource {
        id: "mesh_buffer".to_string(),
        resource_type: BindingResourceType::Buffer,
        entire_binding: false,
        offset: 512,
        size: 64,
    };
    pipeline.bind_resource(&reg, 1, &vec![resource]).unwrap();
    let record = &pipeline.bind_groups[0];
    assert_eq!(record.group_index, 1);
    assert_eq!(record.entries[0].offset, 512);
    assert_eq!(record.entries[0].size, 64);
    assert!(!record.entries[0].entire_binding);
}

#[test]
fn get_bind_groups_follows_layout_order() {
    let mut reg = BufferRegistry::new(256, 256);
    reg.create("camera_buffer", 64, usage()).unwrap();
    reg.create("mesh_buffer", 256, usage()).unwrap();
    let mut pipeline = two_group_pipeline();
    // Bind in reverse group order; the records still come out layout-first.
    pipeline.bind_resource(&reg, 1, &vec![buffer_ref("mesh_buffer")]).unwrap();
    pipeline.bind_resource(&reg, 0, &vec![buffer_ref("camera_buffer")]).unwrap();
    let groups = pipeline.get_bind_groups();
    assert_eq!(groups.len(), 2);
    assert_eq!(groups[0].group_index, 0);
    assert_eq!(groups[1].group_index, 1);
}

#[test]
fn synthesize_sorts_entries_by_binding_index() {
    let bindings = vec![
        descriptor(0, 2, BindingKind::UniformBuffer),
        descriptor(1, 0, BindingKind::StorageBuffer { read_only: true }),
        descriptor(0, 0, BindingKind::Texture2D),
        descriptor(0, 1, BindingKind::UniformBuffer),
    ];
    let layouts = synthesize(&bindings).unwrap();
    assert_eq!(layouts.len(), 2);
    assert_eq!(layouts[0].group_index, 0);
    let order: Vec<u32> = layouts[0].entries.iter().map(|e| e.binding).collect();
    assert_eq!(order, vec![0, 1, 2]);
    assert_eq!(layouts[1].group_index, 1);
    assert_eq!(layouts[1].entries.len(), 1);
}

#[test]
fn synthesize_rejects_duplicate_binding_indices() {
    let bindings = vec![
        descriptor(0, 0, BindingKind::UniformBuffer),
        descriptor(0, 0, BindingKind::Texture2D),
    ];
    match synthesize(&bindings) {
        Err(SynthesisError::DuplicateBindingIndex { group, binding }) => {
            assert_eq!((group, binding), (0, 0));
        },
        other => panic!("expected a duplicate binding index, got {:?}", other),
    }
}

#[test]
fn build_rejects_a_group_gap() {
    let source = "
struct Camera {
    mvp: mat4x4<f32>,
}
struct Objects {
    model: mat4x4<f32>,
}
@group(0) @binding(0) var<uniform> camera: Camera;
@group(2) @binding(0) var<storage, read> objects: Objects;
@vertex
fn vs_main() -> @builtin(position) vec4<f32> {
    return vec4<f32>(0.0, 0.0, 0.0, 1.0);
}
@fragment
fn fs_main() -> @location(0) vec4<f32> {
    return vec4<f32>(1.0, 1.0, 1.0, 1.0);
}
";
    let mut builder = RenderPipeline::new();
    builder.new_shader(source);
    match builder.build("gapped") {
        Err(PipelineError::Synthesis(SynthesisError::DiscontiguousGroupIndex(g))) => {
            assert_eq!(g, 1)
        },
        other => panic!("expected a discontiguous group index, got {:?}", other),
    }
}

#[test]
fn build_surfaces_sampler_bindings_as_unsupported() {
    let source = "
@group(0) @binding(0) var samp: sampler;
@vertex
fn vs_main() -> @builtin(position) vec4<f32> {
    return vec4<f32>(0.0, 0.0, 0.0, 1.0);
}
@fragment
fn fs_main() -> @location(0) vec4<f32> {
    return vec4<f32>(1.0, 1.0, 1.0, 1.0);
}
";
    let mut builder = RenderPipeline::new();
    builder.new_shader(source);
    match builder.build("sampled") {
        Err(PipelineError::Reflect(ReflectError::UnsupportedBindingType(name))) => {
            assert_eq!(name, "sampler")
        },
        other => panic!("expected an unsupported binding type, got {:?}", other),
    }
}

#[test]
fn pipeline_registry_binds_by_id_and_group_role() {
    let mut reg = BufferRegistry::new(256, 256);
    reg.create("camera_buffer", 64, usage()).unwrap();
    let mut pipelines = PipelineRegistry::new();
    pipelines.set_render_pipeline(two_group_pipeline());
    assert!(pipelines.contains("main"));
    pipelines
        .bind_resources_to_pipeline(
            &reg,
            "main",
            BindingGroupType::Global,
            &vec![buffer_ref("camera_buffer")],
        )
        .unwrap();
    assert_eq!(pipelines.pipelines[0].bind_groups.len(), 1);
    assert_eq!(pipelines.pipelines[0].bind_groups[0].group_index, 0);
    match pipelines.bind_resources_to_pipeline(
        &reg,
        "absent",
        BindingGroupType::Global,
        &vec![],
    ) {
        Err(BindError::PipelineNotFound(id)) => assert_eq!(id, "absent"),
        other => panic!("expected a missing pipeline, got {:?}", other),
    }
}

#[test]
fn pipeline_registry_replaces_by_id() {
    let mut pipelines = PipelineRegistry::new();
    pipelines.set_render_pipeline(two_group_pipeline());
    pipelines.set_render_pipeline(two_group_pipeline());
    assert_eq!(pipelines.pipelines.len(), 1);
}

#[test]
fn pipeline_registry_keeps_slot_order_on_replacement() {
    let mut pipelines = PipelineRegistry::new();
    let mut builder = RenderPipeline::new();
    builder.new_shader(TWO_GROUP_SHADER);
    pipelines.set_render_pipeline(builder.build("first").unwrap());
    let mut builder = RenderPipeline::new();
    builder.new_shader(TWO_GROUP_SHADER);
    pipelines.set_render_pipeline(builder.build("second").unwrap());
    // Replacing the first pipeline keeps its slot and the store's length.
    let mut builder = RenderPipeline::new();
    builder.new_shader(TWO_GROUP_SHADER);
    pipelines.set_render_pipeline(builder.build("first").unwrap());
    assert_eq!(pipelines.pipelines.len(), 2);
    assert_eq!(pipelines.pipelines[0].get_id(), "first");
    assert_eq!(pipelines.pipelines[1].get_id(), "second");
}

#[test]
fn entry_points_are_selected_by_stage_not_position() {
    // The fragment entry is declared before the vertex entry; each stage
    // still gets the entry of its own stage.
    let source = "
@fragment
fn fs_main() -> @location(0) vec4<f32> {
    return vec4<f32>(1.0, 1.0, 1.0, 1.0);
}
@vertex
fn vs_main() -> @builtin(position) vec4<f32> {
    return vec4<f32>(0.0, 0.0, 0.0, 1.0);
}
";
    let mut builder = RenderPipeline::new();
    builder.new_shader(source);
    let pipeline = builder.build("reordered").unwrap();
    assert_eq!(pipeline.info.vertex_entry, "vs_main");
    assert_eq!(pipeline.info.fragment_entry, "fs_main");
}

#[test]
fn binding_group_roles_carry_their_conventional_indices() {
    assert_eq!(BindingGroupType::Global.index(), 0);
    assert_eq!(BindingGroupType::PerFrame.index(), 1);
    assert_eq!(BindingGroupType::Resource.index(), 2);
    assert_eq!(BindingGroupType::PerObject.index(), 3);
}

#[test]
fn builder_collects_configuration() {
    let mut layout = wgpu_engine::pipeline::VertexBufferLayout::new();
    assert_eq!(layout.array_stride, 0);
    assert_eq!(layout.step_mode, VertexStepMode::Vertex);
    layout.new_array_stride(24);
    layout.new_step_mode(VertexStepMode::Instance);
    layout.new_attribute(wgpu_engine::pipeline::VertexAttribute {
        format: wgpu_engine::pipeline::VertexFormat::Float32x4,
        offset: 0,
        shader_location: 0,
    });
    assert_eq!(layout.array_stride, 24);
    assert_eq!(layout.step_mode, VertexStepMode::Instance);
    assert_eq!(layout.attributes.len(), 1);

    let mut builder = RenderPipeline::new();
    builder.new_shader(TWO_GROUP_SHADER);
    builder.new_cull_mode(Face::Front);
    builder.new_target(TextureFormat::Bgra8UnormSrgb);
    builder.new_depth_state(true, false, CompareFunction::Greater);
    builder.new_vertex_buffer(layout);
    assert_eq!(builder.cull_mode, Some(Face::Front));
    assert_eq!(builder.targets, vec![TextureFormat::Bgra8UnormSrgb]);
    assert!(builder.depth_testing);
    assert!(!builder.depth_write_enabled);
    assert_eq!(builder.depth_compare, CompareFunction::Greater);
    let pipeline = builder.build("configured").unwrap();
    assert_eq!(pipeline.cull_mode, Some(Face::Front));
    assert_eq!(pipeline.vertex_buffers.len(), 1);
    assert_eq!(pipeline.shader_source, TWO_GROUP_SHADER);
}

#[test]
fn default_settings_match_the_conventions() {
    let settings = RenderPipelineSettings::default();
    assert_eq!(settings.shader, "");
    assert_eq!(settings.cull_mode, Some(Face::Back));
    assert!(!settings.depth_testing);
    assert!(settings.depth_write_enabled);
    assert_eq!(settings.depth_compare, CompareFunction::LessEqual);

    let mut builder = RenderPipeline::new();
    let mut settings = RenderPipelineSettings::default();
    settings.shader = TWO_GROUP_SHADER.to_string();
    builder.new_settings(&settings);
    assert!(builder.build("from_settings").is_ok());
}

#[test]
fn default_binding_resource_is_a_whole_buffer() {
    let resource = BindingResource::default();
    assert_eq!(resource.id, "None");
    assert_eq!(resource.resource_type, BindingResourceType::Buffer);
    assert!(resource.entire_binding);
    assert_eq!(resource.offset, 0);
    assert_eq!(resource.size, 0);
}

#[test]
fn rebind_on_unknown_group_changes_nothing() {
    let reg = BufferRegistry::new(256, 256);
    let mut pipeline = two_group_pipeline();
    match pipeline.rebind(&reg, 9, &vec![]) {
        Err(BindError::UnknownGroup(g)) => assert_eq!(g, 9),
        other => panic!("expected an unknown group, got {:?}", other),
    }
    assert_eq!(pipeline.bind_groups.len(), 0);
}
