use wgpu_engine::binding::BindingKind;
use wgpu_engine::reflect::{reflect, EntryStage, ReflectError};

const TWO_GROUP_SHADER: &str = "
struct Camera {
    mvp: mat4x4<f32>,
}
struct Objects {
    model: mat4x4<f32>,
}
@group(0) @binding(0) var<uniform> camera: Camera;
@group(1) @binding(0) var<storage, read> objects: Objects;
@vertex
fn vs_main() -> @builtin(position) vec4<f32> {
    return vec4<f32>(0.0, 0.0, 0.0, 1.0);
}
@fragment
fn fs_main() -> @location(0) vec4<f32> {
    return vec4<f32>(1.0, 1.0, 1.0, 1.0);
}
";

#[test]
fn reflect_classifies_uniform_and_storage() {
    let info = reflect(TWO_GROUP_SHADER).unwrap();
    assert_eq!(info.bindings.len(), 2);
    assert_eq!(info.bindings[0].group, 0);
    assert_eq!(info.bindings[0].binding, 0);
    assert_eq!(info.bindings[0].kind, BindingKind::UniformBuffer);
    assert_eq!(info.bindings[1].group, 1);
    assert_eq!(info.bindings[1].binding, 0);
    assert_eq!(info.bindings[1].kind, BindingKind::StorageBuffer { read_only: true });
}

#[test]
fn reflect_records_entry_points() {
    let info = reflect(TWO_GROUP_SHADER).unwrap();
    assert_eq!(info.vertex_entry, "vs_main");
    assert_eq!(info.fragment_entry, "fs_main");
    assert_eq!(info.entry_points.len(), 2);
    assert_eq!(info.entry_points[0].name, "vs_main");
    assert_eq!(info.entry_points[0].stage, EntryStage::Vertex);
    assert_eq!(info.entry_points[1].name, "fs_main");
    assert_eq!(info.entry_points[1].stage, EntryStage::Fragment);
}

#[test]
fn reflect_classifies_textures() {
    let source = "
@group(0) @binding(1) var albedo: texture_2d<f32>;
@vertex
fn vs_main() -> @builtin(position) vec4<f32> {
    return vec4<f32>(0.0, 0.0, 0.0, 1.0);
}
@fragment
fn fs_main() -> @location(0) vec4<f32> {
    return vec4<f32>(1.0, 1.0, 1.0, 1.0);
}
";
    let info = reflect(source).unwrap();
    assert_eq!(info.bindings.len(), 1);
    assert_eq!(info.bindings[0].binding, 1);
    assert_eq!(info.bindings[0].kind, BindingKind::Texture2D);
}

#[test]
fn reflect_rejects_samplers() {
    let source = "
@group(0) @binding(0) var samp: sampler;
@vertex
fn vs_main() -> @builtin(position) vec4<f32> {
    return vec4<f32>(0.0, 0.0, 0.0, 1.0);
}
@fragment
fn fs_main() -> @location(0) vec4<f32> {
    return vec4<f32>(1.0, 1.0, 1.0, 1.0);
}
";
    match reflect(source) {
        Err(ReflectError::UnsupportedBindingType(name)) => assert_eq!(name, "sampler"),
        other => panic!("expected an unsupported binding type, got {:?}", other),
    }
}

#[test]
fn reflect_reports_parse_errors() {
    match reflect("this is not wgsl at all {") {
        Err(ReflectError::ParseError(message)) => assert!(!message.is_empty()),
        other => panic!("expected a parse error, got {:?}", other),
    }
}

#[test]
fn reflect_requires_a_fragment_entry() {
    let source = "
@vertex
fn vs_main() -> @builtin(position) vec4<f32> {
    return vec4<f32>(0.0, 0.0, 0.0, 1.0);
}
";
    match reflect(source) {
        Err(ReflectError::MissingEntryPoint(stage)) => assert_eq!(stage, EntryStage::Fragment),
        other => panic!("expected a missing entry point, got {:?}", other),
    }
}

#[test]
fn reflect_requires_a_vertex_entry() {
    let source = "
@fragment
fn fs_main() -> @location(0) vec4<f32> {
    return vec4<f32>(1.0, 1.0, 1.0, 1.0);
}
";
    match reflect(source) {
        Err(ReflectError::MissingEntryPoint(stage)) => assert_eq!(stage, EntryStage::Vertex),
        other => panic!("expected a missing entry point, got {:?}", other),
    }
}
