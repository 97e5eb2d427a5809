use chariot_client::renderer::reflection::{
    module_metadata, shader_metadata, to_binding_type, try_shader_metadata, to_tex_access, vertex_type_size, wgpu_vertex_type_attr, ArgumentBinding,
    ArraySize, BindingKind, EntryPoint, FunctionArgument, GlobalVariable, ImageClass, ImageDimension,
    ReflectionError, ResourceBinding, ScalarKind, ShaderModule, ShaderType, StorageAccess, StorageFormat,
    StorageTextureAccess, TextureSampleType, VertexFormat,
};

fn vec_f32(size: u8) -> ShaderType {
    ShaderType::Vector { size, kind: ScalarKind::Float, width: 4 }
}

fn uniform(size: Option<u64>) -> BindingKind {
    BindingKind::UniformBuffer { min_binding_size: size }
}

#[test]
fn value_types_bind_as_sized_uniforms() {
    assert!(to_binding_type(&ShaderType::Scalar { kind: ScalarKind::Float, width: 4 }) == Ok(uniform(Some(4))));
    assert!(to_binding_type(&vec_f32(3)) == Ok(uniform(Some(12))));
    let mat4 = ShaderType::Matrix { columns: 4, rows: 4, width: 4 };
    assert!(to_binding_type(&mat4) == Ok(uniform(Some(64))));
    let arr = ShaderType::Array { length: ArraySize::Constant(10), stride: 16 };
    assert!(to_binding_type(&arr) == Ok(uniform(Some(160))));
    let big = ShaderType::Array { length: ArraySize::Constant(u32::MAX), stride: u32::MAX };
    assert!(to_binding_type(&big) == Ok(uniform(Some(u32::MAX as u64 * u32::MAX as u64))));
    assert!(to_binding_type(&ShaderType::Struct) == Ok(uniform(None)));
}

#[test]
fn zero_sized_values_have_no_minimum() {
    let empty = ShaderType::Array { length: ArraySize::Constant(4), stride: 0 };
    assert!(to_binding_type(&empty) == Ok(uniform(None)));
    assert!(to_binding_type(&ShaderType::Scalar { kind: ScalarKind::Bool, width: 0 }) == Ok(uniform(None)));
}

#[test]
fn pointers_and_runtime_arrays_bind_as_storage() {
    assert!(to_binding_type(&ShaderType::Pointer) == Ok(BindingKind::StorageBuffer));
    assert!(to_binding_type(&ShaderType::ValuePointer) == Ok(BindingKind::StorageBuffer));
    let arr = ShaderType::Array { length: ArraySize::Dynamic, stride: 16 };
    assert!(to_binding_type(&arr) == Ok(BindingKind::StorageBuffer));
    let pending = ShaderType::Array { length: ArraySize::Pending, stride: 16 };
    assert!(to_binding_type(&pending) == Err(ReflectionError::TypeNotIndex));
}

#[test]
fn images_and_samplers() {
    let tex = ShaderType::Image {
        dim: ImageDimension::D2,
        arrayed: false,
        class: ImageClass::Sampled { kind: ScalarKind::Float, multi: false },
    };
    assert!(
        to_binding_type(&tex)
            == Ok(BindingKind::Texture {
                sample_type: TextureSampleType::FloatFilterable,
                view_dimension: ImageDimension::D2,
                multisampled: false,
            })
    );
    let utex = ShaderType::Image {
        dim: ImageDimension::Cube,
        arrayed: false,
        class: ImageClass::Sampled { kind: ScalarKind::Uint, multi: true },
    };
    assert!(
        to_binding_type(&utex)
            == Ok(BindingKind::Texture {
                sample_type: TextureSampleType::Uint,
                view_dimension: ImageDimension::Cube,
                multisampled: true,
            })
    );
    let btex = ShaderType::Image {
        dim: ImageDimension::D2,
        arrayed: false,
        class: ImageClass::Sampled { kind: ScalarKind::Bool, multi: false },
    };
    assert!(to_binding_type(&btex) == Err(ReflectionError::BoolTexture));
    let atex = ShaderType::Image {
        dim: ImageDimension::D2,
        arrayed: false,
        class: ImageClass::Sampled { kind: ScalarKind::AbstractFloat, multi: false },
    };
    assert!(to_binding_type(&atex) == Err(ReflectionError::AbstractTexture));
    let depth = ShaderType::Image { dim: ImageDimension::D2, arrayed: false, class: ImageClass::Depth { multi: false } };
    assert!(to_binding_type(&depth) == Err(ReflectionError::DepthTexture));
    let ext = ShaderType::Image { dim: ImageDimension::D2, arrayed: false, class: ImageClass::External };
    assert!(to_binding_type(&ext) == Err(ReflectionError::ExternalTexture));
    let storage = ShaderType::Image {
        dim: ImageDimension::D3,
        arrayed: false,
        class: ImageClass::Storage {
            format: StorageFormat::Rgba16Float,
            access: StorageAccess { load: false, store: true, atomic: false },
        },
    };
    assert!(
        to_binding_type(&storage)
            == Ok(BindingKind::StorageTexture {
                access: StorageTextureAccess::WriteOnly,
                format: StorageFormat::Rgba16Float,
                view_dimension: ImageDimension::D3,
            })
    );
    assert!(to_binding_type(&ShaderType::Sampler { comparison: true }) == Ok(BindingKind::ComparisonSampler));
    assert!(to_binding_type(&ShaderType::Sampler { comparison: false }) == Ok(BindingKind::FilteringSampler));
    assert!(to_binding_type(&ShaderType::Other) == Err(ReflectionError::UniformType));
    assert_eq!(ReflectionError::UniformType.message(), "Uniform type not supportedd");
}

#[test]
fn storage_access_modes() {
    let read = StorageAccess { load: true, store: false, atomic: false };
    let write = StorageAccess { load: false, store: true, atomic: false };
    let both = StorageAccess { load: true, store: true, atomic: false };
    let atomic = StorageAccess { load: true, store: false, atomic: true };
    assert!(to_tex_access(read) == StorageTextureAccess::ReadOnly);
    assert!(to_tex_access(write) == StorageTextureAccess::WriteOnly);
    assert!(to_tex_access(both) == StorageTextureAccess::ReadWrite);
    assert!(to_tex_access(atomic) == StorageTextureAccess::ReadWrite);
}

#[test]
fn vertex_sizes() {
    assert!(vertex_type_size(&ShaderType::Scalar { kind: ScalarKind::Uint, width: 4 }) == Ok(4));
    assert!(vertex_type_size(&vec_f32(3)) == Ok(12));
    assert!(vertex_type_size(&ShaderType::Struct) == Err(ReflectionError::InvalidVertexType));
}

#[test]
fn vertex_attributes_of_supported_inputs() {
    let a = wgpu_vertex_type_attr(2, &vec_f32(3)).ok().unwrap();
    assert!(a.format == VertexFormat { kind: ScalarKind::Float, components: 3, width: 4 });
    assert_eq!(a.offset, 0);
    assert_eq!(a.shader_location, 2);
    let b = wgpu_vertex_type_attr(0, &ShaderType::Vector { size: 4, kind: ScalarKind::Uint, width: 1 }).ok().unwrap();
    assert!(b.format == VertexFormat { kind: ScalarKind::Uint, components: 4, width: 1 });
    let c = wgpu_vertex_type_attr(5, &ShaderType::Scalar { kind: ScalarKind::Float, width: 8 }).ok().unwrap();
    assert!(c.format == VertexFormat { kind: ScalarKind::Float, components: 1, width: 8 });
    assert_eq!(c.shader_location, 5);
}

#[test]
fn vertex_attribute_errors() {
    let narrow_vec3 = ShaderType::Vector { size: 3, kind: ScalarKind::Sint, width: 2 };
    let e = wgpu_vertex_type_attr(0, &narrow_vec3).err().unwrap();
    assert!(e == ReflectionError::VertexWidth { components: 3, kind: ScalarKind::Sint });
    assert_eq!(e.message(), "Unsupported vec3 int width");
    let narrow_scalar = ShaderType::Scalar { kind: ScalarKind::Uint, width: 2 };
    assert_eq!(wgpu_vertex_type_attr(0, &narrow_scalar).err().unwrap().message(), "Unsupported scalar uint width");
    let half2 = ShaderType::Vector { size: 2, kind: ScalarKind::Float, width: 2 };
    assert!(wgpu_vertex_type_attr(0, &half2).is_ok());
    let half3 = ShaderType::Vector { size: 3, kind: ScalarKind::Float, width: 2 };
    assert_eq!(wgpu_vertex_type_attr(0, &half3).err().unwrap().message(), "Unsupported vec3 float width");
    let b = ShaderType::Scalar { kind: ScalarKind::Bool, width: 1 };
    assert_eq!(wgpu_vertex_type_attr(0, &b).err().unwrap().message(), "Unsupported scalar type");
    let bv = ShaderType::Vector { size: 4, kind: ScalarKind::Bool, width: 1 };
    assert_eq!(wgpu_vertex_type_attr(0, &bv).err().unwrap().message(), "Unsupported vec4 component type");
    let one = ShaderType::Vector { size: 1, kind: ScalarKind::Float, width: 4 };
    assert_eq!(
        wgpu_vertex_type_attr(0, &one).err().unwrap().message(),
        "Unsupported number of components in vec"
    );
    assert_eq!(
        wgpu_vertex_type_attr(0, &ShaderType::Struct).err().unwrap().message(),
        "Unsupported vertex attrib type"
    );
}

fn global(group: u32, binding: u32, ty: ShaderType) -> GlobalVariable {
    GlobalVariable { binding: Some(ResourceBinding { group, binding }), ty }
}

fn location(loc: u32, ty: ShaderType) -> FunctionArgument {
    FunctionArgument { binding: Some(ArgumentBinding::Location { location: loc }), ty }
}

fn entry(name: &str, arguments: Vec<FunctionArgument>) -> EntryPoint {
    EntryPoint { name: name.to_string(), arguments }
}

#[test]
fn metadata_groups_bindings_in_group_order() {
    let mat4 = ShaderType::Matrix { columns: 4, rows: 4, width: 4 };
    let module = ShaderModule {
        global_variables: vec![
            global(1, 0, ShaderType::Sampler { comparison: false }),
            global(0, 1, vec_f32(4)),
            GlobalVariable { binding: None, ty: ShaderType::Other },
            global(0, 0, mat4),
        ],
        entry_points: vec![
            entry("fs_main", vec![location(7, vec_f32(4))]),
            entry(
                "vs_main",
                vec![
                    location(0, vec_f32(3)),
                    FunctionArgument { binding: Some(ArgumentBinding::BuiltIn), ty: ShaderType::Other },
                    FunctionArgument { binding: None, ty: ShaderType::Other },
                    location(1, vec_f32(2)),
                ],
            ),
        ],
    };
    let md = module_metadata(&module).ok().unwrap();
    assert_eq!(md.bind_group_layouts.len(), 2);
    let (g0, e0) = &md.bind_group_layouts[0];
    let (g1, e1) = &md.bind_group_layouts[1];
    assert_eq!((*g0, *g1), (0, 1));
    assert_eq!(e0.len(), 2);
    assert_eq!((e0[0].binding, e0[1].binding), (1, 0));
    assert!(e0[0].ty == uniform(Some(16)));
    assert!(e0[1].ty == uniform(Some(64)));
    assert_eq!(e1.len(), 1);
    assert!(e1[0].ty == BindingKind::FilteringSampler);
    assert_eq!(md.vertex_attributes.len(), 2);
    assert_eq!(md.vertex_attributes[0].shader_location, 0);
    assert!(md.vertex_attributes[0].format == VertexFormat { kind: ScalarKind::Float, components: 3, width: 4 });
    assert_eq!(md.vertex_attributes[1].shader_location, 1);
    assert!(md.vertex_attributes[1].format == VertexFormat { kind: ScalarKind::Float, components: 2, width: 4 });
}

#[test]
fn metadata_uses_the_last_vertex_main() {
    let module = ShaderModule {
        global_variables: vec![],
        entry_points: vec![
            entry("vs_main", vec![location(0, vec_f32(4))]),
            entry("vs_main", vec![location(3, vec_f32(2)), location(4, vec_f32(2))]),
        ],
    };
    let md = module_metadata(&module).ok().unwrap();
    assert!(md.bind_group_layouts.is_empty());
    let locations: Vec<u32> = md.vertex_attributes.iter().map(|a| a.shader_location).collect();
    assert_eq!(locations, vec![3, 4]);
}

#[test]
fn metadata_without_vertex_main_has_no_attributes() {
    let module = ShaderModule {
        global_variables: vec![global(2, 0, ShaderType::Struct)],
        entry_points: vec![entry("cs_main", vec![location(0, ShaderType::Struct)])],
    };
    let md = module_metadata(&module).ok().unwrap();
    assert!(md.vertex_attributes.is_empty());
    assert_eq!(md.bind_group_layouts.len(), 1);
    assert_eq!(md.bind_group_layouts[0].0, 2);
}

#[test]
fn metadata_reports_global_errors_before_vertex_errors() {
    let depth = ShaderType::Image { dim: ImageDimension::D2, arrayed: false, class: ImageClass::Depth { multi: false } };
    let module = ShaderModule {
        global_variables: vec![global(0, 0, ShaderType::Other), global(0, 1, depth)],
        entry_points: vec![entry("vs_main", vec![location(0, ShaderType::Struct)])],
    };
    assert!(module_metadata(&module).err() == Some(ReflectionError::UniformType));
    let module2 = ShaderModule {
        global_variables: vec![global(0, 0, ShaderType::Struct)],
        entry_points: vec![entry("vs_main", vec![location(0, ShaderType::Struct)])],
    };
    assert!(module_metadata(&module2).err() == Some(ReflectionError::VertexAttribType));
}

const SKY_SHADER: &str = "
@group(0) @binding(0) var<uniform> view_proj: mat4x4<f32>;
@group(1) @binding(1) var sky_sampler: sampler;
@group(1) @binding(0) var sky_tex: texture_cube<f32>;
@group(0) @binding(1) var out_tex: texture_storage_2d<rgba16float, write>;

@vertex
fn vs_main(@location(0) pos: vec3<f32>, @builtin(vertex_index) vi: u32, @location(1) uv: vec2<f32>) -> @builtin(position) vec4<f32> {
    return view_proj * vec4<f32>(pos, 1.0);
}
";

#[test]
fn metadata_of_wgsl_source() {
    let md = shader_metadata(SKY_SHADER).ok().unwrap();
    assert_eq!(md.bind_group_layouts.len(), 2);
    let (g0, e0) = &md.bind_group_layouts[0];
    let (g1, e1) = &md.bind_group_layouts[1];
    assert_eq!((*g0, *g1), (0, 1));
    assert_eq!((e0[0].binding, e0[1].binding), (0, 1));
    assert!(e0[0].ty == uniform(Some(64)));
    assert!(
        e0[1].ty
            == BindingKind::StorageTexture {
                access: StorageTextureAccess::WriteOnly,
                format: StorageFormat::Rgba16Float,
                view_dimension: ImageDimension::D2,
            }
    );
    assert_eq!((e1[0].binding, e1[1].binding), (1, 0));
    assert!(e1[0].ty == BindingKind::FilteringSampler);
    assert!(
        e1[1].ty
            == BindingKind::Texture {
                sample_type: TextureSampleType::FloatFilterable,
                view_dimension: ImageDimension::Cube,
                multisampled: false,
            }
    );
    let locations: Vec<u32> = md.vertex_attributes.iter().map(|a| a.shader_location).collect();
    assert_eq!(locations, vec![0, 1]);
    assert!(md.vertex_attributes[0].format == VertexFormat { kind: ScalarKind::Float, components: 3, width: 4 });
    assert!(md.vertex_attributes[1].format == VertexFormat { kind: ScalarKind::Float, components: 2, width: 4 });
}

#[test]
fn metadata_of_source_reports_errors_and_parse_failures() {
    assert!(try_shader_metadata("this is not wgsl").is_none());
    let depth = "@group(0) @binding(0) var shadow: texture_depth_2d;";
    assert!(try_shader_metadata(depth).unwrap().err() == Some(ReflectionError::DepthTexture));
    let arrays = "@group(2) @binding(3) var<uniform> lights: array<vec4<f32>, 8>;";
    let md = try_shader_metadata(arrays).unwrap().ok().unwrap();
    assert_eq!(md.bind_group_layouts[0].0, 2);
    assert_eq!(md.bind_group_layouts[0].1[0].binding, 3);
    assert!(md.bind_group_layouts[0].1[0].ty == uniform(Some(128)));
    assert!(md.vertex_attributes.is_empty());
}
