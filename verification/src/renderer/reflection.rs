use vstd::prelude::*;

use crate::renderer::wgsl::{
    arg_binding, arg_count, arg_type, entry_count, entry_name, global_binding, global_count, global_type,
    parse_wgsl, type_array, type_image, type_sampler, type_scalar, type_sizes, type_tag, wgsl_arg_binding,
    wgsl_arg_count, wgsl_arg_type, wgsl_entry_count, wgsl_entry_name, wgsl_global_binding, wgsl_global_count,
    wgsl_global_type, wgsl_parses, wgsl_type_array, wgsl_type_image, wgsl_type_sampler, wgsl_type_scalar,
    wgsl_type_sizes, wgsl_type_tag, ImageClassCode, ParsedShader, TypeTag,
};

verus! {

/// The kind of a shader scalar.
#[derive(PartialEq, Eq, Structural, Clone, Copy)]
pub enum ScalarKind {
    Sint,
    Uint,
    Float,
    Bool,
    AbstractInt,
    AbstractFloat,
}

/// The length of a shader array: a constant, a pipeline-overridable
/// constant not yet known, or given at run time.
#[derive(PartialEq, Eq, Structural, Clone, Copy)]
pub enum ArraySize {
    Constant(u32),
    Pending,
    Dynamic,
}

/// The dimension of a shader image.
#[derive(PartialEq, Eq, Structural, Clone, Copy)]
pub enum ImageDimension {
    D1,
    D2,
    D3,
    Cube,
}

/// How a shader reads or writes a storage image.
#[derive(PartialEq, Eq, Structural, Clone, Copy)]
pub struct StorageAccess {
    pub load: bool,
    pub store: bool,
    pub atomic: bool,
}

/// The texel format of a storage image; a storage texture is bound with
/// the same format.
#[derive(PartialEq, Eq, Structural, Clone, Copy)]
pub enum StorageFormat {
    R8Unorm,
    R8Snorm,
    R8Uint,
    R8Sint,
    R16Uint,
    R16Sint,
    R16Float,
    Rg8Unorm,
    Rg8Snorm,
    Rg8Uint,
    Rg8Sint,
    R32Uint,
    R32Sint,
    R32Float,
    Rg16Uint,
    Rg16Sint,
    Rg16Float,
    Rgba8Unorm,
    Rgba8Snorm,
    Rgba8Uint,
    Rgba8Sint,
    Bgra8Unorm,
    Rgb10a2Uint,
    Rgb10a2Unorm,
    Rg11b10Ufloat,
    R64Uint,
    Rg32Uint,
    Rg32Sint,
    Rg32Float,
    Rgba16Uint,
    Rgba16Sint,
    Rgba16Float,
    Rgba32Uint,
    Rgba32Sint,
    Rgba32Float,
    R16Unorm,
    R16Snorm,
    Rg16Unorm,
    Rg16Snorm,
    Rgba16Unorm,
    Rgba16Snorm,
}

/// The class of a shader image.
#[derive(PartialEq, Eq, Structural, Clone, Copy)]
pub enum ImageClass {
    Sampled { kind: ScalarKind, multi: bool },
    Depth { multi: bool },
    External,
    Storage { format: StorageFormat, access: StorageAccess },
}

/// The shape of a shader type, as far as resource binding reads it.
#[derive(PartialEq, Eq, Structural, Clone, Copy)]
pub enum ShaderType {
    Scalar { kind: ScalarKind, width: u8 },
    Vector { size: u8, kind: ScalarKind, width: u8 },
    Matrix { columns: u8, rows: u8, width: u8 },
    Pointer,
    ValuePointer,
    Array { length: ArraySize, stride: u32 },
    Struct,
    Image { dim: ImageDimension, arrayed: bool, class: ImageClass },
    Sampler { comparison: bool },
    Other,
}

/// The type of texel a sampled texture gives.
#[derive(PartialEq, Eq, Structural, Clone, Copy)]
pub enum TextureSampleType {
    Sint,
    Uint,
    FloatFilterable,
}

/// How a storage texture is bound.
#[derive(PartialEq, Eq, Structural, Clone, Copy)]
pub enum StorageTextureAccess {
    ReadOnly,
    WriteOnly,
    ReadWrite,
}

/// How a shader resource is bound.
#[derive(PartialEq, Eq, Structural, Clone, Copy)]
pub enum BindingKind {
    UniformBuffer { min_binding_size: Option<u64> },
    StorageBuffer,
    Texture { sample_type: TextureSampleType, view_dimension: ImageDimension, multisampled: bool },
    StorageTexture {
        access: StorageTextureAccess,
        format: StorageFormat,
        view_dimension: ImageDimension,
    },
    ComparisonSampler,
    FilteringSampler,
}

/// Why a shader cannot be reflected.
#[derive(PartialEq, Eq, Structural, Clone, Copy)]
pub enum ReflectionError {
    TypeNotIndex,
    BoolTexture,
    AbstractTexture,
    DepthTexture,
    ExternalTexture,
    UniformType,
    InvalidVertexType,
    /// A vertex input of `components` components (1 for a scalar) of this
    /// kind with an unsupported width.
    VertexWidth { components: u8, kind: ScalarKind },
    /// A vertex input of `components` components (1 for a scalar) of a
    /// kind other than signed, unsigned or float.
    VertexComponentType { components: u8 },
    VertexComponentCount,
    VertexAttribType,
}

impl ReflectionError {
    /// The text that reports the error.
    pub open spec fn message_spec(self) -> Seq<char> {
        match self {
            ReflectionError::TypeNotIndex => "Type cannot be used as index"@,
            ReflectionError::BoolTexture => "bool texture????"@,
            ReflectionError::AbstractTexture => "abstract texture????"@,
            ReflectionError::DepthTexture => "Depth not supported yet"@,
            ReflectionError::ExternalTexture => "External textures not supported yet"@,
            ReflectionError::UniformType => "Uniform type not supportedd"@,
            ReflectionError::InvalidVertexType => "Invalid vertex type"@,
            ReflectionError::VertexWidth { components, kind } => match (components, kind) {
                (1, ScalarKind::Sint) => "Unsupported scalar int width"@,
                (1, ScalarKind::Uint) => "Unsupported scalar uint width"@,
                (1, _) => "Unsupported scalar float width"@,
                (2, ScalarKind::Sint) => "Unsupported vec2 int width"@,
                (2, ScalarKind::Uint) => "Unsupported vec2 uint width"@,
                (2, _) => "Unsupported vec2 float width"@,
                (3, ScalarKind::Sint) => "Unsupported vec3 int width"@,
                (3, ScalarKind::Uint) => "Unsupported vec3 uint width"@,
                (3, _) => "Unsupported vec3 float width"@,
                (_, ScalarKind::Sint) => "Unsupported vec4 int width"@,
                (_, ScalarKind::Uint) => "Unsupported vec4 uint width"@,
                (_, _) => "Unsupported vec4 float width"@,
            },
            ReflectionError::VertexComponentType { components } => match components {
                1 => "Unsupported scalar type"@,
                2 => "Unsupported vec2 component type"@,
                3 => "Unsupported vec3 component type"@,
                _ => "Unsupported vec4 component type"@,
            },
            ReflectionError::VertexComponentCount => "Unsupported number of components in vec"@,
            ReflectionError::VertexAttribType => "Unsupported vertex attrib type"@,
        }
    }

    /// The message for the error (see `message_spec`).
    pub fn message(&self) -> (r: &'static str)
        ensures
            r@ == self.message_spec(),
    {
        match self {
            ReflectionError::TypeNotIndex => "Type cannot be used as index",
            ReflectionError::BoolTexture => "bool texture????",
            ReflectionError::AbstractTexture => "abstract texture????",
            ReflectionError::DepthTexture => "Depth not supported yet",
            ReflectionError::ExternalTexture => "External textures not supported yet",
            ReflectionError::UniformType => "Uniform type not supportedd",
            ReflectionError::InvalidVertexType => "Invalid vertex type",
            ReflectionError::VertexWidth { components, kind } => match (*components, *kind) {
                (1, ScalarKind::Sint) => "Unsupported scalar int width",
                (1, ScalarKind::Uint) => "Unsupported scalar uint width",
                (1, _) => "Unsupported scalar float width",
                (2, ScalarKind::Sint) => "Unsupported vec2 int width",
                (2, ScalarKind::Uint) => "Unsupported vec2 uint width",
                (2, _) => "Unsupported vec2 float width",
                (3, ScalarKind::Sint) => "Unsupported vec3 int width",
                (3, ScalarKind::Uint) => "Unsupported vec3 uint width",
                (3, _) => "Unsupported vec3 float width",
                (_, ScalarKind::Sint) => "Unsupported vec4 int width",
                (_, ScalarKind::Uint) => "Unsupported vec4 uint width",
                (_, _) => "Unsupported vec4 float width",
            },
            ReflectionError::VertexComponentType { components } => match *components {
                1 => "Unsupported scalar type",
                2 => "Unsupported vec2 component type",
                3 => "Unsupported vec3 component type",
                _ => "Unsupported vec4 component type",
            },
            ReflectionError::VertexComponentCount => "Unsupported number of components in vec",
            ReflectionError::VertexAttribType => "Unsupported vertex attrib type",
        }
    }
}

/// How a storage texture with access `access` is bound: read-only when it
/// is only loaded, write-only when it is only stored, else read-write.
pub open spec fn tex_access_spec(access: StorageAccess) -> StorageTextureAccess {
    if access.load && !access.store && !access.atomic {
        StorageTextureAccess::ReadOnly
    } else if access.store && !access.load && !access.atomic {
        StorageTextureAccess::WriteOnly
    } else {
        StorageTextureAccess::ReadWrite
    }
}

/// How a storage texture with access `access` is bound (see
/// `tex_access_spec`).
pub fn to_tex_access(access: StorageAccess) -> (r: StorageTextureAccess)
    ensures
        r == tex_access_spec(access),
{
    if access.load && !access.store && !access.atomic {
        StorageTextureAccess::ReadOnly
    } else if access.store && !access.load && !access.atomic {
        StorageTextureAccess::WriteOnly
    } else {
        StorageTextureAccess::ReadWrite
    }
}

/// A buffer size as a binding's minimum size: zero means no minimum.
pub open spec fn min_size(n: int) -> Option<u64> {
    if n == 0 {
        None
    } else {
        Some(n as u64)
    }
}

/// The sample type of a sampled texture of texels of kind `kind`.
pub open spec fn sample_type_spec(kind: ScalarKind) -> Result<TextureSampleType, ReflectionError> {
    match kind {
        ScalarKind::Sint => Ok(TextureSampleType::Sint),
        ScalarKind::Uint => Ok(TextureSampleType::Uint),
        ScalarKind::Float => Ok(TextureSampleType::FloatFilterable),
        ScalarKind::Bool => Err(ReflectionError::BoolTexture),
        _ => Err(ReflectionError::AbstractTexture),
    }
}

/// The sample type of a sampled texture of texels of kind `kind` (see
/// `sample_type_spec`).
pub fn to_tex_sample_type(kind: ScalarKind) -> (r: Result<TextureSampleType, ReflectionError>)
    ensures
        r == sample_type_spec(kind),
{
    match kind {
        ScalarKind::Sint => Ok(TextureSampleType::Sint),
        ScalarKind::Uint => Ok(TextureSampleType::Uint),
        ScalarKind::Float => Ok(TextureSampleType::FloatFilterable),
        ScalarKind::Bool => Err(ReflectionError::BoolTexture),
        ScalarKind::AbstractInt | ScalarKind::AbstractFloat => Err(ReflectionError::AbstractTexture),
    }
}

/// How a global of type `ty` is bound: values and fixed-size arrays as
/// uniform buffers of their byte size, pointers and run-time sized arrays
/// as storage buffers, structs as uniform buffers of unstated size, and
/// images and samplers as such.
pub open spec fn binding_spec(ty: ShaderType) -> Result<BindingKind, ReflectionError> {
    match ty {
        ShaderType::Scalar { width, .. } => Ok(BindingKind::UniformBuffer { min_binding_size: min_size(width as int) }),
        ShaderType::Vector { size, width, .. } => Ok(
            BindingKind::UniformBuffer { min_binding_size: min_size(width as int * size as int) },
        ),
        ShaderType::Matrix { columns, rows, width } => Ok(
            BindingKind::UniformBuffer {
                min_binding_size: min_size(width as int * rows as int * columns as int),
            },
        ),
        ShaderType::Pointer => Ok(BindingKind::StorageBuffer),
        ShaderType::ValuePointer => Ok(BindingKind::StorageBuffer),
        ShaderType::Array { length, stride } => match length {
            ArraySize::Constant(n) => Ok(
                BindingKind::UniformBuffer { min_binding_size: min_size(n as int * stride as int) },
            ),
            ArraySize::Pending => Err(ReflectionError::TypeNotIndex),
            ArraySize::Dynamic => Ok(BindingKind::StorageBuffer),
        },
        ShaderType::Struct => Ok(BindingKind::UniformBuffer { min_binding_size: None }),
        ShaderType::Image { dim, class, .. } => match class {
            ImageClass::Sampled { kind, multi } => match sample_type_spec(kind) {
                Ok(sample_type) => Ok(
                    BindingKind::Texture { sample_type, view_dimension: dim, multisampled: multi },
                ),
                Err(e) => Err(e),
            },
            ImageClass::Storage { format, access } => Ok(
                BindingKind::StorageTexture {
                    access: tex_access_spec(access),
                    format,
                    view_dimension: dim,
                },
            ),
            ImageClass::Depth { .. } => Err(ReflectionError::DepthTexture),
            ImageClass::External => Err(ReflectionError::ExternalTexture),
        },
        ShaderType::Sampler { comparison } => if comparison {
            Ok(BindingKind::ComparisonSampler)
        } else {
            Ok(BindingKind::FilteringSampler)
        },
        ShaderType::Other => Err(ReflectionError::UniformType),
    }
}

proof fn lemma_byte_products(a: u8, b: u8, c: u8)
    ensures
        a * b <= 255 * 255,
        a * b * c <= 255 * 255 * 255,
{
    assert(a * b <= 255 * 255) by (nonlinear_arith)
        requires
            a <= 255,
            b <= 255,
    ;
    assert(a * b * c <= 255 * 255 * 255) by (nonlinear_arith)
        requires
            a * b <= 255 * 255,
            c <= 255,
    ;
}

proof fn lemma_word_product(a: u32, b: u32)
    ensures
        a * b <= u64::MAX,
{
    assert(a * b <= 0xffff_ffff * 0xffff_ffff) by (nonlinear_arith)
        requires
            a <= 0xffff_ffff,
            b <= 0xffff_ffff,
    ;
}

fn buffer_size(n: u64) -> (r: Option<u64>)
    ensures
        r == min_size(n as int),
{
    if n == 0 {
        None
    } else {
        Some(n)
    }
}

/// How a global of type `ty` is bound (see `binding_spec`).
pub fn to_binding_type(ty: &ShaderType) -> (r: Result<BindingKind, ReflectionError>)
    ensures
        r == binding_spec(*ty),
{
    match ty {
        ShaderType::Scalar { width, .. } => Ok(BindingKind::UniformBuffer { min_binding_size: buffer_size(*width as u64) }),
        ShaderType::Vector { size, width, .. } => {
            proof {
                lemma_byte_products(*width, *size, 0);
            }
            let n = (*width as u64) * (*size as u64);
            Ok(BindingKind::UniformBuffer { min_binding_size: buffer_size(n) })
        },
        ShaderType::Matrix { columns, rows, width } => {
            proof {
                lemma_byte_products(*width, *rows, *columns);
            }
            let wr: u64 = (*width as u64) * (*rows as u64);
            let n = wr * (*columns as u64);
            Ok(BindingKind::UniformBuffer { min_binding_size: buffer_size(n) })
        },
        ShaderType::Pointer => Ok(BindingKind::StorageBuffer),
        ShaderType::ValuePointer => Ok(BindingKind::StorageBuffer),
        ShaderType::Array { length, stride } => match length {
            ArraySize::Constant(count) => {
                proof {
                    lemma_word_product(*count, *stride);
                }
                let n = (*count as u64) * (*stride as u64);
                Ok(BindingKind::UniformBuffer { min_binding_size: buffer_size(n) })
            },
            ArraySize::Pending => Err(ReflectionError::TypeNotIndex),
            ArraySize::Dynamic => Ok(BindingKind::StorageBuffer),
        },
        ShaderType::Struct => Ok(BindingKind::UniformBuffer { min_binding_size: None }),
        ShaderType::Image { dim, class, .. } => match class {
            ImageClass::Sampled { kind, multi } => Ok(
                BindingKind::Texture {
                    sample_type: to_tex_sample_type(*kind)?,
                    view_dimension: *dim,
                    multisampled: *multi,
                },
            ),
            ImageClass::Storage { format, access } => Ok(
                BindingKind::StorageTexture {
                    access: to_tex_access(*access),
                    format: *format,
                    view_dimension: *dim,
                },
            ),
            ImageClass::Depth { .. } => Err(ReflectionError::DepthTexture),
            ImageClass::External => Err(ReflectionError::ExternalTexture),
        },
        ShaderType::Sampler { comparison } => Ok(
            if *comparison {
                BindingKind::ComparisonSampler
            } else {
                BindingKind::FilteringSampler
            },
        ),
        ShaderType::Other => Err(ReflectionError::UniformType),
    }
}

/// The byte size of a vertex input: the width of a scalar, or the width
/// times the component count of a vector.
pub fn vertex_type_size(ty: &ShaderType) -> (r: Result<u64, ReflectionError>)
    ensures
        ty matches ShaderType::Scalar { width, .. } ==> r == Ok::<u64, ReflectionError>(*width as u64),
        ty matches ShaderType::Vector { size, width, .. } ==> r == Ok::<u64, ReflectionError>(
            (*width as int * *size as int) as u64,
        ),
        !(ty is Scalar || ty is Vector) ==> r == Err::<u64, ReflectionError>(
            ReflectionError::InvalidVertexType,
        ),
{
    match ty {
        ShaderType::Scalar { width, .. } => Ok(*width as u64),
        ShaderType::Vector { size, width, .. } => {
            proof {
                lemma_byte_products(*width, *size, 0);
            }
            Ok((*width as u64) * (*size as u64))
        },
        _ => Err(ReflectionError::InvalidVertexType),
    }
}

/// The format of a vertex input: the kind, component count (1 to 4) and
/// width in bytes of its components.
#[derive(PartialEq, Eq, Structural, Clone, Copy)]
pub struct VertexFormat {
    pub kind: ScalarKind,
    pub components: u8,
    pub width: u8,
}

/// The vertex formats the pipeline accepts: 32-bit integers and 32- or
/// 64-bit floats in any count; 8- and 16-bit integers and 16-bit floats
/// only in pairs and quadruples.
pub open spec fn vertex_format_supported(kind: ScalarKind, components: u8, width: u8) -> bool {
    match kind {
        ScalarKind::Sint | ScalarKind::Uint => width == 4 || ((components == 2 || components == 4) && (
        width == 1 || width == 2)),
        ScalarKind::Float => width == 4 || width == 8 || ((components == 2 || components == 4) && width
            == 2),
        _ => false,
    }
}

/// Whether vertex inputs can have components of kind `kind`: signed,
/// unsigned and float ones.
pub open spec fn vertex_kind(kind: ScalarKind) -> bool {
    kind == ScalarKind::Sint || kind == ScalarKind::Uint || kind == ScalarKind::Float
}

/// The vertex formats the pipeline has, by component count: `Sint32`,
/// `Uint32`, `Float32`, `Float64` alone; `Sint8/16/32`, `Uint8/16/32` and
/// `Float16/32/64` in pairs and quadruples; `Sint32`, `Uint32`, `Float32`
/// and `Float64` in triples.
pub open spec fn vertex_format_listed(kind: ScalarKind, components: u8, width: u8) -> bool {
    let int_kind = kind == ScalarKind::Sint || kind == ScalarKind::Uint;
    let float_kind = kind == ScalarKind::Float;
    if components == 1 || components == 3 {
        (int_kind && width == 4) || (float_kind && (width == 4 || width == 8))
    } else if components == 2 || components == 4 {
        (int_kind && (width == 1 || width == 2 || width == 4)) || (float_kind && (width == 2 || width == 4
            || width == 8))
    } else {
        false
    }
}

/// Exactly the listed formats are accepted; in particular every 32-bit
/// float scalar or vector of two to four components is.
pub proof fn lemma_vertex_formats(kind: ScalarKind, components: u8, width: u8)
    requires
        1 <= components <= 4,
    ensures
        vertex_format_supported(kind, components, width) <==> vertex_format_listed(kind, components, width),
        vertex_format_supported(ScalarKind::Float, components, 4),
        vertex_format_supported(ScalarKind::Sint, components, 4),
        vertex_format_supported(ScalarKind::Uint, components, 4),
{
}

/// An input of a vertex shader: its format and its location.
#[derive(PartialEq, Eq, Structural, Clone, Copy)]
pub struct VertexAttribute {
    pub format: VertexFormat,
    pub offset: u64,
    pub shader_location: u32,
}

/// The vertex format of an input of kind `kind`, with `components`
/// components of `width` bytes.
pub open spec fn vertex_format_spec(kind: ScalarKind, components: u8, width: u8) -> Result<
    VertexFormat,
    ReflectionError,
> {
    if !(1 <= components <= 4) {
        Err(ReflectionError::VertexComponentCount)
    } else if !vertex_kind(kind) {
        Err(ReflectionError::VertexComponentType { components })
    } else if vertex_format_supported(kind, components, width) {
        Ok(VertexFormat { kind, components, width })
    } else {
        Err(ReflectionError::VertexWidth { components, kind })
    }
}

fn vertex_format(kind: ScalarKind, components: u8, width: u8) -> (r: Result<VertexFormat, ReflectionError>)
    requires
        1 <= components <= 4,
    ensures
        r == vertex_format_spec(kind, components, width),
{
    let ok = match kind {
        ScalarKind::Sint | ScalarKind::Uint => width == 4 || ((components == 2 || components == 4) && (
        width == 1 || width == 2)),
        ScalarKind::Float => width == 4 || width == 8 || ((components == 2 || components == 4) && width
            == 2),
        _ => {
            return Err(ReflectionError::VertexComponentType { components });
        },
    };
    if ok {
        Ok(VertexFormat { kind, components, width })
    } else {
        Err(ReflectionError::VertexWidth { components, kind })
    }
}

/// The attribute at `location` of an input with `components` components
/// of kind `kind` and `width` bytes each.
pub open spec fn vertex_attr_spec(location: u32, kind: ScalarKind, components: u8, width: u8) -> Result<
    VertexAttribute,
    ReflectionError,
> {
    match vertex_format_spec(kind, components, width) {
        Ok(f) => Ok(VertexAttribute { format: f, offset: 0, shader_location: location }),
        Err(e) => Err(e),
    }
}

/// The attribute of a vertex input at `location` of type `ty`: a scalar
/// or a vector of two to four components, at offset zero.
pub open spec fn vertex_attr_of(location: u32, ty: ShaderType) -> Result<VertexAttribute, ReflectionError> {
    match ty {
        ShaderType::Scalar { kind, width } => vertex_attr_spec(location, kind, 1, width),
        ShaderType::Vector { size, kind, width } => if 2 <= size <= 4 {
            vertex_attr_spec(location, kind, size, width)
        } else {
            Err(ReflectionError::VertexComponentCount)
        },
        _ => Err(ReflectionError::VertexAttribType),
    }
}

/// The attribute of the vertex input at `location` of type `ty` (see
/// `vertex_attr_of`).
pub fn wgpu_vertex_type_attr(location: u32, ty: &ShaderType) -> (r: Result<VertexAttribute, ReflectionError>)
    ensures
        r == vertex_attr_of(location, *ty),
        ty matches ShaderType::Scalar { kind, width } ==> (r is Ok <==> vertex_format_listed(*kind, 1, *width)),
        ty matches ShaderType::Vector { size, kind, width } ==> (r is Ok <==> (2 <= *size <= 4
            && vertex_format_listed(*kind, *size, *width))),
        r matches Ok(a) ==> a.offset == 0 && a.shader_location == location && (ty matches ShaderType::Scalar {
            kind,
            width,
        } ==> a.format == (VertexFormat { kind: *kind, components: 1, width: *width })) && (
        ty matches ShaderType::Vector { size, kind, width } ==> a.format == (VertexFormat {
            kind: *kind,
            components: *size,
            width: *width,
        })),
{
    let format = match ty {
        ShaderType::Scalar { kind, width } => vertex_format(*kind, 1, *width),
        ShaderType::Vector { size, kind, width } => {
            if 2 <= *size && *size <= 4 {
                vertex_format(*kind, *size, *width)
            } else {
                Err(ReflectionError::VertexComponentCount)
            }
        },
        _ => Err(ReflectionError::VertexAttribType),
    };
    match format {
        Ok(f) => Ok(VertexAttribute { format: f, offset: 0, shader_location: location }),
        Err(e) => Err(e),
    }
}

/// Where a global resource of a shader is bound: its bind group and its
/// slot in the group.
#[derive(PartialEq, Eq, Structural, Clone, Copy)]
pub struct ResourceBinding {
    pub group: u32,
    pub binding: u32,
}

/// A global variable of a shader: where it is bound, if it is a resource,
/// and its type.
#[derive(PartialEq, Eq, Structural, Clone, Copy)]
pub struct GlobalVariable {
    pub binding: Option<ResourceBinding>,
    pub ty: ShaderType,
}

/// How an argument of an entry point gets its value: from a built-in or
/// from the vertex input at a location.
#[derive(PartialEq, Eq, Structural, Clone, Copy)]
pub enum ArgumentBinding {
    BuiltIn,
    Location { location: u32 },
}

/// An argument of an entry point.
#[derive(PartialEq, Eq, Structural, Clone, Copy)]
pub struct FunctionArgument {
    pub binding: Option<ArgumentBinding>,
    pub ty: ShaderType,
}

/// An entry point of a shader: its name and its arguments.
pub struct EntryPoint {
    pub name: String,
    pub arguments: Vec<FunctionArgument>,
}

/// What reflection reads of a parsed shader: its global variables and its
/// entry points, each in the order of the source.
pub struct ShaderModule {
    pub global_variables: Vec<GlobalVariable>,
    pub entry_points: Vec<EntryPoint>,
}

/// A resource of a bind group: its slot and how it is bound. Every entry
/// is visible to all shader stages and is a single resource, not an array.
#[derive(PartialEq, Eq, Structural, Clone, Copy)]
pub struct BindGroupLayoutEntry {
    pub binding: u32,
    pub ty: BindingKind,
}

/// What a pipeline needs to know of a shader: the entries of each bind
/// group, in increasing group order, and the vertex attributes.
pub struct ShaderMetadata {
    pub bind_group_layouts: Vec<(u32, Vec<BindGroupLayoutEntry>)>,
    pub vertex_attributes: Vec<VertexAttribute>,
}

/// The bind group entries of the globals `gs` that are resources, each
/// with its group, in order; the first global that cannot be bound gives
/// the error.
pub open spec fn global_entries(gs: Seq<GlobalVariable>) -> Result<
    Seq<(u32, BindGroupLayoutEntry)>,
    ReflectionError,
>
    decreases gs.len(),
{
    if gs.len() == 0 {
        Ok(Seq::empty())
    } else {
        match global_entries(gs.drop_last()) {
            Err(e) => Err(e),
            Ok(es) => match gs.last().binding {
                None => Ok(es),
                Some(b) => match binding_spec(gs.last().ty) {
                    Ok(kind) => Ok(es.push((b.group, BindGroupLayoutEntry { binding: b.binding, ty: kind }))),
                    Err(e) => Err(e),
                },
            },
        }
    }
}

/// The entries of `es` in group `group`, in order.
pub open spec fn group_entries(es: Seq<(u32, BindGroupLayoutEntry)>, group: u32) -> Seq<
    BindGroupLayoutEntry,
>
    decreases es.len(),
{
    if es.len() == 0 {
        Seq::empty()
    } else if es.last().0 == group {
        group_entries(es.drop_last(), group).push(es.last().1)
    } else {
        group_entries(es.drop_last(), group)
    }
}

/// `layouts` holds the entries `es` by group: one list for each group that
/// occurs in `es`, in increasing group order, each list in the order of
/// `es`.
pub open spec fn grouped(
    layouts: Seq<(u32, Vec<BindGroupLayoutEntry>)>,
    es: Seq<(u32, BindGroupLayoutEntry)>,
) -> bool {
    &&& forall|i: int, j: int| 0 <= i < j < layouts.len() ==> layouts[i].0 < layouts[j].0
    &&& forall|i: int|
        0 <= i < layouts.len() ==> #[trigger] layouts[i].1@ == group_entries(es, layouts[i].0)
            && layouts[i].1@.len() > 0
    &&& forall|k: int|
        #![trigger es[k]]
        0 <= k < es.len() ==> exists|i: int|
            #![trigger layouts[i]]
            0 <= i < layouts.len() && layouts[i].0 == es[k].0
}

/// The vertex attributes of the arguments `args` that are bound to a
/// location, in order; the first of them that cannot be a vertex input
/// gives the error.
pub open spec fn location_attrs(args: Seq<FunctionArgument>) -> Result<Seq<VertexAttribute>, ReflectionError>
    decreases args.len(),
{
    if args.len() == 0 {
        Ok(Seq::empty())
    } else {
        match location_attrs(args.drop_last()) {
            Err(e) => Err(e),
            Ok(attrs) => match args.last().binding {
                Some(ArgumentBinding::Location { location }) => match vertex_attr_of(location, args.last().ty) {
                    Ok(a) => Ok(attrs.push(a)),
                    Err(e) => Err(e),
                },
                _ => Ok(attrs),
            },
        }
    }
}

/// The name and the arguments of each entry point of `eps`.
pub open spec fn entry_views(eps: Seq<EntryPoint>) -> Seq<(Seq<char>, Seq<FunctionArgument>)> {
    eps.map_values(|ep: EntryPoint| (ep.name@, ep.arguments@))
}

/// Whether an entry point with this name and these arguments is the
/// vertex stage's entry point, `vs_main`.
pub open spec fn is_vertex_main(ep: (Seq<char>, Seq<FunctionArgument>)) -> bool {
    ep.0 == "vs_main"@
}

/// The index of the last entry point named `vs_main` among `eps` (names and
/// arguments).
pub open spec fn vertex_main_index(eps: Seq<(Seq<char>, Seq<FunctionArgument>)>) -> Option<int>
    decreases eps.len(),
{
    if eps.len() == 0 {
        None
    } else if is_vertex_main(eps.last()) {
        Some(eps.len() - 1)
    } else {
        vertex_main_index(eps.drop_last())
    }
}

/// The vertex attributes of a shader with entry points `eps` (names and
/// arguments): those of the last `vs_main`, none if there is none.
pub open spec fn vertex_attributes_spec(eps: Seq<(Seq<char>, Seq<FunctionArgument>)>) -> Result<
    Seq<VertexAttribute>,
    ReflectionError,
> {
    match vertex_main_index(eps) {
        None => Ok(Seq::empty()),
        Some(i) => location_attrs(eps[i].1),
    }
}

/// `r` is the metadata of a shader with globals `globals` and entry points
/// `eps` (names and arguments): an error of a global comes first, then one
/// of a vertex input; else the globals' entries by group and the vertex
/// attributes.
pub open spec fn metadata_of(
    globals: Seq<GlobalVariable>,
    eps: Seq<(Seq<char>, Seq<FunctionArgument>)>,
    r: Result<ShaderMetadata, ReflectionError>,
) -> bool {
    match global_entries(globals) {
        Err(e) => r == Err::<ShaderMetadata, ReflectionError>(e),
        Ok(es) => match vertex_attributes_spec(eps) {
            Err(e) => r == Err::<ShaderMetadata, ReflectionError>(e),
            Ok(attrs) => match r {
                Ok(md) => grouped(md.bind_group_layouts@, es) && md.vertex_attributes@ == attrs,
                Err(_) => false,
            },
        },
    }
}

/// `r` is the metadata of `module` (see `metadata_of`).
pub open spec fn metadata_matches(module: ShaderModule, r: Result<ShaderMetadata, ReflectionError>) -> bool {
    metadata_of(module.global_variables@, entry_views(module.entry_points@), r)
}

proof fn lemma_group_entries_absent(es: Seq<(u32, BindGroupLayoutEntry)>, group: u32)
    requires
        forall|k: int| 0 <= k < es.len() ==> es[k].0 != group,
    ensures
        group_entries(es, group) == Seq::<BindGroupLayoutEntry>::empty(),
    decreases es.len(),
{
    if es.len() > 0 {
        lemma_group_entries_absent(es.drop_last(), group);
    }
}

/// Adds `entry` of group `group` to `layouts`, which holds `es` by group.
fn add_entry(
    layouts: &mut Vec<(u32, Vec<BindGroupLayoutEntry>)>,
    Ghost(es): Ghost<Seq<(u32, BindGroupLayoutEntry)>>,
    group: u32,
    entry: BindGroupLayoutEntry,
)
    requires
        grouped(old(layouts)@, es),
    ensures
        grouped(final(layouts)@, es.push((group, entry))),
{
    let ghost es2 = es.push((group, entry));
    assert(es2.drop_last() == es);
    let mut p: usize = 0;
    while p < layouts.len() && layouts[p].0 < group
        invariant
            p <= layouts.len(),
            forall|i: int| 0 <= i < p ==> layouts[i].0 < group,
        decreases layouts.len() - p,
    {
        p = p + 1;
    }
    let ghost old_layouts = layouts@;
    if p < layouts.len() && layouts[p].0 == group {
        let (g, mut list) = layouts.remove(p);
        list.push(entry);
        layouts.insert(p, (g, list));
        assert(layouts@ == old_layouts.update(p as int, (g, list)));
        assert forall|i: int| 0 <= i < layouts@.len() implies #[trigger] layouts@[i].1@ == group_entries(
            es2,
            layouts@[i].0,
        ) && layouts@[i].1@.len() > 0 by {
            assert(old_layouts[i].1@ == group_entries(es, old_layouts[i].0));
        }
        assert forall|k: int| #![trigger es2[k]] 0 <= k < es2.len() implies exists|i: int|
            #![trigger layouts@[i]]
            0 <= i < layouts@.len() && layouts@[i].0 == es2[k].0 by {
            if k < es.len() {
                assert(es2[k] == es[k]);
                let i = choose|i: int| #![trigger old_layouts[i]] 0 <= i < old_layouts.len() && old_layouts[i].0 == es[k].0;
                assert(layouts@[i].0 == es2[k].0);
            } else {
                assert(layouts@[p as int].0 == es2[k].0);
            }
        }
    } else {
        assert forall|k: int| #![trigger es[k]] 0 <= k < es.len() implies es[k].0 != group by {
            let i = choose|i: int| #![trigger old_layouts[i]] 0 <= i < old_layouts.len() && old_layouts[i].0 == es[k].0;
            if i < p {
            } else if i == p {
            } else {
                assert(old_layouts[p as int].0 < old_layouts[i].0);
            }
        }
        proof {
            lemma_group_entries_absent(es, group);
        }
        let list = vec![entry];
        layouts.insert(p, (group, list));
        assert(layouts@ == old_layouts.insert(p as int, (group, list)));
        assert(list@ == seq![entry]);
        assert forall|i: int, j: int| 0 <= i < j < layouts@.len() implies layouts@[i].0 < layouts@[j].0 by {
            if j < p {
            } else if j == p {
            } else if i < p {
                assert(old_layouts[p as int].0 > group);
                if p + 1 < j {
                    assert(old_layouts[p as int].0 < old_layouts[j - 1].0);
                }
            } else if i == p {
                assert(old_layouts[p as int].0 > group);
                if p + 1 < j {
                    assert(old_layouts[p as int].0 < old_layouts[j - 1].0);
                }
            } else {
                assert(old_layouts[i - 1].0 < old_layouts[j - 1].0);
            }
        }
        assert forall|i: int| 0 <= i < layouts@.len() implies #[trigger] layouts@[i].1@ == group_entries(
            es2,
            layouts@[i].0,
        ) && layouts@[i].1@.len() > 0 by {
            if i < p {
                assert(old_layouts[i].1@ == group_entries(es, old_layouts[i].0));
            } else if i > p {
                assert(old_layouts[i - 1].1@ == group_entries(es, old_layouts[i - 1].0));
                assert(old_layouts[p as int].0 > group);
                if p < i - 1 {
                    assert(old_layouts[p as int].0 < old_layouts[i - 1].0);
                }
            }
        }
        assert forall|k: int| #![trigger es2[k]] 0 <= k < es2.len() implies exists|i: int|
            #![trigger layouts@[i]]
            0 <= i < layouts@.len() && layouts@[i].0 == es2[k].0 by {
            if k < es.len() {
                assert(es2[k] == es[k]);
                let i = choose|i: int| #![trigger old_layouts[i]] 0 <= i < old_layouts.len() && old_layouts[i].0 == es[k].0;
                if i < p {
                    assert(layouts@[i].0 == es2[k].0);
                } else {
                    assert(layouts@[i + 1].0 == es2[k].0);
                }
            } else {
                assert(layouts@[p as int].0 == es2[k].0);
            }
        }
    }
}

proof fn lemma_global_entries_err(gs: Seq<GlobalVariable>, j: int)
    requires
        0 <= j <= gs.len(),
        global_entries(gs.take(j)) is Err,
    ensures
        global_entries(gs) == global_entries(gs.take(j)),
    decreases gs.len() - j,
{
    if j == gs.len() {
        assert(gs.take(j) == gs);
    } else {
        assert(gs.take(j + 1).drop_last() == gs.take(j));
        lemma_global_entries_err(gs, j + 1);
    }
}

proof fn lemma_location_attrs_err(args: Seq<FunctionArgument>, j: int)
    requires
        0 <= j <= args.len(),
        location_attrs(args.take(j)) is Err,
    ensures
        location_attrs(args) == location_attrs(args.take(j)),
    decreases args.len() - j,
{
    if j == args.len() {
        assert(args.take(j) == args);
    } else {
        assert(args.take(j + 1).drop_last() == args.take(j));
        lemma_location_attrs_err(args, j + 1);
    }
}

/// The bind group entries of the globals, grouped (see `global_entries`
/// and `grouped`).
fn bind_group_layouts(globals: &Vec<GlobalVariable>) -> (r: Result<
    Vec<(u32, Vec<BindGroupLayoutEntry>)>,
    ReflectionError,
>)
    ensures
        match global_entries(globals@) {
            Err(e) => r == Err::<Vec<(u32, Vec<BindGroupLayoutEntry>)>, ReflectionError>(e),
            Ok(es) => r matches Ok(layouts) && grouped(layouts@, es),
        },
{
    let mut layouts: Vec<(u32, Vec<BindGroupLayoutEntry>)> = Vec::new();
    let mut i: usize = 0;
    assert(globals@.take(0) == Seq::<GlobalVariable>::empty());
    while i < globals.len()
        invariant
            i <= globals.len(),
            global_entries(globals@.take(i as int)) is Ok,
            grouped(layouts@, global_entries(globals@.take(i as int))->Ok_0),
        decreases globals.len() - i,
    {
        let g = globals[i];
        let ghost es = global_entries(globals@.take(i as int))->Ok_0;
        assert(globals@.take(i + 1).drop_last() == globals@.take(i as int));
        assert(globals@.take(i + 1).last() == g);
        match g.binding {
            Some(b) => {
                match to_binding_type(&g.ty) {
                    Ok(kind) => {
                        add_entry(&mut layouts, Ghost(es), b.group, BindGroupLayoutEntry { binding: b.binding, ty: kind });
                    },
                    Err(e) => {
                        proof {
                            lemma_global_entries_err(globals@, i + 1);
                        }
                        return Err(e);
                    },
                }
            },
            None => {},
        }
        i = i + 1;
    }
    assert(globals@.take(i as int) == globals@);
    Ok(layouts)
}

/// The attributes of the location-bound arguments `args` (see
/// `location_attrs`).
fn vertex_attributes(args: &Vec<FunctionArgument>) -> (r: Result<Vec<VertexAttribute>, ReflectionError>)
    ensures
        match location_attrs(args@) {
            Err(e) => r == Err::<Vec<VertexAttribute>, ReflectionError>(e),
            Ok(attrs) => r matches Ok(v) && v@ == attrs,
        },
{
    let mut attrs: Vec<VertexAttribute> = Vec::new();
    let mut i: usize = 0;
    assert(args@.take(0) == Seq::<FunctionArgument>::empty());
    while i < args.len()
        invariant
            i <= args.len(),
            location_attrs(args@.take(i as int)) == Ok::<Seq<VertexAttribute>, ReflectionError>(attrs@),
        decreases args.len() - i,
    {
        let arg = args[i];
        assert(args@.take(i + 1).drop_last() == args@.take(i as int));
        assert(args@.take(i + 1).last() == arg);
        match arg.binding {
            Some(ArgumentBinding::Location { location }) => {
                match wgpu_vertex_type_attr(location, &arg.ty) {
                    Ok(a) => {
                        attrs.push(a);
                    },
                    Err(e) => {
                        proof {
                            lemma_location_attrs_err(args@, i + 1);
                        }
                        return Err(e);
                    },
                }
            },
            _ => {},
        }
        i = i + 1;
    }
    assert(args@.take(i as int) == args@);
    Ok(attrs)
}

/// The index of the last entry point named `vs_main`.
fn find_vertex_main(eps: &Vec<EntryPoint>) -> (r: Option<usize>)
    ensures
        r is None <==> vertex_main_index(entry_views(eps@)) is None,
        r matches Some(i) ==> i < eps.len() && vertex_main_index(entry_views(eps@)) == Some(i as int),
{
    let name = <String as StringExecFns>::from_str("vs_main");
    let mut found: Option<usize> = None;
    let mut i: usize = 0;
    let ghost views = entry_views(eps@);
    assert(views.take(0) == Seq::<(Seq<char>, Seq<FunctionArgument>)>::empty());
    while i < eps.len()
        invariant
            i <= eps.len(),
            views == entry_views(eps@),
            name@ == "vs_main"@,
            found is None <==> vertex_main_index(views.take(i as int)) is None,
            found matches Some(j) ==> j < i && vertex_main_index(views.take(i as int)) == Some(j as int),
        decreases eps.len() - i,
    {
        assert(views.take(i + 1).drop_last() == views.take(i as int));
        assert(views.take(i + 1).last() == (eps@[i as int].name@, eps@[i as int].arguments@));
        if eps[i].name == name {
            found = Some(i);
        }
        i = i + 1;
    }
    assert(views.take(i as int) == views);
    found
}

/// The bind groups and vertex attributes of `module` (see
/// `metadata_matches`).
pub fn module_metadata(module: &ShaderModule) -> (r: Result<ShaderMetadata, ReflectionError>)
    ensures
        metadata_matches(*module, r),
{
    let bind_group_layouts = match bind_group_layouts(&module.global_variables) {
        Ok(layouts) => layouts,
        Err(e) => {
            return Err(e);
        },
    };
    let vertex_attributes = match find_vertex_main(&module.entry_points) {
        Some(i) => match vertex_attributes(&module.entry_points[i].arguments) {
            Ok(attrs) => attrs,
            Err(e) => {
                return Err(e);
            },
        },
        None => Vec::new(),
    };
    Ok(ShaderMetadata { bind_group_layouts, vertex_attributes })
}

/// The scalar kind with index `code` in naga's declaration of the enum.
pub open spec fn scalar_kind_of(code: u8) -> ScalarKind {
    match code {
        0 => ScalarKind::Sint,
        1 => ScalarKind::Uint,
        2 => ScalarKind::Float,
        3 => ScalarKind::Bool,
        4 => ScalarKind::AbstractInt,
        _ => ScalarKind::AbstractFloat,
    }
}

fn decode_scalar_kind(code: u8) -> (k: ScalarKind)
    ensures
        k == scalar_kind_of(code),
{
    match code {
        0 => ScalarKind::Sint,
        1 => ScalarKind::Uint,
        2 => ScalarKind::Float,
        3 => ScalarKind::Bool,
        4 => ScalarKind::AbstractInt,
        _ => ScalarKind::AbstractFloat,
    }
}

/// The image dimension with index `code` in naga's declaration of the enum.
pub open spec fn image_dimension_of(code: u8) -> ImageDimension {
    match code {
        0 => ImageDimension::D1,
        1 => ImageDimension::D2,
        2 => ImageDimension::D3,
        _ => ImageDimension::Cube,
    }
}

fn decode_image_dimension(code: u8) -> (d: ImageDimension)
    ensures
        d == image_dimension_of(code),
{
    match code {
        0 => ImageDimension::D1,
        1 => ImageDimension::D2,
        2 => ImageDimension::D3,
        _ => ImageDimension::Cube,
    }
}

/// The storage format with index `code` in naga's declaration of the enum
/// (which `StorageFormat` follows).
pub open spec fn storage_format_of(code: u8) -> StorageFormat {
    match code {
        0 => StorageFormat::R8Unorm,
        1 => StorageFormat::R8Snorm,
        2 => StorageFormat::R8Uint,
        3 => StorageFormat::R8Sint,
        4 => StorageFormat::R16Uint,
        5 => StorageFormat::R16Sint,
        6 => StorageFormat::R16Float,
        7 => StorageFormat::Rg8Unorm,
        8 => StorageFormat::Rg8Snorm,
        9 => StorageFormat::Rg8Uint,
        10 => StorageFormat::Rg8Sint,
        11 => StorageFormat::R32Uint,
        12 => StorageFormat::R32Sint,
        13 => StorageFormat::R32Float,
        14 => StorageFormat::Rg16Uint,
        15 => StorageFormat::Rg16Sint,
        16 => StorageFormat::Rg16Float,
        17 => StorageFormat::Rgba8Unorm,
        18 => StorageFormat::Rgba8Snorm,
        19 => StorageFormat::Rgba8Uint,
        20 => StorageFormat::Rgba8Sint,
        21 => StorageFormat::Bgra8Unorm,
        22 => StorageFormat::Rgb10a2Uint,
        23 => StorageFormat::Rgb10a2Unorm,
        24 => StorageFormat::Rg11b10Ufloat,
        25 => StorageFormat::R64Uint,
        26 => StorageFormat::Rg32Uint,
        27 => StorageFormat::Rg32Sint,
        28 => StorageFormat::Rg32Float,
        29 => StorageFormat::Rgba16Uint,
        30 => StorageFormat::Rgba16Sint,
        31 => StorageFormat::Rgba16Float,
        32 => StorageFormat::Rgba32Uint,
        33 => StorageFormat::Rgba32Sint,
        34 => StorageFormat::Rgba32Float,
        35 => StorageFormat::R16Unorm,
        36 => StorageFormat::R16Snorm,
        37 => StorageFormat::Rg16Unorm,
        38 => StorageFormat::Rg16Snorm,
        39 => StorageFormat::Rgba16Unorm,
        _ => StorageFormat::Rgba16Snorm,
    }
}

/// The index of each storage format in naga's declaration of
/// `StorageFormat`, by name.
pub open spec fn naga_format_index(f: StorageFormat) -> u8 {
    match f {
        // 8-bit formats
        StorageFormat::R8Unorm => 0,
        StorageFormat::R8Snorm => 1,
        StorageFormat::R8Uint => 2,
        StorageFormat::R8Sint => 3,
        // 16-bit formats
        StorageFormat::R16Uint => 4,
        StorageFormat::R16Sint => 5,
        StorageFormat::R16Float => 6,
        StorageFormat::Rg8Unorm => 7,
        StorageFormat::Rg8Snorm => 8,
        StorageFormat::Rg8Uint => 9,
        StorageFormat::Rg8Sint => 10,
        // 32-bit formats
        StorageFormat::R32Uint => 11,
        StorageFormat::R32Sint => 12,
        StorageFormat::R32Float => 13,
        StorageFormat::Rg16Uint => 14,
        StorageFormat::Rg16Sint => 15,
        StorageFormat::Rg16Float => 16,
        StorageFormat::Rgba8Unorm => 17,
        StorageFormat::Rgba8Snorm => 18,
        StorageFormat::Rgba8Uint => 19,
        StorageFormat::Rgba8Sint => 20,
        StorageFormat::Bgra8Unorm => 21,
        // packed 32-bit formats
        StorageFormat::Rgb10a2Uint => 22,
        StorageFormat::Rgb10a2Unorm => 23,
        StorageFormat::Rg11b10Ufloat => 24,
        // 64-bit formats
        StorageFormat::R64Uint => 25,
        StorageFormat::Rg32Uint => 26,
        StorageFormat::Rg32Sint => 27,
        StorageFormat::Rg32Float => 28,
        StorageFormat::Rgba16Uint => 29,
        StorageFormat::Rgba16Sint => 30,
        StorageFormat::Rgba16Float => 31,
        // 128-bit formats
        StorageFormat::Rgba32Uint => 32,
        StorageFormat::Rgba32Sint => 33,
        StorageFormat::Rgba32Float => 34,
        // normalized 16-bit formats
        StorageFormat::R16Unorm => 35,
        StorageFormat::R16Snorm => 36,
        StorageFormat::Rg16Unorm => 37,
        StorageFormat::Rg16Snorm => 38,
        StorageFormat::Rgba16Unorm => 39,
        StorageFormat::Rgba16Snorm => 40,
    }
}

/// Decoding naga's storage format indices gives each format its own name:
/// the decoding is one to one on naga's 41 formats, and the index of a
/// format decodes to that very format.
pub proof fn lemma_storage_formats(f: StorageFormat, c1: u8, c2: u8)
    ensures
        naga_format_index(f) < 41,
        storage_format_of(naga_format_index(f)) == f,
        c1 < 41 ==> naga_format_index(storage_format_of(c1)) == c1,
        c1 < 41 && c2 < 41 && storage_format_of(c1) == storage_format_of(c2) ==> c1 == c2,
{
    if c1 < 41 {
        lemma_format_index_round_trip(c1);
    }
    if c2 < 41 {
        lemma_format_index_round_trip(c2);
    }
}

proof fn lemma_format_index_round_trip(c: u8)
    requires
        c < 41,
    ensures
        naga_format_index(storage_format_of(c)) == c,
{
    match c {
        0 => assert(naga_format_index(storage_format_of(0u8)) == 0),
        1 => assert(naga_format_index(storage_format_of(1u8)) == 1),
        2 => assert(naga_format_index(storage_format_of(2u8)) == 2),
        3 => assert(naga_format_index(storage_format_of(3u8)) == 3),
        4 => assert(naga_format_index(storage_format_of(4u8)) == 4),
        5 => assert(naga_format_index(storage_format_of(5u8)) == 5),
        6 => assert(naga_format_index(storage_format_of(6u8)) == 6),
        7 => assert(naga_format_index(storage_format_of(7u8)) == 7),
        8 => assert(naga_format_index(storage_format_of(8u8)) == 8),
        9 => assert(naga_format_index(storage_format_of(9u8)) == 9),
        10 => assert(naga_format_index(storage_format_of(10u8)) == 10),
        11 => assert(naga_format_index(storage_format_of(11u8)) == 11),
        12 => assert(naga_format_index(storage_format_of(12u8)) == 12),
        13 => assert(naga_format_index(storage_format_of(13u8)) == 13),
        14 => assert(naga_format_index(storage_format_of(14u8)) == 14),
        15 => assert(naga_format_index(storage_format_of(15u8)) == 15),
        16 => assert(naga_format_index(storage_format_of(16u8)) == 16),
        17 => assert(naga_format_index(storage_format_of(17u8)) == 17),
        18 => assert(naga_format_index(storage_format_of(18u8)) == 18),
        19 => assert(naga_format_index(storage_format_of(19u8)) == 19),
        20 => assert(naga_format_index(storage_format_of(20u8)) == 20),
        21 => assert(naga_format_index(storage_format_of(21u8)) == 21),
        22 => assert(naga_format_index(storage_format_of(22u8)) == 22),
        23 => assert(naga_format_index(storage_format_of(23u8)) == 23),
        24 => assert(naga_format_index(storage_format_of(24u8)) == 24),
        25 => assert(naga_format_index(storage_format_of(25u8)) == 25),
        26 => assert(naga_format_index(storage_format_of(26u8)) == 26),
        27 => assert(naga_format_index(storage_format_of(27u8)) == 27),
        28 => assert(naga_format_index(storage_format_of(28u8)) == 28),
        29 => assert(naga_format_index(storage_format_of(29u8)) == 29),
        30 => assert(naga_format_index(storage_format_of(30u8)) == 30),
        31 => assert(naga_format_index(storage_format_of(31u8)) == 31),
        32 => assert(naga_format_index(storage_format_of(32u8)) == 32),
        33 => assert(naga_format_index(storage_format_of(33u8)) == 33),
        34 => assert(naga_format_index(storage_format_of(34u8)) == 34),
        35 => assert(naga_format_index(storage_format_of(35u8)) == 35),
        36 => assert(naga_format_index(storage_format_of(36u8)) == 36),
        37 => assert(naga_format_index(storage_format_of(37u8)) == 37),
        38 => assert(naga_format_index(storage_format_of(38u8)) == 38),
        39 => assert(naga_format_index(storage_format_of(39u8)) == 39),
        40 => assert(naga_format_index(storage_format_of(40u8)) == 40),
        _ => {},
    }
}

fn decode_storage_format(code: u8) -> (f: StorageFormat)
    ensures
        f == storage_format_of(code),
        code < 41 ==> naga_format_index(f) == code,
{
    match code {
        0 => StorageFormat::R8Unorm,
        1 => StorageFormat::R8Snorm,
        2 => StorageFormat::R8Uint,
        3 => StorageFormat::R8Sint,
        4 => StorageFormat::R16Uint,
        5 => StorageFormat::R16Sint,
        6 => StorageFormat::R16Float,
        7 => StorageFormat::Rg8Unorm,
        8 => StorageFormat::Rg8Snorm,
        9 => StorageFormat::Rg8Uint,
        10 => StorageFormat::Rg8Sint,
        11 => StorageFormat::R32Uint,
        12 => StorageFormat::R32Sint,
        13 => StorageFormat::R32Float,
        14 => StorageFormat::Rg16Uint,
        15 => StorageFormat::Rg16Sint,
        16 => StorageFormat::Rg16Float,
        17 => StorageFormat::Rgba8Unorm,
        18 => StorageFormat::Rgba8Snorm,
        19 => StorageFormat::Rgba8Uint,
        20 => StorageFormat::Rgba8Sint,
        21 => StorageFormat::Bgra8Unorm,
        22 => StorageFormat::Rgb10a2Uint,
        23 => StorageFormat::Rgb10a2Unorm,
        24 => StorageFormat::Rg11b10Ufloat,
        25 => StorageFormat::R64Uint,
        26 => StorageFormat::Rg32Uint,
        27 => StorageFormat::Rg32Sint,
        28 => StorageFormat::Rg32Float,
        29 => StorageFormat::Rgba16Uint,
        30 => StorageFormat::Rgba16Sint,
        31 => StorageFormat::Rgba16Float,
        32 => StorageFormat::Rgba32Uint,
        33 => StorageFormat::Rgba32Sint,
        34 => StorageFormat::Rgba32Float,
        35 => StorageFormat::R16Unorm,
        36 => StorageFormat::R16Snorm,
        37 => StorageFormat::Rg16Unorm,
        38 => StorageFormat::Rg16Snorm,
        39 => StorageFormat::Rgba16Unorm,
        _ => StorageFormat::Rgba16Snorm,
    }
}

/// The storage access with naga's bits `bits`: load, store and atomic are
/// the three lowest bits.
pub open spec fn storage_access_of(bits: u32) -> StorageAccess {
    StorageAccess { load: bits & 1 != 0, store: bits & 2 != 0, atomic: bits & 4 != 0 }
}

/// The image class that `code` gives.
pub open spec fn image_class_of(code: ImageClassCode) -> ImageClass {
    match code {
        ImageClassCode::Sampled { kind, multi } => ImageClass::Sampled { kind: scalar_kind_of(kind), multi },
        ImageClassCode::Depth { multi } => ImageClass::Depth { multi },
        ImageClassCode::External => ImageClass::External,
        ImageClassCode::Storage { format, access } => ImageClass::Storage {
            format: storage_format_of(format),
            access: storage_access_of(access),
        },
    }
}

fn decode_image_class(code: ImageClassCode) -> (c: ImageClass)
    ensures
        c == image_class_of(code),
{
    match code {
        ImageClassCode::Sampled { kind, multi } => ImageClass::Sampled { kind: decode_scalar_kind(kind), multi },
        ImageClassCode::Depth { multi } => ImageClass::Depth { multi },
        ImageClassCode::External => ImageClass::External,
        ImageClassCode::Storage { format, access } => ImageClass::Storage {
            format: decode_storage_format(format),
            access: StorageAccess { load: access & 1 != 0, store: access & 2 != 0, atomic: access & 4 != 0 },
        },
    }
}

/// The `t`-th type of the parsed `source`, as reflection reads it.
pub open spec fn wgsl_type(source: Seq<char>, t: int) -> ShaderType {
    let sc = wgsl_type_scalar(source, t);
    let sz = wgsl_type_sizes(source, t);
    match wgsl_type_tag(source, t) {
        TypeTag::Scalar => ShaderType::Scalar { kind: scalar_kind_of(sc.0), width: sc.1 },
        TypeTag::Vector => ShaderType::Vector { size: sz.0, kind: scalar_kind_of(sc.0), width: sc.1 },
        TypeTag::Matrix => ShaderType::Matrix { columns: sz.0, rows: sz.1, width: sc.1 },
        TypeTag::Pointer => ShaderType::Pointer,
        TypeTag::ValuePointer => ShaderType::ValuePointer,
        TypeTag::Array => ShaderType::Array {
            length: wgsl_type_array(source, t).0,
            stride: wgsl_type_array(source, t).1,
        },
        TypeTag::Struct => ShaderType::Struct,
        TypeTag::Image => ShaderType::Image {
            dim: image_dimension_of(wgsl_type_image(source, t).0),
            arrayed: wgsl_type_image(source, t).1,
            class: image_class_of(wgsl_type_image(source, t).2),
        },
        TypeTag::Sampler => ShaderType::Sampler { comparison: wgsl_type_sampler(source, t) },
        TypeTag::Other => ShaderType::Other,
    }
}

/// The global variables of the parsed `source`, in order.
pub open spec fn wgsl_globals(source: Seq<char>) -> Seq<GlobalVariable> {
    Seq::new(
        wgsl_global_count(source) as nat,
        |i: int|
            GlobalVariable {
                binding: wgsl_global_binding(source, i),
                ty: wgsl_type(source, wgsl_global_type(source, i) as int),
            },
    )
}

/// The arguments of the `e`-th entry point of the parsed `source`.
pub open spec fn wgsl_arguments(source: Seq<char>, e: int) -> Seq<FunctionArgument> {
    Seq::new(
        wgsl_arg_count(source, e) as nat,
        |a: int|
            FunctionArgument {
                binding: wgsl_arg_binding(source, e, a),
                ty: wgsl_type(source, wgsl_arg_type(source, e, a) as int),
            },
    )
}

/// The name and arguments of each entry point of the parsed `source`.
pub open spec fn wgsl_entry_points(source: Seq<char>) -> Seq<(Seq<char>, Seq<FunctionArgument>)> {
    Seq::new(
        wgsl_entry_count(source) as nat,
        |e: int| (wgsl_entry_name(source, e), wgsl_arguments(source, e)),
    )
}

fn parsed_type(p: &ParsedShader, t: usize) -> (r: ShaderType)
    ensures
        r == wgsl_type(p.source(), t as int),
{
    match type_tag(p, t) {
        TypeTag::Scalar => {
            let (kind, width) = type_scalar(p, t);
            ShaderType::Scalar { kind: decode_scalar_kind(kind), width }
        },
        TypeTag::Vector => {
            let (kind, width) = type_scalar(p, t);
            let (size, _) = type_sizes(p, t);
            ShaderType::Vector { size, kind: decode_scalar_kind(kind), width }
        },
        TypeTag::Matrix => {
            let (_, width) = type_scalar(p, t);
            let (columns, rows) = type_sizes(p, t);
            ShaderType::Matrix { columns, rows, width }
        },
        TypeTag::Pointer => ShaderType::Pointer,
        TypeTag::ValuePointer => ShaderType::ValuePointer,
        TypeTag::Array => {
            let (length, stride) = type_array(p, t);
            ShaderType::Array { length, stride }
        },
        TypeTag::Struct => ShaderType::Struct,
        TypeTag::Image => {
            let (dim, arrayed, class) = type_image(p, t);
            ShaderType::Image {
                dim: decode_image_dimension(dim),
                arrayed,
                class: decode_image_class(class),
            }
        },
        TypeTag::Sampler => ShaderType::Sampler { comparison: type_sampler(p, t) },
        TypeTag::Other => ShaderType::Other,
    }
}

fn parsed_arguments(p: &ParsedShader, e: usize) -> (args: Vec<FunctionArgument>)
    ensures
        args@ == wgsl_arguments(p.source(), e as int),
{
    let n = arg_count(p, e);
    let mut args: Vec<FunctionArgument> = Vec::new();
    let mut a: usize = 0;
    while a < n
        invariant
            a <= n,
            n == wgsl_arg_count(p.source(), e as int),
            args@ == wgsl_arguments(p.source(), e as int).take(a as int),
        decreases n - a,
    {
        let binding = arg_binding(p, e, a);
        let ty = parsed_type(p, arg_type(p, e, a));
        args.push(FunctionArgument { binding, ty });
        a = a + 1;
        assert(args@ =~= wgsl_arguments(p.source(), e as int).take(a as int));
    }
    assert(wgsl_arguments(p.source(), e as int).take(a as int) =~= wgsl_arguments(p.source(), e as int));
    args
}

/// What reflection reads of a parsed shader.
fn parsed_module(p: &ParsedShader) -> (m: ShaderModule)
    ensures
        m.global_variables@ == wgsl_globals(p.source()),
        entry_views(m.entry_points@) == wgsl_entry_points(p.source()),
{
    let src = Ghost(p.source());
    let n = global_count(p);
    let mut globals: Vec<GlobalVariable> = Vec::new();
    let mut i: usize = 0;
    while i < n
        invariant
            i <= n,
            n == wgsl_global_count(src@),
            src@ == p.source(),
            globals@ == wgsl_globals(src@).take(i as int),
        decreases n - i,
    {
        let binding = global_binding(p, i);
        let ty = parsed_type(p, global_type(p, i));
        globals.push(GlobalVariable { binding, ty });
        i = i + 1;
        assert(globals@ =~= wgsl_globals(src@).take(i as int));
    }
    assert(wgsl_globals(src@).take(i as int) =~= wgsl_globals(src@));
    let m = entry_count(p);
    let mut entry_points: Vec<EntryPoint> = Vec::new();
    let mut e: usize = 0;
    while e < m
        invariant
            e <= m,
            m == wgsl_entry_count(src@),
            src@ == p.source(),
            entry_views(entry_points@) == wgsl_entry_points(src@).take(e as int),
        decreases m - e,
    {
        let name = entry_name(p, e);
        let arguments = parsed_arguments(p, e);
        let ghost before = entry_points@;
        entry_points.push(EntryPoint { name, arguments });
        e = e + 1;
        assert(entry_views(entry_points@) =~= entry_views(before).push(
            (wgsl_entry_name(src@, (e - 1) as int), wgsl_arguments(src@, (e - 1) as int)),
        ));
        assert(entry_views(entry_points@) =~= wgsl_entry_points(src@).take(e as int));
    }
    assert(wgsl_entry_points(src@).take(e as int) =~= wgsl_entry_points(src@));
    ShaderModule { global_variables: globals, entry_points }
}

/// The bind groups and vertex attributes of the WGSL shader `source`,
/// which naga has to accept (see `metadata_of`).
pub fn shader_metadata(source: &str) -> (r: Result<ShaderMetadata, ReflectionError>)
    requires
        wgsl_parses(source@),
    ensures
        metadata_of(wgsl_globals(source@), wgsl_entry_points(source@), r),
{
    match parse_wgsl(source) {
        Some(p) => {
            let module = parsed_module(&p);
            module_metadata(&module)
        },
        None => {
            proof {
                assert(false);
            }
            Err(ReflectionError::UniformType)
        },
    }
}

/// The metadata of the WGSL shader `source` (see `shader_metadata`), or
/// `None` when naga does not accept the source.
pub fn try_shader_metadata(source: &str) -> (r: Option<Result<ShaderMetadata, ReflectionError>>)
    ensures
        r is None <==> !wgsl_parses(source@),
        r matches Some(res) ==> metadata_of(wgsl_globals(source@), wgsl_entry_points(source@), res),
{
    match parse_wgsl(source) {
        Some(_) => Some(shader_metadata(source)),
        None => None,
    }
}

} // verus!
