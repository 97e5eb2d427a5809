use vstd::prelude::*;

use naga::ImageClass as C;
use naga::TypeInner as T;

use crate::renderer::reflection::{ArgumentBinding, ArraySize, ResourceBinding};

verus! {

/// A module of shader code as naga's WGSL front end builds it.
#[verifier::external_type_specification]
#[verifier::external_body]
pub struct ExModule(naga::Module);

/// A WGSL source text together with naga's parse of it. Only `parse_wgsl`
/// makes one, so the module is always the parse of the source.
pub struct ParsedShader {
    source: String,
    module: naga::Module,
}

impl ParsedShader {
    /// The source text that was parsed.
    pub closed spec fn source(&self) -> Seq<char> {
        self.source@
    }
}

/// The variant of a naga type, without its fields.
#[derive(PartialEq, Eq, Structural, Clone, Copy)]
pub enum TypeTag {
    Scalar,
    Vector,
    Matrix,
    Pointer,
    ValuePointer,
    Array,
    Struct,
    Image,
    Sampler,
    Other,
}

/// The class of a naga image type. Scalar kinds and storage formats are
/// given by their index in naga's declaration of the enum, the storage
/// access by its bits.
#[derive(PartialEq, Eq, Structural, Clone, Copy)]
pub enum ImageClassCode {
    Sampled { kind: u8, multi: bool },
    Depth { multi: bool },
    External,
    Storage { format: u8, access: u32 },
}

/// Whether naga's WGSL front end accepts `source`.
pub uninterp spec fn wgsl_parses(source: Seq<char>) -> bool;

/// The number of global variables of the parsed `source`.
pub uninterp spec fn wgsl_global_count(source: Seq<char>) -> usize;

/// The resource binding of the `i`-th global variable of the parsed
/// `source`.
pub uninterp spec fn wgsl_global_binding(source: Seq<char>, i: int) -> Option<ResourceBinding>;

/// The index of the type of the `i`-th global variable of the parsed
/// `source` among its types.
pub uninterp spec fn wgsl_global_type(source: Seq<char>, i: int) -> usize;

/// The variant of the `t`-th type of the parsed `source`.
pub uninterp spec fn wgsl_type_tag(source: Seq<char>, t: int) -> TypeTag;

/// The scalar kind (as an index) and width of the `t`-th type of the
/// parsed `source`, when it is a scalar, vector or matrix.
pub uninterp spec fn wgsl_type_scalar(source: Seq<char>, t: int) -> (u8, u8);

/// The component count of the `t`-th type of the parsed `source` when it
/// is a vector, or its column and row counts when it is a matrix.
pub uninterp spec fn wgsl_type_sizes(source: Seq<char>, t: int) -> (u8, u8);

/// The length and stride of the `t`-th type of the parsed `source`, when
/// it is an array.
pub uninterp spec fn wgsl_type_array(source: Seq<char>, t: int) -> (ArraySize, u32);

/// The dimension (as an index), arrayedness and class of the `t`-th type
/// of the parsed `source`, when it is an image.
pub uninterp spec fn wgsl_type_image(source: Seq<char>, t: int) -> (u8, bool, ImageClassCode);

/// Whether the `t`-th type of the parsed `source` is a comparison sampler.
pub uninterp spec fn wgsl_type_sampler(source: Seq<char>, t: int) -> bool;

/// The number of entry points of the parsed `source`.
pub uninterp spec fn wgsl_entry_count(source: Seq<char>) -> usize;

/// The name of the `e`-th entry point of the parsed `source`.
pub uninterp spec fn wgsl_entry_name(source: Seq<char>, e: int) -> Seq<char>;

/// The number of arguments of the `e`-th entry point of the parsed
/// `source`.
pub uninterp spec fn wgsl_arg_count(source: Seq<char>, e: int) -> usize;

/// The binding of the `a`-th argument of the `e`-th entry point of the
/// parsed `source`.
pub uninterp spec fn wgsl_arg_binding(source: Seq<char>, e: int, a: int) -> Option<ArgumentBinding>;

/// The index of the type of the `a`-th argument of the `e`-th entry point
/// of the parsed `source` among its types.
pub uninterp spec fn wgsl_arg_type(source: Seq<char>, e: int, a: int) -> usize;

/// Parses `source` with `naga::front::wgsl::parse_str`: `Some` exactly when
/// it returns `Ok`, holding the source and naga's module. Nothing is
/// claimed of the module beyond the names the other wrappers give its
/// parts; out-of-range indices give the fallback values of their bodies.
#[verifier::external_body]
pub(crate) fn parse_wgsl(source: &str) -> (r: Option<ParsedShader>)
    ensures
        r is Some <==> wgsl_parses(source@),
        r matches Some(p) ==> p.source() == source@,
{
    match naga::front::wgsl::parse_str(source) {
        Ok(module) => Some(ParsedShader { source: source.to_string(), module }),
        Err(_) => None,
    }
}

/// `naga::Arena::len` of `Module::global_variables`: the number of global
/// variables.
#[verifier::external_body]
pub(crate) fn global_count(p: &ParsedShader) -> (r: usize)
    ensures
        r == wgsl_global_count(p.source()),
{
    p.module.global_variables.len()
}

/// The `binding` field (`naga::ResourceBinding`, group and slot) of the
/// `i`-th entry of `Module::global_variables`, in arena order.
#[verifier::external_body]
pub(crate) fn global_binding(p: &ParsedShader, i: usize) -> (r: Option<ResourceBinding>)
    ensures
        r == wgsl_global_binding(p.source(), i as int),
{
    let g = p.module.global_variables.iter().nth(i).and_then(|(_, g)| g.binding.as_ref());
    g.map(|b| ResourceBinding { group: b.group, binding: b.binding })
}

/// `naga::Handle::index` of the `ty` field of the `i`-th entry of
/// `Module::global_variables`.
#[verifier::external_body]
pub(crate) fn global_type(p: &ParsedShader, i: usize) -> (r: usize)
    ensures
        r == wgsl_global_type(p.source(), i as int),
{
    p.module.global_variables.iter().nth(i).map(|(_, g)| g.ty.index()).unwrap_or(0)
}

/// The variant of `naga::TypeInner` in the `inner` field of the `t`-th entry
/// of `Module::types` (`naga::UniqueArena::iter` order, which is handle
/// index order).
#[verifier::external_body]
pub(crate) fn type_tag(p: &ParsedShader, t: usize) -> (r: TypeTag)
    ensures
        r == wgsl_type_tag(p.source(), t as int),
{
    match p.module.types.iter().nth(t).map(|(_, ty)| &ty.inner) {
        Some(T::Scalar(_)) => TypeTag::Scalar,
        Some(T::Vector { .. }) => TypeTag::Vector,
        Some(T::Matrix { .. }) => TypeTag::Matrix,
        Some(T::Pointer { .. }) => TypeTag::Pointer,
        Some(T::ValuePointer { .. }) => TypeTag::ValuePointer,
        Some(T::Array { .. }) => TypeTag::Array,
        Some(T::Struct { .. }) => TypeTag::Struct,
        Some(T::Image { .. }) => TypeTag::Image,
        Some(T::Sampler { .. }) => TypeTag::Sampler,
        _ => TypeTag::Other,
    }
}

/// The `naga::Scalar` of the `t`-th type when it is a scalar, vector or
/// matrix: its `kind` as an index in naga's declaration of `ScalarKind`,
/// and its `width`.
#[verifier::external_body]
pub(crate) fn type_scalar(p: &ParsedShader, t: usize) -> (r: (u8, u8))
    ensures
        r == wgsl_type_scalar(p.source(), t as int),
{
    match p.module.types.iter().nth(t).map(|(_, ty)| &ty.inner) {
        Some(T::Scalar(s)) | Some(T::Vector { scalar: s, .. }) | Some(T::Matrix { scalar: s, .. }) => (
            s.kind as u8,
            s.width,
        ),
        _ => (0, 0),
    }
}

/// The `naga::VectorSize` (its value 2 to 4) of the `t`-th type when it is
/// a vector, or its `columns` and `rows` when it is a matrix.
#[verifier::external_body]
pub(crate) fn type_sizes(p: &ParsedShader, t: usize) -> (r: (u8, u8))
    ensures
        r == wgsl_type_sizes(p.source(), t as int),
{
    match p.module.types.iter().nth(t).map(|(_, ty)| &ty.inner) {
        Some(T::Vector { size, .. }) => (*size as u8, 0),
        Some(T::Matrix { columns, rows, .. }) => (*columns as u8, *rows as u8),
        _ => (0, 0),
    }
}

/// The `naga::ArraySize` (a constant's `NonZeroU32::get`) and `stride` of
/// the `t`-th type when it is an array.
#[verifier::external_body]
pub(crate) fn type_array(p: &ParsedShader, t: usize) -> (r: (ArraySize, u32))
    ensures
        r == wgsl_type_array(p.source(), t as int),
{
    match p.module.types.iter().nth(t).map(|(_, ty)| &ty.inner) {
        Some(T::Array { size: naga::ArraySize::Constant(n), stride, .. }) => (ArraySize::Constant(n.get()), *stride),
        Some(T::Array { size: naga::ArraySize::Pending(_), stride, .. }) => (ArraySize::Pending, *stride),
        Some(T::Array { size: naga::ArraySize::Dynamic, stride, .. }) => (ArraySize::Dynamic, *stride),
        _ => (ArraySize::Dynamic, 0),
    }
}

/// The `dim` (an index in naga's declaration of `ImageDimension`), `arrayed`
/// and `class` (`naga::ImageClass`; `StorageFormat` as an index in its
/// declaration, `StorageAccess::bits`) of the `t`-th type when it is an
/// image.
#[verifier::external_body]
pub(crate) fn type_image(p: &ParsedShader, t: usize) -> (r: (u8, bool, ImageClassCode))
    ensures
        r == wgsl_type_image(p.source(), t as int),
{
    let class = |c: &C| match c {
        C::Sampled { kind, multi } => ImageClassCode::Sampled { kind: *kind as u8, multi: *multi },
        C::Depth { multi } => ImageClassCode::Depth { multi: *multi },
        C::External => ImageClassCode::External,
        C::Storage { format, access } => ImageClassCode::Storage { format: *format as u8, access: access.bits() },
    };
    match p.module.types.iter().nth(t).map(|(_, ty)| &ty.inner) {
        Some(T::Image { dim, arrayed, class: c }) => (*dim as u8, *arrayed, class(c)),
        _ => (0, false, ImageClassCode::External),
    }
}

/// The `comparison` field of the `t`-th type when it is a sampler.
#[verifier::external_body]
pub(crate) fn type_sampler(p: &ParsedShader, t: usize) -> (r: bool)
    ensures
        r == wgsl_type_sampler(p.source(), t as int),
{
    match p.module.types.iter().nth(t).map(|(_, ty)| &ty.inner) {
        Some(T::Sampler { comparison }) => *comparison,
        _ => false,
    }
}

/// The length of `Module::entry_points`.
#[verifier::external_body]
pub(crate) fn entry_count(p: &ParsedShader) -> (r: usize)
    ensures
        r == wgsl_entry_count(p.source()),
{
    p.module.entry_points.len()
}

/// A clone of the `name` of the `e`-th entry of `Module::entry_points`.
#[verifier::external_body]
pub(crate) fn entry_name(p: &ParsedShader, e: usize) -> (r: String)
    ensures
        r@ == wgsl_entry_name(p.source(), e as int),
{
    p.module.entry_points.get(e).map(|ep| ep.name.clone()).unwrap_or_default()
}

/// The length of `function.arguments` of the `e`-th entry point.
#[verifier::external_body]
pub(crate) fn arg_count(p: &ParsedShader, e: usize) -> (r: usize)
    ensures
        r == wgsl_arg_count(p.source(), e as int),
{
    p.module.entry_points.get(e).map(|ep| ep.function.arguments.len()).unwrap_or(0)
}

/// The `naga::Binding` of the `a`-th argument of the `e`-th entry point:
/// built-in, or a vertex location.
#[verifier::external_body]
pub(crate) fn arg_binding(p: &ParsedShader, e: usize, a: usize) -> (r: Option<ArgumentBinding>)
    ensures
        r == wgsl_arg_binding(p.source(), e as int, a as int),
{
    let arg = p.module.entry_points.get(e).and_then(|ep| ep.function.arguments.get(a));
    arg.and_then(|arg| arg.binding.as_ref()).map(|b| match b {
        naga::Binding::BuiltIn(_) => ArgumentBinding::BuiltIn,
        naga::Binding::Location { location, .. } => ArgumentBinding::Location { location: *location },
    })
}

/// `naga::Handle::index` of the `ty` of the `a`-th argument of the `e`-th
/// entry point.
#[verifier::external_body]
pub(crate) fn arg_type(p: &ParsedShader, e: usize, a: usize) -> (r: usize)
    ensures
        r == wgsl_arg_type(p.source(), e as int, a as int),
{
    let arg = p.module.entry_points.get(e).and_then(|ep| ep.function.arguments.get(a));
    arg.map(|arg| arg.ty.index()).unwrap_or(0)
}

} // verus!
