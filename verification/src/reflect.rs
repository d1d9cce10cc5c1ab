//! Shader reflection: parse a WGSL source string into a plain description of
//! its resource bindings and entry points, then classify every binding into
//! the closed vocabulary of [`crate::binding`].
//!
//! Parsing itself is done by the `naga` front end behind trusted items; the
//! classification of the parsed data is verified code with an exact contract.

use vstd::prelude::*;

use crate::binding::{BindingKind, ShaderBindingDescriptor, Visibility};

verus! {

/// A shader stage, as recorded for an entry point.
#[derive(Eq, PartialEq, Structural, Debug, Clone, Copy)]
pub enum EntryStage {
    Vertex,
    Fragment,
    Compute,
}

/// The type class a bound global variable was declared with, as far as the
/// classification needs to tell them apart. `Aggregate` is a structured
/// type; its address space decides uniform against storage use.
#[derive(Eq, PartialEq, Structural, Debug, Clone, Copy)]
pub enum RawBindingType {
    Aggregate { uniform_space: bool },
    Image,
    Sampler,
    Array,
    BindingArray,
    Other,
}

/// One global variable carrying explicit group/binding attributes.
#[derive(Eq, PartialEq, Structural, Debug, Clone, Copy)]
pub struct RawBinding {
    pub group: u32,
    pub binding: u32,
    pub ty: RawBindingType,
}

/// One entry point of the parsed module, in declaration order.
#[derive(Debug, Clone)]
pub struct RawEntryPoint {
    pub name: String,
    pub stage: EntryStage,
}

/// Mathematical image of a [`RawEntryPoint`].
#[verifier::ext_equal]
pub struct RawEntryPointView {
    pub name: Seq<char>,
    pub stage: EntryStage,
}

impl View for RawEntryPoint {
    type V = RawEntryPointView;

    open spec fn view(&self) -> RawEntryPointView {
        RawEntryPointView { name: self.name@, stage: self.stage }
    }
}

/// Everything the reflection reads out of a parsed shader module.
#[derive(Debug, Clone)]
pub struct RawModule {
    pub bindings: Vec<RawBinding>,
    pub entry_points: Vec<RawEntryPoint>,
}

/// Mathematical image of a [`RawModule`].
#[verifier::ext_equal]
pub struct RawModuleView {
    pub bindings: Seq<RawBinding>,
    pub entry_points: Seq<RawEntryPointView>,
}

impl View for RawModule {
    type V = RawModuleView;

    open spec fn view(&self) -> RawModuleView {
        RawModuleView {
            bindings: self.bindings@,
            entry_points: Seq::new(self.entry_points@.len(), |i: int| self.entry_points@[i]@),
        }
    }
}

/// What `naga::front::wgsl::parse_str` yields on a given source text, after
/// projection to the plain data above: the bound globals and the entry
/// points on success, the parse error's message on failure. Parsing is a
/// pure function of the source text alone.
pub uninterp spec fn wgsl_reflect_of(source: Seq<char>) -> Result<RawModuleView, Seq<char>>;

#[verifier::external_type_specification]
#[verifier::external_body]
pub struct ExNagaTypeInner(naga::TypeInner);

#[verifier::external_type_specification]
#[verifier::external_body]
pub struct ExNagaAddressSpace(naga::AddressSpace);

#[verifier::external_type_specification]
#[verifier::external_body]
pub struct ExNagaStage(naga::ShaderStage);

/// Relies on `naga::TypeInner`: tells its variants apart, one arm each, and
/// on `naga::AddressSpace`: a structured type in the `Uniform` space is a
/// uniform buffer, in any other space a storage buffer.
#[verifier::external_body]
fn raw_type_of(inner: &naga::TypeInner, space: naga::AddressSpace) -> RawBindingType {
    match inner {
        naga::TypeInner::Struct { .. } => RawBindingType::Aggregate {
            uniform_space: matches!(space, naga::AddressSpace::Uniform),
        },
        naga::TypeInner::Image { .. } => RawBindingType::Image,
        naga::TypeInner::Sampler { .. } => RawBindingType::Sampler,
        naga::TypeInner::Array { .. } => RawBindingType::Array,
        naga::TypeInner::BindingArray { .. } => RawBindingType::BindingArray,
        _ => RawBindingType::Other,
    }
}

/// Relies on `naga::ShaderStage`: tells its three variants apart.
#[verifier::external_body]
fn raw_stage_of(stage: naga::ShaderStage) -> EntryStage {
    match stage {
        naga::ShaderStage::Vertex => EntryStage::Vertex,
        naga::ShaderStage::Fragment => EntryStage::Fragment,
        naga::ShaderStage::Compute => EntryStage::Compute,
    }
}

/// Relies on `naga::front::wgsl::parse_str`: parses the WGSL source and, for
/// every global variable with a resource binding, copies out its group,
/// binding index and type class, together with the module's entry points.
#[verifier::external_body]
fn parse_wgsl(source: &str) -> (r: Result<RawModule, String>)
    ensures
        match r {
            Ok(m) => wgsl_reflect_of(source@) == Ok::<RawModuleView, Seq<char>>(m@),
            Err(e) => wgsl_reflect_of(source@) == Err::<RawModuleView, Seq<char>>(e@),
        },
{
    let m = match naga::front::wgsl::parse_str(source) {
        Ok(m) => m,
        Err(e) => return Err(e.message().to_owned()),
    };
    let bindings = m.global_variables.iter().filter_map(|(_, var)| {
        var.binding.as_ref().map(|rb| RawBinding {
            group: rb.group, binding: rb.binding, ty: raw_type_of(&m.types[var.ty].inner, var.space),
        })
    }).collect();
    let entry_points = m.entry_points.iter().map(|ep| RawEntryPoint {
        name: ep.name.clone(), stage: raw_stage_of(ep.stage),
    }).collect();
    Ok(RawModule { bindings, entry_points })
}

/// Why reflection rejected a shader.
#[derive(Debug, Clone)]
pub enum ReflectError {
    /// The source text did not parse; carries the parser's message.
    ParseError(String),
    /// A bound global has a type outside the supported vocabulary; carries
    /// the name of the offending type class.
    UnsupportedBindingType(String),
    /// No entry point of the named stage was declared.
    MissingEntryPoint(EntryStage),
}

/// Mathematical image of a [`ReflectError`].
pub enum ReflectErrorView {
    ParseError(Seq<char>),
    UnsupportedBindingType(Seq<char>),
    MissingEntryPoint(EntryStage),
}

impl View for ReflectError {
    type V = ReflectErrorView;

    open spec fn view(&self) -> ReflectErrorView {
        match self {
            ReflectError::ParseError(m) => ReflectErrorView::ParseError(m@),
            ReflectError::UnsupportedBindingType(n) => ReflectErrorView::UnsupportedBindingType(n@),
            ReflectError::MissingEntryPoint(s) => ReflectErrorView::MissingEntryPoint(*s),
        }
    }
}

/// The reflected description of one shader module: its classified bindings,
/// the ordered list of entry points, and the names of the entry points used
/// for the vertex and fragment stages.
#[derive(Debug, Clone)]
pub struct ShaderModuleInfo {
    pub bindings: Vec<ShaderBindingDescriptor>,
    pub entry_points: Vec<RawEntryPoint>,
    pub vertex_entry: String,
    pub fragment_entry: String,
}

/// Mathematical image of a [`ShaderModuleInfo`].
#[verifier::ext_equal]
pub struct ShaderModuleInfoView {
    pub bindings: Seq<ShaderBindingDescriptor>,
    pub entry_points: Seq<RawEntryPointView>,
    pub vertex_entry: Seq<char>,
    pub fragment_entry: Seq<char>,
}

impl View for ShaderModuleInfo {
    type V = ShaderModuleInfoView;

    open spec fn view(&self) -> ShaderModuleInfoView {
        ShaderModuleInfoView {
            bindings: self.bindings@,
            entry_points: Seq::new(self.entry_points@.len(), |i: int| self.entry_points@[i]@),
            vertex_entry: self.vertex_entry@,
            fragment_entry: self.fragment_entry@,
        }
    }
}

/// How one declared type class is classified: a structured type is a buffer
/// (uniform or storage by address space), an image a filterable 2D texture,
/// and everything else is unsupported, named for the error report.
pub open spec fn classify_type_spec(t: RawBindingType) -> Result<BindingKind, Seq<char>> {
    match t {
        RawBindingType::Aggregate { uniform_space } => Ok(
            if uniform_space {
                BindingKind::UniformBuffer
            } else {
                BindingKind::StorageBuffer { read_only: true }
            },
        ),
        RawBindingType::Image => Ok(BindingKind::Texture2D),
        RawBindingType::Sampler => Err("sampler"@),
        RawBindingType::Array => Err("array"@),
        RawBindingType::BindingArray => Err("binding array"@),
        RawBindingType::Other => Err("unsupported"@),
    }
}

/// Classifies one declared type class; see [`classify_type_spec`].
pub fn classify_type(t: &RawBindingType) -> (r: Result<BindingKind, String>)
    ensures
        match r {
            Ok(k) => classify_type_spec(*t) == Ok::<BindingKind, Seq<char>>(k),
            Err(e) => classify_type_spec(*t) == Err::<BindingKind, Seq<char>>(e@),
        },
{
    match t {
        RawBindingType::Aggregate { uniform_space } => Ok(
            if *uniform_space {
                BindingKind::UniformBuffer
            } else {
                BindingKind::StorageBuffer { read_only: true }
            },
        ),
        RawBindingType::Image => Ok(BindingKind::Texture2D),
        RawBindingType::Sampler => Err("sampler".to_owned()),
        RawBindingType::Array => Err("array".to_owned()),
        RawBindingType::BindingArray => Err("binding array".to_owned()),
        RawBindingType::Other => Err("unsupported".to_owned()),
    }
}

/// The descriptor one raw binding classifies to, when its type is supported.
/// Every binding is visible to both the vertex and the fragment stage.
pub open spec fn descriptor_of(b: RawBinding, kind: BindingKind) -> ShaderBindingDescriptor {
    ShaderBindingDescriptor { group: b.group, binding: b.binding, kind, visibility: Visibility::Both }
}

/// Classification of a whole binding list: the descriptors in declaration
/// order, or the type-class name of the first unsupported binding.
pub open spec fn classify_bindings_spec(bs: Seq<RawBinding>) -> Result<
    Seq<ShaderBindingDescriptor>,
    Seq<char>,
>
    decreases bs.len(),
{
    if bs.len() == 0 {
        Ok(Seq::empty())
    } else {
        match classify_type_spec(bs[0].ty) {
            Err(name) => Err(name),
            Ok(kind) => match classify_bindings_spec(bs.drop_first()) {
                Err(name) => Err(name),
                Ok(rest) => Ok(seq![descriptor_of(bs[0], kind)] + rest),
            },
        }
    }
}

/// The name of the first entry point with the given stage, if any. Entry
/// points are selected by their stage, not by their position in the module.
pub open spec fn first_entry_spec(eps: Seq<RawEntryPointView>, stage: EntryStage) -> Option<
    Seq<char>,
>
    decreases eps.len(),
{
    if eps.len() == 0 {
        None
    } else if eps[0].stage == stage {
        Some(eps[0].name)
    } else {
        first_entry_spec(eps.drop_first(), stage)
    }
}

/// Classification of a whole parsed module: all bindings classified in
/// order, and a vertex and a fragment entry point found, checked in that
/// order.
///
/// The two entries are picked by stage — the first vertex-stage and the
/// first fragment-stage entry point — deliberately not positionally as the
/// module's first and second entry points: a module that declares its
/// fragment entry before its vertex entry still compiles the right function
/// into each stage, and a module lacking a stage is rejected as
/// `MissingEntryPoint` for exactly that stage.
pub open spec fn classify_module_spec(m: RawModuleView) -> Result<
    ShaderModuleInfoView,
    ReflectErrorView,
> {
    match classify_bindings_spec(m.bindings) {
        Err(name) => Err(ReflectErrorView::UnsupportedBindingType(name)),
        Ok(descs) => match first_entry_spec(m.entry_points, EntryStage::Vertex) {
            None => Err(ReflectErrorView::MissingEntryPoint(EntryStage::Vertex)),
            Some(v) => match first_entry_spec(m.entry_points, EntryStage::Fragment) {
                None => Err(ReflectErrorView::MissingEntryPoint(EntryStage::Fragment)),
                Some(f) => Ok(
                    ShaderModuleInfoView {
                        bindings: descs,
                        entry_points: m.entry_points,
                        vertex_entry: v,
                        fragment_entry: f,
                    },
                ),
            },
        },
    }
}

/// Classifies every binding of the list; see [`classify_bindings_spec`].
pub fn classify_bindings(bs: &Vec<RawBinding>) -> (r: Result<Vec<ShaderBindingDescriptor>, String>)
    ensures
        match r {
            Ok(ds) => classify_bindings_spec(bs@) == Ok::<Seq<ShaderBindingDescriptor>, Seq<char>>(
                ds@,
            ),
            Err(e) => classify_bindings_spec(bs@) == Err::<Seq<ShaderBindingDescriptor>, Seq<char>>(
                e@,
            ),
        },
{
    let mut out: Vec<ShaderBindingDescriptor> = Vec::new();
    let mut i: usize = 0;
    proof {
        assert(bs@.skip(0) =~= bs@);
        if classify_bindings_spec(bs@) is Ok {
            let rest = classify_bindings_spec(bs@)->Ok_0;
            assert(out@ + rest =~= rest);
        }
    }
    while i < bs.len()
        invariant
            0 <= i <= bs@.len(),
            classify_bindings_spec(bs@) == (match classify_bindings_spec(bs@.skip(i as int)) {
                Ok(rest) => Ok::<Seq<ShaderBindingDescriptor>, Seq<char>>(out@ + rest),
                Err(name) => Err::<Seq<ShaderBindingDescriptor>, Seq<char>>(name),
            }),
        decreases bs@.len() - i,
    {
        proof {
            assert(bs@.skip(i as int)[0] == bs@[i as int]);
            assert(bs@.skip(i as int).drop_first() =~= bs@.skip(i as int + 1));
        }
        match classify_type(&bs[i].ty) {
            Err(name) => {
                return Err(name);
            },
            Ok(kind) => {
                let desc = ShaderBindingDescriptor {
                    group: bs[i].group,
                    binding: bs[i].binding,
                    kind,
                    visibility: Visibility::Both,
                };
                let ghost prev_out = out@;
                out.push(desc);
                proof {
                    let post = bs@.skip(i as int + 1);
                    if classify_bindings_spec(post) is Ok {
                        let r2 = classify_bindings_spec(post)->Ok_0;
                        assert(prev_out + (seq![desc] + r2) =~= out@ + r2);
                    }
                }
            },
        }
        i = i + 1;
    }
    proof {
        assert(bs@.skip(i as int) =~= Seq::<RawBinding>::empty());
        assert(out@ + Seq::<ShaderBindingDescriptor>::empty() =~= out@);
    }
    Ok(out)
}

/// Finds the first entry point with the given stage; see [`first_entry_spec`].
pub fn find_entry(eps: &Vec<RawEntryPoint>, stage: EntryStage) -> (r: Option<String>)
    ensures
        match r {
            Some(name) => first_entry_spec(
                Seq::new(eps@.len(), |i: int| eps@[i]@),
                stage,
            ) == Some(name@),
            None => first_entry_spec(Seq::new(eps@.len(), |i: int| eps@[i]@), stage) is None,
        },
{
    let ghost view = Seq::new(eps@.len(), |i: int| eps@[i]@);
    let mut i: usize = 0;
    proof {
        assert(view.skip(0) =~= view);
    }
    while i < eps.len()
        invariant
            0 <= i <= eps@.len(),
            view == Seq::new(eps@.len(), |j: int| eps@[j]@),
            first_entry_spec(view, stage) == first_entry_spec(view.skip(i as int), stage),
        decreases eps@.len() - i,
    {
        proof {
            assert(view.skip(i as int)[0] == view[i as int]);
            assert(view.skip(i as int).drop_first() =~= view.skip(i as int + 1));
        }
        if eps[i].stage == stage {
            return Some(eps[i].name.clone());
        }
        i = i + 1;
    }
    proof {
        assert(view.skip(i as int) =~= Seq::<RawEntryPointView>::empty());
    }
    None
}

/// Classifies a parsed module; see [`classify_module_spec`] for the exact
/// result on every input.
pub fn classify_module(m: &RawModule) -> (r: Result<ShaderModuleInfo, ReflectError>)
    ensures
        match r {
            Ok(info) => classify_module_spec(m@) == Ok::<ShaderModuleInfoView, ReflectErrorView>(
                info@,
            ),
            Err(e) => classify_module_spec(m@) == Err::<ShaderModuleInfoView, ReflectErrorView>(e@),
        },
{
    let bindings = match classify_bindings(&m.bindings) {
        Err(name) => {
            return Err(ReflectError::UnsupportedBindingType(name));
        },
        Ok(ds) => ds,
    };
    let vertex_entry = match find_entry(&m.entry_points, EntryStage::Vertex) {
        None => {
            return Err(ReflectError::MissingEntryPoint(EntryStage::Vertex));
        },
        Some(name) => name,
    };
    let fragment_entry = match find_entry(&m.entry_points, EntryStage::Fragment) {
        None => {
            return Err(ReflectError::MissingEntryPoint(EntryStage::Fragment));
        },
        Some(name) => name,
    };
    let info = ShaderModuleInfo {
        bindings,
        entry_points: clone_entry_points(&m.entry_points),
        vertex_entry,
        fragment_entry,
    };
    proof {
        let spec_info = classify_module_spec(m@)->Ok_0;
        assert(info@.entry_points =~= spec_info.entry_points);
        assert(info@ =~= spec_info);
    }
    Ok(info)
}

/// A deep copy of an entry-point list that provably keeps its view.
fn clone_entry_points(eps: &Vec<RawEntryPoint>) -> (r: Vec<RawEntryPoint>)
    ensures
        r@.len() == eps@.len(),
        forall|i: int| 0 <= i < eps@.len() ==> r@[i]@ == eps@[i]@,
{
    let mut out: Vec<RawEntryPoint> = Vec::new();
    let mut i: usize = 0;
    while i < eps.len()
        invariant
            0 <= i <= eps@.len(),
            out@.len() == i,
            forall|j: int| 0 <= j < i ==> out@[j]@ == eps@[j]@,
        decreases eps@.len() - i,
    {
        let ep = RawEntryPoint { name: eps[i].name.clone(), stage: eps[i].stage };
        out.push(ep);
        i = i + 1;
    }
    out
}

/// What reflection as a whole yields on a source text: the parse result,
/// classified.
pub open spec fn reflect_spec(source: Seq<char>) -> Result<ShaderModuleInfoView, ReflectErrorView> {
    match wgsl_reflect_of(source) {
        Err(message) => Err(ReflectErrorView::ParseError(message)),
        Ok(raw) => classify_module_spec(raw),
    }
}

/// Reflects a shader source text into its module description: a pure parse,
/// no side effects. Fails with `ParseError` exactly on sources the parser
/// rejects, `UnsupportedBindingType` on the first binding whose type class
/// is outside the supported vocabulary, and `MissingEntryPoint` when no
/// vertex or no fragment entry point is declared.
pub fn reflect(source: &str) -> (r: Result<ShaderModuleInfo, ReflectError>)
    ensures
        match r {
            Ok(info) => reflect_spec(source@) == Ok::<ShaderModuleInfoView, ReflectErrorView>(
                info@,
            ),
            Err(e) => reflect_spec(source@) == Err::<ShaderModuleInfoView, ReflectErrorView>(e@),
        },
{
    match parse_wgsl(source) {
        Err(message) => Err(ReflectError::ParseError(message)),
        Ok(raw) => classify_module(&raw),
    }
}

} // verus!
