//! Pipeline construction and the per-pipeline bind-group cache.
//!
//! A builder collects shader source, vertex-buffer layouts, color targets
//! and rasterization state; `build` reflects the shader, synthesizes the
//! bind-group layouts and checks that their group indices are dense, and
//! yields a pipeline handle with one empty cache slot per group. Binding
//! resolves logical resource references through the buffer registry and
//! caches the resulting bind-group record, creating it at most once per
//! (pipeline, group) pair.

use vstd::prelude::*;

use crate::binding::{resource_views, BindingResource, BindingResourceType, BindingResourceView};
use crate::layout::{
    dense_group_ordering, group_present, layouts_wf, pairwise_unique, synthesize, synthesize_spec,
    views_of, BindGroupLayout, BindGroupLayoutView, SynthesisError,
};
use crate::reflect::{reflect, reflect_spec, ReflectError, ReflectErrorView, ShaderModuleInfo};
use crate::registry::BufferRegistry;

verus! {

/// Which triangle faces are culled.
#[derive(Eq, PartialEq, Structural, Debug, Clone, Copy)]
pub enum Face {
    Front,
    Back,
}

/// The depth comparison function.
#[derive(Eq, PartialEq, Structural, Debug, Clone, Copy)]
pub enum CompareFunction {
    Never,
    Less,
    Equal,
    LessEqual,
    Greater,
    NotEqual,
    GreaterEqual,
    Always,
}

/// Whether a vertex buffer advances per vertex or per instance.
#[derive(Eq, PartialEq, Structural, Debug, Clone, Copy)]
pub enum VertexStepMode {
    Vertex,
    Instance,
}

/// The data format of one vertex attribute.
#[derive(Eq, PartialEq, Structural, Debug, Clone, Copy)]
pub enum VertexFormat {
    Float32,
    Float32x2,
    Float32x3,
    Float32x4,
    Uint32,
    Uint32x2,
    Uint32x4,
    Sint32,
}

/// The pixel format of a color target.
#[derive(Eq, PartialEq, Structural, Debug, Clone, Copy)]
pub enum TextureFormat {
    Rgba8Unorm,
    Rgba8UnormSrgb,
    Bgra8Unorm,
    Bgra8UnormSrgb,
    Rgba16Float,
    Depth32Float,
}

/// One vertex attribute: format, byte offset, shader location.
#[derive(Eq, PartialEq, Structural, Debug, Clone, Copy)]
pub struct VertexAttribute {
    pub format: VertexFormat,
    pub offset: u64,
    pub shader_location: u32,
}

/// One vertex buffer's layout: stride, step mode, attributes.
#[derive(Debug, Clone)]
pub struct VertexBufferLayout {
    pub array_stride: u64,
    pub step_mode: VertexStepMode,
    pub attributes: Vec<VertexAttribute>,
}

/// Mathematical image of a [`VertexBufferLayout`].
#[verifier::ext_equal]
pub struct VertexBufferLayoutView {
    pub array_stride: u64,
    pub step_mode: VertexStepMode,
    pub attributes: Seq<VertexAttribute>,
}

impl View for VertexBufferLayout {
    type V = VertexBufferLayoutView;

    open spec fn view(&self) -> VertexBufferLayoutView {
        VertexBufferLayoutView {
            array_stride: self.array_stride,
            step_mode: self.step_mode,
            attributes: self.attributes@,
        }
    }
}

impl VertexBufferLayout {
    /// An empty layout: zero stride, per-vertex stepping, no attributes.
    pub fn new() -> (r: VertexBufferLayout)
        ensures
            r.array_stride == 0,
            r.step_mode == VertexStepMode::Vertex,
            r.attributes@ == Seq::<VertexAttribute>::empty(),
    {
        VertexBufferLayout {
            array_stride: 0,
            step_mode: VertexStepMode::Vertex,
            attributes: Vec::new(),
        }
    }

    /// Sets the byte stride between consecutive elements.
    pub fn new_array_stride(&mut self, array_stride: u64)
        ensures
            *final(self) == (VertexBufferLayout { array_stride, ..*old(self) }),
    {
        self.array_stride = array_stride;
    }

    /// Sets the step mode.
    pub fn new_step_mode(&mut self, step_mode: VertexStepMode)
        ensures
            *final(self) == (VertexBufferLayout { step_mode, ..*old(self) }),
    {
        self.step_mode = step_mode;
    }

    /// Appends one attribute.
    pub fn new_attribute(&mut self, attribute: VertexAttribute)
        ensures
            final(self).array_stride == old(self).array_stride,
            final(self).step_mode == old(self).step_mode,
            final(self).attributes@ == old(self).attributes@.push(attribute),
    {
        self.attributes.push(attribute);
    }
}

/// The configuration a pipeline is created from.
#[derive(Debug, Clone)]
pub struct RenderPipelineSettings {
    pub shader: String,
    pub cull_mode: Option<Face>,
    pub depth_testing: bool,
    pub depth_write_enabled: bool,
    pub depth_compare: CompareFunction,
}

impl Default for RenderPipelineSettings {
    fn default() -> (r: Self)
        ensures
            r.shader@ == Seq::<char>::empty(),
            r.cull_mode == Some(Face::Back),
            r.depth_testing == false,
            r.depth_write_enabled == true,
            r.depth_compare == CompareFunction::LessEqual,
    {
        RenderPipelineSettings {
            shader: String::new(),
            cull_mode: Some(Face::Back),
            depth_testing: false,
            depth_write_enabled: true,
            depth_compare: CompareFunction::LessEqual,
        }
    }
}

/// Why pipeline construction failed.
#[derive(Debug, Clone)]
pub enum PipelineError {
    /// Reflection of the shader source failed.
    Reflect(ReflectError),
    /// Layout synthesis rejected the reflected bindings, or their group
    /// indices are not dense.
    Synthesis(SynthesisError),
    /// The platform could not compile the pipeline; carries its message.
    /// Construction here never yields this: the embedding that owns the
    /// device surfaces it.
    CompileError(String),
}

/// Mathematical image of a [`PipelineError`].
pub enum PipelineErrorView {
    Reflect(ReflectErrorView),
    Synthesis(SynthesisError),
    CompileError(Seq<char>),
}

impl View for PipelineError {
    type V = PipelineErrorView;

    open spec fn view(&self) -> PipelineErrorView {
        match self {
            PipelineError::Reflect(e) => PipelineErrorView::Reflect(e@),
            PipelineError::Synthesis(e) => PipelineErrorView::Synthesis(*e),
            PipelineError::CompileError(m) => PipelineErrorView::CompileError(m@),
        }
    }
}

/// Why binding resources to a group failed.
#[derive(Debug, Clone)]
pub enum BindError {
    /// A logical reference named a buffer the registry does not hold.
    BufferNotFound(String),
    /// The pipeline discovered no group of this index.
    UnknownGroup(u32),
    /// Only buffer references can be resolved through the registry.
    UnsupportedResourceType(BindingResourceType),
    /// No pipeline of this id is registered.
    PipelineNotFound(String),
}

/// Mathematical image of a [`BindError`].
pub enum BindErrorView {
    BufferNotFound(Seq<char>),
    UnknownGroup(u32),
    UnsupportedResourceType(BindingResourceType),
    PipelineNotFound(Seq<char>),
}

impl View for BindError {
    type V = BindErrorView;

    open spec fn view(&self) -> BindErrorView {
        match self {
            BindError::BufferNotFound(id) => BindErrorView::BufferNotFound(id@),
            BindError::UnknownGroup(g) => BindErrorView::UnknownGroup(*g),
            BindError::UnsupportedResourceType(t) => BindErrorView::UnsupportedResourceType(*t),
            BindError::PipelineNotFound(id) => BindErrorView::PipelineNotFound(id@),
        }
    }
}

/// One resolved entry of a bind group: entry `binding` was resolved to this
/// byte range of the named buffer.
#[derive(Debug, Clone)]
pub struct ResolvedBinding {
    pub binding: u32,
    pub buffer_id: String,
    pub offset: u64,
    pub size: u64,
    pub entire_binding: bool,
}

/// Mathematical image of a [`ResolvedBinding`].
#[verifier::ext_equal]
pub struct ResolvedBindingView {
    pub binding: u32,
    pub buffer_id: Seq<char>,
    pub offset: u64,
    pub size: u64,
    pub entire_binding: bool,
}

impl View for ResolvedBinding {
    type V = ResolvedBindingView;

    open spec fn view(&self) -> ResolvedBindingView {
        ResolvedBindingView {
            binding: self.binding,
            buffer_id: self.buffer_id@,
            offset: self.offset,
            size: self.size,
            entire_binding: self.entire_binding,
        }
    }
}

/// One cached bind group: the resolved entries of one group, with the
/// creation stamp that orders it among the pipeline's creations.
#[derive(Debug, Clone)]
pub struct BindGroupRecord {
    pub group_index: u32,
    pub entries: Vec<ResolvedBinding>,
    pub stamp: u64,
}

/// Mathematical image of a [`BindGroupRecord`].
#[verifier::ext_equal]
pub struct BindGroupRecordView {
    pub group_index: u32,
    pub entries: Seq<ResolvedBindingView>,
    pub stamp: u64,
}

impl View for BindGroupRecord {
    type V = BindGroupRecordView;

    open spec fn view(&self) -> BindGroupRecordView {
        BindGroupRecordView {
            group_index: self.group_index,
            entries: Seq::new(self.entries@.len(), |i: int| self.entries@[i]@),
            stamp: self.stamp,
        }
    }
}

/// The images of a whole record list.
pub open spec fn record_views(rs: Seq<BindGroupRecord>) -> Seq<BindGroupRecordView> {
    Seq::new(rs.len(), |i: int| rs[i]@)
}

/// Some record of the list carries this group index.
pub open spec fn cache_has(cache: Seq<BindGroupRecordView>, g: u32) -> bool {
    exists|j: int| 0 <= j < cache.len() && (#[trigger] cache[j]).group_index == g
}

/// The record of the list carrying this group index, where one exists.
pub open spec fn cache_at(cache: Seq<BindGroupRecordView>, g: u32) -> BindGroupRecordView {
    cache[choose|j: int| 0 <= j < cache.len() && (#[trigger] cache[j]).group_index == g]
}

/// A compiled pipeline's bookkeeping: the reflected module description, the
/// synthesized layouts in dense group order, and the bind-group cache. The
/// opaque platform pipeline object itself is owned by the embedding, keyed
/// by `id`.
#[derive(Debug, Clone)]
pub struct RenderPipeline {
    pub id: String,
    pub shader_source: String,
    pub info: ShaderModuleInfo,
    pub group_layouts: Vec<BindGroupLayout>,
    pub bind_groups: Vec<BindGroupRecord>,
    pub next_stamp: u64,
    pub vertex_buffers: Vec<VertexBufferLayout>,
    pub targets: Vec<TextureFormat>,
    pub cull_mode: Option<Face>,
    pub depth_testing: bool,
    pub depth_write_enabled: bool,
    pub depth_compare: CompareFunction,
}

impl RenderPipeline {
    /// The images of the synthesized layouts.
    pub open spec fn layout_views(&self) -> Seq<BindGroupLayoutView> {
        views_of(self.group_layouts@)
    }

    /// The images of the cached bind-group records.
    pub open spec fn cache_views(&self) -> Seq<BindGroupRecordView> {
        record_views(self.bind_groups@)
    }

    /// Whether a bind group is cached for this group index.
    pub open spec fn cached(&self, g: u32) -> bool {
        cache_has(self.cache_views(), g)
    }

    /// The cached record of this group index, where one exists.
    pub open spec fn cached_at(&self, g: u32) -> BindGroupRecordView {
        cache_at(self.cache_views(), g)
    }

    /// Well-formed: the layouts are well-formed and dense, at most one
    /// record per group is cached, every cached group was discovered, and
    /// every cached stamp was drawn before the next one.
    pub open spec fn wf(&self) -> bool {
        &&& layouts_wf(self.layout_views())
        &&& forall|j: int|
            0 <= j < self.layout_views().len() ==> (#[trigger] self.layout_views()[j]).group_index
                == j
        &&& forall|a: int, b: int|
            0 <= a < b < self.cache_views().len() ==> self.cache_views()[a].group_index
                != self.cache_views()[b].group_index
        &&& forall|a: int|
            0 <= a < self.cache_views().len() ==> group_present(
                self.layout_views(),
                (#[trigger] self.cache_views()[a]).group_index,
            )
        &&& forall|a: int|
            0 <= a < self.cache_views().len() ==> (#[trigger] self.cache_views()[a]).stamp
                < self.next_stamp
    }

    /// Drawable exactly when as many groups are cached as were discovered.
    pub open spec fn spec_is_drawable(&self) -> bool {
        self.layout_views().len() == self.cache_views().len()
    }

    /// The pipeline's identifier.
    pub fn get_id(&self) -> (r: &str)
        ensures
            r@ == self.id@,
    {
        self.id.as_str()
    }

    /// A fresh builder with nothing configured.
    pub fn new() -> (r: RenderPipelineBuilder)
        ensures
            r.shader_source@ == Seq::<char>::empty(),
            r.vertex_buffers@ == Seq::<VertexBufferLayout>::empty(),
            r.targets@ == Seq::<TextureFormat>::empty(),
            r.cull_mode is None,
            r.depth_testing == false,
            r.depth_write_enabled == true,
            r.depth_compare == CompareFunction::LessEqual,
    {
        RenderPipelineBuilder {
            shader_source: String::new(),
            vertex_buffers: Vec::new(),
            targets: Vec::new(),
            cull_mode: None,
            depth_testing: false,
            depth_write_enabled: true,
            depth_compare: CompareFunction::LessEqual,
        }
    }
}

/// Collects everything a pipeline is built from.
#[derive(Debug, Clone)]
pub struct RenderPipelineBuilder {
    pub shader_source: String,
    pub vertex_buffers: Vec<VertexBufferLayout>,
    pub targets: Vec<TextureFormat>,
    pub cull_mode: Option<Face>,
    pub depth_testing: bool,
    pub depth_write_enabled: bool,
    pub depth_compare: CompareFunction,
}

impl RenderPipelineBuilder {
    /// Sets the shader source text.
    pub fn new_shader(&mut self, source: &str)
        ensures
            final(self).shader_source@ == source@,
            final(self).vertex_buffers == old(self).vertex_buffers,
            final(self).targets == old(self).targets,
            final(self).cull_mode == old(self).cull_mode,
            final(self).depth_testing == old(self).depth_testing,
            final(self).depth_write_enabled == old(self).depth_write_enabled,
            final(self).depth_compare == old(self).depth_compare,
    {
        self.shader_source = source.to_owned();
    }

    /// Appends one vertex buffer layout.
    pub fn new_vertex_buffer(&mut self, buffer: VertexBufferLayout)
        ensures
            final(self).vertex_buffers@ == old(self).vertex_buffers@.push(buffer),
            final(self).shader_source == old(self).shader_source,
            final(self).targets == old(self).targets,
            final(self).cull_mode == old(self).cull_mode,
            final(self).depth_testing == old(self).depth_testing,
            final(self).depth_write_enabled == old(self).depth_write_enabled,
            final(self).depth_compare == old(self).depth_compare,
    {
        self.vertex_buffers.push(buffer);
    }

    /// Sets the cull mode.
    pub fn new_cull_mode(&mut self, cull_mode: Face)
        ensures
            *final(self) == (RenderPipelineBuilder { cull_mode: Some(cull_mode), ..*old(self) }),
    {
        self.cull_mode = Some(cull_mode);
    }

    /// Appends one color target format.
    pub fn new_target(&mut self, target: TextureFormat)
        ensures
            final(self).targets@ == old(self).targets@.push(target),
            final(self).shader_source == old(self).shader_source,
            final(self).vertex_buffers == old(self).vertex_buffers,
            final(self).cull_mode == old(self).cull_mode,
            final(self).depth_testing == old(self).depth_testing,
            final(self).depth_write_enabled == old(self).depth_write_enabled,
            final(self).depth_compare == old(self).depth_compare,
    {
        self.targets.push(target);
    }

    /// Sets the depth test configuration.
    pub fn new_depth_state(
        &mut self,
        depth_testing: bool,
        depth_write_enabled: bool,
        depth_compare: CompareFunction,
    )
        ensures
            *final(self) == (RenderPipelineBuilder {
                depth_testing,
                depth_write_enabled,
                depth_compare,
                ..*old(self)
            }),
    {
        self.depth_testing = depth_testing;
        self.depth_write_enabled = depth_write_enabled;
        self.depth_compare = depth_compare;
    }

    /// Takes shader source and rasterization state from a settings value.
    pub fn new_settings(&mut self, settings: &RenderPipelineSettings)
        ensures
            final(self).shader_source@ == settings.shader@,
            final(self).cull_mode == settings.cull_mode,
            final(self).depth_testing == settings.depth_testing,
            final(self).depth_write_enabled == settings.depth_write_enabled,
            final(self).depth_compare == settings.depth_compare,
            final(self).vertex_buffers == old(self).vertex_buffers,
            final(self).targets == old(self).targets,
    {
        self.shader_source = settings.shader.clone();
        self.cull_mode = settings.cull_mode;
        self.depth_testing = settings.depth_testing;
        self.depth_write_enabled = settings.depth_write_enabled;
        self.depth_compare = settings.depth_compare;
    }

    /// Builds the pipeline bookkeeping: reflects the shader, synthesizes one
    /// layout per group, and checks that the group indices are dense.
    ///
    /// Succeeds exactly when the source reflects, no two bindings share a
    /// (group, binding) pair, and the group indices are exactly 0 up to the
    /// group count; the handle then starts with an empty bind-group cache.
    /// Every reflection error, one duplicate pair, or the first missing
    /// group index is reported; `CompileError` is never produced here.
    pub fn build(self, id: &str) -> (r: Result<RenderPipeline, PipelineError>)
        ensures
            match r {
                Ok(p) => {
                    &&& reflect_spec(self.shader_source@) matches Ok(info) && p.info@ == info
                        && pairwise_unique(info.bindings) && p.layout_views() == synthesize_spec(
                        info.bindings,
                    )
                    &&& p.wf()
                    &&& p.cache_views() == Seq::<BindGroupRecordView>::empty()
                    &&& !p.spec_is_drawable() || p.layout_views().len() == 0
                    &&& p.next_stamp == 0
                    &&& p.id@ == id@
                    &&& p.shader_source == self.shader_source
                    &&& p.vertex_buffers == self.vertex_buffers
                    &&& p.targets == self.targets
                    &&& p.cull_mode == self.cull_mode
                    &&& p.depth_testing == self.depth_testing
                    &&& p.depth_write_enabled == self.depth_write_enabled
                    &&& p.depth_compare == self.depth_compare
                },
                Err(e) => match e@ {
                    PipelineErrorView::Reflect(re) => reflect_spec(self.shader_source@) == Err::<
                        crate::reflect::ShaderModuleInfoView,
                        ReflectErrorView,
                    >(re),
                    PipelineErrorView::Synthesis(se) => {
                        &&& reflect_spec(self.shader_source@) matches Ok(info)
                        &&& match se {
                            SynthesisError::DuplicateBindingIndex { group, binding } => {
                                &&& !pairwise_unique(info.bindings)
                                &&& exists|i: int, j: int|
                                    0 <= i < j < info.bindings.len() && #[trigger] crate::layout::same_slot(
                                        info.bindings[i],
                                        info.bindings[j],
                                    ) && info.bindings[i].group == group
                                        && info.bindings[i].binding == binding
                            },
                            SynthesisError::DiscontiguousGroupIndex(g) => {
                                &&& pairwise_unique(info.bindings)
                                &&& {
                                    let ls = synthesize_spec(info.bindings);
                                    &&& g < ls.len()
                                    &&& ls[g as int].group_index != g
                                    &&& forall|j: int|
                                        0 <= j < g ==> (#[trigger] ls[j]).group_index == j
                                }
                            },
                        }
                    },
                    PipelineErrorView::CompileError(_) => false,
                },
            },
    {
        let info = match reflect(self.shader_source.as_str()) {
            Err(e) => {
                return Err(PipelineError::Reflect(e));
            },
            Ok(info) => info,
        };
        let group_layouts = match synthesize(&info.bindings) {
            Err(e) => {
                return Err(PipelineError::Synthesis(e));
            },
            Ok(ls) => ls,
        };
        match dense_group_ordering(&group_layouts) {
            Err(e) => {
                return Err(PipelineError::Synthesis(e));
            },
            Ok(()) => {},
        }
        let p = RenderPipeline {
            id: id.to_owned(),
            shader_source: self.shader_source,
            info,
            group_layouts,
            bind_groups: Vec::new(),
            next_stamp: 0,
            vertex_buffers: self.vertex_buffers,
            targets: self.targets,
            cull_mode: self.cull_mode,
            depth_testing: self.depth_testing,
            depth_write_enabled: self.depth_write_enabled,
            depth_compare: self.depth_compare,
        };
        proof {
            assert(p.cache_views() =~= Seq::<BindGroupRecordView>::empty());
        }
        Ok(p)
    }
}

/// How one logical reference resolves against the registry, as entry
/// `position` of its group: only buffer references resolve; a whole-buffer
/// binding takes offset zero and the buffer's full size.
pub open spec fn resolve_one(reg: &BufferRegistry, r: BindingResourceView, position: int) -> Result<
    ResolvedBindingView,
    BindErrorView,
> {
    if r.resource_type != BindingResourceType::Buffer {
        Err(BindErrorView::UnsupportedResourceType(r.resource_type))
    } else if !reg.has_buffer(r.id) {
        Err(BindErrorView::BufferNotFound(r.id))
    } else {
        Ok(
            ResolvedBindingView {
                binding: position as u32,
                buffer_id: r.id,
                offset: if r.entire_binding {
                    0
                } else {
                    r.offset
                },
                size: if r.entire_binding {
                    reg.buffer_at(r.id).contents.len() as u64
                } else {
                    r.size
                },
                entire_binding: r.entire_binding,
            },
        )
    }
}

/// How a whole reference list resolves, positionally: entry `i` of the list
/// becomes binding index `position + i`, and the first failure is reported.
pub open spec fn resolve_all(
    reg: &BufferRegistry,
    rs: Seq<BindingResourceView>,
    position: int,
) -> Result<Seq<ResolvedBindingView>, BindErrorView>
    decreases rs.len(),
{
    if rs.len() == 0 {
        Ok(Seq::empty())
    } else {
        match resolve_one(reg, rs[0], position) {
            Err(e) => Err(e),
            Ok(x) => match resolve_all(reg, rs.drop_first(), position + 1) {
                Err(e) => Err(e),
                Ok(rest) => Ok(seq![x] + rest),
            },
        }
    }
}

/// The images of a whole resolved-entry list.
pub open spec fn resolved_views(es: Seq<ResolvedBinding>) -> Seq<ResolvedBindingView> {
    Seq::new(es.len(), |i: int| es[i]@)
}

/// What one `bind` call does to the cache: an undiscovered group or a failed
/// resolution changes nothing; an already cached group is an exact no-op;
/// otherwise the resolved record is cached under the next creation stamp.
pub open spec fn bind_step(
    layouts: Seq<BindGroupLayoutView>,
    cache: Seq<BindGroupRecordView>,
    next_stamp: u64,
    reg: &BufferRegistry,
    group_index: u32,
    rs: Seq<BindingResourceView>,
) -> (Seq<BindGroupRecordView>, u64, Result<(), BindErrorView>) {
    if !group_present(layouts, group_index) {
        (cache, next_stamp, Err(BindErrorView::UnknownGroup(group_index)))
    } else if cache_has(cache, group_index) {
        (cache, next_stamp, Ok(()))
    } else {
        match resolve_all(reg, rs, 0) {
            Err(e) => (cache, next_stamp, Err(e)),
            Ok(entries) => (
                cache.push(BindGroupRecordView { group_index, entries, stamp: next_stamp }),
                (next_stamp + 1) as u64,
                Ok(()),
            ),
        }
    }
}

/// Binding is idempotent: a second `bind` with the same arguments, after any
/// first one, leaves the cache, the stamp counter and the outcome exactly as
/// the first call left them — at most one bind group is ever created per
/// (pipeline, group) pair.
pub proof fn lemma_bind_at_most_once(
    layouts: Seq<BindGroupLayoutView>,
    cache: Seq<BindGroupRecordView>,
    next_stamp: u64,
    reg: &BufferRegistry,
    group_index: u32,
    rs: Seq<BindingResourceView>,
)
    ensures
        ({
            let (cache1, stamp1, outcome1) = bind_step(
                layouts,
                cache,
                next_stamp,
                reg,
                group_index,
                rs,
            );
            let (cache2, stamp2, outcome2) = bind_step(
                layouts,
                cache1,
                stamp1,
                reg,
                group_index,
                rs,
            );
            cache2 == cache1 && stamp2 == stamp1 && outcome2 == outcome1
        }),
{
    let (cache1, stamp1, outcome1) = bind_step(layouts, cache, next_stamp, reg, group_index, rs);
    if group_present(layouts, group_index) && !cache_has(cache, group_index) {
        match resolve_all(reg, rs, 0) {
            Err(_) => {},
            Ok(entries) => {
                let record = BindGroupRecordView { group_index, entries, stamp: next_stamp };
                assert(cache1[cache.len() as int] == record);
                assert(cache_has(cache1, group_index));
            },
        }
    }
}

/// Resolves a reference list against the registry; see [`resolve_all`].
fn resolve_resources(registry: &BufferRegistry, resources: &Vec<BindingResource>) -> (r: Result<
    Vec<ResolvedBinding>,
    BindError,
>)
    requires
        registry.wf(),
        resources@.len() <= u32::MAX,
    ensures
        match r {
            Ok(es) => resolve_all(registry, resource_views(resources@), 0) == Ok::<
                Seq<ResolvedBindingView>,
                BindErrorView,
            >(resolved_views(es@)),
            Err(e) => resolve_all(registry, resource_views(resources@), 0) == Err::<
                Seq<ResolvedBindingView>,
                BindErrorView,
            >(e@),
        },
{
    let ghost all = resource_views(resources@);
    let mut out: Vec<ResolvedBinding> = Vec::new();
    let mut i: usize = 0;
    proof {
        assert(all.skip(0) =~= all);
        if resolve_all(registry, all, 0) is Ok {
            let rest = resolve_all(registry, all, 0)->Ok_0;
            assert(resolved_views(out@) + rest =~= rest);
        }
    }
    while i < resources.len()
        invariant
            0 <= i <= resources@.len(),
            resources@.len() <= u32::MAX,
            registry.wf(),
            all == resource_views(resources@),
            out@.len() == i,
            resolve_all(registry, all, 0) == (match resolve_all(
                registry,
                all.skip(i as int),
                i as int,
            ) {
                Ok(rest) => Ok::<Seq<ResolvedBindingView>, BindErrorView>(
                    resolved_views(out@) + rest,
                ),
                Err(e) => Err::<Seq<ResolvedBindingView>, BindErrorView>(e),
            }),
        decreases resources@.len() - i,
    {
        proof {
            assert(all.skip(i as int)[0] == all[i as int]);
            assert(all.skip(i as int).drop_first() =~= all.skip(i as int + 1));
            assert(all[i as int] == resources@[i as int]@);
        }
        let resource = &resources[i];
        let resolved: ResolvedBinding = match resource.resource_type {
            BindingResourceType::Buffer => {
                match registry.buffer_size(resource.id.as_str()) {
                    None => {
                        return Err(BindError::BufferNotFound(resource.id.clone()));
                    },
                    Some(size) => {
                        if resource.entire_binding {
                            ResolvedBinding {
                                binding: i as u32,
                                buffer_id: resource.id.clone(),
                                offset: 0,
                                size,
                                entire_binding: true,
                            }
                        } else {
                            ResolvedBinding {
                                binding: i as u32,
                                buffer_id: resource.id.clone(),
                                offset: resource.offset,
                                size: resource.size,
                                entire_binding: false,
                            }
                        }
                    },
                }
            },
            _ => {
                return Err(BindError::UnsupportedResourceType(resource.resource_type));
            },
        };
        let ghost prev_out = resolved_views(out@);
        proof {
            assert(resolve_one(registry, all[i as int], i as int) == Ok::<
                ResolvedBindingView,
                BindErrorView,
            >(resolved@));
        }
        out.push(resolved);
        proof {
            assert(resolved_views(out@) =~= prev_out.push(resolved@));
            if resolve_all(registry, all.skip(i as int + 1), i as int + 1) is Ok {
                let rest = resolve_all(registry, all.skip(i as int + 1), i as int + 1)->Ok_0;
                assert(prev_out + (seq![resolved@] + rest) =~= resolved_views(out@) + rest);
            }
        }
        i = i + 1;
    }
    proof {
        assert(all.skip(i as int) =~= Seq::<BindingResourceView>::empty());
        assert(resolved_views(out@) + Seq::<ResolvedBindingView>::empty() =~= resolved_views(out@));
    }
    Ok(out)
}

impl RenderPipeline {
    /// Whether this group index was discovered in the shader.
    pub fn has_group(&self, group_index: u32) -> (r: bool)
        ensures
            r == group_present(self.layout_views(), group_index),
    {
        let mut j: usize = 0;
        while j < self.group_layouts.len()
            invariant
                0 <= j <= self.group_layouts@.len(),
                forall|a: int|
                    0 <= a < j ==> (#[trigger] self.layout_views()[a]).group_index != group_index,
            decreases self.group_layouts@.len() - j,
        {
            if self.group_layouts[j].group_index == group_index {
                proof {
                    assert(self.layout_views()[j as int].group_index == group_index);
                }
                return true;
            }
            proof {
                assert(self.layout_views()[j as int] == self.group_layouts@[j as int]@);
            }
            j = j + 1;
        }
        false
    }

    /// The cache index of this group's record, if one is cached.
    fn find_cached(&self, group_index: u32) -> (r: Option<usize>)
        ensures
            match r {
                Some(i) => 0 <= i < self.cache_views().len() && (self.cache_views()[
                    i as int
                ]).group_index == group_index,
                None => !self.cached(group_index),
            },
    {
        let mut j: usize = 0;
        while j < self.bind_groups.len()
            invariant
                0 <= j <= self.bind_groups@.len(),
                forall|a: int|
                    0 <= a < j ==> (#[trigger] self.cache_views()[a]).group_index != group_index,
            decreases self.bind_groups@.len() - j,
        {
            if self.bind_groups[j].group_index == group_index {
                proof {
                    assert(self.cache_views()[j as int].group_index == group_index);
                }
                return Some(j);
            }
            proof {
                assert(self.cache_views()[j as int] == self.bind_groups@[j as int]@);
            }
            j = j + 1;
        }
        None
    }

    /// Resolves the references against the registry and caches the bind
    /// group for this group index, creating it at most once: an already
    /// cached group makes this call an exact no-op. Entries are matched
    /// positionally — entry `i` of the list binds at binding index `i`.
    /// Exactly [`bind_step`] happens; nothing else of the pipeline changes.
    pub fn bind_resource(
        &mut self,
        registry: &BufferRegistry,
        group_index: u32,
        resources: &Vec<BindingResource>,
    ) -> (r: Result<(), BindError>)
        requires
            old(self).wf(),
            registry.wf(),
            resources@.len() <= u32::MAX,
            old(self).next_stamp < u64::MAX,
        ensures
            final(self).wf(),
            (
                final(self).cache_views(),
                final(self).next_stamp,
                match r {
                    Ok(_) => Ok::<(), BindErrorView>(()),
                    Err(e) => Err::<(), BindErrorView>(e@),
                },
            ) == bind_step(
                old(self).layout_views(),
                old(self).cache_views(),
                old(self).next_stamp,
                registry,
                group_index,
                resource_views(resources@),
            ),
            final(self).id == old(self).id,
            final(self).shader_source == old(self).shader_source,
            final(self).info == old(self).info,
            final(self).group_layouts == old(self).group_layouts,
            final(self).vertex_buffers == old(self).vertex_buffers,
            final(self).targets == old(self).targets,
            final(self).cull_mode == old(self).cull_mode,
            final(self).depth_testing == old(self).depth_testing,
            final(self).depth_write_enabled == old(self).depth_write_enabled,
            final(self).depth_compare == old(self).depth_compare,
    {
        if !self.has_group(group_index) {
            return Err(BindError::UnknownGroup(group_index));
        }
        if let Some(_) = self.find_cached(group_index) {
            proof {
                assert(self.cached(group_index));
            }
            return Ok(());
        }
        let entries = match resolve_resources(registry, resources) {
            Err(e) => {
                return Err(e);
            },
            Ok(es) => es,
        };
        let record = BindGroupRecord { group_index, entries, stamp: self.next_stamp };
        let ghost prev_cache = self.cache_views();
        let ghost record_view = record@;
        self.bind_groups.push(record);
        self.next_stamp = self.next_stamp + 1;
        proof {
            assert(self.cache_views() =~= prev_cache.push(record_view));
            assert forall|a: int, b: int|
                0 <= a < b < self.cache_views().len() implies self.cache_views()[a].group_index
                != self.cache_views()[b].group_index by {
                if b < prev_cache.len() {
                    assert(prev_cache[a].group_index != prev_cache[b].group_index);
                } else {
                    assert(self.cache_views()[b].group_index == group_index);
                    assert(self.cache_views()[a] == prev_cache[a]);
                }
            }
        }
        Ok(())
    }

    /// Whether every discovered group has a cached bind group: exactly when
    /// the cache holds as many records as layouts were synthesized. A render
    /// loop skips this pipeline's draws while this is false.
    pub fn is_drawable(&self) -> (r: bool)
        ensures
            r == self.spec_is_drawable(),
    {
        self.group_layouts.len() == self.bind_groups.len()
    }

    /// What the render loop should do with this pipeline: draw it, or skip
    /// it for this frame because some group is still unbound.
    pub fn draw_status(&self) -> (r: DrawStatus)
        ensures
            r == DrawStatus::Ready <==> self.spec_is_drawable(),
    {
        if self.is_drawable() {
            DrawStatus::Ready
        } else {
            DrawStatus::Skipped
        }
    }

    /// Resolves the references and replaces this group's cached bind group,
    /// unlike [`RenderPipeline::bind_resource`], which leaves an existing one alone.
    /// A failed resolution or an undiscovered group changes nothing.
    pub fn rebind(
        &mut self,
        registry: &BufferRegistry,
        group_index: u32,
        resources: &Vec<BindingResource>,
    ) -> (r: Result<(), BindError>)
        requires
            old(self).wf(),
            registry.wf(),
            resources@.len() <= u32::MAX,
            old(self).next_stamp < u64::MAX,
        ensures
            final(self).wf(),
            !group_present(old(self).layout_views(), group_index) ==> r == Err::<(), BindError>(
                BindError::UnknownGroup(group_index),
            ) && *final(self) == *old(self),
            group_present(old(self).layout_views(), group_index) ==> match resolve_all(
                registry,
                resource_views(resources@),
                0,
            ) {
                Err(e) => (r matches Err(x) && x@ == e) && *final(self) == *old(self),
                Ok(entries) => {
                    &&& r matches Ok(_)
                    &&& final(self).cached(group_index)
                    &&& final(self).cached_at(group_index) == (BindGroupRecordView {
                        group_index,
                        entries,
                        stamp: old(self).next_stamp,
                    })
                    &&& final(self).next_stamp == old(self).next_stamp + 1
                    &&& forall|g: u32|
                        g != group_index ==> (#[trigger] final(self).cached(g)) == old(self).cached(
                            g,
                        ) && (old(self).cached(g) ==> final(self).cached_at(g) == old(
                            self,
                        ).cached_at(g))
                },
            },
            final(self).id == old(self).id,
            final(self).shader_source == old(self).shader_source,
            final(self).info == old(self).info,
            final(self).group_layouts == old(self).group_layouts,
            final(self).vertex_buffers == old(self).vertex_buffers,
            final(self).targets == old(self).targets,
            final(self).cull_mode == old(self).cull_mode,
            final(self).depth_testing == old(self).depth_testing,
            final(self).depth_write_enabled == old(self).depth_write_enabled,
            final(self).depth_compare == old(self).depth_compare,
    {
        if !self.has_group(group_index) {
            return Err(BindError::UnknownGroup(group_index));
        }
        let entries = match resolve_resources(registry, resources) {
            Err(e) => {
                return Err(e);
            },
            Ok(es) => es,
        };
        let ghost pre_cache = self.cache_views();
        match self.find_cached(group_index) {
            Some(idx) => {
                self.bind_groups.remove(idx);
                proof {
                    assert(self.cache_views() =~= pre_cache.remove(idx as int));
                    assert forall|a: int|
                        0 <= a < self.cache_views().len() implies (
                    #[trigger] self.cache_views()[a]).group_index != group_index by {
                        if a < idx {
                            assert(self.cache_views()[a] == pre_cache[a]);
                            assert(pre_cache[a].group_index != pre_cache[idx as int].group_index);
                        } else {
                            assert(self.cache_views()[a] == pre_cache[a + 1]);
                            assert(pre_cache[idx as int].group_index != pre_cache[
                                a + 1
                            ].group_index);
                        }
                    }
                }
            },
            None => {},
        }
        let ghost removed_cache = self.cache_views();
        proof {
            assert(!cache_has(removed_cache, group_index));
            assert forall|g: u32| g != group_index implies cache_has(removed_cache, g) == cache_has(
                pre_cache,
                g,
            ) && (cache_has(pre_cache, g) ==> cache_at(removed_cache, g) == cache_at(
                pre_cache,
                g,
            )) by {
                lemma_cache_same_after_removal(pre_cache, removed_cache, group_index, g);
            }
        }
        let record = BindGroupRecord { group_index, entries, stamp: self.next_stamp };
        let ghost record_view = record@;
        self.bind_groups.push(record);
        self.next_stamp = self.next_stamp + 1;
        proof {
            assert(self.cache_views() =~= removed_cache.push(record_view));
            assert(resolved_views(entries@) == resolve_all(
                registry,
                resource_views(resources@),
                0,
            )->Ok_0);
            assert(record_view == (BindGroupRecordView {
                group_index,
                entries: resolve_all(registry, resource_views(resources@), 0)->Ok_0,
                stamp: old(self).next_stamp,
            }));
            assert forall|a: int, b: int|
                0 <= a < b < self.cache_views().len() implies self.cache_views()[a].group_index
                != self.cache_views()[b].group_index by {
                if b < removed_cache.len() {
                    assert(self.cache_views()[a] == removed_cache[a]);
                    assert(self.cache_views()[b] == removed_cache[b]);
                    lemma_removal_keeps_distinct(pre_cache, removed_cache, group_index, a, b);
                } else {
                    assert(self.cache_views()[a] == removed_cache[a]);
                    assert(self.cache_views()[b].group_index == group_index);
                }
            }
            assert(cache_has(self.cache_views(), group_index)) by {
                assert(self.cache_views()[removed_cache.len() as int].group_index == group_index);
            }
            lemma_cache_at_index(
                self.cache_views(),
                removed_cache.len() as int,
                group_index,
            );
            assert forall|g: u32| g != group_index implies (#[trigger] cache_has(
                self.cache_views(),
                g,
            )) == cache_has(pre_cache, g) && (cache_has(pre_cache, g) ==> cache_at(
                self.cache_views(),
                g,
            ) == cache_at(pre_cache, g)) by {
                lemma_cache_same_after_push(removed_cache, record_view, g);
            }
        }
        Ok(())
    }
}

/// What the render loop does with one pipeline this frame.
#[derive(Eq, PartialEq, Structural, Debug, Clone, Copy)]
pub enum DrawStatus {
    Ready,
    Skipped,
}

/// The cached records of the discovered groups, in layout order, skipping
/// groups not yet bound.
pub open spec fn bound_groups_spec(
    layouts: Seq<BindGroupLayoutView>,
    cache: Seq<BindGroupRecordView>,
) -> Seq<BindGroupRecordView>
    decreases layouts.len(),
{
    if layouts.len() == 0 {
        Seq::empty()
    } else {
        let rest = bound_groups_spec(layouts.drop_first(), cache);
        if cache_has(cache, layouts[0].group_index) {
            seq![cache_at(cache, layouts[0].group_index)] + rest
        } else {
            rest
        }
    }
}

impl RenderPipeline {
    /// The cached bind-group records in layout order, one per group already
    /// bound; exactly [`bound_groups_spec`] of the layouts and the cache.
    pub fn get_bind_groups(&self) -> (r: Vec<&BindGroupRecord>)
        requires
            self.wf(),
        ensures
            Seq::new(r@.len(), |k: int| r@[k]@) == bound_groups_spec(
                self.layout_views(),
                self.cache_views(),
            ),
    {
        let ghost lv = self.layout_views();
        let ghost cv = self.cache_views();
        let mut out: Vec<&BindGroupRecord> = Vec::new();
        let mut i: usize = 0;
        proof {
            assert(lv.skip(0) =~= lv);
            assert(Seq::new(out@.len(), |k: int| out@[k]@) + bound_groups_spec(lv, cv)
                =~= bound_groups_spec(lv, cv));
        }
        while i < self.group_layouts.len()
            invariant
                0 <= i <= self.group_layouts@.len(),
                self.wf(),
                lv == self.layout_views(),
                cv == self.cache_views(),
                bound_groups_spec(lv, cv) == Seq::new(out@.len(), |k: int| out@[k]@)
                    + bound_groups_spec(lv.skip(i as int), cv),
            decreases self.group_layouts@.len() - i,
        {
            proof {
                assert(lv.skip(i as int)[0] == lv[i as int]);
                assert(lv.skip(i as int).drop_first() =~= lv.skip(i as int + 1));
                assert(lv[i as int] == self.group_layouts@[i as int]@);
            }
            let ghost prev = Seq::new(out@.len(), |k: int| out@[k]@);
            match self.find_cached(self.group_layouts[i].group_index) {
                Some(c) => {
                    out.push(&self.bind_groups[c]);
                    proof {
                        lemma_cache_at_index(cv, c as int, lv[i as int].group_index);
                        assert(Seq::new(out@.len(), |k: int| out@[k]@) =~= prev.push(
                            cache_at(cv, lv[i as int].group_index),
                        ));
                        let rest = bound_groups_spec(lv.skip(i as int + 1), cv);
                        assert(prev + (seq![cache_at(cv, lv[i as int].group_index)] + rest)
                            =~= Seq::new(out@.len(), |k: int| out@[k]@) + rest);
                    }
                },
                None => {
                    proof {
                        assert(!cache_has(cv, lv[i as int].group_index));
                    }
                },
            }
            i = i + 1;
        }
        proof {
            assert(lv.skip(i as int) =~= Seq::<BindGroupLayoutView>::empty());
            assert(Seq::new(out@.len(), |k: int| out@[k]@) + Seq::<
                BindGroupRecordView,
            >::empty() =~= Seq::new(out@.len(), |k: int| out@[k]@));
        }
        out
    }
}

/// A well-formed pipeline is drawable exactly when every discovered group
/// has a cached bind group; in particular it is not drawable right after
/// construction, while at least one group is discovered and none is bound,
/// and becomes drawable only once all of them are.
pub proof fn lemma_drawable_iff_all_bound(p: &RenderPipeline)
    requires
        p.wf(),
    ensures
        p.spec_is_drawable() <==> (forall|g: u32|
            group_present(p.layout_views(), g) ==> p.cached(g)),
        p.cache_views().len() == 0 && p.layout_views().len() > 0 ==> !p.spec_is_drawable(),
{
    broadcast use vstd::seq_lib::seq_to_set_is_finite;
    broadcast use vstd::set::group_set_axioms;

    let lv = p.layout_views();
    let cv = p.cache_views();
    let lg = lv.map_values(|l: BindGroupLayoutView| l.group_index);
    let cg = cv.map_values(|c: BindGroupRecordView| c.group_index);
    assert(lg.no_duplicates()) by {
        assert forall|a: int, b: int| 0 <= a < b < lg.len() implies lg[a] != lg[b] by {
            assert(lv[a].group_index < lv[b].group_index);
        }
    }
    assert(cg.no_duplicates()) by {
        assert forall|a: int, b: int| 0 <= a < b < cg.len() implies cg[a] != cg[b] by {
            assert(cv[a].group_index != cv[b].group_index);
        }
    }
    lg.unique_seq_to_set();
    cg.unique_seq_to_set();
    assert(cg.to_set().subset_of(lg.to_set())) by {
        assert forall|g: u32| cg.to_set().contains(g) implies lg.to_set().contains(g) by {
            let a = choose|a: int| 0 <= a < cg.len() && cg[a] == g;
            assert(cv[a].group_index == g);
            assert(group_present(lv, g));
            let j = choose|j: int| 0 <= j < lv.len() && (#[trigger] lv[j]).group_index == g;
            assert(lg[j] == g);
        }
    }
    if p.spec_is_drawable() {
        vstd::set_lib::lemma_subset_equality(cg.to_set(), lg.to_set());
        assert forall|g: u32| group_present(lv, g) implies p.cached(g) by {
            let j = choose|j: int| 0 <= j < lv.len() && (#[trigger] lv[j]).group_index == g;
            assert(lg[j] == g);
            assert(lg.to_set().contains(g));
            assert(cg.to_set().contains(g));
            let a = choose|a: int| 0 <= a < cg.len() && cg[a] == g;
            assert(cv[a].group_index == g);
        }
    }
    if forall|g: u32| group_present(lv, g) ==> p.cached(g) {
        assert(lg.to_set().subset_of(cg.to_set())) by {
            assert forall|g: u32| lg.to_set().contains(g) implies cg.to_set().contains(g) by {
                let j = choose|j: int| 0 <= j < lg.len() && lg[j] == g;
                assert(lv[j].group_index == g);
                assert(group_present(lv, g));
                assert(p.cached(g));
                let a = choose|a: int|
                    0 <= a < cv.len() && (#[trigger] cv[a]).group_index == g;
                assert(cg[a] == g);
            }
        }
        assert(lg.to_set() =~= cg.to_set());
        assert(lv.len() == cv.len());
    }
}

/// In a cache with pairwise distinct group indices, the record at an index
/// holding a group is the cached record of that group.
proof fn lemma_cache_at_index(cache: Seq<BindGroupRecordView>, i: int, g: u32)
    requires
        forall|a: int, b: int|
            0 <= a < b < cache.len() ==> cache[a].group_index != cache[b].group_index,
        0 <= i < cache.len(),
        cache[i].group_index == g,
    ensures
        cache_has(cache, g),
        cache_at(cache, g) == cache[i],
{
    assert(cache_has(cache, g));
    let c = choose|c: int| 0 <= c < cache.len() && (#[trigger] cache[c]).group_index == g;
    if c != i {
        if c < i {
            assert(cache[c].group_index != cache[i].group_index);
        } else {
            assert(cache[i].group_index != cache[c].group_index);
        }
        assert(false);
    }
}

proof fn lemma_removal_keeps_distinct(
    pre: Seq<BindGroupRecordView>,
    removed: Seq<BindGroupRecordView>,
    g: u32,
    a: int,
    b: int,
)
    requires
        forall|x: int, y: int| 0 <= x < y < pre.len() ==> pre[x].group_index != pre[y].group_index,
        removed == pre || exists|idx: int|
            0 <= idx < pre.len() && (#[trigger] pre[idx]).group_index == g && removed == pre.remove(
                idx,
            ),
        0 <= a < b < removed.len(),
    ensures
        removed[a].group_index != removed[b].group_index,
{
    if removed != pre {
        let idx = choose|idx: int|
            0 <= idx < pre.len() && (#[trigger] pre[idx]).group_index == g && removed == pre.remove(
                idx,
            );
        let pa: int = if a < idx {
            a
        } else {
            a + 1
        };
        let pb: int = if b < idx {
            b
        } else {
            b + 1
        };
        assert(removed[a] == pre[pa]);
        assert(removed[b] == pre[pb]);
        assert(pre[pa].group_index != pre[pb].group_index);
    }
}

proof fn lemma_cache_same_after_removal(
    pre: Seq<BindGroupRecordView>,
    removed: Seq<BindGroupRecordView>,
    g: u32,
    x: u32,
)
    requires
        forall|a: int, b: int|
            0 <= a < b < pre.len() ==> pre[a].group_index != pre[b].group_index,
        removed == pre || exists|idx: int|
            0 <= idx < pre.len() && (#[trigger] pre[idx]).group_index == g && removed == pre.remove(
                idx,
            ),
        x != g,
    ensures
        cache_has(removed, x) == cache_has(pre, x),
        cache_has(pre, x) ==> cache_at(removed, x) == cache_at(pre, x),
{
    if removed != pre {
        let idx = choose|idx: int|
            0 <= idx < pre.len() && (#[trigger] pre[idx]).group_index == g && removed == pre.remove(
                idx,
            );
        if cache_has(pre, x) {
            let j = choose|j: int| 0 <= j < pre.len() && (#[trigger] pre[j]).group_index == x;
            assert(j != idx);
            let rj: int = if j < idx {
                j
            } else {
                j - 1
            };
            assert(removed[rj] == pre[j]);
            assert(cache_has(removed, x));
            lemma_cache_at_index(pre, j, x);
            assert forall|a: int, b: int|
                0 <= a < b < removed.len() implies removed[a].group_index
                != removed[b].group_index by {
                lemma_removal_keeps_distinct(pre, removed, g, a, b);
            }
            lemma_cache_at_index(removed, rj, x);
        }
        if cache_has(removed, x) {
            let j = choose|j: int|
                0 <= j < removed.len() && (#[trigger] removed[j]).group_index == x;
            let pj: int = if j < idx {
                j
            } else {
                j + 1
            };
            assert(removed[j] == pre[pj]);
            assert(cache_has(pre, x));
        }
    }
}

proof fn lemma_cache_same_after_push(
    base: Seq<BindGroupRecordView>,
    record: BindGroupRecordView,
    x: u32,
)
    requires
        forall|a: int, b: int|
            0 <= a < b < base.len() ==> base[a].group_index != base[b].group_index,
        !cache_has(base, record.group_index),
        x != record.group_index,
    ensures
        cache_has(base.push(record), x) == cache_has(base, x),
        cache_has(base, x) ==> cache_at(base.push(record), x) == cache_at(base, x),
{
    let pushed = base.push(record);
    if cache_has(base, x) {
        let j = choose|j: int| 0 <= j < base.len() && (#[trigger] base[j]).group_index == x;
        assert(pushed[j] == base[j]);
        assert(cache_has(pushed, x));
        lemma_cache_at_index(base, j, x);
        assert forall|a: int, b: int|
            0 <= a < b < pushed.len() implies pushed[a].group_index != pushed[b].group_index by {
            if b < base.len() {
                assert(pushed[a] == base[a] && pushed[b] == base[b]);
            } else {
                assert(pushed[a] == base[a]);
                assert(pushed[b] == record);
                if base[a].group_index == record.group_index {
                    assert(cache_has(base, record.group_index));
                }
            }
        }
        lemma_cache_at_index(pushed, j, x);
    }
    if cache_has(pushed, x) {
        let j = choose|j: int| 0 <= j < pushed.len() && (#[trigger] pushed[j]).group_index == x;
        if j < base.len() {
            assert(base[j].group_index == x);
            assert(cache_has(base, x));
        } else {
            assert(pushed[j] == record);
            assert(false);
        }
    }
}

} // verus!
