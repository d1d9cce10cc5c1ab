//! The closed vocabulary of binding metadata: which binding groups a pipeline
//! distinguishes, what a logical resource reference looks like, and the
//! descriptors that reflection derives from a shader module.

use vstd::prelude::*;

verus! {

/// The four binding-group roles a pipeline distinguishes, in their
/// conventional group-index order.
#[derive(Hash, Eq, PartialEq, Structural, Debug, Clone, Copy)]
pub enum BindingGroupType {
    Global,
    PerFrame,
    Resource,
    PerObject,
}

impl BindingGroupType {
    /// The group index this role conventionally occupies.
    pub open spec fn spec_index(self) -> u32 {
        match self {
            BindingGroupType::Global => 0,
            BindingGroupType::PerFrame => 1,
            BindingGroupType::Resource => 2,
            BindingGroupType::PerObject => 3,
        }
    }

    pub fn index(&self) -> (i: u32)
        ensures
            i == self.spec_index(),
    {
        match self {
            BindingGroupType::Global => 0,
            BindingGroupType::PerFrame => 1,
            BindingGroupType::Resource => 2,
            BindingGroupType::PerObject => 3,
        }
    }
}

/// How a logical resource reference is meant to be attached to a binding
/// slot.
#[derive(Eq, PartialEq, Structural, Debug, Clone, Copy)]
pub enum BindingResourceType {
    Buffer,
    BufferArray,
    Sampler,
    SamplerArray,
    TextureView,
    TextureViewArray,
}

/// A logical resource reference: a resolution request against the buffer
/// registry, not a live GPU object. When `entire_binding` is set the
/// `offset` and `size` fields are ignored and the whole buffer is bound.
#[derive(Debug, Clone)]
pub struct BindingResource {
    pub id: String,
    pub resource_type: BindingResourceType,
    pub entire_binding: bool,
    pub offset: u64,
    pub size: u64,
}

/// Mathematical image of a [`BindingResource`].
#[verifier::ext_equal]
pub struct BindingResourceView {
    pub id: Seq<char>,
    pub resource_type: BindingResourceType,
    pub entire_binding: bool,
    pub offset: u64,
    pub size: u64,
}

impl View for BindingResource {
    type V = BindingResourceView;

    open spec fn view(&self) -> BindingResourceView {
        BindingResourceView {
            id: self.id@,
            resource_type: self.resource_type,
            entire_binding: self.entire_binding,
            offset: self.offset,
            size: self.size,
        }
    }
}

/// The images of a whole resource list.
pub open spec fn resource_views(rs: Seq<BindingResource>) -> Seq<BindingResourceView> {
    Seq::new(rs.len(), |i: int| rs[i]@)
}

impl Default for BindingResource {
    fn default() -> (r: Self)
        ensures
            r.id@ == "None"@,
            r.resource_type == BindingResourceType::Buffer,
            r.entire_binding == true,
            r.offset == 0,
            r.size == 0,
    {
        BindingResource {
            id: "None".to_owned(),
            resource_type: BindingResourceType::Buffer,
            entire_binding: true,
            offset: 0,
            size: 0,
        }
    }
}

/// The resource kind a shader declares for one binding slot.
#[derive(Eq, PartialEq, Structural, Debug, Clone, Copy)]
pub enum BindingKind {
    UniformBuffer,
    StorageBuffer { read_only: bool },
    Texture2D,
    Sampler,
}

/// Which pipeline stages may see a binding.
#[derive(Eq, PartialEq, Structural, Debug, Clone, Copy)]
pub enum Visibility {
    Vertex,
    Fragment,
    Both,
}

/// One reflected binding: derived once per shader module, immutable.
#[derive(Eq, PartialEq, Structural, Debug, Clone, Copy)]
pub struct ShaderBindingDescriptor {
    pub group: u32,
    pub binding: u32,
    pub kind: BindingKind,
    pub visibility: Visibility,
}

} // verus!
