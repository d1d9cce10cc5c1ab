//! The renderer's pipeline bookkeeping: pipelines stored under their ids,
//! rebound or replaced by id, and bound to resources through the buffer
//! registry.

use vstd::prelude::*;

use crate::binding::{BindingGroupType, BindingResource};
use crate::pipeline::{bind_step, BindError, BindErrorView, RenderPipeline};
use crate::registry::BufferRegistry;

verus! {

/// The pipelines the renderer owns, each under its id.
pub struct PipelineRegistry {
    pub pipelines: Vec<RenderPipeline>,
}

/// No two pipelines share an id.
pub open spec fn pipeline_ids_unique(ps: Seq<RenderPipeline>) -> bool {
    forall|i: int, j: int| 0 <= i < j < ps.len() ==> ps[i].id@ != ps[j].id@
}

impl PipelineRegistry {
    /// Well-formed: ids unique, every pipeline well-formed.
    pub open spec fn wf(&self) -> bool {
        &&& pipeline_ids_unique(self.pipelines@)
        &&& forall|i: int| 0 <= i < self.pipelines@.len() ==> (#[trigger] self.pipelines@[i]).wf()
    }

    /// Whether a pipeline of this id exists.
    pub open spec fn has_pipeline(&self, id: Seq<char>) -> bool {
        exists|i: int|
            0 <= i < self.pipelines@.len() && (#[trigger] self.pipelines@[i]).id@ == id
    }

    /// The pipeline of this id, where it exists.
    pub open spec fn pipeline_at(&self, id: Seq<char>) -> RenderPipeline {
        self.pipelines@[choose|i: int|
            0 <= i < self.pipelines@.len() && (#[trigger] self.pipelines@[i]).id@ == id]
    }

    /// An empty registry.
    pub fn new() -> (r: PipelineRegistry)
        ensures
            r.wf(),
            r.pipelines@ == Seq::<RenderPipeline>::empty(),
    {
        PipelineRegistry { pipelines: Vec::new() }
    }

    /// The first index holding this id, if any.
    fn find_index(&self, id: &str) -> (r: Option<usize>)
        ensures
            match r {
                Some(i) => 0 <= i < self.pipelines@.len() && self.pipelines@[i as int].id@ == id@,
                None => !self.has_pipeline(id@),
            },
    {
        let key: String = id.to_owned();
        let mut i: usize = 0;
        while i < self.pipelines.len()
            invariant
                0 <= i <= self.pipelines@.len(),
                key@ == id@,
                forall|a: int| 0 <= a < i ==> (#[trigger] self.pipelines@[a]).id@ != id@,
            decreases self.pipelines@.len() - i,
        {
            if self.pipelines[i].id == key {
                return Some(i);
            }
            i = i + 1;
        }
        None
    }

    /// Whether a pipeline of this id exists.
    pub fn contains(&self, id: &str) -> (r: bool)
        ensures
            r == self.has_pipeline(id@),
    {
        match self.find_index(id) {
            Some(i) => {
                proof {
                    assert(self.has_pipeline(id@));
                }
                true
            },
            None => false,
        }
    }

    /// Stores a pipeline under its id: a pipeline of that id is replaced in
    /// its slot, keeping the store's length and every other slot — the
    /// render loop walks the store in slot order — and a new id is appended.
    pub fn set_render_pipeline(&mut self, pipeline: RenderPipeline)
        requires
            old(self).wf(),
            pipeline.wf(),
        ensures
            final(self).wf(),
            final(self).has_pipeline(pipeline.id@),
            final(self).pipeline_at(pipeline.id@) == pipeline,
            forall|x: Seq<char>|
                x != pipeline.id@ ==> (#[trigger] final(self).has_pipeline(x)) == old(
                    self,
                ).has_pipeline(x) && (old(self).has_pipeline(x) ==> final(self).pipeline_at(x)
                    == old(self).pipeline_at(x)),
            old(self).has_pipeline(pipeline.id@) ==> exists|i: int|
                0 <= i < old(self).pipelines@.len() && (#[trigger] old(self).pipelines@[i]).id@
                    == pipeline.id@ && final(self).pipelines@ == old(self).pipelines@.update(
                    i,
                    pipeline,
                ),
            !old(self).has_pipeline(pipeline.id@) ==> final(self).pipelines@ == old(
                self,
            ).pipelines@.push(pipeline),
    {
        let ghost orig = self.pipelines@;
        match self.find_index(pipeline.id.as_str()) {
            Some(i) => {
                self.pipelines.remove(i);
                self.pipelines.insert(i, pipeline);
                proof {
                    assert(self.pipelines@ =~= orig.update(i as int, pipeline));
                    lemma_pipeline_swap(orig, self.pipelines@, i as int, pipeline);
                    assert forall|t: int|
                        0 <= t < self.pipelines@.len() implies (
                    #[trigger] self.pipelines@[t]).wf() by {
                        if t != i {
                            assert(self.pipelines@[t] == orig[t]);
                        }
                    }
                    assert forall|x: Seq<char>|
                        x != pipeline.id@ && old(self).has_pipeline(x) implies self.has_pipeline(x)
                        && self.pipeline_at(x) == old(self).pipeline_at(x) by {
                        let j = choose|j: int|
                            0 <= j < orig.len() && (#[trigger] orig[j]).id@ == x;
                        assert(j != i);
                        assert(self.pipelines@[j] == orig[j]);
                        lemma_pipeline_lookup(orig, j, x);
                        lemma_pipeline_lookup(self.pipelines@, j, x);
                    }
                    assert forall|x: Seq<char>|
                        x != pipeline.id@ && self.has_pipeline(x) implies old(self).has_pipeline(
                        x,
                    ) by {
                        let j = choose|j: int|
                            0 <= j < self.pipelines@.len() && (#[trigger] self.pipelines@[j]).id@
                                == x;
                        assert(j != i);
                        assert(orig[j].id@ == x);
                    }
                }
            },
            None => {
                self.pipelines.push(pipeline);
                proof {
                    assert(self.pipelines@ =~= orig.push(pipeline));
                    assert forall|a: int, b: int|
                        0 <= a < b < self.pipelines@.len() implies self.pipelines@[a].id@
                        != self.pipelines@[b].id@ by {
                        if b < orig.len() {
                            assert(orig[a].id@ != orig[b].id@);
                        } else {
                            assert(self.pipelines@[a] == orig[a]);
                        }
                    }
                    lemma_pipeline_lookup(self.pipelines@, orig.len() as int, pipeline.id@);
                    assert forall|x: Seq<char>|
                        x != pipeline.id@ && old(self).has_pipeline(x) implies self.has_pipeline(x)
                        && self.pipeline_at(x) == old(self).pipeline_at(x) by {
                        let j = choose|j: int|
                            0 <= j < orig.len() && (#[trigger] orig[j]).id@ == x;
                        lemma_pipeline_lookup(orig, j, x);
                        lemma_pipeline_lookup(self.pipelines@, j, x);
                    }
                    assert forall|x: Seq<char>|
                        x != pipeline.id@ && self.has_pipeline(x) implies old(self).has_pipeline(
                        x,
                    ) by {
                        let j = choose|j: int|
                            0 <= j < self.pipelines@.len() && (#[trigger] self.pipelines@[j]).id@
                                == x;
                        assert(orig[j].id@ == x);
                    }
                }
            },
        }
    }

    /// Resolves the references through the buffer registry and binds them to
    /// the named pipeline's group, with the cache's at-most-one-creation
    /// rule; exactly [`bind_step`] happens to that pipeline's cache. Binding
    /// groups are addressed by their role's conventional index.
    pub fn bind_resources_to_pipeline(
        &mut self,
        registry: &BufferRegistry,
        pipeline_id: &str,
        group: BindingGroupType,
        resources: &Vec<BindingResource>,
    ) -> (r: Result<(), BindError>)
        requires
            old(self).wf(),
            registry.wf(),
            resources@.len() <= u32::MAX,
            forall|i: int|
                0 <= i < old(self).pipelines@.len() ==> (#[trigger] old(
                    self,
                ).pipelines@[i]).next_stamp < u64::MAX,
        ensures
            final(self).wf(),
            !old(self).has_pipeline(pipeline_id@) ==> (r matches Err(e) && e@
                == BindErrorView::PipelineNotFound(pipeline_id@) && final(self).pipelines@ == old(
                self,
            ).pipelines@),
            old(self).has_pipeline(pipeline_id@) ==> {
                let p = old(self).pipeline_at(pipeline_id@);
                let step = bind_step(
                    p.layout_views(),
                    p.cache_views(),
                    p.next_stamp,
                    registry,
                    group.spec_index(),
                    crate::binding::resource_views(resources@),
                );
                &&& (match r {
                    Ok(_) => step.2 == Ok::<(), BindErrorView>(()),
                    Err(e) => step.2 == Err::<(), BindErrorView>(e@),
                })
                &&& final(self).has_pipeline(pipeline_id@)
                &&& final(self).pipeline_at(pipeline_id@).cache_views() == step.0
                &&& final(self).pipeline_at(pipeline_id@).next_stamp == step.1
                &&& final(self).pipeline_at(pipeline_id@).group_layouts == p.group_layouts
                &&& forall|x: Seq<char>|
                    x != pipeline_id@ ==> (#[trigger] final(self).has_pipeline(x)) == old(
                        self,
                    ).has_pipeline(x) && (old(self).has_pipeline(x) ==> final(self).pipeline_at(x)
                        == old(self).pipeline_at(x))
            },
    {
        let ghost orig = self.pipelines@;
        match self.find_index(pipeline_id) {
            None => Err(BindError::PipelineNotFound(pipeline_id.to_owned())),
            Some(i) => {
                proof {
                    assert(self.has_pipeline(pipeline_id@));
                    lemma_pipeline_lookup(orig, i as int, pipeline_id@);
                }
                let mut pipeline = self.pipelines.remove(i);
                let outcome = pipeline.bind_resource(registry, group.index(), resources);
                self.pipelines.insert(i, pipeline);
                proof {
                    assert(self.pipelines@ =~= orig.update(i as int, self.pipelines@[i as int]));
                    assert(self.pipelines@[i as int].id@ == pipeline_id@);
                    lemma_pipeline_swap(
                        orig,
                        self.pipelines@,
                        i as int,
                        self.pipelines@[i as int],
                    );
                    assert forall|t: int|
                        0 <= t < self.pipelines@.len() implies (
                    #[trigger] self.pipelines@[t]).wf() by {
                        if t != i {
                            assert(self.pipelines@[t] == orig[t]);
                        }
                    }
                    assert forall|x: Seq<char>|
                        x != pipeline_id@ && old(self).has_pipeline(x) implies self.has_pipeline(x)
                        && self.pipeline_at(x) == old(self).pipeline_at(x) by {
                        let j = choose|j: int|
                            0 <= j < orig.len() && (#[trigger] orig[j]).id@ == x;
                        assert(j != i);
                        assert(self.pipelines@[j] == orig[j]);
                        lemma_pipeline_lookup(orig, j, x);
                        lemma_pipeline_lookup(self.pipelines@, j, x);
                    }
                    assert forall|x: Seq<char>|
                        x != pipeline_id@ && self.has_pipeline(x) implies old(self).has_pipeline(
                        x,
                    ) by {
                        let j = choose|j: int|
                            0 <= j < self.pipelines@.len() && (#[trigger] self.pipelines@[j]).id@
                                == x;
                        assert(j != i);
                        assert(orig[j].id@ == x);
                    }
                    lemma_pipeline_lookup(orig, i as int, pipeline_id@);
                    lemma_pipeline_lookup(self.pipelines@, i as int, pipeline_id@);
                }
                outcome
            },
        }
    }
}

/// In a pipeline list with pairwise distinct ids, the pipeline at an index
/// holding an id is the pipeline of that id.
proof fn lemma_pipeline_lookup(ps: Seq<RenderPipeline>, i: int, id: Seq<char>)
    requires
        pipeline_ids_unique(ps),
        0 <= i < ps.len(),
        ps[i].id@ == id,
    ensures
        exists|j: int| 0 <= j < ps.len() && (#[trigger] ps[j]).id@ == id,
        ps[choose|j: int| 0 <= j < ps.len() && (#[trigger] ps[j]).id@ == id] == ps[i],
{
    assert(exists|j: int| 0 <= j < ps.len() && (#[trigger] ps[j]).id@ == id);
    let c = choose|j: int| 0 <= j < ps.len() && (#[trigger] ps[j]).id@ == id;
    if c != i {
        if c < i {
            assert(ps[c].id@ != ps[i].id@);
        } else {
            assert(ps[i].id@ != ps[c].id@);
        }
        assert(false);
    }
}

/// Replacing one pipeline by another of the same id keeps the ids
/// pairwise distinct and well-keyed.
proof fn lemma_pipeline_swap(
    orig: Seq<RenderPipeline>,
    updated: Seq<RenderPipeline>,
    i: int,
    pipeline: RenderPipeline,
)
    requires
        pipeline_ids_unique(orig),
        0 <= i < orig.len(),
        pipeline.id@ == orig[i].id@,
        updated == orig.update(i, pipeline),
    ensures
        pipeline_ids_unique(updated),
        exists|j: int| 0 <= j < updated.len() && (#[trigger] updated[j]).id@ == pipeline.id@,
        updated[choose|j: int|
            0 <= j < updated.len() && (#[trigger] updated[j]).id@ == pipeline.id@] == pipeline,
{
    assert(forall|t: int| 0 <= t < updated.len() ==> (#[trigger] updated[t]).id@ == orig[t].id@);
    assert(pipeline_ids_unique(updated));
    lemma_pipeline_lookup(updated, i, pipeline.id@);
}

} // verus!
