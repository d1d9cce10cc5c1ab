//! Bind-group layout synthesis: group reflected binding descriptors by their
//! group index and keep each group's entries sorted by binding index, so the
//! layout entry order never depends on the shader's declaration order.

use vstd::prelude::*;

use crate::binding::ShaderBindingDescriptor;

verus! {

/// One synthesized layout: all descriptors of one binding group, ordered by
/// binding index ascending.
#[derive(Debug, Clone)]
pub struct BindGroupLayout {
    pub group_index: u32,
    pub entries: Vec<ShaderBindingDescriptor>,
}

/// Mathematical image of a [`BindGroupLayout`].
#[verifier::ext_equal]
pub struct BindGroupLayoutView {
    pub group_index: u32,
    pub entries: Seq<ShaderBindingDescriptor>,
}

impl View for BindGroupLayout {
    type V = BindGroupLayoutView;

    open spec fn view(&self) -> BindGroupLayoutView {
        BindGroupLayoutView { group_index: self.group_index, entries: self.entries@ }
    }
}

/// The images of a whole layout list.
pub open spec fn views_of(ls: Seq<BindGroupLayout>) -> Seq<BindGroupLayoutView> {
    Seq::new(ls.len(), |i: int| ls[i]@)
}

/// Why synthesis rejected a binding list.
#[derive(Eq, PartialEq, Structural, Debug, Clone, Copy)]
pub enum SynthesisError {
    /// Two descriptors share one (group, binding) pair; binding indices
    /// within a group must be unique.
    DuplicateBindingIndex { group: u32, binding: u32 },
    /// The named group index is missing from an otherwise dense,
    /// index-ordered layout list.
    DiscontiguousGroupIndex(u32),
}

/// Whether two descriptors collide on their (group, binding) pair.
pub open spec fn same_slot(a: ShaderBindingDescriptor, b: ShaderBindingDescriptor) -> bool {
    a.group == b.group && a.binding == b.binding
}

/// No two descriptors share a (group, binding) pair.
pub open spec fn pairwise_unique(bs: Seq<ShaderBindingDescriptor>) -> bool {
    forall|i: int, j: int| 0 <= i < j < bs.len() ==> !(#[trigger] same_slot(bs[i], bs[j]))
}

/// A descriptor inserted into an entry list that is sorted by binding index,
/// before the first entry with a larger-or-equal binding index.
pub open spec fn entry_insert(
    es: Seq<ShaderBindingDescriptor>,
    d: ShaderBindingDescriptor,
) -> Seq<ShaderBindingDescriptor>
    decreases es.len(),
{
    if es.len() == 0 {
        seq![d]
    } else if d.binding < es[0].binding {
        seq![d] + es
    } else {
        seq![es[0]] + entry_insert(es.drop_first(), d)
    }
}

/// A descriptor inserted into a layout list that is sorted by group index:
/// into the layout of its group if one exists, else as a fresh layout at the
/// sorted position.
pub open spec fn layout_insert(
    ls: Seq<BindGroupLayoutView>,
    d: ShaderBindingDescriptor,
) -> Seq<BindGroupLayoutView>
    decreases ls.len(),
{
    if ls.len() == 0 {
        seq![BindGroupLayoutView { group_index: d.group, entries: seq![d] }]
    } else if d.group < ls[0].group_index {
        seq![BindGroupLayoutView { group_index: d.group, entries: seq![d] }] + ls
    } else if d.group == ls[0].group_index {
        seq![
            BindGroupLayoutView {
                group_index: ls[0].group_index,
                entries: entry_insert(ls[0].entries, d),
            },
        ] + ls.drop_first()
    } else {
        seq![ls[0]] + layout_insert(ls.drop_first(), d)
    }
}

/// The synthesized layouts of a binding list: every descriptor inserted in
/// turn, starting from the empty list.
pub open spec fn synthesize_spec(bs: Seq<ShaderBindingDescriptor>) -> Seq<BindGroupLayoutView>
    decreases bs.len(),
{
    if bs.len() == 0 {
        Seq::empty()
    } else {
        layout_insert(synthesize_spec(bs.drop_last()), bs.last())
    }
}

/// One layout is well-formed: nonempty, every entry belongs to its group,
/// and entries are sorted strictly ascending by binding index.
pub open spec fn layout_wf(l: BindGroupLayoutView) -> bool {
    &&& l.entries.len() > 0
    &&& forall|a: int| 0 <= a < l.entries.len() ==> (#[trigger] l.entries[a]).group == l.group_index
    &&& forall|a: int, b: int|
        0 <= a < b < l.entries.len() ==> l.entries[a].binding < l.entries[b].binding
}

/// A layout list is well-formed: sorted strictly ascending by group index,
/// every layout well-formed.
pub open spec fn layouts_wf(ls: Seq<BindGroupLayoutView>) -> bool {
    &&& forall|j: int, k: int| 0 <= j < k < ls.len() ==> ls[j].group_index < ls[k].group_index
    &&& forall|j: int| 0 <= j < ls.len() ==> layout_wf(#[trigger] ls[j])
}

/// Some layout of the list carries this group index.
pub open spec fn group_present(ls: Seq<BindGroupLayoutView>, g: u32) -> bool {
    exists|j: int| 0 <= j < ls.len() && (#[trigger] ls[j]).group_index == g
}

/// Some layout of the list holds this descriptor under its group index.
pub open spec fn layouts_have(ls: Seq<BindGroupLayoutView>, d: ShaderBindingDescriptor) -> bool {
    exists|j: int|
        0 <= j < ls.len() && (#[trigger] ls[j]).group_index == d.group && ls[j].entries.contains(d)
}

/// An entry list sorted strictly ascending by binding index, all entries of
/// one group.
pub open spec fn entries_wf(es: Seq<ShaderBindingDescriptor>, group: u32) -> bool {
    &&& forall|a: int| 0 <= a < es.len() ==> (#[trigger] es[a]).group == group
    &&& forall|a: int, b: int| 0 <= a < b < es.len() ==> es[a].binding < es[b].binding
}

proof fn lemma_entry_insert_prefix(es: Seq<ShaderBindingDescriptor>, d: ShaderBindingDescriptor, k: int)
    requires
        0 <= k <= es.len(),
        forall|a: int| 0 <= a < k ==> (#[trigger] es[a]).binding <= d.binding,
    ensures
        entry_insert(es, d) =~= es.take(k) + entry_insert(es.skip(k), d),
    decreases k,
{
    if k == 0 {
        assert(es.skip(0) =~= es);
        assert(es.take(0) + entry_insert(es, d) =~= entry_insert(es, d));
    } else {
        let tail = es.drop_first();
        lemma_entry_insert_prefix(tail, d, k - 1);
        assert(es.take(k) =~= seq![es[0]] + tail.take(k - 1));
        assert(es.skip(k) =~= tail.skip(k - 1));
        assert(entry_insert(es, d) =~= seq![es[0]] + (tail.take(k - 1) + entry_insert(
            tail.skip(k - 1),
            d,
        )));
        assert(seq![es[0]] + (tail.take(k - 1) + entry_insert(tail.skip(k - 1), d)) =~= es.take(k)
            + entry_insert(es.skip(k), d));
    }
}

proof fn lemma_layout_insert_prefix(ls: Seq<BindGroupLayoutView>, d: ShaderBindingDescriptor, j: int)
    requires
        0 <= j <= ls.len(),
        forall|a: int| 0 <= a < j ==> (#[trigger] ls[a]).group_index < d.group,
    ensures
        layout_insert(ls, d) =~= ls.take(j) + layout_insert(ls.skip(j), d),
    decreases j,
{
    if j == 0 {
        assert(ls.skip(0) =~= ls);
        assert(ls.take(0) + layout_insert(ls, d) =~= layout_insert(ls, d));
    } else {
        let tail = ls.drop_first();
        lemma_layout_insert_prefix(tail, d, j - 1);
        assert(ls.take(j) =~= seq![ls[0]] + tail.take(j - 1));
        assert(ls.skip(j) =~= tail.skip(j - 1));
        assert(layout_insert(ls, d) =~= seq![ls[0]] + (tail.take(j - 1) + layout_insert(
            tail.skip(j - 1),
            d,
        )));
        assert(seq![ls[0]] + (tail.take(j - 1) + layout_insert(tail.skip(j - 1), d)) =~= ls.take(j)
            + layout_insert(ls.skip(j), d));
    }
}

proof fn lemma_entry_insert_wf(es: Seq<ShaderBindingDescriptor>, d: ShaderBindingDescriptor)
    requires
        entries_wf(es, d.group),
        forall|a: int| 0 <= a < es.len() ==> (#[trigger] es[a]).binding != d.binding,
    ensures
        entries_wf(entry_insert(es, d), d.group),
        entry_insert(es, d).len() == es.len() + 1,
        forall|e: ShaderBindingDescriptor| #[trigger]
            entry_insert(es, d).contains(e) <==> es.contains(e) || e == d,
    decreases es.len(),
{
    let r = entry_insert(es, d);
    if es.len() == 0 {
        assert forall|e: ShaderBindingDescriptor| r.contains(e) implies es.contains(e) || e == d by {
            assert(r[0] == d);
        }
        assert(r.contains(d)) by { assert(r[0] == d) }
    } else if d.binding < es[0].binding {
        assert(r =~= seq![d] + es);
        assert forall|e: ShaderBindingDescriptor| r.contains(e) implies es.contains(e) || e == d by {
            let i = choose|i: int| 0 <= i < r.len() && r[i] == e;
            if i > 0 {
                assert(es[i - 1] == e);
            }
        }
        assert forall|e: ShaderBindingDescriptor| es.contains(e) || e == d implies r.contains(
            e,
        ) by {
            if es.contains(e) {
                let i = choose|i: int| 0 <= i < es.len() && es[i] == e;
                assert(r[i + 1] == e);
            } else {
                assert(r[0] == d);
            }
        }
    } else {
        let tail = es.drop_first();
        assert(forall|a: int| 0 <= a < tail.len() ==> (#[trigger] tail[a]) == es[a + 1]);
        lemma_entry_insert_wf(tail, d);
        let rt = entry_insert(tail, d);
        assert(r =~= seq![es[0]] + rt);
        assert(es[0].binding < d.binding);
        assert forall|a: int, b: int| 0 <= a < b < r.len() implies r[a].binding < r[b].binding by {
            if a > 0 {
                assert(r[a] == rt[a - 1] && r[b] == rt[b - 1]);
            } else {
                assert(r[b] == rt[b - 1]);
                assert(rt.contains(rt[b - 1]));
                if tail.contains(rt[b - 1]) {
                    let i = choose|i: int| 0 <= i < tail.len() && tail[i] == rt[b - 1];
                    assert(es[0].binding < es[i + 1].binding);
                } else {
                    assert(rt[b - 1] == d);
                }
            }
        }
        assert forall|e: ShaderBindingDescriptor| r.contains(e) implies es.contains(e) || e == d by {
            let i = choose|i: int| 0 <= i < r.len() && r[i] == e;
            if i == 0 {
                assert(es[0] == e);
            } else {
                assert(rt[i - 1] == e);
                assert(rt.contains(e));
                if tail.contains(e) {
                    let k = choose|k: int| 0 <= k < tail.len() && tail[k] == e;
                    assert(es[k + 1] == e);
                }
            }
        }
        assert forall|e: ShaderBindingDescriptor| es.contains(e) || e == d implies r.contains(
            e,
        ) by {
            if es.contains(e) {
                let i = choose|i: int| 0 <= i < es.len() && es[i] == e;
                if i == 0 {
                    assert(r[0] == e);
                } else {
                    assert(tail[i - 1] == e);
                    assert(tail.contains(e));
                    assert(rt.contains(e));
                    let k = choose|k: int| 0 <= k < rt.len() && rt[k] == e;
                    assert(r[k + 1] == e);
                }
            } else {
                assert(rt.contains(d));
                let k = choose|k: int| 0 <= k < rt.len() && rt[k] == d;
                assert(r[k + 1] == d);
            }
        }
    }
}

proof fn lemma_layout_insert_wf(ls: Seq<BindGroupLayoutView>, d: ShaderBindingDescriptor)
    requires
        layouts_wf(ls),
        forall|j: int|
            0 <= j < ls.len() && (#[trigger] ls[j]).group_index == d.group ==> forall|a: int|
                0 <= a < ls[j].entries.len() ==> (#[trigger] ls[j].entries[a]).binding != d.binding,
    ensures
        layouts_wf(layout_insert(ls, d)),
        forall|g: u32| #[trigger]
            group_present(layout_insert(ls, d), g) <==> group_present(ls, g) || g == d.group,
        forall|e: ShaderBindingDescriptor| #[trigger]
            layouts_have(layout_insert(ls, d), e) <==> layouts_have(ls, e) || e == d,
    decreases ls.len(),
{
    let r = layout_insert(ls, d);
    let fresh = BindGroupLayoutView { group_index: d.group, entries: seq![d] };
    if ls.len() == 0 {
        assert(r =~= seq![fresh]);
        assert(r[0].entries.contains(d)) by { assert(r[0].entries[0] == d) }
        assert forall|g: u32| #[trigger] group_present(r, g) implies group_present(ls, g) || g
            == d.group by {
            let j = choose|j: int| 0 <= j < r.len() && (#[trigger] r[j]).group_index == g;
            assert(j == 0);
        }
        assert forall|e: ShaderBindingDescriptor| #[trigger] layouts_have(r, e) implies layouts_have(
            ls,
            e,
        ) || e == d by {
            let j = choose|j: int|
                0 <= j < r.len() && (#[trigger] r[j]).group_index == e.group
                    && r[j].entries.contains(e);
            assert(r[0].entries =~= seq![d]);
        }
    } else if d.group < ls[0].group_index {
        assert(r =~= seq![fresh] + ls);
        assert(fresh.entries.contains(d)) by { assert(fresh.entries[0] == d) }
        assert forall|j: int, k: int| 0 <= j < k < r.len() implies r[j].group_index
            < r[k].group_index by {
            if j > 0 {
                assert(r[j] == ls[j - 1] && r[k] == ls[k - 1]);
            } else {
                assert(r[k] == ls[k - 1]);
                if k > 1 {
                    assert(ls[0].group_index < ls[k - 1].group_index);
                }
            }
        }
        assert forall|j: int| 0 <= j < r.len() implies layout_wf(#[trigger] r[j]) by {
            if j > 0 {
                assert(r[j] == ls[j - 1]);
            } else {
                assert(r[0] == fresh);
                assert(fresh.entries[0] == d);
            }
        }
        assert forall|g: u32| #[trigger] group_present(r, g) implies group_present(ls, g) || g
            == d.group by {
            let j = choose|j: int| 0 <= j < r.len() && (#[trigger] r[j]).group_index == g;
            if j > 0 {
                assert(ls[j - 1].group_index == g);
            }
        }
        assert forall|g: u32| group_present(ls, g) || g == d.group implies #[trigger] group_present(
            r,
            g,
        ) by {
            if group_present(ls, g) {
                let j = choose|j: int| 0 <= j < ls.len() && (#[trigger] ls[j]).group_index == g;
                assert(r[j + 1].group_index == g);
            } else {
                assert(r[0].group_index == g);
            }
        }
        assert forall|e: ShaderBindingDescriptor| #[trigger] layouts_have(r, e) implies layouts_have(
            ls,
            e,
        ) || e == d by {
            let j = choose|j: int|
                0 <= j < r.len() && (#[trigger] r[j]).group_index == e.group
                    && r[j].entries.contains(e);
            if j > 0 {
                assert(ls[j - 1].group_index == e.group && ls[j - 1].entries.contains(e));
            } else {
                assert(fresh.entries[choose|i: int|
                    0 <= i < fresh.entries.len() && fresh.entries[i] == e] == e);
            }
        }
        assert forall|e: ShaderBindingDescriptor| layouts_have(ls, e) || e == d implies #[trigger] layouts_have(
            r,
            e,
        ) by {
            if layouts_have(ls, e) {
                let j = choose|j: int|
                    0 <= j < ls.len() && (#[trigger] ls[j]).group_index == e.group
                        && ls[j].entries.contains(e);
                assert(r[j + 1].group_index == e.group && r[j + 1].entries.contains(e));
            } else {
                assert(r[0].group_index == d.group && r[0].entries.contains(d));
            }
        }
    } else if d.group == ls[0].group_index {
        let es = ls[0].entries;
        assert(layout_wf(ls[0]));
        assert(entries_wf(es, d.group));
        assert(forall|a: int| 0 <= a < es.len() ==> (#[trigger] es[a]).binding != d.binding);
        lemma_entry_insert_wf(es, d);
        let upd = BindGroupLayoutView { group_index: ls[0].group_index, entries: entry_insert(es, d) };
        assert(r =~= seq![upd] + ls.drop_first());
        assert forall|j: int, k: int| 0 <= j < k < r.len() implies r[j].group_index
            < r[k].group_index by {
            if j > 0 {
                assert(r[j] == ls[j] && r[k] == ls[k]);
            } else {
                assert(r[k] == ls[k]);
            }
        }
        assert forall|j: int| 0 <= j < r.len() implies layout_wf(#[trigger] r[j]) by {
            if j > 0 {
                assert(r[j] == ls[j]);
            }
        }
        assert forall|g: u32| #[trigger] group_present(r, g) implies group_present(ls, g) || g
            == d.group by {
            let j = choose|j: int| 0 <= j < r.len() && (#[trigger] r[j]).group_index == g;
            assert(ls[j].group_index == g);
        }
        assert forall|g: u32| group_present(ls, g) || g == d.group implies #[trigger] group_present(
            r,
            g,
        ) by {
            if group_present(ls, g) {
                let j = choose|j: int| 0 <= j < ls.len() && (#[trigger] ls[j]).group_index == g;
                assert(r[j].group_index == g);
            } else {
                assert(r[0].group_index == g);
            }
        }
        assert forall|e: ShaderBindingDescriptor| #[trigger] layouts_have(r, e) implies layouts_have(
            ls,
            e,
        ) || e == d by {
            let j = choose|j: int|
                0 <= j < r.len() && (#[trigger] r[j]).group_index == e.group
                    && r[j].entries.contains(e);
            if j > 0 {
                assert(ls[j].group_index == e.group && ls[j].entries.contains(e));
            } else {
                if e != d {
                    assert(es.contains(e));
                    assert(ls[0].group_index == e.group && ls[0].entries.contains(e));
                }
            }
        }
        assert forall|e: ShaderBindingDescriptor| layouts_have(ls, e) || e == d implies #[trigger] layouts_have(
            r,
            e,
        ) by {
            if layouts_have(ls, e) {
                let j = choose|j: int|
                    0 <= j < ls.len() && (#[trigger] ls[j]).group_index == e.group
                        && ls[j].entries.contains(e);
                if j == 0 {
                    assert(upd.entries.contains(e));
                    assert(r[0].group_index == e.group && r[0].entries.contains(e));
                } else {
                    assert(r[j].group_index == e.group && r[j].entries.contains(e));
                }
            } else {
                assert(upd.entries.contains(d));
                assert(r[0].group_index == d.group && r[0].entries.contains(d));
            }
        }
    } else {
        let tail = ls.drop_first();
        assert(forall|a: int| 0 <= a < tail.len() ==> (#[trigger] tail[a]) == ls[a + 1]);
        assert forall|j: int|
            0 <= j < tail.len() && (#[trigger] tail[j]).group_index == d.group implies forall|
            a: int,
        | 0 <= a < tail[j].entries.len() ==> (#[trigger] tail[j].entries[a]).binding
            != d.binding by {
            assert(ls[j + 1].group_index == d.group);
        }
        lemma_layout_insert_wf(tail, d);
        let rt = layout_insert(tail, d);
        assert(r =~= seq![ls[0]] + rt);
        assert forall|k: int| 0 <= k < rt.len() implies ls[0].group_index < (
        #[trigger] rt[k]).group_index by {
            assert(group_present(rt, rt[k].group_index));
            if group_present(tail, rt[k].group_index) {
                let j = choose|j: int|
                    0 <= j < tail.len() && (#[trigger] tail[j]).group_index == rt[k].group_index;
                assert(ls[0].group_index < ls[j + 1].group_index);
            }
        }
        assert forall|j: int, k: int| 0 <= j < k < r.len() implies r[j].group_index
            < r[k].group_index by {
            if j > 0 {
                assert(r[j] == rt[j - 1] && r[k] == rt[k - 1]);
            } else {
                assert(r[k] == rt[k - 1]);
            }
        }
        assert forall|j: int| 0 <= j < r.len() implies layout_wf(#[trigger] r[j]) by {
            if j > 0 {
                assert(r[j] == rt[j - 1]);
            }
        }
        assert forall|g: u32| #[trigger] group_present(r, g) implies group_present(ls, g) || g
            == d.group by {
            let j = choose|j: int| 0 <= j < r.len() && (#[trigger] r[j]).group_index == g;
            if j > 0 {
                assert(rt[j - 1].group_index == g);
                assert(group_present(rt, g));
                if group_present(tail, g) {
                    let k = choose|k: int|
                        0 <= k < tail.len() && (#[trigger] tail[k]).group_index == g;
                    assert(ls[k + 1].group_index == g);
                }
            }
        }
        assert forall|g: u32| group_present(ls, g) || g == d.group implies #[trigger] group_present(
            r,
            g,
        ) by {
            if group_present(ls, g) {
                let j = choose|j: int| 0 <= j < ls.len() && (#[trigger] ls[j]).group_index == g;
                if j == 0 {
                    assert(r[0].group_index == g);
                } else {
                    assert(tail[j - 1].group_index == g);
                    assert(group_present(tail, g));
                    assert(group_present(rt, g));
                    let k = choose|k: int| 0 <= k < rt.len() && (#[trigger] rt[k]).group_index == g;
                    assert(r[k + 1].group_index == g);
                }
            } else {
                assert(group_present(rt, g));
                let k = choose|k: int| 0 <= k < rt.len() && (#[trigger] rt[k]).group_index == g;
                assert(r[k + 1].group_index == g);
            }
        }
        assert forall|e: ShaderBindingDescriptor| #[trigger] layouts_have(r, e) implies layouts_have(
            ls,
            e,
        ) || e == d by {
            let j = choose|j: int|
                0 <= j < r.len() && (#[trigger] r[j]).group_index == e.group
                    && r[j].entries.contains(e);
            if j > 0 {
                assert(rt[j - 1].group_index == e.group && rt[j - 1].entries.contains(e));
                assert(layouts_have(rt, e));
                if layouts_have(tail, e) {
                    let k = choose|k: int|
                        0 <= k < tail.len() && (#[trigger] tail[k]).group_index == e.group
                            && tail[k].entries.contains(e);
                    assert(ls[k + 1].group_index == e.group && ls[k + 1].entries.contains(e));
                }
            }
        }
        assert forall|e: ShaderBindingDescriptor| layouts_have(ls, e) || e == d implies #[trigger] layouts_have(
            r,
            e,
        ) by {
            if layouts_have(ls, e) {
                let j = choose|j: int|
                    0 <= j < ls.len() && (#[trigger] ls[j]).group_index == e.group
                        && ls[j].entries.contains(e);
                if j == 0 {
                    assert(r[0].group_index == e.group && r[0].entries.contains(e));
                } else {
                    assert(tail[j - 1].group_index == e.group && tail[j - 1].entries.contains(e));
                    assert(layouts_have(tail, e));
                    assert(layouts_have(rt, e));
                    let k = choose|k: int|
                        0 <= k < rt.len() && (#[trigger] rt[k]).group_index == e.group
                            && rt[k].entries.contains(e);
                    assert(r[k + 1].group_index == e.group && r[k + 1].entries.contains(e));
                }
            } else {
                assert(layouts_have(rt, d));
                let k = choose|k: int|
                    0 <= k < rt.len() && (#[trigger] rt[k]).group_index == d.group
                        && rt[k].entries.contains(d);
                assert(r[k + 1].group_index == d.group && r[k + 1].entries.contains(d));
            }
        }
    }
}

/// Inserts one descriptor into a layout list, exactly as [`layout_insert`]
/// describes.
fn insert_descriptor(layouts: &mut Vec<BindGroupLayout>, d: ShaderBindingDescriptor)
    ensures
        views_of(final(layouts)@) == layout_insert(views_of(old(layouts)@), d),
{
    let ghost orig = views_of(layouts@);
    let mut j: usize = 0;
    while j < layouts.len() && layouts[j].group_index < d.group
        invariant
            0 <= j <= layouts@.len(),
            layouts@ == old(layouts)@,
            orig == views_of(layouts@),
            forall|a: int| 0 <= a < j ==> (#[trigger] orig[a]).group_index < d.group,
        decreases layouts@.len() - j,
    {
        proof {
            assert(orig[j as int] == layouts@[j as int]@);
        }
        j = j + 1;
    }
    proof {
        lemma_layout_insert_prefix(orig, d, j as int);
    }
    if j < layouts.len() && layouts[j].group_index == d.group {
        let mut layout = layouts.remove(j);
        let ghost entries_orig = layout.entries@;
        let mut k: usize = 0;
        while k < layout.entries.len() && layout.entries[k].binding <= d.binding
            invariant
                0 <= k <= layout.entries@.len(),
                layout.entries@ == entries_orig,
                forall|a: int| 0 <= a < k ==> (#[trigger] entries_orig[a]).binding <= d.binding,
            decreases layout.entries@.len() - k,
        {
            k = k + 1;
        }
        proof {
            lemma_entry_insert_prefix(entries_orig, d, k as int);
            let s = entries_orig.skip(k as int);
            if s.len() > 0 {
                assert(s[0] == entries_orig[k as int]);
                assert(d.binding < s[0].binding);
            }
            assert(entry_insert(s, d) =~= seq![d] + s);
            assert(entry_insert(entries_orig, d) =~= entries_orig.take(k as int) + (seq![d]
                + entries_orig.skip(k as int)));
        }
        layout.entries.insert(k, d);
        proof {
            assert(layout.entries@ =~= entries_orig.take(k as int) + (seq![d] + entries_orig.skip(
                k as int,
            )));
            assert(layout.entries@ == entry_insert(entries_orig, d));
        }
        layouts.insert(j, layout);
        proof {
            let s = orig.skip(j as int);
            assert(s[0] == orig[j as int]);
            assert(layout_insert(s, d) =~= seq![
                BindGroupLayoutView { group_index: s[0].group_index, entries: entry_insert(s[0].entries, d) },
            ] + s.drop_first());
            assert(views_of(layouts@) =~~= orig.take(j as int) + layout_insert(
                orig.skip(j as int),
                d,
            ));
            assert(views_of(layouts@) =~~= layout_insert(orig, d));
        }
    } else {
        let mut entries: Vec<ShaderBindingDescriptor> = Vec::new();
        entries.push(d);
        let fresh = BindGroupLayout { group_index: d.group, entries };
        proof {
            assert(fresh@.entries =~= seq![d]);
        }
        layouts.insert(j, fresh);
        proof {
            let s = orig.skip(j as int);
            if s.len() > 0 {
                assert(s[0] == orig[j as int]);
                assert(d.group < s[0].group_index);
            }
            assert(layout_insert(s, d) =~~= seq![
                BindGroupLayoutView { group_index: d.group, entries: seq![d] },
            ] + s);
            assert(views_of(layouts@) =~~= orig.take(j as int) + layout_insert(
                orig.skip(j as int),
                d,
            ));
            assert(views_of(layouts@) =~~= layout_insert(orig, d));
        }
    }
}

/// For every binding list without duplicate (group, binding) pairs,
/// synthesis yields exactly one layout per distinct group index — the layout
/// list is sorted strictly ascending by group index, so no group appears
/// twice, and a group is present exactly when some descriptor declares it —
/// and each layout holds exactly the descriptors of its group, sorted by
/// binding index ascending, whatever order the descriptors were declared in.
pub proof fn lemma_synthesize_layouts(bs: Seq<ShaderBindingDescriptor>)
    requires
        pairwise_unique(bs),
    ensures
        layouts_wf(synthesize_spec(bs)),
        forall|g: u32| #[trigger]
            group_present(synthesize_spec(bs), g) <==> exists|i: int|
                0 <= i < bs.len() && (#[trigger] bs[i]).group == g,
        forall|e: ShaderBindingDescriptor| #[trigger]
            layouts_have(synthesize_spec(bs), e) <==> bs.contains(e),
    decreases bs.len(),
{
    let r = synthesize_spec(bs);
    if bs.len() == 0 {
        assert forall|g: u32| #[trigger] group_present(r, g) implies exists|i: int|
            0 <= i < bs.len() && (#[trigger] bs[i]).group == g by {
            let j = choose|j: int| 0 <= j < r.len() && (#[trigger] r[j]).group_index == g;
        }
        assert forall|e: ShaderBindingDescriptor| #[trigger] layouts_have(r, e) implies bs.contains(
            e,
        ) by {
            let j = choose|j: int|
                0 <= j < r.len() && (#[trigger] r[j]).group_index == e.group
                    && r[j].entries.contains(e);
        }
    } else {
        let prefix = bs.drop_last();
        let d = bs.last();
        assert(forall|a: int| 0 <= a < prefix.len() ==> (#[trigger] prefix[a]) == bs[a]);
        lemma_synthesize_layouts(prefix);
        let sp = synthesize_spec(prefix);
        assert forall|j: int|
            0 <= j < sp.len() && (#[trigger] sp[j]).group_index == d.group implies forall|a: int|
            0 <= a < sp[j].entries.len() ==> (#[trigger] sp[j].entries[a]).binding
            != d.binding by {
            assert forall|a: int| 0 <= a < sp[j].entries.len() implies (
            #[trigger] sp[j].entries[a]).binding != d.binding by {
                let e = sp[j].entries[a];
                assert(layout_wf(sp[j]));
                assert(e.group == sp[j].group_index);
                assert(sp[j].entries.contains(e));
                assert(layouts_have(sp, e));
                assert(prefix.contains(e));
                let i = choose|i: int| 0 <= i < prefix.len() && prefix[i] == e;
                assert(bs[i] == e);
                if e.binding == d.binding {
                    assert(same_slot(bs[i], bs[bs.len() - 1]));
                    assert(false);
                }
            }
        }
        lemma_layout_insert_wf(sp, d);
        assert forall|g: u32| #[trigger] group_present(r, g) implies exists|i: int|
            0 <= i < bs.len() && (#[trigger] bs[i]).group == g by {
            if group_present(sp, g) {
                let i = choose|i: int| 0 <= i < prefix.len() && (#[trigger] prefix[i]).group == g;
                assert(bs[i].group == g);
            } else {
                assert(bs[bs.len() - 1].group == g);
            }
        }
        assert forall|g: u32|
            (exists|i: int| 0 <= i < bs.len() && (#[trigger] bs[i]).group == g) implies #[trigger] group_present(
            r,
            g,
        ) by {
            let i = choose|i: int| 0 <= i < bs.len() && (#[trigger] bs[i]).group == g;
            if i < bs.len() - 1 {
                assert(prefix[i].group == g);
                assert(group_present(sp, g));
            }
        }
        assert forall|e: ShaderBindingDescriptor| #[trigger] layouts_have(r, e) implies bs.contains(
            e,
        ) by {
            if layouts_have(sp, e) {
                let i = choose|i: int| 0 <= i < prefix.len() && prefix[i] == e;
                assert(bs[i] == e);
            } else {
                assert(bs[bs.len() - 1] == e);
            }
        }
        assert forall|e: ShaderBindingDescriptor| bs.contains(e) implies #[trigger] layouts_have(
            r,
            e,
        ) by {
            let i = choose|i: int| 0 <= i < bs.len() && bs[i] == e;
            if i < bs.len() - 1 {
                assert(prefix[i] == e);
                assert(prefix.contains(e));
            }
        }
    }
}

/// Synthesizes one layout per binding group from the reflected descriptors.
///
/// Succeeds exactly when no two descriptors share a (group, binding) pair;
/// the result is then [`synthesize_spec`] of the input: well-formed layouts,
/// sorted by group index, each holding its group's descriptors sorted by
/// binding index (see [`lemma_synthesize_layouts`]). Otherwise it reports
/// one colliding pair.
pub fn synthesize(bindings: &Vec<ShaderBindingDescriptor>) -> (r: Result<
    Vec<BindGroupLayout>,
    SynthesisError,
>)
    ensures
        match r {
            Ok(ls) => {
                &&& pairwise_unique(bindings@)
                &&& views_of(ls@) == synthesize_spec(bindings@)
                &&& layouts_wf(views_of(ls@))
            },
            Err(e) => {
                &&& !pairwise_unique(bindings@)
                &&& match e {
                    SynthesisError::DuplicateBindingIndex { group, binding } => exists|
                        i: int,
                        j: int,
                    |
                        0 <= i < j < bindings@.len() && #[trigger] same_slot(
                            bindings@[i],
                            bindings@[j],
                        ) && bindings@[i].group == group && bindings@[i].binding == binding,
                    _ => false,
                }
            },
        },
{
    let n = bindings.len();
    let mut j: usize = 1;
    while j < n
        invariant
            1 <= j <= n || n == 0,
            n == bindings@.len(),
            forall|a: int, b: int| 0 <= a < b < j ==> !same_slot(bindings@[a], bindings@[b]),
        decreases n - j,
    {
        let mut i: usize = 0;
        while i < j
            invariant
                0 <= i <= j < n,
                n == bindings@.len(),
                forall|a: int, b: int| 0 <= a < b < j ==> !same_slot(bindings@[a], bindings@[b]),
                forall|a: int| 0 <= a < i ==> !same_slot(bindings@[a], bindings@[j as int]),
            decreases j - i,
        {
            if bindings[i].group == bindings[j].group && bindings[i].binding == bindings[j].binding
            {
                proof {
                    assert(same_slot(bindings@[i as int], bindings@[j as int]));
                }
                return Err(
                    SynthesisError::DuplicateBindingIndex {
                        group: bindings[i].group,
                        binding: bindings[i].binding,
                    },
                );
            }
            i = i + 1;
        }
        j = j + 1;
    }
    let mut layouts: Vec<BindGroupLayout> = Vec::new();
    let mut i: usize = 0;
    proof {
        assert(bindings@.take(0) =~= Seq::<ShaderBindingDescriptor>::empty());
        assert(views_of(layouts@) =~= Seq::<BindGroupLayoutView>::empty());
    }
    while i < n
        invariant
            0 <= i <= n,
            n == bindings@.len(),
            pairwise_unique(bindings@),
            views_of(layouts@) == synthesize_spec(bindings@.take(i as int)),
        decreases n - i,
    {
        insert_descriptor(&mut layouts, bindings[i]);
        proof {
            let t = bindings@.take(i as int + 1);
            assert(t.drop_last() =~= bindings@.take(i as int));
            assert(t.last() == bindings@[i as int]);
        }
        i = i + 1;
    }
    proof {
        assert(bindings@.take(n as int) =~= bindings@);
        lemma_synthesize_layouts(bindings@);
    }
    Ok(layouts)
}

proof fn lemma_group_index_lower(ls: Seq<BindGroupLayoutView>, j: int)
    requires
        forall|a: int, b: int| 0 <= a < b < ls.len() ==> ls[a].group_index < ls[b].group_index,
        0 <= j < ls.len(),
    ensures
        ls[j].group_index >= j,
    decreases j,
{
    if j > 0 {
        lemma_group_index_lower(ls, j - 1);
        assert(ls[j - 1].group_index < ls[j].group_index);
    }
}

/// Checks that a well-formed layout list is dense: its group indices are
/// exactly 0, 1, ... up to its length, so it can be handed to pipeline
/// creation as an index-ordered list. The first missing group index is
/// reported as a gap.
pub fn dense_group_ordering(layouts: &Vec<BindGroupLayout>) -> (r: Result<(), SynthesisError>)
    requires
        layouts_wf(views_of(layouts@)),
    ensures
        match r {
            Ok(()) => forall|j: int|
                0 <= j < layouts@.len() ==> (#[trigger] layouts@[j]@).group_index == j,
            Err(e) => match e {
                SynthesisError::DiscontiguousGroupIndex(g) => {
                    &&& g < layouts@.len()
                    &&& layouts@[g as int]@.group_index != g
                    &&& forall|j: int| 0 <= j < g ==> (#[trigger] layouts@[j]@).group_index == j
                },
                _ => false,
            },
        },
{
    let ghost views = views_of(layouts@);
    let mut j: usize = 0;
    while j < layouts.len()
        invariant
            0 <= j <= layouts@.len(),
            views == views_of(layouts@),
            layouts_wf(views),
            forall|a: int| 0 <= a < j ==> (#[trigger] layouts@[a]@).group_index == a,
        decreases layouts@.len() - j,
    {
        proof {
            lemma_group_index_lower(views, j as int);
            assert(views[j as int] == layouts@[j as int]@);
        }
        if layouts[j].group_index != j as u32 {
            return Err(SynthesisError::DiscontiguousGroupIndex(j as u32));
        }
        j = j + 1;
    }
    Ok(())
}

} // verus!
