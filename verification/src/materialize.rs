use vstd::prelude::*;
use crate::accel::Accelerator;
use crate::types::{elems_view, elements_wf, root_children, ElementView, MenuElement, MenuError,
    MenuTemplate, TemplateNodeView, Warning};
use crate::interpret::{lemma_spec_apply_wf, spec_apply};
use crate::types::InstructionView;
use crate::Menu;

verus! {

/// One flat widget descriptor of the materialized output tree.
#[derive(Debug)]
pub struct OutputNode {
    pub text: String,
    pub enabled: bool,
    pub accelerator: Option<Accelerator>,
}

/// The abstract value of an output descriptor.
pub struct OutputNodeView {
    pub text: Seq<char>,
    pub enabled: bool,
    pub accelerator: Option<Accelerator>,
}

impl View for OutputNode {
    type V = OutputNodeView;

    open spec fn view(&self) -> OutputNodeView {
        OutputNodeView { text: self.text@, enabled: self.enabled, accelerator: self.accelerator }
    }
}

/// The abstract values of an output list.
pub open spec fn output_views(s: Seq<OutputNode>) -> Seq<OutputNodeView> {
    Seq::new(s.len(), |i: int| s[i]@)
}

/// The descriptors of the first `i` children of the root, in stored order.
/// A missing child or a nested container is a fatal condition.
pub open spec fn spec_materialize_children(
    ev: Map<u64, ElementView>,
    cs: Seq<u64>,
    i: int,
) -> Result<Seq<OutputNodeView>, MenuError>
    decreases i,
{
    if i <= 0 || cs.len() < i {
        Ok(Seq::empty())
    } else {
        match spec_materialize_children(ev, cs, i - 1) {
            Err(e) => Err(e),
            Ok(out) => {
                if !ev.contains_key(cs[i - 1]) {
                    Err(MenuError::DanglingHandle)
                } else {
                    match ev[cs[i - 1]] {
                        ElementView::Item { text, accelerator, enabled } => Ok(
                            out.push(OutputNodeView { text, enabled, accelerator }),
                        ),
                        ElementView::Root { .. } => Err(MenuError::UnsupportedNestedElement),
                    }
                }
            },
        }
    }
}

/// The whole materialized output: the root container's children flattened
/// into descriptors, in order.
pub open spec fn spec_materialize(ev: Map<u64, ElementView>) -> Result<
    Seq<OutputNodeView>,
    MenuError,
> {
    if !ev.contains_key(0) {
        Err(MenuError::DanglingHandle)
    } else {
        match ev[0] {
            ElementView::Item { .. } => Err(MenuError::NotAContainer),
            ElementView::Root { children } => spec_materialize_children(
                ev,
                children,
                children.len() as int,
            ),
        }
    }
}

/// An error among the first children stays in every longer prefix.
pub proof fn lemma_materialize_err_persists(
    ev: Map<u64, ElementView>,
    cs: Seq<u64>,
    i: int,
    m: int,
    e: MenuError,
)
    requires
        spec_materialize_children(ev, cs, i) == Err::<Seq<OutputNodeView>, MenuError>(e),
        i <= m <= cs.len(),
    ensures
        spec_materialize_children(ev, cs, m) == Err::<Seq<OutputNodeView>, MenuError>(e),
    decreases m - i,
{
    if i < m {
        lemma_materialize_err_persists(ev, cs, i, m - 1, e);
    }
}

pub proof fn lemma_materialize_children_complete(ev: Map<u64, ElementView>, cs: Seq<u64>, i: int)
    requires
        0 <= i <= cs.len(),
        forall|j: int|
            0 <= j < cs.len() ==> ev.contains_key(#[trigger] cs[j]) && ev[cs[j]] is Item,
    ensures
        match spec_materialize_children(ev, cs, i) {
            Ok(out) => out.len() == i && forall|j: int|
                0 <= j < i ==> (match ev[cs[j]] {
                    ElementView::Item { text, accelerator, enabled } => #[trigger] out[j]
                        == (OutputNodeView { text, enabled, accelerator }),
                    ElementView::Root { .. } => false,
                }),
            Err(_) => false,
        },
    decreases i,
{
    if i > 0 {
        lemma_materialize_children_complete(ev, cs, i - 1);
    }
}

/// Completeness law: for every well-formed element tree, materialization
/// succeeds, and the output holds exactly one descriptor per item attached
/// to the root container, in the order they were attached, each carrying
/// that item's text, enabled flag and accelerator.
pub proof fn lemma_materialize_complete(ev: Map<u64, ElementView>)
    requires
        elements_wf(ev),
    ensures
        match spec_materialize(ev) {
            Ok(out) => out.len() == root_children(ev).len() && forall|i: int|
                0 <= i < out.len() ==> (match ev[root_children(ev)[i]] {
                    ElementView::Item { text, accelerator, enabled } => #[trigger] out[i]
                        == (OutputNodeView { text, enabled, accelerator }),
                    ElementView::Root { .. } => false,
                }),
            Err(_) => false,
        },
{
    match ev[0] {
        ElementView::Root { children } => {
            assert(root_children(ev) == children);
            lemma_materialize_children_complete(ev, children, children.len() as int);
        },
        ElementView::Item { .. } => {},
    }
}

impl Menu {
    /// Walks the root container's children in stored order and emits one
    /// widget descriptor per menu item, in the same order. A child that is
    /// missing or that is itself a container is a fatal condition.
    pub fn materialize(&self) -> (r: Result<Vec<OutputNode>, MenuError>)
        ensures
            match r {
                Ok(out) => spec_materialize(elems_view(self.elements@)) == Ok::<_, MenuError>(
                    output_views(out@),
                ),
                Err(e) => spec_materialize(elems_view(self.elements@)) == Err::<
                    Seq<OutputNodeView>,
                    MenuError,
                >(e),
            },
    {
        let ghost ev = elems_view(self.elements@);
        let mut ids: Vec<u64> = Vec::new();
        match self.elements.get(&0u64) {
            None => {
                return Err(MenuError::DanglingHandle);
            },
            Some(el) => match el {
                MenuElement::Item { .. } => {
                    return Err(MenuError::NotAContainer);
                },
                MenuElement::Root { children } => {
                    proof {
                        assert(ev.contains_key(0));
                        assert(ev[0] == (ElementView::Root { children: children@ }));
                    }
                    let mut j: usize = 0;
                    while j < children.len()
                        invariant
                            j <= children.len(),
                            ids@ == children@.take(j as int),
                        decreases children.len() - j,
                    {
                        ids.push(children[j]);
                        proof {
                            assert(ids@ =~= children@.take((j + 1) as int));
                        }
                        j += 1;
                    }
                    proof {
                        assert(ids@ =~= children@);
                    }
                },
            },
        }
        let ghost cs = ids@;
        let mut out: Vec<OutputNode> = Vec::new();
        proof {
            assert(output_views(out@) =~= Seq::<OutputNodeView>::empty());
        }
        let mut i: usize = 0;
        while i < ids.len()
            invariant
                i <= ids.len(),
                ev == elems_view(self.elements@),
                cs == ids@,
                ev.contains_key(0),
                ev[0] matches ElementView::Root { children: cc } && cc == cs,
                spec_materialize_children(ev, cs, i as int) == Ok::<_, MenuError>(
                    output_views(out@),
                ),
            decreases ids.len() - i,
        {
            let cid = ids[i];
            match self.elements.get(&cid) {
                None => {
                    proof {
                        lemma_materialize_err_persists(
                            ev,
                            cs,
                            i + 1,
                            cs.len() as int,
                            MenuError::DanglingHandle,
                        );
                    }
                    return Err(MenuError::DanglingHandle);
                },
                Some(el) => match el {
                    MenuElement::Root { .. } => {
                        proof {
                            lemma_materialize_err_persists(
                                ev,
                                cs,
                                i + 1,
                                cs.len() as int,
                                MenuError::UnsupportedNestedElement,
                            );
                        }
                        return Err(MenuError::UnsupportedNestedElement);
                    },
                    MenuElement::Item { text, accelerator, enabled } => {
                        let ghost prev = output_views(out@);
                        out.push(
                            OutputNode {
                                text: text.clone(),
                                enabled: *enabled,
                                accelerator: *accelerator,
                            },
                        );
                        proof {
                            assert(output_views(out@) =~= prev.push(
                                OutputNodeView {
                                    text: text@,
                                    enabled: *enabled,
                                    accelerator: *accelerator,
                                },
                            ));
                        }
                    },
                },
            }
            i += 1;
        }
        Ok(out)
    }
}

/// Completeness of a whole pass: from a well-formed tree, a stream that
/// applies cleanly leaves a tree that materializes, with one descriptor per
/// item attached to the root, in attachment order.
pub proof fn lemma_apply_then_materialize(
    nv: Map<slotmap::DefaultKey, TemplateNodeView>,
    tpl: Seq<MenuTemplate>,
    ev: Map<u64, ElementView>,
    instrs: Seq<InstructionView>,
)
    requires
        elements_wf(ev),
    ensures
        match spec_apply(nv, tpl, ev, Seq::empty(), Seq::empty(), instrs, instrs.len() as int) {
            Ok((ef, _, _)) => elements_wf(ef) && (match spec_materialize(ef) {
                Ok(out) => out.len() == root_children(ef).len() && forall|i: int|
                    0 <= i < out.len() ==> (match ef[root_children(ef)[i]] {
                        ElementView::Item { text, accelerator, enabled } => #[trigger] out[i]
                            == (OutputNodeView { text, enabled, accelerator }),
                        ElementView::Root { .. } => false,
                    }),
                Err(_) => false,
            }),
            Err(_) => true,
        },
{
    lemma_spec_apply_wf(
        nv,
        tpl,
        ev,
        Seq::empty(),
        Seq::empty(),
        instrs,
        instrs.len() as int,
    );
    match spec_apply(nv, tpl, ev, Seq::empty(), Seq::empty(), instrs, instrs.len() as int) {
        Ok((ef, _, _)) => {
            lemma_materialize_complete(ef);
        },
        Err(_) => {},
    }
}

} // verus!
