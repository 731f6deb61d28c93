use vstd::prelude::*;
use vstd::string::StringExecFns;
use std::collections::HashMap;
use crate::accel::spec_parse_accel;
use crate::accel::parse_accelerator;
use crate::arena::{arena_contents, NodeArena};
use crate::template::find_template_index;
use crate::types::{elems_view, elements_wf, nodes_view, spec_find_template, stack_ok,
    lemma_elems_view_insert, lemma_elems_view_remove, AttributeValue, AttributeValueView,
    ElementKind, ElementView, Instruction, InstructionView, MenuElement, MenuError, MenuTemplate,
    MenuTemplateNode, TemplateNodeView, Warning};
use crate::Menu;

verus! {

broadcast use vstd::std_specs::hash::group_hash_axioms;

/// The flattened text of the first `i` children: the concatenation of their
/// text contents. A dangling child handle or a nested element child is a
/// fatal condition.
pub open spec fn spec_flat_text(
    nv: Map<slotmap::DefaultKey, TemplateNodeView>,
    cs: Seq<slotmap::DefaultKey>,
    i: int,
) -> Result<Seq<char>, MenuError>
    decreases i,
{
    if i <= 0 || cs.len() < i {
        Ok(Seq::empty())
    } else {
        match spec_flat_text(nv, cs, i - 1) {
            Err(e) => Err(e),
            Ok(t) => {
                if !nv.contains_key(cs[i - 1]) {
                    Err(MenuError::DanglingHandle)
                } else {
                    match nv[cs[i - 1]] {
                        TemplateNodeView::Text(s) => Ok(t + s),
                        TemplateNodeView::Element { .. } => Err(MenuError::UnsupportedNestedElement),
                    }
                }
            },
        }
    }
}

/// An error in a prefix of the children stays in every longer prefix.
pub proof fn lemma_flat_text_err_persists(
    nv: Map<slotmap::DefaultKey, TemplateNodeView>,
    cs: Seq<slotmap::DefaultKey>,
    i: int,
    m: int,
    e: MenuError,
)
    requires
        spec_flat_text(nv, cs, i) == Err::<Seq<char>, MenuError>(e),
        i <= m <= cs.len(),
    ensures
        spec_flat_text(nv, cs, m) == Err::<Seq<char>, MenuError>(e),
    decreases m - i,
{
    if i < m {
        lemma_flat_text_err_persists(nv, cs, i, m - 1, e);
    }
}

/// What one instruction does to the element table and the pending
/// attachment stack: the new table, the new stack, and at most one
/// recoverable warning; or a fatal error.
pub open spec fn spec_step(
    nv: Map<slotmap::DefaultKey, TemplateNodeView>,
    tpl: Seq<MenuTemplate>,
    ev: Map<u64, ElementView>,
    stack: Seq<u64>,
    ins: InstructionView,
) -> Result<(Map<u64, ElementView>, Seq<u64>, Option<Warning>), MenuError> {
    match ins {
        InstructionView::InstantiateTemplate { name, root_index, id } => {
            if id == 0 {
                Err(MenuError::RootOverwrite)
            } else {
                match spec_find_template(tpl, name) {
                    None => Err(MenuError::TemplateNotFound),
                    Some(t) => {
                        if tpl[t].roots@.len() <= root_index {
                            Err(MenuError::RootIndexOutOfRange)
                        } else {
                            let k = tpl[t].roots@[root_index as int];
                            if !nv.contains_key(k) {
                                Err(MenuError::DanglingHandle)
                            } else {
                                match nv[k] {
                                    TemplateNodeView::Text(_) => Err(MenuError::UnsupportedTextRoot),
                                    TemplateNodeView::Element { kind, children, .. } => {
                                        match spec_flat_text(nv, children, children.len() as int) {
                                            Err(e) => Err(e),
                                            Ok(text) => match kind {
                                                ElementKind::Item { accelerator } => Ok(
                                                    (
                                                        ev.insert(
                                                            id,
                                                            ElementView::Item {
                                                                text,
                                                                accelerator,
                                                                enabled: false,
                                                            },
                                                        ),
                                                        stack.push(id),
                                                        None,
                                                    ),
                                                ),
                                            },
                                        }
                                    },
                                }
                            }
                        }
                    },
                }
            }
        },
        InstructionView::AttachChildren { parent, count } => {
            if !ev.contains_key(parent) {
                Err(MenuError::DanglingHandle)
            } else {
                match ev[parent] {
                    ElementView::Item { .. } => Err(MenuError::NotAContainer),
                    ElementView::Root { children } => {
                        let n = stack.len() as int;
                        if n < count {
                            Err(MenuError::StackUnderflow)
                        } else {
                            Ok(
                                (
                                    ev.insert(
                                        parent,
                                        ElementView::Root {
                                            children: children + stack.subrange(n - count, n),
                                        },
                                    ),
                                    stack.take(n - count),
                                    None,
                                ),
                            )
                        }
                    },
                }
            }
        },
        InstructionView::SetAttribute { id, name, value } => {
            if !ev.contains_key(id) {
                Err(MenuError::DanglingHandle)
            } else {
                match ev[id] {
                    ElementView::Root { .. } => Ok((ev, stack, None)),
                    ElementView::Item { text, accelerator, enabled } => {
                        if name == "enabled"@ {
                            match value {
                                AttributeValueView::Bool(b) => Ok(
                                    (
                                        ev.insert(
                                            id,
                                            ElementView::Item { text, accelerator, enabled: b },
                                        ),
                                        stack,
                                        None,
                                    ),
                                ),
                                _ => Ok((ev, stack, Some(Warning::AttributeTypeMismatch { id }))),
                            }
                        } else if name == "accelerator"@ {
                            match value {
                                AttributeValueView::Text(s) => match spec_parse_accel(s) {
                                    Some(a) => Ok(
                                        (
                                            ev.insert(
                                                id,
                                                ElementView::Item {
                                                    text,
                                                    accelerator: Some(a),
                                                    enabled,
                                                },
                                            ),
                                            stack,
                                            None,
                                        ),
                                    ),
                                    None => Ok(
                                        (ev, stack, Some(Warning::MalformedAccelerator { id })),
                                    ),
                                },
                                _ => Ok((ev, stack, Some(Warning::AttributeTypeMismatch { id }))),
                            }
                        } else {
                            Ok((ev, stack, Some(Warning::UnsupportedAttribute { id })))
                        }
                    },
                }
            }
        },
        InstructionView::Unsupported => Ok((ev, stack, Some(Warning::UnsupportedInstruction))),
    }
}

/// A warning as a (possibly empty) report list.
pub open spec fn opt_warn(w: Option<Warning>) -> Seq<Warning> {
    match w {
        Some(x) => seq![x],
        None => Seq::empty(),
    }
}

/// The abstract values of an instruction list.
pub open spec fn instr_views(s: Seq<Instruction>) -> Seq<InstructionView> {
    Seq::new(s.len(), |i: int| s[i]@)
}

/// Applying the first `i` instructions in order: the element table, the
/// stack and the accumulated warning reports after them, or the first fatal
/// error.
pub open spec fn spec_apply(
    nv: Map<slotmap::DefaultKey, TemplateNodeView>,
    tpl: Seq<MenuTemplate>,
    ev: Map<u64, ElementView>,
    stack: Seq<u64>,
    ws: Seq<Warning>,
    instrs: Seq<InstructionView>,
    i: int,
) -> Result<(Map<u64, ElementView>, Seq<u64>, Seq<Warning>), MenuError>
    decreases i,
{
    if i <= 0 || instrs.len() < i {
        Ok((ev, stack, ws))
    } else {
        match spec_apply(nv, tpl, ev, stack, ws, instrs, i - 1) {
            Err(e) => Err(e),
            Ok((e1, s1, w1)) => match spec_step(nv, tpl, e1, s1, instrs[i - 1]) {
                Err(e) => Err(e),
                Ok((e2, s2, w)) => Ok((e2, s2, w1 + opt_warn(w))),
            },
        }
    }
}

/// A fatal error in a prefix of the stream stays in every longer prefix.
pub proof fn lemma_apply_err_persists(
    nv: Map<slotmap::DefaultKey, TemplateNodeView>,
    tpl: Seq<MenuTemplate>,
    ev: Map<u64, ElementView>,
    stack: Seq<u64>,
    ws: Seq<Warning>,
    instrs: Seq<InstructionView>,
    i: int,
    m: int,
    e: MenuError,
)
    requires
        spec_apply(nv, tpl, ev, stack, ws, instrs, i) == Err::<
            (Map<u64, ElementView>, Seq<u64>, Seq<Warning>),
            MenuError,
        >(e),
        i <= m <= instrs.len(),
    ensures
        spec_apply(nv, tpl, ev, stack, ws, instrs, m) == Err::<
            (Map<u64, ElementView>, Seq<u64>, Seq<Warning>),
            MenuError,
        >(e),
    decreases m - i,
{
    if i < m {
        lemma_apply_err_persists(nv, tpl, ev, stack, ws, instrs, i, m - 1, e);
    }
}

/// One successful step keeps the element table and the stack well formed.
pub proof fn lemma_step_wf(
    nv: Map<slotmap::DefaultKey, TemplateNodeView>,
    tpl: Seq<MenuTemplate>,
    ev: Map<u64, ElementView>,
    stack: Seq<u64>,
    ins: InstructionView,
)
    requires
        elements_wf(ev),
        stack_ok(ev, stack),
    ensures
        match spec_step(nv, tpl, ev, stack, ins) {
            Ok((e2, s2, _)) => elements_wf(e2) && stack_ok(e2, s2),
            Err(_) => true,
        },
{
    match spec_step(nv, tpl, ev, stack, ins) {
        Ok((e2, s2, _)) => {
            match ins {
                InstructionView::InstantiateTemplate { id, .. } => {
                    assert(crate::types::root_children(e2) == crate::types::root_children(ev));
                },
                InstructionView::AttachChildren { parent, count } => {
                    assert(ev[parent] is Root);
                    assert(parent == 0);
                    let n = stack.len() as int;
                    match ev[0] {
                        ElementView::Root { children } => {
                            assert(crate::types::root_children(e2) == children + stack.subrange(
                                n - count,
                                n,
                            ));
                        },
                        ElementView::Item { .. } => {},
                    }
                },
                InstructionView::SetAttribute { id, .. } => {
                    if ev.contains_key(id) && ev[id] is Item {
                        assert(id != 0);
                        assert(crate::types::root_children(e2) == crate::types::root_children(ev));
                    }
                },
                InstructionView::Unsupported => {},
            }
        },
        Err(_) => {},
    }
}

/// Applies one instruction against the arena, the registry, the element
/// table and the pending-attachment stack.
fn apply_one(
    nodes: &NodeArena,
    templates: &Vec<MenuTemplate>,
    elements: &mut HashMap<u64, MenuElement>,
    stack: &mut Vec<u64>,
    ins: &Instruction,
) -> (r: Result<Option<Warning>, MenuError>)
    ensures
        match r {
            Ok(w) => spec_step(
                nodes_view(arena_contents(*nodes)),
                templates@,
                elems_view(old(elements)@),
                old(stack)@,
                ins@,
            ) == Ok::<_, MenuError>((elems_view(final(elements)@), final(stack)@, w)),
            Err(e) => spec_step(
                nodes_view(arena_contents(*nodes)),
                templates@,
                elems_view(old(elements)@),
                old(stack)@,
                ins@,
            ) == Err::<(Map<u64, ElementView>, Seq<u64>, Option<Warning>), MenuError>(e)
                && elems_view(final(elements)@) == elems_view(old(elements)@) && final(stack)@
                == old(stack)@,
        },
{
    let ghost nv = nodes_view(arena_contents(*nodes));
    let ghost ev0 = elems_view(old(elements)@);
    match ins {
        Instruction::InstantiateTemplate { name, root_index, id } => {
            if *id == 0 {
                return Err(MenuError::RootOverwrite);
            }
            match find_template_index(templates, name) {
                None => Err(MenuError::TemplateNotFound),
                Some(ti) => {
                    let t = &templates[ti];
                    if *root_index >= t.roots.len() {
                        return Err(MenuError::RootIndexOutOfRange);
                    }
                    let k = t.roots[*root_index];
                    match nodes.get(k) {
                        None => Err(MenuError::DanglingHandle),
                        Some(node) => match node {
                            MenuTemplateNode::Text(_) => Err(MenuError::UnsupportedTextRoot),
                            MenuTemplateNode::Element { kind, children, .. } => {
                                let ghost cs = children@;
                                let mut text = String::new();
                                let mut ci: usize = 0;
                                while ci < children.len()
                                    invariant
                                        ci <= children.len(),
                                        cs == children@,
                                        nv == nodes_view(arena_contents(*nodes)),
                                        ins@ == (InstructionView::InstantiateTemplate {
                                            name: name@,
                                            root_index: *root_index,
                                            id: *id,
                                        }),
                                        *id != 0,
                                        spec_find_template(templates@, name@) == Some(ti as int),
                                        ti < templates@.len(),
                                        (*root_index as int) < templates@[ti as int].roots@.len(),
                                        k == templates@[ti as int].roots@[*root_index as int],
                                        nv.contains_key(k),
                                        nv[k] matches TemplateNodeView::Element {
                                            kind: kk,
                                            dynamic_attrs: _,
                                            children: cc,
                                        } && kk == *kind && cc == cs,
                                        spec_flat_text(nv, cs, ci as int) == Ok::<
                                            Seq<char>,
                                            MenuError,
                                        >(text@),
                                        elements@ == old(elements)@,
                                        stack@ == old(stack)@,
                                    decreases children.len() - ci,
                                {
                                    let ck = children[ci];
                                    match nodes.get(ck) {
                                        None => {
                                            proof {
                                                lemma_flat_text_err_persists(
                                                    nv,
                                                    cs,
                                                    ci + 1,
                                                    cs.len() as int,
                                                    MenuError::DanglingHandle,
                                                );
                                            }
                                            return Err(MenuError::DanglingHandle);
                                        },
                                        Some(cnode) => match cnode {
                                            MenuTemplateNode::Text(s) => {
                                                text.append(s.as_str());
                                            },
                                            MenuTemplateNode::Element { .. } => {
                                                proof {
                                                    lemma_flat_text_err_persists(
                                                        nv,
                                                        cs,
                                                        ci + 1,
                                                        cs.len() as int,
                                                        MenuError::UnsupportedNestedElement,
                                                    );
                                                }
                                                return Err(MenuError::UnsupportedNestedElement);
                                            },
                                        },
                                    }
                                    ci += 1;
                                }
                                let accelerator = match kind {
                                    ElementKind::Item { accelerator } => *accelerator,
                                };
                                let ghost tg = text@;
                                let new_el = MenuElement::Item { text, accelerator, enabled: false };
                                let ghost new_el_g = new_el;
                                elements.insert(*id, new_el);
                                stack.push(*id);
                                proof {
                                    lemma_elems_view_insert(old(elements)@, *id, new_el_g);
                                    assert(new_el_g@ == (ElementView::Item {
                                        text: tg,
                                        accelerator,
                                        enabled: false,
                                    }));
                                    assert(elems_view(elements@) =~= ev0.insert(*id, new_el_g@));
                                }
                                Ok(None)
                            },
                        },
                    }
                },
            }
        },
        Instruction::AttachChildren { parent, count } => {
            match elements.remove(parent) {
                None => {
                    proof {
                        lemma_elems_view_remove(old(elements)@, *parent);
                        assert(elems_view(elements@) =~= ev0);
                    }
                    Err(MenuError::DanglingHandle)
                },
                Some(el) => match el {
                    MenuElement::Item { .. } => {
                        let ghost item = el;
                        elements.insert(*parent, el);
                        proof {
                            lemma_elems_view_remove(old(elements)@, *parent);
                            lemma_elems_view_insert(old(elements)@.remove(*parent), *parent, item);
                            assert(elems_view(elements@) =~= ev0);
                        }
                        Err(MenuError::NotAContainer)
                    },
                    MenuElement::Root { mut children } => {
                        let n: usize = stack.len();
                        if n < *count {
                            let restored = MenuElement::Root { children };
                            let ghost restored_g = restored;
                            elements.insert(*parent, restored);
                            proof {
                                lemma_elems_view_remove(old(elements)@, *parent);
                                lemma_elems_view_insert(
                                    old(elements)@.remove(*parent),
                                    *parent,
                                    restored_g,
                                );
                                assert(elems_view(elements@) =~= ev0);
                            }
                            return Err(MenuError::StackUnderflow);
                        }
                        let start: usize = n - *count;
                        let ghost orig = children@;
                        let mut j: usize = start;
                        while j < n
                            invariant
                                start <= j <= n,
                                n == stack@.len(),
                                stack@ == old(stack)@,
                                children@ == orig + stack@.subrange(start as int, j as int),
                            decreases n - j,
                        {
                            children.push(stack[j]);
                            proof {
                                assert(children@ =~= orig + stack@.subrange(
                                    start as int,
                                    (j + 1) as int,
                                ));
                            }
                            j += 1;
                        }
                        let new_root = MenuElement::Root { children };
                        let ghost new_root_g = new_root;
                        elements.insert(*parent, new_root);
                        stack.truncate(start);
                        proof {
                            lemma_elems_view_remove(old(elements)@, *parent);
                            lemma_elems_view_insert(
                                old(elements)@.remove(*parent),
                                *parent,
                                new_root_g,
                            );
                            assert(elems_view(elements@) =~= ev0.insert(*parent, new_root_g@));
                            assert(stack@ =~= old(stack)@.take(old(stack)@.len() - *count));
                        }
                        Ok(None)
                    },
                },
            }
        },
        Instruction::SetAttribute { id, name, value } => {
            match elements.remove(id) {
                None => {
                    proof {
                        lemma_elems_view_remove(old(elements)@, *id);
                        assert(elems_view(elements@) =~= ev0);
                    }
                    Err(MenuError::DanglingHandle)
                },
                Some(el) => match el {
                    MenuElement::Root { .. } => {
                        let ghost rootv = el;
                        elements.insert(*id, el);
                        proof {
                            lemma_elems_view_remove(old(elements)@, *id);
                            lemma_elems_view_insert(old(elements)@.remove(*id), *id, rootv);
                            assert(elems_view(elements@) =~= ev0);
                        }
                        Ok(None)
                    },
                    MenuElement::Item { text, accelerator, enabled } => {
                        let enabled_name: String = "enabled".to_owned();
                        let accel_name: String = "accelerator".to_owned();
                        if *name == enabled_name {
                            match value {
                                AttributeValue::Bool(b) => {
                                    let updated = MenuElement::Item {
                                        text,
                                        accelerator,
                                        enabled: *b,
                                    };
                                    let ghost ug = updated;
                                    elements.insert(*id, updated);
                                    proof {
                                        lemma_elems_view_remove(old(elements)@, *id);
                                        lemma_elems_view_insert(
                                            old(elements)@.remove(*id),
                                            *id,
                                            ug,
                                        );
                                        assert(elems_view(elements@) =~= ev0.insert(*id, ug@));
                                    }
                                    Ok(None)
                                },
                                _ => {
                                    let restored = MenuElement::Item {
                                        text,
                                        accelerator,
                                        enabled,
                                    };
                                    let ghost rg = restored;
                                    elements.insert(*id, restored);
                                    proof {
                                        lemma_elems_view_remove(old(elements)@, *id);
                                        lemma_elems_view_insert(
                                            old(elements)@.remove(*id),
                                            *id,
                                            rg,
                                        );
                                        assert(elems_view(elements@) =~= ev0);
                                    }
                                    Ok(Some(Warning::AttributeTypeMismatch { id: *id }))
                                },
                            }
                        } else if *name == accel_name {
                            match value {
                                AttributeValue::Text(s) => match parse_accelerator(s.as_str()) {
                                    Some(a) => {
                                        let updated = MenuElement::Item {
                                            text,
                                            accelerator: Some(a),
                                            enabled,
                                        };
                                        let ghost ug = updated;
                                        elements.insert(*id, updated);
                                        proof {
                                            lemma_elems_view_remove(old(elements)@, *id);
                                            lemma_elems_view_insert(
                                                old(elements)@.remove(*id),
                                                *id,
                                                ug,
                                            );
                                            assert(elems_view(elements@) =~= ev0.insert(*id, ug@));
                                        }
                                        Ok(None)
                                    },
                                    None => {
                                        let restored = MenuElement::Item {
                                            text,
                                            accelerator,
                                            enabled,
                                        };
                                        let ghost rg = restored;
                                        elements.insert(*id, restored);
                                        proof {
                                            lemma_elems_view_remove(old(elements)@, *id);
                                            lemma_elems_view_insert(
                                                old(elements)@.remove(*id),
                                                *id,
                                                rg,
                                            );
                                            assert(elems_view(elements@) =~= ev0);
                                        }
                                        Ok(Some(Warning::MalformedAccelerator { id: *id }))
                                    },
                                },
                                _ => {
                                    let restored = MenuElement::Item {
                                        text,
                                        accelerator,
                                        enabled,
                                    };
                                    let ghost rg = restored;
                                    elements.insert(*id, restored);
                                    proof {
                                        lemma_elems_view_remove(old(elements)@, *id);
                                        lemma_elems_view_insert(
                                            old(elements)@.remove(*id),
                                            *id,
                                            rg,
                                        );
                                        assert(elems_view(elements@) =~= ev0);
                                    }
                                    Ok(Some(Warning::AttributeTypeMismatch { id: *id }))
                                },
                            }
                        } else {
                            let restored = MenuElement::Item { text, accelerator, enabled };
                            let ghost rg = restored;
                            elements.insert(*id, restored);
                            proof {
                                lemma_elems_view_remove(old(elements)@, *id);
                                lemma_elems_view_insert(old(elements)@.remove(*id), *id, rg);
                                assert(elems_view(elements@) =~= ev0);
                            }
                            Ok(Some(Warning::UnsupportedAttribute { id: *id }))
                        }
                    },
                },
            }
        },
        Instruction::Unsupported => Ok(Some(Warning::UnsupportedInstruction)),
    }
}

impl Menu {
    /// Walks the instruction stream in order and applies each instruction's
    /// effect against the current arena, registry and element tree, with a
    /// transient pending-attachment stack that starts empty. Recoverable
    /// conditions are reported in order; the first fatal error stops the
    /// pass.
    pub fn apply(&mut self, instructions: &Vec<Instruction>) -> (r: Result<Vec<Warning>, MenuError>)
        ensures
            final(self).nodes == old(self).nodes,
            final(self).templates == old(self).templates,
            old(self).wf() ==> final(self).wf(),
            match r {
                Ok(ws) => spec_apply(
                    nodes_view(arena_contents(old(self).nodes)),
                    old(self).templates@,
                    elems_view(old(self).elements@),
                    Seq::empty(),
                    Seq::empty(),
                    instr_views(instructions@),
                    instructions@.len() as int,
                ) matches Ok((e2, s2, w2)) && e2 == elems_view(final(self).elements@) && w2 == ws@,
                Err(e) => spec_apply(
                    nodes_view(arena_contents(old(self).nodes)),
                    old(self).templates@,
                    elems_view(old(self).elements@),
                    Seq::empty(),
                    Seq::empty(),
                    instr_views(instructions@),
                    instructions@.len() as int,
                ) == Err::<(Map<u64, ElementView>, Seq<u64>, Seq<Warning>), MenuError>(e)
                    && exists|p: int|
                    0 <= p <= instructions@.len() && (#[trigger] spec_apply(
                        nodes_view(arena_contents(old(self).nodes)),
                        old(self).templates@,
                        elems_view(old(self).elements@),
                        Seq::empty(),
                        Seq::empty(),
                        instr_views(instructions@),
                        p,
                    ) matches Ok((ep, _, _)) && ep == elems_view(final(self).elements@)),
            },
    {
        let ghost nv = nodes_view(arena_contents(self.nodes));
        let ghost tpl = self.templates@;
        let ghost ev_start = elems_view(self.elements@);
        let ghost ivs = instr_views(instructions@);
        let mut stack: Vec<u64> = Vec::new();
        let mut warnings: Vec<Warning> = Vec::new();
        let mut i: usize = 0;
        while i < instructions.len()
            invariant
                i <= instructions.len(),
                nv == nodes_view(arena_contents(self.nodes)),
                self.nodes == old(self).nodes,
                self.templates == old(self).templates,
                tpl == self.templates@,
                ev_start == elems_view(old(self).elements@),
                ivs == instr_views(instructions@),
                spec_apply(nv, tpl, ev_start, Seq::empty(), Seq::empty(), ivs, i as int) == Ok::<
                    (Map<u64, ElementView>, Seq<u64>, Seq<Warning>),
                    MenuError,
                >((elems_view(self.elements@), stack@, warnings@)),
                old(self).wf() ==> elements_wf(elems_view(self.elements@)) && stack_ok(
                    elems_view(self.elements@),
                    stack@,
                ),
            decreases instructions.len() - i,
        {
            let ghost ev_cur = elems_view(self.elements@);
            let ghost st_cur = stack@;
            proof {
                assert(ivs[i as int] == instructions@[i as int]@);
                if old(self).wf() {
                    lemma_step_wf(nv, tpl, ev_cur, st_cur, ivs[i as int]);
                }
            }
            match apply_one(
                &self.nodes,
                &self.templates,
                &mut self.elements,
                &mut stack,
                &instructions[i],
            ) {
                Ok(w) => {
                    let ghost ws_before = warnings@;
                    match w {
                        Some(x) => {
                            warnings.push(x);
                        },
                        None => {},
                    }
                    proof {
                        assert(warnings@ =~= ws_before + opt_warn(w));
                    }
                },
                Err(e) => {
                    proof {
                        lemma_apply_err_persists(
                            nv,
                            tpl,
                            ev_start,
                            Seq::empty(),
                            Seq::empty(),
                            ivs,
                            i + 1,
                            ivs.len() as int,
                            e,
                        );
                        assert(spec_apply(
                            nv,
                            tpl,
                            ev_start,
                            Seq::empty(),
                            Seq::empty(),
                            ivs,
                            i as int,
                        ) matches Ok((ep, _, _)) && ep == elems_view(self.elements@));
                    }
                    return Err(e);
                },
            }
            i += 1;
        }
        Ok(warnings)
    }
}

/// Every step of a clean run keeps the element table and stack well formed.
pub proof fn lemma_spec_apply_wf(
    nv: Map<slotmap::DefaultKey, TemplateNodeView>,
    tpl: Seq<MenuTemplate>,
    ev: Map<u64, ElementView>,
    stack: Seq<u64>,
    ws: Seq<Warning>,
    instrs: Seq<InstructionView>,
    i: int,
)
    requires
        elements_wf(ev),
        stack_ok(ev, stack),
    ensures
        match spec_apply(nv, tpl, ev, stack, ws, instrs, i) {
            Ok((e2, s2, _)) => elements_wf(e2) && stack_ok(e2, s2),
            Err(_) => true,
        },
    decreases i,
{
    if i > 0 && i <= instrs.len() {
        lemma_spec_apply_wf(nv, tpl, ev, stack, ws, instrs, i - 1);
        match spec_apply(nv, tpl, ev, stack, ws, instrs, i - 1) {
            Ok((e1, s1, _)) => {
                lemma_step_wf(nv, tpl, e1, s1, instrs[i - 1]);
            },
            Err(_) => {},
        }
    }
}

/// Whether an instruction writes to the element with the given handle.
pub open spec fn targets(ins: InstructionView, id: u64) -> bool {
    match ins {
        InstructionView::InstantiateTemplate { id: i, .. } => i == id,
        InstructionView::SetAttribute { id: i, .. } => i == id,
        InstructionView::AttachChildren { .. } => false,
        InstructionView::Unsupported => false,
    }
}

/// An instruction that does not write to an item's handle leaves that item
/// unchanged.
pub proof fn lemma_step_frame(
    nv: Map<slotmap::DefaultKey, TemplateNodeView>,
    tpl: Seq<MenuTemplate>,
    ev: Map<u64, ElementView>,
    stack: Seq<u64>,
    ins: InstructionView,
    id: u64,
)
    requires
        !targets(ins, id),
        ev.contains_key(id),
        ev[id] is Item,
    ensures
        match spec_step(nv, tpl, ev, stack, ins) {
            Ok((e2, _, _)) => e2.contains_key(id) && e2[id] == ev[id],
            Err(_) => true,
        },
{
}

proof fn lemma_enabled_tail(
    nv: Map<slotmap::DefaultKey, TemplateNodeView>,
    tpl: Seq<MenuTemplate>,
    ev0: Map<u64, ElementView>,
    stack0: Seq<u64>,
    ws0: Seq<Warning>,
    instrs: Seq<InstructionView>,
    i0: int,
    id: u64,
    m: int,
)
    requires
        0 <= i0 < m <= instrs.len(),
        instrs[i0] == (InstructionView::SetAttribute {
            id,
            name: "enabled"@,
            value: AttributeValueView::Bool(false),
        }),
        forall|j: int| i0 < j < instrs.len() ==> !targets(#[trigger] instrs[j], id),
        match spec_apply(nv, tpl, ev0, stack0, ws0, instrs, i0) {
            Ok((e, _, _)) => e.contains_key(id) && e[id] is Item,
            Err(_) => false,
        },
    ensures
        match spec_apply(nv, tpl, ev0, stack0, ws0, instrs, m) {
            Ok((e, _, _)) => e.contains_key(id) && (e[id] matches ElementView::Item {
                enabled,
                ..
            } && enabled == false),
            Err(_) => true,
        },
    decreases m,
{
    if m == i0 + 1 {
    } else {
        lemma_enabled_tail(nv, tpl, ev0, stack0, ws0, instrs, i0, id, m - 1);
        match spec_apply(nv, tpl, ev0, stack0, ws0, instrs, m - 1) {
            Ok((e1, s1, _)) => {
                if e1.contains_key(id) && e1[id] is Item {
                    lemma_step_frame(nv, tpl, e1, s1, instrs[m - 1], id);
                }
            },
            Err(_) => {},
        }
    }
}

/// Boundary law: when the last write to an item's `enabled` flag in the
/// stream sets it to false, the item ends up disabled, whatever earlier
/// instructions (including earlier enables) did to it.
pub proof fn lemma_enabled_last_write_wins(
    nv: Map<slotmap::DefaultKey, TemplateNodeView>,
    tpl: Seq<MenuTemplate>,
    ev0: Map<u64, ElementView>,
    stack0: Seq<u64>,
    ws0: Seq<Warning>,
    instrs: Seq<InstructionView>,
    i0: int,
    id: u64,
)
    requires
        0 <= i0 < instrs.len(),
        instrs[i0] == (InstructionView::SetAttribute {
            id,
            name: "enabled"@,
            value: AttributeValueView::Bool(false),
        }),
        forall|j: int| i0 < j < instrs.len() ==> !targets(#[trigger] instrs[j], id),
        match spec_apply(nv, tpl, ev0, stack0, ws0, instrs, i0) {
            Ok((e, _, _)) => e.contains_key(id) && e[id] is Item,
            Err(_) => false,
        },
    ensures
        match spec_apply(nv, tpl, ev0, stack0, ws0, instrs, instrs.len() as int) {
            Ok((e, _, _)) => e.contains_key(id) && (e[id] matches ElementView::Item {
                enabled,
                ..
            } && enabled == false),
            Err(_) => true,
        },
{
    lemma_enabled_tail(nv, tpl, ev0, stack0, ws0, instrs, i0, id, instrs.len() as int);
}

/// Round-trip law: when an accelerator patch carries text that parses, the
/// item afterwards stores exactly the parsed form of that text, so parsing
/// the original text again compares equal to what the element holds.
pub proof fn lemma_accelerator_round_trip(
    nv: Map<slotmap::DefaultKey, TemplateNodeView>,
    tpl: Seq<MenuTemplate>,
    ev: Map<u64, ElementView>,
    stack: Seq<u64>,
    id: u64,
    s: Seq<char>,
)
    requires
        ev.contains_key(id),
        ev[id] is Item,
        spec_parse_accel(s) is Some,
    ensures
        match spec_step(
            nv,
            tpl,
            ev,
            stack,
            InstructionView::SetAttribute {
                id,
                name: "accelerator"@,
                value: AttributeValueView::Text(s),
            },
        ) {
            Ok((e2, s2, w)) => w is None && s2 == stack && e2.contains_key(id) && (e2[id] matches
                ElementView::Item { accelerator, .. } && accelerator == spec_parse_accel(s)),
            Err(_) => false,
        },
{
    proof_of_distinct_names();
}

/// The two recognized attribute names differ.
proof fn proof_of_distinct_names()
    ensures
        "accelerator"@ != "enabled"@,
{
    reveal_strlit("accelerator");
    reveal_strlit("enabled");
    assert("accelerator"@.len() == 11);
    assert("enabled"@.len() == 7);
}

/// Ordering law: instantiating three items and then attaching three
/// children to the root appends exactly those three handles to the root's
/// children, in the order the items were instantiated, not stack order.
pub proof fn lemma_attach_restores_order(
    nv: Map<slotmap::DefaultKey, TemplateNodeView>,
    tpl: Seq<MenuTemplate>,
    ev: Map<u64, ElementView>,
    instrs: Seq<InstructionView>,
    a: u64,
    b: u64,
    c: u64,
)
    requires
        elements_wf(ev),
        instrs.len() == 4,
        instrs[0] matches InstructionView::InstantiateTemplate { id, .. } && id == a,
        instrs[1] matches InstructionView::InstantiateTemplate { id, .. } && id == b,
        instrs[2] matches InstructionView::InstantiateTemplate { id, .. } && id == c,
        instrs[3] == (InstructionView::AttachChildren { parent: 0, count: 3 }),
        spec_apply(nv, tpl, ev, Seq::empty(), Seq::empty(), instrs, 4) is Ok,
    ensures
        match spec_apply(nv, tpl, ev, Seq::empty(), Seq::empty(), instrs, 4) {
            Ok((ef, _, _)) => ef.contains_key(0) && (ef[0] matches ElementView::Root { children }
                && children == crate::types::root_children(ev) + seq![a, b, c]),
            Err(_) => false,
        },
{
    let r0 = spec_apply(nv, tpl, ev, Seq::empty(), Seq::empty(), instrs, 0);
    let r1 = spec_apply(nv, tpl, ev, Seq::empty(), Seq::empty(), instrs, 1);
    let r2 = spec_apply(nv, tpl, ev, Seq::empty(), Seq::empty(), instrs, 2);
    let r3 = spec_apply(nv, tpl, ev, Seq::empty(), Seq::empty(), instrs, 3);
    let r4 = spec_apply(nv, tpl, ev, Seq::empty(), Seq::empty(), instrs, 4);
    assert(r0 == Ok::<(Map<u64, ElementView>, Seq<u64>, Seq<Warning>), MenuError>(
        (ev, Seq::empty(), Seq::empty()),
    ));
    assert(r1 == (match r0 {
        Err(e) => Err(e),
        Ok((e1, s1, w1)) => match spec_step(nv, tpl, e1, s1, instrs[0]) {
            Err(e) => Err(e),
            Ok((e2, s2, w)) => Ok((e2, s2, w1 + opt_warn(w))),
        },
    }));
    assert(r2 == (match r1 {
        Err(e) => Err(e),
        Ok((e1, s1, w1)) => match spec_step(nv, tpl, e1, s1, instrs[1]) {
            Err(e) => Err(e),
            Ok((e2, s2, w)) => Ok((e2, s2, w1 + opt_warn(w))),
        },
    }));
    assert(r3 == (match r2 {
        Err(e) => Err(e),
        Ok((e1, s1, w1)) => match spec_step(nv, tpl, e1, s1, instrs[2]) {
            Err(e) => Err(e),
            Ok((e2, s2, w)) => Ok((e2, s2, w1 + opt_warn(w))),
        },
    }));
    assert(r4 == (match r3 {
        Err(e) => Err(e),
        Ok((e1, s1, w1)) => match spec_step(nv, tpl, e1, s1, instrs[3]) {
            Err(e) => Err(e),
            Ok((e2, s2, w)) => Ok((e2, s2, w1 + opt_warn(w))),
        },
    }));
    if r1 is Err {
        lemma_apply_err_persists(
            nv, tpl, ev, Seq::empty(), Seq::empty(), instrs, 1, 4, r1->Err_0,
        );
    }
    if r2 is Err {
        lemma_apply_err_persists(
            nv, tpl, ev, Seq::empty(), Seq::empty(), instrs, 2, 4, r2->Err_0,
        );
    }
    if r3 is Err {
        lemma_apply_err_persists(
            nv, tpl, ev, Seq::empty(), Seq::empty(), instrs, 3, 4, r3->Err_0,
        );
    }
    match (r1, r2, r3) {
        (Ok((e1, s1, _)), Ok((e2, s2, _)), Ok((e3, s3, _))) => {
            assert(s1 =~= seq![a]);
            assert(s2 =~= seq![a, b]);
            assert(s3 =~= seq![a, b, c]);
            assert(a != 0 && b != 0 && c != 0);
            assert(e3.contains_key(0));
            assert(e3[0] == ev[0]);
            match ev[0] {
                ElementView::Root { children } => {
                    assert(s3.subrange(0, 3) =~= seq![a, b, c]);
                    assert(crate::types::root_children(ev) == children);
                },
                ElementView::Item { .. } => {},
            }
        },
        _ => {},
    }
}

} // verus!
