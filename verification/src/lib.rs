use vstd::prelude::*;

pub mod accel;
pub mod template;
pub mod interpret;
pub mod markup;
pub mod materialize;
pub mod arena;
pub mod types;

use std::collections::HashMap;
use crate::arena::{arena_contents, arena_size_is, NodeArena, ARENA_LIMIT};
use crate::interpret::{instr_views, spec_apply};
use crate::template::{defs_accels_ok, defs_size, lemma_map_extends_trans,
    lemma_registers_ok_mono, lemma_templates_size_mono, map_extends, register_ok, registers_ok,
    templates_size};
use crate::materialize::{output_views, spec_materialize, OutputNode, OutputNodeView};
use crate::types::{elems_view, elements_wf, nodes_view, templates_wf, ElementView, Instruction,
    MenuError, TemplateDef, Warning};

pub use crate::types::{ElementKind, MenuElement, MenuTemplate, MenuTemplateNode};

verus! {

/// The reconciler: the template node arena, the registered templates, and
/// the live element tree, with the root container pre-created under the
/// reserved handle `0`.
pub struct Menu {
    pub nodes: NodeArena,
    pub templates: Vec<MenuTemplate>,
    pub elements: HashMap<u64, MenuElement>,
}

impl Menu {
    /// The structural invariant that every operation of the reconciler
    /// preserves.
    pub open spec fn wf(self) -> bool {
        &&& elements_wf(elems_view(self.elements@))
        &&& templates_wf(nodes_view(arena_contents(self.nodes)), self.templates@)
    }

    /// Makes an empty reconciler: no templates, an empty node arena, and an
    /// element tree that holds only the root container.
    pub fn new() -> (r: Menu)
        ensures
            r.wf(),
            arena_size_is(arena_contents(r.nodes), 0),
            r.templates@ == Seq::<MenuTemplate>::empty(),
            elems_view(r.elements@) == Map::<u64, ElementView>::empty().insert(
                0,
                ElementView::Root { children: Seq::empty() },
            ),
    {
        let mut elements: HashMap<u64, MenuElement> = HashMap::new();
        elements.insert(0, MenuElement::Root { children: Vec::new() });
        let r = Menu { nodes: NodeArena::new(), templates: Vec::new(), elements };
        proof {
            assert(elems_view(r.elements@) =~= Map::<u64, ElementView>::empty().insert(
                0,
                ElementView::Root { children: Seq::empty() },
            ));
        }
        r
    }

    /// One full rebuild pass: registers the reported template definitions in
    /// order, applies the edit instructions against the current state, and
    /// materializes the resulting element tree. The contract ties the final
    /// registry to the definitions (an in-order registration chain), the
    /// final element tree and reports to the instruction stream, the output
    /// to the final tree, and each error to its cause; the arena only ever
    /// grows.
    pub fn rebuild(&mut self, templates: &Vec<TemplateDef>, edits: &Vec<Instruction>) -> (r:
        Result<(Vec<OutputNode>, Vec<Warning>), MenuError>)
        ensures
            old(self).wf() ==> final(self).wf(),
            map_extends(
                nodes_view(arena_contents(old(self).nodes)),
                nodes_view(arena_contents(final(self).nodes)),
            ),
            arena_contents(old(self).nodes).dom().finite() ==> arena_contents(
                final(self).nodes,
            ).dom().finite() && arena_contents(final(self).nodes).dom().len() <= arena_contents(
                old(self).nodes,
            ).dom().len() + templates_size(templates@, templates@.len() as int),
            exists|q: int|
                0 <= q <= templates@.len() && #[trigger] registers_ok(
                    old(self).templates@,
                    final(self).templates@,
                    nodes_view(arena_contents(final(self).nodes)),
                    templates@,
                    q,
                ),
            match r {
                Ok((out, ws)) => registers_ok(
                    old(self).templates@,
                    final(self).templates@,
                    nodes_view(arena_contents(final(self).nodes)),
                    templates@,
                    templates@.len() as int,
                ) && (spec_apply(
                    nodes_view(arena_contents(final(self).nodes)),
                    final(self).templates@,
                    elems_view(old(self).elements@),
                    Seq::empty(),
                    Seq::empty(),
                    instr_views(edits@),
                    edits@.len() as int,
                ) matches Ok((e2, s2, w2)) && e2 == elems_view(final(self).elements@) && w2
                    == ws@) && spec_materialize(elems_view(final(self).elements@)) == Ok::<
                    _,
                    MenuError,
                >(output_views(out@)),
                Err(e) => ((e == MenuError::InvalidAccelerator && exists|d: int|
                    0 <= d < templates@.len() && !defs_accels_ok(
                        (#[trigger] templates@[d]).roots@,
                        templates@[d].roots@.len() as int,
                    )) || (e == MenuError::ArenaFull && arena_contents(
                    final(self).nodes,
                ).dom().len() >= ARENA_LIMIT) || spec_apply(
                    nodes_view(arena_contents(final(self).nodes)),
                    final(self).templates@,
                    elems_view(old(self).elements@),
                    Seq::empty(),
                    Seq::empty(),
                    instr_views(edits@),
                    edits@.len() as int,
                ) == Err::<(Map<u64, ElementView>, Seq<u64>, Seq<Warning>), MenuError>(e)
                    || spec_materialize(elems_view(final(self).elements@)) == Err::<
                    Seq<OutputNodeView>,
                    MenuError,
                >(e)) && (e == MenuError::InvalidAccelerator || e == MenuError::ArenaFull
                    || registers_ok(
                    old(self).templates@,
                    final(self).templates@,
                    nodes_view(arena_contents(final(self).nodes)),
                    templates@,
                    templates@.len() as int,
                )) && (exists|p: int|
                    0 <= p <= edits@.len() && (#[trigger] spec_apply(
                        nodes_view(arena_contents(final(self).nodes)),
                        final(self).templates@,
                        elems_view(old(self).elements@),
                        Seq::empty(),
                        Seq::empty(),
                        instr_views(edits@),
                        p,
                    ) matches Ok((ep, _, _)) && ep == elems_view(final(self).elements@))),
            },
    {
        let ghost ts0 = old(self).templates@;
        let ghost nv0 = nodes_view(arena_contents(old(self).nodes));
        let mut ti: usize = 0;
        while ti < templates.len()
            invariant
                ti <= templates.len(),
                old(self).wf() ==> self.wf(),
                self.elements == old(self).elements,
                ts0 == old(self).templates@,
                nv0 == nodes_view(arena_contents(old(self).nodes)),
                map_extends(nv0, nodes_view(arena_contents(self.nodes))),
                arena_contents(old(self).nodes).dom().finite() ==> arena_contents(
                    self.nodes,
                ).dom().finite() && arena_contents(self.nodes).dom().len() <= arena_contents(
                    old(self).nodes,
                ).dom().len() + templates_size(templates@, ti as int),
                registers_ok(
                    ts0,
                    self.templates@,
                    nodes_view(arena_contents(self.nodes)),
                    templates@,
                    ti as int,
                ),
            decreases templates.len() - ti,
        {
            let ghost ts_prev = self.templates@;
            let ghost nv_prev = nodes_view(arena_contents(self.nodes));
            match self.register(&templates[ti]) {
                Ok(()) => {
                    proof {
                        let nv_new = nodes_view(arena_contents(self.nodes));
                        lemma_map_extends_trans(nv0, nv_prev, nv_new);
                        lemma_registers_ok_mono(ts0, ts_prev, nv_prev, nv_new, templates@, ti as int);
                        let gi: int = (ti + 1) as int;
                        assert(register_ok(
                            ts_prev,
                            self.templates@,
                            nv_new,
                            templates@[gi - 1],
                        ));
                        assert(registers_ok(ts0, self.templates@, nv_new, templates@, gi));
                        assert(templates_size(templates@, gi) == templates_size(
                            templates@,
                            gi - 1,
                        ) + defs_size(
                            templates@[gi - 1].roots@,
                            templates@[gi - 1].roots@.len() as int,
                        ));
                    }
                },
                Err(e) => {
                    proof {
                        let nv_new = nodes_view(arena_contents(self.nodes));
                        lemma_map_extends_trans(nv0, nv_prev, nv_new);
                        lemma_registers_ok_mono(ts0, ts_prev, nv_prev, nv_new, templates@, ti as int);
                        let gt: int = (ti + 1) as int;
                        assert(templates_size(templates@, gt) == templates_size(
                            templates@,
                            gt - 1,
                        ) + defs_size(
                            templates@[gt - 1].roots@,
                            templates@[gt - 1].roots@.len() as int,
                        ));
                        lemma_templates_size_mono(templates@, gt, templates@.len() as int);
                        if e == MenuError::InvalidAccelerator {
                            assert(0 <= ti < templates@.len() && !defs_accels_ok(
                                templates@[ti as int].roots@,
                                templates@[ti as int].roots@.len() as int,
                            ));
                        }
                        assert(spec_apply(
                            nv_new,
                            self.templates@,
                            elems_view(old(self).elements@),
                            Seq::empty(),
                            Seq::empty(),
                            instr_views(edits@),
                            0,
                        ) == Ok::<(Map<u64, ElementView>, Seq<u64>, Seq<Warning>), MenuError>(
                            (elems_view(old(self).elements@), Seq::empty(), Seq::empty()),
                        ));
                    }
                    return Err(e);
                },
            }
            ti += 1;
        }
        let ghost ts_done = self.templates@;
        let ghost nv_done = nodes_view(arena_contents(self.nodes));
        let ws = match self.apply(edits) {
            Ok(w) => w,
            Err(e) => {
                return Err(e);
            },
        };
        let out = match self.materialize() {
            Ok(o) => o,
            Err(e) => {
                proof {
                    assert(spec_apply(
                        nv_done,
                        ts_done,
                        elems_view(old(self).elements@),
                        Seq::empty(),
                        Seq::empty(),
                        instr_views(edits@),
                        edits@.len() as int,
                    ) matches Ok((ep, _, _)) && ep == elems_view(self.elements@));
                }
                return Err(e);
            },
        };
        Ok((out, ws))
    }
}

} // verus!
