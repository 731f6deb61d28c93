use vstd::prelude::*;
use crate::accel::{parse_accelerator, spec_parse_accel, Accelerator};
use crate::arena::{arena_contents, NodeArena, ARENA_LIMIT};
use crate::types::{nodes_view, root_node_wf, spec_find_template, spec_find_template_upto,
    templates_wf, lemma_find_template_stable, lemma_nodes_view_insert, ElementKind, MenuError,
    MenuTemplate, MenuTemplateNode, TemplateAttribute, TemplateDef, TemplateNodeDef,
    TemplateNodeView};
use crate::Menu;

verus! {

broadcast use vstd::std_specs::vec::axiom_vec_index_decreases;

/// The text of the last statically declared accelerator among the first `i`
/// attributes, if any.
pub open spec fn spec_static_accel_text(attrs: Seq<TemplateAttribute>, i: int) -> Option<Seq<char>>
    decreases i,
{
    if i <= 0 || attrs.len() < i {
        None
    } else {
        match attrs[i - 1] {
            TemplateAttribute::Static { name, value } => if name@ == "accelerator"@ {
                Some(value@)
            } else {
                spec_static_accel_text(attrs, i - 1)
            },
            TemplateAttribute::Dynamic { .. } => spec_static_accel_text(attrs, i - 1),
        }
    }
}

/// The dynamic slot indices among the first `i` attributes, in declaration
/// order.
pub open spec fn spec_dynamic_attrs(attrs: Seq<TemplateAttribute>, i: int) -> Seq<usize>
    decreases i,
{
    if i <= 0 || attrs.len() < i {
        Seq::empty()
    } else {
        let rest = spec_dynamic_attrs(attrs, i - 1);
        match attrs[i - 1] {
            TemplateAttribute::Dynamic { id } => rest.push(id),
            TemplateAttribute::Static { .. } => rest,
        }
    }
}

/// One attribute is acceptable: a statically declared accelerator must parse.
pub open spec fn attr_accel_ok(a: TemplateAttribute) -> bool {
    match a {
        TemplateAttribute::Static { name, value } => name@ == "accelerator"@
            ==> spec_parse_accel(value@) is Some,
        TemplateAttribute::Dynamic { .. } => true,
    }
}

/// Every statically declared accelerator among the attributes parses.
pub open spec fn attrs_accel_ok(attrs: Seq<TemplateAttribute>) -> bool {
    forall|j: int| 0 <= j < attrs.len() ==> attr_accel_ok(#[trigger] attrs[j])
}

/// Every statically declared accelerator in the definition tree parses.
pub open spec fn def_accels_ok(def: TemplateNodeDef) -> bool
    decreases def,
{
    match def {
        TemplateNodeDef::Text { .. } => true,
        TemplateNodeDef::Element { attrs, children } => attrs_accel_ok(attrs@) && defs_accels_ok(
            children@,
            children@.len() as int,
        ),
    }
}

/// Every statically declared accelerator in the first `i` definitions parses.
pub open spec fn defs_accels_ok(defs: Seq<TemplateNodeDef>, i: int) -> bool
    decreases defs, i,
{
    if i <= 0 {
        true
    } else if defs.len() < i {
        false
    } else {
        defs_accels_ok(defs, i - 1) && def_accels_ok(defs[i - 1])
    }
}

pub proof fn lemma_defs_accels_ok_index(defs: Seq<TemplateNodeDef>, i: int, j: int)
    requires
        defs_accels_ok(defs, i),
        0 <= j < i <= defs.len(),
    ensures
        def_accels_ok(defs[j]),
    decreases i,
{
    if j < i - 1 {
        lemma_defs_accels_ok_index(defs, i - 1, j);
    }
}


/// The number of arena nodes one definition occupies: itself plus all of
/// its descendants.
pub open spec fn def_size(def: TemplateNodeDef) -> nat
    decreases def,
{
    match def {
        TemplateNodeDef::Text { .. } => 1,
        TemplateNodeDef::Element { children, .. } => 1 + defs_size(
            children@,
            children@.len() as int,
        ),
    }
}

/// The number of arena nodes the first `i` definitions occupy together.
pub open spec fn defs_size(defs: Seq<TemplateNodeDef>, i: int) -> nat
    decreases defs, i,
{
    if i <= 0 || defs.len() < i {
        0
    } else {
        defs_size(defs, i - 1) + def_size(defs[i - 1])
    }
}

pub proof fn lemma_defs_size_mono(defs: Seq<TemplateNodeDef>, i: int, m: int)
    requires
        0 <= i <= m <= defs.len(),
    ensures
        defs_size(defs, i) <= defs_size(defs, m),
    decreases m,
{
    if i < m {
        lemma_defs_size_mono(defs, i, m - 1);
    }
}

/// The number of arena nodes the first `i` template definitions occupy.
pub open spec fn templates_size(ts: Seq<TemplateDef>, i: int) -> nat
    decreases i,
{
    if i <= 0 || ts.len() < i {
        0
    } else {
        templates_size(ts, i - 1) + defs_size(ts[i - 1].roots@, ts[i - 1].roots@.len() as int)
    }
}

pub proof fn lemma_templates_size_mono(ts: Seq<TemplateDef>, i: int, m: int)
    requires
        0 <= i <= m <= ts.len(),
    ensures
        templates_size(ts, i) <= templates_size(ts, m),
    decreases m,
{
    if i < m {
        lemma_templates_size_mono(ts, i, m - 1);
    }
}

/// The element kind a definition's attributes declare: a menu item, carrying
/// the parsed form of the last statically declared accelerator, if any.
pub open spec fn spec_kind_of(attrs: Seq<TemplateAttribute>) -> ElementKind {
    ElementKind::Item {
        accelerator: match spec_static_accel_text(attrs, attrs.len() as int) {
            Some(t) => spec_parse_accel(t),
            None => None,
        },
    }
}

/// The handle denotes the definition in the arena: same shape, same text,
/// same attributes, child for child, in order.
pub open spec fn node_denotes(
    nv: Map<slotmap::DefaultKey, TemplateNodeView>,
    k: slotmap::DefaultKey,
    def: TemplateNodeDef,
) -> bool
    decreases def,
{
    nv.contains_key(k) && match def {
        TemplateNodeDef::Text { text } => match nv[k] {
            TemplateNodeView::Text(t) => t == text@,
            TemplateNodeView::Element { .. } => false,
        },
        TemplateNodeDef::Element { attrs, children } => match nv[k] {
            TemplateNodeView::Element { kind, dynamic_attrs, children: child_keys } => kind
                == spec_kind_of(attrs@) && dynamic_attrs == spec_dynamic_attrs(
                attrs@,
                attrs@.len() as int,
            ) && child_keys.len() == children@.len() && nodes_denote(
                nv,
                child_keys,
                children@,
                children@.len() as int,
            ),
            TemplateNodeView::Text(_) => false,
        },
    }
}

/// The first `i` handles denote the first `i` definitions, pointwise.
pub open spec fn nodes_denote(
    nv: Map<slotmap::DefaultKey, TemplateNodeView>,
    ks: Seq<slotmap::DefaultKey>,
    defs: Seq<TemplateNodeDef>,
    i: int,
) -> bool
    decreases defs, i,
{
    &&& i <= ks.len()
    &&& i <= defs.len()
    &&& forall|j: int| 0 <= j < i ==> node_denotes(nv, ks[j], #[trigger] defs[j])
}

pub proof fn lemma_nodes_denote_index(
    nv: Map<slotmap::DefaultKey, TemplateNodeView>,
    ks: Seq<slotmap::DefaultKey>,
    defs: Seq<TemplateNodeDef>,
    i: int,
    j: int,
)
    requires
        nodes_denote(nv, ks, defs, i),
        0 <= j < i,
    ensures
        node_denotes(nv, ks[j], defs[j]),
{
}

/// Every entry of `c1` stands unchanged in `c2`.
pub open spec fn map_extends(
    c1: Map<slotmap::DefaultKey, TemplateNodeView>,
    c2: Map<slotmap::DefaultKey, TemplateNodeView>,
) -> bool {
    forall|k: slotmap::DefaultKey| #[trigger]
        c1.contains_key(k) ==> c2.contains_key(k) && c2[k] == c1[k]
}

pub proof fn lemma_map_extends_trans(
    c1: Map<slotmap::DefaultKey, TemplateNodeView>,
    c2: Map<slotmap::DefaultKey, TemplateNodeView>,
    c3: Map<slotmap::DefaultKey, TemplateNodeView>,
)
    requires
        map_extends(c1, c2),
        map_extends(c2, c3),
    ensures
        map_extends(c1, c3),
{
}

/// Denotation only reads entries that exist, so it survives arena growth.
pub proof fn lemma_node_denotes_mono(
    c1: Map<slotmap::DefaultKey, TemplateNodeView>,
    c2: Map<slotmap::DefaultKey, TemplateNodeView>,
    k: slotmap::DefaultKey,
    def: TemplateNodeDef,
)
    requires
        map_extends(c1, c2),
        node_denotes(c1, k, def),
    ensures
        node_denotes(c2, k, def),
    decreases def,
{
    match def {
        TemplateNodeDef::Text { .. } => {},
        TemplateNodeDef::Element { attrs, children } => {
            match c1[k] {
                TemplateNodeView::Element { children: child_keys, .. } => {
                    lemma_nodes_denote_mono(c1, c2, child_keys, children@, children@.len() as int);
                },
                TemplateNodeView::Text(_) => {},
            }
        },
    }
}

pub proof fn lemma_nodes_denote_mono(
    c1: Map<slotmap::DefaultKey, TemplateNodeView>,
    c2: Map<slotmap::DefaultKey, TemplateNodeView>,
    ks: Seq<slotmap::DefaultKey>,
    defs: Seq<TemplateNodeDef>,
    i: int,
)
    requires
        map_extends(c1, c2),
        nodes_denote(c1, ks, defs, i),
    ensures
        nodes_denote(c2, ks, defs, i),
    decreases defs, i,
{
    assert forall|j: int| 0 <= j < i implies node_denotes(c2, ks[j], #[trigger] defs[j]) by {
        lemma_node_denotes_mono(c1, c2, ks[j], defs[j]);
    }
}

/// A handle that denotes some definition is well formed in the arena.
pub proof fn lemma_denotes_root_wf(
    nv: Map<slotmap::DefaultKey, TemplateNodeView>,
    k: slotmap::DefaultKey,
    def: TemplateNodeDef,
)
    requires
        node_denotes(nv, k, def),
    ensures
        root_node_wf(nv, k),
{
    match def {
        TemplateNodeDef::Text { .. } => {},
        TemplateNodeDef::Element { attrs, children } => {
            match nv[k] {
                TemplateNodeView::Element { children: child_keys, .. } => {
                    assert forall|j: int| 0 <= j < child_keys.len() implies nv.contains_key(
                        #[trigger] child_keys[j],
                    ) by {
                        lemma_nodes_denote_index(nv, child_keys, children@, children@.len() as int, j);
                    }
                },
                TemplateNodeView::Text(_) => {},
            }
        },
    }
}

/// A well-formed root handle stays well formed as the arena grows.
pub proof fn lemma_root_node_wf_mono(
    c1: Map<slotmap::DefaultKey, TemplateNodeView>,
    c2: Map<slotmap::DefaultKey, TemplateNodeView>,
    k: slotmap::DefaultKey,
)
    requires
        map_extends(c1, c2),
        root_node_wf(c1, k),
    ensures
        root_node_wf(c2, k),
{
}

/// The template holds the definition's name and handles that denote its
/// roots, in order.
pub open spec fn template_denotes(
    nv: Map<slotmap::DefaultKey, TemplateNodeView>,
    t: MenuTemplate,
    def: TemplateDef,
) -> bool {
    &&& t.name@ == def.name@
    &&& t.roots@.len() == def.roots@.len()
    &&& nodes_denote(nv, t.roots@, def.roots@, def.roots@.len() as int)
}

/// What a successful registration does to the registry: the named entry is
/// replaced in place, or appended when the name is new; every other entry
/// stands unchanged; and the named entry denotes the definition.
pub open spec fn register_ok(
    old_ts: Seq<MenuTemplate>,
    new_ts: Seq<MenuTemplate>,
    nv: Map<slotmap::DefaultKey, TemplateNodeView>,
    def: TemplateDef,
) -> bool {
    let target = match spec_find_template(old_ts, def.name@) {
        Some(i) => i,
        None => old_ts.len() as int,
    };
    &&& new_ts.len() == (if spec_find_template(old_ts, def.name@) is Some {
        old_ts.len() as int
    } else {
        old_ts.len() as int + 1
    })
    &&& forall|j: int| 0 <= j < new_ts.len() && j != target ==> new_ts[j] == old_ts[j]
    &&& template_denotes(nv, new_ts[target], def)
}

/// Inserts one definition node and, before it, all of its descendants into
/// the arena (children before their parent), and returns its handle.
fn register_node(arena: &mut NodeArena, def: &TemplateNodeDef) -> (r: Result<
    slotmap::DefaultKey,
    MenuError,
>)
    ensures
        map_extends(
            nodes_view(arena_contents(*old(arena))),
            nodes_view(arena_contents(*final(arena))),
        ),
        arena_contents(*old(arena)).dom().finite() ==> arena_contents(
            *final(arena),
        ).dom().finite() && arena_contents(*final(arena)).dom().len() <= arena_contents(
            *old(arena),
        ).dom().len() + def_size(*def),
        match r {
            Ok(k) => node_denotes(nodes_view(arena_contents(*final(arena))), k, *def)
                && def_accels_ok(*def),
            Err(e) => (e == MenuError::InvalidAccelerator && !def_accels_ok(*def)) || (e
                == MenuError::ArenaFull && arena_contents(*final(arena)).dom().len()
                >= ARENA_LIMIT),
        },
    decreases def,
{
    match def {
        TemplateNodeDef::Text { text } => {
            let n: usize = arena.len();
            if n >= ARENA_LIMIT {
                return Err(MenuError::ArenaFull);
            }
            let ghost c0 = arena_contents(*arena);
            let k = arena.insert(MenuTemplateNode::Text(text.clone()));
            proof {
                lemma_nodes_view_insert(c0, k, MenuTemplateNode::Text(*text));
                assert(arena_contents(*arena).dom() =~= c0.dom().insert(k));
                vstd::set::axiom_set_insert_len(c0.dom(), k);
            }
            Ok(k)
        },
        TemplateNodeDef::Element { attrs, children } => {
            proof {
                assert(*def == (TemplateNodeDef::Element { attrs: *attrs, children: *children }));
            }
            let ghost nv0 = nodes_view(arena_contents(*arena));
            let mut child_keys: Vec<slotmap::DefaultKey> = Vec::new();
            let mut i: usize = 0;
            while i < children.len()
                invariant
                    *def == (TemplateNodeDef::Element { attrs: *attrs, children: *children }),
                    i <= children.len(),
                    child_keys@.len() == i,
                    nv0 == nodes_view(arena_contents(*old(arena))),
                    map_extends(nv0, nodes_view(arena_contents(*arena))),
                    arena_contents(*old(arena)).dom().finite() ==> arena_contents(
                        *arena,
                    ).dom().finite() && arena_contents(*arena).dom().len() <= arena_contents(
                        *old(arena),
                    ).dom().len() + defs_size(children@, i as int),
                    nodes_denote(
                        nodes_view(arena_contents(*arena)),
                        child_keys@,
                        children@,
                        i as int,
                    ),
                    defs_accels_ok(children@, i as int),
                decreases children.len() - i,
            {
                let ghost nv_before = nodes_view(arena_contents(*arena));
                proof {
                    assert((*def)->Element_children == *children);
                    assert(decreases_to!(*def => (*def)->Element_children@[i as int]));
                }
                match register_node(arena, &children[i]) {
                    Ok(k) => {
                        proof {
                            lemma_nodes_denote_mono(
                                nv_before,
                                nodes_view(arena_contents(*arena)),
                                child_keys@,
                                children@,
                                i as int,
                            );
                            lemma_map_extends_trans(
                                nv0,
                                nv_before,
                                nodes_view(arena_contents(*arena)),
                            );
                            let gi: int = (i + 1) as int;
                            assert(defs_size(children@, gi) == defs_size(children@, gi - 1)
                                + def_size(children@[gi - 1]));
                        }
                        child_keys.push(k);
                    },
                    Err(e) => {
                        proof {
                            lemma_map_extends_trans(
                                nv0,
                                nv_before,
                                nodes_view(arena_contents(*arena)),
                            );
                            let gi: int = (i + 1) as int;
                            assert(defs_size(children@, gi) == defs_size(children@, gi - 1)
                                + def_size(children@[gi - 1]));
                            lemma_defs_size_mono(children@, gi, children@.len() as int);
                            assert(def_accels_ok(*def) == (attrs_accel_ok(attrs@)
                                && defs_accels_ok(children@, children@.len() as int)));
                            if e == MenuError::InvalidAccelerator {
                                assert(!def_accels_ok(children@[i as int]));
                                if defs_accels_ok(children@, children@.len() as int) {
                                    lemma_defs_accels_ok_index(
                                        children@,
                                        children@.len() as int,
                                        i as int,
                                    );
                                }
                            }
                        }
                        return Err(e);
                    },
                }
                i += 1;
            }
            let accel_name: String = "accelerator".to_owned();
            let mut acc: Option<Accelerator> = None;
            let mut dynamic_attrs: Vec<usize> = Vec::new();
            let mut j: usize = 0;
            while j < attrs.len()
                invariant
                    *def == (TemplateNodeDef::Element { attrs: *attrs, children: *children }),
                    j <= attrs.len(),
                    accel_name@ == "accelerator"@,
                    nv0 == nodes_view(arena_contents(*old(arena))),
                    map_extends(nv0, nodes_view(arena_contents(*arena))),
                    arena_contents(*old(arena)).dom().finite() ==> arena_contents(
                        *arena,
                    ).dom().finite() && arena_contents(*arena).dom().len() <= arena_contents(
                        *old(arena),
                    ).dom().len() + defs_size(children@, children@.len() as int),
                    child_keys@.len() == children@.len(),
                    nodes_denote(
                        nodes_view(arena_contents(*arena)),
                        child_keys@,
                        children@,
                        children@.len() as int,
                    ),
                    defs_accels_ok(children@, children@.len() as int),
                    forall|t: int| 0 <= t < j ==> attr_accel_ok(#[trigger] attrs@[t]),
                    acc == match spec_static_accel_text(attrs@, j as int) {
                        Some(t) => spec_parse_accel(t),
                        None => None::<Accelerator>,
                    },
                    dynamic_attrs@ == spec_dynamic_attrs(attrs@, j as int),
                decreases attrs.len() - j,
            {
                match &attrs[j] {
                    TemplateAttribute::Static { name, value } => {
                        if *name == accel_name {
                            match parse_accelerator(value.as_str()) {
                                Some(a) => {
                                    acc = Some(a);
                                },
                                None => {
                                    proof {
                                        assert(!attr_accel_ok(attrs@[j as int]));
                                        assert(!attrs_accel_ok(attrs@));
                                        assert(def_accels_ok(*def) == (attrs_accel_ok(attrs@)
                                            && defs_accels_ok(
                                            children@,
                                            children@.len() as int,
                                        )));
                                    }
                                    return Err(MenuError::InvalidAccelerator);
                                },
                            }
                        }
                    },
                    TemplateAttribute::Dynamic { id } => {
                        dynamic_attrs.push(*id);
                    },
                }
                j += 1;
            }
            let n: usize = arena.len();
            if n >= ARENA_LIMIT {
                return Err(MenuError::ArenaFull);
            }
            let ghost c1 = arena_contents(*arena);
            let ghost nv1 = nodes_view(c1);
            let ghost ck = child_keys@;
            let node = MenuTemplateNode::Element {
                kind: ElementKind::Item { accelerator: acc },
                dynamic_attrs,
                children: child_keys,
            };
            let ghost node_snapshot = node;
            let k = arena.insert(node);
            proof {
                lemma_nodes_view_insert(c1, k, node_snapshot);
                assert(arena_contents(*arena).dom() =~= c1.dom().insert(k));
                if arena_contents(*old(arena)).dom().finite() {
                    vstd::set::axiom_set_insert_len(c1.dom(), k);
                }
                let nv2 = nodes_view(arena_contents(*arena));
                lemma_nodes_denote_mono(nv1, nv2, ck, children@, children@.len() as int);
                lemma_map_extends_trans(nv0, nv1, nv2);
                assert(nv2[k] == TemplateNodeView::Element {
                    kind: spec_kind_of(attrs@),
                    dynamic_attrs: spec_dynamic_attrs(attrs@, attrs@.len() as int),
                    children: ck,
                });
            }
            Ok(k)
        },
    }
}

/// The index of the first registered template with the given name, if any.
pub(crate) fn find_template_index(ts: &Vec<MenuTemplate>, name: &String) -> (r: Option<usize>)
    ensures
        match r {
            Some(i) => i < ts@.len() && spec_find_template(ts@, name@) == Some(i as int),
            None => spec_find_template(ts@, name@) is None,
        },
{
    let mut i: usize = 0;
    while i < ts.len()
        invariant
            i <= ts.len(),
            spec_find_template_upto(ts@, name@, i as int) is None,
        decreases ts.len() - i,
    {
        if ts[i].name == *name {
            proof {
                assert(spec_find_template_upto(ts@, name@, i + 1 as int) == Some(i as int));
                lemma_find_template_stable(ts@, name@, i + 1 as int, ts@.len() as int);
            }
            return Some(i);
        }
        i += 1;
    }
    None
}

impl Menu {
    /// Parses one template definition into the node arena (an iterative
    /// depth-first walk that records every node's children before the node
    /// itself) and caches it under its name; registering a name again
    /// replaces the cached entry. Fails only when a statically declared
    /// accelerator is malformed, or when the arena has reached its size
    /// limit. A malformed accelerator is fatal here, unlike in an attribute
    /// patch: a static declaration cannot be skipped without losing part of
    /// the template, so registration rejects the definition whole.
    pub fn register(&mut self, def: &TemplateDef) -> (r: Result<(), MenuError>)
        ensures
            final(self).elements == old(self).elements,
            map_extends(
                nodes_view(arena_contents(old(self).nodes)),
                nodes_view(arena_contents(final(self).nodes)),
            ),
            arena_contents(old(self).nodes).dom().finite() ==> arena_contents(
                final(self).nodes,
            ).dom().finite() && arena_contents(final(self).nodes).dom().len() <= arena_contents(
                old(self).nodes,
            ).dom().len() + defs_size(def.roots@, def.roots@.len() as int),
            old(self).wf() ==> final(self).wf(),
            match r {
                Ok(()) => register_ok(
                    old(self).templates@,
                    final(self).templates@,
                    nodes_view(arena_contents(final(self).nodes)),
                    *def,
                ) && defs_accels_ok(def.roots@, def.roots@.len() as int),
                Err(e) => final(self).templates == old(self).templates && ((e
                    == MenuError::InvalidAccelerator && !defs_accels_ok(
                    def.roots@,
                    def.roots@.len() as int,
                )) || (e == MenuError::ArenaFull && arena_contents(
                    final(self).nodes,
                ).dom().len() >= ARENA_LIMIT)),
            },
    {
        let ghost nv0 = nodes_view(arena_contents(self.nodes));
        let mut root_keys: Vec<slotmap::DefaultKey> = Vec::new();
        let mut i: usize = 0;
        while i < def.roots.len()
            invariant
                i <= def.roots.len(),
                root_keys@.len() == i,
                nv0 == nodes_view(arena_contents(old(self).nodes)),
                self.templates == old(self).templates,
                self.elements == old(self).elements,
                map_extends(nv0, nodes_view(arena_contents(self.nodes))),
                arena_contents(old(self).nodes).dom().finite() ==> arena_contents(
                    self.nodes,
                ).dom().finite() && arena_contents(self.nodes).dom().len() <= arena_contents(
                    old(self).nodes,
                ).dom().len() + defs_size(def.roots@, i as int),
                nodes_denote(
                    nodes_view(arena_contents(self.nodes)),
                    root_keys@,
                    def.roots@,
                    i as int,
                ),
                defs_accels_ok(def.roots@, i as int),
            decreases def.roots.len() - i,
        {
            let ghost nv_before = nodes_view(arena_contents(self.nodes));
            match register_node(&mut self.nodes, &def.roots[i]) {
                Ok(k) => {
                    proof {
                        lemma_nodes_denote_mono(
                            nv_before,
                            nodes_view(arena_contents(self.nodes)),
                            root_keys@,
                            def.roots@,
                            i as int,
                        );
                        lemma_map_extends_trans(
                            nv0,
                            nv_before,
                            nodes_view(arena_contents(self.nodes)),
                        );
                        let gi: int = (i + 1) as int;
                        assert(defs_size(def.roots@, gi) == defs_size(def.roots@, gi - 1)
                            + def_size(def.roots@[gi - 1]));
                    }
                    root_keys.push(k);
                },
                Err(e) => {
                    proof {
                        lemma_map_extends_trans(
                            nv0,
                            nv_before,
                            nodes_view(arena_contents(self.nodes)),
                        );
                        let gi: int = (i + 1) as int;
                        assert(defs_size(def.roots@, gi) == defs_size(def.roots@, gi - 1)
                            + def_size(def.roots@[gi - 1]));
                        lemma_defs_size_mono(def.roots@, gi, def.roots@.len() as int);
                        if e == MenuError::InvalidAccelerator {
                            if defs_accels_ok(def.roots@, def.roots@.len() as int) {
                                lemma_defs_accels_ok_index(
                                    def.roots@,
                                    def.roots@.len() as int,
                                    i as int,
                                );
                            }
                        }
                        if old(self).wf() {
                            lemma_wf_preserved(*old(self), *self);
                        }
                    }
                    return Err(e);
                },
            }
            i += 1;
        }
        let template = MenuTemplate { name: def.name.clone(), roots: root_keys };
        let ghost t_snapshot = template;
        let found = find_template_index(&self.templates, &def.name);
        match found {
            Some(idx) => {
                self.templates[idx] = template;
            },
            None => {
                self.templates.push(template);
            },
        }
        proof {
            let nv2 = nodes_view(arena_contents(self.nodes));
            assert(template_denotes(nv2, t_snapshot, *def));
            if old(self).wf() {
                lemma_wf_after_register(*old(self), *self, t_snapshot, *def);
            }
        }
        Ok(())
    }
}

/// Well-formedness survives arena growth when the registry is unchanged.
proof fn lemma_wf_preserved(m0: Menu, m1: Menu)
    requires
        m1.elements == m0.elements,
        m1.templates == m0.templates,
        map_extends(
            nodes_view(arena_contents(m0.nodes)),
            nodes_view(arena_contents(m1.nodes)),
        ),
        m0.wf(),
    ensures
        m1.wf(),
{
    let nv0 = nodes_view(arena_contents(m0.nodes));
    let nv1 = nodes_view(arena_contents(m1.nodes));
    assert forall|t: int, i: int|
        0 <= t < m1.templates@.len() && 0 <= i < m1.templates@[t].roots@.len() implies root_node_wf(
        nv1,
        #[trigger] m1.templates@[t].roots@[i],
    ) by {
        lemma_root_node_wf_mono(nv0, nv1, m1.templates@[t].roots@[i]);
    }
}

/// Well-formedness after a registration: old templates stay well formed under
/// the grown arena, and the new entry is well formed because it denotes its
/// definition.
proof fn lemma_wf_after_register(m0: Menu, m1: Menu, t: MenuTemplate, def: TemplateDef)
    requires
        m1.elements == m0.elements,
        map_extends(
            nodes_view(arena_contents(m0.nodes)),
            nodes_view(arena_contents(m1.nodes)),
        ),
        template_denotes(nodes_view(arena_contents(m1.nodes)), t, def),
        forall|j: int|
            0 <= j < m1.templates@.len() ==> #[trigger] m1.templates@[j] == t || (0 <= j
                < m0.templates@.len() && m1.templates@[j] == m0.templates@[j]),
        m0.wf(),
    ensures
        m1.wf(),
{
    let nv0 = nodes_view(arena_contents(m0.nodes));
    let nv1 = nodes_view(arena_contents(m1.nodes));
    assert forall|ti: int, i: int|
        0 <= ti < m1.templates@.len() && 0 <= i < m1.templates@[ti].roots@.len() implies
        root_node_wf(nv1, #[trigger] m1.templates@[ti].roots@[i]) by {
        if m1.templates@[ti] == t {
            lemma_nodes_denote_index(nv1, t.roots@, def.roots@, def.roots@.len() as int, i);
            lemma_denotes_root_wf(nv1, t.roots@[i], def.roots@[i]);
        } else {
            lemma_root_node_wf_mono(nv0, nv1, m1.templates@[ti].roots@[i]);
        }
    }
}

proof fn lemma_find_upto_char(ts: Seq<MenuTemplate>, name: Seq<char>, i: int)
    requires
        0 <= i <= ts.len(),
    ensures
        match spec_find_template_upto(ts, name, i) {
            Some(x) => 0 <= x < i && ts[x].name@ == name && forall|j: int|
                0 <= j < x ==> (#[trigger] ts[j]).name@ != name,
            None => forall|j: int| 0 <= j < i ==> (#[trigger] ts[j]).name@ != name,
        },
    decreases i,
{
    if i > 0 {
        lemma_find_upto_char(ts, name, i - 1);
    }
}

proof fn lemma_find_upto_from(ts: Seq<MenuTemplate>, name: Seq<char>, i: int, m: int)
    requires
        0 <= i < ts.len(),
        ts[i].name@ == name,
        forall|j: int| 0 <= j < i ==> (#[trigger] ts[j]).name@ != name,
        0 <= m <= ts.len(),
    ensures
        spec_find_template_upto(ts, name, m) == (if m <= i {
            None::<int>
        } else {
            Some(i)
        }),
    decreases m,
{
    if m > 0 {
        lemma_find_upto_from(ts, name, i, m - 1);
    }
}

/// Idempotence law: registering the same definition twice yields the same
/// cached result as registering it once. The second pass finds the entry the
/// first pass made, replaces it in place without adding a duplicate, and the
/// entry still denotes the definition.
pub proof fn lemma_register_idempotent(
    ts0: Seq<MenuTemplate>,
    ts1: Seq<MenuTemplate>,
    ts2: Seq<MenuTemplate>,
    nv1: Map<slotmap::DefaultKey, TemplateNodeView>,
    nv2: Map<slotmap::DefaultKey, TemplateNodeView>,
    def: TemplateDef,
)
    requires
        register_ok(ts0, ts1, nv1, def),
        register_ok(ts1, ts2, nv2, def),
    ensures
        ts2.len() == ts1.len(),
        match spec_find_template(ts2, def.name@) {
            Some(x) => template_denotes(nv2, ts2[x], def),
            None => false,
        },
{
    let name = def.name@;
    let t1 = match spec_find_template(ts0, name) {
        Some(i) => i,
        None => ts0.len() as int,
    };
    lemma_find_upto_char(ts0, name, ts0.len() as int);
    assert(forall|j: int| 0 <= j < t1 ==> (#[trigger] ts1[j]).name@ != name);
    lemma_find_upto_from(ts1, name, t1, ts1.len() as int);
    assert(spec_find_template(ts1, name) == Some(t1));
    assert(ts2.len() == ts1.len());
    assert(forall|j: int| 0 <= j < t1 ==> (#[trigger] ts2[j]).name@ != name);
    lemma_find_upto_from(ts2, name, t1, ts2.len() as int);
    assert(spec_find_template(ts2, name) == Some(t1));
}

/// Denotation in `register_ok` survives arena growth.
pub proof fn lemma_register_ok_mono(
    ts0: Seq<MenuTemplate>,
    ts1: Seq<MenuTemplate>,
    nv1: Map<slotmap::DefaultKey, TemplateNodeView>,
    nv2: Map<slotmap::DefaultKey, TemplateNodeView>,
    def: TemplateDef,
)
    requires
        register_ok(ts0, ts1, nv1, def),
        map_extends(nv1, nv2),
    ensures
        register_ok(ts0, ts1, nv2, def),
{
    let target = match spec_find_template(ts0, def.name@) {
        Some(i) => i,
        None => ts0.len() as int,
    };
    lemma_nodes_denote_mono(nv1, nv2, ts1[target].roots@, def.roots@, def.roots@.len() as int);
}

/// The registry that registering the first `i` definitions in order, on top
/// of `ts0`, leaves behind: each step replaces or appends per `register_ok`,
/// read against one arena view (denotation survives arena growth, so the
/// final view serves for every step).
pub open spec fn registers_ok(
    ts0: Seq<MenuTemplate>,
    ts1: Seq<MenuTemplate>,
    nv: Map<slotmap::DefaultKey, TemplateNodeView>,
    defs: Seq<TemplateDef>,
    i: int,
) -> bool
    decreases i,
{
    if i <= 0 {
        ts1 == ts0
    } else if defs.len() < i {
        false
    } else {
        exists|mid: Seq<MenuTemplate>|
            registers_ok(ts0, mid, nv, defs, i - 1) && #[trigger] register_ok(
                mid,
                ts1,
                nv,
                defs[i - 1],
            )
    }
}

/// A registration chain survives arena growth.
pub proof fn lemma_registers_ok_mono(
    ts0: Seq<MenuTemplate>,
    ts1: Seq<MenuTemplate>,
    nv1: Map<slotmap::DefaultKey, TemplateNodeView>,
    nv2: Map<slotmap::DefaultKey, TemplateNodeView>,
    defs: Seq<TemplateDef>,
    i: int,
)
    requires
        registers_ok(ts0, ts1, nv1, defs, i),
        map_extends(nv1, nv2),
    ensures
        registers_ok(ts0, ts1, nv2, defs, i),
    decreases i,
{
    if i > 0 && i <= defs.len() {
        let mid = choose|mid: Seq<MenuTemplate>|
            registers_ok(ts0, mid, nv1, defs, i - 1) && #[trigger] register_ok(
                mid,
                ts1,
                nv1,
                defs[i - 1],
            );
        lemma_registers_ok_mono(ts0, mid, nv1, nv2, defs, i - 1);
        lemma_register_ok_mono(mid, ts1, nv1, nv2, defs[i - 1]);
        assert(registers_ok(ts0, mid, nv2, defs, i - 1) && register_ok(mid, ts1, nv2, defs[
            i - 1
        ]));
    }
}

} // verus!
