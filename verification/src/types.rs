use vstd::prelude::*;
use crate::accel::Accelerator;

verus! {

/// Which category of element a template node declares. Menu items are the
/// one category this reconciler knows; an item may carry a statically
/// declared accelerator.
#[derive(Clone, Copy, Debug, PartialEq, Eq, Structural)]
pub enum ElementKind {
    Item { accelerator: Option<Accelerator> },
}

/// One attribute in a template definition: either a statically known
/// name/value pair or a dynamic slot index.
#[derive(Debug)]
pub enum TemplateAttribute {
    Static { name: String, value: String },
    Dynamic { id: usize },
}

/// One node of a template definition: a static text leaf, or an element with
/// its attributes and ordered children.
#[derive(Debug)]
pub enum TemplateNodeDef {
    Text { text: String },
    Element { attrs: Vec<TemplateAttribute>, children: Vec<TemplateNodeDef> },
}

/// A named template definition, as the driving engine reports it.
#[derive(Debug)]
pub struct TemplateDef {
    pub name: String,
    pub roots: Vec<TemplateNodeDef>,
}

/// A node of a registered template, held in the node arena.
#[derive(Debug)]
pub enum MenuTemplateNode {
    Text(String),
    Element { kind: ElementKind, dynamic_attrs: Vec<usize>, children: Vec<slotmap::DefaultKey> },
}

/// The abstract value of a registered template node.
pub enum TemplateNodeView {
    Text(Seq<char>),
    Element { kind: ElementKind, dynamic_attrs: Seq<usize>, children: Seq<slotmap::DefaultKey> },
}

impl View for MenuTemplateNode {
    type V = TemplateNodeView;

    open spec fn view(&self) -> TemplateNodeView {
        match self {
            MenuTemplateNode::Text(s) => TemplateNodeView::Text(s@),
            MenuTemplateNode::Element { kind, dynamic_attrs, children } => TemplateNodeView::Element {
                kind: *kind,
                dynamic_attrs: dynamic_attrs@,
                children: children@,
            },
        }
    }
}

/// A registered template: its name and the arena handles of its roots.
#[derive(Debug)]
pub struct MenuTemplate {
    pub name: String,
    pub roots: Vec<slotmap::DefaultKey>,
}

/// A live element of the instantiated tree: a menu item, or the one root
/// container that the reserved handle `0` names.
#[derive(Debug)]
pub enum MenuElement {
    Item { text: String, accelerator: Option<Accelerator>, enabled: bool },
    Root { children: Vec<u64> },
}

/// The abstract value of a live element.
pub enum ElementView {
    Item { text: Seq<char>, accelerator: Option<Accelerator>, enabled: bool },
    Root { children: Seq<u64> },
}

impl View for MenuElement {
    type V = ElementView;

    open spec fn view(&self) -> ElementView {
        match self {
            MenuElement::Item { text, accelerator, enabled } => ElementView::Item {
                text: text@,
                accelerator: *accelerator,
                enabled: *enabled,
            },
            MenuElement::Root { children } => ElementView::Root { children: children@ },
        }
    }
}

/// A value carried by an attribute-patch instruction.
#[derive(Debug)]
pub enum AttributeValue {
    Bool(bool),
    Text(String),
    Other,
}

/// The abstract value of an attribute value.
pub enum AttributeValueView {
    Bool(bool),
    Text(Seq<char>),
    Other,
}

impl View for AttributeValue {
    type V = AttributeValueView;

    open spec fn view(&self) -> AttributeValueView {
        match self {
            AttributeValue::Bool(b) => AttributeValueView::Bool(*b),
            AttributeValue::Text(s) => AttributeValueView::Text(s@),
            AttributeValue::Other => AttributeValueView::Other,
        }
    }
}

/// One edit instruction of the stream the driving engine emits. Kinds the
/// reconciler does not interpret arrive as `Unsupported` and are reported
/// and skipped.
#[derive(Debug)]
pub enum Instruction {
    InstantiateTemplate { name: String, root_index: usize, id: u64 },
    AttachChildren { parent: u64, count: usize },
    SetAttribute { id: u64, name: String, value: AttributeValue },
    Unsupported,
}

/// The abstract value of an instruction.
pub enum InstructionView {
    InstantiateTemplate { name: Seq<char>, root_index: usize, id: u64 },
    AttachChildren { parent: u64, count: usize },
    SetAttribute { id: u64, name: Seq<char>, value: AttributeValueView },
    Unsupported,
}

impl View for Instruction {
    type V = InstructionView;

    open spec fn view(&self) -> InstructionView {
        match self {
            Instruction::InstantiateTemplate { name, root_index, id } => InstructionView::InstantiateTemplate {
                name: name@,
                root_index: *root_index,
                id: *id,
            },
            Instruction::AttachChildren { parent, count } => InstructionView::AttachChildren {
                parent: *parent,
                count: *count,
            },
            Instruction::SetAttribute { id, name, value } => InstructionView::SetAttribute {
                id: *id,
                name: name@,
                value: value@,
            },
            Instruction::Unsupported => InstructionView::Unsupported,
        }
    }
}

/// A recoverable, per-instruction condition: the rebuild goes on and the
/// condition is reported to the caller.
#[derive(Clone, Copy, Debug, PartialEq, Eq, Structural)]
pub enum Warning {
    MalformedAccelerator { id: u64 },
    AttributeTypeMismatch { id: u64 },
    UnsupportedAttribute { id: u64 },
    UnsupportedInstruction,
}

/// A fatal condition: the rebuild stops and the error is surfaced to the
/// host.
#[derive(Clone, Copy, Debug, PartialEq, Eq, Structural)]
pub enum MenuError {
    TemplateNotFound,
    RootIndexOutOfRange,
    UnsupportedTextRoot,
    UnsupportedNestedElement,
    RootOverwrite,
    DanglingHandle,
    NotAContainer,
    StackUnderflow,
    InvalidAccelerator,
    ArenaFull,
}

/// The abstract contents of the node arena.
pub open spec fn nodes_view(c: Map<slotmap::DefaultKey, MenuTemplateNode>) -> Map<
    slotmap::DefaultKey,
    TemplateNodeView,
> {
    Map::new(|k: slotmap::DefaultKey| c.dom().contains(k), |k: slotmap::DefaultKey| c[k]@)
}

/// The abstract contents of the element table.
pub open spec fn elems_view(m: Map<u64, MenuElement>) -> Map<u64, ElementView> {
    Map::new(|k: u64| m.dom().contains(k), |k: u64| m[k]@)
}

pub proof fn lemma_nodes_view_insert(
    c: Map<slotmap::DefaultKey, MenuTemplateNode>,
    k: slotmap::DefaultKey,
    v: MenuTemplateNode,
)
    ensures
        nodes_view(c.insert(k, v)) =~= nodes_view(c).insert(k, v@),
{
}

pub proof fn lemma_elems_view_insert(m: Map<u64, MenuElement>, k: u64, v: MenuElement)
    ensures
        elems_view(m.insert(k, v)) =~= elems_view(m).insert(k, v@),
{
}

pub proof fn lemma_elems_view_remove(m: Map<u64, MenuElement>, k: u64)
    ensures
        elems_view(m.remove(k)) =~= elems_view(m).remove(k),
{
}

/// The children list of the root container, or the empty list when the root
/// is missing or malformed.
pub open spec fn root_children(ev: Map<u64, ElementView>) -> Seq<u64> {
    if ev.contains_key(0) {
        match ev[0] {
            ElementView::Root { children } => children,
            ElementView::Item { .. } => Seq::empty(),
        }
    } else {
        Seq::empty()
    }
}

/// The element table is well formed: the reserved handle `0` names the one
/// root container, and every child attached to it is a live menu item.
pub open spec fn elements_wf(ev: Map<u64, ElementView>) -> bool {
    &&& ev.contains_key(0)
    &&& ev[0] is Root
    &&& forall|id: u64| ev.contains_key(id) && (#[trigger] ev[id]) is Root ==> id == 0
    &&& forall|i: int|
        0 <= i < root_children(ev).len() ==> ev.contains_key(#[trigger] root_children(ev)[i])
            && ev[root_children(ev)[i]] is Item
}

/// Every handle on the pending-attachment stack names a live menu item.
pub open spec fn stack_ok(ev: Map<u64, ElementView>, st: Seq<u64>) -> bool {
    forall|i: int|
        0 <= i < st.len() ==> (#[trigger] st[i]) != 0 && ev.contains_key(st[i]) && ev[st[i]] is Item
}

/// A template root handle resolves, and when it names an element node all of
/// that node's children resolve too.
pub open spec fn root_node_wf(
    nv: Map<slotmap::DefaultKey, TemplateNodeView>,
    k: slotmap::DefaultKey,
) -> bool {
    &&& nv.contains_key(k)
    &&& match nv[k] {
        TemplateNodeView::Element { children, .. } => forall|j: int|
            0 <= j < children.len() ==> nv.contains_key(#[trigger] children[j]),
        TemplateNodeView::Text(_) => true,
    }
}

/// Every registered template's roots are well formed in the arena.
pub open spec fn templates_wf(
    nv: Map<slotmap::DefaultKey, TemplateNodeView>,
    ts: Seq<MenuTemplate>,
) -> bool {
    forall|t: int, i: int|
        0 <= t < ts.len() && 0 <= i < ts[t].roots@.len() ==> root_node_wf(
            nv,
            #[trigger] ts[t].roots@[i],
        )
}

/// The first template with the given name among the first `i` registered
/// ones, if any.
pub open spec fn spec_find_template_upto(ts: Seq<MenuTemplate>, name: Seq<char>, i: int) -> Option<
    int,
>
    decreases i,
{
    if i <= 0 || ts.len() < i {
        None
    } else {
        match spec_find_template_upto(ts, name, i - 1) {
            Some(j) => Some(j),
            None => if ts[i - 1].name@ == name {
                Some(i - 1)
            } else {
                None
            },
        }
    }
}

/// The first registered template with the given name, if any.
pub open spec fn spec_find_template(ts: Seq<MenuTemplate>, name: Seq<char>) -> Option<int> {
    spec_find_template_upto(ts, name, ts.len() as int)
}

/// Once a prefix of the registry holds a match, longer prefixes report the
/// same one.
pub proof fn lemma_find_template_stable(ts: Seq<MenuTemplate>, name: Seq<char>, i: int, m: int)
    requires
        0 <= i <= m <= ts.len(),
        spec_find_template_upto(ts, name, i) is Some,
    ensures
        spec_find_template_upto(ts, name, m) == spec_find_template_upto(ts, name, i),
    decreases m - i,
{
    if m > i {
        lemma_find_template_stable(ts, name, i, m - 1);
    }
}

} // verus!
