use vstd::prelude::*;
use crate::types::MenuTemplateNode;

verus! {

#[verifier::external_type_specification]
#[verifier::external_body]
pub struct ExDefaultKey(slotmap::DefaultKey);

/// The arena of registered template nodes: an insert-only slot table with
/// stable handles, backed by a slot map.
#[verifier::external_body]
pub struct NodeArena {
    map: slotmap::SlotMap<slotmap::DefaultKey, MenuTemplateNode>,
}

/// What the arena holds: each live handle mapped to its node.
pub uninterp spec fn arena_contents(m: NodeArena) -> Map<slotmap::DefaultKey, MenuTemplateNode>;

/// Holds when the arena's modelled contents are finite with exactly `n`
/// entries.
pub open spec fn arena_size_is(c: Map<slotmap::DefaultKey, MenuTemplateNode>, n: usize) -> bool {
    c.dom().finite() && c.dom().len() == n
}

/// More slots than the arena is ever allowed to reach; safely below the
/// slot map's own hard limit of about 2^32 slots.
pub const ARENA_LIMIT: usize = 0xffff_0000;

impl NodeArena {
    /// Relies on slotmap::SlotMap::new: a freshly made slot map holds no
    /// entries.
    #[verifier::external_body]
    pub fn new() -> (r: NodeArena)
        ensures
            arena_size_is(arena_contents(r), 0),
    {
        NodeArena { map: slotmap::SlotMap::new() }
    }

    /// Relies on slotmap::SlotMap::len: the number of entries the map holds,
    /// which is always finite.
    #[verifier::external_body]
    pub fn len(&self) -> (r: usize)
        ensures
            arena_size_is(arena_contents(*self), r),
    {
        self.map.len()
    }

    /// Relies on slotmap::SlotMap::insert: stores the value in a free slot
    /// and returns a key that no current entry uses. The slot map panics only
    /// when it already holds close to 2^32 slots, which the bound below rules
    /// out.
    #[verifier::external_body]
    pub fn insert(&mut self, v: MenuTemplateNode) -> (k: slotmap::DefaultKey)
        requires
            arena_contents(*old(self)).dom().finite(),
            arena_contents(*old(self)).dom().len() + 2 < 0xffff_ffff,
        ensures
            !arena_contents(*old(self)).contains_key(k),
            arena_contents(*final(self)) == arena_contents(*old(self)).insert(k, v),
    {
        self.map.insert(v)
    }

    /// Relies on slotmap::SlotMap::get: returns the entry stored under the
    /// key, or nothing when the key names no entry.
    #[verifier::external_body]
    pub fn get(&self, k: slotmap::DefaultKey) -> (r: Option<&MenuTemplateNode>)
        ensures
            match r {
                Some(v) => arena_contents(*self).contains_key(k) && *v == arena_contents(*self)[k],
                None => !arena_contents(*self).contains_key(k),
            },
    {
        self.map.get(k)
    }
}

} // verus!
