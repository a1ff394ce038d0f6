//! The tag catalog: the set of tag identifiers a game listing may carry,
//! populated once at genesis and read-only thereafter.

use crate::store::AccountMap;
use crate::types::{Tag, TagId};
use vstd::prelude::*;

verus! {

/// The catalog of known tags, a map from tag identifiers to tag names.
pub struct TagCatalog {
    tags: AccountMap<Tag>,
}

impl View for TagCatalog {
    type V = Map<int, Tag>;

    closed spec fn view(&self) -> Map<int, Tag> {
        self.tags@
    }
}

impl TagCatalog {
    /// The catalog's internal invariant.
    pub closed spec fn wf(&self) -> bool {
        self.tags.wf()
    }

    /// Creates an empty catalog.
    pub fn new() -> (r: Self)
        ensures
            r.wf(),
            r@ == Map::<int, Vec<u8>>::empty(),
    {
        TagCatalog { tags: AccountMap::new() }
    }

    /// Inserts a tag, replacing any tag already under the identifier.
    pub fn insert(&mut self, id: TagId, tag: Tag)
        requires
            old(self).wf(),
        ensures
            final(self).wf(),
            final(self)@ == old(self)@.insert(id as int, tag),
    {
        self.tags.set(id as u64, tag);
    }

    /// Whether a tag identifier is known to the catalog.
    pub fn is_valid_tag(&self, id: TagId) -> (r: bool)
        requires
            self.wf(),
        ensures
            r == self@.contains_key(id as int),
    {
        self.tags.contains_key(id as u64)
    }

    /// The name of a tag, if the identifier is known.
    pub fn get(&self, id: TagId) -> (r: Option<&Tag>)
        requires
            self.wf(),
        ensures
            match r {
                Some(tag) => self@.contains_key(id as int) && self@[id as int] == *tag,
                None => !self@.contains_key(id as int),
            },
    {
        self.tags.get(id as u64)
    }

    /// Builds the catalog from a list of tag names, giving the name at
    /// position `i` the identifier `i`. This is the genesis population step.
    pub fn build(names: Vec<Tag>) -> (r: Self)
        requires
            names@.len() <= u16::MAX as int + 1,
        ensures
            r.wf(),
            r@ == Map::new(|i: int| 0 <= i < names@.len(), |i: int| names@[i]),
    {
        let ghost all = names@;
        let mut names = names;
        let mut catalog = TagCatalog::new();
        let mut i: usize = 0;
        while names.len() > 0
            invariant
                catalog.wf(),
                i + names@.len() == all.len(),
                all.len() <= u16::MAX as int + 1,
                names@ == all.subrange(i as int, all.len() as int),
                catalog@ == Map::new(|j: int| 0 <= j < i, |j: int| all[j]),
            decreases names@.len(),
        {
            let tag = names.remove(0);
            assert(tag == all[i as int]);
            catalog.insert(i as u16, tag);
            proof {
                assert(catalog@ =~= Map::new(|j: int| 0 <= j < i + 1, |j: int| all[j]));
                assert(names@ =~= all.subrange(i + 1, all.len() as int));
            }
            i = i + 1;
        }
        proof {
            assert(catalog@ =~= Map::new(|j: int| 0 <= j < all.len(), |j: int| all[j]));
        }
        catalog
    }
}

} // verus!
