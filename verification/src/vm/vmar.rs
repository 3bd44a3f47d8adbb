//! The mappings of an address space, by the address where each of them begins.
use std::collections::BTreeMap;
use vstd::prelude::*;

use crate::vm::vm_mapping::{MappingView, VmMapping};

verus! {

/// Mappings by address.
pub struct VmMappings {
    pub mappings: BTreeMap<usize, VmMapping>,
}

impl View for VmMappings {
    type V = Map<usize, MappingView>;

    open spec fn view(&self) -> Map<usize, MappingView> {
        self.mappings@.map_values(|mapping: VmMapping| mapping@)
    }
}

impl VmMappings {
    /// No mappings.
    pub fn new() -> (r: VmMappings)
        ensures
            r@ == Map::<usize, MappingView>::empty(),
    {
        let r = VmMappings { mappings: BTreeMap::new() };
        assert(r@ =~= Map::<usize, MappingView>::empty());
        r
    }

    /// Adds a mapping, in place of the one that was there.
    pub fn insert(&mut self, addr: usize, mapping: VmMapping)
        ensures
            final(self)@ == old(self)@.insert(addr, mapping@),
    {
        broadcast use vstd::std_specs::btree::group_btree_axioms;
        broadcast use vstd::laws_cmp::group_laws_cmp;

        self.mappings.insert(addr, mapping);
        assert(self@ =~= old(self)@.insert(addr, mapping@));
    }

    /// Takes a mapping out.
    pub fn remove(&mut self, addr: usize) -> (r: Option<VmMapping>)
        ensures
            final(self)@ == old(self)@.remove(addr),
            match r {
                Some(mapping) => old(self)@.contains_key(addr) && mapping@ == old(self)@[addr],
                None => !old(self)@.contains_key(addr),
            },
    {
        broadcast use vstd::std_specs::btree::group_btree_axioms;
        broadcast use vstd::laws_cmp::group_laws_cmp;

        let r = self.mappings.remove(&addr);
        assert(self@ =~= old(self)@.remove(addr));
        r
    }

    /// Looks a mapping up.
    pub fn get(&self, addr: usize) -> (r: Option<&VmMapping>)
        ensures
            match r {
                Some(mapping) => self@.contains_key(addr) && mapping@ == self@[addr],
                None => !self@.contains_key(addr),
            },
    {
        broadcast use vstd::std_specs::btree::group_btree_axioms;
        broadcast use vstd::laws_cmp::group_laws_cmp;

        self.mappings.get(&addr)
    }
}

} // verus!
