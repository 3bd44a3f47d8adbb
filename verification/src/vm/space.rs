//! The page table of an address space, as far as mappings see and change it.
use std::collections::BTreeMap;
use vstd::prelude::*;

use crate::error::Error;
use crate::vm::perms::VmPerm;
use crate::vm::vmo::VmFrame;

verus! {

/// What a page table says of one page.
#[derive(Clone, Copy, PartialEq, Eq, Debug, Structural)]
pub struct PageEntry {
    pub frame: VmFrame,
    pub perm: VmPerm,
}

/// A page table. Each page has its entry under the address where it begins.
pub struct VmSpace {
    pub entries: BTreeMap<usize, PageEntry>,
    /// The pages whose entry cannot be changed, each with the error that an attempt ends in.
    pub refused: BTreeMap<usize, Error>,
    /// The error that an attempt to map a page over another one ends in. Without one, the other
    /// page is replaced.
    pub taken: Option<Error>,
}

/// The mathematical value of a page table.
#[verifier::ext_equal]
pub struct SpaceView {
    pub entries: Map<usize, PageEntry>,
    pub refused: Map<usize, Error>,
    pub taken: Option<Error>,
}

impl View for VmSpace {
    type V = SpaceView;

    open spec fn view(&self) -> SpaceView {
        SpaceView { entries: self.entries@, refused: self.refused@, taken: self.taken }
    }
}

impl SpaceView {
    /// The table with one page mapped.
    pub open spec fn with(self, addr: usize, entry: PageEntry) -> SpaceView {
        SpaceView { entries: self.entries.insert(addr, entry), ..self }
    }

    /// The table with one page unmapped.
    pub open spec fn without(self, addr: usize) -> SpaceView {
        SpaceView { entries: self.entries.remove(addr), ..self }
    }

    /// The table with other permissions on one page, if it is mapped.
    pub open spec fn protected(self, addr: usize, perm: VmPerm) -> SpaceView {
        if self.entries.contains_key(addr) {
            self.with(addr, PageEntry { perm, ..self.entries[addr] })
        } else {
            self
        }
    }
}

impl VmSpace {
    /// A table without entries, in which an attempt to map a page over another one ends in an
    /// error, or replaces the other one if none is given.
    pub fn new(taken: Option<Error>) -> (r: VmSpace)
        ensures
            r@ == (SpaceView { entries: Map::empty(), refused: Map::empty(), taken }),
    {
        VmSpace { entries: BTreeMap::new(), refused: BTreeMap::new(), taken }
    }

    /// Fails if the entry of a page cannot be changed.
    fn check(&self, addr: usize) -> (r: Result<(), Error>)
        ensures
            self@.refused.contains_key(addr) <==> r is Err,
            r matches Err(e) ==> e == self@.refused[addr],
    {
        broadcast use vstd::std_specs::btree::group_btree_axioms;
        broadcast use vstd::laws_cmp::group_laws_cmp;

        match self.refused.get(&addr) {
            Some(e) => Err(*e),
            None => Ok(()),
        }
    }

    /// Maps a page.
    pub fn map(&mut self, addr: usize, frame: VmFrame, perm: VmPerm) -> (r: Result<(), Error>)
        ensures
            ({
                let s = old(self)@;
                if s.refused.contains_key(addr) {
                    r == Err::<(), Error>(s.refused[addr]) && final(self)@ == s
                } else if s.entries.contains_key(addr) && s.taken is Some {
                    r == Err::<(), Error>(s.taken->Some_0) && final(self)@ == s
                } else {
                    r is Ok && final(self)@ == s.with(addr, PageEntry { frame, perm })
                }
            }),
    {
        broadcast use vstd::std_specs::btree::group_btree_axioms;
        broadcast use vstd::laws_cmp::group_laws_cmp;

        if let Err(e) = self.check(addr) {
            return Err(e);
        }
        if let Some(e) = self.taken {
            if self.is_mapped(addr) {
                return Err(e);
            }
        }
        self.entries.insert(addr, PageEntry { frame, perm });
        Ok(())
    }

    /// Unmaps a page.
    pub fn unmap(&mut self, addr: usize) -> (r: Result<(), Error>)
        ensures
            old(self)@.refused.contains_key(addr) ==> r == Err::<(), Error>(
                old(self)@.refused[addr],
            ) && final(self)@ == old(self)@,
            !old(self)@.refused.contains_key(addr) ==> r is Ok && final(self)@ == old(
                self,
            )@.without(addr),
    {
        broadcast use vstd::std_specs::btree::group_btree_axioms;
        broadcast use vstd::laws_cmp::group_laws_cmp;

        if let Err(e) = self.check(addr) {
            return Err(e);
        }
        self.entries.remove(&addr);
        assert(self@.entries =~= old(self)@.without(addr).entries);
        Ok(())
    }

    /// Gives a page that is mapped other permissions.
    pub fn protect(&mut self, addr: usize, perm: VmPerm) -> (r: Result<(), Error>)
        ensures
            old(self)@.refused.contains_key(addr) ==> r == Err::<(), Error>(
                old(self)@.refused[addr],
            ) && final(self)@ == old(self)@,
            !old(self)@.refused.contains_key(addr) ==> r is Ok && final(self)@ == old(
                self,
            )@.protected(addr, perm),
    {
        broadcast use vstd::std_specs::btree::group_btree_axioms;
        broadcast use vstd::laws_cmp::group_laws_cmp;

        if let Err(e) = self.check(addr) {
            return Err(e);
        }
        let entry = match self.entries.get(&addr) {
            Some(entry) => *entry,
            None => {
                return Ok(());
            },
        };
        self.entries.insert(addr, PageEntry { perm, ..entry });
        Ok(())
    }

    /// Whether a page is mapped.
    pub fn is_mapped(&self, addr: usize) -> (r: bool)
        ensures
            r == self@.entries.contains_key(addr),
    {
        broadcast use vstd::std_specs::btree::group_btree_axioms;
        broadcast use vstd::laws_cmp::group_laws_cmp;

        self.entries.contains_key(&addr)
    }

    /// Whether a page is mapped and can be written.
    pub fn is_writable(&self, addr: usize) -> (r: bool)
        ensures
            r == (self@.entries.contains_key(addr) && self@.entries[addr].perm.write),
    {
        broadcast use vstd::std_specs::btree::group_btree_axioms;
        broadcast use vstd::laws_cmp::group_laws_cmp;

        match self.entries.get(&addr) {
            Some(entry) => entry.perm.write,
            None => false,
        }
    }
}

} // verus!
