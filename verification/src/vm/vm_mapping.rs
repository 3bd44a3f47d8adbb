//! A mapping of a memory object into an address space.
use core::ops::Range;
use vstd::prelude::*;

use crate::config::PAGE_SIZE;
use crate::error::{Errno, Error};
use crate::vm::mapping::{
    first_stuck, law_protect_sets_entries, law_shrink_keeps_offsets, lemma_first_stuck,
    lemma_has_addr, map_page, perm_check, protect_pages, shrunk, stuck, unmap_page, unmap_range,
    MapView, VmMappingInner,
};
use crate::vm::pages::{get_page_idx_range, page_of, pages_for};
use crate::vm::perms::{Rights, VmPerm};
use crate::vm::space::{SpaceView, VmSpace};
use crate::vm::usize_set::{ascending, UsizeSet};
use crate::vm::vmar::VmMappings;
use crate::vm::vmo::{overwritten, VmFrame, Vmo};

verus! {

/// A VmMapping represents mapping a vmo into an address space.
/// An address space can have multiple VmMappings, which means multiple vmos are mapped to it.
/// A vmo can also be mapped to multiple address spaces.
pub struct VmMapping {
    pub inner: VmMappingInner,
    /// The mapped vmo. The mapped vmo is with dynamic capability.
    pub vmo: Vmo,
}

/// The mathematical value of a mapping.
#[verifier::ext_equal]
pub struct MappingView {
    pub map: MapView,
    pub vmo: Vmo,
}

impl View for VmMapping {
    type V = MappingView;

    open spec fn view(&self) -> MappingView {
        MappingView { map: self.inner@, vmo: self.vmo }
    }
}

/// The permission to write, and no other.
pub open spec fn perm_w() -> VmPerm {
    VmPerm { read: false, write: true, execute: false }
}

/// The permission to read, and no other.
pub open spec fn perm_r() -> VmPerm {
    VmPerm { read: true, write: false, execute: false }
}

/// What is found of a page fault before a frame is asked for: the page that it is about, or the
/// error that it ends in.
pub open spec fn fault_check(m: MappingView, addr: int, write: bool) -> Result<usize, Error> {
    let offset = m.map.offset_of(addr);
    let perm = if write {
        perm_w()
    } else {
        perm_r()
    };
    if offset >= m.vmo.size {
        Err(
            Error {
                errno: Errno::EACCES,
                msg: Some("page fault addr is not backed up by a vmo"),
            },
        )
    } else if !m.vmo.rights.holds(Rights::of(perm)) {
        Err(m.vmo.denied)
    } else {
        match perm_check(m.map, page_of(offset), perm) {
            Err(e) => Err(e),
            Ok(()) => Ok(page_of(offset) as usize),
        }
    }
}

/// What becomes of a page fault once the memory object gave a frame for the page, or an error.
pub open spec fn fault_handled(
    m: MappingView,
    s: SpaceView,
    page_idx: usize,
    write: bool,
    frame: Result<VmFrame, Error>,
) -> (MappingView, SpaceView, Result<(), Error>) {
    match frame {
        Err(e) => (m, s, Err(e)),
        Ok(frame) => {
            let (map, s2, r) = map_page(
                m.map,
                s,
                page_idx as int,
                frame,
                m.vmo.cow,
                m.vmo.cow && !write,
            );
            (MappingView { map, ..m }, s2, r)
        },
    }
}

/// Whether pages may all be used as asked, and the error of the first that may not.
pub open spec fn check_pages(m: MapView, from: int, to: int, perm: VmPerm) -> Result<(), Error>
    decreases to - from,
{
    if from >= to {
        Ok(())
    } else {
        match perm_check(m, from, perm) {
            Err(e) => Err(e),
            Ok(()) => check_pages(m, from + 1, to, perm),
        }
    }
}

/// What happens when listed pages are given other permissions one by one: it ends at the first that
/// cannot be.
pub open spec fn protect_listed(m: MapView, s: SpaceView, perm: VmPerm, pages: Seq<usize>) -> (
    SpaceView,
    Result<(), Error>,
)
    decreases pages.len(),
{
    if pages.len() == 0 {
        (s, Ok(()))
    } else {
        let addr = m.page_addr(pages.first() as int) as usize;
        if s.refused.contains_key(addr) {
            (s, Err(s.refused[addr]))
        } else {
            protect_listed(m, s.protected(addr, perm), perm, pages.drop_first())
        }
    }
}

impl VmMapping {
    /// A mapping of the same part of the memory object to the same addresses, if there is the right
    /// to make another reference to the object.
    pub fn try_clone(&self) -> (r: Result<VmMapping, Error>)
        ensures
            self@.vmo.rights.dup ==> (r matches Ok(m) && m@ == self@),
            !self@.vmo.rights.dup ==> (r matches Err(e) && e == self@.vmo.denied),
    {
        let vmo = match self.vmo.dup() {
            Ok(vmo) => vmo,
            Err(e) => {
                return Err(e);
            },
        };
        Ok(VmMapping { inner: self.inner.copy(), vmo })
    }

    /// Builds a new VmMapping based on part of current `VmMapping`.
    /// The mapping range of the new mapping must be contained in the full mapping.
    fn clone_partial(&self, range: &Range<usize>, new_perm: Option<VmPerm>) -> (r: Result<
        VmMapping,
        Error,
    >)
        requires
            self@.vmo.rights.dup ==> {
                &&& self@.map.wf()
                &&& self@.map.map_to_addr <= range.start <= range.end <= self@.map.end()
            },
        ensures
            self@.vmo.rights.dup ==> (r matches Ok(m) && m@ == part(self@, *range, new_perm)),
            !self@.vmo.rights.dup ==> (r matches Err(e) && e == self@.vmo.denied),
    {
        let mut partial_mapping = match self.try_clone() {
            Ok(m) => m,
            Err(e) => {
                return Err(e);
            },
        };
        partial_mapping.inner.shrink_to(range);
        if let Some(perm) = new_perm {
            partial_mapping.inner.perm = perm;
        }
        Ok(partial_mapping)
    }

    /// The mapped memory object.
    pub fn vmo(&self) -> (r: &Vmo)
        ensures
            *r == self@.vmo,
    {
        &self.vmo
    }

    /// Sets the entries in the page table associated with the current `VmMapping` to read-only.
    pub fn set_pt_read_only(&self, vm_space: &mut VmSpace) -> (r: Result<(), Error>)
        requires
            forall|p: usize| #[trigger]
                self@.map.mapped.contains(p) ==> self@.map.has_addr(p as int) && p * PAGE_SIZE
                    <= usize::MAX,
        ensures
            !self@.map.perm.write ==> r is Ok && final(vm_space)@ == old(vm_space)@,
            self@.map.perm.write ==> exists|pages: Seq<usize>|
                #![trigger ascending(pages)]
                ascending(pages) && pages.to_set() == self@.map.mapped && (final(vm_space)@, r)
                    == protect_listed(
                    self@.map,
                    old(vm_space)@,
                    self@.map.perm.read_only(),
                    pages,
                ),
    {
        let perm = self.inner.perm;
        if !perm.contains(VmPerm::w()) {
            return Ok(());
        }
        let pages = self.inner.mapped_pages.to_vec();
        let mut i: usize = 0;
        assert(pages@.skip(0) =~= pages@);
        while i < pages.len()
            invariant
                i <= pages.len(),
                pages@.to_set() == self@.map.mapped,
                ascending(pages@),
                perm == self@.map.perm,
                perm.write,
                forall|p: usize| #[trigger]
                    self@.map.mapped.contains(p) ==> self@.map.has_addr(p as int) && p * PAGE_SIZE
                        <= usize::MAX,
                protect_listed(self@.map, vm_space@, perm.read_only(), pages@.skip(i as int))
                    == protect_listed(self@.map, old(vm_space)@, perm.read_only(), pages@),
            decreases pages.len() - i,
        {
            let ghost rest = pages@.skip(i as int);
            assert(rest.first() == pages@[i as int]);
            assert(rest.drop_first() =~= pages@.skip(i + 1));
            assert(pages@.to_set().contains(pages@[i as int]));
            let map_addr = self.inner.page_map_addr(pages[i]);
            if let Err(e) = vm_space.protect(map_addr, perm.without_write()) {
                return Err(e);
            }
            i += 1;
        }
        Ok(())
    }

    /// Adds a new committed page and maps it in the page table. If copy on write is set, it's
    /// allowed to unmap the page at the same address.
    pub fn map_one_page(
        &mut self,
        vm_space: &mut VmSpace,
        page_idx: usize,
        frame: VmFrame,
        is_readonly: bool,
    ) -> (r: Result<(), Error>)
        requires
            old(self)@.map.has_addr(page_idx as int),
            page_idx * PAGE_SIZE <= usize::MAX,
            is_readonly ==> old(self)@.vmo.cow,
            old(self)@.vmo.cow ==> !stuck(old(self)@.map, old(vm_space)@, page_idx as int),
        ensures
            (final(self)@.map, final(vm_space)@, r) == map_page(
                old(self)@.map,
                old(vm_space)@,
                page_idx as int,
                frame,
                old(self)@.vmo.cow,
                is_readonly,
            ),
            final(self)@.vmo == old(self)@.vmo,
    {
        self.inner.map_one_page(&self.vmo, vm_space, page_idx, frame, is_readonly)
    }

    /// Unmaps a page.
    pub fn unmap_one_page(&mut self, vm_space: &mut VmSpace, page_idx: usize) -> (r: Result<
        (),
        Error,
    >)
        requires
            old(self)@.map.has_addr(page_idx as int),
            page_idx * PAGE_SIZE <= usize::MAX,
        ensures
            (final(self)@.map, final(vm_space)@, r) == unmap_page(
                old(self)@.map,
                old(vm_space)@,
                page_idx as int,
            ),
            final(self)@.vmo == old(self)@.vmo,
    {
        self.inner.unmap_one_page(vm_space, page_idx)
    }

    /// The mapping's start address.
    pub fn map_to_addr(&self) -> (r: usize)
        ensures
            r == self@.map.map_to_addr,
    {
        self.inner.map_to_addr
    }

    /// The mapping's size.
    pub fn map_size(&self) -> (r: usize)
        ensures
            r == self@.map.map_size,
    {
        self.inner.map_size
    }

    /// Where in the memory object the mapping begins.
    pub fn vmo_offset(&self) -> (r: usize)
        ensures
            r == self@.map.vmo_offset,
    {
        self.inner.vmo_offset
    }

    /// Unmaps pages in the range.
    pub fn unmap(&mut self, vm_space: &mut VmSpace, range: &Range<usize>, may_destroy: bool) -> (r:
        Result<(), Error>)
        requires
            old(self)@.map.wf(),
            old(self)@.map.map_to_addr <= range.start,
            old(self)@.map.map_to_addr <= range.end,
            old(self)@.map.offset_of(range.start as int) <= usize::MAX,
            old(self)@.map.offset_of(range.end as int) + PAGE_SIZE <= usize::MAX,
        ensures
            final(self)@.map.wf(),
            (final(self)@.map, final(vm_space)@, r) == unmap_range(
                old(self)@.map,
                old(vm_space)@,
                *range,
                may_destroy,
            ),
            final(self)@.vmo == old(self)@.vmo,
    {
        self.inner.unmap(vm_space, range, may_destroy)
    }

    /// Whether the mapping was destroyed.
    pub fn is_destroyed(&self) -> (r: bool)
        ensures
            r == self@.map.is_destroyed,
    {
        self.inner.is_destroyed
    }

    /// The addresses of the mapping.
    pub fn range(&self) -> (r: Range<usize>)
        requires
            self@.map.end() <= usize::MAX,
        ensures
            r.start == self@.map.map_to_addr,
            r.end == self@.map.end(),
    {
        self.map_to_addr()..self.map_to_addr() + self.map_size()
    }

    fn check_perm(&self, page_idx: usize, perm: VmPerm) -> (r: Result<(), Error>)
        requires
            self@.map.wf(),
            (page_idx + 1) * PAGE_SIZE <= usize::MAX,
        ensures
            r == perm_check(self@.map, page_idx as int, perm),
    {
        self.inner.check_perm(page_idx, perm)
    }

    /// Reads from the memory object as the mapping shows it: `len` bytes from `offset` on. The
    /// function `read` does so, at the place in the object that it is given.
    pub fn read_bytes<F: FnOnce(usize) -> Result<(), Error>>(
        &self,
        offset: usize,
        len: usize,
        read: F,
    ) -> (r: Result<(), Error>)
        requires
            self@.map.wf(),
            self@.map.place(offset) + len + PAGE_SIZE <= usize::MAX,
            check_pages(
                self@.map,
                page_of(self@.map.place(offset)),
                pages_for(self@.map.place(offset) + len),
                perm_r(),
            ) is Ok ==> call_requires(read, (self@.map.place(offset) as usize,)),
        ensures
            match check_pages(
                self@.map,
                page_of(self@.map.place(offset)),
                pages_for(self@.map.place(offset) + len),
                perm_r(),
            ) {
                Err(e) => r == Err::<(), Error>(e),
                Ok(()) => call_ensures(read, (self@.map.place(offset) as usize,), r),
            },
    {
        let vmo_read_offset = self.vmo_offset() + offset;
        let page_idx_range = get_page_idx_range(&(vmo_read_offset..vmo_read_offset + len));
        let mut page_idx: usize = page_idx_range.start;
        while page_idx < page_idx_range.end
            invariant
                self@.map.wf(),
                vmo_read_offset == self@.map.place(offset),
                vmo_read_offset + len + PAGE_SIZE <= usize::MAX,
                page_idx_range.end == pages_for(vmo_read_offset + len),
                check_pages(
                    self@.map,
                    page_of(vmo_read_offset as int),
                    page_idx_range.end as int,
                    perm_r(),
                ) == check_pages(self@.map, page_idx as int, page_idx_range.end as int, perm_r()),
            decreases page_idx_range.end - page_idx,
        {
            if let Err(e) = self.check_perm(page_idx, VmPerm::r()) {
                return Err(e);
            }
            page_idx += 1;
        }
        read(vmo_read_offset)
    }

    /// Handles a page fault. The function `commit` is asked for the frame of the page, once it is
    /// known that the page may be used; it is told the page, and whether it is to be written.
    pub fn handle_page_fault<F: Fn(usize, bool) -> Result<VmFrame, Error>>(
        &mut self,
        vm_space: &mut VmSpace,
        page_fault_addr: usize,
        not_present: bool,
        write: bool,
        commit: &F,
    ) -> (r: Result<(), Error>)
        requires
            old(self)@.map.wf(),
            0 <= old(self)@.map.offset_of(page_fault_addr as int),
            old(self)@.map.offset_of(page_fault_addr as int) + PAGE_SIZE <= usize::MAX,
            fault_check(old(self)@, page_fault_addr as int, write) matches Ok(p) ==> {
                &&& call_requires(*commit, (p, write))
                &&& old(self)@.vmo.cow ==> !stuck(old(self)@.map, old(vm_space)@, p as int)
            },
        ensures
            match fault_check(old(self)@, page_fault_addr as int, write) {
                Err(e) => {
                    &&& r == Err::<(), Error>(e)
                    &&& final(self)@ == old(self)@
                    &&& final(vm_space)@ == old(vm_space)@
                },
                Ok(p) => exists|frame: Result<VmFrame, Error>|
                    {
                        &&& #[trigger] call_ensures(*commit, (p, write), frame)
                        &&& (final(self)@, final(vm_space)@, r) == fault_handled(
                            old(self)@,
                            old(vm_space)@,
                            p,
                            write,
                            frame,
                        )
                    },
            },
    {
        let vmo_offset = self.inner.vmo_offset_of(page_fault_addr);
        if vmo_offset >= self.vmo.size() {
            return Err(
                Error::with_message(Errno::EACCES, "page fault addr is not backed up by a vmo"),
            );
        }
        let page_idx = vmo_offset / PAGE_SIZE;
        let required_perm = if write {
            VmPerm::w()
        } else {
            VmPerm::r()
        };
        if let Err(e) = self.vmo.check_rights(Rights::from_perm(required_perm)) {
            return Err(e);
        }
        if let Err(e) = self.check_perm(page_idx, required_perm) {
            return Err(e);
        }
        let frame = match commit(page_idx, write) {
            Ok(frame) => frame,
            Err(e) => {
                return Err(e);
            },
        };
        // If read access to cow vmo triggers page fault, the map should be readonly.
        // If user next tries to write to the frame, another page fault will be triggered.
        let is_readonly = self.vmo.is_cow_vmo() && !write;
        proof {
            lemma_has_addr(self@.map, page_idx as int);
        }
        self.map_one_page(vm_space, page_idx, frame, is_readonly)
    }
}

/// The frames that a memory object gives for its pages, or errors.
pub type Frames = Map<int, Result<VmFrame, Error>>;

/// Whether a page is in the page table, but not to be written: it is still shared with another
/// memory object, and the first write has to copy it.
pub open spec fn write_faults(m: MappingView, s: SpaceView, page_idx: int) -> bool {
    let addr = m.map.page_addr(page_idx) as usize;
    s.entries.contains_key(addr) && !s.entries[addr].perm.write
}

/// What happens when a page is made ready to be written.
pub open spec fn write_page(
    m: MappingView,
    s: SpaceView,
    page_idx: int,
    frame: Result<VmFrame, Error>,
) -> (MappingView, SpaceView, Result<(), Error>) {
    match perm_check(m.map, page_idx, perm_w()) {
        Err(e) => (m, s, Err(e)),
        Ok(()) => if write_faults(m, s, page_idx) {
            match fault_check(m, m.map.page_addr(page_idx), true) {
                Err(e) => (m, s, Err(e)),
                Ok(p) => fault_handled(m, s, p, true, frame),
            }
        } else {
            (m, s, Ok(()))
        },
    }
}

/// What happens when pages are made ready to be written one by one: it ends at the first error.
pub open spec fn write_pages(m: MappingView, s: SpaceView, from: int, to: int, frames: Frames) -> (
    MappingView,
    SpaceView,
    Result<(), Error>,
)
    decreases to - from,
{
    if from >= to {
        (m, s, Ok(()))
    } else {
        let (m1, s1, r) = write_pages(m, s, from, to - 1, frames);
        if r is Err {
            (m1, s1, r)
        } else {
            write_page(m1, s1, to - 1, frames[to - 1])
        }
    }
}

/// Whether the memory object is asked for the frame of a page before it is written.
pub open spec fn asks(m: MappingView, s: SpaceView, page_idx: int) -> bool {
    &&& perm_check(m.map, page_idx, perm_w()) is Ok
    &&& write_faults(m, s, page_idx)
    &&& fault_check(m, m.map.page_addr(page_idx), true) is Ok
}

/// Whether the memory object is asked for the frame of a page, when the pages from `from` on are
/// made ready to be written.
pub open spec fn asked(
    m: MappingView,
    s: SpaceView,
    from: int,
    page_idx: int,
    frames: Frames,
) -> bool {
    let (m1, s1, r) = write_pages(m, s, from, page_idx, frames);
    r is Ok && asks(m1, s1, page_idx)
}

/// Whether all frames that the memory object is asked for are what `commit` gives.
pub open spec fn given<F: Fn(usize, bool) -> Result<VmFrame, Error>>(
    commit: F,
    m: MappingView,
    s: SpaceView,
    from: int,
    to: int,
    frames: Frames,
) -> bool {
    forall|p: int|
        from <= p < to && #[trigger] asked(m, s, from, p, frames) ==> call_ensures(
            commit,
            (p as usize, true),
            frames[p],
        )
}

/// Only the frames of the pages themselves matter.
proof fn lemma_write_pages_agree(
    m: MappingView,
    s: SpaceView,
    from: int,
    to: int,
    f: Frames,
    g: Frames,
)
    requires
        forall|p: int| from <= p < to ==> #[trigger] f[p] == g[p],
    ensures
        write_pages(m, s, from, to, f) == write_pages(m, s, from, to, g),
    decreases to - from,
{
    if from < to {
        lemma_write_pages_agree(m, s, from, to - 1, f, g);
        assert(f[to - 1] == g[to - 1]);
    }
}

/// After an error nothing more happens.
proof fn lemma_write_pages_end(
    m: MappingView,
    s: SpaceView,
    from: int,
    mid: int,
    to: int,
    frames: Frames,
)
    requires
        from <= mid <= to,
        write_pages(m, s, from, mid, frames).2 is Err,
    ensures
        write_pages(m, s, from, to, frames) == write_pages(m, s, from, mid, frames),
    decreases to - mid,
{
    if mid < to {
        lemma_write_pages_end(m, s, from, mid, to - 1, frames);
    }
}

/// One page more.
proof fn lemma_write_step<F: Fn(usize, bool) -> Result<VmFrame, Error>>(
    commit: F,
    m: MappingView,
    s: SpaceView,
    from: int,
    i: int,
    frames: Frames,
    frame: Result<VmFrame, Error>,
)
    requires
        from <= i,
        given(commit, m, s, from, i, frames),
        write_pages(m, s, from, i, frames).2 is Ok,
        ({
            let (m1, s1, _) = write_pages(m, s, from, i, frames);
            asks(m1, s1, i) ==> call_ensures(commit, (i as usize, true), frame)
        }),
    ensures
        ({
            let (m1, s1, _) = write_pages(m, s, from, i, frames);
            let next = frames.insert(i, frame);
            &&& write_pages(m, s, from, i + 1, next) == write_page(m1, s1, i, frame)
            &&& given(commit, m, s, from, i + 1, next)
        }),
{
    let next = frames.insert(i, frame);
    lemma_write_pages_agree(m, s, from, i, frames, next);
    assert forall|p: int|
        from <= p < i + 1 && #[trigger] asked(m, s, from, p, next) implies call_ensures(
        commit,
        (p as usize, true),
        next[p],
    ) by {
        if p < i {
            lemma_write_pages_agree(m, s, from, p, frames, next);
            assert(asked(m, s, from, p, frames));
        }
    }
}

/// No page more after an error.
proof fn lemma_write_stop<F: Fn(usize, bool) -> Result<VmFrame, Error>>(
    commit: F,
    m: MappingView,
    s: SpaceView,
    from: int,
    i: int,
    to: int,
    frames: Frames,
)
    requires
        from <= i <= to,
        given(commit, m, s, from, i, frames),
        write_pages(m, s, from, i, frames).2 is Err,
    ensures
        write_pages(m, s, from, to, frames) == write_pages(m, s, from, i, frames),
        given(commit, m, s, from, to, frames),
{
    lemma_write_pages_end(m, s, from, i, to, frames);
    assert forall|p: int| from <= p < to && #[trigger] asked(m, s, from, p, frames) implies call_ensures(
        commit,
        (p as usize, true),
        frames[p],
    ) by {
        if p >= i {
            lemma_write_pages_end(m, s, from, i, p, frames);
        }
    }
}

/// Making a page ready to be written changes no other page, and only the list of pages of the
/// mapping.
proof fn lemma_write_page_frame(
    m: MappingView,
    s: SpaceView,
    page_idx: int,
    frame: Result<VmFrame, Error>,
)
    requires
        m.map.wf(),
        0 <= page_idx <= usize::MAX,
    ensures
        ({
            let (m2, s2, _) = write_page(m, s, page_idx, frame);
            &&& m2 == (MappingView { map: MapView { mapped: m2.map.mapped, ..m.map }, ..m })
            &&& s2.refused == s.refused
            &&& forall|q: int| #[trigger]
                m.map.holds_page(q) && q != page_idx ==> stuck(m.map, s2, q) == stuck(m.map, s, q)
                    && write_faults(m, s2, q) == write_faults(m, s, q)
        }),
{
    let (m2, s2, _) = write_page(m, s, page_idx, frame);
    if m.map.holds_page(page_idx) {
        lemma_has_addr(m.map, page_idx);
    }
    assert forall|q: int| #[trigger] m.map.holds_page(q) && q != page_idx implies stuck(
        m.map,
        s2,
        q,
    ) == stuck(m.map, s, q) && write_faults(m, s2, q) == write_faults(m, s, q) by {
        lemma_has_addr(m.map, q);
        assert(m.map.page_addr(q) != m.map.page_addr(page_idx));
    }
}

impl VmMapping {
    /// Makes a page ready to be written.
    fn ready_page<F: Fn(usize, bool) -> Result<VmFrame, Error>>(
        &mut self,
        vm_space: &mut VmSpace,
        page_idx: usize,
        commit: &F,
    ) -> (r: Result<(), Error>)
        requires
            old(self)@.map.wf(),
            (page_idx + 1) * PAGE_SIZE <= usize::MAX,
            asks(old(self)@, old(vm_space)@, page_idx as int) ==> {
                &&& call_requires(*commit, (page_idx, true))
                &&& old(self)@.vmo.cow ==> !stuck(
                    old(self)@.map,
                    old(vm_space)@,
                    page_idx as int,
                )
            },
        ensures
            exists|frame: Result<VmFrame, Error>|
                {
                    &&& #[trigger] write_page(
                        old(self)@,
                        old(vm_space)@,
                        page_idx as int,
                        frame,
                    ) == (final(self)@, final(vm_space)@, r)
                    &&& asks(old(self)@, old(vm_space)@, page_idx as int) ==> call_ensures(
                        *commit,
                        (page_idx, true),
                        frame,
                    )
                },
    {
        let ghost m = self@;
        let ghost s = vm_space@;
        let ghost some: Result<VmFrame, Error> = arbitrary();
        if let Err(e) = self.check_perm(page_idx, VmPerm::w()) {
            assert(write_page(m, s, page_idx as int, some) == (self@, vm_space@, Err::<(), Error>(e)));
            return Err(e);
        }
        proof {
            lemma_has_addr(m.map, page_idx as int);
        }
        let page_addr = self.inner.page_map_addr(page_idx);
        // The `VmMapping` has the write permission but the corresponding PTE is present and is
        // read-only. This means this PTE is set to read-only due to the COW mechanism. In this
        // situation we need to trigger a page fault before writing at the VMO to guarantee the
        // consistency between VMO and the page table.
        let need_page_fault = vm_space.is_mapped(page_addr) && !vm_space.is_writable(page_addr);
        if need_page_fault {
            let r = self.handle_page_fault(vm_space, page_addr, false, true, commit);
            proof {
                match fault_check(m, page_addr as int, true) {
                    Ok(p) => {
                        assert(p == page_idx);
                        let frame = choose|frame: Result<VmFrame, Error>|
                            {
                                &&& #[trigger] call_ensures(*commit, (p, true), frame)
                                &&& (self@, vm_space@, r) == fault_handled(m, s, p, true, frame)
                            };
                        assert(write_page(m, s, page_idx as int, frame) == (self@, vm_space@, r));
                    },
                    Err(e) => {
                        assert(write_page(m, s, page_idx as int, some) == (self@, vm_space@, r));
                    },
                }
            }
            r
        } else {
            assert(write_page(m, s, page_idx as int, some) == (
                self@,
                vm_space@,
                Ok::<(), Error>(()),
            ));
            Ok(())
        }
    }

    /// Writes to the memory object as the mapping shows it: `len` bytes from `offset` on. The
    /// function `write` does so, at the place in the object that it is given, once `commit` was
    /// asked for the frames of the pages that are still shared.
    pub fn write_bytes<
        F: Fn(usize, bool) -> Result<VmFrame, Error>,
        G: FnOnce(usize) -> Result<(), Error>,
    >(
        &mut self,
        vm_space: &mut VmSpace,
        offset: usize,
        len: usize,
        commit: &F,
        write: G,
    ) -> (r: Result<(), Error>)
        requires
            old(self)@.map.wf(),
            old(self)@.map.place(offset) + len + PAGE_SIZE <= usize::MAX,
            ({
                let from = page_of(old(self)@.map.place(offset));
                let to = pages_for(old(self)@.map.place(offset) + len);
                forall|p: int, frames: Frames|
                    from <= p < to && given(
                        *commit,
                        old(self)@,
                        old(vm_space)@,
                        from,
                        p,
                        frames,
                    ) && #[trigger] asked(old(self)@, old(vm_space)@, from, p, frames) ==> {
                        &&& call_requires(*commit, (p as usize, true))
                        &&& old(self)@.vmo.cow ==> !stuck(old(self)@.map, old(vm_space)@, p)
                    }
            }),
            ({
                let from = page_of(old(self)@.map.place(offset));
                let to = pages_for(old(self)@.map.place(offset) + len);
                forall|frames: Frames|
                    #[trigger] write_pages(old(self)@, old(vm_space)@, from, to, frames).2 is Ok
                        && given(*commit, old(self)@, old(vm_space)@, from, to, frames)
                        ==> call_requires(write, (old(self)@.map.place(offset) as usize,))
            }),
        ensures
            final(self)@.map.wf(),
            ({
                let from = page_of(old(self)@.map.place(offset));
                let to = pages_for(old(self)@.map.place(offset) + len);
                exists|frames: Frames|
                    {
                        let (m2, s2, ready) = #[trigger] write_pages(
                            old(self)@,
                            old(vm_space)@,
                            from,
                            to,
                            frames,
                        );
                        &&& given(*commit, old(self)@, old(vm_space)@, from, to, frames)
                        &&& final(self)@ == m2
                        &&& final(vm_space)@ == s2
                        &&& match ready {
                            Err(e) => r == Err::<(), Error>(e),
                            Ok(()) => call_ensures(
                                write,
                                (old(self)@.map.place(offset) as usize,),
                                r,
                            ),
                        }
                    }
            }),
    {
        let ghost m0 = self@;
        let ghost s0 = vm_space@;
        let vmo_write_offset = self.vmo_offset() + offset;
        let page_idx_range = get_page_idx_range(&(vmo_write_offset..vmo_write_offset + len));
        let ghost from = page_of(m0.map.place(offset));
        let ghost to = pages_for(m0.map.place(offset) + len);
        let mut page_idx: usize = page_idx_range.start;
        let ghost mut frames: Frames = Map::empty();
        while page_idx < page_idx_range.end
            invariant
                m0 == old(self)@,
                s0 == old(vm_space)@,
                m0.map.wf(),
                vmo_write_offset == m0.map.place(offset),
                vmo_write_offset + len + PAGE_SIZE <= usize::MAX,
                from == page_of(m0.map.place(offset)),
                to == pages_for(m0.map.place(offset) + len),
                page_idx_range.end == to,
                from <= page_idx <= to,
                self@ == (MappingView {
                    map: MapView { mapped: self@.map.mapped, ..m0.map },
                    ..m0
                }),
                forall|p: int, f: Frames|
                    from <= p < to && given(*commit, m0, s0, from, p, f) && #[trigger] asked(
                        m0,
                        s0,
                        from,
                        p,
                        f,
                    ) ==> {
                        &&& call_requires(*commit, (p as usize, true))
                        &&& m0.vmo.cow ==> !stuck(m0.map, s0, p)
                    },
                forall|p: int| page_idx <= p && #[trigger]
                    m0.map.holds_page(p) ==> stuck(m0.map, vm_space@, p) == stuck(m0.map, s0, p),
                write_pages(m0, s0, from, page_idx as int, frames) == (
                    self@,
                    vm_space@,
                    Ok::<(), Error>(()),
                ),
                given(*commit, m0, s0, from, page_idx as int, frames),
            decreases page_idx_range.end - page_idx,
        {
            let ghost m1 = self@;
            let ghost s1 = vm_space@;
            let ghost i = page_idx as int;
            assert(m1.map.holds_page(i) == m0.map.holds_page(i));
            assert(stuck(m1.map, s1, i) == stuck(m0.map, s1, i));
            assert(asked(m0, s0, from, i, frames) == asks(m1, s1, i));
            let res = self.ready_page(vm_space, page_idx, commit);
            proof {
                let frame = choose|frame: Result<VmFrame, Error>|
                    {
                        &&& #[trigger] write_page(m1, s1, i, frame) == (self@, vm_space@, res)
                        &&& asks(m1, s1, i) ==> call_ensures(*commit, (page_idx, true), frame)
                    };
                lemma_write_step(*commit, m0, s0, from, i, frames, frame);
                lemma_write_page_frame(m1, s1, i, frame);
                frames = frames.insert(i, frame);
                assert forall|q: int| i + 1 <= q && #[trigger] m0.map.holds_page(q) implies stuck(
                    m0.map,
                    vm_space@,
                    q,
                ) == stuck(m0.map, s0, q) by {
                    assert(m1.map.holds_page(q));
                    assert(stuck(m1.map, s1, q) == stuck(m0.map, s1, q));
                    assert(stuck(m1.map, vm_space@, q) == stuck(m0.map, vm_space@, q));
                }
            }
            if let Err(e) = res {
                proof {
                    lemma_write_stop(*commit, m0, s0, from, i + 1, to, frames);
                }
                return Err(e);
            }
            page_idx += 1;
        }
        assert(page_idx == to);
        assert(write_pages(m0, s0, from, to, frames).2 is Ok);
        write(vmo_write_offset)
    }
}

/// The part of a mapping that shows a range of its addresses, with other permissions if they are
/// given.
pub open spec fn part(m: MappingView, range: Range<usize>, new_perm: Option<VmPerm>) -> MappingView {
    let map = shrunk(m.map, range);
    MappingView {
        map: MapView {
            perm: match new_perm {
                Some(perm) => perm,
                None => map.perm,
            },
            ..map
        },
        ..m
    }
}

/// Whether a range is the whole mapping, or the mapping can be cut in parts: each of them needs a
/// reference to the memory object.
pub open spec fn can_cut(m: MappingView, range: Range<usize>) -> bool {
    m.vmo.rights.dup || m.map.map_to_addr == range.start && m.map.end() == range.end
}

/// Mappings after one of them was given other permissions on a range of its addresses: it is cut in
/// up to three, and only the part in the middle changes.
pub open spec fn subdivided(
    parent: Map<usize, MappingView>,
    addr: usize,
    range: Range<usize>,
    perm: VmPerm,
) -> Result<Map<usize, MappingView>, Error> {
    let m = parent[addr];
    let start = m.map.map_to_addr;
    let end = m.map.end() as usize;
    if start == range.start && end == range.end {
        Ok(
            parent.insert(
                addr,
                MappingView { map: MapView { perm, ..m.map }, ..m },
            ),
        )
    } else if !m.vmo.rights.dup {
        Err(m.vmo.denied)
    } else {
        let middle = parent.remove(addr).insert(range.start, part(m, range, Some(perm)));
        let left = if start < range.start {
            middle.insert(start, part(m, start..range.start, None))
        } else {
            middle
        };
        Ok(
            if end > range.end {
                left.insert(range.end, part(m, range.end..end, None))
            } else {
                left
            },
        )
    }
}

/// Mappings and the page table after a range of a mapping was protected.
pub open spec fn protected(
    parent: Map<usize, MappingView>,
    s: SpaceView,
    addr: usize,
    new_perm: VmPerm,
    range: Range<usize>,
) -> (Map<usize, MappingView>, SpaceView, Result<(), Error>) {
    let m = parent[addr];
    if m.map.perm == new_perm {
        (parent, s, Ok(()))
    } else if !m.vmo.rights.holds(Rights::of(new_perm)) {
        (parent, s, Err(m.vmo.denied))
    } else {
        match subdivided(parent, addr, range, new_perm) {
            Err(e) => (parent, s, Err(e)),
            Ok(parent2) => {
                let (s2, r) = protect_pages(
                    m.map,
                    s,
                    new_perm,
                    page_of(m.map.offset_of(range.start as int)),
                    page_of(m.map.offset_of(range.end as int)),
                );
                (parent2, s2, r)
            },
        }
    }
}

impl VmMapping {
    /// Protects a specified range of pages in the mapping that begins at `addr` to the target
    /// perms. The VmMapping will split to maintain its property.
    pub fn protect(
        addr: usize,
        new_perm: VmPerm,
        range: &Range<usize>,
        parent: &mut VmMappings,
        vm_space: &mut VmSpace,
    ) -> (r: Result<(), Error>)
        requires
            old(parent)@.contains_key(addr),
            old(parent)@[addr].map.perm != new_perm && old(parent)@[addr].vmo.rights.holds(
                Rights::of(new_perm),
            ) ==> {
                let m = old(parent)@[addr];
                &&& m.map.end() <= usize::MAX
                &&& can_cut(m, *range) ==> {
                    &&& m.map.wf()
                    &&& m.map.map_to_addr == addr
                    &&& addr <= range.start <= range.end <= m.map.end()
                    &&& range.start % PAGE_SIZE == 0
                    &&& range.end % PAGE_SIZE == 0
                }
            },
        ensures
            (final(parent)@, final(vm_space)@, r) == protected(
                old(parent)@,
                old(vm_space)@,
                addr,
                new_perm,
                *range,
            ),
    {
        // If `new_perm` is equal to the old one, `protect()` will not modify any permission in the
        // VmMapping.
        let mapping = match parent.get(addr) {
            Some(mapping) => mapping,
            None => {
                return Ok(());
            },
        };
        if mapping.inner.perm == new_perm {
            return Ok(());
        }
        if let Err(e) = mapping.vmo().check_rights(Rights::from_perm(new_perm)) {
            return Err(e);
        }
        let inner = mapping.inner.copy();
        // Protect permission for the perm in the VmMapping.
        if let Err(e) = VmMapping::protect_with_subdivision(addr, range, new_perm, parent) {
            return Err(e);
        }
        // Protect permission in the VmSpace.
        inner.protect(vm_space, new_perm, range)
    }

    /// Protects the `VmMapping` that begins at `addr` to enforce new permissions within a specified
    /// range.
    ///
    /// Due to the property of `VmMapping`, this operation may require subdividing the current
    /// `VmMapping`. In this condition, it will generate a new `VmMapping` with the specified `perm`
    /// to protect the target range, as well as additional `VmMappings` to preserve the mappings in
    /// the remaining ranges.
    ///
    /// There are four conditions:
    /// 1. |--------old perm--------| -> |-old-| + |------new------|
    /// 2. |--------old perm--------| -> |-new-| + |------old------|
    /// 3. |--------old perm--------| -> |-old-| + |-new-| + |-old-|
    /// 4. |--------old perm--------| -> |---------new perm--------|
    ///
    /// It removes current mapping and adds splitted mappings to the parent if subdividing is
    /// required.
    fn protect_with_subdivision(
        addr: usize,
        intersect_range: &Range<usize>,
        perm: VmPerm,
        parent: &mut VmMappings,
    ) -> (r: Result<(), Error>)
        requires
            old(parent)@.contains_key(addr),
            old(parent)@[addr].map.end() <= usize::MAX,
            can_cut(old(parent)@[addr], *intersect_range) ==> {
                let m = old(parent)@[addr].map;
                &&& m.wf()
                &&& m.map_to_addr == addr
                &&& addr <= intersect_range.start <= intersect_range.end <= m.end()
            },
        ensures
            match subdivided(old(parent)@, addr, *intersect_range, perm) {
                Ok(parent2) => r is Ok && final(parent)@ == parent2,
                Err(e) => r == Err::<(), Error>(e) && final(parent)@ == old(parent)@,
            },
    {
        let ghost parent0 = parent@;
        let mapping = match parent.get(addr) {
            Some(mapping) => mapping,
            None => {
                return Ok(());
            },
        };
        let range = mapping.range();
        // Condition 4, no additional mappings are needed.
        if range.start == intersect_range.start && range.end == intersect_range.end {
            if let Some(mut mapping) = parent.remove(addr) {
                mapping.inner.perm = perm;
                parent.insert(addr, mapping);
            }
            assert(parent@ =~= subdivided(parent0, addr, *intersect_range, perm)->Ok_0);
            return Ok(());
        }
        // Condition 1 or 3, which needs an additional new VmMapping with range
        // (range.start..intersect_range.start)
        let left = if range.start < intersect_range.start {
            match mapping.clone_partial(&(range.start..intersect_range.start), None) {
                Ok(m) => Some(m),
                Err(e) => {
                    return Err(e);
                },
            }
        } else {
            None
        };
        // Condition 2 or 3, which needs an additional new VmMapping with range
        // (intersect_range.end..range.end).
        let right = if range.end > intersect_range.end {
            match mapping.clone_partial(&(intersect_range.end..range.end), None) {
                Ok(m) => Some(m),
                Err(e) => {
                    return Err(e);
                },
            }
        } else {
            None
        };
        // The protected VmMapping must exist and its range is `intersect_range`.
        let protected_mapping = match mapping.clone_partial(intersect_range, Some(perm)) {
            Ok(m) => m,
            Err(e) => {
                return Err(e);
            },
        };
        // Remove the mapping that is split.
        let _ = parent.remove(addr);
        // Add protected mappings.
        parent.insert(protected_mapping.map_to_addr(), protected_mapping);
        // Add additional mappings.
        if let Some(mapping) = left {
            parent.insert(mapping.map_to_addr(), mapping);
        }
        if let Some(mapping) = right {
            parent.insert(mapping.map_to_addr(), mapping);
        }
        Ok(())
    }

    /// A mapping that shows a child of the memory object at the same addresses, in another address
    /// space. The function `alloc` makes the child, in which pages are copied when they are first
    /// written; it is given a reference to the object and the range that the child covers.
    pub fn new_cow<F: FnOnce(Vmo, Range<usize>) -> Result<Vmo, Error>>(&self, alloc: F) -> (r:
        Result<VmMapping, Error>)
        requires
            self@.vmo.rights.dup,
            call_requires(alloc, (self@.vmo, 0..self@.vmo.size)),
        ensures
            exists|child: Result<Vmo, Error>|
                {
                    &&& #[trigger] call_ensures(alloc, (self@.vmo, 0..self@.vmo.size), child)
                    &&& match child {
                        Ok(vmo) => r matches Ok(m) && m@ == cow_mapping(self@, vmo),
                        Err(e) => r matches Err(e2) && e2 == e,
                    }
                },
    {
        let parent_vmo = self.vmo.dup().unwrap();
        let vmo_size = parent_vmo.size();
        let child_vmo = match alloc(parent_vmo, 0..vmo_size) {
            Ok(vmo) => vmo,
            Err(e) => {
                return Err(e);
            },
        };
        Ok(
            VmMapping {
                inner: VmMappingInner {
                    vmo_offset: self.inner.vmo_offset,
                    map_size: self.inner.map_size,
                    map_to_addr: self.inner.map_to_addr,
                    is_destroyed: self.inner.is_destroyed,
                    mapped_pages: UsizeSet::new(),
                    perm: self.inner.perm,
                },
                vmo: child_vmo,
            },
        )
    }
}

/// A mapping that shows another memory object in the same way, with no page in the page table yet.
pub open spec fn cow_mapping(m: MappingView, vmo: Vmo) -> MappingView {
    MappingView { map: MapView { mapped: Set::empty(), ..m.map }, vmo }
}

// Laws.

/// Whether a mapping shows at an address what another one shows there, with these permissions.
pub open spec fn shows(m: MappingView, like: MappingView, addr: int, perm: VmPerm) -> bool {
    &&& m.map.covers(addr)
    &&& m.map.offset_of(addr) == like.map.offset_of(addr)
    &&& m.map.perm == perm
    &&& m.vmo == like.vmo
}

/// After a range of a mapping was given other permissions, every address of the mapping is still
/// shown, with the new permissions in the range and the old ones outside, and shows what it showed
/// before.
pub proof fn law_protect_tiles(
    parent: Map<usize, MappingView>,
    addr: usize,
    range: Range<usize>,
    perm: VmPerm,
    a: int,
)
    requires
        parent.contains_key(addr),
        parent[addr].map.wf(),
        parent[addr].map.map_to_addr == addr,
        addr <= range.start < range.end <= parent[addr].map.end(),
        parent[addr].map.covers(a),
        subdivided(parent, addr, range, perm) is Ok,
    ensures
        exists|k: usize|
            shows(
                #[trigger] subdivided(parent, addr, range, perm)->Ok_0[k],
                parent[addr],
                a,
                if range.start <= a < range.end {
                    perm
                } else {
                    parent[addr].map.perm
                },
            ) && subdivided(parent, addr, range, perm)->Ok_0.contains_key(k),
{
    let after = subdivided(parent, addr, range, perm)->Ok_0;
    let m = parent[addr].map;
    let k = if addr == range.start && m.end() == range.end {
        addr
    } else if a < range.start {
        addr
    } else if a < range.end {
        range.start
    } else {
        range.end
    };
    assert(after.contains_key(k));
    assert(after[k].map.covers(a));
    assert(after[k].map.offset_of(a) == m.offset_of(a));
}

/// Giving a range of a mapping other permissions leaves all other mappings as they were, as long as
/// none of them begins within it.
pub proof fn law_protect_leaves_others(
    parent: Map<usize, MappingView>,
    addr: usize,
    range: Range<usize>,
    perm: VmPerm,
    k: usize,
)
    requires
        parent.contains_key(addr),
        parent[addr].map.wf(),
        parent[addr].map.map_to_addr == addr,
        addr <= range.start < range.end <= parent[addr].map.end(),
        subdivided(parent, addr, range, perm) is Ok,
        !parent[addr].map.covers(k as int),
    ensures
        ({
            let after = subdivided(parent, addr, range, perm)->Ok_0;
            &&& after.contains_key(k) == parent.contains_key(k)
            &&& parent.contains_key(k) ==> after[k] == parent[k]
        }),
{
}

/// A page fault that ends well leaves the page in the page table, with the frame that the memory
/// object gave and exactly the permissions of the mapping, but for writing where a page that is
/// copied on write is only read. If writing was asked for, the page can be written.
pub proof fn law_fault_maps_page(
    m: MappingView,
    s: SpaceView,
    addr: int,
    write: bool,
    frame: VmFrame,
)
    requires
        m.map.wf(),
        m.map.covers(addr),
        fault_check(m, addr, write) is Ok,
        ({
            let p = fault_check(m, addr, write)->Ok_0;
            fault_handled(m, s, p, write, Ok(frame)).2 is Ok
        }),
    ensures
        ({
            let p = fault_check(m, addr, write)->Ok_0;
            let (m2, s2, _) = fault_handled(m, s, p, write, Ok(frame));
            let page = m.map.page_addr(p as int);
            &&& page <= addr < page + PAGE_SIZE
            &&& s2.entries.contains_key(page as usize)
            &&& s2.entries[page as usize].frame == frame
            &&& write ==> s2.entries[page as usize].perm.write
            &&& m.map.perm.holds(s2.entries[page as usize].perm)
            &&& s2.entries[page as usize].perm.read == m.map.perm.read
            &&& s2.entries[page as usize].perm.execute == m.map.perm.execute
            &&& s2.entries[page as usize].perm.write == (m.map.perm.write && !(m.vmo.cow && !write))
            &&& m2.map.mapped.contains(p)
        }),
{
    let p = fault_check(m, addr, write)->Ok_0;
    lemma_has_addr(m.map, p as int);
}

/// An address that lies past the end of the memory object cannot be read or written, even where the
/// mapping covers it.
pub proof fn law_past_the_object_fails(m: MappingView, addr: int, write: bool)
    requires
        m.map.offset_of(addr) >= m.vmo.size,
    ensures
        fault_check(m, addr, write) matches Err(e) && e.errno == Errno::EACCES,
{
}

/// A page of a memory object that copies on write is mapped for reading only until it is written,
/// so that the first write faults.
pub proof fn law_cow_read_is_read_only(
    m: MappingView,
    s: SpaceView,
    addr: int,
    frame: VmFrame,
)
    requires
        m.map.wf(),
        m.vmo.cow,
        fault_check(m, addr, false) is Ok,
        ({
            let p = fault_check(m, addr, false)->Ok_0;
            fault_handled(m, s, p, false, Ok(frame)).2 is Ok
        }),
    ensures
        ({
            let p = fault_check(m, addr, false)->Ok_0;
            let (m2, s2, _) = fault_handled(m, s, p, false, Ok(frame));
            write_faults(m2, s2, p as int)
        }),
{
}

/// Pages that were made ready to be written lie in the mapping, of which only the list of pages
/// changed.
proof fn lemma_write_pages_ready(m: MappingView, s: SpaceView, from: int, to: int, frames: Frames)
    requires
        m.map.wf(),
        0 <= from,
        to <= usize::MAX,
        write_pages(m, s, from, to, frames).2 is Ok,
    ensures
        ({
            let m2 = write_pages(m, s, from, to, frames).0;
            m2 == (MappingView { map: MapView { mapped: m2.map.mapped, ..m.map }, ..m })
        }),
        forall|p: int| from <= p < to ==> #[trigger] m.map.holds_page(p),
    decreases to - from,
{
    if from < to {
        let (m1, s1, _) = write_pages(m, s, from, to - 1, frames);
        lemma_write_pages_ready(m, s, from, to - 1, frames);
        lemma_write_page_frame(m1, s1, to - 1, frames[to - 1]);
        assert(m1.map.holds_page(to - 1) == m.map.holds_page(to - 1));
    }
}

/// Pages that lie in a mapping may be used as the mapping permits.
proof fn lemma_check_pages(m: MapView, from: int, to: int, perm: VmPerm)
    requires
        m.perm.holds(perm),
        forall|p: int| from <= p < to ==> #[trigger] m.holds_page(p),
    ensures
        check_pages(m, from, to, perm) is Ok,
    decreases to - from,
{
    if from < to {
        assert(m.holds_page(from));
        lemma_check_pages(m, from + 1, to, perm);
    }
}

/// A read gives back what was written: after bytes were written through a mapping that may be read,
/// those at the same offset may be read, are read from the same place of the same memory object,
/// and are the ones that were written, if the object held `bytes` before and nothing else was
/// written to it since.
pub proof fn law_read_gives_back_write(
    m: MappingView,
    s: SpaceView,
    offset: usize,
    bytes: Seq<u8>,
    data: Seq<u8>,
    frames: Frames,
)
    requires
        m.map.wf(),
        m.map.place(offset) + data.len() + PAGE_SIZE <= usize::MAX,
        m.map.place(offset) + data.len() <= bytes.len(),
        m.map.perm.holds(perm_r()),
        write_pages(
            m,
            s,
            page_of(m.map.place(offset)),
            pages_for(m.map.place(offset) + data.len()),
            frames,
        ).2 is Ok,
    ensures
        ({
            let from = page_of(m.map.place(offset));
            let to = pages_for(m.map.place(offset) + data.len());
            let m2 = write_pages(m, s, from, to, frames).0;
            let place = m2.map.place(offset);
            &&& m2.vmo == m.vmo
            &&& place == m.map.place(offset)
            &&& check_pages(m2.map, from, to, perm_r()) is Ok
            &&& overwritten(bytes, m.map.place(offset), data).subrange(place, place + data.len())
                == data
        }),
{
    let from = page_of(m.map.place(offset));
    let to = pages_for(m.map.place(offset) + data.len());
    let m2 = write_pages(m, s, from, to, frames).0;
    let place = m.map.place(offset);
    lemma_write_pages_ready(m, s, from, to, frames);
    assert forall|p: int| from <= p < to implies #[trigger] m2.map.holds_page(p) by {
        assert(m.map.holds_page(p));
    }
    lemma_check_pages(m2.map, from, to, perm_r());
    assert(overwritten(bytes, place, data).subrange(place, place + data.len()) =~= data);
}

/// Whether every mapping is valid and listed under the address where it begins.
pub open spec fn mappings_wf(parent: Map<usize, MappingView>) -> bool {
    forall|k: usize| #[trigger]
        parent.contains_key(k) ==> parent[k].map.wf() && parent[k].map.map_to_addr == k
}

/// Whether no address is shown by two mappings.
pub open spec fn mappings_disjoint(parent: Map<usize, MappingView>) -> bool {
    forall|j: usize, k: usize, a: int|
        #![trigger parent[j].map.covers(a), parent[k].map.covers(a)]
        parent.contains_key(j) && parent.contains_key(k) && parent[j].map.covers(a)
            && parent[k].map.covers(a) ==> j == k
}

/// Giving a range of pages of a mapping other permissions keeps all mappings valid and listed under
/// the addresses where they begin.
pub proof fn law_protect_keeps_valid(
    parent: Map<usize, MappingView>,
    addr: usize,
    range: Range<usize>,
    perm: VmPerm,
)
    requires
        mappings_wf(parent),
        parent.contains_key(addr),
        addr <= range.start <= range.end <= parent[addr].map.end(),
        range.start % PAGE_SIZE == 0,
        range.end % PAGE_SIZE == 0,
        subdivided(parent, addr, range, perm) is Ok,
    ensures
        mappings_wf(subdivided(parent, addr, range, perm)->Ok_0),
{
    let after = subdivided(parent, addr, range, perm)->Ok_0;
    assert forall|k: usize| #[trigger] after.contains_key(k) implies after[k].map.wf()
        && after[k].map.map_to_addr == k by {
        let m = parent[addr].map;
        assert(m.wf() && m.map_to_addr == addr);
        law_shrink_keeps_offsets(m, addr..range.start, 0);
        law_shrink_keeps_offsets(m, range, 0);
        law_shrink_keeps_offsets(m, range.end..m.end() as usize, 0);
        if parent.contains_key(k) {
            assert(parent[k].map.wf() && parent[k].map.map_to_addr == k);
        }
    }
}

/// Giving a range of a mapping other permissions leaves mappings that list only pages of their own.
pub proof fn law_protect_keeps_listed(
    parent: Map<usize, MappingView>,
    addr: usize,
    range: Range<usize>,
    perm: VmPerm,
    k: usize,
)
    requires
        mappings_wf(parent),
        parent.contains_key(addr),
        addr <= range.start <= range.end <= parent[addr].map.end(),
        subdivided(parent, addr, range, perm) is Ok,
        forall|j: usize| #[trigger] parent.contains_key(j) ==> parent[j].map.lists_own(),
        subdivided(parent, addr, range, perm)->Ok_0.contains_key(k),
    ensures
        subdivided(parent, addr, range, perm)->Ok_0[k].map.lists_own(),
{
    assert(parent[addr].map.lists_own());
    assert(parent[addr].map.wf());
    if parent.contains_key(k) {
        assert(parent[k].map.lists_own());
    }
}

/// Setting the pages of a mapping to read-only leaves the entries of all others alone: those whose
/// addresses none of its listed pages has.
pub proof fn law_read_only_leaves_others(
    m: MapView,
    s: SpaceView,
    perm: VmPerm,
    pages: Seq<usize>,
    a: usize,
)
    requires
        forall|i: int| 0 <= i < pages.len() ==> m.page_addr(#[trigger] pages[i] as int) as usize != a,
    ensures
        ({
            let s2 = protect_listed(m, s, perm, pages).0;
            &&& s2.entries.contains_key(a) == s.entries.contains_key(a)
            &&& s.entries.contains_key(a) ==> s2.entries[a] == s.entries[a]
        }),
    decreases pages.len(),
{
    if pages.len() > 0 {
        let addr = m.page_addr(pages.first() as int) as usize;
        assert(m.page_addr(pages[0] as int) as usize != a);
        if !s.refused.contains_key(addr) {
            let rest = pages.drop_first();
            assert forall|i: int| 0 <= i < rest.len() implies m.page_addr(
                #[trigger] rest[i] as int,
            ) as usize != a by {
                assert(rest[i] == pages[i + 1]);
            }
            law_read_only_leaves_others(m, s.protected(addr, perm), perm, rest, a);
        }
    }
}

/// Giving a range of a mapping other permissions keeps mappings apart: if no address was shown by
/// two of them, none is afterwards.
pub proof fn law_protect_keeps_apart(
    parent: Map<usize, MappingView>,
    addr: usize,
    range: Range<usize>,
    perm: VmPerm,
)
    requires
        mappings_wf(parent),
        mappings_disjoint(parent),
        parent.contains_key(addr),
        addr <= range.start < range.end <= parent[addr].map.end(),
        subdivided(parent, addr, range, perm) is Ok,
    ensures
        mappings_disjoint(subdivided(parent, addr, range, perm)->Ok_0),
{
    let after = subdivided(parent, addr, range, perm)->Ok_0;
    assert forall|j: usize, k: usize, a: int|
        #![trigger after[j].map.covers(a), after[k].map.covers(a)]
        after.contains_key(j) && after.contains_key(k) && after[j].map.covers(a)
            && after[k].map.covers(a) implies j == k by {
        lemma_piece(parent, addr, range, perm, j, a);
        lemma_piece(parent, addr, range, perm, k, a);
    }
}

/// An address that is shown after a mapping was cut is shown by the part that it lies in, or by
/// another mapping that showed it before.
proof fn lemma_piece(
    parent: Map<usize, MappingView>,
    addr: usize,
    range: Range<usize>,
    perm: VmPerm,
    k: usize,
    a: int,
)
    requires
        mappings_wf(parent),
        mappings_disjoint(parent),
        parent.contains_key(addr),
        addr <= range.start < range.end <= parent[addr].map.end(),
        subdivided(parent, addr, range, perm) is Ok,
        subdivided(parent, addr, range, perm)->Ok_0.contains_key(k),
        subdivided(parent, addr, range, perm)->Ok_0[k].map.covers(a),
    ensures
        if parent[addr].map.covers(a) {
            k == if addr == range.start && parent[addr].map.end() == range.end || a < range.start {
                addr
            } else if a < range.end {
                range.start
            } else {
                range.end
            }
        } else {
            parent.contains_key(k) && parent[k].map.covers(a)
        },
{
    let m = parent[addr].map;
    assert(m.wf() && m.map_to_addr == addr);
    if parent.contains_key(k) && parent[k].map.covers(a) && m.covers(a) {
        assert(k == addr);
    }
}

/// A page fault is answered with a page exactly if the address is backed by the memory object,
/// there is the right to what is asked, all bytes of the page lie in the mapping, and the mapping
/// has the permission; the page is the one that the address lies in. The first of these that is
/// missing decides on the error.
pub proof fn law_fault_check_is_exact(m: MappingView, addr: int, write: bool)
    requires
        m.map.wf(),
        0 <= m.map.offset_of(addr) <= usize::MAX,
    ensures
        ({
            let offset = addr - m.map.map_to_addr + m.map.vmo_offset;
            let start = offset - offset % (PAGE_SIZE as int);
            let backed = offset < m.vmo.size;
            let right = if write {
                m.vmo.rights.write
            } else {
                m.vmo.rights.read
            };
            let whole = m.map.vmo_offset <= start && start + PAGE_SIZE <= m.map.vmo_offset
                + m.map.map_size;
            let permitted = if write {
                m.map.perm.write
            } else {
                m.map.perm.read
            };
            match fault_check(m, addr, write) {
                Ok(p) => backed && right && whole && permitted && p * PAGE_SIZE == start,
                Err(e) => {
                    &&& !(backed && right && whole && permitted)
                    &&& !backed ==> e.errno == Errno::EACCES
                    &&& backed && !right ==> e == m.vmo.denied
                    &&& backed && right && !whole ==> e.errno == Errno::EINVAL
                    &&& backed && right && whole ==> e.errno == Errno::EACCES
                },
            }
        }),
{
}

/// A page fault changes at most the entry of the page that the address lies in, and of the mapping
/// only the list of pages. One that fails, be it for want of a frame or because the page table
/// refuses, changes nothing.
pub proof fn law_fault_leaves_others(
    m: MappingView,
    s: SpaceView,
    addr: int,
    write: bool,
    frame: Result<VmFrame, Error>,
    a: usize,
)
    requires
        m.map.wf(),
        m.map.covers(addr),
        fault_check(m, addr, write) is Ok,
    ensures
        ({
            let p = fault_check(m, addr, write)->Ok_0;
            let (m2, s2, r) = fault_handled(m, s, p, write, frame);
            &&& !(a <= addr < a + PAGE_SIZE && a % PAGE_SIZE == 0) ==> {
                &&& s2.entries.contains_key(a) == s.entries.contains_key(a)
                &&& s2.entries[a] == s.entries[a]
            }
            &&& s2.refused == s.refused
            &&& s2.taken == s.taken
            &&& m2.vmo == m.vmo
            &&& m2.map == (MapView { mapped: m2.map.mapped, ..m.map })
            &&& forall|q: usize| q != p ==> (#[trigger] m2.map.mapped.contains(q)
                <==> m.map.mapped.contains(q))
            &&& r is Err ==> m2 == m && s2 == s
            &&& frame matches Err(e) ==> r == Err::<(), Error>(e)
        }),
{
    let p = fault_check(m, addr, write)->Ok_0;
    lemma_has_addr(m.map, p as int);
}

/// After a range of a mapping was protected without an error, and with other permissions than it
/// had, every page of the range that is in the page table has exactly the new permissions there. In
/// any case, no frame changes, and all entries outside the range are as they were.
pub proof fn law_protect_reaches_page_table(
    parent: Map<usize, MappingView>,
    s: SpaceView,
    addr: usize,
    new_perm: VmPerm,
    range: Range<usize>,
    a: usize,
)
    requires
        parent.contains_key(addr),
        parent[addr].map.wf(),
        parent[addr].map.map_to_addr == addr,
        addr <= range.start <= range.end <= parent[addr].map.end(),
        range.start % PAGE_SIZE == 0,
        range.end % PAGE_SIZE == 0,
        parent[addr].map.perm != new_perm,
    ensures
        ({
            let (_, s2, r) = protected(parent, s, addr, new_perm, range);
            let inside = a % PAGE_SIZE == 0 && range.start <= a < range.end;
            &&& s2.entries.contains_key(a) == s.entries.contains_key(a)
            &&& s.entries.contains_key(a) ==> {
                &&& s2.entries[a].frame == s.entries[a].frame
                &&& r is Ok && inside ==> s2.entries[a].perm == new_perm
                &&& !inside ==> s2.entries[a].perm == s.entries[a].perm
            }
            &&& s2.refused == s.refused
            &&& s2.taken == s.taken
        }),
{
    let m = parent[addr].map;
    let from = page_of(m.offset_of(range.start as int));
    let to = page_of(m.offset_of(range.end as int));
    let (s2, r) = protect_pages(m, s, new_perm, from, to);
    let after = protected(parent, s, addr, new_perm, range);
    assert(after.1 == s2 && after.2 == r || after.1 == s && after.2 is Err);
    lemma_first_stuck(m, s, s, from, to);
    law_protect_sets_entries(m, s, new_perm, from, to, a);
    assert(m.page_addr(from) == range.start && m.page_addr(to) == range.end);
    assert(s2.entries.dom().contains(a) == s.entries.dom().contains(a));
}

/// Protecting a range does nothing where the mapping has the permissions already. It fails, and
/// changes neither mappings nor page table, where there is no right to the new permissions, or none
/// to make the references that it takes to cut the mapping.
pub proof fn law_protect_needs_rights(
    parent: Map<usize, MappingView>,
    s: SpaceView,
    addr: usize,
    new_perm: VmPerm,
    range: Range<usize>,
)
    requires
        parent[addr].map.end() <= usize::MAX,
    ensures
        ({
            let m = parent[addr];
            let after = protected(parent, s, addr, new_perm, range);
            let missing = new_perm.read && !m.vmo.rights.read || new_perm.write
                && !m.vmo.rights.write || new_perm.execute && !m.vmo.rights.execute;
            let whole = range.start == m.map.map_to_addr && range.end == m.map.end();
            &&& m.map.perm == new_perm ==> after == (parent, s, Ok::<(), Error>(()))
            &&& m.map.perm != new_perm && (missing || !whole && !m.vmo.rights.dup) ==> after == (
                parent,
                s,
                Err::<(), Error>(m.vmo.denied),
            )
        }),
{
}

/// Where a range may be protected, it ends in an error exactly if a page of the range is in the
/// page table with an entry that cannot be changed, and the error is that of such a page.
pub proof fn law_protect_fails_if_refused(
    parent: Map<usize, MappingView>,
    s: SpaceView,
    addr: usize,
    new_perm: VmPerm,
    range: Range<usize>,
    b: usize,
)
    requires
        parent.contains_key(addr),
        parent[addr].map.wf(),
        parent[addr].map.map_to_addr == addr,
        addr <= range.start <= range.end <= parent[addr].map.end(),
        range.start % PAGE_SIZE == 0,
        range.end % PAGE_SIZE == 0,
        parent[addr].map.perm != new_perm,
        parent[addr].vmo.rights.holds(Rights::of(new_perm)),
        can_cut(parent[addr], range),
    ensures
        protected(parent, s, addr, new_perm, range).2 matches Err(e) ==> exists|a: usize|
            range.start <= a < range.end && s.entries.contains_key(a)
                && #[trigger] s.refused.contains_key(a) && e == s.refused[a],
        range.start <= b < range.end && b % PAGE_SIZE == 0 && s.entries.contains_key(b)
            && s.refused.contains_key(b) ==> protected(parent, s, addr, new_perm, range).2 is Err,
{
    let m = parent[addr].map;
    let from = page_of(m.offset_of(range.start as int));
    let to = page_of(m.offset_of(range.end as int));
    assert(protected(parent, s, addr, new_perm, range).2 == protect_pages(
        m,
        s,
        new_perm,
        from,
        to,
    ).1);
    lemma_pages_refused(m, s, new_perm, range, b);
}

/// Giving the pages of a range other permissions fails exactly if one of them is in the page table
/// with an entry that cannot be changed.
proof fn lemma_pages_refused(
    m: MapView,
    s: SpaceView,
    perm: VmPerm,
    range: Range<usize>,
    b: usize,
)
    requires
        m.wf(),
        m.map_to_addr <= range.start <= range.end <= m.end(),
        range.start % PAGE_SIZE == 0,
        range.end % PAGE_SIZE == 0,
    ensures
        ({
            let from = page_of(m.offset_of(range.start as int));
            let to = page_of(m.offset_of(range.end as int));
            let r = protect_pages(m, s, perm, from, to).1;
            &&& r matches Err(e) ==> exists|a: usize|
                range.start <= a < range.end && s.entries.contains_key(a)
                    && #[trigger] s.refused.contains_key(a) && e == s.refused[a]
            &&& range.start <= b < range.end && b % PAGE_SIZE == 0 && s.entries.contains_key(b)
                && s.refused.contains_key(b) ==> r is Err
        }),
{
    let from = page_of(m.offset_of(range.start as int));
    let to = page_of(m.offset_of(range.end as int));
    law_protect_sets_entries(m, s, perm, from, to, 0);
    lemma_first_stuck(m, s, s, from, to);
    let k = first_stuck(m, s, from, to);
    if k < to {
        lemma_has_addr(m, k);
        assert(s.refused.contains_key(m.page_addr(k) as usize));
    }
    if range.start <= b < range.end && b % PAGE_SIZE == 0 {
        let p = page_of(m.offset_of(b as int));
        assert(m.page_addr(p) == b);
        assert(stuck(m, s, p) <==> s.entries.contains_key(b) && s.refused.contains_key(b));
    }
}

/// Setting listed pages to read-only, or to other permissions, gives those that are in the page
/// table exactly these permissions and leaves their frames. It fails only on a listed page whose
/// entry cannot be changed.
pub proof fn law_listed_pages_are_protected(
    m: MapView,
    s: SpaceView,
    perm: VmPerm,
    pages: Seq<usize>,
    a: usize,
)
    ensures
        ({
            let (s2, r) = protect_listed(m, s, perm, pages);
            let listed = exists|i: int|
                0 <= i < pages.len() && m.page_addr(#[trigger] pages[i] as int) as usize == a;
            &&& s2.entries.contains_key(a) == s.entries.contains_key(a)
            &&& s.entries.contains_key(a) ==> {
                &&& s2.entries[a].frame == s.entries[a].frame
                &&& s2.entries[a].perm == perm || s2.entries[a].perm == s.entries[a].perm
                &&& r is Ok && listed ==> s2.entries[a].perm == perm
                &&& !listed ==> s2.entries[a].perm == s.entries[a].perm
            }
            &&& s2.refused == s.refused
            &&& s2.taken == s.taken
            &&& r is Ok && listed ==> !s.refused.contains_key(a)
            &&& r matches Err(e) ==> exists|i: int|
                0 <= i < pages.len() && s.refused.contains_key(
                    m.page_addr(#[trigger] pages[i] as int) as usize,
                ) && e == s.refused[m.page_addr(pages[i] as int) as usize]
        }),
    decreases pages.len(),
{
    if pages.len() > 0 {
        let addr = m.page_addr(pages.first() as int) as usize;
        assert(pages[0] == pages.first());
        let (s2, r) = protect_listed(m, s, perm, pages);
        if !s.refused.contains_key(addr) {
            let rest = pages.drop_first();
            law_listed_pages_are_protected(m, s.protected(addr, perm), perm, rest, a);
            assert forall|i: int| 0 <= i < rest.len() implies #[trigger] rest[i] == pages[i + 1] by {
            }
            if exists|i: int|
                0 <= i < pages.len() && m.page_addr(#[trigger] pages[i] as int) as usize == a {
                let i = choose|i: int|
                    0 <= i < pages.len() && m.page_addr(#[trigger] pages[i] as int) as usize == a;
                if i > 0 {
                    assert(m.page_addr(rest[i - 1] as int) as usize == a);
                }
            }
            if exists|i: int|
                0 <= i < rest.len() && m.page_addr(#[trigger] rest[i] as int) as usize == a {
                let i = choose|i: int|
                    0 <= i < rest.len() && m.page_addr(#[trigger] rest[i] as int) as usize == a;
                assert(m.page_addr(pages[i + 1] as int) as usize == a);
            }
            if r is Err {
                let i = choose|i: int|
                    0 <= i < rest.len() && s.refused.contains_key(
                        m.page_addr(#[trigger] rest[i] as int) as usize,
                    ) && r->Err_0 == s.refused[m.page_addr(rest[i] as int) as usize];
                assert(rest[i] == pages[i + 1]);
            }
        } else {
            assert(s.refused.contains_key(m.page_addr(pages[0] as int) as usize));
        }
    }
}

/// Pages may all be used as asked exactly if there are none, or all bytes of all of them lie in the
/// mapping and it has the permissions.
pub proof fn law_check_pages_is_exact(m: MapView, from: int, to: int, perm: VmPerm)
    ensures
        check_pages(m, from, to, perm) is Ok <==> from >= to || (perm.read ==> m.perm.read) && (
        perm.write ==> m.perm.write) && (perm.execute ==> m.perm.execute) && m.vmo_offset <= from
            * PAGE_SIZE && to * PAGE_SIZE <= m.vmo_offset + m.map_size,
    decreases to - from,
{
    if from < to {
        law_check_pages_is_exact(m, from + 1, to, perm);
    }
}

/// After pages were made ready to be written, each of them that is in the page table can be
/// written: with the entry that it had, if it could be written before, and else with the frame that
/// the memory object gave for it and exactly the permissions of the mapping. No page comes into the
/// page table or leaves it, and entries of other pages stay as they were.
pub proof fn law_write_makes_writable(
    m: MappingView,
    s: SpaceView,
    from: int,
    to: int,
    frames: Frames,
    a: usize,
)
    requires
        m.map.wf(),
        0 <= from,
        to <= usize::MAX,
        write_pages(m, s, from, to, frames).2 is Ok,
    ensures
        ({
            let (m2, s2, _) = write_pages(m, s, from, to, frames);
            let p = (a - m.map.map_to_addr + m.map.vmo_offset) / (PAGE_SIZE as int);
            let inside = a % PAGE_SIZE == 0 && from <= p < to;
            &&& from < to ==> m.map.perm.write
            &&& s2.entries.contains_key(a) == s.entries.contains_key(a)
            &&& s.entries.contains_key(a) ==> {
                &&& inside && !s.entries[a].perm.write ==> {
                    &&& frames[p] == Ok::<VmFrame, Error>(s2.entries[a].frame)
                    &&& s2.entries[a].perm == m.map.perm
                    &&& m2.map.mapped.contains(p as usize)
                }
                &&& !(inside && !s.entries[a].perm.write) ==> s2.entries[a] == s.entries[a]
            }
            &&& s2.refused == s.refused
            &&& s2.taken == s.taken
            &&& forall|q: usize| #[trigger] m.map.mapped.contains(q) ==> m2.map.mapped.contains(q)
        }),
    decreases to - from,
{
    if from < to {
        let (m1, s1, _) = write_pages(m, s, from, to - 1, frames);
        law_write_makes_writable(m, s, from, to - 1, frames, a);
        lemma_write_pages_ready(m, s, from, to - 1, frames);
        assert(m1.map.holds_page(to - 1));
        lemma_has_addr(m1.map, to - 1);
        let b = m1.map.page_addr(to - 1);
        assert(m1.map.offset_of(b) == (to - 1) * PAGE_SIZE);
        let p = (a - m.map.map_to_addr + m.map.vmo_offset) / (PAGE_SIZE as int);
        assert(a % PAGE_SIZE == 0 && p == to - 1 <==> a == b);
    }
}

/// The mapping of a child shows at the same addresses the same places of its own memory object,
/// with the same permissions, and none of its pages is in a page table yet.
pub proof fn law_child_shows_same_places(m: MappingView, vmo: Vmo, addr: int)
    ensures
        ({
            let c = cow_mapping(m, vmo);
            &&& c.vmo == vmo
            &&& c.map.covers(addr) == m.map.covers(addr)
            &&& c.map.offset_of(addr) == m.map.offset_of(addr)
            &&& c.map.perm == m.map.perm
            &&& c.map.is_destroyed == m.map.is_destroyed
            &&& forall|p: usize| !#[trigger] c.map.mapped.contains(p)
            &&& m.map.wf() ==> c.map.wf() && c.map.lists_own()
        }),
{
}

/// An address of a mapping lies as far from the start of the mapping as what it shows lies from
/// where the mapping begins in the memory object, and a page of the object is shown at the address
/// that shows its first byte.
pub proof fn law_places_run_in_step(m: MapView, addr: int, page_idx: int, offset: usize)
    ensures
        m.covers(addr) <==> m.map_to_addr <= addr < m.map_to_addr + m.map_size,
        m.offset_of(addr) - m.vmo_offset == addr - m.map_to_addr,
        m.offset_of(m.page_addr(page_idx)) == page_idx * PAGE_SIZE,
        m.place(offset) == m.offset_of(m.map_to_addr + offset),
{
}

/// The frame that a page has after it was made ready to be written for the first time is the one
/// that the memory object gave when it was asked to give the page for writing.
pub proof fn law_written_frame_was_asked_for<F: Fn(usize, bool) -> Result<VmFrame, Error>>(
    commit: F,
    m: MappingView,
    s: SpaceView,
    from: int,
    to: int,
    frames: Frames,
    p: int,
)
    requires
        m.map.wf(),
        0 <= from <= p < to <= usize::MAX,
        given(commit, m, s, from, to, frames),
        write_pages(m, s, from, to, frames).2 is Ok,
        s.entries.contains_key(m.map.page_addr(p) as usize),
        !s.entries[m.map.page_addr(p) as usize].perm.write,
    ensures
        ({
            let s2 = write_pages(m, s, from, to, frames).1;
            call_ensures(
                commit,
                (p as usize, true),
                Ok(s2.entries[m.map.page_addr(p) as usize].frame),
            )
        }),
{
    let a = m.map.page_addr(p) as usize;
    lemma_write_prefix(m, s, from, p + 1, to, frames);
    lemma_write_prefix(m, s, from, p, p + 1, frames);
    lemma_write_pages_ready(m, s, from, to, frames);
    assert(m.map.holds_page(p));
    lemma_has_addr(m.map, p);
    assert(m.map.offset_of(a as int) == p * PAGE_SIZE);
    law_write_makes_writable(m, s, from, p, frames, a);
    law_write_makes_writable(m, s, from, to, frames, a);
    lemma_write_pages_ready(m, s, from, p, frames);
    let (m1, s1, r1) = write_pages(m, s, from, p, frames);
    assert(m1.map.page_addr(p) == a);
    assert(write_faults(m1, s1, p));
    assert(asked(m, s, from, p, frames));
}

/// Pages that are made ready without an error are so up to each of them.
proof fn lemma_write_prefix(
    m: MappingView,
    s: SpaceView,
    from: int,
    mid: int,
    to: int,
    frames: Frames,
)
    requires
        from <= mid <= to,
        write_pages(m, s, from, to, frames).2 is Ok,
    ensures
        write_pages(m, s, from, mid, frames).2 is Ok,
    decreases to - mid,
{
    if mid < to {
        lemma_write_prefix(m, s, from, mid, to - 1, frames);
    }
}

/// After a range of a mapping was protected, every address of the mapping is shown, with the new
/// permissions in the range and the old ones outside, and shows what it showed before. That is so
/// even where the entry of a page could not be changed.
pub proof fn law_protect_gives_permissions(
    parent: Map<usize, MappingView>,
    s: SpaceView,
    addr: usize,
    new_perm: VmPerm,
    range: Range<usize>,
    a: int,
)
    requires
        parent.contains_key(addr),
        parent[addr].map.wf(),
        parent[addr].map.map_to_addr == addr,
        addr <= range.start < range.end <= parent[addr].map.end(),
        parent[addr].map.covers(a),
        parent[addr].map.perm == new_perm || parent[addr].vmo.rights.holds(Rights::of(new_perm))
            && can_cut(parent[addr], range),
    ensures
        ({
            let after = protected(parent, s, addr, new_perm, range).0;
            exists|k: usize|
                after.contains_key(k) && shows(
                    #[trigger] after[k],
                    parent[addr],
                    a,
                    if range.start <= a < range.end {
                        new_perm
                    } else {
                        parent[addr].map.perm
                    },
                )
        }),
{
    let after = protected(parent, s, addr, new_perm, range).0;
    if parent[addr].map.perm == new_perm {
        assert(shows(after[addr], parent[addr], a, new_perm));
    } else {
        law_protect_tiles(parent, addr, range, new_perm, a);
    }
}

/// Making pages ready to be written stops at the first page that cannot be made so, with the error
/// of that page, and leaves all as it was when that page's turn came.
pub proof fn law_write_stops_at_first_error(
    m: MappingView,
    s: SpaceView,
    from: int,
    to: int,
    frames: Frames,
) -> (k: int)
    requires
        write_pages(m, s, from, to, frames).2 is Err,
    ensures
        from <= k < to,
        write_pages(m, s, from, k, frames).2 is Ok,
        write_pages(m, s, from, k + 1, frames).2 == write_pages(m, s, from, to, frames).2,
        write_pages(m, s, from, to, frames).0 == write_pages(m, s, from, k, frames).0,
        write_pages(m, s, from, to, frames).1 == write_pages(m, s, from, k, frames).1,
    decreases to - from,
{
    if write_pages(m, s, from, to - 1, frames).2 is Err {
        law_write_stops_at_first_error(m, s, from, to - 1, frames)
    } else {
        to - 1
    }
}

} // verus!
