//! The state of a mapping: where it lies, what it shows, and which of its pages are in the page
//! table.
use core::ops::Range;
use vstd::prelude::*;

use crate::config::PAGE_SIZE;
use crate::error::{Errno, Error};
use crate::vm::pages::{get_page_idx_range, page_of, pages_for};
use crate::vm::perms::VmPerm;
use crate::vm::space::{PageEntry, SpaceView, VmSpace};
use crate::vm::usize_set::UsizeSet;
use crate::vm::vmo::{VmFrame, Vmo};

verus! {

/// The state of a mapping.
pub struct VmMappingInner {
    /// The map offset of the vmo, in bytes.
    pub vmo_offset: usize,
    /// The size of mapping, in bytes. The map size can even be larger than the size of vmo.
    /// Those pages outside vmo range cannot be read or write.
    pub map_size: usize,
    /// The base address where the vmo is mapped.
    pub map_to_addr: usize,
    /// Whether the mapping was destroyed.
    pub is_destroyed: bool,
    /// The pages already mapped. The key is the page index in vmo.
    pub mapped_pages: UsizeSet,
    /// The permission of pages in the mapping.
    /// All pages within the same mapping have the same permission.
    pub perm: VmPerm,
}

/// The mathematical value of the state of a mapping.
#[verifier::ext_equal]
pub struct MapView {
    pub vmo_offset: usize,
    pub map_size: usize,
    pub map_to_addr: usize,
    pub is_destroyed: bool,
    pub mapped: Set<usize>,
    pub perm: VmPerm,
}

impl View for VmMappingInner {
    type V = MapView;

    open spec fn view(&self) -> MapView {
        MapView {
            vmo_offset: self.vmo_offset,
            map_size: self.map_size,
            map_to_addr: self.map_to_addr,
            is_destroyed: self.is_destroyed,
            mapped: self.mapped_pages@,
            perm: self.perm,
        }
    }
}

impl MapView {
    /// Whether the mapping begins at a page, both in memory and in the memory object, and its ends
    /// there can be computed, in the object up to the end of the page that it lies in.
    pub open spec fn wf(self) -> bool {
        &&& self.vmo_offset % PAGE_SIZE == 0
        &&& self.map_to_addr % PAGE_SIZE == 0
        &&& self.vmo_offset + self.map_size + PAGE_SIZE <= usize::MAX
        &&& self.end() <= usize::MAX
    }

    /// The address after the last one of the mapping.
    pub open spec fn end(self) -> int {
        self.map_to_addr + self.map_size
    }

    /// Whether an address lies in the mapping.
    pub open spec fn covers(self, addr: int) -> bool {
        self.map_to_addr <= addr < self.end()
    }

    /// Where in the memory object an address of the mapping points.
    pub open spec fn offset_of(self, addr: int) -> int {
        addr - self.map_to_addr + self.vmo_offset
    }

    /// Where in the memory object the byte lies that is so far from the start of the mapping.
    pub open spec fn place(self, offset: usize) -> int {
        self.vmo_offset + offset
    }

    /// The address of a page of the memory object.
    pub open spec fn page_addr(self, page_idx: int) -> int {
        page_idx * PAGE_SIZE + self.map_to_addr - self.vmo_offset
    }

    /// Whether the address of a page of the memory object can be computed.
    pub open spec fn has_addr(self, page_idx: int) -> bool {
        0 <= self.page_addr(page_idx) <= usize::MAX
    }

    /// Whether a page of the memory object lies in the mapping, with all its bytes.
    pub open spec fn holds_page(self, page_idx: int) -> bool {
        &&& self.vmo_offset <= page_idx * PAGE_SIZE
        &&& (page_idx + 1) * PAGE_SIZE <= self.vmo_offset + self.map_size
    }

    /// Whether the mapping lists only pages that it shows, at least in part.
    pub open spec fn lists_own(self) -> bool {
        forall|p: usize| #[trigger]
            self.mapped.contains(p) ==> page_of(self.vmo_offset as int) <= p < pages_for(
                self.vmo_offset + self.map_size,
            )
    }

    /// The mapping with one page more in the page table.
    pub open spec fn with_page(self, page_idx: usize) -> MapView {
        MapView { mapped: self.mapped.insert(page_idx), ..self }
    }

    /// The mapping with one page less in the page table.
    pub open spec fn without_page(self, page_idx: usize) -> MapView {
        MapView { mapped: self.mapped.remove(page_idx), ..self }
    }
}

/// Whether the entry of a page is there and cannot be removed.
pub open spec fn stuck(m: MapView, s: SpaceView, page_idx: int) -> bool {
    let addr = m.page_addr(page_idx) as usize;
    s.entries.contains_key(addr) && s.refused.contains_key(addr)
}

/// What happens when a frame is mapped as a page, for reading only or with all permissions of the
/// mapping. What was mapped there before is unmapped first if pages are copied when they are first
/// written; otherwise it is up to the page table whether it is replaced.
pub open spec fn map_page(
    m: MapView,
    s: SpaceView,
    page_idx: int,
    frame: VmFrame,
    cow: bool,
    is_readonly: bool,
) -> (MapView, SpaceView, Result<(), Error>) {
    let addr = m.page_addr(page_idx) as usize;
    if s.refused.contains_key(addr) {
        (m, s, Err(s.refused[addr]))
    } else if !cow && s.entries.contains_key(addr) && s.taken is Some {
        (m, s, Err(s.taken->Some_0))
    } else {
        let perm = if is_readonly {
            m.perm.read_only()
        } else {
            m.perm
        };
        (m.with_page(page_idx as usize), s.with(addr, PageEntry { frame, perm }), Ok(()))
    }
}

/// What happens when a page is unmapped: an entry that cannot be removed stays.
pub open spec fn unmap_page(m: MapView, s: SpaceView, page_idx: int) -> (
    MapView,
    SpaceView,
    Result<(), Error>,
) {
    let addr = m.page_addr(page_idx) as usize;
    if stuck(m, s, page_idx) {
        (m, s, Err(s.refused[addr]))
    } else {
        (m.without_page(page_idx as usize), s.without(addr), Ok(()))
    }
}

/// What happens when pages are unmapped one by one: it ends at the first that cannot be.
pub open spec fn unmap_pages(m: MapView, s: SpaceView, from: int, to: int) -> (
    MapView,
    SpaceView,
    Result<(), Error>,
)
    decreases to - from,
{
    if from >= to {
        (m, s, Ok(()))
    } else {
        let (m1, s1, r) = unmap_page(m, s, from);
        if r is Err {
            (m1, s1, r)
        } else {
            unmap_pages(m1, s1, from + 1, to)
        }
    }
}

/// What happens when a range of addresses is unmapped: where that is the whole mapping, the mapping
/// may be destroyed with it.
pub open spec fn unmap_range(
    m: MapView,
    s: SpaceView,
    range: Range<usize>,
    may_destroy: bool,
) -> (MapView, SpaceView, Result<(), Error>) {
    let (m1, s1, r) = unmap_pages(
        m,
        s,
        page_of(m.offset_of(range.start as int)),
        pages_for(m.offset_of(range.end as int)),
    );
    let whole = range.start == m.map_to_addr && range.end == m.end();
    (
        MapView { is_destroyed: m.is_destroyed || (r is Ok && may_destroy && whole), ..m1 },
        s1,
        r,
    )
}

/// What happens when pages are given other permissions one by one, those that are mapped: it ends
/// at the first that cannot be.
pub open spec fn protect_pages(m: MapView, s: SpaceView, perm: VmPerm, from: int, to: int) -> (
    SpaceView,
    Result<(), Error>,
)
    decreases to - from,
{
    if from >= to {
        (s, Ok(()))
    } else {
        let addr = m.page_addr(from) as usize;
        if stuck(m, s, from) {
            (s, Err(s.refused[addr]))
        } else {
            protect_pages(m, s.protected(addr, perm), perm, from + 1, to)
        }
    }
}

/// Whether an address is that of one of the pages from `from` to `to`.
pub open spec fn in_pages(m: MapView, from: int, to: int, addr: usize) -> bool {
    exists|p: int| from <= p < to && addr == #[trigger] m.page_addr(p)
}

/// The page table without the entries of the pages from `from` to `to` that are listed as mapped
/// and can be removed.
pub open spec fn drop_listed(m: MapView, s: SpaceView, from: int, to: int) -> SpaceView {
    SpaceView {
        entries: s.entries.remove_keys(
            Set::new(
                |a: usize|
                    exists|p: int|
                        from <= p < to && a == #[trigger] m.page_addr(p) && m.mapped.contains(
                            p as usize,
                        ) && !s.refused.contains_key(a),
            ),
        ),
        ..s
    }
}

/// The page table without the entries of the pages from `from` to `to` that can be removed.
pub open spec fn drop_all(m: MapView, s: SpaceView, from: int, to: int) -> SpaceView {
    SpaceView {
        entries: s.entries.remove_keys(
            Set::new(|a: usize| in_pages(m, from, to, a) && !s.refused.contains_key(a)),
        ),
        ..s
    }
}

/// The pages that are still listed as mapped when those from `from` to `to` were removed that can
/// be.
pub open spec fn undropped(m: MapView, s: SpaceView, from: int, to: int) -> Set<usize> {
    Set::new(|p: usize| m.mapped.contains(p) && (from <= p < to ==> stuck(m, s, p as int)))
}

/// What is left when a mapping is trimmed from left to a new address.
pub open spec fn left_trimmed(m: MapView, s: SpaceView, vaddr: usize) -> (MapView, SpaceView) {
    let size = vaddr - m.map_to_addr;
    let from = page_of(m.vmo_offset as int);
    let to = page_of(m.vmo_offset + size);
    (
        MapView {
            map_to_addr: vaddr,
            vmo_offset: (m.vmo_offset + size) as usize,
            map_size: (m.map_size - size) as usize,
            mapped: Set::new(|p: usize| m.mapped.contains(p) && !(from <= p < to)),
            ..m
        },
        drop_listed(m, s, from, to),
    )
}

/// What is left when a mapping is trimmed from right to a new address.
pub open spec fn right_trimmed(m: MapView, s: SpaceView, vaddr: usize) -> (MapView, SpaceView) {
    let from = page_of(m.offset_of(vaddr as int));
    let to = page_of(m.vmo_offset + m.map_size);
    (
        MapView {
            map_size: (vaddr - m.map_to_addr) as usize,
            mapped: undropped(m, s, from, to),
            ..m
        },
        drop_all(m, s, from, to),
    )
}

/// The part of a mapping that shows a range of its addresses. It lists the pages of that range.
pub open spec fn shrunk(m: MapView, range: Range<usize>) -> MapView {
    MapView {
        vmo_offset: m.offset_of(range.start as int) as usize,
        map_to_addr: range.start,
        map_size: (range.end - range.start) as usize,
        mapped: Set::new(
            |p: usize|
                m.mapped.contains(p) && page_of(m.offset_of(range.start as int)) <= p < pages_for(
                    m.offset_of(range.end as int),
                ),
        ),
        ..m
    }
}

/// Whether a page may be used as asked, and the error if not.
pub open spec fn perm_check(m: MapView, page_idx: int, perm: VmPerm) -> Result<(), Error> {
    if !m.holds_page(page_idx) {
        Err(Error { errno: Errno::EINVAL, msg: Some("invalid page idx") })
    } else if !m.perm.holds(perm) {
        Err(Error { errno: Errno::EACCES, msg: Some("perm check fails") })
    } else {
        Ok(())
    }
}

/// Pages that lie in a valid mapping have addresses.
pub proof fn lemma_has_addr(m: MapView, page_idx: int)
    requires
        m.wf(),
        page_of(m.vmo_offset as int) <= page_idx,
        page_idx * PAGE_SIZE <= m.vmo_offset + m.map_size,
    ensures
        m.has_addr(page_idx),
        m.vmo_offset <= page_idx * PAGE_SIZE <= usize::MAX,
{
}

impl VmMappingInner {
    /// Adds a page and maps it in the page table. If copy on write is set, it's allowed to unmap
    /// the page at the same address.
    pub fn map_one_page(
        &mut self,
        vmo: &Vmo,
        vm_space: &mut VmSpace,
        page_idx: usize,
        frame: VmFrame,
        is_readonly: bool,
    ) -> (r: Result<(), Error>)
        requires
            old(self)@.has_addr(page_idx as int),
            page_idx * PAGE_SIZE <= usize::MAX,
            is_readonly ==> vmo.cow,
            vmo.cow ==> !stuck(old(self)@, old(vm_space)@, page_idx as int),
        ensures
            (final(self)@, final(vm_space)@, r) == map_page(
                old(self)@,
                old(vm_space)@,
                page_idx as int,
                frame,
                vmo.cow,
                is_readonly,
            ),
    {
        let map_addr = self.page_map_addr(page_idx);
        let perm = if is_readonly {
            self.perm.without_write()
        } else {
            self.perm
        };
        if vmo.is_cow_vmo() && vm_space.is_mapped(map_addr) {
            let _ = vm_space.unmap(map_addr);
        }
        match vm_space.map(map_addr, frame, perm) {
            Ok(()) => {},
            Err(e) => {
                return Err(e);
            },
        }
        self.mapped_pages.insert(page_idx);
        assert(vm_space@.entries =~= old(vm_space)@.with(
            map_addr,
            PageEntry { frame, perm },
        ).entries);
        Ok(())
    }

    /// Unmaps a page.
    pub fn unmap_one_page(&mut self, vm_space: &mut VmSpace, page_idx: usize) -> (r: Result<
        (),
        Error,
    >)
        requires
            old(self)@.has_addr(page_idx as int),
            page_idx * PAGE_SIZE <= usize::MAX,
        ensures
            (final(self)@, final(vm_space)@, r) == unmap_page(
                old(self)@,
                old(vm_space)@,
                page_idx as int,
            ),
    {
        let map_addr = self.page_map_addr(page_idx);
        if vm_space.is_mapped(map_addr) {
            match vm_space.unmap(map_addr) {
                Ok(()) => {},
                Err(e) => {
                    return Err(e);
                },
            }
        }
        self.mapped_pages.remove(page_idx);
        proof {
            let after = unmap_page(old(self)@, old(vm_space)@, page_idx as int);
            assert(self@ =~= after.0);
            assert(vm_space@ =~= after.1);
        }
        Ok(())
    }

    /// Unmaps the pages of the memory object from `from` to `to`, one by one.
    pub fn unmap_all(&mut self, vm_space: &mut VmSpace, from: usize, to: usize) -> (r: Result<
        (),
        Error,
    >)
        requires
            from < to ==> {
                &&& old(self)@.has_addr(from as int)
                &&& old(self)@.has_addr(to - 1)
                &&& (to - 1) * PAGE_SIZE <= usize::MAX
            },
        ensures
            (final(self)@, final(vm_space)@, r) == unmap_pages(
                old(self)@,
                old(vm_space)@,
                from as int,
                to as int,
            ),
    {
        let mut page_idx: usize = from;
        let ghost goal = unmap_pages(self@, vm_space@, from as int, to as int);
        while page_idx < to
            invariant
                goal == unmap_pages(self@, vm_space@, page_idx as int, to as int),
                goal == unmap_pages(old(self)@, old(vm_space)@, from as int, to as int),
                self@ == (MapView { mapped: self@.mapped, ..old(self)@ }),
                from <= page_idx,
                from < to ==> {
                    &&& old(self)@.has_addr(from as int)
                    &&& old(self)@.has_addr(to - 1)
                    &&& (to - 1) * PAGE_SIZE <= usize::MAX
                },
            decreases to - page_idx,
        {
            if let Err(e) = self.unmap_one_page(vm_space, page_idx) {
                return Err(e);
            }
            page_idx += 1;
        }
        Ok(())
    }

    /// Unmaps pages in the range.
    pub fn unmap(&mut self, vm_space: &mut VmSpace, range: &Range<usize>, may_destroy: bool) -> (r:
        Result<(), Error>)
        requires
            old(self)@.wf(),
            old(self)@.map_to_addr <= range.start,
            old(self)@.map_to_addr <= range.end,
            old(self)@.offset_of(range.start as int) <= usize::MAX,
            old(self)@.offset_of(range.end as int) + PAGE_SIZE <= usize::MAX,
        ensures
            final(self)@.wf(),
            (final(self)@, final(vm_space)@, r) == unmap_range(
                old(self)@,
                old(vm_space)@,
                *range,
                may_destroy,
            ),
    {
        let map_to_addr = self.map_to_addr;
        let vmo_map_range = (range.start - map_to_addr + self.vmo_offset)..(range.end - map_to_addr
            + self.vmo_offset);
        let page_idx_range = get_page_idx_range(&vmo_map_range);
        let unmapped = self.unmap_all(vm_space, page_idx_range.start, page_idx_range.end);
        proof {
            lemma_unmap_frame(
                old(self)@,
                old(vm_space)@,
                page_idx_range.start as int,
                page_idx_range.end as int,
            );
        }
        if unmapped.is_ok() && may_destroy && range.start == self.map_to_addr && range.end
            == self.map_to_addr + self.map_size {
            self.is_destroyed = true;
        }
        unmapped
    }

    /// Gives the pages of a range that are mapped other permissions in the page table.
    pub fn protect(&self, vm_space: &mut VmSpace, perm: VmPerm, range: &Range<usize>) -> (r: Result<
        (),
        Error,
    >)
        requires
            self@.wf(),
            range.start % PAGE_SIZE == 0,
            range.end % PAGE_SIZE == 0,
            self@.map_to_addr <= range.start,
            self@.map_to_addr <= range.end,
            self@.offset_of(range.start as int) <= usize::MAX,
            self@.offset_of(range.end as int) <= usize::MAX,
        ensures
            (final(vm_space)@, r) == protect_pages(
                self@,
                old(vm_space)@,
                perm,
                page_of(self@.offset_of(range.start as int)),
                page_of(self@.offset_of(range.end as int)),
            ),
    {
        let start_page = (range.start - self.map_to_addr + self.vmo_offset) / PAGE_SIZE;
        let end_page = (range.end - self.map_to_addr + self.vmo_offset) / PAGE_SIZE;
        let mut page_idx: usize = start_page;
        while page_idx < end_page
            invariant
                self@.wf(),
                page_of(self@.vmo_offset as int) <= page_idx,
                self@.map_to_addr <= range.end,
                self@.offset_of(range.end as int) <= usize::MAX,
                end_page == page_of(self@.offset_of(range.end as int)),
                start_page == page_of(self@.offset_of(range.start as int)),
                protect_pages(self@, vm_space@, perm, page_idx as int, end_page as int)
                    == protect_pages(
                    self@,
                    old(vm_space)@,
                    perm,
                    start_page as int,
                    end_page as int,
                ),
            decreases end_page - page_idx,
        {
            let page_addr = self.page_map_addr(page_idx);
            if vm_space.is_mapped(page_addr) {
                // If the page is already mapped, we will modify page table
                if let Err(e) = vm_space.protect(page_addr, perm) {
                    return Err(e);
                }
            }
            page_idx += 1;
        }
        Ok(())
    }

    /// Trims the mapping from left to a new address.
    pub fn trim_left(&mut self, vm_space: &mut VmSpace, vaddr: usize) -> (r: usize)
        requires
            old(self)@.wf(),
            old(self)@.map_to_addr <= vaddr <= old(self)@.end(),
            vaddr % PAGE_SIZE == 0,
        ensures
            (final(self)@, final(vm_space)@) == left_trimmed(old(self)@, old(vm_space)@, vaddr),
            r == vaddr,
            final(self)@.wf(),
    {
        let trim_size = vaddr - self.map_to_addr;
        let ghost m = self@;
        let ghost s = vm_space@;
        self.map_to_addr = vaddr;
        let old_vmo_offset = self.vmo_offset;
        self.vmo_offset += trim_size;
        self.map_size -= trim_size;
        let from = old_vmo_offset / PAGE_SIZE;
        let to = self.vmo_offset / PAGE_SIZE;
        let mut page_idx: usize = from;
        let ghost after = self@;
        assert(vm_space@.entries =~= drop_listed(m, s, from as int, from as int).entries);
        while page_idx < to
            invariant
                m.wf(),
                from == page_of(m.vmo_offset as int),
                to == page_of(m.vmo_offset + trim_size),
                from <= page_idx <= to,
                trim_size == vaddr - m.map_to_addr,
                trim_size <= m.map_size,
                after.map_to_addr == vaddr,
                after.vmo_offset == m.vmo_offset + trim_size,
                after.map_size == m.map_size - trim_size,
                after.perm == m.perm,
                after.is_destroyed == m.is_destroyed,
                self@ == (MapView { mapped: self@.mapped, ..after }),
                forall|p: usize| #[trigger]
                    self@.mapped.contains(p) <==> m.mapped.contains(p) && !(from <= p < page_idx),
                vm_space@ == drop_listed(m, s, from as int, page_idx as int),
            decreases to - page_idx,
        {
            let ghost before = vm_space@;
            assert(self@.page_addr(page_idx as int) == m.page_addr(page_idx as int));
            let listed = self.mapped_pages.remove(page_idx);
            if listed {
                let _ = self.unmap_one_page(vm_space, page_idx);
            }
            proof {
                let next = drop_listed(m, s, from as int, page_idx + 1);
                let addr = m.page_addr(page_idx as int) as usize;
                assert(addr == m.page_addr(page_idx as int));
                assert forall|a: usize|
                    vm_space@.entries.contains_key(a) == #[trigger] next.entries.contains_key(
                        a,
                    ) by {
                    assert(before.entries.contains_key(a) == (s.entries.contains_key(a) && !exists|
                        p: int,
                    |
                        from <= p < page_idx && a == #[trigger] m.page_addr(p) && m.mapped.contains(
                            p as usize,
                        ) && !s.refused.contains_key(a)));
                }
                assert(vm_space@.entries =~= next.entries);
            }
            page_idx += 1;
        }
        assert(self@.mapped =~= left_trimmed(m, s, vaddr).0.mapped);
        self.map_to_addr
    }

    /// Unmaps the pages of the memory object from `from` to `to` that can be, and leaves the
    /// others.
    pub fn drop_pages(&mut self, vm_space: &mut VmSpace, from: usize, to: usize)
        requires
            old(self)@.wf(),
            page_of(old(self)@.vmo_offset as int) <= from <= to,
            to * PAGE_SIZE <= old(self)@.vmo_offset + old(self)@.map_size,
        ensures
            final(self)@ == (MapView {
                mapped: undropped(old(self)@, old(vm_space)@, from as int, to as int),
                ..old(self)@
            }),
            final(vm_space)@ == drop_all(old(self)@, old(vm_space)@, from as int, to as int),
    {
        let ghost m = self@;
        let ghost s = vm_space@;
        let mut page_idx: usize = from;
        assert(vm_space@.entries =~= drop_all(m, s, from as int, from as int).entries);
        while page_idx < to
            invariant
                m.wf(),
                page_of(m.vmo_offset as int) <= from <= page_idx <= to,
                to * PAGE_SIZE <= m.vmo_offset + m.map_size,
                self@ == (MapView { mapped: self@.mapped, ..m }),
                forall|p: usize| #[trigger]
                    self@.mapped.contains(p) <==> m.mapped.contains(p) && (from <= p < page_idx
                        ==> stuck(m, s, p as int)),
                vm_space@ == drop_all(m, s, from as int, page_idx as int),
            decreases to - page_idx,
        {
            let ghost before = vm_space@;
            let ghost mapped = self@.mapped;
            proof {
                lemma_has_addr(m, page_idx as int);
                let addr = m.page_addr(page_idx as int) as usize;
                assert(!in_pages(m, from as int, page_idx as int, addr)) by {
                    if in_pages(m, from as int, page_idx as int, addr) {
                        let p = choose|p: int|
                            from <= p < page_idx && addr == #[trigger] m.page_addr(p);
                        assert(p == page_idx);
                    }
                }
            }
            let _ = self.unmap_one_page(vm_space, page_idx);
            proof {
                let next = drop_all(m, s, from as int, page_idx + 1);
                let addr = m.page_addr(page_idx as int) as usize;
                assert(addr == m.page_addr(page_idx as int));
                assert forall|a: usize|
                    vm_space@.entries.contains_key(a) == #[trigger] next.entries.contains_key(
                        a,
                    ) by {
                    assert(in_pages(m, from as int, page_idx + 1, a) <==> in_pages(
                        m,
                        from as int,
                        page_idx as int,
                        a,
                    ) || a == addr) by {
                        if in_pages(m, from as int, page_idx as int, a) {
                            let p = choose|p: int|
                                from <= p < page_idx && a == #[trigger] m.page_addr(p);
                            assert(from <= p < page_idx + 1);
                        }
                    }
                    assert(before.entries.contains_key(a) == (s.entries.contains_key(a) && !(
                    in_pages(m, from as int, page_idx as int, a) && !s.refused.contains_key(a))));
                }
                assert(vm_space@.entries =~= next.entries);
                assert forall|p: usize| #[trigger]
                    self@.mapped.contains(p) <==> m.mapped.contains(p) && (from <= p < page_idx + 1
                        ==> stuck(m, s, p as int)) by {
                    assert(mapped.contains(p) <==> m.mapped.contains(p) && (from <= p < page_idx
                        ==> stuck(m, s, p as int)));
                }
            }
            page_idx += 1;
        }
        assert(self@.mapped =~= undropped(m, s, from as int, to as int));
    }

    /// Unmaps those pages of the memory object from `from` to `to` that are listed and can be
    /// unmapped, and leaves the others.
    pub fn drop_listed_pages(&mut self, vm_space: &mut VmSpace, from: usize, to: usize)
        requires
            old(self)@.wf(),
            page_of(old(self)@.vmo_offset as int) <= from <= to,
            to * PAGE_SIZE <= old(self)@.vmo_offset + old(self)@.map_size,
        ensures
            final(self)@ == (MapView {
                mapped: undropped(old(self)@, old(vm_space)@, from as int, to as int),
                ..old(self)@
            }),
            final(vm_space)@ == drop_listed(old(self)@, old(vm_space)@, from as int, to as int),
    {
        let ghost m = self@;
        let ghost s = vm_space@;
        let mut page_idx: usize = from;
        assert(vm_space@.entries =~= drop_listed(m, s, from as int, from as int).entries);
        while page_idx < to
            invariant
                m.wf(),
                page_of(m.vmo_offset as int) <= from <= page_idx <= to,
                to * PAGE_SIZE <= m.vmo_offset + m.map_size,
                self@ == (MapView { mapped: self@.mapped, ..m }),
                forall|p: usize| #[trigger]
                    self@.mapped.contains(p) <==> m.mapped.contains(p) && (from <= p < page_idx
                        ==> stuck(m, s, p as int)),
                vm_space@ == drop_listed(m, s, from as int, page_idx as int),
            decreases to - page_idx,
        {
            let ghost before = vm_space@;
            let ghost mapped = self@.mapped;
            proof {
                lemma_has_addr(m, page_idx as int);
            }
            if self.mapped_pages.contains(page_idx) {
                let _ = self.unmap_one_page(vm_space, page_idx);
            }
            proof {
                let next = drop_listed(m, s, from as int, page_idx + 1);
                let addr = m.page_addr(page_idx as int) as usize;
                assert(addr == m.page_addr(page_idx as int));
                assert(before.entries.contains_key(addr) == s.entries.contains_key(addr));
                assert forall|a: usize|
                    vm_space@.entries.contains_key(a) == #[trigger] next.entries.contains_key(
                        a,
                    ) by {
                    assert(before.entries.contains_key(a) == (s.entries.contains_key(a) && !exists|
                        p: int,
                    |
                        from <= p < page_idx && a == #[trigger] m.page_addr(p) && m.mapped.contains(
                            p as usize,
                        ) && !s.refused.contains_key(a)));
                }
                assert(vm_space@.entries =~= next.entries);
                assert forall|p: usize| #[trigger]
                    self@.mapped.contains(p) <==> m.mapped.contains(p) && (from <= p < page_idx + 1
                        ==> stuck(m, s, p as int)) by {
                    assert(mapped.contains(p) <==> m.mapped.contains(p) && (from <= p < page_idx
                        ==> stuck(m, s, p as int)));
                }
            }
            page_idx += 1;
        }
        assert(self@.mapped =~= undropped(m, s, from as int, to as int));
    }

    /// Trims the mapping from right to a new address.
    pub fn trim_right(&mut self, vm_space: &mut VmSpace, vaddr: usize) -> (r: usize)
        requires
            old(self)@.wf(),
            old(self)@.map_to_addr <= vaddr <= old(self)@.end(),
            vaddr % PAGE_SIZE == 0,
        ensures
            (final(self)@, final(vm_space)@) == right_trimmed(old(self)@, old(vm_space)@, vaddr),
            r == old(self)@.map_to_addr,
            final(self)@.wf(),
    {
        let from = (vaddr - self.map_to_addr + self.vmo_offset) / PAGE_SIZE;
        let to = (self.map_size + self.vmo_offset) / PAGE_SIZE;
        self.drop_pages(vm_space, from, to);
        self.map_size = vaddr - self.map_to_addr;
        self.map_to_addr
    }

    /// Shrinks the mapping to the new range.
    /// The new range must be contained in the old range.
    pub fn shrink_to(&mut self, new_range: &Range<usize>)
        requires
            old(self)@.wf(),
            old(self)@.map_to_addr <= new_range.start <= new_range.end <= old(self)@.end(),
        ensures
            final(self)@ == shrunk(old(self)@, *new_range),
    {
        let start = self.vmo_offset_of(new_range.start);
        let pages = get_page_idx_range(&(start..self.vmo_offset_of(new_range.end)));
        self.mapped_pages.keep(pages.start, pages.end);
        self.vmo_offset = start;
        self.map_to_addr = new_range.start;
        self.map_size = new_range.end - new_range.start;
        assert(self@.mapped =~= shrunk(old(self)@, *new_range).mapped);
    }

    /// The addresses of the mapping.
    pub fn range(&self) -> (r: Range<usize>)
        requires
            self@.end() <= usize::MAX,
        ensures
            r.start == self@.map_to_addr,
            r.end == self@.end(),
    {
        self.map_to_addr..self.map_to_addr + self.map_size
    }

    /// Fails unless a page lies in the mapping and may be used as asked.
    pub fn check_perm(&self, page_idx: usize, perm: VmPerm) -> (r: Result<(), Error>)
        requires
            self@.wf(),
            (page_idx + 1) * PAGE_SIZE <= usize::MAX,
        ensures
            r == perm_check(self@, page_idx as int, perm),
    {
        if page_idx * PAGE_SIZE < self.vmo_offset || (page_idx + 1) * PAGE_SIZE > self.vmo_offset
            + self.map_size {
            return Err(Error::with_message(Errno::EINVAL, "invalid page idx"));
        }
        if !self.perm.contains(perm) {
            return Err(Error::with_message(Errno::EACCES, "perm check fails"));
        }
        Ok(())
    }

    /// A copy of the state.
    pub fn copy(&self) -> (r: VmMappingInner)
        ensures
            r@ == self@,
    {
        VmMappingInner {
            vmo_offset: self.vmo_offset,
            map_size: self.map_size,
            map_to_addr: self.map_to_addr,
            is_destroyed: self.is_destroyed,
            mapped_pages: self.mapped_pages.copy(),
            perm: self.perm,
        }
    }

    /// The address of a page of the memory object.
    pub fn page_map_addr(&self, page_idx: usize) -> (r: usize)
        requires
            self@.has_addr(page_idx as int),
            page_idx * PAGE_SIZE <= usize::MAX,
        ensures
            r == self@.page_addr(page_idx as int),
    {
        let page_offset = page_idx * PAGE_SIZE;
        if page_offset >= self.vmo_offset {
            self.map_to_addr + (page_offset - self.vmo_offset)
        } else {
            self.map_to_addr - (self.vmo_offset - page_offset)
        }
    }

    /// Where in the memory object an address points.
    pub fn vmo_offset_of(&self, addr: usize) -> (r: usize)
        requires
            0 <= self@.offset_of(addr as int) <= usize::MAX,
        ensures
            r == self@.offset_of(addr as int),
    {
        if addr >= self.map_to_addr {
            addr - self.map_to_addr + self.vmo_offset
        } else {
            self.vmo_offset - (self.map_to_addr - addr)
        }
    }
}

// Laws.

/// Trimming a mapping from left leaves the addresses from the new one on, and each of them shows
/// what it showed before.
pub proof fn law_trim_left_keeps_rest(m: MapView, s: SpaceView, vaddr: usize, addr: int)
    requires
        m.wf(),
        m.map_to_addr <= vaddr <= m.end(),
    ensures
        ({
            let m2 = left_trimmed(m, s, vaddr).0;
            &&& m2.covers(addr) <==> m.covers(addr) && addr >= vaddr
            &&& m2.offset_of(addr) == m.offset_of(addr)
            &&& m2.perm == m.perm
        }),
{
}

/// Trimming a mapping from right leaves the addresses below the new one, and each of them shows
/// what it showed before.
pub proof fn law_trim_right_keeps_rest(m: MapView, s: SpaceView, vaddr: usize, addr: int)
    requires
        m.wf(),
        m.map_to_addr <= vaddr <= m.end(),
    ensures
        ({
            let m2 = right_trimmed(m, s, vaddr).0;
            &&& m2.covers(addr) <==> m.covers(addr) && addr < vaddr
            &&& m2.offset_of(addr) == m.offset_of(addr)
            &&& m2.perm == m.perm
        }),
{
}

/// A part of a mapping shows at each of its addresses what the whole shows there, lists only pages
/// of its own, and is valid if it begins at a page.
pub proof fn law_shrink_keeps_offsets(m: MapView, range: Range<usize>, addr: int)
    requires
        m.wf(),
        m.map_to_addr <= range.start <= range.end <= m.end(),
    ensures
        ({
            let m2 = shrunk(m, range);
            &&& m2.covers(addr) <==> range.start <= addr < range.end
            &&& m2.offset_of(addr) == m.offset_of(addr)
            &&& m2.perm == m.perm
            &&& m2.lists_own()
            &&& range.start % PAGE_SIZE == 0 ==> m2.wf()
        }),
{
}

/// Whether all pages of a mapping that are in the page table are listed, and none is refused.
pub open spec fn tracked_pages(m: MapView, s: SpaceView, from: int, to: int) -> bool {
    forall|p: int|
        from <= p < to ==> {
            let addr = #[trigger] m.page_addr(p) as usize;
            &&& s.entries.contains_key(addr) ==> m.mapped.contains(p as usize)
            &&& !s.refused.contains_key(addr)
        }
}

/// What is trimmed from left is gone from the page table.
pub proof fn law_trim_left_unmaps(m: MapView, s: SpaceView, vaddr: usize, page_idx: int)
    requires
        m.wf(),
        m.map_to_addr <= vaddr <= m.end(),
        vaddr % PAGE_SIZE == 0,
        page_of(m.vmo_offset as int) <= page_idx < page_of(m.offset_of(vaddr as int)),
        tracked_pages(
            m,
            s,
            page_of(m.vmo_offset as int),
            page_of(m.offset_of(vaddr as int)),
        ),
    ensures
        !left_trimmed(m, s, vaddr).1.entries.contains_key(m.page_addr(page_idx) as usize),
{
    lemma_has_addr(m, page_idx);
    assert(m.page_addr(page_idx) as usize == m.page_addr(page_idx));
}

/// What is trimmed from right is gone from the page table, but for a page that the mapping only
/// shows a part of.
pub proof fn law_trim_right_unmaps(m: MapView, s: SpaceView, vaddr: usize, page_idx: int)
    requires
        m.wf(),
        m.map_to_addr <= vaddr <= m.end(),
        page_of(m.offset_of(vaddr as int)) <= page_idx < page_of(m.vmo_offset + m.map_size),
        !s.refused.contains_key(m.page_addr(page_idx) as usize),
    ensures
        !right_trimmed(m, s, vaddr).1.entries.contains_key(m.page_addr(page_idx) as usize),
        !right_trimmed(m, s, vaddr).0.mapped.contains(page_idx as usize),
{
    lemma_has_addr(m, page_idx);
    assert(m.page_addr(page_idx) as usize == m.page_addr(page_idx));
    assert(in_pages(
        m,
        page_of(m.offset_of(vaddr as int)),
        page_of(m.vmo_offset + m.map_size),
        m.page_addr(page_idx) as usize,
    ));
}

/// Pages that were unmapped without an error are gone from the page table and from the list, and
/// all others stay.
pub proof fn law_unmap_leaves_none(m: MapView, s: SpaceView, from: int, to: int, p: int)
    requires
        m.wf(),
        page_of(m.vmo_offset as int) <= from,
        (to - 1) * PAGE_SIZE <= m.vmo_offset + m.map_size,
        page_of(m.vmo_offset as int) <= p,
        p * PAGE_SIZE <= m.vmo_offset + m.map_size,
        unmap_pages(m, s, from, to).2 is Ok,
    ensures
        ({
            let (m2, s2, _) = unmap_pages(m, s, from, to);
            let addr = m.page_addr(p) as usize;
            &&& m2 == (MapView { mapped: m2.mapped, ..m })
            &&& from <= p < to ==> !s2.entries.contains_key(addr) && !m2.mapped.contains(
                p as usize,
            )
            &&& !(from <= p < to) ==> s2.entries.contains_key(addr) == s.entries.contains_key(addr)
                && m2.mapped.contains(p as usize) == m.mapped.contains(p as usize)
        }),
    decreases to - from,
{
    if from < to {
        let (m1, s1, r) = unmap_page(m, s, from);
        lemma_has_addr(m, p);
        lemma_has_addr(m, from);
        assert(m1.page_addr(p) == m.page_addr(p));
        law_unmap_leaves_none(m1, s1, from + 1, to, p);
        lemma_unmap_shrinks(m1, s1, from + 1, to);
    }
}

/// Unmapping pages changes only the list of pages of the mapping.
pub proof fn lemma_unmap_frame(m: MapView, s: SpaceView, from: int, to: int)
    ensures
        unmap_pages(m, s, from, to).0 == (MapView {
            mapped: unmap_pages(m, s, from, to).0.mapped,
            ..m
        }),
    decreases to - from,
{
    if from < to {
        let (m1, s1, r) = unmap_page(m, s, from);
        if r is Ok {
            lemma_unmap_frame(m1, s1, from + 1, to);
        }
    }
}

/// Unmapping pages adds none.
proof fn lemma_unmap_shrinks(m: MapView, s: SpaceView, from: int, to: int)
    ensures
        ({
            let (m2, s2, _) = unmap_pages(m, s, from, to);
            &&& s2.entries.dom().subset_of(s.entries.dom())
            &&& m2.mapped.subset_of(m.mapped)
        }),
    decreases to - from,
{
    if from < to {
        let (m1, s1, r) = unmap_page(m, s, from);
        if r is Ok {
            lemma_unmap_shrinks(m1, s1, from + 1, to);
        }
    }
}

/// Mapping a page that ends well puts exactly one entry into the page table, at the address that
/// shows the page: with the frame, and with exactly the permissions of the mapping, but for writing
/// where the page is for reading only. The page is listed. All else stays as it was.
pub proof fn law_map_sets_entry(
    m: MapView,
    s: SpaceView,
    page_idx: usize,
    frame: VmFrame,
    cow: bool,
    is_readonly: bool,
    a: usize,
)
    requires
        m.has_addr(page_idx as int),
        map_page(m, s, page_idx as int, frame, cow, is_readonly).2 is Ok,
    ensures
        ({
            let (m2, s2, _) = map_page(m, s, page_idx as int, frame, cow, is_readonly);
            let addr = page_idx * PAGE_SIZE - m.vmo_offset + m.map_to_addr;
            &&& a == addr ==> {
                &&& s2.entries.contains_key(a)
                &&& s2.entries[a].frame == frame
                &&& s2.entries[a].perm.read == m.perm.read
                &&& s2.entries[a].perm.execute == m.perm.execute
                &&& s2.entries[a].perm.write == (m.perm.write && !is_readonly)
                &&& !s.refused.contains_key(a)
            }
            &&& a != addr ==> {
                &&& s2.entries.contains_key(a) == s.entries.contains_key(a)
                &&& s2.entries[a] == s.entries[a]
            }
            &&& s2.refused == s.refused
            &&& s2.taken == s.taken
            &&& m2 == (MapView { mapped: m2.mapped, ..m })
            &&& forall|p: usize| #[trigger]
                m2.mapped.contains(p) <==> p == page_idx || m.mapped.contains(p)
        }),
{
}

/// Mapping a page fails exactly where the page table refuses it: on a page whose entry cannot be
/// changed, or, unless pages are copied when they are first written, over an entry that is not to
/// be replaced. It then changes nothing.
pub proof fn law_map_fails_if_refused(
    m: MapView,
    s: SpaceView,
    page_idx: usize,
    frame: VmFrame,
    cow: bool,
    is_readonly: bool,
)
    requires
        m.has_addr(page_idx as int),
    ensures
        ({
            let (m2, s2, r) = map_page(m, s, page_idx as int, frame, cow, is_readonly);
            let addr = (page_idx * PAGE_SIZE - m.vmo_offset + m.map_to_addr) as usize;
            &&& r is Err <==> s.refused.contains_key(addr) || !cow && s.entries.contains_key(addr)
                && s.taken is Some
            &&& r matches Err(e) ==> {
                &&& m2 == m
                &&& s2 == s
                &&& e == if s.refused.contains_key(addr) {
                    s.refused[addr]
                } else {
                    s.taken->Some_0
                }
            }
        }),
{
}

/// The first page of some whose entry is there and cannot be changed, or the end if there is none.
pub open spec fn first_stuck(m: MapView, s: SpaceView, from: int, to: int) -> int
    decreases to - from,
{
    if from >= to || stuck(m, s, from) {
        from
    } else {
        first_stuck(m, s, from + 1, to)
    }
}

/// Which page is the first depends only on which pages are in the table and which cannot be
/// changed.
pub proof fn lemma_first_stuck(m: MapView, s: SpaceView, t: SpaceView, from: int, to: int)
    requires
        from <= to,
        s.refused == t.refused,
        s.entries.dom() == t.entries.dom(),
    ensures
        from <= first_stuck(m, s, from, to) <= to,
        first_stuck(m, s, from, to) == first_stuck(m, t, from, to),
        forall|p: int| from <= p < first_stuck(m, s, from, to) ==> !#[trigger] stuck(m, s, p),
        first_stuck(m, s, from, to) < to ==> stuck(m, s, first_stuck(m, s, from, to)),
    decreases to - from,
{
    assert(forall|a: usize| s.entries.contains_key(a) == s.entries.dom().contains(a));
    assert(forall|a: usize| t.entries.contains_key(a) == t.entries.dom().contains(a));
    assert(stuck(m, s, from) == stuck(m, t, from));
    if from < to && !stuck(m, s, from) {
        lemma_first_stuck(m, s, t, from + 1, to);
    }
}

/// Giving pages other permissions goes on up to the first page whose entry cannot be changed, and
/// ends in its error. The pages before it that are in the page table have exactly the new
/// permissions then, and the same frames. All other entries stay as they were.
pub proof fn law_protect_sets_entries(
    m: MapView,
    s: SpaceView,
    perm: VmPerm,
    from: int,
    to: int,
    a: usize,
)
    requires
        m.wf(),
        page_of(m.vmo_offset as int) <= from <= to,
        to * PAGE_SIZE <= m.vmo_offset + m.map_size,
    ensures
        ({
            let (s2, r) = protect_pages(m, s, perm, from, to);
            let k = first_stuck(m, s, from, to);
            &&& r is Ok <==> k == to
            &&& r matches Err(e) ==> e == s.refused[m.page_addr(k) as usize]
            &&& s2.refused == s.refused
            &&& s2.taken == s.taken
            &&& s2.entries.dom() == s.entries.dom()
            &&& s.entries.contains_key(a) ==> {
                &&& s2.entries[a].frame == s.entries[a].frame
                &&& s2.entries[a].perm == if a % PAGE_SIZE == 0 && m.page_addr(from) <= a
                    < m.page_addr(k) {
                    perm
                } else {
                    s.entries[a].perm
                }
            }
        }),
    decreases to - from,
{
    lemma_first_stuck(m, s, s, from, to);
    if from < to {
        let addr = m.page_addr(from) as usize;
        lemma_has_addr(m, from);
        if !stuck(m, s, from) {
            let s1 = s.protected(addr, perm);
            assert(s1.entries.dom() =~= s.entries.dom());
            lemma_first_stuck(m, s, s1, from + 1, to);
            law_protect_sets_entries(m, s1, perm, from + 1, to, a);
            assert(s1.entries.dom().contains(a) == s.entries.dom().contains(a));
        }
    }
}

/// What is left of a mapping that is cut down lists a page exactly if it was listed before and one
/// of its bytes is shown still.
pub proof fn law_shrink_lists_shown(m: MapView, range: Range<usize>, p: usize)
    requires
        m.wf(),
        m.map_to_addr <= range.start < range.end <= m.end(),
    ensures
        ({
            let m2 = shrunk(m, range);
            &&& m2.mapped.contains(p) <==> m.mapped.contains(p) && p * PAGE_SIZE < m.offset_of(
                range.end as int,
            ) && (p + 1) * PAGE_SIZE > m.offset_of(range.start as int)
            &&& m2.is_destroyed == m.is_destroyed
        }),
{
}

/// Trimming a mapping from left takes from the page table exactly the entries of the pages below
/// the new address that are listed and can be removed, and from the list all pages below it.
pub proof fn law_trim_left_entries(m: MapView, s: SpaceView, vaddr: usize, p: usize, a: usize)
    requires
        m.wf(),
        m.map_to_addr <= vaddr <= m.end(),
        vaddr % PAGE_SIZE == 0,
        page_of(m.vmo_offset as int) <= p,
        a == m.page_addr(p as int),
    ensures
        ({
            let (m2, s2) = left_trimmed(m, s, vaddr);
            &&& m2.mapped.contains(p) <==> m.mapped.contains(p) && a >= vaddr
            &&& s2.entries.contains_key(a) <==> s.entries.contains_key(a) && !(a < vaddr
                && m.mapped.contains(p) && !s.refused.contains_key(a))
            &&& s2.entries.contains_key(a) ==> s2.entries[a] == s.entries[a]
            &&& s2.refused == s.refused
            &&& s2.taken == s.taken
            &&& m2.is_destroyed == m.is_destroyed
        }),
{
    let from = page_of(m.vmo_offset as int);
    let to = page_of(m.offset_of(vaddr as int));
    if exists|q: int|
        from <= q < to && a == #[trigger] m.page_addr(q) && m.mapped.contains(q as usize)
            && !s.refused.contains_key(a) {
        let q = choose|q: int|
            from <= q < to && a == #[trigger] m.page_addr(q) && m.mapped.contains(q as usize)
                && !s.refused.contains_key(a);
        assert(q == p);
    }
    if a < vaddr && m.mapped.contains(p) && !s.refused.contains_key(a) {
        assert(from <= p < to && a == m.page_addr(p as int));
    }
}

/// Trimming a mapping from right takes from the page table exactly the entries of the whole pages
/// from the one with the new address on that can be removed, and a listed page leaves the list
/// unless it stays there.
pub proof fn law_trim_right_entries(m: MapView, s: SpaceView, vaddr: usize, p: usize, a: usize)
    requires
        m.wf(),
        m.map_to_addr <= vaddr <= m.end(),
        page_of(m.vmo_offset as int) <= p,
        a == m.page_addr(p as int),
    ensures
        ({
            let (m2, s2) = right_trimmed(m, s, vaddr);
            let cut = vaddr < a + PAGE_SIZE && a + PAGE_SIZE <= m.end();
            &&& m2.mapped.contains(p) <==> m.mapped.contains(p) && (cut ==> s.entries.contains_key(
                a,
            ) && s.refused.contains_key(a))
            &&& s2.entries.contains_key(a) <==> s.entries.contains_key(a) && !(cut
                && !s.refused.contains_key(a))
            &&& s2.entries.contains_key(a) ==> s2.entries[a] == s.entries[a]
            &&& s2.refused == s.refused
            &&& s2.taken == s.taken
            &&& m2.is_destroyed == m.is_destroyed
        }),
{
    let from = page_of(m.offset_of(vaddr as int));
    let to = page_of(m.vmo_offset + m.map_size);
    let cut = vaddr < a + PAGE_SIZE && a + PAGE_SIZE <= m.end();
    assert(cut <==> from <= p < to);
    assert(m.page_addr(p as int) as usize == a);
    if in_pages(m, from, to, a) {
        let q = choose|q: int| from <= q < to && a == #[trigger] m.page_addr(q);
        assert(q == p);
    }
    if cut {
        assert(in_pages(m, from, to, a)) by {
            assert(a == m.page_addr(p as int));
        }
    }
}

/// A page may be used exactly if all its bytes lie in the mapping and the mapping has the
/// permission. Else the error says which of the two is missing.
pub proof fn law_perm_check_is_exact(m: MapView, page_idx: int, perm: VmPerm)
    ensures
        ({
            let inside = m.vmo_offset <= page_idx * PAGE_SIZE && page_idx * PAGE_SIZE + PAGE_SIZE
                <= m.vmo_offset + m.map_size;
            let permitted = (perm.read ==> m.perm.read) && (perm.write ==> m.perm.write) && (
            perm.execute ==> m.perm.execute);
            &&& perm_check(m, page_idx, perm) is Ok <==> inside && permitted
            &&& perm_check(m, page_idx, perm) matches Err(e) ==> e.errno == if inside {
                Errno::EACCES
            } else {
                Errno::EINVAL
            }
        }),
{
}

/// What unmapping pages one by one does to one entry.
proof fn lemma_unmap_at(m: MapView, s: SpaceView, from: int, to: int, a: usize)
    requires
        m.wf(),
        page_of(m.vmo_offset as int) <= from,
        (to - 1) * PAGE_SIZE <= m.vmo_offset + m.map_size,
    ensures
        ({
            let (m2, s2, r) = unmap_pages(m, s, from, to);
            let inside = a % PAGE_SIZE == 0 && m.page_addr(from) <= a < m.page_addr(to);
            &&& s2.refused == s.refused
            &&& s2.taken == s.taken
            &&& s2.entries.contains_key(a) ==> s.entries.contains_key(a) && s2.entries[a]
                == s.entries[a]
            &&& s.entries.contains_key(a) && !s2.entries.contains_key(a) ==> inside
                && !s.refused.contains_key(a)
            &&& r is Ok ==> !(inside && s2.entries.contains_key(a))
            &&& r matches Err(e) ==> exists|p: int|
                from <= p < to && stuck(m, s, p) && e == s.refused[#[trigger] m.page_addr(
                    p,
                ) as usize]
        }),
    decreases to - from,
{
    if from < to {
        let (m1, s1, r1) = unmap_page(m, s, from);
        lemma_has_addr(m, from);
        let (m2, s2, r) = unmap_pages(m, s, from, to);
        if r1 is Ok {
            lemma_unmap_at(m1, s1, from + 1, to, a);
            if r is Err {
                let p = choose|p: int|
                    from + 1 <= p < to && stuck(m1, s1, p) && r->Err_0
                        == s1.refused[#[trigger] m1.page_addr(p) as usize];
                assert(m1.page_addr(p) == m.page_addr(p));
                assert(stuck(m, s, p));
            }
        } else {
            assert(r->Err_0 == s.refused[m.page_addr(from) as usize]);
        }
    }
}

/// Unmapping a range of addresses that ends well leaves no entry for a page that the range touches,
/// and all others as they were. It fails only on an entry that cannot be removed, and never takes
/// an entry from outside the range. The mapping is destroyed exactly if that was allowed and the
/// range is all of it.
pub proof fn law_unmap_clears_range(
    m: MapView,
    s: SpaceView,
    range: Range<usize>,
    may_destroy: bool,
    a: usize,
)
    requires
        m.wf(),
        m.map_to_addr <= range.start <= range.end <= m.end(),
        a % PAGE_SIZE == 0,
    ensures
        ({
            let (m2, s2, r) = unmap_range(m, s, range, may_destroy);
            let touched = a + PAGE_SIZE > range.start && a < range.end;
            &&& r is Ok && touched ==> !s2.entries.contains_key(a)
            &&& !touched ==> s2.entries.contains_key(a) == s.entries.contains_key(a)
            &&& s2.entries.contains_key(a) ==> s.entries.contains_key(a) && s2.entries[a]
                == s.entries[a]
            &&& s.refused.contains_key(a) ==> s2.entries.contains_key(a) == s.entries.contains_key(a)
            &&& r matches Err(e) ==> exists|b: usize|
                s.entries.contains_key(b) && #[trigger] s.refused.contains_key(b) && e
                    == s.refused[b] && b + PAGE_SIZE > range.start && b < range.end
            &&& m2.is_destroyed <==> m.is_destroyed || r is Ok && may_destroy && range.start
                == m.map_to_addr && range.end == m.end()
            &&& m2 == (MapView { mapped: m2.mapped, is_destroyed: m2.is_destroyed, ..m })
            &&& m2.mapped.subset_of(m.mapped)
        }),
{
    let from = page_of(m.offset_of(range.start as int));
    let to = pages_for(m.offset_of(range.end as int));
    let (m2, s2, r) = unmap_range(m, s, range, may_destroy);
    let touched = a + PAGE_SIZE > range.start && a < range.end;
    lemma_unmap_at(m, s, from, to, a);
    lemma_unmap_frame(m, s, from, to);
    lemma_unmap_shrinks(m, s, from, to);
    if range.start == range.end {
        assert(range.start % PAGE_SIZE == 0 ==> from == to);
    }
    assert(m.page_addr(from) <= a < m.page_addr(to) ==> touched);
    assert(touched ==> m.page_addr(from) <= a < m.page_addr(to));
    if r is Err {
        let p = choose|p: int|
            from <= p < to && stuck(m, s, p) && r->Err_0 == s.refused[#[trigger] m.page_addr(
                p,
            ) as usize];
        lemma_has_addr(m, p);
        assert(s.refused.contains_key(m.page_addr(p) as usize));
    }
}

/// Unmapping a range of addresses that ends well takes exactly the pages that the range touches
/// from the list of the mapping.
pub proof fn law_unmap_unlists_range(
    m: MapView,
    s: SpaceView,
    range: Range<usize>,
    may_destroy: bool,
    p: usize,
)
    requires
        m.wf(),
        m.map_to_addr <= range.start < range.end <= m.end(),
        page_of(m.vmo_offset as int) <= p,
        p * PAGE_SIZE <= m.vmo_offset + m.map_size,
        unmap_range(m, s, range, may_destroy).2 is Ok,
    ensures
        unmap_range(m, s, range, may_destroy).0.mapped.contains(p) <==> m.mapped.contains(p) && !(
        m.page_addr(p as int) + PAGE_SIZE > range.start && m.page_addr(p as int) < range.end),
{
    let from = page_of(m.offset_of(range.start as int));
    let to = pages_for(m.offset_of(range.end as int));
    law_unmap_leaves_none(m, s, from, to, p as int);
}

/// Which page is the first depends only on which pages cannot be changed.
proof fn lemma_first_stuck_agrees(
    m: MapView,
    s: SpaceView,
    n: MapView,
    t: SpaceView,
    from: int,
    to: int,
)
    requires
        forall|p: int| from <= p < to ==> #[trigger] stuck(m, s, p) == stuck(n, t, p),
    ensures
        first_stuck(m, s, from, to) == first_stuck(n, t, from, to),
    decreases to - from,
{
    if from < to {
        assert(stuck(m, s, from) == stuck(n, t, from));
        lemma_first_stuck_agrees(m, s, n, t, from + 1, to);
    }
}

/// Unmapping pages goes on up to the first page whose entry cannot be removed, and ends in its
/// error. The entries of the pages before it are gone then, and they are no longer listed. All
/// others stay.
pub proof fn law_unmap_goes_up_to_refused(m: MapView, s: SpaceView, from: int, to: int, p: int)
    requires
        m.wf(),
        page_of(m.vmo_offset as int) <= from <= to,
        (to - 1) * PAGE_SIZE <= m.vmo_offset + m.map_size,
        page_of(m.vmo_offset as int) <= p,
        p * PAGE_SIZE <= m.vmo_offset + m.map_size,
    ensures
        ({
            let (m2, s2, r) = unmap_pages(m, s, from, to);
            let k = first_stuck(m, s, from, to);
            let a = m.page_addr(p) as usize;
            &&& r is Ok <==> k == to
            &&& r matches Err(e) ==> e == s.refused[m.page_addr(k) as usize]
            &&& s2.refused == s.refused
            &&& s2.taken == s.taken
            &&& from <= p < k ==> !s2.entries.contains_key(a) && !m2.mapped.contains(p as usize)
            &&& !(from <= p < k) ==> {
                &&& s2.entries.contains_key(a) == s.entries.contains_key(a)
                &&& s2.entries.contains_key(a) ==> s2.entries[a] == s.entries[a]
                &&& m2.mapped.contains(p as usize) == m.mapped.contains(p as usize)
            }
        }),
    decreases to - from,
{
    lemma_first_stuck(m, s, s, from, to);
    if from < to {
        lemma_has_addr(m, from);
        lemma_has_addr(m, p);
        let (m1, s1, r) = unmap_page(m, s, from);
        if r is Ok {
            assert forall|q: int| from + 1 <= q < to implies #[trigger] stuck(m, s, q) == stuck(
                m1,
                s1,
                q,
            ) by {
                lemma_has_addr(m, q);
            }
            lemma_first_stuck_agrees(m, s, m1, s1, from + 1, to);
            lemma_first_stuck(m1, s1, s1, from + 1, to);
            law_unmap_goes_up_to_refused(m1, s1, from + 1, to, p);
            lemma_unmap_shrinks(m1, s1, from + 1, to);
            let k = first_stuck(m, s, from, to);
            assert(m1.page_addr(p) == m.page_addr(p));
            assert(m1.page_addr(k) == m.page_addr(k));
        }
    }
}

} // verus!
