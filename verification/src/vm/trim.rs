//! Cutting a range of addresses out of a mapping.
use core::ops::Range;
use vstd::prelude::*;

use crate::config::PAGE_SIZE;
use crate::error::Error;
use crate::vm::mapping::{
    drop_all, drop_listed, in_pages, law_shrink_keeps_offsets, law_trim_left_entries,
    law_trim_right_entries, left_trimmed, lemma_has_addr, lemma_unmap_frame, right_trimmed, shrunk,
    stuck, unmap_page, unmap_pages, MapView,
};
use crate::vm::pages::{get_page_idx_range, is_intersected, overlap, page_of, pages_for, within};
use crate::vm::space::{SpaceView, VmSpace};
use crate::vm::usize_set::UsizeSet;
use crate::vm::vm_mapping::{MappingView, VmMapping};
use crate::vm::vmar::VmMappings;

verus! {

/// The addresses of a mapping.
pub open spec fn range_of(m: MappingView) -> Range<usize> {
    m.map.map_to_addr..m.map.end() as usize
}

/// Whether a range covers a mapping.
pub open spec fn swallows(trim: Range<usize>, m: MappingView) -> bool {
    trim.start <= m.map.map_to_addr && m.map.end() <= trim.end
}

/// Whether a range can be cut out of a mapping: where it cuts, there has to be a page boundary, and
/// where it covers the mapping, its pages have to have numbers.
pub open spec fn can_trim(m: MappingView, trim: Range<usize>) -> bool {
    overlap(range_of(m), trim) ==> if swallows(trim, m) {
        m.map.offset_of(trim.end as int) + PAGE_SIZE <= usize::MAX
    } else {
        &&& trim.start > m.map.map_to_addr ==> trim.start % PAGE_SIZE == 0
        &&& trim.end < m.map.end() ==> trim.end % PAGE_SIZE == 0
    }
}

/// The first page of the memory object that lies in a range of addresses, or would if the mapping
/// reached there.
pub open spec fn first_page(m: MapView, range: Range<usize>) -> int {
    let offset = m.offset_of(range.start as int);
    if offset >= 0 {
        page_of(offset)
    } else {
        0
    }
}

/// What comes of unmapping a range that covers a mapping: all its pages are unmapped, and the
/// mapping is destroyed if that worked.
pub open spec fn covered(m: MapView, s: SpaceView, trim: Range<usize>) -> (
    MapView,
    SpaceView,
    Result<(), Error>,
) {
    let (map, s2, r) = unmap_pages(
        m,
        s,
        first_page(m, trim),
        pages_for(m.offset_of(trim.end as int)),
    );
    (MapView { is_destroyed: m.is_destroyed || r is Ok, ..map }, s2, r)
}

/// The page table after a range was cut out of the middle of a mapping: it is trimmed from left to
/// the end of the range and from right to its start, so the pages of both parts have to be mapped
/// anew.
pub open spec fn split_space(m: MapView, s: SpaceView, trim: Range<usize>) -> SpaceView {
    drop_all(
        m,
        drop_listed(m, s, page_of(m.vmo_offset as int), page_of(m.offset_of(trim.end as int))),
        page_of(m.offset_of(trim.start as int)),
        page_of(m.vmo_offset + m.map_size),
    )
}

/// A part of a mapping that was cut in two. It lists the pages that could not be unmapped, and one
/// at the end of the mapping that the mapping shows in part.
pub open spec fn unlisted(m: MapView, s: SpaceView, part: MapView) -> MapView {
    MapView {
        mapped: Set::new(
            |p: usize|
                part.mapped.contains(p) && (page_of(m.vmo_offset as int) <= p < page_of(
                    m.vmo_offset + m.map_size,
                ) ==> stuck(m, s, p as int)),
        ),
        ..part
    }
}

/// The part of a mapping below a range that was cut out of its middle.
pub open spec fn left_part(m: MapView, s: SpaceView, trim: Range<usize>) -> MapView {
    unlisted(m, s, shrunk(m, m.map_to_addr..trim.start))
}

/// The part of a mapping above a range that was cut out of its middle.
pub open spec fn right_part(m: MapView, s: SpaceView, trim: Range<usize>) -> MapView {
    unlisted(m, s, shrunk(m, trim.end..m.end() as usize))
}

/// What comes of cutting a range out of a mapping: the mapping, the page table, the addresses whose
/// mapping is to be removed, the mappings that are to be added, and whether it worked.
pub open spec fn trimmed(
    m: MappingView,
    s: SpaceView,
    trim: Range<usize>,
    to_remove: Set<usize>,
    to_append: Map<usize, MappingView>,
) -> (MappingView, SpaceView, Set<usize>, Map<usize, MappingView>, Result<(), Error>) {
    let start = m.map.map_to_addr;
    if !overlap(range_of(m), trim) {
        (m, s, to_remove, to_append, Ok(()))
    } else if swallows(trim, m) {
        let (map, s2, r) = covered(m.map, s, trim);
        let removed = if r is Ok {
            to_remove.insert(start)
        } else {
            to_remove
        };
        (MappingView { map, ..m }, s2, removed, to_append, r)
    } else if trim.start <= start {
        let (map, s2) = left_trimmed(m.map, s, trim.end);
        let m2 = MappingView { map, ..m };
        (m2, s2, to_remove.insert(start), to_append.insert(trim.end, m2), Ok(()))
    } else if trim.end < m.map.end() {
        if !m.vmo.rights.dup {
            (m, s, to_remove, to_append, Err(m.vmo.denied))
        } else {
            (
                MappingView { map: left_part(m.map, s, trim), ..m },
                split_space(m.map, s, trim),
                to_remove,
                to_append.insert(trim.end, MappingView { map: right_part(m.map, s, trim), ..m }),
                Ok(()),
            )
        }
    } else {
        let (map, s2) = right_trimmed(m.map, s, trim.start);
        (MappingView { map, ..m }, s2, to_remove, to_append, Ok(()))
    }
}

/// What is left of a mapping does not depend on what else is to be removed or added.
proof fn lemma_trim_alike(
    m: MappingView,
    s: SpaceView,
    trim: Range<usize>,
    to_remove: Set<usize>,
    to_append: Map<usize, MappingView>,
)
    ensures
        trimmed(m, s, trim, to_remove, to_append).0 == trimmed(
            m,
            s,
            trim,
            Set::empty(),
            Map::empty(),
        ).0,
{
}

/// Where pages lie does not depend on which of them are listed.
proof fn lemma_same_pages(a: MapView, b: MapView, from: int, to: int)
    requires
        a.map_to_addr == b.map_to_addr,
        a.vmo_offset == b.vmo_offset,
    ensures
        forall|addr: usize| #[trigger] in_pages(a, from, to, addr) == in_pages(b, from, to, addr),
{
    assert forall|addr: usize| #[trigger]
        in_pages(a, from, to, addr) == in_pages(b, from, to, addr) by {
        assert forall|p: int| a.page_addr(p) == #[trigger] b.page_addr(p) by {}
        if in_pages(a, from, to, addr) {
            let p = choose|p: int| from <= p < to && addr == #[trigger] a.page_addr(p);
            assert(addr == b.page_addr(p));
        }
        if in_pages(b, from, to, addr) {
            let p = choose|p: int| from <= p < to && addr == #[trigger] b.page_addr(p);
            assert(addr == a.page_addr(p));
        }
    }
}

impl VmMapping {
    /// Trims a range from the mapping.
    /// There are several cases.
    /// 1. the trim_range is totally in the mapping. Then the mapping will split as two mappings.
    /// 2. the trim_range covers the mapping. Then the mapping will be destroyed.
    /// 3. the trim_range partly overlaps with the mapping, in left or right. Only overlapped part is
    /// trimmed.
    /// If we create a mapping with a new map addr, we will add it to mappings_to_append.
    /// If the mapping with map addr does not exist ever, the map addr will be added to
    /// mappings_to_remove.
    /// Otherwise, we will directly modify self.
    pub fn trim_mapping(
        &mut self,
        vm_space: &mut VmSpace,
        trim_range: &Range<usize>,
        mappings_to_remove: &mut UsizeSet,
        mappings_to_append: &mut VmMappings,
    ) -> (r: Result<(), Error>)
        requires
            old(self)@.map.wf(),
            can_trim(old(self)@, *trim_range),
        ensures
            final(self)@.map.wf(),
            (
                final(self)@,
                final(vm_space)@,
                final(mappings_to_remove)@,
                final(mappings_to_append)@,
                r,
            ) == trimmed(
                old(self)@,
                old(vm_space)@,
                *trim_range,
                old(mappings_to_remove)@,
                old(mappings_to_append)@,
            ),
    {
        proof {
            law_trim_keeps_valid(self@, vm_space@, *trim_range, 0);
            lemma_trim_alike(
                self@,
                vm_space@,
                *trim_range,
                mappings_to_remove@,
                mappings_to_append@,
            );
        }
        let map_to_addr = self.map_to_addr();
        let range = self.range();
        if !is_intersected(&range, trim_range) {
            return Ok(());
        }
        assert(range == range_of(self@));
        if trim_range.start <= range.start && trim_range.end >= range.end {
            // Fast path: the whole mapping was trimmed.
            let unmapped = self.unmap_covered(vm_space, trim_range);
            if unmapped.is_ok() {
                mappings_to_remove.insert(map_to_addr);
            }
            return unmapped;
        }
        if trim_range.start <= range.start {
            // Overlap vm_mapping from left.
            mappings_to_remove.insert(map_to_addr);
            let new_map_addr = self.trim_left(vm_space, trim_range.end);
            let trimmed_mapping = VmMapping { inner: self.inner.copy(), vmo: self.vmo };
            mappings_to_append.insert(new_map_addr, trimmed_mapping);
        } else {
            if trim_range.end < range.end {
                // The trim range was totally inside the old mapping.
                let vmo = match self.vmo.dup() {
                    Ok(vmo) => vmo,
                    Err(e) => {
                        return Err(e);
                    },
                };
                self.split(vm_space, trim_range);
                let mut another = VmMapping { inner: self.inner.copy(), vmo };
                another.inner.shrink_to(&(trim_range.end..range.end));
                self.inner.shrink_to(&(range.start..trim_range.start));
                proof {
                    let m = old(self)@.map;
                    let s = old(vm_space)@;
                    assert(self@.map.mapped =~= left_part(m, s, *trim_range).mapped);
                    assert(another@.map.mapped =~= right_part(m, s, *trim_range).mapped);
                }
                mappings_to_append.insert(trim_range.end, another);
            } else {
                // Overlap vm_mapping from right.
                let _ = self.trim_right(vm_space, trim_range.start);
            }
        }
        Ok(())
    }

    /// Unmaps all pages of a range that covers the mapping, and destroys the mapping.
    fn unmap_covered(&mut self, vm_space: &mut VmSpace, trim_range: &Range<usize>) -> (r: Result<
        (),
        Error,
    >)
        requires
            old(self)@.map.wf(),
            swallows(*trim_range, old(self)@),
            trim_range.start < trim_range.end,
            old(self)@.map.offset_of(trim_range.end as int) + PAGE_SIZE <= usize::MAX,
        ensures
            (final(self)@.map, final(vm_space)@, r) == covered(
                old(self)@.map,
                old(vm_space)@,
                *trim_range,
            ),
            final(self)@.vmo == old(self)@.vmo,
    {
        let start = if self.map_to_addr() - trim_range.start <= self.vmo_offset() {
            self.inner.vmo_offset_of(trim_range.start)
        } else {
            0
        };
        let end = self.inner.vmo_offset_of(trim_range.end);
        let pages = get_page_idx_range(&(start..end));
        let unmapped = self.inner.unmap_all(vm_space, pages.start, pages.end);
        proof {
            lemma_unmap_frame(
                old(self)@.map,
                old(vm_space)@,
                pages.start as int,
                pages.end as int,
            );
        }
        if unmapped.is_ok() {
            self.inner.is_destroyed = true;
        }
        unmapped
    }

    /// Unmaps the pages of a mapping that a range is cut out of the middle of: what trimming it
    /// from left to the end of the range unmaps, and from right to its start.
    fn split(&mut self, vm_space: &mut VmSpace, trim_range: &Range<usize>)
        requires
            old(self)@.map.wf(),
            old(self)@.map.map_to_addr < trim_range.start < trim_range.end < old(self)@.map.end(),
            trim_range.start % PAGE_SIZE == 0,
            trim_range.end % PAGE_SIZE == 0,
        ensures
            final(self)@ == (MappingView {
                map: unlisted(old(self)@.map, old(vm_space)@, old(self)@.map),
                ..old(self)@
            }),
            final(vm_space)@ == split_space(old(self)@.map, old(vm_space)@, *trim_range),
    {
        let start = self.inner.vmo_offset_of(trim_range.start) / PAGE_SIZE;
        let end = self.inner.vmo_offset_of(trim_range.end) / PAGE_SIZE;
        let first = self.vmo_offset() / PAGE_SIZE;
        let last = (self.vmo_offset() + self.map_size()) / PAGE_SIZE;
        let ghost m = self@.map;
        let ghost s = vm_space@;
        self.inner.drop_listed_pages(vm_space, first, end);
        let ghost m1 = self@.map;
        let ghost s1 = vm_space@;
        self.inner.drop_pages(vm_space, start, last);
        proof {
            lemma_same_pages(m1, m, start as int, last as int);
            assert(vm_space@.entries =~= split_space(m, s, *trim_range).entries);
            assert forall|p: usize| first <= p < last implies #[trigger] stuck(m, s, p as int)
                == stuck(m1, s1, p as int) by {
                lemma_has_addr(m, p as int);
            }
            assert(self@.map.mapped =~= unlisted(m, s, m).mapped);
        }
    }

    /// Trims the mapping from left to a new address.
    fn trim_left(&mut self, vm_space: &mut VmSpace, vaddr: usize) -> (r: usize)
        requires
            old(self)@.map.wf(),
            old(self)@.map.map_to_addr <= vaddr <= old(self)@.map.end(),
            vaddr % PAGE_SIZE == 0,
        ensures
            (final(self)@.map, final(vm_space)@) == left_trimmed(
                old(self)@.map,
                old(vm_space)@,
                vaddr,
            ),
            final(self)@.vmo == old(self)@.vmo,
            r == vaddr,
    {
        self.inner.trim_left(vm_space, vaddr)
    }

    /// Trims the mapping from right to a new address.
    fn trim_right(&mut self, vm_space: &mut VmSpace, vaddr: usize) -> (r: usize)
        requires
            old(self)@.map.wf(),
            old(self)@.map.map_to_addr <= vaddr <= old(self)@.map.end(),
            vaddr % PAGE_SIZE == 0,
        ensures
            (final(self)@.map, final(vm_space)@) == right_trimmed(
                old(self)@.map,
                old(vm_space)@,
                vaddr,
            ),
            final(self)@.vmo == old(self)@.vmo,
            r == old(self)@.map.map_to_addr,
    {
        self.inner.trim_right(vm_space, vaddr)
    }
}

/// Whether an address is shown by what is left of a mapping: by the mapping itself, unless it is to
/// be removed, or by one that is to be added.
pub open spec fn still_shown(
    start: usize,
    m: MappingView,
    to_remove: Set<usize>,
    to_append: Map<usize, MappingView>,
    addr: int,
) -> bool {
    ||| !to_remove.contains(start) && m.map.covers(addr)
    ||| exists|k: usize| to_append.contains_key(k) && #[trigger] to_append[k].map.covers(addr)
}

/// Cutting a range out of a mapping takes away exactly the addresses of that range: every other one
/// is still shown.
pub proof fn law_trim_leaves_rest(m: MappingView, s: SpaceView, trim: Range<usize>, addr: int)
    requires
        m.map.wf(),
        trimmed(m, s, trim, Set::empty(), Map::empty()).4 is Ok,
    ensures
        ({
            let (m2, _, to_remove, to_append, _) = trimmed(m, s, trim, Set::empty(), Map::empty());
            still_shown(m.map.map_to_addr, m2, to_remove, to_append, addr) <==> m.map.covers(addr)
                && !within(trim, addr)
        }),
{
    let (m2, _, to_remove, to_append, _) = trimmed(m, s, trim, Set::empty(), Map::empty());
    if overlap(range_of(m), trim) && !swallows(trim, m) && trim.end < m.map.end() {
        assert(to_append.contains_key(trim.end));
        assert(to_append[trim.end].map.covers(addr) <==> m.map.covers(addr) && addr >= trim.end);
    }
}

/// What is left of a mapping shows at each address what the mapping showed there before, with the
/// same permissions.
pub proof fn law_trim_keeps_offsets(
    m: MappingView,
    s: SpaceView,
    trim: Range<usize>,
    addr: int,
    k: usize,
)
    requires
        m.map.wf(),
    ensures
        ({
            let (m2, _, to_remove, to_append, _) = trimmed(m, s, trim, Set::empty(), Map::empty());
            &&& m2.map.offset_of(addr) == m.map.offset_of(addr)
            &&& m2.map.perm == m.map.perm
            &&& to_append.contains_key(k) ==> {
                &&& to_append[k].map.map_to_addr == k
                &&& to_append[k].map.offset_of(addr) == m.map.offset_of(addr)
                &&& to_append[k].map.perm == m.map.perm
                &&& to_append[k].vmo == m.vmo
            }
        }),
{
    if overlap(range_of(m), trim) {
        lemma_unmap_frame(
            m.map,
            s,
            first_page(m.map, trim),
            pages_for(m.map.offset_of(trim.end as int)),
        );
    }
}

/// A mapping that is covered by the range is destroyed, unless a page of it cannot be unmapped.
pub proof fn law_trim_destroys_covered(m: MappingView, s: SpaceView, trim: Range<usize>)
    requires
        m.map.wf(),
        m.map.map_size > 0,
        swallows(trim, m),
    ensures
        ({
            let (m2, _, to_remove, to_append, r) = trimmed(m, s, trim, Set::empty(), Map::empty());
            r is Ok ==> {
                &&& m2.map.is_destroyed
                &&& to_remove.contains(m.map.map_to_addr)
                &&& to_append == Map::<usize, MappingView>::empty()
            }
        }),
{
}

/// What is left of a valid mapping is valid.
pub proof fn law_trim_keeps_valid(m: MappingView, s: SpaceView, trim: Range<usize>, k: usize)
    requires
        m.map.wf(),
        can_trim(m, trim),
    ensures
        ({
            let (m2, _, to_remove, to_append, _) = trimmed(m, s, trim, Set::empty(), Map::empty());
            &&& m2.map.wf()
            &&& to_append.contains_key(k) ==> to_append[k].map.wf()
        }),
{
    if overlap(range_of(m), trim) {
        if swallows(trim, m) {
            lemma_unmap_frame(
                m.map,
                s,
                first_page(m.map, trim),
                pages_for(m.map.offset_of(trim.end as int)),
            );
        } else if trim.start <= m.map.map_to_addr {
            assert(left_trimmed(m.map, s, trim.end).0.wf());
        } else if trim.end < m.map.end() {
            law_shrink_keeps_offsets(m.map, m.map.map_to_addr..trim.start, 0);
            law_shrink_keeps_offsets(m.map, trim.end..m.map.end() as usize, 0);
        } else {
            assert(right_trimmed(m.map, s, trim.start).0.wf());
        }
    }
}

/// Unmapping pages leaves the entries of all other addresses alone.
proof fn lemma_unmap_others(m: MapView, s: SpaceView, from: int, to: int, a: usize)
    requires
        forall|p: int| from <= p < to ==> a != #[trigger] m.page_addr(p) as usize,
    ensures
        ({
            let s2 = unmap_pages(m, s, from, to).1;
            &&& s2.entries.contains_key(a) == s.entries.contains_key(a)
            &&& s.entries.contains_key(a) ==> s2.entries[a] == s.entries[a]
        }),
    decreases to - from,
{
    if from < to {
        let (m1, s1, r) = unmap_page(m, s, from);
        assert(a != m.page_addr(from) as usize);
        if r is Ok {
            assert forall|p: int| from + 1 <= p < to implies a != #[trigger] m1.page_addr(
                p,
            ) as usize by {
                assert(m1.page_addr(p) == m.page_addr(p));
            }
            lemma_unmap_others(m1, s1, from + 1, to, a);
        }
    }
}

/// Cutting a range out of a mapping leaves the entries of all pages as they were that touch neither
/// the range nor, where it is cut out of the middle, the mapping.
pub proof fn law_trim_leaves_other_entries(
    m: MappingView,
    s: SpaceView,
    trim: Range<usize>,
    a: usize,
)
    requires
        m.map.wf(),
        can_trim(m, trim),
        a + PAGE_SIZE <= trim.start || trim.end <= a,
        m.map.map_to_addr < trim.start && trim.end < m.map.end() ==> a + PAGE_SIZE
            <= m.map.map_to_addr || m.map.end() <= a,
    ensures
        ({
            let s2 = trimmed(m, s, trim, Set::empty(), Map::empty()).1;
            &&& s2.entries.contains_key(a) == s.entries.contains_key(a)
            &&& s.entries.contains_key(a) ==> s2.entries[a] == s.entries[a]
        }),
{
    if overlap(range_of(m), trim) && swallows(trim, m) {
        let (from, to) = (first_page(m.map, trim), pages_for(m.map.offset_of(trim.end as int)));
        assert forall|p: int| from <= p < to implies a != #[trigger] m.map.page_addr(
            p,
        ) as usize by {
            assert(0 <= m.map.page_addr(p) < trim.end);
            assert(trim.start < m.map.page_addr(p) + PAGE_SIZE);
        }
        lemma_unmap_others(m.map, s, from, to, a);
    }
}

/// Whether a mapping lists only pages of its own, and only such that are in the page table.
pub open spec fn lists_mapped(m: MapView, s: SpaceView) -> bool {
    &&& m.lists_own()
    &&& forall|p: usize| #[trigger]
        m.mapped.contains(p) ==> s.entries.contains_key(m.page_addr(p as int) as usize)
}

/// What is left of a mapping lists only pages of its own that are still in the page table, if the
/// mapping did and no entry is refused.
#[verifier::spinoff_prover]
pub proof fn law_trim_keeps_listed(m: MappingView, s: SpaceView, trim: Range<usize>, k: usize)
    requires
        m.map.wf(),
        m.map.map_size % PAGE_SIZE == 0,
        can_trim(m, trim),
        s.refused == Map::<usize, Error>::empty(),
        lists_mapped(m.map, s),
    ensures
        ({
            let (m2, s2, _, to_append, _) = trimmed(m, s, trim, Set::empty(), Map::empty());
            &&& lists_mapped(m2.map, s2)
            &&& to_append.contains_key(k) ==> lists_mapped(to_append[k].map, s2)
        }),
{
    let (m2, s2, _, to_append, r) = trimmed(m, s, trim, Set::empty(), Map::empty());
    if overlap(range_of(m), trim) {
        if swallows(trim, m) {
            let (from, to) = (first_page(m.map, trim), pages_for(m.map.offset_of(trim.end as int)));
            lemma_unmap_frame(m.map, s, from, to);
            lemma_unmap_unlists(m.map, s, from, to);
            assert forall|p: usize| #[trigger] m2.map.mapped.contains(p) implies false by {
                assert(m.map.mapped.contains(p));
            }
        } else if trim.start <= m.map.map_to_addr {
            lemma_left_listed(m.map, s, trim.end);
        } else if trim.end < m.map.end() {
            if m.vmo.rights.dup {
                let (left, right) = (left_part(m.map, s, trim), right_part(m.map, s, trim));
                assert forall|p: usize| !(#[trigger] left.mapped.contains(p)) by {
                    assert(m.map.mapped.contains(p) ==> p < pages_for(
                        m.map.vmo_offset + m.map.map_size,
                    ));
                }
                assert forall|p: usize| !(#[trigger] right.mapped.contains(p)) by {
                    assert(m.map.mapped.contains(p) ==> p < pages_for(
                        m.map.vmo_offset + m.map.map_size,
                    ));
                }
            }
        } else {
            lemma_right_listed(m.map, s, trim.start);
        }
    }
}

/// A mapping that is trimmed from left lists only pages of its own that are still in the page
/// table.
proof fn lemma_left_listed(m: MapView, s: SpaceView, vaddr: usize)
    requires
        m.wf(),
        m.map_to_addr <= vaddr <= m.end(),
        vaddr % PAGE_SIZE == 0,
        lists_mapped(m, s),
    ensures
        lists_mapped(left_trimmed(m, s, vaddr).0, left_trimmed(m, s, vaddr).1),
{
    let (m2, s2) = left_trimmed(m, s, vaddr);
    assert forall|p: usize| #[trigger] m2.mapped.contains(p) implies {
        &&& page_of(m2.vmo_offset as int) <= p < pages_for(m2.vmo_offset + m2.map_size)
        &&& s2.entries.contains_key(m2.page_addr(p as int) as usize)
    } by {
        assert(m.mapped.contains(p));
        assert(m2.page_addr(p as int) == m.page_addr(p as int));
    }
}

/// A mapping that is trimmed from right lists only pages of its own that are still in the page
/// table, if no entry is refused.
proof fn lemma_right_listed(m: MapView, s: SpaceView, vaddr: usize)
    requires
        m.wf(),
        m.map_size % PAGE_SIZE == 0,
        m.map_to_addr <= vaddr <= m.end(),
        vaddr % PAGE_SIZE == 0,
        s.refused == Map::<usize, Error>::empty(),
        lists_mapped(m, s),
    ensures
        lists_mapped(right_trimmed(m, s, vaddr).0, right_trimmed(m, s, vaddr).1),
{
    let (m2, s2) = right_trimmed(m, s, vaddr);
    assert forall|p: usize| #[trigger] m2.mapped.contains(p) implies {
        &&& page_of(m2.vmo_offset as int) <= p < pages_for(m2.vmo_offset + m2.map_size)
        &&& s2.entries.contains_key(m2.page_addr(p as int) as usize)
    } by {
        assert(m.mapped.contains(p));
        assert(m2.page_addr(p as int) == m.page_addr(p as int));
    }
}

/// Where nothing is refused, unmapping pages takes them off the list.
proof fn lemma_unmap_unlists(m: MapView, s: SpaceView, from: int, to: int)
    requires
        s.refused == Map::<usize, Error>::empty(),
        0 <= from,
        to <= usize::MAX,
    ensures
        unmap_pages(m, s, from, to).2 is Ok,
        forall|p: usize| #[trigger]
            unmap_pages(m, s, from, to).0.mapped.contains(p) <==> m.mapped.contains(p) && !(from
                <= p < to),
    decreases to - from,
{
    if from < to {
        let (m1, s1, _) = unmap_page(m, s, from);
        lemma_unmap_unlists(m1, s1, from + 1, to);
    }
}

/// Cutting a range out of a mapping changes what is to be removed and added only so: the address
/// where the mapping begins is removed exactly if the range holds it, and a mapping is added
/// exactly where the range ends, if the mapping goes on behind it. A range that does not meet the
/// mapping changes nothing at all.
pub proof fn law_trim_lists_changes(
    m: MappingView,
    s: SpaceView,
    trim: Range<usize>,
    to_remove: Set<usize>,
    to_append: Map<usize, MappingView>,
    k: usize,
)
    requires
        m.map.wf(),
        m.map.map_size > 0,
        trim.start < trim.end,
    ensures
        ({
            let (m2, s2, removed, appended, r) = trimmed(m, s, trim, to_remove, to_append);
            let meets = trim.start < m.map.end() && m.map.map_to_addr < trim.end;
            &&& !meets ==> m2 == m && s2 == s && removed == to_remove && appended == to_append
                && r is Ok
            &&& removed.contains(k) <==> to_remove.contains(k) || r is Ok && k == m.map.map_to_addr
                && meets && trim.start <= k
            &&& appended.contains_key(k) <==> to_append.contains_key(k) || r is Ok && k == trim.end
                && meets && k < m.map.end()
            &&& to_append.contains_key(k) && k != trim.end ==> appended[k] == to_append[k]
            &&& r is Err ==> removed == to_remove && appended == to_append
        }),
{
}

/// Cutting a range out of a mapping fails only if the range lies in the middle and there is no
/// right to make the reference that the second part needs, and then changes nothing, or if the
/// range covers the mapping and a page of it cannot be unmapped, and then destroys nothing.
pub proof fn law_trim_fails_only_so(m: MappingView, s: SpaceView, trim: Range<usize>)
    requires
        m.map.wf(),
        m.map.map_size > 0,
        trim.start < trim.end,
    ensures
        ({
            let (m2, s2, _, _, r) = trimmed(m, s, trim, Set::empty(), Map::empty());
            let middle = m.map.map_to_addr < trim.start && trim.end < m.map.end();
            &&& middle && !m.vmo.rights.dup ==> r == Err::<(), Error>(m.vmo.denied) && m2 == m && s2
                == s
            &&& middle && m.vmo.rights.dup ==> r is Ok
            &&& !middle && r is Err ==> trim.start <= m.map.map_to_addr && m.map.end() <= trim.end
                && m2.map.is_destroyed == m.map.is_destroyed
            &&& m2.vmo == m.vmo
            &&& m2.map.is_destroyed <==> m.map.is_destroyed || r is Ok && trim.start
                <= m.map.map_to_addr && m.map.end() <= trim.end
        }),
{
    if overlap(range_of(m), trim) && swallows(trim, m) {
        lemma_unmap_frame(
            m.map,
            s,
            first_page(m.map, trim),
            pages_for(m.map.offset_of(trim.end as int)),
        );
    }
}

/// After a range was cut out of a mapping without an error, no page of the mapping that lies in the
/// range is in the page table still, if all its pages there were listed and can be unmapped.
#[verifier::spinoff_prover]
pub proof fn law_trim_unmaps_range(m: MappingView, s: SpaceView, trim: Range<usize>, a: usize)
    requires
        m.map.wf(),
        m.map.map_size % PAGE_SIZE == 0,
        can_trim(m, trim),
        trim.start <= a < trim.end,
        a % PAGE_SIZE == 0,
        m.map.covers(a as int),
        s.entries.contains_key(a) ==> m.map.mapped.contains(
            page_of(m.map.offset_of(a as int)) as usize,
        ),
        !s.refused.contains_key(a),
        trimmed(m, s, trim, Set::empty(), Map::empty()).4 is Ok,
    ensures
        !trimmed(m, s, trim, Set::empty(), Map::empty()).1.entries.contains_key(a),
{
    let p = page_of(m.map.offset_of(a as int));
    assert(m.map.page_addr(p) == a);
    assert(0 <= p <= usize::MAX);
    if swallows(trim, m) {
        let (from, to) = (first_page(m.map, trim), pages_for(m.map.offset_of(trim.end as int)));
        assert(from <= p < to);
        lemma_unmap_takes(m.map, s, from, to, p);
    } else if trim.start <= m.map.map_to_addr {
        law_trim_left_entries(m.map, s, trim.end, p as usize, a);
    } else if trim.end < m.map.end() {
        law_split_unmaps_both_parts(m.map, s, trim, p as usize, a);
    } else {
        law_trim_right_entries(m.map, s, trim.start, p as usize, a);
    }
}

/// A page that is among those that are unmapped without an error is gone.
proof fn lemma_unmap_takes(m: MapView, s: SpaceView, from: int, to: int, p: int)
    requires
        from <= p < to,
        unmap_pages(m, s, from, to).2 is Ok,
    ensures
        !unmap_pages(m, s, from, to).1.entries.contains_key(m.page_addr(p) as usize),
    decreases to - from,
{
    let (m1, s1, r) = unmap_page(m, s, from);
    if p > from {
        assert(m1.page_addr(p) == m.page_addr(p));
        lemma_unmap_takes(m1, s1, from + 1, to, p);
    } else {
        lemma_unmap_adds_none(m1, s1, from + 1, to, m.page_addr(p) as usize);
    }
}

/// Unmapping pages adds no entry.
proof fn lemma_unmap_adds_none(m: MapView, s: SpaceView, from: int, to: int, a: usize)
    requires
        !s.entries.contains_key(a),
    ensures
        !unmap_pages(m, s, from, to).1.entries.contains_key(a),
    decreases to - from,
{
    if from < to {
        let (m1, s1, r) = unmap_page(m, s, from);
        if r is Ok {
            lemma_unmap_adds_none(m1, s1, from + 1, to, a);
        }
    }
}

/// Where a range is cut out of the middle of a mapping, an entry of a page of the mapping leaves
/// the page table if it can be removed and the page is listed and begins below the end of the
/// range, or is shown whole and ends above its start. Both parts then have their pages mapped anew.
/// Each part lists of its own pages those that could not be unmapped.
pub proof fn law_split_unmaps_both_parts(
    m: MapView,
    s: SpaceView,
    trim: Range<usize>,
    p: usize,
    a: usize,
)
    requires
        m.wf(),
        m.map_to_addr < trim.start < trim.end < m.end(),
        trim.start % PAGE_SIZE == 0,
        trim.end % PAGE_SIZE == 0,
        page_of(m.vmo_offset as int) <= p,
        a == m.page_addr(p as int),
        a < m.end(),
    ensures
        ({
            let s2 = split_space(m, s, trim);
            let whole = a + PAGE_SIZE <= m.end();
            &&& s2.entries.contains_key(a) <==> s.entries.contains_key(a) && !(
            !s.refused.contains_key(a) && (a < trim.end && m.mapped.contains(p) || whole && a
                >= trim.start))
            &&& s2.entries.contains_key(a) ==> s2.entries[a] == s.entries[a]
            &&& left_part(m, s, trim).mapped.contains(p) <==> m.mapped.contains(p) && a < trim.start
                && stuck(m, s, p as int)
            &&& right_part(m, s, trim).mapped.contains(p) <==> m.mapped.contains(p) && a >= trim.end
                && (whole ==> stuck(m, s, p as int))
        }),
{
    let from = page_of(m.vmo_offset as int);
    let mid = page_of(m.offset_of(trim.start as int));
    let to = page_of(m.offset_of(trim.end as int));
    let last = page_of(m.vmo_offset + m.map_size);
    let whole = a + PAGE_SIZE <= m.end();
    assert(a < trim.end <==> p < to);
    assert(whole && a >= trim.start <==> mid <= p < last);
    if exists|q: int|
        from <= q < to && a == #[trigger] m.page_addr(q) && m.mapped.contains(q as usize)
            && !s.refused.contains_key(a) {
        let q = choose|q: int|
            from <= q < to && a == #[trigger] m.page_addr(q) && m.mapped.contains(q as usize)
                && !s.refused.contains_key(a);
        assert(q == p);
    }
    if in_pages(m, mid, last, a) {
        let q = choose|q: int| mid <= q < last && a == #[trigger] m.page_addr(q);
        assert(q == p);
    }
    assert(a == m.page_addr(p as int));
    if mid <= p < last {
        assert(in_pages(m, mid, last, a));
    }
}

/// A range that covers a mapping is unmapped as a whole if that ends well: no page of it is in the
/// page table still, as far as the range reaches back to where the memory object would begin.
pub proof fn law_cover_unmaps_whole_range(
    m: MappingView,
    s: SpaceView,
    trim: Range<usize>,
    a: usize,
)
    requires
        m.map.wf(),
        m.map.map_size > 0,
        swallows(trim, m),
        trim.start <= a < trim.end,
        a % PAGE_SIZE == 0,
        m.map.offset_of(a as int) >= 0,
        trimmed(m, s, trim, Set::empty(), Map::empty()).4 is Ok,
    ensures
        !trimmed(m, s, trim, Set::empty(), Map::empty()).1.entries.contains_key(a),
{
    let p = page_of(m.map.offset_of(a as int));
    let (from, to) = (first_page(m.map, trim), pages_for(m.map.offset_of(trim.end as int)));
    assert(m.map.page_addr(p) == a);
    assert(from <= p < to);
    lemma_unmap_takes(m.map, s, from, to, p);
}

} // verus!
