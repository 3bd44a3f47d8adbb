use asterinas::error::{Errno, Error};
use asterinas::vm::mapping::VmMappingInner;
use asterinas::vm::options::VmarMapOptions;
use asterinas::vm::pages::{get_page_idx_range, is_intersected};
use asterinas::vm::perms::{Rights, VmPerm};
use asterinas::vm::space::{PageEntry, VmSpace};
use asterinas::vm::usize_set::UsizeSet;
use asterinas::vm::vm_mapping::VmMapping;
use asterinas::vm::vmar::VmMappings;
use asterinas::vm::vmo::{VmFrame, Vmo};
use std::cell::Cell;

const P: usize = 4096;
const RW: VmPerm = VmPerm { read: true, write: true, execute: false };
const RO: VmPerm = VmPerm { read: true, write: false, execute: false };
const ALL: Rights = Rights { read: true, write: true, execute: true, dup: true };

const DENIED: Error = Error { errno: Errno::EACCES, msg: Some("VMO rights check failed") };

fn vmo() -> Vmo {
    Vmo { object: 1, size: 16 * P, rights: ALL, cow: false, denied: DENIED }
}

/// Eight pages at 0x100000 that show the pages from 2 on.
fn mapping() -> VmMapping {
    VmMapping {
        inner: VmMappingInner {
            vmo_offset: 2 * P,
            map_size: 8 * P,
            map_to_addr: 0x100000,
            is_destroyed: false,
            mapped_pages: UsizeSet::new(),
            perm: RW,
        },
        vmo: vmo(),
    }
}

fn frame(n: usize) -> VmFrame {
    VmFrame { paddr: n * P }
}

/// The mapping with all of its pages in the page table.
fn mapped() -> (VmMapping, VmSpace) {
    let mut m = mapping();
    let mut s = VmSpace::new(None);
    for p in 2..10 {
        m.map_one_page(&mut s, p, frame(p), false).unwrap();
    }
    (m, s)
}

fn addr(page: usize) -> usize {
    0x100000 + page * P - 2 * P
}

fn present(s: &VmSpace) -> Vec<usize> {
    (0..16).filter(|p| s.is_mapped(addr(*p))).collect()
}

#[test]
fn pages_that_a_range_touches() {
    assert_eq!(get_page_idx_range(&(0..P)), 0..1);
    assert_eq!(get_page_idx_range(&(P - 1..P + 1)), 0..2);
    assert_eq!(get_page_idx_range(&(2 * P..2 * P)), 2..2);
}

#[test]
fn ranges_that_meet() {
    assert!(is_intersected(&(0..5), &(4..9)));
    assert!(!is_intersected(&(0..5), &(5..9)));
    assert!(!is_intersected(&(3..3), &(0..9)));
}

#[test]
fn page_is_mapped_and_unmapped() {
    let mut m = mapping();
    let mut s = VmSpace::new(None);
    m.map_one_page(&mut s, 4, frame(9), false).unwrap();
    assert!(s.is_writable(addr(4)));
    assert_eq!(s.entries[&addr(4)], PageEntry { frame: frame(9), perm: RW });
    assert_eq!(m.inner.mapped_pages.to_vec(), vec![4]);
    m.unmap_one_page(&mut s, 4).unwrap();
    assert!(!s.is_mapped(addr(4)));
    assert_eq!(m.inner.mapped_pages.to_vec(), Vec::<usize>::new());
}

#[test]
fn refused_page_is_an_error() {
    let mut m = mapping();
    let mut s = VmSpace::new(None);
    s.refused.insert(addr(4), Error::new(Errno::ENOMEM));
    let e = m.map_one_page(&mut s, 4, frame(9), false).unwrap_err();
    assert_eq!(e.error(), Errno::ENOMEM);
    assert_eq!(m.inner.mapped_pages.to_vec(), Vec::<usize>::new());
}

#[test]
fn range_is_unmapped() {
    let (mut m, mut s) = mapped();
    m.unmap(&mut s, &(addr(3)..addr(5)), true).unwrap();
    assert_eq!(present(&s), vec![2, 5, 6, 7, 8, 9]);
    assert!(!m.is_destroyed());
}

#[test]
fn unmapping_all_destroys() {
    let (mut m, mut s) = mapped();
    let range = m.range();
    m.unmap(&mut s, &range, false).unwrap();
    assert!(!m.is_destroyed());
    m.unmap(&mut s, &range, true).unwrap();
    assert!(m.is_destroyed());
    assert_eq!(present(&s), Vec::<usize>::new());
}

#[test]
fn unmapping_ends_at_a_page_that_is_refused() {
    let (mut m, mut s) = mapped();
    s.refused.insert(addr(4), Error::new(Errno::EACCES));
    let range = m.range();
    assert_eq!(m.unmap(&mut s, &range, true).unwrap_err().error(), Errno::EACCES);
    assert_eq!(present(&s), vec![4, 5, 6, 7, 8, 9]);
    assert!(!m.is_destroyed());
}

#[test]
fn read_fault_maps_the_page() {
    let mut m = mapping();
    let mut s = VmSpace::new(None);
    let asked = Cell::new(None);
    let commit = |p: usize, w: bool| {
        asked.set(Some((p, w)));
        Ok(frame(7))
    };
    m.handle_page_fault(&mut s, addr(5) + 123, true, false, &commit).unwrap();
    assert_eq!(asked.get(), Some((5, false)));
    assert_eq!(s.entries[&addr(5)], PageEntry { frame: frame(7), perm: RW });
}

#[test]
fn read_of_a_shared_page_is_read_only() {
    let mut m = mapping();
    m.vmo.cow = true;
    let mut s = VmSpace::new(None);
    let commit = |p: usize, w: bool| Ok(frame(if w { 100 + p } else { p }));
    m.handle_page_fault(&mut s, addr(5), true, false, &commit).unwrap();
    assert_eq!(s.entries[&addr(5)], PageEntry { frame: frame(5), perm: RO });
    m.handle_page_fault(&mut s, addr(5), false, true, &commit).unwrap();
    assert_eq!(s.entries[&addr(5)], PageEntry { frame: frame(105), perm: RW });
}

#[test]
fn faults_that_end_in_errors() {
    let mut s = VmSpace::new(None);
    let never = |_: usize, _: bool| -> Result<VmFrame, Error> { panic!("asked") };
    let mut m = mapping();
    m.vmo.size = 3 * P;
    let e = m.handle_page_fault(&mut s, addr(3), true, false, &never).unwrap_err();
    assert_eq!(e.error(), Errno::EACCES);
    assert_eq!(e.msg, Some("page fault addr is not backed up by a vmo"));
    let mut m = mapping();
    m.vmo.rights.write = false;
    let e = m.handle_page_fault(&mut s, addr(3), true, true, &never).unwrap_err();
    assert_eq!(e.msg, Some("VMO rights check failed"));
    let mut m = mapping();
    let e = m.handle_page_fault(&mut s, addr(10), true, true, &never).unwrap_err();
    assert_eq!((e.error(), e.msg), (Errno::EINVAL, Some("invalid page idx")));
    let mut m = mapping();
    m.inner.perm = RO;
    let e = m.handle_page_fault(&mut s, addr(3), true, true, &never).unwrap_err();
    assert_eq!((e.error(), e.msg), (Errno::EACCES, Some("perm check fails")));
    let mut m = mapping();
    let fails = |_: usize, _: bool| Err(Error::new(Errno::ENOMEM));
    let e = m.handle_page_fault(&mut s, addr(3), true, true, &fails).unwrap_err();
    assert_eq!(e.error(), Errno::ENOMEM);
    assert_eq!(present(&s), Vec::<usize>::new());
}

#[test]
fn bytes_are_read_from_the_object() {
    let m = mapping();
    let mut at = None;
    m.read_bytes(P + 10, 2 * P, |o| {
        at = Some(o);
        Ok(())
    })
    .unwrap();
    assert_eq!(at, Some(3 * P + 10));
    let e = m.read_bytes(7 * P, P + 1, |_| panic!("read")).unwrap_err();
    assert_eq!(e.msg, Some("invalid page idx"));
    let mut m = mapping();
    m.inner.perm = VmPerm::w();
    let e = m.read_bytes(0, 1, |_| panic!("read")).unwrap_err();
    assert_eq!(e.msg, Some("perm check fails"));
}

#[test]
fn write_copies_shared_pages_first() {
    let mut m = mapping();
    m.vmo.cow = true;
    let mut s = VmSpace::new(None);
    let commit = |p: usize, w: bool| Ok(frame(if w { 100 + p } else { p }));
    m.handle_page_fault(&mut s, addr(4), true, false, &commit).unwrap();
    let mut at = None;
    m.write_bytes(&mut s, P, 2 * P, &commit, |o| {
        at = Some(o);
        Ok(())
    })
    .unwrap();
    assert_eq!(at, Some(3 * P));
    assert_eq!(s.entries[&addr(4)], PageEntry { frame: frame(104), perm: RW });
    assert!(!s.is_mapped(addr(3)));
}

#[test]
fn read_gives_back_what_was_written() {
    let mut m = mapping();
    let mut s = VmSpace::new(None);
    let mut object = vec![0u8; 12 * P];
    let data = [7u8, 8, 9];
    let commit = |p: usize, _: bool| Ok(frame(p));
    m.write_bytes(&mut s, P - 1, data.len(), &commit, |at| {
        object[at..at + 3].copy_from_slice(&data);
        Ok(())
    })
    .unwrap();
    let mut buf = [0u8; 3];
    m.read_bytes(P - 1, buf.len(), |at| {
        buf.copy_from_slice(&object[at..at + 3]);
        Ok(())
    })
    .unwrap();
    assert_eq!(buf, data);
    assert_eq!(object[3 * P - 1..3 * P + 2], data);
}

#[test]
fn page_is_mapped_over_another_as_the_table_says() {
    let mut m = mapping();
    let mut s = VmSpace::new(Some(Error::new(Errno::EINVAL)));
    m.map_one_page(&mut s, 4, frame(9), false).unwrap();
    let e = m.map_one_page(&mut s, 4, frame(10), false).unwrap_err();
    assert_eq!(e.error(), Errno::EINVAL);
    assert_eq!(s.entries[&addr(4)].frame, frame(9));
    m.vmo.cow = true;
    m.map_one_page(&mut s, 4, frame(10), false).unwrap();
    assert_eq!(s.entries[&addr(4)].frame, frame(10));
    let mut s = VmSpace::new(None);
    m.vmo.cow = false;
    m.map_one_page(&mut s, 4, frame(9), false).unwrap();
    m.map_one_page(&mut s, 4, frame(10), false).unwrap();
    assert_eq!(s.entries[&addr(4)].frame, frame(10));
}

#[test]
fn mapping_near_the_end_of_memory() {
    let top = usize::MAX - usize::MAX % P;
    let mut m = mapping();
    m.inner.map_to_addr = top - 8 * P;
    let mut s = VmSpace::new(None);
    assert_eq!(m.range(), top - 8 * P..top);
    m.map_one_page(&mut s, 9, frame(9), false).unwrap();
    assert!(s.is_mapped(top - P));
    let commit = |p: usize, _: bool| Ok(frame(p));
    m.handle_page_fault(&mut s, top - 2 * P + 5, true, true, &commit).unwrap();
    assert_eq!(s.entries[&(top - 2 * P)].frame, frame(8));
}

#[test]
fn write_ends_at_the_first_error() {
    let mut m = mapping();
    m.vmo.cow = true;
    let mut s = VmSpace::new(None);
    let commit = |p: usize, w: bool| if w { Err(Error::new(Errno::ENOMEM)) } else { Ok(frame(p)) };
    m.handle_page_fault(&mut s, addr(4), true, false, &commit).unwrap();
    let e = m.write_bytes(&mut s, P, 2 * P, &commit, |_| panic!("written")).unwrap_err();
    assert_eq!(e.error(), Errno::ENOMEM);
    let e = m.write_bytes(&mut s, 8 * P, 1, &commit, |_| panic!("written")).unwrap_err();
    assert_eq!(e.msg, Some("invalid page idx"));
}

#[test]
fn page_table_is_set_to_read_only() {
    let (m, mut s) = mapped();
    s.refused.insert(addr(8), Error::new(Errno::EACCES));
    assert_eq!(m.set_pt_read_only(&mut s).unwrap_err().error(), Errno::EACCES);
    assert!(!s.is_writable(addr(7)));
    assert!(s.is_writable(addr(9)));
    s.refused.clear();
    m.set_pt_read_only(&mut s).unwrap();
    assert!(!s.is_writable(addr(9)));
    let mut m = mapping();
    m.inner.perm = RO;
    m.set_pt_read_only(&mut s).unwrap();
}

fn parent(m: VmMapping) -> VmMappings {
    let mut parent = VmMappings::new();
    parent.insert(m.map_to_addr(), m);
    parent
}

fn pieces(parent: &VmMappings) -> Vec<(usize, usize, usize, VmPerm)> {
    parent
        .mappings
        .values()
        .map(|m| (m.map_to_addr(), m.map_size(), m.vmo_offset(), m.inner.perm))
        .collect()
}

#[test]
fn protecting_the_middle_cuts_in_three() {
    let (m, mut s) = mapped();
    let mut parent = parent(m);
    VmMapping::protect(0x100000, RO, &(addr(4)..addr(6)), &mut parent, &mut s).unwrap();
    assert_eq!(
        pieces(&parent),
        vec![
            (addr(2), 2 * P, 2 * P, RW),
            (addr(4), 2 * P, 4 * P, RO),
            (addr(6), 4 * P, 6 * P, RW),
        ]
    );
    assert!(s.is_writable(addr(3)));
    assert!(!s.is_writable(addr(4)));
    assert!(!s.is_writable(addr(5)));
    assert!(s.is_writable(addr(6)));
}

#[test]
fn protecting_an_end_cuts_in_two() {
    let (m, mut s) = mapped();
    let mut left = parent(m);
    VmMapping::protect(0x100000, RO, &(addr(2)..addr(3)), &mut left, &mut s).unwrap();
    assert_eq!(pieces(&left), vec![(addr(2), P, 2 * P, RO), (addr(3), 7 * P, 3 * P, RW)]);
    let (m, mut s) = mapped();
    let mut right = parent(m);
    VmMapping::protect(0x100000, RO, &(addr(9)..addr(10)), &mut right, &mut s).unwrap();
    assert_eq!(pieces(&right), vec![(addr(2), 7 * P, 2 * P, RW), (addr(9), P, 9 * P, RO)]);
}

#[test]
fn protecting_all_needs_no_cut() {
    let (mut m, mut s) = mapped();
    m.vmo.rights.dup = false;
    let mut parent = parent(m);
    VmMapping::protect(0x100000, RO, &(addr(2)..addr(10)), &mut parent, &mut s).unwrap();
    assert_eq!(pieces(&parent), vec![(addr(2), 8 * P, 2 * P, RO)]);
    assert!(!s.is_writable(addr(9)));
}

#[test]
fn protecting_needs_rights() {
    let (mut m, mut s) = mapped();
    m.vmo.rights.dup = false;
    m.vmo.rights.execute = false;
    let mut parent = parent(m);
    let rx = VmPerm { read: true, write: false, execute: true };
    let range = addr(2)..addr(4);
    let e = VmMapping::protect(0x100000, rx, &range, &mut parent, &mut s).unwrap_err();
    assert_eq!(e.msg, Some("VMO rights check failed"));
    let e = VmMapping::protect(0x100000, RO, &range, &mut parent, &mut s).unwrap_err();
    assert_eq!(e.msg, Some("VMO rights check failed"));
    VmMapping::protect(0x100000, RW, &range, &mut parent, &mut s).unwrap();
    assert_eq!(pieces(&parent), vec![(addr(2), 8 * P, 2 * P, RW)]);
}

#[test]
fn trim_that_misses_changes_nothing() {
    let (mut m, mut s) = mapped();
    let (mut remove, mut append) = (UsizeSet::new(), VmMappings::new());
    m.trim_mapping(&mut s, &(addr(10)..addr(12)), &mut remove, &mut append).unwrap();
    assert_eq!(m.map_size(), 8 * P);
    assert_eq!(remove.to_vec(), Vec::<usize>::new());
    assert_eq!(pieces(&append), vec![]);
}

#[test]
fn trim_that_covers_destroys() {
    let (mut m, mut s) = mapped();
    let (mut remove, mut append) = (UsizeSet::new(), VmMappings::new());
    m.trim_mapping(&mut s, &(addr(2) - P..addr(12)), &mut remove, &mut append).unwrap();
    assert!(m.is_destroyed());
    assert_eq!(remove.to_vec(), vec![addr(2)]);
    assert_eq!(pieces(&append), vec![]);
    assert_eq!(present(&s), Vec::<usize>::new());
}

#[test]
fn trim_past_the_mapping_unmaps_the_whole_range() {
    let (mut m, mut s) = mapped();
    for page in [0, 1, 10, 11, 12] {
        s.map(addr(page), frame(page), RW).unwrap();
    }
    let (mut remove, mut append) = (UsizeSet::new(), VmMappings::new());
    m.trim_mapping(&mut s, &(addr(2)..addr(12)), &mut remove, &mut append).unwrap();
    assert!(m.is_destroyed());
    assert_eq!(remove.to_vec(), vec![addr(2)]);
    assert_eq!(present(&s), vec![0, 1, 12]);
    let (mut m, mut s) = mapped();
    for page in [0, 1] {
        s.map(addr(page), frame(page), RW).unwrap();
    }
    m.trim_mapping(&mut s, &(addr(1)..addr(10)), &mut remove, &mut append).unwrap();
    assert_eq!(present(&s), vec![0]);
}

#[test]
fn part_is_set_to_read_only_alone() {
    let (m, mut s) = mapped();
    let mut parent = parent(m);
    let rx = VmPerm { read: true, write: true, execute: true };
    VmMapping::protect(0x100000, rx, &(addr(4)..addr(6)), &mut parent, &mut s).unwrap();
    let left = parent.get(addr(2)).unwrap();
    assert_eq!(left.inner.mapped_pages.to_vec(), vec![2, 3]);
    left.set_pt_read_only(&mut s).unwrap();
    assert!(!s.is_writable(addr(2)) && !s.is_writable(addr(3)));
    assert_eq!(s.entries[&addr(4)].perm, rx);
    assert_eq!(s.entries[&addr(7)].perm, RW);
}

#[test]
fn protecting_as_it_is_looks_at_no_range() {
    let (m, mut s) = mapped();
    let mut parent = parent(m);
    VmMapping::protect(0x100000, RW, &(5..3), &mut parent, &mut s).unwrap();
    assert_eq!(pieces(&parent), vec![(addr(2), 8 * P, 2 * P, RW)]);
}

#[test]
fn trim_from_left() {
    let (mut m, mut s) = mapped();
    let (mut remove, mut append) = (UsizeSet::new(), VmMappings::new());
    m.trim_mapping(&mut s, &(addr(2)..addr(5)), &mut remove, &mut append).unwrap();
    assert_eq!(remove.to_vec(), vec![addr(2)]);
    assert_eq!(pieces(&append), vec![(addr(5), 5 * P, 5 * P, RW)]);
    assert_eq!(m.map_to_addr(), addr(5));
    assert_eq!(present(&s), vec![5, 6, 7, 8, 9]);
}

#[test]
fn trim_from_right() {
    let (mut m, mut s) = mapped();
    let (mut remove, mut append) = (UsizeSet::new(), VmMappings::new());
    m.trim_mapping(&mut s, &(addr(7)..addr(15)), &mut remove, &mut append).unwrap();
    assert_eq!(remove.to_vec(), Vec::<usize>::new());
    assert_eq!(pieces(&append), vec![]);
    assert_eq!((m.map_to_addr(), m.map_size(), m.vmo_offset()), (addr(2), 5 * P, 2 * P));
    assert_eq!(present(&s), vec![2, 3, 4, 5, 6]);
}

#[test]
fn trim_inside_splits() {
    let (mut m, mut s) = mapped();
    let (mut remove, mut append) = (UsizeSet::new(), VmMappings::new());
    m.trim_mapping(&mut s, &(addr(4)..addr(6)), &mut remove, &mut append).unwrap();
    assert_eq!(remove.to_vec(), Vec::<usize>::new());
    assert_eq!((m.map_to_addr(), m.map_size()), (addr(2), 2 * P));
    assert_eq!(pieces(&append), vec![(addr(6), 4 * P, 6 * P, RW)]);
    // The pages of both parts have to be mapped anew.
    assert_eq!(present(&s), Vec::<usize>::new());
    assert_eq!(m.inner.mapped_pages.to_vec(), Vec::<usize>::new());
    let right = append.get(addr(6)).unwrap();
    assert_eq!(right.inner.mapped_pages.to_vec(), Vec::<usize>::new());
}

#[test]
fn trim_up_to_the_end_leaves_one_part() {
    let (mut m, mut s) = mapped();
    m.vmo.rights.dup = false;
    let (mut remove, mut append) = (UsizeSet::new(), VmMappings::new());
    m.trim_mapping(&mut s, &(addr(7)..addr(10)), &mut remove, &mut append).unwrap();
    assert_eq!((m.map_to_addr(), m.map_size()), (addr(2), 5 * P));
    assert_eq!(pieces(&append), vec![]);
    assert_eq!(present(&s), vec![2, 3, 4, 5, 6]);
    assert_eq!(m.inner.mapped_pages.to_vec(), vec![2, 3, 4, 5, 6]);
}

#[test]
fn pages_that_cannot_be_unmapped_stay_listed() {
    let (mut m, mut s) = mapped();
    for page in [3, 8] {
        s.refused.insert(addr(page), Error::new(Errno::EINVAL));
    }
    let (mut remove, mut append) = (UsizeSet::new(), VmMappings::new());
    m.trim_mapping(&mut s, &(addr(4)..addr(6)), &mut remove, &mut append).unwrap();
    assert_eq!(present(&s), vec![3, 8]);
    assert_eq!(m.inner.mapped_pages.to_vec(), vec![3]);
    assert_eq!(append.get(addr(6)).unwrap().inner.mapped_pages.to_vec(), vec![8]);
}

#[test]
fn trim_inside_needs_a_second_reference() {
    let (mut m, mut s) = mapped();
    m.vmo.rights.dup = false;
    let (mut remove, mut append) = (UsizeSet::new(), VmMappings::new());
    let e = m.trim_mapping(&mut s, &(addr(4)..addr(6)), &mut remove, &mut append).unwrap_err();
    assert_eq!(e.error(), Errno::EACCES);
    assert_eq!(m.map_size(), 8 * P);
}

#[test]
fn clone_needs_the_right_to() {
    let mut m = mapping();
    assert_eq!(m.try_clone().unwrap_or_else(|_| panic!("no clone")).map_size(), 8 * P);
    m.vmo.rights.dup = false;
    assert!(m.try_clone().is_err());
}

#[test]
fn child_shows_the_same_part() {
    let (m, _) = mapped();
    let child = m
        .new_cow(|vmo, range| {
            assert_eq!(range, 0..16 * P);
            Ok(Vmo { object: 2, cow: true, ..vmo })
        })
        .unwrap_or_else(|_| panic!("no child"));
    assert_eq!((child.map_to_addr(), child.map_size(), child.vmo_offset()), (addr(2), 8 * P, 2 * P));
    assert_eq!(child.vmo().object, 2);
    assert_eq!(child.inner.mapped_pages.to_vec(), Vec::<usize>::new());
    assert!(m.new_cow(|_, _| Err(Error::new(Errno::ENOMEM))).is_err());
}

fn refuse(options: VmarMapOptions) -> Error {
    let mut parent = VmMappings::new();
    options.build(&mut parent, |_, _| Ok(()), |_, _, _, _, _| panic!("allocated")).unwrap_err()
}

#[test]
fn options_are_checked() {
    let options = VmarMapOptions::new(vmo(), RW);
    assert_eq!(refuse(options.align(100)).msg, Some("invalid align"));
    assert_eq!(refuse(options.align(0)).msg, Some("invalid align"));
    assert_eq!(refuse(options.align(3 * P)).msg, Some("invalid align"));
    assert_eq!(refuse(options.vmo_offset(5)).msg, Some("invalid vmo offset"));
    let past = options.vmo.size + P;
    assert_eq!(refuse(options.vmo_offset(past)).msg, Some("invalid vmo offset"));
    assert_eq!(refuse(options.offset(P).align(2 * P)).msg, Some("invalid offset"));
    assert_eq!(
        refuse(options.can_overwrite(true)).msg,
        Some("offset can not be none when can overwrite is true")
    );
    let mut weak = vmo();
    weak.rights.write = false;
    let e = refuse(VmarMapOptions::new(weak, RW));
    assert_eq!((e.error(), e.msg), (Errno::EACCES, Some("VMO rights check failed")));
}

#[test]
fn mapping_is_built_where_there_is_room() {
    let mut parent = VmMappings::new();
    let at = VmarMapOptions::new(vmo(), RW)
        .vmo_offset(P)
        .size(3 * P)
        .build(&mut parent, |_, _| panic!("asked"), |vmo_size, size, offset, align, overwrite| {
            assert_eq!((vmo_size, size, offset, align, overwrite), (16 * P, 3 * P, None, P, false));
            Ok(0x7000)
        })
        .unwrap();
    assert_eq!(at, 0x7000);
    assert_eq!(pieces(&parent), vec![(0x7000, 3 * P, P, RW)]);
    assert!(!parent.get(0x7000).unwrap().is_destroyed());
}

#[test]
fn place_of_the_mapping_is_asked_for() {
    let mut parent = VmMappings::new();
    let options = VmarMapOptions::new(vmo(), RO).size(P).offset(4 * P).can_overwrite(true);
    let mut range = None;
    let e = options
        .build(
            &mut parent,
            |r, overwrite| {
                range = Some((r, overwrite));
                Err(Error::new(Errno::EACCES))
            },
            |_, _, _, _, _| panic!("allocated"),
        )
        .unwrap_err();
    assert_eq!(e.error(), Errno::EACCES);
    assert_eq!(range, Some((4 * P..20 * P, true)));
    let e = options
        .build(&mut parent, |_, _| Ok(()), |_, _, _, _, _| Err(Error::new(Errno::ENOMEM)))
        .unwrap_err();
    assert_eq!(e.error(), Errno::ENOMEM);
    assert_eq!(pieces(&parent), vec![]);
    options.build(&mut parent, |_, _| Ok(()), |_, _, o, _, _| Ok(o.unwrap())).unwrap();
    assert_eq!(pieces(&parent), vec![(4 * P, P, 0, RO)]);
}
