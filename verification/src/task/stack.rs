//! Kernel stacks and the guard page below each of them.
use vstd::prelude::*;

use crate::config::PAGE_SIZE;
use crate::error::Error;

verus! {

/// A run of physically contiguous frames.
#[derive(Clone, Copy, PartialEq, Eq, Debug, Structural)]
pub struct VmSegment {
    pub start_paddr: usize,
    pub nframes: usize,
}

impl VmSegment {
    /// The physical address past the last byte.
    pub open spec fn end(&self) -> int {
        self.start_paddr + self.nframes * PAGE_SIZE
    }

    /// Whether the segment ends within the address range of the machine.
    pub open spec fn wf(&self) -> bool {
        self.end() <= usize::MAX
    }

    /// The physical address past the last byte.
    pub fn end_paddr(&self) -> (r: usize)
        requires
            self.wf(),
        ensures
            r == self.end(),
    {
        self.start_paddr + self.nframes * PAGE_SIZE
    }
}

/// Where the kernel sees physical memory: at a fixed distance.
#[derive(Clone, Copy, PartialEq, Eq, Debug, Structural)]
pub struct LinearMapping {
    pub base: usize,
}

impl LinearMapping {
    /// The kernel's address of a physical address.
    pub fn paddr_to_vaddr(&self, paddr: usize) -> (vaddr: usize)
        requires
            self.base + paddr <= usize::MAX,
        ensures
            vaddr == self.base + paddr,
    {
        self.base + paddr
    }
}

/// The flags of the entries of the kernel's page table, by virtual address.
pub struct KernelPageTable {
    pub entries: std::collections::BTreeMap<usize, u64>,
}

impl KernelPageTable {
    /// Sets the flags of the entry at `vaddr` and gives back those it had. There is nothing to
    /// protect where there is no entry.
    pub fn protect(&mut self, vaddr: usize, flags: u64) -> (r: Option<u64>)
        ensures
            old(self).entries@.contains_key(vaddr) ==> r == Some(old(self).entries@[vaddr])
                && final(self).entries@ == old(self).entries@.insert(vaddr, flags),
            !old(self).entries@.contains_key(vaddr) ==> r is None && final(self).entries@ == old(
                self,
            ).entries@,
    {
        broadcast use vstd::std_specs::btree::group_btree_axioms;
        broadcast use vstd::laws_cmp::group_laws_cmp;

        if self.entries.contains_key(&vaddr) {
            self.entries.insert(vaddr, flags)
        } else {
            None
        }
    }
}

/// The flags of a page that nothing may touch.
pub const ABSENT: u64 = 0;

/// The stack that a task runs on in the kernel. With a guard page, the lowest page of the segment
/// is not part of the stack: it is made inaccessible, so that a stack that grows too far faults.
pub struct KernelStack {
    pub segment: VmSegment,
    /// The flags that the guard page had, if there is one.
    pub old_guard_page_flag: Option<u64>,
}

impl KernelStack {
    /// The virtual address of the lowest page of the segment.
    pub open spec fn guard_vaddr(segment: VmSegment, linear: LinearMapping) -> int {
        linear.base + segment.start_paddr
    }

    /// How many frames a stack of `stack_size` bytes takes, one more with a guard page.
    pub fn frames(stack_size: usize, guard_page: bool) -> (n: usize)
        ensures
            n == stack_size / PAGE_SIZE + if guard_page {
                1int
            } else {
                0int
            },
    {
        if guard_page {
            stack_size / PAGE_SIZE + 1
        } else {
            stack_size / PAGE_SIZE
        }
    }

    /// A stack without a guard page, out of the frames that were allocated for it.
    pub fn new(alloc: Result<VmSegment, Error>) -> (r: Result<KernelStack, Error>)
        ensures
            match alloc {
                Ok(segment) => r == Ok::<KernelStack, Error>(
                    KernelStack { segment, old_guard_page_flag: None },
                ),
                Err(e) => r == Err::<KernelStack, Error>(e),
            },
    {
        match alloc {
            Ok(segment) => Ok(KernelStack { segment, old_guard_page_flag: None }),
            Err(e) => Err(e),
        }
    }

    /// A stack with a guard page, out of the frames that were allocated for it: the lowest page
    /// becomes inaccessible.
    pub fn new_with_guard_page(
        alloc: Result<VmSegment, Error>,
        kernel_pt: &mut KernelPageTable,
        linear: &LinearMapping,
    ) -> (r: Result<KernelStack, Error>)
        requires
            alloc matches Ok(segment) ==> {
                &&& KernelStack::guard_vaddr(segment, *linear) <= usize::MAX
                &&& old(kernel_pt).entries@.contains_key(
                    KernelStack::guard_vaddr(segment, *linear) as usize,
                )
            },
        ensures
            match alloc {
                Ok(segment) => {
                    let vaddr = KernelStack::guard_vaddr(segment, *linear) as usize;
                    &&& r == Ok::<KernelStack, Error>(
                        KernelStack {
                            segment,
                            old_guard_page_flag: Some(old(kernel_pt).entries@[vaddr]),
                        },
                    )
                    &&& final(kernel_pt).entries@ == old(kernel_pt).entries@.insert(vaddr, ABSENT)
                },
                Err(e) => r == Err::<KernelStack, Error>(e) && final(kernel_pt).entries@ == old(
                    kernel_pt,
                ).entries@,
            },
    {
        match alloc {
            Ok(segment) => {
                let flag = KernelStack::protect_guard_page(&segment, kernel_pt, linear, ABSENT);
                Ok(KernelStack { segment, old_guard_page_flag: Some(flag) })
            },
            Err(e) => Err(e),
        }
    }

    /// The physical address past the stack, where it begins to grow down from.
    pub fn end_paddr(&self) -> (r: usize)
        requires
            self.segment.wf(),
        ensures
            r == self.segment.end(),
    {
        self.segment.end_paddr()
    }

    /// Whether there is a guard page.
    pub fn has_guard_page(&self) -> (r: bool)
        ensures
            r == (self.old_guard_page_flag is Some),
    {
        self.old_guard_page_flag.is_some()
    }

    /// Sets the flags of the guard page and gives back those it had.
    fn protect_guard_page(
        segment: &VmSegment,
        kernel_pt: &mut KernelPageTable,
        linear: &LinearMapping,
        flags: u64,
    ) -> (old_flags: u64)
        requires
            KernelStack::guard_vaddr(*segment, *linear) <= usize::MAX,
            old(kernel_pt).entries@.contains_key(
                KernelStack::guard_vaddr(*segment, *linear) as usize,
            ),
        ensures
            ({
                let vaddr = KernelStack::guard_vaddr(*segment, *linear) as usize;
                &&& old_flags == old(kernel_pt).entries@[vaddr]
                &&& final(kernel_pt).entries@ == old(kernel_pt).entries@.insert(vaddr, flags)
            }),
    {
        kernel_pt.protect(linear.paddr_to_vaddr(segment.start_paddr), flags).unwrap()
    }

    /// Gives the stack up: the guard page gets its flags back.
    pub fn release(self, kernel_pt: &mut KernelPageTable, linear: &LinearMapping)
        requires
            self.old_guard_page_flag is Some ==> {
                &&& KernelStack::guard_vaddr(self.segment, *linear) <= usize::MAX
                &&& old(kernel_pt).entries@.contains_key(
                    KernelStack::guard_vaddr(self.segment, *linear) as usize,
                )
            },
        ensures
            match self.old_guard_page_flag {
                Some(flag) => final(kernel_pt).entries@ == old(kernel_pt).entries@.insert(
                    KernelStack::guard_vaddr(self.segment, *linear) as usize,
                    flag,
                ),
                None => final(kernel_pt).entries@ == old(kernel_pt).entries@,
            },
    {
        match self.old_guard_page_flag {
            Some(flag) => {
                let _ = KernelStack::protect_guard_page(&self.segment, kernel_pt, linear, flag);
            },
            None => {},
        }
    }
}

/// Giving up a stack with a guard page leaves the kernel's page table as it was before the stack
/// was made: what the release writes undoes what the making wrote.
pub proof fn law_release_restores_page_table(entries: Map<usize, u64>, vaddr: usize)
    requires
        entries.contains_key(vaddr),
    ensures
        entries.insert(vaddr, ABSENT).insert(vaddr, entries[vaddr]) == entries,
{
    assert(entries.insert(vaddr, ABSENT).insert(vaddr, entries[vaddr]) =~= entries);
}

/// The guard page is the lowest page of the segment, where the kernel sees it: above it the segment
/// has all its other frames, which are the stack.
pub proof fn law_guard_page_is_lowest(segment: VmSegment, linear: LinearMapping)
    requires
        segment.nframes > 0,
    ensures
        KernelStack::guard_vaddr(segment, linear) == linear.base + segment.start_paddr,
        linear.base + segment.end() - (KernelStack::guard_vaddr(segment, linear) + PAGE_SIZE) == (
        segment.nframes - 1) * PAGE_SIZE,
{
}

} // verus!
