//! What is laid out in memory when a CPU boots.
use vstd::prelude::*;

use crate::config::PAGE_SIZE;
use crate::vm::pages::pages_for;

verus! {

/// The storage for the variables of one CPU.
#[derive(Debug)]
pub struct CpuLocalArea {
    /// What it holds at first.
    pub image: Vec<u8>,
    /// The address where it ends. The word there holds this address itself, and the CPU finds its
    /// variables by it.
    pub tend: usize,
}

/// Lays out the variables of a CPU at an address: those with an initial value, and then `tbss_size`
/// bytes of zeros.
pub fn cpu_local_init(addr: usize, tdata: &Vec<u8>, tbss_size: usize) -> (r: CpuLocalArea)
    requires
        addr + tdata.len() + tbss_size <= usize::MAX,
    ensures
        r.image@ == tdata@ + Seq::new(tbss_size as nat, |i: int| 0u8),
        r.tend == addr + tdata.len() + tbss_size,
{
    let tbss = addr + tdata.len();
    let tend = tbss + tbss_size;
    let mut image: Vec<u8> = Vec::new();
    for i in 0..tdata.len()
        invariant
            image@ == tdata@.take(i as int),
    {
        image.push(tdata[i]);
        assert(image@ =~= tdata@.take(i + 1));
    }
    assert(image@ =~= tdata@ + Seq::new(0, |i: int| 0u8));
    for i in 0..tbss_size
        invariant
            image@ == tdata@ + Seq::new(i as nat, |i: int| 0u8),
    {
        image.push(0);
        assert(image@ =~= tdata@ + Seq::new((i + 1) as nat, |i: int| 0u8));
    }
    CpuLocalArea { image, tend }
}

/// The number of pages that the variables of an application processor take.
pub fn cpu_local_pages(tdata_size: usize, tbss_size: usize) -> (r: usize)
    requires
        tdata_size + tbss_size + PAGE_SIZE - 1 <= usize::MAX,
    ensures
        r == pages_for(tdata_size + tbss_size),
{
    let cpu_local_size = tdata_size + tbss_size;
    (cpu_local_size + (PAGE_SIZE - 1)) / PAGE_SIZE
}

/// Where the addresses of the functions are stored that have to be called when the kernel starts:
/// one after the other, each in a word of 8 bytes.
pub fn init_func_slots(start: usize, end: usize) -> (r: Vec<usize>)
    requires
        start <= end,
    ensures
        r@.len() == (end - start) / 8,
        forall|i: int| 0 <= i < r@.len() ==> #[trigger] r@[i] == start + 8 * i,
{
    let call_len = (end - start) / 8;
    let mut r: Vec<usize> = Vec::new();
    for i in 0..call_len
        invariant
            call_len == (end - start) / 8,
            start <= end,
            r@.len() == i,
            forall|k: int| 0 <= k < i ==> #[trigger] r@[k] == start + 8 * k,
    {
        r.push(start + 8 * i);
    }
    r
}

} // verus!
