//! Addresses and the pages that they lie in.
use core::ops::Range;
use vstd::prelude::*;

use crate::config::PAGE_SIZE;

verus! {

/// The number of the page that an offset lies in.
pub open spec fn page_of(offset: int) -> int {
    offset / (PAGE_SIZE as int)
}

/// The number of pages that it takes to hold so many bytes.
pub open spec fn pages_for(size: int) -> int {
    (size + PAGE_SIZE - 1) / (PAGE_SIZE as int)
}

/// The numbers of the pages that a range of offsets touches.
pub fn get_page_idx_range(range: &Range<usize>) -> (r: Range<usize>)
    requires
        range.end + PAGE_SIZE - 1 <= usize::MAX,
    ensures
        r.start == page_of(range.start as int),
        r.end == pages_for(range.end as int),
{
    (range.start / PAGE_SIZE)..((range.end + (PAGE_SIZE - 1)) / PAGE_SIZE)
}

/// Whether a number lies in a range.
pub open spec fn within(r: Range<usize>, x: int) -> bool {
    r.start <= x < r.end
}

/// Whether two ranges meet.
pub open spec fn overlap(a: Range<usize>, b: Range<usize>) -> bool {
    &&& a.start < a.end
    &&& b.start < b.end
    &&& a.start < b.end
    &&& b.start < a.end
}

/// Two ranges meet if and only if they have a number in common.
pub proof fn law_overlap_is_common(a: Range<usize>, b: Range<usize>)
    ensures
        overlap(a, b) <==> exists|x: int| #[trigger] within(a, x) && within(b, x),
{
    let x = if a.start >= b.start {
        a.start as int
    } else {
        b.start as int
    };
    assert(overlap(a, b) ==> within(a, x) && within(b, x));
}

/// Determines whether two ranges are intersected. An empty one never is.
pub fn is_intersected(a: &Range<usize>, b: &Range<usize>) -> (r: bool)
    ensures
        r == overlap(*a, *b),
{
    let start = if a.start >= b.start {
        a.start
    } else {
        b.start
    };
    let end = if a.end <= b.end {
        a.end
    } else {
        b.end
    };
    start < end
}

/// An offset lies in its page.
pub proof fn law_offset_is_in_page(offset: int)
    ensures
        page_of(offset) * PAGE_SIZE <= offset < (page_of(offset) + 1) * PAGE_SIZE,
{
}

/// So many bytes fit into the pages that are counted for them, and would not fit into one less.
pub proof fn law_pages_are_just_enough(size: int)
    ensures
        pages_for(size) * PAGE_SIZE >= size,
        (pages_for(size) - 1) * PAGE_SIZE < size,
{
}

} // verus!
