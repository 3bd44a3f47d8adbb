//! Options for creating a new mapping.
use core::ops::Range;
use vstd::arithmetic::power2::is_pow2;
use vstd::prelude::*;

use crate::config::PAGE_SIZE;
use crate::error::{Errno, Error};
use crate::vm::mapping::{MapView, VmMappingInner};
use crate::vm::perms::{Rights, VmPerm};
use crate::vm::usize_set::UsizeSet;
use crate::vm::vm_mapping::{MappingView, VmMapping};
use crate::vm::vmar::VmMappings;
use crate::vm::vmo::Vmo;

verus! {

/// Options for creating a new mapping. The mapping is not allowed to overlap
/// with any child address region. And unless specified otherwise, it is not allowed
/// to overlap with any existing mapping, either.
#[derive(Clone, Copy, Debug)]
pub struct VmarMapOptions {
    pub vmo: Vmo,
    pub perms: VmPerm,
    pub vmo_offset: usize,
    pub size: usize,
    pub offset: Option<usize>,
    pub align: usize,
    pub can_overwrite: bool,
}

/// An error about options that do not go together.
pub open spec fn invalid(msg: &'static str) -> Error {
    Error { errno: Errno::EINVAL, msg: Some(msg) }
}

/// What is wrong with the options themselves, whatever is mapped already.
pub open spec fn options_check(o: VmarMapOptions) -> Result<(), Error> {
    if o.align % PAGE_SIZE != 0 || !is_pow2(o.align as int) {
        Err(invalid("invalid align"))
    } else if o.vmo_offset % o.align != 0 || o.vmo_offset > o.vmo.size {
        Err(invalid("invalid vmo offset"))
    } else if o.offset matches Some(offset) && offset % o.align != 0 {
        Err(invalid("invalid offset"))
    } else if !o.vmo.rights.holds(Rights::of(o.perms)) {
        Err(o.vmo.denied)
    } else if o.can_overwrite && o.offset is None {
        Err(invalid("offset can not be none when can overwrite is true"))
    } else {
        Ok(())
    }
}

/// The space that the mapping needs where its place is given: at least for the whole memory object.
pub open spec fn needed_range(o: VmarMapOptions) -> Range<usize> {
    let offset = o.offset->Some_0;
    let size = if o.size >= o.vmo.size {
        o.size
    } else {
        o.vmo.size
    };
    offset..(offset + size) as usize
}

/// The mapping that options describe, at an address.
pub open spec fn mapping_at(o: VmarMapOptions, addr: usize) -> MappingView {
    MappingView {
        map: MapView {
            vmo_offset: o.vmo_offset,
            map_size: o.size,
            map_to_addr: addr,
            is_destroyed: false,
            mapped: Set::empty(),
            perm: o.perms,
        },
        vmo: o.vmo,
    }
}

/// Mappings after one was built, and where: `allowed` says whether it may lie where it was asked
/// to, and `addr` where it was given a place.
pub open spec fn built(
    parent: Map<usize, MappingView>,
    o: VmarMapOptions,
    allowed: Result<(), Error>,
    addr: Result<usize, Error>,
) -> (Map<usize, MappingView>, Result<usize, Error>) {
    match allowed {
        Err(e) => (parent, Err(e)),
        Ok(()) => match addr {
            Err(e) => (parent, Err(e)),
            Ok(a) => (parent.insert(a, mapping_at(o, a)), Ok(a)),
        },
    }
}

/// Whether a number is a power of two.
fn is_power_of_two(n: usize) -> (r: bool)
    ensures
        r == is_pow2(n as int),
        r ==> n > 0,
{
    reveal(is_pow2);
    if n == 0 {
        return false;
    }
    let mut left: usize = n;
    while left % 2 == 0
        invariant
            left > 0,
            is_pow2(left as int) == is_pow2(n as int),
        decreases left,
    {
        assert(is_pow2(left as int) == is_pow2(left as int / 2)) by {
            reveal(is_pow2);
        }
        left = left / 2;
    }
    left == 1
}

impl VmarMapOptions {
    /// Creates a default set of options with the VMO and the memory access
    /// permissions.
    ///
    /// The VMO must have access rights that correspond to the memory
    /// access permissions. For example, if `perms` contains the permission to write,
    /// then the rights should contain the right to write.
    pub fn new(vmo: Vmo, perms: VmPerm) -> (r: Self)
        ensures
            r == (VmarMapOptions {
                vmo,
                perms,
                vmo_offset: 0,
                size: vmo.size,
                offset: None,
                align: PAGE_SIZE,
                can_overwrite: false,
            }),
    {
        let size = vmo.size();
        VmarMapOptions {
            vmo,
            perms,
            vmo_offset: 0,
            size,
            offset: None,
            align: PAGE_SIZE,
            can_overwrite: false,
        }
    }

    /// Sets the offset of the first memory page in the VMO that is to be
    /// mapped.
    ///
    /// The offset must be page-aligned and within the VMO.
    ///
    /// The default value is zero.
    pub fn vmo_offset(self, offset: usize) -> (r: Self)
        ensures
            r == (VmarMapOptions { vmo_offset: offset, ..self }),
    {
        VmarMapOptions { vmo_offset: offset, ..self }
    }

    /// Sets the size of the mapping.
    ///
    /// The size of a mapping may not be equal to that of the VMO.
    /// For example, it is ok to create a mapping whose size is larger than
    /// that of the VMO, although one cannot read from or write to the
    /// part of the mapping that is not backed by the VMO.
    ///
    /// The default value is the size of the VMO.
    pub fn size(self, size: usize) -> (r: Self)
        ensures
            r == (VmarMapOptions { size, ..self }),
    {
        VmarMapOptions { size, ..self }
    }

    /// Sets the mapping's alignment.
    ///
    /// The default value is the page size.
    ///
    /// The provided alignment must be a power of two and a multiple of the
    /// page size.
    pub fn align(self, align: usize) -> (r: Self)
        ensures
            r == (VmarMapOptions { align, ..self }),
    {
        VmarMapOptions { align, ..self }
    }

    /// Sets the mapping's offset inside the address region.
    ///
    /// The offset must satisfy the alignment requirement.
    /// Also, the mapping's range `[offset, offset + size)` must be within
    /// the region.
    ///
    /// If not set, the system will choose an offset automatically.
    pub fn offset(self, offset: usize) -> (r: Self)
        ensures
            r == (VmarMapOptions { offset: Some(offset), ..self }),
    {
        VmarMapOptions { offset: Some(offset), ..self }
    }

    /// Sets whether the mapping can overwrite existing mappings.
    ///
    /// The default value is false.
    ///
    /// If this option is set to true, then the `offset` option must be
    /// set.
    pub fn can_overwrite(self, can_overwrite: bool) -> (r: Self)
        ensures
            r == (VmarMapOptions { can_overwrite, ..self }),
    {
        VmarMapOptions { can_overwrite, ..self }
    }

    /// Creates the mapping.
    ///
    /// All options will be checked at this point. The function `check_vmo_overwrite` tells whether
    /// the mapping may lie in a range, and `allocate` finds a place for it: both know what is
    /// mapped already.
    ///
    /// On success, the virtual address of the new mapping is returned.
    pub fn build<
        F: FnOnce(Range<usize>, bool) -> Result<(), Error>,
        G: FnOnce(usize, usize, Option<usize>, usize, bool) -> Result<usize, Error>,
    >(self, parent: &mut VmMappings, check_vmo_overwrite: F, allocate: G) -> (r: Result<
        usize,
        Error,
    >)
        requires
            options_check(self) is Ok && self.offset is Some ==> {
                &&& self.offset->Some_0 + self.size <= usize::MAX
                &&& self.offset->Some_0 + self.vmo.size <= usize::MAX
                &&& call_requires(check_vmo_overwrite, (needed_range(self), self.can_overwrite))
            },
            options_check(self) is Ok && (self.offset is Some ==> exists|a: Result<(), Error>|
                #[trigger] call_ensures(
                    check_vmo_overwrite,
                    (needed_range(self), self.can_overwrite),
                    a,
                ) && a is Ok) ==> call_requires(
                allocate,
                (self.vmo.size, self.size, self.offset, self.align, self.can_overwrite),
            ),
        ensures
            options_check(self) matches Err(e) ==> r == Err::<usize, Error>(e) && final(parent)@
                == old(parent)@,
            options_check(self) is Ok ==> exists|
                allowed: Result<(), Error>,
                addr: Result<usize, Error>,
            |
                {
                    &&& (final(parent)@, r) == #[trigger] built(old(parent)@, self, allowed, addr)
                    &&& if self.offset is Some {
                        call_ensures(
                            check_vmo_overwrite,
                            (needed_range(self), self.can_overwrite),
                            allowed,
                        )
                    } else {
                        allowed is Ok
                    }
                    &&& allowed is Ok ==> call_ensures(
                        allocate,
                        (self.vmo.size, self.size, self.offset, self.align, self.can_overwrite),
                        addr,
                    )
                },
    {
        let ghost nowhere: Result<usize, Error> = arbitrary();
        let allowed = self.check_options(check_vmo_overwrite);
        if let Err(e) = allowed {
            assert(options_check(self) is Ok ==> built(parent@, self, allowed, nowhere) == (
                parent@,
                Err::<usize, Error>(e),
            ));
            return Err(e);
        }
        assert(allowed is Ok);
        let vm_mapping = match VmMapping::build_mapping(self, allocate) {
            Ok(m) => m,
            Err(e) => {
                assert(built(parent@, self, allowed, Err(e)) == (parent@, Err::<usize, Error>(e)));
                return Err(e);
            },
        };
        let map_to_addr = vm_mapping.map_to_addr();
        parent.insert(map_to_addr, vm_mapping);
        assert(built(old(parent)@, self, allowed, Ok(map_to_addr)) == (
            parent@,
            Ok::<usize, Error>(map_to_addr),
        ));
        Ok(map_to_addr)
    }

    /// Checks whether all options are valid.
    fn check_options<F: FnOnce(Range<usize>, bool) -> Result<(), Error>>(
        &self,
        check_vmo_overwrite: F,
    ) -> (r: Result<(), Error>)
        requires
            options_check(*self) is Ok && self.offset is Some ==> {
                &&& self.offset->Some_0 + self.size <= usize::MAX
                &&& self.offset->Some_0 + self.vmo.size <= usize::MAX
                &&& call_requires(check_vmo_overwrite, (needed_range(*self), self.can_overwrite))
            },
        ensures
            options_check(*self) matches Err(e) ==> r == Err::<(), Error>(e),
            options_check(*self) is Ok ==> if self.offset is Some {
                call_ensures(check_vmo_overwrite, (needed_range(*self), self.can_overwrite), r)
            } else {
                r is Ok
            },
    {
        // Check align.
        if self.align % PAGE_SIZE != 0 || !is_power_of_two(self.align) {
            return Err(Error::with_message(Errno::EINVAL, "invalid align"));
        }
        if self.vmo_offset % self.align != 0 || self.vmo_offset > self.vmo.size() {
            return Err(Error::with_message(Errno::EINVAL, "invalid vmo offset"));
        }
        if let Some(offset) = self.offset {
            if offset % self.align != 0 {
                return Err(Error::with_message(Errno::EINVAL, "invalid offset"));
            }
        }
        if let Err(e) = self.check_perms() {
            return Err(e);
        }
        self.check_overwrite(check_vmo_overwrite)
    }

    /// Checks whether the vmperm is subset of vmo rights.
    fn check_perms(&self) -> (r: Result<(), Error>)
        ensures
            self.vmo.rights.holds(Rights::of(self.perms)) <==> r is Ok,
            r matches Err(e) ==> e == self.vmo.denied,
    {
        let perm_rights = Rights::from_perm(self.perms);
        self.vmo.check_rights(perm_rights)
    }

    /// Checks whether the vmo will overwrite with any existing vmo or address region.
    fn check_overwrite<F: FnOnce(Range<usize>, bool) -> Result<(), Error>>(
        &self,
        check_vmo_overwrite: F,
    ) -> (r: Result<(), Error>)
        requires
            self.offset is Some ==> {
                &&& self.offset->Some_0 + self.size <= usize::MAX
                &&& self.offset->Some_0 + self.vmo.size <= usize::MAX
                &&& call_requires(check_vmo_overwrite, (needed_range(*self), self.can_overwrite))
            },
        ensures
            match self.offset {
                Some(_) => call_ensures(
                    check_vmo_overwrite,
                    (needed_range(*self), self.can_overwrite),
                    r,
                ),
                None => r == (if self.can_overwrite {
                    Err::<(), Error>(invalid("offset can not be none when can overwrite is true"))
                } else {
                    Ok(())
                }),
            },
    {
        match self.offset {
            None => {
                if self.can_overwrite {
                    // If `can_overwrite` is set, the offset cannot be None.
                    return Err(
                        Error::with_message(
                            Errno::EINVAL,
                            "offset can not be none when can overwrite is true",
                        ),
                    );
                }
                // If does not specify the offset, we assume the map can always find suitable free
                // region.
                Ok(())
            },
            Some(offset) => {
                // We should spare enough space at least for the whole vmo.
                let vmo_size = self.vmo.size();
                let size = if self.size >= vmo_size {
                    self.size
                } else {
                    vmo_size
                };
                check_vmo_overwrite(offset..offset + size, self.can_overwrite)
            },
        }
    }
}

impl VmMapping {
    /// The mapping that options describe, where `allocate` finds a place for it.
    pub fn build_mapping<
        G: FnOnce(usize, usize, Option<usize>, usize, bool) -> Result<usize, Error>,
    >(option: VmarMapOptions, allocate: G) -> (r: Result<VmMapping, Error>)
        requires
            call_requires(
                allocate,
                (option.vmo.size, option.size, option.offset, option.align, option.can_overwrite),
            ),
        ensures
            exists|addr: Result<usize, Error>|
                {
                    &&& #[trigger] call_ensures(
                        allocate,
                        (
                            option.vmo.size,
                            option.size,
                            option.offset,
                            option.align,
                            option.can_overwrite,
                        ),
                        addr,
                    )
                    &&& match addr {
                        Ok(a) => r matches Ok(m) && m@ == mapping_at(option, a),
                        Err(e) => r matches Err(e2) && e2 == e,
                    }
                },
    {
        let VmarMapOptions { vmo, perms, vmo_offset, size, offset, align, can_overwrite } = option;
        let vmo_size = vmo.size();
        let map_to_addr = match allocate(vmo_size, size, offset, align, can_overwrite) {
            Ok(addr) => addr,
            Err(e) => {
                return Err(e);
            },
        };
        let vm_mapping_inner = VmMappingInner {
            vmo_offset,
            map_size: size,
            map_to_addr,
            is_destroyed: false,
            mapped_pages: UsizeSet::new(),
            perm: perms,
        };
        Ok(VmMapping { inner: vm_mapping_inner, vmo })
    }
}

/// A mapping that is built never permits more than the rights to its memory object do, begins at a
/// page within the object, and is valid if it was given a page to begin at that is low enough.
pub proof fn law_built_is_valid(o: VmarMapOptions, addr: usize)
    requires
        options_check(o) is Ok,
    ensures
        ({
            let m = mapping_at(o, addr);
            &&& m.vmo.rights.holds(Rights::of(m.map.perm))
            &&& m.map.vmo_offset % PAGE_SIZE == 0
            &&& m.map.vmo_offset <= m.vmo.size
            &&& addr % PAGE_SIZE == 0 && addr + o.size <= usize::MAX && o.vmo_offset + o.size
                + PAGE_SIZE <= usize::MAX ==> m.map.wf()
        }),
{
    let (v, a, p) = (o.vmo_offset as int, o.align as int, PAGE_SIZE as int);
    assert(a > 0) by {
        reveal(is_pow2);
    }
    vstd::arithmetic::div_mod::lemma_fundamental_div_mod(v, a);
    vstd::arithmetic::div_mod::lemma_fundamental_div_mod(a, p);
    assert(v == p * ((a / p) * (v / a))) by (nonlinear_arith)
        requires
            v == a * (v / a),
            a == p * (a / p),
    ;
    vstd::arithmetic::div_mod::lemma_mod_multiples_basic((a / p) * (v / a), p);
    assert(p * ((a / p) * (v / a)) == ((a / p) * (v / a)) * p) by (nonlinear_arith);
}

/// Options are good exactly if the alignment is a power of two and a multiple of the page size, the
/// offsets are multiples of the alignment, the one in the memory object is not past its end, there
/// is the right to each permission, and an offset is given where something may be overwritten.
pub proof fn law_options_are_checked(o: VmarMapOptions)
    ensures
        ({
            let aligned = o.align % PAGE_SIZE == 0 && is_pow2(o.align as int);
            let placed = o.vmo_offset % o.align == 0 && o.vmo_offset <= o.vmo.size && (o.offset
                is None || o.offset->Some_0 % o.align == 0);
            let permitted = (o.perms.read ==> o.vmo.rights.read) && (o.perms.write
                ==> o.vmo.rights.write) && (o.perms.execute ==> o.vmo.rights.execute);
            &&& options_check(o) is Ok <==> aligned && placed && permitted && !(o.can_overwrite
                && o.offset is None)
            &&& options_check(o) matches Err(e) ==> if aligned && placed && !permitted {
                e == o.vmo.denied
            } else {
                e.errno == Errno::EINVAL
            }
        }),
{
}

/// The space that is asked for begins at the given offset and has room for the mapping and for the
/// whole memory object, and for no more than the larger of them.
pub proof fn law_space_holds_both(o: VmarMapOptions)
    requires
        o.offset is Some,
        o.offset->Some_0 + o.size <= usize::MAX,
        o.offset->Some_0 + o.vmo.size <= usize::MAX,
    ensures
        ({
            let r = needed_range(o);
            let len = r.end - r.start;
            &&& Some(r.start) == o.offset
            &&& len >= o.size
            &&& len >= o.vmo.size
            &&& len == o.size || len == o.vmo.size
        }),
{
}

/// A mapping that is built covers as many addresses as asked from the one it was given on, and
/// shows there the bytes of the memory object from the given offset on, with the given permissions.
/// None of its pages is in the page table yet.
pub proof fn law_built_shows_object(o: VmarMapOptions, addr: usize, i: int)
    ensures
        ({
            let m = mapping_at(o, addr);
            &&& m.map.covers(addr + i) <==> 0 <= i < o.size
            &&& m.map.offset_of(addr + i) == o.vmo_offset + i
            &&& m.map.perm == o.perms
            &&& m.vmo == o.vmo
            &&& !m.map.is_destroyed
            &&& forall|p: usize| !#[trigger] m.map.mapped.contains(p)
        }),
{
}

/// Building a mapping adds it under the address that it was given, and changes no other; one that
/// was not allowed or found no place changes nothing.
pub proof fn law_build_adds_one(
    parent: Map<usize, MappingView>,
    o: VmarMapOptions,
    allowed: Result<(), Error>,
    addr: Result<usize, Error>,
    k: usize,
)
    ensures
        ({
            let (after, r) = built(parent, o, allowed, addr);
            &&& r is Ok <==> allowed is Ok && addr is Ok
            &&& r is Ok ==> r == addr && after.contains_key(r->Ok_0)
                && after[r->Ok_0].map.map_to_addr == r->Ok_0
            &&& r is Ok && k == r->Ok_0 ==> after[k] == mapping_at(o, k)
            &&& !(r is Ok && k == r->Ok_0) ==> after.contains_key(k) == parent.contains_key(k)
                && after[k] == parent[k]
            &&& allowed matches Err(e) ==> r == Err::<usize, Error>(e)
            &&& allowed is Ok && addr is Err ==> r == addr
        }),
{
}

} // verus!
