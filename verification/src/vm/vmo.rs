//! The memory object that a mapping shows, as far as mappings depend on it.
use vstd::prelude::*;

use crate::error::Error;
use crate::task::task::Handle;
use crate::vm::perms::Rights;

verus! {

/// A page of physical memory.
#[derive(Clone, Copy, PartialEq, Eq, Debug, Structural)]
pub struct VmFrame {
    pub paddr: usize,
}

/// A memory object and the rights that go with this reference to it.
#[derive(Clone, Copy, Debug)]
pub struct Vmo {
    /// Which object it is.
    pub object: Handle,
    /// The size of the object, in bytes.
    pub size: usize,
    pub rights: Rights,
    /// Whether a page is copied when it is first written.
    pub cow: bool,
    /// The error that comes where a right is missing.
    pub denied: Error,
}

/// The bytes of an object after others were written to it at a place.
pub open spec fn overwritten(bytes: Seq<u8>, place: int, data: Seq<u8>) -> Seq<u8> {
    Seq::new(
        bytes.len(),
        |i: int|
            if place <= i < place + data.len() {
                data[i - place]
            } else {
                bytes[i]
            },
    )
}

impl Vmo {
    /// The size of the object, in bytes.
    pub fn size(&self) -> (r: usize)
        ensures
            r == self.size,
    {
        self.size
    }

    /// Whether a page is copied when it is first written.
    pub fn is_cow_vmo(&self) -> (r: bool)
        ensures
            r == self.cow,
    {
        self.cow
    }

    /// Fails unless the reference has these rights.
    pub fn check_rights(&self, rights: Rights) -> (r: Result<(), Error>)
        ensures
            self.rights.holds(rights) <==> r is Ok,
            r matches Err(e) ==> e == self.denied,
    {
        if self.rights.contains(rights) {
            Ok(())
        } else {
            Err(self.denied)
        }
    }

    /// Makes another reference with the same rights, if there is the right to.
    pub fn dup(&self) -> (r: Result<Vmo, Error>)
        ensures
            self.rights.dup ==> r == Ok::<Vmo, Error>(*self),
            !self.rights.dup ==> r == Err::<Vmo, Error>(self.denied),
    {
        match self.check_rights(Rights { read: false, write: false, execute: false, dup: true }) {
            Ok(()) => Ok(*self),
            Err(e) => Err(e),
        }
    }
}

/// Writing bytes to an object puts them at their place and leaves all others.
pub proof fn law_write_is_local(bytes: Seq<u8>, place: int, data: Seq<u8>, i: int)
    requires
        0 <= place,
        place + data.len() <= bytes.len(),
        0 <= i < bytes.len(),
    ensures
        ({
            let after = overwritten(bytes, place, data);
            &&& after.len() == bytes.len()
            &&& place <= i < place + data.len() ==> after[i] == data[i - place]
            &&& !(place <= i < place + data.len()) ==> after[i] == bytes[i]
        }),
{
}

} // verus!
