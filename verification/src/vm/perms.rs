//! The permissions of mapped pages and the rights to a memory object.
use vstd::prelude::*;

verus! {

/// What can be done with a mapped page.
#[derive(Clone, Copy, PartialEq, Eq, Debug, Structural)]
pub struct VmPerm {
    pub read: bool,
    pub write: bool,
    pub execute: bool,
}

impl VmPerm {
    /// Whether these permissions hold all of the others.
    pub open spec fn holds(self, other: VmPerm) -> bool {
        &&& other.read ==> self.read
        &&& other.write ==> self.write
        &&& other.execute ==> self.execute
    }

    /// These permissions, but for writing.
    pub open spec fn read_only(self) -> VmPerm {
        VmPerm { write: false, ..self }
    }

    /// The permission to read, and no other.
    pub fn r() -> (p: VmPerm)
        ensures
            p == (VmPerm { read: true, write: false, execute: false }),
    {
        VmPerm { read: true, write: false, execute: false }
    }

    /// The permission to write, and no other.
    pub fn w() -> (p: VmPerm)
        ensures
            p == (VmPerm { read: false, write: true, execute: false }),
    {
        VmPerm { read: false, write: true, execute: false }
    }

    /// Whether these permissions hold all of the others.
    pub fn contains(&self, other: VmPerm) -> (r: bool)
        ensures
            r == self.holds(other),
    {
        (!other.read || self.read) && (!other.write || self.write) && (!other.execute || self.execute)
    }

    /// These permissions, but for writing.
    pub fn without_write(&self) -> (p: VmPerm)
        ensures
            p == self.read_only(),
    {
        VmPerm { read: self.read, write: false, execute: self.execute }
    }
}

/// What the holder of a memory object may do with it.
#[derive(Clone, Copy, PartialEq, Eq, Debug, Structural)]
pub struct Rights {
    pub read: bool,
    pub write: bool,
    pub execute: bool,
    pub dup: bool,
}

impl Rights {
    /// Whether these rights hold all of the others.
    pub open spec fn holds(self, other: Rights) -> bool {
        &&& other.read ==> self.read
        &&& other.write ==> self.write
        &&& other.execute ==> self.execute
        &&& other.dup ==> self.dup
    }

    /// The rights that permissions ask for.
    pub open spec fn of(perm: VmPerm) -> Rights {
        Rights { read: perm.read, write: perm.write, execute: perm.execute, dup: false }
    }

    /// Whether these rights hold all of the others.
    pub fn contains(&self, other: Rights) -> (r: bool)
        ensures
            r == self.holds(other),
    {
        (!other.read || self.read) && (!other.write || self.write) && (!other.execute || self.execute)
            && (!other.dup || self.dup)
    }

    /// The rights that permissions ask for.
    pub fn from_perm(perm: VmPerm) -> (r: Rights)
        ensures
            r == Rights::of(perm),
    {
        Rights { read: perm.read, write: perm.write, execute: perm.execute, dup: false }
    }
}

/// Permissions hold others exactly if they hold each of them.
pub proof fn law_holds_is_each(a: VmPerm, b: VmPerm)
    ensures
        a.holds(b) <==> (b.read ==> a.read) && (b.write ==> a.write) && (b.execute ==> a.execute),
        a.holds(b) && b.holds(a) <==> a == b,
{
}

/// Taking the permission to write away keeps the others, and leaves permissions that all hold that
/// held the ones without writing.
pub proof fn law_read_only_keeps_others(a: VmPerm)
    ensures
        !a.read_only().write,
        a.read_only().read == a.read,
        a.read_only().execute == a.execute,
        a.holds(a.read_only()),
        !a.write ==> a.read_only() == a,
{
}

/// Rights hold what permissions ask for exactly if there is the right to each of them; no right to
/// make further references is needed.
pub proof fn law_rights_follow_perm(r: Rights, p: VmPerm)
    ensures
        r.holds(Rights::of(p)) <==> (p.read ==> r.read) && (p.write ==> r.write) && (p.execute
            ==> r.execute),
{
}

} // verus!
