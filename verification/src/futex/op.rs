//! What a futex call is asked to do.
use vstd::prelude::*;

use crate::error::{Errno, Error};

verus! {

pub const FUTEX_OP_MASK: u32 = 0x0000_000F;

pub const FUTEX_FLAGS_MASK: u32 = 0xFFFF_FFF0;

pub const FUTEX_PRIVATE: u32 = 128;

pub const FUTEX_CLOCK_REALTIME: u32 = 256;

/// How long a thread waits for a futex at most.
#[derive(Clone, Copy, Debug)]
pub struct FutexTimeout {}

/// The operations on futexes.
#[allow(non_camel_case_types)]
#[derive(Clone, Copy, PartialEq, Eq, Debug, Structural)]
pub enum FutexOp {
    FUTEX_WAIT,
    FUTEX_WAKE,
    FUTEX_FD,
    FUTEX_REQUEUE,
    FUTEX_CMP_REQUEUE,
    FUTEX_WAKE_OP,
    FUTEX_LOCK_PI,
    FUTEX_UNLOCK_PI,
    FUTEX_TRYLOCK_PI,
    FUTEX_WAIT_BITSET,
    FUTEX_WAKE_BITSET,
}

impl FutexOp {
    /// The number of an operation.
    pub open spec fn number(self) -> u32 {
        match self {
            FutexOp::FUTEX_WAIT => 0,
            FutexOp::FUTEX_WAKE => 1,
            FutexOp::FUTEX_FD => 2,
            FutexOp::FUTEX_REQUEUE => 3,
            FutexOp::FUTEX_CMP_REQUEUE => 4,
            FutexOp::FUTEX_WAKE_OP => 5,
            FutexOp::FUTEX_LOCK_PI => 6,
            FutexOp::FUTEX_UNLOCK_PI => 7,
            FutexOp::FUTEX_TRYLOCK_PI => 8,
            FutexOp::FUTEX_WAIT_BITSET => 9,
            FutexOp::FUTEX_WAKE_BITSET => 10,
        }
    }

    /// The operation with a number.
    pub fn from_u32(bits: u32) -> (r: Result<FutexOp, Error>)
        ensures
            bits <= 10 <==> r is Ok,
            r matches Ok(op) ==> op.number() == bits,
            r matches Err(e) ==> e == unknown_op(),
    {
        match bits {
            0 => Ok(FutexOp::FUTEX_WAIT),
            1 => Ok(FutexOp::FUTEX_WAKE),
            2 => Ok(FutexOp::FUTEX_FD),
            3 => Ok(FutexOp::FUTEX_REQUEUE),
            4 => Ok(FutexOp::FUTEX_CMP_REQUEUE),
            5 => Ok(FutexOp::FUTEX_WAKE_OP),
            6 => Ok(FutexOp::FUTEX_LOCK_PI),
            7 => Ok(FutexOp::FUTEX_UNLOCK_PI),
            8 => Ok(FutexOp::FUTEX_TRYLOCK_PI),
            9 => Ok(FutexOp::FUTEX_WAIT_BITSET),
            10 => Ok(FutexOp::FUTEX_WAKE_BITSET),
            _ => Err(Error::with_message(Errno::EINVAL, "Unknown futex op")),
        }
    }
}

/// The error for a number that is not that of an operation.
pub open spec fn unknown_op() -> Error {
    Error { errno: Errno::EINVAL, msg: Some("Unknown futex op") }
}

/// The error for bits that are not those of flags.
pub open spec fn unknown_flags() -> Error {
    Error { errno: Errno::EINVAL, msg: Some("unknown futex flags") }
}

/// How an operation is done.
#[derive(Clone, Copy, PartialEq, Eq, Debug, Structural)]
pub struct FutexFlags {
    pub bits: u32,
}

/// Whether bits are those of flags.
pub open spec fn are_flags(bits: u32) -> bool {
    bits & !(FUTEX_PRIVATE | FUTEX_CLOCK_REALTIME) == 0
}

impl FutexFlags {
    /// The flags with these bits.
    pub fn from_u32(bits: u32) -> (r: Result<FutexFlags, Error>)
        ensures
            are_flags(bits) <==> r is Ok,
            r matches Ok(flags) ==> flags.bits == bits,
            r matches Err(e) ==> e == unknown_flags(),
    {
        if bits & !(FUTEX_PRIVATE | FUTEX_CLOCK_REALTIME) == 0 {
            Ok(FutexFlags { bits })
        } else {
            Err(Error::with_message(Errno::EINVAL, "unknown futex flags"))
        }
    }
}

/// Parts the bits of a call in the operation and its flags.
pub fn futex_op_and_flags_from_u32(bits: u32) -> (r: Result<(FutexOp, FutexFlags), Error>)
    ensures
        match r {
            Ok((op, flags)) => {
                &&& bits & FUTEX_OP_MASK <= 10
                &&& are_flags(bits & FUTEX_FLAGS_MASK)
                &&& op.number() == bits & FUTEX_OP_MASK
                &&& flags.bits == bits & FUTEX_FLAGS_MASK
            },
            Err(e) => if bits & FUTEX_OP_MASK > 10 {
                e == unknown_op()
            } else {
                !are_flags(bits & FUTEX_FLAGS_MASK) && e == unknown_flags()
            },
        },
{
    let op_bits = bits & FUTEX_OP_MASK;
    let op = match FutexOp::from_u32(op_bits) {
        Ok(op) => op,
        Err(e) => {
            return Err(e);
        },
    };
    let flags_bits = bits & FUTEX_FLAGS_MASK;
    let flags = match FutexFlags::from_u32(flags_bits) {
        Ok(flags) => flags,
        Err(e) => {
            return Err(e);
        },
    };
    Ok((op, flags))
}

/// Every operation goes with all flags: their bits, put together, are parted in the same operation
/// and the same flags.
pub proof fn law_op_and_flags_part(op: FutexOp, flags: u32)
    requires
        are_flags(flags),
    ensures
        (op.number() | flags) & FUTEX_OP_MASK == op.number(),
        (op.number() | flags) & FUTEX_FLAGS_MASK == flags,
{
    let n = op.number();
    assert((n | flags) & 0x0000_000F == n && (n | flags) & 0xFFFF_FFF0 == flags) by (bit_vector)
        requires
            n <= 10,
            flags & !(128u32 | 256u32) == 0,
    ;
}

/// Different operations have different numbers.
pub proof fn law_numbers_differ(a: FutexOp, b: FutexOp)
    ensures
        a.number() == b.number() <==> a == b,
{
}

/// The numbers of the operations are those that programs use.
pub proof fn law_numbers_are_fixed(op: FutexOp)
    ensures
        op.number() == 0 <==> op == FutexOp::FUTEX_WAIT,
        op.number() == 1 <==> op == FutexOp::FUTEX_WAKE,
        op.number() == 2 <==> op == FutexOp::FUTEX_FD,
        op.number() == 3 <==> op == FutexOp::FUTEX_REQUEUE,
        op.number() == 4 <==> op == FutexOp::FUTEX_CMP_REQUEUE,
        op.number() == 5 <==> op == FutexOp::FUTEX_WAKE_OP,
        op.number() == 6 <==> op == FutexOp::FUTEX_LOCK_PI,
        op.number() == 7 <==> op == FutexOp::FUTEX_UNLOCK_PI,
        op.number() == 8 <==> op == FutexOp::FUTEX_TRYLOCK_PI,
        op.number() == 9 <==> op == FutexOp::FUTEX_WAIT_BITSET,
        op.number() == 10 <==> op == FutexOp::FUTEX_WAKE_BITSET,
        op.number() <= 10,
{
}

/// Bits are flags exactly if no bit is set but those of 128 and of 256, so there are four of them.
pub proof fn law_four_flags(bits: u32)
    ensures
        are_flags(bits) <==> bits == 0 || bits == 128 || bits == 256 || bits == 384,
{
    assert(bits & !(128u32 | 256u32) == 0 <==> bits == 0 || bits == 128 || bits == 256 || bits
        == 384) by (bit_vector);
}

/// The bits of a call are those of the operation, the lowest four, and those of the flags.
pub proof fn law_bits_make_up_call(bits: u32)
    ensures
        bits & FUTEX_OP_MASK == bits % 16,
        (bits & FUTEX_OP_MASK) + (bits & FUTEX_FLAGS_MASK) == bits,
{
    assert(bits & 0x0000_000F == bits % 16 && (bits & 0x0000_000F) + (bits & 0xFFFF_FFF0) == bits)
        by (bit_vector);
}

} // verus!
