//! Error numbers and the error type that the kernel's operations return.
use vstd::prelude::*;

verus! {

/// The error numbers that the operations of this crate give.
#[derive(Clone, Copy, PartialEq, Eq, Debug, Structural)]
pub enum Errno {
    /// Resource temporarily unavailable.
    EAGAIN,
    /// Out of memory.
    ENOMEM,
    /// Permission denied.
    EACCES,
    /// Invalid argument.
    EINVAL,
}

/// An error number, with a message where there is more to say.
#[derive(Clone, Copy, Debug)]
pub struct Error {
    pub errno: Errno,
    pub msg: Option<&'static str>,
}

impl Error {
    /// An error without a message.
    pub fn new(errno: Errno) -> (e: Error)
        ensures
            e == (Error { errno, msg: None }),
    {
        Error { errno, msg: None }
    }

    /// An error with a message.
    pub fn with_message(errno: Errno, msg: &'static str) -> (e: Error)
        ensures
            e == (Error { errno, msg: Some(msg) }),
    {
        Error { errno, msg: Some(msg) }
    }

    /// The error number.
    pub fn error(&self) -> (errno: Errno)
        ensures
            errno == self.errno,
    {
        self.errno
    }
}

} // verus!
