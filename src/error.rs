use vstd::prelude::*;

verus! {

/// The code of an error that no kernel call reports: a record or a byte
/// count that does not fit the buffer it is said to lie in.
pub const CAPACITY_EXCEEDED: isize = -1;

/// The code of a write that took no byte of a non-empty slice.
pub const WRITE_ZERO: isize = -2;

/// An error reported by the kernel, carrying its raw error number.
#[derive(Debug, Clone, Copy, PartialEq, Eq, Structural)]
pub struct Error(pub isize);

impl Error {
    /// The raw error number.
    pub fn code(&self) -> (r: isize)
        ensures
            r == self.0,
    {
        self.0
    }
}

impl From<i32> for Error {
    fn from(e: i32) -> (r: Error)
        ensures
            r.0 == e as isize,
    {
        Error(e as isize)
    }
}

impl vstd::std_specs::convert::FromSpecImpl<i32> for Error {
    open spec fn obeys_from_spec() -> bool {
        true
    }

    open spec fn from_spec(e: i32) -> Error {
        Error(e as isize)
    }
}

impl From<isize> for Error {
    fn from(e: isize) -> (r: Error)
        ensures
            r.0 == e,
    {
        Error(e)
    }
}

impl vstd::std_specs::convert::FromSpecImpl<isize> for Error {
    open spec fn obeys_from_spec() -> bool {
        true
    }

    open spec fn from_spec(e: isize) -> Error {
        Error(e)
    }
}

} // verus!
