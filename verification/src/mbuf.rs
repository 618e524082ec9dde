//! Views of NimBLE `os_mbuf` data buffers.
use vstd::prelude::*;

verus! {

/// A view of an `os_mbuf`, the data buffers NimBLE hands to event handlers:
/// an opaque handle (the buffer's address, 0 for none). Copying data in and
/// out of the buffer is done by the host stack itself.
#[derive(Clone, Copy, Debug, PartialEq, Eq, Structural)]
pub struct Mbuf {
    om: usize,
}

impl Mbuf {
    /// The handle.
    pub closed spec fn spec_handle(&self) -> usize {
        self.om
    }

    /// Wraps the buffer at `om`.
    pub fn from_raw(om: usize) -> (r: Self)
        ensures
            r.spec_handle() == om,
    {
        Mbuf { om }
    }

    /// The buffer's address.
    pub fn handle(&self) -> (r: usize)
        ensures
            r == self.spec_handle(),
    {
        self.om
    }

    /// Whether there is no buffer (a completion delivered with an error
    /// status may carry none; reading it then copies nothing).
    pub fn is_null(&self) -> (r: bool)
        ensures
            r == (self.spec_handle() == 0),
    {
        self.om == 0
    }
}

} // verus!
